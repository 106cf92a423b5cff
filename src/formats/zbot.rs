//! zBot: `[delta: f32 LE][speedhack: f32 LE]`, then records
//! `[frame: i32 LE][hold: '1' or '0'][player 2: '1' or '0']`.
//!
//! The frame rate is `1 / (delta * speedhack)`, rounded; the caller computes it
//! from the two header values, and the delta from the frame rate.

use vstd::prelude::*;
use crate::bytes::{
    concat_map, decode_fixed, lemma_concat_map_fixed, lemma_concat_map_push,
    lemma_decode_concat_map, lemma_u32_le, le_u32, push_u32_le, read_u32_le, u32_le,
};
use crate::replay::{
    clicks_of, events_of, hold_events, lemma_events_of_clicks_of, lemma_single_player_clicks, single_player, parsed_replacing, Click, Decoded,
    GameVersion, HoldEvent, Replay, ReplayError, ReplayModel, DEFAULT_FPS,
};

verus! {

/// The bit pattern of the binary32 value 1.0, the speedhack written.
pub const UNIT_SPEEDHACK: u32 = 0x3F80_0000;

pub open spec fn digit_flag(b: bool) -> u8 {
    if b {
        0x31u8
    } else {
        0x30u8
    }
}

pub open spec fn zbot_record(e: HoldEvent) -> Seq<u8> {
    u32_le(e.frame) + seq![digit_flag(e.hold), digit_flag(e.player_2)]
}

pub open spec fn zbot_event(s: Seq<u8>) -> HoldEvent {
    HoldEvent {
        frame: vstd::bytes::spec_u32_from_le_bytes(s.subrange(0, 4)),
        hold: s[4] == 0x31,
        player_2: s[5] == 0x31,
    }
}

pub open spec fn zbot_body(evs: Seq<HoldEvent>) -> Seq<u8> {
    concat_map(evs, |e: HoldEvent| zbot_record(e))
}

pub open spec fn zbot_events(b: Seq<u8>) -> Seq<HoldEvent> {
    decode_fixed(b, 8, 6, |s: Seq<u8>| zbot_event(s))
}

/// The delta and speedhack bit patterns, if the file holds them.
pub open spec fn zbot_header_of(b: Seq<u8>) -> Option<(u32, u32)> {
    if b.len() < 8 {
        None
    } else {
        Some((le_u32(b, 0), le_u32(b, 4)))
    }
}

/// A zBot file whose header gives the binary32 frame rate `fps`.
pub open spec fn zbot_decode(b: Seq<u8>, fps: u32) -> Result<Decoded, ReplayError> {
    if b.len() < 8 || (b.len() - 8) % 6 != 0 {
        Err(ReplayError::Truncated)
    } else {
        Ok(Decoded { fps, clicks: clicks_of(zbot_events(b)) })
    }
}

pub open spec fn zbot_encode(m: ReplayModel, delta: u32) -> Seq<u8> {
    u32_le(delta) + u32_le(UNIT_SPEEDHACK) + zbot_body(events_of(m.clicks))
}

proof fn lemma_zbot_record(e: HoldEvent)
    ensures
        zbot_record(e).len() == 6,
        zbot_event(zbot_record(e)) == e,
{
    lemma_u32_le(e.frame);
    assert(zbot_record(e).subrange(0, 4) =~= u32_le(e.frame));
}

proof fn lemma_zbot_events_index(b: Seq<u8>, i: int)
    requires
        b.len() >= 8,
        0 <= i < (b.len() - 8) / 6,
    ensures
        zbot_events(b)[i] == zbot_event(b.subrange(8 + 6 * i, 8 + 6 * i + 6)),
{
}

/// A zBot file read back gives the header written and the single-player
/// actions that were written.
pub proof fn lemma_zbot_round_trip(m: ReplayModel, delta: u32, fps: u32)
    ensures
        zbot_header_of(zbot_encode(m, delta)) == Some((delta, UNIT_SPEEDHACK)),
        zbot_decode(zbot_encode(m, delta), fps) matches Ok(d) && d.fps == fps && events_of(
            d.clicks,
        ) == events_of(m.clicks)
            && (single_player(m.clicks) ==> d.clicks == m.clicks),
{
    let enc = |e: HoldEvent| zbot_record(e);
    let dec = |s: Seq<u8>| zbot_event(s);
    assert forall|e: HoldEvent| #[trigger] enc(e).len() == 6 by {
        lemma_zbot_record(e);
    }
    assert forall|e: HoldEvent| #[trigger] dec(enc(e)) == e by {
        lemma_zbot_record(e);
    }
    let evs = events_of(m.clicks);
    let hdr = u32_le(delta) + u32_le(UNIT_SPEEDHACK);
    lemma_u32_le(delta);
    lemma_u32_le(UNIT_SPEEDHACK);
    lemma_decode_concat_map(hdr, evs, enc, dec, 6);
    lemma_concat_map_fixed(evs, enc, 6);
    let b = zbot_encode(m, delta);
    assert(b.subrange(0, 4) =~= u32_le(delta));
    assert(b.subrange(4, 8) =~= u32_le(UNIT_SPEEDHACK));
    assert((b.len() - 8) % 6 == 0) by (nonlinear_arith)
        requires
            b.len() - 8 == 6 * evs.len(),
    ;
    lemma_events_of_clicks_of(evs);
    if single_player(m.clicks) {
        lemma_single_player_clicks(m.clicks);
    }
}

/// The delta and speedhack bit patterns at the start of a zBot file.
pub fn zbot_header(data: &[u8]) -> (r: Option<(u32, u32)>)
    ensures
        r == zbot_header_of(data@),
{
    if data.len() < 8 {
        None
    } else {
        Some((read_u32_le(data, 0), read_u32_le(data, 4)))
    }
}

impl Replay {
    /// Reads a zBot file whose header gives the binary32 frame rate `fps`.
    /// The replay is cleared first, so a failed read leaves it cleared.
    pub fn parse_zbot(&mut self, data: &[u8], fps: u32) -> (r: Result<(), ReplayError>)
        ensures
            parsed_replacing(
                ReplayModel { fps: DEFAULT_FPS, clicks: Seq::empty(), ..old(self)@ },
                final(self)@,
                r,
                zbot_decode(data@, fps),
                GameVersion::Version2113,
            ),
    {
        self.clear();
        let len = data.len();
        if len < 8 || (len - 8) % 6 != 0 {
            return Err(ReplayError::Truncated);
        }
        let n = (len - 8) / 6;
        let ghost evs = zbot_events(data@);
        let mut clicks: Vec<Click> = Vec::new();
        let mut i: usize = 0;
        let mut pos: usize = 8;
        while i < n
            invariant
                evs == zbot_events(data@),
                n == evs.len(),
                len == data@.len(),
                pos == 8 + 6 * i,
                8 + 6 * n == len,
                i <= n,
                clicks@ == clicks_of(evs.subrange(0, i as int)),
            decreases n - i,
        {
            let frame = read_u32_le(data, pos);
            let hold = data[pos + 4] == 0x31;
            let player_2 = data[pos + 5] == 0x31;
            proof {
                let s = data@.subrange(pos as int, pos + 6);
                assert(s.subrange(0, 4) =~= data@.subrange(pos as int, pos + 4));
                lemma_zbot_events_index(data@, i as int);
                assert(s[4] == data@[pos + 4] && s[5] == data@[pos + 5]);
                assert(evs[i as int] == HoldEvent { frame, hold, player_2 });
            }
            clicks.push(Click::from_hold(frame, hold, player_2));
            i += 1;
            pos += 6;
            assert(clicks@ =~= clicks_of(evs.subrange(0, i as int)));
        }
        assert(evs.subrange(0, n as int) =~= evs);
        self.replace_with(fps, clicks, GameVersion::Version2113);
        Ok(())
    }

    /// Writes the replay as a zBot file with the frame delta `delta` (a
    /// binary32 bit pattern) and a speedhack of one.
    pub fn write_zbot(&self, delta: u32) -> (out: Vec<u8>)
        ensures
            out@ == zbot_encode(self@, delta),
    {
        let evs = hold_events(&self.clicks);
        let mut out: Vec<u8> = Vec::new();
        push_u32_le(&mut out, delta);
        push_u32_le(&mut out, UNIT_SPEEDHACK);
        let ghost hdr = out@;
        let mut i: usize = 0;
        while i < evs.len()
            invariant
                i <= evs@.len(),
                out@ == hdr + zbot_body(evs@.subrange(0, i as int)),
            decreases evs@.len() - i,
        {
            let e = evs[i];
            let ghost before = out@;
            push_u32_le(&mut out, e.frame);
            out.push(if e.hold { 0x31u8 } else { 0x30u8 });
            out.push(if e.player_2 { 0x31u8 } else { 0x30u8 });
            proof {
                lemma_concat_map_push(evs@.subrange(0, i as int), e, |e: HoldEvent| zbot_record(e));
                assert(out@ =~= before + zbot_record(e));
                assert(evs@.subrange(0, i + 1) =~= evs@.subrange(0, i as int).push(e));
            }
            i += 1;
            assert(out@ =~= hdr + zbot_body(evs@.subrange(0, i as int)));
        }
        assert(evs@.subrange(0, i as int) =~= evs@);
        out
    }
}

} // verus!
