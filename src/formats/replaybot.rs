//! ReplayBot: magic `RPLY`, version byte 2, a byte 1 for a frame replay,
//! `[fps: f32 LE]`, then records `[frame: u32 LE][state: u8 (bit 0 hold, bit 1 player 2)]`.

use vstd::prelude::*;
use crate::bytes::{
    concat_map, decode_fixed, has_magic4, lemma_concat_map_fixed, lemma_concat_map_push,
    lemma_decode_concat_map, lemma_u32_le, le_u32, push_u32_le, read_u32_le, u32_le,
};
use crate::formats::fembot::{lemma_state_byte, state_byte};
use crate::replay::{
    clicks_of, events_of, hold_events, lemma_events_of_clicks_of, lemma_single_player_clicks, single_player, parsed_into, Click, Decoded,
    GameVersion, HoldEvent, Replay, ReplayError, ReplayModel,
};

verus! {

pub open spec fn replaybot_magic() -> Seq<u8> {
    seq![0x52u8, 0x50, 0x4C, 0x59]
}

pub open spec fn replaybot_record(e: HoldEvent) -> Seq<u8> {
    u32_le(e.frame) + seq![state_byte(e.hold, e.player_2)]
}

pub open spec fn replaybot_event(s: Seq<u8>) -> HoldEvent {
    HoldEvent {
        frame: vstd::bytes::spec_u32_from_le_bytes(s.subrange(0, 4)),
        hold: s[4] & 1 == 1,
        player_2: s[4] & 2 == 2,
    }
}

pub open spec fn replaybot_body(evs: Seq<HoldEvent>) -> Seq<u8> {
    concat_map(evs, |e: HoldEvent| replaybot_record(e))
}

pub open spec fn replaybot_events(b: Seq<u8>) -> Seq<HoldEvent> {
    decode_fixed(b, 10, 5, |s: Seq<u8>| replaybot_event(s))
}

pub open spec fn replaybot_encode(m: ReplayModel) -> Seq<u8> {
    replaybot_magic() + seq![2u8, 1u8] + u32_le(m.fps) + replaybot_body(events_of(m.clicks))
}

/// A wrong magic number or version is a bad header; a position replay is not
/// supported.
pub open spec fn replaybot_decode(b: Seq<u8>) -> Result<Decoded, ReplayError> {
    if b.len() < 5 || b.subrange(0, 4) != replaybot_magic() || b[4] != 2 {
        Err(ReplayError::MalformedHeader)
    } else if b.len() < 6 {
        Err(ReplayError::Truncated)
    } else if b[5] != 1 {
        Err(ReplayError::UnsupportedVariant)
    } else if b.len() < 10 || (b.len() - 10) % 5 != 0 {
        Err(ReplayError::Truncated)
    } else {
        Ok(Decoded { fps: le_u32(b, 6), clicks: clicks_of(replaybot_events(b)) })
    }
}

pub proof fn lemma_replaybot_record(e: HoldEvent)
    ensures
        replaybot_record(e).len() == 5,
        replaybot_event(replaybot_record(e)) == e,
{
    lemma_u32_le(e.frame);
    lemma_state_byte(e.hold, e.player_2);
    assert(replaybot_record(e).subrange(0, 4) =~= u32_le(e.frame));
}

proof fn lemma_replaybot_events_index(b: Seq<u8>, i: int)
    requires
        b.len() >= 10,
        0 <= i < (b.len() - 10) / 5,
    ensures
        replaybot_events(b)[i] == replaybot_event(b.subrange(10 + 5 * i, 10 + 5 * i + 5)),
{
}

/// A ReplayBot file read back gives the frame rate and the single-player
/// actions that were written.
pub proof fn lemma_replaybot_round_trip(m: ReplayModel)
    ensures
        replaybot_decode(replaybot_encode(m)) matches Ok(d) && d.fps == m.fps && events_of(
            d.clicks,
        ) == events_of(m.clicks)
            && (single_player(m.clicks) ==> d.clicks == m.clicks),
{
    let enc = |e: HoldEvent| replaybot_record(e);
    let dec = |s: Seq<u8>| replaybot_event(s);
    assert forall|e: HoldEvent| #[trigger] enc(e).len() == 5 by {
        lemma_replaybot_record(e);
    }
    assert forall|e: HoldEvent| #[trigger] dec(enc(e)) == e by {
        lemma_replaybot_record(e);
    }
    let evs = events_of(m.clicks);
    let hdr = replaybot_magic() + seq![2u8, 1u8] + u32_le(m.fps);
    lemma_u32_le(m.fps);
    lemma_decode_concat_map(hdr, evs, enc, dec, 5);
    lemma_concat_map_fixed(evs, enc, 5);
    let b = replaybot_encode(m);
    assert(b == hdr + replaybot_body(evs));
    assert(b.subrange(0, 4) =~= replaybot_magic());
    assert(b.subrange(6, 10) =~= u32_le(m.fps));
    assert(b[4] == 2 && b[5] == 1);
    assert((b.len() - 10) % 5 == 0) by (nonlinear_arith)
        requires
            b.len() - 10 == 5 * evs.len(),
    ;
    lemma_events_of_clicks_of(evs);
    if single_player(m.clicks) {
        lemma_single_player_clicks(m.clicks);
    }
}

impl Replay {
    /// Reads a ReplayBot file.
    pub fn parse_replaybot(&mut self, data: &[u8]) -> (r: Result<(), ReplayError>)
        ensures
            parsed_into(
                old(self)@,
                final(self)@,
                r,
                replaybot_decode(data@),
                GameVersion::Version2113,
            ),
    {
        let len = data.len();
        if len < 5 || !has_magic4(data, 0, 0x52, 0x50, 0x4C, 0x59) || data[4] != 2 {
            return Err(ReplayError::MalformedHeader);
        }
        if len < 6 {
            return Err(ReplayError::Truncated);
        }
        if data[5] != 1 {
            return Err(ReplayError::UnsupportedVariant);
        }
        if len < 10 || (len - 10) % 5 != 0 {
            return Err(ReplayError::Truncated);
        }
        let fps = read_u32_le(data, 6);
        let n = (len - 10) / 5;
        let ghost evs = replaybot_events(data@);
        let mut clicks: Vec<Click> = Vec::new();
        let mut i: usize = 0;
        let mut pos: usize = 10;
        while i < n
            invariant
                evs == replaybot_events(data@),
                n == evs.len(),
                len == data@.len(),
                pos == 10 + 5 * i,
                10 + 5 * n == len,
                i <= n,
                clicks@ == clicks_of(evs.subrange(0, i as int)),
            decreases n - i,
        {
            let frame = read_u32_le(data, pos);
            let state = data[pos + 4];
            let hold = state & 1 == 1;
            let player_2 = state & 2 == 2;
            proof {
                let s = data@.subrange(pos as int, pos + 5);
                assert(s.subrange(0, 4) =~= data@.subrange(pos as int, pos + 4));
                lemma_replaybot_events_index(data@, i as int);
                assert(s[4] == data@[pos + 4]);
                assert(evs[i as int] == HoldEvent { frame, hold, player_2 });
            }
            clicks.push(Click::from_hold(frame, hold, player_2));
            i += 1;
            pos += 5;
            assert(clicks@ =~= clicks_of(evs.subrange(0, i as int)));
        }
        assert(evs.subrange(0, n as int) =~= evs);
        self.accept(fps, clicks, GameVersion::Version2113);
        Ok(())
    }

    /// Writes the replay as a ReplayBot frame replay.
    pub fn write_replaybot(&self) -> (out: Vec<u8>)
        ensures
            out@ == replaybot_encode(self@),
    {
        let evs = hold_events(&self.clicks);
        let mut out: Vec<u8> = Vec::new();
        out.push(0x52u8);
        out.push(0x50u8);
        out.push(0x4Cu8);
        out.push(0x59u8);
        out.push(2u8);
        out.push(1u8);
        push_u32_le(&mut out, self.fps);
        let ghost hdr = out@;
        assert(hdr =~= replaybot_magic() + seq![2u8, 1u8] + u32_le(self.fps));
        let mut i: usize = 0;
        while i < evs.len()
            invariant
                i <= evs@.len(),
                out@ == hdr + replaybot_body(evs@.subrange(0, i as int)),
            decreases evs@.len() - i,
        {
            let e = evs[i];
            let ghost before = out@;
            let state: u8 = (if e.hold { 1u8 } else { 0u8 }) + (if e.player_2 { 2u8 } else { 0u8 });
            push_u32_le(&mut out, e.frame);
            out.push(state);
            proof {
                lemma_concat_map_push(
                    evs@.subrange(0, i as int),
                    e,
                    |e: HoldEvent| replaybot_record(e),
                );
                assert(out@ =~= before + replaybot_record(e));
                assert(evs@.subrange(0, i + 1) =~= evs@.subrange(0, i as int).push(e));
            }
            i += 1;
            assert(out@ =~= hdr + replaybot_body(evs@.subrange(0, i as int)));
        }
        assert(evs@.subrange(0, i as int) =~= evs@);
        out
    }
}

} // verus!
