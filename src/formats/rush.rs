//! Rush: `[fps: i16 LE]`, then records `[frame: u32 LE][state: u8 (bit 0 hold, bit 1 player 2)]`.
//!
//! The frame rate is a whole number in the file: it is cast to and from the
//! canonical binary32 value as `as` does.

use vstd::prelude::*;
use crate::binary32::{f32_from_int, f32_of_int, f32_to_int, f32_to_int_sat};
use crate::bytes::{
    decode_fixed, le_u16, lemma_concat_map_fixed, lemma_concat_map_push, lemma_decode_concat_map,
    lemma_u16_le, push_u16_le, push_u32_le, read_u16_le, read_u32_le, u16_le,
};
use crate::formats::replaybot::{lemma_replaybot_record, replaybot_body, replaybot_event, replaybot_record};
use crate::replay::{
    clicks_of, events_of, hold_events, lemma_events_of_clicks_of, lemma_single_player_clicks, single_player, parsed_into, Click, Decoded,
    GameVersion, HoldEvent, Replay, ReplayError, ReplayModel,
};

verus! {

pub open spec fn rush_events(b: Seq<u8>) -> Seq<HoldEvent> {
    decode_fixed(b, 2, 5, |s: Seq<u8>| replaybot_event(s))
}

/// The frame rate as stored: the canonical rate cast to `i16`.
pub open spec fn rush_stored_fps(fps: u32) -> i16 {
    f32_to_int(fps, -0x8000, 0x7FFF) as i16
}

pub open spec fn rush_decode(b: Seq<u8>) -> Result<Decoded, ReplayError> {
    if b.len() < 2 || (b.len() - 2) % 5 != 0 {
        Err(ReplayError::Truncated)
    } else {
        Ok(
            Decoded {
                fps: f32_of_int(le_u16(b, 0) as i16 as int),
                clicks: clicks_of(rush_events(b)),
            },
        )
    }
}

pub open spec fn rush_encode(m: ReplayModel) -> Seq<u8> {
    u16_le(rush_stored_fps(m.fps) as u16) + replaybot_body(events_of(m.clicks))
}

proof fn lemma_rush_events_index(b: Seq<u8>, i: int)
    requires
        b.len() >= 2,
        0 <= i < (b.len() - 2) / 5,
    ensures
        rush_events(b)[i] == replaybot_event(b.subrange(2 + 5 * i, 2 + 5 * i + 5)),
{
}

/// A Rush file read back gives the frame rate cast to a whole number and
/// back, and the single-player actions that were written.
pub proof fn lemma_rush_round_trip(m: ReplayModel)
    ensures
        rush_decode(rush_encode(m)) matches Ok(d) && d.fps == f32_of_int(
            rush_stored_fps(m.fps) as int,
        ) && events_of(d.clicks) == events_of(m.clicks)
            && (single_player(m.clicks) ==> d.clicks == m.clicks),
{
    let fps = rush_stored_fps(m.fps);
    let enc = |e: HoldEvent| replaybot_record(e);
    let dec = |s: Seq<u8>| replaybot_event(s);
    assert forall|e: HoldEvent| #[trigger] enc(e).len() == 5 by {
        lemma_replaybot_record(e);
    }
    assert forall|e: HoldEvent| #[trigger] dec(enc(e)) == e by {
        lemma_replaybot_record(e);
    }
    let evs = events_of(m.clicks);
    let hdr = u16_le(fps as u16);
    lemma_u16_le(fps as u16);
    lemma_decode_concat_map(hdr, evs, enc, dec, 5);
    lemma_concat_map_fixed(evs, enc, 5);
    let b = rush_encode(m);
    assert(b.subrange(0, 2) =~= hdr);
    assert(((fps as u16) as i16) == fps) by (bit_vector);
    assert((b.len() - 2) % 5 == 0) by (nonlinear_arith)
        requires
            b.len() - 2 == 5 * evs.len(),
    ;
    lemma_events_of_clicks_of(evs);
    if single_player(m.clicks) {
        lemma_single_player_clicks(m.clicks);
    }
}

impl Replay {
    /// Reads a Rush file.
    pub fn parse_rush(&mut self, data: &[u8]) -> (r: Result<(), ReplayError>)
        ensures
            parsed_into(old(self)@, final(self)@, r, rush_decode(data@), GameVersion::Version2113),
    {
        let len = data.len();
        if len < 2 || (len - 2) % 5 != 0 {
            return Err(ReplayError::Truncated);
        }
        let fps = f32_from_int(read_u16_le(data, 0) as i16 as i32);
        let n = (len - 2) / 5;
        let ghost evs = rush_events(data@);
        let mut clicks: Vec<Click> = Vec::new();
        let mut i: usize = 0;
        let mut pos: usize = 2;
        while i < n
            invariant
                evs == rush_events(data@),
                n == evs.len(),
                len == data@.len(),
                pos == 2 + 5 * i,
                2 + 5 * n == len,
                i <= n,
                clicks@ == clicks_of(evs.subrange(0, i as int)),
            decreases n - i,
        {
            let frame = read_u32_le(data, pos);
            let state = data[pos + 4];
            let hold = state & 1 == 1;
            let player_2 = state & 2 == 2;
            proof {
                let s = data@.subrange(pos as int, pos + 5);
                assert(s.subrange(0, 4) =~= data@.subrange(pos as int, pos + 4));
                lemma_rush_events_index(data@, i as int);
                assert(s[4] == data@[pos + 4]);
                assert(evs[i as int] == HoldEvent { frame, hold, player_2 });
            }
            clicks.push(Click::from_hold(frame, hold, player_2));
            i += 1;
            pos += 5;
            assert(clicks@ =~= clicks_of(evs.subrange(0, i as int)));
        }
        assert(evs.subrange(0, n as int) =~= evs);
        self.accept(fps, clicks, GameVersion::Version2113);
        Ok(())
    }

    /// Writes the replay as a Rush file.
    pub fn write_rush(&self) -> (out: Vec<u8>)
        ensures
            out@ == rush_encode(self@),
    {
        let evs = hold_events(&self.clicks);
        let mut out: Vec<u8> = Vec::new();
        let fps = f32_to_int_sat(self.fps, -0x8000, 0x7FFF) as i16;
        push_u16_le(&mut out, fps as u16);
        let ghost hdr = out@;
        let mut i: usize = 0;
        while i < evs.len()
            invariant
                i <= evs@.len(),
                out@ == hdr + replaybot_body(evs@.subrange(0, i as int)),
            decreases evs@.len() - i,
        {
            let e = evs[i];
            let ghost before = out@;
            let state: u8 = (if e.hold { 1u8 } else { 0u8 }) + (if e.player_2 { 2u8 } else { 0u8 });
            push_u32_le(&mut out, e.frame);
            out.push(state);
            proof {
                lemma_concat_map_push(
                    evs@.subrange(0, i as int),
                    e,
                    |e: HoldEvent| replaybot_record(e),
                );
                assert(out@ =~= before + replaybot_record(e));
                assert(evs@.subrange(0, i + 1) =~= evs@.subrange(0, i as int).push(e));
            }
            i += 1;
            assert(out@ =~= hdr + replaybot_body(evs@.subrange(0, i as int)));
        }
        assert(evs@.subrange(0, i as int) =~= evs@);
        out
    }
}

} // verus!
