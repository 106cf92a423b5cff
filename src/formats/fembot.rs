//! Fembot: magic `FBRP`, `[fps: f32 LE]`, then records
//! `[state: u8 (bit 0 hold, bit 1 player 2)][frame: u32 LE][60 reserved bytes]`.

use vstd::prelude::*;
use crate::bytes::{
    concat_map, decode_fixed, has_magic4, lemma_concat_map_fixed, lemma_concat_map_push,
    lemma_decode_concat_map, lemma_u32_le, le_u32, push_u32_le, push_zeros, read_u32_le, u32_le,
};
use crate::replay::{
    clicks_of, events_of, hold_events, lemma_events_of_clicks_of, lemma_single_player_clicks, single_player, parsed_into, Click, Decoded,
    GameVersion, HoldEvent, Replay, ReplayError, ReplayModel,
};

verus! {

pub open spec fn fembot_magic() -> Seq<u8> {
    seq![0x46u8, 0x42, 0x52, 0x50]
}

/// Bit 0 holds the press, bit 1 the player.
pub open spec fn state_byte(hold: bool, player_2: bool) -> u8 {
    ((if hold { 1u8 } else { 0u8 }) + (if player_2 { 2u8 } else { 0u8 })) as u8
}

pub open spec fn fembot_record(e: HoldEvent) -> Seq<u8> {
    seq![state_byte(e.hold, e.player_2)] + u32_le(e.frame) + Seq::new(60, |i: int| 0u8)
}

pub open spec fn fembot_event(s: Seq<u8>) -> HoldEvent {
    HoldEvent {
        frame: vstd::bytes::spec_u32_from_le_bytes(s.subrange(1, 5)),
        hold: s[0] & 1 == 1,
        player_2: s[0] & 2 == 2,
    }
}

pub open spec fn fembot_body(evs: Seq<HoldEvent>) -> Seq<u8> {
    concat_map(evs, |e: HoldEvent| fembot_record(e))
}

pub open spec fn fembot_events(b: Seq<u8>) -> Seq<HoldEvent> {
    decode_fixed(b, 8, 65, |s: Seq<u8>| fembot_event(s))
}

pub open spec fn fembot_encode(m: ReplayModel) -> Seq<u8> {
    fembot_magic() + u32_le(m.fps) + fembot_body(events_of(m.clicks))
}

pub open spec fn fembot_decode(b: Seq<u8>) -> Result<Decoded, ReplayError> {
    if b.len() < 4 || b.subrange(0, 4) != fembot_magic() {
        Err(ReplayError::MalformedHeader)
    } else if b.len() < 8 || (b.len() - 8) % 65 != 0 {
        Err(ReplayError::Truncated)
    } else {
        Ok(Decoded { fps: le_u32(b, 4), clicks: clicks_of(fembot_events(b)) })
    }
}

pub proof fn lemma_state_byte(hold: bool, player_2: bool)
    ensures
        state_byte(hold, player_2) & 1 == 1 <==> hold,
        state_byte(hold, player_2) & 2 == 2 <==> player_2,
        state_byte(hold, player_2) / 2 == 1 <==> player_2,
{
    let s = state_byte(hold, player_2);
    assert(s == 0 || s == 1 || s == 2 || s == 3);
    assert(0u8 & 1 == 0 && 1u8 & 1 == 1 && 2u8 & 1 == 0 && 3u8 & 1 == 1) by (bit_vector);
    assert(0u8 & 2 == 0 && 1u8 & 2 == 0 && 2u8 & 2 == 2 && 3u8 & 2 == 2) by (bit_vector);
}

proof fn lemma_fembot_record(e: HoldEvent)
    ensures
        fembot_record(e).len() == 65,
        fembot_event(fembot_record(e)) == e,
{
    lemma_u32_le(e.frame);
    lemma_state_byte(e.hold, e.player_2);
    assert(fembot_record(e).subrange(1, 5) =~= u32_le(e.frame));
}

proof fn lemma_fembot_events_index(b: Seq<u8>, i: int)
    requires
        b.len() >= 8,
        0 <= i < (b.len() - 8) / 65,
    ensures
        fembot_events(b)[i] == fembot_event(b.subrange(8 + 65 * i, 8 + 65 * i + 65)),
{
}

/// A Fembot file read back gives the frame rate and the single-player actions
/// that were written.
pub proof fn lemma_fembot_round_trip(m: ReplayModel)
    ensures
        fembot_decode(fembot_encode(m)) matches Ok(d) && d.fps == m.fps && events_of(d.clicks)
            == events_of(m.clicks)
            && (single_player(m.clicks) ==> d.clicks == m.clicks),
{
    let enc = |e: HoldEvent| fembot_record(e);
    let dec = |s: Seq<u8>| fembot_event(s);
    assert forall|e: HoldEvent| #[trigger] enc(e).len() == 65 by {
        lemma_fembot_record(e);
    }
    assert forall|e: HoldEvent| #[trigger] dec(enc(e)) == e by {
        lemma_fembot_record(e);
    }
    let evs = events_of(m.clicks);
    let hdr = fembot_magic() + u32_le(m.fps);
    lemma_u32_le(m.fps);
    lemma_decode_concat_map(hdr, evs, enc, dec, 65);
    lemma_concat_map_fixed(evs, enc, 65);
    let b = fembot_encode(m);
    assert(b == hdr + fembot_body(evs));
    assert(b.subrange(0, 4) =~= fembot_magic());
    assert(b.subrange(4, 8) =~= u32_le(m.fps));
    assert((b.len() - 8) % 65 == 0) by (nonlinear_arith)
        requires
            b.len() - 8 == 65 * evs.len(),
    ;
    lemma_events_of_clicks_of(evs);
    if single_player(m.clicks) {
        lemma_single_player_clicks(m.clicks);
    }
}

impl Replay {
    /// Reads a Fembot file.
    pub fn parse_fembot(&mut self, data: &[u8]) -> (r: Result<(), ReplayError>)
        ensures
            parsed_into(old(self)@, final(self)@, r, fembot_decode(data@), GameVersion::Version2113),
    {
        let len = data.len();
        if !has_magic4(data, 0, 0x46, 0x42, 0x52, 0x50) {
            return Err(ReplayError::MalformedHeader);
        }
        if len < 8 || (len - 8) % 65 != 0 {
            return Err(ReplayError::Truncated);
        }
        let fps = read_u32_le(data, 4);
        let n = (len - 8) / 65;
        let ghost evs = fembot_events(data@);
        let mut clicks: Vec<Click> = Vec::new();
        let mut i: usize = 0;
        let mut pos: usize = 8;
        while i < n
            invariant
                evs == fembot_events(data@),
                n == evs.len(),
                len == data@.len(),
                pos == 8 + 65 * i,
                8 + 65 * n == len,
                i <= n,
                clicks@ == clicks_of(evs.subrange(0, i as int)),
            decreases n - i,
        {
            let state = data[pos];
            let frame = read_u32_le(data, pos + 1);
            let hold = state & 1 == 1;
            let player_2 = state & 2 == 2;
            proof {
                let s = data@.subrange(pos as int, pos + 65);
                assert(s.subrange(1, 5) =~= data@.subrange(pos + 1, pos + 5));
                lemma_fembot_events_index(data@, i as int);
                assert(s[0] == data@[pos as int]);
                assert(evs[i as int] == HoldEvent { frame, hold, player_2 });
            }
            clicks.push(Click::from_hold(frame, hold, player_2));
            i += 1;
            pos += 65;
            assert(clicks@ =~= clicks_of(evs.subrange(0, i as int)));
        }
        assert(evs.subrange(0, n as int) =~= evs);
        self.accept(fps, clicks, GameVersion::Version2113);
        Ok(())
    }

    /// Writes the replay as a Fembot file, with the reserved bytes zeroed.
    pub fn write_fembot(&self) -> (out: Vec<u8>)
        ensures
            out@ == fembot_encode(self@),
    {
        let evs = hold_events(&self.clicks);
        let mut out: Vec<u8> = Vec::new();
        out.push(0x46u8);
        out.push(0x42u8);
        out.push(0x52u8);
        out.push(0x50u8);
        push_u32_le(&mut out, self.fps);
        let ghost hdr = out@;
        assert(hdr =~= fembot_magic() + u32_le(self.fps));
        let mut i: usize = 0;
        while i < evs.len()
            invariant
                i <= evs@.len(),
                out@ == hdr + fembot_body(evs@.subrange(0, i as int)),
            decreases evs@.len() - i,
        {
            let e = evs[i];
            let ghost before = out@;
            let state: u8 = (if e.hold { 1u8 } else { 0u8 }) + (if e.player_2 { 2u8 } else { 0u8 });
            out.push(state);
            push_u32_le(&mut out, e.frame);
            push_zeros(&mut out, 60);
            proof {
                lemma_concat_map_push(evs@.subrange(0, i as int), e, |e: HoldEvent| fembot_record(e));
                assert(out@ =~= before + fembot_record(e));
                assert(evs@.subrange(0, i + 1) =~= evs@.subrange(0, i as int).push(e));
            }
            i += 1;
            assert(out@ =~= hdr + fembot_body(evs@.subrange(0, i as int)));
        }
        assert(evs@.subrange(0, i as int) =~= evs@);
        out
    }
}

} // verus!
