//! KDBot: `[fps: f32 LE]` then records `[frame: u32 LE][hold: u8][player 2: u8]`.

use vstd::prelude::*;
use crate::bytes::{
    concat_map, decode_fixed, lemma_concat_map_fixed, lemma_concat_map_push,
    lemma_decode_concat_map, lemma_u32_le, le_u32, push_u32_le, read_u32_le, u32_le,
};
use crate::replay::{
    clicks_of, events_of, hold_events, lemma_events_of_clicks_of, lemma_single_player_clicks, single_player, parsed_into, Click, Decoded,
    GameVersion, HoldEvent, Replay, ReplayError, ReplayModel,
};

verus! {

pub open spec fn kdbot_record(e: HoldEvent) -> Seq<u8> {
    u32_le(e.frame) + seq![e.hold as u8, e.player_2 as u8]
}

pub open spec fn kdbot_event(s: Seq<u8>) -> HoldEvent {
    HoldEvent {
        frame: vstd::bytes::spec_u32_from_le_bytes(s.subrange(0, 4)),
        hold: s[4] == 1,
        player_2: s[5] == 1,
    }
}

pub open spec fn kdbot_body(evs: Seq<HoldEvent>) -> Seq<u8> {
    concat_map(evs, |e: HoldEvent| kdbot_record(e))
}

pub open spec fn kdbot_events(b: Seq<u8>) -> Seq<HoldEvent> {
    decode_fixed(b, 4, 6, |s: Seq<u8>| kdbot_event(s))
}

proof fn lemma_kdbot_events_index(b: Seq<u8>, i: int)
    requires
        b.len() >= 4,
        0 <= i < (b.len() - 4) / 6,
    ensures
        kdbot_events(b)[i] == kdbot_event(b.subrange(4 + 6 * i, 4 + 6 * i + 6)),
{
}

pub open spec fn kdbot_encode(m: ReplayModel) -> Seq<u8> {
    u32_le(m.fps) + kdbot_body(events_of(m.clicks))
}

pub open spec fn kdbot_decode(b: Seq<u8>) -> Result<Decoded, ReplayError> {
    if b.len() < 4 || (b.len() - 4) % 6 != 0 {
        Err(ReplayError::Truncated)
    } else {
        Ok(
            Decoded {
                fps: le_u32(b, 0),
                clicks: clicks_of(kdbot_events(b)),
            },
        )
    }
}

pub proof fn lemma_kdbot_record(e: HoldEvent)
    ensures
        kdbot_record(e).len() == 6,
        kdbot_event(kdbot_record(e)) == e,
{
    lemma_u32_le(e.frame);
    assert(kdbot_record(e).subrange(0, 4) =~= u32_le(e.frame));
}

/// A KDBot file read back gives the frame rate and the single-player actions
/// that were written.
pub proof fn lemma_kdbot_round_trip(m: ReplayModel)
    ensures
        kdbot_decode(kdbot_encode(m)) matches Ok(d) && d.fps == m.fps && events_of(d.clicks)
            == events_of(m.clicks)
            && (single_player(m.clicks) ==> d.clicks == m.clicks),
{
    let enc = |e: HoldEvent| kdbot_record(e);
    let dec = |s: Seq<u8>| kdbot_event(s);
    assert forall|e: HoldEvent| #[trigger] enc(e).len() == 6 by {
        lemma_kdbot_record(e);
    }
    assert forall|e: HoldEvent| #[trigger] dec(enc(e)) == e by {
        lemma_kdbot_record(e);
    }
    let evs = events_of(m.clicks);
    lemma_decode_concat_map(u32_le(m.fps), evs, enc, dec, 6);
    lemma_concat_map_fixed(evs, enc, 6);
    lemma_u32_le(m.fps);
    let b = kdbot_encode(m);
    assert(b.subrange(0, 4) =~= u32_le(m.fps));
    assert((b.len() - 4) % 6 == 0) by (nonlinear_arith)
        requires
            b.len() - 4 == 6 * evs.len(),
    ;
    lemma_events_of_clicks_of(evs);
    if single_player(m.clicks) {
        lemma_single_player_clicks(m.clicks);
    }
}

impl Replay {
    /// Reads a KDBot file.
    pub fn parse_kdbot(&mut self, data: &[u8]) -> (r: Result<(), ReplayError>)
        ensures
            parsed_into(old(self)@, final(self)@, r, kdbot_decode(data@), GameVersion::Version2113),
    {
        let len = data.len();
        if len < 4 || (len - 4) % 6 != 0 {
            return Err(ReplayError::Truncated);
        }
        let fps = read_u32_le(data, 0);
        let n = (len - 4) / 6;
        let ghost evs = kdbot_events(data@);
        let mut clicks: Vec<Click> = Vec::new();
        let mut i: usize = 0;
        let mut pos: usize = 4;
        while i < n
            invariant
                evs == kdbot_events(data@),
                n == evs.len(),
                len == data@.len(),
                pos == 4 + 6 * i,
                4 + 6 * n == len,
                i <= n,
                clicks@ == clicks_of(evs.subrange(0, i as int)),
            decreases n - i,
        {
            let frame = read_u32_le(data, pos);
            let hold = data[pos + 4] == 1;
            let player_2 = data[pos + 5] == 1;
            proof {
                let s = data@.subrange(pos as int, pos + 6);
                assert(s.subrange(0, 4) =~= data@.subrange(pos as int, pos + 4));
                assert(s == data@.subrange(4 + 6 * i, 4 + 6 * i + 6));
                assert(0 <= i < evs.len());
                lemma_kdbot_events_index(data@, i as int);
                assert(s[4] == data@[pos + 4] && s[5] == data@[pos + 5]);
                assert(evs[i as int] == HoldEvent { frame, hold, player_2 });
            }
            clicks.push(Click::from_hold(frame, hold, player_2));
            i += 1;
            pos += 6;
            assert(clicks@ =~= clicks_of(evs.subrange(0, i as int)));
        }
        assert(evs.subrange(0, n as int) =~= evs);
        self.accept(fps, clicks, GameVersion::Version2113);
        Ok(())
    }

    /// Writes the replay as a KDBot file.
    pub fn write_kdbot(&self) -> (out: Vec<u8>)
        ensures
            out@ == kdbot_encode(self@),
    {
        let evs = hold_events(&self.clicks);
        let mut out: Vec<u8> = Vec::new();
        push_u32_le(&mut out, self.fps);
        let ghost hdr = out@;
        let mut i: usize = 0;
        while i < evs.len()
            invariant
                i <= evs@.len(),
                out@ == hdr + kdbot_body(evs@.subrange(0, i as int)),
            decreases evs@.len() - i,
        {
            let e = evs[i];
            let ghost before = out@;
            push_u32_le(&mut out, e.frame);
            out.push(e.hold as u8);
            out.push(e.player_2 as u8);
            proof {
                lemma_concat_map_push(evs@.subrange(0, i as int), e, |e: HoldEvent| kdbot_record(e));
                assert(out@ =~= before + kdbot_record(e));
                assert(evs@.subrange(0, i + 1) =~= evs@.subrange(0, i as int).push(e));
            }
            i += 1;
            assert(out@ =~= hdr + kdbot_body(evs@.subrange(0, i as int)));
        }
        assert(evs@.subrange(0, i as int) =~= evs@);
        out
    }
}

} // verus!
