//! yBot 1: magic `ybot`, `[fps: f32 LE]`, `[count: i32 LE]`, then `count` records
//! `[frame: u32 LE][state: u32 LE (bit 1 hold, bit 0 player 2)]`.

use vstd::prelude::*;
use crate::bytes::{
    concat_map, has_magic4, lemma_concat_map_fixed, lemma_concat_map_push, lemma_u32_le, le_u32,
    push_u32_le, read_u32_le, u32_le,
};
use crate::replay::{
    clicks_of, events_of, hold_events, lemma_events_of_clicks_of, lemma_single_player_clicks, single_player, parsed_into, Click, Decoded,
    GameVersion, HoldEvent, Replay, ReplayError, ReplayModel,
};

verus! {

pub open spec fn ybot1_magic() -> Seq<u8> {
    seq![0x79u8, 0x62, 0x6F, 0x74]
}

pub open spec fn ybot1_state(e: HoldEvent) -> u32 {
    ((if e.hold { 2u32 } else { 0u32 }) + (if e.player_2 { 1u32 } else { 0u32 })) as u32
}

pub open spec fn ybot1_record(e: HoldEvent) -> Seq<u8> {
    u32_le(e.frame) + u32_le(ybot1_state(e))
}

pub open spec fn ybot1_event(s: Seq<u8>) -> HoldEvent {
    let st = vstd::bytes::spec_u32_from_le_bytes(s.subrange(4, 8));
    HoldEvent {
        frame: vstd::bytes::spec_u32_from_le_bytes(s.subrange(0, 4)),
        hold: st & 2 == 2,
        player_2: st & 1 == 1,
    }
}

pub open spec fn ybot1_body(evs: Seq<HoldEvent>) -> Seq<u8> {
    concat_map(evs, |e: HoldEvent| ybot1_record(e))
}

/// The record count: the stored `i32`, with a negative count as none.
pub open spec fn ybot1_count(b: Seq<u8>) -> int {
    let c = le_u32(b, 8);
    if c >= 0x8000_0000 {
        0
    } else {
        c as int
    }
}

pub open spec fn ybot1_events(b: Seq<u8>) -> Seq<HoldEvent> {
    Seq::new(
        ybot1_count(b) as nat,
        |i: int| ybot1_event(b.subrange(12 + 8 * i, 12 + 8 * i + 8)),
    )
}

pub open spec fn ybot1_encode(m: ReplayModel) -> Seq<u8> {
    let evs = events_of(m.clicks);
    ybot1_magic() + u32_le(m.fps) + u32_le(evs.len() as u32) + ybot1_body(evs)
}

/// The count says how many records follow; bytes after them are ignored.
pub open spec fn ybot1_decode(b: Seq<u8>) -> Result<Decoded, ReplayError> {
    if b.len() < 4 || b.subrange(0, 4) != ybot1_magic() {
        Err(ReplayError::MalformedHeader)
    } else if b.len() < 12 || b.len() < 12 + 8 * ybot1_count(b) {
        Err(ReplayError::Truncated)
    } else {
        Ok(Decoded { fps: le_u32(b, 4), clicks: clicks_of(ybot1_events(b)) })
    }
}

proof fn lemma_ybot1_record(e: HoldEvent)
    ensures
        ybot1_record(e).len() == 8,
        ybot1_event(ybot1_record(e)) == e,
{
    lemma_u32_le(e.frame);
    lemma_u32_le(ybot1_state(e));
    let r = ybot1_record(e);
    assert(r.subrange(0, 4) =~= u32_le(e.frame));
    assert(r.subrange(4, 8) =~= u32_le(ybot1_state(e)));
    assert(0u32 & 2 == 0 && 1u32 & 2 == 0 && 2u32 & 2 == 2 && 3u32 & 2 == 2) by (bit_vector);
    assert(0u32 & 1 == 0 && 1u32 & 1 == 1 && 2u32 & 1 == 0 && 3u32 & 1 == 1) by (bit_vector);
}

/// A yBot 1 file read back gives the frame rate and the single-player actions
/// that were written, when their number fits the count field.
pub proof fn lemma_ybot1_round_trip(m: ReplayModel)
    requires
        events_of(m.clicks).len() < 0x8000_0000,
    ensures
        ybot1_decode(ybot1_encode(m)) matches Ok(d) && d.fps == m.fps && events_of(d.clicks)
            == events_of(m.clicks)
            && (single_player(m.clicks) ==> d.clicks == m.clicks),
{
    let enc = |e: HoldEvent| ybot1_record(e);
    assert forall|e: HoldEvent| #[trigger] enc(e).len() == 8 by {
        lemma_ybot1_record(e);
    }
    let evs = events_of(m.clicks);
    let hdr = ybot1_magic() + u32_le(m.fps) + u32_le(evs.len() as u32);
    lemma_u32_le(m.fps);
    lemma_u32_le(evs.len() as u32);
    lemma_concat_map_fixed(evs, enc, 8);
    let c = ybot1_body(evs);
    let b = ybot1_encode(m);
    assert(b == hdr + c);
    assert(b.subrange(0, 4) =~= ybot1_magic());
    assert(b.subrange(4, 8) =~= u32_le(m.fps));
    assert(b.subrange(8, 12) =~= u32_le(evs.len() as u32));
    let d = ybot1_events(b);
    assert forall|i: int| 0 <= i < evs.len() implies #[trigger] d[i] == evs[i] by {
        assert(0 <= 8 * i && 8 * i + 8 <= 8 * evs.len());
        assert(b.subrange(12 + 8 * i, 12 + 8 * i + 8) =~= c.subrange(8 * i, 8 * i + 8));
        assert(c.subrange(8 * i, 8 * i + 8) == enc(evs[i]));
        lemma_ybot1_record(evs[i]);
    }
    assert(d =~= evs);
    lemma_events_of_clicks_of(evs);
    if single_player(m.clicks) {
        lemma_single_player_clicks(m.clicks);
    }
}

impl Replay {
    /// Reads a yBot 1 file.
    pub fn parse_ybot1(&mut self, data: &[u8]) -> (r: Result<(), ReplayError>)
        ensures
            parsed_into(old(self)@, final(self)@, r, ybot1_decode(data@), GameVersion::Version2113),
    {
        let len = data.len();
        if !has_magic4(data, 0, 0x79, 0x62, 0x6F, 0x74) {
            return Err(ReplayError::MalformedHeader);
        }
        if len < 12 {
            return Err(ReplayError::Truncated);
        }
        let fps = read_u32_le(data, 4);
        let c = read_u32_le(data, 8);
        let n: usize = if c >= 0x8000_0000 {
            0
        } else {
            c as usize
        };
        if (len - 12) / 8 < n {
            return Err(ReplayError::Truncated);
        }
        let ghost evs = ybot1_events(data@);
        let mut clicks: Vec<Click> = Vec::new();
        let mut i: usize = 0;
        let mut pos: usize = 12;
        while i < n
            invariant
                evs == ybot1_events(data@),
                n == evs.len(),
                len == data@.len(),
                pos == 12 + 8 * i,
                12 + 8 * n <= len,
                i <= n,
                clicks@ == clicks_of(evs.subrange(0, i as int)),
            decreases n - i,
        {
            let frame = read_u32_le(data, pos);
            let st = read_u32_le(data, pos + 4);
            let hold = st & 2 == 2;
            let player_2 = st & 1 == 1;
            proof {
                let s = data@.subrange(pos as int, pos + 8);
                assert(s.subrange(0, 4) =~= data@.subrange(pos as int, pos + 4));
                assert(s.subrange(4, 8) =~= data@.subrange(pos + 4, pos + 8));
                assert(evs[i as int] == ybot1_event(s));
                assert(evs[i as int] == HoldEvent { frame, hold, player_2 });
            }
            clicks.push(Click::from_hold(frame, hold, player_2));
            i += 1;
            pos += 8;
            assert(clicks@ =~= clicks_of(evs.subrange(0, i as int)));
        }
        assert(evs.subrange(0, n as int) =~= evs);
        self.accept(fps, clicks, GameVersion::Version2113);
        Ok(())
    }

    /// Writes the replay as a yBot 1 file; fails when the actions outnumber
    /// what the count field holds.
    pub fn write_ybot1(&self) -> (r: Result<Vec<u8>, ReplayError>)
        ensures
            events_of(self@.clicks).len() < 0x8000_0000 ==> (r matches Ok(out) && out@
                == ybot1_encode(self@)),
            events_of(self@.clicks).len() >= 0x8000_0000 ==> r == Err::<Vec<u8>, ReplayError>(
                ReplayError::WriteError,
            ),
    {
        let evs = hold_events(&self.clicks);
        if evs.len() >= 0x8000_0000 {
            return Err(ReplayError::WriteError);
        }
        let mut out: Vec<u8> = Vec::new();
        out.push(0x79u8);
        out.push(0x62u8);
        out.push(0x6Fu8);
        out.push(0x74u8);
        push_u32_le(&mut out, self.fps);
        push_u32_le(&mut out, evs.len() as u32);
        let ghost hdr = out@;
        assert(hdr =~= ybot1_magic() + u32_le(self.fps) + u32_le(evs@.len() as u32));
        let mut i: usize = 0;
        while i < evs.len()
            invariant
                i <= evs@.len(),
                out@ == hdr + ybot1_body(evs@.subrange(0, i as int)),
            decreases evs@.len() - i,
        {
            let e = evs[i];
            let ghost before = out@;
            let st: u32 = (if e.hold { 2u32 } else { 0u32 }) + (if e.player_2 { 1u32 } else { 0u32 });
            push_u32_le(&mut out, e.frame);
            push_u32_le(&mut out, st);
            proof {
                lemma_concat_map_push(evs@.subrange(0, i as int), e, |e: HoldEvent| ybot1_record(e));
                assert(out@ =~= before + ybot1_record(e));
                assert(evs@.subrange(0, i + 1) =~= evs@.subrange(0, i as int).push(e));
            }
            i += 1;
            assert(out@ =~= hdr + ybot1_body(evs@.subrange(0, i as int)));
        }
        assert(evs@.subrange(0, i as int) =~= evs@);
        Ok(out)
    }
}

} // verus!
