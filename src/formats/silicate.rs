//! Silicate: `[fps: f64 LE][count: u32 LE]`, then `count` states `[u32 LE]`
//! holding the frame above bit 4, player 2 in bit 3, the input kind in bits 1
//! and 2 (1 for a jump) and the press in bit 0. States of other kinds are
//! passed over.
//!
//! The caller converts the binary64 frame rate to and from the canonical
//! binary32 value.

use vstd::prelude::*;
use crate::bytes::{
    concat_map, le_u32, le_u64, lemma_concat_map_fixed, lemma_concat_map_push, lemma_u32_le,
    lemma_u64_le, push_u32_le, push_u64_le, read_u32_le, read_u64_le, u32_le, u64_le,
};
use crate::replay::{
    clicks_from_events, clicks_of, events_of, hold_events, lemma_events_of_clicks_of, lemma_single_player_clicks, single_player, parsed_into,
    Decoded, GameVersion, HoldEvent, Replay, ReplayError, ReplayModel,
};

verus! {

/// Frames from this one on do not fit above bit 4.
pub const SILICATE_FRAME_LIMIT: u32 = 0x1000_0000;

pub open spec fn silicate_is_jump(st: u32) -> bool {
    (st / 2) % 4 == 1
}

pub open spec fn silicate_event(st: u32) -> HoldEvent {
    HoldEvent { frame: st / 16, hold: st % 2 == 1, player_2: (st / 8) % 2 == 1 }
}

pub open spec fn silicate_state(e: HoldEvent) -> u32 {
    (e.frame * 16 + (if e.player_2 { 8int } else { 0 }) + 2 + (if e.hold { 1int } else { 0 })) as u32
}

/// The jumps among the first `k` states.
pub open spec fn silicate_events(b: Seq<u8>, k: nat) -> Seq<HoldEvent>
    decreases k,
{
    if k == 0 {
        Seq::empty()
    } else {
        let prev = silicate_events(b, (k - 1) as nat);
        let st = le_u32(b, 12 + 4 * (k - 1));
        if silicate_is_jump(st) {
            prev.push(silicate_event(st))
        } else {
            prev
        }
    }
}

/// The stored binary64 frame rate, if the file holds it.
pub open spec fn silicate_fps_of(b: Seq<u8>) -> Option<u64> {
    if b.len() < 8 {
        None
    } else {
        Some(le_u64(b, 0))
    }
}

/// A Silicate file whose stored frame rate has the binary32 value `fps`.
pub open spec fn silicate_decode(b: Seq<u8>, fps: u32) -> Result<Decoded, ReplayError> {
    if b.len() < 12 || b.len() < 12 + 4 * le_u32(b, 8) {
        Err(ReplayError::Truncated)
    } else {
        Ok(Decoded { fps, clicks: clicks_of(silicate_events(b, le_u32(b, 8) as nat)) })
    }
}

pub open spec fn silicate_record(e: HoldEvent) -> Seq<u8> {
    u32_le(silicate_state(e))
}

pub open spec fn silicate_body(evs: Seq<HoldEvent>) -> Seq<u8> {
    concat_map(evs, |e: HoldEvent| silicate_record(e))
}

pub open spec fn silicate_encode(m: ReplayModel, fps: u64) -> Seq<u8> {
    let evs = events_of(m.clicks);
    u64_le(fps) + u32_le(evs.len() as u32) + silicate_body(evs)
}

/// Every frame fits above bit 4.
pub open spec fn silicate_frames_fit(evs: Seq<HoldEvent>) -> bool {
    forall|i: int| 0 <= i < evs.len() ==> #[trigger] evs[i].frame < SILICATE_FRAME_LIMIT
}

proof fn lemma_silicate_state(e: HoldEvent)
    requires
        e.frame < SILICATE_FRAME_LIMIT,
    ensures
        silicate_is_jump(silicate_state(e)),
        silicate_event(silicate_state(e)) == e,
{
}

/// A Silicate file read back gives the stored frame rate and the
/// single-player actions that were written, when every frame fits.
pub proof fn lemma_silicate_round_trip(m: ReplayModel, fps: u64, fps_value: u32)
    requires
        events_of(m.clicks).len() <= u32::MAX,
        silicate_frames_fit(events_of(m.clicks)),
    ensures
        silicate_fps_of(silicate_encode(m, fps)) == Some(fps),
        silicate_decode(silicate_encode(m, fps), fps_value) matches Ok(d) && d.fps == fps_value
            && events_of(d.clicks) == events_of(m.clicks)
            && (single_player(m.clicks) ==> d.clicks == m.clicks),
{
    let evs = events_of(m.clicks);
    let n = evs.len();
    let enc = |e: HoldEvent| silicate_record(e);
    assert forall|e: HoldEvent| #[trigger] enc(e).len() == 4 by {
        lemma_u32_le(silicate_state(e));
    }
    lemma_concat_map_fixed(evs, enc, 4);
    lemma_u64_le(fps);
    lemma_u32_le(n as u32);
    let c = silicate_body(evs);
    let b = silicate_encode(m, fps);
    assert(b.subrange(0, 8) =~= u64_le(fps));
    assert(b.subrange(8, 12) =~= u32_le(n as u32));
    assert(b.subrange(12, b.len() as int) =~= c);
    assert forall|k: nat| k <= n implies #[trigger] silicate_events(b, k) == evs.subrange(
        0,
        k as int,
    ) by {
        lemma_silicate_prefix(b, c, evs, k);
    }
    assert(evs.subrange(0, n as int) =~= evs);
    lemma_events_of_clicks_of(evs);
    if single_player(m.clicks) {
        lemma_single_player_clicks(m.clicks);
    }
}

proof fn lemma_silicate_prefix(b: Seq<u8>, c: Seq<u8>, evs: Seq<HoldEvent>, k: nat)
    requires
        k <= evs.len(),
        silicate_frames_fit(evs),
        c == silicate_body(evs),
        c.len() == 4 * evs.len(),
        forall|i: int|
            0 <= i < evs.len() ==> #[trigger] c.subrange(4 * i, 4 * i + 4) == silicate_record(
                evs[i],
            ),
        b.len() == 12 + c.len(),
        b.subrange(12, b.len() as int) == c,
    ensures
        silicate_events(b, k) == evs.subrange(0, k as int),
    decreases k,
{
    if k > 0 {
        lemma_silicate_prefix(b, c, evs, (k - 1) as nat);
        let i = k - 1;
        let e = evs[i as int];
        assert(b.subrange(12 + 4 * i, 12 + 4 * i + 4) =~= c.subrange(4 * i, 4 * i + 4));
        lemma_u32_le(silicate_state(e));
        assert(le_u32(b, 12 + 4 * i) == silicate_state(e));
        lemma_silicate_state(e);
        assert(evs.subrange(0, k as int) =~= evs.subrange(0, i as int).push(e));
    } else {
        assert(evs.subrange(0, 0) =~= Seq::<HoldEvent>::empty());
    }
}

/// The binary64 frame rate stored at the start of a Silicate file.
pub fn silicate_fps_field(data: &[u8]) -> (r: Option<u64>)
    ensures
        r == silicate_fps_of(data@),
{
    if data.len() < 8 {
        None
    } else {
        Some(read_u64_le(data, 0))
    }
}

impl Replay {
    /// Reads a Silicate file whose stored frame rate has the binary32 value `fps`.
    pub fn parse_silicate(&mut self, data: &[u8], fps: u32) -> (r: Result<(), ReplayError>)
        ensures
            parsed_into(
                old(self)@,
                final(self)@,
                r,
                silicate_decode(data@, fps),
                GameVersion::Version2206,
            ),
    {
        let len = data.len();
        if len < 12 {
            return Err(ReplayError::Truncated);
        }
        let n = read_u32_le(data, 8);
        if ((len - 12) / 4) < n as usize {
            return Err(ReplayError::Truncated);
        }
        let mut evs: Vec<HoldEvent> = Vec::new();
        let mut k: u32 = 0;
        let mut pos: usize = 12;
        while k < n
            invariant
                len == data@.len(),
                n == le_u32(data@, 8),
                12 + 4 * n <= len,
                k <= n,
                pos == 12 + 4 * k,
                evs@ == silicate_events(data@, k as nat),
            decreases n - k,
        {
            let st = read_u32_le(data, pos);
            if (st / 2) % 4 == 1 {
                evs.push(HoldEvent { frame: st / 16, hold: st % 2 == 1, player_2: (st / 8) % 2 == 1 });
            }
            k += 1;
            pos += 4;
        }
        let clicks = clicks_from_events(&evs);
        self.accept(fps, clicks, GameVersion::Version2206);
        Ok(())
    }

    /// Writes the replay as a Silicate file with the binary64 frame rate `fps`;
    /// fails when a frame does not fit above bit 4 or the actions outnumber
    /// the count field.
    pub fn write_silicate(&self, fps: u64) -> (r: Result<Vec<u8>, ReplayError>)
        ensures
            ({
                let evs = events_of(self@.clicks);
                &&& (evs.len() <= u32::MAX && silicate_frames_fit(evs)) ==> (r matches Ok(out)
                    && out@ == silicate_encode(self@, fps))
                &&& !(evs.len() <= u32::MAX && silicate_frames_fit(evs)) ==> r
                    == Err::<Vec<u8>, ReplayError>(ReplayError::WriteError)
            }),
    {
        let evs = hold_events(&self.clicks);
        if evs.len() > 0xFFFF_FFFF {
            return Err(ReplayError::WriteError);
        }
        let mut out: Vec<u8> = Vec::new();
        push_u64_le(&mut out, fps);
        push_u32_le(&mut out, evs.len() as u32);
        let ghost hdr = out@;
        let mut i: usize = 0;
        while i < evs.len()
            invariant
                i <= evs@.len(),
                evs@ == events_of(self@.clicks),
                evs@.len() <= u32::MAX,
                hdr == u64_le(fps) + u32_le(evs@.len() as u32),
                forall|k: int| 0 <= k < i ==> #[trigger] evs@[k].frame < SILICATE_FRAME_LIMIT,
                out@ == hdr + silicate_body(evs@.subrange(0, i as int)),
            decreases evs@.len() - i,
        {
            let e = evs[i];
            if e.frame >= SILICATE_FRAME_LIMIT {
                assert(!silicate_frames_fit(evs@));
                return Err(ReplayError::WriteError);
            }
            let ghost before = out@;
            let st: u32 = e.frame * 16 + (if e.player_2 { 8u32 } else { 0u32 }) + 2 + (if e.hold {
                1u32
            } else {
                0u32
            });
            push_u32_le(&mut out, st);
            proof {
                lemma_concat_map_push(evs@.subrange(0, i as int), e, |e: HoldEvent| silicate_record(e));
                assert(out@ =~= before + silicate_record(e));
                assert(evs@.subrange(0, i + 1) =~= evs@.subrange(0, i as int).push(e));
            }
            i += 1;
        }
        assert(evs@.subrange(0, i as int) =~= evs@);
        Ok(out)
    }
}

} // verus!
