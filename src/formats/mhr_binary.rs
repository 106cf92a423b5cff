//! Mega Hack Replay's binary format: an 8-byte magic number, `[meta size: i32 LE]`,
//! `[fps: i32 LE]` inside the metadata, 8 reserved bytes, `[event size: u32 LE]`,
//! `[event count: u32 LE]`, then the events
//! `[2 bytes][hold: u8][player 2: u8][frame: i32 LE]` padded to the event size,
//! and a 16-byte footer on write.
//!
//! The frame rate is a whole number in the file: it is cast to and from the
//! canonical binary32 value as `as` does.

use vstd::prelude::*;
use crate::binary32::{f32_from_int, f32_of_int, f32_to_int, f32_to_int_sat};
use crate::bytes::{
    concat_map, lemma_concat_map_fixed, lemma_concat_map_push, lemma_u32_le, le_u32, push_u32_le,
    push_zeros, read_u32_le, u32_le,
};
use crate::replay::{
    clicks_of, events_of, hold_events, lemma_events_of_clicks_of, lemma_single_player_clicks, single_player, parsed_into, Click, Decoded,
    GameVersion, HoldEvent, Replay, ReplayError, ReplayModel,
};

verus! {

pub open spec fn mhr_magic() -> Seq<u8> {
    seq![0x48u8, 0x41, 0x43, 0x4B, 0x50, 0x52, 0x4F, 0x07]
}

pub open spec fn mhr_footer() -> Seq<u8> {
    seq![
        0xFAu8, 0x67, 0x55, 0x5A, 0x8D, 0x95, 0x94, 0x07, 0xC9, 0x8C, 0xBA, 0x7F, 0x75, 0x9C, 0xEF,
        0x3C,
    ]
}

/// The first eight bytes of an event.
pub open spec fn mhr_event(s: Seq<u8>) -> HoldEvent {
    HoldEvent {
        frame: vstd::bytes::spec_u32_from_le_bytes(s.subrange(4, 8)),
        hold: s[2] == 1,
        player_2: s[3] == 1,
    }
}

pub open spec fn mhr_record(e: HoldEvent) -> Seq<u8> {
    seq![1u8, 0u8, e.hold as u8, e.player_2 as u8] + u32_le(e.frame) + Seq::new(24, |i: int| 0u8)
}

pub open spec fn mhr_body(evs: Seq<HoldEvent>) -> Seq<u8> {
    concat_map(evs, |e: HoldEvent| mhr_record(e))
}

/// The metadata size as stored.
pub open spec fn mhr_meta(b: Seq<u8>) -> int {
    le_u32(b, 8) as i32 as int
}

/// `count` events of `w` bytes from `p`.
pub open spec fn mhr_events(b: Seq<u8>, p: int, w: int, count: nat) -> Seq<HoldEvent> {
    Seq::new(count, |i: int| mhr_event(b.subrange(p + w * i, p + w * i + 8)))
}

/// The frame rate as stored: the canonical rate cast to `i32`.
pub open spec fn mhr_stored_fps(fps: u32) -> i32 {
    f32_to_int(fps, -0x8000_0000, 0x7FFF_FFFF) as i32
}

pub open spec fn mhr_binary_decode(b: Seq<u8>) -> Result<Decoded, ReplayError> {
    if b.len() < 8 || b.subrange(0, 8) != mhr_magic() {
        Err(ReplayError::MalformedHeader)
    } else if b.len() < 16 {
        Err(ReplayError::Truncated)
    } else if mhr_meta(b) < 4 {
        Err(ReplayError::MalformedHeader)
    } else if b.len() < 28 + mhr_meta(b) {
        Err(ReplayError::Truncated)
    } else {
        let q = 20 + mhr_meta(b);
        let w = le_u32(b, q) as int;
        let n = le_u32(b, q + 4) as nat;
        if w < 8 {
            Err(ReplayError::MalformedHeader)
        } else if b.len() < q + 8 + w * n {
            Err(ReplayError::Truncated)
        } else {
            Ok(
                Decoded {
                    fps: f32_of_int(le_u32(b, 12) as i32 as int),
                    clicks: clicks_of(mhr_events(b, q + 8, w, n)),
                },
            )
        }
    }
}

pub open spec fn mhr_header(fps: i32, count: u32) -> Seq<u8> {
    mhr_magic() + u32_le(4) + u32_le(fps as u32) + Seq::new(8, |i: int| 0u8) + u32_le(32)
        + u32_le(count)
}

pub open spec fn mhr_binary_encode(m: ReplayModel) -> Seq<u8> {
    let evs = events_of(m.clicks);
    mhr_header(mhr_stored_fps(m.fps), evs.len() as u32) + mhr_body(evs) + mhr_footer()
}

proof fn lemma_mhr_record(e: HoldEvent)
    ensures
        mhr_record(e).len() == 32,
        mhr_event(mhr_record(e).subrange(0, 8)) == e,
{
    lemma_u32_le(e.frame);
    let r = mhr_record(e);
    assert(r.subrange(0, 8).subrange(4, 8) =~= u32_le(e.frame));
}

/// An MHR binary file read back gives the frame rate cast to a whole number
/// and back, and the single-player actions that were written, when their
/// number fits the count field.
pub proof fn lemma_mhr_binary_round_trip(m: ReplayModel)
    requires
        events_of(m.clicks).len() <= u32::MAX,
    ensures
        mhr_binary_decode(mhr_binary_encode(m)) matches Ok(d) && d.fps == f32_of_int(
            mhr_stored_fps(m.fps) as int,
        ) && events_of(d.clicks) == events_of(m.clicks)
            && (single_player(m.clicks) ==> d.clicks == m.clicks),
{
    let fps = mhr_stored_fps(m.fps);
    let evs = events_of(m.clicks);
    let n = evs.len();
    let enc = |e: HoldEvent| mhr_record(e);
    assert forall|e: HoldEvent| #[trigger] enc(e).len() == 32 by {
        lemma_mhr_record(e);
    }
    lemma_concat_map_fixed(evs, enc, 32);
    let hdr = mhr_header(fps, n as u32);
    let c = mhr_body(evs);
    let b = mhr_binary_encode(m);
    lemma_u32_le(4);
    lemma_u32_le(fps as u32);
    lemma_u32_le(32);
    lemma_u32_le(n as u32);
    assert(hdr.len() == 32);
    assert(b == hdr + c + mhr_footer());
    assert(b.subrange(0, 8) =~= mhr_magic());
    assert(b.subrange(8, 12) =~= u32_le(4));
    assert(b.subrange(12, 16) =~= u32_le(fps as u32));
    assert(b.subrange(24, 28) =~= u32_le(32));
    assert(b.subrange(28, 32) =~= u32_le(n as u32));
    assert((fps as u32) as i32 == fps) by (bit_vector);
    assert(mhr_meta(b) == 4);
    let d = mhr_events(b, 32, 32, n);
    assert forall|i: int| 0 <= i < n implies #[trigger] d[i] == evs[i] by {
        assert(0 <= 32 * i && 32 * i + 32 <= 32 * n);
        assert(b.subrange(32 + 32 * i, 32 + 32 * i + 8) =~= c.subrange(32 * i, 32 * i + 32).subrange(0, 8));
        assert(c.subrange(32 * i, 32 * i + 32) == enc(evs[i]));
        lemma_mhr_record(evs[i]);
    }
    assert(d =~= evs);
    lemma_events_of_clicks_of(evs);
    if single_player(m.clicks) {
        lemma_single_player_clicks(m.clicks);
    }
}

fn has_mhr_magic(data: &[u8]) -> (r: bool)
    ensures
        r == (data@.len() >= 8 && data@.subrange(0, 8) == mhr_magic()),
{
    let a = crate::bytes::has_magic4(data, 0, 0x48, 0x41, 0x43, 0x4B);
    let b = crate::bytes::has_magic4(data, 4, 0x50, 0x52, 0x4F, 0x07);
    proof {
        if data@.len() >= 8 {
            let s = data@.subrange(0, 8);
            assert(s.subrange(0, 4) =~= data@.subrange(0, 4));
            assert(s.subrange(4, 8) =~= data@.subrange(4, 8));
            if a && b {
                assert(s =~= mhr_magic());
            } else if s == mhr_magic() {
                assert(s.subrange(0, 4) =~= seq![0x48u8, 0x41, 0x43, 0x4B]);
                assert(s.subrange(4, 8) =~= seq![0x50u8, 0x52, 0x4F, 0x07]);
            }
        }
    }
    a && b
}

impl Replay {
    /// Reads an MHR binary file.
    pub fn parse_mhr_binary(&mut self, data: &[u8]) -> (r: Result<(), ReplayError>)
        ensures
            parsed_into(
                old(self)@,
                final(self)@,
                r,
                mhr_binary_decode(data@),
                GameVersion::Version2113,
            ),
    {
        let len = data.len();
        if !has_mhr_magic(data) {
            return Err(ReplayError::MalformedHeader);
        }
        if len < 16 {
            return Err(ReplayError::Truncated);
        }
        let fps = f32_from_int(read_u32_le(data, 12) as i32);
        let meta = read_u32_le(data, 8) as i32;
        if meta < 4 {
            return Err(ReplayError::MalformedHeader);
        }
        if (len as u64) < 28 + meta as u64 {
            return Err(ReplayError::Truncated);
        }
        let q = 20 + meta as usize;
        let w = read_u32_le(data, q);
        let n = read_u32_le(data, q + 4);
        if w < 8 {
            return Err(ReplayError::MalformedHeader);
        }
        proof {
            let wi = w as int;
            let ni = n as int;
            assert(wi * ni <= 0xFFFF_FFFFint * 0xFFFF_FFFFint) by (nonlinear_arith)
                requires
                    0 <= wi <= 0xFFFF_FFFFint,
                    0 <= ni <= 0xFFFF_FFFFint,
            ;
        }
        if ((len - (q + 8)) as u64) < (w as u64) * (n as u64) {
            return Err(ReplayError::Truncated);
        }
        let p = q + 8;
        let wu = w as usize;
        let nu = n as usize;
        let ghost evs = mhr_events(data@, p as int, w as int, n as nat);
        let mut clicks: Vec<Click> = Vec::new();
        let mut i: usize = 0;
        let mut pos: usize = p;
        while i < nu
            invariant
                evs == mhr_events(data@, p as int, w as int, n as nat),
                nu == n,
                wu == w,
                w >= 8,
                len == data@.len(),
                pos == p + w * i,
                p + w * n <= len,
                i <= nu,
                clicks@ == clicks_of(evs.subrange(0, i as int)),
            decreases nu - i,
        {
            proof {
                assert(w * i + w <= w * n) by (nonlinear_arith)
                    requires
                        i < n,
                ;
                assert(w * (i + 1) == w * i + w) by (nonlinear_arith);
            }
            let hold = data[pos + 2] == 1;
            let player_2 = data[pos + 3] == 1;
            let frame = read_u32_le(data, pos + 4);
            proof {
                let s = data@.subrange(pos as int, pos + 8);
                assert(s.subrange(4, 8) =~= data@.subrange(pos + 4, pos + 8));
                assert(s[2] == data@[pos + 2] && s[3] == data@[pos + 3]);
                assert(evs[i as int] == mhr_event(s));
                assert(evs[i as int] == HoldEvent { frame, hold, player_2 });
            }
            clicks.push(Click::from_hold(frame, hold, player_2));
            i += 1;
            pos += wu;
            assert(clicks@ =~= clicks_of(evs.subrange(0, i as int)));
        }
        assert(evs.subrange(0, nu as int) =~= evs);
        self.accept(fps, clicks, GameVersion::Version2113);
        Ok(())
    }

    /// Writes the replay as an MHR binary file; fails when the actions
    /// outnumber what the count field holds.
    pub fn write_mhr_binary(&self) -> (r: Result<Vec<u8>, ReplayError>)
        ensures
            events_of(self@.clicks).len() <= u32::MAX ==> (r matches Ok(out) && out@
                == mhr_binary_encode(self@)),
            events_of(self@.clicks).len() > u32::MAX ==> r == Err::<Vec<u8>, ReplayError>(
                ReplayError::WriteError,
            ),
    {
        let evs = hold_events(&self.clicks);
        if evs.len() > 0xFFFF_FFFF {
            return Err(ReplayError::WriteError);
        }
        let mut out: Vec<u8> = Vec::new();
        out.push(0x48u8);
        out.push(0x41u8);
        out.push(0x43u8);
        out.push(0x4Bu8);
        out.push(0x50u8);
        out.push(0x52u8);
        out.push(0x4Fu8);
        out.push(0x07u8);
        let fps = f32_to_int_sat(self.fps, -0x8000_0000, 0x7FFF_FFFF) as i32;
        push_u32_le(&mut out, 4);
        push_u32_le(&mut out, fps as u32);
        push_zeros(&mut out, 8);
        push_u32_le(&mut out, 32);
        push_u32_le(&mut out, evs.len() as u32);
        let ghost hdr = out@;
        assert(hdr =~= mhr_header(fps, evs@.len() as u32));
        let mut i: usize = 0;
        while i < evs.len()
            invariant
                i <= evs@.len(),
                out@ == hdr + mhr_body(evs@.subrange(0, i as int)),
            decreases evs@.len() - i,
        {
            let e = evs[i];
            let ghost before = out@;
            out.push(1u8);
            out.push(0u8);
            out.push(e.hold as u8);
            out.push(e.player_2 as u8);
            push_u32_le(&mut out, e.frame);
            push_zeros(&mut out, 24);
            proof {
                lemma_concat_map_push(evs@.subrange(0, i as int), e, |e: HoldEvent| mhr_record(e));
                assert(out@ =~= before + mhr_record(e));
                assert(evs@.subrange(0, i + 1) =~= evs@.subrange(0, i as int).push(e));
            }
            i += 1;
            assert(out@ =~= hdr + mhr_body(evs@.subrange(0, i as int)));
        }
        assert(evs@.subrange(0, i as int) =~= evs@);
        let ghost body = out@;
        let footer: [u8; 16] = [
            0xFA, 0x67, 0x55, 0x5A, 0x8D, 0x95, 0x94, 0x07, 0xC9, 0x8C, 0xBA, 0x7F, 0x75, 0x9C, 0xEF,
            0x3C,
        ];
        let mut k: usize = 0;
        while k < 16
            invariant
                k <= 16,
                footer@ == mhr_footer(),
                out@ == body + mhr_footer().subrange(0, k as int),
            decreases 16 - k,
        {
            out.push(footer[k]);
            k += 1;
            assert(out@ =~= body + mhr_footer().subrange(0, k as int));
        }
        assert(mhr_footer().subrange(0, 16) =~= mhr_footer());
        Ok(out)
    }
}

} // verus!
