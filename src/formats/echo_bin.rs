//! Echo's binary format: magic `META` and a 48-byte header holding
//! `[fps: f32 LE]` at offset 24, then records `[frame: u32 LE][hold: u8][player 2: u8]`,
//! padded to 34 bytes when bytes 4 to 8 read `DBG\0`.

use vstd::prelude::*;
use crate::bytes::{
    decode_fixed, has_magic4, lemma_concat_map_fixed, lemma_concat_map_push,
    lemma_decode_concat_map, lemma_u32_le, le_u32, push_u32_le, push_zeros, read_u32_le, u32_le,
};
use crate::formats::kdbot::{kdbot_body, kdbot_event, kdbot_record, lemma_kdbot_record};
use crate::replay::{
    clicks_of, events_of, hold_events, lemma_events_of_clicks_of, lemma_single_player_clicks, single_player, parsed_into, Click, Decoded,
    GameVersion, HoldEvent, Replay, ReplayError, ReplayModel,
};

verus! {

pub open spec fn echo_magic() -> Seq<u8> {
    seq![0x4Du8, 0x45, 0x54, 0x41]
}

pub open spec fn echo_full_marker() -> Seq<u8> {
    seq![0x44u8, 0x42, 0x47, 0x00]
}

pub open spec fn echo_width(b: Seq<u8>) -> int {
    if b.subrange(4, 8) == echo_full_marker() {
        34
    } else {
        6
    }
}

pub open spec fn echo_events(b: Seq<u8>, w: int) -> Seq<HoldEvent> {
    decode_fixed(b, 48, w, |s: Seq<u8>| kdbot_event(s))
}

pub open spec fn echo_header(fps: u32) -> Seq<u8> {
    echo_magic() + Seq::new(20, |i: int| 0u8) + u32_le(fps) + Seq::new(20, |i: int| 0u8)
}

pub open spec fn echo_bin_encode(m: ReplayModel) -> Seq<u8> {
    echo_header(m.fps) + kdbot_body(events_of(m.clicks))
}

pub open spec fn echo_bin_decode(b: Seq<u8>) -> Result<Decoded, ReplayError> {
    if b.len() < 4 || b.subrange(0, 4) != echo_magic() {
        Err(ReplayError::MalformedHeader)
    } else if b.len() < 48 || (b.len() - 48) % echo_width(b) != 0 {
        Err(ReplayError::Truncated)
    } else {
        Ok(Decoded { fps: le_u32(b, 24), clicks: clicks_of(echo_events(b, echo_width(b))) })
    }
}

proof fn lemma_echo_events_index(b: Seq<u8>, w: int, i: int)
    requires
        b.len() >= 48,
        w == 6 || w == 34,
        0 <= i < (b.len() - 48) / w,
    ensures
        echo_events(b, w)[i] == kdbot_event(b.subrange(48 + w * i, 48 + w * i + w)),
{
}

/// An Echo binary file read back gives the frame rate and the single-player
/// actions that were written.
pub proof fn lemma_echo_bin_round_trip(m: ReplayModel)
    ensures
        echo_bin_decode(echo_bin_encode(m)) matches Ok(d) && d.fps == m.fps && events_of(
            d.clicks,
        ) == events_of(m.clicks)
            && (single_player(m.clicks) ==> d.clicks == m.clicks),
{
    let enc = |e: HoldEvent| kdbot_record(e);
    let dec = |s: Seq<u8>| kdbot_event(s);
    assert forall|e: HoldEvent| #[trigger] enc(e).len() == 6 by {
        lemma_kdbot_record(e);
    }
    assert forall|e: HoldEvent| #[trigger] dec(enc(e)) == e by {
        lemma_kdbot_record(e);
    }
    let evs = events_of(m.clicks);
    let hdr = echo_header(m.fps);
    lemma_u32_le(m.fps);
    lemma_decode_concat_map(hdr, evs, enc, dec, 6);
    lemma_concat_map_fixed(evs, enc, 6);
    let b = echo_bin_encode(m);
    assert(b.subrange(0, 4) =~= echo_magic());
    assert(b.subrange(24, 28) =~= u32_le(m.fps));
    assert(b.subrange(4, 8)[0] == 0);
    assert(echo_width(b) == 6);
    assert((b.len() - 48) % 6 == 0) by (nonlinear_arith)
        requires
            b.len() - 48 == 6 * evs.len(),
    ;
    lemma_events_of_clicks_of(evs);
    if single_player(m.clicks) {
        lemma_single_player_clicks(m.clicks);
    }
}

impl Replay {
    /// Reads an Echo binary file.
    pub fn parse_echo_bin(&mut self, data: &[u8]) -> (r: Result<(), ReplayError>)
        ensures
            parsed_into(old(self)@, final(self)@, r, echo_bin_decode(data@), GameVersion::Version2113),
    {
        let len = data.len();
        if !has_magic4(data, 0, 0x4D, 0x45, 0x54, 0x41) {
            return Err(ReplayError::MalformedHeader);
        }
        if len < 48 {
            return Err(ReplayError::Truncated);
        }
        let w: usize = if has_magic4(data, 4, 0x44, 0x42, 0x47, 0x00) {
            34
        } else {
            6
        };
        if (len - 48) % w != 0 {
            return Err(ReplayError::Truncated);
        }
        let fps = read_u32_le(data, 24);
        let n = (len - 48) / w;
        let ghost evs = echo_events(data@, w as int);
        proof {
            let a = (len - 48) as int;
            let wi = w as int;
            assert(a == wi * (a / wi) + a % wi) by (nonlinear_arith)
                requires
                    wi > 0,
            ;
        }
        let mut clicks: Vec<Click> = Vec::new();
        let mut i: usize = 0;
        let mut pos: usize = 48;
        while i < n
            invariant
                w == 6 || w == 34,
                evs == echo_events(data@, w as int),
                n == evs.len(),
                len == data@.len(),
                pos == 48 + w * i,
                48 + w * n == len,
                i <= n,
                clicks@ == clicks_of(evs.subrange(0, i as int)),
            decreases n - i,
        {
            proof {
                assert(w * i + w <= w * n) by (nonlinear_arith)
                    requires
                        i < n,
                ;
                assert(w * (i + 1) == w * i + w) by (nonlinear_arith);
            }
            let frame = read_u32_le(data, pos);
            let hold = data[pos + 4] == 1;
            let player_2 = data[pos + 5] == 1;
            proof {
                let s = data@.subrange(pos as int, pos + w);
                assert(s.subrange(0, 4) =~= data@.subrange(pos as int, pos + 4));
                lemma_echo_events_index(data@, w as int, i as int);
                assert(s[4] == data@[pos + 4] && s[5] == data@[pos + 5]);
                assert(evs[i as int] == HoldEvent { frame, hold, player_2 });
            }
            clicks.push(Click::from_hold(frame, hold, player_2));
            i += 1;
            pos += w;
            assert(clicks@ =~= clicks_of(evs.subrange(0, i as int)));
        }
        assert(evs.subrange(0, n as int) =~= evs);
        self.accept(fps, clicks, GameVersion::Version2113);
        Ok(())
    }

    /// Writes the replay as an Echo binary file with 6-byte records.
    pub fn write_echo_bin(&self) -> (out: Vec<u8>)
        ensures
            out@ == echo_bin_encode(self@),
    {
        let evs = hold_events(&self.clicks);
        let mut out: Vec<u8> = Vec::new();
        out.push(0x4Du8);
        out.push(0x45u8);
        out.push(0x54u8);
        out.push(0x41u8);
        push_zeros(&mut out, 20);
        push_u32_le(&mut out, self.fps);
        push_zeros(&mut out, 20);
        let ghost hdr = out@;
        assert(hdr =~= echo_header(self.fps));
        let mut i: usize = 0;
        while i < evs.len()
            invariant
                i <= evs@.len(),
                out@ == hdr + kdbot_body(evs@.subrange(0, i as int)),
            decreases evs@.len() - i,
        {
            let e = evs[i];
            let ghost before = out@;
            push_u32_le(&mut out, e.frame);
            out.push(e.hold as u8);
            out.push(e.player_2 as u8);
            proof {
                lemma_concat_map_push(evs@.subrange(0, i as int), e, |e: HoldEvent| kdbot_record(e));
                assert(out@ =~= before + kdbot_record(e));
                assert(evs@.subrange(0, i + 1) =~= evs@.subrange(0, i as int).push(e));
            }
            i += 1;
            assert(out@ =~= hdr + kdbot_body(evs@.subrange(0, i as int)));
        }
        assert(evs@.subrange(0, i as int) =~= evs@);
        out
    }
}

} // verus!
