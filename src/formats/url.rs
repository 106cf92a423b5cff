//! The URL format: `[fps: f32 LE][replay type: u8]`, then records of a state
//! byte (bit 0 hold, the rest the player) and a frame, with four bytes of
//! position before the frame in the "both" type.

use vstd::prelude::*;
use crate::bytes::{
    concat_map, decode_fixed, lemma_concat_map_fixed, lemma_concat_map_push,
    lemma_decode_concat_map, lemma_u32_le, le_u32, push_u32_le, read_u32_le, u32_le,
};
use crate::formats::fembot::{lemma_state_byte, state_byte};
use crate::replay::{
    clicks_of, events_of, hold_events, lemma_events_of_clicks_of, lemma_single_player_clicks, single_player, parsed_into, Click, Decoded,
    GameVersion, HoldEvent, Replay, ReplayError, ReplayModel,
};

verus! {

/// What the records of a URL replay hold.
#[derive(Clone, Copy, PartialEq, Eq, Debug, Structural)]
pub enum UrlReplayType {
    /// Positions only: no frames.
    XPos,
    /// A frame per record.
    Frames,
    /// A position and a frame per record.
    Both,
}

pub open spec fn url_type_of(b: u8) -> Option<UrlReplayType> {
    if b == 0 {
        Some(UrlReplayType::XPos)
    } else if b == 1 {
        Some(UrlReplayType::Frames)
    } else if b == 2 {
        Some(UrlReplayType::Both)
    } else {
        None
    }
}

impl UrlReplayType {
    /// The type that a byte names, if any.
    pub fn from_byte(b: u8) -> (r: Option<UrlReplayType>)
        ensures
            r == url_type_of(b),
    {
        match b {
            0 => Some(UrlReplayType::XPos),
            1 => Some(UrlReplayType::Frames),
            2 => Some(UrlReplayType::Both),
            _ => None,
        }
    }

    pub fn to_byte(&self) -> (r: u8)
        ensures
            url_type_of(r) == Some(*self),
    {
        match self {
            UrlReplayType::XPos => 0,
            UrlReplayType::Frames => 1,
            UrlReplayType::Both => 2,
        }
    }
}

pub open spec fn url_record(e: HoldEvent) -> Seq<u8> {
    seq![state_byte(e.hold, e.player_2)] + u32_le(e.frame)
}

/// A record whose frame stands at `frame_at`.
pub open spec fn url_event(s: Seq<u8>, frame_at: int) -> HoldEvent {
    HoldEvent {
        frame: vstd::bytes::spec_u32_from_le_bytes(s.subrange(frame_at, frame_at + 4)),
        hold: s[0] & 1 == 1,
        player_2: s[0] / 2 == 1,
    }
}

pub open spec fn url_body(evs: Seq<HoldEvent>) -> Seq<u8> {
    concat_map(evs, |e: HoldEvent| url_record(e))
}

pub open spec fn url_events(b: Seq<u8>, w: int) -> Seq<HoldEvent> {
    decode_fixed(b, 5, w, |s: Seq<u8>| url_event(s, w - 4))
}

pub open spec fn url_encode(m: ReplayModel) -> Seq<u8> {
    u32_le(m.fps) + seq![1u8] + url_body(events_of(m.clicks))
}

pub open spec fn url_decode(b: Seq<u8>) -> Result<Decoded, ReplayError> {
    if b.len() < 5 {
        Err(ReplayError::Truncated)
    } else {
        match url_type_of(b[4]) {
            None => Err(ReplayError::MalformedHeader),
            Some(UrlReplayType::XPos) => Err(ReplayError::UnsupportedVariant),
            Some(t) => {
                let w: int = if t == UrlReplayType::Both { 9 } else { 5 };
                if (b.len() - 5) % w != 0 {
                    Err(ReplayError::Truncated)
                } else {
                    Ok(Decoded { fps: le_u32(b, 0), clicks: clicks_of(url_events(b, w)) })
                }
            },
        }
    }
}

proof fn lemma_url_record(e: HoldEvent)
    ensures
        url_record(e).len() == 5,
        url_event(url_record(e), 1) == e,
{
    lemma_u32_le(e.frame);
    lemma_state_byte(e.hold, e.player_2);
    assert(url_record(e).subrange(1, 5) =~= u32_le(e.frame));
}

proof fn lemma_url_events_index(b: Seq<u8>, w: int, i: int)
    requires
        b.len() >= 5,
        w == 5 || w == 9,
        0 <= i < (b.len() - 5) / w,
    ensures
        url_events(b, w)[i] == url_event(b.subrange(5 + w * i, 5 + w * i + w), w - 4),
{
}

/// A URL replay read back gives the frame rate and the single-player actions
/// that were written.
pub proof fn lemma_url_round_trip(m: ReplayModel)
    ensures
        url_decode(url_encode(m)) matches Ok(d) && d.fps == m.fps && events_of(d.clicks)
            == events_of(m.clicks)
            && (single_player(m.clicks) ==> d.clicks == m.clicks),
{
    let enc = |e: HoldEvent| url_record(e);
    let dec = |s: Seq<u8>| url_event(s, 1);
    assert forall|e: HoldEvent| #[trigger] enc(e).len() == 5 by {
        lemma_url_record(e);
    }
    assert forall|e: HoldEvent| #[trigger] dec(enc(e)) == e by {
        lemma_url_record(e);
    }
    let evs = events_of(m.clicks);
    let hdr = u32_le(m.fps) + seq![1u8];
    lemma_u32_le(m.fps);
    lemma_decode_concat_map(hdr, evs, enc, dec, 5);
    lemma_concat_map_fixed(evs, enc, 5);
    let b = url_encode(m);
    assert(b == hdr + url_body(evs));
    assert(b.subrange(0, 4) =~= u32_le(m.fps));
    assert(b[4] == 1);
    assert((b.len() - 5) % 5 == 0) by (nonlinear_arith)
        requires
            b.len() - 5 == 5 * evs.len(),
    ;
    assert(url_events(b, 5) == decode_fixed(b, 5, 5, dec));
    lemma_events_of_clicks_of(evs);
    if single_player(m.clicks) {
        lemma_single_player_clicks(m.clicks);
    }
}

impl Replay {
    /// Reads a URL replay.
    pub fn parse_url(&mut self, data: &[u8]) -> (r: Result<(), ReplayError>)
        ensures
            parsed_into(old(self)@, final(self)@, r, url_decode(data@), GameVersion::Version2113),
    {
        let len = data.len();
        if len < 5 {
            return Err(ReplayError::Truncated);
        }
        let w: usize = match UrlReplayType::from_byte(data[4]) {
            None => {
                return Err(ReplayError::MalformedHeader);
            },
            Some(UrlReplayType::XPos) => {
                return Err(ReplayError::UnsupportedVariant);
            },
            Some(UrlReplayType::Frames) => 5,
            Some(UrlReplayType::Both) => 9,
        };
        if (len - 5) % w != 0 {
            return Err(ReplayError::Truncated);
        }
        let fps = read_u32_le(data, 0);
        let n = (len - 5) / w;
        let ghost evs = url_events(data@, w as int);
        proof {
            let a = (len - 5) as int;
            let wi = w as int;
            assert(a == wi * (a / wi) + a % wi) by (nonlinear_arith)
                requires
                    wi > 0,
            ;
        }
        let mut clicks: Vec<Click> = Vec::new();
        let mut i: usize = 0;
        let mut pos: usize = 5;
        while i < n
            invariant
                w == 5 || w == 9,
                evs == url_events(data@, w as int),
                n == evs.len(),
                len == data@.len(),
                pos == 5 + w * i,
                5 + w * n == len,
                i <= n,
                clicks@ == clicks_of(evs.subrange(0, i as int)),
            decreases n - i,
        {
            proof {
                assert(w * i + w <= w * n) by (nonlinear_arith)
                    requires
                        i < n,
                ;
                assert(w * (i + 1) == w * i + w) by (nonlinear_arith);
            }
            let state = data[pos];
            let frame = read_u32_le(data, pos + w - 4);
            let hold = state & 1 == 1;
            let player_2 = state / 2 == 1;
            proof {
                let s = data@.subrange(pos as int, pos + w);
                assert(s.subrange(w - 4, w as int) =~= data@.subrange(pos + w - 4, pos + w));
                lemma_url_events_index(data@, w as int, i as int);
                assert(s[0] == data@[pos as int]);
                assert(evs[i as int] == HoldEvent { frame, hold, player_2 });
            }
            clicks.push(Click::from_hold(frame, hold, player_2));
            i += 1;
            pos += w;
            assert(clicks@ =~= clicks_of(evs.subrange(0, i as int)));
        }
        assert(evs.subrange(0, n as int) =~= evs);
        self.accept(fps, clicks, GameVersion::Version2113);
        Ok(())
    }

    /// Writes the replay as a URL replay of the frames type.
    pub fn write_url(&self) -> (out: Vec<u8>)
        ensures
            out@ == url_encode(self@),
    {
        let evs = hold_events(&self.clicks);
        let mut out: Vec<u8> = Vec::new();
        push_u32_le(&mut out, self.fps);
        out.push(UrlReplayType::Frames.to_byte());
        let ghost hdr = out@;
        assert(hdr =~= u32_le(self.fps) + seq![1u8]);
        let mut i: usize = 0;
        while i < evs.len()
            invariant
                i <= evs@.len(),
                out@ == hdr + url_body(evs@.subrange(0, i as int)),
            decreases evs@.len() - i,
        {
            let e = evs[i];
            let ghost before = out@;
            let state: u8 = (if e.hold { 1u8 } else { 0u8 }) + (if e.player_2 { 2u8 } else { 0u8 });
            out.push(state);
            push_u32_le(&mut out, e.frame);
            proof {
                lemma_concat_map_push(evs@.subrange(0, i as int), e, |e: HoldEvent| url_record(e));
                assert(out@ =~= before + url_record(e));
                assert(evs@.subrange(0, i + 1) =~= evs@.subrange(0, i as int).push(e));
            }
            i += 1;
            assert(out@ =~= hdr + url_body(evs@.subrange(0, i as int)));
        }
        assert(evs@.subrange(0, i as int) =~= evs@);
        out
    }
}

} // verus!
