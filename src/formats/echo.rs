//! Echo's JSON formats. The old one lists clicks after a starting frame that
//! every click frame counts from; the new one marks player 2 only where it is
//! set. Frame rates are read rounded to a whole number.

use vstd::prelude::*;
use crate::binary32::{f32_round, f32_round_bits};
use crate::replay::{
    clicks_from_events, clicks_of, events_of, hold_events, lemma_events_of_clicks_of, lemma_single_player_clicks, single_player, parsed_replacing,
    Decoded, GameVersion, HoldEvent, Replay, ReplayError, ReplayModel,
};

verus! {

#[derive(Clone, Copy, PartialEq, Eq, Debug, Structural)]
pub struct EchoOldClick {
    pub hold: bool,
    pub p2: bool,
    pub frame: u32,
}

/// The fields of an old Echo document that carry input.
pub struct EchoOldReplay {
    /// Bit pattern of a binary32 value.
    pub fps: u32,
    pub start_frame: u32,
    pub clicks: Vec<EchoOldClick>,
}

#[derive(Clone, Copy, PartialEq, Eq, Debug, Structural)]
pub struct EchoNewClick {
    pub hold: bool,
    pub p2: Option<bool>,
    pub frame: u32,
}

/// The fields of a new Echo document.
pub struct EchoNewReplay {
    /// Bit pattern of a binary32 value.
    pub fps: u32,
    pub inputs: Vec<EchoNewClick>,
}

pub open spec fn echo_old_event(c: EchoOldClick, start: u32) -> HoldEvent {
    HoldEvent { frame: (c.frame + start) as u32, hold: c.hold, player_2: c.p2 }
}

pub open spec fn echo_old_events(cs: Seq<EchoOldClick>, start: u32) -> Seq<HoldEvent> {
    cs.map_values(|c: EchoOldClick| echo_old_event(c, start))
}

/// A click frame that overflows past the starting frame has no canonical frame.
pub open spec fn echo_old_decode(fps: u32, start: u32, cs: Seq<EchoOldClick>) -> Result<
    Decoded,
    ReplayError,
> {
    if exists|i: int| 0 <= i < cs.len() && #[trigger] cs[i].frame + start > u32::MAX {
        Err(ReplayError::MalformedField)
    } else {
        Ok(Decoded { fps: f32_round(fps), clicks: clicks_of(echo_old_events(cs, start)) })
    }
}

pub open spec fn echo_old_click(e: HoldEvent) -> EchoOldClick {
    EchoOldClick { hold: e.hold, p2: e.player_2, frame: e.frame }
}

pub open spec fn echo_old_clicks(evs: Seq<HoldEvent>) -> Seq<EchoOldClick> {
    evs.map_values(|e: HoldEvent| echo_old_click(e))
}

pub open spec fn echo_new_event(c: EchoNewClick) -> HoldEvent {
    HoldEvent {
        frame: c.frame,
        hold: c.hold,
        player_2: match c.p2 {
            Some(b) => b,
            None => false,
        },
    }
}

pub open spec fn echo_new_events(cs: Seq<EchoNewClick>) -> Seq<HoldEvent> {
    cs.map_values(|c: EchoNewClick| echo_new_event(c))
}

pub open spec fn echo_new_click(e: HoldEvent) -> EchoNewClick {
    EchoNewClick {
        hold: e.hold,
        p2: if e.player_2 {
            Some(true)
        } else {
            None
        },
        frame: e.frame,
    }
}

pub open spec fn echo_new_clicks(evs: Seq<HoldEvent>) -> Seq<EchoNewClick> {
    evs.map_values(|e: HoldEvent| echo_new_click(e))
}

/// An old Echo document read back gives the actions that were written.
pub proof fn lemma_echo_old_round_trip(m: ReplayModel)
    ensures
        echo_old_decode(m.fps, 0, echo_old_clicks(events_of(m.clicks))) matches Ok(d) && d.fps
            == f32_round(m.fps) && events_of(d.clicks) == events_of(m.clicks)
            && (single_player(m.clicks) ==> d.clicks == m.clicks),
{
    let evs = events_of(m.clicks);
    let w = echo_old_clicks(evs);
    assert forall|i: int| 0 <= i < w.len() implies !(#[trigger] w[i].frame + 0u32 > u32::MAX) by {
    }
    assert(echo_old_events(w, 0) =~= evs);
    lemma_events_of_clicks_of(evs);
    if single_player(m.clicks) {
        lemma_single_player_clicks(m.clicks);
    }
}

/// A new Echo document read back gives the actions that were written.
pub proof fn lemma_echo_new_round_trip(evs: Seq<HoldEvent>)
    ensures
        echo_new_events(echo_new_clicks(evs)) == evs,
{
    assert(echo_new_events(echo_new_clicks(evs)) =~= evs);
}

impl Replay {
    /// Reads an old Echo document.
    pub fn parse_echo_old(&mut self, doc: &EchoOldReplay) -> (r: Result<(), ReplayError>)
        ensures
            parsed_replacing(
                old(self)@,
                final(self)@,
                r,
                echo_old_decode(doc.fps, doc.start_frame, doc.clicks@),
                GameVersion::Version2113,
            ),
    {
        let ghost cs = doc.clicks@;
        let start = doc.start_frame;
        let mut evs: Vec<HoldEvent> = Vec::new();
        let mut i: usize = 0;
        while i < doc.clicks.len()
            invariant
                cs == doc.clicks@,
                start == doc.start_frame,
                i <= cs.len(),
                forall|k: int| 0 <= k < i ==> !(#[trigger] cs[k].frame + start > u32::MAX),
                evs@ == echo_old_events(cs.subrange(0, i as int), start),
            decreases cs.len() - i,
        {
            let c = doc.clicks[i];
            if c.frame > u32::MAX - start {
                assert(cs[i as int].frame + start > u32::MAX);
                return Err(ReplayError::MalformedField);
            }
            evs.push(HoldEvent { frame: c.frame + start, hold: c.hold, player_2: c.p2 });
            i += 1;
            assert(evs@ =~= echo_old_events(cs.subrange(0, i as int), start));
        }
        assert(cs.subrange(0, i as int) =~= cs);
        let clicks = clicks_from_events(&evs);
        self.replace_with(f32_round_bits(doc.fps), clicks, GameVersion::Version2113);
        Ok(())
    }

    /// Reads a new Echo document.
    pub fn parse_echo_new(&mut self, doc: &EchoNewReplay) -> (r: Result<(), ReplayError>)
        ensures
            parsed_replacing(
                old(self)@,
                final(self)@,
                r,
                Ok(
                    Decoded {
                        fps: f32_round(doc.fps),
                        clicks: clicks_of(echo_new_events(doc.inputs@)),
                    },
                ),
                GameVersion::Version2113,
            ),
    {
        let ghost cs = doc.inputs@;
        let mut evs: Vec<HoldEvent> = Vec::new();
        let mut i: usize = 0;
        while i < doc.inputs.len()
            invariant
                cs == doc.inputs@,
                i <= cs.len(),
                evs@ == echo_new_events(cs.subrange(0, i as int)),
            decreases cs.len() - i,
        {
            let c = doc.inputs[i];
            let player_2 = match c.p2 {
                Some(b) => b,
                None => false,
            };
            evs.push(HoldEvent { frame: c.frame, hold: c.hold, player_2 });
            i += 1;
            assert(evs@ =~= echo_new_events(cs.subrange(0, i as int)));
        }
        assert(cs.subrange(0, i as int) =~= cs);
        let clicks = clicks_from_events(&evs);
        self.replace_with(f32_round_bits(doc.fps), clicks, GameVersion::Version2113);
        Ok(())
    }

    /// The old Echo document for the replay, starting at frame 0.
    pub fn write_echo_old(&self) -> (r: EchoOldReplay)
        ensures
            r.fps == self.fps,
            r.start_frame == 0,
            r.clicks@ == echo_old_clicks(events_of(self@.clicks)),
    {
        let evs = hold_events(&self.clicks);
        let mut out: Vec<EchoOldClick> = Vec::new();
        let mut i: usize = 0;
        while i < evs.len()
            invariant
                i <= evs@.len(),
                out@ == echo_old_clicks(evs@.subrange(0, i as int)),
            decreases evs@.len() - i,
        {
            let e = evs[i];
            out.push(EchoOldClick { hold: e.hold, p2: e.player_2, frame: e.frame });
            i += 1;
            assert(out@ =~= echo_old_clicks(evs@.subrange(0, i as int)));
        }
        assert(evs@.subrange(0, i as int) =~= evs@);
        EchoOldReplay { fps: self.fps, start_frame: 0, clicks: out }
    }

    /// The new Echo document for the replay.
    pub fn write_echo_new(&self) -> (r: EchoNewReplay)
        ensures
            r.fps == self.fps,
            r.inputs@ == echo_new_clicks(events_of(self@.clicks)),
    {
        let evs = hold_events(&self.clicks);
        let mut out: Vec<EchoNewClick> = Vec::new();
        let mut i: usize = 0;
        while i < evs.len()
            invariant
                i <= evs@.len(),
                out@ == echo_new_clicks(evs@.subrange(0, i as int)),
            decreases evs@.len() - i,
        {
            let e = evs[i];
            let p2 = if e.player_2 {
                Some(true)
            } else {
                None
            };
            out.push(EchoNewClick { hold: e.hold, p2, frame: e.frame });
            i += 1;
            assert(out@ =~= echo_new_clicks(evs@.subrange(0, i as int)));
        }
        assert(evs@.subrange(0, i as int) =~= evs@);
        EchoNewReplay { fps: self.fps, inputs: out }
    }
}

} // verus!
