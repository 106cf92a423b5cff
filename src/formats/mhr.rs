//! Mega Hack Replay's JSON format: events with a frame and optional press and
//! player-2 flags, where a missing flag reads as false.

use vstd::prelude::*;
use crate::replay::{
    clicks_from_events, clicks_of, events_of, hold_events, parsed_replacing, Decoded, GameVersion,
    HoldEvent, Replay, ReplayError,
};

verus! {

#[derive(Clone, Copy, PartialEq, Eq, Debug, Structural)]
pub struct MhrClick {
    pub frame: u32,
    pub down: Option<bool>,
    pub p2: Option<bool>,
}

/// The fields of a Mega Hack Replay JSON document: input, and a tag that is
/// written with a fixed value and not read.
pub struct MhrReplay {
    /// Bit pattern of a binary32 value.
    pub fps: u32,
    pub events: Vec<MhrClick>,
    pub tag: String,
}

pub open spec fn flag_or_false(f: Option<bool>) -> bool {
    match f {
        Some(b) => b,
        None => false,
    }
}

pub open spec fn mhr_event(c: MhrClick) -> HoldEvent {
    HoldEvent { frame: c.frame, hold: flag_or_false(c.down), player_2: flag_or_false(c.p2) }
}

pub open spec fn mhr_events(cs: Seq<MhrClick>) -> Seq<HoldEvent> {
    cs.map_values(|c: MhrClick| mhr_event(c))
}

pub open spec fn mhr_click(e: HoldEvent) -> MhrClick {
    MhrClick {
        frame: e.frame,
        down: Some(e.hold),
        p2: if e.player_2 {
            Some(true)
        } else {
            None
        },
    }
}

pub open spec fn mhr_clicks(evs: Seq<HoldEvent>) -> Seq<MhrClick> {
    evs.map_values(|e: HoldEvent| mhr_click(e))
}

/// Events written for actions read back as those actions.
pub proof fn lemma_mhr_round_trip(evs: Seq<HoldEvent>)
    ensures
        mhr_events(mhr_clicks(evs)) == evs,
{
    assert(mhr_events(mhr_clicks(evs)) =~= evs);
}

impl Replay {
    /// Reads a Mega Hack Replay JSON document.
    pub fn parse_mhr_json(&mut self, doc: &MhrReplay) -> (r: Result<(), ReplayError>)
        ensures
            parsed_replacing(
                old(self)@,
                final(self)@,
                r,
                Ok(Decoded { fps: doc.fps, clicks: clicks_of(mhr_events(doc.events@)) }),
                GameVersion::Version2113,
            ),
    {
        let ghost cs = doc.events@;
        let mut evs: Vec<HoldEvent> = Vec::new();
        let mut i: usize = 0;
        while i < doc.events.len()
            invariant
                cs == doc.events@,
                i <= cs.len(),
                evs@ == mhr_events(cs.subrange(0, i as int)),
            decreases cs.len() - i,
        {
            let c = doc.events[i];
            let hold = match c.down {
                Some(b) => b,
                None => false,
            };
            let player_2 = match c.p2 {
                Some(b) => b,
                None => false,
            };
            evs.push(HoldEvent { frame: c.frame, hold, player_2 });
            i += 1;
            assert(evs@ =~= mhr_events(cs.subrange(0, i as int)));
        }
        assert(cs.subrange(0, i as int) =~= cs);
        let clicks = clicks_from_events(&evs);
        self.replace_with(doc.fps, clicks, GameVersion::Version2113);
        Ok(())
    }

    /// The Mega Hack Replay JSON document for the replay.
    pub fn write_mhr_json(&self) -> (r: MhrReplay)
        ensures
            r.fps == self.fps,
            r.events@ == mhr_clicks(events_of(self@.clicks)),
            r.tag@ == "converter by nat :3"@,
    {
        let evs = hold_events(&self.clicks);
        let mut out: Vec<MhrClick> = Vec::new();
        let mut i: usize = 0;
        while i < evs.len()
            invariant
                i <= evs@.len(),
                out@ == mhr_clicks(evs@.subrange(0, i as int)),
            decreases evs@.len() - i,
        {
            let e = evs[i];
            let p2 = if e.player_2 {
                Some(true)
            } else {
                None
            };
            out.push(MhrClick { frame: e.frame, down: Some(e.hold), p2 });
            i += 1;
            assert(out@ =~= mhr_clicks(evs@.subrange(0, i as int)));
        }
        assert(evs@.subrange(0, i as int) =~= evs@);
        MhrReplay { fps: self.fps, events: out, tag: "converter by nat :3".to_owned() }
    }
}

} // verus!
