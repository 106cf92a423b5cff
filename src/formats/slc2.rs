//! Silicate 2 replays, read and written by the `slc_oxide` crate: inputs with
//! an absolute frame, of which player inputs carry a press flag and a player.
//! Inputs of other kinds are passed over.

use vstd::prelude::*;
use crate::replay::{
    clicks_from_events, clicks_of, events_of, hold_events, parsed_into, Decoded, GameVersion,
    HoldEvent, Replay, ReplayError,
};

verus! {

/// A player button input.
#[derive(Clone, Copy, PartialEq, Eq, Debug, Structural)]
pub struct Slc2Player {
    pub hold: bool,
    pub player_2: bool,
    pub button: u8,
}

/// An input: a player input, or one of another kind.
#[derive(Clone, Copy, PartialEq, Eq, Debug, Structural)]
pub struct Slc2Input {
    pub frame: u64,
    pub player: Option<Slc2Player>,
}

/// The player inputs as actions; `None` when a frame does not fit in 32 bits.
pub open spec fn slc2_events(cs: Seq<Slc2Input>) -> Option<Seq<HoldEvent>>
    decreases cs.len(),
{
    if cs.len() == 0 {
        Some(Seq::empty())
    } else {
        match slc2_events(cs.drop_last()) {
            None => None,
            Some(es) => match cs.last().player {
                None => Some(es),
                Some(p) => if cs.last().frame > u32::MAX {
                    None
                } else {
                    Some(
                        es.push(
                            HoldEvent {
                                frame: cs.last().frame as u32,
                                hold: p.hold,
                                player_2: p.player_2,
                            },
                        ),
                    )
                },
            },
        }
    }
}

pub open spec fn slc2_decode(fps: u32, cs: Seq<Slc2Input>) -> Result<Decoded, ReplayError> {
    match slc2_events(cs) {
        None => Err(ReplayError::MalformedField),
        Some(es) => Ok(Decoded { fps, clicks: clicks_of(es) }),
    }
}

/// Every action is written as a jump, button 1.
pub open spec fn slc2_input(e: HoldEvent) -> Slc2Input {
    Slc2Input {
        frame: e.frame as u64,
        player: Some(Slc2Player { hold: e.hold, player_2: e.player_2, button: 1 }),
    }
}

pub open spec fn slc2_inputs(evs: Seq<HoldEvent>) -> Seq<Slc2Input> {
    evs.map_values(|e: HoldEvent| slc2_input(e))
}

/// Frames never go down: the container stores each input as a step from the
/// one before.
pub open spec fn frames_ascending(evs: Seq<HoldEvent>) -> bool {
    forall|i: int, j: int| 0 <= i <= j < evs.len() ==> #[trigger] evs[i].frame <= #[trigger] evs[j].frame
}

proof fn lemma_slc2_none_extends(cs: Seq<Slc2Input>, k: int)
    requires
        0 <= k <= cs.len(),
        slc2_events(cs.subrange(0, k)) is None,
    ensures
        slc2_events(cs) is None,
    decreases cs.len() - k,
{
    if k == cs.len() {
        assert(cs.subrange(0, k) =~= cs);
    } else {
        assert(cs.subrange(0, k + 1).drop_last() =~= cs.subrange(0, k));
        lemma_slc2_none_extends(cs, k + 1);
    }
}

/// Inputs written for actions read back as those actions.
pub proof fn lemma_slc2_round_trip(evs: Seq<HoldEvent>)
    ensures
        slc2_events(slc2_inputs(evs)) == Some(evs),
    decreases evs.len(),
{
    let w = slc2_inputs(evs);
    if evs.len() > 0 {
        lemma_slc2_round_trip(evs.drop_last());
        assert(w.drop_last() =~= slc2_inputs(evs.drop_last()));
        assert(evs.drop_last().push(evs.last()) =~= evs);
    } else {
        assert(evs =~= Seq::<HoldEvent>::empty());
    }
}

impl Replay {
    /// Reads the inputs of a Silicate 2 replay whose tick rate has the
    /// binary32 value `fps`.
    pub fn parse_slc2(&mut self, inputs: &Vec<Slc2Input>, fps: u32) -> (r: Result<(), ReplayError>)
        ensures
            parsed_into(
                old(self)@,
                final(self)@,
                r,
                slc2_decode(fps, inputs@),
                GameVersion::Version2206,
            ),
    {
        let ghost cs = inputs@;
        let mut evs: Vec<HoldEvent> = Vec::new();
        let mut i: usize = 0;
        while i < inputs.len()
            invariant
                cs == inputs@,
                i <= cs.len(),
                slc2_events(cs.subrange(0, i as int)) == Some(evs@),
            decreases cs.len() - i,
        {
            assert(cs.subrange(0, i + 1).drop_last() =~= cs.subrange(0, i as int));
            let c = inputs[i];
            match c.player {
                None => {},
                Some(p) => {
                    if c.frame > u32::MAX as u64 {
                        proof {
                            lemma_slc2_none_extends(cs, i + 1);
                        }
                        return Err(ReplayError::MalformedField);
                    }
                    evs.push(HoldEvent { frame: c.frame as u32, hold: p.hold, player_2: p.player_2 });
                },
            }
            i += 1;
        }
        assert(cs.subrange(0, i as int) =~= cs);
        let clicks = clicks_from_events(&evs);
        self.accept(fps, clicks, GameVersion::Version2206);
        Ok(())
    }

    /// The Silicate 2 inputs for the replay; fails when a frame is below the
    /// one before it.
    pub fn write_slc2(&self) -> (r: Result<Vec<Slc2Input>, ReplayError>)
        ensures
            frames_ascending(events_of(self@.clicks)) ==> (r matches Ok(v) && v@ == slc2_inputs(
                events_of(self@.clicks),
            )),
            !frames_ascending(events_of(self@.clicks)) ==> r == Err::<Vec<Slc2Input>, ReplayError>(
                ReplayError::WriteError,
            ),
    {
        let evs = hold_events(&self.clicks);
        let mut out: Vec<Slc2Input> = Vec::new();
        let mut i: usize = 0;
        let mut last: u32 = 0;
        while i < evs.len()
            invariant
                i <= evs@.len(),
                evs@ == events_of(self@.clicks),
                frames_ascending(evs@.subrange(0, i as int)),
                i > 0 ==> last == evs@[i - 1].frame,
                out@ == slc2_inputs(evs@.subrange(0, i as int)),
            decreases evs@.len() - i,
        {
            let e = evs[i];
            if i > 0 && e.frame < last {
                assert(!frames_ascending(evs@));
                return Err(ReplayError::WriteError);
            }
            out.push(
                Slc2Input {
                    frame: e.frame as u64,
                    player: Some(Slc2Player { hold: e.hold, player_2: e.player_2, button: 1 }),
                },
            );
            proof {
                let p = evs@.subrange(0, i + 1);
                assert forall|a: int, b: int| 0 <= a <= b < p.len() implies #[trigger] p[a].frame
                    <= #[trigger] p[b].frame by {
                    if b < i {
                        assert(evs@.subrange(0, i as int)[a] == p[a]);
                        assert(evs@.subrange(0, i as int)[b] == p[b]);
                    } else if a < b {
                        assert(evs@.subrange(0, i as int)[a] == p[a]);
                        assert(evs@.subrange(0, i as int)[i - 1] == p[i - 1]);
                    }
                }
            }
            last = e.frame;
            i += 1;
            assert(out@ =~= slc2_inputs(evs@.subrange(0, i as int)));
        }
        assert(evs@.subrange(0, i as int) =~= evs@);
        Ok(out)
    }
}

} // verus!
