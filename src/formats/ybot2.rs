//! yBot 2: a stream of actions, each stored as the number of frames since the
//! action before it. Button actions carry the player (true for player 1), the
//! press and whether the button is the jump; other buttons are passed over and
//! frame-rate changes are not supported.

use vstd::prelude::*;
use crate::replay::{
    clicks_from_events, clicks_of, events_of, hold_events, parsed_into, Decoded, GameVersion,
    HoldEvent, Replay, ReplayError,
};
use crate::formats::slc2::frames_ascending;

verus! {

#[derive(Clone, Copy, PartialEq, Eq, Debug, Structural)]
pub enum YBot2ActionKind {
    Button { player_1: bool, hold: bool, jump: bool },
    /// A change of frame rate, as the bit pattern of a binary32 value.
    Fps(u32),
}

#[derive(Clone, Copy, PartialEq, Eq, Debug, Structural)]
pub struct YBot2Action {
    pub delta: u64,
    pub kind: YBot2ActionKind,
}

/// The frame reached and the actions read, or the first error.
pub open spec fn ybot2_scan(acts: Seq<YBot2Action>) -> Result<(u64, Seq<HoldEvent>), ReplayError>
    decreases acts.len(),
{
    if acts.len() == 0 {
        Ok((0u64, Seq::empty()))
    } else {
        match ybot2_scan(acts.drop_last()) {
            Err(e) => Err(e),
            Ok((frame, es)) => {
                let a = acts.last();
                let f = frame + a.delta;
                if f > u64::MAX {
                    Err(ReplayError::MalformedField)
                } else {
                    match a.kind {
                        YBot2ActionKind::Fps(_) => Err(ReplayError::UnsupportedVariant),
                        YBot2ActionKind::Button { player_1, hold, jump } => if !jump {
                            Ok((f as u64, es))
                        } else if f > u32::MAX {
                            Err(ReplayError::MalformedField)
                        } else {
                            Ok(
                                (
                                    f as u64,
                                    es.push(
                                        HoldEvent { frame: f as u32, hold, player_2: !player_1 },
                                    ),
                                ),
                            )
                        },
                    }
                }
            },
        }
    }
}

pub open spec fn ybot2_decode(fps: u32, acts: Seq<YBot2Action>) -> Result<Decoded, ReplayError> {
    match ybot2_scan(acts) {
        Err(e) => Err(e),
        Ok((_, es)) => Ok(Decoded { fps, clicks: clicks_of(es) }),
    }
}

/// The action for event `i`, a step from the frame of event `i - 1`.
pub open spec fn ybot2_action(evs: Seq<HoldEvent>, i: int) -> YBot2Action {
    let prev: int = if i == 0 {
        0
    } else {
        evs[i - 1].frame as int
    };
    YBot2Action {
        delta: (evs[i].frame - prev) as u64,
        kind: YBot2ActionKind::Button { player_1: !evs[i].player_2, hold: evs[i].hold, jump: true },
    }
}

pub open spec fn ybot2_actions(evs: Seq<HoldEvent>) -> Seq<YBot2Action> {
    Seq::new(evs.len(), |i: int| ybot2_action(evs, i))
}

proof fn lemma_ybot2_scan_err(acts: Seq<YBot2Action>, k: int, e: ReplayError)
    requires
        0 <= k <= acts.len(),
        ybot2_scan(acts.subrange(0, k)) == Err::<(u64, Seq<HoldEvent>), ReplayError>(e),
    ensures
        ybot2_scan(acts) == Err::<(u64, Seq<HoldEvent>), ReplayError>(e),
    decreases acts.len() - k,
{
    if k == acts.len() {
        assert(acts.subrange(0, k) =~= acts);
    } else {
        assert(acts.subrange(0, k + 1).drop_last() =~= acts.subrange(0, k));
        lemma_ybot2_scan_err(acts, k + 1, e);
    }
}

/// Steps written for actions in frame order read back as those actions.
pub proof fn lemma_ybot2_round_trip(evs: Seq<HoldEvent>)
    requires
        frames_ascending(evs),
    ensures
        ybot2_scan(ybot2_actions(evs)) matches Ok((f, es)) && es == evs,
{
    lemma_ybot2_prefix(evs, evs.len() as int);
    assert(ybot2_actions(evs).subrange(0, evs.len() as int) =~= ybot2_actions(evs));
    assert(evs.subrange(0, evs.len() as int) =~= evs);
}

proof fn lemma_ybot2_prefix(evs: Seq<HoldEvent>, k: int)
    requires
        frames_ascending(evs),
        0 <= k <= evs.len(),
    ensures
        ybot2_scan(ybot2_actions(evs).subrange(0, k)) == Ok::<(u64, Seq<HoldEvent>), ReplayError>(
            ((if k == 0 { 0 } else { evs[k - 1].frame as u64 }), evs.subrange(0, k)),
        ),
    decreases k,
{
    let acts = ybot2_actions(evs).subrange(0, k);
    if k == 0 {
        assert(evs.subrange(0, 0) =~= Seq::<HoldEvent>::empty());
    } else {
        lemma_ybot2_prefix(evs, k - 1);
        assert(acts.drop_last() =~= ybot2_actions(evs).subrange(0, k - 1));
        if k > 1 {
            assert(evs[k - 2].frame <= evs[k - 1].frame);
        }
        assert(evs.subrange(0, k - 1).push(evs[k - 1]) =~= evs.subrange(0, k));
    }
}

impl Replay {
    /// Reads the action stream of a yBot 2 macro whose frame rate has the
    /// binary32 value `fps`.
    pub fn parse_ybot2(&mut self, actions: &Vec<YBot2Action>, fps: u32) -> (r: Result<(), ReplayError>)
        ensures
            parsed_into(
                old(self)@,
                final(self)@,
                r,
                ybot2_decode(fps, actions@),
                GameVersion::Version2206,
            ),
    {
        let ghost acts = actions@;
        let mut evs: Vec<HoldEvent> = Vec::new();
        let mut frame: u64 = 0;
        let mut i: usize = 0;
        while i < actions.len()
            invariant
                acts == actions@,
                i <= acts.len(),
                ybot2_scan(acts.subrange(0, i as int)) == Ok::<(u64, Seq<HoldEvent>), ReplayError>(
                    (frame, evs@),
                ),
            decreases acts.len() - i,
        {
            assert(acts.subrange(0, i + 1).drop_last() =~= acts.subrange(0, i as int));
            assert(acts.subrange(0, i + 1).last() == acts[i as int]);
            let a = actions[i];
            if a.delta > u64::MAX - frame {
                proof {
                    lemma_ybot2_scan_err(acts, i + 1, ReplayError::MalformedField);
                }
                return Err(ReplayError::MalformedField);
            }
            let f = frame + a.delta;
            match a.kind {
                YBot2ActionKind::Fps(_) => {
                    proof {
                        lemma_ybot2_scan_err(acts, i + 1, ReplayError::UnsupportedVariant);
                    }
                    return Err(ReplayError::UnsupportedVariant);
                },
                YBot2ActionKind::Button { player_1, hold, jump } => {
                    if jump {
                        if f > u32::MAX as u64 {
                            proof {
                                lemma_ybot2_scan_err(acts, i + 1, ReplayError::MalformedField);
                            }
                            return Err(ReplayError::MalformedField);
                        }
                        evs.push(HoldEvent { frame: f as u32, hold, player_2: !player_1 });
                    }
                },
            }
            frame = f;
            i += 1;
        }
        assert(acts.subrange(0, i as int) =~= acts);
        let clicks = clicks_from_events(&evs);
        self.accept(fps, clicks, GameVersion::Version2206);
        Ok(())
    }

    /// The action stream for the replay; fails when a frame is below the one
    /// before it, which no step can express.
    pub fn write_ybot2(&self) -> (r: Result<Vec<YBot2Action>, ReplayError>)
        ensures
            frames_ascending(events_of(self@.clicks)) ==> (r matches Ok(v) && v@ == ybot2_actions(
                events_of(self@.clicks),
            )),
            !frames_ascending(events_of(self@.clicks)) ==> r == Err::<
                Vec<YBot2Action>,
                ReplayError,
            >(ReplayError::WriteError),
    {
        let evs = hold_events(&self.clicks);
        let mut out: Vec<YBot2Action> = Vec::new();
        let mut i: usize = 0;
        let mut last: u32 = 0;
        while i < evs.len()
            invariant
                i <= evs@.len(),
                evs@ == events_of(self@.clicks),
                frames_ascending(evs@.subrange(0, i as int)),
                last == (if i == 0 { 0 } else { evs@[i - 1].frame }),
                out@ == ybot2_actions(evs@).subrange(0, i as int),
            decreases evs@.len() - i,
        {
            let e = evs[i];
            if e.frame < last {
                assert(!frames_ascending(evs@));
                return Err(ReplayError::WriteError);
            }
            out.push(
                YBot2Action {
                    delta: (e.frame - last) as u64,
                    kind: YBot2ActionKind::Button { player_1: !e.player_2, hold: e.hold, jump: true },
                },
            );
            proof {
                let p = evs@.subrange(0, i + 1);
                assert forall|a: int, b: int| 0 <= a <= b < p.len() implies #[trigger] p[a].frame
                    <= #[trigger] p[b].frame by {
                    if b < i {
                        assert(evs@.subrange(0, i as int)[a] == p[a]);
                        assert(evs@.subrange(0, i as int)[b] == p[b]);
                    } else if a < b {
                        assert(evs@.subrange(0, i as int)[a] == p[a]);
                        assert(evs@.subrange(0, i as int)[i - 1] == p[i - 1]);
                    }
                }
            }
            last = e.frame;
            i += 1;
            assert(out@ =~= ybot2_actions(evs@).subrange(0, i as int));
        }
        assert(ybot2_actions(evs@).subrange(0, i as int) =~= ybot2_actions(evs@));
        assert(evs@.subrange(0, i as int) =~= evs@);
        Ok(out)
    }
}

} // verus!
