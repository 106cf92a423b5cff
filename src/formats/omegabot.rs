//! OmegaBot 3 and OmegaBot 2: a list of clicks, each a frame and an action
//! tag. Frame-rate changes inside the list are not supported; empty tags are
//! dropped. OmegaBot 2 stores each frame one above the canonical frame.

use vstd::prelude::*;
use crate::replay::{
    clicks_from_events, clicks_of, events_of, hold_events, lemma_events_of_clicks_of, lemma_single_player_clicks, single_player, parsed_into, parsed_replacing,
    Decoded, GameVersion, HoldEvent, Replay, ReplayError, ReplayModel,
};

verus! {

/// An OmegaBot 3 action tag.
#[derive(Clone, Copy, PartialEq, Eq, Debug, Structural)]
pub enum OmegabotClickType {
    NoInput,
    Player1Down,
    Player1Up,
    Player2Down,
    Player2Up,
    /// A change of frame rate, as the bit pattern of a binary32 value.
    FpsChange(u32),
}

impl OmegabotClickType {
    pub fn is_player1(self) -> (r: bool)
        ensures
            r == (self == OmegabotClickType::Player1Down || self == OmegabotClickType::Player1Up),
    {
        matches!(self, OmegabotClickType::Player1Down | OmegabotClickType::Player1Up)
    }

    pub fn is_player2(self) -> (r: bool)
        ensures
            r == (self == OmegabotClickType::Player2Down || self == OmegabotClickType::Player2Up),
    {
        matches!(self, OmegabotClickType::Player2Down | OmegabotClickType::Player2Up)
    }
}

#[derive(Clone, Copy, PartialEq, Eq, Debug, Structural)]
pub struct OmegabotClick {
    pub frame: u32,
    pub click_type: OmegabotClickType,
}

/// The fields of an OmegaBot 3 file.
pub struct OmegabotReplay {
    /// Bit pattern of a binary32 value.
    pub initial_fps: u32,
    /// Bit pattern of a binary32 value.
    pub current_fps: u32,
    pub clicks: Vec<OmegabotClick>,
    pub current: usize,
}

/// The single-player action a tag stands for: none for an empty tag, an
/// error for a frame-rate change.
pub open spec fn obot3_event(c: OmegabotClick) -> Result<Option<HoldEvent>, ReplayError> {
    match c.click_type {
        OmegabotClickType::NoInput => Ok(None),
        OmegabotClickType::FpsChange(_) => Err(ReplayError::UnsupportedVariant),
        OmegabotClickType::Player1Down => Ok(
            Some(HoldEvent { frame: c.frame, hold: true, player_2: false }),
        ),
        OmegabotClickType::Player1Up => Ok(
            Some(HoldEvent { frame: c.frame, hold: false, player_2: false }),
        ),
        OmegabotClickType::Player2Down => Ok(
            Some(HoldEvent { frame: c.frame, hold: true, player_2: true }),
        ),
        OmegabotClickType::Player2Up => Ok(
            Some(HoldEvent { frame: c.frame, hold: false, player_2: true }),
        ),
    }
}

pub open spec fn obot3_events(cs: Seq<OmegabotClick>) -> Result<Seq<HoldEvent>, ReplayError>
    decreases cs.len(),
{
    if cs.len() == 0 {
        Ok(Seq::empty())
    } else {
        match obot3_events(cs.drop_last()) {
            Err(e) => Err(e),
            Ok(es) => match obot3_event(cs.last()) {
                Err(e) => Err(e),
                Ok(None) => Ok(es),
                Ok(Some(ev)) => Ok(es.push(ev)),
            },
        }
    }
}

pub open spec fn obot3_decode(fps: u32, cs: Seq<OmegabotClick>) -> Result<Decoded, ReplayError> {
    match obot3_events(cs) {
        Err(e) => Err(e),
        Ok(es) => Ok(Decoded { fps, clicks: clicks_of(es) }),
    }
}

pub open spec fn obot3_tag(e: HoldEvent) -> OmegabotClickType {
    if e.player_2 {
        if e.hold {
            OmegabotClickType::Player2Down
        } else {
            OmegabotClickType::Player2Up
        }
    } else if e.hold {
        OmegabotClickType::Player1Down
    } else {
        OmegabotClickType::Player1Up
    }
}

pub open spec fn obot3_click(e: HoldEvent) -> OmegabotClick {
    OmegabotClick { frame: e.frame, click_type: obot3_tag(e) }
}

pub open spec fn obot3_clicks(evs: Seq<HoldEvent>) -> Seq<OmegabotClick> {
    evs.map_values(|e: HoldEvent| obot3_click(e))
}

proof fn lemma_obot3_events_err(cs: Seq<OmegabotClick>, k: int, e: ReplayError)
    requires
        0 <= k <= cs.len(),
        obot3_events(cs.subrange(0, k)) == Err::<Seq<HoldEvent>, ReplayError>(e),
    ensures
        obot3_events(cs) == Err::<Seq<HoldEvent>, ReplayError>(e),
    decreases cs.len() - k,
{
    if k == cs.len() {
        assert(cs.subrange(0, k) =~= cs);
    } else {
        assert(cs.subrange(0, k + 1).drop_last() =~= cs.subrange(0, k));
        lemma_obot3_events_err(cs, k + 1, e);
    }
}

/// Tags written for single-player actions read back as those actions.
pub proof fn lemma_obot3_round_trip(evs: Seq<HoldEvent>)
    ensures
        obot3_events(obot3_clicks(evs)) == Ok::<
            Seq<HoldEvent>,
            ReplayError,
        >(evs),
    decreases evs.len(),
{
    let w = obot3_clicks(evs);
    if evs.len() > 0 {
        lemma_obot3_round_trip(evs.drop_last());
        assert(w.drop_last() =~= obot3_clicks(evs.drop_last()));
        let e = evs.last();
        assert(w.last() == obot3_click(e));
        assert(obot3_event(obot3_click(e)) == Ok::<Option<HoldEvent>, ReplayError>(Some(e)));
        assert(evs.drop_last().push(evs.last()) =~= evs);
        assert(w.len() > 0);
        assert(obot3_events(w) == Ok::<Seq<HoldEvent>, ReplayError>(evs.drop_last().push(e)));
    } else {
        assert(w.len() == 0);
        assert(evs =~= Seq::<HoldEvent>::empty());
    }
}

/// An OmegaBot 3 file read back gives the frame rate and the single-player
/// actions that were written.
pub proof fn lemma_obot3_file_round_trip(m: ReplayModel)
    ensures
        obot3_decode(m.fps, obot3_clicks(events_of(m.clicks))) matches Ok(
            d,
        ) && d.fps == m.fps && events_of(d.clicks) == events_of(m.clicks)
            && (single_player(m.clicks) ==> d.clicks == m.clicks),
{
    lemma_obot3_round_trip(events_of(m.clicks));
    lemma_events_of_clicks_of(events_of(m.clicks));
    if single_player(m.clicks) {
        lemma_single_player_clicks(m.clicks);
    }
}

fn obot3_event_exec(c: OmegabotClick) -> (r: Result<Option<HoldEvent>, ReplayError>)
    ensures
        r == obot3_event(c),
{
    match c.click_type {
        OmegabotClickType::NoInput => Ok(None),
        OmegabotClickType::FpsChange(_) => Err(ReplayError::UnsupportedVariant),
        OmegabotClickType::Player1Down => Ok(
            Some(HoldEvent { frame: c.frame, hold: true, player_2: false }),
        ),
        OmegabotClickType::Player1Up => Ok(
            Some(HoldEvent { frame: c.frame, hold: false, player_2: false }),
        ),
        OmegabotClickType::Player2Down => Ok(
            Some(HoldEvent { frame: c.frame, hold: true, player_2: true }),
        ),
        OmegabotClickType::Player2Up => Ok(
            Some(HoldEvent { frame: c.frame, hold: false, player_2: true }),
        ),
    }
}

impl Replay {
    /// Reads the clicks of an OmegaBot 3 file.
    pub fn parse_obot3(&mut self, doc: &OmegabotReplay) -> (r: Result<(), ReplayError>)
        ensures
            parsed_replacing(
                old(self)@,
                final(self)@,
                r,
                obot3_decode(doc.initial_fps, doc.clicks@),
                GameVersion::Version2113,
            ),
    {
        let ghost cs = doc.clicks@;
        let mut evs: Vec<HoldEvent> = Vec::new();
        let mut i: usize = 0;
        while i < doc.clicks.len()
            invariant
                cs == doc.clicks@,
                i <= cs.len(),
                obot3_events(cs.subrange(0, i as int)) == Ok::<Seq<HoldEvent>, ReplayError>(evs@),
            decreases cs.len() - i,
        {
            assert(cs.subrange(0, i + 1).drop_last() =~= cs.subrange(0, i as int));
            match obot3_event_exec(doc.clicks[i]) {
                Err(e) => {
                    proof {
                        lemma_obot3_events_err(cs, i + 1, e);
                    }
                    return Err(e);
                },
                Ok(None) => {},
                Ok(Some(ev)) => {
                    evs.push(ev);
                },
            }
            i += 1;
        }
        assert(cs.subrange(0, i as int) =~= cs);
        let clicks = clicks_from_events(&evs);
        self.replace_with(doc.initial_fps, clicks, GameVersion::Version2113);
        Ok(())
    }

    /// The OmegaBot 3 file for the replay: one tagged click per single-player action.
    pub fn write_obot3(&self) -> (r: OmegabotReplay)
        ensures
            r.initial_fps == self.fps,
            r.current_fps == self.fps,
            r.current == 0,
            r.clicks@ == obot3_clicks(events_of(self@.clicks)),
    {
        let evs = hold_events(&self.clicks);
        let mut out: Vec<OmegabotClick> = Vec::new();
        let mut i: usize = 0;
        while i < evs.len()
            invariant
                i <= evs@.len(),
                out@ == obot3_clicks(evs@.subrange(0, i as int)),
            decreases evs@.len() - i,
        {
            let e = evs[i];
            let click_type = if e.player_2 {
                if e.hold {
                    OmegabotClickType::Player2Down
                } else {
                    OmegabotClickType::Player2Up
                }
            } else if e.hold {
                OmegabotClickType::Player1Down
            } else {
                OmegabotClickType::Player1Up
            };
            out.push(OmegabotClick { frame: e.frame, click_type });
            i += 1;
            assert(out@ =~= obot3_clicks(evs@.subrange(0, i as int)));
        }
        assert(evs@.subrange(0, i as int) =~= evs@);
        OmegabotReplay { initial_fps: self.fps, current_fps: self.fps, clicks: out, current: 0 }
    }
}

/// Where an OmegaBot 2 click happens.
#[derive(Clone, Copy, PartialEq, Eq, Debug, Structural)]
pub enum OmegaBot2Location {
    XPos(u32),
    Frame(u32),
}

/// An OmegaBot 2 action tag.
#[derive(Clone, Copy, PartialEq, Eq, Debug, Structural)]
pub enum OmegaBot2ClickType {
    NoInput,
    /// A change of frame rate, as the bit pattern of a binary32 value.
    FpsChange(u32),
    Player1Down,
    Player1Up,
    Player2Down,
    Player2Up,
}

impl OmegaBot2ClickType {
    pub fn is_player_2(&self) -> (r: bool)
        ensures
            r == (*self == OmegaBot2ClickType::Player2Up || *self == OmegaBot2ClickType::Player2Down),
    {
        matches!(self, OmegaBot2ClickType::Player2Up | OmegaBot2ClickType::Player2Down)
    }

    pub fn is_down(&self) -> (r: bool)
        ensures
            r == (*self == OmegaBot2ClickType::Player1Down || *self
                == OmegaBot2ClickType::Player2Down),
    {
        matches!(self, OmegaBot2ClickType::Player1Down | OmegaBot2ClickType::Player2Down)
    }
}

#[derive(Clone, Copy, PartialEq, Eq, Debug, Structural)]
pub struct OmegaBot2Click {
    pub location: OmegaBot2Location,
    pub click_type: OmegaBot2ClickType,
}

#[derive(Clone, Copy, PartialEq, Eq, Debug, Structural)]
pub enum OmegaBot2ReplayType {
    XPos,
    Frame,
}

/// The fields of an OmegaBot 2 file.
pub struct OmegaBot2Replay {
    /// Bit pattern of a binary32 value.
    pub initial_fps: u32,
    /// Bit pattern of a binary32 value.
    pub current_fps: u32,
    pub replay_type: OmegaBot2ReplayType,
    pub current_click: usize,
    pub clicks: Vec<OmegaBot2Click>,
}

/// File frame 1 is canonical frame 0; file frame 0 has no canonical frame.
pub open spec fn obot2_event(c: OmegaBot2Click) -> Result<Option<HoldEvent>, ReplayError> {
    match c.location {
        OmegaBot2Location::XPos(_) => Err(ReplayError::UnsupportedVariant),
        OmegaBot2Location::Frame(f) => match c.click_type {
            OmegaBot2ClickType::NoInput => Ok(None),
            OmegaBot2ClickType::FpsChange(_) => Err(ReplayError::UnsupportedVariant),
            t => if f == 0 {
                Err(ReplayError::MalformedField)
            } else {
                Ok(
                    Some(
                        HoldEvent {
                            frame: (f - 1) as u32,
                            hold: t == OmegaBot2ClickType::Player1Down || t
                                == OmegaBot2ClickType::Player2Down,
                            player_2: t == OmegaBot2ClickType::Player2Down || t
                                == OmegaBot2ClickType::Player2Up,
                        },
                    ),
                )
            },
        },
    }
}

pub open spec fn obot2_events(cs: Seq<OmegaBot2Click>) -> Result<Seq<HoldEvent>, ReplayError>
    decreases cs.len(),
{
    if cs.len() == 0 {
        Ok(Seq::empty())
    } else {
        match obot2_events(cs.drop_last()) {
            Err(e) => Err(e),
            Ok(es) => match obot2_event(cs.last()) {
                Err(e) => Err(e),
                Ok(None) => Ok(es),
                Ok(Some(ev)) => Ok(es.push(ev)),
            },
        }
    }
}

pub open spec fn obot2_decode(fps: u32, cs: Seq<OmegaBot2Click>) -> Result<Decoded, ReplayError> {
    match obot2_events(cs) {
        Err(e) => Err(e),
        Ok(es) => Ok(Decoded { fps, clicks: clicks_of(es) }),
    }
}

pub open spec fn obot2_tag(e: HoldEvent) -> OmegaBot2ClickType {
    if e.player_2 {
        if e.hold {
            OmegaBot2ClickType::Player2Down
        } else {
            OmegaBot2ClickType::Player2Up
        }
    } else if e.hold {
        OmegaBot2ClickType::Player1Down
    } else {
        OmegaBot2ClickType::Player1Up
    }
}

/// Canonical frame `f` is written as file frame `f + 1`.
pub open spec fn obot2_click(e: HoldEvent) -> OmegaBot2Click {
    OmegaBot2Click {
        location: OmegaBot2Location::Frame((e.frame + 1) as u32),
        click_type: obot2_tag(e),
    }
}

pub open spec fn obot2_clicks(evs: Seq<HoldEvent>) -> Seq<OmegaBot2Click> {
    evs.map_values(|e: HoldEvent| obot2_click(e))
}

/// Every frame has a file frame one above it.
pub open spec fn obot2_frames_fit(evs: Seq<HoldEvent>) -> bool {
    forall|i: int| 0 <= i < evs.len() ==> #[trigger] evs[i].frame < u32::MAX
}

proof fn lemma_obot2_events_err(cs: Seq<OmegaBot2Click>, k: int, e: ReplayError)
    requires
        0 <= k <= cs.len(),
        obot2_events(cs.subrange(0, k)) == Err::<Seq<HoldEvent>, ReplayError>(e),
    ensures
        obot2_events(cs) == Err::<Seq<HoldEvent>, ReplayError>(e),
    decreases cs.len() - k,
{
    if k == cs.len() {
        assert(cs.subrange(0, k) =~= cs);
    } else {
        assert(cs.subrange(0, k + 1).drop_last() =~= cs.subrange(0, k));
        lemma_obot2_events_err(cs, k + 1, e);
    }
}

/// Clicks written for single-player actions read back as those actions,
/// when no frame is the largest `u32`.
pub proof fn lemma_obot2_round_trip(evs: Seq<HoldEvent>)
    requires
        forall|i: int| 0 <= i < evs.len() ==> #[trigger] evs[i].frame < u32::MAX,
    ensures
        obot2_events(obot2_clicks(evs)) == Ok::<
            Seq<HoldEvent>,
            ReplayError,
        >(evs),
    decreases evs.len(),
{
    let w = obot2_clicks(evs);
    if evs.len() > 0 {
        let init = evs.drop_last();
        assert forall|i: int| 0 <= i < init.len() implies #[trigger] init[i].frame < u32::MAX by {
            assert(init[i] == evs[i]);
        }
        lemma_obot2_round_trip(init);
        assert(w.drop_last() =~= obot2_clicks(init));
        let e = evs.last();
        assert(e.frame < u32::MAX);
        assert(w.last() == obot2_click(e));
        assert(obot2_event(obot2_click(e)) == Ok::<Option<HoldEvent>, ReplayError>(Some(e)));
        assert(init.push(evs.last()) =~= evs);
        assert(w.len() > 0);
        assert(obot2_events(w) == Ok::<Seq<HoldEvent>, ReplayError>(init.push(e)));
    } else {
        assert(w.len() == 0);
        assert(evs =~= Seq::<HoldEvent>::empty());
    }
}

/// File frame 1 reads as canonical frame 0, canonical frame 0 is written as
/// file frame 1, and file frame 0 is refused.
pub proof fn lemma_obot2_frame_zero(t: OmegaBot2ClickType, e: HoldEvent)
    requires
        t != OmegaBot2ClickType::NoInput,
        !(t is FpsChange),
        e.frame == 0,
    ensures
        obot2_event(OmegaBot2Click { location: OmegaBot2Location::Frame(1), click_type: t }) matches Ok(
            Some(ev),
        ) && ev.frame == 0,
        obot2_click(e).location == OmegaBot2Location::Frame(1),
        obot2_event(OmegaBot2Click { location: OmegaBot2Location::Frame(0), click_type: t })
            == Err::<Option<HoldEvent>, ReplayError>(ReplayError::MalformedField),
{
}

fn obot2_event_exec(c: OmegaBot2Click) -> (r: Result<Option<HoldEvent>, ReplayError>)
    ensures
        r == obot2_event(c),
{
    match c.location {
        OmegaBot2Location::XPos(_) => Err(ReplayError::UnsupportedVariant),
        OmegaBot2Location::Frame(f) => match c.click_type {
            OmegaBot2ClickType::NoInput => Ok(None),
            OmegaBot2ClickType::FpsChange(_) => Err(ReplayError::UnsupportedVariant),
            t => {
                if f == 0 {
                    Err(ReplayError::MalformedField)
                } else {
                    Ok(Some(HoldEvent { frame: f - 1, hold: t.is_down(), player_2: t.is_player_2() }))
                }
            },
        },
    }
}

impl Replay {
    /// Reads the clicks of an OmegaBot 2 file.
    pub fn parse_obot2(&mut self, doc: &OmegaBot2Replay) -> (r: Result<(), ReplayError>)
        ensures
            parsed_into(
                old(self)@,
                final(self)@,
                r,
                obot2_decode(doc.initial_fps, doc.clicks@),
                GameVersion::Version2113,
            ),
    {
        let ghost cs = doc.clicks@;
        let mut evs: Vec<HoldEvent> = Vec::new();
        let mut i: usize = 0;
        while i < doc.clicks.len()
            invariant
                cs == doc.clicks@,
                i <= cs.len(),
                obot2_events(cs.subrange(0, i as int)) == Ok::<Seq<HoldEvent>, ReplayError>(evs@),
            decreases cs.len() - i,
        {
            assert(cs.subrange(0, i + 1).drop_last() =~= cs.subrange(0, i as int));
            match obot2_event_exec(doc.clicks[i]) {
                Err(e) => {
                    proof {
                        lemma_obot2_events_err(cs, i + 1, e);
                    }
                    return Err(e);
                },
                Ok(None) => {},
                Ok(Some(ev)) => {
                    evs.push(ev);
                },
            }
            i += 1;
        }
        assert(cs.subrange(0, i as int) =~= cs);
        let clicks = clicks_from_events(&evs);
        self.accept(doc.initial_fps, clicks, GameVersion::Version2113);
        Ok(())
    }

    /// The OmegaBot 2 file for the replay; fails when a frame is the largest
    /// `u32`, which has no file frame.
    pub fn write_obot2(&self) -> (r: Result<OmegaBot2Replay, ReplayError>)
        ensures
            ({
                let evs = events_of(self@.clicks);
                &&& obot2_frames_fit(evs) ==> (r matches Ok(doc) && doc.initial_fps == self.fps && doc.current_fps
                    == self.fps && doc.replay_type == OmegaBot2ReplayType::Frame
                    && doc.current_click == 0 && doc.clicks@ == obot2_clicks(evs))
                &&& !obot2_frames_fit(evs) ==> r is Err
            }),
    {
        let evs = hold_events(&self.clicks);
        let mut out: Vec<OmegaBot2Click> = Vec::new();
        let mut i: usize = 0;
        while i < evs.len()
            invariant
                i <= evs@.len(),
                evs@ == events_of(self@.clicks),
                forall|k: int| 0 <= k < i ==> #[trigger] evs@[k].frame < u32::MAX,
                out@ == obot2_clicks(evs@.subrange(0, i as int)),
            decreases evs@.len() - i,
        {
            let e = evs[i];
            if e.frame == u32::MAX {
                assert(!(evs@[i as int].frame < u32::MAX));
                assert(!obot2_frames_fit(evs@));
                return Err(ReplayError::WriteError);
            }
            let click_type = if e.player_2 {
                if e.hold {
                    OmegaBot2ClickType::Player2Down
                } else {
                    OmegaBot2ClickType::Player2Up
                }
            } else if e.hold {
                OmegaBot2ClickType::Player1Down
            } else {
                OmegaBot2ClickType::Player1Up
            };
            out.push(OmegaBot2Click { location: OmegaBot2Location::Frame(e.frame + 1), click_type });
            i += 1;
            assert(out@ =~= obot2_clicks(evs@.subrange(0, i as int)));
        }
        assert(evs@.subrange(0, i as int) =~= evs@);
        Ok(
            OmegaBot2Replay {
                initial_fps: self.fps,
                current_fps: self.fps,
                replay_type: OmegaBot2ReplayType::Frame,
                current_click: 0,
                clicks: out,
            },
        )
    }
}

} // verus!
