//! The canonical replay model: clicks against frames, a frame rate and the
//! game build whose input semantics the replay assumes.

use vstd::prelude::*;

verus! {

/// The bit pattern of the IEEE-754 binary32 value 60.0, the default frame rate.
pub const DEFAULT_FPS: u32 = 0x4270_0000;

/// Which game build's input semantics a replay assumes.
#[derive(Clone, Copy, PartialEq, Eq, Debug, Structural)]
pub enum GameVersion {
    Any,
    Version2113,
    Version2206,
}

impl GameVersion {
    /// The version as users write it: `Any`, `2.113` or `2.206`.
    pub fn to_text(&self) -> (r: &'static str)
        ensures
            *self == GameVersion::Any ==> r@ == "Any"@,
            *self == GameVersion::Version2113 ==> r@ == "2.113"@,
            *self == GameVersion::Version2206 ==> r@ == "2.206"@,
    {
        match self {
            GameVersion::Any => "Any",
            GameVersion::Version2113 => "2.113",
            GameVersion::Version2206 => "2.206",
        }
    }
}

/// What one player does on a click record.
#[derive(Clone, Copy, PartialEq, Eq, Debug, Structural)]
pub enum ClickType {
    Click,
    Release,
    Skip,
}

/// Press for `true`, release for `false`.
pub open spec fn hold_type(hold: bool) -> ClickType {
    if hold {
        ClickType::Click
    } else {
        ClickType::Release
    }
}

impl ClickType {
    /// The cycle press, release, skip, press.
    pub open spec fn toggled(self) -> ClickType {
        match self {
            ClickType::Click => ClickType::Release,
            ClickType::Release => ClickType::Skip,
            ClickType::Skip => ClickType::Click,
        }
    }

    pub fn is_skip(&self) -> (r: bool)
        ensures
            r == (*self == ClickType::Skip),
    {
        matches!(self, ClickType::Skip)
    }

    pub fn is_click(&self) -> (r: bool)
        ensures
            r == (*self == ClickType::Click),
    {
        matches!(self, ClickType::Click)
    }

    pub fn is_release(&self) -> (r: bool)
        ensures
            r == (*self == ClickType::Release),
    {
        matches!(self, ClickType::Release)
    }

    pub fn toggle(&self) -> (r: ClickType)
        ensures
            r == self.toggled(),
    {
        match self {
            ClickType::Click => ClickType::Release,
            ClickType::Release => ClickType::Skip,
            ClickType::Skip => ClickType::Click,
        }
    }
}

impl From<bool> for ClickType {
    fn from(hold: bool) -> (r: ClickType) {
        if hold {
            ClickType::Click
        } else {
            ClickType::Release
        }
    }
}

impl vstd::std_specs::convert::FromSpecImpl<bool> for ClickType {
    open spec fn obeys_from_spec() -> bool {
        true
    }

    open spec fn from_spec(hold: bool) -> ClickType {
        hold_type(hold)
    }
}

/// One record of the timeline: a frame and what each player does on it.
#[derive(Clone, Copy, PartialEq, Eq, Debug, Structural)]
pub struct Click {
    pub frame: u32,
    pub p1: ClickType,
    pub p2: ClickType,
}

/// A single-player action: the shape that most wire formats store per record.
#[derive(Clone, Copy, PartialEq, Eq, Debug, Structural)]
pub struct HoldEvent {
    pub frame: u32,
    pub hold: bool,
    pub player_2: bool,
}

/// The click that a single-player action stands for; the other player skips.
pub open spec fn click_of(e: HoldEvent) -> Click {
    Click {
        frame: e.frame,
        p1: if e.player_2 {
            ClickType::Skip
        } else {
            hold_type(e.hold)
        },
        p2: if e.player_2 {
            hold_type(e.hold)
        } else {
            ClickType::Skip
        },
    }
}

/// The single-player actions that a click carries: player 1's first, skips left out.
pub open spec fn events_of_click(c: Click) -> Seq<HoldEvent> {
    let first = if c.p1 == ClickType::Skip {
        Seq::empty()
    } else {
        seq![HoldEvent { frame: c.frame, hold: c.p1 == ClickType::Click, player_2: false }]
    };
    let second = if c.p2 == ClickType::Skip {
        Seq::empty()
    } else {
        seq![HoldEvent { frame: c.frame, hold: c.p2 == ClickType::Click, player_2: true }]
    };
    first + second
}

/// The single-player actions of a sequence of clicks, in order.
pub open spec fn events_of(cs: Seq<Click>) -> Seq<HoldEvent>
    decreases cs.len(),
{
    if cs.len() == 0 {
        Seq::empty()
    } else {
        events_of(cs.drop_last()) + events_of_click(cs.last())
    }
}

/// One click for each single-player action.
pub open spec fn clicks_of(evs: Seq<HoldEvent>) -> Seq<Click> {
    evs.map_values(|e: HoldEvent| click_of(e))
}

pub proof fn lemma_events_of_append(a: Seq<Click>, b: Seq<Click>)
    ensures
        events_of(a + b) == events_of(a) + events_of(b),
    decreases b.len(),
{
    if b.len() == 0 {
        assert(a + b == a);
        assert(events_of(b) == Seq::<HoldEvent>::empty());
        assert(events_of(a) + events_of(b) == events_of(a));
    } else {
        lemma_events_of_append(a, b.drop_last());
        assert((a + b).drop_last() == a + b.drop_last());
        assert((a + b).last() == b.last());
        assert(events_of(a) + events_of(b.drop_last()) + events_of_click(b.last()) == events_of(a)
            + (events_of(b.drop_last()) + events_of_click(b.last())));
    }
}

/// Splitting clicks into single-player actions undoes the one-click-per-action mapping.
pub proof fn lemma_events_of_clicks_of(evs: Seq<HoldEvent>)
    ensures
        events_of(clicks_of(evs)) == evs,
    decreases evs.len(),
{
    if evs.len() > 0 {
        let init = evs.drop_last();
        lemma_events_of_clicks_of(init);
        assert(clicks_of(evs).drop_last() == clicks_of(init));
        let e = evs.last();
        assert(events_of_click(click_of(e)) == seq![e]);
        assert(evs == init + seq![e]);
    } else {
        assert(clicks_of(evs).len() == 0);
    }
}

impl Click {
    /// The click with one player's press or release and the other player's skip.
    pub fn from_hold(frame: u32, hold: bool, player_2: bool) -> (r: Click)
        ensures
            r == click_of(HoldEvent { frame, hold, player_2 }),
    {
        let action: ClickType = if hold {
            ClickType::Click
        } else {
            ClickType::Release
        };
        Click {
            frame,
            p1: if player_2 {
                ClickType::Skip
            } else {
                action
            },
            p2: if player_2 {
                action
            } else {
                ClickType::Skip
            },
        }
    }

    /// The single-player actions this click carries: player 1's, then player 2's.
    pub fn apply_hold(&self) -> (r: Vec<HoldEvent>)
        ensures
            r@ == events_of_click(*self),
    {
        let mut r: Vec<HoldEvent> = Vec::new();
        if !self.p1.is_skip() {
            r.push(HoldEvent { frame: self.frame, hold: self.p1.is_click(), player_2: false });
        }
        if !self.p2.is_skip() {
            r.push(HoldEvent { frame: self.frame, hold: self.p2.is_click(), player_2: true });
        }
        proof {
            if self.p1 == ClickType::Skip {
                assert(events_of_click(*self) == Seq::<HoldEvent>::empty() + events_of_click(
                    *self,
                ).subrange(0, r@.len() as int));
            }
        }
        assert(r@ =~= events_of_click(*self));
        r
    }
}

/// The single-player actions of all the clicks, in order.
pub fn hold_events(clicks: &Vec<Click>) -> (r: Vec<HoldEvent>)
    ensures
        r@ == events_of(clicks@),
{
    let mut r: Vec<HoldEvent> = Vec::new();
    let mut i: usize = 0;
    while i < clicks.len()
        invariant
            i <= clicks@.len(),
            r@ == events_of(clicks@.subrange(0, i as int)),
        decreases clicks@.len() - i,
    {
        let mut evs = clicks[i].apply_hold();
        assert(clicks@.subrange(0, i + 1).drop_last() == clicks@.subrange(0, i as int));
        r.append(&mut evs);
        i += 1;
    }
    assert(clicks@.subrange(0, i as int) == clicks@);
    r
}

/// Builds one click per single-player action.
pub fn clicks_from_events(evs: &Vec<HoldEvent>) -> (r: Vec<Click>)
    ensures
        r@ == clicks_of(evs@),
{
    let mut r: Vec<Click> = Vec::new();
    let mut i: usize = 0;
    while i < evs.len()
        invariant
            i <= evs@.len(),
            r@ == clicks_of(evs@.subrange(0, i as int)),
        decreases evs@.len() - i,
    {
        let e = evs[i];
        r.push(Click::from_hold(e.frame, e.hold, e.player_2));
        i += 1;
        assert(r@ =~= clicks_of(evs@.subrange(0, i as int)));
    }
    assert(evs@.subrange(0, i as int) == evs@);
    r
}

/// Options that some formats read when writing or reading.
#[derive(Clone, Copy, PartialEq, Eq, Debug, Structural)]
pub struct Settings {
    /// Shift frames by one where a format counts them from another origin.
    pub auto_offset: bool,
    /// Indent JSON output.
    pub beautified_json: bool,
}

impl Default for Settings {
    fn default() -> (r: Settings)
        ensures
            r.auto_offset && r.beautified_json,
    {
        Settings { auto_offset: true, beautified_json: true }
    }
}

/// The ways a parse or a write can fail.
#[derive(Clone, Copy, PartialEq, Eq, Debug, Structural)]
pub enum ReplayError {
    /// A magic number or a fixed header field does not match.
    MalformedHeader,
    /// Fewer bytes than the records need.
    Truncated,
    /// A text or structured field does not hold what the format asks.
    MalformedField,
    /// A recognised branch of the format that is not supported.
    UnsupportedVariant,
    /// The outside encoder refused the value.
    WriteError,
}

/// The canonical replay: the frame rate, the clicks in replay order, the game
/// version, and the settings that codecs consult.
#[derive(Clone)]
pub struct Replay {
    /// Frames per second, as the bit pattern of an IEEE-754 binary32 value.
    pub fps: u32,
    pub clicks: Vec<Click>,
    pub game_version: GameVersion,
    pub settings: Settings,
}

/// What a replay holds, with the clicks as a sequence.
pub ghost struct ReplayModel {
    pub fps: u32,
    pub clicks: Seq<Click>,
    pub game_version: GameVersion,
    pub settings: Settings,
}

impl View for Replay {
    type V = ReplayModel;

    open spec fn view(&self) -> ReplayModel {
        ReplayModel {
            fps: self.fps,
            clicks: self.clicks@,
            game_version: self.game_version,
            settings: self.settings,
        }
    }
}

/// What a codec reads out of a file: the frame rate and the clicks.
pub ghost struct Decoded {
    pub fps: u32,
    pub clicks: Seq<Click>,
}

/// How a parse leaves the replay: on success the frame rate and version are
/// set and the clicks appended; on failure the replay is unchanged.
pub open spec fn parsed_into(
    before: ReplayModel,
    after: ReplayModel,
    r: Result<(), ReplayError>,
    d: Result<Decoded, ReplayError>,
    version: GameVersion,
) -> bool {
    match d {
        Ok(d) => r is Ok && after == ReplayModel {
            fps: d.fps,
            clicks: before.clicks + d.clicks,
            game_version: version,
            settings: before.settings,
        },
        Err(e) => r == Err::<(), ReplayError>(e) && after == before,
    }
}

/// How a parse that replaces the clicks leaves the replay: on success the
/// frame rate, the clicks and the version are the decoded ones; on failure the
/// replay is unchanged.
pub open spec fn parsed_replacing(
    before: ReplayModel,
    after: ReplayModel,
    r: Result<(), ReplayError>,
    d: Result<Decoded, ReplayError>,
    version: GameVersion,
) -> bool {
    match d {
        Ok(d) => r is Ok && after == ReplayModel {
            fps: d.fps,
            clicks: d.clicks,
            game_version: version,
            settings: before.settings,
        },
        Err(e) => r == Err::<(), ReplayError>(e) && after == before,
    }
}

/// Each click carries exactly one player's action.
pub open spec fn single_player(cs: Seq<Click>) -> bool {
    forall|i: int|
        0 <= i < cs.len() ==> ((#[trigger] cs[i]).p1 == ClickType::Skip) != (cs[i].p2
            == ClickType::Skip)
}

/// Clicks of one player's action each are given back by splitting them into
/// actions and making one click per action.
pub proof fn lemma_single_player_clicks(cs: Seq<Click>)
    requires
        single_player(cs),
    ensures
        clicks_of(events_of(cs)) == cs,
    decreases cs.len(),
{
    if cs.len() > 0 {
        let init = cs.drop_last();
        assert forall|i: int| 0 <= i < init.len() implies ((#[trigger] init[i]).p1
            == ClickType::Skip) != (init[i].p2 == ClickType::Skip) by {
            assert(init[i] == cs[i]);
        }
        lemma_single_player_clicks(init);
        let c = cs.last();
        assert((c.p1 == ClickType::Skip) != (c.p2 == ClickType::Skip));
        let e = events_of_click(c);
        assert(e.len() == 1);
        assert(click_of(e[0]) == c);
        assert(events_of(cs) == events_of(init) + e);
        assert(clicks_of(events_of(cs)) =~= clicks_of(events_of(init)).push(c));
        assert(init.push(c) =~= cs);
    } else {
        assert(clicks_of(events_of(cs)) =~= cs);
    }
}

impl Default for Replay {
    fn default() -> (r: Replay)
        ensures
            r@ == (ReplayModel {
                fps: DEFAULT_FPS,
                clicks: Seq::empty(),
                game_version: GameVersion::Version2113,
                settings: Settings { auto_offset: true, beautified_json: true },
            }),
    {
        Replay::new(DEFAULT_FPS, GameVersion::Version2113, Settings::default())
    }
}

impl Replay {
    /// An empty replay.
    pub fn new(fps: u32, game_version: GameVersion, settings: Settings) -> (r: Replay)
        ensures
            r@ == (ReplayModel { fps, clicks: Seq::empty(), game_version, settings }),
    {
        Replay { fps, clicks: Vec::new(), game_version, settings }
    }

    /// Drops every click and sets the frame rate back to 60.
    pub fn clear(&mut self)
        ensures
            final(self)@ == (ReplayModel {
                fps: DEFAULT_FPS,
                clicks: Seq::empty(),
                ..old(self)@
            }),
    {
        self.clicks.clear();
        self.fps = DEFAULT_FPS;
    }

    /// Puts decoded clicks in place of the replay's, and sets the frame rate
    /// and the version.
    pub(crate) fn replace_with(&mut self, fps: u32, clicks: Vec<Click>, version: GameVersion)
        ensures
            final(self)@ == (ReplayModel {
                fps,
                clicks: clicks@,
                game_version: version,
                settings: old(self)@.settings,
            }),
    {
        self.clicks = clicks;
        self.fps = fps;
        self.game_version = version;
    }

    /// Appends decoded clicks and sets the frame rate and the version.
    pub(crate) fn accept(&mut self, fps: u32, mut clicks: Vec<Click>, version: GameVersion)
        ensures
            final(self)@ == (ReplayModel {
                fps,
                clicks: old(self)@.clicks + clicks@,
                game_version: version,
                settings: old(self)@.settings,
            }),
    {
        self.clicks.append(&mut clicks);
        self.fps = fps;
        self.game_version = version;
    }
}

} // verus!

verus! {

/// A parse that fails leaves the replay as it was: no partial clicks, frame
/// rate or version.
pub proof fn lemma_failed_parse_unchanged(
    before: ReplayModel,
    after: ReplayModel,
    r: Result<(), ReplayError>,
    d: Result<Decoded, ReplayError>,
    version: GameVersion,
)
    requires
        parsed_into(before, after, r, d, version),
        r is Err,
    ensures
        after == before,
        d is Err,
{
}

/// A parse that replaces the clicks gives the same frame rate, clicks and
/// version whatever the replay held before: nothing from an earlier load
/// remains.
pub proof fn lemma_replacing_parse_forgets(
    before_a: ReplayModel,
    before_b: ReplayModel,
    after_a: ReplayModel,
    after_b: ReplayModel,
    r_a: Result<(), ReplayError>,
    r_b: Result<(), ReplayError>,
    d: Result<Decoded, ReplayError>,
    version: GameVersion,
)
    requires
        parsed_replacing(before_a, after_a, r_a, d, version),
        parsed_replacing(before_b, after_b, r_b, d, version),
    ensures
        r_a == r_b,
        r_a is Ok ==> after_a.fps == after_b.fps && after_a.clicks == after_b.clicks
            && after_a.game_version == after_b.game_version,
{
    if let Ok(u) = r_a {
        if let Ok(v) = r_b {
            assert(u == v);
        }
    }
}

/// Parsing into a cleared replay gives the same outcome, frame rate, clicks
/// and, on success, version as parsing the same data into a new replay:
/// nothing from an earlier load remains.
pub proof fn lemma_clear_then_parse(
    loaded: ReplayModel,
    after_clear: ReplayModel,
    after_new: ReplayModel,
    r_clear: Result<(), ReplayError>,
    r_new: Result<(), ReplayError>,
    d: Result<Decoded, ReplayError>,
    version: GameVersion,
)
    requires
        parsed_into(
            ReplayModel { fps: DEFAULT_FPS, clicks: Seq::empty(), ..loaded },
            after_clear,
            r_clear,
            d,
            version,
        ),
        parsed_into(
            ReplayModel {
                fps: DEFAULT_FPS,
                clicks: Seq::empty(),
                game_version: GameVersion::Version2113,
                settings: Settings { auto_offset: true, beautified_json: true },
            },
            after_new,
            r_new,
            d,
            version,
        ),
    ensures
        r_clear == r_new,
        after_clear.fps == after_new.fps,
        after_clear.clicks == after_new.clicks,
        r_clear is Ok ==> after_clear.game_version == after_new.game_version,
{
    if let Ok(dd) = d {
        assert(Seq::<Click>::empty() + dd.clicks =~= dd.clicks);
        if let Ok(u) = r_clear {
            if let Ok(v) = r_new {
                assert(u == v);
            }
        }
    }
}

} // verus!
