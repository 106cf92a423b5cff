//! A loaded replay with the editing operations a user applies between loading
//! and saving.

use vstd::prelude::*;
use crate::replay::{Click, ClickType, GameVersion, Replay, ReplayModel, Settings, DEFAULT_FPS};

verus! {

/// The formats a replay is loaded from or saved to.
#[derive(Clone, Copy, PartialEq, Eq, Debug, Structural)]
pub enum Format {
    OmegaBot,
    OmegaBot2,
    URL,
    MHRJson,
    MHRBinary,
    Tasbot,
    ZBot,
    ReplayBot,
    Fembot,
    EchoOld,
    EchoNewJson,
    EchoNewBinary,
    YBot1,
    XBot,
    Rush,
    KDBot,
    YBot,
    GDR,
    GDRJson,
    XDBot,
    PlainText,
    Silicate,
    Slc2,
}

pub open spec fn is_empty_click(c: Click) -> bool {
    c.p1 == ClickType::Skip && c.p2 == ClickType::Skip
}

/// The clicks with at least one player's action, in order.
pub open spec fn drop_empty(cs: Seq<Click>) -> Seq<Click>
    decreases cs.len(),
{
    if cs.len() == 0 {
        Seq::empty()
    } else if is_empty_click(cs.last()) {
        drop_empty(cs.drop_last())
    } else {
        drop_empty(cs.drop_last()).push(cs.last())
    }
}

/// A frame moved by `offset`, with frames before zero held at zero and
/// frames past the `u32` range wrapped.
pub open spec fn offset_frame(f: u32, offset: i64) -> u32 {
    let v = f as int + offset as int;
    if v < 0 {
        0
    } else {
        (v % 0x1_0000_0000) as u32
    }
}

pub open spec fn flip_type(t: ClickType) -> ClickType {
    match t {
        ClickType::Click => ClickType::Release,
        ClickType::Release => ClickType::Click,
        ClickType::Skip => ClickType::Skip,
    }
}

/// One player's pass of the cleaning: a press while held, or a release while
/// not held, becomes a skip. Returns whether the player is held after the
/// click, and the player's new action.
pub open spec fn clean_step(held: bool, t: ClickType) -> (bool, ClickType) {
    match t {
        ClickType::Click => (true, if held { ClickType::Skip } else { ClickType::Click }),
        ClickType::Release => (false, if held { ClickType::Release } else { ClickType::Skip }),
        ClickType::Skip => (held, ClickType::Skip),
    }
}

/// The clicks with redundant actions turned into skips, and whether each
/// player is held at the end.
pub open spec fn clean_scan(cs: Seq<Click>) -> (bool, bool, Seq<Click>)
    decreases cs.len(),
{
    if cs.len() == 0 {
        (false, false, Seq::empty())
    } else {
        let (h1, h2, out) = clean_scan(cs.drop_last());
        let c = cs.last();
        let (n1, t1) = clean_step(h1, c.p1);
        let (n2, t2) = clean_step(h2, c.p2);
        (n1, n2, out.push(Click { frame: c.frame, p1: t1, p2: t2 }))
    }
}

/// `c` placed after every click of `sorted` whose frame is not above its own.
pub open spec fn insert_by_frame(sorted: Seq<Click>, c: Click) -> Seq<Click>
    decreases sorted.len(),
{
    if sorted.len() == 0 || sorted.last().frame <= c.frame {
        sorted.push(c)
    } else {
        insert_by_frame(sorted.drop_last(), c).push(sorted.last())
    }
}

/// The clicks ordered by frame, clicks on one frame keeping their order.
pub open spec fn sort_by_frame(cs: Seq<Click>) -> Seq<Click>
    decreases cs.len(),
{
    if cs.len() == 0 {
        Seq::empty()
    } else {
        insert_by_frame(sort_by_frame(cs.drop_last()), cs.last())
    }
}

pub open spec fn frames_sorted(cs: Seq<Click>) -> bool {
    forall|i: int, j: int| 0 <= i <= j < cs.len() ==> #[trigger] cs[i].frame <= #[trigger] cs[j].frame
}

proof fn lemma_insert_by_frame(sorted: Seq<Click>, c: Click)
    requires
        frames_sorted(sorted),
    ensures
        frames_sorted(insert_by_frame(sorted, c)),
        insert_by_frame(sorted, c).len() == sorted.len() + 1,
        insert_by_frame(sorted, c).to_multiset() == sorted.to_multiset().insert(c),
    decreases sorted.len(),
{
    let r = insert_by_frame(sorted, c);
    if sorted.len() == 0 || sorted.last().frame <= c.frame {
        sorted.to_multiset_ensures();
        assert forall|i: int, j: int| 0 <= i <= j < r.len() implies #[trigger] r[i].frame
            <= #[trigger] r[j].frame by {
            if j == sorted.len() && i < j {
                assert(sorted[i].frame <= sorted.last().frame);
            }
        }
    } else {
        let init = sorted.drop_last();
        assert forall|i: int, j: int| 0 <= i <= j < init.len() implies #[trigger] init[i].frame
            <= #[trigger] init[j].frame by {
            assert(sorted[i] == init[i] && sorted[j] == init[j]);
        }
        lemma_insert_by_frame(init, c);
        let mid = insert_by_frame(init, c);
        mid.to_multiset_ensures();
        init.to_multiset_ensures();
        sorted.to_multiset_ensures();
        assert(init.push(sorted.last()) =~= sorted);
        assert(mid.to_multiset().insert(sorted.last()) =~= sorted.to_multiset().insert(c));
        assert forall|i: int, j: int| 0 <= i <= j < r.len() implies #[trigger] r[i].frame
            <= #[trigger] r[j].frame by {
            if j == mid.len() && i < j {
                // every element of mid is c or an element of init
                assert(mid.to_multiset().count(mid[i]) > 0);
                if mid[i] != c {
                    assert(init.to_multiset().count(mid[i]) > 0);
                    let k = choose|k: int| 0 <= k < init.len() && init[k] == mid[i];
                    assert(sorted[k] == init[k]);
                    assert(sorted[k].frame <= sorted.last().frame);
                }
            }
        }
    }
}

/// Sorting gives clicks in frame order, the same clicks as before.
pub proof fn lemma_sort_by_frame(cs: Seq<Click>)
    ensures
        frames_sorted(sort_by_frame(cs)),
        sort_by_frame(cs).to_multiset() == cs.to_multiset(),
    decreases cs.len(),
{
    if cs.len() == 0 {
        cs.to_multiset_ensures();
        sort_by_frame(cs).to_multiset_ensures();
    } else {
        lemma_sort_by_frame(cs.drop_last());
        lemma_insert_by_frame(sort_by_frame(cs.drop_last()), cs.last());
        cs.drop_last().to_multiset_ensures();
        cs.to_multiset_ensures();
        assert(cs.drop_last().push(cs.last()) =~= cs);
    }
}

/// A replay held for editing; its settings are the ones loading and saving use.
pub struct Converter {
    pub loaded_replay: Replay,
}

impl Converter {
    pub fn new() -> (r: Converter)
        ensures
            r.loaded_replay@ == (ReplayModel {
                fps: DEFAULT_FPS,
                clicks: Seq::empty(),
                game_version: GameVersion::Version2113,
                settings: Settings { auto_offset: true, beautified_json: true },
            }),
    {
        Converter { loaded_replay: Replay::default() }
    }

    /// The frame rate, as a binary32 bit pattern.
    pub fn get_fps(&self) -> (r: u32)
        ensures
            r == self.loaded_replay.fps,
    {
        self.loaded_replay.fps
    }

    pub fn set_fps(&mut self, fps: u32)
        ensures
            final(self).loaded_replay@ == (ReplayModel { fps, ..old(self).loaded_replay@ }),
    {
        self.loaded_replay.fps = fps;
    }

    pub fn set_setting_beautify_json(&mut self, value: bool)
        ensures
            final(self).loaded_replay@ == (ReplayModel {
                settings: Settings { beautified_json: value, ..old(self).loaded_replay@.settings },
                ..old(self).loaded_replay@
            }),
    {
        self.loaded_replay.settings.beautified_json = value;
    }

    pub fn set_setting_auto_offset(&mut self, value: bool)
        ensures
            final(self).loaded_replay@ == (ReplayModel {
                settings: Settings { auto_offset: value, ..old(self).loaded_replay@.settings },
                ..old(self).loaded_replay@
            }),
    {
        self.loaded_replay.settings.auto_offset = value;
    }

    pub fn length(&self) -> (r: usize)
        ensures
            r == self.loaded_replay.clicks@.len(),
    {
        self.loaded_replay.clicks.len()
    }

    pub fn game_version(&self) -> (r: GameVersion)
        ensures
            r == self.loaded_replay.game_version,
    {
        self.loaded_replay.game_version
    }

    pub fn clicks(&self) -> (r: Vec<Click>)
        ensures
            r@ == self.loaded_replay.clicks@,
    {
        let mut r: Vec<Click> = Vec::new();
        let mut i: usize = 0;
        while i < self.loaded_replay.clicks.len()
            invariant
                i <= self.loaded_replay.clicks@.len(),
                r@ == self.loaded_replay.clicks@.subrange(0, i as int),
            decreases self.loaded_replay.clicks@.len() - i,
        {
            r.push(self.loaded_replay.clicks[i]);
            i += 1;
            assert(r@ =~= self.loaded_replay.clicks@.subrange(0, i as int));
        }
        assert(self.loaded_replay.clicks@.subrange(0, i as int) =~= self.loaded_replay.clicks@);
        r
    }

    pub fn click_at(&self, idx: usize) -> (r: Click)
        requires
            idx < self.loaded_replay.clicks@.len(),
        ensures
            r == self.loaded_replay.clicks@[idx as int],
    {
        self.loaded_replay.clicks[idx]
    }

    /// The `page` clicks from `idx`; none when the replay is empty.
    pub fn clicks_at_batch(&self, idx: usize, page: usize) -> (r: Vec<Click>)
        requires
            self.loaded_replay.clicks@.len() == 0 || idx + page <= self.loaded_replay.clicks@.len(),
        ensures
            self.loaded_replay.clicks@.len() == 0 ==> r@.len() == 0,
            self.loaded_replay.clicks@.len() > 0 ==> r@ == self.loaded_replay.clicks@.subrange(
                idx as int,
                idx + page,
            ),
    {
        let mut r: Vec<Click> = Vec::new();
        if self.loaded_replay.clicks.len() == 0 {
            return r;
        }
        let end = idx + page;
        let mut i: usize = idx;
        while i < end
            invariant
                end == idx + page,
                idx <= i <= idx + page,
                idx + page <= self.loaded_replay.clicks@.len(),
                r@ == self.loaded_replay.clicks@.subrange(idx as int, i as int),
            decreases end - i,
        {
            r.push(self.loaded_replay.clicks[i]);
            i += 1;
            assert(r@ =~= self.loaded_replay.clicks@.subrange(idx as int, i as int));
        }
        r
    }

    pub fn replace_frame_at(&mut self, idx: usize, frame: u32)
        requires
            idx < old(self).loaded_replay.clicks@.len(),
        ensures
            final(self).loaded_replay@ == (ReplayModel {
                clicks: old(self).loaded_replay@.clicks.update(
                    idx as int,
                    Click { frame, ..old(self).loaded_replay@.clicks[idx as int] },
                ),
                ..old(self).loaded_replay@
            }),
    {
        let c = self.loaded_replay.clicks[idx];
        self.loaded_replay.clicks.set(idx, Click { frame, ..c });
    }

    /// Inserts a click with both players skipping.
    pub fn insert_empty_at(&mut self, idx: usize, frame: u32)
        requires
            idx <= old(self).loaded_replay.clicks@.len(),
        ensures
            final(self).loaded_replay@ == (ReplayModel {
                clicks: old(self).loaded_replay@.clicks.insert(
                    idx as int,
                    Click { frame, p1: ClickType::Skip, p2: ClickType::Skip },
                ),
                ..old(self).loaded_replay@
            }),
    {
        self.loaded_replay.clicks.insert(idx, Click { frame, p1: ClickType::Skip, p2: ClickType::Skip });
    }

    pub fn remove_at(&mut self, idx: usize)
        requires
            idx < old(self).loaded_replay.clicks@.len(),
        ensures
            final(self).loaded_replay@ == (ReplayModel {
                clicks: old(self).loaded_replay@.clicks.remove(idx as int),
                ..old(self).loaded_replay@
            }),
    {
        self.loaded_replay.clicks.remove(idx);
    }

    /// Moves one player's action of a click along press, release, skip.
    pub fn toggle_click_at(&mut self, idx: usize, player_2: bool)
        requires
            idx < old(self).loaded_replay.clicks@.len(),
        ensures
            ({
                let c = old(self).loaded_replay@.clicks[idx as int];
                let n = if player_2 {
                    Click { p2: c.p2.toggled(), ..c }
                } else {
                    Click { p1: c.p1.toggled(), ..c }
                };
                final(self).loaded_replay@ == (ReplayModel {
                    clicks: old(self).loaded_replay@.clicks.update(idx as int, n),
                    ..old(self).loaded_replay@
                })
            }),
    {
        let c = self.loaded_replay.clicks[idx];
        let n = if player_2 {
            Click { p2: c.p2.toggle(), ..c }
        } else {
            Click { p1: c.p1.toggle(), ..c }
        };
        self.loaded_replay.clicks.set(idx, n);
    }

    /// Moves every click by `offset` frames, holding frames before zero at zero.
    pub fn offset_all_by(&mut self, offset: i64)
        ensures
            final(self).loaded_replay@ == (ReplayModel {
                clicks: old(self).loaded_replay@.clicks.map_values(
                    |c: Click| Click { frame: offset_frame(c.frame, offset), ..c },
                ),
                ..old(self).loaded_replay@
            }),
    {
        let n = self.loaded_replay.clicks.len();
        let ghost before = self.loaded_replay.clicks@;
        let mut i: usize = 0;
        while i < n
            invariant
                n == before.len(),
                i <= n,
                self.loaded_replay.clicks@.len() == n,
                forall|k: int|
                    0 <= k < i ==> #[trigger] self.loaded_replay.clicks@[k] == (Click {
                        frame: offset_frame(before[k].frame, offset),
                        ..before[k]
                    }),
                forall|k: int| i <= k < n ==> #[trigger] self.loaded_replay.clicks@[k] == before[k],
                self.loaded_replay.fps == old(self).loaded_replay.fps,
                self.loaded_replay.game_version == old(self).loaded_replay.game_version,
                self.loaded_replay.settings == old(self).loaded_replay.settings,
                before == old(self).loaded_replay.clicks@,
            decreases n - i,
        {
            let c = self.loaded_replay.clicks[i];
            let v: i128 = c.frame as i128 + offset as i128;
            let frame: u32 = if v < 0 {
                0
            } else {
                (v % 0x1_0000_0000) as u32
            };
            self.loaded_replay.clicks.set(i, Click { frame, ..c });
            i += 1;
        }
        assert(self.loaded_replay.clicks@ =~= before.map_values(
            |c: Click| Click { frame: offset_frame(c.frame, offset), ..c },
        ));
    }

    /// Swaps the two players' actions in every click.
    pub fn flip_p1_p2(&mut self)
        ensures
            final(self).loaded_replay@ == (ReplayModel {
                clicks: old(self).loaded_replay@.clicks.map_values(
                    |c: Click| Click { frame: c.frame, p1: c.p2, p2: c.p1 },
                ),
                ..old(self).loaded_replay@
            }),
    {
        let n = self.loaded_replay.clicks.len();
        let ghost before = self.loaded_replay.clicks@;
        let mut i: usize = 0;
        while i < n
            invariant
                n == before.len(),
                i <= n,
                self.loaded_replay.clicks@.len() == n,
                forall|k: int|
                    0 <= k < i ==> #[trigger] self.loaded_replay.clicks@[k] == (Click {
                        frame: before[k].frame,
                        p1: before[k].p2,
                        p2: before[k].p1,
                    }),
                forall|k: int| i <= k < n ==> #[trigger] self.loaded_replay.clicks@[k] == before[k],
                self.loaded_replay.fps == old(self).loaded_replay.fps,
                self.loaded_replay.game_version == old(self).loaded_replay.game_version,
                self.loaded_replay.settings == old(self).loaded_replay.settings,
                before == old(self).loaded_replay.clicks@,
            decreases n - i,
        {
            let c = self.loaded_replay.clicks[i];
            self.loaded_replay.clicks.set(i, Click { frame: c.frame, p1: c.p2, p2: c.p1 });
            i += 1;
        }
        assert(self.loaded_replay.clicks@ =~= before.map_values(
            |c: Click| Click { frame: c.frame, p1: c.p2, p2: c.p1 },
        ));
    }

    /// Turns every press into a release and every release into a press.
    pub fn flip_up_down(&mut self)
        ensures
            final(self).loaded_replay@ == (ReplayModel {
                clicks: old(self).loaded_replay@.clicks.map_values(
                    |c: Click| Click { frame: c.frame, p1: flip_type(c.p1), p2: flip_type(c.p2) },
                ),
                ..old(self).loaded_replay@
            }),
    {
        let n = self.loaded_replay.clicks.len();
        let ghost before = self.loaded_replay.clicks@;
        let mut i: usize = 0;
        while i < n
            invariant
                n == before.len(),
                i <= n,
                self.loaded_replay.clicks@.len() == n,
                forall|k: int|
                    0 <= k < i ==> #[trigger] self.loaded_replay.clicks@[k] == (Click {
                        frame: before[k].frame,
                        p1: flip_type(before[k].p1),
                        p2: flip_type(before[k].p2),
                    }),
                forall|k: int| i <= k < n ==> #[trigger] self.loaded_replay.clicks@[k] == before[k],
                self.loaded_replay.fps == old(self).loaded_replay.fps,
                self.loaded_replay.game_version == old(self).loaded_replay.game_version,
                self.loaded_replay.settings == old(self).loaded_replay.settings,
                before == old(self).loaded_replay.clicks@,
            decreases n - i,
        {
            let c = self.loaded_replay.clicks[i];
            let p1 = match c.p1 {
                ClickType::Skip => ClickType::Skip,
                ClickType::Click => ClickType::Release,
                ClickType::Release => ClickType::Click,
            };
            let p2 = match c.p2 {
                ClickType::Skip => ClickType::Skip,
                ClickType::Click => ClickType::Release,
                ClickType::Release => ClickType::Click,
            };
            self.loaded_replay.clicks.set(i, Click { frame: c.frame, p1, p2 });
            i += 1;
        }
        assert(self.loaded_replay.clicks@ =~= before.map_values(
            |c: Click| Click { frame: c.frame, p1: flip_type(c.p1), p2: flip_type(c.p2) },
        ));
    }
}


/// `c` goes in at `p`: after the clicks up to `p`, before the later ones,
/// which all have later frames.
proof fn lemma_insert_at(s: Seq<Click>, c: Click, p: int)
    requires
        0 <= p <= s.len(),
        forall|k: int| p <= k < s.len() ==> #[trigger] s[k].frame > c.frame,
        p == 0 || s[p - 1].frame <= c.frame,
    ensures
        insert_by_frame(s, c) == s.insert(p, c),
    decreases s.len(),
{
    if p == s.len() {
        assert(s.push(c) =~= s.insert(p, c));
    } else {
        assert(s.last().frame > c.frame);
        let init = s.drop_last();
        lemma_insert_at(init, c, p);
        assert(init.insert(p, c).push(s.last()) =~= s.insert(p, c));
    }
}

/// The clicks with at least one player's action.
fn drop_empty_clicks(cs: &Vec<Click>) -> (r: Vec<Click>)
    ensures
        r@ == drop_empty(cs@),
{
    let mut r: Vec<Click> = Vec::new();
    let mut i: usize = 0;
    while i < cs.len()
        invariant
            i <= cs@.len(),
            r@ == drop_empty(cs@.subrange(0, i as int)),
        decreases cs@.len() - i,
    {
        let c = cs[i];
        assert(cs@.subrange(0, i + 1).drop_last() =~= cs@.subrange(0, i as int));
        if !(c.p1.is_skip() && c.p2.is_skip()) {
            r.push(c);
        }
        i += 1;
    }
    assert(cs@.subrange(0, i as int) =~= cs@);
    r
}

fn clean_action(held: bool, t: ClickType) -> (r: (bool, ClickType))
    ensures
        r == clean_step(held, t),
{
    match t {
        ClickType::Click => (true, if held { ClickType::Skip } else { ClickType::Click }),
        ClickType::Release => (false, if held { ClickType::Release } else { ClickType::Skip }),
        ClickType::Skip => (held, ClickType::Skip),
    }
}

impl Converter {
    /// Turns each press while already held, and each release while not held,
    /// into a skip, for each player; then drops the clicks left empty.
    pub fn clean(&mut self)
        ensures
            final(self).loaded_replay@ == (ReplayModel {
                clicks: drop_empty(clean_scan(old(self).loaded_replay@.clicks).2),
                ..old(self).loaded_replay@
            }),
    {
        let ghost before = self.loaded_replay.clicks@;
        let mut out: Vec<Click> = Vec::new();
        let mut h1 = false;
        let mut h2 = false;
        let mut i: usize = 0;
        while i < self.loaded_replay.clicks.len()
            invariant
                before == self.loaded_replay.clicks@,
                i <= before.len(),
                clean_scan(before.subrange(0, i as int)) == (h1, h2, out@),
            decreases before.len() - i,
        {
            let c = self.loaded_replay.clicks[i];
            assert(before.subrange(0, i + 1).drop_last() =~= before.subrange(0, i as int));
            let (n1, t1) = clean_action(h1, c.p1);
            let (n2, t2) = clean_action(h2, c.p2);
            out.push(Click { frame: c.frame, p1: t1, p2: t2 });
            h1 = n1;
            h2 = n2;
            i += 1;
        }
        assert(before.subrange(0, i as int) =~= before);
        self.loaded_replay.clicks = drop_empty_clicks(&out);
    }

    /// Orders the clicks by frame; clicks on one frame keep their order.
    pub fn sort(&mut self)
        ensures
            final(self).loaded_replay@ == (ReplayModel {
                clicks: sort_by_frame(old(self).loaded_replay@.clicks),
                ..old(self).loaded_replay@
            }),
            frames_sorted(final(self).loaded_replay@.clicks),
            final(self).loaded_replay@.clicks.to_multiset()
                == old(self).loaded_replay@.clicks.to_multiset(),
    {
        let ghost before = self.loaded_replay.clicks@;
        let mut sorted: Vec<Click> = Vec::new();
        let mut i: usize = 0;
        while i < self.loaded_replay.clicks.len()
            invariant
                before == self.loaded_replay.clicks@,
                i <= before.len(),
                sorted@ == sort_by_frame(before.subrange(0, i as int)),
                sorted@.len() == i,
            decreases before.len() - i,
        {
            let c = self.loaded_replay.clicks[i];
            assert(before.subrange(0, i + 1).drop_last() =~= before.subrange(0, i as int));
            let mut p: usize = sorted.len();
            while p > 0 && sorted[p - 1].frame > c.frame
                invariant
                    p <= sorted@.len(),
                    forall|k: int| p <= k < sorted@.len() ==> #[trigger] sorted@[k].frame > c.frame,
                decreases p,
            {
                p -= 1;
            }
            proof {
                lemma_insert_at(sorted@, c, p as int);
            }
            sorted.insert(p, c);
            i += 1;
        }
        assert(before.subrange(0, i as int) =~= before);
        proof {
            lemma_sort_by_frame(before);
        }
        self.loaded_replay.clicks = sorted;
    }

    /// Makes one player skip everywhere, then drops the clicks left empty.
    pub fn remove_all_player_inputs(&mut self, player_2: bool)
        ensures
            final(self).loaded_replay@ == (ReplayModel {
                clicks: drop_empty(
                    old(self).loaded_replay@.clicks.map_values(
                        |c: Click| if player_2 {
                            Click { p2: ClickType::Skip, ..c }
                        } else {
                            Click { p1: ClickType::Skip, ..c }
                        },
                    ),
                ),
                ..old(self).loaded_replay@
            }),
    {
        let ghost before = self.loaded_replay.clicks@;
        let mut out: Vec<Click> = Vec::new();
        let mut i: usize = 0;
        while i < self.loaded_replay.clicks.len()
            invariant
                before == self.loaded_replay.clicks@,
                i <= before.len(),
                out@ == before.subrange(0, i as int).map_values(
                    |c: Click| if player_2 {
                        Click { p2: ClickType::Skip, ..c }
                    } else {
                        Click { p1: ClickType::Skip, ..c }
                    },
                ),
            decreases before.len() - i,
        {
            let c = self.loaded_replay.clicks[i];
            let n = if player_2 {
                Click { p2: ClickType::Skip, ..c }
            } else {
                Click { p1: ClickType::Skip, ..c }
            };
            out.push(n);
            i += 1;
            assert(out@ =~= before.subrange(0, i as int).map_values(
                |c: Click| if player_2 {
                    Click { p2: ClickType::Skip, ..c }
                } else {
                    Click { p1: ClickType::Skip, ..c }
                },
            ));
        }
        assert(before.subrange(0, i as int) =~= before);
        self.loaded_replay.clicks = drop_empty_clicks(&out);
    }
}

} // verus!
