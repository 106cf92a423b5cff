//! Scanning a replay's presses for breaches of click-rate rules: more than 15
//! presses within one second, more than 3 presses on one frame, and bursts
//! whose presses come too close together.
//!
//! The second's length in frames and the burst's largest gap come from the
//! frame rate; the caller computes them.

use vstd::prelude::*;
use crate::replay::{Click, ClickType};

verus! {

#[derive(Clone, Copy, PartialEq, Eq, Debug, Structural)]
pub enum CPSRule {
    Rule15CPS,
    Rule3CPF,
    Rule45CP5C,
}

/// A breach of `rule` at `frame`, with `cps` presses in the window.
#[derive(Clone, Copy, PartialEq, Eq, Debug, Structural)]
pub struct CPSViolation {
    pub rule: CPSRule,
    pub frame: u32,
    pub cps: usize,
}

/// `a - b` in 32-bit wrapping arithmetic.
pub open spec fn wrap_sub(a: u32, b: u32) -> u32 {
    if a >= b {
        (a - b) as u32
    } else {
        (a + 0x1_0000_0000 - b) as u32
    }
}

/// The frames less than `window` frames before `f`.
pub open spec fn keep_recent(frames: Seq<u32>, f: u32, window: u32) -> Seq<u32>
    decreases frames.len(),
{
    if frames.len() == 0 {
        Seq::empty()
    } else {
        let rest = keep_recent(frames.drop_last(), f, window);
        if wrap_sub(f, frames.last()) < window {
            rest.push(frames.last())
        } else {
            rest
        }
    }
}

pub open spec fn count_eq(frames: Seq<u32>, f: u32) -> nat
    decreases frames.len(),
{
    if frames.len() == 0 {
        0
    } else {
        count_eq(frames.drop_last(), f) + if frames.last() == f {
            1nat
        } else {
            0nat
        }
    }
}

/// Each frame is less than `gap` after the one before it, the first after `prev`.
pub open spec fn gaps_below(frames: Seq<u32>, prev: u32, gap: u32) -> bool
    decreases frames.len(),
{
    frames.len() == 0 || (wrap_sub(frames[0], prev) < gap && gaps_below(
        frames.drop_first(),
        frames[0],
        gap,
    ))
}

/// The player's presses in the window after a press at `f`, and the
/// breaches found so far.
pub open spec fn cps_step(
    frames: Seq<u32>,
    found: Seq<CPSViolation>,
    f: u32,
    window: u32,
    gap: u32,
) -> (Seq<u32>, Seq<CPSViolation>) {
    let kept = keep_recent(frames, f, window).push(f);
    let n = kept.len() as usize;
    let v1 = if kept.len() > 15 {
        found.push(CPSViolation { rule: CPSRule::Rule15CPS, frame: f, cps: n })
    } else {
        found
    };
    let v2 = if count_eq(kept, f) > 3 {
        v1.push(CPSViolation { rule: CPSRule::Rule3CPF, frame: f, cps: n })
    } else {
        v1
    };
    let v3 = if kept.len() >= 6 && gaps_below(kept.subrange(0, kept.len() - 5), 0, gap) {
        v2.push(CPSViolation { rule: CPSRule::Rule45CP5C, frame: f, cps: n })
    } else {
        v2
    };
    (kept, v3)
}

pub open spec fn is_press(c: Click, player_2: bool) -> bool {
    if player_2 {
        c.p2 == ClickType::Click
    } else {
        c.p1 == ClickType::Click
    }
}

/// The scan over the clicks: the presses in the window and the breaches.
pub open spec fn cps_scan(cs: Seq<Click>, player_2: bool, window: u32, gap: u32) -> (
    Seq<u32>,
    Seq<CPSViolation>,
)
    decreases cs.len(),
{
    if cs.len() == 0 {
        (Seq::empty(), Seq::empty())
    } else {
        let (frames, found) = cps_scan(cs.drop_last(), player_2, window, gap);
        if is_press(cs.last(), player_2) {
            cps_step(frames, found, cs.last().frame, window, gap)
        } else {
            (frames, found)
        }
    }
}

fn wrapping_sub_u32(a: u32, b: u32) -> (r: u32)
    ensures
        r == wrap_sub(a, b),
{
    if a >= b {
        a - b
    } else {
        (a as u64 + 0x1_0000_0000 - b as u64) as u32
    }
}

fn keep_recent_exec(frames: &Vec<u32>, f: u32, window: u32) -> (r: Vec<u32>)
    ensures
        r@ == keep_recent(frames@, f, window),
{
    let mut r: Vec<u32> = Vec::new();
    let mut i: usize = 0;
    while i < frames.len()
        invariant
            i <= frames@.len(),
            r@ == keep_recent(frames@.subrange(0, i as int), f, window),
        decreases frames@.len() - i,
    {
        assert(frames@.subrange(0, i + 1).drop_last() =~= frames@.subrange(0, i as int));
        if wrapping_sub_u32(f, frames[i]) < window {
            r.push(frames[i]);
        }
        i += 1;
    }
    assert(frames@.subrange(0, i as int) =~= frames@);
    r
}

fn count_eq_exec(frames: &Vec<u32>, f: u32) -> (r: usize)
    ensures
        r == count_eq(frames@, f),
{
    let mut r: usize = 0;
    let mut i: usize = 0;
    while i < frames.len()
        invariant
            i <= frames@.len(),
            r == count_eq(frames@.subrange(0, i as int), f),
            r <= i,
        decreases frames@.len() - i,
    {
        assert(frames@.subrange(0, i + 1).drop_last() =~= frames@.subrange(0, i as int));
        if frames[i] == f {
            r += 1;
        }
        i += 1;
    }
    assert(frames@.subrange(0, i as int) =~= frames@);
    r
}

proof fn lemma_gaps_below_step(s: Seq<u32>, i: int, prev: u32, gap: u32)
    requires
        0 <= i < s.len(),
    ensures
        gaps_below(s.subrange(i, s.len() as int), prev, gap) == (wrap_sub(s[i], prev) < gap
            && gaps_below(s.subrange(i + 1, s.len() as int), s[i], gap)),
{
    assert(s.subrange(i, s.len() as int).drop_first() =~= s.subrange(i + 1, s.len() as int));
}

/// Whether the first `n` frames each come less than `gap` after the one
/// before, the first after frame 0.
fn gaps_below_exec(frames: &Vec<u32>, n: usize, gap: u32) -> (r: bool)
    requires
        n <= frames@.len(),
    ensures
        r == gaps_below(frames@.subrange(0, n as int), 0, gap),
{
    let ghost s = frames@.subrange(0, n as int);
    let mut prev: u32 = 0;
    let mut i: usize = 0;
    assert(s.subrange(0, n as int) =~= s);
    while i < n
        invariant
            n <= frames@.len(),
            s == frames@.subrange(0, n as int),
            i <= n,
            gaps_below(s, 0, gap) == gaps_below(s.subrange(i as int, n as int), prev, gap),
        decreases n - i,
    {
        proof {
            lemma_gaps_below_step(s, i as int, prev, gap);
        }
        let c = frames[i];
        assert(s[i as int] == c);
        if wrapping_sub_u32(c, prev) >= gap {
            return false;
        }
        prev = c;
        i += 1;
    }
    assert(s.subrange(i as int, n as int) =~= Seq::<u32>::empty());
    assert(s.subrange(0, n as int) =~= s);
    true
}

/// The breaches of the click-rate rules by one player's presses, in replay
/// order. `window` is the number of frames in a second and `gap` the largest
/// spacing, in frames, that counts as a burst.
pub fn check_cps_for_player(clicks: &Vec<Click>, player_2: bool, window: u32, gap: u32) -> (r: Vec<
    CPSViolation,
>)
    requires
        clicks@.len() < usize::MAX,
    ensures
        r@ == cps_scan(clicks@, player_2, window, gap).1,
{
    let mut frames: Vec<u32> = Vec::new();
    let mut found: Vec<CPSViolation> = Vec::new();
    let mut i: usize = 0;
    while i < clicks.len()
        invariant
            i <= clicks@.len(),
            clicks@.len() < usize::MAX,
            (frames@, found@) == cps_scan(clicks@.subrange(0, i as int), player_2, window, gap),
            frames@.len() <= i,
        decreases clicks@.len() - i,
    {
        assert(clicks@.subrange(0, i + 1).drop_last() =~= clicks@.subrange(0, i as int));
        let c = clicks[i];
        let press = if player_2 {
            c.p2.is_click()
        } else {
            c.p1.is_click()
        };
        if press {
            let f = c.frame;
            let mut kept = keep_recent_exec(&frames, f, window);
            proof {
                lemma_keep_recent_len(frames@, f, window);
            }
            kept.push(f);
            let n = kept.len();
            if n > 15 {
                found.push(CPSViolation { rule: CPSRule::Rule15CPS, frame: f, cps: n });
            }
            if count_eq_exec(&kept, f) > 3 {
                found.push(CPSViolation { rule: CPSRule::Rule3CPF, frame: f, cps: n });
            }
            if n >= 6 && gaps_below_exec(&kept, n - 5, gap) {
                found.push(CPSViolation { rule: CPSRule::Rule45CP5C, frame: f, cps: n });
            }
            frames = kept;
        }
        i += 1;
    }
    assert(clicks@.subrange(0, i as int) =~= clicks@);
    found
}

proof fn lemma_keep_recent_len(frames: Seq<u32>, f: u32, window: u32)
    ensures
        keep_recent(frames, f, window).len() <= frames.len(),
    decreases frames.len(),
{
    if frames.len() > 0 {
        lemma_keep_recent_len(frames.drop_last(), f, window);
    }
}

impl crate::converter::Converter {
    /// The breaches by player 1's presses, then those by player 2's.
    pub fn check_cps(&self, window: u32, gap: u32) -> (r: Vec<CPSViolation>)
        requires
            self.loaded_replay.clicks@.len() < usize::MAX,
        ensures
            r@ == cps_scan(self.loaded_replay.clicks@, false, window, gap).1 + cps_scan(
                self.loaded_replay.clicks@,
                true,
                window,
                gap,
            ).1,
    {
        let mut v = check_cps_for_player(&self.loaded_replay.clicks, false, window, gap);
        let mut w = check_cps_for_player(&self.loaded_replay.clicks, true, window, gap);
        v.append(&mut w);
        v
    }
}

} // verus!
