//! TASBot: a JSON document with the frame rate and one entry per frame that
//! gives each player's action as `0` (none), `1` (press) or `2` (release).
//! With the auto-offset setting, file frames count from one.

use vstd::prelude::*;
use crate::replay::{parsed_replacing, Click, ClickType, Decoded, GameVersion, Replay, ReplayError};

verus! {

#[derive(Clone, Copy, PartialEq, Eq, Debug, Structural)]
pub struct TasbotAction {
    /// `0` none, `1` press, `2` release.
    pub click: u32,
}

#[derive(Clone, Copy, PartialEq, Eq, Debug, Structural)]
pub struct TasbotClick {
    pub frame: u32,
    pub player_1: TasbotAction,
    pub player_2: TasbotAction,
}

/// The document's fields that carry input.
pub struct TasbotReplay {
    /// Frames per second, as the bit pattern of an IEEE-754 binary32 value.
    pub fps: u32,
    pub clicks: Vec<TasbotClick>,
}

pub open spec fn tasbot_click_type(code: u32) -> ClickType {
    if code == 1 {
        ClickType::Click
    } else if code == 2 {
        ClickType::Release
    } else {
        ClickType::Skip
    }
}

pub open spec fn tasbot_code(t: ClickType) -> u32 {
    match t {
        ClickType::Click => 1,
        ClickType::Release => 2,
        ClickType::Skip => 0,
    }
}

pub open spec fn tasbot_to_click(c: TasbotClick, offset: u32) -> Click {
    Click {
        frame: (c.frame - offset) as u32,
        p1: tasbot_click_type(c.player_1.click),
        p2: tasbot_click_type(c.player_2.click),
    }
}

pub open spec fn tasbot_from_click(c: Click, offset: u32) -> TasbotClick {
    TasbotClick {
        frame: (c.frame + offset) as u32,
        player_1: TasbotAction { click: tasbot_code(c.p1) },
        player_2: TasbotAction { click: tasbot_code(c.p2) },
    }
}

/// A file frame below the offset has no canonical frame.
pub open spec fn tasbot_decode(fps: u32, cs: Seq<TasbotClick>, offset: u32) -> Result<
    Decoded,
    ReplayError,
> {
    if exists|i: int| 0 <= i < cs.len() && #[trigger] cs[i].frame < offset {
        Err(ReplayError::MalformedField)
    } else {
        Ok(Decoded { fps, clicks: cs.map_values(|c: TasbotClick| tasbot_to_click(c, offset)) })
    }
}

/// Reading back what was written gives the clicks, whenever the shifted
/// frames fit in 32 bits.
pub proof fn lemma_tasbot_round_trip(fps: u32, cs: Seq<Click>, offset: u32)
    requires
        forall|i: int| 0 <= i < cs.len() ==> #[trigger] cs[i].frame + offset <= u32::MAX,
    ensures
        tasbot_decode(fps, cs.map_values(|c: Click| tasbot_from_click(c, offset)), offset)
            == Ok::<Decoded, ReplayError>(Decoded { fps, clicks: cs }),
{
    let w = cs.map_values(|c: Click| tasbot_from_click(c, offset));
    assert forall|i: int| 0 <= i < w.len() implies !(#[trigger] w[i].frame < offset) by {
        assert(cs[i].frame + offset <= u32::MAX);
    }
    let back = w.map_values(|c: TasbotClick| tasbot_to_click(c, offset));
    assert forall|i: int| 0 <= i < cs.len() implies #[trigger] back[i] == cs[i] by {
        let c = cs[i];
        assert(c.frame + offset <= u32::MAX);
        match c.p1 {
            ClickType::Click => {},
            ClickType::Release => {},
            ClickType::Skip => {},
        }
        match c.p2 {
            ClickType::Click => {},
            ClickType::Release => {},
            ClickType::Skip => {},
        }
    }
    assert(back =~= cs);
}

fn click_type_of_code(code: u32) -> (r: ClickType)
    ensures
        r == tasbot_click_type(code),
{
    if code == 1 {
        ClickType::Click
    } else if code == 2 {
        ClickType::Release
    } else {
        ClickType::Skip
    }
}

fn code_of_click_type(t: ClickType) -> (r: u32)
    ensures
        r == tasbot_code(t),
{
    match t {
        ClickType::Click => 1,
        ClickType::Release => 2,
        ClickType::Skip => 0,
    }
}

impl Replay {
    /// Reads a TASBot document; with the auto-offset setting, file frames
    /// count from one.
    pub fn parse_tasbot(&mut self, doc: &TasbotReplay) -> (r: Result<(), ReplayError>)
        ensures
            parsed_replacing(
                old(self)@,
                final(self)@,
                r,
                tasbot_decode(doc.fps, doc.clicks@, old(self).settings.auto_offset as u32),
                GameVersion::Version2113,
            ),
    {
        let offset: u32 = if self.settings.auto_offset {
            1
        } else {
            0
        };
        let ghost cs = doc.clicks@;
        let mut clicks: Vec<Click> = Vec::new();
        let mut i: usize = 0;
        while i < doc.clicks.len()
            invariant
                cs == doc.clicks@,
                offset == self.settings.auto_offset as u32,
                i <= cs.len(),
                forall|k: int| 0 <= k < i ==> !(#[trigger] cs[k].frame < offset),
                clicks@ == cs.subrange(0, i as int).map_values(
                    |c: TasbotClick| tasbot_to_click(c, offset),
                ),
            decreases cs.len() - i,
        {
            let c = doc.clicks[i];
            if c.frame < offset {
                assert(cs[i as int].frame < offset);
                return Err(ReplayError::MalformedField);
            }
            clicks.push(
                Click {
                    frame: c.frame - offset,
                    p1: click_type_of_code(c.player_1.click),
                    p2: click_type_of_code(c.player_2.click),
                },
            );
            i += 1;
            assert(clicks@ =~= cs.subrange(0, i as int).map_values(
                |c: TasbotClick| tasbot_to_click(c, offset),
            ));
        }
        assert(cs.subrange(0, i as int) =~= cs);
        self.replace_with(doc.fps, clicks, GameVersion::Version2113);
        Ok(())
    }

    /// The TASBot document for the replay; fails when a shifted frame does
    /// not fit in 32 bits.
    pub fn write_tasbot(&self) -> (r: Result<TasbotReplay, ReplayError>)
        ensures
            ({
                let offset = self.settings.auto_offset as u32;
                let fits = forall|i: int|
                    0 <= i < self@.clicks.len() ==> #[trigger] self@.clicks[i].frame + offset
                        <= u32::MAX;
                &&& fits ==> (r matches Ok(doc) && doc.fps == self.fps && doc.clicks@
                    == self@.clicks.map_values(|c: Click| tasbot_from_click(c, offset)))
                &&& !fits ==> r == Err::<TasbotReplay, ReplayError>(ReplayError::WriteError)
            }),
    {
        let offset: u32 = if self.settings.auto_offset {
            1
        } else {
            0
        };
        let ghost cs = self.clicks@;
        let mut out: Vec<TasbotClick> = Vec::new();
        let mut i: usize = 0;
        while i < self.clicks.len()
            invariant
                cs == self.clicks@,
                offset == self.settings.auto_offset as u32,
                i <= cs.len(),
                forall|k: int| 0 <= k < i ==> #[trigger] cs[k].frame + offset <= u32::MAX,
                out@ == cs.subrange(0, i as int).map_values(
                    |c: Click| tasbot_from_click(c, offset),
                ),
            decreases cs.len() - i,
        {
            let c = self.clicks[i];
            if c.frame > u32::MAX - offset {
                return Err(ReplayError::WriteError);
            }
            out.push(
                TasbotClick {
                    frame: c.frame + offset,
                    player_1: TasbotAction { click: code_of_click_type(c.p1) },
                    player_2: TasbotAction { click: code_of_click_type(c.p2) },
                },
            );
            i += 1;
            assert(out@ =~= cs.subrange(0, i as int).map_values(
                |c: Click| tasbot_from_click(c, offset),
            ));
        }
        assert(cs.subrange(0, i as int) =~= cs);
        Ok(TasbotReplay { fps: self.fps, clicks: out })
    }
}

} // verus!
