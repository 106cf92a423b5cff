//! GDR, in MessagePack or JSON: inputs with a frame, a button, a player-2 flag
//! and a press flag, beside metadata that the canonical model does not hold.
//! The frame rate is read rounded to a whole number.

use vstd::prelude::*;
use crate::binary32::{f32_round, f32_round_bits};
use crate::replay::{
    lemma_events_of_clicks_of, lemma_single_player_clicks, single_player, ReplayModel,
    clicks_from_events, clicks_of, events_of, hold_events, parsed_replacing, Click, Decoded,
    GameVersion, HoldEvent, Replay, ReplayError,
};

verus! {

#[derive(Clone, Copy, PartialEq, Eq, Debug, Structural)]
pub struct GdrInput {
    pub frame: u32,
    pub button: i32,
    pub p2: bool,
    pub down: bool,
}

/// The fields of a GDR document: input, and metadata that is written with
/// fixed values and not read.
pub struct GdrReplay {
    /// Bit pattern of a binary32 value.
    pub fps: u32,
    pub inputs: Vec<GdrInput>,
    /// The frame of the last click, from which the duration is computed.
    pub last_frame: u32,
    /// The game build, as the bit pattern of a binary32 value.
    pub game_version: u32,
    /// The document version, as the bit pattern of a binary32 value.
    pub version: u32,
    pub author: String,
    pub bot_name: String,
    pub bot_version: String,
    pub level_id: u32,
    pub level_name: String,
}

/// The bit pattern of the binary32 value 2.204, the game build written.
pub const GDR_GAME_VERSION: u32 = 0x400D_0E56;

/// The bit pattern of the binary32 value 1.0, the document version written.
pub const GDR_DOCUMENT_VERSION: u32 = 0x3F80_0000;

/// The level id written.
pub const GDR_LEVEL_ID: u32 = 12345678;

pub open spec fn gdr_event(c: GdrInput) -> HoldEvent {
    HoldEvent { frame: c.frame, hold: c.down, player_2: c.p2 }
}

pub open spec fn gdr_events(cs: Seq<GdrInput>) -> Seq<HoldEvent> {
    cs.map_values(|c: GdrInput| gdr_event(c))
}

/// Every input is written as a jump, button 1.
pub open spec fn gdr_input(e: HoldEvent) -> GdrInput {
    GdrInput { frame: e.frame, button: 1, p2: e.player_2, down: e.hold }
}

pub open spec fn gdr_inputs(evs: Seq<HoldEvent>) -> Seq<GdrInput> {
    evs.map_values(|e: HoldEvent| gdr_input(e))
}

pub open spec fn last_frame_of(cs: Seq<Click>) -> u32 {
    if cs.len() == 0 {
        0
    } else {
        cs.last().frame
    }
}

/// Inputs written for actions read back as those actions.
pub proof fn lemma_gdr_round_trip(evs: Seq<HoldEvent>)
    ensures
        gdr_events(gdr_inputs(evs)) == evs,
{
    assert(gdr_events(gdr_inputs(evs)) =~= evs);
}

/// A GDR document read back gives the single-player actions that were
/// written, and the very clicks where each carries one player's action.
pub proof fn lemma_gdr_file_round_trip(m: ReplayModel)
    ensures
        events_of(clicks_of(gdr_events(gdr_inputs(events_of(m.clicks))))) == events_of(m.clicks),
        single_player(m.clicks) ==> clicks_of(gdr_events(gdr_inputs(events_of(m.clicks))))
            == m.clicks,
{
    lemma_gdr_round_trip(events_of(m.clicks));
    lemma_events_of_clicks_of(events_of(m.clicks));
    if single_player(m.clicks) {
        lemma_single_player_clicks(m.clicks);
    }
}

impl Replay {
    /// Reads a GDR document.
    pub fn parse_gdr(&mut self, doc: &GdrReplay) -> (r: Result<(), ReplayError>)
        ensures
            parsed_replacing(
                old(self)@,
                final(self)@,
                r,
                Ok(Decoded { fps: f32_round(doc.fps), clicks: clicks_of(gdr_events(doc.inputs@)) }),
                GameVersion::Version2206,
            ),
    {
        let ghost cs = doc.inputs@;
        let mut evs: Vec<HoldEvent> = Vec::new();
        let mut i: usize = 0;
        while i < doc.inputs.len()
            invariant
                cs == doc.inputs@,
                i <= cs.len(),
                evs@ == gdr_events(cs.subrange(0, i as int)),
            decreases cs.len() - i,
        {
            let c = doc.inputs[i];
            evs.push(HoldEvent { frame: c.frame, hold: c.down, player_2: c.p2 });
            i += 1;
            assert(evs@ =~= gdr_events(cs.subrange(0, i as int)));
        }
        assert(cs.subrange(0, i as int) =~= cs);
        let clicks = clicks_from_events(&evs);
        self.replace_with(f32_round_bits(doc.fps), clicks, GameVersion::Version2206);
        Ok(())
    }

    /// The GDR document for the replay, with the fixed metadata of this
    /// converter.
    pub fn write_gdr(&self) -> (r: GdrReplay)
        ensures
            r.fps == self.fps,
            r.inputs@ == gdr_inputs(events_of(self@.clicks)),
            r.last_frame == last_frame_of(self@.clicks),
            r.game_version == GDR_GAME_VERSION,
            r.version == GDR_DOCUMENT_VERSION,
            r.author@ == "CONVERTED MACRO"@,
            r.bot_name@ == "NATTIE_CONVERTER"@,
            r.bot_version@ == "1.0.0"@,
            r.level_id == GDR_LEVEL_ID,
            r.level_name@ == "LEVEL NAME"@,
    {
        let evs = hold_events(&self.clicks);
        let mut out: Vec<GdrInput> = Vec::new();
        let mut i: usize = 0;
        while i < evs.len()
            invariant
                i <= evs@.len(),
                out@ == gdr_inputs(evs@.subrange(0, i as int)),
            decreases evs@.len() - i,
        {
            let e = evs[i];
            out.push(GdrInput { frame: e.frame, button: 1, p2: e.player_2, down: e.hold });
            i += 1;
            assert(out@ =~= gdr_inputs(evs@.subrange(0, i as int)));
        }
        assert(evs@.subrange(0, i as int) =~= evs@);
        let n = self.clicks.len();
        let last_frame = if n == 0 {
            0
        } else {
            self.clicks[n - 1].frame
        };
        GdrReplay {
            fps: self.fps,
            inputs: out,
            last_frame,
            game_version: GDR_GAME_VERSION,
            version: GDR_DOCUMENT_VERSION,
            author: "CONVERTED MACRO".to_owned(),
            bot_name: "NATTIE_CONVERTER".to_owned(),
            bot_version: "1.0.0".to_owned(),
            level_id: GDR_LEVEL_ID,
            level_name: "LEVEL NAME".to_owned(),
        }
    }
}

} // verus!
