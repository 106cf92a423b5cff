//! xdBot: the frame rate on the first line, then one line
//! `frame|hold|button|player1` per action. Lines whose button is not `1` are
//! not jumps and are passed over.

use vstd::prelude::*;
use crate::bytes::concat_map;
use crate::formats::plain_text::flag_text;
use crate::replay::{
    clicks_of, events_of, hold_events, parsed_into, Decoded, GameVersion, HoldEvent, Replay,
    ReplayError, ReplayModel,
};
use crate::replay::{lemma_events_of_clicks_of, lemma_single_player_clicks, single_player};
use crate::text::{
    decimal, fields, fold_lines, is_digit, is_text1, lemma_decimal, lemma_decimal_plain,
    lemma_fold_lines_each, lemma_fold_lines_fail, lemma_four_fields, lemma_line_scan_append,
    lemma_line_scan_line, lemma_parse_decimal, line_scan, lines, no_byte, parse_u32,
    parse_u32_spec, push_decimal, split_fields, split_lines, strip_cr,
};

verus! {

pub open spec fn xdbot_line(l: Seq<u8>) -> Option<Seq<HoldEvent>> {
    let fs = fields(l, 124);
    if fs.len() < 3 {
        None
    } else {
        match parse_u32_spec(fs[0]) {
            None => None,
            Some(frame) => if fs[2] != seq![49u8] {
                Some(Seq::empty())
            } else if fs.len() < 4 {
                None
            } else {
                Some(
                    seq![HoldEvent { frame, hold: fs[1] == seq![49u8], player_2: fs[3] != seq![49u8] }],
                )
            },
        }
    }
}

pub open spec fn xdbot_events(ls: Seq<Seq<u8>>) -> Option<Seq<HoldEvent>> {
    fold_lines(ls, |l: Seq<u8>| xdbot_line(l))
}

/// An xdBot file whose first line has the value `fps`.
pub open spec fn xdbot_decode(b: Seq<u8>, fps: u32) -> Result<Decoded, ReplayError> {
    let ls = lines(b);
    if ls.len() == 0 {
        Err(ReplayError::MalformedField)
    } else {
        match xdbot_events(ls.drop_first()) {
            Some(es) => Ok(Decoded { fps, clicks: clicks_of(es) }),
            None => Err(ReplayError::MalformedField),
        }
    }
}

/// The last field is `1` for player 1.
pub open spec fn xdbot_record(e: HoldEvent) -> Seq<u8> {
    decimal(e.frame as nat) + seq![124u8, flag_text(e.hold), 124u8, 49u8, 124u8, flag_text(!e.player_2), 10u8]
}

pub open spec fn xdbot_encode(m: ReplayModel, fps_text: Seq<u8>) -> Seq<u8> {
    fps_text + seq![10u8] + concat_map(events_of(m.clicks), |e: HoldEvent| xdbot_record(e))
}

fn parse_xdbot_line(l: &[u8]) -> (r: Option<Option<HoldEvent>>)
    ensures
        r matches Some(Some(e)) ==> xdbot_line(l@) == Some(seq![e]),
        r matches Some(None) ==> xdbot_line(l@) == Some(Seq::<HoldEvent>::empty()),
        r is None ==> xdbot_line(l@) is None,
{
    let fs = split_fields(l, 124);
    if fs.len() < 3 {
        return None;
    }
    match parse_u32(fs[0].as_slice()) {
        None => None,
        Some(frame) => {
            if !is_text1(fs[2].as_slice(), 49) {
                Some(None)
            } else if fs.len() < 4 {
                None
            } else {
                Some(
                    Some(
                        HoldEvent {
                            frame,
                            hold: is_text1(fs[1].as_slice(), 49),
                            player_2: !is_text1(fs[3].as_slice(), 49),
                        },
                    ),
                )
            }
        },
    }
}

impl Replay {
    /// Reads an xdBot file whose first line has the value `fps`.
    pub fn parse_xdbot(&mut self, data: &[u8], fps: u32) -> (r: Result<(), ReplayError>)
        ensures
            parsed_into(
                old(self)@,
                final(self)@,
                r,
                xdbot_decode(data@, fps),
                GameVersion::Version2206,
            ),
    {
        let ls = split_lines(data);
        let ghost sl = lines(data@);
        if ls.len() == 0 {
            return Err(ReplayError::MalformedField);
        }
        let mut evs: Vec<HoldEvent> = Vec::new();
        let mut k: usize = 1;
        while k < ls.len()
            invariant
                1 <= k <= ls@.len(),
                sl == lines(data@),
                ls@.len() == sl.len(),
                forall|i: int| 0 <= i < ls@.len() ==> (#[trigger] ls@[i])@ == sl[i],
                xdbot_events(sl.subrange(1, k as int)) == Some(evs@),
            decreases ls@.len() - k,
        {
            let ghost prefix = sl.subrange(1, k as int);
            assert(sl.subrange(1, k + 1).drop_last() =~= prefix);
            assert(sl.subrange(1, k + 1).last() == ls@[k as int]@);
            match parse_xdbot_line(ls[k].as_slice()) {
                None => {
                    proof {
                        assert(sl.drop_first()[k - 1] == sl[k as int]);
                        lemma_fold_lines_fail(sl.drop_first(), |l: Seq<u8>| xdbot_line(l), k - 1);
                    }
                    return Err(ReplayError::MalformedField);
                },
                Some(None) => {
                    assert(evs@ + Seq::<HoldEvent>::empty() =~= evs@);
                },
                Some(Some(e)) => {
                    let ghost before = evs@;
                    evs.push(e);
                    assert(evs@ =~= before + seq![e]);
                },
            }
            k += 1;
        }
        assert(sl.subrange(1, k as int) =~= sl.drop_first());
        let clicks = crate::replay::clicks_from_events(&evs);
        self.accept(fps, clicks, GameVersion::Version2206);
        Ok(())
    }

    /// Writes the replay as an xdBot file, with `fps_text` as the first line.
    pub fn write_xdbot(&self, fps_text: &[u8]) -> (out: Vec<u8>)
        ensures
            out@ == xdbot_encode(self@, fps_text@),
    {
        let evs = hold_events(&self.clicks);
        let mut out: Vec<u8> = Vec::new();
        let mut j: usize = 0;
        while j < fps_text.len()
            invariant
                j <= fps_text@.len(),
                out@ == fps_text@.subrange(0, j as int),
            decreases fps_text@.len() - j,
        {
            out.push(fps_text[j]);
            j += 1;
            assert(out@ =~= fps_text@.subrange(0, j as int));
        }
        assert(fps_text@.subrange(0, j as int) =~= fps_text@);
        out.push(10u8);
        let ghost hdr = out@;
        let mut i: usize = 0;
        while i < evs.len()
            invariant
                i <= evs@.len(),
                out@ == hdr + concat_map(evs@.subrange(0, i as int), |e: HoldEvent| xdbot_record(e)),
            decreases evs@.len() - i,
        {
            let e = evs[i];
            let ghost before = out@;
            push_decimal(&mut out, e.frame);
            out.push(124u8);
            out.push(if e.hold { 49u8 } else { 48u8 });
            out.push(124u8);
            out.push(49u8);
            out.push(124u8);
            out.push(if e.player_2 { 48u8 } else { 49u8 });
            out.push(10u8);
            proof {
                crate::bytes::lemma_concat_map_push(
                    evs@.subrange(0, i as int),
                    e,
                    |e: HoldEvent| xdbot_record(e),
                );
                assert(out@ =~= before + xdbot_record(e));
                assert(evs@.subrange(0, i + 1) =~= evs@.subrange(0, i as int).push(e));
            }
            i += 1;
        }
        assert(evs@.subrange(0, i as int) =~= evs@);
        out
    }
}


/// A record's line without its line feed.
pub open spec fn xdbot_line_text(e: HoldEvent) -> Seq<u8> {
    decimal(e.frame as nat) + seq![124u8, flag_text(e.hold), 124u8, 49u8, 124u8, flag_text(!e.player_2)]
}

pub open spec fn xdbot_lines(evs: Seq<HoldEvent>) -> Seq<Seq<u8>> {
    evs.map_values(|e: HoldEvent| xdbot_line_text(e))
}

proof fn lemma_xdbot_line_text(e: HoldEvent)
    ensures
        xdbot_record(e) == xdbot_line_text(e) + seq![10u8],
        no_byte(xdbot_line_text(e), 10),
        strip_cr(xdbot_line_text(e)) == xdbot_line_text(e),
        xdbot_line(xdbot_line_text(e)) == Some(seq![e]),
{
    lemma_decimal_plain(e.frame as nat);
    lemma_decimal(e.frame as nat);
    lemma_parse_decimal(e.frame);
    let d = decimal(e.frame as nat);
    let t = xdbot_line_text(e);
    assert(xdbot_record(e) =~= t + seq![10u8]);
    assert forall|i: int| 0 <= i < t.len() implies t[i] != 10 by {
        if i < d.len() {
            assert(t[i] == d[i]);
        }
    }
    assert forall|i: int| 0 <= i < d.len() implies d[i] != 124 by {
        assert(is_digit(d[i]));
    }
    lemma_four_fields(d, 124, flag_text(e.hold), 49, flag_text(!e.player_2));
    assert(seq![flag_text(e.hold)] == seq![49u8] <==> e.hold) by {
        if seq![flag_text(e.hold)] == seq![49u8] {
            assert(seq![flag_text(e.hold)][0] == 49u8);
        }
    }
    assert(seq![flag_text(!e.player_2)] != seq![49u8] <==> e.player_2) by {
        if seq![flag_text(!e.player_2)] == seq![49u8] {
            assert(seq![flag_text(!e.player_2)][0] == 49u8);
        }
    }
}

proof fn lemma_xdbot_body_lines(evs: Seq<HoldEvent>)
    ensures
        line_scan(concat_map(evs, |e: HoldEvent| xdbot_record(e))) == (
            xdbot_lines(evs),
            Seq::<u8>::empty(),
        ),
    decreases evs.len(),
{
    if evs.len() == 0 {
        assert(xdbot_lines(evs) =~= Seq::<Seq<u8>>::empty());
    } else {
        let init = evs.drop_last();
        let e = evs.last();
        lemma_xdbot_body_lines(init);
        lemma_xdbot_line_text(e);
        let a = concat_map(init, |e: HoldEvent| xdbot_record(e));
        lemma_line_scan_append(a, xdbot_record(e));
        lemma_line_scan_line(xdbot_line_text(e));
        assert(xdbot_lines(init) + seq![xdbot_line_text(e)] =~= xdbot_lines(evs));
    }
}

/// An xdBot file read back, with the frame rate its first line was written
/// with, gives the single-player actions that were written; the frame-rate
/// text must be one line.
pub proof fn lemma_xdbot_round_trip(m: ReplayModel, fps_text: Seq<u8>, fps: u32)
    requires
        no_byte(fps_text, 10),
        strip_cr(fps_text) == fps_text,
    ensures
        xdbot_decode(xdbot_encode(m, fps_text), fps) matches Ok(d) && d.fps == fps && events_of(
            d.clicks,
        ) == events_of(m.clicks)
            && (single_player(m.clicks) ==> d.clicks == m.clicks),
{
    let evs = events_of(m.clicks);
    let body = concat_map(evs, |e: HoldEvent| xdbot_record(e));
    lemma_xdbot_body_lines(evs);
    lemma_line_scan_line(fps_text);
    lemma_line_scan_append(fps_text + seq![10u8], body);
    let b = xdbot_encode(m, fps_text);
    assert(b == (fps_text + seq![10u8]) + body);
    let ls = lines(b);
    assert(ls =~= seq![fps_text] + xdbot_lines(evs));
    assert(ls.drop_first() =~= xdbot_lines(evs));
    let f = |l: Seq<u8>| xdbot_line(l);
    assert forall|i: int| 0 <= i < evs.len() implies #[trigger] f(xdbot_lines(evs)[i]) == Some(
        seq![evs[i]],
    ) by {
        lemma_xdbot_line_text(evs[i]);
    }
    lemma_fold_lines_each(xdbot_lines(evs), evs, f);
    lemma_events_of_clicks_of(evs);
    if single_player(m.clicks) {
        lemma_single_player_clicks(m.clicks);
    }
}

} // verus!
