//! Plain text: the frame rate on the first line, then one line
//! `frame hold player2` per action, with `1` for true.
//!
//! The frame rate's decimal text is read and written by the caller, which
//! hands its value or its text to these functions.

use vstd::prelude::*;
use crate::bytes::concat_map;
use crate::replay::{
    clicks_of, events_of, hold_events, parsed_into, Click, Decoded, GameVersion, HoldEvent,
    Replay, ReplayError, ReplayModel,
};
use crate::replay::{lemma_events_of_clicks_of, lemma_single_player_clicks, single_player};
use crate::text::{
    decimal, is_text1, lemma_decimal_plain, lemma_line_scan_append, lemma_line_scan_line,
    lemma_parse_decimal, lemma_three_tokens, line_scan, lines, no_byte, parse_u32, parse_u32_spec,
    push_decimal, split_lines, split_tokens, strip_cr, tokens,
};

verus! {

pub open spec fn flag_text(b: bool) -> u8 {
    if b {
        49u8
    } else {
        48u8
    }
}

pub open spec fn plain_line(l: Seq<u8>) -> Option<HoldEvent> {
    let ts = tokens(l);
    if ts.len() < 3 {
        None
    } else {
        match parse_u32_spec(ts[0]) {
            None => None,
            Some(f) => Some(
                HoldEvent { frame: f, hold: ts[1] == seq![49u8], player_2: ts[2] == seq![49u8] },
            ),
        }
    }
}

pub open spec fn plain_events(ls: Seq<Seq<u8>>) -> Option<Seq<HoldEvent>>
    decreases ls.len(),
{
    if ls.len() == 0 {
        Some(Seq::empty())
    } else {
        match (plain_events(ls.drop_last()), plain_line(ls.last())) {
            (Some(es), Some(e)) => Some(es.push(e)),
            _ => None,
        }
    }
}

/// The file's first line, which holds the frame rate, if there is one.
pub open spec fn first_line_of(b: Seq<u8>) -> Option<Seq<u8>> {
    if lines(b).len() == 0 {
        None
    } else {
        Some(lines(b)[0])
    }
}

/// A plain-text file whose first line gives the frame rate `fps`.
pub open spec fn plain_text_decode(b: Seq<u8>, fps: u32) -> Result<Decoded, ReplayError> {
    let ls = lines(b);
    if ls.len() == 0 {
        Err(ReplayError::MalformedField)
    } else {
        match plain_events(ls.drop_first()) {
            Some(es) => Ok(Decoded { fps, clicks: clicks_of(es) }),
            None => Err(ReplayError::MalformedField),
        }
    }
}

pub open spec fn plain_record(e: HoldEvent) -> Seq<u8> {
    decimal(e.frame as nat) + seq![32u8, flag_text(e.hold), 32u8, flag_text(e.player_2), 10u8]
}

pub open spec fn plain_text_encode(m: ReplayModel, fps_text: Seq<u8>) -> Seq<u8> {
    fps_text + seq![10u8] + concat_map(events_of(m.clicks), |e: HoldEvent| plain_record(e))
}

/// The first line of the data, where text formats keep the frame rate.
pub fn first_line(data: &[u8]) -> (r: Option<Vec<u8>>)
    ensures
        r matches Some(l) ==> first_line_of(data@) == Some(l@),
        r is None ==> first_line_of(data@) is None,
{
    let mut ls = split_lines(data);
    if ls.len() == 0 {
        None
    } else {
        let l = ls.swap_remove(0);
        Some(l)
    }
}

fn parse_plain_line(l: &[u8]) -> (r: Option<HoldEvent>)
    ensures
        r == plain_line(l@),
{
    let ts = split_tokens(l);
    if ts.len() < 3 {
        return None;
    }
    match parse_u32(ts[0].as_slice()) {
        None => None,
        Some(frame) => Some(
            HoldEvent {
                frame,
                hold: is_text1(ts[1].as_slice(), 49),
                player_2: is_text1(ts[2].as_slice(), 49),
            },
        ),
    }
}

impl Replay {
    /// Reads a plain-text file whose first line has the value `fps`.
    pub fn parse_plain_text(&mut self, data: &[u8], fps: u32) -> (r: Result<(), ReplayError>)
        ensures
            parsed_into(
                old(self)@,
                final(self)@,
                r,
                plain_text_decode(data@, fps),
                GameVersion::Any,
            ),
    {
        let ls = split_lines(data);
        let ghost sl = lines(data@);
        if ls.len() == 0 {
            return Err(ReplayError::MalformedField);
        }
        let mut evs: Vec<HoldEvent> = Vec::new();
        let mut k: usize = 1;
        while k < ls.len()
            invariant
                1 <= k <= ls@.len(),
                sl == lines(data@),
                ls@.len() == sl.len(),
                forall|i: int| 0 <= i < ls@.len() ==> (#[trigger] ls@[i])@ == sl[i],
                plain_events(sl.subrange(1, k as int)) == Some(evs@),
            decreases ls@.len() - k,
        {
            let ghost prefix = sl.subrange(1, k as int);
            assert(sl.subrange(1, k + 1).drop_last() =~= prefix);
            assert(sl.subrange(1, k + 1).last() == ls@[k as int]@);
            match parse_plain_line(ls[k].as_slice()) {
                None => {
                    proof {
                        lemma_events_none_extends(sl.drop_first(), k - 1);
                        assert(sl.drop_first().subrange(0, k as int) =~= sl.subrange(1, k + 1));
                        lemma_plain_events_prefix_none(sl.drop_first(), k as int);
                    }
                    return Err(ReplayError::MalformedField);
                },
                Some(e) => {
                    evs.push(e);
                },
            }
            k += 1;
        }
        assert(sl.subrange(1, k as int) =~= sl.drop_first());
        let clicks = crate::replay::clicks_from_events(&evs);
        self.accept(fps, clicks, GameVersion::Any);
        Ok(())
    }

    /// Writes the replay as plain text, with `fps_text` as the first line.
    pub fn write_plain_text(&self, fps_text: &[u8]) -> (out: Vec<u8>)
        ensures
            out@ == plain_text_encode(self@, fps_text@),
    {
        let evs = hold_events(&self.clicks);
        let mut out: Vec<u8> = Vec::new();
        let mut j: usize = 0;
        while j < fps_text.len()
            invariant
                j <= fps_text@.len(),
                out@ == fps_text@.subrange(0, j as int),
            decreases fps_text@.len() - j,
        {
            out.push(fps_text[j]);
            j += 1;
            assert(out@ =~= fps_text@.subrange(0, j as int));
        }
        assert(fps_text@.subrange(0, j as int) =~= fps_text@);
        out.push(10u8);
        let ghost hdr = out@;
        let mut i: usize = 0;
        while i < evs.len()
            invariant
                i <= evs@.len(),
                out@ == hdr + concat_map(evs@.subrange(0, i as int), |e: HoldEvent| plain_record(e)),
            decreases evs@.len() - i,
        {
            let e = evs[i];
            let ghost before = out@;
            push_decimal(&mut out, e.frame);
            out.push(32u8);
            out.push(if e.hold { 49u8 } else { 48u8 });
            out.push(32u8);
            out.push(if e.player_2 { 49u8 } else { 48u8 });
            out.push(10u8);
            proof {
                crate::bytes::lemma_concat_map_push(
                    evs@.subrange(0, i as int),
                    e,
                    |e: HoldEvent| plain_record(e),
                );
                assert(out@ =~= before + plain_record(e));
                assert(evs@.subrange(0, i + 1) =~= evs@.subrange(0, i as int).push(e));
            }
            i += 1;
        }
        assert(evs@.subrange(0, i as int) =~= evs@);
        out
    }
}

/// A line that does not parse makes every longer run of lines fail.
proof fn lemma_events_none_extends(ls: Seq<Seq<u8>>, k: int)
    requires
        0 <= k < ls.len(),
        plain_line(ls[k]) is None,
    ensures
        plain_events(ls.subrange(0, k + 1)) is None,
{
    assert(ls.subrange(0, k + 1).last() == ls[k]);
}

/// Once a prefix of the lines fails, the whole run fails.
pub proof fn lemma_plain_events_prefix_none(ls: Seq<Seq<u8>>, k: int)
    requires
        0 <= k <= ls.len(),
        plain_events(ls.subrange(0, k)) is None,
    ensures
        plain_events(ls) is None,
    decreases ls.len() - k,
{
    if k == ls.len() {
        assert(ls.subrange(0, k) =~= ls);
    } else {
        assert(ls.subrange(0, k + 1).drop_last() =~= ls.subrange(0, k));
        lemma_plain_events_prefix_none(ls, k + 1);
    }
}


/// A record's line without its line feed.
pub open spec fn plain_line_text(e: HoldEvent) -> Seq<u8> {
    decimal(e.frame as nat) + seq![32u8, flag_text(e.hold), 32u8, flag_text(e.player_2)]
}

pub open spec fn plain_lines(evs: Seq<HoldEvent>) -> Seq<Seq<u8>> {
    evs.map_values(|e: HoldEvent| plain_line_text(e))
}

proof fn lemma_plain_line_text(e: HoldEvent)
    ensures
        plain_record(e) == plain_line_text(e) + seq![10u8],
        no_byte(plain_line_text(e), 10),
        strip_cr(plain_line_text(e)) == plain_line_text(e),
        plain_line(plain_line_text(e)) == Some(e),
{
    lemma_decimal_plain(e.frame as nat);
    lemma_parse_decimal(e.frame);
    let d = decimal(e.frame as nat);
    let t = plain_line_text(e);
    assert(plain_record(e) =~= t + seq![10u8]);
    assert forall|i: int| 0 <= i < t.len() implies t[i] != 10 by {
        if i < d.len() {
            assert(t[i] == d[i]);
        }
    }
    lemma_three_tokens(d, 32, flag_text(e.hold), flag_text(e.player_2));
    assert(seq![flag_text(e.hold)] == seq![49u8] <==> e.hold) by {
        if seq![flag_text(e.hold)] == seq![49u8] {
            assert(seq![flag_text(e.hold)][0] == 49u8);
        }
    }
    assert(seq![flag_text(e.player_2)] == seq![49u8] <==> e.player_2) by {
        if seq![flag_text(e.player_2)] == seq![49u8] {
            assert(seq![flag_text(e.player_2)][0] == 49u8);
        }
    }
}

proof fn lemma_plain_body_lines(evs: Seq<HoldEvent>)
    ensures
        line_scan(concat_map(evs, |e: HoldEvent| plain_record(e))) == (
            plain_lines(evs),
            Seq::<u8>::empty(),
        ),
        plain_events(plain_lines(evs)) == Some(evs),
    decreases evs.len(),
{
    if evs.len() == 0 {
        assert(plain_lines(evs) =~= Seq::<Seq<u8>>::empty());
        assert(evs =~= Seq::<HoldEvent>::empty());
    } else {
        let init = evs.drop_last();
        let e = evs.last();
        lemma_plain_body_lines(init);
        lemma_plain_line_text(e);
        let a = concat_map(init, |e: HoldEvent| plain_record(e));
        lemma_line_scan_append(a, plain_record(e));
        lemma_line_scan_line(plain_line_text(e));
        assert(plain_lines(init) + seq![plain_line_text(e)] =~= plain_lines(evs));
        assert(plain_lines(evs).drop_last() =~= plain_lines(init));
        assert(init.push(e) =~= evs);
    }
}

/// A plain-text file read back, with the frame rate its first line was
/// written with, gives the single-player actions that were written; the
/// frame-rate text must be one line.
pub proof fn lemma_plain_text_round_trip(m: ReplayModel, fps_text: Seq<u8>, fps: u32)
    requires
        no_byte(fps_text, 10),
        strip_cr(fps_text) == fps_text,
    ensures
        first_line_of(plain_text_encode(m, fps_text)) == Some(fps_text),
        plain_text_decode(plain_text_encode(m, fps_text), fps) matches Ok(d) && d.fps == fps
            && events_of(d.clicks) == events_of(m.clicks)
            && (single_player(m.clicks) ==> d.clicks == m.clicks),
{
    let evs = events_of(m.clicks);
    let body = concat_map(evs, |e: HoldEvent| plain_record(e));
    lemma_plain_body_lines(evs);
    lemma_line_scan_line(fps_text);
    lemma_line_scan_append(fps_text + seq![10u8], body);
    let b = plain_text_encode(m, fps_text);
    assert(b == (fps_text + seq![10u8]) + body);
    let ls = lines(b);
    assert(ls =~= seq![fps_text] + plain_lines(evs));
    assert(ls.drop_first() =~= plain_lines(evs));
    lemma_events_of_clicks_of(evs);
    if single_player(m.clicks) {
        lemma_single_player_clicks(m.clicks);
    }
}

} // verus!
