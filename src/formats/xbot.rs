//! xBot: a first line `fps: <rate>`, a second line `frames`, then one line
//! `state frame` per action, where bit 0 of the state is the press and bit 1
//! the player.

use vstd::prelude::*;
use crate::bytes::concat_map;
use crate::replay::{
    clicks_of, events_of, hold_events, parsed_into, Decoded, GameVersion, HoldEvent, Replay,
    ReplayError, ReplayModel,
};
use crate::replay::{lemma_events_of_clicks_of, lemma_single_player_clicks, single_player};
use crate::text::{
    decimal, fields, fold_lines, lemma_decimal_plain, lemma_fold_lines_each,
    lemma_fold_lines_fail, lemma_line_scan_append, lemma_line_scan_line, lemma_parse_decimal,
    lemma_two_fields, lemma_two_tokens, line_scan, lines, no_byte, parse_u32, parse_u32_spec,
    push_decimal, split_fields, split_lines, split_tokens, strip_cr, tokens,
};

verus! {

pub open spec fn xbot_line(l: Seq<u8>) -> Option<Seq<HoldEvent>> {
    let ts = tokens(l);
    if ts.len() < 2 {
        None
    } else {
        match (parse_u32_spec(ts[0]), parse_u32_spec(ts[1])) {
            (Some(state), Some(frame)) => Some(
                seq![HoldEvent { frame, hold: state % 2 == 1, player_2: state > 1 }],
            ),
            _ => None,
        }
    }
}

pub open spec fn xbot_events(ls: Seq<Seq<u8>>) -> Option<Seq<HoldEvent>> {
    fold_lines(ls, |l: Seq<u8>| xbot_line(l))
}

/// The text after the first space of the first line, where the frame rate stands.
pub open spec fn xbot_fps_field_of(b: Seq<u8>) -> Option<Seq<u8>> {
    let ls = lines(b);
    if ls.len() == 0 || fields(ls[0], 32).len() < 2 {
        None
    } else {
        Some(fields(ls[0], 32)[1])
    }
}

/// An xBot file whose frame-rate field has the value `fps`; the second line is
/// not read.
pub open spec fn xbot_decode(b: Seq<u8>, fps: u32) -> Result<Decoded, ReplayError> {
    let ls = lines(b);
    if ls.len() == 0 {
        Err(ReplayError::MalformedField)
    } else {
        let body = if ls.len() < 2 {
            Seq::empty()
        } else {
            ls.subrange(2, ls.len() as int)
        };
        match xbot_events(body) {
            Some(es) => Ok(Decoded { fps, clicks: clicks_of(es) }),
            None => Err(ReplayError::MalformedField),
        }
    }
}

pub open spec fn xbot_state(e: HoldEvent) -> nat {
    (if e.hold { 1nat } else { 0nat }) + (if e.player_2 { 2nat } else { 0nat })
}

pub open spec fn xbot_record(e: HoldEvent) -> Seq<u8> {
    decimal(xbot_state(e)) + seq![32u8] + decimal(e.frame as nat) + seq![10u8]
}

/// `fps: `, then the frame rate's text and a line feed, then `frames` and a line feed.
pub open spec fn xbot_header(fps_text: Seq<u8>) -> Seq<u8> {
    seq![102u8, 112, 115, 58, 32] + fps_text + seq![10u8, 102, 114, 97, 109, 101, 115, 10]
}

pub open spec fn xbot_encode(m: ReplayModel, fps_text: Seq<u8>) -> Seq<u8> {
    xbot_header(fps_text) + concat_map(events_of(m.clicks), |e: HoldEvent| xbot_record(e))
}

/// The frame-rate field of an xBot file.
pub fn xbot_fps_field(data: &[u8]) -> (r: Option<Vec<u8>>)
    ensures
        r matches Some(f) ==> xbot_fps_field_of(data@) == Some(f@),
        r is None ==> xbot_fps_field_of(data@) is None,
{
    let ls = split_lines(data);
    if ls.len() == 0 {
        return None;
    }
    let mut fs = split_fields(ls[0].as_slice(), 32);
    if fs.len() < 2 {
        None
    } else {
        Some(fs.swap_remove(1))
    }
}

fn parse_xbot_line(l: &[u8]) -> (r: Option<HoldEvent>)
    ensures
        r matches Some(e) ==> xbot_line(l@) == Some(seq![e]),
        r is None ==> xbot_line(l@) is None,
{
    let ts = split_tokens(l);
    if ts.len() < 2 {
        return None;
    }
    match (parse_u32(ts[0].as_slice()), parse_u32(ts[1].as_slice())) {
        (Some(state), Some(frame)) => Some(
            HoldEvent { frame, hold: state % 2 == 1, player_2: state > 1 },
        ),
        _ => None,
    }
}

impl Replay {
    /// Reads an xBot file whose frame-rate field has the value `fps`.
    pub fn parse_xbot(&mut self, data: &[u8], fps: u32) -> (r: Result<(), ReplayError>)
        ensures
            parsed_into(
                old(self)@,
                final(self)@,
                r,
                xbot_decode(data@, fps),
                GameVersion::Version2113,
            ),
    {
        let ls = split_lines(data);
        let ghost sl = lines(data@);
        if ls.len() == 0 {
            return Err(ReplayError::MalformedField);
        }
        let ghost body = if sl.len() < 2 {
            Seq::empty()
        } else {
            sl.subrange(2, sl.len() as int)
        };
        let mut evs: Vec<HoldEvent> = Vec::new();
        let mut k: usize = 2;
        if ls.len() < 2 {
            k = ls.len();
        }
        let ghost start = k;
        assert(sl.subrange(start as int, k as int) =~= Seq::<Seq<u8>>::empty());
        while k < ls.len()
            invariant
                start <= k <= ls@.len(),
                start == 2 || (start == ls@.len() && ls@.len() < 2),
                sl == lines(data@),
                ls@.len() == sl.len(),
                body == (if sl.len() < 2 {
                    Seq::empty()
                } else {
                    sl.subrange(2, sl.len() as int)
                }),
                forall|i: int| 0 <= i < ls@.len() ==> (#[trigger] ls@[i])@ == sl[i],
                xbot_events(sl.subrange(start as int, k as int)) == Some(evs@),
            decreases ls@.len() - k,
        {
            let ghost prefix = sl.subrange(start as int, k as int);
            assert(sl.subrange(start as int, k + 1).drop_last() =~= prefix);
            assert(sl.subrange(start as int, k + 1).last() == ls@[k as int]@);
            match parse_xbot_line(ls[k].as_slice()) {
                None => {
                    proof {
                        assert(body[k - 2] == sl[k as int]);
                        lemma_fold_lines_fail(body, |l: Seq<u8>| xbot_line(l), k - 2);
                    }
                    return Err(ReplayError::MalformedField);
                },
                Some(e) => {
                    evs.push(e);
                },
            }
            k += 1;
        }
        assert(sl.subrange(start as int, k as int) =~= body);
        let clicks = crate::replay::clicks_from_events(&evs);
        self.accept(fps, clicks, GameVersion::Version2113);
        Ok(())
    }

    /// Writes the replay as an xBot file, with `fps_text` as the frame rate.
    pub fn write_xbot(&self, fps_text: &[u8]) -> (out: Vec<u8>)
        ensures
            out@ == xbot_encode(self@, fps_text@),
    {
        let evs = hold_events(&self.clicks);
        let mut out: Vec<u8> = Vec::new();
        out.push(102u8);
        out.push(112u8);
        out.push(115u8);
        out.push(58u8);
        out.push(32u8);
        let mut j: usize = 0;
        while j < fps_text.len()
            invariant
                j <= fps_text@.len(),
                out@ == seq![102u8, 112, 115, 58, 32] + fps_text@.subrange(0, j as int),
            decreases fps_text@.len() - j,
        {
            out.push(fps_text[j]);
            j += 1;
            assert(out@ =~= seq![102u8, 112, 115, 58, 32] + fps_text@.subrange(0, j as int));
        }
        assert(fps_text@.subrange(0, j as int) =~= fps_text@);
        out.push(10u8);
        out.push(102u8);
        out.push(114u8);
        out.push(97u8);
        out.push(109u8);
        out.push(101u8);
        out.push(115u8);
        out.push(10u8);
        let ghost hdr = out@;
        assert(hdr =~= xbot_header(fps_text@));
        let mut i: usize = 0;
        while i < evs.len()
            invariant
                i <= evs@.len(),
                out@ == hdr + concat_map(evs@.subrange(0, i as int), |e: HoldEvent| xbot_record(e)),
            decreases evs@.len() - i,
        {
            let e = evs[i];
            let ghost before = out@;
            let state: u32 = (if e.hold { 1u32 } else { 0u32 }) + (if e.player_2 { 2u32 } else { 0u32 });
            push_decimal(&mut out, state);
            out.push(32u8);
            push_decimal(&mut out, e.frame);
            out.push(10u8);
            proof {
                crate::bytes::lemma_concat_map_push(
                    evs@.subrange(0, i as int),
                    e,
                    |e: HoldEvent| xbot_record(e),
                );
                assert(out@ =~= before + xbot_record(e));
                assert(evs@.subrange(0, i + 1) =~= evs@.subrange(0, i as int).push(e));
            }
            i += 1;
        }
        assert(evs@.subrange(0, i as int) =~= evs@);
        out
    }
}


/// A record's line without its line feed.
pub open spec fn xbot_line_text(e: HoldEvent) -> Seq<u8> {
    decimal(xbot_state(e)) + seq![32u8] + decimal(e.frame as nat)
}

pub open spec fn xbot_lines(evs: Seq<HoldEvent>) -> Seq<Seq<u8>> {
    evs.map_values(|e: HoldEvent| xbot_line_text(e))
}

proof fn lemma_xbot_line_text(e: HoldEvent)
    ensures
        xbot_record(e) == xbot_line_text(e) + seq![10u8],
        no_byte(xbot_line_text(e), 10),
        strip_cr(xbot_line_text(e)) == xbot_line_text(e),
        xbot_line(xbot_line_text(e)) == Some(seq![e]),
{
    let st = xbot_state(e);
    lemma_decimal_plain(st);
    lemma_decimal_plain(e.frame as nat);
    lemma_parse_decimal(e.frame);
    lemma_parse_decimal(st as u32);
    assert((st as u32) as nat == st);
    let d1 = decimal(st);
    let d2 = decimal(e.frame as nat);
    let t = xbot_line_text(e);
    assert(xbot_record(e) =~= t + seq![10u8]);
    assert forall|i: int| 0 <= i < t.len() implies t[i] != 10 by {
        if i < d1.len() {
            assert(t[i] == d1[i]);
        } else if i > d1.len() {
            assert(t[i] == d2[i - d1.len() - 1]);
        }
    }
    assert(t[t.len() - 1] == d2[d2.len() - 1]);
    lemma_two_tokens(d1, d2);
}

proof fn lemma_xbot_body_lines(evs: Seq<HoldEvent>)
    ensures
        line_scan(concat_map(evs, |e: HoldEvent| xbot_record(e))) == (
            xbot_lines(evs),
            Seq::<u8>::empty(),
        ),
    decreases evs.len(),
{
    if evs.len() == 0 {
        assert(xbot_lines(evs) =~= Seq::<Seq<u8>>::empty());
    } else {
        let init = evs.drop_last();
        let e = evs.last();
        lemma_xbot_body_lines(init);
        lemma_xbot_line_text(e);
        let a = concat_map(init, |e: HoldEvent| xbot_record(e));
        lemma_line_scan_append(a, xbot_record(e));
        lemma_line_scan_line(xbot_line_text(e));
        assert(xbot_lines(init) + seq![xbot_line_text(e)] =~= xbot_lines(evs));
    }
}

/// An xBot file read back gives the frame-rate text that was written and,
/// with that frame rate, the single-player actions that were written; the
/// frame-rate text must be one word.
pub proof fn lemma_xbot_round_trip(m: ReplayModel, fps_text: Seq<u8>, fps: u32)
    requires
        no_byte(fps_text, 10),
        no_byte(fps_text, 32),
        strip_cr(fps_text) == fps_text,
    ensures
        xbot_fps_field_of(xbot_encode(m, fps_text)) == Some(fps_text),
        xbot_decode(xbot_encode(m, fps_text), fps) matches Ok(d) && d.fps == fps && events_of(
            d.clicks,
        ) == events_of(m.clicks)
            && (single_player(m.clicks) ==> d.clicks == m.clicks),
{
    let evs = events_of(m.clicks);
    let body = concat_map(evs, |e: HoldEvent| xbot_record(e));
    let label = seq![102u8, 112, 115, 58];
    let first = label + seq![32u8] + fps_text;
    let second = seq![102u8, 114, 97, 109, 101, 115];
    assert(strip_cr(first) == first) by {
        if fps_text.len() == 0 {
            assert(first =~= label + seq![32u8]);
        } else {
            assert(first.last() == fps_text.last());
            assert(first.drop_last() =~= label + seq![32u8] + fps_text.drop_last());
        }
    }
    assert forall|i: int| 0 <= i < first.len() implies first[i] != 10 by {
        if i >= 5 {
            assert(first[i] == fps_text[i - 5]);
        }
    }
    assert forall|i: int| 0 <= i < second.len() implies second[i] != 10 by {
    }
    lemma_xbot_body_lines(evs);
    lemma_line_scan_line(first);
    lemma_line_scan_line(second);
    lemma_line_scan_append(first + seq![10u8], second + seq![10u8]);
    lemma_line_scan_append((first + seq![10u8]) + (second + seq![10u8]), body);
    let b = xbot_encode(m, fps_text);
    assert(b =~= ((first + seq![10u8]) + (second + seq![10u8])) + body);
    let ls = lines(b);
    assert(ls =~= seq![first, second] + xbot_lines(evs));
    assert(ls.subrange(2, ls.len() as int) =~= xbot_lines(evs));
    assert forall|i: int| 0 <= i < label.len() implies label[i] != 32 by {
    }
    lemma_two_fields(label, 32, fps_text);
    let f = |l: Seq<u8>| xbot_line(l);
    assert forall|i: int| 0 <= i < evs.len() implies #[trigger] f(xbot_lines(evs)[i]) == Some(
        seq![evs[i]],
    ) by {
        lemma_xbot_line_text(evs[i]);
    }
    lemma_fold_lines_each(xbot_lines(evs), evs, f);
    lemma_events_of_clicks_of(evs);
    if single_player(m.clicks) {
        lemma_single_player_clicks(m.clicks);
    }
}

} // verus!
