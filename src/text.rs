//! Lines, tokens and decimal numbers in ASCII text.

use vstd::prelude::*;

verus! {

/// Space, tab, line feed, vertical tab, form feed, carriage return.
pub open spec fn is_ws(c: u8) -> bool {
    c == 32 || (9 <= c && c <= 13)
}

pub open spec fn strip_cr(l: Seq<u8>) -> Seq<u8> {
    if l.len() > 0 && l.last() == 13 {
        l.drop_last()
    } else {
        l
    }
}

/// The finished lines and the unfinished one after reading `b`; a line feed
/// ends a line, and a carriage return before it is dropped.
pub open spec fn line_scan(b: Seq<u8>) -> (Seq<Seq<u8>>, Seq<u8>)
    decreases b.len(),
{
    if b.len() == 0 {
        (Seq::empty(), Seq::empty())
    } else {
        let (ls, cur) = line_scan(b.drop_last());
        if b.last() == 10 {
            (ls.push(strip_cr(cur)), Seq::empty())
        } else {
            (ls, cur.push(b.last()))
        }
    }
}

/// The lines of `b`; a last line without a line feed counts when it is not empty.
pub open spec fn lines(b: Seq<u8>) -> Seq<Seq<u8>> {
    let (ls, cur) = line_scan(b);
    if cur.len() > 0 {
        ls.push(cur)
    } else {
        ls
    }
}

/// Pieces between separators: every separator ends a piece.
pub open spec fn field_scan(b: Seq<u8>, sep: u8) -> (Seq<Seq<u8>>, Seq<u8>)
    decreases b.len(),
{
    if b.len() == 0 {
        (Seq::empty(), Seq::empty())
    } else {
        let (fs, cur) = field_scan(b.drop_last(), sep);
        if b.last() == sep {
            (fs.push(cur), Seq::empty())
        } else {
            (fs, cur.push(b.last()))
        }
    }
}

/// The pieces of `b` between separators, empty ones included.
pub open spec fn fields(b: Seq<u8>, sep: u8) -> Seq<Seq<u8>> {
    let (fs, cur) = field_scan(b, sep);
    fs.push(cur)
}

/// The finished tokens and the unfinished one; whitespace separates tokens.
pub open spec fn token_scan(b: Seq<u8>) -> (Seq<Seq<u8>>, Seq<u8>)
    decreases b.len(),
{
    if b.len() == 0 {
        (Seq::empty(), Seq::empty())
    } else {
        let (ts, cur) = token_scan(b.drop_last());
        if is_ws(b.last()) {
            if cur.len() > 0 {
                (ts.push(cur), Seq::empty())
            } else {
                (ts, cur)
            }
        } else {
            (ts, cur.push(b.last()))
        }
    }
}

/// The runs of non-whitespace bytes of `b`.
pub open spec fn tokens(b: Seq<u8>) -> Seq<Seq<u8>> {
    let (ts, cur) = token_scan(b);
    if cur.len() > 0 {
        ts.push(cur)
    } else {
        ts
    }
}

pub open spec fn is_digit(c: u8) -> bool {
    48 <= c && c <= 57
}

pub open spec fn all_digits(s: Seq<u8>) -> bool {
    forall|i: int| 0 <= i < s.len() ==> is_digit(#[trigger] s[i])
}

/// The value of a string of decimal digits.
pub open spec fn digits_value(s: Seq<u8>) -> nat
    decreases s.len(),
{
    if s.len() == 0 {
        0
    } else {
        digits_value(s.drop_last()) * 10 + (s.last() - 48) as nat
    }
}

/// An unsigned decimal with an optional `+`, and no larger than `u32::MAX`.
pub open spec fn parse_u32_spec(t: Seq<u8>) -> Option<u32> {
    let d = if t.len() > 0 && t[0] == 43 {
        t.drop_first()
    } else {
        t
    };
    if d.len() > 0 && all_digits(d) && digits_value(d) <= u32::MAX {
        Some(digits_value(d) as u32)
    } else {
        None
    }
}

/// The decimal digits of `x`, without leading zeros.
pub open spec fn decimal(x: nat) -> Seq<u8>
    decreases x,
{
    if x < 10 {
        seq![(48 + x) as u8]
    } else {
        decimal(x / 10) + seq![(48 + x % 10) as u8]
    }
}

pub proof fn lemma_decimal(x: nat)
    ensures
        decimal(x).len() > 0,
        all_digits(decimal(x)),
        digits_value(decimal(x)) == x,
        decimal(x)[0] != 43,
    decreases x,
{
    if x < 10 {
        assert(decimal(x).drop_last() =~= Seq::<u8>::empty());
        assert(digits_value(decimal(x).drop_last()) == 0);
        assert(decimal(x).last() == (48 + x) as u8);
    } else {
        lemma_decimal(x / 10);
        let d = decimal(x);
        assert(d.drop_last() =~= decimal(x / 10));
        assert(d[0] == decimal(x / 10)[0]);
        assert(d.last() == (48 + x % 10) as u8);
        assert((x / 10) * 10 + x % 10 == x);
        assert(digits_value(d) == digits_value(d.drop_last()) * 10 + (d.last() - 48) as nat);
        assert(all_digits(d)) by {
            assert forall|i: int| 0 <= i < d.len() implies is_digit(#[trigger] d[i]) by {
                if i < d.len() - 1 {
                    assert(d[i] == decimal(x / 10)[i]);
                }
            }
        }
    }
}

/// Decimal digits of `x` read back give `x`.
pub proof fn lemma_parse_decimal(x: u32)
    ensures
        parse_u32_spec(decimal(x as nat)) == Some(x),
{
    lemma_decimal(x as nat);
}

/// The lines of the data.
pub fn split_lines(data: &[u8]) -> (r: Vec<Vec<u8>>)
    ensures
        r@.len() == lines(data@).len(),
        forall|i: int| 0 <= i < r@.len() ==> (#[trigger] r@[i])@ == lines(data@)[i],
{
    let mut ls: Vec<Vec<u8>> = Vec::new();
    let mut cur: Vec<u8> = Vec::new();
    let mut i: usize = 0;
    while i < data.len()
        invariant
            i <= data@.len(),
            ls@.len() == line_scan(data@.subrange(0, i as int)).0.len(),
            forall|k: int|
                0 <= k < ls@.len() ==> (#[trigger] ls@[k])@ == line_scan(
                    data@.subrange(0, i as int),
                ).0[k],
            cur@ == line_scan(data@.subrange(0, i as int)).1,
        decreases data@.len() - i,
    {
        let c = data[i];
        assert(data@.subrange(0, i + 1).drop_last() =~= data@.subrange(0, i as int));
        if c == 10 {
            if cur.len() > 0 && cur[cur.len() - 1] == 13 {
                cur.pop();
            }
            ls.push(cur);
            cur = Vec::new();
        } else {
            cur.push(c);
        }
        i += 1;
    }
    assert(data@.subrange(0, i as int) =~= data@);
    if cur.len() > 0 {
        ls.push(cur);
    }
    ls
}

/// The pieces of the data between separators.
pub fn split_fields(data: &[u8], sep: u8) -> (r: Vec<Vec<u8>>)
    ensures
        r@.len() == fields(data@, sep).len(),
        forall|i: int| 0 <= i < r@.len() ==> (#[trigger] r@[i])@ == fields(data@, sep)[i],
{
    let mut fs: Vec<Vec<u8>> = Vec::new();
    let mut cur: Vec<u8> = Vec::new();
    let mut i: usize = 0;
    while i < data.len()
        invariant
            i <= data@.len(),
            fs@.len() == field_scan(data@.subrange(0, i as int), sep).0.len(),
            forall|k: int|
                0 <= k < fs@.len() ==> (#[trigger] fs@[k])@ == field_scan(
                    data@.subrange(0, i as int),
                    sep,
                ).0[k],
            cur@ == field_scan(data@.subrange(0, i as int), sep).1,
        decreases data@.len() - i,
    {
        let c = data[i];
        assert(data@.subrange(0, i + 1).drop_last() =~= data@.subrange(0, i as int));
        if c == sep {
            fs.push(cur);
            cur = Vec::new();
        } else {
            cur.push(c);
        }
        i += 1;
    }
    assert(data@.subrange(0, i as int) =~= data@);
    fs.push(cur);
    fs
}

/// The whitespace-separated tokens of the data.
pub fn split_tokens(data: &[u8]) -> (r: Vec<Vec<u8>>)
    ensures
        r@.len() == tokens(data@).len(),
        forall|i: int| 0 <= i < r@.len() ==> (#[trigger] r@[i])@ == tokens(data@)[i],
{
    let mut ts: Vec<Vec<u8>> = Vec::new();
    let mut cur: Vec<u8> = Vec::new();
    let mut i: usize = 0;
    while i < data.len()
        invariant
            i <= data@.len(),
            ts@.len() == token_scan(data@.subrange(0, i as int)).0.len(),
            forall|k: int|
                0 <= k < ts@.len() ==> (#[trigger] ts@[k])@ == token_scan(
                    data@.subrange(0, i as int),
                ).0[k],
            cur@ == token_scan(data@.subrange(0, i as int)).1,
        decreases data@.len() - i,
    {
        let c = data[i];
        assert(data@.subrange(0, i + 1).drop_last() =~= data@.subrange(0, i as int));
        if c == 32 || (9 <= c && c <= 13) {
            if cur.len() > 0 {
                ts.push(cur);
                cur = Vec::new();
            }
        } else {
            cur.push(c);
        }
        i += 1;
    }
    assert(data@.subrange(0, i as int) =~= data@);
    if cur.len() > 0 {
        ts.push(cur);
    }
    ts
}

/// Reads an unsigned decimal `u32`, as `str::parse::<u32>` does.
pub fn parse_u32(t: &[u8]) -> (r: Option<u32>)
    ensures
        r == parse_u32_spec(t@),
{
    let start: usize = if t.len() > 0 && t[0] == 43 {
        1
    } else {
        0
    };
    let ghost d = if t@.len() > 0 && t@[0] == 43 {
        t@.drop_first()
    } else {
        t@
    };
    assert(d =~= t@.subrange(start as int, t@.len() as int));
    if start == t.len() {
        return None;
    }
    let mut acc: u64 = 0;
    let mut i: usize = start;
    while i < t.len()
        invariant
            start <= i <= t@.len(),
            d == t@.subrange(start as int, t@.len() as int),
            d == (if t@.len() > 0 && t@[0] == 43 {
                t@.drop_first()
            } else {
                t@
            }),
            all_digits(t@.subrange(start as int, i as int)),
            acc == if digits_value(t@.subrange(start as int, i as int)) <= u32::MAX {
                digits_value(t@.subrange(start as int, i as int))
            } else {
                u32::MAX as nat + 1
            },
        decreases t@.len() - i,
    {
        let c = t[i];
        if c < 48 || c > 57 {
            assert(d[i - start] == c);
            assert(!is_digit(d[i - start]));
            assert(!all_digits(d));
            return None;
        }
        let ghost p = t@.subrange(start as int, i as int);
        assert(t@.subrange(start as int, i + 1).drop_last() =~= p);
        let v = acc * 10 + (c - 48) as u64;
        acc = if v > u32::MAX as u64 {
            u32::MAX as u64 + 1
        } else {
            v
        };
        i += 1;
    }
    if acc > u32::MAX as u64 {
        None
    } else {
        Some(acc as u32)
    }
}

/// Appends the decimal digits of `x`.
pub fn push_decimal(out: &mut Vec<u8>, x: u32)
    ensures
        final(out)@ == old(out)@ + decimal(x as nat),
    decreases x,
{
    if x >= 10 {
        push_decimal(out, x / 10);
    }
    out.push(48 + (x % 10) as u8);
    assert(final(out)@ =~= old(out)@ + decimal(x as nat));
}

/// Whether the bytes are exactly the given ASCII text.
pub fn is_text1(t: &[u8], c: u8) -> (r: bool)
    ensures
        r == (t@ == seq![c]),
{
    let r = t.len() == 1 && t[0] == c;
    proof {
        if r {
            assert(t@ =~= seq![c]);
        }
    }
    r
}

} // verus!

verus! {

/// The actions of a run of lines, each line read by `f`; `None` when a line
/// does not read.
pub open spec fn fold_lines(
    ls: Seq<Seq<u8>>,
    f: spec_fn(Seq<u8>) -> Option<Seq<crate::replay::HoldEvent>>,
) -> Option<Seq<crate::replay::HoldEvent>>
    decreases ls.len(),
{
    if ls.len() == 0 {
        Some(Seq::empty())
    } else {
        match (fold_lines(ls.drop_last(), f), f(ls.last())) {
            (Some(a), Some(b)) => Some(a + b),
            _ => None,
        }
    }
}

/// One line that does not read makes the whole run fail.
pub proof fn lemma_fold_lines_fail(
    ls: Seq<Seq<u8>>,
    f: spec_fn(Seq<u8>) -> Option<Seq<crate::replay::HoldEvent>>,
    k: int,
)
    requires
        0 <= k < ls.len(),
        f(ls[k]) is None,
    ensures
        fold_lines(ls, f) is None,
    decreases ls.len(),
{
    if k < ls.len() - 1 {
        lemma_fold_lines_fail(ls.drop_last(), f, k);
    }
}

} // verus!

verus! {

pub open spec fn no_byte(l: Seq<u8>, c: u8) -> bool {
    forall|i: int| 0 <= i < l.len() ==> l[i] != c
}

pub proof fn lemma_line_scan_no_newline(l: Seq<u8>)
    requires
        no_byte(l, 10),
    ensures
        line_scan(l) == (Seq::<Seq<u8>>::empty(), l),
    decreases l.len(),
{
    if l.len() > 0 {
        lemma_line_scan_no_newline(l.drop_last());
        assert(l.drop_last().push(l.last()) =~= l);
    } else {
        assert(l =~= Seq::<u8>::empty());
    }
}

/// After a finished line, the rest scans on its own.
pub proof fn lemma_line_scan_append(a: Seq<u8>, b: Seq<u8>)
    requires
        line_scan(a).1.len() == 0,
    ensures
        line_scan(a + b) == (line_scan(a).0 + line_scan(b).0, line_scan(b).1),
    decreases b.len(),
{
    if b.len() == 0 {
        assert(a + b =~= a);
        assert(line_scan(a).0 + Seq::<Seq<u8>>::empty() =~= line_scan(a).0);
        assert(line_scan(a).1 =~= Seq::<u8>::empty());
    } else {
        lemma_line_scan_append(a, b.drop_last());
        assert((a + b).drop_last() =~= a + b.drop_last());
        assert((a + b).last() == b.last());
        let x = line_scan(a).0;
        let (y, cur) = line_scan(b.drop_last());
        assert((x + y).push(strip_cr(cur)) =~= x + y.push(strip_cr(cur)));
    }
}

/// A line without line feeds, then a line feed, scans as that one line.
pub proof fn lemma_line_scan_line(l: Seq<u8>)
    requires
        no_byte(l, 10),
    ensures
        line_scan(l + seq![10u8]) == (seq![strip_cr(l)], Seq::<u8>::empty()),
{
    lemma_line_scan_no_newline(l);
    let b = l + seq![10u8];
    assert(b.drop_last() =~= l);
    assert(Seq::<Seq<u8>>::empty().push(strip_cr(l)) =~= seq![strip_cr(l)]);
}

pub open spec fn no_ws(l: Seq<u8>) -> bool {
    forall|i: int| 0 <= i < l.len() ==> !is_ws(#[trigger] l[i])
}

pub proof fn lemma_token_scan_word(l: Seq<u8>)
    requires
        no_ws(l),
    ensures
        token_scan(l) == (Seq::<Seq<u8>>::empty(), l),
    decreases l.len(),
{
    if l.len() > 0 {
        assert(!is_ws(l[l.len() - 1]));
        assert forall|i: int| 0 <= i < l.drop_last().len() implies !is_ws(
            #[trigger] l.drop_last()[i],
        ) by {
            assert(l.drop_last()[i] == l[i]);
        }
        lemma_token_scan_word(l.drop_last());
        assert(l.drop_last().push(l.last()) =~= l);
    } else {
        assert(l =~= Seq::<u8>::empty());
    }
}

/// Decimal digits hold neither whitespace nor line feeds.
pub proof fn lemma_decimal_plain(x: nat)
    ensures
        no_ws(decimal(x)),
        no_byte(decimal(x), 10),
        decimal(x).len() > 0,
{
    lemma_decimal(x);
    let d = decimal(x);
    assert forall|i: int| 0 <= i < d.len() implies !is_ws(#[trigger] d[i]) by {
        assert(is_digit(d[i]));
    }
    assert forall|i: int| 0 <= i < d.len() implies d[i] != 10 by {
        assert(is_digit(d[i]));
    }
}

/// A word, a separator and two one-byte words give three tokens.
pub proof fn lemma_three_tokens(d: Seq<u8>, sep: u8, h: u8, p: u8)
    requires
        d.len() > 0,
        no_ws(d),
        is_ws(sep),
        !is_ws(h),
        !is_ws(p),
    ensures
        tokens(d + seq![sep, h, sep, p]) == seq![d, seq![h], seq![p]],
{
    lemma_token_scan_word(d);
    let s1 = d + seq![sep];
    let s2 = s1 + seq![h];
    let s3 = s2 + seq![sep];
    let s4 = s3 + seq![p];
    assert(s4 =~= d + seq![sep, h, sep, p]);
    assert(s1.drop_last() =~= d);
    assert(s2.drop_last() =~= s1);
    assert(s3.drop_last() =~= s2);
    assert(s4.drop_last() =~= s3);
    assert(token_scan(s1) == (seq![d], Seq::<u8>::empty()));
    assert(Seq::<u8>::empty().push(h) =~= seq![h]);
    assert(token_scan(s2) == (seq![d], seq![h]));
    assert(token_scan(s3) == (seq![d, seq![h]], Seq::<u8>::empty()));
    assert(token_scan(s4) == (seq![d, seq![h]], seq![p]));
    assert(seq![d, seq![h]].push(seq![p]) =~= seq![d, seq![h], seq![p]]);
}

} // verus!

verus! {

pub proof fn lemma_field_scan_word(l: Seq<u8>, sep: u8)
    requires
        no_byte(l, sep),
    ensures
        field_scan(l, sep) == (Seq::<Seq<u8>>::empty(), l),
    decreases l.len(),
{
    if l.len() > 0 {
        lemma_field_scan_word(l.drop_last(), sep);
        assert(l.drop_last().push(l.last()) =~= l);
    } else {
        assert(l =~= Seq::<u8>::empty());
    }
}

/// A word and three one-byte fields, each after a separator.
pub proof fn lemma_four_fields(d: Seq<u8>, sep: u8, a: u8, b: u8, c: u8)
    requires
        no_byte(d, sep),
        a != sep,
        b != sep,
        c != sep,
    ensures
        fields(d + seq![sep, a, sep, b, sep, c], sep) == seq![d, seq![a], seq![b], seq![c]],
{
    lemma_field_scan_word(d, sep);
    let s1 = d + seq![sep];
    let s2 = s1 + seq![a];
    let s3 = s2 + seq![sep];
    let s4 = s3 + seq![b];
    let s5 = s4 + seq![sep];
    let s6 = s5 + seq![c];
    assert(s6 =~= d + seq![sep, a, sep, b, sep, c]);
    assert(s1.drop_last() =~= d);
    assert(s2.drop_last() =~= s1);
    assert(s3.drop_last() =~= s2);
    assert(s4.drop_last() =~= s3);
    assert(s5.drop_last() =~= s4);
    assert(s6.drop_last() =~= s5);
    let e = Seq::<u8>::empty();
    assert(e.push(a) =~= seq![a]);
    assert(e.push(b) =~= seq![b]);
    assert(e.push(c) =~= seq![c]);
    assert(field_scan(s1, sep) == (seq![d], e));
    assert(field_scan(s2, sep) == (seq![d], seq![a]));
    assert(field_scan(s3, sep) == (seq![d, seq![a]], e));
    assert(field_scan(s4, sep) == (seq![d, seq![a]], seq![b]));
    assert(field_scan(s5, sep) == (seq![d, seq![a], seq![b]], e));
    assert(field_scan(s6, sep) == (seq![d, seq![a], seq![b]], seq![c]));
    assert(seq![d, seq![a], seq![b]].push(seq![c]) =~= seq![d, seq![a], seq![b], seq![c]]);
}

/// Two words with one separator, each a field.
pub proof fn lemma_two_fields(d: Seq<u8>, sep: u8, w: Seq<u8>)
    requires
        no_byte(d, sep),
        no_byte(w, sep),
    ensures
        fields(d + seq![sep] + w, sep) == seq![d, w],
{
    lemma_field_scan_word(d, sep);
    let s1 = d + seq![sep];
    assert(s1.drop_last() =~= d);
    assert(field_scan(s1, sep) == (seq![d], Seq::<u8>::empty()));
    lemma_field_scan_continue(s1, w, sep);
    assert(Seq::<u8>::empty() + w =~= w);
    assert(seq![d].push(w) =~= seq![d, w]);
}

/// Bytes without separators extend the unfinished field.
pub proof fn lemma_field_scan_continue(a: Seq<u8>, w: Seq<u8>, sep: u8)
    requires
        no_byte(w, sep),
    ensures
        field_scan(a + w, sep) == (field_scan(a, sep).0, field_scan(a, sep).1 + w),
    decreases w.len(),
{
    if w.len() == 0 {
        assert(a + w =~= a);
        assert(field_scan(a, sep).1 + w =~= field_scan(a, sep).1);
    } else {
        lemma_field_scan_continue(a, w.drop_last(), sep);
        assert((a + w).drop_last() =~= a + w.drop_last());
        assert((a + w).last() == w.last());
        assert((field_scan(a, sep).1 + w.drop_last()).push(w.last()) =~= field_scan(a, sep).1 + w);
    }
}

/// Non-whitespace bytes extend the unfinished token.
pub proof fn lemma_token_scan_continue(a: Seq<u8>, w: Seq<u8>)
    requires
        no_ws(w),
    ensures
        token_scan(a + w) == (token_scan(a).0, token_scan(a).1 + w),
    decreases w.len(),
{
    if w.len() == 0 {
        assert(a + w =~= a);
        assert(token_scan(a).1 + w =~= token_scan(a).1);
    } else {
        assert(!is_ws(w[w.len() - 1]));
        assert forall|i: int| 0 <= i < w.drop_last().len() implies !is_ws(
            #[trigger] w.drop_last()[i],
        ) by {
            assert(w.drop_last()[i] == w[i]);
        }
        lemma_token_scan_continue(a, w.drop_last());
        assert((a + w).drop_last() =~= a + w.drop_last());
        assert((a + w).last() == w.last());
        assert((token_scan(a).1 + w.drop_last()).push(w.last()) =~= token_scan(a).1 + w);
    }
}

/// Two words with one space between them.
pub proof fn lemma_two_tokens(d: Seq<u8>, w: Seq<u8>)
    requires
        d.len() > 0,
        w.len() > 0,
        no_ws(d),
        no_ws(w),
    ensures
        tokens(d + seq![32u8] + w) == seq![d, w],
{
    lemma_token_scan_word(d);
    let s1 = d + seq![32u8];
    assert(s1.drop_last() =~= d);
    assert(token_scan(s1) == (seq![d], Seq::<u8>::empty()));
    lemma_token_scan_continue(s1, w);
    assert(Seq::<u8>::empty() + w =~= w);
    assert(seq![d].push(w) =~= seq![d, w]);
}

/// Reading lines that each give one action, in order.
pub proof fn lemma_fold_lines_each(
    ls: Seq<Seq<u8>>,
    evs: Seq<crate::replay::HoldEvent>,
    f: spec_fn(Seq<u8>) -> Option<Seq<crate::replay::HoldEvent>>,
)
    requires
        ls.len() == evs.len(),
        forall|i: int| 0 <= i < ls.len() ==> #[trigger] f(ls[i]) == Some(seq![evs[i]]),
    ensures
        fold_lines(ls, f) == Some(evs),
    decreases ls.len(),
{
    if ls.len() == 0 {
        assert(evs =~= Seq::<crate::replay::HoldEvent>::empty());
    } else {
        let li = ls.drop_last();
        let ei = evs.drop_last();
        assert forall|i: int| 0 <= i < li.len() implies #[trigger] f(li[i]) == Some(seq![ei[i]]) by {
            assert(li[i] == ls[i] && ei[i] == evs[i]);
        }
        lemma_fold_lines_each(li, ei, f);
        assert(f(ls.last()) == Some(seq![evs.last()]));
        assert(ei + seq![evs.last()] =~= evs);
    }
}

} // verus!
