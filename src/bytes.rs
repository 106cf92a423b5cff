//! Little-endian integers in byte sequences, and sequences of fixed-width records.

use vstd::prelude::*;
use vstd::bytes::{spec_u16_from_le_bytes, spec_u16_to_le_bytes, spec_u32_from_le_bytes, spec_u32_to_le_bytes};

verus! {

/// The `u32` stored little-endian at `pos`.
pub open spec fn le_u32(b: Seq<u8>, pos: int) -> u32 {
    spec_u32_from_le_bytes(b.subrange(pos, pos + 4))
}

/// The `u16` stored little-endian at `pos`.
pub open spec fn le_u16(b: Seq<u8>, pos: int) -> u16 {
    spec_u16_from_le_bytes(b.subrange(pos, pos + 2))
}

pub open spec fn u32_le(x: u32) -> Seq<u8> {
    spec_u32_to_le_bytes(x)
}

pub open spec fn u16_le(x: u16) -> Seq<u8> {
    spec_u16_to_le_bytes(x)
}

pub proof fn lemma_u32_le(x: u32)
    ensures
        u32_le(x).len() == 4,
        spec_u32_from_le_bytes(u32_le(x)) == x,
{
    vstd::bytes::lemma_auto_spec_u32_to_from_le_bytes();
    assert(spec_u32_to_le_bytes(x).len() == 4);
}

pub proof fn lemma_u16_le(x: u16)
    ensures
        u16_le(x).len() == 2,
        spec_u16_from_le_bytes(u16_le(x)) == x,
{
    vstd::bytes::lemma_auto_spec_u16_to_from_le_bytes();
    assert(spec_u16_to_le_bytes(x).len() == 2);
}

pub fn read_u32_le(data: &[u8], pos: usize) -> (r: u32)
    requires
        pos + 4 <= data@.len(),
    ensures
        r == le_u32(data@, pos as int),
{
    let _n = data.len();
    vstd::bytes::u32_from_le_bytes(vstd::slice::slice_subrange(data, pos, pos + 4))
}

pub fn read_u16_le(data: &[u8], pos: usize) -> (r: u16)
    requires
        pos + 2 <= data@.len(),
    ensures
        r == le_u16(data@, pos as int),
{
    let _n = data.len();
    vstd::bytes::u16_from_le_bytes(vstd::slice::slice_subrange(data, pos, pos + 2))
}

pub fn push_u32_le(out: &mut Vec<u8>, x: u32)
    ensures
        final(out)@ == old(out)@ + u32_le(x),
{
    let mut b = vstd::bytes::u32_to_le_bytes(x);
    out.append(&mut b);
}

pub fn push_u16_le(out: &mut Vec<u8>, x: u16)
    ensures
        final(out)@ == old(out)@ + u16_le(x),
{
    let mut b = vstd::bytes::u16_to_le_bytes(x);
    out.append(&mut b);
}

/// Appends `n` zero bytes.
pub fn push_zeros(out: &mut Vec<u8>, n: usize)
    ensures
        final(out)@ == old(out)@ + Seq::new(n as nat, |i: int| 0u8),
{
    let ghost start = out@;
    let mut i: usize = 0;
    while i < n
        invariant
            i <= n,
            out@ == start + Seq::new(i as nat, |k: int| 0u8),
        decreases n - i,
    {
        out.push(0u8);
        i += 1;
        assert(out@ =~= start + Seq::new(i as nat, |k: int| 0u8));
    }
}

/// The bytes of each item encoded by `f`, one after another.
pub open spec fn concat_map<T>(items: Seq<T>, f: spec_fn(T) -> Seq<u8>) -> Seq<u8>
    decreases items.len(),
{
    if items.len() == 0 {
        Seq::empty()
    } else {
        concat_map(items.drop_last(), f) + f(items.last())
    }
}

/// With every encoding `w` bytes long, item `i` stands at `w * i`.
pub proof fn lemma_concat_map_fixed<T>(items: Seq<T>, f: spec_fn(T) -> Seq<u8>, w: nat)
    requires
        forall|x: T| #[trigger] f(x).len() == w,
    ensures
        concat_map(items, f).len() == w * items.len(),
        forall|i: int|
            0 <= i < items.len() ==> #[trigger] concat_map(items, f).subrange(w * i, w * i + w)
                == f(items[i]),
    decreases items.len(),
{
    if items.len() > 0 {
        let init = items.drop_last();
        lemma_concat_map_fixed(init, f, w);
        let a = concat_map(init, f);
        let b = f(items.last());
        assert(w * items.len() == w * init.len() + w) by (nonlinear_arith)
            requires
                items.len() == init.len() + 1,
        ;
        assert forall|i: int| 0 <= i < items.len() implies #[trigger] concat_map(
            items,
            f,
        ).subrange(w * i, w * i + w) == f(items[i]) by {
            if i < init.len() {
                assert(w * i + w <= w * init.len()) by (nonlinear_arith)
                    requires
                        i < init.len(),
                        0 <= i,
                ;
                assert(0 <= w * i) by (nonlinear_arith)
                    requires
                        0 <= i,
                ;
                assert((a + b).subrange(w * i, w * i + w) =~= a.subrange(w * i, w * i + w));
                assert(items[i] == init[i]);
            } else {
                assert(i == init.len());
                assert((a + b).subrange(w * i, w * i + w) =~= b);
            }
        }
    }
}

/// Appending one more item's bytes.
pub proof fn lemma_concat_map_push<T>(items: Seq<T>, x: T, f: spec_fn(T) -> Seq<u8>)
    ensures
        concat_map(items.push(x), f) == concat_map(items, f) + f(x),
{
    assert(items.push(x).drop_last() == items);
}

} // verus!

verus! {

/// Records of `w` bytes from `start` to the end, each read by `dec`.
pub open spec fn decode_fixed<T>(b: Seq<u8>, start: int, w: int, dec: spec_fn(Seq<u8>) -> T) -> Seq<T> {
    Seq::new(
        ((b.len() - start) / w) as nat,
        |i: int| dec(b.subrange(start + w * i, start + w * i + w)),
    )
}

/// Reading back records that a fixed-width encoder wrote after a header gives
/// the items that were written.
pub proof fn lemma_decode_concat_map<T>(
    hdr: Seq<u8>,
    items: Seq<T>,
    enc: spec_fn(T) -> Seq<u8>,
    dec: spec_fn(Seq<u8>) -> T,
    w: nat,
)
    requires
        w > 0,
        forall|x: T| #[trigger] enc(x).len() == w,
        forall|x: T| #[trigger] dec(enc(x)) == x,
    ensures
        decode_fixed(hdr + concat_map(items, enc), hdr.len() as int, w as int, dec) == items,
{
    lemma_concat_map_fixed(items, enc, w);
    let c = concat_map(items, enc);
    let b = hdr + c;
    let h = hdr.len() as int;
    let n = items.len();
    assert((w * n) / w == n) by (nonlinear_arith)
        requires
            w > 0,
    ;
    assert(b.len() - h == w * n);
    let d = decode_fixed(b, h, w as int, dec);
    assert forall|i: int| 0 <= i < n implies #[trigger] d[i] == items[i] by {
        assert(0 <= w * i && w * i + w <= w * n) by (nonlinear_arith)
            requires
                0 <= i < n,
        ;
        assert(b.subrange(h + w * i, h + w * i + w) =~= c.subrange(w * i, w * i + w));
        assert(c.subrange(w * i, w * i + w) == enc(items[i]));
    }
    assert(d =~= items);
}

} // verus!

verus! {

/// Whether the data starts with the four given bytes.
pub fn has_magic4(data: &[u8], pos: usize, m0: u8, m1: u8, m2: u8, m3: u8) -> (r: bool)
    ensures
        r == (data@.len() >= pos + 4 && data@.subrange(pos as int, pos + 4) == seq![m0, m1, m2, m3]),
{
    let len = data.len();
    if len < 4 || pos > len - 4 {
        return false;
    }
    let r = data[pos] == m0 && data[pos + 1] == m1 && data[pos + 2] == m2 && data[pos + 3] == m3;
    proof {
        let s = data@.subrange(pos as int, pos + 4);
        if r {
            assert(s =~= seq![m0, m1, m2, m3]);
        } else if s == seq![m0, m1, m2, m3] {
            assert(s[0] == data@[pos as int]);
            assert(s[1] == data@[pos + 1]);
            assert(s[2] == data@[pos + 2]);
            assert(s[3] == data@[pos + 3]);
        }
    }
    r
}

} // verus!

verus! {

pub open spec fn u64_le(x: u64) -> Seq<u8> {
    vstd::bytes::spec_u64_to_le_bytes(x)
}

/// The `u64` stored little-endian at `pos`.
pub open spec fn le_u64(b: Seq<u8>, pos: int) -> u64 {
    vstd::bytes::spec_u64_from_le_bytes(b.subrange(pos, pos + 8))
}

pub proof fn lemma_u64_le(x: u64)
    ensures
        u64_le(x).len() == 8,
        vstd::bytes::spec_u64_from_le_bytes(u64_le(x)) == x,
{
    vstd::bytes::lemma_auto_spec_u64_to_from_le_bytes();
    assert(vstd::bytes::spec_u64_to_le_bytes(x).len() == 8);
}

pub fn read_u64_le(data: &[u8], pos: usize) -> (r: u64)
    requires
        pos + 8 <= data@.len(),
    ensures
        r == le_u64(data@, pos as int),
{
    let _n = data.len();
    vstd::bytes::u64_from_le_bytes(vstd::slice::slice_subrange(data, pos, pos + 8))
}

pub fn push_u64_le(out: &mut Vec<u8>, x: u64)
    ensures
        final(out)@ == old(out)@ + u64_le(x),
{
    let mut b = vstd::bytes::u64_to_le_bytes(x);
    out.append(&mut b);
}

} // verus!
