//! The primitive layer of the wire format: little-endian integers, booleans,
//! and length-prefixed byte strings, as they appear inside a serialized
//! command or reply. Every encoder has a specification-level mirror, every
//! decoder is proved to agree with its mirror, and decoding an encoding gives
//! back exactly what was encoded.
//!
//! A decoder's mirror works on the remaining suffix of the message: it either
//! rejects the suffix or splits it into the decoded value and the rest.

use vstd::bytes::*;
use vstd::prelude::*;
use vstd::slice::slice_subrange;

verus! {

// ------------------------------ u8 ------------------------------

pub open spec fn spec_enc_u8(x: u8) -> Seq<u8> {
    seq![x]
}

pub open spec fn spec_dec_u8(b: Seq<u8>) -> Option<(u8, Seq<u8>)> {
    if b.len() >= 1 {
        Some((b[0], b.skip(1)))
    } else {
        None
    }
}

pub proof fn lemma_dec_enc_u8(x: u8, rest: Seq<u8>)
    ensures
        spec_dec_u8(spec_enc_u8(x) + rest) == Some((x, rest)),
{
    let b = spec_enc_u8(x) + rest;
    assert(b.skip(1) =~= rest);
}

pub fn enc_u8(out: &mut Vec<u8>, x: u8)
    ensures
        final(out)@ == old(out)@ + spec_enc_u8(x),
{
    out.push(x);
    proof {
        assert(final(out)@ =~= old(out)@ + spec_enc_u8(x));
    }
}

pub fn dec_u8(b: &Vec<u8>, pos: usize) -> (r: Option<(u8, usize)>)
    requires
        pos <= b@.len(),
    ensures
        (match r {
            Some((x, next)) => {
                &&& pos <= next <= b@.len()
                &&& spec_dec_u8(b@.skip(pos as int)) == Some((x, b@.skip(next as int)))
            },
            None => spec_dec_u8(b@.skip(pos as int)) is None,
        }),
{
    if b.len() - pos >= 1 {
        let x = b[pos];
        proof {
            assert(b@.skip(pos as int)[0] == b@[pos as int]);
            assert(b@.skip(pos as int).skip(1) =~= b@.skip(pos as int + 1));
        }
        Some((x, pos + 1))
    } else {
        None
    }
}

// ------------------------------ bool ------------------------------

pub open spec fn spec_enc_bool(x: bool) -> Seq<u8> {
    if x {
        seq![1u8]
    } else {
        seq![0u8]
    }
}

/// Only the canonical bytes 0 and 1 decode as a boolean.
pub open spec fn spec_dec_bool(b: Seq<u8>) -> Option<(bool, Seq<u8>)> {
    if b.len() >= 1 {
        if b[0] == 0u8 {
            Some((false, b.skip(1)))
        } else if b[0] == 1u8 {
            Some((true, b.skip(1)))
        } else {
            None
        }
    } else {
        None
    }
}

pub proof fn lemma_dec_enc_bool(x: bool, rest: Seq<u8>)
    ensures
        spec_dec_bool(spec_enc_bool(x) + rest) == Some((x, rest)),
{
    let b = spec_enc_bool(x) + rest;
    assert(b.skip(1) =~= rest);
}

pub fn enc_bool(out: &mut Vec<u8>, x: bool)
    ensures
        final(out)@ == old(out)@ + spec_enc_bool(x),
{
    out.push(if x { 1u8 } else { 0u8 });
    proof {
        assert(final(out)@ =~= old(out)@ + spec_enc_bool(x));
    }
}

pub fn dec_bool(b: &Vec<u8>, pos: usize) -> (r: Option<(bool, usize)>)
    requires
        pos <= b@.len(),
    ensures
        (match r {
            Some((x, next)) => {
                &&& pos <= next <= b@.len()
                &&& spec_dec_bool(b@.skip(pos as int)) == Some((x, b@.skip(next as int)))
            },
            None => spec_dec_bool(b@.skip(pos as int)) is None,
        }),
{
    if b.len() - pos >= 1 {
        let x = b[pos];
        proof {
            assert(b@.skip(pos as int)[0] == b@[pos as int]);
            assert(b@.skip(pos as int).skip(1) =~= b@.skip(pos as int + 1));
        }
        if x == 0 {
            Some((false, pos + 1))
        } else if x == 1 {
            Some((true, pos + 1))
        } else {
            None
        }
    } else {
        None
    }
}

// ------------------------------ u32 ------------------------------

pub open spec fn spec_enc_u32(x: u32) -> Seq<u8> {
    spec_u32_to_le_bytes(x)
}

pub open spec fn spec_dec_u32(b: Seq<u8>) -> Option<(u32, Seq<u8>)> {
    if b.len() >= 4 {
        Some((spec_u32_from_le_bytes(b.take(4)), b.skip(4)))
    } else {
        None
    }
}

pub proof fn lemma_dec_enc_u32(x: u32, rest: Seq<u8>)
    ensures
        spec_dec_u32(spec_enc_u32(x) + rest) == Some((x, rest)),
{
    lemma_auto_spec_u32_to_from_le_bytes();
    let b = spec_enc_u32(x) + rest;
    assert(b.take(4) =~= spec_enc_u32(x));
    assert(b.skip(4) =~= rest);
}

pub fn enc_u32(out: &mut Vec<u8>, x: u32)
    ensures
        final(out)@ == old(out)@ + spec_enc_u32(x),
{
    let mut bs = u32_to_le_bytes(x);
    out.append(&mut bs);
}

pub fn dec_u32(b: &Vec<u8>, pos: usize) -> (r: Option<(u32, usize)>)
    requires
        pos <= b@.len(),
    ensures
        (match r {
            Some((x, next)) => {
                &&& pos <= next <= b@.len()
                &&& spec_dec_u32(b@.skip(pos as int)) == Some((x, b@.skip(next as int)))
            },
            None => spec_dec_u32(b@.skip(pos as int)) is None,
        }),
{
    if b.len() - pos >= 4 {
        let s = slice_subrange(b.as_slice(), pos, pos + 4);
        let x = u32_from_le_bytes(s);
        proof {
            assert(b@.skip(pos as int).take(4) =~= b@.subrange(pos as int, pos as int + 4));
            assert(b@.skip(pos as int).skip(4) =~= b@.skip(pos as int + 4));
        }
        Some((x, pos + 4))
    } else {
        None
    }
}

// ------------------------------ u64 ------------------------------

pub open spec fn spec_enc_u64(x: u64) -> Seq<u8> {
    spec_u64_to_le_bytes(x)
}

pub open spec fn spec_dec_u64(b: Seq<u8>) -> Option<(u64, Seq<u8>)> {
    if b.len() >= 8 {
        Some((spec_u64_from_le_bytes(b.take(8)), b.skip(8)))
    } else {
        None
    }
}

pub proof fn lemma_dec_enc_u64(x: u64, rest: Seq<u8>)
    ensures
        spec_dec_u64(spec_enc_u64(x) + rest) == Some((x, rest)),
{
    lemma_auto_spec_u64_to_from_le_bytes();
    let b = spec_enc_u64(x) + rest;
    assert(b.take(8) =~= spec_enc_u64(x));
    assert(b.skip(8) =~= rest);
}

pub fn enc_u64(out: &mut Vec<u8>, x: u64)
    ensures
        final(out)@ == old(out)@ + spec_enc_u64(x),
{
    let mut bs = u64_to_le_bytes(x);
    out.append(&mut bs);
}

pub fn dec_u64(b: &Vec<u8>, pos: usize) -> (r: Option<(u64, usize)>)
    requires
        pos <= b@.len(),
    ensures
        (match r {
            Some((x, next)) => {
                &&& pos <= next <= b@.len()
                &&& spec_dec_u64(b@.skip(pos as int)) == Some((x, b@.skip(next as int)))
            },
            None => spec_dec_u64(b@.skip(pos as int)) is None,
        }),
{
    if b.len() - pos >= 8 {
        let s = slice_subrange(b.as_slice(), pos, pos + 8);
        let x = u64_from_le_bytes(s);
        proof {
            assert(b@.skip(pos as int).take(8) =~= b@.subrange(pos as int, pos as int + 8));
            assert(b@.skip(pos as int).skip(8) =~= b@.skip(pos as int + 8));
        }
        Some((x, pos + 8))
    } else {
        None
    }
}

// ------------------------------ i32 ------------------------------

// A signed integer travels as its two's-complement u32.

pub open spec fn spec_enc_i32(x: i32) -> Seq<u8> {
    spec_enc_u32(x as u32)
}

pub open spec fn spec_dec_i32(b: Seq<u8>) -> Option<(i32, Seq<u8>)> {
    match spec_dec_u32(b) {
        Some((x, rest)) => Some((x as i32, rest)),
        None => None,
    }
}

pub proof fn lemma_dec_enc_i32(x: i32, rest: Seq<u8>)
    ensures
        spec_dec_i32(spec_enc_i32(x) + rest) == Some((x, rest)),
{
    lemma_dec_enc_u32(x as u32, rest);
    assert((x as u32) as i32 == x) by (bit_vector);
}

pub fn enc_i32(out: &mut Vec<u8>, x: i32)
    ensures
        final(out)@ == old(out)@ + spec_enc_i32(x),
{
    enc_u32(out, x as u32);
}

pub fn dec_i32(b: &Vec<u8>, pos: usize) -> (r: Option<(i32, usize)>)
    requires
        pos <= b@.len(),
    ensures
        (match r {
            Some((x, next)) => {
                &&& pos <= next <= b@.len()
                &&& spec_dec_i32(b@.skip(pos as int)) == Some((x, b@.skip(next as int)))
            },
            None => spec_dec_i32(b@.skip(pos as int)) is None,
        }),
{
    match dec_u32(b, pos) {
        Some((x, next)) => Some((x as i32, next)),
        None => None,
    }
}

// ------------------------------ byte strings ------------------------------

// A byte string travels as a u32 length followed by that many raw bytes.

pub open spec fn spec_enc_bytes(s: Seq<u8>) -> Seq<u8> {
    spec_enc_u32(s.len() as u32) + s
}

pub open spec fn spec_dec_bytes(b: Seq<u8>) -> Option<(Seq<u8>, Seq<u8>)> {
    match spec_dec_u32(b) {
        Some((n, rest)) => if rest.len() >= n {
            Some((rest.take(n as int), rest.skip(n as int)))
        } else {
            None
        },
        None => None,
    }
}

pub proof fn lemma_dec_enc_bytes(s: Seq<u8>, rest: Seq<u8>)
    requires
        s.len() <= u32::MAX,
    ensures
        spec_dec_bytes(spec_enc_bytes(s) + rest) == Some((s, rest)),
{
    let b = spec_enc_bytes(s) + rest;
    assert(b =~= spec_enc_u32(s.len() as u32) + (s + rest));
    lemma_dec_enc_u32(s.len() as u32, s + rest);
    assert((s + rest).take(s.len() as int) =~= s);
    assert((s + rest).skip(s.len() as int) =~= rest);
}

pub fn enc_bytes(out: &mut Vec<u8>, s: &Vec<u8>)
    requires
        s@.len() <= u32::MAX,
    ensures
        final(out)@ == old(out)@ + spec_enc_bytes(s@),
{
    enc_u32(out, s.len() as u32);
    out.extend_from_slice(s.as_slice());
    proof {
        assert(final(out)@ =~= old(out)@ + spec_enc_bytes(s@));
    }
}

pub fn dec_bytes(b: &Vec<u8>, pos: usize) -> (r: Option<(Vec<u8>, usize)>)
    requires
        pos <= b@.len(),
    ensures
        (match r {
            Some((s, next)) => {
                &&& pos <= next <= b@.len()
                &&& spec_dec_bytes(b@.skip(pos as int)) == Some((s@, b@.skip(next as int)))
            },
            None => spec_dec_bytes(b@.skip(pos as int)) is None,
        }),
{
    match dec_u32(b, pos) {
        Some((n, mid)) => {
            if (b.len() - mid) as u64 >= n as u64 {
                let n = n as usize;
                let s = slice_subrange(b.as_slice(), mid, mid + n);
                let out: Vec<u8> = vstd::slice::slice_to_vec(s);
                proof {
                    assert(b@.skip(mid as int).take(n as int) =~= b@.subrange(
                        mid as int,
                        mid as int + n as int,
                    ));
                    assert(b@.skip(mid as int).skip(n as int) =~= b@.skip(mid as int + n as int));
                }
                Some((out, mid + n))
            } else {
                None
            }
        },
        None => None,
    }
}

} // verus!

verus! {

// ------------------------------ lists ------------------------------

// A list travels as a u32 element count followed by the encodings of its
// elements in order.

pub open spec fn spec_enc_u32s(items: Seq<u32>) -> Seq<u8>
    decreases items.len(),
{
    if items.len() == 0 {
        Seq::empty()
    } else {
        spec_enc_u32(items[0]) + spec_enc_u32s(items.skip(1))
    }
}

pub open spec fn spec_enc_u32_list(items: Seq<u32>) -> Seq<u8> {
    spec_enc_u32(items.len() as u32) + spec_enc_u32s(items)
}

pub open spec fn spec_dec_u32s(b: Seq<u8>, n: nat) -> Option<(Seq<u32>, Seq<u8>)>
    decreases n,
{
    if n == 0 {
        Some((Seq::empty(), b))
    } else {
        match spec_dec_u32(b) {
            Some((x, rest)) => match spec_dec_u32s(rest, (n - 1) as nat) {
                Some((xs, rest2)) => Some((seq![x] + xs, rest2)),
                None => None,
            },
            None => None,
        }
    }
}

pub open spec fn spec_dec_u32_list(b: Seq<u8>) -> Option<(Seq<u32>, Seq<u8>)> {
    match spec_dec_u32(b) {
        Some((n, rest)) => spec_dec_u32s(rest, n as nat),
        None => None,
    }
}

pub proof fn lemma_enc_u32s_snoc(items: Seq<u32>, x: u32)
    ensures
        spec_enc_u32s(items.push(x)) == spec_enc_u32s(items) + spec_enc_u32(x),
    decreases items.len(),
{
    if items.len() == 0 {
        assert(items.push(x)[0] == x);
        assert(items.push(x).skip(1) =~= Seq::<u32>::empty());
        assert(spec_enc_u32s(Seq::<u32>::empty()) == Seq::<u8>::empty());
        assert(items =~= Seq::<u32>::empty());
        assert(spec_enc_u32s(items.push(x)) =~= spec_enc_u32s(items) + spec_enc_u32(x));
    } else {
        assert(items.push(x)[0] == items[0]);
        assert(items.push(x).skip(1) =~= items.skip(1).push(x));
        lemma_enc_u32s_snoc(items.skip(1), x);
        assert(spec_enc_u32s(items.push(x)) == spec_enc_u32(items[0]) + spec_enc_u32s(
            items.skip(1).push(x),
        ));
        assert(spec_enc_u32s(items.push(x)) =~= spec_enc_u32s(items) + spec_enc_u32(x));
    }
}

pub proof fn lemma_dec_enc_u32s(items: Seq<u32>, rest: Seq<u8>)
    ensures
        spec_dec_u32s(spec_enc_u32s(items) + rest, items.len()) == Some((items, rest)),
    decreases items.len(),
{
    if items.len() == 0 {
        assert(spec_enc_u32s(items) + rest =~= rest);
        assert(items =~= Seq::<u32>::empty());
    } else {
        let tail = items.skip(1);
        assert(spec_enc_u32s(items) + rest =~= spec_enc_u32(items[0]) + (spec_enc_u32s(tail)
            + rest));
        lemma_dec_enc_u32(items[0], spec_enc_u32s(tail) + rest);
        lemma_dec_enc_u32s(tail, rest);
        assert(seq![items[0]] + tail =~= items);
    }
}

pub proof fn lemma_dec_enc_u32_list(items: Seq<u32>, rest: Seq<u8>)
    requires
        items.len() <= u32::MAX,
    ensures
        spec_dec_u32_list(spec_enc_u32_list(items) + rest) == Some((items, rest)),
{
    assert(spec_enc_u32_list(items) + rest =~= spec_enc_u32(items.len() as u32) + (spec_enc_u32s(
        items,
    ) + rest));
    lemma_dec_enc_u32(items.len() as u32, spec_enc_u32s(items) + rest);
    lemma_dec_enc_u32s(items, rest);
}

pub fn enc_u32_list(out: &mut Vec<u8>, items: &Vec<u32>)
    requires
        items@.len() <= u32::MAX,
    ensures
        final(out)@ == old(out)@ + spec_enc_u32_list(items@),
{
    enc_u32(out, items.len() as u32);
    let ghost mid = out@;
    let mut i: usize = 0;
    while i < items.len()
        invariant
            i <= items@.len(),
            mid == old(out)@ + spec_enc_u32(items@.len() as u32),
            out@ == mid + spec_enc_u32s(items@.take(i as int)),
        decreases items@.len() - i,
    {
        enc_u32(out, items[i]);
        proof {
            assert(items@.take(i as int).push(items@[i as int]) =~= items@.take(i as int + 1));
            lemma_enc_u32s_snoc(items@.take(i as int), items@[i as int]);
            assert(out@ =~= mid + spec_enc_u32s(items@.take(i as int + 1)));
        }
        i += 1;
    }
    proof {
        assert(items@.take(items@.len() as int) =~= items@);
        assert(final(out)@ =~= old(out)@ + spec_enc_u32_list(items@));
    }
}

/// Maps a decoded tail through a prefix of already-decoded elements.
pub open spec fn spec_prepend_u32s(
    prefix: Seq<u32>,
    r: Option<(Seq<u32>, Seq<u8>)>,
) -> Option<(Seq<u32>, Seq<u8>)> {
    match r {
        Some((xs, rest)) => Some((prefix + xs, rest)),
        None => None,
    }
}

pub fn dec_u32s(b: &Vec<u8>, pos: usize, n: u32) -> (r: Option<(Vec<u32>, usize)>)
    requires
        pos <= b@.len(),
    ensures
        (match r {
            Some((xs, next)) => {
                &&& pos <= next <= b@.len()
                &&& spec_dec_u32s(b@.skip(pos as int), n as nat) == Some((xs@, b@.skip(next as int)))
            },
            None => spec_dec_u32s(b@.skip(pos as int), n as nat) is None,
        }),
{
    let mut acc: Vec<u32> = Vec::new();
    let mut cur: usize = pos;
    let mut i: u32 = 0;
    while i < n
        invariant
            pos <= cur <= b@.len(),
            i <= n,
            acc@.len() == i as nat,
            spec_dec_u32s(b@.skip(pos as int), n as nat) == spec_prepend_u32s(
                acc@,
                spec_dec_u32s(b@.skip(cur as int), (n - i) as nat),
            ),
        decreases n - i,
    {
        let ghost acc_pre = acc@;
        let ghost cur_pre = cur;
        match dec_u32(b, cur) {
            Some((x, next)) => {
                acc.push(x);
                cur = next;
                proof {
                    let tail = spec_dec_u32s(b@.skip(next as int), (n - i - 1) as nat);
                    assert(spec_dec_u32s(b@.skip(cur_pre as int), (n - i) as nat)
                        == spec_prepend_u32s(seq![x], tail));
                    match tail {
                        Some((xs, r2)) => {
                            assert(acc_pre + (seq![x] + xs) =~= acc@ + xs);
                        },
                        None => {},
                    }
                }
                i += 1;
            },
            None => {
                return None;
            },
        }
    }
    proof {
        assert(acc@ + Seq::<u32>::empty() =~= acc@);
    }
    Some((acc, cur))
}

pub fn dec_u32_list(b: &Vec<u8>, pos: usize) -> (r: Option<(Vec<u32>, usize)>)
    requires
        pos <= b@.len(),
    ensures
        (match r {
            Some((xs, next)) => {
                &&& pos <= next <= b@.len()
                &&& spec_dec_u32_list(b@.skip(pos as int)) == Some((xs@, b@.skip(next as int)))
            },
            None => spec_dec_u32_list(b@.skip(pos as int)) is None,
        }),
{
    match dec_u32(b, pos) {
        Some((n, mid)) => dec_u32s(b, mid, n),
        None => None,
    }
}

} // verus!

verus! {

// u64 lists (the carrier of real-valued variables).

pub open spec fn spec_enc_u64s(items: Seq<u64>) -> Seq<u8>
    decreases items.len(),
{
    if items.len() == 0 {
        Seq::empty()
    } else {
        spec_enc_u64(items[0]) + spec_enc_u64s(items.skip(1))
    }
}

pub open spec fn spec_enc_u64_list(items: Seq<u64>) -> Seq<u8> {
    spec_enc_u32(items.len() as u32) + spec_enc_u64s(items)
}

pub open spec fn spec_dec_u64s(b: Seq<u8>, n: nat) -> Option<(Seq<u64>, Seq<u8>)>
    decreases n,
{
    if n == 0 {
        Some((Seq::empty(), b))
    } else {
        match spec_dec_u64(b) {
            Some((x, rest)) => match spec_dec_u64s(rest, (n - 1) as nat) {
                Some((xs, rest2)) => Some((seq![x] + xs, rest2)),
                None => None,
            },
            None => None,
        }
    }
}

pub open spec fn spec_dec_u64_list(b: Seq<u8>) -> Option<(Seq<u64>, Seq<u8>)> {
    match spec_dec_u32(b) {
        Some((n, rest)) => spec_dec_u64s(rest, n as nat),
        None => None,
    }
}

pub proof fn lemma_enc_u64s_snoc(items: Seq<u64>, x: u64)
    ensures
        spec_enc_u64s(items.push(x)) == spec_enc_u64s(items) + spec_enc_u64(x),
    decreases items.len(),
{
    if items.len() == 0 {
        assert(items.push(x)[0] == x);
        assert(items.push(x).skip(1) =~= Seq::<u64>::empty());
        assert(spec_enc_u64s(Seq::<u64>::empty()) == Seq::<u8>::empty());
        assert(items =~= Seq::<u64>::empty());
        assert(spec_enc_u64s(items.push(x)) =~= spec_enc_u64s(items) + spec_enc_u64(x));
    } else {
        assert(items.push(x)[0] == items[0]);
        assert(items.push(x).skip(1) =~= items.skip(1).push(x));
        lemma_enc_u64s_snoc(items.skip(1), x);
        assert(spec_enc_u64s(items.push(x)) == spec_enc_u64(items[0]) + spec_enc_u64s(
            items.skip(1).push(x),
        ));
        assert(spec_enc_u64s(items.push(x)) =~= spec_enc_u64s(items) + spec_enc_u64(x));
    }
}

pub proof fn lemma_dec_enc_u64s(items: Seq<u64>, rest: Seq<u8>)
    ensures
        spec_dec_u64s(spec_enc_u64s(items) + rest, items.len()) == Some((items, rest)),
    decreases items.len(),
{
    if items.len() == 0 {
        assert(spec_enc_u64s(items) + rest =~= rest);
        assert(items =~= Seq::<u64>::empty());
    } else {
        let tail = items.skip(1);
        assert(spec_enc_u64s(items) + rest =~= spec_enc_u64(items[0]) + (spec_enc_u64s(tail)
            + rest));
        lemma_dec_enc_u64(items[0], spec_enc_u64s(tail) + rest);
        lemma_dec_enc_u64s(tail, rest);
        assert(seq![items[0]] + tail =~= items);
    }
}

pub proof fn lemma_dec_enc_u64_list(items: Seq<u64>, rest: Seq<u8>)
    requires
        items.len() <= u32::MAX,
    ensures
        spec_dec_u64_list(spec_enc_u64_list(items) + rest) == Some((items, rest)),
{
    assert(spec_enc_u64_list(items) + rest =~= spec_enc_u32(items.len() as u32) + (spec_enc_u64s(
        items,
    ) + rest));
    lemma_dec_enc_u32(items.len() as u32, spec_enc_u64s(items) + rest);
    lemma_dec_enc_u64s(items, rest);
}

pub fn enc_u64_list(out: &mut Vec<u8>, items: &Vec<u64>)
    requires
        items@.len() <= u32::MAX,
    ensures
        final(out)@ == old(out)@ + spec_enc_u64_list(items@),
{
    enc_u32(out, items.len() as u32);
    let ghost mid = out@;
    let mut i: usize = 0;
    while i < items.len()
        invariant
            i <= items@.len(),
            mid == old(out)@ + spec_enc_u32(items@.len() as u32),
            out@ == mid + spec_enc_u64s(items@.take(i as int)),
        decreases items@.len() - i,
    {
        enc_u64(out, items[i]);
        proof {
            assert(items@.take(i as int).push(items@[i as int]) =~= items@.take(i as int + 1));
            lemma_enc_u64s_snoc(items@.take(i as int), items@[i as int]);
            assert(out@ =~= mid + spec_enc_u64s(items@.take(i as int + 1)));
        }
        i += 1;
    }
    proof {
        assert(items@.take(items@.len() as int) =~= items@);
        assert(final(out)@ =~= old(out)@ + spec_enc_u64_list(items@));
    }
}

pub open spec fn spec_prepend_u64s(
    prefix: Seq<u64>,
    r: Option<(Seq<u64>, Seq<u8>)>,
) -> Option<(Seq<u64>, Seq<u8>)> {
    match r {
        Some((xs, rest)) => Some((prefix + xs, rest)),
        None => None,
    }
}

pub fn dec_u64s(b: &Vec<u8>, pos: usize, n: u32) -> (r: Option<(Vec<u64>, usize)>)
    requires
        pos <= b@.len(),
    ensures
        (match r {
            Some((xs, next)) => {
                &&& pos <= next <= b@.len()
                &&& spec_dec_u64s(b@.skip(pos as int), n as nat) == Some((xs@, b@.skip(next as int)))
            },
            None => spec_dec_u64s(b@.skip(pos as int), n as nat) is None,
        }),
{
    let mut acc: Vec<u64> = Vec::new();
    let mut cur: usize = pos;
    let mut i: u32 = 0;
    while i < n
        invariant
            pos <= cur <= b@.len(),
            i <= n,
            acc@.len() == i as nat,
            spec_dec_u64s(b@.skip(pos as int), n as nat) == spec_prepend_u64s(
                acc@,
                spec_dec_u64s(b@.skip(cur as int), (n - i) as nat),
            ),
        decreases n - i,
    {
        let ghost acc_pre = acc@;
        let ghost cur_pre = cur;
        match dec_u64(b, cur) {
            Some((x, next)) => {
                acc.push(x);
                cur = next;
                proof {
                    let tail = spec_dec_u64s(b@.skip(next as int), (n - i - 1) as nat);
                    assert(spec_dec_u64s(b@.skip(cur_pre as int), (n - i) as nat)
                        == spec_prepend_u64s(seq![x], tail));
                    match tail {
                        Some((xs, r2)) => {
                            assert(acc_pre + (seq![x] + xs) =~= acc@ + xs);
                        },
                        None => {},
                    }
                }
                i += 1;
            },
            None => {
                return None;
            },
        }
    }
    proof {
        assert(acc@ + Seq::<u64>::empty() =~= acc@);
    }
    Some((acc, cur))
}

pub fn dec_u64_list(b: &Vec<u8>, pos: usize) -> (r: Option<(Vec<u64>, usize)>)
    requires
        pos <= b@.len(),
    ensures
        (match r {
            Some((xs, next)) => {
                &&& pos <= next <= b@.len()
                &&& spec_dec_u64_list(b@.skip(pos as int)) == Some((xs@, b@.skip(next as int)))
            },
            None => spec_dec_u64_list(b@.skip(pos as int)) is None,
        }),
{
    match dec_u32(b, pos) {
        Some((n, mid)) => dec_u64s(b, mid, n),
        None => None,
    }
}

} // verus!

verus! {

// i32 lists (the carrier of integer variables).

pub open spec fn spec_enc_i32s(items: Seq<i32>) -> Seq<u8>
    decreases items.len(),
{
    if items.len() == 0 {
        Seq::empty()
    } else {
        spec_enc_i32(items[0]) + spec_enc_i32s(items.skip(1))
    }
}

pub open spec fn spec_enc_i32_list(items: Seq<i32>) -> Seq<u8> {
    spec_enc_u32(items.len() as u32) + spec_enc_i32s(items)
}

pub open spec fn spec_dec_i32s(b: Seq<u8>, n: nat) -> Option<(Seq<i32>, Seq<u8>)>
    decreases n,
{
    if n == 0 {
        Some((Seq::empty(), b))
    } else {
        match spec_dec_i32(b) {
            Some((x, rest)) => match spec_dec_i32s(rest, (n - 1) as nat) {
                Some((xs, rest2)) => Some((seq![x] + xs, rest2)),
                None => None,
            },
            None => None,
        }
    }
}

pub open spec fn spec_dec_i32_list(b: Seq<u8>) -> Option<(Seq<i32>, Seq<u8>)> {
    match spec_dec_u32(b) {
        Some((n, rest)) => spec_dec_i32s(rest, n as nat),
        None => None,
    }
}

pub proof fn lemma_enc_i32s_snoc(items: Seq<i32>, x: i32)
    ensures
        spec_enc_i32s(items.push(x)) == spec_enc_i32s(items) + spec_enc_i32(x),
    decreases items.len(),
{
    if items.len() == 0 {
        assert(items.push(x)[0] == x);
        assert(items.push(x).skip(1) =~= Seq::<i32>::empty());
        assert(spec_enc_i32s(Seq::<i32>::empty()) == Seq::<u8>::empty());
        assert(items =~= Seq::<i32>::empty());
        assert(spec_enc_i32s(items.push(x)) =~= spec_enc_i32s(items) + spec_enc_i32(x));
    } else {
        assert(items.push(x)[0] == items[0]);
        assert(items.push(x).skip(1) =~= items.skip(1).push(x));
        lemma_enc_i32s_snoc(items.skip(1), x);
        assert(spec_enc_i32s(items.push(x)) == spec_enc_i32(items[0]) + spec_enc_i32s(
            items.skip(1).push(x),
        ));
        assert(spec_enc_i32s(items.push(x)) =~= spec_enc_i32s(items) + spec_enc_i32(x));
    }
}

pub proof fn lemma_dec_enc_i32s(items: Seq<i32>, rest: Seq<u8>)
    ensures
        spec_dec_i32s(spec_enc_i32s(items) + rest, items.len()) == Some((items, rest)),
    decreases items.len(),
{
    if items.len() == 0 {
        assert(spec_enc_i32s(items) + rest =~= rest);
        assert(items =~= Seq::<i32>::empty());
    } else {
        let tail = items.skip(1);
        assert(spec_enc_i32s(items) + rest =~= spec_enc_i32(items[0]) + (spec_enc_i32s(tail)
            + rest));
        lemma_dec_enc_i32(items[0], spec_enc_i32s(tail) + rest);
        lemma_dec_enc_i32s(tail, rest);
        assert(seq![items[0]] + tail =~= items);
    }
}

pub proof fn lemma_dec_enc_i32_list(items: Seq<i32>, rest: Seq<u8>)
    requires
        items.len() <= u32::MAX,
    ensures
        spec_dec_i32_list(spec_enc_i32_list(items) + rest) == Some((items, rest)),
{
    assert(spec_enc_i32_list(items) + rest =~= spec_enc_u32(items.len() as u32) + (spec_enc_i32s(
        items,
    ) + rest));
    lemma_dec_enc_u32(items.len() as u32, spec_enc_i32s(items) + rest);
    lemma_dec_enc_i32s(items, rest);
}

pub fn enc_i32_list(out: &mut Vec<u8>, items: &Vec<i32>)
    requires
        items@.len() <= u32::MAX,
    ensures
        final(out)@ == old(out)@ + spec_enc_i32_list(items@),
{
    enc_u32(out, items.len() as u32);
    let ghost mid = out@;
    let mut i: usize = 0;
    while i < items.len()
        invariant
            i <= items@.len(),
            mid == old(out)@ + spec_enc_u32(items@.len() as u32),
            out@ == mid + spec_enc_i32s(items@.take(i as int)),
        decreases items@.len() - i,
    {
        enc_i32(out, items[i]);
        proof {
            assert(items@.take(i as int).push(items@[i as int]) =~= items@.take(i as int + 1));
            lemma_enc_i32s_snoc(items@.take(i as int), items@[i as int]);
            assert(out@ =~= mid + spec_enc_i32s(items@.take(i as int + 1)));
        }
        i += 1;
    }
    proof {
        assert(items@.take(items@.len() as int) =~= items@);
        assert(final(out)@ =~= old(out)@ + spec_enc_i32_list(items@));
    }
}

pub open spec fn spec_prepend_i32s(
    prefix: Seq<i32>,
    r: Option<(Seq<i32>, Seq<u8>)>,
) -> Option<(Seq<i32>, Seq<u8>)> {
    match r {
        Some((xs, rest)) => Some((prefix + xs, rest)),
        None => None,
    }
}

pub fn dec_i32s(b: &Vec<u8>, pos: usize, n: u32) -> (r: Option<(Vec<i32>, usize)>)
    requires
        pos <= b@.len(),
    ensures
        (match r {
            Some((xs, next)) => {
                &&& pos <= next <= b@.len()
                &&& spec_dec_i32s(b@.skip(pos as int), n as nat) == Some((xs@, b@.skip(next as int)))
            },
            None => spec_dec_i32s(b@.skip(pos as int), n as nat) is None,
        }),
{
    let mut acc: Vec<i32> = Vec::new();
    let mut cur: usize = pos;
    let mut i: u32 = 0;
    while i < n
        invariant
            pos <= cur <= b@.len(),
            i <= n,
            acc@.len() == i as nat,
            spec_dec_i32s(b@.skip(pos as int), n as nat) == spec_prepend_i32s(
                acc@,
                spec_dec_i32s(b@.skip(cur as int), (n - i) as nat),
            ),
        decreases n - i,
    {
        let ghost acc_pre = acc@;
        let ghost cur_pre = cur;
        match dec_i32(b, cur) {
            Some((x, next)) => {
                acc.push(x);
                cur = next;
                proof {
                    let tail = spec_dec_i32s(b@.skip(next as int), (n - i - 1) as nat);
                    assert(spec_dec_i32s(b@.skip(cur_pre as int), (n - i) as nat)
                        == spec_prepend_i32s(seq![x], tail));
                    match tail {
                        Some((xs, r2)) => {
                            assert(acc_pre + (seq![x] + xs) =~= acc@ + xs);
                        },
                        None => {},
                    }
                }
                i += 1;
            },
            None => {
                return None;
            },
        }
    }
    proof {
        assert(acc@ + Seq::<i32>::empty() =~= acc@);
    }
    Some((acc, cur))
}

pub fn dec_i32_list(b: &Vec<u8>, pos: usize) -> (r: Option<(Vec<i32>, usize)>)
    requires
        pos <= b@.len(),
    ensures
        (match r {
            Some((xs, next)) => {
                &&& pos <= next <= b@.len()
                &&& spec_dec_i32_list(b@.skip(pos as int)) == Some((xs@, b@.skip(next as int)))
            },
            None => spec_dec_i32_list(b@.skip(pos as int)) is None,
        }),
{
    match dec_u32(b, pos) {
        Some((n, mid)) => dec_i32s(b, mid, n),
        None => None,
    }
}

// bool lists (the carrier of boolean variables).

pub open spec fn spec_enc_bools(items: Seq<bool>) -> Seq<u8>
    decreases items.len(),
{
    if items.len() == 0 {
        Seq::empty()
    } else {
        spec_enc_bool(items[0]) + spec_enc_bools(items.skip(1))
    }
}

pub open spec fn spec_enc_bool_list(items: Seq<bool>) -> Seq<u8> {
    spec_enc_u32(items.len() as u32) + spec_enc_bools(items)
}

pub open spec fn spec_dec_bools(b: Seq<u8>, n: nat) -> Option<(Seq<bool>, Seq<u8>)>
    decreases n,
{
    if n == 0 {
        Some((Seq::empty(), b))
    } else {
        match spec_dec_bool(b) {
            Some((x, rest)) => match spec_dec_bools(rest, (n - 1) as nat) {
                Some((xs, rest2)) => Some((seq![x] + xs, rest2)),
                None => None,
            },
            None => None,
        }
    }
}

pub open spec fn spec_dec_bool_list(b: Seq<u8>) -> Option<(Seq<bool>, Seq<u8>)> {
    match spec_dec_u32(b) {
        Some((n, rest)) => spec_dec_bools(rest, n as nat),
        None => None,
    }
}

pub proof fn lemma_enc_bools_snoc(items: Seq<bool>, x: bool)
    ensures
        spec_enc_bools(items.push(x)) == spec_enc_bools(items) + spec_enc_bool(x),
    decreases items.len(),
{
    if items.len() == 0 {
        assert(items.push(x)[0] == x);
        assert(items.push(x).skip(1) =~= Seq::<bool>::empty());
        assert(spec_enc_bools(Seq::<bool>::empty()) == Seq::<u8>::empty());
        assert(items =~= Seq::<bool>::empty());
        assert(spec_enc_bools(items.push(x)) =~= spec_enc_bools(items) + spec_enc_bool(x));
    } else {
        assert(items.push(x)[0] == items[0]);
        assert(items.push(x).skip(1) =~= items.skip(1).push(x));
        lemma_enc_bools_snoc(items.skip(1), x);
        assert(spec_enc_bools(items.push(x)) == spec_enc_bool(items[0]) + spec_enc_bools(
            items.skip(1).push(x),
        ));
        assert(spec_enc_bools(items.push(x)) =~= spec_enc_bools(items) + spec_enc_bool(x));
    }
}

pub proof fn lemma_dec_enc_bools(items: Seq<bool>, rest: Seq<u8>)
    ensures
        spec_dec_bools(spec_enc_bools(items) + rest, items.len()) == Some((items, rest)),
    decreases items.len(),
{
    if items.len() == 0 {
        assert(spec_enc_bools(items) + rest =~= rest);
        assert(items =~= Seq::<bool>::empty());
    } else {
        let tail = items.skip(1);
        assert(spec_enc_bools(items) + rest =~= spec_enc_bool(items[0]) + (spec_enc_bools(tail)
            + rest));
        lemma_dec_enc_bool(items[0], spec_enc_bools(tail) + rest);
        lemma_dec_enc_bools(tail, rest);
        assert(seq![items[0]] + tail =~= items);
    }
}

pub proof fn lemma_dec_enc_bool_list(items: Seq<bool>, rest: Seq<u8>)
    requires
        items.len() <= u32::MAX,
    ensures
        spec_dec_bool_list(spec_enc_bool_list(items) + rest) == Some((items, rest)),
{
    assert(spec_enc_bool_list(items) + rest =~= spec_enc_u32(items.len() as u32) + (spec_enc_bools(
        items,
    ) + rest));
    lemma_dec_enc_u32(items.len() as u32, spec_enc_bools(items) + rest);
    lemma_dec_enc_bools(items, rest);
}

pub fn enc_bool_list(out: &mut Vec<u8>, items: &Vec<bool>)
    requires
        items@.len() <= u32::MAX,
    ensures
        final(out)@ == old(out)@ + spec_enc_bool_list(items@),
{
    enc_u32(out, items.len() as u32);
    let ghost mid = out@;
    let mut i: usize = 0;
    while i < items.len()
        invariant
            i <= items@.len(),
            mid == old(out)@ + spec_enc_u32(items@.len() as u32),
            out@ == mid + spec_enc_bools(items@.take(i as int)),
        decreases items@.len() - i,
    {
        enc_bool(out, items[i]);
        proof {
            assert(items@.take(i as int).push(items@[i as int]) =~= items@.take(i as int + 1));
            lemma_enc_bools_snoc(items@.take(i as int), items@[i as int]);
            assert(out@ =~= mid + spec_enc_bools(items@.take(i as int + 1)));
        }
        i += 1;
    }
    proof {
        assert(items@.take(items@.len() as int) =~= items@);
        assert(final(out)@ =~= old(out)@ + spec_enc_bool_list(items@));
    }
}

pub open spec fn spec_prepend_bools(
    prefix: Seq<bool>,
    r: Option<(Seq<bool>, Seq<u8>)>,
) -> Option<(Seq<bool>, Seq<u8>)> {
    match r {
        Some((xs, rest)) => Some((prefix + xs, rest)),
        None => None,
    }
}

pub fn dec_bools(b: &Vec<u8>, pos: usize, n: u32) -> (r: Option<(Vec<bool>, usize)>)
    requires
        pos <= b@.len(),
    ensures
        (match r {
            Some((xs, next)) => {
                &&& pos <= next <= b@.len()
                &&& spec_dec_bools(b@.skip(pos as int), n as nat) == Some(
                    (xs@, b@.skip(next as int)),
                )
            },
            None => spec_dec_bools(b@.skip(pos as int), n as nat) is None,
        }),
{
    let mut acc: Vec<bool> = Vec::new();
    let mut cur: usize = pos;
    let mut i: u32 = 0;
    while i < n
        invariant
            pos <= cur <= b@.len(),
            i <= n,
            acc@.len() == i as nat,
            spec_dec_bools(b@.skip(pos as int), n as nat) == spec_prepend_bools(
                acc@,
                spec_dec_bools(b@.skip(cur as int), (n - i) as nat),
            ),
        decreases n - i,
    {
        let ghost acc_pre = acc@;
        let ghost cur_pre = cur;
        match dec_bool(b, cur) {
            Some((x, next)) => {
                acc.push(x);
                cur = next;
                proof {
                    let tail = spec_dec_bools(b@.skip(next as int), (n - i - 1) as nat);
                    assert(spec_dec_bools(b@.skip(cur_pre as int), (n - i) as nat)
                        == spec_prepend_bools(seq![x], tail));
                    match tail {
                        Some((xs, r2)) => {
                            assert(acc_pre + (seq![x] + xs) =~= acc@ + xs);
                        },
                        None => {},
                    }
                }
                i += 1;
            },
            None => {
                return None;
            },
        }
    }
    proof {
        assert(acc@ + Seq::<bool>::empty() =~= acc@);
    }
    Some((acc, cur))
}

pub fn dec_bool_list(b: &Vec<u8>, pos: usize) -> (r: Option<(Vec<bool>, usize)>)
    requires
        pos <= b@.len(),
    ensures
        (match r {
            Some((xs, next)) => {
                &&& pos <= next <= b@.len()
                &&& spec_dec_bool_list(b@.skip(pos as int)) == Some((xs@, b@.skip(next as int)))
            },
            None => spec_dec_bool_list(b@.skip(pos as int)) is None,
        }),
{
    match dec_u32(b, pos) {
        Some((n, mid)) => dec_bools(b, mid, n),
        None => None,
    }
}

} // verus!

verus! {

// byte-string lists (the carrier of string variables and logging categories).

/// The views of a vector of byte strings, element by element.
pub open spec fn bytes_views(items: Seq<Vec<u8>>) -> Seq<Seq<u8>> {
    Seq::new(items.len(), |i: int| items[i]@)
}

pub open spec fn spec_enc_bytess(items: Seq<Seq<u8>>) -> Seq<u8>
    decreases items.len(),
{
    if items.len() == 0 {
        Seq::empty()
    } else {
        spec_enc_bytes(items[0]) + spec_enc_bytess(items.skip(1))
    }
}

pub open spec fn spec_enc_bytes_list(items: Seq<Seq<u8>>) -> Seq<u8> {
    spec_enc_u32(items.len() as u32) + spec_enc_bytess(items)
}

pub open spec fn spec_dec_bytess(b: Seq<u8>, n: nat) -> Option<(Seq<Seq<u8>>, Seq<u8>)>
    decreases n,
{
    if n == 0 {
        Some((Seq::empty(), b))
    } else {
        match spec_dec_bytes(b) {
            Some((x, rest)) => match spec_dec_bytess(rest, (n - 1) as nat) {
                Some((xs, rest2)) => Some((seq![x] + xs, rest2)),
                None => None,
            },
            None => None,
        }
    }
}

pub open spec fn spec_dec_bytes_list(b: Seq<u8>) -> Option<(Seq<Seq<u8>>, Seq<u8>)> {
    match spec_dec_u32(b) {
        Some((n, rest)) => spec_dec_bytess(rest, n as nat),
        None => None,
    }
}

pub proof fn lemma_enc_bytess_snoc(items: Seq<Seq<u8>>, x: Seq<u8>)
    ensures
        spec_enc_bytess(items.push(x)) == spec_enc_bytess(items) + spec_enc_bytes(x),
    decreases items.len(),
{
    if items.len() == 0 {
        assert(items.push(x)[0] == x);
        assert(items.push(x).skip(1) =~= Seq::<Seq<u8>>::empty());
        assert(spec_enc_bytess(Seq::<Seq<u8>>::empty()) == Seq::<u8>::empty());
        assert(items =~= Seq::<Seq<u8>>::empty());
        assert(spec_enc_bytess(items.push(x)) =~= spec_enc_bytess(items) + spec_enc_bytes(x));
    } else {
        assert(items.push(x)[0] == items[0]);
        assert(items.push(x).skip(1) =~= items.skip(1).push(x));
        lemma_enc_bytess_snoc(items.skip(1), x);
        assert(spec_enc_bytess(items.push(x)) == spec_enc_bytes(items[0]) + spec_enc_bytess(
            items.skip(1).push(x),
        ));
        assert(spec_enc_bytess(items.push(x)) =~= spec_enc_bytess(items) + spec_enc_bytes(x));
    }
}

pub proof fn lemma_dec_enc_bytess(items: Seq<Seq<u8>>, rest: Seq<u8>)
    requires
        forall|i: int| 0 <= i < items.len() ==> #[trigger] items[i].len() <= u32::MAX,
    ensures
        spec_dec_bytess(spec_enc_bytess(items) + rest, items.len()) == Some((items, rest)),
    decreases items.len(),
{
    if items.len() == 0 {
        assert(spec_enc_bytess(items) + rest =~= rest);
        assert(items =~= Seq::<Seq<u8>>::empty());
    } else {
        let tail = items.skip(1);
        assert(spec_enc_bytess(items) + rest =~= spec_enc_bytes(items[0]) + (spec_enc_bytess(tail)
            + rest));
        lemma_dec_enc_bytes(items[0], spec_enc_bytess(tail) + rest);
        lemma_dec_enc_bytess(tail, rest);
        assert(seq![items[0]] + tail =~= items);
    }
}

pub proof fn lemma_dec_enc_bytes_list(items: Seq<Seq<u8>>, rest: Seq<u8>)
    requires
        items.len() <= u32::MAX,
        forall|i: int| 0 <= i < items.len() ==> #[trigger] items[i].len() <= u32::MAX,
    ensures
        spec_dec_bytes_list(spec_enc_bytes_list(items) + rest) == Some((items, rest)),
{
    assert(spec_enc_bytes_list(items) + rest =~= spec_enc_u32(items.len() as u32) + (
    spec_enc_bytess(items) + rest));
    lemma_dec_enc_u32(items.len() as u32, spec_enc_bytess(items) + rest);
    lemma_dec_enc_bytess(items, rest);
}

pub fn enc_bytes_list(out: &mut Vec<u8>, items: &Vec<Vec<u8>>)
    requires
        items@.len() <= u32::MAX,
        forall|i: int|
            0 <= i < items@.len() ==> #[trigger] bytes_views(items@)[i].len() <= u32::MAX,
    ensures
        final(out)@ == old(out)@ + spec_enc_bytes_list(bytes_views(items@)),
{
    enc_u32(out, items.len() as u32);
    let ghost mid = out@;
    let ghost views = bytes_views(items@);
    let mut i: usize = 0;
    while i < items.len()
        invariant
            i <= items@.len(),
            views == bytes_views(items@),
            forall|j: int| 0 <= j < items@.len() ==> #[trigger] views[j].len() <= u32::MAX,
            mid == old(out)@ + spec_enc_u32(items@.len() as u32),
            out@ == mid + spec_enc_bytess(views.take(i as int)),
        decreases items@.len() - i,
    {
        proof {
            assert(views[i as int] == items@[i as int]@);
            assert(views[i as int].len() <= u32::MAX);
        }
        enc_bytes(out, &items[i]);
        proof {
            assert(views.take(i as int).push(views[i as int]) =~= views.take(i as int + 1));
            lemma_enc_bytess_snoc(views.take(i as int), views[i as int]);
            assert(out@ =~= mid + spec_enc_bytess(views.take(i as int + 1)));
        }
        i += 1;
    }
    proof {
        assert(views.take(views.len() as int) =~= views);
        assert(final(out)@ =~= old(out)@ + spec_enc_bytes_list(views));
    }
}

pub open spec fn spec_prepend_bytess(
    prefix: Seq<Seq<u8>>,
    r: Option<(Seq<Seq<u8>>, Seq<u8>)>,
) -> Option<(Seq<Seq<u8>>, Seq<u8>)> {
    match r {
        Some((xs, rest)) => Some((prefix + xs, rest)),
        None => None,
    }
}

pub fn dec_bytess(b: &Vec<u8>, pos: usize, n: u32) -> (r: Option<(Vec<Vec<u8>>, usize)>)
    requires
        pos <= b@.len(),
    ensures
        (match r {
            Some((xs, next)) => {
                &&& pos <= next <= b@.len()
                &&& spec_dec_bytess(b@.skip(pos as int), n as nat) == Some(
                    (bytes_views(xs@), b@.skip(next as int)),
                )
            },
            None => spec_dec_bytess(b@.skip(pos as int), n as nat) is None,
        }),
{
    let mut acc: Vec<Vec<u8>> = Vec::new();
    let mut cur: usize = pos;
    let mut i: u32 = 0;
    while i < n
        invariant
            pos <= cur <= b@.len(),
            i <= n,
            acc@.len() == i as nat,
            spec_dec_bytess(b@.skip(pos as int), n as nat) == spec_prepend_bytess(
                bytes_views(acc@),
                spec_dec_bytess(b@.skip(cur as int), (n - i) as nat),
            ),
        decreases n - i,
    {
        let ghost acc_pre = acc@;
        let ghost cur_pre = cur;
        match dec_bytes(b, cur) {
            Some((x, next)) => {
                let ghost xv = x@;
                acc.push(x);
                cur = next;
                proof {
                    assert(bytes_views(acc@) =~= bytes_views(acc_pre).push(xv));
                    let tail = spec_dec_bytess(b@.skip(next as int), (n - i - 1) as nat);
                    assert(spec_dec_bytess(b@.skip(cur_pre as int), (n - i) as nat)
                        == spec_prepend_bytess(seq![xv], tail));
                    match tail {
                        Some((xs, r2)) => {
                            assert(bytes_views(acc_pre) + (seq![xv] + xs) =~= bytes_views(acc@)
                                + xs);
                        },
                        None => {},
                    }
                }
                i += 1;
            },
            None => {
                return None;
            },
        }
    }
    proof {
        assert(bytes_views(acc@) + Seq::<Seq<u8>>::empty() =~= bytes_views(acc@));
    }
    Some((acc, cur))
}

pub fn dec_bytes_list(b: &Vec<u8>, pos: usize) -> (r: Option<(Vec<Vec<u8>>, usize)>)
    requires
        pos <= b@.len(),
    ensures
        (match r {
            Some((xs, next)) => {
                &&& pos <= next <= b@.len()
                &&& spec_dec_bytes_list(b@.skip(pos as int)) == Some(
                    (bytes_views(xs@), b@.skip(next as int)),
                )
            },
            None => spec_dec_bytes_list(b@.skip(pos as int)) is None,
        }),
{
    match dec_u32(b, pos) {
        Some((n, mid)) => dec_bytess(b, mid, n),
        None => None,
    }
}

} // verus!

verus! {

// ------------------------------ optional u64 ------------------------------

// An optional value travels as a presence byte, followed by the value when
// the byte is 1. Only the bytes 0 and 1 mark presence.

pub open spec fn spec_enc_opt_u64(x: Option<u64>) -> Seq<u8> {
    match x {
        None => seq![0u8],
        Some(v) => seq![1u8] + spec_enc_u64(v),
    }
}

pub open spec fn spec_dec_opt_u64(b: Seq<u8>) -> Option<(Option<u64>, Seq<u8>)> {
    match spec_dec_u8(b) {
        Some((tag, rest)) => if tag == 0 {
            Some((None, rest))
        } else if tag == 1 {
            match spec_dec_u64(rest) {
                Some((v, rest2)) => Some((Some(v), rest2)),
                None => None,
            }
        } else {
            None
        },
        None => None,
    }
}

pub proof fn lemma_dec_enc_opt_u64(x: Option<u64>, rest: Seq<u8>)
    ensures
        spec_dec_opt_u64(spec_enc_opt_u64(x) + rest) == Some((x, rest)),
{
    match x {
        None => {
            lemma_dec_enc_u8(0, rest);
            assert(spec_enc_opt_u64(x) + rest =~= spec_enc_u8(0) + rest);
        },
        Some(v) => {
            assert(spec_enc_opt_u64(x) + rest =~= spec_enc_u8(1) + (spec_enc_u64(v) + rest));
            lemma_dec_enc_u8(1, spec_enc_u64(v) + rest);
            lemma_dec_enc_u64(v, rest);
        },
    }
}

pub fn enc_opt_u64(out: &mut Vec<u8>, x: Option<u64>)
    ensures
        final(out)@ == old(out)@ + spec_enc_opt_u64(x),
{
    match x {
        None => {
            enc_u8(out, 0);
        },
        Some(v) => {
            enc_u8(out, 1);
            enc_u64(out, v);
            proof {
                assert(final(out)@ =~= old(out)@ + spec_enc_opt_u64(x));
            }
        },
    }
}

pub fn dec_opt_u64(b: &Vec<u8>, pos: usize) -> (r: Option<(Option<u64>, usize)>)
    requires
        pos <= b@.len(),
    ensures
        (match r {
            Some((x, next)) => {
                &&& pos <= next <= b@.len()
                &&& spec_dec_opt_u64(b@.skip(pos as int)) == Some((x, b@.skip(next as int)))
            },
            None => spec_dec_opt_u64(b@.skip(pos as int)) is None,
        }),
{
    match dec_u8(b, pos) {
        Some((tag, mid)) => {
            if tag == 0 {
                Some((None, mid))
            } else if tag == 1 {
                match dec_u64(b, mid) {
                    Some((v, next)) => Some((Some(v), next)),
                    None => None,
                }
            } else {
                None
            }
        },
        None => None,
    }
}

} // verus!

verus! {

// ------------------------------ canonicity ------------------------------

// The decoders accept nothing but encodings: whatever suffix a decoder
// splits off, the bytes it consumed are exactly the encoding of the value
// it produced. Together with the round-trip lemmas this makes the wire
// format unambiguous in both directions.

pub proof fn lemma_enc_dec_u8(b: Seq<u8>)
    ensures
        (match spec_dec_u8(b) {
            Some((x, rest)) => b == spec_enc_u8(x) + rest,
            None => true,
        }),
{
    if b.len() >= 1 {
        assert(b =~= seq![b[0]] + b.skip(1));
    }
}

pub proof fn lemma_enc_dec_bool(b: Seq<u8>)
    ensures
        (match spec_dec_bool(b) {
            Some((x, rest)) => b == spec_enc_bool(x) + rest,
            None => true,
        }),
{
    if b.len() >= 1 && (b[0] == 0 || b[0] == 1) {
        assert(b =~= seq![b[0]] + b.skip(1));
    }
}

pub proof fn lemma_enc_dec_u32(b: Seq<u8>)
    ensures
        (match spec_dec_u32(b) {
            Some((x, rest)) => b == spec_enc_u32(x) + rest,
            None => true,
        }),
{
    if b.len() >= 4 {
        lemma_auto_spec_u32_to_from_le_bytes();
        assert(spec_enc_u32(spec_u32_from_le_bytes(b.take(4))) == b.take(4));
        assert(b =~= b.take(4) + b.skip(4));
    }
}

pub proof fn lemma_enc_dec_u64(b: Seq<u8>)
    ensures
        (match spec_dec_u64(b) {
            Some((x, rest)) => b == spec_enc_u64(x) + rest,
            None => true,
        }),
{
    if b.len() >= 8 {
        lemma_auto_spec_u64_to_from_le_bytes();
        assert(spec_enc_u64(spec_u64_from_le_bytes(b.take(8))) == b.take(8));
        assert(b =~= b.take(8) + b.skip(8));
    }
}

pub proof fn lemma_enc_dec_i32(b: Seq<u8>)
    ensures
        (match spec_dec_i32(b) {
            Some((x, rest)) => b == spec_enc_i32(x) + rest,
            None => true,
        }),
{
    lemma_enc_dec_u32(b);
    match spec_dec_u32(b) {
        Some((x, _rest)) => {
            assert(((x as i32) as u32) == x) by (bit_vector);
        },
        None => {},
    }
}

pub proof fn lemma_enc_dec_opt_u64(b: Seq<u8>)
    ensures
        (match spec_dec_opt_u64(b) {
            Some((x, rest)) => b == spec_enc_opt_u64(x) + rest,
            None => true,
        }),
{
    lemma_enc_dec_u8(b);
    match spec_dec_u8(b) {
        Some((tag, r0)) => {
            if tag == 0 {
                assert(b =~= spec_enc_opt_u64(None) + r0);
            } else if tag == 1 {
                lemma_enc_dec_u64(r0);
                match spec_dec_u64(r0) {
                    Some((v, r1)) => {
                        assert(b =~= spec_enc_opt_u64(Some(v)) + r1);
                    },
                    None => {},
                }
            }
        },
        None => {},
    }
}

pub proof fn lemma_enc_dec_bytes(b: Seq<u8>)
    ensures
        (match spec_dec_bytes(b) {
            Some((s, rest)) => b == spec_enc_bytes(s) + rest && s.len() <= u32::MAX,
            None => true,
        }),
{
    lemma_enc_dec_u32(b);
    match spec_dec_u32(b) {
        Some((n, r0)) => {
            if r0.len() >= n {
                let s = r0.take(n as int);
                assert(s.len() == n);
                assert(r0 =~= s + r0.skip(n as int));
                assert(b =~= spec_enc_u32(n) + (s + r0.skip(n as int)));
                assert(b =~= (spec_enc_u32(s.len() as u32) + s) + r0.skip(n as int));
            }
        },
        None => {},
    }
}

pub proof fn lemma_enc_dec_u32s(b: Seq<u8>, n: nat)
    ensures
        (match spec_dec_u32s(b, n) {
            Some((xs, rest)) => xs.len() == n && b == spec_enc_u32s(xs) + rest,
            None => true,
        }),
    decreases n,
{
    if n == 0 {
        assert(b =~= spec_enc_u32s(Seq::<u32>::empty()) + b);
    } else {
        lemma_enc_dec_u32(b);
        match spec_dec_u32(b) {
            Some((x, r0)) => {
                lemma_enc_dec_u32s(r0, (n - 1) as nat);
                match spec_dec_u32s(r0, (n - 1) as nat) {
                    Some((xs, r1)) => {
                        let whole = seq![x] + xs;
                        assert(whole[0] == x);
                        assert(whole.skip(1) =~= xs);
                        assert(spec_enc_u32s(whole) == spec_enc_u32(x) + spec_enc_u32s(xs));
                        assert(b =~= spec_enc_u32(x) + (spec_enc_u32s(xs) + r1));
                        assert(b =~= spec_enc_u32s(whole) + r1);
                    },
                    None => {},
                }
            },
            None => {},
        }
    }
}

pub proof fn lemma_enc_dec_u32_list(b: Seq<u8>)
    ensures
        (match spec_dec_u32_list(b) {
            Some((xs, rest)) => xs.len() <= u32::MAX && b == spec_enc_u32_list(xs) + rest,
            None => true,
        }),
{
    lemma_enc_dec_u32(b);
    match spec_dec_u32(b) {
        Some((n, r0)) => {
            lemma_enc_dec_u32s(r0, n as nat);
            match spec_dec_u32s(r0, n as nat) {
                Some((xs, r1)) => {
                    assert(xs.len() as u32 == n);
                    assert(b =~= spec_enc_u32(n) + (spec_enc_u32s(xs) + r1));
                    assert(b =~= spec_enc_u32_list(xs) + r1);
                },
                None => {},
            }
        },
        None => {},
    }
}

pub proof fn lemma_enc_dec_u64s(b: Seq<u8>, n: nat)
    ensures
        (match spec_dec_u64s(b, n) {
            Some((xs, rest)) => xs.len() == n && b == spec_enc_u64s(xs) + rest,
            None => true,
        }),
    decreases n,
{
    if n == 0 {
        assert(b =~= spec_enc_u64s(Seq::<u64>::empty()) + b);
    } else {
        lemma_enc_dec_u64(b);
        match spec_dec_u64(b) {
            Some((x, r0)) => {
                lemma_enc_dec_u64s(r0, (n - 1) as nat);
                match spec_dec_u64s(r0, (n - 1) as nat) {
                    Some((xs, r1)) => {
                        let whole = seq![x] + xs;
                        assert(whole[0] == x);
                        assert(whole.skip(1) =~= xs);
                        assert(spec_enc_u64s(whole) == spec_enc_u64(x) + spec_enc_u64s(xs));
                        assert(b =~= spec_enc_u64(x) + (spec_enc_u64s(xs) + r1));
                        assert(b =~= spec_enc_u64s(whole) + r1);
                    },
                    None => {},
                }
            },
            None => {},
        }
    }
}

pub proof fn lemma_enc_dec_u64_list(b: Seq<u8>)
    ensures
        (match spec_dec_u64_list(b) {
            Some((xs, rest)) => xs.len() <= u32::MAX && b == spec_enc_u64_list(xs) + rest,
            None => true,
        }),
{
    lemma_enc_dec_u32(b);
    match spec_dec_u32(b) {
        Some((n, r0)) => {
            lemma_enc_dec_u64s(r0, n as nat);
            match spec_dec_u64s(r0, n as nat) {
                Some((xs, r1)) => {
                    assert(xs.len() as u32 == n);
                    assert(b =~= spec_enc_u32(n) + (spec_enc_u64s(xs) + r1));
                    assert(b =~= spec_enc_u64_list(xs) + r1);
                },
                None => {},
            }
        },
        None => {},
    }
}

pub proof fn lemma_enc_dec_i32s(b: Seq<u8>, n: nat)
    ensures
        (match spec_dec_i32s(b, n) {
            Some((xs, rest)) => xs.len() == n && b == spec_enc_i32s(xs) + rest,
            None => true,
        }),
    decreases n,
{
    if n == 0 {
        assert(b =~= spec_enc_i32s(Seq::<i32>::empty()) + b);
    } else {
        lemma_enc_dec_i32(b);
        match spec_dec_i32(b) {
            Some((x, r0)) => {
                lemma_enc_dec_i32s(r0, (n - 1) as nat);
                match spec_dec_i32s(r0, (n - 1) as nat) {
                    Some((xs, r1)) => {
                        let whole = seq![x] + xs;
                        assert(whole[0] == x);
                        assert(whole.skip(1) =~= xs);
                        assert(spec_enc_i32s(whole) == spec_enc_i32(x) + spec_enc_i32s(xs));
                        assert(b =~= spec_enc_i32(x) + (spec_enc_i32s(xs) + r1));
                        assert(b =~= spec_enc_i32s(whole) + r1);
                    },
                    None => {},
                }
            },
            None => {},
        }
    }
}

pub proof fn lemma_enc_dec_i32_list(b: Seq<u8>)
    ensures
        (match spec_dec_i32_list(b) {
            Some((xs, rest)) => xs.len() <= u32::MAX && b == spec_enc_i32_list(xs) + rest,
            None => true,
        }),
{
    lemma_enc_dec_u32(b);
    match spec_dec_u32(b) {
        Some((n, r0)) => {
            lemma_enc_dec_i32s(r0, n as nat);
            match spec_dec_i32s(r0, n as nat) {
                Some((xs, r1)) => {
                    assert(xs.len() as u32 == n);
                    assert(b =~= spec_enc_u32(n) + (spec_enc_i32s(xs) + r1));
                    assert(b =~= spec_enc_i32_list(xs) + r1);
                },
                None => {},
            }
        },
        None => {},
    }
}

pub proof fn lemma_enc_dec_bools(b: Seq<u8>, n: nat)
    ensures
        (match spec_dec_bools(b, n) {
            Some((xs, rest)) => xs.len() == n && b == spec_enc_bools(xs) + rest,
            None => true,
        }),
    decreases n,
{
    if n == 0 {
        assert(b =~= spec_enc_bools(Seq::<bool>::empty()) + b);
    } else {
        lemma_enc_dec_bool(b);
        match spec_dec_bool(b) {
            Some((x, r0)) => {
                lemma_enc_dec_bools(r0, (n - 1) as nat);
                match spec_dec_bools(r0, (n - 1) as nat) {
                    Some((xs, r1)) => {
                        let whole = seq![x] + xs;
                        assert(whole[0] == x);
                        assert(whole.skip(1) =~= xs);
                        assert(spec_enc_bools(whole) == spec_enc_bool(x) + spec_enc_bools(xs));
                        assert(b =~= spec_enc_bool(x) + (spec_enc_bools(xs) + r1));
                        assert(b =~= spec_enc_bools(whole) + r1);
                    },
                    None => {},
                }
            },
            None => {},
        }
    }
}

pub proof fn lemma_enc_dec_bool_list(b: Seq<u8>)
    ensures
        (match spec_dec_bool_list(b) {
            Some((xs, rest)) => xs.len() <= u32::MAX && b == spec_enc_bool_list(xs) + rest,
            None => true,
        }),
{
    lemma_enc_dec_u32(b);
    match spec_dec_u32(b) {
        Some((n, r0)) => {
            lemma_enc_dec_bools(r0, n as nat);
            match spec_dec_bools(r0, n as nat) {
                Some((xs, r1)) => {
                    assert(xs.len() as u32 == n);
                    assert(b =~= spec_enc_u32(n) + (spec_enc_bools(xs) + r1));
                    assert(b =~= spec_enc_bool_list(xs) + r1);
                },
                None => {},
            }
        },
        None => {},
    }
}

pub proof fn lemma_enc_dec_bytess(b: Seq<u8>, n: nat)
    ensures
        (match spec_dec_bytess(b, n) {
            Some((xs, rest)) => {
                &&& xs.len() == n
                &&& b == spec_enc_bytess(xs) + rest
                &&& forall|i: int| 0 <= i < xs.len() ==> #[trigger] xs[i].len() <= u32::MAX
            },
            None => true,
        }),
    decreases n,
{
    if n == 0 {
        assert(b =~= spec_enc_bytess(Seq::<Seq<u8>>::empty()) + b);
    } else {
        lemma_enc_dec_bytes(b);
        match spec_dec_bytes(b) {
            Some((x, r0)) => {
                lemma_enc_dec_bytess(r0, (n - 1) as nat);
                match spec_dec_bytess(r0, (n - 1) as nat) {
                    Some((xs, r1)) => {
                        let whole = seq![x] + xs;
                        assert(whole[0] == x);
                        assert(whole.skip(1) =~= xs);
                        assert(spec_enc_bytess(whole) == spec_enc_bytes(x) + spec_enc_bytess(xs));
                        assert(b =~= spec_enc_bytes(x) + (spec_enc_bytess(xs) + r1));
                        assert(b =~= spec_enc_bytess(whole) + r1);
                        assert forall|i: int|
                            0 <= i < whole.len() implies #[trigger] whole[i].len()
                            <= u32::MAX by {
                            if i > 0 {
                                assert(whole[i] == xs[i - 1]);
                            }
                        }
                    },
                    None => {},
                }
            },
            None => {},
        }
    }
}

pub proof fn lemma_enc_dec_bytes_list(b: Seq<u8>)
    ensures
        (match spec_dec_bytes_list(b) {
            Some((xs, rest)) => {
                &&& xs.len() <= u32::MAX
                &&& b == spec_enc_bytes_list(xs) + rest
                &&& forall|i: int| 0 <= i < xs.len() ==> #[trigger] xs[i].len() <= u32::MAX
            },
            None => true,
        }),
{
    lemma_enc_dec_u32(b);
    match spec_dec_u32(b) {
        Some((n, r0)) => {
            lemma_enc_dec_bytess(r0, n as nat);
            match spec_dec_bytess(r0, n as nat) {
                Some((xs, r1)) => {
                    assert(xs.len() as u32 == n);
                    assert(b =~= spec_enc_u32(n) + (spec_enc_bytess(xs) + r1));
                    assert(b =~= spec_enc_bytes_list(xs) + r1);
                },
                None => {},
            }
        },
        None => {},
    }
}

} // verus!
