//! Decoding a prefix of a term's encoding.
//!
//! A decoder reads no byte past the end of the value it decodes, and reads
//! every byte up to it before it checks anything but lengths: cut anywhere
//! inside a value, the encoding fails as truncated; cut after it, it decodes
//! to the same value.
use vstd::prelude::*;

use crate::atom::AtomCacheKey;
use crate::error::ErrorModel;
use crate::ext::{
    decode_atom_text, decode_big, decode_binary, decode_cache_ref, decode_list, decode_node_name,
    decode_pid, decode_reference, decode_scalar, decode_seq, decode_string, decode_term,
    decode_tuple, is_compound, Decoded, ATOM_CACHE_REF, ATOM_UTF8_EXT, BINARY_EXT, FLOAT_EXT,
    FLOAT_TEXT_LEN, INTEGER_EXT, LARGE_BIG_EXT, LARGE_TUPLE_EXT, NEW_FLOAT_EXT, NEW_PID_EXT,
    NIL_EXT, PID_EXT, REFERENCE_EXT, SMALL_ATOM_UTF8_EXT, SMALL_BIG_EXT, SMALL_INTEGER_EXT,
    SMALL_TUPLE_EXT, STRING_EXT,
};
use crate::term::TermModel;

verus! {

/// A successful decode hands back a suffix of its input.
pub open spec fn consumes<T>(b: Seq<u8>, d: Decoded<T>) -> bool {
    match d {
        Ok((rest, _)) => rest.len() <= b.len() && rest == b.skip(b.len() - rest.len()),
        Err(_) => true,
    }
}

/// What decoding the first `k` bytes of `b` gives, where decoding `b` gave `d`.
pub open spec fn on_prefix<T>(b: Seq<u8>, k: nat, d: Decoded<T>) -> Decoded<T> {
    match d {
        Ok((rest, v)) => {
            let c = b.len() - rest.len();
            if k < c {
                Err(ErrorModel::TruncatedInput)
            } else {
                Ok((b.subrange(c, k as int), v))
            }
        },
        Err(e) => Err(e),
    }
}

proof fn lemma_take_skip(b: Seq<u8>, j: int, k: int)
    requires
        0 <= j <= k <= b.len(),
    ensures
        b.take(k).take(j) == b.take(j),
        b.take(k).skip(j) == b.subrange(j, k),
        b.skip(j).take(k - j) == b.subrange(j, k),
        b.take(k).subrange(j, k) == b.subrange(j, k),
{
    assert(b.take(k).take(j) =~= b.take(j));
    assert(b.take(k).skip(j) =~= b.subrange(j, k));
    assert(b.skip(j).take(k - j) =~= b.subrange(j, k));
    assert(b.take(k).subrange(j, k) =~= b.subrange(j, k));
}

/// `b` with its first `s` bytes skipped, seen through a prefix of `b`.
proof fn lemma_shift<T>(b: Seq<u8>, s: int, k: nat, d: Decoded<T>)
    requires
        0 <= s <= k <= b.len(),
        consumes(b.skip(s), d),
    ensures
        b.take(k as int).skip(s) == b.skip(s).take(k - s),
        on_prefix(b.skip(s), (k - s) as nat, d) == on_prefix(b, k, d),
        consumes(b, d),
{
    lemma_take_skip(b, s, k as int);
    match d {
        Ok((rest, v)) => {
            let c = b.skip(s).len() - rest.len();
            assert(b.skip(s).skip(c) =~= b.skip(c + s));
            if k - s >= c {
                assert(b.skip(s).subrange(c, k - s) =~= b.subrange(c + s, k as int));
            }
        },
        Err(_) => {},
    }
}

proof fn lemma_fixed<T>(r: Seq<u8>, w: int, k: nat)
    requires
        0 <= w <= r.len(),
        k <= r.len(),
    ensures
        k >= w ==> r.take(k as int).take(w) == r.take(w),
        k >= w ==> r.take(k as int).skip(w) == r.subrange(w, k as int),
        r.skip(w) == r.skip(r.len() - r.skip(w).len()),
{
    if k >= w {
        lemma_take_skip(r, w, k as int);
    }
}

proof fn lemma_atom_text(r: Seq<u8>, width: nat, k: nat)
    requires
        k <= r.len(),
        decode_atom_text(r, width) is Ok,
    ensures
        consumes(r, decode_atom_text(r, width)),
        decode_atom_text(r.take(k as int), width) == on_prefix(r, k, decode_atom_text(r, width)),
{
    let w = width as int;
    let n = crate::read::be_value(r.take(w)) as int;
    let r1 = r.skip(w);
    assert(r1.skip(n) =~= r.skip(w + n));
    if k >= w {
        lemma_take_skip(r, w, k as int);
        let cut_rest = r.take(k as int).skip(w);
        if k >= w + n {
            lemma_take_skip(r1, n, k - w);
            assert(cut_rest.take(n) =~= r1.take(n));
            assert(cut_rest.skip(n) =~= r.subrange(w + n, k as int));
        }
    }
}

proof fn lemma_byte_run(r: Seq<u8>, w: int, n: int, k: nat)
    requires
        0 <= w,
        0 <= n,
        w + n <= r.len(),
        k <= r.len(),
    ensures
        r.skip(w + n) == r.skip(r.len() - r.skip(w + n).len()),
        r.skip(w).skip(n) == r.skip(w + n),
        r.skip(w).take(n) == r.subrange(w, w + n),
        k >= w ==> r.take(k as int).take(w) == r.take(w),
        k >= w ==> r.take(k as int).skip(w).len() == k - w,
        k >= w ==> r.take(k as int).skip(w) == r.subrange(w, k as int),
        k >= w + n ==> r.take(k as int).skip(w).take(n) == r.subrange(w, w + n),
        k >= w + n ==> r.take(k as int).skip(w).skip(n) == r.subrange(w + n, k as int),
{
    assert(r.skip(w).skip(n) =~= r.skip(w + n));
    assert(r.skip(w).take(n) =~= r.subrange(w, w + n));
    if k >= w {
        lemma_take_skip(r, w, k as int);
    }
    if k >= w + n {
        assert(r.take(k as int).skip(w).take(n) =~= r.subrange(w, w + n));
        assert(r.take(k as int).skip(w).skip(n) =~= r.subrange(w + n, k as int));
    }
}

proof fn lemma_scalar(
    tag: u8,
    r: Seq<u8>,
    cache: Map<AtomCacheKey, Seq<char>>,
    refs: Seq<AtomCacheKey>,
    k: nat,
)
    requires
        k <= r.len(),
        !is_compound(tag),
        decode_scalar(tag, r, cache, refs) is Ok,
    ensures
        consumes(r, decode_scalar(tag, r, cache, refs)),
        decode_scalar(tag, r.take(k as int), cache, refs) == on_prefix(r, k, decode_scalar(tag, r, cache, refs)),
{
    let p = r.take(k as int);
    if tag == NIL_EXT {
        assert(r.skip(0) =~= r);
        assert(r.subrange(0, k as int) =~= p);
    } else if tag == SMALL_INTEGER_EXT || tag == ATOM_CACHE_REF {
        lemma_byte_run(r, 1, 0, k);
        assert(r.skip(1).skip(0) =~= r.skip(1));
        if k >= 1 {
            assert(p[0] == r[0]);
            assert(p.skip(1) =~= r.subrange(1, k as int));
        }
    } else if tag == INTEGER_EXT {
        lemma_byte_run(r, 4, 0, k);
    } else if tag == NEW_FLOAT_EXT {
        lemma_byte_run(r, 8, 0, k);
    } else if tag == FLOAT_EXT {
        lemma_byte_run(r, FLOAT_TEXT_LEN as int, 0, k);
    } else if tag == SMALL_BIG_EXT || tag == LARGE_BIG_EXT {
        let w: int = if tag == SMALL_BIG_EXT { 1 } else { 4 };
        let n = crate::read::be_value(r.take(w)) as int;
        lemma_byte_run(r, w + 1, n, k);
        if k >= w + 1 {
            lemma_take_skip(r, w, k as int);
            assert(p.take(w) =~= r.take(w));
            assert(p[w] == r[w]);
        }
    } else if tag == ATOM_UTF8_EXT || tag == SMALL_ATOM_UTF8_EXT {
        lemma_atom_text(r, if tag == ATOM_UTF8_EXT { 2 } else { 1 }, k);
    } else if tag == STRING_EXT {
        let n = crate::read::be_value(r.take(2)) as int;
        lemma_byte_run(r, 2, n, k);
    } else if tag == BINARY_EXT {
        let n = crate::read::be_value(r.take(4)) as int;
        lemma_byte_run(r, 4, n, k);
    }
}

proof fn lemma_node_name(
    b: Seq<u8>,
    cache: Map<AtomCacheKey, Seq<char>>,
    refs: Seq<AtomCacheKey>,
    depth: nat,
    k: nat,
)
    requires
        k <= b.len(),
        decode_node_name(b, cache, refs, depth) is Ok,
    ensures
        consumes(b, decode_node_name(b, cache, refs, depth)),
        decode_node_name(b.take(k as int), cache, refs, depth) == on_prefix(b, k, decode_node_name(b, cache, refs, depth)),
    decreases depth, 0nat, 0nat,
{
    lemma_term(b, cache, refs, (depth - 1) as nat, k);
}

/// The fields after a node name: `r` is what follows the name in `b`, cut at `k`.
proof fn lemma_after_name(b: Seq<u8>, c: int, k: int, m: int)
    requires
        0 <= c <= k <= b.len(),
        0 <= m,
        c + m <= b.len(),
    ensures
        b.skip(c).skip(m) == b.skip(c + m),
        m <= k - c ==> b.subrange(c, k).take(m) == b.skip(c).take(m),
        m <= k - c ==> b.subrange(c, k).skip(m) == b.subrange(c + m, k),
        b.skip(c).take(k - c) == b.subrange(c, k),
{
    assert(b.skip(c).skip(m) =~= b.skip(c + m));
    assert(b.skip(c).take(k - c) =~= b.subrange(c, k));
    if m <= k - c {
        assert(b.subrange(c, k).take(m) =~= b.skip(c).take(m));
        assert(b.subrange(c, k).skip(m) =~= b.subrange(c + m, k));
    }
}

proof fn lemma_pid(
    b: Seq<u8>,
    width: nat,
    cache: Map<AtomCacheKey, Seq<char>>,
    refs: Seq<AtomCacheKey>,
    depth: nat,
    k: nat,
)
    requires
        k <= b.len(),
        decode_pid(b, width, cache, refs, depth) is Ok,
    ensures
        consumes(b, decode_pid(b, width, cache, refs, depth)),
        decode_pid(b.take(k as int), width, cache, refs, depth) == on_prefix(b, k, decode_pid(b, width, cache, refs, depth)),
    decreases depth, 1nat, 0nat,
{
    lemma_node_name(b, cache, refs, depth, k);
    let r = decode_node_name(b, cache, refs, depth)->Ok_0.0;
    let c = b.len() - r.len();
    let w = width as int;
    lemma_after_name(b, c, if k >= c { k as int } else { c }, 8 + w);
    if k >= c + 8 + w {
        let p = b.subrange(c, k as int);
        assert(p.take(8 + w) =~= r.take(8 + w));
        assert(p.take(4) =~= r.take(4));
        assert(p.subrange(4, 8) =~= r.subrange(4, 8));
        assert(p.subrange(8, 8 + w) =~= r.subrange(8, 8 + w));
    }
}

proof fn lemma_reference(
    b: Seq<u8>,
    cache: Map<AtomCacheKey, Seq<char>>,
    refs: Seq<AtomCacheKey>,
    depth: nat,
    k: nat,
)
    requires
        k <= b.len(),
        decode_reference(b, cache, refs, depth) is Ok,
    ensures
        consumes(b, decode_reference(b, cache, refs, depth)),
        decode_reference(b.take(k as int), cache, refs, depth) == on_prefix(b, k, decode_reference(b, cache, refs, depth)),
    decreases depth, 1nat, 0nat,
{
    lemma_node_name(b, cache, refs, depth, k);
    let r = decode_node_name(b, cache, refs, depth)->Ok_0.0;
    let c = b.len() - r.len();
    lemma_after_name(b, c, if k >= c { k as int } else { c }, 5);
    if k >= c + 5 {
        let p = b.subrange(c, k as int);
        assert(p.take(4) =~= r.take(4));
        assert(p[4] == r[4]);
    }
}

proof fn lemma_seq(
    b: Seq<u8>,
    n: nat,
    cache: Map<AtomCacheKey, Seq<char>>,
    refs: Seq<AtomCacheKey>,
    depth: nat,
    k: nat,
)
    requires
        k <= b.len(),
        decode_seq(b, n, cache, refs, depth) is Ok,
    ensures
        consumes(b, decode_seq(b, n, cache, refs, depth)),
        decode_seq(b.take(k as int), n, cache, refs, depth) == on_prefix(b, k, decode_seq(b, n, cache, refs, depth)),
    decreases depth, 0nat, n,
{
    if n == 0 {
        assert(b.skip(0) =~= b);
        assert(b.subrange(0, k as int) =~= b.take(k as int));
    } else {
        lemma_term(b, cache, refs, (depth - 1) as nat, k);
        let r1 = decode_term(b, cache, refs, (depth - 1) as nat)->Ok_0.0;
        let c1 = b.len() - r1.len();
        let j: nat = if k >= c1 { (k - c1) as nat } else { 0 };
        lemma_seq(r1, (n - 1) as nat, cache, refs, depth, j);
        lemma_shift(b, c1, if k >= c1 { k } else { c1 as nat }, decode_seq(r1, (n - 1) as nat, cache, refs, depth));
        if k >= c1 {
            lemma_take_skip(b, c1, k as int);
        }
    }
}

proof fn lemma_tuple(
    b: Seq<u8>,
    width: nat,
    cache: Map<AtomCacheKey, Seq<char>>,
    refs: Seq<AtomCacheKey>,
    depth: nat,
    k: nat,
)
    requires
        k <= b.len(),
        decode_tuple(b, width, cache, refs, depth) is Ok,
    ensures
        consumes(b, decode_tuple(b, width, cache, refs, depth)),
        decode_tuple(b.take(k as int), width, cache, refs, depth) == on_prefix(b, k, decode_tuple(b, width, cache, refs, depth)),
    decreases depth, 1nat, 0nat,
{
    let w = width as int;
    let n = crate::read::be_value(b.take(w));
    let j: nat = if k >= w { (k - w) as nat } else { 0 };
    lemma_seq(b.skip(w), n, cache, refs, depth, j);
    lemma_shift(b, w, if k >= w { k } else { width }, decode_seq(b.skip(w), n, cache, refs, depth));
    if k >= w {
        lemma_take_skip(b, w, k as int);
    }
}

proof fn lemma_list(
    b: Seq<u8>,
    cache: Map<AtomCacheKey, Seq<char>>,
    refs: Seq<AtomCacheKey>,
    depth: nat,
    k: nat,
)
    requires
        k <= b.len(),
        decode_list(b, cache, refs, depth) is Ok,
    ensures
        consumes(b, decode_list(b, cache, refs, depth)),
        decode_list(b.take(k as int), cache, refs, depth) == on_prefix(b, k, decode_list(b, cache, refs, depth)),
    decreases depth, 1nat, 0nat,
{
    let n = crate::read::be_value(b.take(4)) + 1;
    let j: nat = if k >= 4 { (k - 4) as nat } else { 0 };
    lemma_seq(b.skip(4), n, cache, refs, depth, j);
    lemma_shift(b, 4, if k >= 4 { k } else { 4 }, decode_seq(b.skip(4), n, cache, refs, depth));
    if k >= 4 {
        lemma_take_skip(b, 4, k as int);
    }
}

proof fn lemma_term(
    b: Seq<u8>,
    cache: Map<AtomCacheKey, Seq<char>>,
    refs: Seq<AtomCacheKey>,
    depth: nat,
    k: nat,
)
    requires
        k <= b.len(),
        decode_term(b, cache, refs, depth) is Ok,
    ensures
        consumes(b, decode_term(b, cache, refs, depth)),
        decode_term(b.take(k as int), cache, refs, depth) == on_prefix(b, k, decode_term(b, cache, refs, depth)),
    decreases depth, 2nat, 0nat,
{
    let tag = b[0];
    let r = b.skip(1);
    let j: nat = if k >= 1 { (k - 1) as nat } else { 0 };
    let kk: nat = if k >= 1 { k } else { 1 };
    if !is_compound(tag) {
        lemma_scalar(tag, r, cache, refs, j);
        lemma_shift(b, 1, kk, decode_scalar(tag, r, cache, refs));
    } else if tag == PID_EXT || tag == NEW_PID_EXT {
        let w: nat = if tag == PID_EXT { 1 } else { 4 };
        lemma_pid(r, w, cache, refs, depth, j);
        lemma_shift(b, 1, kk, decode_pid(r, w, cache, refs, depth));
    } else if tag == REFERENCE_EXT {
        lemma_reference(r, cache, refs, depth, j);
        lemma_shift(b, 1, kk, decode_reference(r, cache, refs, depth));
    } else if tag == SMALL_TUPLE_EXT || tag == LARGE_TUPLE_EXT {
        let w: nat = if tag == SMALL_TUPLE_EXT { 1 } else { 4 };
        lemma_tuple(r, w, cache, refs, depth, j);
        lemma_shift(b, 1, kk, decode_tuple(r, w, cache, refs, depth));
    } else {
        lemma_list(r, cache, refs, depth, j);
        lemma_shift(b, 1, kk, decode_list(r, cache, refs, depth));
    }
    if k >= 1 {
        assert(b.take(k as int)[0] == tag);
    }
}

/// Every cut inside a term's encoding fails as truncated: where decoding `b`
/// gives a term and the bytes after it, decoding any shorter prefix of `b`
/// that ends before those bytes fails with `TruncatedInput`.
pub proof fn lemma_truncated_term_fails(
    b: Seq<u8>,
    cache: Map<AtomCacheKey, Seq<char>>,
    refs: Seq<AtomCacheKey>,
    depth: nat,
    k: nat,
)
    requires
        decode_term(b, cache, refs, depth) is Ok,
        k < b.len() - decode_term(b, cache, refs, depth)->Ok_0.0.len(),
    ensures
        decode_term(b.take(k as int), cache, refs, depth) == Err::<(Seq<u8>, TermModel), ErrorModel>(
            ErrorModel::TruncatedInput,
        ),
{
    lemma_term(b, cache, refs, depth, k);
}

} // verus!
