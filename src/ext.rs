//! The external term format: a tagged, self-describing binary encoding of terms.
//!
//! `decode_term` states what decoding means on a byte sequence; `read_term`
//! decodes and is proved to agree with it on every input.
use vstd::prelude::*;
use vstd::slice::slice_to_vec;

use crate::atom::{atom_from_utf8, find_null, first_null, Atom, AtomCache, AtomCacheKey};
use crate::error::{Error, ErrorModel};
use crate::ident::{Node, NodeModel, Pid, PidModel, Reference, ReferenceModel, NODE_SERIAL_MAX, PID_ID_MAX, PID_SERIAL_MAX};
use crate::read::{be_i32, be_u16, be_u32, be_u64, be_u8, be_value, take};
use crate::term::{kind_of, lemma_term_models_push, term_model, term_models, Term, TermModel};

verus! {

pub const NEW_FLOAT_EXT: u8 = 70;
pub const ATOM_CACHE_REF: u8 = 82;
pub const NEW_PID_EXT: u8 = 88;
pub const SMALL_INTEGER_EXT: u8 = 97;
pub const INTEGER_EXT: u8 = 98;
pub const FLOAT_EXT: u8 = 99;
pub const REFERENCE_EXT: u8 = 101;
pub const PID_EXT: u8 = 103;
pub const SMALL_TUPLE_EXT: u8 = 104;
pub const LARGE_TUPLE_EXT: u8 = 105;
pub const NIL_EXT: u8 = 106;
pub const STRING_EXT: u8 = 107;
pub const LIST_EXT: u8 = 108;
pub const BINARY_EXT: u8 = 109;
pub const SMALL_BIG_EXT: u8 = 110;
pub const LARGE_BIG_EXT: u8 = 111;
pub const ATOM_UTF8_EXT: u8 = 118;
pub const SMALL_ATOM_UTF8_EXT: u8 = 119;

/// The width of the printed text of a float in the older encoding.
pub const FLOAT_TEXT_LEN: usize = 31;

/// How deep `read_term` lets terms nest.
pub const DEFAULT_MAX_DEPTH: usize = 512;

/// What a decoder gives: the bytes after the value and the value, or an error.
pub type Decoded<T> = Result<(Seq<u8>, T), ErrorModel>;

/// The mathematical outcome of an executable decoder's result.
pub open spec fn outcome<T: View>(r: Result<(&[u8], T), Error>) -> Decoded<T::V> {
    match r {
        Ok((rest, v)) => Ok((rest@, v@)),
        Err(e) => Err(e@),
    }
}

/// `s` up to its first null byte.
pub open spec fn until_null(s: Seq<u8>) -> Seq<u8> {
    match first_null(s) {
        Some(n) => s.take(n as int),
        None => s,
    }
}

/// A length read from the wire, where it fits in `usize`.
pub open spec fn fits_usize(n: nat) -> bool {
    n <= usize::MAX
}

/// An atom's text after a `width`-byte length.
pub open spec fn decode_atom_text(b: Seq<u8>, width: nat) -> Decoded<Seq<char>> {
    if b.len() < width {
        Err(ErrorModel::TruncatedInput)
    } else {
        let n = be_value(b.take(width as int));
        let r = b.skip(width as int);
        if r.len() < n {
            Err(ErrorModel::TruncatedInput)
        } else {
            match atom_from_utf8(r.take(n as int)) {
                Ok(a) => Ok((r.skip(n as int), a)),
                Err(e) => Err(e),
            }
        }
    }
}

/// A big integer after its tag: a `width`-byte digit count, a sign byte, the digits.
pub open spec fn decode_big(b: Seq<u8>, width: nat) -> Decoded<TermModel> {
    if b.len() < width + 1 {
        Err(ErrorModel::TruncatedInput)
    } else {
        let n = be_value(b.take(width as int));
        let negative = b[width as int] != 0;
        let r = b.skip(width + 1int);
        if !fits_usize(n) {
            Err(ErrorModel::LenOutOfRange(n as u64))
        } else if r.len() < n {
            Err(ErrorModel::TruncatedInput)
        } else {
            Ok((r.skip(n as int), TermModel::BigInteger { negative, digits: r.take(n as int) }))
        }
    }
}

/// An atom cache reference after its tag: one byte that indexes the
/// references of the distribution header.
pub open spec fn decode_cache_ref(
    b: Seq<u8>,
    cache: Map<AtomCacheKey, Seq<char>>,
    refs: Seq<AtomCacheKey>,
) -> Decoded<TermModel> {
    if b.len() < 1 {
        Err(ErrorModel::TruncatedInput)
    } else {
        let i = b[0];
        if i >= refs.len() || !cache.contains_key(refs[i as int]) {
            Err(ErrorModel::UnresolvedAtomCacheReference(i))
        } else {
            Ok((b.skip(1), TermModel::Atom(cache[refs[i as int]])))
        }
    }
}

/// A term that must be an atom, naming a node.
pub open spec fn decode_node_name(
    b: Seq<u8>,
    cache: Map<AtomCacheKey, Seq<char>>,
    refs: Seq<AtomCacheKey>,
    depth: nat,
) -> Decoded<Seq<char>>
    decreases depth, 0nat, 0nat,
{
    if depth == 0 {
        Err(ErrorModel::NestingTooDeep)
    } else {
        match decode_term(b, cache, refs, (depth - 1) as nat) {
            Err(e) => Err(e),
            Ok((r, TermModel::Atom(name))) => Ok((r, name)),
            Ok((_, t)) => Err(ErrorModel::NodeIsNotAnAtom(kind_of(t))),
        }
    }
}

/// A process id after its tag: a node name, a 4-byte id, a 4-byte serial and a
/// `width`-byte creation.
pub open spec fn decode_pid(
    b: Seq<u8>,
    width: nat,
    cache: Map<AtomCacheKey, Seq<char>>,
    refs: Seq<AtomCacheKey>,
    depth: nat,
) -> Decoded<TermModel>
    decreases depth, 1nat, 0nat,
{
    match decode_node_name(b, cache, refs, depth) {
        Err(e) => Err(e),
        Ok((r, name)) => if r.len() < 8 + width {
            Err(ErrorModel::TruncatedInput)
        } else {
            let id = be_value(r.take(4)) as u32;
            let serial = be_value(r.subrange(4, 8)) as u32;
            let creation = be_value(r.subrange(8, 8 + width as int)) as u32;
            let rest = r.skip(8 + width as int);
            if creation > NODE_SERIAL_MAX {
                Err(ErrorModel::NodeSerialNumberOutOfRange(name, creation))
            } else {
                let node = NodeModel { name, serial_number: creation as u8 };
                if id <= PID_ID_MAX && serial <= PID_SERIAL_MAX {
                    Ok((rest, TermModel::Pid(PidModel { node, id: id as u16, serial: serial as u16 })))
                } else {
                    Err(ErrorModel::PidOutOfRange(node, id, serial))
                }
            }
        },
    }
}

/// A reference after its tag: a node name, a 4-byte id and a 1-byte creation.
pub open spec fn decode_reference(
    b: Seq<u8>,
    cache: Map<AtomCacheKey, Seq<char>>,
    refs: Seq<AtomCacheKey>,
    depth: nat,
) -> Decoded<TermModel>
    decreases depth, 1nat, 0nat,
{
    match decode_node_name(b, cache, refs, depth) {
        Err(e) => Err(e),
        Ok((r, name)) => if r.len() < 5 {
            Err(ErrorModel::TruncatedInput)
        } else {
            let id = be_value(r.take(4)) as u32;
            let creation = r[4] as u32;
            if creation > NODE_SERIAL_MAX {
                Err(ErrorModel::NodeSerialNumberOutOfRange(name, creation))
            } else {
                let node = NodeModel { name, serial_number: creation as u8 };
                Ok((r.skip(5), TermModel::Reference(ReferenceModel { node, id })))
            }
        },
    }
}

/// `n` terms, one after another.
pub open spec fn decode_seq(
    b: Seq<u8>,
    n: nat,
    cache: Map<AtomCacheKey, Seq<char>>,
    refs: Seq<AtomCacheKey>,
    depth: nat,
) -> Decoded<Seq<TermModel>>
    decreases depth, 0nat, n,
{
    if n == 0 {
        Ok((b, Seq::empty()))
    } else if depth == 0 {
        Err(ErrorModel::NestingTooDeep)
    } else {
        match decode_term(b, cache, refs, (depth - 1) as nat) {
            Err(e) => Err(e),
            Ok((r, t)) => match decode_seq(r, (n - 1) as nat, cache, refs, depth) {
                Err(e) => Err(e),
                Ok((r2, ts)) => Ok((r2, seq![t] + ts)),
            },
        }
    }
}

/// A tuple after its tag: a `width`-byte arity, then that many terms.
pub open spec fn decode_tuple(
    b: Seq<u8>,
    width: nat,
    cache: Map<AtomCacheKey, Seq<char>>,
    refs: Seq<AtomCacheKey>,
    depth: nat,
) -> Decoded<TermModel>
    decreases depth, 1nat, 0nat,
{
    if b.len() < width {
        Err(ErrorModel::TruncatedInput)
    } else {
        let n = be_value(b.take(width as int));
        if !fits_usize(n) {
            Err(ErrorModel::LenOutOfRange(n as u64))
        } else {
            match decode_seq(b.skip(width as int), n, cache, refs, depth) {
                Err(e) => Err(e),
                Ok((r, ts)) => Ok((r, TermModel::Tuple(ts))),
            }
        }
    }
}

/// A list after its tag: a 4-byte length `n`, then `n` elements and a tail.
pub open spec fn decode_list(
    b: Seq<u8>,
    cache: Map<AtomCacheKey, Seq<char>>,
    refs: Seq<AtomCacheKey>,
    depth: nat,
) -> Decoded<TermModel>
    decreases depth, 1nat, 0nat,
{
    if b.len() < 4 {
        Err(ErrorModel::TruncatedInput)
    } else {
        let n = be_value(b.take(4)) + 1;
        if !fits_usize(n) {
            Err(ErrorModel::LenOutOfRange(n as u64))
        } else {
            match decode_seq(b.skip(4), n, cache, refs, depth) {
                Err(e) => Err(e),
                Ok((r, ts)) => Ok((r, TermModel::List(ts))),
            }
        }
    }
}

/// Bytes as a list of small integers.
pub open spec fn byte_terms(s: Seq<u8>) -> Seq<TermModel> {
    Seq::new(s.len(), |i: int| TermModel::Integer(s[i] as int))
}

/// A string after its tag: a 2-byte length, then that many bytes.
pub open spec fn decode_string(b: Seq<u8>) -> Decoded<TermModel> {
    if b.len() < 2 {
        Err(ErrorModel::TruncatedInput)
    } else {
        let n = be_value(b.take(2));
        let r = b.skip(2);
        if r.len() < n {
            Err(ErrorModel::TruncatedInput)
        } else {
            Ok((r.skip(n as int), TermModel::List(byte_terms(r.take(n as int)))))
        }
    }
}

/// A binary after its tag: a 4-byte length, then that many bytes.
pub open spec fn decode_binary(b: Seq<u8>) -> Decoded<TermModel> {
    if b.len() < 4 {
        Err(ErrorModel::TruncatedInput)
    } else {
        let n = be_value(b.take(4));
        let r = b.skip(4);
        if !fits_usize(n) {
            Err(ErrorModel::LenOutOfRange(n as u64))
        } else if r.len() < n {
            Err(ErrorModel::TruncatedInput)
        } else {
            Ok((r.skip(n as int), TermModel::Binary(r.take(n as int))))
        }
    }
}

/// A scalar term after its tag: one that holds no other term.
pub open spec fn decode_scalar(
    tag: u8,
    r: Seq<u8>,
    cache: Map<AtomCacheKey, Seq<char>>,
    refs: Seq<AtomCacheKey>,
) -> Decoded<TermModel> {
    if tag == NIL_EXT {
        Ok((r, TermModel::Nil))
    } else if tag == SMALL_INTEGER_EXT {
        if r.len() < 1 {
            Err(ErrorModel::TruncatedInput)
        } else {
            Ok((r.skip(1), TermModel::Integer(r[0] as int)))
        }
    } else if tag == INTEGER_EXT {
        if r.len() < 4 {
            Err(ErrorModel::TruncatedInput)
        } else {
            Ok((r.skip(4), TermModel::Integer(((be_value(r.take(4)) as u32) as i32) as int)))
        }
    } else if tag == SMALL_BIG_EXT {
        decode_big(r, 1)
    } else if tag == LARGE_BIG_EXT {
        decode_big(r, 4)
    } else if tag == FLOAT_EXT {
        if r.len() < FLOAT_TEXT_LEN {
            Err(ErrorModel::TruncatedInput)
        } else {
            Ok((r.skip(FLOAT_TEXT_LEN as int), TermModel::FloatText(until_null(r.take(FLOAT_TEXT_LEN as int)))))
        }
    } else if tag == NEW_FLOAT_EXT {
        if r.len() < 8 {
            Err(ErrorModel::TruncatedInput)
        } else {
            Ok((r.skip(8), TermModel::Float(be_value(r.take(8)) as u64)))
        }
    } else if tag == ATOM_UTF8_EXT || tag == SMALL_ATOM_UTF8_EXT {
        match decode_atom_text(r, if tag == ATOM_UTF8_EXT { 2 } else { 1 }) {
            Ok((rest, a)) => Ok((rest, TermModel::Atom(a))),
            Err(e) => Err(e),
        }
    } else if tag == ATOM_CACHE_REF {
        decode_cache_ref(r, cache, refs)
    } else if tag == STRING_EXT {
        decode_string(r)
    } else if tag == BINARY_EXT {
        decode_binary(r)
    } else {
        Err(ErrorModel::UnknownTermTag(tag))
    }
}

/// Whether a tag introduces a term that holds other terms.
pub open spec fn is_compound(tag: u8) -> bool {
    tag == PID_EXT || tag == NEW_PID_EXT || tag == REFERENCE_EXT || tag == SMALL_TUPLE_EXT
        || tag == LARGE_TUPLE_EXT || tag == LIST_EXT
}

/// Whether `tag` starts a term that `decode_term` knows.
pub open spec fn is_known_tag(tag: u8) -> bool {
    is_compound(tag) || tag == NIL_EXT || tag == SMALL_INTEGER_EXT || tag == INTEGER_EXT
        || tag == SMALL_BIG_EXT || tag == LARGE_BIG_EXT || tag == FLOAT_EXT || tag == NEW_FLOAT_EXT
        || tag == ATOM_UTF8_EXT || tag == SMALL_ATOM_UTF8_EXT || tag == ATOM_CACHE_REF
        || tag == STRING_EXT || tag == BINARY_EXT
}

/// What decoding one term from the front of `b` gives. Terms that hold other
/// terms may do so `depth` levels deep.
pub open spec fn decode_term(
    b: Seq<u8>,
    cache: Map<AtomCacheKey, Seq<char>>,
    refs: Seq<AtomCacheKey>,
    depth: nat,
) -> Decoded<TermModel>
    decreases depth, 2nat, 0nat,
{
    if b.len() == 0 {
        Err(ErrorModel::TruncatedInput)
    } else {
        let tag = b[0];
        let r = b.skip(1);
        if !is_compound(tag) {
            decode_scalar(tag, r, cache, refs)
        } else if depth == 0 {
            Err(ErrorModel::NestingTooDeep)
        } else if tag == PID_EXT {
            decode_pid(r, 1, cache, refs, depth)
        } else if tag == NEW_PID_EXT {
            decode_pid(r, 4, cache, refs, depth)
        } else if tag == REFERENCE_EXT {
            decode_reference(r, cache, refs, depth)
        } else if tag == SMALL_TUPLE_EXT {
            decode_tuple(r, 1, cache, refs, depth)
        } else if tag == LARGE_TUPLE_EXT {
            decode_tuple(r, 4, cache, refs, depth)
        } else {
            decode_list(r, cache, refs, depth)
        }
    }
}

} // verus!

verus! {

/// Relies on `num_traits::cast` from `u64` to `usize`: `Some` of the same
/// number exactly when it fits in `usize`.
#[verifier::external_body]
fn cast_len(value: u64) -> (r: Option<usize>)
    ensures
        r == (if value <= usize::MAX { Some(value as usize) } else { None::<usize> }),
{
    num_traits::cast::<u64, usize>(value)
}

/// A length read from the wire, as a `usize`.
fn len_of(value: u64) -> (r: Result<usize, Error>)
    ensures
        match r {
            Ok(n) => fits_usize(value as nat) && n == value,
            Err(e) => !fits_usize(value as nat) && e@ == ErrorModel::LenOutOfRange(value),
        },
{
    match cast_len(value) {
        Some(n) => Ok(n),
        None => Err(Error::LenOutOfRange(value)),
    }
}

proof fn lemma_be_value_one(s: Seq<u8>)
    requires
        s.len() == 1,
    ensures
        be_value(s) == s[0] as nat,
{
    reveal_with_fuel(be_value, 2);
    assert(s.drop_last() =~= Seq::<u8>::empty());
}

/// The width of a node's creation field.
#[derive(Debug, Copy, Clone)]
enum CreationFormat {
    Old,
    New,
}

impl CreationFormat {
    spec fn width(self) -> nat {
        match self {
            CreationFormat::Old => 1,
            CreationFormat::New => 4,
        }
    }

    fn read(self, input: &[u8]) -> (r: Result<(&[u8], u32), Error>)
        ensures
            match r {
                Ok((rest, v)) => input@.len() >= self.width() && v as nat == be_value(
                    input@.take(self.width() as int),
                ) && rest@ == input@.skip(self.width() as int),
                Err(e) => input@.len() < self.width() && e@ == ErrorModel::TruncatedInput,
            },
    {
        match self {
            CreationFormat::Old => {
                let (rest, v) = be_u8(input)?;
                proof { lemma_be_value_one(input@.take(1)); }
                Ok((rest, v as u32))
            },
            CreationFormat::New => be_u32(input),
        }
    }
}

/// The width of an atom's length field.
#[derive(Debug, Copy, Clone)]
pub enum AtomSizeFormat {
    Small,
    Regular,
}

impl AtomSizeFormat {
    pub open spec fn width(self) -> nat {
        match self {
            AtomSizeFormat::Small => 1,
            AtomSizeFormat::Regular => 2,
        }
    }

    /// Reads an atom's byte length.
    pub fn read(self, input: &[u8]) -> (r: Result<(&[u8], usize), Error>)
        ensures
            match r {
                Ok((rest, n)) => input@.len() >= self.width() && n as nat == be_value(
                    input@.take(self.width() as int),
                ) && rest@ == input@.skip(self.width() as int),
                Err(e) => input@.len() < self.width() && e@ == ErrorModel::TruncatedInput,
            },
    {
        match self {
            AtomSizeFormat::Small => {
                let (rest, v) = be_u8(input)?;
                proof { lemma_be_value_one(input@.take(1)); }
                Ok((rest, v as usize))
            },
            AtomSizeFormat::Regular => {
                let (rest, v) = be_u16(input)?;
                Ok((rest, v as usize))
            },
        }
    }
}

/// The width of a tuple's arity field.
#[derive(Debug, Copy, Clone)]
enum TupleSizeFormat {
    Small,
    Large,
}

impl TupleSizeFormat {
    spec fn width(self) -> nat {
        match self {
            TupleSizeFormat::Small => 1,
            TupleSizeFormat::Large => 4,
        }
    }

    fn read(self, input: &[u8]) -> (r: Result<(&[u8], usize), Error>)
        ensures
            match r {
                Ok((rest, n)) => input@.len() >= self.width() && n as nat == be_value(
                    input@.take(self.width() as int),
                ) && rest@ == input@.skip(self.width() as int),
                Err(e) => if input@.len() < self.width() {
                    e@ == ErrorModel::TruncatedInput
                } else {
                    !fits_usize(be_value(input@.take(self.width() as int)))
                        && e@ == ErrorModel::LenOutOfRange(
                        be_value(input@.take(self.width() as int)) as u64,
                    )
                },
            },
    {
        match self {
            TupleSizeFormat::Small => {
                let (rest, v) = be_u8(input)?;
                proof { lemma_be_value_one(input@.take(1)); }
                Ok((rest, v as usize))
            },
            TupleSizeFormat::Large => {
                let (rest, v) = be_u32(input)?;
                let n = len_of(v as u64)?;
                Ok((rest, n))
            },
        }
    }
}

/// Reads an atom's length in `size_format`, then its UTF-8 bytes.
pub(crate) fn read_atom_text<'a>(input: &'a [u8], size_format: AtomSizeFormat) -> (r: Result<(&'a [u8], Atom), Error>)
    ensures
        outcome(r) == decode_atom_text(input@, size_format.width()),
{
    let (rest, size) = size_format.read(input)?;
    let (rest, atom_bytes) = take(rest, size)?;
    let atom = Atom::from_utf8(atom_bytes)?;
    Ok((rest, atom))
}

fn read_atom_utf8<'a>(input: &'a [u8], size_format: AtomSizeFormat) -> (r: Result<(&'a [u8], Term), Error>)
    ensures
        outcome(r) == match decode_atom_text(input@, size_format.width()) {
            Ok((rest, a)) => Ok((rest, TermModel::Atom(a))),
            Err(e) => Err(e),
        },
{
    let (rest, atom) = read_atom_text(input, size_format)?;
    Ok((rest, Term::Atom(atom)))
}

fn read_big<'a>(input: &'a [u8], large: bool) -> (r: Result<(&'a [u8], Term), Error>)
    ensures
        outcome(r) == decode_big(input@, if large { 4 } else { 1 }),
{
    let (rest, n) = if large {
        let (rest, n) = be_u32(input)?;
        (rest, n as u64)
    } else {
        let (rest, n) = be_u8(input)?;
        proof { lemma_be_value_one(input@.take(1)); }
        (rest, n as u64)
    };
    let (rest, sign) = be_u8(rest)?;
    let len = len_of(n)?;
    let (rest, digits) = take(rest, len)?;
    let ghost w: int = if large { 4 } else { 1 };
    assert(input@.skip(w).skip(1) =~= input@.skip(w + 1));
    assert(input@.skip(w)[0] == input@[w]);
    Ok((rest, Term::BigInteger { negative: sign != 0, digits: slice_to_vec(digits) }))
}

fn read_float_text<'a>(input: &'a [u8]) -> (r: Result<(&'a [u8], Term), Error>)
    ensures
        outcome(r) == (if input@.len() < FLOAT_TEXT_LEN {
            Err(ErrorModel::TruncatedInput)
        } else {
            Ok((input@.skip(FLOAT_TEXT_LEN as int), TermModel::FloatText(until_null(input@.take(FLOAT_TEXT_LEN as int)))))
        }),
{
    let (rest, text) = take(input, FLOAT_TEXT_LEN)?;
    let text = match find_null(text) {
        Some(n) => text.split_at(n).0,
        None => text,
    };
    Ok((rest, Term::FloatText(slice_to_vec(text))))
}

fn read_cache_ref<'a>(input: &'a [u8], atom_cache: &AtomCache, references: &[AtomCacheKey]) -> (r: Result<(&'a [u8], Term), Error>)
    ensures
        outcome(r) == decode_cache_ref(input@, atom_cache@, references@),
{
    let (rest, index) = be_u8(input)?;
    if (index as usize) < references.len() {
        match atom_cache.get(references[index as usize]) {
            Some(atom) => Ok((rest, Term::Atom(atom.duplicate()))),
            None => Err(Error::UnresolvedAtomCacheReference(index)),
        }
    } else {
        Err(Error::UnresolvedAtomCacheReference(index))
    }
}

fn read_string<'a>(input: &'a [u8]) -> (r: Result<(&'a [u8], Term), Error>)
    ensures
        outcome(r) == decode_string(input@),
{
    let (rest, len) = be_u16(input)?;
    let (rest, bytes) = take(rest, len as usize)?;
    let mut elements: Vec<Term> = Vec::new();
    let mut i: usize = 0;
    while i < bytes.len()
        invariant
            i <= bytes@.len(),
            elements@.len() == i,
            term_models(elements@, elements@.len()) =~= byte_terms(bytes@).take(i as int),
        decreases bytes@.len() - i,
    {
        let t = Term::Integer(bytes[i] as i32);
        proof { lemma_term_models_push(elements@, t); }
        elements.push(t);
        i = i + 1;
    }
    assert(byte_terms(bytes@).take(i as int) =~= byte_terms(bytes@));
    Ok((rest, Term::List(elements)))
}

fn read_binary<'a>(input: &'a [u8]) -> (r: Result<(&'a [u8], Term), Error>)
    ensures
        outcome(r) == decode_binary(input@),
{
    let (rest, len) = be_u32(input)?;
    let len = len_of(len as u64)?;
    let (rest, bytes) = take(rest, len)?;
    Ok((rest, Term::Binary(slice_to_vec(bytes))))
}

fn read_scalar<'a>(tag: u8, input: &'a [u8], atom_cache: &AtomCache, references: &[AtomCacheKey]) -> (r: Result<(&'a [u8], Term), Error>)
    ensures
        outcome(r) == decode_scalar(tag, input@, atom_cache@, references@),
{
    if tag == NIL_EXT {
        Ok((input, Term::Nil))
    } else if tag == SMALL_INTEGER_EXT {
        let (rest, v) = be_u8(input)?;
        Ok((rest, Term::Integer(v as i32)))
    } else if tag == INTEGER_EXT {
        let (rest, v) = be_i32(input)?;
        Ok((rest, Term::Integer(v)))
    } else if tag == SMALL_BIG_EXT {
        read_big(input, false)
    } else if tag == LARGE_BIG_EXT {
        read_big(input, true)
    } else if tag == FLOAT_EXT {
        read_float_text(input)
    } else if tag == NEW_FLOAT_EXT {
        let (rest, bits) = be_u64(input)?;
        Ok((rest, Term::Float(bits)))
    } else if tag == ATOM_UTF8_EXT {
        read_atom_utf8(input, AtomSizeFormat::Regular)
    } else if tag == SMALL_ATOM_UTF8_EXT {
        read_atom_utf8(input, AtomSizeFormat::Small)
    } else if tag == ATOM_CACHE_REF {
        read_cache_ref(input, atom_cache, references)
    } else if tag == STRING_EXT {
        read_string(input)
    } else if tag == BINARY_EXT {
        read_binary(input)
    } else {
        Err(Error::UnknownTermTag(tag))
    }
}

} // verus!

verus! {

/// A term whose tag is unknown fails with that tag, whatever follows it: the
/// decoder looks at no byte past the tag.
pub proof fn lemma_unknown_tag_fails(
    tag: u8,
    tail: Seq<u8>,
    cache: Map<AtomCacheKey, Seq<char>>,
    refs: Seq<AtomCacheKey>,
    depth: nat,
)
    requires
        !is_known_tag(tag),
    ensures
        decode_term(seq![tag] + tail, cache, refs, depth) == Err::<(Seq<u8>, TermModel), ErrorModel>(
            ErrorModel::UnknownTermTag(tag),
        ),
{
    assert((seq![tag] + tail)[0] == tag);
}

/// `p` in front of the terms that `r` decoded.
pub open spec fn prepend(p: Seq<TermModel>, r: Decoded<Seq<TermModel>>) -> Decoded<Seq<TermModel>> {
    match r {
        Ok((rest, ts)) => Ok((rest, p + ts)),
        Err(e) => Err(e),
    }
}

fn read_node_name<'a>(input: &'a [u8], atom_cache: &AtomCache, references: &[AtomCacheKey], depth: usize) -> (r: Result<(&'a [u8], Atom), Error>)
    ensures
        outcome(r) == decode_node_name(input@, atom_cache@, references@, depth as nat),
    decreases depth, 0nat, 0nat,
{
    if depth == 0 {
        return Err(Error::NestingTooDeep);
    }
    match read_term_with_depth(input, atom_cache, references, depth - 1) {
        Ok((rest, Term::Atom(name))) => Ok((rest, name)),
        Ok((_, term)) => Err(Error::NodeIsNotAnAtom(term.kind())),
        Err(e) => Err(e),
    }
}

fn read_pid<'a>(input: &'a [u8], creation_format: CreationFormat, atom_cache: &AtomCache, references: &[AtomCacheKey], depth: usize) -> (r: Result<(&'a [u8], Term), Error>)
    ensures
        outcome(r) == decode_pid(input@, creation_format.width(), atom_cache@, references@, depth as nat),
    decreases depth, 1nat, 0nat,
{
    let (r0, name) = read_node_name(input, atom_cache, references, depth)?;
    let (r1, id) = be_u32(r0)?;
    let (r2, serial) = be_u32(r1)?;
    let (rest, creation) = creation_format.read(r2)?;
    let ghost w = creation_format.width() as int;
    assert(r0@.skip(4).take(4) =~= r0@.subrange(4, 8));
    assert(r0@.skip(8).take(w) =~= r0@.subrange(8, 8 + w));
    assert(r0@.skip(4).skip(4) =~= r0@.skip(8));
    assert(r0@.skip(8).skip(w) =~= r0@.skip(8 + w));
    let node = Node::new(name, creation)?;
    let pid = Pid::new(node, id, serial)?;
    Ok((rest, Term::Pid(pid)))
}

fn read_reference<'a>(input: &'a [u8], atom_cache: &AtomCache, references: &[AtomCacheKey], depth: usize) -> (r: Result<(&'a [u8], Term), Error>)
    ensures
        outcome(r) == decode_reference(input@, atom_cache@, references@, depth as nat),
    decreases depth, 1nat, 0nat,
{
    let (r0, name) = read_node_name(input, atom_cache, references, depth)?;
    let (r1, id) = be_u32(r0)?;
    let (rest, creation) = be_u8(r1)?;
    assert(r0@.skip(4).skip(1) =~= r0@.skip(5));
    assert(r0@.skip(4)[0] == r0@[4]);
    let node = Node::new(name, creation as u32)?;
    Ok((rest, Term::Reference(Reference { node, id })))
}

/// Reads `n` terms one after another.
fn read_terms<'a>(input: &'a [u8], n: usize, atom_cache: &AtomCache, references: &[AtomCacheKey], depth: usize) -> (r: Result<(&'a [u8], Vec<Term>), Error>)
    ensures
        match r {
            Ok((rest, ts)) => decode_seq(input@, n as nat, atom_cache@, references@, depth as nat)
                == Ok::<(Seq<u8>, Seq<TermModel>), ErrorModel>((rest@, term_models(ts@, ts@.len()))),
            Err(e) => decode_seq(input@, n as nat, atom_cache@, references@, depth as nat)
                == Err::<(Seq<u8>, Seq<TermModel>), ErrorModel>(e@),
        },
    decreases depth, 0nat, 0nat,
{
    if n == 0 {
        let v: Vec<Term> = Vec::new();
        assert(term_models(v@, 0) =~= Seq::<TermModel>::empty());
        return Ok((input, v));
    }
    if depth == 0 {
        return Err(Error::NestingTooDeep);
    }
    let mut elements: Vec<Term> = Vec::new();
    let mut rest = input;
    let mut i: usize = 0;
    assert(prepend(Seq::empty(), decode_seq(input@, n as nat, atom_cache@, references@, depth as nat))
        =~= decode_seq(input@, n as nat, atom_cache@, references@, depth as nat)) by {
        match decode_seq(input@, n as nat, atom_cache@, references@, depth as nat) {
            Ok((r, ts)) => { assert(Seq::<TermModel>::empty() + ts =~= ts); },
            Err(_) => {},
        }
    }
    while i < n
        invariant
            i <= n,
            depth > 0,
            elements@.len() == i,
            decode_seq(input@, n as nat, atom_cache@, references@, depth as nat) == prepend(
                term_models(elements@, elements@.len()),
                decode_seq(rest@, (n - i) as nat, atom_cache@, references@, depth as nat),
            ),
        decreases n - i,
    {
        let ghost before = term_models(elements@, elements@.len());
        let ghost tail = decode_seq(rest@, (n - i) as nat, atom_cache@, references@, depth as nat);
        match read_term_with_depth(rest, atom_cache, references, depth - 1) {
            Ok((next, t)) => {
                let ghost later = decode_seq(next@, (n - i - 1) as nat, atom_cache@, references@, depth as nat);
                proof {
                    lemma_term_models_push(elements@, t);
                    match later {
                        Ok((r2, ts)) => {
                            assert(before.push(term_model(t)) + ts =~= before + (seq![term_model(t)] + ts));
                        },
                        Err(_) => {},
                    }
                }
                elements.push(t);
                rest = next;
                i = i + 1;
            },
            Err(e) => {
                return Err(e);
            },
        }
    }
    assert(decode_seq(rest@, 0, atom_cache@, references@, depth as nat) == Ok::<(Seq<u8>, Seq<TermModel>), ErrorModel>((rest@, Seq::empty())));
    assert(term_models(elements@, elements@.len()) + Seq::<TermModel>::empty() =~= term_models(elements@, elements@.len()));
    Ok((rest, elements))
}

fn read_tuple<'a>(input: &'a [u8], size_format: TupleSizeFormat, atom_cache: &AtomCache, references: &[AtomCacheKey], depth: usize) -> (r: Result<(&'a [u8], Term), Error>)
    ensures
        outcome(r) == decode_tuple(input@, size_format.width(), atom_cache@, references@, depth as nat),
    decreases depth, 1nat, 0nat,
{
    let (rest, len) = size_format.read(input)?;
    let (rest, elements) = read_terms(rest, len, atom_cache, references, depth)?;
    Ok((rest, Term::Tuple(elements)))
}

fn read_list<'a>(input: &'a [u8], atom_cache: &AtomCache, references: &[AtomCacheKey], depth: usize) -> (r: Result<(&'a [u8], Term), Error>)
    ensures
        outcome(r) == decode_list(input@, atom_cache@, references@, depth as nat),
    decreases depth, 1nat, 0nat,
{
    let (rest, len) = be_u32(input)?;
    let len_with_tail = len_of(len as u64 + 1)?;
    let (rest, elements) = read_terms(rest, len_with_tail, atom_cache, references, depth)?;
    Ok((rest, Term::List(elements)))
}

/// Decodes one term from the front of `input`, letting terms nest at most
/// `depth` levels deep; `Ok` holds the bytes after it and the term.
pub fn read_term_with_depth<'a>(input: &'a [u8], atom_cache: &AtomCache, references: &[AtomCacheKey], depth: usize) -> (r: Result<(&'a [u8], Term), Error>)
    ensures
        outcome(r) == decode_term(input@, atom_cache@, references@, depth as nat),
    decreases depth, 2nat, 0nat,
{
    let (rest, tag) = be_u8(input)?;
    if !(tag == PID_EXT || tag == NEW_PID_EXT || tag == REFERENCE_EXT || tag == SMALL_TUPLE_EXT
        || tag == LARGE_TUPLE_EXT || tag == LIST_EXT) {
        read_scalar(tag, rest, atom_cache, references)
    } else if depth == 0 {
        Err(Error::NestingTooDeep)
    } else if tag == PID_EXT {
        read_pid(rest, CreationFormat::Old, atom_cache, references, depth)
    } else if tag == NEW_PID_EXT {
        read_pid(rest, CreationFormat::New, atom_cache, references, depth)
    } else if tag == REFERENCE_EXT {
        read_reference(rest, atom_cache, references, depth)
    } else if tag == SMALL_TUPLE_EXT {
        read_tuple(rest, TupleSizeFormat::Small, atom_cache, references, depth)
    } else if tag == LARGE_TUPLE_EXT {
        read_tuple(rest, TupleSizeFormat::Large, atom_cache, references, depth)
    } else {
        read_list(rest, atom_cache, references, depth)
    }
}

/// Decodes one term from the front of `input`. Atom cache references resolve
/// through `references`, the keys that the message's distribution header
/// declared, in order.
pub fn read_term<'a>(input: &'a [u8], atom_cache: &AtomCache, references: &[AtomCacheKey]) -> (r: Result<(&'a [u8], Term), Error>)
    ensures
        outcome(r) == decode_term(input@, atom_cache@, references@, DEFAULT_MAX_DEPTH as nat),
{
    read_term_with_depth(input, atom_cache, references, DEFAULT_MAX_DEPTH)
}

} // verus!
