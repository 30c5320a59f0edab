//! Atoms and the per-connection atom cache.
use std::collections::HashMap;
use vstd::prelude::*;
use vstd::slice::slice_to_vec;
use vstd::utf8::{decode_utf8, valid_utf8};

use crate::error::Error;

verus! {

broadcast use vstd::std_specs::hash::group_hash_axioms;

/// A constant name of at most 255 Unicode scalar values.
#[derive(Debug, Clone, PartialEq, Eq)]
pub struct Atom(pub(crate) String);

impl View for Atom {
    type V = Seq<char>;

    closed spec fn view(&self) -> Seq<char> {
        self.0@
    }
}

/// One of the eight segments of an atom cache.
#[derive(Copy, Clone, Debug, PartialEq, Eq, Structural, Hash)]
pub enum AtomCacheSegment {
    S0,
    S1,
    S2,
    S3,
    S4,
    S5,
    S6,
    S7,
}

/// A slot of an atom cache: a segment and an index inside it.
#[derive(Copy, Clone, Debug, PartialEq, Eq, Structural, Hash)]
pub struct AtomCacheKey {
    pub segment_index: AtomCacheSegment,
    pub internal_index: u8,
}

/// A connection's table of atoms, keyed by cache slot.
///
/// The map is keyed by the slot's number (`AtomCacheKey::code`).
#[derive(Debug, Clone)]
pub struct AtomCache {
    pub(crate) entries: HashMap<u16, Atom>,
}


/// The most Unicode scalar values an atom may hold.
pub const MAX_ATOM_LEN: usize = 255;

/// Relies on `std::str::from_utf8`: it accepts exactly the valid UTF-8 byte
/// sequences, and the text then holds the scalar values they encode.
#[verifier::external_body]
fn utf8_text(bytes: &[u8]) -> (r: Option<String>)
    ensures
        r is Some <==> valid_utf8(bytes@),
        r matches Some(s) ==> s@ == decode_utf8(bytes@),
{
    match std::str::from_utf8(bytes) {
        Ok(s) => Some(s.to_string()),
        Err(_) => None,
    }
}

/// What `Atom::from_utf8` gives on `bytes`.
pub open spec fn atom_from_utf8(bytes: Seq<u8>) -> Result<Seq<char>, crate::error::ErrorModel> {
    if !valid_utf8(bytes) {
        Err(crate::error::ErrorModel::InvalidUtf8)
    } else if decode_utf8(bytes).len() > MAX_ATOM_LEN {
        Err(
            crate::error::ErrorModel::AtomLengthOutOfRange(
                decode_utf8(bytes),
                decode_utf8(bytes).len() as usize,
            ),
        )
    } else {
        Ok(decode_utf8(bytes))
    }
}

/// The position of the first null byte of `b`, if any.
pub open spec fn first_null(b: Seq<u8>) -> Option<nat> {
    if exists|i: int| 0 <= i < b.len() && b[i] == 0 {
        let i = choose|i: int| 0 <= i < b.len() && b[i] == 0 && forall|j: int| 0 <= j < i ==> b[j] != 0;
        Some(i as nat)
    } else {
        None
    }
}

/// What `Atom::from_c` gives on a buffer.
pub open spec fn atom_from_c(buffer: Seq<u8>) -> Result<Seq<char>, crate::error::ErrorModel> {
    match first_null(buffer) {
        None => Err(crate::error::ErrorModel::RunawayAtom(buffer)),
        Some(n) => atom_from_utf8(buffer.take(n as int)),
    }
}

/// The position of the first null byte of `bytes`, if any.
pub fn find_null(bytes: &[u8]) -> (r: Option<usize>)
    ensures
        match r {
            Some(n) => n < bytes@.len() && first_null(bytes@) == Some(n as nat),
            None => first_null(bytes@) == None::<nat>,
        },
{
    let mut i: usize = 0;
    while i < bytes.len()
        invariant
            i <= bytes@.len(),
            forall|j: int| 0 <= j < i ==> bytes@[j] != 0,
        decreases bytes@.len() - i,
    {
        if bytes[i] == 0 {
            proof {
                assert(exists|k: int| 0 <= k < bytes@.len() && bytes@[k] == 0);
                let c = choose|k: int|
                    0 <= k < bytes@.len() && bytes@[k] == 0 && forall|j: int| 0 <= j < k ==> bytes@[j] != 0;
                assert(c == i as int) by {
                    if c < i {
                        assert(bytes@[c] != 0);
                    } else if c > i {
                        assert(bytes@[i as int] != 0);
                    }
                }
            }
            return Some(i);
        }
        i = i + 1;
    }
    None
}

impl Atom {
    /// Makes an atom of `text`; fails when it holds more than 255 scalar values.
    pub fn new(text: String) -> (r: Result<Atom, Error>)
        ensures
            text@.len() <= MAX_ATOM_LEN ==> (r matches Ok(a) && a@ == text@),
            text@.len() > MAX_ATOM_LEN ==> (r matches Err(e) && e@
                == crate::error::ErrorModel::AtomLengthOutOfRange(text@, text@.len() as usize)),
    {
        let len = text.as_str().unicode_len();
        if len > MAX_ATOM_LEN {
            return Err(Error::AtomLengthOutOfRange(text, len));
        }
        Ok(Atom(text))
    }

    /// Makes an atom of UTF-8 bytes.
    pub fn from_utf8(bytes: &[u8]) -> (r: Result<Atom, Error>)
        ensures
            match r {
                Ok(a) => atom_from_utf8(bytes@) == Ok::<Seq<char>, crate::error::ErrorModel>(a@),
                Err(e) => atom_from_utf8(bytes@) == Err::<Seq<char>, crate::error::ErrorModel>(e@),
            },
    {
        match utf8_text(bytes) {
            Some(text) => Atom::new(text),
            None => Err(Error::InvalidUtf8),
        }
    }

    /// Makes an atom of a fixed-size buffer that holds its UTF-8 text up to a
    /// null byte; fails with `RunawayAtom` when the buffer holds no null byte.
    pub fn from_c(buffer: &[u8]) -> (r: Result<Atom, Error>)
        ensures
            match r {
                Ok(a) => atom_from_c(buffer@) == Ok::<Seq<char>, crate::error::ErrorModel>(a@),
                Err(e) => atom_from_c(buffer@) == Err::<Seq<char>, crate::error::ErrorModel>(e@),
            },
    {
        match find_null(buffer) {
            Some(n) => {
                let (text, _) = buffer.split_at(n);
                Atom::from_utf8(text)
            },
            None => Err(Error::RunawayAtom(slice_to_vec(buffer))),
        }
    }

    /// The atom's text.
    pub fn name(&self) -> (r: &str)
        ensures
            r@ == self@,
    {
        self.0.as_str()
    }

    /// A second atom with the same text.
    pub fn duplicate(&self) -> (r: Atom)
        ensures
            r@ == self@,
    {
        Atom(self.0.clone())
    }
}

/// The segment numbered `index`, for `index` below 8.
pub open spec fn segment_of(index: nat) -> AtomCacheSegment {
    if index == 0 {
        AtomCacheSegment::S0
    } else if index == 1 {
        AtomCacheSegment::S1
    } else if index == 2 {
        AtomCacheSegment::S2
    } else if index == 3 {
        AtomCacheSegment::S3
    } else if index == 4 {
        AtomCacheSegment::S4
    } else if index == 5 {
        AtomCacheSegment::S5
    } else if index == 6 {
        AtomCacheSegment::S6
    } else {
        AtomCacheSegment::S7
    }
}

impl AtomCacheSegment {
    pub open spec fn spec_index(self) -> nat {
        match self {
            AtomCacheSegment::S0 => 0,
            AtomCacheSegment::S1 => 1,
            AtomCacheSegment::S2 => 2,
            AtomCacheSegment::S3 => 3,
            AtomCacheSegment::S4 => 4,
            AtomCacheSegment::S5 => 5,
            AtomCacheSegment::S6 => 6,
            AtomCacheSegment::S7 => 7,
        }
    }

    /// The segment whose number is `index`.
    pub fn from_index(index: u8) -> (r: AtomCacheSegment)
        requires
            index < 8,
        ensures
            r.spec_index() == index,
            r == segment_of(index as nat),
    {
        match index {
            0 => AtomCacheSegment::S0,
            1 => AtomCacheSegment::S1,
            2 => AtomCacheSegment::S2,
            3 => AtomCacheSegment::S3,
            4 => AtomCacheSegment::S4,
            5 => AtomCacheSegment::S5,
            6 => AtomCacheSegment::S6,
            _ => AtomCacheSegment::S7,
        }
    }

    /// The segment's number, 0 to 7.
    pub fn index(self) -> (r: u8)
        ensures
            r == self.spec_index(),
    {
        match self {
            AtomCacheSegment::S0 => 0,
            AtomCacheSegment::S1 => 1,
            AtomCacheSegment::S2 => 2,
            AtomCacheSegment::S3 => 3,
            AtomCacheSegment::S4 => 4,
            AtomCacheSegment::S5 => 5,
            AtomCacheSegment::S6 => 6,
            AtomCacheSegment::S7 => 7,
        }
    }
}

impl AtomCacheKey {
    /// The slot's number: 256 slots per segment, segment after segment.
    pub open spec fn spec_code(self) -> u16 {
        (self.segment_index.spec_index() * 256 + self.internal_index) as u16
    }

    pub fn code(&self) -> (r: u16)
        ensures
            r == self.spec_code(),
    {
        (self.segment_index.index() as u16) * 256 + (self.internal_index as u16)
    }
}

/// Two keys with one number are one key.
pub proof fn lemma_code_injective(a: AtomCacheKey, b: AtomCacheKey)
    ensures
        a.spec_code() == b.spec_code() <==> a == b,
{
}

impl View for AtomCache {
    type V = Map<AtomCacheKey, Seq<char>>;

    closed spec fn view(&self) -> Map<AtomCacheKey, Seq<char>> {
        Map::new(
            |k: AtomCacheKey| self.entries@.contains_key(k.spec_code()),
            |k: AtomCacheKey| self.entries@[k.spec_code()]@,
        )
    }
}

impl AtomCache {
    /// An empty cache.
    pub fn new() -> (r: AtomCache)
        ensures
            r@ == Map::<AtomCacheKey, Seq<char>>::empty(),
    {
        let r = AtomCache { entries: HashMap::new() };
        assert(r@ =~= Map::<AtomCacheKey, Seq<char>>::empty());
        r
    }

    /// Sets the atom at `key`, and hands back the one it replaces.
    pub fn insert(&mut self, key: AtomCacheKey, atom: Atom) -> (r: Option<Atom>)
        ensures
            final(self)@ == old(self)@.insert(key, atom@),
            match r {
                Some(a) => old(self)@.contains_key(key) && a@ == old(self)@[key],
                None => !old(self)@.contains_key(key),
            },
    {
        let ghost a = atom@;
        let r = self.entries.insert(key.code(), atom);
        proof {
            assert forall|k: AtomCacheKey| #[trigger] old(self)@.insert(key, a).contains_key(k) == self@.contains_key(k)
                by { lemma_code_injective(k, key); }
            assert forall|k: AtomCacheKey| self@.contains_key(k) implies #[trigger] self@[k] == old(self)@.insert(key, a)[k]
                by { lemma_code_injective(k, key); }
            assert(self@ =~= old(self)@.insert(key, a));
        }
        r
    }

    /// The atom at `key`, if one is set.
    pub fn get(&self, key: AtomCacheKey) -> (r: Option<&Atom>)
        ensures
            match r {
                Some(a) => self@.contains_key(key) && a@ == self@[key],
                None => !self@.contains_key(key),
            },
    {
        let code = key.code();
        self.entries.get(&code)
    }
}

} // verus!
