//! The version byte and the distribution header that may precede a payload.
//!
//! The header declares the atom cache references that the payload's terms use,
//! and carries the text of those that are new to the connection.
use vstd::prelude::*;

use crate::atom::{segment_of, AtomCache, AtomCacheKey, AtomCacheSegment};
use crate::error::{Error, ErrorModel};
use crate::ext::{decode_atom_text, outcome, read_atom_text, AtomSizeFormat};
use crate::read::{be_u8, take};

verus! {

pub const VERSION_MAGIC: u8 = 131;
pub const DIST_HEADER: u8 = 68;

/// Nibble `i` of `flags`, the high nibble of each byte first.
pub open spec fn nibble(flags: Seq<u8>, i: nat) -> u8 {
    let byte = flags[(i / 2) as int];
    if i % 2 == 0 {
        byte / 16
    } else {
        byte % 16
    }
}

/// The key that reference `i` names, given the slot byte read for it.
pub open spec fn reference_key(flags: Seq<u8>, i: nat, slot: u8) -> AtomCacheKey {
    AtomCacheKey { segment_index: segment_of((nibble(flags, i) % 8) as nat), internal_index: slot }
}

/// Whether reference `i` brings a new atom.
pub open spec fn is_new_entry(flags: Seq<u8>, i: nat) -> bool {
    nibble(flags, i) >= 8
}

/// The cache after a header, and either the bytes after it with the keys it
/// declared, or an error.
pub type HeaderOutcome = (Map<AtomCacheKey, Seq<char>>, Result<(Seq<u8>, Seq<AtomCacheKey>), ErrorModel>);

/// References `i` to `count - 1` of a header.
pub open spec fn decode_entries(
    b: Seq<u8>,
    flags: Seq<u8>,
    count: nat,
    i: nat,
    width: nat,
    cache: Map<AtomCacheKey, Seq<char>>,
    refs: Seq<AtomCacheKey>,
) -> HeaderOutcome
    decreases count - i,
{
    if i >= count {
        (cache, Ok((b, refs)))
    } else if b.len() < 1 {
        (cache, Err(ErrorModel::TruncatedInput))
    } else {
        let key = reference_key(flags, i, b[0]);
        let r = b.skip(1);
        if is_new_entry(flags, i) {
            match decode_atom_text(r, width) {
                Err(e) => (cache, Err(e)),
                Ok((r2, a)) => decode_entries(r2, flags, count, i + 1, width, cache.insert(key, a), refs.push(key)),
            }
        } else {
            decode_entries(r, flags, count, i + 1, width, cache, refs.push(key))
        }
    }
}

/// What reading the distribution header at the front of `b` does to `cache`
/// and gives.
pub open spec fn decode_header(b: Seq<u8>, cache: Map<AtomCacheKey, Seq<char>>) -> HeaderOutcome {
    if b.len() == 0 {
        (cache, Err(ErrorModel::TruncatedInput))
    } else if b[0] != DIST_HEADER {
        (cache, Ok((b, Seq::empty())))
    } else if b.len() < 2 {
        (cache, Err(ErrorModel::TruncatedInput))
    } else {
        let count = b[1] as nat;
        let r = b.skip(2);
        if count == 0 {
            (cache, Ok((r, Seq::empty())))
        } else if r.len() < count / 2 + 1 {
            (cache, Err(ErrorModel::TruncatedInput))
        } else {
            let flags = r.take((count / 2 + 1) as int);
            let width: nat = if nibble(flags, count) % 2 == 1 { 2 } else { 1 };
            decode_entries(r.skip((count / 2 + 1) as int), flags, count, 0, width, cache, Seq::empty())
        }
    }
}

/// A header that declares no reference leaves the cache as it was, declares
/// no key, and ends two bytes in: its tag and its count.
pub proof fn lemma_empty_header_is_noop(b: Seq<u8>, cache: Map<AtomCacheKey, Seq<char>>)
    requires
        b.len() >= 2,
        b[0] == DIST_HEADER,
        b[1] == 0,
    ensures
        decode_header(b, cache) == (cache, Ok::<(Seq<u8>, Seq<AtomCacheKey>), ErrorModel>((b.skip(2), Seq::empty()))),
{
}

/// The references of a header change the cache at no key but their own, and
/// the keys declared so far stay declared.
proof fn lemma_entries_touch_only_their_keys(
    b: Seq<u8>,
    flags: Seq<u8>,
    count: nat,
    i: nat,
    width: nat,
    cache: Map<AtomCacheKey, Seq<char>>,
    refs: Seq<AtomCacheKey>,
    key: AtomCacheKey,
)
    requires
        decode_entries(b, flags, count, i, width, cache, refs).1 is Ok,
    ensures
        ({
            let (after, res) = decode_entries(b, flags, count, i, width, cache, refs);
            let keys = res->Ok_0.1;
            &&& refs.contains(key) ==> keys.contains(key)
            &&& !keys.contains(key) ==> (after.contains_key(key) == cache.contains_key(key)
                && after[key] == cache[key])
        }),
    decreases count - i,
{
    if i < count && b.len() >= 1 {
        let k = reference_key(flags, i, b[0]);
        let r = b.skip(1);
        let pushed = refs.push(k);
        assert(pushed.contains(k)) by { assert(pushed[refs.len() as int] == k); }
        if refs.contains(key) {
            let j = choose|j: int| 0 <= j < refs.len() && refs[j] == key;
            assert(pushed[j] == key);
        }
        if is_new_entry(flags, i) {
            let (r2, a) = decode_atom_text(r, width)->Ok_0;
            lemma_entries_touch_only_their_keys(r2, flags, count, i + 1, width, cache.insert(k, a), pushed, key);
            lemma_entries_touch_only_their_keys(r2, flags, count, i + 1, width, cache.insert(k, a), pushed, k);
        } else {
            lemma_entries_touch_only_their_keys(r, flags, count, i + 1, width, cache, pushed, key);
        }
    }
}

/// A distribution header leaves every key of the cache that it does not
/// declare as it was: a key outside the declared references is set after the
/// header exactly when it was before, and to the same atom.
pub proof fn lemma_header_touches_only_declared_keys(
    b: Seq<u8>,
    cache: Map<AtomCacheKey, Seq<char>>,
    key: AtomCacheKey,
)
    requires
        decode_header(b, cache).1 is Ok,
        !decode_header(b, cache).1->Ok_0.1.contains(key),
    ensures
        decode_header(b, cache).0.contains_key(key) == cache.contains_key(key),
        decode_header(b, cache).0[key] == cache[key],
{
    if b.len() >= 2 && b[0] == DIST_HEADER && b[1] != 0 {
        let count = b[1] as nat;
        let r = b.skip(2);
        let flags = r.take((count / 2 + 1) as int);
        let width: nat = if nibble(flags, count) % 2 == 1 { 2 } else { 1 };
        lemma_entries_touch_only_their_keys(r.skip((count / 2 + 1) as int), flags, count, 0, width, cache, Seq::empty(), key);
    }
}

/// Reads the version byte; fails unless it is the supported one.
pub fn read_version_magic(input: &[u8]) -> (r: Result<&[u8], Error>)
    ensures
        match r {
            Ok(rest) => input@.len() >= 1 && input@[0] == VERSION_MAGIC && rest@ == input@.skip(1),
            Err(e) => if input@.len() == 0 {
                e@ == ErrorModel::TruncatedInput
            } else {
                input@[0] != VERSION_MAGIC && e@ == ErrorModel::UnsupportedProtocolVersion(input@[0])
            },
        },
{
    let (rest, version) = be_u8(input)?;
    if version == VERSION_MAGIC {
        Ok(rest)
    } else {
        Err(Error::UnsupportedProtocolVersion(version))
    }
}

/// What a flag nibble says of one reference.
struct AtomCacheReferenceFlags {
    is_new_entry: bool,
    segment_index: AtomCacheSegment,
}

impl AtomCacheReferenceFlags {
    fn from_nibble(value: u8) -> (r: AtomCacheReferenceFlags)
        requires
            value < 16,
        ensures
            r.is_new_entry == (value >= 8),
            r.segment_index == segment_of((value % 8) as nat),
    {
        AtomCacheReferenceFlags {
            is_new_entry: value >= 8,
            segment_index: AtomCacheSegment::from_index(value % 8),
        }
    }
}

/// Nibble `index` of `input`.
fn get_nth_half_byte(input: &[u8], index: usize) -> (r: u8)
    requires
        index / 2 < input@.len(),
    ensures
        r == nibble(input@, index as nat),
        r < 16,
{
    let byte = input[index / 2];
    if index % 2 == 0 {
        byte / 16
    } else {
        byte % 16
    }
}

/// Reads the distribution header at the front of `input`, if there is one,
/// and sets in `atom_cache` the atoms that it brings. `Ok` holds the bytes
/// after the header and the keys of its references, in order: the atom cache
/// references of the payload index these. Without a header, `input` comes
/// back whole.
pub fn read_distribution_header<'a>(input: &'a [u8], atom_cache: &mut AtomCache) -> (r: Result<(&'a [u8], Vec<AtomCacheKey>), Error>)
    ensures
        final(atom_cache)@ == decode_header(input@, old(atom_cache)@).0,
        match r {
            Ok((rest, keys)) => decode_header(input@, old(atom_cache)@).1
                == Ok::<(Seq<u8>, Seq<AtomCacheKey>), ErrorModel>((rest@, keys@)),
            Err(e) => decode_header(input@, old(atom_cache)@).1
                == Err::<(Seq<u8>, Seq<AtomCacheKey>), ErrorModel>(e@),
        },
{
    let (rest, tag) = be_u8(input)?;
    if tag != DIST_HEADER {
        return Ok((input, Vec::new()));
    }
    let (rest, count) = be_u8(rest)?;
    assert(input@.skip(1).skip(1) =~= input@.skip(2));
    assert(input@.skip(1)[0] == input@[1]);
    let empty: Vec<AtomCacheKey> = Vec::new();
    assert(empty@ =~= Seq::<AtomCacheKey>::empty());
    if count == 0 {
        return Ok((rest, empty));
    }
    let ghost r1 = rest@;
    let count = count as usize;
    let (rest, flags) = take(rest, count / 2 + 1)?;
    let atom_size_format = if get_nth_half_byte(flags, count) % 2 == 1 {
        AtomSizeFormat::Regular
    } else {
        AtomSizeFormat::Small
    };
    let ghost width = atom_size_format.width();
    let mut keys = empty;
    let mut rest = rest;
    let mut i: usize = 0;
    while i < count
        invariant
            i <= count,
            count < 256,
            flags@.len() == count / 2 + 1,
            atom_size_format.width() == width,
            decode_header(input@, old(atom_cache)@) == decode_entries(
                rest@,
                flags@,
                count as nat,
                i as nat,
                width,
                atom_cache@,
                keys@,
            ),
        decreases count - i,
    {
        let flag = AtomCacheReferenceFlags::from_nibble(get_nth_half_byte(flags, i));
        let (next, internal_index) = be_u8(rest)?;
        let key = AtomCacheKey { segment_index: flag.segment_index, internal_index };
        if flag.is_new_entry {
            let (after, atom) = read_atom_text(next, atom_size_format)?;
            atom_cache.insert(key, atom);
            rest = after;
        } else {
            rest = next;
        }
        keys.push(key);
        i = i + 1;
    }
    Ok((rest, keys))
}

} // verus!
