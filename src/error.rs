//! The errors that decoding can end in.
use vstd::prelude::*;

use crate::atom::Atom;
use crate::ident::{Node, NodeModel};
use crate::term::TermKind;

verus! {

/// Why a decode failed.
#[derive(Debug)]
pub enum Error {
    /// Fewer bytes remain than a field needs.
    TruncatedInput,
    /// The leading byte of a term is no known tag.
    UnknownTermTag(u8),
    /// The control message type code is not known.
    UnknownMessageType(i64),
    /// An atom holds more than 255 Unicode scalar values: its text and count.
    AtomLengthOutOfRange(String, usize),
    /// A fixed-size atom buffer holds no null byte.
    RunawayAtom(Vec<u8>),
    /// Atom bytes are not valid UTF-8.
    InvalidUtf8,
    /// A node name position held a term of another kind.
    NodeIsNotAnAtom(TermKind),
    /// A node serial number does not fit in 2 bits.
    NodeSerialNumberOutOfRange(Atom, u32),
    /// A process id does not fit in 15 bits or its serial in 13 bits.
    PidOutOfRange(Node, u32, u32),
    /// The leading version byte is not the supported one.
    UnsupportedProtocolVersion(u8),
    /// A length does not fit in `usize` on this machine.
    LenOutOfRange(u64),
    /// Terms are nested deeper than the decoder allows.
    NestingTooDeep,
    /// An atom cache reference names no entry of the header or of the cache.
    UnresolvedAtomCacheReference(u8),
}

/// The mathematical value of an `Error`.
pub enum ErrorModel {
    TruncatedInput,
    UnknownTermTag(u8),
    UnknownMessageType(i64),
    AtomLengthOutOfRange(Seq<char>, usize),
    RunawayAtom(Seq<u8>),
    InvalidUtf8,
    NodeIsNotAnAtom(TermKind),
    NodeSerialNumberOutOfRange(Seq<char>, u32),
    PidOutOfRange(NodeModel, u32, u32),
    UnsupportedProtocolVersion(u8),
    LenOutOfRange(u64),
    NestingTooDeep,
    UnresolvedAtomCacheReference(u8),
}

impl View for Error {
    type V = ErrorModel;

    open spec fn view(&self) -> ErrorModel {
        match self {
            Error::TruncatedInput => ErrorModel::TruncatedInput,
            Error::UnknownTermTag(t) => ErrorModel::UnknownTermTag(*t),
            Error::UnknownMessageType(c) => ErrorModel::UnknownMessageType(*c),
            Error::AtomLengthOutOfRange(s, n) => ErrorModel::AtomLengthOutOfRange(s@, *n),
            Error::RunawayAtom(b) => ErrorModel::RunawayAtom(b@),
            Error::InvalidUtf8 => ErrorModel::InvalidUtf8,
            Error::NodeIsNotAnAtom(k) => ErrorModel::NodeIsNotAnAtom(*k),
            Error::NodeSerialNumberOutOfRange(a, s) => ErrorModel::NodeSerialNumberOutOfRange(a@, *s),
            Error::PidOutOfRange(n, i, s) => ErrorModel::PidOutOfRange(n@, *i, *s),
            Error::UnsupportedProtocolVersion(v) => ErrorModel::UnsupportedProtocolVersion(*v),
            Error::LenOutOfRange(n) => ErrorModel::LenOutOfRange(*n),
            Error::NestingTooDeep => ErrorModel::NestingTooDeep,
            Error::UnresolvedAtomCacheReference(i) => ErrorModel::UnresolvedAtomCacheReference(*i),
        }
    }
}

} // verus!
