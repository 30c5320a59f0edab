//! Decoding of the messages a node of an actor runtime's cluster receives: the
//! tagged binary term format, the distribution header with its atom cache, and
//! the control-message envelope.
mod atom;
mod error;
mod ext;
mod ident;
mod message;
mod prefix;
mod protocol;
mod read;
mod term;

pub use crate::atom::{Atom, AtomCache, AtomCacheKey, AtomCacheSegment, MAX_ATOM_LEN};
pub use crate::error::{Error, ErrorModel};
pub use crate::ext::{
    read_term, read_term_with_depth, AtomSizeFormat, ATOM_CACHE_REF, ATOM_UTF8_EXT, BINARY_EXT,
    DEFAULT_MAX_DEPTH, FLOAT_EXT, INTEGER_EXT, LARGE_BIG_EXT, LARGE_TUPLE_EXT, LIST_EXT,
    NEW_FLOAT_EXT, NEW_PID_EXT, NIL_EXT, PID_EXT, REFERENCE_EXT, SMALL_ATOM_UTF8_EXT,
    SMALL_BIG_EXT, SMALL_INTEGER_EXT, SMALL_TUPLE_EXT, STRING_EXT,
};
pub use crate::ident::{
    NameKind, Node, Pid, RawPid, Reference, NODE_SERIAL_MAX, PID_ID_MAX, PID_SERIAL_MAX,
};
pub use crate::message::{
    decode_message, ControlMessage, Message, MessageHeader, TraceToken, ERL_EXIT, ERL_EXIT2,
    ERL_GROUP_LEADER, ERL_LINK, ERL_NODE_LINK, ERL_REG_SEND, ERL_SEND, ERL_UNLINK,
};
pub use crate::protocol::{
    read_distribution_header, read_version_magic, DIST_HEADER, VERSION_MAGIC,
};
pub use crate::read::{be_i32, be_u16, be_u32, be_u64, be_u8, take};
pub use crate::term::{Term, TermKind};
