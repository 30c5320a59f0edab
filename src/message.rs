//! Control messages and the messages they frame.
use vstd::prelude::*;

use crate::atom::{atom_from_c, Atom, AtomCache, AtomCacheKey};
use crate::error::{Error, ErrorModel};
use crate::ext::{decode_term, outcome, read_term, Decoded, DEFAULT_MAX_DEPTH};
use crate::ident::{raw_pid, Pid, PidModel, RawPid};
use crate::protocol::{decode_header, read_distribution_header};
use crate::term::{Term, TermModel};

verus! {

/// The diagnostic envelope that may travel with a message.
#[derive(Debug, Clone)]
pub struct TraceToken {
    pub serial: i64,
    pub previous: i64,
    pub from: Pid,
    pub label: i64,
    pub flags: i64,
}

/// A classified message envelope, before its payload is decoded.
#[derive(Debug, Clone)]
pub enum ControlMessage {
    Send { from: Pid, to: Pid, trace_token: Option<TraceToken> },
    RegisteredSend { from: Pid, to: Atom, trace_token: Option<TraceToken> },
    Link { from: Pid, to: Pid },
    Unlink { from: Pid, to: Pid },
    Exit { from: Pid, to: Pid },
    Exit2 { from: Pid, to: Pid },
    NodeLink { from: Pid, to: Pid },
    GroupLeader { from: Pid, to: Pid },
}

/// A fully decoded inbound message: the envelope and its payload.
#[derive(Debug)]
pub enum Message {
    Send { from: Pid, to: Pid, trace_token: Option<TraceToken>, term: Term },
    RegisteredSend { from: Pid, to: Atom, trace_token: Option<TraceToken>, term: Term },
    Link { from: Pid, to: Pid, term: Term },
    Unlink { from: Pid, to: Pid, term: Term },
    Exit { from: Pid, to: Pid, term: Term },
    Exit2 { from: Pid, to: Pid, term: Term },
    NodeLink { from: Pid, to: Pid, term: Term },
    GroupLeader { from: Pid, to: Pid, term: Term },
}


pub const ERL_LINK: i64 = 1;
pub const ERL_SEND: i64 = 2;
pub const ERL_EXIT: i64 = 3;
pub const ERL_UNLINK: i64 = 4;
pub const ERL_NODE_LINK: i64 = 5;
pub const ERL_REG_SEND: i64 = 6;
pub const ERL_GROUP_LEADER: i64 = 7;
pub const ERL_EXIT2: i64 = 8;

/// The mathematical value of a `ControlMessage`. `traced` says whether a
/// trace token travels with it.
pub enum ControlModel {
    Send { from: PidModel, to: PidModel, traced: bool },
    RegisteredSend { from: PidModel, to: Seq<char>, traced: bool },
    Link { from: PidModel, to: PidModel },
    Unlink { from: PidModel, to: PidModel },
    Exit { from: PidModel, to: PidModel },
    Exit2 { from: PidModel, to: PidModel },
    NodeLink { from: PidModel, to: PidModel },
    GroupLeader { from: PidModel, to: PidModel },
}

impl View for ControlMessage {
    type V = ControlModel;

    open spec fn view(&self) -> ControlModel {
        match self {
            ControlMessage::Send { from, to, trace_token } => ControlModel::Send {
                from: from@,
                to: to@,
                traced: trace_token is Some,
            },
            ControlMessage::RegisteredSend { from, to, trace_token } => ControlModel::RegisteredSend {
                from: from@,
                to: to@,
                traced: trace_token is Some,
            },
            ControlMessage::Link { from, to } => ControlModel::Link { from: from@, to: to@ },
            ControlMessage::Unlink { from, to } => ControlModel::Unlink { from: from@, to: to@ },
            ControlMessage::Exit { from, to } => ControlModel::Exit { from: from@, to: to@ },
            ControlMessage::Exit2 { from, to } => ControlModel::Exit2 { from: from@, to: to@ },
            ControlMessage::NodeLink { from, to } => ControlModel::NodeLink { from: from@, to: to@ },
            ControlMessage::GroupLeader { from, to } => ControlModel::GroupLeader { from: from@, to: to@ },
        }
    }
}

impl View for Message {
    type V = (ControlModel, TermModel);

    open spec fn view(&self) -> (ControlModel, TermModel) {
        match self {
            Message::Send { from, to, trace_token, term } => (
                ControlModel::Send { from: from@, to: to@, traced: trace_token is Some },
                term@,
            ),
            Message::RegisteredSend { from, to, trace_token, term } => (
                ControlModel::RegisteredSend { from: from@, to: to@, traced: trace_token is Some },
                term@,
            ),
            Message::Link { from, to, term } => (ControlModel::Link { from: from@, to: to@ }, term@),
            Message::Unlink { from, to, term } => (ControlModel::Unlink { from: from@, to: to@ }, term@),
            Message::Exit { from, to, term } => (ControlModel::Exit { from: from@, to: to@ }, term@),
            Message::Exit2 { from, to, term } => (ControlModel::Exit2 { from: from@, to: to@ }, term@),
            Message::NodeLink { from, to, term } => (ControlModel::NodeLink { from: from@, to: to@ }, term@),
            Message::GroupLeader { from, to, term } => (ControlModel::GroupLeader { from: from@, to: to@ }, term@),
        }
    }
}

/// The fields of the transport's own message header: the message type code
/// and the endpoints, as the transport decoded them.
#[derive(Debug, Clone)]
pub struct MessageHeader {
    pub msg_type: i64,
    pub from: RawPid,
    pub to: RawPid,
    /// The registered name that a name-addressed send goes to, null-terminated
    /// in a fixed-size buffer.
    pub to_name: Vec<u8>,
}

/// Whether `code` is one of the message types with a sender and a receiver pid.
pub open spec fn is_pid_pair_type(code: i64) -> bool {
    code == ERL_SEND || code == ERL_LINK || code == ERL_UNLINK || code == ERL_EXIT
        || code == ERL_EXIT2 || code == ERL_NODE_LINK || code == ERL_GROUP_LEADER
}

/// The envelope for a type code and two endpoint pids.
pub open spec fn pid_pair_message(code: i64, from: PidModel, to: PidModel) -> ControlModel {
    if code == ERL_SEND {
        ControlModel::Send { from, to, traced: false }
    } else if code == ERL_LINK {
        ControlModel::Link { from, to }
    } else if code == ERL_UNLINK {
        ControlModel::Unlink { from, to }
    } else if code == ERL_EXIT {
        ControlModel::Exit { from, to }
    } else if code == ERL_EXIT2 {
        ControlModel::Exit2 { from, to }
    } else if code == ERL_NODE_LINK {
        ControlModel::NodeLink { from, to }
    } else {
        ControlModel::GroupLeader { from, to }
    }
}

/// What `ControlMessage::from_c` gives on a header.
pub open spec fn classify(h: MessageHeader) -> Result<ControlModel, ErrorModel> {
    if h.msg_type == ERL_REG_SEND {
        match raw_pid(&h.from) {
            Err(e) => Err(e),
            Ok(from) => match atom_from_c(h.to_name@) {
                Err(e) => Err(e),
                Ok(to) => Ok(ControlModel::RegisteredSend { from, to, traced: false }),
            },
        }
    } else if is_pid_pair_type(h.msg_type) {
        match raw_pid(&h.from) {
            Err(e) => Err(e),
            Ok(from) => match raw_pid(&h.to) {
                Err(e) => Err(e),
                Ok(to) => Ok(pid_pair_message(h.msg_type, from, to)),
            },
        }
    } else {
        Err(ErrorModel::UnknownMessageType(h.msg_type))
    }
}

/// The message that an envelope and the decoding of its payload give.
pub open spec fn assemble(control: ControlModel, payload: Decoded<TermModel>) -> Decoded<(ControlModel, TermModel)> {
    match payload {
        Ok((rest, t)) => Ok((rest, (control, t))),
        Err(e) => Err(e),
    }
}

impl ControlMessage {
    /// Classifies a message by its type code, taking from the header the
    /// endpoints that the type has.
    pub fn from_c(header: &MessageHeader) -> (r: Result<ControlMessage, Error>)
        ensures
            match r {
                Ok(m) => classify(*header) == Ok::<ControlModel, ErrorModel>(m@),
                Err(e) => classify(*header) == Err::<ControlModel, ErrorModel>(e@),
            },
    {
        let code = header.msg_type;
        if code == ERL_REG_SEND {
            let from = Pid::from_c(&header.from)?;
            let to = Atom::from_c(header.to_name.as_slice())?;
            return Ok(ControlMessage::RegisteredSend { from, to, trace_token: None });
        }
        if !(code == ERL_SEND || code == ERL_LINK || code == ERL_UNLINK || code == ERL_EXIT
            || code == ERL_EXIT2 || code == ERL_NODE_LINK || code == ERL_GROUP_LEADER) {
            return Err(Error::UnknownMessageType(code));
        }
        let from = Pid::from_c(&header.from)?;
        let to = Pid::from_c(&header.to)?;
        if code == ERL_SEND {
            Ok(ControlMessage::Send { from, to, trace_token: None })
        } else if code == ERL_LINK {
            Ok(ControlMessage::Link { from, to })
        } else if code == ERL_UNLINK {
            Ok(ControlMessage::Unlink { from, to })
        } else if code == ERL_EXIT {
            Ok(ControlMessage::Exit { from, to })
        } else if code == ERL_EXIT2 {
            Ok(ControlMessage::Exit2 { from, to })
        } else if code == ERL_NODE_LINK {
            Ok(ControlMessage::NodeLink { from, to })
        } else {
            Ok(ControlMessage::GroupLeader { from, to })
        }
    }

    /// Decodes the payload term that follows the envelope, and joins the two.
    pub fn read_message<'a>(self, input: &'a [u8], atom_cache: &AtomCache, references: &[AtomCacheKey]) -> (r: Result<(&'a [u8], Message), Error>)
        ensures
            outcome(r) == assemble(self@, decode_term(input@, atom_cache@, references@, DEFAULT_MAX_DEPTH as nat)),
    {
        let (rest, term) = read_term(input, atom_cache, references)?;
        let message = match self {
            ControlMessage::Send { from, to, trace_token } => Message::Send { from, to, trace_token, term },
            ControlMessage::RegisteredSend { from, to, trace_token } => Message::RegisteredSend { from, to, trace_token, term },
            ControlMessage::Link { from, to } => Message::Link { from, to, term },
            ControlMessage::Unlink { from, to } => Message::Unlink { from, to, term },
            ControlMessage::Exit { from, to } => Message::Exit { from, to, term },
            ControlMessage::Exit2 { from, to } => Message::Exit2 { from, to, term },
            ControlMessage::NodeLink { from, to } => Message::NodeLink { from, to, term },
            ControlMessage::GroupLeader { from, to } => Message::GroupLeader { from, to, term },
        };
        Ok((rest, message))
    }
}

/// What `decode_message` gives: the header's outcome, then the envelope, then
/// the payload.
pub open spec fn decode_message_spec(
    header: MessageHeader,
    input: Seq<u8>,
    cache: Map<AtomCacheKey, Seq<char>>,
) -> Result<(ControlModel, TermModel), ErrorModel> {
    match decode_header(input, cache).1 {
        Err(e) => Err(e),
        Ok((rest, refs)) => match classify(header) {
            Err(e) => Err(e),
            Ok(control) => match decode_term(rest, decode_header(input, cache).0, refs, DEFAULT_MAX_DEPTH as nat) {
                Err(e) => Err(e),
                Ok((_, t)) => Ok((control, t)),
            },
        },
    }
}

/// Decodes one inbound message: the distribution header at the front of
/// `input` (which updates the connection's `atom_cache`), the envelope that
/// the transport's `header` describes, and the payload term.
pub fn decode_message(header: &MessageHeader, input: &[u8], atom_cache: &mut AtomCache) -> (r: Result<Message, Error>)
    ensures
        final(atom_cache)@ == decode_header(input@, old(atom_cache)@).0,
        match r {
            Ok(m) => decode_message_spec(*header, input@, old(atom_cache)@) == Ok::<(ControlModel, TermModel), ErrorModel>(m@),
            Err(e) => decode_message_spec(*header, input@, old(atom_cache)@) == Err::<(ControlModel, TermModel), ErrorModel>(e@),
        },
{
    let (payload, references) = read_distribution_header(input, atom_cache)?;
    let control = ControlMessage::from_c(header)?;
    let (_, message) = control.read_message(payload, atom_cache, references.as_slice())?;
    Ok(message)
}

} // verus!
