//! Node, process and reference identities.
use vstd::prelude::*;

use crate::atom::{atom_from_c, Atom};
use crate::error::{Error, ErrorModel};

verus! {

/// Which part of a node's full name a text stands for.
#[derive(Copy, Clone, Debug, PartialEq, Eq, Structural)]
pub enum NameKind {
    Node,
    Alive,
    Host,
}

/// A distribution endpoint: its name and a 2-bit creation serial.
#[derive(Debug, Clone, PartialEq, Eq)]
pub struct Node {
    pub name: Atom,
    pub(crate) serial_number: u8,
}

pub struct NodeModel {
    pub name: Seq<char>,
    pub serial_number: u8,
}

impl View for Node {
    type V = NodeModel;

    closed spec fn view(&self) -> NodeModel {
        NodeModel { name: self.name@, serial_number: self.serial_number }
    }
}

/// A correlation token scoped to a node.
#[derive(Debug, Clone, PartialEq, Eq)]
pub struct Reference {
    pub node: Node,
    pub id: u32,
}

pub struct ReferenceModel {
    pub node: NodeModel,
    pub id: u32,
}

impl View for Reference {
    type V = ReferenceModel;

    open spec fn view(&self) -> ReferenceModel {
        ReferenceModel { node: self.node@, id: self.id }
    }
}

/// A process identifier: a 15-bit id and a 13-bit serial on a node.
#[derive(Debug, Clone, PartialEq, Eq)]
pub struct Pid {
    pub node: Node,
    pub(crate) id: u16,
    pub(crate) serial: u16,
}

pub struct PidModel {
    pub node: NodeModel,
    pub id: u16,
    pub serial: u16,
}

impl View for Pid {
    type V = PidModel;

    closed spec fn view(&self) -> PidModel {
        PidModel { node: self.node@, id: self.id, serial: self.serial }
    }
}


/// The largest node serial number: 2 bits.
pub const NODE_SERIAL_MAX: u32 = 3;
/// The largest process id: 15 bits.
pub const PID_ID_MAX: u32 = 0x7fff;
/// The largest process serial: 13 bits.
pub const PID_SERIAL_MAX: u32 = 0x1fff;

impl Node {
    /// A node of `name`; fails when `serial_number` does not fit in 2 bits.
    pub fn new(name: Atom, serial_number: u32) -> (r: Result<Node, Error>)
        ensures
            serial_number <= NODE_SERIAL_MAX ==> (r matches Ok(n) && n@ == NodeModel {
                name: name@,
                serial_number: serial_number as u8,
            }),
            serial_number > NODE_SERIAL_MAX ==> (r matches Err(e) && e@
                == ErrorModel::NodeSerialNumberOutOfRange(name@, serial_number)),
    {
        if serial_number <= NODE_SERIAL_MAX {
            Ok(Node { name, serial_number: serial_number as u8 })
        } else {
            Err(Error::NodeSerialNumberOutOfRange(name, serial_number))
        }
    }

    pub fn serial_number(&self) -> (r: u32)
        ensures
            r == self@.serial_number,
    {
        self.serial_number as u32
    }
}

impl Pid {
    /// A process id on `node`. The wire gives 32 bits to each of `id` and
    /// `serial`, but only the low 15 and 13 bits are meaningful: a larger value
    /// fails with `PidOutOfRange`.
    pub fn new(node: Node, id: u32, serial: u32) -> (r: Result<Pid, Error>)
        ensures
            id <= PID_ID_MAX && serial <= PID_SERIAL_MAX ==> (r matches Ok(p) && p@ == PidModel {
                node: node@,
                id: id as u16,
                serial: serial as u16,
            }),
            !(id <= PID_ID_MAX && serial <= PID_SERIAL_MAX) ==> (r matches Err(e) && e@
                == ErrorModel::PidOutOfRange(node@, id, serial)),
    {
        if id <= PID_ID_MAX && serial <= PID_SERIAL_MAX {
            Ok(Pid { node, id: id as u16, serial: serial as u16 })
        } else {
            Err(Error::PidOutOfRange(node, id, serial))
        }
    }

    pub fn id(&self) -> (r: u32)
        ensures
            r == self@.id,
    {
        self.id as u32
    }

    pub fn serial(&self) -> (r: u32)
        ensures
            r == self@.serial,
    {
        self.serial as u32
    }

    /// A process id of the fields that the transport hands over: the node's
    /// name as a null-terminated buffer, and the three numbers.
    pub fn from_c(raw: &RawPid) -> (r: Result<Pid, Error>)
        ensures
            match r {
                Ok(p) => raw_pid(raw) == Ok::<PidModel, ErrorModel>(p@),
                Err(e) => raw_pid(raw) == Err::<PidModel, ErrorModel>(e@),
            },
    {
        let name = Atom::from_c(raw.node.as_slice())?;
        let node = Node::new(name, raw.creation)?;
        Pid::new(node, raw.num, raw.serial)
    }
}

/// The fields of a process id as the transport's own header holds them.
#[derive(Debug, Clone)]
pub struct RawPid {
    /// The node name, null-terminated in a fixed-size buffer.
    pub node: Vec<u8>,
    pub num: u32,
    pub serial: u32,
    pub creation: u32,
}

/// What `Pid::from_c` gives on `raw`.
pub open spec fn raw_pid(raw: &RawPid) -> Result<PidModel, ErrorModel> {
    match atom_from_c(raw.node@) {
        Err(e) => Err(e),
        Ok(name) => if raw.creation > NODE_SERIAL_MAX {
            Err(ErrorModel::NodeSerialNumberOutOfRange(name, raw.creation))
        } else {
            let node = NodeModel { name, serial_number: raw.creation as u8 };
            if raw.num <= PID_ID_MAX && raw.serial <= PID_SERIAL_MAX {
                Ok(PidModel { node, id: raw.num as u16, serial: raw.serial as u16 })
            } else {
                Err(ErrorModel::PidOutOfRange(node, raw.num, raw.serial))
            }
        },
    }
}

} // verus!
