//! The AgentX frame: header, identifiers, values and PDU bodies.

pub mod wire;
pub mod header;
pub mod pdu;
pub mod lists;
pub mod bodies;
pub mod batch;

pub use self::bodies::{
    CleanupSetPdu, ClosePdu, CloseReason, CommitSetPdu, GetBulkPdu, GetPdu, NotifyPdu, OpenPdu,
    PingPdu, RegisterPdu, ResponseError, ResponsePdu, TestSetPdu, UndoSetPdu, UnregisterPdu,
};
pub use self::header::{Flags, Header, PduType, AGENTX_VERSION, HEADER_SIZE};
pub use self::pdu::{SearchRange, ValueType, VarBind};
pub use self::wire::Reader;
