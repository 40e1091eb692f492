//! UDP file copy: a blast-and-NACK protocol with SHA-256 integrity.
//!
//! The library holds every decision of the protocol and performs no input or
//! output: it turns datagrams, clock readings and the outcomes of file and
//! socket operations into the next state and the next action. A clock reading
//! is a number of nanoseconds since some fixed point in time.
#![allow(unused_imports)]

pub mod bytes;
pub mod digest;
pub mod init;
pub mod json;
pub mod jsonl_reporter;
pub mod laws;
pub mod options;
pub mod path;
pub mod protocol;
pub mod receiver;
pub mod recv;
pub mod report;
pub mod send;
pub mod sender;
pub mod text;
pub mod text_reporter;

pub use crate::jsonl_reporter::JsonlReporter;
pub use crate::options::SendOptions;
pub use crate::protocol::{
    validate_chunk_size, ErrorKind, ProtocolVersion, RecvConfig, RecvLimits, SendConfig, SendLimits,
    DEFAULT_CHUNK_SIZE, DEFAULT_LINGER_SECONDS,
};
pub use crate::receiver::{Fin, Linger, LingerStep, OnFailure, Peer, Receiver, Step};
pub use crate::recv::{Failure, ReceiveState, Verified};
pub use crate::report::{NullReporter, TransferEvent, TransferReporter};
pub use crate::send::send_delay;
pub use crate::sender::{Handshake, HandshakeStep, SendError, SendStep, Sender};
pub use crate::text_reporter::TextReporter;
