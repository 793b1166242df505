//! The single guest-to-host call that carries one record.
//!
//! The call itself is made by whoever embeds this library. The library names
//! the operation and supplies the bytes, and afterwards judges what the host
//! answered. One record gives one call: nothing is retried, kept or batched.

use vstd::prelude::*;
use crate::wire::{encodable, encode_record, encoding, WireRecord};

verus! {

/// Operation identifier of "emit log record", the first of the block
/// `0xfeffff00` to `0xfeffffff` that is set aside for logging and printing.
pub const FUNC_ID_LOG: u32 = 0xfeffff00;

/// One log event as the guest hands it to the transport.
#[derive(Clone, Debug, PartialEq, Eq)]
pub struct LogRecord {
    /// Wire number of the severity, 1 for errors up to 5 for traces.
    pub level: u32,
    /// Category of the event, as bytes of text.
    pub target: Vec<u8>,
    /// The rendered message, as bytes of text.
    pub args: Vec<u8>,
}

impl View for LogRecord {
    type V = WireRecord;

    open spec fn view(&self) -> WireRecord {
        WireRecord { level: self.level, target: self.target@, args: self.args@ }
    }
}

/// A call that the guest is to make into the host.
#[derive(Clone, Debug, PartialEq, Eq)]
pub struct HostCall {
    /// Identifier of the host operation.
    pub func_id: u32,
    /// Input of the operation: one record in its wire form.
    pub input: Vec<u8>,
}

/// What came back from one call into the host.
#[derive(Clone, Copy, Debug, PartialEq, Eq, Structural)]
pub enum HostReply {
    /// The call could not be made or did not return.
    Failed,
    /// The host returned this status code.
    Status(u32),
}

/// A status code other than zero.
#[derive(Clone, Copy, Debug, PartialEq, Eq, Structural)]
pub enum ErrorCode {
    /// The host answered with a status that the protocol does not define.
    Unknown(u32),
}

/// Why a record did not reach the host.
#[derive(Clone, Copy, Debug, PartialEq, Eq, Structural)]
pub enum TransportError {
    /// The target or the message is too long to be framed.
    Unencodable,
    /// The call into the host failed.
    CallFailed,
    /// The host answered with a status code other than zero.
    Status(ErrorCode),
}

impl ErrorCode {
    /// The verdict that a status code stands for.
    pub open spec fn of_status(status_code: u32) -> Result<(), ErrorCode> {
        if status_code == 0 {
            Ok(())
        } else {
            Err(ErrorCode::Unknown(status_code))
        }
    }

    /// Reads a status code: zero is success, every other value is an error
    /// that carries the code.
    pub fn from_status_code(status_code: u32) -> (verdict: Result<(), ErrorCode>)
        ensures
            verdict == ErrorCode::of_status(status_code),
    {
        if status_code == 0 {
            Ok(())
        } else {
            Err(ErrorCode::Unknown(status_code))
        }
    }
}

/// The verdict on a reply of the host.
pub open spec fn verdict_on(reply: HostReply) -> Result<(), TransportError> {
    match reply {
        HostReply::Failed => Err(TransportError::CallFailed),
        HostReply::Status(code) => match ErrorCode::of_status(code) {
            Ok(()) => Ok(()),
            Err(e) => Err(TransportError::Status(e)),
        },
    }
}

impl LogRecord {
    /// Wire form of this record; `None` when the target or the message is
    /// too long to be framed.
    pub fn encode(&self) -> (bytes: Option<Vec<u8>>)
        ensures
            bytes is Some <==> encodable(self@),
            bytes matches Some(b) ==> b@ == encoding(self@),
    {
        encode_record(self.level, self.target.as_slice(), self.args.as_slice())
    }
}

/// Prepares the one call that carries `record` to the host.
pub fn request(record: &LogRecord) -> (call: Result<HostCall, TransportError>)
    ensures
        match call {
            Ok(c) => encodable(record@) && c.func_id == FUNC_ID_LOG && c.input@ == encoding(
                record@,
            ),
            Err(e) => !encodable(record@) && e == TransportError::Unencodable,
        },
{
    match record.encode() {
        Some(input) => Ok(HostCall { func_id: FUNC_ID_LOG, input }),
        None => Err(TransportError::Unencodable),
    }
}

/// Judges what the host answered: status zero is success, any other status
/// and a failed call are errors.
pub fn conclude(reply: HostReply) -> (verdict: Result<(), TransportError>)
    ensures
        verdict == verdict_on(reply),
{
    match reply {
        HostReply::Failed => Err(TransportError::CallFailed),
        HostReply::Status(code) => match ErrorCode::from_status_code(code) {
            Ok(()) => Ok(()),
            Err(e) => Err(TransportError::Status(e)),
        },
    }
}

} // verus!
