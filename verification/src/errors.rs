//! Error taxonomy of the library: one tagged union per failure layer, each
//! variant carrying a plain message, decoupled from any transport or parser
//! library's own error types.
use vstd::prelude::*;
use vstd::string::*;

use crate::strutil::dec_chars;

verus! {

/// A typed per-operation failure, carrying a human-readable message.
#[derive(Debug, Clone)]
pub enum ObjectError {
    PutError { msg: String },
    GetError { msg: String },
    CopyError { msg: String },
    DeleteError { msg: String },
    HeadError { msg: String },
}

/// A failure to assemble a transport header from the given bytes.
#[derive(Debug, Clone)]
pub enum HttpError {
    HttpInvalidHeaderValue(String),
    HttpInvalidHeaderName(String),
}

/// Every failure class a call can surface: operation errors, transport
/// failures handed in as text, and decode failures.
#[derive(Debug, Clone)]
pub enum Error {
    Convert(String),
    Object(ObjectError),
    Io(String),
    String(String),
    Reqwest(String),
    Qxml(String),
    Http(HttpError),
    ParseBool(String),
}

/// The operation whose outcome is being classified.
#[derive(Debug, Clone, Copy, PartialEq, Eq, Structural)]
pub enum OpKind {
    Put,
    Get,
    Copy,
    Delete,
    Head,
}

/// The message text reported for a non-success status on the given operation:
/// names the operation and ends with the numeric status code in decimal.
pub open spec fn status_msg_chars(op: OpKind, status: u16) -> Seq<char> {
    op_msg_prefix(op) + dec_chars(status as nat)
}

/// The fixed message prefix for each operation kind.
pub open spec fn op_msg_prefix(op: OpKind) -> Seq<char> {
    match op {
        OpKind::Put => "can not put object, status code: "@,
        OpKind::Get => "can not get object, status code: "@,
        OpKind::Copy => "can not copy object, status code: "@,
        OpKind::Delete => "can not delete object, status code: "@,
        OpKind::Head => "can not head object, status code: "@,
    }
}

/// Whether `e` is the typed operation error owed for `op` with message `m`.
pub open spec fn is_op_error(e: ObjectError, op: OpKind, m: Seq<char>) -> bool {
    match op {
        OpKind::Put => e matches ObjectError::PutError { msg } && msg@ == m,
        OpKind::Get => e matches ObjectError::GetError { msg } && msg@ == m,
        OpKind::Copy => e matches ObjectError::CopyError { msg } && msg@ == m,
        OpKind::Delete => e matches ObjectError::DeleteError { msg } && msg@ == m,
        OpKind::Head => e matches ObjectError::HeadError { msg } && msg@ == m,
    }
}

/// Maps a non-success transport outcome to the typed operation error.
/// The message always carries the numeric status code.
pub fn classify_status_error(op: OpKind, status: u16) -> (r: Error)
    ensures
        r matches Error::Object(oe) && is_op_error(oe, op, status_msg_chars(op, status)),
{
    let mut msg = match op {
        OpKind::Put => "can not put object, status code: ".to_owned(),
        OpKind::Get => "can not get object, status code: ".to_owned(),
        OpKind::Copy => "can not copy object, status code: ".to_owned(),
        OpKind::Delete => "can not delete object, status code: ".to_owned(),
        OpKind::Head => "can not head object, status code: ".to_owned(),
    };
    msg.append(crate::strutil::u64_to_string(status as u64).as_str());
    let oe = match op {
        OpKind::Put => ObjectError::PutError { msg },
        OpKind::Get => ObjectError::GetError { msg },
        OpKind::Copy => ObjectError::CopyError { msg },
        OpKind::Delete => ObjectError::DeleteError { msg },
        OpKind::Head => ObjectError::HeadError { msg },
    };
    Error::Object(oe)
}

} // verus!
