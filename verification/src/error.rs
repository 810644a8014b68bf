//! The failures that decoding and resolving can report.

use vstd::prelude::*;

verus! {

/// Why a packet could not be decoded or a query could not be resolved.
#[derive(Clone, Copy, Debug, PartialEq, Eq, Structural)]
pub enum DnsError {
    /// The buffer ends before a field that has to be read.
    TruncatedInput,
    /// The bytes of a label are not valid UTF-8 text.
    InvalidLabelText,
    /// A compression pointer does not point strictly backward.
    CompressionPointerLoop,
    /// The record type code is none of A, NS, CNAME, MX.
    UnknownRecordType,
    /// The record class code is not IN.
    UnknownRecordClass,
    /// The opcode does not fit the four bits of the header field.
    UnknownOpcode,
    /// Sending to the upstream server, or receiving from it, failed.
    UpstreamIoError,
    /// The upstream server replied without an answer.
    UpstreamNoAnswer,
}

} // verus!
