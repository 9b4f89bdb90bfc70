use vstd::prelude::*;

verus! {

/// Everything that can go wrong in the DNS core.
///
/// `InvalidHostname` is an input-validation error: the hostname handed to the
/// encoder has an empty label or a label longer than 63 bytes. It is raised
/// before any query bytes are produced.
///
/// `MalformedResponse` is a decode error: the response buffer is shorter than
/// its own header and length fields demand, so walking it to the end would
/// read out of bounds.
#[derive(Clone, Copy, Debug, PartialEq, Eq, Structural)]
pub enum DnsError {
    InvalidHostname,
    MalformedResponse,
}

} // verus!
