//! Errors of ADS requests.
use vstd::prelude::*;

verus! {

/// What can go wrong with an ADS request.
#[derive(Debug, Clone, PartialEq, Eq)]
pub enum Error {
    /// An I/O operation failed: the context and what the system reported.
    Io(&'static str, String),
    /// The ADS server answered with an error code: the action and the code.
    Ads(&'static str, u32),
    /// An unexpected or inconsistent reply: the action, the reason and a
    /// value that goes with it.
    Reply(&'static str, &'static str, u32),
    /// The connection's internal bookkeeping failed: the action, the reason
    /// and the invoke ID concerned.
    IoSync(&'static str, &'static str, u32),
    /// A value exceeds the 32 bits that ADS allows.
    Overflow,
    /// There is no connection to the PLC.
    Disconnected,
    /// Any other failure, described.
    Other(&'static str),
}

/// Whether an error means the connection is no longer usable: an I/O
/// failure, the server's "target port not found" (0x006), or a reply with
/// an unexpected invoke ID.
pub open spec fn breaks_connection(e: Error) -> bool {
    match e {
        Error::Io(_, _) => true,
        Error::Ads(_, code) => code == 6,
        Error::Reply(_, reason, _) => reason@ == "unexpected invoke ID"@,
        _ => false,
    }
}

/// Whether the connection should be dropped after this error.
pub fn should_disconnect(error: &Error) -> (r: bool)
    ensures
        r == breaks_connection(*error),
{
    match error {
        Error::Io(_, _) => true,
        Error::Ads(_, code) => *code == 6,
        Error::Reply(_, reason, _) => crate::strs::str_eq(reason, "unexpected invoke ID"),
        _ => false,
    }
}

/// The error for an ADS error code returned by the server.
pub fn ads_error<T>(action: &'static str, code: u32) -> (r: Result<T, Error>)
    ensures
        r == Err::<T, Error>(Error::Ads(action, code)),
{
    Err(Error::Ads(action, code))
}

} // verus!
