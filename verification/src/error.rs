//! The ways in which handling a connection or a policy change can fail.

use vstd::prelude::*;

verus! {

/// What can go wrong.
#[derive(Clone, Copy, Debug, PartialEq, Eq, Structural)]
pub enum ProxyError {
    /// The client broke the protocol.
    BadRequest,
    /// A bounded wait ran out.
    Timeout,
    /// A socket failed.
    Io,
    /// The upstream proxy sent a handshake that cannot be read.
    ProxyProtocol,
    /// The upstream proxy did not accept the offered authentication method.
    ProxyAuthRejected,
    /// The upstream proxy refused to connect; the code is its reply code.
    ProxyConnectRejected(u16),
    /// The selected profile name is not defined.
    PolicyMiss,
    /// The policy file could not be read as a policy.
    ConfigParse,
    /// Shutdown or a policy change ended the work.
    Cancelled,
}

} // verus!
