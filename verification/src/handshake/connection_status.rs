//! The state of a connection.

use vstd::prelude::*;

verus! {

/// Where a connection stands. It starts as `Connecting`, while the
/// handshake is under way, and becomes `Open` with a valid request and
/// response. A failed handshake, a close or the end of the transport lead
/// to `Closing` and `Closed`; `Closed` is final.
#[derive(Debug, Clone, Copy, PartialEq, Eq, Structural)]
pub enum ConnectionStatus {
    Connecting,
    Open,
    Closing,
    Closed,
}

} // verus!
