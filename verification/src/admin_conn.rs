//! The self-healing administrative connection.
//!
//! The connection is created unconnected, connects lazily on first use, and
//! clears its slot on a transport failure so that the next use reconnects.
//! Every capability call goes through [`AdminConn::call`], which retries at
//! most once after a transport failure.

use vstd::prelude::*;
use crate::config::SocketAddress;
use crate::error::{is_transport_error, HcHttpGatewayError};
use crate::holochain::{AdminRequest, AdminResponse, AdminTransport};

verus! {

/// How many reconnect attempts one [`AdminConn::call`] may make after a
/// transport failure.
pub const ADMIN_WS_CONNECTION_MAX_RETRIES: usize = 1;

/// A wrapper around the administrative websocket that automatically handles
/// reconnection when the connection is lost.
#[derive(Debug, Clone)]
pub struct AdminConn {
    /// The address to connect to.
    pub socket_addr: SocketAddress,
    /// The handle of the open connection, if any.
    pub handle: Option<u64>,
}

impl AdminConn {
    /// Creates a new [`AdminConn`] that will connect lazily to the given
    /// address.
    pub fn new(socket_addr: SocketAddress) -> (r: Self)
        ensures
            r.socket_addr == socket_addr,
            r.handle is None,
    {
        AdminConn { socket_addr, handle: None }
    }

    /// The open connection, connecting first if the slot is empty. A full
    /// slot is reused as it is.
    fn get_admin_ws<T: AdminTransport>(&mut self, t: &mut T) -> (r: Result<
        u64,
        HcHttpGatewayError,
    >)
        ensures
            final(self).socket_addr == old(self).socket_addr,
            old(self).handle matches Some(c) ==> (r == Ok::<u64, HcHttpGatewayError>(c)
                && final(self).handle == old(self).handle),
            r matches Ok(c) ==> final(self).handle == Some(c),
            r matches Err(e) ==> (e matches HcHttpGatewayError::UpstreamUnavailable
                && final(self).handle is None),
    {
        match self.handle {
            Some(c) => Ok(c),
            None => match t.connect_admin(&self.socket_addr) {
                Some(c) => {
                    self.handle = Some(c);
                    Ok(c)
                },
                None => Err(HcHttpGatewayError::UpstreamUnavailable),
            },
        }
    }

    /// Execute one administrative request, reconnecting at most
    /// [`ADMIN_WS_CONNECTION_MAX_RETRIES`] times after a transport failure.
    ///
    /// Protocol-level errors from the conductor propagate unchanged; a
    /// transport error never escapes, it either heals through a reconnect or
    /// surfaces as `UpstreamUnavailable`.
    pub fn call<T: AdminTransport>(&mut self, t: &mut T, req: &AdminRequest) -> (r: Result<
        AdminResponse,
        HcHttpGatewayError,
    >)
        ensures
            final(self).socket_addr == old(self).socket_addr,
            r matches Err(e) ==> (e matches HcHttpGatewayError::UpstreamUnavailable || (
            e matches HcHttpGatewayError::HolochainError(ce) && !is_transport_error(ce))),
            r is Ok ==> final(self).handle is Some,
            r matches Err(HcHttpGatewayError::HolochainError(ce)) ==> final(self).handle is Some,
    {
        let mut attempt: usize = 0;
        loop
            invariant
                attempt <= ADMIN_WS_CONNECTION_MAX_RETRIES,
                self.socket_addr == old(self).socket_addr,
            decreases ADMIN_WS_CONNECTION_MAX_RETRIES + 1 - attempt,
        {
            let conn = match self.get_admin_ws(t) {
                Ok(c) => c,
                Err(e) => {
                    return Err(e);
                },
            };
            match t.admin_request(conn, req) {
                Ok(resp) => {
                    return Ok(resp);
                },
                Err(e) => {
                    if e.is_transport() {
                        self.handle = None;
                        if attempt == ADMIN_WS_CONNECTION_MAX_RETRIES {
                            return Err(HcHttpGatewayError::UpstreamUnavailable);
                        }
                        attempt = attempt + 1;
                    } else {
                        return Err(HcHttpGatewayError::HolochainError(e));
                    }
                },
            }
        }
    }
}

/// The outcome of one execution attempt on the administrative channel, as
/// the retry logic classifies it.
pub enum AdminCallOutcome {
    /// The request succeeded.
    Success,
    /// The websocket failed at the transport layer.
    Transport,
    /// The conductor answered with a protocol-level error.
    Protocol,
}

/// How many execution attempts a retry loop makes when the successive
/// attempts have the given outcomes and it may retry `budget` more times
/// after a transport failure: it stops at the first outcome that is not a
/// transport failure, and a transport failure with no budget left is final.
pub open spec fn retry_attempts_used(outcomes: Seq<AdminCallOutcome>, budget: int) -> int
    decreases outcomes.len(),
{
    if outcomes.len() == 0 {
        0
    } else if !(outcomes[0] matches AdminCallOutcome::Transport) {
        1
    } else if budget <= 0 {
        1
    } else {
        1 + retry_attempts_used(outcomes.skip(1), budget - 1)
    }
}

/// Law: one administrative call makes at most one reconnect attempt.
/// Whatever the outcomes of the successive execution attempts are, a call
/// with a retry budget of `ADMIN_WS_CONNECTION_MAX_RETRIES` executes at most
/// twice, hence reconnects at most once.
pub proof fn lemma_admin_retry_bounded(outcomes: Seq<AdminCallOutcome>)
    ensures
        retry_attempts_used(outcomes, ADMIN_WS_CONNECTION_MAX_RETRIES as int)
            <= ADMIN_WS_CONNECTION_MAX_RETRIES + 1,
{
    lemma_retry_attempts_bounded(outcomes, ADMIN_WS_CONNECTION_MAX_RETRIES as int);
}

/// A retry loop with budget `b` makes at most `b + 1` execution attempts.
pub proof fn lemma_retry_attempts_bounded(outcomes: Seq<AdminCallOutcome>, budget: int)
    requires
        budget >= 0,
    ensures
        retry_attempts_used(outcomes, budget) <= budget + 1,
    decreases outcomes.len(),
{
    if outcomes.len() > 0 && (outcomes[0] matches AdminCallOutcome::Transport) && budget > 0 {
        lemma_retry_attempts_bounded(outcomes.skip(1), budget - 1);
    }
}

} // verus!
