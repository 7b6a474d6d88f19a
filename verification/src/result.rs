//! Per-target round outcomes and the read-only views handed to callers.

use vstd::prelude::*;
use vstd::string::StringExecFns;

use crate::addr::IpAddress;

verus! {

/// The error taxonomy of the engine.
///
/// `ResolutionFailed`, `DuplicateHost` and `HostNotFound` come back from the
/// mutating calls; `TransmitFailed` marks a target whose request could not be
/// sent; `TimeExceeded` marks a router-hop report against a probe;
/// `ChecksumMismatch` and `Timeout` never surface in a result: a bad checksum
/// is discarded silently and a timeout is the latency sentinel, not an error.
#[derive(Clone, Copy, Debug, PartialEq, Eq, Structural)]
pub enum ErrorKind {
    ResolutionFailed,
    DuplicateHost,
    HostNotFound,
    TransmitFailed,
    ChecksumMismatch,
    Timeout,
    TimeExceeded,
}

/// The latency value standing for "no reply before the deadline".
pub const TIMEOUT_SENTINEL: i64 = -1;

/// One target's latest round outcome. Overwritten by the next round; a target
/// that got no reply keeps the negative latency sentinel and no error.
#[derive(Clone, Copy, Debug, PartialEq, Eq)]
pub struct RoundResult {
    /// The sequence number the round's request carried.
    pub sequence: u16,
    /// The time-to-live left in the reply's IP header, zero until a reply.
    pub ttl: u8,
    /// Round-trip latency in microseconds, negative if the probe timed out.
    pub latency_us: i64,
    /// A per-target error, if the round produced one for this target.
    pub error: Option<ErrorKind>,
}

impl RoundResult {
    /// The placeholder outcome a target holds before any round has run: the
    /// timeout sentinel and no error.
    pub open spec fn placeholder_spec() -> RoundResult {
        RoundResult { sequence: 0, ttl: 0, latency_us: TIMEOUT_SENTINEL, error: None }
    }

    /// The pending outcome written when a round transmits `sequence`: the
    /// timeout sentinel, kept unless a reply or a router report arrives.
    pub open spec fn pending_spec(sequence: u16) -> RoundResult {
        RoundResult { sequence, ttl: 0, latency_us: TIMEOUT_SENTINEL, error: None }
    }

    /// Creates the placeholder outcome held before any round has run.
    pub fn placeholder() -> (r: RoundResult)
        ensures
            r == RoundResult::placeholder_spec(),
    {
        RoundResult { sequence: 0, ttl: 0, latency_us: TIMEOUT_SENTINEL, error: None }
    }

    /// Whether this outcome is a timeout: no reply, and that is not an error.
    pub open spec fn is_timeout_spec(self) -> bool {
        self.latency_us < 0 && self.error is None
    }

    /// Returns whether this outcome is a timeout.
    pub fn is_timeout(&self) -> (b: bool)
        ensures
            b == self.is_timeout_spec(),
    {
        self.latency_us < 0 && self.error.is_none()
    }
}

/// A read-only snapshot of one target's latest outcome: its name and address
/// alongside the round result.
#[derive(Debug)]
pub struct IterInfoHandle {
    pub name: String,
    pub addr: IpAddress,
    pub result: RoundResult,
}

impl IterInfoHandle {
    /// The user-supplied name of the target.
    pub open spec fn spec_name(self) -> Seq<char> {
        self.name@
    }

    /// The resolved address of the target.
    pub open spec fn spec_addr(self) -> IpAddress {
        self.addr
    }

    /// The target's latest round outcome.
    pub open spec fn spec_result(self) -> RoundResult {
        self.result
    }

    /// Returns the name the target was registered under.
    pub fn get_hostname_user(&self) -> (r: String)
        ensures
            r@ == self.spec_name(),
    {
        String::from_str(self.name.as_str())
    }

    /// Returns the target's address formatted as text.
    pub fn get_address(&self) -> (r: String)
        ensures
            r@ == self.spec_addr().addr_chars(),
    {
        self.addr.to_text()
    }

    /// Returns the target's resolved address.
    pub fn address(&self) -> (r: IpAddress)
        ensures
            r == self.spec_addr(),
    {
        self.addr
    }

    /// Returns the latest round-trip latency in microseconds, negative if the
    /// last round timed out for this target.
    pub fn get_latency(&self) -> (r: i64)
        ensures
            r == self.spec_result().latency_us,
    {
        self.result.latency_us
    }

    /// Returns the sequence number of the target's latest probe.
    pub fn get_sequence(&self) -> (r: u16)
        ensures
            r == self.spec_result().sequence,
    {
        self.result.sequence
    }

    /// Returns the time-to-live left in the latest reply's IP header.
    pub fn get_received_ttl(&self) -> (r: u8)
        ensures
            r == self.spec_result().ttl,
    {
        self.result.ttl
    }

    /// Returns the per-target error of the latest round, if any.
    pub fn get_error(&self) -> (r: Option<ErrorKind>)
        ensures
            r == self.spec_result().error,
    {
        self.result.error
    }
}

/// A finite snapshot over the per-target outcomes of a session, yielded in
/// the insertion order of the targets. Each call of the session's `iter`
/// produces a fresh one over the state of that moment.
#[derive(Debug)]
pub struct PingIter {
    pub items: Vec<IterInfoHandle>,
}

impl PingIter {
    /// The snapshots not yet yielded, front first.
    pub open spec fn remaining(self) -> Seq<IterInfoHandle> {
        self.items@
    }

    /// Returns how many snapshots are left to yield.
    pub fn len(&self) -> (n: usize)
        ensures
            n == self.remaining().len(),
    {
        self.items.len()
    }

    /// Yields the next target's snapshot, in target insertion order, or
    /// nothing once every target has been yielded.
    pub fn next(&mut self) -> (r: Option<IterInfoHandle>)
        ensures
            old(self).remaining().len() == 0 ==> r is None && final(self).remaining()
                == old(self).remaining(),
            old(self).remaining().len() > 0 ==> r == Some(old(self).remaining()[0]) && final(self).remaining() == old(self).remaining().skip(1),
    {
        if self.items.len() == 0 {
            return None;
        }
        let h: IterInfoHandle = self.items.remove(0);
        proof {
            assert(self.items@ =~= old(self).remaining().skip(1));
        }
        Some(h)
    }
}

} // verus!
