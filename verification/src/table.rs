//! The table of outstanding probes.
//!
//! One entry per probe in flight, keyed by (target address, sequence number);
//! an entry is created when a request is transmitted and consumed either by
//! the matching reply or by expiry at the end of the round. The key invariant
//! is that no two entries share a key, so a reply resolves at most one probe.

use vstd::prelude::*;

use crate::addr::IpAddress;

verus! {

/// One probe in flight: where it went, the sequence number it carried, and
/// when it was sent.
#[derive(Clone, Copy, Debug, PartialEq, Eq, Structural)]
pub struct OutstandingPing {
    pub addr: IpAddress,
    pub sequence: u16,
    pub sent_at: u64,
}

/// Whether `s` holds an entry keyed (addr, sequence).
pub open spec fn has_key(s: Seq<OutstandingPing>, addr: IpAddress, sequence: u16) -> bool {
    exists|i: int| 0 <= i < s.len() && s[i].addr == addr && s[i].sequence == sequence
}

/// Whether no two entries of `s` share a key.
pub open spec fn keys_distinct(s: Seq<OutstandingPing>) -> bool {
    forall|i: int, j: int|
        0 <= i < j < s.len() ==> !(s[i].addr == s[j].addr && s[i].sequence == s[j].sequence)
}

/// The entries of `s` sent at `deadline` or later, in order.
pub open spec fn sent_since(s: Seq<OutstandingPing>, deadline: u64) -> Seq<OutstandingPing>
    decreases s.len(),
{
    if s.len() == 0 {
        Seq::empty()
    } else if s.last().sent_at >= deadline {
        sent_since(s.drop_last(), deadline) + seq![s.last()]
    } else {
        sent_since(s.drop_last(), deadline)
    }
}

/// The entries of `s` sent before `deadline`, in order.
pub open spec fn sent_before(s: Seq<OutstandingPing>, deadline: u64) -> Seq<OutstandingPing>
    decreases s.len(),
{
    if s.len() == 0 {
        Seq::empty()
    } else if s.last().sent_at < deadline {
        sent_before(s.drop_last(), deadline) + seq![s.last()]
    } else {
        sent_before(s.drop_last(), deadline)
    }
}

/// The entries of `s` not addressed to `addr`, in order.
pub open spec fn other_addrs(s: Seq<OutstandingPing>, addr: IpAddress) -> Seq<OutstandingPing>
    decreases s.len(),
{
    if s.len() == 0 {
        Seq::empty()
    } else if s.last().addr != addr {
        other_addrs(s.drop_last(), addr) + seq![s.last()]
    } else {
        other_addrs(s.drop_last(), addr)
    }
}

/// Every entry of `sent_since(s, deadline)` is an entry of `s`.
proof fn lemma_sent_since_sub(s: Seq<OutstandingPing>, deadline: u64)
    ensures
        forall|i: int|
            0 <= i < sent_since(s, deadline).len() ==> s.contains(#[trigger] sent_since(
                s,
                deadline,
            )[i]),
        sent_since(s, deadline).len() <= s.len(),
        keys_distinct(s) ==> keys_distinct(sent_since(s, deadline)),
    decreases s.len(),
{
    if s.len() > 0 {
        lemma_sent_since_sub(s.drop_last(), deadline);
        assert(forall|i: int|
            0 <= i < s.drop_last().len() ==> s.contains(#[trigger] s.drop_last()[i]));
        if keys_distinct(s) {
            assert(keys_distinct(s.drop_last()));
        }
        let r = sent_since(s, deadline);
        let rd = sent_since(s.drop_last(), deadline);
        if s.last().sent_at >= deadline {
            assert(forall|i: int| 0 <= i < rd.len() ==> r[i] == rd[i]);
            assert(s.contains(s.last()));
            if keys_distinct(s) {
                assert forall|i: int, j: int| 0 <= i < j < r.len() implies !(r[i].addr == r[j].addr
                    && r[i].sequence == r[j].sequence) by {
                    if j < rd.len() {
                    } else {
                        assert(r[j] == s.last());
                        assert(s.drop_last().contains(r[i]));
                        let k = choose|k: int|
                            0 <= k < s.drop_last().len() && s.drop_last()[k] == r[i];
                        assert(s[k] == r[i]);
                        assert(!(s[k].addr == s.last().addr && s[k].sequence
                            == s.last().sequence));
                    }
                }
            }
        }
    }
}

/// Every entry of `other_addrs(s, addr)` is an entry of `s`, none is keyed to
/// `addr`, and key-distinctness carries over.
pub(crate) proof fn lemma_other_addrs_entries(s: Seq<OutstandingPing>, addr: IpAddress)
    ensures
        forall|i: int|
            0 <= i < other_addrs(s, addr).len() ==> s.contains(#[trigger] other_addrs(s, addr)[i])
                && other_addrs(s, addr)[i].addr != addr,
        other_addrs(s, addr).len() <= s.len(),
        keys_distinct(s) ==> keys_distinct(other_addrs(s, addr)),
    decreases s.len(),
{
    if s.len() > 0 {
        lemma_other_addrs_entries(s.drop_last(), addr);
        assert(forall|i: int|
            0 <= i < s.drop_last().len() ==> s.contains(#[trigger] s.drop_last()[i]));
        if keys_distinct(s) {
            assert(keys_distinct(s.drop_last()));
        }
        let r = other_addrs(s, addr);
        let rd = other_addrs(s.drop_last(), addr);
        if s.last().addr != addr {
            assert(forall|i: int| 0 <= i < rd.len() ==> r[i] == rd[i]);
            assert(s.contains(s.last()));
            if keys_distinct(s) {
                assert forall|i: int, j: int| 0 <= i < j < r.len() implies !(r[i].addr == r[j].addr
                    && r[i].sequence == r[j].sequence) by {
                    if j < rd.len() {
                    } else {
                        assert(r[j] == s.last());
                        assert(s.drop_last().contains(r[i]));
                        let k = choose|k: int|
                            0 <= k < s.drop_last().len() && s.drop_last()[k] == r[i];
                        assert(s[k] == r[i]);
                        assert(!(s[k].addr == s.last().addr && s[k].sequence
                            == s.last().sequence));
                    }
                }
            }
        }
    }
}

/// The elapsed time from `sent` to `now`, zero if the clock reads earlier
/// than the send (a monotonic clock never does).
pub open spec fn elapsed_spec(sent: u64, now: u64) -> u64 {
    if now >= sent {
        (now - sent) as u64
    } else {
        0
    }
}

/// Tracks the probes of one session that are still awaiting a reply.
#[derive(Debug)]
pub struct SessionTable {
    items: Vec<OutstandingPing>,
}

impl View for SessionTable {
    type V = Seq<OutstandingPing>;

    closed spec fn view(&self) -> Seq<OutstandingPing> {
        self.items@
    }
}

impl SessionTable {
    /// Whether the table is well formed: no two entries share a key.
    pub open spec fn wf(self) -> bool {
        keys_distinct(self@)
    }

    /// Creates an empty table.
    pub fn new() -> (t: SessionTable)
        ensures
            t@ =~= Seq::<OutstandingPing>::empty(),
            t.wf(),
    {
        SessionTable { items: Vec::new() }
    }

    /// Returns the number of probes still outstanding.
    pub fn len(&self) -> (n: usize)
        ensures
            n == self@.len(),
    {
        self.items.len()
    }

    /// Returns whether no probe is outstanding.
    pub fn is_empty(&self) -> (b: bool)
        ensures
            b == (self@.len() == 0),
    {
        self.items.len() == 0
    }

    /// Records a probe sent to `addr` with `sequence` at time `now`.
    pub fn insert(&mut self, addr: IpAddress, sequence: u16, now: u64)
        requires
            old(self).wf(),
            !has_key(old(self)@, addr, sequence),
        ensures
            final(self)@ == old(self)@.push(OutstandingPing { addr, sequence, sent_at: now }),
            final(self).wf(),
    {
        self.items.push(OutstandingPing { addr, sequence, sent_at: now });
        proof {
            let s = self@;
            let o = old(self)@;
            assert forall|i: int, j: int| 0 <= i < j < s.len() implies !(s[i].addr == s[j].addr
                && s[i].sequence == s[j].sequence) by {
                if j < o.len() {
                } else {
                    assert(s[j].addr == addr && s[j].sequence == sequence);
                    assert(!(o[i].addr == addr && o[i].sequence == sequence));
                }
            }
        }
    }

    /// Consumes the probe keyed (addr, sequence) and returns the time elapsed
    /// since it was sent; returns nothing and changes nothing if no such
    /// probe is outstanding.
    pub fn resolve(&mut self, addr: IpAddress, sequence: u16, now: u64) -> (r: Option<u64>)
        requires
            old(self).wf(),
        ensures
            final(self).wf(),
            r is None ==> !has_key(old(self)@, addr, sequence) && *final(self) == *old(self),
            r is Some ==> has_key(old(self)@, addr, sequence) && exists|i: int|
                {
                    &&& 0 <= i < old(self)@.len()
                    &&& old(self)@[i].addr == addr
                    &&& old(self)@[i].sequence == sequence
                    &&& r == Some(elapsed_spec(old(self)@[i].sent_at, now))
                    &&& final(self)@ == old(self)@.remove(i)
                },
    {
        let n: usize = self.items.len();
        let mut i: usize = 0;
        while i < n
            invariant
                i <= n,
                n == self@.len(),
                *self == *old(self),
                old(self).wf(),
                forall|k: int|
                    0 <= k < i ==> !(self@[k].addr == addr && self@[k].sequence == sequence),
            decreases n - i,
        {
            let e: OutstandingPing = self.items[i];
            if e.addr == addr && e.sequence == sequence {
                let removed: OutstandingPing = self.items.remove(i);
                let elapsed: u64 = if now >= removed.sent_at {
                    now - removed.sent_at
                } else {
                    0
                };
                proof {
                    let o = old(self)@;
                    let s = self@;
                    assert(s == o.remove(i as int));
                    assert forall|p: int, q: int| 0 <= p < q < s.len() implies !(s[p].addr
                        == s[q].addr && s[p].sequence == s[q].sequence) by {
                        let po: int = if p < i { p } else { p + 1 };
                        let qo: int = if q < i { q } else { q + 1 };
                        assert(s[p] == o[po]);
                        assert(s[q] == o[qo]);
                    }
                }
                return Some(elapsed);
            }
            i = i + 1;
        }
        None
    }

    /// Removes and returns every probe sent before `deadline`, in sending
    /// order; the probes sent at or after it stay.
    pub fn expire_all_before(&mut self, deadline: u64) -> (expired: Vec<OutstandingPing>)
        requires
            old(self).wf(),
        ensures
            final(self).wf(),
            expired@ == sent_before(old(self)@, deadline),
            final(self)@ == sent_since(old(self)@, deadline),
    {
        let n: usize = self.items.len();
        let mut kept: Vec<OutstandingPing> = Vec::new();
        let mut expired: Vec<OutstandingPing> = Vec::new();
        let mut i: usize = 0;
        while i < n
            invariant
                i <= n,
                n == self@.len(),
                self@ == old(self)@,
                kept@ == sent_since(self@.take(i as int), deadline),
                expired@ == sent_before(self@.take(i as int), deadline),
            decreases n - i,
        {
            let e: OutstandingPing = self.items[i];
            proof {
                assert(self@.take(i + 1 as int).drop_last() =~= self@.take(i as int));
                assert(self@.take(i + 1 as int).last() == self@[i as int]);
            }
            if e.sent_at < deadline {
                expired.push(e);
            } else {
                kept.push(e);
            }
            i = i + 1;
        }
        proof {
            assert(self@.take(n as int) =~= self@);
            lemma_sent_since_sub(old(self)@, deadline);
        }
        self.items = kept;
        expired
    }

    /// Removes every probe addressed to `addr`; the others stay, in order.
    pub fn remove_addr(&mut self, addr: IpAddress)
        requires
            old(self).wf(),
        ensures
            final(self).wf(),
            final(self)@ == other_addrs(old(self)@, addr),
    {
        let n: usize = self.items.len();
        let mut kept: Vec<OutstandingPing> = Vec::new();
        let mut i: usize = 0;
        while i < n
            invariant
                i <= n,
                n == self@.len(),
                self@ == old(self)@,
                kept@ == other_addrs(self@.take(i as int), addr),
            decreases n - i,
        {
            let e: OutstandingPing = self.items[i];
            proof {
                assert(self@.take(i + 1 as int).drop_last() =~= self@.take(i as int));
                assert(self@.take(i + 1 as int).last() == self@[i as int]);
            }
            if !(e.addr == addr) {
                kept.push(e);
            }
            i = i + 1;
        }
        proof {
            assert(self@.take(n as int) =~= self@);
            lemma_other_addrs_entries(old(self)@, addr);
        }
        self.items = kept;
    }

    /// Removes every probe, resolved or not.
    pub fn clear_all(&mut self)
        ensures
            final(self)@ =~= Seq::<OutstandingPing>::empty(),
            final(self).wf(),
    {
        self.items.clear();
    }
}

} // verus!
