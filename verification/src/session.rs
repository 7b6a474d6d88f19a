//! The ping session: the aggregate root of the engine.
//!
//! A session owns the tracked targets (unique by resolved address), the table
//! of outstanding probes, and the latest per-target round result. A round is
//! driven by the caller, who owns the sockets and the clock: `start_round`
//! allocates sequence numbers and hands back the serialized requests to
//! transmit; each received datagram is fed to `handle_datagram_v4` /
//! `handle_reply_v6`; `round_done` says when polling may stop; `finish_round`
//! closes the round (or cancels it early) and reports how many targets
//! replied. Targets that never got a reply keep the timeout sentinel written
//! at `start_round`, with no error. Rounds on one session never overlap: the
//! caller starts a new round only after finishing the previous one.

use vstd::prelude::*;
use vstd::pervasive::VecAdditionalExecFns;
use vstd::string::StringExecFns;

use crate::addr::AddrFamily;
use crate::addr::IpAddress;
use crate::packet::build_echo_request;
use crate::packet::echo_request_spec;
use crate::packet::embedded_echo_spec;
use crate::packet::extract_embedded_echo;
use crate::packet::parse_reply_v4;
use crate::packet::parse_reply_v4_spec;
use crate::result::ErrorKind;
use crate::result::IterInfoHandle;
use crate::result::PingIter;
use crate::result::RoundResult;
use crate::result::TIMEOUT_SENTINEL;
use crate::table::elapsed_spec;
use crate::table::has_key;
use crate::table::keys_distinct;
use crate::table::other_addrs;
use crate::table::OutstandingPing;
use crate::table::SessionTable;

verus! {

/// One monitored endpoint: the name the caller registered and the address a
/// resolver gave for it.
#[derive(Debug)]
pub struct AddressTarget {
    pub name: String,
    pub addr: IpAddress,
}

impl AddressTarget {
    /// The user-supplied name of the target.
    pub open spec fn spec_name(self) -> Seq<char> {
        self.name@
    }

    /// The resolved address of the target.
    pub open spec fn spec_addr(self) -> IpAddress {
        self.addr
    }

    /// Returns the name the target was registered under.
    pub fn name(&self) -> (r: String)
        ensures
            r@ == self.spec_name(),
    {
        String::from_str(self.name.as_str())
    }

    /// Returns the target's resolved address.
    pub fn address(&self) -> (r: IpAddress)
        ensures
            r == self.spec_addr(),
    {
        self.addr
    }
}

/// One transmission a round asks the caller to perform: the serialized echo
/// request and where to send it.
#[derive(Debug)]
pub struct EchoItem {
    /// The destination address; its family picks the socket.
    pub dest: IpAddress,
    /// The sequence number the request carries.
    pub sequence: u16,
    /// The serialized ICMP echo request.
    pub packet: Vec<u8>,
}

/// The sequence number allocated `i` steps after `base`, wrapping at the
/// 16-bit maximum.
pub open spec fn seq_at(base: u16, i: int) -> u16 {
    ((base + i) % 0x10000) as u16
}

/// The sequence numbers one round allocates for `count` targets, starting at
/// `base`.
pub open spec fn round_seqs(base: u16, count: int) -> Seq<u16> {
    Seq::new(count as nat, |i: int| seq_at(base, i))
}

/// The fixed pattern opening every request payload.
pub open spec fn payload_pattern() -> Seq<u8> {
    seq![0xA5u8, 0x50u8, 0x49u8, 0x4Eu8, 0x47u8, 0xA5u8, 0x5Au8, 0x5Au8]
}

/// The eight big-endian bytes of a 64-bit value.
pub open spec fn be64(x: u64) -> Seq<u8> {
    seq![
        (x / 0x100000000000000) as u8,
        ((x / 0x1000000000000) % 256) as u8,
        ((x / 0x10000000000) % 256) as u8,
        ((x / 0x100000000) % 256) as u8,
        ((x / 0x1000000) % 256) as u8,
        ((x / 0x10000) % 256) as u8,
        ((x / 0x100) % 256) as u8,
        (x % 256) as u8,
    ]
}

/// The payload every request of a round carries: the fixed pattern followed
/// by the send timestamp.
pub open spec fn payload_spec(now: u64) -> Seq<u8> {
    payload_pattern() + be64(now)
}

/// The latency recorded for a probe sent at `sent` and answered at `now`, in
/// microseconds, clamped into the result type.
pub open spec fn latency_of(sent: u64, now: u64) -> i64 {
    if elapsed_spec(sent, now) > 0x7FFFFFFFFFFFFFFF {
        0x7FFFFFFFFFFFFFFF as i64
    } else {
        elapsed_spec(sent, now) as i64
    }
}

/// Builds the request payload for a round sent at `now`.
fn payload_bytes(now: u64) -> (v: Vec<u8>)
    ensures
        v@ == payload_spec(now),
        v@.len() == 16,
{
    let mut v: Vec<u8> = Vec::new();
    v.push(0xA5);
    v.push(0x50);
    v.push(0x49);
    v.push(0x4E);
    v.push(0x47);
    v.push(0xA5);
    v.push(0x5A);
    v.push(0x5A);
    v.push((now / 0x100000000000000) as u8);
    v.push(((now / 0x1000000000000) % 256) as u8);
    v.push(((now / 0x10000000000) % 256) as u8);
    v.push(((now / 0x100000000) % 256) as u8);
    v.push(((now / 0x1000000) % 256) as u8);
    v.push(((now / 0x10000) % 256) as u8);
    v.push(((now / 0x100) % 256) as u8);
    v.push((now % 256) as u8);
    proof {
        assert(v@ =~= payload_spec(now));
    }
    v
}

/// A ping session: tracked targets, the outstanding-probe table, and the
/// latest round outcome per target.
#[derive(Debug)]
pub struct Ping {
    targets: Vec<AddressTarget>,
    results: Vec<RoundResult>,
    table: SessionTable,
    ident: u16,
    next_seq: u16,
    round_active: bool,
    deadline: u64,
    received: usize,
    round_size: usize,
}

impl Ping {
    /// The tracked targets, in insertion order.
    pub closed spec fn targets_seq(self) -> Seq<AddressTarget> {
        self.targets@
    }

    /// The latest per-target outcomes, parallel to the targets.
    pub closed spec fn results_seq(self) -> Seq<RoundResult> {
        self.results@
    }

    /// The outstanding probes, in sending order.
    pub closed spec fn table_seq(self) -> Seq<OutstandingPing> {
        self.table@
    }

    /// The session identifier every request carries.
    pub closed spec fn spec_ident(self) -> u16 {
        self.ident
    }

    /// The sequence number the next probe will carry.
    pub closed spec fn spec_next_seq(self) -> u16 {
        self.next_seq
    }

    /// Whether a round is underway.
    pub closed spec fn spec_round_active(self) -> bool {
        self.round_active
    }

    /// The deadline of the round underway.
    pub closed spec fn spec_deadline(self) -> u64 {
        self.deadline
    }

    /// How many targets have replied in the round underway.
    pub closed spec fn spec_received(self) -> int {
        self.received as int
    }

    /// How many probes the round underway transmitted.
    pub closed spec fn spec_round_size(self) -> int {
        self.round_size as int
    }

    /// Whether the session tracks a target resolved to `a`.
    pub open spec fn tracks(self, a: IpAddress) -> bool {
        exists|i: int| 0 <= i < self.targets_seq().len() && self.targets_seq()[i].spec_addr() == a
    }

    /// Well-formedness: one result per target, target addresses unique, the
    /// probe table well formed and only probing tracked addresses, no
    /// outstanding probe outside a round, and the reply count of the round
    /// underway bounded by the probes it sent.
    pub open spec fn wf(self) -> bool {
        &&& self.results_seq().len() == self.targets_seq().len()
        &&& forall|i: int, j: int|
            0 <= i < j < self.targets_seq().len() ==> self.targets_seq()[i].spec_addr()
                != self.targets_seq()[j].spec_addr()
        &&& keys_distinct(self.table_seq())
        &&& forall|k: int|
            0 <= k < self.table_seq().len() ==> self.tracks(#[trigger] self.table_seq()[k].addr)
        &&& !self.spec_round_active() ==> self.table_seq().len() == 0
        &&& self.spec_received() + self.table_seq().len() <= self.spec_round_size()
    }

    /// Creates an empty session whose requests will carry `ident`.
    pub fn new(ident: u16) -> (s: Ping)
        ensures
            s.wf(),
            s.targets_seq().len() == 0,
            s.results_seq().len() == 0,
            s.table_seq().len() == 0,
            s.spec_ident() == ident,
            s.spec_next_seq() == 0,
            !s.spec_round_active(),
    {
        Ping {
            targets: Vec::new(),
            results: Vec::new(),
            table: SessionTable::new(),
            ident,
            next_seq: 0,
            round_active: false,
            deadline: 0,
            received: 0,
            round_size: 0,
        }
    }

    /// Registers a target under `name`, resolved by an external resolver to
    /// `resolved` (or to nothing, when resolution failed). Fails when
    /// resolution failed or when the address is already tracked; on success
    /// appends the target with the placeholder outcome. Other targets are
    /// never affected.
    pub fn add_host(&mut self, name: &str, resolved: Option<IpAddress>) -> (r: Result<
        (),
        ErrorKind,
    >)
        requires
            old(self).wf(),
        ensures
            final(self).wf(),
            resolved is None ==> r == Err::<(), ErrorKind>(ErrorKind::ResolutionFailed)
                && *final(self) == *old(self),
            resolved matches Some(a) && old(self).tracks(a) ==> r == Err::<(), ErrorKind>(
                ErrorKind::DuplicateHost,
            ) && *final(self) == *old(self),
            resolved matches Some(a) ==> !old(self).tracks(a) ==> {
                &&& r == Ok::<(), ErrorKind>(())
                &&& final(self).targets_seq().len() == old(self).targets_seq().len() + 1
                &&& final(self).targets_seq().take(old(self).targets_seq().len() as int)
                    == old(self).targets_seq()
                &&& final(self).targets_seq().last().spec_name() == name@
                &&& final(self).targets_seq().last().spec_addr() == a
                &&& final(self).results_seq() == old(self).results_seq().push(
                    RoundResult::placeholder_spec(),
                )
                &&& final(self).table_seq() == old(self).table_seq()
                &&& final(self).spec_ident() == old(self).spec_ident()
                &&& final(self).spec_next_seq() == old(self).spec_next_seq()
                &&& final(self).spec_round_active() == old(self).spec_round_active()
                &&& final(self).spec_deadline() == old(self).spec_deadline()
                &&& final(self).spec_received() == old(self).spec_received()
                &&& final(self).spec_round_size() == old(self).spec_round_size()
            },
    {
        let a: IpAddress = match resolved {
            None => {
                return Err(ErrorKind::ResolutionFailed);
            },
            Some(a) => a,
        };
        let n: usize = self.targets.len();
        let mut i: usize = 0;
        while i < n
            invariant
                i <= n,
                n == self.targets@.len(),
                self == old(self),
                old(self).wf(),
                resolved == Some(a),
                forall|k: int| 0 <= k < i ==> self.targets@[k].spec_addr() != a,
            decreases n - i,
        {
            if self.targets[i].addr == a {
                proof {
                    assert(old(self).targets_seq()[i as int].spec_addr() == a);
                }
                return Err(ErrorKind::DuplicateHost);
            }
            i = i + 1;
        }
        self.targets.push(AddressTarget { name: String::from_str(name), addr: a });
        self.results.push(RoundResult::placeholder());
        proof {
            assert(self.targets_seq().take(old(self).targets_seq().len() as int)
                =~= old(self).targets_seq());
            assert forall|k: int|
                0 <= k < self.table_seq().len() implies self.tracks(
                #[trigger] self.table_seq()[k].addr,
            ) by {
                assert(old(self).tracks(old(self).table_seq()[k].addr));
                let w = choose|w: int|
                    0 <= w < old(self).targets_seq().len() && old(self).targets_seq()[
                        w
                    ].spec_addr() == old(self).table_seq()[k].addr;
                assert(self.targets_seq()[w].spec_addr() == self.table_seq()[k].addr);
            }
        }
        Ok(())
    }

    /// Drops the first target registered under `name`, its latest outcome and
    /// its outstanding probes; fails when no tracked target has that name.
    pub fn remove_host(&mut self, name: &str) -> (r: Result<(), ErrorKind>)
        requires
            old(self).wf(),
        ensures
            final(self).wf(),
            (forall|i: int|
                0 <= i < old(self).targets_seq().len() ==> old(self).targets_seq()[i].spec_name()
                    != name@) ==> r == Err::<(), ErrorKind>(ErrorKind::HostNotFound) && *final(self)
                == *old(self),
            (exists|i: int|
                0 <= i < old(self).targets_seq().len() && old(self).targets_seq()[i].spec_name()
                    == name@) ==> {
                &&& r == Ok::<(), ErrorKind>(())
                &&& exists|i: int|
                    {
                        &&& 0 <= i < old(self).targets_seq().len()
                        &&& old(self).targets_seq()[i].spec_name() == name@
                        &&& forall|k: int|
                            0 <= k < i ==> old(self).targets_seq()[k].spec_name() != name@
                        &&& final(self).targets_seq() == old(self).targets_seq().remove(i)
                        &&& final(self).results_seq() == old(self).results_seq().remove(i)
                        &&& final(self).table_seq() == other_addrs(
                            old(self).table_seq(),
                            old(self).targets_seq()[i].spec_addr(),
                        )
                    }
                &&& final(self).spec_ident() == old(self).spec_ident()
                &&& final(self).spec_next_seq() == old(self).spec_next_seq()
                &&& final(self).spec_round_active() == old(self).spec_round_active()
                &&& final(self).spec_deadline() == old(self).spec_deadline()
                &&& final(self).spec_received() == old(self).spec_received()
                &&& final(self).spec_round_size() == old(self).spec_round_size()
            },
    {
        let n: usize = self.targets.len();
        let mut i: usize = 0;
        while i < n
            invariant
                i <= n,
                n == self.targets@.len(),
                self == old(self),
                old(self).wf(),
                forall|k: int| 0 <= k < i ==> self.targets@[k].spec_name() != name@,
            decreases n - i,
        {
            if string_eq_str(&self.targets[i].name, name) {
                let ghost idx: int = i as int;
                let removed: AddressTarget = self.targets.remove(i);
                let _ = self.results.remove(i);
                self.table.remove_addr(removed.addr);
                proof {
                    let o = old(self);
                    let s = *self;
                    assert forall|p: int, q: int|
                        0 <= p < q < s.targets_seq().len() implies s.targets_seq()[p].spec_addr()
                        != s.targets_seq()[q].spec_addr() by {
                        let po: int = if p < idx {
                            p
                        } else {
                            p + 1
                        };
                        let qo: int = if q < idx {
                            q
                        } else {
                            q + 1
                        };
                        assert(s.targets_seq()[p] == o.targets_seq()[po]);
                        assert(s.targets_seq()[q] == o.targets_seq()[qo]);
                    }
                    crate::table::lemma_other_addrs_entries(
                        o.table_seq(),
                        o.targets_seq()[idx].spec_addr(),
                    );
                    assert forall|k: int|
                        0 <= k < s.table_seq().len() implies s.tracks(
                        #[trigger] s.table_seq()[k].addr,
                    ) by {
                        let e = s.table_seq()[k];
                        assert(o.table_seq().contains(e));
                        let w = choose|w: int|
                            0 <= w < o.table_seq().len() && o.table_seq()[w] == e;
                        assert(o.tracks(e.addr));
                        let t = choose|t: int|
                            0 <= t < o.targets_seq().len() && o.targets_seq()[t].spec_addr()
                                == e.addr;
                        assert(t != idx);
                        let tn: int = if t < idx {
                            t
                        } else {
                            t - 1
                        };
                        assert(s.targets_seq()[tn] == o.targets_seq()[t]);
                        assert(s.targets_seq()[tn].spec_addr() == e.addr);
                    }
                    assert(crate::table::keys_distinct(s.table_seq()));
                }
                return Ok(());
            }
            i = i + 1;
        }
        Err(ErrorKind::HostNotFound)
    }

    /// Returns a fresh snapshot over the current per-target outcomes, in
    /// target insertion order. Reading it consumes nothing of the session:
    /// a later call starts over on the state of that moment.
    pub fn iter(&self) -> (it: PingIter)
        requires
            self.wf(),
        ensures
            it.remaining().len() == self.targets_seq().len(),
            forall|i: int|
                0 <= i < it.remaining().len() ==> {
                    &&& (#[trigger] it.remaining()[i]).spec_name()
                        == self.targets_seq()[i].spec_name()
                    &&& it.remaining()[i].spec_addr() == self.targets_seq()[i].spec_addr()
                    &&& it.remaining()[i].spec_result() == self.results_seq()[i]
                },
    {
        let n: usize = self.targets.len();
        let mut items: Vec<IterInfoHandle> = Vec::new();
        let mut i: usize = 0;
        while i < n
            invariant
                i <= n,
                n == self.targets@.len(),
                self.wf(),
                items@.len() == i,
                forall|k: int|
                    0 <= k < i ==> {
                        &&& (#[trigger] items@[k]).spec_name() == self.targets@[k].spec_name()
                        &&& items@[k].spec_addr() == self.targets@[k].spec_addr()
                        &&& items@[k].spec_result() == self.results@[k]
                    },
            decreases n - i,
        {
            let t: &AddressTarget = &self.targets[i];
            let h = IterInfoHandle {
                name: String::from_str(t.name.as_str()),
                addr: t.addr,
                result: self.results[i],
            };
            let ghost gh = h;
            items.push(h);
            proof {
                assert(items@[i as int] == gh);
            }
            i = i + 1;
        }
        PingIter { items }
    }

    /// Opens a round sent at `now` with the given timeout (both in
    /// microseconds of a monotonic clock): allocates one consecutive sequence
    /// number per target (wrapping at the 16-bit maximum), records one
    /// outstanding probe per target, resets every target's outcome to the
    /// pending timeout sentinel, and returns the serialized requests for the
    /// caller to transmit. Rounds never overlap: one must be finished before
    /// the next starts.
    pub fn start_round(&mut self, now: u64, timeout_us: u64) -> (plan: Vec<EchoItem>)
        requires
            old(self).wf(),
            !old(self).spec_round_active(),
            now + timeout_us <= u64::MAX,
        ensures
            final(self).wf(),
            final(self).spec_round_active(),
            final(self).spec_deadline() == now + timeout_us,
            final(self).spec_received() == 0,
            final(self).spec_round_size() == old(self).targets_seq().len(),
            final(self).targets_seq() == old(self).targets_seq(),
            final(self).spec_ident() == old(self).spec_ident(),
            final(self).spec_next_seq() == seq_at(
                old(self).spec_next_seq(),
                old(self).targets_seq().len() as int,
            ),
            final(self).results_seq().len() == old(self).results_seq().len(),
            forall|i: int|
                0 <= i < final(self).results_seq().len() ==> final(self).results_seq()[i]
                    == RoundResult::pending_spec(seq_at(old(self).spec_next_seq(), i)),
            final(self).table_seq().len() == old(self).targets_seq().len(),
            forall|i: int|
                0 <= i < final(self).table_seq().len() ==> final(self).table_seq()[i]
                    == (OutstandingPing {
                    addr: old(self).targets_seq()[i].spec_addr(),
                    sequence: seq_at(old(self).spec_next_seq(), i),
                    sent_at: now,
                }),
            plan@.len() == old(self).targets_seq().len(),
            forall|i: int|
                0 <= i < plan@.len() ==> {
                    &&& (#[trigger] plan@[i]).dest == old(self).targets_seq()[i].spec_addr()
                    &&& plan@[i].sequence == seq_at(old(self).spec_next_seq(), i)
                    &&& plan@[i].packet@ == echo_request_spec(
                        old(self).targets_seq()[i].spec_addr().spec_family(),
                        old(self).spec_ident(),
                        seq_at(old(self).spec_next_seq(), i),
                        payload_spec(now),
                    )
                },
    {
        self.round_active = true;
        self.deadline = now + timeout_us;
        self.received = 0;
        self.round_size = self.targets.len();
        let ghost base: u16 = self.next_seq;
        let n: usize = self.targets.len();
        let payload: Vec<u8> = payload_bytes(now);
        let mut plan: Vec<EchoItem> = Vec::new();
        let mut i: usize = 0;
        while i < n
            invariant
                i <= n,
                old(self).wf(),
                n == self.targets@.len(),
                self.targets@ == old(self).targets@,
                self.results@.len() == n,
                self.ident == old(self).ident,
                self.round_active,
                self.deadline == now + timeout_us,
                self.received == 0,
                self.round_size == n,
                base == old(self).next_seq,
                payload@ == payload_spec(now),
                payload@.len() == 16,
                self.next_seq == seq_at(base, i as int),
                self.table@.len() == i,
                forall|k: int|
                    0 <= k < i ==> self.table@[k] == (OutstandingPing {
                        addr: self.targets@[k].spec_addr(),
                        sequence: seq_at(base, k),
                        sent_at: now,
                    }),
                keys_distinct(self.table@),
                forall|k: int|
                    0 <= k < i ==> self.results@[k] == RoundResult::pending_spec(seq_at(base, k)),
                plan@.len() == i,
                forall|k: int|
                    0 <= k < i ==> {
                        &&& (#[trigger] plan@[k]).dest == self.targets@[k].spec_addr()
                        &&& plan@[k].sequence == seq_at(base, k)
                        &&& plan@[k].packet@ == echo_request_spec(
                            self.targets@[k].spec_addr().spec_family(),
                            self.ident,
                            seq_at(base, k),
                            payload_spec(now),
                        )
                    },
            decreases n - i,
        {
            let t_addr: IpAddress = self.targets[i].addr;
            let fam: AddrFamily = t_addr.family();
            let s: u16 = self.next_seq;
            let pkt: Vec<u8> = build_echo_request(fam, self.ident, s, payload.as_slice());
            proof {
                assert forall|k: int| 0 <= k < self.table@.len() implies !(
                #[trigger] self.table@[k].addr == t_addr && self.table@[k].sequence == s) by {
                    assert(self.targets@[k].spec_addr() != self.targets@[i as int].spec_addr());
                }
                assert(!has_key(self.table@, t_addr, s));
            }
            self.table.insert(t_addr, s, now);
            self.results.set(
                i,
                RoundResult { sequence: s, ttl: 0, latency_us: TIMEOUT_SENTINEL, error: None },
            );
            plan.push(EchoItem { dest: t_addr, sequence: s, packet: pkt });
            let ns: u16 = if self.next_seq == 0xFFFF {
                0
            } else {
                self.next_seq + 1
            };
            proof {
                vstd::arithmetic::div_mod::lemma_add_mod_noop(base + i, 1, 0x10000);
                if self.next_seq == 0xFFFF {
                    assert(ns == seq_at(base, i + 1));
                } else {
                    vstd::arithmetic::div_mod::lemma_small_mod((self.next_seq + 1) as nat, 0x10000);
                    assert(ns == seq_at(base, i + 1));
                }
            }
            self.next_seq = ns;
            i = i + 1;
        }
        proof {
            assert forall|k: int|
                0 <= k < self.table@.len() implies self.tracks(
                #[trigger] self.table@[k].addr,
            ) by {
                assert(self.targets_seq()[k].spec_addr() == self.table@[k].addr);
            }
        }
        plan
    }

    /// Whether the poll loop of a round may stop at time `now`: every probe
    /// is resolved, or the deadline has passed. Past the deadline this holds
    /// whatever is still outstanding, so a round never outlives its timeout
    /// by more than one poll step.
    pub open spec fn round_done_spec(self, now: u64) -> bool {
        self.table_seq().len() == 0 || now >= self.spec_deadline()
    }

    /// Returns whether the poll loop of the round may stop at time `now`.
    pub fn round_done(&self, now: u64) -> (b: bool)
        ensures
            b == self.round_done_spec(now),
    {
        self.table.is_empty() || now >= self.deadline
    }

    /// Closes the round and returns how many targets replied before it
    /// closed. Every still-outstanding probe expires: its target keeps the
    /// timeout sentinel written when the round started. Calling this before
    /// the deadline is the cooperative cancellation of the round: unresolved
    /// targets expire immediately, the same way.
    pub fn finish_round(&mut self) -> (count: usize)
        requires
            old(self).wf(),
        ensures
            final(self).wf(),
            !final(self).spec_round_active(),
            final(self).table_seq().len() == 0,
            count == old(self).spec_received(),
            final(self).targets_seq() == old(self).targets_seq(),
            final(self).results_seq() == old(self).results_seq(),
            final(self).spec_ident() == old(self).spec_ident(),
            final(self).spec_next_seq() == old(self).spec_next_seq(),
    {
        let count: usize = self.received;
        self.table.clear_all();
        self.round_active = false;
        count
    }

    /// Records that the round's request to the target at `index` could not be
    /// transmitted: the target's outcome becomes a `TransmitFailed` error for
    /// this round and its outstanding probe is withdrawn. Other targets are
    /// not affected.
    pub fn note_send_failure(&mut self, index: usize)
        requires
            old(self).wf(),
            index < old(self).targets_seq().len(),
        ensures
            final(self).wf(),
            final(self).results_seq() == old(self).results_seq().update(
                index as int,
                RoundResult {
                    sequence: old(self).results_seq()[index as int].sequence,
                    ttl: 0,
                    latency_us: TIMEOUT_SENTINEL,
                    error: Some(ErrorKind::TransmitFailed),
                },
            ),
            final(self).table_seq() == other_addrs(
                old(self).table_seq(),
                old(self).targets_seq()[index as int].spec_addr(),
            ),
            final(self).targets_seq() == old(self).targets_seq(),
            final(self).spec_ident() == old(self).spec_ident(),
            final(self).spec_next_seq() == old(self).spec_next_seq(),
            final(self).spec_round_active() == old(self).spec_round_active(),
            final(self).spec_deadline() == old(self).spec_deadline(),
            final(self).spec_received() == old(self).spec_received(),
    {
        let addr: IpAddress = self.targets[index].addr;
        let seq_sent: u16 = self.results[index].sequence;
        self.results.set(
            index,
            RoundResult {
                sequence: seq_sent,
                ttl: 0,
                latency_us: TIMEOUT_SENTINEL,
                error: Some(ErrorKind::TransmitFailed),
            },
        );
        self.table.remove_addr(addr);
        proof {
            crate::table::lemma_other_addrs_entries(old(self).table_seq(), addr);
            assert forall|k: int|
                0 <= k < self.table_seq().len() implies self.tracks(
                #[trigger] self.table_seq()[k].addr,
            ) by {
                let e = self.table_seq()[k];
                assert(old(self).table_seq().contains(e));
                assert(old(self).tracks(e.addr));
                let t = choose|t: int|
                    0 <= t < old(self).targets_seq().len() && old(self).targets_seq()[
                        t
                    ].spec_addr() == e.addr;
                assert(self.targets_seq()[t].spec_addr() == e.addr);
            }
        }
    }

    /// Whether a parsed reply is the matched echo answer of an outstanding
    /// probe of this session: an echo-reply type, the session's identifier,
    /// and a live probe keyed by the reply's source address and sequence.
    pub open spec fn reply_matches(self, rep: crate::packet::ParsedReply) -> bool {
        &&& rep.msg.icmp_type == 0
        &&& rep.msg.ident == self.spec_ident()
        &&& has_key(self.table_seq(), rep.source, rep.msg.sequence)
    }

    /// The resolution of one probe: entry `j` of the old table, keyed
    /// (`addr`, `sequence`), left the table, and the outcome of the target
    /// resolved to `addr` became `outcome(sent_at of that entry)`.
    pub open spec fn resolves_probe(
        self,
        post: Ping,
        addr: IpAddress,
        sequence: u16,
        outcome: spec_fn(u64) -> RoundResult,
    ) -> bool {
        exists|j: int, t: int|
            {
                &&& 0 <= j < self.table_seq().len()
                &&& self.table_seq()[j].addr == addr
                &&& self.table_seq()[j].sequence == sequence
                &&& post.table_seq() == self.table_seq().remove(j)
                &&& 0 <= t < self.targets_seq().len()
                &&& self.targets_seq()[t].spec_addr() == addr
                &&& post.results_seq() == self.results_seq().update(
                    t,
                    outcome(self.table_seq()[j].sent_at),
                )
            }
    }

    /// Feeds one datagram received on the IPv4 socket at time `now` into the
    /// session and returns whether it was the matched reply of an outstanding
    /// probe. A matched echo reply (session identifier, live probe keyed by
    /// source address and sequence) resolves its probe and records latency
    /// and TTL; a time-exceeded report whose quoted request matches a live
    /// probe resolves that probe as a router-hop error; everything else —
    /// malformed bytes, a bad checksum, a foreign identifier, an unsolicited
    /// or duplicate reply — is discarded silently and changes nothing.
    pub fn handle_datagram_v4(&mut self, datagram: &[u8], now: u64) -> (accepted: bool)
        requires
            old(self).wf(),
        ensures
            final(self).wf(),
            final(self).targets_seq() == old(self).targets_seq(),
            final(self).spec_ident() == old(self).spec_ident(),
            final(self).spec_next_seq() == old(self).spec_next_seq(),
            final(self).spec_round_active() == old(self).spec_round_active(),
            final(self).spec_deadline() == old(self).spec_deadline(),
            final(self).spec_round_size() == old(self).spec_round_size(),
            parse_reply_v4_spec(datagram@) is None ==> !accepted && *final(self) == *old(self),
            parse_reply_v4_spec(datagram@) matches Some(rep) ==> {
                &&& accepted == old(self).reply_matches(rep)
                &&& accepted ==> {
                    &&& final(self).spec_received() == old(self).spec_received() + 1
                    &&& old(self).resolves_probe(
                        *final(self),
                        rep.source,
                        rep.msg.sequence,
                        |sent: u64|
                            RoundResult {
                                sequence: rep.msg.sequence,
                                ttl: rep.ttl,
                                latency_us: latency_of(sent, now),
                                error: None,
                            },
                    )
                }
                &&& !accepted ==> final(self).spec_received() == old(self).spec_received()
                &&& (!accepted && rep.msg.icmp_type == 11) ==> {
                    let emb = embedded_echo_spec(
                        datagram@.skip(((datagram@[0] % 16) * 4) as int),
                    );
                    &&& emb is None ==> *final(self) == *old(self)
                    &&& emb matches Some(e) ==> (if e.ident == old(self).spec_ident() && has_key(
                        old(self).table_seq(),
                        IpAddress::V4(e.dest),
                        e.sequence,
                    ) {
                        old(self).resolves_probe(
                            *final(self),
                            IpAddress::V4(e.dest),
                            e.sequence,
                            |sent: u64|
                                RoundResult {
                                    sequence: e.sequence,
                                    ttl: 0,
                                    latency_us: TIMEOUT_SENTINEL,
                                    error: Some(ErrorKind::TimeExceeded),
                                },
                        )
                    } else {
                        *final(self) == *old(self)
                    })
                }
                &&& (!accepted && rep.msg.icmp_type != 11) ==> *final(self) == *old(self)
            },
    {
        let rep = match parse_reply_v4(datagram) {
            None => {
                return false;
            },
            Some(rep) => rep,
        };
        if rep.msg.icmp_type == 0 {
            if rep.msg.ident != self.ident {
                return false;
            }
            self.resolve_match(rep.source, rep.msg.sequence, rep.ttl, now, true)
        } else if rep.msg.icmp_type == 11 {
            let first: u8 = datagram[0];
            let hlen: usize = (first as usize % 16) * 4;
            let icmp: &[u8] = vstd::slice::slice_subrange(datagram, hlen, datagram.len());
            proof {
                assert(icmp@ =~= datagram@.skip(hlen as int));
            }
            match extract_embedded_echo(icmp) {
                None => false,
                Some(e) => {
                    if e.ident != self.ident {
                        return false;
                    }
                    let _ = self.resolve_match(IpAddress::V4(e.dest), e.sequence, 0, now, false);
                    false
                },
            }
        } else {
            false
        }
    }

    /// Feeds one ICMPv6 message received at time `now`, together with the
    /// sender's address and the hop limit of its enclosing header, into the
    /// session, and returns whether it was the matched echo reply of an
    /// outstanding probe. Anything but a matched reply changes nothing.
    pub fn handle_reply_v6(&mut self, msg: &[u8], source: IpAddress, hoplimit: u8, now: u64) -> (accepted: bool)
        requires
            old(self).wf(),
        ensures
            final(self).wf(),
            final(self).targets_seq() == old(self).targets_seq(),
            final(self).spec_ident() == old(self).spec_ident(),
            final(self).spec_next_seq() == old(self).spec_next_seq(),
            final(self).spec_round_active() == old(self).spec_round_active(),
            final(self).spec_deadline() == old(self).spec_deadline(),
            final(self).spec_round_size() == old(self).spec_round_size(),
            crate::packet::parse_icmp_spec(msg@) is None ==> !accepted && *final(self) == *old(
                self,
            ),
            crate::packet::parse_icmp_spec(msg@) matches Some(m) ==> {
                &&& accepted == (m.icmp_type == 129 && m.ident == old(self).spec_ident()
                    && has_key(old(self).table_seq(), source, m.sequence))
                &&& accepted ==> {
                    &&& final(self).spec_received() == old(self).spec_received() + 1
                    &&& old(self).resolves_probe(
                        *final(self),
                        source,
                        m.sequence,
                        |sent: u64|
                            RoundResult {
                                sequence: m.sequence,
                                ttl: hoplimit,
                                latency_us: latency_of(sent, now),
                                error: None,
                            },
                    )
                }
                &&& !accepted ==> *final(self) == *old(self)
            },
    {
        let m = match crate::packet::parse_icmp(msg) {
            None => {
                return false;
            },
            Some(m) => m,
        };
        if m.icmp_type != 129 || m.ident != self.ident {
            return false;
        }
        self.resolve_match(source, m.sequence, hoplimit, now, true)
    }

    /// Resolves the outstanding probe keyed (`addr`, `sequence`), writing the
    /// reply outcome (latency and `ttl`) when `replied`, and the router-hop
    /// `TimeExceeded` outcome otherwise. Returns whether a probe was
    /// resolved as a reply; with no such probe outstanding nothing changes.
    fn resolve_match(
        &mut self,
        addr: IpAddress,
        sequence: u16,
        ttl: u8,
        now: u64,
        replied: bool,
    ) -> (accepted: bool)
        requires
            old(self).wf(),
        ensures
            final(self).wf(),
            final(self).targets_seq() == old(self).targets_seq(),
            final(self).spec_ident() == old(self).spec_ident(),
            final(self).spec_next_seq() == old(self).spec_next_seq(),
            final(self).spec_round_active() == old(self).spec_round_active(),
            final(self).spec_deadline() == old(self).spec_deadline(),
            final(self).spec_round_size() == old(self).spec_round_size(),
            accepted == (replied && has_key(old(self).table_seq(), addr, sequence)),
            !has_key(old(self).table_seq(), addr, sequence) ==> *final(self) == *old(self),
            has_key(old(self).table_seq(), addr, sequence) ==> {
                &&& old(self).resolves_probe(
                    *final(self),
                    addr,
                    sequence,
                    |sent: u64|
                        if replied {
                            RoundResult {
                                sequence,
                                ttl,
                                latency_us: latency_of(sent, now),
                                error: None,
                            }
                        } else {
                            RoundResult {
                                sequence,
                                ttl: 0,
                                latency_us: TIMEOUT_SENTINEL,
                                error: Some(ErrorKind::TimeExceeded),
                            }
                        },
                )
                &&& replied ==> final(self).spec_received() == old(self).spec_received() + 1
                &&& !replied ==> final(self).spec_received() == old(self).spec_received()
            },
    {
        let elapsed: u64 = match self.table.resolve(addr, sequence, now) {
            None => {
                return false;
            },
            Some(elapsed) => elapsed,
        };
        let ghost mid = *self;
        let n: usize = self.targets.len();
        let mut t: usize = 0;
        proof {
            let j = choose|j: int|
                {
                    &&& 0 <= j < old(self).table_seq().len()
                    &&& old(self).table_seq()[j].addr == addr
                    &&& old(self).table_seq()[j].sequence == sequence
                    &&& Some(elapsed) == Some(
                        elapsed_spec(old(self).table_seq()[j].sent_at, now),
                    )
                    &&& self.table_seq() == old(self).table_seq().remove(j)
                };
            assert(old(self).tracks(old(self).table_seq()[j].addr));
        }
        while t < n && !(self.targets[t].addr == addr)
            invariant
                t <= n,
                n == self.targets@.len(),
                *self == mid,
                exists|w: int| 0 <= w < n && self.targets@[w].spec_addr() == addr,
                forall|k: int| 0 <= k < t ==> self.targets@[k].spec_addr() != addr,
            decreases n - t,
        {
            t = t + 1;
        }
        proof {
            if t == n {
                let w = choose|w: int| 0 <= w < n && self.targets@[w].spec_addr() == addr;
                assert(false);
            }
        }
        let outcome: RoundResult = if replied {
            let lat: i64 = if elapsed > 0x7FFFFFFFFFFFFFFF {
                0x7FFFFFFFFFFFFFFF
            } else {
                elapsed as i64
            };
            RoundResult { sequence, ttl, latency_us: lat, error: None }
        } else {
            RoundResult {
                sequence,
                ttl: 0,
                latency_us: TIMEOUT_SENTINEL,
                error: Some(ErrorKind::TimeExceeded),
            }
        };
        self.results.set(t, outcome);
        if replied {
            proof {
                assert(old(self).spec_received() + old(self).table_seq().len() <= old(
                    self,
                ).spec_round_size());
            }
            self.received = self.received + 1;
        }
        proof {
            let o = *old(self);
            let j = choose|j: int|
                {
                    &&& 0 <= j < o.table_seq().len()
                    &&& o.table_seq()[j].addr == addr
                    &&& o.table_seq()[j].sequence == sequence
                    &&& Some(elapsed) == Some(elapsed_spec(o.table_seq()[j].sent_at, now))
                    &&& self.table_seq() == o.table_seq().remove(j)
                };
            assert(elapsed == elapsed_spec(o.table_seq()[j].sent_at, now));
            assert(outcome == if replied {
                RoundResult {
                    sequence,
                    ttl,
                    latency_us: latency_of(o.table_seq()[j].sent_at, now),
                    error: None,
                }
            } else {
                RoundResult {
                    sequence,
                    ttl: 0,
                    latency_us: TIMEOUT_SENTINEL,
                    error: Some(ErrorKind::TimeExceeded),
                }
            });
            assert forall|k: int|
                0 <= k < self.table_seq().len() implies self.tracks(
                #[trigger] self.table_seq()[k].addr,
            ) by {
                let ko: int = if k < j {
                    k
                } else {
                    k + 1
                };
                assert(self.table_seq()[k] == o.table_seq()[ko]);
                assert(o.tracks(o.table_seq()[ko].addr));
                let w = choose|w: int|
                    0 <= w < o.targets_seq().len() && o.targets_seq()[w].spec_addr() == o.table_seq()[ko].addr;
                assert(self.targets_seq()[w].spec_addr() == self.table_seq()[k].addr);
            }
        }
        replied
    }
}

impl Default for Ping {
    /// An empty session whose requests carry identifier zero.
    fn default() -> (s: Ping)
        ensures
            s.wf(),
            s.targets_seq().len() == 0,
            s.results_seq().len() == 0,
            s.table_seq().len() == 0,
            s.spec_ident() == 0,
            s.spec_next_seq() == 0,
            !s.spec_round_active(),
    {
        Ping::new(0)
    }
}

/// The tracked-target set always matches the applied operations exactly: in
/// any well-formed session — and every session reachable by `new`, `add_host`
/// and `remove_host` is well formed — no two tracked targets share a resolved
/// address. Together with the contracts of `add_host` (a tracked address is
/// refused as `DuplicateHost`, an unresolved name as `ResolutionFailed`,
/// anything else appended exactly once) and `remove_host` (an absent name
/// fails as `HostNotFound`, a present one removes exactly its first holder),
/// the target set is exactly what the successful operations built.
pub proof fn lemma_no_duplicate_targets(s: Ping, i: int, j: int)
    requires
        s.wf(),
        0 <= i < j < s.targets_seq().len(),
    ensures
        s.targets_seq()[i].spec_addr() != s.targets_seq()[j].spec_addr(),
{
}

/// Once the clock reaches the round's deadline, the poll loop may stop,
/// however many targets are tracked and however many probes are still
/// outstanding: a round never outlives its timeout by more than the one poll
/// step that observes the deadline.
pub proof fn lemma_deadline_stops_polling(s: Ping, now: u64)
    requires
        now >= s.spec_deadline(),
    ensures
        s.round_done_spec(now),
{
}

/// Sequence numbers are allocated by one session-scoped counter that wraps at
/// the 16-bit maximum: the numbers of a round of `n1` probes followed by a
/// round of `n2` probes are exactly the `n1 + n2` consecutive counter values
/// from the same base, so consecutive rounds produce monotonically
/// non-decreasing sequence numbers modulo the wraparound.
pub proof fn lemma_rounds_allocate_consecutively(base: u16, n1: int, n2: int)
    requires
        0 <= n1,
        0 <= n2,
    ensures
        round_seqs(base, n1) + round_seqs(seq_at(base, n1), n2) =~= round_seqs(base, n1 + n2),
{
    assert forall|i: int|
        0 <= i < n1 + n2 implies (round_seqs(base, n1) + round_seqs(seq_at(base, n1), n2))[i]
        == seq_at(base, i) by {
        if i >= n1 {
            let d = i - n1;
            vstd::arithmetic::div_mod::lemma_add_mod_noop_right(d, base + n1, 0x10000);
            assert(seq_at(seq_at(base, n1), d) == seq_at(base, i));
        }
    }
}

/// Compares a stored name with a query.
fn string_eq_str(s: &String, t: &str) -> (b: bool)
    ensures
        b == (s@ == t@),
{
    let t_owned: String = String::from_str(t);
    s.eq(&t_owned)
}

} // verus!
