//! The in-process transport: a connection registry and rendezvous, modelling
//! two participants in the same process without a real socket.
//!
//! A registry maps a numeric listen address to a listener.  Connecting to a
//! registered address performs the rendezvous: a fresh connection pair is
//! created, one endpoint is returned to the connector, the other is queued
//! with a freshly allocated connection id for the listener to accept.
//! Connecting to an address nobody listens on fails with `NotListening`.
//! Stopping a listener unregisters its address, so the entry does not
//! outlive it.
use crate::channel::{ProtocolMetricCache, Protocols};
use crate::listener::CidAllocator;
use crate::types::{Cid, ConnectError};
use vstd::prelude::*;

verus! {

/// A connection endpoint as the rendezvous creates it: an in-process
/// variant, open, with nothing buffered and no handshake begun.
pub open spec fn fresh_conn(p: Protocols) -> bool {
    &&& p is Mpsc
    &&& p.pair().send@.wf()
    &&& p.pair().send@.streams.len() == 0
    &&& p.pair().send@.outbox.len() == 0
    &&& !p.pair().send@.closed
    &&& p.pair().recv@.inbox.len() == 0
    &&& p.pair().recv@.init_inbox.len() == 0
    &&& p.pair().recv@.wire.len() == 0
    &&& !p.pair().recv@.closed
    &&& p.pair().init is None
}

/// One in-process listener: what connectors have queued for it, and whether
/// it still accepts.
pub struct InProcListener {
    pub addr: u64,
    pub accepted: Vec<(Protocols, Cid)>,
    pub open: bool,
}

/// The process-wide state of the in-process transport: the address table,
/// the listeners it points at, and the shared connection id counter.
pub struct InProcNetwork {
    pub registry: Vec<(u64, usize)>,
    pub listeners: Vec<InProcListener>,
    pub cids: CidAllocator,
}

/// Index of `addr` in the registry, or `-1` when nobody listens on it.
pub open spec fn lookup(reg: Seq<(u64, usize)>, addr: u64) -> int
    decreases reg.len(),
{
    if reg.len() == 0 {
        -1
    } else if reg[0].0 == addr {
        0
    } else {
        let r = lookup(reg.skip(1), addr);
        if r < 0 {
            -1
        } else {
            r + 1
        }
    }
}

/// A negative lookup means no entry carries the address.
pub proof fn lemma_lookup_absent(reg: Seq<(u64, usize)>, addr: u64)
    requires
        lookup(reg, addr) < 0,
    ensures
        forall|i: int| 0 <= i < reg.len() ==> (#[trigger] reg[i]).0 != addr,
    decreases reg.len(),
{
    if reg.len() != 0 {
        lemma_lookup_absent(reg.skip(1), addr);
        assert forall|i: int| 0 <= i < reg.len() implies (#[trigger] reg[i]).0 != addr by {
            if i > 0 {
                assert(reg[i] == reg.skip(1)[i - 1]);
            }
        }
    }
}

/// Every registry entry points at a live listener bound to that address.
pub open spec fn registry_ok(reg: Seq<(u64, usize)>, ls: Seq<InProcListener>) -> bool {
    forall|i: int|
        0 <= i < reg.len() ==> (#[trigger] reg[i]).1 < ls.len() && ls[reg[i].1 as int].addr
            == reg[i].0 && ls[reg[i].1 as int].open
}

/// Each address is registered at most once.
pub open spec fn addrs_unique(reg: Seq<(u64, usize)>) -> bool {
    forall|i: int, j: int|
        0 <= i < j < reg.len() ==> (#[trigger] reg[i]).0 != (#[trigger] reg[j]).0
}

/// Each listener slot is registered at most once.
pub open spec fn slots_unique(reg: Seq<(u64, usize)>) -> bool {
    forall|i: int, j: int|
        0 <= i < j < reg.len() ==> (#[trigger] reg[i]).1 != (#[trigger] reg[j]).1
}

/// Removing a registry entry keeps the table consistent.
pub proof fn lemma_registry_remove(reg: Seq<(u64, usize)>, ls: Seq<InProcListener>, i: int)
    requires
        0 <= i < reg.len(),
        registry_ok(reg, ls),
        addrs_unique(reg),
        slots_unique(reg),
    ensures
        registry_ok(reg.remove(i), ls),
        addrs_unique(reg.remove(i)),
        slots_unique(reg.remove(i)),
{
    let t = reg.remove(i);
    assert(forall|k: int| 0 <= k < i ==> #[trigger] t[k] == reg[k]);
    assert(forall|k: int| i <= k < t.len() ==> #[trigger] t[k] == reg[k + 1]);
}

impl InProcNetwork {
    /// Every registry entry points at a live listener bound to that
    /// address; addresses and listener slots appear at most once.
    pub open spec fn wf(self) -> bool {
        &&& registry_ok(self.registry@, self.listeners@)
        &&& addrs_unique(self.registry@)
        &&& slots_unique(self.registry@)
    }

    /// An empty process: nothing listens, no id issued yet.
    pub fn new() -> (r: InProcNetwork)
        ensures
            r.wf(),
            r.registry@.len() == 0,
            r.listeners@.len() == 0,
            r.cids.next == 0,
    {
        InProcNetwork { registry: Vec::new(), listeners: Vec::new(), cids: CidAllocator::new() }
    }

    /// Index of `addr` in the registry, mirroring `lookup`.
    fn find_addr(&self, addr: u64) -> (r: Option<usize>)
        ensures
            match r {
                Some(i) => lookup(self.registry@, addr) == i && i < self.registry@.len()
                    && self.registry@[i as int].0 == addr,
                None => lookup(self.registry@, addr) < 0,
            },
    {
        let mut i: usize = 0;
        proof {
            assert(self.registry@.skip(0) =~= self.registry@);
        }
        while i < self.registry.len()
            invariant
                i <= self.registry@.len(),
                lookup(self.registry@, addr) == if lookup(self.registry@.skip(i as int), addr)
                    < 0 {
                    -1int
                } else {
                    i + lookup(self.registry@.skip(i as int), addr)
                },
            decreases self.registry@.len() - i,
        {
            proof {
                assert(self.registry@.skip(i as int)[0] == self.registry@[i as int]);
                assert(self.registry@.skip(i as int).skip(1) =~= self.registry@.skip(i + 1));
            }
            if self.registry[i].0 == addr {
                return Some(i);
            }
            i = i + 1;
        }
        proof {
            assert(self.registry@.skip(i as int).len() == 0);
        }
        None
    }

    /// Bind a listener to `addr`: register-on-listen.  A previous binding
    /// of the same address is replaced, as a fresh registration wins.
    pub fn with_mpsc_listen(&mut self, addr: u64) -> (lid: usize)
        requires
            old(self).wf(),
        ensures
            final(self).wf(),
            final(self).cids == old(self).cids,
            lid == old(self).listeners@.len(),
            final(self).listeners@.len() == old(self).listeners@.len() + 1,
            forall|j: int|
                0 <= j < old(self).listeners@.len() ==> final(self).listeners@[j] == #[trigger] old(self).listeners@[j],
            final(self).listeners@[lid as int].addr == addr,
            final(self).listeners@[lid as int].open,
            final(self).listeners@[lid as int].accepted@.len() == 0,
            lookup(final(self).registry@, addr) >= 0,
            final(self).registry@[lookup(final(self).registry@, addr)].1 == lid,
    {
        match self.find_addr(addr) {
            Some(i) => {
                let ghost reg0 = self.registry@;
                self.registry.remove(i);
                proof {
                    assert(self.registry@ =~= reg0.remove(i as int));
                    lemma_registry_remove(reg0, self.listeners@, i as int);
                    lemma_remove_keeps_absent(reg0, i as int, addr);
                }
            },
            None => {},
        }
        let ghost reg_mid = self.registry@;
        let ghost ls_mid = self.listeners@;
        proof {
            lemma_lookup_absent(reg_mid, addr);
        }
        let lid = self.listeners.len();
        self.listeners.push(InProcListener { addr, accepted: Vec::new(), open: true });
        self.registry.push((addr, lid));
        proof {
            lemma_lookup_found_at_end(reg_mid, addr, lid);
            let regf = self.registry@;
            let lsf = self.listeners@;
            assert(regf =~= reg_mid.push((addr, lid)));
            assert forall|k: int|
                0 <= k < regf.len() implies (#[trigger] regf[k]).1 < lsf.len()
                && lsf[regf[k].1 as int].addr == regf[k].0 && lsf[regf[k].1 as int].open by {
                if k < reg_mid.len() {
                    assert(regf[k] == reg_mid[k]);
                    assert(reg_mid[k].1 < ls_mid.len());
                    assert(lsf[reg_mid[k].1 as int] == ls_mid[reg_mid[k].1 as int]);
                } else {
                    assert(regf[k] == (addr, lid));
                }
            }
            assert forall|a: int, b: int|
                0 <= a < b < regf.len() implies (#[trigger] regf[a]).0 != (
                #[trigger] regf[b]).0 by {
                if b < reg_mid.len() {
                } else {
                    assert(regf[b] == (addr, lid));
                    assert(regf[a] == reg_mid[a]);
                    assert(reg_mid[a].0 != addr);
                }
            }
            assert forall|a: int, b: int|
                0 <= a < b < regf.len() implies (#[trigger] regf[a]).1 != (
                #[trigger] regf[b]).1 by {
                if b < reg_mid.len() {
                } else {
                    assert(regf[b] == (addr, lid));
                    assert(regf[a] == reg_mid[a]);
                    assert(reg_mid[a].1 < ls_mid.len());
                }
            }
        }
        lid
    }

    /// Rendezvous with whoever listens on `addr`.
    ///
    /// With no listener registered the attempt fails with `NotListening`,
    /// and with exactly that error.  With one, a fresh connection pair is
    /// created: one endpoint comes back to the caller, the other is queued
    /// on the listener under a freshly allocated, strictly increasing
    /// connection id.
    pub fn with_mpsc_connect(&mut self, addr: u64, metrics: ProtocolMetricCache) -> (r: Result<
        Protocols,
        ConnectError,
    >)
        requires
            old(self).wf(),
            old(self).cids.next < Cid::MAX,
        ensures
            final(self).wf(),
            r is Err <==> lookup(old(self).registry@, addr) < 0,
            r matches Err(e) ==> e == ConnectError::NotListening && final(self).registry@ == old(self).registry@ && final(self).listeners@ == old(self).listeners@ && final(self).cids
                == old(self).cids,
            r matches Ok(p) ==> ({
                let e = lookup(old(self).registry@, addr);
                let li = old(self).registry@[e].1 as int;
                &&& fresh_conn(p)
                &&& final(self).registry@ == old(self).registry@
                &&& final(self).cids.next == old(self).cids.next + 1
                &&& final(self).listeners@.len() == old(self).listeners@.len()
                &&& forall|j: int|
                    0 <= j < old(self).listeners@.len() && j != li ==> final(self).listeners@[j]
                        == #[trigger] old(self).listeners@[j]
                &&& final(self).listeners@[li].addr == old(self).listeners@[li].addr
                &&& final(self).listeners@[li].open == old(self).listeners@[li].open
                &&& final(self).listeners@[li].accepted@.len() == old(self).listeners@[li].accepted@.len() + 1
                &&& forall|k: int|
                    0 <= k < old(self).listeners@[li].accepted@.len() ==> final(self).listeners@[li].accepted@[k] == #[trigger] old(self).listeners@[li].accepted@[k]
                &&& final(self).listeners@[li].accepted@.last().1 == old(self).cids.next
                &&& fresh_conn(final(self).listeners@[li].accepted@.last().0)
            }),
    {
        let i = match self.find_addr(addr) {
            None => {
                return Err(ConnectError::NotListening);
            },
            Some(i) => i,
        };
        let li = self.registry[i].1;
        let cid = self.cids.allocate();
        let local = Protocols::new_mpsc(metrics);
        let remote = Protocols::new_mpsc(ProtocolMetricCache::new(cid.to_string()));
        proof {
            assert(fresh_conn(local));
            assert(fresh_conn(remote));
        }
        self.listeners[li].accepted.push((remote, cid));
        Ok(local)
    }

    /// Pop the oldest rendezvous queued for listener `lid`, if any.
    pub fn accept(&mut self, lid: usize) -> (r: Option<(Protocols, Cid)>)
        requires
            old(self).wf(),
            lid < old(self).listeners@.len(),
        ensures
            final(self).wf(),
            final(self).registry@ == old(self).registry@,
            final(self).cids == old(self).cids,
            final(self).listeners@.len() == old(self).listeners@.len(),
            forall|j: int|
                0 <= j < old(self).listeners@.len() && j != lid ==> final(self).listeners@[j]
                    == #[trigger] old(self).listeners@[j],
            final(self).listeners@[lid as int].addr == old(self).listeners@[lid as int].addr,
            final(self).listeners@[lid as int].open == old(self).listeners@[lid as int].open,
            old(self).listeners@[lid as int].accepted@.len() == 0 ==> r is None && final(self).listeners@[lid as int].accepted@ == old(self).listeners@[lid as int].accepted@,
            old(self).listeners@[lid as int].accepted@.len() > 0 ==> (r matches Some(pair) && pair
                == old(self).listeners@[lid as int].accepted@[0]) && final(self).listeners@[lid as int].accepted@ == old(self).listeners@[lid as int].accepted@.skip(
                1,
            ),
    {
        if self.listeners[lid].accepted.len() == 0 {
            return None;
        }
        let pair = self.listeners[lid].accepted.remove(0);
        proof {
            assert(self.listeners@[lid as int].accepted@ =~= old(self).listeners@[lid as int].accepted@.skip(1));
        }
        Some(pair)
    }

    /// The cancellation signal fired, or the listener is dropped:
    /// unregister the address and stop accepting.  Everything else stands —
    /// other registrations, other listeners, the id counter, and the
    /// stopped listener's already accepted connections, which stay queued
    /// for whoever drains them.
    pub fn stop_listening(&mut self, addr: u64)
        requires
            old(self).wf(),
        ensures
            final(self).wf(),
            final(self).cids == old(self).cids,
            lookup(final(self).registry@, addr) < 0,
            lookup(old(self).registry@, addr) < 0 ==> final(self).registry@ == old(
                self,
            ).registry@ && final(self).listeners@ == old(self).listeners@,
            lookup(old(self).registry@, addr) >= 0 ==> ({
                let e = lookup(old(self).registry@, addr);
                let li = old(self).registry@[e].1 as int;
                &&& final(self).registry@ == old(self).registry@.remove(e)
                &&& final(self).listeners@.len() == old(self).listeners@.len()
                &&& forall|j: int|
                    0 <= j < old(self).listeners@.len() && j != li ==> final(self).listeners@[j]
                        == #[trigger] old(self).listeners@[j]
                &&& final(self).listeners@[li].addr == old(self).listeners@[li].addr
                &&& final(self).listeners@[li].accepted@ == old(self).listeners@[li].accepted@
                &&& !final(self).listeners@[li].open
            }),
    {
        let i = match self.find_addr(addr) {
            None => {
                return ;
            },
            Some(i) => i,
        };
        let li = self.registry[i].1;
        let ghost reg0 = self.registry@;
        self.registry.remove(i);
        proof {
            assert(forall|j: int| 0 <= j < i ==> self.registry@[j] == #[trigger] reg0[j]);
            assert(forall|j: int|
                i <= j < self.registry@.len() ==> self.registry@[j] == #[trigger] reg0[j + 1]);
            lemma_remove_keeps_absent(reg0, i as int, addr);
        }
        self.listeners[li].open = false;
        proof {
            assert forall|k: int|
                0 <= k < self.registry@.len() implies (#[trigger] self.registry@[k]).1
                < self.listeners@.len() && self.listeners@[self.registry@[k].1 as int].addr
                == self.registry@[k].0 && self.listeners@[self.registry@[k].1 as int].open by {
                let prev = if k < i { k } else { k + 1 };
                assert(self.registry@[k] == reg0[prev]);
                assert(reg0[prev].1 != reg0[i as int].1);
            }
        }
    }
}

/// Removing the only entry that carries `addr` leaves none that does.
pub proof fn lemma_remove_keeps_absent(reg: Seq<(u64, usize)>, i: int, addr: u64)
    requires
        0 <= i < reg.len(),
        reg[i].0 == addr,
        forall|a: int, b: int|
            0 <= a < b < reg.len() ==> (#[trigger] reg[a]).0 != (#[trigger] reg[b]).0,
    ensures
        lookup(reg.remove(i), addr) < 0,
{
    let t = reg.remove(i);
    assert forall|k: int| 0 <= k < t.len() implies (#[trigger] t[k]).0 != addr by {
        if k < i {
            assert(t[k] == reg[k]);
        } else {
            assert(t[k] == reg[k + 1]);
        }
    }
    lemma_lookup_none_of(t, addr);
}

/// When no entry carries the address, lookup fails.
pub proof fn lemma_lookup_none_of(reg: Seq<(u64, usize)>, addr: u64)
    requires
        forall|i: int| 0 <= i < reg.len() ==> (#[trigger] reg[i]).0 != addr,
    ensures
        lookup(reg, addr) < 0,
    decreases reg.len(),
{
    if reg.len() != 0 {
        assert(forall|i: int|
            0 <= i < reg.skip(1).len() ==> reg.skip(1)[i] == #[trigger] reg[i + 1]);
        lemma_lookup_none_of(reg.skip(1), addr);
    }
}

/// Pushing an entry for a previously unregistered address makes lookup find
/// exactly it.
pub proof fn lemma_lookup_found_at_end(reg: Seq<(u64, usize)>, addr: u64, lid: usize)
    requires
        lookup(reg, addr) < 0,
    ensures
        lookup(reg.push((addr, lid)), addr) == reg.len(),
        reg.push((addr, lid))[lookup(reg.push((addr, lid)), addr)] == (addr, lid),
    decreases reg.len(),
{
    let t = reg.push((addr, lid));
    if reg.len() == 0 {
        assert(t[0] == (addr, lid));
    } else {
        assert(t[0] == reg[0]);
        assert(t.skip(1) =~= reg.skip(1).push((addr, lid)));
        lemma_lookup_found_at_end(reg.skip(1), addr, lid);
    }
}

} // verus!
