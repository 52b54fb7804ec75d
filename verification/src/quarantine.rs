//! The failure quarantine: per-address ghost-creation failures are caught
//! and parked here, and a periodic tick retries every parked address
//! exactly once.  Failures never spread to the registry or other ghosts.

use vstd::prelude::*;
use crate::addr::{PduAddr, AddrView};

verus! {

/// The set of addresses whose ghost creation last failed.
pub struct FailureQuarantine {
    addrs: Vec<PduAddr>,
}

impl View for FailureQuarantine {
    type V = Seq<AddrView>;

    closed spec fn view(&self) -> Seq<AddrView> {
        self.addrs@.map_values(|a: PduAddr| a@)
    }
}

impl FailureQuarantine {
    /// No address is parked; each appears at most once.
    pub open spec fn wf(&self) -> bool {
        forall|i: int, j: int| 0 <= i < j < self@.len() ==> self@[i] != self@[j]
    }

    /// An empty quarantine.
    pub fn new() -> (r: FailureQuarantine)
        ensures
            r.wf(),
            r@.len() == 0,
    {
        let r = FailureQuarantine { addrs: Vec::new() };
        proof {
            assert(r@ =~= Seq::<AddrView>::empty());
        }
        r
    }

    /// Whether an address is parked.
    pub fn holds(&self, addr: &PduAddr) -> (r: bool)
        ensures
            r == self@.contains(addr@),
    {
        let cnt = self.addrs.len();
        let mut i: usize = 0;
        while i < cnt
            invariant
                cnt == self.addrs@.len(),
                i <= cnt,
                forall|j: int| 0 <= j < i ==> self@[j] != addr@,
            decreases cnt - i,
        {
            if self.addrs[i].addr_eq(addr) {
                proof {
                    assert(self@[i as int] == addr@);
                }
                return true;
            }
            i = i + 1;
        }
        proof {
            if self@.contains(addr@) {
                let w = choose|w: int| 0 <= w < self@.len() && self@[w] == addr@;
                assert(self@[w] != addr@);
            }
        }
        false
    }

    /// Parks an address after a creation failure; an address already
    /// parked is not parked twice.
    pub fn record_failure(&mut self, addr: PduAddr)
        requires
            old(self).wf(),
        ensures
            final(self).wf(),
            final(self)@ == if old(self)@.contains(addr@) {
                old(self)@
            } else {
                old(self)@.push(addr@)
            },
    {
        if self.holds(&addr) {
            return;
        }
        let ghost av = addr@;
        self.addrs.push(addr);
        proof {
            assert(self@ =~= old(self)@.push(av));
            assert forall|i: int, j: int| 0 <= i < j < self@.len() implies self@[i] != self@[j] by {
                if j == self@.len() - 1 {
                    assert(self@[i] == old(self)@[i]);
                    assert(old(self)@.contains(old(self)@[i]));
                }
            }
        }
    }

    /// Takes every parked address out for one retry round: each address
    /// comes out exactly once, and the quarantine is empty afterwards.
    pub fn take_all(&mut self) -> (r: Vec<PduAddr>)
        requires
            old(self).wf(),
        ensures
            final(self).wf(),
            final(self)@.len() == 0,
            r@.map_values(|a: PduAddr| a@) == old(self)@,
    {
        let mut drained: Vec<PduAddr> = Vec::new();
        proof {
            assert(drained@.map_values(|a: PduAddr| a@) + self@ =~= old(self)@);
        }
        while self.addrs.len() > 0
            invariant
                drained@.map_values(|a: PduAddr| a@) + self@ == old(self)@,
            decreases self.addrs@.len(),
        {
            let ghost dv = drained@.map_values(|a: PduAddr| a@);
            let ghost sv = self@;
            let a = self.addrs.remove(0);
            drained.push(a);
            proof {
                assert(self@ =~= sv.drop_first());
                assert(drained@.map_values(|a2: PduAddr| a2@) =~= dv.push(sv[0]));
                assert(drained@.map_values(|a2: PduAddr| a2@) + self@ =~= dv + sv);
            }
        }
        proof {
            assert(self@ =~= Seq::<AddrView>::empty());
            assert(drained@.map_values(|a: PduAddr| a@) =~= old(self)@);
        }
        drained
    }
}

} // verus!
