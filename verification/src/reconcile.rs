//! Reconciliation: bringing running tunnels back into agreement with the
//! desired state. One function replays the desired records once at
//! startup; the other is the body of one periodic health-sweep tick. The
//! caller runs them off the main control path and supplies the clock.

use vstd::prelude::*;

use crate::manager::TunnelManager;
use crate::store::{has_record, record_of, DesiredTunnelV, Store};
use crate::tunnel::TunnelProvider;

verus! {

/// Replay the desired state once, at application startup: try to start a
/// tunnel for every desired port, and give up on (disable) every port
/// whose start fails, so a port that can never tunnel is not retried
/// forever. Afterwards every port that was desired beforehand is either
/// actively tunneled or no longer desired; a desired port that is
/// tunneled afterwards — in particular every one whose start succeeded —
/// keeps its record unchanged.
pub fn restore_desired_tunnels<P: TunnelProvider>(
    manager: &mut TunnelManager<P>,
    store: &mut Store,
    now_ms: u64,
)
    requires
        old(manager).wf(),
        old(store).wf(),
    ensures
        final(manager).wf(),
        final(store).wf(),
        forall|p: u16| has_record(old(store).records(), p)
            ==> final(manager).tunnels().contains_key(p)
                || !has_record(final(store).records(), p),
        forall|p: u16| has_record(old(store).records(), p)
            && #[trigger] final(manager).tunnels().contains_key(p)
            ==> has_record(final(store).records(), p)
                && record_of(final(store).records(), p)
                    == record_of(old(store).records(), p),
        forall|p: u16| #[trigger] old(manager).tunnels().contains_key(p)
            ==> final(manager).tunnels().contains_key(p),
        forall|p: u16| #[trigger] has_record(final(store).records(), p)
            ==> has_record(old(store).records(), p),
{
    let desired = store.desired_tunnels();
    let n = desired.len();
    proof {
        assert forall|k: int| 0 <= k < n implies has_record(
            store.records(),
            #[trigger] desired@[k]@.port,
        ) && record_of(store.records(), desired@[k]@.port)
            == old(store).records()[k] by {
            crate::store::lemma_record_at(old(store).records(), k);
        }
    }
    let mut i: usize = 0;
    while i < n
        invariant
            old(manager).wf(),
            old(store).wf(),
            manager.wf(),
            store.wf(),
            n == desired@.len(),
            i <= n,
            forall|k: int| 0 <= k < n ==> #[trigger] desired@[k]@
                == old(store).records()[k],
            n == old(store).records().len(),
            forall|k: int| 0 <= k < i ==> manager.tunnels().contains_key(
                #[trigger] desired@[k]@.port,
            ) || !has_record(store.records(), desired@[k]@.port),
            forall|p: u16| has_record(old(store).records(), p)
                && #[trigger] manager.tunnels().contains_key(p)
                ==> has_record(store.records(), p)
                    && record_of(store.records(), p) == record_of(old(store).records(), p),
            forall|k: int| i <= k < n ==> has_record(
                store.records(),
                #[trigger] desired@[k]@.port,
            ) && record_of(store.records(), desired@[k]@.port) == old(store).records()[k],
            forall|p: u16| #[trigger] old(manager).tunnels().contains_key(p)
                ==> manager.tunnels().contains_key(p),
            forall|p: u16| #[trigger] has_record(store.records(), p)
                ==> has_record(old(store).records(), p),
        decreases n - i,
    {
        let port = desired[i].port;
        let ghost mgr_pre = *manager;
        let ghost store_pre = *store;
        proof {
            assert(port == desired@[i as int]@.port);
            crate::store::lemma_record_at(old(store).records(), i as int);
        }
        match manager.start(port, now_ms) {
            Ok(_) => {
                proof {
                    assert(manager.tunnels().contains_key(port));
                    assert forall|p: u16| has_record(old(store).records(), p)
                        && #[trigger] manager.tunnels().contains_key(p)
                        implies has_record(store.records(), p)
                        && record_of(store.records(), p)
                            == record_of(old(store).records(), p) by {
                        if p == port {
                            assert(record_of(store.records(), port)
                                == old(store).records()[i as int]);
                            assert(record_of(old(store).records(), port)
                                == old(store).records()[i as int]);
                        } else {
                            assert(mgr_pre.tunnels().contains_key(p));
                        }
                    }
                }
            },
            Err(_) => {
                store.disable_desired_tunnel(port);
                proof {
                    assert(!mgr_pre.tunnels().contains_key(port));
                    assert forall|k: int| i + 1 <= k < n implies has_record(
                        store.records(),
                        #[trigger] desired@[k]@.port,
                    ) && record_of(store.records(), desired@[k]@.port)
                        == old(store).records()[k] by {
                        assert(old(store).records()[k].port
                            != old(store).records()[i as int].port);
                        assert(has_record(store_pre.records(), desired@[k]@.port));
                    }
                }
            },
        }
        proof {
            assert forall|k: int| 0 <= k < i + 1 implies manager.tunnels().contains_key(
                #[trigger] desired@[k]@.port,
            ) || !has_record(store.records(), desired@[k]@.port) by {
                if k < i {
                    if mgr_pre.tunnels().contains_key(desired@[k]@.port) {
                    } else {
                        assert(!has_record(store_pre.records(), desired@[k]@.port));
                    }
                }
            }
        }
        i += 1;
    }
    proof {
        assert forall|p: u16| has_record(old(store).records(), p)
            implies manager.tunnels().contains_key(p)
            || !has_record(store.records(), p) by {
            let k = choose|k: int|
                0 <= k < old(store).records().len() && old(store).records()[k].port == p;
            assert(desired@[k]@.port == p);
        }
    }
}

/// One tick of the periodic health sweep: prune every tunnel whose
/// process has died, then best-effort renew each pruned port and stamp
/// its desired-state record, whatever the renewal outcome. Returns the
/// pruned ports, in ascending order. Tunnels whose process is still
/// alive keep their exact snapshot; desired records of unpruned ports
/// are untouched.
pub fn renew_dead_tunnels<P: TunnelProvider>(
    manager: &mut TunnelManager<P>,
    store: &mut Store,
    now_ms: u64,
) -> (r: Vec<u16>)
    requires
        old(manager).wf(),
        old(store).wf(),
    ensures
        final(manager).wf(),
        final(store).wf(),
        forall|i: int, j: int| 0 <= i < j < r@.len() ==> r@[i] < r@[j],
        forall|k: int| 0 <= k < r@.len()
            ==> #[trigger] old(manager).tunnels().contains_key(r@[k]),
        forall|p: u16| #[trigger] old(manager).tunnels().contains_key(p) && !r@.contains(p)
            ==> final(manager).tunnels().contains_key(p)
                && final(manager).tunnels()[p] == old(manager).tunnels()[p],
        forall|p: u16| r@.contains(p) && #[trigger] final(manager).tunnels().contains_key(p)
            ==> final(manager).tunnels()[p].port == p
                && final(manager).tunnels()[p].last_renewed_at_ms == now_ms,
        final(store).records().len() == old(store).records().len(),
        forall|idx: int| 0 <= idx < old(store).records().len()
            ==> #[trigger] final(store).records()[idx] == if r@.contains(
                old(store).records()[idx].port,
            ) {
                DesiredTunnelV { updated_at_ms: now_ms, ..old(store).records()[idx] }
            } else {
                old(store).records()[idx]
            },
        forall|p: u16| r@.contains(p) && has_record(old(store).records(), p)
            ==> record_of(final(store).records(), p) == (DesiredTunnelV {
                updated_at_ms: now_ms,
                ..record_of(old(store).records(), p)
            }),
{
    let dead = manager.take_dead_ports();
    let ghost mgr_mid = *manager;
    let n = dead.len();
    let mut i: usize = 0;
    while i < n
        invariant
            old(store).wf(),
            manager.wf(),
            store.wf(),
            n == dead@.len(),
            i <= n,
            forall|i2: int, j2: int| 0 <= i2 < j2 < n ==> dead@[i2] < dead@[j2],
            forall|p: u16| #[trigger] mgr_mid.tunnels().contains_key(p)
                && !dead@.contains(p) ==> manager.tunnels().contains_key(p)
                && manager.tunnels()[p] == mgr_mid.tunnels()[p],
            forall|p: u16| dead@.subrange(0, i as int).contains(p)
                && #[trigger] manager.tunnels().contains_key(p)
                ==> manager.tunnels()[p].port == p
                    && manager.tunnels()[p].last_renewed_at_ms == now_ms,
            store.records().len() == old(store).records().len(),
            forall|idx: int| 0 <= idx < old(store).records().len()
                ==> #[trigger] store.records()[idx] == if dead@.subrange(
                    0,
                    i as int,
                ).contains(old(store).records()[idx].port) {
                    DesiredTunnelV { updated_at_ms: now_ms, ..old(store).records()[idx] }
                } else {
                    old(store).records()[idx]
                },
        decreases n - i,
    {
        let port = dead[i];
        let ghost mgr_pre = *manager;
        let ghost store_pre = *store;
        let ghost sub_prev = dead@.subrange(0, i as int);
        let ghost sub_next = dead@.subrange(0, i + 1);
        proof {
            assert(sub_next =~= sub_prev.push(dead@[i as int]));
            assert forall|p: u16| #[trigger] sub_next.contains(p)
                == (sub_prev.contains(p) || p == port) by {
                if sub_next.contains(p) {
                    let w = choose|w: int| 0 <= w < sub_next.len() && sub_next[w] == p;
                    if w < i {
                        assert(sub_prev[w] == p);
                    }
                }
                if sub_prev.contains(p) {
                    let w = choose|w: int| 0 <= w < sub_prev.len() && sub_prev[w] == p;
                    assert(sub_next[w] == p);
                }
                if p == port {
                    assert(sub_next[i as int] == p);
                }
            }
        }
        let _ = manager.renew(port, now_ms);
        store.touch_desired_tunnel(port, now_ms);
        proof {
            assert forall|p: u16| #[trigger] mgr_mid.tunnels().contains_key(p)
                && !dead@.contains(p) implies manager.tunnels().contains_key(p)
                && manager.tunnels()[p] == mgr_mid.tunnels()[p] by {
                assert(p != dead@[i as int]);
            }
            assert forall|p: u16| sub_next.contains(p)
                && #[trigger] manager.tunnels().contains_key(p)
                implies manager.tunnels()[p].port == p
                && manager.tunnels()[p].last_renewed_at_ms == now_ms by {
                if p != port {
                    assert(mgr_pre.tunnels().contains_key(p));
                    assert(manager.tunnels()[p] == mgr_pre.tunnels()[p]);
                }
            }
            assert forall|idx: int| 0 <= idx < old(store).records().len()
                implies #[trigger] store.records()[idx] == if sub_next.contains(
                old(store).records()[idx].port,
            ) {
                DesiredTunnelV { updated_at_ms: now_ms, ..old(store).records()[idx] }
            } else {
                old(store).records()[idx]
            } by {
                assert(store_pre.records()[idx].port == old(store).records()[idx].port);
                assert(store.records()[idx] == if store_pre.records()[idx].port == port {
                    DesiredTunnelV { updated_at_ms: now_ms, ..store_pre.records()[idx] }
                } else {
                    store_pre.records()[idx]
                });
            }
        }
        i += 1;
    }
    proof {
        assert(dead@.subrange(0, n as int) =~= dead@);
        assert forall|p: u16| #[trigger] mgr_mid.tunnels().contains_key(p)
            && !dead@.contains(p) implies manager.tunnels().contains_key(p)
            && manager.tunnels()[p] == mgr_mid.tunnels()[p] by {}
        assert forall|p: u16| #[trigger] old(manager).tunnels().contains_key(p)
            && !dead@.contains(p) implies manager.tunnels().contains_key(p)
            && manager.tunnels()[p] == old(manager).tunnels()[p] by {
            assert(mgr_mid.tunnels().contains_key(p));
        }
        assert forall|p: u16| dead@.contains(p) && has_record(old(store).records(), p)
            implies record_of(store.records(), p) == (DesiredTunnelV {
            updated_at_ms: now_ms,
            ..record_of(old(store).records(), p)
        }) by {
            let k = crate::store::record_index(old(store).records(), p);
            crate::store::lemma_record_at(old(store).records(), k);
            assert(store.records()[k] == (DesiredTunnelV {
                updated_at_ms: now_ms,
                ..old(store).records()[k]
            }));
            assert(store.records()[k].port == p);
            assert forall|a: int, b: int| 0 <= a < b < store.records().len()
                implies store.records()[a].port != store.records()[b].port by {
                assert(store.records()[a].port == old(store).records()[a].port);
                assert(store.records()[b].port == old(store).records()[b].port);
            }
            crate::store::lemma_record_at(store.records(), k);
        }
    }
    dead
}

} // verus!
