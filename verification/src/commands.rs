//! The four control operations a front end dispatches: list, open, close
//! and renew. Each couples one registry mutation with the matching
//! desired-state update, in the order the registry rules require.

use vstd::prelude::*;

use crate::manager::{has_port, TunnelManager};
use crate::store::{has_record, record_of, DesiredTunnel, DesiredTunnelV, Store};
use crate::tunnel::{TunnelError, TunnelInfo, TunnelProvider};

verus! {

/// Snapshot of all active tunnels, in ascending port order.
pub fn list_tunnels<P: TunnelProvider>(manager: &TunnelManager<P>) -> (r: Vec<TunnelInfo>)
    requires
        manager.wf(),
    ensures
        r@.len() == manager.infos().len(),
        forall|i: int| 0 <= i < r@.len() ==> r@[i]@ == manager.infos()[i],
        forall|i: int, j: int| 0 <= i < j < r@.len() ==> r@[i]@.port < r@[j]@.port,
{
    manager.list()
}

/// Start (or join) the tunnel for `port` and mark the port as desired in
/// the store, so it is re-established after a restart. Returns the public
/// URL. On failure the desired state is left untouched.
pub fn open_tunnel<P: TunnelProvider>(
    manager: &mut TunnelManager<P>,
    store: &mut Store,
    port: u16,
    now_ms: u64,
) -> (r: Result<String, TunnelError>)
    requires
        old(manager).wf(),
        old(store).wf(),
    ensures
        final(manager).wf(),
        final(store).wf(),
        r matches Ok(url) ==> final(manager).tunnels().contains_key(port)
            && url@ == final(manager).tunnels()[port].url
            && final(store).records() =~= old(store).records().filter(
                |x: DesiredTunnelV| x.port != port,
            ).push(DesiredTunnelV {
                port,
                provider: final(manager).tunnels()[port].provider,
                updated_at_ms: now_ms,
            })
            && has_record(final(store).records(), port)
            && record_of(final(store).records(), port) == (DesiredTunnelV {
                port,
                provider: final(manager).tunnels()[port].provider,
                updated_at_ms: now_ms,
            }),
        r matches Err(e) ==> (e is StartFailed || e is UrlTimeout)
            && !has_port(old(manager).infos(), port)
            && final(manager).tunnels() == old(manager).tunnels()
            && *final(store) == *old(store),
{
    let info = match manager.start(port, now_ms) {
        Ok(info) => info,
        Err(e) => {
            return Err(e);
        },
    };
    proof {
        assert(manager.tunnels().contains_key(port));
        assert(manager.tunnels()[port] == info@);
    }
    store.enable_desired_tunnel(
        DesiredTunnel { port, provider: info.provider.clone(), updated_at_ms: 0 },
        now_ms,
    );
    Ok(info.url)
}

/// Stop the tunnel for `port` and drop the port from the desired state.
/// When the OS-level kill fails the registry entry is still gone, but the
/// port stays desired and the error is surfaced.
pub fn close_tunnel<P: TunnelProvider>(
    manager: &mut TunnelManager<P>,
    store: &mut Store,
    port: u16,
) -> (r: Result<(), TunnelError>)
    requires
        old(manager).wf(),
        old(store).wf(),
    ensures
        final(manager).wf(),
        final(store).wf(),
        !has_port(old(manager).infos(), port) ==> (r matches Err(e) && e is NotRunning)
            && *final(manager) == *old(manager)
            && *final(store) == *old(store),
        has_port(old(manager).infos(), port) ==> final(manager).tunnels()
            =~= old(manager).tunnels().remove(port)
            && (r is Ok || (r matches Err(e) && e is StopFailed)),
        r is Ok ==> has_port(old(manager).infos(), port)
            && final(store).records() =~= old(store).records().filter(
                |x: DesiredTunnelV| x.port != port,
            )
            && !has_record(final(store).records(), port),
        (r matches Err(e) && e is StopFailed) ==> *final(store) == *old(store),
{
    match manager.stop(port) {
        Err(e) => Err(e),
        Ok(()) => {
            store.disable_desired_tunnel(port);
            Ok(())
        },
    }
}

/// Stop-then-start the tunnel for `port`, handing back the fresh public
/// URL, and record the renewal instant on the desired-state record.
pub fn renew_tunnel<P: TunnelProvider>(
    manager: &mut TunnelManager<P>,
    store: &mut Store,
    port: u16,
    now_ms: u64,
) -> (r: Result<String, TunnelError>)
    requires
        old(manager).wf(),
        old(store).wf(),
    ensures
        final(manager).wf(),
        final(store).wf(),
        r matches Ok(url) ==> final(manager).tunnels().contains_key(port)
            && url@ == final(manager).tunnels()[port].url
            && final(manager).tunnels()[port].last_renewed_at_ms == now_ms
            && final(store).records().len() == old(store).records().len()
            && (forall|i: int| 0 <= i < old(store).records().len()
                ==> #[trigger] final(store).records()[i] == if old(store).records()[i].port
                    == port {
                    DesiredTunnelV { updated_at_ms: now_ms, ..old(store).records()[i] }
                } else {
                    old(store).records()[i]
                }),
        r matches Err(e) ==> (e is StartFailed || e is UrlTimeout)
            && final(manager).tunnels() =~= old(manager).tunnels().remove(port)
            && *final(store) == *old(store),
{
    match manager.renew(port, now_ms) {
        Err(e) => Err(e),
        Ok(info) => {
            store.touch_desired_tunnel(port, now_ms);
            Ok(info.url)
        },
    }
}

} // verus!
