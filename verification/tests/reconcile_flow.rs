//! Startup replay and the periodic health sweep.

use tunnelkit::manager::TunnelManager;
use tunnelkit::reconcile::{renew_dead_tunnels, restore_desired_tunnels};
use tunnelkit::sim::{SimOutcome, SimulatedProvider};
use tunnelkit::store::{DesiredTunnel, Store};

fn record(port: u16, provider: &str) -> DesiredTunnel {
    DesiredTunnel { port, provider: provider.to_string(), updated_at_ms: 0 }
}

#[test]
fn restore_starts_every_desired_port() {
    let mut store = Store::new();
    store.enable_desired_tunnel(record(8080, "cloudflare"), 10);
    store.enable_desired_tunnel(record(9090, "cloudflare"), 20);
    let provider = SimulatedProvider::new(vec![
        SimOutcome::Announce("https://a.trycloudflare.com".to_string()),
        SimOutcome::Announce("https://b.trycloudflare.com".to_string()),
    ]);
    let mut mgr = TunnelManager::new(provider);
    restore_desired_tunnels(&mut mgr, &mut store, 1000);
    let ports: Vec<u16> = mgr.list().iter().map(|t| t.port).collect();
    assert_eq!(ports, vec![8080, 9090]);
    assert_eq!(store.desired_tunnels().len(), 2);
}

#[test]
fn restore_disables_port_that_fails_every_attempt() {
    // register the desired tunnel, then simulate an application restart
    // with no running processes and an adapter that fails every attempt
    let mut store = Store::new();
    store.enable_desired_tunnel(record(8080, "cloudflare"), 10);
    let provider = SimulatedProvider::new(vec![SimOutcome::FailToLaunch(
        "cloudflared not found".to_string(),
    )]);
    let mut mgr = TunnelManager::new(provider);
    restore_desired_tunnels(&mut mgr, &mut store, 1000);
    // replay tried the port once, could not start it, and gave up on it
    assert_eq!(mgr.provider().outcomes_consumed(), 1);
    assert!(mgr.list().is_empty());
    assert!(store.desired_tunnels().is_empty());
    // a subsequent replay no longer sees the port at all
    restore_desired_tunnels(&mut mgr, &mut store, 2000);
    assert_eq!(mgr.provider().outcomes_consumed(), 1);
    assert!(mgr.list().is_empty());
}

#[test]
fn restore_keeps_ports_that_start() {
    let mut store = Store::new();
    store.enable_desired_tunnel(record(8080, "cloudflare"), 10);
    store.enable_desired_tunnel(record(9090, "cloudflare"), 20);
    let provider = SimulatedProvider::new(vec![
        SimOutcome::Announce("https://ok.trycloudflare.com".to_string()),
        SimOutcome::FailToLaunch("broken".to_string()),
    ]);
    let mut mgr = TunnelManager::new(provider);
    restore_desired_tunnels(&mut mgr, &mut store, 1000);
    let ports: Vec<u16> = mgr.list().iter().map(|t| t.port).collect();
    assert_eq!(ports, vec![8080]);
    let desired: Vec<u16> = store.desired_tunnels().iter().map(|t| t.port).collect();
    assert_eq!(desired, vec![8080]);
}

#[test]
fn sweep_renews_dead_port_and_touches_store() {
    let mut store = Store::new();
    store.enable_desired_tunnel(record(8080, "cloudflare"), 10);
    let provider = SimulatedProvider::new(vec![
        SimOutcome::Announce("https://old.trycloudflare.com".to_string()),
        SimOutcome::Announce("https://new.trycloudflare.com".to_string()),
    ]);
    let mut mgr = TunnelManager::new(provider);
    mgr.start(8080, 100).unwrap_or_else(|_| panic!("start failed"));
    mgr.provider_mut().mark_exited(0);
    let dead = renew_dead_tunnels(&mut mgr, &mut store, 5000);
    assert_eq!(dead, vec![8080]);
    let listed = mgr.list();
    assert_eq!(listed.len(), 1);
    assert_eq!(listed[0].url, "https://new.trycloudflare.com");
    assert_eq!(listed[0].last_renewed_at_ms, 5000);
    assert_eq!(store.desired_tunnels()[0].updated_at_ms, 5000);
}

#[test]
fn sweep_with_no_deaths_changes_nothing() {
    let mut store = Store::new();
    store.enable_desired_tunnel(record(8080, "cloudflare"), 10);
    let provider = SimulatedProvider::new(vec![SimOutcome::Announce(
        "https://ok.trycloudflare.com".to_string(),
    )]);
    let mut mgr = TunnelManager::new(provider);
    mgr.start(8080, 100).unwrap_or_else(|_| panic!("start failed"));
    let dead = renew_dead_tunnels(&mut mgr, &mut store, 5000);
    assert!(dead.is_empty());
    let listed = mgr.list();
    assert_eq!(listed[0].url, "https://ok.trycloudflare.com");
    assert_eq!(store.desired_tunnels()[0].updated_at_ms, 10);
}

#[test]
fn sweep_swallows_renew_failure() {
    // the dead port cannot be renewed; the sweep still prunes it and
    // stamps the desired record, and the failure shows only in the
    // listing
    let mut store = Store::new();
    store.enable_desired_tunnel(record(8080, "cloudflare"), 10);
    let provider = SimulatedProvider::new(vec![SimOutcome::Announce(
        "https://only.trycloudflare.com".to_string(),
    )]);
    let mut mgr = TunnelManager::new(provider);
    mgr.start(8080, 100).unwrap_or_else(|_| panic!("start failed"));
    mgr.provider_mut().mark_exited(0);
    let dead = renew_dead_tunnels(&mut mgr, &mut store, 5000);
    assert_eq!(dead, vec![8080]);
    assert!(mgr.list().is_empty());
    assert_eq!(store.desired_tunnels().len(), 1);
    assert_eq!(store.desired_tunnels()[0].updated_at_ms, 5000);
}

#[test]
fn restore_keeps_record_of_already_active_port() {
    // the port is already tunneled when the replay runs: start joins the
    // existing tunnel and the desired record stays exactly as it was
    let mut store = Store::new();
    store.enable_desired_tunnel(record(8080, "cloudflare"), 10);
    let provider = SimulatedProvider::new(vec![SimOutcome::Announce(
        "https://live.trycloudflare.com".to_string(),
    )]);
    let mut mgr = TunnelManager::new(provider);
    mgr.start(8080, 50).unwrap_or_else(|_| panic!("start failed"));
    restore_desired_tunnels(&mut mgr, &mut store, 1000);
    assert_eq!(mgr.provider().spawned(), 1);
    let desired = store.desired_tunnels();
    assert_eq!(desired.len(), 1);
    assert_eq!(desired[0].port, 8080);
    assert_eq!(desired[0].provider, "cloudflare");
    assert_eq!(desired[0].updated_at_ms, 10);
}
