//! The front-end control operations: open, close, renew, list.

use tunnelkit::commands::{close_tunnel, list_tunnels, open_tunnel, renew_tunnel};
use tunnelkit::manager::TunnelManager;
use tunnelkit::sim::{SimOutcome, SimulatedProvider};
use tunnelkit::store::Store;
use tunnelkit::tunnel::TunnelError;

fn manager_with(script: Vec<SimOutcome>) -> TunnelManager<SimulatedProvider> {
    TunnelManager::new(SimulatedProvider::new(script))
}

#[test]
fn open_tunnel_returns_url_and_records_desire() {
    let mut mgr = manager_with(vec![SimOutcome::Announce(
        "https://opened.trycloudflare.com".to_string(),
    )]);
    let mut store = Store::new();
    let url = open_tunnel(&mut mgr, &mut store, 8080, 700)
        .unwrap_or_else(|_| panic!("open failed"));
    assert_eq!(url, "https://opened.trycloudflare.com");
    let desired = store.desired_tunnels();
    assert_eq!(desired.len(), 1);
    assert_eq!(desired[0].port, 8080);
    assert_eq!(desired[0].provider, "simulated");
    assert_eq!(desired[0].updated_at_ms, 700);
    assert_eq!(list_tunnels(&mgr).len(), 1);
}

#[test]
fn open_tunnel_failure_leaves_desire_untouched() {
    let mut mgr = manager_with(vec![SimOutcome::FailToLaunch("nope".to_string())]);
    let mut store = Store::new();
    let r = open_tunnel(&mut mgr, &mut store, 8080, 700);
    assert!(matches!(r, Err(TunnelError::StartFailed(_))));
    assert!(store.desired_tunnels().is_empty());
    assert!(list_tunnels(&mgr).is_empty());
}

#[test]
fn close_tunnel_clears_desire() {
    let mut mgr = manager_with(vec![SimOutcome::Announce(
        "https://closing.trycloudflare.com".to_string(),
    )]);
    let mut store = Store::new();
    open_tunnel(&mut mgr, &mut store, 8080, 700).unwrap_or_else(|_| panic!("open failed"));
    assert!(close_tunnel(&mut mgr, &mut store, 8080).is_ok());
    assert!(list_tunnels(&mgr).is_empty());
    assert!(store.desired_tunnels().is_empty());
}

#[test]
fn close_missing_tunnel_is_not_running() {
    let mut mgr = manager_with(vec![]);
    let mut store = Store::new();
    let r = close_tunnel(&mut mgr, &mut store, 8080);
    assert!(matches!(r, Err(TunnelError::NotRunning)));
}

#[test]
fn renew_tunnel_returns_fresh_url_and_touches_store() {
    let mut mgr = manager_with(vec![
        SimOutcome::Announce("https://before.trycloudflare.com".to_string()),
        SimOutcome::Announce("https://after.trycloudflare.com".to_string()),
    ]);
    let mut store = Store::new();
    open_tunnel(&mut mgr, &mut store, 8080, 700).unwrap_or_else(|_| panic!("open failed"));
    let url = renew_tunnel(&mut mgr, &mut store, 8080, 900)
        .unwrap_or_else(|_| panic!("renew failed"));
    assert_eq!(url, "https://after.trycloudflare.com");
    assert_eq!(store.desired_tunnels()[0].updated_at_ms, 900);
    let listed = list_tunnels(&mgr);
    assert_eq!(listed[0].last_renewed_at_ms, 900);
}
