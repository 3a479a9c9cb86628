//! The tunnel registry's state machine, driven through the scripted
//! backend.

use tunnelkit::manager::TunnelManager;
use tunnelkit::sim::{SimOutcome, SimulatedProvider};
use tunnelkit::tunnel::{TunnelError, TunnelProvider};

fn announce(url: &str) -> SimOutcome {
    SimOutcome::Announce(url.to_string())
}

#[test]
fn start_lists_port_once() {
    let provider = SimulatedProvider::new(vec![announce("https://one.trycloudflare.com")]);
    let mut mgr = TunnelManager::new(provider);
    let info = mgr.start(8080, 100).unwrap_or_else(|_| panic!("start failed"));
    assert_eq!(info.port, 8080);
    assert_eq!(info.url, "https://one.trycloudflare.com");
    assert_eq!(info.started_at_ms, 100);
    assert_eq!(info.last_renewed_at_ms, 100);
    let listed = mgr.list();
    assert_eq!(listed.len(), 1);
    assert_eq!(listed[0].port, 8080);
    assert_eq!(listed[0].url, "https://one.trycloudflare.com");
}

#[test]
fn second_start_returns_same_tunnel_without_spawning() {
    let provider = SimulatedProvider::new(vec![
        announce("https://first.trycloudflare.com"),
        announce("https://second.trycloudflare.com"),
    ]);
    let mut mgr = TunnelManager::new(provider);
    let a = mgr.start(8080, 100).unwrap_or_else(|_| panic!("start failed"));
    let b = mgr.start(8080, 999).unwrap_or_else(|_| panic!("restart failed"));
    assert_eq!(a.url, b.url);
    assert_eq!(a.started_at_ms, b.started_at_ms);
    assert_eq!(mgr.provider().spawned(), 1);
    assert_eq!(mgr.list().len(), 1);
}

#[test]
fn list_is_sorted_by_port() {
    let provider = SimulatedProvider::new(vec![
        announce("https://a.trycloudflare.com"),
        announce("https://b.trycloudflare.com"),
        announce("https://c.trycloudflare.com"),
    ]);
    let mut mgr = TunnelManager::new(provider);
    mgr.start(9000, 1).unwrap_or_else(|_| panic!("start failed"));
    mgr.start(80, 2).unwrap_or_else(|_| panic!("start failed"));
    mgr.start(443, 3).unwrap_or_else(|_| panic!("start failed"));
    let ports: Vec<u16> = mgr.list().iter().map(|t| t.port).collect();
    assert_eq!(ports, vec![80, 443, 9000]);
}

#[test]
fn stop_missing_port_is_not_running() {
    let provider = SimulatedProvider::new(vec![announce("https://x.trycloudflare.com")]);
    let mut mgr = TunnelManager::new(provider);
    mgr.start(8080, 100).unwrap_or_else(|_| panic!("start failed"));
    let r = mgr.stop(9999);
    assert!(matches!(r, Err(TunnelError::NotRunning)));
    let listed = mgr.list();
    assert_eq!(listed.len(), 1);
    assert_eq!(listed[0].port, 8080);
}

#[test]
fn stop_kills_process_and_removes_entry() {
    let provider = SimulatedProvider::new(vec![announce("https://x.trycloudflare.com")]);
    let mut mgr = TunnelManager::new(provider);
    mgr.start(8080, 100).unwrap_or_else(|_| panic!("start failed"));
    assert!(mgr.stop(8080).is_ok());
    assert_eq!(mgr.list().len(), 0);
    let proc0 = mgr.provider().process(0);
    assert!(!proc0.alive);
    assert!(proc0.killed);
}

#[test]
fn renew_advances_timestamp_and_replaces_process() {
    let provider = SimulatedProvider::new(vec![
        announce("https://old.trycloudflare.com"),
        announce("https://new.trycloudflare.com"),
    ]);
    let mut mgr = TunnelManager::new(provider);
    let before = mgr.start(8080, 100).unwrap_or_else(|_| panic!("start failed"));
    let after = mgr.renew(8080, 250).unwrap_or_else(|_| panic!("renew failed"));
    assert!(after.last_renewed_at_ms > before.last_renewed_at_ms);
    assert_eq!(after.last_renewed_at_ms, 250);
    assert_eq!(after.url, "https://new.trycloudflare.com");
    // exactly one process remains for the port: the first was terminated
    assert_eq!(mgr.provider().spawned(), 2);
    assert!(!mgr.provider().process(0).alive);
    assert!(mgr.provider().process(0).killed);
    assert!(mgr.provider().process(1).alive);
    let listed = mgr.list();
    assert_eq!(listed.len(), 1);
    assert_eq!(listed[0].url, "https://new.trycloudflare.com");
}

#[test]
fn renew_on_missing_port_starts_fresh() {
    let provider = SimulatedProvider::new(vec![announce("https://n.trycloudflare.com")]);
    let mut mgr = TunnelManager::new(provider);
    let info = mgr.renew(8080, 42).unwrap_or_else(|_| panic!("renew failed"));
    assert_eq!(info.port, 8080);
    assert_eq!(info.last_renewed_at_ms, 42);
    assert_eq!(mgr.list().len(), 1);
    // nothing was active, so nothing was stopped: the fresh process is
    // alive and was never killed
    assert_eq!(mgr.provider().spawned(), 1);
    assert!(mgr.provider().process(0).alive);
    assert!(!mgr.provider().process(0).killed);
}

#[test]
fn take_dead_ports_prunes_exactly_the_dead() {
    let provider = SimulatedProvider::new(vec![
        announce("https://a.trycloudflare.com"),
        announce("https://b.trycloudflare.com"),
    ]);
    let mut mgr = TunnelManager::new(provider);
    mgr.start(1000, 1).unwrap_or_else(|_| panic!("start failed"));
    mgr.start(2000, 2).unwrap_or_else(|_| panic!("start failed"));
    mgr.provider_mut().mark_exited(0);
    let dead = mgr.take_dead_ports();
    assert_eq!(dead, vec![1000]);
    // a returned port is never still listed afterwards
    let listed = mgr.list();
    assert_eq!(listed.len(), 1);
    assert_eq!(listed[0].port, 2000);
}

#[test]
fn take_dead_ports_twice_is_empty_second_time() {
    let provider = SimulatedProvider::new(vec![
        announce("https://a.trycloudflare.com"),
        announce("https://b.trycloudflare.com"),
    ]);
    let mut mgr = TunnelManager::new(provider);
    mgr.start(1000, 1).unwrap_or_else(|_| panic!("start failed"));
    mgr.start(2000, 2).unwrap_or_else(|_| panic!("start failed"));
    mgr.provider_mut().mark_exited(1);
    let first = mgr.take_dead_ports();
    assert_eq!(first, vec![2000]);
    let second = mgr.take_dead_ports();
    assert!(second.is_empty());
    assert_eq!(mgr.list().len(), 1);
}

#[test]
fn url_timeout_start_leaves_no_process_behind() {
    let provider = SimulatedProvider::new(vec![SimOutcome::NeverAnnounce]);
    let mut mgr = TunnelManager::new(provider);
    let r = mgr.start(8080, 100);
    assert!(matches!(r, Err(TunnelError::UrlTimeout)));
    assert_eq!(mgr.list().len(), 0);
    // the process was spawned, then killed and reaped on the timeout path
    assert_eq!(mgr.provider().spawned(), 1);
    let proc0 = mgr.provider().process(0);
    assert!(!proc0.alive);
    assert!(proc0.killed);
}

#[test]
fn start_failure_leaves_registry_unchanged() {
    let provider = SimulatedProvider::new(vec![SimOutcome::FailToLaunch(
        "binary not found".to_string(),
    )]);
    let mut mgr = TunnelManager::new(provider);
    let r = mgr.start(8080, 100);
    match r {
        Err(TunnelError::StartFailed(msg)) => assert_eq!(msg, "binary not found"),
        _ => panic!("expected StartFailed"),
    }
    assert_eq!(mgr.list().len(), 0);
    assert_eq!(mgr.provider().spawned(), 0);
}

#[test]
fn build_info_round_trip_stamps_both_timestamps() {
    let provider = SimulatedProvider::new(vec![]);
    let info = provider.build_info(4321, "https://fresh.trycloudflare.com".to_string(), 777);
    assert_eq!(info.port, 4321);
    assert_eq!(info.url, "https://fresh.trycloudflare.com");
    assert_eq!(info.provider, "simulated");
    // a fresh start is its own most recent renewal
    assert_eq!(info.started_at_ms, info.last_renewed_at_ms);
    assert_eq!(info.started_at_ms, 777);
}

#[test]
fn prune_dead_removes_exactly_the_flagged_entries() {
    let provider = SimulatedProvider::new(vec![
        announce("https://a.trycloudflare.com"),
        announce("https://b.trycloudflare.com"),
        announce("https://c.trycloudflare.com"),
    ]);
    let mut mgr = TunnelManager::new(provider);
    mgr.start(100, 1).unwrap_or_else(|_| panic!("start failed"));
    mgr.start(200, 2).unwrap_or_else(|_| panic!("start failed"));
    mgr.start(300, 3).unwrap_or_else(|_| panic!("start failed"));
    // one verdict per entry, in display order: 100 dead, 200 alive, 300 dead
    let pruned = mgr.prune_dead(&vec![true, false, true]);
    assert_eq!(pruned, vec![100, 300]);
    let ports: Vec<u16> = mgr.list().iter().map(|t| t.port).collect();
    assert_eq!(ports, vec![200]);
    // an all-clear verdict vector prunes nothing
    let none = mgr.prune_dead(&vec![false]);
    assert!(none.is_empty());
    assert_eq!(mgr.list().len(), 1);
}

#[test]
fn start_outcome_is_recorded_exactly_as_given() {
    let provider = SimulatedProvider::new(vec![]);
    let mut mgr = TunnelManager::new(provider);
    // an announced handle and URL become the entry, the URL verbatim
    let ok = mgr.record_start_outcome(
        7000,
        Ok((0, "https://given.trycloudflare.com".to_string())),
        42,
    );
    let info = ok.unwrap_or_else(|_| panic!("expected the announce to be recorded"));
    assert_eq!(info.url, "https://given.trycloudflare.com");
    assert_eq!(info.provider, "simulated");
    assert_eq!(mgr.list().len(), 1);
    // an error is handed back unchanged and nothing is recorded
    let err = mgr.record_start_outcome(
        7001,
        Err(TunnelError::StartFailed("exact words".to_string())),
        43,
    );
    match err {
        Err(TunnelError::StartFailed(msg)) => assert_eq!(msg, "exact words"),
        _ => panic!("expected the error back unchanged"),
    }
    assert_eq!(mgr.list().len(), 1);
}
