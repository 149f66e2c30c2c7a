use l4_lb::cursor::Cursor;
use l4_lb::probe::{
    classify, is_ack, probe_request, record, sweep, transition, ProbeOutcome, Prober,
    ProberAction, Transition, PROBE_BUFFER_LEN, PROBE_INTERVAL_SECS,
};
use l4_lb::registry::Registry;
use l4_lb::router::route;

fn pool(addrs: &[&str]) -> Registry {
    let owned: Vec<String> = addrs.iter().map(|a| a.to_string()).collect();
    Registry::new(owned).expect("a pool with at least one backend")
}

#[test]
fn probe_request_is_health_line() {
    assert_eq!(probe_request(), b"HEALTH\n".to_vec());
}

#[test]
fn probe_constants() {
    assert_eq!(PROBE_BUFFER_LEN, 16);
    assert_eq!(PROBE_INTERVAL_SECS, 1);
}

#[test]
fn only_the_exact_acknowledgment_counts() {
    assert!(is_ack(b"OK\n"));
    assert!(!is_ack(b""));
    assert!(!is_ack(b"OK"));
    assert!(!is_ack(b"OK\n\n"));
    assert!(!is_ack(b"ok\n"));
    assert!(!is_ack(b"KO\n"));
    assert!(!is_ack(b"OK\r"));
    assert!(!is_ack(b"HEALTH\n"));
}

#[test]
fn classify_each_outcome() {
    assert!(!classify(&ProbeOutcome::ConnectFailed));
    assert!(!classify(&ProbeOutcome::WriteFailed));
    assert!(!classify(&ProbeOutcome::ReadFailed));
    assert!(!classify(&ProbeOutcome::Response(Vec::new())));
    assert!(!classify(&ProbeOutcome::Response(b"NO\n".to_vec())));
    assert!(classify(&ProbeOutcome::Response(b"OK\n".to_vec())));
}

#[test]
fn transition_only_on_change() {
    assert_eq!(transition(true, true), Transition::Unchanged);
    assert_eq!(transition(false, false), Transition::Unchanged);
    assert_eq!(transition(false, true), Transition::Up);
    assert_eq!(transition(true, false), Transition::Down);
}

#[test]
fn record_reports_each_change_once() {
    let mut registry = pool(&["x", "y"]);
    assert_eq!(record(&mut registry, 1, true), Transition::Unchanged);
    assert_eq!(record(&mut registry, 1, false), Transition::Down);
    assert!(!registry.is_healthy(1));
    assert_eq!(record(&mut registry, 1, false), Transition::Unchanged);
    assert_eq!(record(&mut registry, 1, true), Transition::Up);
    assert!(registry.is_healthy(1));
    assert!(registry.is_healthy(0));
}

#[test]
fn prober_sweeps_in_order_then_sleeps() {
    let mut prober = Prober::new(2, PROBE_INTERVAL_SECS);
    assert_eq!(prober.position_now(), 0);
    assert_eq!(prober.next_action(), ProberAction::Probe(0));
    assert_eq!(prober.next_action(), ProberAction::Probe(1));
    assert_eq!(prober.position_now(), 2);
    assert_eq!(prober.next_action(), ProberAction::Sleep(1));
    assert_eq!(prober.next_action(), ProberAction::Probe(0));
}

#[test]
fn prober_sleeps_for_the_interval_it_was_given() {
    let mut prober = Prober::new(1, 30);
    assert_eq!(prober.next_action(), ProberAction::Probe(0));
    assert_eq!(prober.next_action(), ProberAction::Sleep(30));
    assert_eq!(prober.next_action(), ProberAction::Probe(0));
    assert_eq!(prober.next_action(), ProberAction::Sleep(30));
}

#[test]
fn prober_of_empty_pool_only_sleeps() {
    let mut prober = Prober::new(0, 1);
    assert_eq!(prober.next_action(), ProberAction::Sleep(1));
    assert_eq!(prober.next_action(), ProberAction::Sleep(1));
}

#[test]
fn sweep_writes_every_flag_and_lists_transitions() {
    let mut registry = pool(&["a", "b", "c"]);
    registry.set_healthy(2, false);
    let changes = sweep(&mut registry, &vec![true, false, true]);
    assert_eq!(
        changes,
        vec![Transition::Unchanged, Transition::Down, Transition::Up]
    );
    assert!(registry.is_healthy(0));
    assert!(!registry.is_healthy(1));
    assert!(registry.is_healthy(2));
    assert_eq!(registry.address(1), "b");
}

#[test]
fn silent_backend_is_flagged_and_skipped() {
    let mut registry = pool(&["X", "Y"]);
    let changes = sweep(&mut registry, &vec![true, false]);
    assert_eq!(changes, vec![Transition::Unchanged, Transition::Down]);
    assert!(!registry.is_healthy(1));
    // Y would still accept a connect, yet no attempt is made on it.
    let mut cursor = Cursor::new();
    let reachable = vec![true, true];
    assert_eq!(route(&mut registry, &mut cursor, &reachable), Ok(0));
    assert_eq!(route(&mut registry, &mut cursor, &reachable), Ok(0));
    assert_eq!(cursor.peek(), 3);
    assert!(!registry.is_healthy(1));
}

#[test]
fn recovered_backend_is_routed_to_again() {
    let mut registry = pool(&["X", "Y"]);
    let mut cursor = Cursor::new();
    assert_eq!(route(&mut registry, &mut cursor, &vec![false, true]), Ok(1));
    assert!(!registry.is_healthy(0));
    let outcome = ProbeOutcome::Response(b"OK\n".to_vec());
    assert_eq!(record(&mut registry, 0, classify(&outcome)), Transition::Up);
    assert!(registry.is_healthy(0));
    assert_eq!(cursor.peek(), 2);
    assert_eq!(route(&mut registry, &mut cursor, &vec![true, true]), Ok(0));
    assert_eq!(route(&mut registry, &mut cursor, &vec![true, true]), Ok(1));
}
