use l4_lb::probe::{ProbeOutcome, Transition};
use l4_lb::router::{Router, Verdict};
use l4_lb::shared::{next_candidate, observe, settle, SharedCursor, SharedRegistry};

fn shared_pool(addrs: &[&str]) -> SharedRegistry {
    let owned: Vec<String> = addrs.iter().map(|a| a.to_string()).collect();
    SharedRegistry::new(owned).expect("a pool with at least one backend")
}

/// Routes one connection over the shared state, with `reachable[i]` standing
/// for the outcome of a connect to backend `i`.
fn route_shared(
    registry: &SharedRegistry,
    cursor: &SharedCursor,
    reachable: &[bool],
) -> Option<usize> {
    let mut router = Router::new(registry.len());
    while let Some(candidate) = next_candidate(registry, cursor, &mut router) {
        if let Verdict::Relay(chosen) = settle(registry, candidate, reachable[candidate]) {
            return Some(chosen);
        }
    }
    None
}

#[test]
fn shared_empty_pool_is_refused() {
    assert!(SharedRegistry::new(Vec::new()).is_none());
}

#[test]
fn shared_pool_keeps_order_and_starts_healthy() {
    let registry = shared_pool(&["127.0.0.1:9000", "127.0.0.1:9001"]);
    assert_eq!(registry.len(), 2);
    assert_eq!(registry.address(0), "127.0.0.1:9000");
    assert_eq!(registry.address(1), "127.0.0.1:9001");
    assert!(registry.is_healthy(0));
    assert!(registry.is_healthy(1));
}

#[test]
fn shared_flag_write_returns_replaced_value() {
    let registry = shared_pool(&["x", "y"]);
    assert_eq!(registry.set_healthy(0, false), true);
    assert_eq!(registry.set_healthy(0, false), false);
    assert!(!registry.is_healthy(0));
    assert!(registry.is_healthy(1));
    assert_eq!(registry.set_healthy(0, true), false);
    assert!(registry.is_healthy(0));
}

#[test]
fn shared_cursor_issues_each_ticket_once() {
    let cursor = SharedCursor::new();
    assert_eq!(cursor.take_ticket(), 0);
    assert_eq!(cursor.take_ticket(), 1);
    assert_eq!(cursor.next(3), 2);
    assert_eq!(cursor.next(3), 0);
    assert_eq!(cursor.next(3), 1);
}

#[test]
fn shared_two_healthy_backends_alternate() {
    let registry = shared_pool(&["X", "Y"]);
    let cursor = SharedCursor::new();
    let mut routed: Vec<String> = Vec::new();
    for _ in 0..4 {
        let index = route_shared(&registry, &cursor, &[true, true]).expect("routed");
        routed.push(registry.address(index).clone());
    }
    assert_eq!(routed, vec!["X", "Y", "X", "Y"]);
}

#[test]
fn shared_unreachable_backend_fails_over() {
    let registry = shared_pool(&["X", "Y"]);
    let cursor = SharedCursor::new();
    assert_eq!(route_shared(&registry, &cursor, &[false, true]), Some(1));
    assert!(!registry.is_healthy(0));
    assert_eq!(route_shared(&registry, &cursor, &[false, true]), Some(1));
    assert_eq!(route_shared(&registry, &cursor, &[false, true]), Some(1));
    assert!(!registry.is_healthy(0));
    assert!(registry.is_healthy(1));
}

#[test]
fn shared_single_backend_down_has_no_route() {
    let registry = shared_pool(&["X"]);
    let cursor = SharedCursor::new();
    assert_eq!(route_shared(&registry, &cursor, &[false]), None);
    assert!(!registry.is_healthy(0));
    assert_eq!(route_shared(&registry, &cursor, &[true]), None);
}

#[test]
fn next_candidate_skips_flagged_down_backends() {
    let registry = shared_pool(&["a", "b", "c"]);
    registry.set_healthy(0, false);
    registry.set_healthy(1, false);
    let cursor = SharedCursor::new();
    let mut router = Router::new(registry.len());
    assert_eq!(next_candidate(&registry, &cursor, &mut router), Some(2));
    assert!(router.exhausted());
    assert_eq!(next_candidate(&registry, &cursor, &mut router), None);
    assert_eq!(cursor.take_ticket(), 3);
}

#[test]
fn settle_clears_the_flag_only_after_a_failed_connect() {
    let registry = shared_pool(&["a", "b"]);
    assert_eq!(settle(&registry, 0, true), Verdict::Relay(0));
    assert!(registry.is_healthy(0));
    assert_eq!(settle(&registry, 1, false), Verdict::MarkDown(1));
    assert!(!registry.is_healthy(1));
    assert!(registry.is_healthy(0));
}

#[test]
fn observe_reports_each_change_once() {
    let registry = shared_pool(&["x", "y"]);
    let ack = ProbeOutcome::Response(b"OK\n".to_vec());
    let garbage = ProbeOutcome::Response(b"??".to_vec());
    assert_eq!(observe(&registry, 1, &ack), Transition::Unchanged);
    assert_eq!(observe(&registry, 1, &ProbeOutcome::ConnectFailed), Transition::Down);
    assert!(!registry.is_healthy(1));
    assert_eq!(observe(&registry, 1, &garbage), Transition::Unchanged);
    assert_eq!(observe(&registry, 1, &ProbeOutcome::ReadFailed), Transition::Unchanged);
    assert_eq!(observe(&registry, 1, &ack), Transition::Up);
    assert!(registry.is_healthy(1));
    assert!(registry.is_healthy(0));
}

#[test]
fn silent_backend_is_skipped_before_any_connect() {
    let registry = shared_pool(&["X", "Y"]);
    assert_eq!(observe(&registry, 1, &ProbeOutcome::ReadFailed), Transition::Down);
    let cursor = SharedCursor::new();
    assert_eq!(route_shared(&registry, &cursor, &[true, true]), Some(0));
    assert_eq!(route_shared(&registry, &cursor, &[true, true]), Some(0));
    assert_eq!(cursor.take_ticket(), 3);
}
