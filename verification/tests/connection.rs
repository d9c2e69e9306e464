use seitai::connection::{ConnectionManager, ConnPhase, DisconnectAction, JoinAction};

#[test]
fn join_twice_reuses_the_same_connection() {
    let mut cm = ConnectionManager::new();
    let first = cm.join(10, 500);
    let JoinAction::RequestJoin { handle } = first else {
        panic!("first join must request a transport join");
    };
    // Second join with no intervening leave: no new transport join, the same
    // connection is returned.
    assert_eq!(cm.join(10, 501), JoinAction::Reuse { handle });
    assert_eq!(cm.join(10, 502), JoinAction::Reuse { handle });
    let conn = cm.find(10).unwrap();
    assert_eq!(conn.handle, handle);
    assert_eq!(conn.phase, ConnPhase::Connecting);
}

#[test]
fn completed_join_connects_and_records_the_route() {
    let mut cm = ConnectionManager::new();
    cm.join(10, 500);
    cm.join_completed(10, true);
    let conn = cm.find(10).unwrap();
    assert_eq!(conn.phase, ConnPhase::Connected);
    assert_eq!(cm.route_of(10), Some(500));
    // Still the same connection on a further join.
    assert_eq!(cm.join(10, 777), JoinAction::Reuse { handle: conn.handle });
    assert_eq!(cm.route_of(10), Some(500));
}

#[test]
fn failed_join_returns_to_disconnected() {
    let mut cm = ConnectionManager::new();
    cm.join(10, 500);
    cm.join_completed(10, false);
    assert!(cm.find(10).is_none());
    // A later join starts over with a fresh transport join.
    assert!(matches!(cm.join(10, 500), JoinAction::RequestJoin { .. }));
}

#[test]
fn leave_is_a_noop_without_a_connection() {
    let mut cm = ConnectionManager::new();
    assert!(!cm.leave(10));
    cm.join(10, 500);
    // Connecting, not yet connected: leaving tears nothing down.
    assert!(!cm.leave(10));
}

#[test]
fn leave_tears_down_a_connected_group() {
    let mut cm = ConnectionManager::new();
    cm.join(10, 500);
    cm.join_completed(10, true);
    assert!(cm.leave(10));
    assert!(cm.find(10).is_none());
    assert!(!cm.leave(10));
}

#[test]
fn disconnect_after_leave_is_ignored() {
    let mut cm = ConnectionManager::new();
    cm.join(10, 500);
    cm.join_completed(10, true);
    assert!(cm.leave(10));
    // The racing transport notification arrives after the explicit leave:
    // no second teardown, whatever the transport still believes.
    assert_eq!(cm.on_disconnect(10, true), DisconnectAction::Ignore);
    assert_eq!(cm.on_disconnect(10, false), DisconnectAction::Ignore);
}

#[test]
fn disconnect_of_an_active_group_stops_it_once() {
    let mut cm = ConnectionManager::new();
    cm.join(10, 500);
    cm.join_completed(10, true);
    assert_eq!(cm.on_disconnect(10, true), DisconnectAction::StopAndRemove);
    assert!(cm.find(10).is_none());
    assert_eq!(cm.on_disconnect(10, true), DisconnectAction::Ignore);

    cm.join(11, 600);
    cm.join_completed(11, true);
    assert_eq!(cm.on_disconnect(11, false), DisconnectAction::Stop);
    assert_eq!(cm.on_disconnect(11, false), DisconnectAction::Ignore);
}

#[test]
fn groups_are_independent() {
    let mut cm = ConnectionManager::new();
    let JoinAction::RequestJoin { handle: h1 } = cm.join(10, 500) else {
        panic!("expected a transport join");
    };
    let JoinAction::RequestJoin { handle: h2 } = cm.join(11, 600) else {
        panic!("expected a transport join");
    };
    assert_ne!(h1, h2);
    cm.join_completed(10, true);
    assert!(cm.leave(10));
    assert_eq!(cm.find(11).unwrap().phase, ConnPhase::Connecting);
}
