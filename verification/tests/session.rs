use chronos::route_layer::RouteHopSecret;
use chronos::session::{SessionError, SessionManager, SessionState};
use std::time::Duration;

#[test]
fn session_manager_opens_rekeys_and_closes() {
    let mut sm = SessionManager::new();
    let s = sm.open(RouteHopSecret([1; 32]));
    assert_eq!(s.session_id, 1);
    sm.rekey(1, RouteHopSecret([2; 32])).unwrap();
    assert_eq!(sm.get(1).unwrap().rekey_counter, 1);
    sm.close(1).unwrap();
    assert_eq!(sm.expire_idle(Duration::from_secs(999)), 1);
    assert!(sm.is_empty());
}

#[test]
fn session_ids_and_streams_increase() {
    let mut sm = SessionManager::new();
    let a = sm.open(RouteHopSecret([1; 32]));
    let b = sm.open(RouteHopSecret([2; 32]));
    assert_eq!((a.session_id, a.stream_id), (1, 10_000));
    assert_eq!((b.session_id, b.stream_id), (2, 10_001));
    assert_eq!(b.state, SessionState::Open);
    assert_eq!(sm.len(), 2);
    assert_eq!(sm.get(2).unwrap().route_secret, RouteHopSecret([2; 32]));
}

#[test]
fn closed_sessions_refuse_touch_and_rekey() {
    let mut sm = SessionManager::new();
    sm.open(RouteHopSecret([1; 32]));
    assert_eq!(sm.touch(1), Ok(()));
    assert_eq!(sm.mark_closing(1), Ok(()));
    assert_eq!(sm.get(1).unwrap().state, SessionState::Closing);
    assert_eq!(sm.touch(1), Ok(()));
    sm.close(1).unwrap();
    assert_eq!(sm.touch(1), Err(SessionError::Closed(1)));
    assert_eq!(sm.rekey(1, RouteHopSecret([3; 32])), Err(SessionError::Closed(1)));
    assert_eq!(sm.get(1).unwrap().rekey_counter, 0);
}

#[test]
fn unknown_sessions_are_not_found() {
    let mut sm = SessionManager::default();
    assert_eq!(sm.touch(7), Err(SessionError::NotFound(7)));
    assert_eq!(sm.mark_closing(7), Err(SessionError::NotFound(7)));
    assert_eq!(sm.close(7), Err(SessionError::NotFound(7)));
    assert_eq!(sm.rekey(7, RouteHopSecret([0; 32])), Err(SessionError::NotFound(7)));
    assert!(sm.get(7).is_none());
    let s = sm.open(RouteHopSecret([9; 32]));
    assert_eq!((s.session_id, s.stream_id), (0, 0));
}

#[test]
fn expire_idle_keeps_fresh_open_sessions() {
    let mut sm = SessionManager::new();
    sm.open(RouteHopSecret([1; 32]));
    sm.open(RouteHopSecret([2; 32]));
    sm.open(RouteHopSecret([3; 32]));
    sm.close(2).unwrap();
    assert_eq!(sm.expire_idle(Duration::from_secs(3600)), 1);
    assert_eq!(sm.len(), 2);
    assert!(sm.get(2).is_none());
    assert!(sm.get(1).is_some() && sm.get(3).is_some());
    assert_eq!(sm.expire_idle(Duration::ZERO), 2);
    assert!(sm.is_empty());
}

#[test]
fn expire_sessions_drops_closed_and_idle_ones_by_their_measured_idle_time() {
    let mut sm = SessionManager::new();
    sm.open(RouteHopSecret([1; 32]));
    sm.open(RouteHopSecret([2; 32]));
    sm.open(RouteHopSecret([3; 32]));
    sm.open(RouteHopSecret([4; 32]));
    sm.close(4).unwrap();
    assert_eq!(sm.expire_sessions(&[0, 50, 49, 0], 50), 2);
    assert!(sm.get(1).is_some() && sm.get(3).is_some());
    assert!(sm.get(2).is_none() && sm.get(4).is_none());
    assert_eq!(sm.expire_sessions(&[10, 10], 11), 0);
    assert_eq!(sm.len(), 2);
}
