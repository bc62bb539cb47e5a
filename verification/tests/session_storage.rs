use jellyswarrm::server_id::ServerId;
use jellyswarrm::session_storage::{PlaybackSession, SessionStorage, PLAYBACK_SESSION_TTL};

fn session(session_id: &str, item_id: &str, user_id: &str, server_id: i64) -> PlaybackSession {
    PlaybackSession {
        session_id: session_id.to_string(),
        item_id: item_id.to_string(),
        user_id: user_id.to_string(),
        server_id: ServerId::new(server_id),
    }
}

#[test]
fn test_add_session_upserts_by_session_and_item_id() {
    let mut storage = SessionStorage::new();

    storage.add_session(session("session-1", "item-1", "user-1", 1), 0);
    storage.add_session(session("session-1", "item-1", "user-1", 2), 1);

    let found = storage.get_session("session-1", 2).unwrap();
    assert_eq!(found.server_id, ServerId::new(2));
    assert_eq!(
        storage
            .get_session_by_session_and_item_id("session-1", "item-1", 2)
            .unwrap()
            .server_id,
        ServerId::new(2)
    );
    assert_eq!(storage.get_sessions_by_item_id("item-1", 2).len(), 1);
}

#[test]
fn test_same_item_id_requires_matching_session_id() {
    let mut storage = SessionStorage::new();

    storage.add_session(session("session-1", "shared-item", "user-1", 1), 0);
    storage.add_session(session("session-2", "shared-item", "user-1", 2), 0);

    let found = storage
        .get_session_by_session_and_item_id("session-1", "shared-item", 0)
        .unwrap();
    assert_eq!(found.server_id, ServerId::new(1));

    let found = storage
        .get_session_by_session_and_item_id("session-2", "shared-item", 0)
        .unwrap();
    assert_eq!(found.server_id, ServerId::new(2));

    assert!(storage
        .get_session_by_session_and_item_id("missing-session", "shared-item", 0)
        .is_none());
}

#[test]
fn test_stale_sessions_expire() {
    let mut storage = SessionStorage::with_session_ttl(1_000_000);

    storage.add_session(session("session-1", "item-1", "user-1", 1), 0);

    assert!(storage.get_session("session-1", 10_000_000).is_none());
    assert!(storage
        .get_session_by_session_and_item_id("session-1", "item-1", 10_000_000)
        .is_none());
}

#[test]
fn test_remove_sessions_for_server() {
    let mut storage = SessionStorage::new();

    storage.add_session(session("session-1", "item-1", "user-1", 1), 0);
    storage.add_session(session("session-2", "item-2", "user-1", 2), 0);

    storage.remove_sessions_for_server(ServerId::new(1));

    assert!(storage.get_session("session-1", 0).is_none());
    assert!(storage.get_session("session-2", 0).is_some());
}

#[test]
fn test_get_sessions_by_item_id_returns_active_matches_newest_first() {
    let mut storage = SessionStorage::new();

    storage.add_session(session("session-1", "shared-item", "user-1", 1), 0);
    storage.add_session(session("session-2", "shared-item", "user-2", 2), 0);

    let sessions = storage.get_sessions_by_item_id("shared-item", 0);
    assert_eq!(sessions.len(), 2);
    assert_eq!(sessions[0].session_id, "session-2");
    assert_eq!(sessions[1].session_id, "session-1");
}

#[test]
fn a_session_lives_exactly_as_long_as_its_time_to_live() {
    let mut storage = SessionStorage::with_session_ttl(100);
    storage.add_session(session("s", "i", "u", 1), 50);
    assert!(storage.get_session("s", 150).is_some());
    assert!(storage.get_session("s", 151).is_none());
}

#[test]
fn adding_a_session_again_renews_it() {
    let mut storage = SessionStorage::with_session_ttl(100);
    storage.add_session(session("s", "i", "u", 1), 0);
    storage.add_session(session("s", "i", "u", 1), 90);
    assert!(storage.get_session("s", 190).is_some());
}

#[test]
fn a_clock_that_goes_back_expires_nothing() {
    let mut storage = SessionStorage::with_session_ttl(1);
    storage.add_session(session("s", "i", "u", 1), 1_000);
    assert!(storage.get_session("s", 0).is_some());
}

#[test]
fn a_removed_session_is_gone_for_all_items() {
    let mut storage = SessionStorage::new();
    storage.add_session(session("s", "a", "u", 1), 0);
    storage.add_session(session("s", "b", "u", 1), 0);
    storage.add_session(session("t", "a", "u", 1), 0);
    storage.remove_session("s");
    assert!(storage.get_session("s", 0).is_none());
    assert_eq!(storage.get_sessions_by_item_id("a", 0).len(), 1);
    assert!(storage.get_sessions_by_item_id("b", 0).is_empty());
}

#[test]
fn the_session_added_last_is_found_first() {
    let mut storage = SessionStorage::default();
    storage.add_session(session("s", "a", "u", 1), 0);
    storage.add_session(session("s", "b", "u", 2), 1);
    assert_eq!(storage.get_session("s", 2).unwrap().item_id, "b");
    storage.add_session(session("s", "a", "u", 3), 2);
    assert_eq!(storage.get_session("s", 3).unwrap().server_id, ServerId::new(3));
}

#[test]
fn sessions_live_for_twelve_hours_by_default() {
    assert_eq!(PLAYBACK_SESSION_TTL, 12 * 60 * 60 * 1_000_000_000);
    let mut storage = SessionStorage::new();
    storage.add_session(session("s", "i", "u", 1), 0);
    assert!(storage.get_session("s", PLAYBACK_SESSION_TTL).is_some());
    assert!(storage.get_session("s", PLAYBACK_SESSION_TTL + 1).is_none());
}
