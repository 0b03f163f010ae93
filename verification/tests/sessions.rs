//! The session registry: mutual exclusion per local path, stop releasing the
//! path, listing, and event bridging.

use s3gui_core::registry::{
    event_notifications, FileEventKind, SyncError, SyncRegistry, SyncState,
    EVENT_CHANNEL_CAPACITY,
};

#[test]
fn start_two_sessions_on_one_path_yields_one_success_and_one_conflict() {
    let mut reg = SyncRegistry::new();
    let first = reg.start("p1", "bucket", "pre", "/data/folder");
    let second = reg.start("p2", "bucket", "pre", "/data/folder");
    let st = first.expect("the first start owns the path");
    assert!(st.is_active);
    assert_eq!(st.local_path, "/data/folder");
    match second {
        Err(SyncError::AlreadyExists) => {},
        other => panic!("expected a conflict, got {:?}", other),
    }
    assert_eq!(reg.list_active().len(), 1);
}

#[test]
fn distinct_paths_run_concurrently() {
    let mut reg = SyncRegistry::new();
    let a = reg.start("p", "b", "", "/one").expect("path free");
    let b = reg.start("p", "b", "", "/two").expect("path free");
    assert_ne!(a.sync_id, b.sync_id);
    assert_eq!(reg.list_active().len(), 2);
}

#[test]
fn session_ids_are_hyphenated_identifiers() {
    let mut reg = SyncRegistry::new();
    let st = reg.start("p", "b", "pre", "/data").expect("path free");
    assert_eq!(st.sync_id.chars().count(), 36);
}

#[test]
fn stop_releases_the_path_and_forgets_the_id() {
    let mut reg = SyncRegistry::new();
    let st = reg.start("p", "b", "pre", "/data").expect("path free");
    let sid = st.sync_id.clone();

    reg.stop(&sid).expect("the session is registered");
    assert!(reg.list_active().iter().all(|s| s.sync_id != sid));
    assert_eq!(reg.list_active().len(), 0);

    // The path is free again.
    let again = reg.start("p", "b", "pre", "/data").expect("path was released");
    assert_ne!(again.sync_id, sid);

    // The stopped identifier stays unknown.
    match reg.stop(&sid) {
        Err(SyncError::NotFound(m)) => assert_eq!(m, sid),
        other => panic!("expected not-found, got {:?}", other),
    }
}

#[test]
fn stop_unknown_session_is_not_found() {
    let mut reg = SyncRegistry::new();
    match reg.stop("no-such-session") {
        Err(SyncError::NotFound(m)) => assert_eq!(m, "no-such-session"),
        other => panic!("expected not-found, got {:?}", other),
    }
}

#[test]
fn register_refuses_duplicate_identifiers() {
    let mut reg = SyncRegistry::new();
    let session = |sid: &str, path: &str| SyncState {
        sync_id: sid.to_string(),
        profile_id: "p".to_string(),
        bucket: "b".to_string(),
        remote_prefix: "".to_string(),
        local_path: path.to_string(),
        is_active: true,
        last_sync: None,
    };
    reg.register(session("id-1", "/one")).expect("fresh id and path");
    match reg.register(session("id-1", "/two")) {
        Err(SyncError::AlreadyExists) => {},
        other => panic!("expected a conflict, got {:?}", other),
    }
    match reg.register(session("id-2", "/one")) {
        Err(SyncError::AlreadyExists) => {},
        other => panic!("expected a conflict, got {:?}", other),
    }
    reg.register(session("id-2", "/two")).expect("fresh id and path");
    assert_eq!(reg.session_count(), 2);
}

#[test]
fn change_events_yield_one_notification_per_path() {
    let paths = vec!["/d/a.txt".to_string(), "/d/b.txt".to_string()];
    for kind in [FileEventKind::Create, FileEventKind::Modify, FileEventKind::Remove] {
        let notes = event_notifications("sid-7", kind, &paths);
        assert_eq!(notes.len(), 2);
        for (i, n) in notes.iter().enumerate() {
            assert_eq!(n.sync_id, "sid-7");
            assert_eq!(n.current, 0);
            assert_eq!(n.total, 1);
            assert_eq!(n.current_file, paths[i]);
        }
    }
}

#[test]
fn other_events_yield_no_notification() {
    let paths = vec!["/d/a.txt".to_string()];
    let notes = event_notifications("sid-7", FileEventKind::Other, &paths);
    assert_eq!(notes.len(), 0);
}

#[test]
fn event_channel_is_bounded() {
    assert_eq!(EVENT_CHANNEL_CAPACITY, 100);
}

#[test]
fn error_messages() {
    assert_eq!(SyncError::Io("gone".to_string()).message(), "IO error: gone");
    assert_eq!(SyncError::Watch("deaf".to_string()).message(), "Watch error: deaf");
    assert_eq!(SyncError::NotFound("sid".to_string()).message(), "Sync not found: sid");
    assert_eq!(
        SyncError::AlreadyExists.message(),
        "Sync already exists for this path"
    );
}
