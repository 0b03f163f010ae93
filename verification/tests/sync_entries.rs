//! The builder-style reconciliation record and the per-entry decision
//! function.

use s3gui_core::reconcile::{decide_action, SyncAction, SyncDirection, SyncEntry};

#[test]
fn test_sync_entry_needs_upload() {
    let mut entry = SyncEntry::new("test.txt".to_string()).with_local_md5("abc123".to_string());
    entry.determine_sync_action();
    assert!(entry.needs_upload);
    assert!(!entry.needs_download);
}

#[test]
fn test_sync_entry_needs_download() {
    let mut entry =
        SyncEntry::new("test.txt".to_string()).with_remote_etag("\"abc123\"".to_string());
    entry.determine_sync_action();
    assert!(!entry.needs_upload);
    assert!(entry.needs_download);
}

#[test]
fn sync_entry_equal_sides_need_nothing() {
    let mut entry = SyncEntry::new("test.txt".to_string())
        .with_local_md5("abc123".to_string())
        .with_remote_etag("\"ABC123\"".to_string());
    entry.determine_sync_action();
    assert!(!entry.needs_upload);
    assert!(!entry.needs_download);
}

#[test]
fn sync_entry_unequal_sides_need_upload() {
    let mut entry = SyncEntry::new("test.txt".to_string())
        .with_local_md5("abc123".to_string())
        .with_remote_etag("\"def456\"".to_string());
    entry.determine_sync_action();
    assert!(entry.needs_upload);
    assert!(!entry.needs_download);
}

#[test]
fn sync_entry_multipart_tag_needs_upload() {
    let mut entry = SyncEntry::new("test.txt".to_string())
        .with_local_md5("abc123".to_string())
        .with_remote_etag("\"abc123-4\"".to_string());
    entry.determine_sync_action();
    assert!(entry.needs_upload);
}

#[test]
fn sync_entry_nothing_attached_needs_nothing() {
    let mut entry = SyncEntry::new("test.txt".to_string());
    entry.determine_sync_action();
    assert!(!entry.needs_upload);
    assert!(!entry.needs_download);
}

#[test]
fn decide_action_local_to_remote() {
    let dir = SyncDirection::LocalToRemote;
    let local = Some("abc".to_string());
    let same = Some("\"ABC\"".to_string());
    let other = Some("\"def\"".to_string());
    assert_eq!(decide_action(dir, &local, &same), SyncAction::Skip);
    assert_eq!(decide_action(dir, &local, &other), SyncAction::Upload);
    assert_eq!(decide_action(dir, &local, &None), SyncAction::Upload);
    assert_eq!(decide_action(dir, &None, &other), SyncAction::Skip);
}

#[test]
fn decide_action_remote_to_local() {
    let dir = SyncDirection::RemoteToLocal;
    let local = Some("abc".to_string());
    let same = Some("\"abc\"".to_string());
    let other = Some("\"def\"".to_string());
    assert_eq!(decide_action(dir, &local, &same), SyncAction::Skip);
    assert_eq!(decide_action(dir, &local, &other), SyncAction::Download);
    assert_eq!(decide_action(dir, &local, &None), SyncAction::Download);
    assert_eq!(decide_action(dir, &None, &other), SyncAction::Download);
}
