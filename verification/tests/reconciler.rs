//! Planning passes over concrete snapshots: the end-to-end upload scenario,
//! idempotence of a re-run, key derivation, folder markers and tallying.

use s3gui_core::fingerprint::md5_hex;
use s3gui_core::reconcile::{
    join_key, plan_local_to_remote, plan_remote_to_local, rel_key, tally_plan, HashedLocalFile,
    SyncAction,
};
use s3gui_core::store::ObjectInfo;

fn file_entry(key: &str, etag: Option<&str>) -> ObjectInfo {
    ObjectInfo {
        key: key.to_string(),
        size: 0,
        last_modified: None,
        etag: etag.map(|t| t.to_string()),
        is_folder: key.ends_with('/'),
    }
}

#[test]
fn local_to_remote_uploads_everything_into_an_empty_prefix() {
    let h1 = md5_hex(b"first file");
    let h2 = md5_hex(b"second file");
    let locals = vec![
        HashedLocalFile { relative_path: "a.txt".to_string(), digest: h1.clone() },
        HashedLocalFile { relative_path: "b/c.txt".to_string(), digest: h2.clone() },
    ];
    let remotes: Vec<ObjectInfo> = vec![];

    let plan = plan_local_to_remote("", &locals, &remotes);
    assert_eq!(plan.len(), 2);
    assert_eq!(plan[0].relative_path, "a.txt");
    assert_eq!(plan[0].action, SyncAction::Upload);
    assert_eq!(plan[1].relative_path, "b/c.txt");
    assert_eq!(plan[1].action, SyncAction::Upload);

    let result = tally_plan(&plan);
    assert_eq!(result.uploaded, 2);
    assert_eq!(result.downloaded, 0);
    assert_eq!(result.deleted, 0);
    assert_eq!(result.skipped, 0);
}

#[test]
fn local_to_remote_skips_matching_content_on_a_second_run() {
    let h1 = md5_hex(b"first file");
    let h2 = md5_hex(b"second file");
    let locals = vec![
        HashedLocalFile { relative_path: "a.txt".to_string(), digest: h1.clone() },
        HashedLocalFile { relative_path: "b/c.txt".to_string(), digest: h2.clone() },
    ];
    // The store state the first pass leaves behind: both keys carry the
    // quoted whole-file digests.
    let remotes = vec![
        file_entry("a.txt", Some(&format!("\"{}\"", h1))),
        file_entry("b/c.txt", Some(&format!("\"{}\"", h2))),
    ];

    let plan = plan_local_to_remote("", &locals, &remotes);
    let result = tally_plan(&plan);
    assert_eq!(result.uploaded, 0);
    assert_eq!(result.skipped, 2);
    assert_eq!(result.downloaded, 0);
    assert_eq!(result.deleted, 0);
}

#[test]
fn local_to_remote_leaves_remote_only_entries_untouched() {
    // Deletion is outside the scope of this direction: a remote entry with
    // no local counterpart is not planned at all, so nothing is deleted.
    let h = md5_hex(b"x");
    let locals =
        vec![HashedLocalFile { relative_path: "a.txt".to_string(), digest: h.clone() }];
    let remotes = vec![
        file_entry("orphan.txt", Some("\"feedbeef\"")),
        file_entry("a.txt", Some(&format!("\"{}\"", h))),
    ];
    let plan = plan_local_to_remote("", &locals, &remotes);
    assert_eq!(plan.len(), 1);
    assert_eq!(plan[0].relative_path, "a.txt");
    let result = tally_plan(&plan);
    assert_eq!(result.deleted, 0);
    assert_eq!(result.uploaded, 0);
    assert_eq!(result.skipped, 1);
}

#[test]
fn local_to_remote_respects_the_prefix() {
    let h1 = md5_hex(b"x");
    let locals =
        vec![HashedLocalFile { relative_path: "a.txt".to_string(), digest: h1.clone() }];
    let remotes = vec![file_entry("backups/a.txt", Some(&format!("\"{}\"", h1)))];

    let plan = plan_local_to_remote("backups/", &locals, &remotes);
    assert_eq!(plan[0].action, SyncAction::Skip);
    // The same snapshot under another prefix misses and uploads.
    let plan2 = plan_local_to_remote("other", &locals, &remotes);
    assert_eq!(plan2[0].action, SyncAction::Upload);
}

#[test]
fn local_to_remote_multipart_tag_forces_reupload() {
    let h1 = md5_hex(b"x");
    let locals =
        vec![HashedLocalFile { relative_path: "a.txt".to_string(), digest: h1.clone() }];
    let remotes = vec![file_entry("a.txt", Some(&format!("\"{}-2\"", h1)))];
    let plan = plan_local_to_remote("", &locals, &remotes);
    assert_eq!(plan[0].action, SyncAction::Upload);
}

#[test]
fn remote_to_local_downloads_missing_and_skips_markers_and_matches() {
    let h1 = md5_hex(b"kept");
    let remotes = vec![
        file_entry("pre/", None),
        file_entry("pre/kept.txt", Some(&format!("\"{}\"", h1))),
        file_entry("pre/missing.txt", Some("\"0123\"")),
        file_entry("pre/sub/", None),
    ];
    let locals =
        vec![HashedLocalFile { relative_path: "kept.txt".to_string(), digest: h1.clone() }];

    let plan = plan_remote_to_local("pre", &remotes, &locals);
    assert_eq!(plan.len(), 2);
    assert_eq!(plan[0].relative_path, "kept.txt");
    assert_eq!(plan[0].action, SyncAction::Skip);
    assert_eq!(plan[1].relative_path, "missing.txt");
    assert_eq!(plan[1].action, SyncAction::Download);

    let result = tally_plan(&plan);
    assert_eq!(result.downloaded, 1);
    assert_eq!(result.skipped, 1);
    assert_eq!(result.uploaded, 0);
}

#[test]
fn remote_to_local_downloads_when_the_entry_has_no_tag() {
    let h1 = md5_hex(b"kept");
    let remotes = vec![file_entry("kept.txt", None)];
    let locals =
        vec![HashedLocalFile { relative_path: "kept.txt".to_string(), digest: h1.clone() }];
    let plan = plan_remote_to_local("", &remotes, &locals);
    assert_eq!(plan.len(), 1);
    assert_eq!(plan[0].action, SyncAction::Download);
}

#[test]
fn join_key_forms() {
    assert_eq!(join_key("", "a.txt"), "a.txt");
    assert_eq!(join_key("pre", "a.txt"), "pre/a.txt");
    assert_eq!(join_key("pre//", "b/c.txt"), "pre/b/c.txt");
}

#[test]
fn rel_key_forms() {
    assert_eq!(rel_key("", "pre/a.txt"), "pre/a.txt");
    assert_eq!(rel_key("pre", "pre/a.txt"), "a.txt");
    assert_eq!(rel_key("pre/", "pre//x/y.txt"), "x/y.txt");
    assert_eq!(rel_key("pre", "elsewhere/a.txt"), "elsewhere/a.txt");
}

#[test]
fn sync_result_default_is_all_zero() {
    let r = s3gui_core::reconcile::SyncResult::default();
    assert_eq!(r.uploaded, 0);
    assert_eq!(r.downloaded, 0);
    assert_eq!(r.deleted, 0);
    assert_eq!(r.skipped, 0);
}

#[test]
fn tally_counts_each_action() {
    let h = md5_hex(b"z");
    let locals = vec![
        HashedLocalFile { relative_path: "same.txt".to_string(), digest: h.clone() },
        HashedLocalFile { relative_path: "new.txt".to_string(), digest: h.clone() },
    ];
    let remotes = vec![file_entry("same.txt", Some(&format!("\"{}\"", h)))];
    let plan = plan_local_to_remote("", &locals, &remotes);
    let result = tally_plan(&plan);
    assert_eq!(result.skipped, 1);
    assert_eq!(result.uploaded, 1);
}
