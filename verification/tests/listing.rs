//! Pagination: stitching pages of a simulated store into one complete
//! listing, and reconciling over it exactly once per entry.

use s3gui_core::reconcile::{plan_remote_to_local, tally_plan, HashedLocalFile};
use s3gui_core::store::{
    folder_marker_key, guess_content_type, is_folder_key, Listing, ListObjectsResult, ObjectInfo,
};

fn page_of(from: usize, count: usize, token: Option<&str>, truncated: bool) -> ListObjectsResult {
    let mut objects = Vec::new();
    for i in from..from + count {
        objects.push(ObjectInfo {
            key: format!("entry-{:05}", i),
            size: i as i64,
            last_modified: None,
            etag: Some(format!("\"tag{}\"", i)),
            is_folder: false,
        });
    }
    ListObjectsResult {
        objects,
        common_prefixes: vec![],
        next_continuation_token: token.map(|t| t.to_string()),
        is_truncated: truncated,
    }
}

#[test]
fn three_pages_are_considered_exactly_once() {
    // A simulated store answers with pages of 1000, 1000 and 42 entries,
    // reporting truncation on the first two.
    let mut listing = Listing::new();
    let next = listing.absorb_page(page_of(0, 1000, Some("t1"), true));
    assert_eq!(next.as_deref(), Some("t1"));
    assert!(!listing.complete);
    let next = listing.absorb_page(page_of(1000, 1000, Some("t2"), true));
    assert_eq!(next.as_deref(), Some("t2"));
    assert!(!listing.complete);
    let next = listing.absorb_page(page_of(2000, 42, None, false));
    assert_eq!(next, None);
    assert!(listing.complete);

    assert_eq!(listing.entries.len(), 2042);
    for (i, entry) in listing.entries.iter().enumerate() {
        assert_eq!(entry.key, format!("entry-{:05}", i));
    }

    // A pass over the stitched listing decides every entry exactly once.
    let locals: Vec<HashedLocalFile> = vec![];
    let plan = plan_remote_to_local("", &listing.entries, &locals);
    assert_eq!(plan.len(), 2042);
    let result = tally_plan(&plan);
    assert_eq!(result.downloaded, 2042);
    assert_eq!(result.skipped, 0);
}

#[test]
fn a_final_page_ends_the_listing_even_with_a_token() {
    let mut listing = Listing::new();
    // The store reports no truncation; a stale token is not handed on.
    let next = listing.absorb_page(page_of(0, 3, Some("stale"), false));
    assert_eq!(next, None);
    assert!(listing.complete);
    assert_eq!(listing.entries.len(), 3);
}

#[test]
fn folder_markers_are_derived_from_the_key() {
    assert!(is_folder_key("docs/"));
    assert!(!is_folder_key("docs"));
    assert!(!is_folder_key(""));
}

#[test]
fn folder_marker_keys_end_with_the_separator() {
    assert_eq!(folder_marker_key("docs"), "docs/");
    assert_eq!(folder_marker_key("docs/"), "docs/");
    assert_eq!(folder_marker_key("a/b"), "a/b/");
}

#[test]
fn content_types_are_guessed_from_the_extension() {
    assert_eq!(guess_content_type("photo.jpg"), "image/jpeg");
    assert_eq!(guess_content_type("photo.JPEG"), "image/jpeg");
    assert_eq!(guess_content_type("dir/clip.Mp4"), "video/mp4");
    assert_eq!(guess_content_type("icon.svg"), "image/svg+xml");
    assert_eq!(guess_content_type("archive.tar.gz"), "application/octet-stream");
    assert_eq!(guess_content_type("noext"), "application/octet-stream");
    assert_eq!(guess_content_type("trailing."), "application/octet-stream");
}
