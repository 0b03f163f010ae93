//! Plain snapshot values describing the object store: listed entries,
//! buckets, object metadata, bulk-delete outcomes, and the accumulator that
//! stitches paginated listing pages into one complete listing.  Timestamps
//! are carried as epoch seconds; the transport that produces these values
//! lives outside the crate.

use vstd::prelude::*;
use vstd::string::*;
use crate::text::{eq_ignore_ascii, seq_eq_nocase};

verus! {

/// One entry listed under a bucket/prefix.  `is_folder` is derived from the
/// key (it ends with the path separator), not stored remotely.
#[derive(Debug)]
pub struct ObjectInfo {
    pub key: String,
    pub size: i64,
    pub last_modified: Option<i64>,
    pub etag: Option<String>,
    pub is_folder: bool,
}

/// Whether a remote key denotes a folder marker.
pub open spec fn is_folder_key_spec(key: Seq<char>) -> bool {
    key.len() > 0 && key[key.len() - 1] == '/'
}

/// Decides whether a remote key denotes a folder marker.
pub fn is_folder_key(key: &str) -> (r: bool)
    ensures
        r == is_folder_key_spec(key@),
{
    let n = key.unicode_len();
    n > 0 && key.get_char(n - 1) == '/'
}

/// The key under which a folder is marked: the given key, ending with the
/// path separator.
pub open spec fn spec_folder_marker(key: Seq<char>) -> Seq<char> {
    if is_folder_key_spec(key) {
        key
    } else {
        key + seq!['/']
    }
}

/// Forms the key a folder marker is stored under.
pub fn folder_marker_key(key: &str) -> (r: String)
    ensures
        r@ == spec_folder_marker(key@),
{
    if is_folder_key(key) {
        key.to_owned()
    } else {
        let mut out = key.to_owned();
        out.append("/");
        proof {
            reveal_strlit("/");
            assert("/"@ =~= seq!['/']);
        }
        out
    }
}

/// A bucket of the account, with its creation time in epoch seconds.
#[derive(Debug)]
pub struct BucketInfo {
    pub name: String,
    pub creation_date: Option<i64>,
}

/// Metadata of one remote object.
#[derive(Debug)]
pub struct ObjectMetadata {
    pub content_type: Option<String>,
    pub content_length: i64,
    pub etag: Option<String>,
    pub last_modified: Option<i64>,
}

/// One page of a remote listing, as the store reports it.
#[derive(Debug)]
pub struct ListObjectsResult {
    pub objects: Vec<ObjectInfo>,
    pub common_prefixes: Vec<String>,
    pub next_continuation_token: Option<String>,
    pub is_truncated: bool,
}

/// A per-key failure reported by a bulk delete.
#[derive(Debug)]
pub struct DeleteError {
    pub key: String,
    pub message: String,
}

/// The outcome of a bulk delete: how many entries went, and which failed.
#[derive(Debug)]
pub struct DeleteObjectsResult {
    pub deleted: u64,
    pub errors: Vec<DeleteError>,
}

impl Default for DeleteObjectsResult {
    fn default() -> (r: Self)
        ensures
            r.deleted == 0,
            r.errors@.len() == 0,
    {
        DeleteObjectsResult { deleted: 0, errors: Vec::new() }
    }
}

/// Accumulates paginated listing pages into one complete listing.
/// Reconciliation must only ever act on a `complete` listing, so every page
/// the store reports is absorbed before any decision is made.
#[derive(Debug)]
pub struct Listing {
    pub entries: Vec<ObjectInfo>,
    pub complete: bool,
}

impl Listing {
    /// An empty, not yet complete listing.
    pub fn new() -> (r: Self)
        ensures
            r.entries@.len() == 0,
            !r.complete,
    {
        Listing { entries: Vec::new(), complete: false }
    }

    /// Folds one page into the listing: every entry of the page is appended,
    /// none is dropped or repeated.  Returns the continuation token to hand
    /// to the next request, or `None` once the store reports no truncation
    /// and the listing is complete.
    pub fn absorb_page(&mut self, page: ListObjectsResult) -> (next: Option<String>)
        requires
            !old(self).complete,
        ensures
            final(self).entries@ == old(self).entries@ + page.objects@,
            final(self).complete == !page.is_truncated,
            page.is_truncated ==> next == page.next_continuation_token,
            !page.is_truncated ==> next is None,
    {
        let ListObjectsResult { objects, common_prefixes: _, next_continuation_token, is_truncated } =
            page;
        let mut objs = objects;
        self.entries.append(&mut objs);
        if is_truncated {
            next_continuation_token
        } else {
            self.complete = true;
            None
        }
    }
}

/// The signature scheme a profile asks the store to use.
#[derive(Clone, Copy, PartialEq, Eq, Structural, Debug)]
pub enum SignatureVersion {
    V2,
    V4,
}

impl Default for SignatureVersion {
    fn default() -> (r: Self)
        ensures
            r == SignatureVersion::V4,
    {
        SignatureVersion::V4
    }
}

/// The connection settings a store client is built from.
#[derive(Debug)]
pub struct Profile {
    pub name: String,
    pub access_key_id: String,
    pub secret_access_key: String,
    pub region: String,
    pub endpoint: Option<String>,
    pub path_style: bool,
    pub signature_version: SignatureVersion,
}

/// Holds the profile a store client will be built from; the build itself is
/// transport work done outside the crate.
#[derive(Debug)]
pub struct S3ClientBuilder {
    pub profile: Profile,
}

impl S3ClientBuilder {
    /// Wraps a profile for a later client build.
    pub fn new(profile: Profile) -> (r: Self)
        ensures
            r.profile == profile,
    {
        S3ClientBuilder { profile }
    }
}

/// A previewable object: its bytes in a text encoding, and a content type.
#[derive(Debug)]
pub struct PreviewData {
    pub data: String,
    pub content_type: String,
}

/// The index of the last `.` in `s`, or -1.
pub open spec fn last_dot_index(s: Seq<char>) -> int
    decreases s.len(),
{
    if s.len() == 0 {
        -1
    } else if s.last() == '.' {
        s.len() - 1
    } else {
        last_dot_index(s.drop_last())
    }
}

/// The characters after the last `.` of a key, or the whole key without one.
pub open spec fn extension_of(key: Seq<char>) -> Seq<char> {
    let i = last_dot_index(key);
    if i < 0 {
        key
    } else {
        key.skip(i + 1)
    }
}

/// A dot at `i` with none after it determines `last_dot_index`.
proof fn lemma_last_dot_at(s: Seq<char>, i: int)
    requires
        0 <= i < s.len(),
        s[i] == '.',
        forall|k: int| i < k < s.len() ==> s[k] != '.',
    ensures
        last_dot_index(s) == i,
    decreases s.len(),
{
    if i < s.len() - 1 {
        assert(s.last() != '.');
        assert(s.drop_last()[i] == '.');
        lemma_last_dot_at(s.drop_last(), i);
    }
}

/// With no dot anywhere, `last_dot_index` reports -1.
proof fn lemma_no_dot(s: Seq<char>)
    requires
        forall|k: int| 0 <= k < s.len() ==> s[k] != '.',
    ensures
        last_dot_index(s) == -1,
    decreases s.len(),
{
    if s.len() > 0 {
        lemma_no_dot(s.drop_last());
    }
}

/// The content type a key's extension suggests, compared ignoring ASCII
/// case; anything unrecognised is an opaque byte stream.
pub open spec fn spec_guess_content_type(key: Seq<char>) -> Seq<char> {
    let ext = extension_of(key);
    if seq_eq_nocase(ext, "jpg"@) || seq_eq_nocase(ext, "jpeg"@) {
        "image/jpeg"@
    } else if seq_eq_nocase(ext, "png"@) {
        "image/png"@
    } else if seq_eq_nocase(ext, "gif"@) {
        "image/gif"@
    } else if seq_eq_nocase(ext, "webp"@) {
        "image/webp"@
    } else if seq_eq_nocase(ext, "svg"@) {
        "image/svg+xml"@
    } else if seq_eq_nocase(ext, "bmp"@) {
        "image/bmp"@
    } else if seq_eq_nocase(ext, "ico"@) {
        "image/x-icon"@
    } else if seq_eq_nocase(ext, "mp4"@) {
        "video/mp4"@
    } else if seq_eq_nocase(ext, "webm"@) {
        "video/webm"@
    } else if seq_eq_nocase(ext, "ogg"@) {
        "video/ogg"@
    } else if seq_eq_nocase(ext, "mov"@) {
        "video/quicktime"@
    } else {
        "application/octet-stream"@
    }
}

/// Finds the character after the last `.`, if the key holds one.
fn find_extension_start(key: &str) -> (r: Option<usize>)
    ensures
        match r {
            Some(j) => last_dot_index(key@) == j - 1 && 0 < j <= key@.len(),
            None => last_dot_index(key@) == -1,
        },
{
    let n = key.unicode_len();
    let mut j: usize = n;
    while j > 0
        invariant
            j <= n,
            n == key@.len(),
            forall|k: int| j <= k < n ==> key@[k] != '.',
        decreases j,
    {
        if key.get_char(j - 1) == '.' {
            proof {
                lemma_last_dot_at(key@, j - 1);
            }
            return Some(j);
        }
        j -= 1;
    }
    proof {
        lemma_no_dot(key@);
    }
    None
}

/// Guesses a content type from the key's extension, for a store that
/// reports none.
pub fn guess_content_type(key: &str) -> (r: String)
    ensures
        r@ == spec_guess_content_type(key@),
{
    let n = key.unicode_len();
    let ext = match find_extension_start(key) {
        Some(j) => key.substring_char(j, n),
        None => key,
    };
    proof {
        assert(ext@ =~= extension_of(key@));
    }
    let name = if eq_ignore_ascii(ext, "jpg") || eq_ignore_ascii(ext, "jpeg") {
        "image/jpeg"
    } else if eq_ignore_ascii(ext, "png") {
        "image/png"
    } else if eq_ignore_ascii(ext, "gif") {
        "image/gif"
    } else if eq_ignore_ascii(ext, "webp") {
        "image/webp"
    } else if eq_ignore_ascii(ext, "svg") {
        "image/svg+xml"
    } else if eq_ignore_ascii(ext, "bmp") {
        "image/bmp"
    } else if eq_ignore_ascii(ext, "ico") {
        "image/x-icon"
    } else if eq_ignore_ascii(ext, "mp4") {
        "video/mp4"
    } else if eq_ignore_ascii(ext, "webm") {
        "video/webm"
    } else if eq_ignore_ascii(ext, "ogg") {
        "video/ogg"
    } else if eq_ignore_ascii(ext, "mov") {
        "video/quicktime"
    } else {
        "application/octet-stream"
    };
    name.to_owned()
}

} // verus!
