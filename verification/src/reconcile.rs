//! The reconciler: given one snapshot of the local tree (relative paths with
//! their content fingerprints) and one complete snapshot of the remote
//! listing, it plans — per direction — which entries are uploaded, downloaded
//! or skipped, and tallies a result summary.  The decision for every entry is
//! a pure function of its local fingerprint and remote tag under the
//! conservative comparison rule of the fingerprint module.

use vstd::prelude::*;
use vstd::string::*;
use crate::fingerprint::{checksums_match, compare_checksums};
use crate::store::ObjectInfo;
use crate::text::{
    trim_char_back, trim_char_front, trim_end_matching, trim_start_matching, starts_with_str,
};

verus! {

/// The direction of a one-shot reconciliation pass.
#[derive(Clone, Copy, PartialEq, Eq, Structural, Debug)]
pub enum SyncDirection {
    LocalToRemote,
    RemoteToLocal,
}

/// What is to happen to one plan entry.
#[derive(Clone, Copy, PartialEq, Eq, Structural, Debug)]
pub enum SyncAction {
    Upload,
    Download,
    Skip,
    DeleteLocal,
    DeleteRemote,
}

/// The counters a reconciliation pass reports.
#[derive(Clone, Copy, PartialEq, Eq, Structural, Debug)]
pub struct SyncResult {
    pub uploaded: u64,
    pub downloaded: u64,
    pub deleted: u64,
    pub skipped: u64,
}

impl Default for SyncResult {
    fn default() -> (r: Self)
        ensures
            r == (SyncResult { uploaded: 0, downloaded: 0, deleted: 0, skipped: 0 }),
    {
        SyncResult { uploaded: 0, downloaded: 0, deleted: 0, skipped: 0 }
    }
}

/// One regular file found by walking the local root.
#[derive(Debug)]
pub struct LocalFileRecord {
    pub relative_path: String,
    pub absolute_path: String,
}

/// A local file together with its computed content fingerprint — the shape a
/// planning pass consumes.
#[derive(Debug)]
pub struct HashedLocalFile {
    pub relative_path: String,
    pub digest: String,
}

/// One planned step of a reconciliation pass.
#[derive(Debug)]
pub struct SyncPlanEntry {
    pub relative_path: String,
    pub local_fingerprint: Option<String>,
    pub remote_tag: Option<String>,
    pub action: SyncAction,
}

/// A builder-style reconciliation record for one path: the optional local
/// fingerprint and remote tag are attached independently before the decision
/// flags are computed from the pair.
#[derive(Debug)]
pub struct SyncEntry {
    pub path: String,
    pub local_md5: Option<String>,
    pub remote_etag: Option<String>,
    pub needs_upload: bool,
    pub needs_download: bool,
}

impl SyncEntry {
    /// A record for `path` with nothing attached and no decision made.
    pub fn new(path: String) -> (r: Self)
        ensures
            r.path == path,
            r.local_md5 is None,
            r.remote_etag is None,
            !r.needs_upload,
            !r.needs_download,
    {
        SyncEntry {
            path,
            local_md5: None,
            remote_etag: None,
            needs_upload: false,
            needs_download: false,
        }
    }

    /// Attaches the local content fingerprint.
    pub fn with_local_md5(self, md5: String) -> (r: Self)
        ensures
            r.path == self.path,
            r.local_md5 == Some(md5),
            r.remote_etag == self.remote_etag,
            r.needs_upload == self.needs_upload,
            r.needs_download == self.needs_download,
    {
        SyncEntry { local_md5: Some(md5), ..self }
    }

    /// Attaches the raw remote entity tag.
    pub fn with_remote_etag(self, etag: String) -> (r: Self)
        ensures
            r.path == self.path,
            r.local_md5 == self.local_md5,
            r.remote_etag == Some(etag),
            r.needs_upload == self.needs_upload,
            r.needs_download == self.needs_download,
    {
        SyncEntry { remote_etag: Some(etag), ..self }
    }

    /// Computes the decision flags from the attached pair: both sides
    /// present and unequal under the conservative comparison sets upload;
    /// only a local fingerprint sets upload; only a remote tag sets
    /// download; equal content, or nothing attached, sets neither.
    pub fn determine_sync_action(&mut self)
        ensures
            final(self).path == old(self).path,
            final(self).local_md5 == old(self).local_md5,
            final(self).remote_etag == old(self).remote_etag,
            final(self).needs_upload == (old(self).needs_upload || entry_needs_upload(
                opt_view(old(self).local_md5),
                opt_view(old(self).remote_etag),
            )),
            final(self).needs_download == (old(self).needs_download || entry_needs_download(
                opt_view(old(self).local_md5),
                opt_view(old(self).remote_etag),
            )),
    {
        let set_upload = match (&self.local_md5, &self.remote_etag) {
            (Some(l), Some(t)) => !compare_checksums(l.as_str(), t.as_str()),
            (Some(_), None) => true,
            _ => false,
        };
        let set_download = match (&self.local_md5, &self.remote_etag) {
            (None, Some(_)) => true,
            _ => false,
        };
        if set_upload {
            self.needs_upload = true;
        }
        if set_download {
            self.needs_download = true;
        }
    }
}

/// The view of an optional string.
pub open spec fn opt_view(o: Option<String>) -> Option<Seq<char>> {
    match o {
        Some(s) => Some(s@),
        None => None,
    }
}

/// When the attached pair calls for an upload: a local fingerprint with no
/// matching remote tag.
pub open spec fn entry_needs_upload(local: Option<Seq<char>>, remote: Option<Seq<char>>) -> bool {
    match (local, remote) {
        (Some(l), Some(t)) => !checksums_match(l, t),
        (Some(_), None) => true,
        (None, _) => false,
    }
}

/// When the attached pair calls for a download: a remote tag with no local
/// fingerprint at all.
pub open spec fn entry_needs_download(local: Option<Seq<char>>, remote: Option<Seq<char>>) -> bool {
    local is None && remote is Some
}

/// No pair of inputs ever calls for an upload and a download at once: the
/// decision is a function of the pair, moving data one way at most.
pub proof fn lemma_decision_single_direction(local: Option<Seq<char>>, remote: Option<Seq<char>>)
    ensures
        !(entry_needs_upload(local, remote) && entry_needs_download(local, remote)),
{
}

/// The decision rule of a reconciliation pass, as a pure function of the
/// entry's optional local fingerprint and optional remote tag.  Content is
/// equal only when both sides are present and the conservative comparison
/// accepts them; anything else moves data towards the pass's target side.
pub open spec fn spec_decide_action(
    direction: SyncDirection,
    local: Option<Seq<char>>,
    remote: Option<Seq<char>>,
) -> SyncAction {
    match (local, remote) {
        (Some(l), Some(r)) => if checksums_match(l, r) {
            SyncAction::Skip
        } else {
            match direction {
                SyncDirection::LocalToRemote => SyncAction::Upload,
                SyncDirection::RemoteToLocal => SyncAction::Download,
            }
        },
        (Some(l), None) => match direction {
            SyncDirection::LocalToRemote => SyncAction::Upload,
            SyncDirection::RemoteToLocal => SyncAction::Download,
        },
        (None, _) => match direction {
            SyncDirection::LocalToRemote => SyncAction::Skip,
            SyncDirection::RemoteToLocal => SyncAction::Download,
        },
    }
}

/// Decides the action for one entry under consideration in a pass.
pub fn decide_action(
    direction: SyncDirection,
    local: &Option<String>,
    remote: &Option<String>,
) -> (r: SyncAction)
    ensures
        r == spec_decide_action(direction, opt_view(*local), opt_view(*remote)),
{
    match (local, remote) {
        (Some(l), Some(t)) => {
            if compare_checksums(l.as_str(), t.as_str()) {
                SyncAction::Skip
            } else {
                match direction {
                    SyncDirection::LocalToRemote => SyncAction::Upload,
                    SyncDirection::RemoteToLocal => SyncAction::Download,
                }
            }
        },
        (Some(_), None) => match direction {
            SyncDirection::LocalToRemote => SyncAction::Upload,
            SyncDirection::RemoteToLocal => SyncAction::Download,
        },
        (None, _) => match direction {
            SyncDirection::LocalToRemote => SyncAction::Skip,
            SyncDirection::RemoteToLocal => SyncAction::Download,
        },
    }
}

/// The remote key a local file maps to: the prefix (less trailing
/// separators), one separator, then the relative path; a bare relative path
/// when the prefix is empty.
pub open spec fn spec_join_key(prefix: Seq<char>, rel: Seq<char>) -> Seq<char> {
    if prefix.len() == 0 {
        rel
    } else {
        trim_char_back(prefix, '/') + seq!['/'] + rel
    }
}

/// Computes the remote key for a local file's relative path.
pub fn join_key(prefix: &str, rel: &str) -> (r: String)
    ensures
        r@ == spec_join_key(prefix@, rel@),
{
    if prefix.unicode_len() == 0 {
        rel.to_owned()
    } else {
        let mut out = trim_end_matching(prefix, '/');
        out.append("/");
        out.append(rel);
        proof {
            reveal_strlit("/");
            assert("/"@ =~= seq!['/']);
            assert(out@ =~= spec_join_key(prefix@, rel@));
        }
        out
    }
}

/// The local-relative path a remote key maps to: the key less the prefix
/// (when the prefix, less trailing separators, leads the key) and less any
/// leading separators; the bare key when the prefix is empty.
pub open spec fn spec_rel_key(prefix: Seq<char>, key: Seq<char>) -> Seq<char> {
    if prefix.len() == 0 {
        key
    } else {
        let p = trim_char_back(prefix, '/');
        let rest = if p.is_prefix_of(key) {
            key.skip(p.len() as int)
        } else {
            key
        };
        trim_char_front(rest, '/')
    }
}

/// Computes the local-relative path for a remote key.
pub fn rel_key(prefix: &str, key: &str) -> (r: String)
    ensures
        r@ == spec_rel_key(prefix@, key@),
{
    if prefix.unicode_len() == 0 {
        return key.to_owned();
    }
    let p = trim_end_matching(prefix, '/');
    if starts_with_str(key, p.as_str()) {
        let n = key.unicode_len();
        let m = p.as_str().unicode_len();
        let rest = key.substring_char(m, n);
        proof {
            assert(rest@ =~= key@.skip(p@.len() as int));
        }
        trim_start_matching(rest, '/')
    } else {
        trim_start_matching(key, '/')
    }
}

/// The abstract content of a remote listing: each entry's key and tag.
pub open spec fn store_model(remotes: Seq<ObjectInfo>) -> Seq<(Seq<char>, Option<Seq<char>>)> {
    remotes.map(|i: int, o: ObjectInfo| (o.key@, opt_view(o.etag)))
}

/// The first index holding `key`, or -1.
pub open spec fn model_find(
    store: Seq<(Seq<char>, Option<Seq<char>>)>,
    key: Seq<char>,
) -> int
    decreases store.len(),
{
    if store.len() == 0 {
        -1
    } else if store[0].0 == key {
        0
    } else {
        let r = model_find(store.skip(1), key);
        if r < 0 {
            -1
        } else {
            r + 1
        }
    }
}

/// The tag recorded for `key`, or `None` when no entry holds the key or the
/// entry carries no tag.
pub open spec fn model_tag(
    store: Seq<(Seq<char>, Option<Seq<char>>)>,
    key: Seq<char>,
) -> Option<Seq<char>> {
    let i = model_find(store, key);
    if i < 0 {
        None
    } else {
        store[i].1
    }
}

/// `model_find` lands on the first match, inside bounds, or reports -1 when
/// no entry holds the key.
pub proof fn lemma_model_find_spec(store: Seq<(Seq<char>, Option<Seq<char>>)>, key: Seq<char>)
    ensures
        -1 <= model_find(store, key) < store.len(),
        model_find(store, key) >= 0 ==> store[model_find(store, key)].0 == key,
        model_find(store, key) >= 0 ==> forall|j: int|
            0 <= j < model_find(store, key) ==> store[j].0 != key,
        model_find(store, key) == -1 ==> forall|j: int| 0 <= j < store.len() ==> store[j].0 != key,
    decreases store.len(),
{
    if store.len() > 0 && store[0].0 != key {
        lemma_model_find_spec(store.skip(1), key);
        assert forall|j: int| 1 <= j < store.len() implies store[j].0 == store.skip(1)[j - 1].0 by {}
    }
}

/// The first index with a match determines `model_find`.
pub proof fn lemma_model_find_first(
    store: Seq<(Seq<char>, Option<Seq<char>>)>,
    key: Seq<char>,
    i: int,
)
    requires
        0 <= i < store.len(),
        store[i].0 == key,
        forall|j: int| 0 <= j < i ==> store[j].0 != key,
    ensures
        model_find(store, key) == i,
    decreases store.len(),
{
    if i > 0 {
        assert(store[0].0 != key);
        assert(store.skip(1)[i - 1].0 == key);
        assert forall|j: int| 0 <= j < i - 1 implies store.skip(1)[j].0 != key by {
            assert(store.skip(1)[j] == store[j + 1]);
        }
        lemma_model_find_first(store.skip(1), key, i - 1);
    }
}

/// With no match anywhere, `model_find` reports -1.
pub proof fn lemma_model_find_none(store: Seq<(Seq<char>, Option<Seq<char>>)>, key: Seq<char>)
    requires
        forall|j: int| 0 <= j < store.len() ==> store[j].0 != key,
    ensures
        model_find(store, key) == -1,
    decreases store.len(),
{
    if store.len() > 0 {
        assert forall|j: int| 0 <= j < store.skip(1).len() implies store.skip(1)[j].0 != key by {
            assert(store.skip(1)[j] == store[j + 1]);
        }
        lemma_model_find_none(store.skip(1), key);
    }
}

/// The upload decision of the local-to-remote pass for one local file.
pub open spec fn l2r_action(digest: Seq<char>, tag: Option<Seq<char>>) -> SyncAction {
    spec_decide_action(SyncDirection::LocalToRemote, Some(digest), tag)
}

/// The download decision of the remote-to-local pass for one listed entry.
pub open spec fn r2l_action(local: Option<Seq<char>>, tag: Option<Seq<char>>) -> SyncAction {
    spec_decide_action(SyncDirection::RemoteToLocal, local, tag)
}

/// Finds the first listed entry holding `key`.
fn find_remote_index(remotes: &Vec<ObjectInfo>, key: &String) -> (r: Option<usize>)
    ensures
        match r {
            Some(j) => model_find(store_model(remotes@), key@) == j as int && j < remotes@.len(),
            None => model_find(store_model(remotes@), key@) == -1,
        },
{
    let ghost sm = store_model(remotes@);
    let mut j: usize = 0;
    while j < remotes.len()
        invariant
            j <= remotes@.len(),
            sm == store_model(remotes@),
            forall|k: int| 0 <= k < j ==> sm[k].0 != key@,
        decreases remotes@.len() - j,
    {
        if remotes[j].key.eq(key) {
            proof {
                assert(sm[j as int].0 == key@);
                lemma_model_find_first(sm, key@, j as int);
            }
            return Some(j);
        }
        j += 1;
    }
    proof {
        lemma_model_find_none(sm, key@);
    }
    None
}

/// Finds the first local file holding the relative path `rel`.
fn find_local_index(locals: &Vec<HashedLocalFile>, rel: &String) -> (r: Option<usize>)
    ensures
        match r {
            Some(j) => model_find_local(locals_model(locals@), rel@) == j as int && j
                < locals@.len(),
            None => model_find_local(locals_model(locals@), rel@) == -1,
        },
{
    let ghost lm = locals_model(locals@);
    let mut j: usize = 0;
    while j < locals.len()
        invariant
            j <= locals@.len(),
            lm == locals_model(locals@),
            forall|k: int| 0 <= k < j ==> lm[k].0 != rel@,
        decreases locals@.len() - j,
    {
        if locals[j].relative_path.eq(rel) {
            proof {
                assert(lm[j as int].0 == rel@);
                lemma_model_find_local_first(lm, rel@, j as int);
            }
            return Some(j);
        }
        j += 1;
    }
    proof {
        lemma_model_find_local_none(lm, rel@);
    }
    None
}

/// What one entry of a local-to-remote plan must look like.
pub open spec fn plan_entry_l2r_ok(
    e: SyncPlanEntry,
    lf: HashedLocalFile,
    store: Seq<(Seq<char>, Option<Seq<char>>)>,
    prefix: Seq<char>,
) -> bool {
    let key = spec_join_key(prefix, lf.relative_path@);
    let tag = model_tag(store, key);
    &&& e.relative_path@ == lf.relative_path@
    &&& opt_view(e.local_fingerprint) == Some(lf.digest@)
    &&& opt_view(e.remote_tag) == tag
    &&& e.action == l2r_action(lf.digest@, tag)
}

/// Plans the local-to-remote pass over complete snapshots: one entry per
/// local file, visited exactly once, in order; each decided by the
/// conservative comparison against the tag at its joined remote key.
/// Entries present only remotely are left untouched by this direction.
pub fn plan_local_to_remote(
    prefix: &str,
    locals: &Vec<HashedLocalFile>,
    remotes: &Vec<ObjectInfo>,
) -> (plan: Vec<SyncPlanEntry>)
    ensures
        plan@.len() == locals@.len(),
        forall|i: int|
            0 <= i < plan@.len() ==> plan_entry_l2r_ok(
                plan@[i],
                locals@[i],
                store_model(remotes@),
                prefix@,
            ),
{
    let ghost sm = store_model(remotes@);
    let mut plan: Vec<SyncPlanEntry> = Vec::new();
    let mut i: usize = 0;
    while i < locals.len()
        invariant
            i <= locals@.len(),
            sm == store_model(remotes@),
            plan@.len() == i,
            forall|k: int| 0 <= k < i ==> plan_entry_l2r_ok(plan@[k], locals@[k], sm, prefix@),
        decreases locals@.len() - i,
    {
        let lf = &locals[i];
        let key = join_key(prefix, lf.relative_path.as_str());
        let found = find_remote_index(remotes, &key);
        let tag: Option<String> = match found {
            Some(jj) => match &remotes[jj].etag {
                Some(t) => Some(t.clone()),
                None => None,
            },
            None => None,
        };
        let action = match &tag {
            Some(t) => {
                if compare_checksums(lf.digest.as_str(), t.as_str()) {
                    SyncAction::Skip
                } else {
                    SyncAction::Upload
                }
            },
            None => SyncAction::Upload,
        };
        let entry = SyncPlanEntry {
            relative_path: lf.relative_path.clone(),
            local_fingerprint: Some(lf.digest.clone()),
            remote_tag: tag,
            action,
        };
        plan.push(entry);
        i += 1;
    }
    plan
}

/// The abstract content of the local snapshot: each file's relative path and
/// fingerprint.
pub open spec fn locals_model(locals: Seq<HashedLocalFile>) -> Seq<(Seq<char>, Seq<char>)> {
    locals.map(|i: int, f: HashedLocalFile| (f.relative_path@, f.digest@))
}

/// The first index holding `rel`, or -1.
pub open spec fn model_find_local(locals: Seq<(Seq<char>, Seq<char>)>, rel: Seq<char>) -> int
    decreases locals.len(),
{
    if locals.len() == 0 {
        -1
    } else if locals[0].0 == rel {
        0
    } else {
        let r = model_find_local(locals.skip(1), rel);
        if r < 0 {
            -1
        } else {
            r + 1
        }
    }
}

/// The fingerprint recorded for `rel`, if a local file holds that path.
pub open spec fn model_local_digest(
    locals: Seq<(Seq<char>, Seq<char>)>,
    rel: Seq<char>,
) -> Option<Seq<char>> {
    let i = model_find_local(locals, rel);
    if i < 0 {
        None
    } else {
        Some(locals[i].1)
    }
}

/// The first index with a match determines `model_find_local`.
pub proof fn lemma_model_find_local_first(
    locals: Seq<(Seq<char>, Seq<char>)>,
    rel: Seq<char>,
    i: int,
)
    requires
        0 <= i < locals.len(),
        locals[i].0 == rel,
        forall|j: int| 0 <= j < i ==> locals[j].0 != rel,
    ensures
        model_find_local(locals, rel) == i,
    decreases locals.len(),
{
    if i > 0 {
        assert(locals.skip(1)[i - 1].0 == rel);
        assert forall|j: int| 0 <= j < i - 1 implies locals.skip(1)[j].0 != rel by {
            assert(locals.skip(1)[j] == locals[j + 1]);
        }
        lemma_model_find_local_first(locals.skip(1), rel, i - 1);
    }
}

/// With no match anywhere, `model_find_local` reports -1.
pub proof fn lemma_model_find_local_none(locals: Seq<(Seq<char>, Seq<char>)>, rel: Seq<char>)
    requires
        forall|j: int| 0 <= j < locals.len() ==> locals[j].0 != rel,
    ensures
        model_find_local(locals, rel) == -1,
    decreases locals.len(),
{
    if locals.len() > 0 {
        assert forall|j: int| 0 <= j < locals.skip(1).len() implies locals.skip(1)[j].0 != rel by {
            assert(locals.skip(1)[j] == locals[j + 1]);
        }
        lemma_model_find_local_none(locals.skip(1), rel);
    }
}

/// The remote-to-local plan over complete snapshots, as a sequence of
/// (relative path, local fingerprint, remote tag, action) decisions: one per
/// listed entry that is not a folder marker, in listing order.
pub open spec fn spec_plan_r2l(
    prefix: Seq<char>,
    remotes: Seq<ObjectInfo>,
    locals: Seq<(Seq<char>, Seq<char>)>,
) -> Seq<(Seq<char>, Option<Seq<char>>, Option<Seq<char>>, SyncAction)>
    decreases remotes.len(),
{
    if remotes.len() == 0 {
        Seq::empty()
    } else {
        let o = remotes.last();
        let rest = spec_plan_r2l(prefix, remotes.drop_last(), locals);
        if o.is_folder {
            rest
        } else {
            let rel = spec_rel_key(prefix, o.key@);
            let ld = model_local_digest(locals, rel);
            let tag = opt_view(o.etag);
            rest + seq![(rel, ld, tag, r2l_action(ld, tag))]
        }
    }
}

/// Whether an executable plan realises the abstract remote-to-local plan.
pub open spec fn plan_matches_r2l(
    plan: Seq<SyncPlanEntry>,
    m: Seq<(Seq<char>, Option<Seq<char>>, Option<Seq<char>>, SyncAction)>,
) -> bool {
    &&& plan.len() == m.len()
    &&& forall|i: int|
        0 <= i < plan.len() ==> {
            &&& (#[trigger] plan[i]).relative_path@ == m[i].0
            &&& opt_view(plan[i].local_fingerprint) == m[i].1
            &&& opt_view(plan[i].remote_tag) == m[i].2
            &&& plan[i].action == m[i].3
        }
}

/// Plans the remote-to-local pass over complete snapshots: folder markers
/// are skipped; every other listed entry is visited exactly once and decided
/// by the conservative comparison against the fingerprint of the local file
/// at its derived relative path, a missing or unequal side forcing a
/// download.
pub fn plan_remote_to_local(
    prefix: &str,
    remotes: &Vec<ObjectInfo>,
    locals: &Vec<HashedLocalFile>,
) -> (plan: Vec<SyncPlanEntry>)
    ensures
        plan_matches_r2l(plan@, spec_plan_r2l(prefix@, remotes@, locals_model(locals@))),
{
    let ghost lm = locals_model(locals@);
    let mut plan: Vec<SyncPlanEntry> = Vec::new();
    let mut i: usize = 0;
    while i < remotes.len()
        invariant
            i <= remotes@.len(),
            lm == locals_model(locals@),
            plan_matches_r2l(plan@, spec_plan_r2l(prefix@, remotes@.take(i as int), lm)),
        decreases remotes@.len() - i,
    {
        let o = &remotes[i];
        proof {
            assert(remotes@.take(i + 1).drop_last() =~= remotes@.take(i as int));
            assert(remotes@.take(i + 1).last() == remotes@[i as int]);
        }
        if !o.is_folder {
            let rel = rel_key(prefix, o.key.as_str());
            let found = find_local_index(locals, &rel);
            let local_fp: Option<String> = match found {
                Some(jj) => Some(locals[jj].digest.clone()),
                None => None,
            };
            let tag: Option<String> = match &o.etag {
                Some(t) => Some(t.clone()),
                None => None,
            };
            let action = decide_action(SyncDirection::RemoteToLocal, &local_fp, &tag);
            let entry = SyncPlanEntry {
                relative_path: rel,
                local_fingerprint: local_fp,
                remote_tag: tag,
                action,
            };
            plan.push(entry);
        }
        i += 1;
    }
    proof {
        assert(remotes@.take(remotes@.len() as int) =~= remotes@);
    }
    plan
}

/// How many listed entries are not folder markers.
pub open spec fn count_non_folder(remotes: Seq<ObjectInfo>) -> int
    decreases remotes.len(),
{
    if remotes.len() == 0 {
        0
    } else {
        count_non_folder(remotes.drop_last()) + if remotes.last().is_folder {
            0int
        } else {
            1int
        }
    }
}

/// The remote-to-local plan holds exactly one decision per listed entry that
/// is not a folder marker: none is dropped, none is decided twice.
pub proof fn lemma_r2l_plan_len(
    prefix: Seq<char>,
    remotes: Seq<ObjectInfo>,
    locals: Seq<(Seq<char>, Seq<char>)>,
)
    ensures
        spec_plan_r2l(prefix, remotes, locals).len() == count_non_folder(remotes),
    decreases remotes.len(),
{
    if remotes.len() > 0 {
        lemma_r2l_plan_len(prefix, remotes.drop_last(), locals);
    }
}

/// How many entries of the plan carry the action.
pub open spec fn count_action(plan: Seq<SyncPlanEntry>, a: SyncAction) -> int
    decreases plan.len(),
{
    if plan.len() == 0 {
        0
    } else {
        count_action(plan.drop_last(), a) + if plan.last().action == a {
            1int
        } else {
            0int
        }
    }
}

/// Tallies a plan into the counters a pass reports: uploads, downloads,
/// deletions (either side) and skips, each counted exactly.
pub fn tally_plan(plan: &Vec<SyncPlanEntry>) -> (r: SyncResult)
    ensures
        r.uploaded == count_action(plan@, SyncAction::Upload),
        r.downloaded == count_action(plan@, SyncAction::Download),
        r.skipped == count_action(plan@, SyncAction::Skip),
        r.deleted == count_action(plan@, SyncAction::DeleteLocal) + count_action(
            plan@,
            SyncAction::DeleteRemote,
        ),
{
    let mut uploaded: u64 = 0;
    let mut downloaded: u64 = 0;
    let mut deleted: u64 = 0;
    let mut skipped: u64 = 0;
    let mut i: usize = 0;
    while i < plan.len()
        invariant
            i <= plan@.len(),
            uploaded == count_action(plan@.take(i as int), SyncAction::Upload),
            downloaded == count_action(plan@.take(i as int), SyncAction::Download),
            skipped == count_action(plan@.take(i as int), SyncAction::Skip),
            deleted == count_action(plan@.take(i as int), SyncAction::DeleteLocal) + count_action(
                plan@.take(i as int),
                SyncAction::DeleteRemote,
            ),
            uploaded <= i && downloaded <= i && skipped <= i && deleted <= i,
        decreases plan@.len() - i,
    {
        proof {
            assert(plan@.take(i + 1).drop_last() =~= plan@.take(i as int));
            assert(plan@.take(i + 1).last() == plan@[i as int]);
        }
        match plan[i].action {
            SyncAction::Upload => {
                uploaded = uploaded + 1;
            },
            SyncAction::Download => {
                downloaded = downloaded + 1;
            },
            SyncAction::Skip => {
                skipped = skipped + 1;
            },
            SyncAction::DeleteLocal => {
                deleted = deleted + 1;
            },
            SyncAction::DeleteRemote => {
                deleted = deleted + 1;
            },
        }
        i += 1;
    }
    proof {
        assert(plan@.take(plan@.len() as int) =~= plan@);
    }
    SyncResult { uploaded, downloaded, deleted, skipped }
}

/// The tag a store records for a whole-file upload: the digest, quoted.
pub open spec fn quote_tag(d: Seq<char>) -> Seq<char> {
    seq!['"'] + d + seq!['"']
}

/// The store content after recording `tag` at `key`: the first entry holding
/// the key is overwritten, or an entry is appended when none holds it.
pub open spec fn model_upsert(
    store: Seq<(Seq<char>, Option<Seq<char>>)>,
    key: Seq<char>,
    tag: Option<Seq<char>>,
) -> Seq<(Seq<char>, Option<Seq<char>>)> {
    let i = model_find(store, key);
    if i < 0 {
        store.push((key, tag))
    } else {
        store.update(i, (key, tag))
    }
}

/// The store content after one step of the local-to-remote pass: an upload
/// overwrites the entry at the file's key with the quoted digest; a skip
/// leaves the store as it is.
pub open spec fn model_apply_one(
    store: Seq<(Seq<char>, Option<Seq<char>>)>,
    prefix: Seq<char>,
    lf: (Seq<char>, Seq<char>),
) -> Seq<(Seq<char>, Option<Seq<char>>)> {
    let key = spec_join_key(prefix, lf.0);
    if l2r_action(lf.1, model_tag(store, key)) == SyncAction::Upload {
        model_upsert(store, key, Some(quote_tag(lf.1)))
    } else {
        store
    }
}

/// The store content after the uploads of a whole local-to-remote pass.
pub open spec fn model_apply_pass(
    store: Seq<(Seq<char>, Option<Seq<char>>)>,
    prefix: Seq<char>,
    locals: Seq<(Seq<char>, Seq<char>)>,
) -> Seq<(Seq<char>, Option<Seq<char>>)>
    decreases locals.len(),
{
    if locals.len() == 0 {
        store
    } else {
        model_apply_pass(model_apply_one(store, prefix, locals[0]), prefix, locals.skip(1))
    }
}

/// After an upsert, the key reads back the recorded tag.
pub proof fn lemma_upsert_same(
    store: Seq<(Seq<char>, Option<Seq<char>>)>,
    key: Seq<char>,
    tag: Option<Seq<char>>,
)
    ensures
        model_tag(model_upsert(store, key, tag), key) == tag,
{
    lemma_model_find_spec(store, key);
    let i = model_find(store, key);
    if i >= 0 {
        let u = store.update(i, (key, tag));
        assert(u[i].0 == key);
        assert forall|j: int| 0 <= j < i implies u[j].0 != key by {
            assert(u[j] == store[j]);
        }
        lemma_model_find_first(u, key, i);
    } else {
        let p = store.push((key, tag));
        assert(p[store.len() as int].0 == key);
        assert forall|j: int| 0 <= j < store.len() implies p[j].0 != key by {
            assert(p[j] == store[j]);
        }
        lemma_model_find_first(p, key, store.len() as int);
    }
}

/// An upsert at one key leaves every other key's tag unchanged.
pub proof fn lemma_upsert_other(
    store: Seq<(Seq<char>, Option<Seq<char>>)>,
    key: Seq<char>,
    tag: Option<Seq<char>>,
    k2: Seq<char>,
)
    requires
        k2 != key,
    ensures
        model_tag(model_upsert(store, key, tag), k2) == model_tag(store, k2),
{
    lemma_model_find_spec(store, key);
    lemma_model_find_spec(store, k2);
    let i = model_find(store, key);
    let f2 = model_find(store, k2);
    if i >= 0 {
        let u = store.update(i, (key, tag));
        if f2 >= 0 {
            assert(f2 != i);
            assert(u[f2] == store[f2]);
            assert forall|j: int| 0 <= j < f2 implies u[j].0 != k2 by {
                if j == i {
                    assert(u[j].0 == key);
                } else {
                    assert(u[j] == store[j]);
                }
            }
            lemma_model_find_first(u, k2, f2);
        } else {
            assert forall|j: int| 0 <= j < u.len() implies u[j].0 != k2 by {
                if j == i {
                    assert(u[j].0 == key);
                } else {
                    assert(u[j] == store[j]);
                }
            }
            lemma_model_find_none(u, k2);
        }
    } else {
        let p = store.push((key, tag));
        if f2 >= 0 {
            assert(p[f2] == store[f2]);
            assert forall|j: int| 0 <= j < f2 implies p[j].0 != k2 by {
                assert(p[j] == store[j]);
            }
            lemma_model_find_first(p, k2, f2);
        } else {
            assert forall|j: int| 0 <= j < p.len() implies p[j].0 != k2 by {
                if j < store.len() {
                    assert(p[j] == store[j]);
                } else {
                    assert(p[j].0 == key);
                }
            }
            lemma_model_find_none(p, k2);
        }
    }
}

/// A pass whose files all map to other keys leaves a key's tag unchanged.
pub proof fn lemma_apply_pass_preserves(
    store: Seq<(Seq<char>, Option<Seq<char>>)>,
    prefix: Seq<char>,
    locals: Seq<(Seq<char>, Seq<char>)>,
    key: Seq<char>,
)
    requires
        forall|j: int| 0 <= j < locals.len() ==> spec_join_key(
            prefix,
            (#[trigger] locals[j]).0,
        ) != key,
    ensures
        model_tag(model_apply_pass(store, prefix, locals), key) == model_tag(store, key),
    decreases locals.len(),
{
    if locals.len() > 0 {
        let lf = locals[0];
        let key0 = spec_join_key(prefix, lf.0);
        let s1 = model_apply_one(store, prefix, lf);
        if l2r_action(lf.1, model_tag(store, key0)) == SyncAction::Upload {
            lemma_upsert_other(store, key0, Some(quote_tag(lf.1)), key);
        }
        assert forall|j: int| 0 <= j < locals.skip(1).len() implies spec_join_key(
            prefix,
            (#[trigger] locals.skip(1)[j]).0,
        ) != key by {
            assert(locals.skip(1)[j] == locals[j + 1]);
        }
        lemma_apply_pass_preserves(s1, prefix, locals.skip(1), key);
    }
}

/// Joining maps distinct relative paths to distinct keys.
pub proof fn lemma_join_key_injective(prefix: Seq<char>, r1: Seq<char>, r2: Seq<char>)
    requires
        spec_join_key(prefix, r1) == spec_join_key(prefix, r2),
    ensures
        r1 == r2,
{
    if prefix.len() == 0 {
    } else {
        let c = trim_char_back(prefix, '/') + seq!['/'];
        let a = c + r1;
        let b = c + r2;
        assert(spec_join_key(prefix, r1) == a);
        assert(spec_join_key(prefix, r2) == b);
        assert(r1.len() == r2.len());
        assert forall|k: int| 0 <= k < r1.len() implies r1[k] == r2[k] by {
            assert(a[c.len() + k] == r1[k]);
            assert(b[c.len() + k] == r2[k]);
        }
        assert(r1 =~= r2);
    }
}

/// Idempotence of the local-to-remote pass: over the store state one pass
/// leaves behind, with no intervening change on either side, the decision
/// for every local file is a skip — nothing is uploaded again.  The files
/// must hold distinct relative paths, and their fingerprints hold neither
/// hyphen nor quote, as hex digests do.
pub proof fn lemma_pass_idempotent(
    prefix: Seq<char>,
    locals: Seq<(Seq<char>, Seq<char>)>,
    store: Seq<(Seq<char>, Option<Seq<char>>)>,
)
    requires
        forall|i: int, j: int| 0 <= i < j < locals.len() ==> locals[i].0 != locals[j].0,
        forall|i: int|
            0 <= i < locals.len() ==> !(#[trigger] locals[i]).1.contains('-') && !locals[
                i
            ].1.contains('"'),
    ensures
        forall|i: int|
            0 <= i < locals.len() ==> l2r_action(
                (#[trigger] locals[i]).1,
                model_tag(
                    model_apply_pass(store, prefix, locals),
                    spec_join_key(prefix, locals[i].0),
                ),
            ) == SyncAction::Skip,
    decreases locals.len(),
{
    if locals.len() > 0 {
        let lf = locals[0];
        let key0 = spec_join_key(prefix, lf.0);
        let s1 = model_apply_one(store, prefix, lf);
        let rest = locals.skip(1);
        let fin = model_apply_pass(store, prefix, locals);
        assert(fin == model_apply_pass(s1, prefix, rest));
        assert forall|i: int, j: int| 0 <= i < j < rest.len() implies rest[i].0 != rest[j].0 by {
            assert(rest[i] == locals[i + 1]);
            assert(rest[j] == locals[j + 1]);
        }
        assert forall|i: int|
            0 <= i < rest.len() implies !(#[trigger] rest[i]).1.contains('-') && !rest[
            i
        ].1.contains('"') by {
            assert(rest[i] == locals[i + 1]);
        }
        lemma_pass_idempotent(prefix, rest, s1);
        // The first file: after its own step its key reads a matching tag,
        // and the steps of the remaining files touch other keys only.
        let t0 = model_tag(store, key0);
        if l2r_action(lf.1, t0) == SyncAction::Upload {
            lemma_upsert_same(store, key0, Some(quote_tag(lf.1)));
            crate::fingerprint::lemma_clean_digest_matches_self(lf.1);
        }
        assert forall|j: int| 0 <= j < rest.len() implies spec_join_key(
            prefix,
            (#[trigger] rest[j]).0,
        ) != key0 by {
            assert(rest[j] == locals[j + 1]);
            if spec_join_key(prefix, rest[j].0) == key0 {
                lemma_join_key_injective(prefix, rest[j].0, lf.0);
            }
        }
        lemma_apply_pass_preserves(s1, prefix, rest, key0);
        assert forall|i: int|
            0 <= i < locals.len() implies l2r_action(
                (#[trigger] locals[i]).1,
                model_tag(fin, spec_join_key(prefix, locals[i].0)),
            ) == SyncAction::Skip by {
            if i > 0 {
                assert(locals[i] == rest[i - 1]);
            }
        }
    }
}

/// A plan whose entries all carry the action counts them all.
pub proof fn lemma_count_action_all(plan: Seq<SyncPlanEntry>, a: SyncAction)
    requires
        forall|i: int| 0 <= i < plan.len() ==> (#[trigger] plan[i]).action == a,
    ensures
        count_action(plan, a) == plan.len(),
    decreases plan.len(),
{
    if plan.len() > 0 {
        assert forall|i: int|
            0 <= i < plan.drop_last().len() implies (#[trigger] plan.drop_last()[i]).action
            == a by {
            assert(plan.drop_last()[i] == plan[i]);
        }
        lemma_count_action_all(plan.drop_last(), a);
    }
}

/// A plan with no entry carrying the action counts none.
pub proof fn lemma_count_action_none(plan: Seq<SyncPlanEntry>, a: SyncAction)
    requires
        forall|i: int| 0 <= i < plan.len() ==> (#[trigger] plan[i]).action != a,
    ensures
        count_action(plan, a) == 0,
    decreases plan.len(),
{
    if plan.len() > 0 {
        assert forall|i: int|
            0 <= i < plan.drop_last().len() implies (#[trigger] plan.drop_last()[i]).action
            != a by {
            assert(plan.drop_last()[i] == plan[i]);
        }
        lemma_count_action_none(plan.drop_last(), a);
    }
}

/// The counters of a second local-to-remote pass run over the store state
/// the first pass left behind: no uploads, and exactly one skip per file.
pub proof fn lemma_second_pass_counts(
    prefix: Seq<char>,
    locals: Seq<(Seq<char>, Seq<char>)>,
    store: Seq<(Seq<char>, Option<Seq<char>>)>,
    plan: Seq<SyncPlanEntry>,
)
    requires
        forall|i: int, j: int| 0 <= i < j < locals.len() ==> locals[i].0 != locals[j].0,
        forall|i: int|
            0 <= i < locals.len() ==> !(#[trigger] locals[i]).1.contains('-') && !locals[
                i
            ].1.contains('"'),
        plan.len() == locals.len(),
        forall|i: int|
            0 <= i < plan.len() ==> (#[trigger] plan[i]).action == l2r_action(
                locals[i].1,
                model_tag(
                    model_apply_pass(store, prefix, locals),
                    spec_join_key(prefix, locals[i].0),
                ),
            ),
    ensures
        count_action(plan, SyncAction::Upload) == 0,
        count_action(plan, SyncAction::Skip) == plan.len(),
{
    lemma_pass_idempotent(prefix, locals, store);
    assert forall|i: int| 0 <= i < plan.len() implies (#[trigger] plan[i]).action
        == SyncAction::Skip by {}
    lemma_count_action_all(plan, SyncAction::Skip);
    lemma_count_action_none(plan, SyncAction::Upload);
}

/// Idempotence at the planner's interface: a plan the local-to-remote
/// planner computes over the store state a previous pass left behind — its
/// entries shaped as the planner guarantees them — uploads nothing and skips
/// exactly one entry per file.  The files hold distinct relative paths and
/// hex fingerprints, as a directory walk with whole-file digests yields.
pub proof fn lemma_planner_idempotent(
    prefix: Seq<char>,
    locals: Seq<HashedLocalFile>,
    store: Seq<(Seq<char>, Option<Seq<char>>)>,
    plan: Seq<SyncPlanEntry>,
)
    requires
        forall|i: int, j: int|
            0 <= i < j < locals.len() ==> locals[i].relative_path@ != locals[j].relative_path@,
        forall|i: int|
            0 <= i < locals.len() ==> !(#[trigger] locals[i]).digest@.contains('-') && !locals[
                i
            ].digest@.contains('"'),
        plan.len() == locals.len(),
        forall|i: int|
            0 <= i < plan.len() ==> plan_entry_l2r_ok(
                plan[i],
                locals[i],
                model_apply_pass(store, prefix, locals_model(locals)),
                prefix,
            ),
    ensures
        count_action(plan, SyncAction::Upload) == 0,
        count_action(plan, SyncAction::Skip) == plan.len(),
{
    let lm = locals_model(locals);
    assert forall|i: int, j: int| 0 <= i < j < lm.len() implies lm[i].0 != lm[j].0 by {
        assert(lm[i].0 == locals[i].relative_path@);
        assert(lm[j].0 == locals[j].relative_path@);
    }
    assert forall|i: int|
        0 <= i < lm.len() implies !(#[trigger] lm[i]).1.contains('-') && !lm[i].1.contains(
        '"',
    ) by {
        assert(lm[i].1 == locals[i].digest@);
    }
    assert forall|i: int|
        0 <= i < plan.len() implies (#[trigger] plan[i]).action == l2r_action(
        lm[i].1,
        model_tag(model_apply_pass(store, prefix, lm), spec_join_key(prefix, lm[i].0)),
    ) by {
        assert(plan_entry_l2r_ok(plan[i], locals[i], model_apply_pass(store, prefix, lm), prefix));
    }
    lemma_second_pass_counts(prefix, lm, store, plan);
}

} // verus!
