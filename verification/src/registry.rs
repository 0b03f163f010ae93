//! Keep-in-sync sessions and their registry.  A session records which local
//! path is continuously reconciled against which bucket and prefix; the
//! registry owns every running session, enforces that at most one active
//! session exists per local path, and answers listing queries.  The watcher,
//! its channels and the notification transport live outside the crate; the
//! decision which notifications one watcher event yields is made here.

use vstd::prelude::*;
use vstd::string::*;
use crate::text::str_eq;

verus! {

/// Why a sync operation failed.
#[derive(Debug)]
pub enum SyncError {
    /// A local read, write or directory creation failed.
    Io(String),
    /// A filesystem watcher could not be attached or maintained.
    Watch(String),
    /// No session carries the given identifier.
    NotFound(String),
    /// An active session for the local path already exists.
    AlreadyExists,
}

impl SyncError {
    /// A readable description of the failure.
    pub fn message(&self) -> (r: String)
        ensures
            r@ == spec_message(*self),
    {
        let mut m = String::new();
        match self {
            SyncError::Io(s) => {
                m.append("IO error: ");
                m.append(s.as_str());
            },
            SyncError::Watch(s) => {
                m.append("Watch error: ");
                m.append(s.as_str());
            },
            SyncError::NotFound(s) => {
                m.append("Sync not found: ");
                m.append(s.as_str());
            },
            SyncError::AlreadyExists => {
                m.append("Sync already exists for this path");
            },
        }
        m
    }
}

/// The characters of a failure's description.
pub open spec fn spec_message(e: SyncError) -> Seq<char> {
    match e {
        SyncError::Io(s) => "IO error: "@ + s@,
        SyncError::Watch(s) => "Watch error: "@ + s@,
        SyncError::NotFound(s) => "Sync not found: "@ + s@,
        SyncError::AlreadyExists => "Sync already exists for this path"@,
    }
}

/// One keep-in-sync session: where it syncs, whether it still runs, and when
/// it last reconciled (epoch seconds).
#[derive(Debug)]
pub struct SyncState {
    pub sync_id: String,
    pub profile_id: String,
    pub bucket: String,
    pub remote_prefix: String,
    pub local_path: String,
    pub is_active: bool,
    pub last_sync: Option<i64>,
}

impl Clone for SyncState {
    fn clone(&self) -> (r: Self)
        ensures
            r == *self,
    {
        SyncState {
            sync_id: self.sync_id.clone(),
            profile_id: self.profile_id.clone(),
            bucket: self.bucket.clone(),
            remote_prefix: self.remote_prefix.clone(),
            local_path: self.local_path.clone(),
            is_active: self.is_active,
            last_sync: self.last_sync,
        }
    }
}

/// Notification payload: a session started.
#[derive(Debug)]
pub struct SyncStartedPayload {
    pub sync_id: String,
    pub local_path: String,
    pub bucket: String,
    pub prefix: String,
}

/// Notification payload: progress on one file of a session.
#[derive(Debug)]
pub struct SyncProgressPayload {
    pub sync_id: String,
    pub current: u64,
    pub total: u64,
    pub current_file: String,
}

/// Notification payload: a session completed, with its counters.
#[derive(Debug)]
pub struct SyncCompletedPayload {
    pub sync_id: String,
    pub files_uploaded: u64,
    pub files_downloaded: u64,
}

/// Notification payload: a session reported an error.
#[derive(Debug)]
pub struct SyncErrorPayload {
    pub sync_id: String,
    pub error: String,
}

/// How many watcher events may wait in the bounded channel between the
/// watcher's delivery thread and the session's loop.  When the channel is
/// full the producer drops the event rather than blocking the watcher:
/// loss under a delivery burst is accepted by design.
pub const EVENT_CHANNEL_CAPACITY: usize = 100;

/// The kind of change a filesystem watcher reports.
#[derive(Clone, Copy, PartialEq, Eq, Structural, Debug)]
pub enum FileEventKind {
    Create,
    Modify,
    Remove,
    /// Any other notification kind; it yields no progress notification.
    Other,
}

/// Whether a watcher event of this kind concerns file content.
pub open spec fn is_change_event(k: FileEventKind) -> bool {
    match k {
        FileEventKind::Create => true,
        FileEventKind::Modify => true,
        FileEventKind::Remove => true,
        FileEventKind::Other => false,
    }
}

/// Translates one watcher event into the progress notifications the session
/// emits: for a create, modify or remove event, one notification per affected
/// path, carrying the session id and that path; for any other kind, none.
pub fn event_notifications(sync_id: &str, kind: FileEventKind, paths: &Vec<String>) -> (r: Vec<
    SyncProgressPayload,
>)
    ensures
        is_change_event(kind) ==> r@.len() == paths@.len() && forall|i: int|
            0 <= i < r@.len() ==> (#[trigger] r@[i]).sync_id@ == sync_id@ && r@[i].current == 0
                && r@[i].total == 1 && r@[i].current_file@ == paths@[i]@,
        !is_change_event(kind) ==> r@.len() == 0,
{
    let mut r: Vec<SyncProgressPayload> = Vec::new();
    let is_change = match kind {
        FileEventKind::Create => true,
        FileEventKind::Modify => true,
        FileEventKind::Remove => true,
        FileEventKind::Other => false,
    };
    if !is_change {
        return r;
    }
    let mut i: usize = 0;
    while i < paths.len()
        invariant
            i <= paths@.len(),
            r@.len() == i,
            forall|k: int|
                0 <= k < i ==> (#[trigger] r@[k]).sync_id@ == sync_id@ && r@[k].current == 0
                    && r@[k].total == 1 && r@[k].current_file@ == paths@[k]@,
        decreases paths@.len() - i,
    {
        r.push(
            SyncProgressPayload {
                sync_id: sync_id.to_owned(),
                current: 0,
                total: 1,
                current_file: paths[i].clone(),
            },
        );
        i += 1;
    }
    r
}

/// Relies on the `uuid` crate: `Uuid::new_v4` draws a random identifier and
/// its text form is the hyphenated rendering of 36 characters.  Nothing more
/// is assumed of the value — in particular not uniqueness.
#[verifier::external_body]
pub(crate) fn fresh_uuid() -> (r: String)
    ensures
        r@.len() == 36,
{
    uuid::Uuid::new_v4().to_string()
}

/// Whether some registered session carries the identifier.
pub open spec fn has_session_id(sessions: Seq<SyncState>, sid: Seq<char>) -> bool {
    exists|i: int| 0 <= i < sessions.len() && (#[trigger] sessions[i]).sync_id@ == sid
}

/// Whether some registered active session syncs the local path.
pub open spec fn has_active_for_path(sessions: Seq<SyncState>, path: Seq<char>) -> bool {
    exists|i: int|
        0 <= i < sessions.len() && (#[trigger] sessions[i]).is_active && sessions[i].local_path@
            == path
}

/// The registry invariant: identifiers are distinct, and no two active
/// sessions sync the same local path.
pub open spec fn registry_wf(sessions: Seq<SyncState>) -> bool {
    forall|i: int, j: int|
        0 <= i < j < sessions.len() ==> (#[trigger] sessions[i]).sync_id@ != (
        #[trigger] sessions[j]).sync_id@ && !(sessions[i].is_active && sessions[j].is_active
            && sessions[i].local_path@ == sessions[j].local_path@)
}

/// The first index holding the identifier, or -1.
pub open spec fn find_session(sessions: Seq<SyncState>, sid: Seq<char>) -> int
    decreases sessions.len(),
{
    if sessions.len() == 0 {
        -1
    } else if sessions[0].sync_id@ == sid {
        0
    } else {
        let r = find_session(sessions.skip(1), sid);
        if r < 0 {
            -1
        } else {
            r + 1
        }
    }
}

/// The first index with the identifier determines `find_session`.
pub proof fn lemma_find_session_first(sessions: Seq<SyncState>, sid: Seq<char>, i: int)
    requires
        0 <= i < sessions.len(),
        sessions[i].sync_id@ == sid,
        forall|j: int| 0 <= j < i ==> (#[trigger] sessions[j]).sync_id@ != sid,
    ensures
        find_session(sessions, sid) == i,
    decreases sessions.len(),
{
    if i > 0 {
        assert(sessions.skip(1)[i - 1].sync_id@ == sid);
        assert forall|j: int| 0 <= j < i - 1 implies (#[trigger] sessions.skip(1)[j]).sync_id@
            != sid by {
            assert(sessions.skip(1)[j] == sessions[j + 1]);
        }
        lemma_find_session_first(sessions.skip(1), sid, i - 1);
    }
}

/// The registered sessions whose `is_active` flag is set.
pub open spec fn active_sessions(sessions: Seq<SyncState>) -> Seq<SyncState> {
    sessions.filter(|s: SyncState| s.is_active)
}

/// Every listed active session is a registered one.
pub proof fn lemma_active_sessions_are_registered(sessions: Seq<SyncState>)
    ensures
        forall|i: int|
            0 <= i < active_sessions(sessions).len() ==> sessions.contains(
                #[trigger] active_sessions(sessions)[i],
            ),
    decreases sessions.len(),
{
    reveal(Seq::filter);
    if sessions.len() > 0 {
        let head = sessions.drop_last();
        lemma_active_sessions_are_registered(head);
        assert forall|i: int| 0 <= i < active_sessions(sessions).len() implies sessions.contains(
            #[trigger] active_sessions(sessions)[i],
        ) by {
            if i < active_sessions(head).len() {
                assert(active_sessions(sessions)[i] == active_sessions(head)[i]);
                let j = choose|j: int| 0 <= j < head.len() && head[j] == active_sessions(head)[i];
                assert(sessions[j] == active_sessions(sessions)[i]);
            } else {
                assert(active_sessions(sessions)[i] == sessions.last());
                assert(sessions[sessions.len() - 1] == active_sessions(sessions)[i]);
            }
        }
    }
}

/// An identifier absent from the registry is absent from the active listing:
/// once stopped, a session is never listed again.
pub proof fn lemma_stopped_session_not_listed(sessions: Seq<SyncState>, sid: Seq<char>)
    requires
        !has_session_id(sessions, sid),
    ensures
        forall|i: int|
            0 <= i < active_sessions(sessions).len() ==> (#[trigger] active_sessions(
                sessions,
            )[i]).sync_id@ != sid,
{
    lemma_active_sessions_are_registered(sessions);
    assert forall|i: int| 0 <= i < active_sessions(sessions).len() implies (
    #[trigger] active_sessions(sessions)[i]).sync_id@ != sid by {
        if active_sessions(sessions)[i].sync_id@ == sid {
            let j = choose|j: int|
                0 <= j < sessions.len() && sessions[j] == active_sessions(sessions)[i];
            assert(sessions[j].sync_id@ == sid);
        }
    }
}

/// Stopping releases the resource: removing a session leaves no session with
/// its identifier and — identifiers being distinct and active paths unique —
/// no active session for its path, so a subsequent start on that path is
/// accepted.
pub proof fn lemma_stop_releases(sessions: Seq<SyncState>, i: int)
    requires
        registry_wf(sessions),
        0 <= i < sessions.len(),
    ensures
        registry_wf(sessions.remove(i)),
        !has_session_id(sessions.remove(i), sessions[i].sync_id@),
        sessions[i].is_active ==> !has_active_for_path(sessions.remove(i), sessions[i].local_path@),
{
    let rest = sessions.remove(i);
    assert forall|a: int, b: int| 0 <= a < b < rest.len() implies (#[trigger] rest[a]).sync_id@
        != (#[trigger] rest[b]).sync_id@ && !(rest[a].is_active && rest[b].is_active
        && rest[a].local_path@ == rest[b].local_path@) by {
        let a0 = if a < i { a } else { a + 1 };
        let b0 = if b < i { b } else { b + 1 };
        assert(rest[a] == sessions[a0]);
        assert(rest[b] == sessions[b0]);
    }
    assert forall|j: int| 0 <= j < rest.len() implies (#[trigger] rest[j]).sync_id@ != sessions[
        i
    ].sync_id@ by {
        let j0 = if j < i { j } else { j + 1 };
        assert(rest[j] == sessions[j0]);
    }
    if sessions[i].is_active {
        assert forall|j: int| 0 <= j < rest.len() implies !((#[trigger] rest[j]).is_active && rest[
            j
        ].local_path@ == sessions[i].local_path@) by {
            let j0 = if j < i { j } else { j + 1 };
            assert(rest[j] == sessions[j0]);
        }
    }
}

/// Mutual exclusion: the registry state a successful start leaves behind
/// holds an active session for the path, so of two start attempts on one
/// path — in whichever order they land — the second is refused.
pub proof fn lemma_start_mutual_exclusion(sessions: Seq<SyncState>, st: SyncState, path: Seq<char>)
    requires
        st.is_active,
        st.local_path@ == path,
    ensures
        has_active_for_path(sessions.push(st), path),
{
    assert(sessions.push(st)[sessions.len() as int] == st);
}

/// The registry of running keep-in-sync sessions.
pub struct SyncRegistry {
    sessions: Vec<SyncState>,
}

impl View for SyncRegistry {
    type V = Seq<SyncState>;

    closed spec fn view(&self) -> Seq<SyncState> {
        self.sessions@
    }
}

impl SyncRegistry {
    /// An empty registry.
    pub fn new() -> (r: Self)
        ensures
            r@.len() == 0,
            registry_wf(r@),
    {
        SyncRegistry { sessions: Vec::new() }
    }

    /// Registers a session: accepted exactly when no session carries its
    /// identifier and no active session syncs its local path; refused with
    /// `AlreadyExists` otherwise, leaving the registry unchanged.
    pub fn register(&mut self, state: SyncState) -> (r: Result<(), SyncError>)
        requires
            registry_wf(old(self)@),
            state.is_active,
        ensures
            registry_wf(final(self)@),
            (r is Ok) == (!has_active_for_path(old(self)@, state.local_path@) && !has_session_id(
                old(self)@,
                state.sync_id@,
            )),
            r is Ok ==> final(self)@ == old(self)@.push(state),
            r matches Err(e) ==> final(self)@ == old(self)@ && e == SyncError::AlreadyExists,
    {
        let mut i: usize = 0;
        while i < self.sessions.len()
            invariant
                i <= self.sessions@.len(),
                self == old(self),
                registry_wf(self@),
                forall|k: int|
                    0 <= k < i ==> (#[trigger] self.sessions@[k]).sync_id@ != state.sync_id@ && !(
                    self.sessions@[k].is_active && self.sessions@[k].local_path@
                        == state.local_path@),
            decreases self.sessions@.len() - i,
        {
            let s = &self.sessions[i];
            if str_eq(s.sync_id.as_str(), state.sync_id.as_str()) {
                return Err(SyncError::AlreadyExists);
            }
            if s.is_active && str_eq(s.local_path.as_str(), state.local_path.as_str()) {
                return Err(SyncError::AlreadyExists);
            }
            i += 1;
        }
        proof {
            let pushed = self.sessions@.push(state);
            assert forall|a: int, b: int| 0 <= a < b < pushed.len() implies (
            #[trigger] pushed[a]).sync_id@ != (#[trigger] pushed[b]).sync_id@ && !(
            pushed[a].is_active && pushed[b].is_active && pushed[a].local_path@
                == pushed[b].local_path@) by {
                assert(pushed[a] == self.sessions@[a]);
                if b < pushed.len() - 1 {
                    assert(pushed[b] == self.sessions@[b]);
                }
            }
        }
        self.sessions.push(state);
        Ok(())
    }

    /// Starts a keep-in-sync session for the locator and local path: draws a
    /// fresh random identifier, registers the session as active, and returns
    /// it.  An active session already syncing the path is refused with
    /// `AlreadyExists`, leaving the registry unchanged; the same refusal
    /// covers the vanishingly unlikely case that the drawn identifier is
    /// already registered.  A caller that must rule the latter out drives
    /// `register` with an identifier of its own.
    pub fn start(
        &mut self,
        profile_id: &str,
        bucket: &str,
        prefix: &str,
        local_path: &str,
    ) -> (r: Result<SyncState, SyncError>)
        requires
            registry_wf(old(self)@),
        ensures
            registry_wf(final(self)@),
            has_active_for_path(old(self)@, local_path@) ==> (r is Err) && final(self)@ == old(
                self,
            )@,
            r matches Err(e) ==> final(self)@ == old(self)@ && e == SyncError::AlreadyExists,
            r matches Ok(st) ==> !has_active_for_path(old(self)@, local_path@) && final(self)@
                == old(self)@.push(st) && st.is_active && st.profile_id@ == profile_id@
                && st.bucket@ == bucket@ && st.remote_prefix@ == prefix@ && st.local_path@
                == local_path@ && st.last_sync is None && st.sync_id@.len() == 36
                && has_active_for_path(final(self)@, local_path@),
    {
        let sid = fresh_uuid();
        let st = SyncState {
            sync_id: sid,
            profile_id: profile_id.to_owned(),
            bucket: bucket.to_owned(),
            remote_prefix: prefix.to_owned(),
            local_path: local_path.to_owned(),
            is_active: true,
            last_sync: None,
        };
        let returned = st.clone();
        match self.register(st) {
            Ok(()) => {
                proof {
                    lemma_start_mutual_exclusion(old(self)@, returned, local_path@);
                }
                Ok(returned)
            },
            Err(e) => Err(e),
        }
    }

    /// Stops the session carrying the identifier and removes it from the
    /// registry; refused with `NotFound` when no session carries it.  After
    /// a successful stop the identifier is gone and the session's local path
    /// is free again.
    pub fn stop(&mut self, sync_id: &str) -> (r: Result<(), SyncError>)
        requires
            registry_wf(old(self)@),
        ensures
            registry_wf(final(self)@),
            (r is Ok) == has_session_id(old(self)@, sync_id@),
            r matches Err(e) ==> final(self)@ == old(self)@ && (e matches SyncError::NotFound(m)
                && m@ == sync_id@),
            r is Ok ==> {
                let i = find_session(old(self)@, sync_id@);
                &&& 0 <= i < old(self)@.len()
                &&& final(self)@ == old(self)@.remove(i)
                &&& !has_session_id(final(self)@, sync_id@)
                &&& (old(self)@[i].is_active ==> !has_active_for_path(
                    final(self)@,
                    old(self)@[i].local_path@,
                ))
            },
    {
        let mut i: usize = 0;
        while i < self.sessions.len()
            invariant
                i <= self.sessions@.len(),
                self == old(self),
                registry_wf(self@),
                forall|k: int| 0 <= k < i ==> (#[trigger] self.sessions@[k]).sync_id@ != sync_id@,
            decreases self.sessions@.len() - i,
        {
            if str_eq(self.sessions[i].sync_id.as_str(), sync_id) {
                proof {
                    lemma_find_session_first(self.sessions@, sync_id@, i as int);
                    lemma_stop_releases(self.sessions@, i as int);
                }
                let _removed = self.sessions.remove(i);
                return Ok(());
            }
            i += 1;
        }
        Err(SyncError::NotFound(sync_id.to_owned()))
    }

    /// The currently active sessions, each copied out.  Their order carries
    /// no meaning.
    pub fn list_active(&self) -> (r: Vec<SyncState>)
        ensures
            r@ == active_sessions(self@),
    {
        let mut r: Vec<SyncState> = Vec::new();
        let mut i: usize = 0;
        while i < self.sessions.len()
            invariant
                i <= self.sessions@.len(),
                r@ == active_sessions(self.sessions@.take(i as int)),
            decreases self.sessions@.len() - i,
        {
            proof {
                reveal(Seq::filter);
                assert(self.sessions@.take(i + 1).drop_last() =~= self.sessions@.take(i as int));
                assert(self.sessions@.take(i + 1).last() == self.sessions@[i as int]);
            }
            if self.sessions[i].is_active {
                r.push(self.sessions[i].clone());
            }
            i += 1;
        }
        proof {
            assert(self.sessions@.take(self.sessions@.len() as int) =~= self.sessions@);
        }
        r
    }

    /// How many sessions the registry holds, active or not.
    pub fn session_count(&self) -> (r: usize)
        ensures
            r == self@.len(),
    {
        self.sessions.len()
    }
}

} // verus!
