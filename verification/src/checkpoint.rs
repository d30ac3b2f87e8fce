//! The checkpoint and session manager: the sole owner of the two record
//! collections and of the session lifecycle.
//!
//! The manager mutates its collections in memory; the embedding host is
//! expected to persist them after every mutating call and to hand the loaded
//! collections back to [`CheckpointManager::new`] on the next start.  Sampling
//! the working directory (file count, revision hash) is likewise the host's
//! job: those observations come in as plain values.

use crate::ids::fenced_above;
use crate::ids::lemma_id_injective;
use crate::ids::make_id;
use crate::ids::parse_generated_id;
use crate::ids::spec_dec;
use crate::ids::spec_id;
use crate::ids::numbered_name;
use crate::types::Checkpoint;
use crate::types::CheckpointView;
use crate::types::GuardianError;
use crate::types::Session;
use crate::types::SessionView;
use crate::types::str_opt_view;
use vstd::prelude::*;
use vstd::string::*;

verus! {

/// The mathematical value of a whole manager.
pub struct ManagerView {
    pub checkpoints: Seq<CheckpointView>,
    pub sessions: Seq<SessionView>,
    pub current_session_id: Option<Seq<char>>,
    pub id_counter: nat,
}

pub open spec fn cps_view(v: Seq<Checkpoint>) -> Seq<CheckpointView> {
    v.map_values(|c: Checkpoint| c@)
}

pub open spec fn sessions_view(v: Seq<Session>) -> Seq<SessionView> {
    v.map_values(|s: Session| s@)
}

/// No identifier in the collections lies in the range the counter will still
/// hand out: everything the manager generates from here on is fresh.
pub open spec fn ids_fenced(v: ManagerView) -> bool {
    &&& forall|i: int|
        0 <= i < v.checkpoints.len() ==> fenced_above(
            (#[trigger] v.checkpoints[i]).id,
            v.id_counter,
        )
    &&& forall|i: int|
        0 <= i < v.sessions.len() ==> fenced_above((#[trigger] v.sessions[i]).id, v.id_counter)
}

/// What one `create_checkpoint` (or `quick_save`) call does, seen from
/// outside: the record appended, every field pinned, the identifier fresh.
pub open spec fn create_result(
    pre: ManagerView,
    post: ManagerView,
    r: CheckpointView,
    name: Seq<char>,
    file_count: int,
    commit_hash: Option<Seq<char>>,
) -> bool {
    &&& r.name == name
    &&& r.file_count == file_count
    &&& r.commit_hash == commit_hash
    &&& r.session_id == (match pre.current_session_id {
        Some(s) => s,
        None => spec_id(pre.id_counter),
    })
    &&& r.id == (match pre.current_session_id {
        Some(_) => spec_id(pre.id_counter),
        None => spec_id(pre.id_counter + 1),
    })
    &&& post.checkpoints == pre.checkpoints.push(r)
    &&& post.sessions == pre.sessions
    &&& post.current_session_id == pre.current_session_id
    &&& post.id_counter == pre.id_counter + (match pre.current_session_id {
        Some(_) => 1int,
        None => 2int,
    })
    &&& forall|i: int| 0 <= i < pre.checkpoints.len() ==> (#[trigger] pre.checkpoints[i]).id != r.id
    &&& forall|i: int| 0 <= i < pre.sessions.len() ==> (#[trigger] pre.sessions[i]).id != r.id
}

/// A successful creation in the abstract: some fresh ordinal in the step's
/// counter window named the new record.  Distinctness of all created
/// identifiers rests on this alone.
pub open spec fn checkpoint_created(pre: ManagerView, post: ManagerView, r: CheckpointView) -> bool {
    &&& post.checkpoints == pre.checkpoints.push(r)
    &&& exists|k: nat| pre.id_counter <= k < post.id_counter && r.id == spec_id(k)
    &&& post.id_counter <= u64::MAX + 1
}

/// What a successful `delete_checkpoint` does: exactly the first record with
/// the given identifier is gone, everything else keeps its place.
pub open spec fn checkpoint_deleted(
    pre: Seq<CheckpointView>,
    post: Seq<CheckpointView>,
    id: Seq<char>,
) -> bool {
    exists|i: int|
        0 <= i < pre.len() && (#[trigger] pre[i]).id == id && (forall|j: int|
            0 <= j < i ==> pre[j].id != id) && post == pre.remove(i)
}

/// What ending a session does to the session collection: the first record
/// with the given identifier gets an end time, everything else is untouched.
pub open spec fn session_ended(
    pre: Seq<SessionView>,
    post: Seq<SessionView>,
    sid: Seq<char>,
) -> bool {
    exists|i: int|
        0 <= i < pre.len() && (#[trigger] pre[i]).id == sid && (forall|j: int|
            0 <= j < i ==> pre[j].id != sid) && post[i].end_time is Some && post == pre.update(
            i,
            (SessionView { end_time: post[i].end_time, ..pre[i] }),
        )
}

pub open spec fn session_exists(ss: Seq<SessionView>, sid: Seq<char>) -> bool {
    exists|i: int| 0 <= i < ss.len() && (#[trigger] ss[i]).id == sid
}

/// The checkpoints whose `session_id` equals `sid`, in their original order.
pub open spec fn filter_by_session(cs: Seq<CheckpointView>, sid: Seq<char>) -> Seq<CheckpointView>
    decreases cs.len(),
{
    if cs.len() == 0 {
        Seq::empty()
    } else {
        let rest = filter_by_session(cs.drop_last(), sid);
        if cs.last().session_id == sid {
            rest.push(cs.last())
        } else {
            rest
        }
    }
}

/// Owns the two collections, the active-session pointer, and the ordinal from
/// which fresh identifiers are minted.
pub struct CheckpointManager {
    pub checkpoints: Vec<Checkpoint>,
    pub sessions: Vec<Session>,
    pub current_session_id: Option<String>,
    pub id_counter: u64,
}

impl View for CheckpointManager {
    type V = ManagerView;

    open spec fn view(&self) -> ManagerView {
        ManagerView {
            checkpoints: cps_view(self.checkpoints@),
            sessions: sessions_view(self.sessions@),
            current_session_id: str_opt_view(self.current_session_id),
            id_counter: self.id_counter as nat,
        }
    }
}

/// Relies on chrono's `Utc::now` for the wall clock; nothing is assumed about
/// the returned instant.
#[verifier::external_body]
fn now_millis() -> i64 {
    chrono::Utc::now().timestamp_millis()
}

/// An identifier below the counter can never be handed out again.
proof fn lemma_generated_fenced(n: nat, c: nat)
    requires
        n < c,
    ensures
        fenced_above(spec_id(n), c),
{
    assert forall|k: nat| c <= k && k <= u64::MAX implies spec_id(n) != #[trigger] spec_id(k) by {
        lemma_id_injective(n, k);
    }
}

/// Raises `counter` just past `id` if `id` is a generated identifier, so that
/// `id` can never be handed out again.
fn bump_counter(counter: u64, id: &String) -> (r: u64)
    ensures
        counter <= r,
        r == u64::MAX || fenced_above(id@, r as nat),
{
    match parse_generated_id(id.as_str()) {
        Some(v) => {
            if v >= counter {
                if v == u64::MAX {
                    u64::MAX
                } else {
                    proof {
                        lemma_generated_fenced(v as nat, v as nat + 1);
                    }
                    v + 1
                }
            } else {
                proof {
                    lemma_generated_fenced(v as nat, counter as nat);
                }
                counter
            }
        },
        None => counter,
    }
}

/// First index holding a session with identifier `id`.
fn find_session(sessions: &Vec<Session>, id: &String) -> (r: Option<usize>)
    ensures
        match r {
            Some(i) => i < sessions@.len() && sessions@[i as int].id@ == id@ && (forall|j: int|
                0 <= j < i ==> sessions@[j].id@ != id@),
            None => forall|j: int| 0 <= j < sessions@.len() ==> sessions@[j].id@ != id@,
        },
{
    let n = sessions.len();
    let mut i: usize = 0;
    while i < n
        invariant
            i <= n,
            n == sessions@.len(),
            forall|j: int| 0 <= j < i ==> sessions@[j].id@ != id@,
        decreases n - i,
    {
        if sessions[i].id == *id {
            return Some(i);
        }
        i = i + 1;
    }
    None
}

/// First index holding a checkpoint with identifier `id`.
fn find_checkpoint(checkpoints: &Vec<Checkpoint>, id: &String) -> (r: Option<usize>)
    ensures
        match r {
            Some(i) => i < checkpoints@.len() && checkpoints@[i as int].id@ == id@ && (forall|
                j: int,
            |
                0 <= j < i ==> checkpoints@[j].id@ != id@),
            None => forall|j: int| 0 <= j < checkpoints@.len() ==> checkpoints@[j].id@ != id@,
        },
{
    let n = checkpoints.len();
    let mut i: usize = 0;
    while i < n
        invariant
            i <= n,
            n == checkpoints@.len(),
            forall|j: int| 0 <= j < i ==> checkpoints@[j].id@ != id@,
        decreases n - i,
    {
        if checkpoints[i].id == *id {
            return Some(i);
        }
        i = i + 1;
    }
    None
}

impl CheckpointManager {
    /// Every identifier the manager will generate is new: nothing in the
    /// collections occupies the counter's remaining range.  (A saturated
    /// counter refuses further generation instead.)
    pub open spec fn wf(self) -> bool {
        self.id_counter == u64::MAX || ids_fenced(self@)
    }

    /// Builds a manager around previously persisted collections, with no
    /// active session, and a counter past every generated-looking identifier
    /// already present.
    pub fn new(checkpoints: Vec<Checkpoint>, sessions: Vec<Session>) -> (r: Self)
        ensures
            r@.checkpoints == cps_view(checkpoints@),
            r@.sessions == sessions_view(sessions@),
            r@.current_session_id is None,
            r@.id_counter <= u64::MAX,
            r.wf(),
    {
        let mut counter: u64 = 0;
        let n = checkpoints.len();
        let mut i: usize = 0;
        while i < n
            invariant
                i <= n,
                n == checkpoints@.len(),
                counter == u64::MAX || forall|j: int|
                    0 <= j < i ==> fenced_above((#[trigger] checkpoints@[j])@.id, counter as nat),
            decreases n - i,
        {
            counter = bump_counter(counter, &checkpoints[i].id);
            i = i + 1;
        }
        let m = sessions.len();
        let mut l: usize = 0;
        while l < m
            invariant
                l <= m,
                m == sessions@.len(),
                n == checkpoints@.len(),
                counter == u64::MAX || forall|j: int|
                    0 <= j < n ==> fenced_above((#[trigger] checkpoints@[j])@.id, counter as nat),
                counter == u64::MAX || forall|j: int|
                    0 <= j < l ==> fenced_above((#[trigger] sessions@[j])@.id, counter as nat),
            decreases m - l,
        {
            counter = bump_counter(counter, &sessions[l].id);
            l = l + 1;
        }
        let r = CheckpointManager {
            checkpoints,
            sessions,
            current_session_id: None,
            id_counter: counter,
        };
        proof {
            if counter != u64::MAX {
                assert forall|j: int| 0 <= j < r@.checkpoints.len() implies fenced_above(
                    (#[trigger] r@.checkpoints[j]).id,
                    r@.id_counter,
                ) by {
                    assert(r@.checkpoints[j] == r.checkpoints@[j]@);
                }
                assert forall|j: int| 0 <= j < r@.sessions.len() implies fenced_above(
                    (#[trigger] r@.sessions[j]).id,
                    r@.id_counter,
                ) by {
                    assert(r@.sessions[j] == r.sessions@[j]@);
                }
            }
        }
        r
    }

    /// Mints a fresh identifier and advances the counter.
    pub fn generate_id(&mut self) -> (r: String)
        requires
            old(self).id_counter < u64::MAX,
        ensures
            r@ == spec_id(old(self)@.id_counter),
            final(self)@.id_counter == old(self)@.id_counter + 1,
            final(self)@.checkpoints == old(self)@.checkpoints,
            final(self)@.sessions == old(self)@.sessions,
            final(self)@.current_session_id == old(self)@.current_session_id,
            old(self).wf() ==> final(self).wf(),
    {
        let id = make_id(self.id_counter);
        self.id_counter = self.id_counter + 1;
        id
    }

    /// Starts a new session, makes it the active one, and returns a copy of
    /// its record.  An unnamed session is called `"Session <n>"`, where `n`
    /// counts the sessions ever started, this one included.
    pub fn start_session(&mut self, name: Option<String>) -> (r: Session)
        requires
            old(self).wf(),
            old(self).id_counter < u64::MAX,
            old(self).sessions.len() < usize::MAX,
        ensures
            final(self).wf(),
            r@.id == spec_id(old(self)@.id_counter),
            r@.name == (match name {
                Some(n) => n@,
                None => "Session "@ + spec_dec(old(self)@.sessions.len() + 1),
            }),
            r@.end_time is None,
            final(self)@.sessions == old(self)@.sessions.push(r@),
            final(self)@.checkpoints == old(self)@.checkpoints,
            final(self)@.current_session_id == Some(r@.id),
            final(self)@.id_counter == old(self)@.id_counter + 1,
    {
        let ghost pre = self@;
        let session_id = self.generate_id();
        let timestamp = now_millis();
        let name_s = match name {
            Some(n) => n,
            None => numbered_name("Session ", self.sessions.len() as u64 + 1),
        };
        self.current_session_id = Some(session_id.clone());
        let session = Session { id: session_id, name: name_s, start_time: timestamp, end_time: None };
        let copy = session.clone();
        self.sessions.push(session);
        proof {
            assert(self@.sessions =~= pre.sessions.push(copy@));
            assert(self@.checkpoints =~= pre.checkpoints);
            if self.id_counter != u64::MAX {
                assert forall|i: int| 0 <= i < self@.sessions.len() implies fenced_above(
                    (#[trigger] self@.sessions[i]).id,
                    self@.id_counter,
                ) by {
                    if i < pre.sessions.len() {
                        assert(pre.sessions[i] == self@.sessions[i]);
                    } else {
                        lemma_generated_fenced(pre.id_counter, self@.id_counter);
                    }
                }
            }
        }
        copy
    }

    /// Ends the active session, if there is one: its record gets an end time
    /// and the active-session pointer is cleared.  With no active session
    /// this changes nothing and is not an error.
    pub fn end_session(&mut self)
        ensures
            final(self)@.current_session_id is None,
            final(self)@.checkpoints == old(self)@.checkpoints,
            final(self)@.id_counter == old(self)@.id_counter,
            old(self).wf() ==> final(self).wf(),
            (match old(self)@.current_session_id {
                None => final(self)@.sessions == old(self)@.sessions,
                Some(sid) => {
                    if session_exists(old(self)@.sessions, sid) {
                        session_ended(old(self)@.sessions, final(self)@.sessions, sid)
                    } else {
                        final(self)@.sessions == old(self)@.sessions
                    }
                },
            }),
    {
        let ghost pre = self@;
        let cur: Option<String> = match &self.current_session_id {
            Some(s) => Some(s.clone()),
            None => None,
        };
        self.current_session_id = None;
        match cur {
            None => {},
            Some(sid) => {
                match find_session(&self.sessions, &sid) {
                    None => {
                        proof {
                            assert(!session_exists(pre.sessions, sid@));
                        }
                    },
                    Some(i) => {
                        let t = now_millis();
                        let updated = Session {
                            id: self.sessions[i].id.clone(),
                            name: self.sessions[i].name.clone(),
                            start_time: self.sessions[i].start_time,
                            end_time: Some(t),
                        };
                        self.sessions[i] = updated;
                        proof {
                            assert(self@.sessions =~= pre.sessions.update(
                                i as int,
                                (SessionView { end_time: Some(t as int), ..pre.sessions[i as int] }),
                            ));
                            assert(session_ended(pre.sessions, self@.sessions, sid@));
                            if pre.id_counter != u64::MAX {
                                assert(ids_fenced(pre) ==> ids_fenced(self@)) by {
                                    if ids_fenced(pre) {
                                        assert forall|j: int|
                                            0 <= j < self@.sessions.len() implies fenced_above(
                                            (#[trigger] self@.sessions[j]).id,
                                            self@.id_counter,
                                        ) by {
                                            assert(self@.sessions[j].id == pre.sessions[j].id);
                                        }
                                    }
                                }
                            }
                        }
                    },
                }
            },
        }
    }

    /// Records a checkpoint from the host's observations of the working
    /// directory and returns a copy of the record.  The active session claims
    /// it; with no active session a fresh identifier stands in as its session
    /// reference.
    pub fn create_checkpoint(
        &mut self,
        name: String,
        file_count: usize,
        commit_hash: Option<String>,
    ) -> (r: Checkpoint)
        requires
            old(self).wf(),
            old(self).id_counter + 2 <= u64::MAX,
        ensures
            final(self).wf(),
            create_result(
                old(self)@,
                final(self)@,
                r@,
                name@,
                file_count as int,
                str_opt_view(commit_hash),
            ),
            checkpoint_created(old(self)@, final(self)@, r@),
    {
        let ghost pre = self@;
        let cur: Option<String> = match &self.current_session_id {
            Some(s) => Some(s.clone()),
            None => None,
        };
        let session_id: String = match cur {
            Some(s) => s,
            None => self.generate_id(),
        };
        let timestamp = now_millis();
        let id = self.generate_id();
        let ghost k = self@.id_counter - 1;
        let cp = Checkpoint { id, name, timestamp, commit_hash, session_id, file_count };
        let copy = cp.clone();
        self.checkpoints.push(cp);
        proof {
            assert(self@.checkpoints =~= pre.checkpoints.push(copy@));
            assert(self@.sessions =~= pre.sessions);
            assert(copy@.id == spec_id(k as nat));
            assert(pre.id_counter <= k < self@.id_counter);
            if pre.id_counter != u64::MAX {
                assert forall|i: int| 0 <= i < pre.checkpoints.len() implies (
                #[trigger] pre.checkpoints[i]).id != copy@.id by {}
                assert forall|i: int| 0 <= i < pre.sessions.len() implies (
                #[trigger] pre.sessions[i]).id != copy@.id by {}
            }
            if self.id_counter != u64::MAX {
                assert forall|i: int| 0 <= i < self@.checkpoints.len() implies fenced_above(
                    (#[trigger] self@.checkpoints[i]).id,
                    self@.id_counter,
                ) by {
                    if i < pre.checkpoints.len() {
                        assert(pre.checkpoints[i] == self@.checkpoints[i]);
                    } else {
                        lemma_generated_fenced(k as nat, self@.id_counter);
                    }
                }
                assert forall|i: int| 0 <= i < self@.sessions.len() implies fenced_above(
                    (#[trigger] self@.sessions[i]).id,
                    self@.id_counter,
                ) by {
                    assert(self@.sessions[i] == pre.sessions[i]);
                }
            }
        }
        copy
    }

    /// A checkpoint with an automatic name: `"Quick Save <n>"`, where `n`
    /// counts the checkpoints held, this one included.
    pub fn quick_save(&mut self, file_count: usize, commit_hash: Option<String>) -> (r: Checkpoint)
        requires
            old(self).wf(),
            old(self).id_counter + 2 <= u64::MAX,
            old(self).checkpoints.len() < usize::MAX,
        ensures
            final(self).wf(),
            create_result(
                old(self)@,
                final(self)@,
                r@,
                "Quick Save "@ + spec_dec(old(self)@.checkpoints.len() + 1),
                file_count as int,
                str_opt_view(commit_hash),
            ),
            checkpoint_created(old(self)@, final(self)@, r@),
    {
        let name = numbered_name("Quick Save ", self.checkpoints.len() as u64 + 1);
        self.create_checkpoint(name, file_count, commit_hash)
    }

    /// Validates that the checkpoint exists.  Restoring the recorded state is
    /// an open design question: the operation is a documented stub that
    /// mutates nothing.
    pub fn rollback(&self, checkpoint_id: &str) -> (r: Result<(), GuardianError>)
        ensures
            match r {
                Ok(_) => exists|i: int|
                    0 <= i < self@.checkpoints.len() && (#[trigger] self@.checkpoints[i]).id
                        == checkpoint_id@,
                Err(e) => (forall|i: int|
                    0 <= i < self@.checkpoints.len() ==> (#[trigger] self@.checkpoints[i]).id
                        != checkpoint_id@) && (e matches GuardianError::NotFound { checkpoint_id: c }
                    && c@ == checkpoint_id@),
            },
    {
        let key = String::from_str(checkpoint_id);
        match find_checkpoint(&self.checkpoints, &key) {
            Some(i) => {
                proof {
                    assert(self@.checkpoints[i as int].id == checkpoint_id@);
                }
                Ok(())
            },
            None => Err(GuardianError::NotFound { checkpoint_id: key }),
        }
    }

    /// Removes the checkpoint with the given identifier; an unknown
    /// identifier is an error and changes nothing.
    pub fn delete_checkpoint(&mut self, checkpoint_id: &str) -> (r: Result<(), GuardianError>)
        ensures
            final(self)@.sessions == old(self)@.sessions,
            final(self)@.current_session_id == old(self)@.current_session_id,
            final(self)@.id_counter == old(self)@.id_counter,
            old(self).wf() ==> final(self).wf(),
            match r {
                Ok(_) => checkpoint_deleted(
                    old(self)@.checkpoints,
                    final(self)@.checkpoints,
                    checkpoint_id@,
                ),
                Err(e) => (final(self)@.checkpoints == old(self)@.checkpoints) && (forall|i: int|
                    0 <= i < old(self)@.checkpoints.len() ==> (#[trigger] old(
                        self,
                    )@.checkpoints[i]).id != checkpoint_id@) && (e matches GuardianError::NotFound {
                    checkpoint_id: c,
                } && c@ == checkpoint_id@),
            },
    {
        let ghost pre = self@;
        let key = String::from_str(checkpoint_id);
        match find_checkpoint(&self.checkpoints, &key) {
            Some(i) => {
                proof {
                    assert((#[trigger] pre.checkpoints[i as int]).id == key@);
                    assert forall|j: int| 0 <= j < i implies pre.checkpoints[j].id != key@ by {
                        assert(pre.checkpoints[j] == self.checkpoints@[j]@);
                    }
                }
                self.checkpoints.remove(i);
                proof {
                    assert(self@.checkpoints =~= pre.checkpoints.remove(i as int));
                    assert(checkpoint_deleted(pre.checkpoints, self@.checkpoints, key@));
                    if pre.id_counter != u64::MAX {
                        assert(ids_fenced(pre) ==> ids_fenced(self@)) by {
                            if ids_fenced(pre) {
                                assert forall|j: int|
                                    0 <= j < self@.checkpoints.len() implies fenced_above(
                                    (#[trigger] self@.checkpoints[j]).id,
                                    self@.id_counter,
                                ) by {
                                    if j < i {
                                        assert(self@.checkpoints[j] == pre.checkpoints[j]);
                                    } else {
                                        assert(self@.checkpoints[j] == pre.checkpoints[j + 1]);
                                    }
                                }
                            }
                        }
                    }
                }
                Ok(())
            },
            None => Err(GuardianError::NotFound { checkpoint_id: key }),
        }
    }

    /// All checkpoints, or only those of one session, as copies in their
    /// original insertion order.
    pub fn list_checkpoints(&self, session_id: Option<&str>) -> (r: Vec<Checkpoint>)
        ensures
            (match session_id {
                None => cps_view(r@) == self@.checkpoints,
                Some(sid) => cps_view(r@) == filter_by_session(self@.checkpoints, sid@),
            }),
    {
        let mut out: Vec<Checkpoint> = Vec::new();
        let n = self.checkpoints.len();
        let mut i: usize = 0;
        match session_id {
            None => {
                while i < n
                    invariant
                        i <= n,
                        n == self.checkpoints@.len(),
                        out@.len() == i,
                        forall|j: int| 0 <= j < i ==> (#[trigger] out@[j])@ == self@.checkpoints[j],
                    decreases n - i,
                {
                    out.push(self.checkpoints[i].clone());
                    i = i + 1;
                }
                proof {
                    assert(cps_view(out@) =~= self@.checkpoints);
                }
            },
            Some(sid) => {
                let key = String::from_str(sid);
                while i < n
                    invariant
                        i <= n,
                        n == self.checkpoints@.len(),
                        key@ == sid@,
                        cps_view(out@) == filter_by_session(
                            self@.checkpoints.subrange(0, i as int),
                            sid@,
                        ),
                    decreases n - i,
                {
                    let ghost prefix = self@.checkpoints.subrange(0, i as int);
                    let ghost extended = self@.checkpoints.subrange(0, i + 1);
                    proof {
                        assert(extended.drop_last() =~= prefix);
                        assert(extended.last() == self@.checkpoints[i as int]);
                    }
                    if self.checkpoints[i].session_id == key {
                        out.push(self.checkpoints[i].clone());
                        proof {
                            assert(cps_view(out@) =~= filter_by_session(prefix, sid@).push(
                                self@.checkpoints[i as int],
                            ));
                        }
                    }
                    i = i + 1;
                }
                proof {
                    assert(self@.checkpoints.subrange(0, n as int) =~= self@.checkpoints);
                }
            },
        }
        out
    }

    /// All sessions, in their original insertion order.
    pub fn list_sessions(&self) -> (r: &Vec<Session>)
        ensures
            sessions_view(r@) == self@.sessions,
    {
        &self.sessions
    }
}

} // verus!
