//! The data model: checkpoints, sessions, configuration, and the error type.

use vstd::prelude::*;
use vstd::string::*;

verus! {

/// The mathematical value of an optional string.
pub open spec fn str_opt_view(o: Option<String>) -> Option<Seq<char>> {
    match o {
        Some(s) => Some(s@),
        None => None,
    }
}

/// A recorded snapshot of a working directory's state: metadata only, no file
/// contents.
#[derive(Debug)]
pub struct Checkpoint {
    /// Unique identifier, immutable once assigned.
    pub id: String,
    /// Human-supplied or auto-generated label; not required to be unique.
    pub name: String,
    /// Creation instant, milliseconds since the epoch.
    pub timestamp: i64,
    /// Revision identifier, present only when the working directory's
    /// version-control probe succeeded.
    pub commit_hash: Option<String>,
    /// Identifier of the session active at creation time.
    pub session_id: String,
    /// Number of regular files directly inside the working directory at
    /// creation time.
    pub file_count: usize,
}

/// The mathematical value of a [`Checkpoint`]: every string as a sequence of
/// characters, every integer unbounded.
pub struct CheckpointView {
    pub id: Seq<char>,
    pub name: Seq<char>,
    pub timestamp: int,
    pub commit_hash: Option<Seq<char>>,
    pub session_id: Seq<char>,
    pub file_count: int,
}

impl View for Checkpoint {
    type V = CheckpointView;

    open spec fn view(&self) -> CheckpointView {
        CheckpointView {
            id: self.id@,
            name: self.name@,
            timestamp: self.timestamp as int,
            commit_hash: match self.commit_hash {
                Some(h) => Some(h@),
                None => None,
            },
            session_id: self.session_id@,
            file_count: self.file_count as int,
        }
    }
}

impl Clone for Checkpoint {
    fn clone(&self) -> (r: Self)
        ensures
            r@ == self@,
    {
        Checkpoint {
            id: self.id.clone(),
            name: self.name.clone(),
            timestamp: self.timestamp,
            commit_hash: match &self.commit_hash {
                Some(h) => Some(h.clone()),
                None => None,
            },
            session_id: self.session_id.clone(),
            file_count: self.file_count,
        }
    }
}

/// A bounded time window grouping zero or more checkpoints.
#[derive(Debug)]
pub struct Session {
    /// Unique identifier.
    pub id: String,
    /// Human-readable name.
    pub name: String,
    /// When the session started, milliseconds since the epoch.
    pub start_time: i64,
    /// When the session ended; set when the session is ended, absent while it
    /// is open.
    pub end_time: Option<i64>,
}

/// The mathematical value of a [`Session`].
pub struct SessionView {
    pub id: Seq<char>,
    pub name: Seq<char>,
    pub start_time: int,
    pub end_time: Option<int>,
}

impl View for Session {
    type V = SessionView;

    open spec fn view(&self) -> SessionView {
        SessionView {
            id: self.id@,
            name: self.name@,
            start_time: self.start_time as int,
            end_time: match self.end_time {
                Some(t) => Some(t as int),
                None => None,
            },
        }
    }
}

impl Clone for Session {
    fn clone(&self) -> (r: Self)
        ensures
            r@ == self@,
    {
        Session {
            id: self.id.clone(),
            name: self.name.clone(),
            start_time: self.start_time,
            end_time: self.end_time,
        }
    }
}

/// Declared policy surface for automatic checkpointing.  Not yet consulted by
/// the manager; kept as the configuration contract an automatic-checkpoint
/// feature would honor.
#[derive(Clone, Copy, Debug, PartialEq, Eq, Structural)]
pub struct GuardianConfig {
    /// Enable automatic checkpoints.
    pub auto_save_enabled: bool,
    /// Minutes between automatic saves.
    pub auto_save_interval_minutes: u32,
    /// Maximum number of checkpoints kept per session.
    pub max_checkpoints_per_session: u32,
    /// Create a checkpoint whenever an AI edit lands.
    pub auto_checkpoint_on_ai_changes: bool,
}

impl Default for GuardianConfig {
    fn default() -> (r: Self)
        ensures
            r == (GuardianConfig {
                auto_save_enabled: true,
                auto_save_interval_minutes: 5,
                max_checkpoints_per_session: 50,
                auto_checkpoint_on_ai_changes: true,
            }),
    {
        GuardianConfig {
            auto_save_enabled: true,
            auto_save_interval_minutes: 5,
            max_checkpoints_per_session: 50,
            auto_checkpoint_on_ai_changes: true,
        }
    }
}

/// How a single file changed between two snapshots.
#[derive(Clone, Copy, Debug, PartialEq, Eq, Structural)]
pub enum ChangeType {
    Added,
    Modified,
    Deleted,
}

/// A record of one file's before/after content.  Declared for future
/// diff/rollback support; no current operation produces or consumes it.
#[derive(Debug)]
pub struct FileChange {
    /// Path of the file, relative to the working directory.
    pub path: String,
    /// Content before the change, absent for an added file.
    pub old_content: Option<String>,
    /// Content after the change, absent for a deleted file.
    pub new_content: Option<String>,
    /// Classification of the change.
    pub change_type: ChangeType,
}

impl Clone for FileChange {
    fn clone(&self) -> (r: Self)
        ensures
            r.path@ == self.path@,
            r.change_type == self.change_type,
    {
        FileChange {
            path: self.path.clone(),
            old_content: match &self.old_content {
                Some(c) => Some(c.clone()),
                None => None,
            },
            new_content: match &self.new_content {
                Some(c) => Some(c.clone()),
                None => None,
            },
            change_type: self.change_type,
        }
    }
}

/// The one failure the manager itself can report: a checkpoint identifier that
/// is not in the collection.  Storage and parse failures belong to the
/// embedding host, which owns the disk.
#[derive(Debug)]
pub enum GuardianError {
    NotFound { checkpoint_id: String },
}

impl GuardianError {
    /// A human-readable description of the error.
    pub fn message(&self) -> (r: String)
        ensures
            (self matches GuardianError::NotFound { checkpoint_id } ==> r@
                == "Checkpoint not found: "@ + checkpoint_id@),
    {
        match self {
            GuardianError::NotFound { checkpoint_id } => {
                let mut m = String::from_str("Checkpoint not found: ");
                m.append(checkpoint_id.as_str());
                m
            },
        }
    }
}

} // verus!
