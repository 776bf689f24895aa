//! The journal daemon's configuration and its decisions at start and exit.

use vstd::prelude::*;

use crate::event::loop_::LoopResult;
use crate::paths;

verus! {

/// Default runtime directory.
pub const DEFAULT_RUNTIME_DIRECTORY: &'static str = "/run/rustd/journal";

/// Default directory of the persistent journal.
pub const DEFAULT_JOURNAL_DIRECTORY: &'static str = "/var/log/journal";

/// Default persistent journal file name.
pub const DEFAULT_JOURNAL_FILENAME: &'static str = "system.journal";

/// Where other programs look for the journal sockets.
pub const COMPATIBILITY_DIRECTORY: &'static str = "/run/systemd/journal";

/// Configuration for one journal daemon instance.
#[derive(Debug)]
pub struct JournalDaemonConfig {
    /// Directory of the `socket` and `stdout` socket paths.
    pub runtime_directory: String,
    /// Directory used for the default persistent journal file name.
    pub journal_directory: String,
    /// Explicit journal file path.
    pub journal_file: Option<String>,
    /// Maximum number of entries retained for in-process consumers.
    pub ring_capacity: usize,
}

impl Default for JournalDaemonConfig {
    fn default() -> (r: Self)
        ensures
            r.runtime_directory@ == DEFAULT_RUNTIME_DIRECTORY@,
            r.journal_directory@ == DEFAULT_JOURNAL_DIRECTORY@,
            r.journal_file is None,
            r.ring_capacity == 8192,
    {
        JournalDaemonConfig {
            runtime_directory: DEFAULT_RUNTIME_DIRECTORY.to_owned(),
            journal_directory: DEFAULT_JOURNAL_DIRECTORY.to_owned(),
            journal_file: None,
            ring_capacity: 8192,
        }
    }
}

impl JournalDaemonConfig {
    /// The file that receives persistent entries.
    pub fn journal_path(&self) -> (r: String)
        ensures
            r@ == match self.journal_file {
                Some(file) => file@,
                None => paths::joined(self.journal_directory@, DEFAULT_JOURNAL_FILENAME@),
            },
    {
        match &self.journal_file {
            Some(file) => file.clone(),
            None => paths::join(self.journal_directory.as_str(), DEFAULT_JOURNAL_FILENAME),
        }
    }

    /// The datagram socket path.
    pub fn socket_path(&self) -> (r: String)
        ensures
            r@ == paths::joined(self.runtime_directory@, "socket"@),
    {
        paths::join(self.runtime_directory.as_str(), "socket")
    }

    /// The stdout socket path.
    pub fn stdout_path(&self) -> (r: String)
        ensures
            r@ == paths::joined(self.runtime_directory@, "stdout"@),
    {
        paths::join(self.runtime_directory.as_str(), "stdout")
    }

    /// Whether the sockets are also to be found where other programs look:
    /// only for the installed runtime directory.
    pub fn wants_compatibility_links(&self) -> (r: bool)
        ensures
            r == paths::same_path(self.runtime_directory@, DEFAULT_RUNTIME_DIRECTORY@),
    {
        paths::same(self.runtime_directory.as_str(), DEFAULT_RUNTIME_DIRECTORY)
    }
}

/// Whether a directory may be used for the journal: its path is absolute.
pub fn directory_is_acceptable(path: &str) -> (r: bool)
    ensures
        r == paths::is_absolute(path@),
{
    paths::absolute(path)
}

/// What stands where a compatibility link is to be.
#[derive(Debug)]
pub enum LinkState {
    /// Nothing.
    Missing,
    /// A link to this path.
    Link(String),
    /// Something that is not a link.
    Other,
    /// It could not be found out.
    Unreadable,
}

/// What to do about a compatibility link.
#[derive(Debug, Clone, Copy, PartialEq, Eq, Structural)]
pub enum LinkStep {
    /// It is there already, and someone else's.
    Keep,
    /// Create it.
    Create,
    /// It points elsewhere.
    PointsElsewhere,
    /// What is there is not a link.
    NotALink,
    /// Report the error.
    Fail,
}

/// What to do about a compatibility link. What is there is never replaced.
pub fn link_step(existing: &LinkState, target: &str) -> (r: LinkStep)
    ensures
        r == match *existing {
            LinkState::Missing => LinkStep::Create,
            LinkState::Link(to) => if paths::same_path(to@, target@) {
                LinkStep::Keep
            } else {
                LinkStep::PointsElsewhere
            },
            LinkState::Other => LinkStep::NotALink,
            LinkState::Unreadable => LinkStep::Fail,
        },
{
    match existing {
        LinkState::Missing => LinkStep::Create,
        LinkState::Link(to) => {
            if paths::same(to.as_str(), target) {
                LinkStep::Keep
            } else {
                LinkStep::PointsElsewhere
            }
        },
        LinkState::Other => LinkStep::NotALink,
        LinkState::Unreadable => LinkStep::Fail,
    }
}

/// Whether a compatibility link is removed at exit: it was made by this
/// instance and still points where it did.
pub fn removes_link(owned: bool, current: &Option<String>, target: &str) -> (r: bool)
    ensures
        r == (owned && match *current {
            Some(current) => paths::same_path(current@, target@),
            None => false,
        }),
{
    match current {
        Some(current) => owned && paths::same(current.as_str(), target),
        None => false,
    }
}

/// How a run ended.
pub enum RunEnd {
    /// The loop was asked to stop.
    Stopped(LoopResult),
    /// The loop failed.
    LoopFailed(String),
    /// An entry could not be persisted.
    PersistenceFailed(String),
}

/// Whether the daemon stops after a turn of its loop, and how. A persistence
/// failure takes precedence over what the loop was asked to do.
pub fn after_turn(turn: Result<LoopResult, String>, failure: Option<String>) -> (r: Option<RunEnd>)
    ensures
        match turn {
            Err(error) => r == Some(RunEnd::LoopFailed(error)),
            Ok(result) => match failure {
                Some(failure) => r == Some(RunEnd::PersistenceFailed(failure)),
                None => if result == LoopResult::Continue {
                    r is None
                } else {
                    r == Some(RunEnd::Stopped(result))
                },
            },
        },
{
    match turn {
        Err(error) => Some(RunEnd::LoopFailed(error)),
        Ok(result) => match failure {
            Some(failure) => Some(RunEnd::PersistenceFailed(failure)),
            None => {
                if result == LoopResult::Continue {
                    None
                } else {
                    Some(RunEnd::Stopped(result))
                }
            },
        },
    }
}

/// What the daemon reports of a run and of closing its file.
pub open spec fn report(end: RunEnd, closed: Result<(), Seq<char>>) -> Result<LoopResult, Seq<char>> {
    let error = match end {
        RunEnd::Stopped(_) => Seq::empty(),
        RunEnd::LoopFailed(error) => error@,
        RunEnd::PersistenceFailed(failure) => "journal persistence failed: "@ + failure@,
    };
    match (end, closed) {
        (RunEnd::Stopped(result), Ok(())) => Ok(result),
        (RunEnd::Stopped(_), Err(closing)) => Err(closing),
        (_, Ok(())) => Err(error),
        (_, Err(closing)) => Err(
            "journal event loop failed: "@ + error + "; journal shutdown also failed: "@ + closing,
        ),
    }
}

/// What the daemon reports of a run and of closing its file.
pub fn run_outcome(end: RunEnd, closed: Result<(), String>) -> (r: Result<LoopResult, String>)
    ensures
        match r {
            Ok(result) => report(end, crate::journal::sink::result_view(closed)) == Ok::<LoopResult, Seq<char>>(result),
            Err(error) => report(end, crate::journal::sink::result_view(closed)) == Err::<LoopResult, Seq<char>>(error@),
        },
{
    let error = match end {
        RunEnd::Stopped(result) => {
            return match closed {
                Ok(()) => Ok(result),
                Err(closing) => Err(closing),
            };
        },
        RunEnd::LoopFailed(error) => error,
        RunEnd::PersistenceFailed(failure) => {
            let mut text = "journal persistence failed: ".to_owned();
            text.push_str(failure.as_str());
            text
        },
    };
    match closed {
        Ok(()) => Err(error),
        Err(closing) => {
            let mut text = "journal event loop failed: ".to_owned();
            text.push_str(error.as_str());
            text.push_str("; journal shutdown also failed: ");
            text.push_str(closing.as_str());
            Err(text)
        },
    }
}

/// What a run reports. It ends as asked where the journal closed too; else with
/// the one error that there was, or with both.
pub proof fn law_what_a_run_reports(end: RunEnd, closing: Seq<char>)
    ensures
        end is Stopped ==> report(end, Ok(())) == Ok::<LoopResult, Seq<char>>(end->Stopped_0),
        end is Stopped ==> report(end, Err(closing)) == Err::<LoopResult, Seq<char>>(closing),
        end is LoopFailed ==> report(end, Ok(())) == Err::<LoopResult, Seq<char>>(end->LoopFailed_0@),
        end is PersistenceFailed ==> report(end, Ok(())) == Err::<LoopResult, Seq<char>>(
            "journal persistence failed: "@ + end->PersistenceFailed_0@,
        ),
        !(end is Stopped) ==> report(end, Err(closing)) == Err::<LoopResult, Seq<char>>(
            "journal event loop failed: "@ + report(end, Ok(()))->Err_0 + "; journal shutdown also failed: "@ + closing,
        ),
{
}

} // verus!
