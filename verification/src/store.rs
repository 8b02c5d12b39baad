//! The order of the steps that load, change and save the registry document.
//!
//! The document is shared by every invocation, so each one takes an exclusive
//! lock before it looks at the document and holds it until it is done. The
//! document is replaced by writing a temporary file beside it, flushing that
//! file, and renaming it onto the document. The steps themselves touch the
//! file system and are carried out by the caller; what comes next after each
//! step is decided here.

use crate::error::ConfigError;
use vstd::prelude::*;

verus! {

/// The directory of the registry document below the configuration directory.
pub const CONFIG_SUBDIRECTORY: &'static str = "port-manager";

/// The file name of the registry document.
pub const DOCUMENT_NAME: &'static str = "registry.toml";

/// The file name of the lock, beside the document.
pub const LOCK_NAME: &'static str = ".registry.lock";

/// The file name of the temporary file, beside the document.
pub const TEMP_NAME: &'static str = ".registry.toml.tmp";

/// Where the registry document is.
#[derive(Debug, Clone, PartialEq, Eq)]
pub enum DocumentLocation {
    /// At the path that was given for it.
    Given(String),
    /// At its usual place below this configuration directory.
    Below(String),
}

/// Where the registry document is: at the path given for it, else below the
/// configuration directory. With neither there is no place for it.
pub fn registry_path(given: Option<String>, config_dir: Option<String>) -> (r: Result<
    DocumentLocation,
    ConfigError,
>)
    ensures
        r == match given {
            Some(path) => Ok::<DocumentLocation, ConfigError>(DocumentLocation::Given(path)),
            None => match config_dir {
                Some(dir) => Ok(DocumentLocation::Below(dir)),
                None => Err(ConfigError::NoConfigDir),
            },
        },
{
    match given {
        Some(path) => Ok(DocumentLocation::Given(path)),
        None => match config_dir {
            Some(dir) => Ok(DocumentLocation::Below(dir)),
            None => Err(ConfigError::NoConfigDir),
        },
    }
}

/// The paths that a session works on.
#[derive(Debug, Clone, PartialEq, Eq)]
pub struct DocumentPaths {
    /// The directory of the document.
    pub directory: String,
    /// The lock file.
    pub lock: String,
    /// The document.
    pub document: String,
    /// The temporary file.
    pub temp: String,
}

/// What the registry document is opened for.
#[derive(Debug, Clone, Copy, PartialEq, Eq, Structural)]
pub enum Purpose {
    /// To read the registry.
    Load,
    /// To write a registry that is at hand.
    Save,
    /// To read the registry, change it, and write it back.
    Transact,
}

/// A step for the caller to carry out.
#[derive(Debug, Clone, Copy, PartialEq, Eq, Structural)]
pub enum Action {
    /// Create the directory of the document, with its parents.
    EnsureDirectory,
    /// Create the lock file.
    OpenLock,
    /// Take the exclusive lock, waiting for it as long as it takes.
    AcquireLock,
    /// Find out whether the document exists.
    ProbeDocument,
    /// Take the default registry as the registry at hand.
    StartFresh,
    /// Read the text of the document.
    ReadDocument,
    /// Take the registry at hand from the text that was read.
    ParseDocument,
    /// Apply the change to the registry at hand.
    Mutate,
    /// Turn the registry at hand into text.
    Serialize,
    /// Write that text to the temporary file.
    WriteTemp,
    /// Flush the temporary file to storage.
    SyncTemp,
    /// Rename the temporary file onto the document.
    RenameTemp,
    /// Nothing more: release the lock and report.
    Finish,
}

/// What a step failed on.
#[derive(Debug, Clone, Copy, PartialEq, Eq, Structural)]
pub enum Failure {
    /// The directory could not be created.
    DirectoryNotWritten,
    /// The lock file could not be created.
    LockNotWritten,
    /// The lock could not be taken.
    LockNotAcquired,
    /// The document could not be read.
    DocumentNotRead,
    /// The document is no registry.
    DocumentNotParsed,
    /// The change was refused; the document stays as it was.
    ChangeRefused,
    /// The registry could not be turned into text.
    NotSerialized,
    /// The temporary file could not be written or flushed.
    TempNotWritten,
    /// The temporary file could not be renamed onto the document.
    DocumentNotWritten,
}

/// Where an invocation stands with the document.
#[derive(Debug, Clone, Copy, PartialEq, Eq, Structural)]
pub struct Session {
    /// What the document was opened for.
    pub purpose: Purpose,
    /// The step to carry out next.
    pub action: Action,
    /// Whether the registry being written is the default one, for want of a
    /// document.
    pub fresh: bool,
    /// What went wrong, once something has.
    pub failure: Option<Failure>,
}

/// The step needs the lock to be held.
pub open spec fn under_lock(action: Action) -> bool {
    !(action is EnsureDirectory || action is OpenLock || action is AcquireLock || action is Finish)
}

/// What a failed step means.
pub open spec fn failure_of(action: Action) -> Failure {
    match action {
        Action::EnsureDirectory => Failure::DirectoryNotWritten,
        Action::OpenLock => Failure::LockNotWritten,
        Action::AcquireLock => Failure::LockNotAcquired,
        Action::ReadDocument => Failure::DocumentNotRead,
        Action::ParseDocument => Failure::DocumentNotParsed,
        Action::Mutate => Failure::ChangeRefused,
        Action::Serialize => Failure::NotSerialized,
        Action::WriteTemp => Failure::TempNotWritten,
        Action::SyncTemp => Failure::TempNotWritten,
        _ => Failure::DocumentNotWritten,
    }
}

/// The session at its start.
pub open spec fn start_of(purpose: Purpose) -> Session {
    Session { purpose, action: Action::EnsureDirectory, fresh: false, failure: None }
}

/// The session after its step was carried out. `ok` says whether the step
/// succeeded; of the probe, whether the document exists.
///
/// A failed step ends the session with its failure, except that a missing
/// document makes a fresh start: the default registry is written first. The
/// lock is taken before anything else is looked at. A change is applied to
/// the registry that was read, or to the default one once it is written, and
/// only a change that succeeded is written back.
pub open spec fn step_of(session: Session, ok: bool) -> Session {
    let go = |action: Action| Session { action, ..session };
    match session.action {
        Action::Finish => session,
        Action::ProbeDocument => if ok {
            go(Action::ReadDocument)
        } else {
            go(Action::StartFresh)
        },
        Action::StartFresh => Session { action: Action::Serialize, fresh: true, ..session },
        _ => if !ok {
            Session { action: Action::Finish, failure: Some(failure_of(session.action)), ..session }
        } else {
            match session.action {
                Action::EnsureDirectory => go(Action::OpenLock),
                Action::OpenLock => go(Action::AcquireLock),
                Action::AcquireLock => if session.purpose is Save {
                    go(Action::Serialize)
                } else {
                    go(Action::ProbeDocument)
                },
                Action::ReadDocument => go(Action::ParseDocument),
                Action::ParseDocument => if session.purpose is Transact {
                    go(Action::Mutate)
                } else {
                    go(Action::Finish)
                },
                Action::Mutate => go(Action::Serialize),
                Action::Serialize => go(Action::WriteTemp),
                Action::WriteTemp => go(Action::SyncTemp),
                Action::SyncTemp => go(Action::RenameTemp),
                _ => if session.fresh && session.purpose is Transact {
                    Session { action: Action::Mutate, fresh: false, ..session }
                } else {
                    Session { action: Action::Finish, fresh: false, ..session }
                },
            }
        },
    }
}

impl Session {
    /// Opens a session.
    pub fn begin(purpose: Purpose) -> (session: Session)
        ensures
            session == start_of(purpose),
    {
        Session { purpose, action: Action::EnsureDirectory, fresh: false, failure: None }
    }

    /// Whether the session is over.
    pub fn is_finished(&self) -> (b: bool)
        ensures
            b == (self.action is Finish),
    {
        match self.action {
            Action::Finish => true,
            _ => false,
        }
    }

    /// The session with `action` as its next step.
    fn to(self, action: Action) -> (next: Session)
        ensures
            next == (Session { action, ..self }),
    {
        Session { purpose: self.purpose, action, fresh: self.fresh, failure: self.failure }
    }

    /// What a failure of the step at hand means.
    fn failure(&self) -> (failure: Failure)
        ensures
            failure == failure_of(self.action),
    {
        match self.action {
            Action::EnsureDirectory => Failure::DirectoryNotWritten,
            Action::OpenLock => Failure::LockNotWritten,
            Action::AcquireLock => Failure::LockNotAcquired,
            Action::ReadDocument => Failure::DocumentNotRead,
            Action::ParseDocument => Failure::DocumentNotParsed,
            Action::Mutate => Failure::ChangeRefused,
            Action::Serialize => Failure::NotSerialized,
            Action::WriteTemp => Failure::TempNotWritten,
            Action::SyncTemp => Failure::TempNotWritten,
            _ => Failure::DocumentNotWritten,
        }
    }

    /// Takes in how the step went, and says what comes next.
    pub fn advance(self, ok: bool) -> (next: Session)
        ensures
            next == step_of(self, ok),
    {
        let transacts = match self.purpose {
            Purpose::Transact => true,
            _ => false,
        };
        match self.action {
            Action::Finish => self,
            Action::ProbeDocument => if ok {
                self.to(Action::ReadDocument)
            } else {
                self.to(Action::StartFresh)
            },
            Action::StartFresh => Session {
                purpose: self.purpose,
                action: Action::Serialize,
                fresh: true,
                failure: self.failure,
            },
            _ => if !ok {
                Session {
                    purpose: self.purpose,
                    action: Action::Finish,
                    fresh: self.fresh,
                    failure: Some(self.failure()),
                }
            } else {
                match self.action {
                    Action::EnsureDirectory => self.to(Action::OpenLock),
                    Action::OpenLock => self.to(Action::AcquireLock),
                    Action::AcquireLock => match self.purpose {
                        Purpose::Save => self.to(Action::Serialize),
                        _ => self.to(Action::ProbeDocument),
                    },
                    Action::ReadDocument => self.to(Action::ParseDocument),
                    Action::ParseDocument => if transacts {
                        self.to(Action::Mutate)
                    } else {
                        self.to(Action::Finish)
                    },
                    Action::Mutate => self.to(Action::Serialize),
                    Action::Serialize => self.to(Action::WriteTemp),
                    Action::WriteTemp => self.to(Action::SyncTemp),
                    Action::SyncTemp => self.to(Action::RenameTemp),
                    _ => Session {
                        purpose: self.purpose,
                        action: if self.fresh && transacts {
                            Action::Mutate
                        } else {
                            Action::Finish
                        },
                        fresh: false,
                        failure: self.failure,
                    },
                }
            },
        }
    }
}

/// The error to report for a failure, with the path it happened at and the
/// reason the system gave. A refused change is no error of the document.
pub open spec fn error_of(failure: Failure, paths: DocumentPaths, reason: String) -> Option<
    ConfigError,
> {
    match failure {
        Failure::DirectoryNotWritten => Some(
            ConfigError::WriteFailed { path: paths.directory, reason },
        ),
        Failure::LockNotWritten => Some(ConfigError::WriteFailed { path: paths.lock, reason }),
        Failure::LockNotAcquired => Some(ConfigError::LockFailed { path: paths.lock, reason }),
        Failure::DocumentNotRead => Some(ConfigError::ReadFailed { path: paths.document, reason }),
        Failure::DocumentNotParsed => Some(
            ConfigError::ParseFailed { path: paths.document, reason },
        ),
        Failure::ChangeRefused => None,
        Failure::NotSerialized => Some(ConfigError::SerializeFailed(reason)),
        Failure::TempNotWritten => Some(ConfigError::WriteFailed { path: paths.temp, reason }),
        Failure::DocumentNotWritten => Some(
            ConfigError::WriteFailed { path: paths.document, reason },
        ),
    }
}

/// The error to report for a failure.
pub fn config_error(failure: Failure, paths: DocumentPaths, reason: String) -> (r: Option<
    ConfigError,
>)
    ensures
        r == error_of(failure, paths, reason),
{
    match failure {
        Failure::DirectoryNotWritten => Some(
            ConfigError::WriteFailed { path: paths.directory, reason },
        ),
        Failure::LockNotWritten => Some(ConfigError::WriteFailed { path: paths.lock, reason }),
        Failure::LockNotAcquired => Some(ConfigError::LockFailed { path: paths.lock, reason }),
        Failure::DocumentNotRead => Some(ConfigError::ReadFailed { path: paths.document, reason }),
        Failure::DocumentNotParsed => Some(
            ConfigError::ParseFailed { path: paths.document, reason },
        ),
        Failure::ChangeRefused => None,
        Failure::NotSerialized => Some(ConfigError::SerializeFailed(reason)),
        Failure::TempNotWritten => Some(ConfigError::WriteFailed { path: paths.temp, reason }),
        Failure::DocumentNotWritten => Some(
            ConfigError::WriteFailed { path: paths.document, reason },
        ),
    }
}

} // verus!
