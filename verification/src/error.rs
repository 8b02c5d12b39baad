//! The errors of registry operations and of port detection.

use crate::port::Port;
use vstd::prelude::*;
use vstd::std_specs::convert::FromSpecImpl;

verus! {

/// Why an operation failed.
#[derive(Debug, Clone, PartialEq, Eq)]
pub enum Error {
    /// The registry document could not be found, read or written.
    Config(ConfigError),
    /// The registry refused the operation.
    Registry(RegistryError),
    /// The listening ports could not be found out.
    PortDetection(PortDetectionError),
    /// Reading or writing failed, for the reason given.
    Io(String),
}

/// Why the registry document could not be found, read or written.
#[derive(Debug, Clone, PartialEq, Eq)]
pub enum ConfigError {
    /// There is no configuration directory and no path was given.
    NoConfigDir,
    /// The document at `path` could not be read.
    ReadFailed { path: String, reason: String },
    /// The file or directory at `path` could not be written.
    WriteFailed { path: String, reason: String },
    /// The document at `path` is no registry.
    ParseFailed { path: String, reason: String },
    /// The registry could not be turned into text.
    SerializeFailed(String),
    /// The lock at `path` could not be taken.
    LockFailed { path: String, reason: String },
}

/// Why an operation on the registry was refused.
#[derive(Debug, Clone, PartialEq, Eq)]
pub enum RegistryError {
    /// The registry has no project of this name.
    ProjectNotFound(String),
    /// The project has no port slot of this name.
    PortNameNotFound { project: String, name: String },
    /// The port is held by the named slot already.
    PortAlreadyAllocated { port: Port, project: String, name: String },
    /// The project has a port slot of this name already.
    PortNameExists { project: String, name: String },
    /// Every port of the range is allocated or in use.
    NoAvailablePorts { start: u16, end: u16 },
    /// A process on this machine listens on the port.
    PortInUse { port: Port, pid: i32, process_name: String },
    /// The range specification is not of the form `type=start-end`.
    InvalidRangeFormat,
    /// A bound of the range specification is not a port number.
    InvalidPortNumber(String),
    /// The range does not start below its end.
    InvalidPortRange { start: u16, end: u16 },
}

/// Why the listening ports of this machine could not be found out.
#[derive(Debug, Clone, PartialEq, Eq)]
pub enum PortDetectionError {
    /// The system's connection table could not be read.
    ProcessEnumFailed(String),
    /// Port detection is not available on this platform.
    PlatformNotSupported,
}

impl From<ConfigError> for Error {
    fn from(e: ConfigError) -> (r: Error) {
        Error::Config(e)
    }
}

impl FromSpecImpl<ConfigError> for Error {
    open spec fn obeys_from_spec() -> bool {
        true
    }

    open spec fn from_spec(e: ConfigError) -> Error {
        Error::Config(e)
    }
}

impl From<RegistryError> for Error {
    fn from(e: RegistryError) -> (r: Error) {
        Error::Registry(e)
    }
}

impl FromSpecImpl<RegistryError> for Error {
    open spec fn obeys_from_spec() -> bool {
        true
    }

    open spec fn from_spec(e: RegistryError) -> Error {
        Error::Registry(e)
    }
}

impl From<PortDetectionError> for Error {
    fn from(e: PortDetectionError) -> (r: Error) {
        Error::PortDetection(e)
    }
}

impl FromSpecImpl<PortDetectionError> for Error {
    open spec fn obeys_from_spec() -> bool {
        true
    }

    open spec fn from_spec(e: PortDetectionError) -> Error {
        Error::PortDetection(e)
    }
}

} // verus!
