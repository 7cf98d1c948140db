//! The error type of the catalog and its rendering as text.

use vstd::prelude::*;
use vstd::std_specs::convert::FromSpecImpl;
use crate::text::join2;

verus! {

/// What went wrong, with a message.
#[derive(Debug, PartialEq, Eq)]
pub enum VaroError {
    ConfigError(String),
    EnvPresetError(String),
    NodeError(String),
    SystemError(String),
    IoError(String),
    SerializationError(String),
    LockError(String),
    ExecutionError(String),
}

/// The kind of an error, without its message.
#[derive(Debug, Clone, Copy, PartialEq, Eq, Structural)]
pub enum ErrorKind {
    Config,
    EnvPreset,
    Node,
    System,
    Io,
    Serialization,
    Lock,
    Execution,
}

/// The model of a [`VaroError`]: its kind and its message.
pub ghost struct VaroErrorModel {
    pub kind: ErrorKind,
    pub message: Seq<char>,
}

impl View for VaroError {
    type V = VaroErrorModel;

    open spec fn view(&self) -> VaroErrorModel {
        match self {
            VaroError::ConfigError(m) => VaroErrorModel { kind: ErrorKind::Config, message: m@ },
            VaroError::EnvPresetError(m) => VaroErrorModel {
                kind: ErrorKind::EnvPreset,
                message: m@,
            },
            VaroError::NodeError(m) => VaroErrorModel { kind: ErrorKind::Node, message: m@ },
            VaroError::SystemError(m) => VaroErrorModel { kind: ErrorKind::System, message: m@ },
            VaroError::IoError(m) => VaroErrorModel { kind: ErrorKind::Io, message: m@ },
            VaroError::SerializationError(m) => VaroErrorModel {
                kind: ErrorKind::Serialization,
                message: m@,
            },
            VaroError::LockError(m) => VaroErrorModel { kind: ErrorKind::Lock, message: m@ },
            VaroError::ExecutionError(m) => VaroErrorModel {
                kind: ErrorKind::Execution,
                message: m@,
            },
        }
    }
}

impl DeepView for VaroError {
    type V = VaroErrorModel;

    open spec fn deep_view(&self) -> VaroErrorModel {
        self@
    }
}

/// A result whose error is a [`VaroError`].
pub type VaroResult<T> = Result<T, VaroError>;

/// The words that introduce an error of the given kind.
pub open spec fn kind_prefix(kind: ErrorKind) -> Seq<char> {
    match kind {
        ErrorKind::Config => "Configuration error: "@,
        ErrorKind::EnvPreset => "Environment preset error: "@,
        ErrorKind::Node => "Node error: "@,
        ErrorKind::System => "System error: "@,
        ErrorKind::Io => "IO error: "@,
        ErrorKind::Serialization => "Serialization error: "@,
        ErrorKind::Lock => "Lock error: "@,
        ErrorKind::Execution => "Execution error: "@,
    }
}

/// An error as text: the words for its kind, then its message.
pub open spec fn rendered(e: VaroErrorModel) -> Seq<char> {
    kind_prefix(e.kind) + e.message
}

impl VaroError {
    /// A configuration error.
    pub fn config(msg: &str) -> (r: Self)
        ensures
            r@ == (VaroErrorModel { kind: ErrorKind::Config, message: msg@ }),
    {
        VaroError::ConfigError(String::from_str(msg))
    }

    /// An error about an environment preset.
    pub fn env_preset(msg: &str) -> (r: Self)
        ensures
            r@ == (VaroErrorModel { kind: ErrorKind::EnvPreset, message: msg@ }),
    {
        VaroError::EnvPresetError(String::from_str(msg))
    }

    /// An error about a node.
    pub fn node(msg: &str) -> (r: Self)
        ensures
            r@ == (VaroErrorModel { kind: ErrorKind::Node, message: msg@ }),
    {
        VaroError::NodeError(String::from_str(msg))
    }

    /// An error in launching or running a command.
    pub fn execution(msg: &str) -> (r: Self)
        ensures
            r@ == (VaroErrorModel { kind: ErrorKind::Execution, message: msg@ }),
    {
        VaroError::ExecutionError(String::from_str(msg))
    }

    /// An error in taking a lock.
    pub fn lock(msg: &str) -> (r: Self)
        ensures
            r@ == (VaroErrorModel { kind: ErrorKind::Lock, message: msg@ }),
    {
        VaroError::LockError(String::from_str(msg))
    }

    /// The kind of the error.
    pub fn kind(&self) -> (r: ErrorKind)
        ensures
            r == self@.kind,
    {
        match self {
            VaroError::ConfigError(_) => ErrorKind::Config,
            VaroError::EnvPresetError(_) => ErrorKind::EnvPreset,
            VaroError::NodeError(_) => ErrorKind::Node,
            VaroError::SystemError(_) => ErrorKind::System,
            VaroError::IoError(_) => ErrorKind::Io,
            VaroError::SerializationError(_) => ErrorKind::Serialization,
            VaroError::LockError(_) => ErrorKind::Lock,
            VaroError::ExecutionError(_) => ErrorKind::Execution,
        }
    }

    /// The message of the error.
    pub fn message(&self) -> (r: &String)
        ensures
            r@ == self@.message,
    {
        match self {
            VaroError::ConfigError(m) => m,
            VaroError::EnvPresetError(m) => m,
            VaroError::NodeError(m) => m,
            VaroError::SystemError(m) => m,
            VaroError::IoError(m) => m,
            VaroError::SerializationError(m) => m,
            VaroError::LockError(m) => m,
            VaroError::ExecutionError(m) => m,
        }
    }

    /// The error as text for display: the words for its kind, then its
    /// message.
    pub fn to_text(&self) -> (r: String)
        ensures
            r@ == rendered(self@),
    {
        match self {
            VaroError::ConfigError(m) => join2("Configuration error: ", m.as_str()),
            VaroError::EnvPresetError(m) => join2("Environment preset error: ", m.as_str()),
            VaroError::NodeError(m) => join2("Node error: ", m.as_str()),
            VaroError::SystemError(m) => join2("System error: ", m.as_str()),
            VaroError::IoError(m) => join2("IO error: ", m.as_str()),
            VaroError::SerializationError(m) => join2("Serialization error: ", m.as_str()),
            VaroError::LockError(m) => join2("Lock error: ", m.as_str()),
            VaroError::ExecutionError(m) => join2("Execution error: ", m.as_str()),
        }
    }
}

impl Clone for VaroError {
    fn clone(&self) -> (r: Self)
        ensures
            r@ == self@,
    {
        match self {
            VaroError::ConfigError(m) => VaroError::ConfigError(m.clone()),
            VaroError::EnvPresetError(m) => VaroError::EnvPresetError(m.clone()),
            VaroError::NodeError(m) => VaroError::NodeError(m.clone()),
            VaroError::SystemError(m) => VaroError::SystemError(m.clone()),
            VaroError::IoError(m) => VaroError::IoError(m.clone()),
            VaroError::SerializationError(m) => VaroError::SerializationError(m.clone()),
            VaroError::LockError(m) => VaroError::LockError(m.clone()),
            VaroError::ExecutionError(m) => VaroError::ExecutionError(m.clone()),
        }
    }
}

impl From<String> for VaroError {
    fn from(err: String) -> (r: Self) {
        VaroError::SystemError(err)
    }
}

impl FromSpecImpl<String> for VaroError {
    open spec fn obeys_from_spec() -> bool {
        true
    }

    open spec fn from_spec(err: String) -> Self {
        VaroError::SystemError(err)
    }
}

} // verus!
