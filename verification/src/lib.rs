//! Saved shell commands: the record a command is kept as, the collection that
//! stores such records, and the rules by which a record becomes a process
//! invocation.

pub mod clock;
pub mod command;
pub mod error;
pub mod executor;
pub mod identity;
pub mod placeholder;
pub mod sequences;
pub mod storage;
pub mod text;

pub use clock::Timestamp;
pub use command::{
    parameter_type_to_string, string_to_parameter_type, Command, CommandParameter,
    EnvironmentVariable, ParameterType,
};
pub use error::CommandArgusError;
pub use executor::{CommandExecutor, ExecutionResult, Host, Invocation, Platform, ProcessOutput};
pub use storage::CommandStorage;
