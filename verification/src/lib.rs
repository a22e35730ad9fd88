//! The core of a small interactive shell: command-line splitting, builtin
//! dispatch, the builtins' decisions, path handling and in-memory streams.
pub mod text;
pub mod path;
pub mod error;
pub mod stringbuffer;
pub mod ioface;
pub mod options;
pub mod builtin;
pub mod shell;
pub mod environment;
pub mod prompt;
pub mod session;
pub mod laws;
