//! The decision logic of a small Unix shell: splitting a command line into
//! pipeline stages, finding its IO redirections, planning the file-descriptor
//! operations that carry them out, and recognising the built-in commands.
//! The program in `app/` performs the system calls that these plans describe.

pub mod text;
pub mod syntax;
pub mod redirect;
pub mod plan;
pub mod builtin;
pub mod session;
pub mod laws;
pub mod command_laws;
