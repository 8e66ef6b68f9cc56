//! A small shell core: one line of input is tokenized into a statement of
//! commands joined by terminators (pipe or sequential end), and a statement is
//! turned into a dispatch plan (run a builtin in process, or spawn an external
//! process with its standard streams wired) that an unverified driver carries
//! out.

pub mod builtins;
pub mod execution;
pub mod tokens;

pub use tokens::CommandParams;
pub use tokens::ParseErr;
pub use tokens::ParseErrKind;
pub use tokens::Terminator;
