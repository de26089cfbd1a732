//! A minimal register-based virtual machine.
//!
//! A line-oriented text program is parsed into a sequence of typed
//! instructions (lines that match no recognized shape are silently
//! dropped), and the instructions are executed against a store of named,
//! typed registers under a hard step budget that bounds execution length.

pub mod instr;
pub mod machine;
pub mod schema;
pub mod text;
