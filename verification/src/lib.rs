//! A changelog engine: it parses a semi-structured, hand-editable markdown
//! changelog into a typed model and writes the model back out, preserving
//! everything it does not recognize byte for byte.

pub mod changelog;
pub mod commit;
pub mod id;
pub mod release;
pub mod text;
pub mod version;

pub use changelog::ChangeLog;
