//! Core of a patch-stack tool layered on a git repository: the stack state
//! and its persisted form, the staged stack mutations, and the pipeline that
//! turns diffs, mails and series files into stack patches.

pub mod text;
pub mod bytestr;
pub mod oid;
pub mod stack;
pub mod persist;
pub mod headers;
pub mod patchname;
pub mod transaction;
pub mod history;
pub mod author;
pub mod source;
pub mod series;
pub mod import;
pub mod trailers;
pub mod outcome;
pub mod console;
