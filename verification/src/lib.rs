//! Paths that cannot traverse upwards.
//!
//! Pushing a user-supplied path onto a directory lets an absolute path replace
//! the directory and a `..` climb out of it. The types here are checked when
//! they are built: a [`SingleComponentPathBuf`] (or [`SingleComponentPath`])
//! names exactly one file or directory, and a [`MultiComponentPathBuf`] (or
//! [`MultiComponentPath`]) is a relative path made of names and `.` only.
//! [`PushPathComponent`] extends a path by such values alone, so the result
//! keeps every component of the directory it started from. Paths are Unix byte
//! strings in POSIX syntax; they need not be UTF-8.

pub mod component;
pub mod hashing;
pub mod laws;
pub mod multi;
pub mod order;
pub mod ordering;
pub mod prelude;
pub mod push;
pub mod single;

pub use multi::{MultiComponentPath, MultiComponentPathBuf};
pub use push::PushPathComponent;
pub use single::{SingleComponentPath, SingleComponentPathBuf};
