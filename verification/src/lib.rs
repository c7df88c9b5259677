//! Packages a set of relative filesystem paths into one ordered archive
//! byte stream and unpacks such a stream under a destination root.
//!
//! The verified core is the archive pipeline: path validation, recursive
//! directory walking, the streaming wire codec, and the send/receive
//! decision logic. All filesystem and socket work is done by the caller,
//! which hands the library plain values (path bytes, directory trees read
//! into `FsNode`, received byte streams) and applies the entries the
//! library returns.

pub mod builder;
pub mod codec;
pub mod entry;
pub mod extract;
pub mod fstree;
pub mod transport;
