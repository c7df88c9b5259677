//! The logical entries of an archive stream.

use vstd::prelude::*;

verus! {

/// Whether an archive entry names a regular file or a directory.
#[derive(Clone, Copy, PartialEq, Eq, Structural, Debug)]
pub enum EntryKind {
    File,
    Dir,
}

/// One logical entry of an archive stream: a relative path, the entry
/// kind, permission bits, and (for files) the raw content. Directory
/// entries carry an empty content.
#[derive(Debug)]
pub struct ArchiveEntry {
    pub kind: EntryKind,
    pub path: Vec<u8>,
    pub mode: u64,
    pub content: Vec<u8>,
}

/// Mathematical model of an archive entry.
#[verifier::ext_equal]
pub struct EntryModel {
    pub kind: EntryKind,
    pub path: Seq<u8>,
    pub mode: u64,
    pub content: Seq<u8>,
}

impl View for ArchiveEntry {
    type V = EntryModel;

    open spec fn view(&self) -> EntryModel {
        EntryModel {
            kind: self.kind,
            path: self.path@,
            mode: self.mode,
            content: self.content@,
        }
    }
}

/// The models of a sequence of entries, in order.
pub open spec fn models_of(es: Seq<ArchiveEntry>) -> Seq<EntryModel> {
    es.map_values(|e: ArchiveEntry| e@)
}

/// An entry whose path and content lengths fit the fixed-width length
/// fields of the wire format. Every entry held in executable vectors
/// satisfies this.
pub open spec fn valid_entry(e: EntryModel) -> bool {
    &&& e.path.len() < 0x1_0000_0000_0000_0000
    &&& e.content.len() < 0x1_0000_0000_0000_0000
}

} // verus!
