//! The filesystem data the builder works on, and the verified walk that
//! turns it into archive entries.
//!
//! The caller reads the real filesystem into these plain values: each
//! user-supplied path becomes a `PathInput` holding the path bytes and
//! what was found there, with directories read recursively into `FsNode`
//! trees. The walk then validates and flattens them without further I/O.

use vstd::prelude::*;

use crate::codec::push_bytes;
use crate::entry::{ArchiveEntry, EntryKind, EntryModel, models_of};

verus! {

/// What a path resolved to on the filesystem, read without following
/// symbolic links. File contents and permission bits are captured at read
/// time.
pub enum FsNode {
    /// A regular file that was opened and read.
    File { mode: u64, content: Vec<u8> },
    /// A regular file that exists but could not be opened; `cause` is the
    /// underlying error rendered as bytes.
    Unreadable { cause: Vec<u8> },
    /// A directory and its entries, each under its own name (no
    /// separators), in directory order.
    Dir { mode: u64, children: Vec<DirChild> },
    /// A symbolic link (never followed).
    Symlink,
    /// Something that exists but is neither file, directory nor symlink
    /// (socket, device, fifo).
    Other,
    /// Nothing exists at the path.
    Missing,
}

/// One named entry of a directory.
pub struct DirChild {
    pub name: Vec<u8>,
    pub node: FsNode,
}

/// A user-supplied path together with what the filesystem holds there.
pub struct PathInput {
    pub path: Vec<u8>,
    pub node: FsNode,
}

/// Why a build was aborted.
#[derive(Debug)]
pub enum BuildError {
    /// The path is absolute, or is or contains a symbolic link.
    UnsupportedPath { path: Vec<u8>, reason: PathReason },
    /// Nothing usable exists at the path. A path that resolves to a
    /// socket, device or fifo is reported the same way.
    NotFound { path: Vec<u8> },
    /// The file exists but could not be opened; the underlying error is
    /// kept for diagnosis.
    FileOpen { path: Vec<u8>, cause: Vec<u8> },
}

/// The specific restriction an unsupported path broke.
#[derive(Clone, Copy, PartialEq, Eq, Structural, Debug)]
pub enum PathReason {
    Absolute,
    Symlink,
}

/// Mathematical model of a build failure.
#[verifier::ext_equal]
pub enum BuildErrorModel {
    UnsupportedPath { path: Seq<u8>, reason: PathReason },
    NotFound { path: Seq<u8> },
    FileOpen { path: Seq<u8>, cause: Seq<u8> },
}

impl View for BuildError {
    type V = BuildErrorModel;

    open spec fn view(&self) -> BuildErrorModel {
        match self {
            BuildError::UnsupportedPath { path, reason } => BuildErrorModel::UnsupportedPath {
                path: path@,
                reason: *reason,
            },
            BuildError::NotFound { path } => BuildErrorModel::NotFound { path: path@ },
            BuildError::FileOpen { path, cause } => BuildErrorModel::FileOpen {
                path: path@,
                cause: cause@,
            },
        }
    }
}

/// An absolute path: one that is anchored at the filesystem root rather
/// than relative to the working directory.
pub open spec fn is_absolute(path: Seq<u8>) -> bool {
    path.len() > 0 && path[0] == 47u8
}

/// `name` under `prefix`, with a `/` separator; a name under the empty
/// prefix is the name itself.
pub open spec fn join(prefix: Seq<u8>, name: Seq<u8>) -> Seq<u8> {
    if prefix.len() == 0 {
        name
    } else {
        prefix + seq![47u8] + name
    }
}

/// The model of a file entry.
pub open spec fn file_entry(path: Seq<u8>, mode: u64, content: Seq<u8>) -> EntryModel {
    EntryModel { kind: EntryKind::File, path, mode, content }
}

/// The model of a directory entry.
pub open spec fn dir_entry(path: Seq<u8>, mode: u64) -> EntryModel {
    EntryModel { kind: EntryKind::Dir, path, mode, content: Seq::empty() }
}

/// The entries a node found at `path` during a walk contributes, in
/// order, or the failure that aborts the build: a directory entry first
/// and then its children depth-first; symbolic links and unreadable files
/// abort; a name that is neither file nor directory is skipped.
pub open spec fn spec_walk_node(path: Seq<u8>, node: FsNode) -> Result<
    Seq<EntryModel>,
    BuildErrorModel,
>
    decreases node, 0int,
{
    match node {
        FsNode::File { mode, content } => Ok(seq![file_entry(path, mode, content@)]),
        FsNode::Unreadable { cause } => Err(BuildErrorModel::FileOpen { path, cause: cause@ }),
        FsNode::Symlink => Err(
            BuildErrorModel::UnsupportedPath { path, reason: PathReason::Symlink },
        ),
        FsNode::Other => Ok(Seq::empty()),
        FsNode::Missing => Ok(Seq::empty()),
        FsNode::Dir { mode, children } => match spec_walk_children(children@, path) {
            Ok(es) => Ok(seq![dir_entry(path, mode)] + es),
            Err(e) => Err(e),
        },
    }
}

/// The entries the children of a directory at `prefix` contribute, in
/// directory order, or the first failure among them.
pub open spec fn spec_walk_children(cs: Seq<DirChild>, prefix: Seq<u8>) -> Result<
    Seq<EntryModel>,
    BuildErrorModel,
>
    decreases cs, 1int,
{
    if cs.len() == 0 {
        Ok(Seq::empty())
    } else {
        match spec_walk_node(join(prefix, cs[0].name@), cs[0].node) {
            Err(e) => Err(e),
            Ok(es) => match spec_walk_children(cs.subrange(1, cs.len() as int), prefix) {
                Err(e) => Err(e),
                Ok(rest) => Ok(es + rest),
            },
        }
    }
}

/// The validation every user-supplied path passes before any of its data
/// is read, in order: an absolute path is unsupported; a symbolic link is
/// unsupported; a path where nothing usable exists is not found.
pub open spec fn spec_validate(inp: PathInput) -> Result<(), BuildErrorModel> {
    if is_absolute(inp.path@) {
        Err(BuildErrorModel::UnsupportedPath { path: inp.path@, reason: PathReason::Absolute })
    } else if inp.node is Symlink {
        Err(BuildErrorModel::UnsupportedPath { path: inp.path@, reason: PathReason::Symlink })
    } else if inp.node is Missing || inp.node is Other {
        Err(BuildErrorModel::NotFound { path: inp.path@ })
    } else {
        Ok(())
    }
}

/// The entries one validated input contributes: a regular file is stored
/// under the supplied path; a directory contributes its contents with
/// paths relative to that directory, the directory's own name not
/// included.
pub open spec fn spec_entries_of_input(inp: PathInput) -> Result<Seq<EntryModel>, BuildErrorModel> {
    match spec_validate(inp) {
        Err(e) => Err(e),
        Ok(u) => match inp.node {
            FsNode::File { mode, content } => Ok(seq![file_entry(inp.path@, mode, content@)]),
            FsNode::Unreadable { cause } => Err(
                BuildErrorModel::FileOpen { path: inp.path@, cause: cause@ },
            ),
            FsNode::Dir { mode, children } => spec_walk_children(children@, Seq::empty()),
            _ => Ok(Seq::empty()),
        },
    }
}

/// Copies a byte vector.
pub(crate) fn copy_bytes(src: &Vec<u8>) -> (r: Vec<u8>)
    ensures
        r@ == src@,
{
    let r = crate::codec::copy_range(src, 0, src.len());
    assert(src@.subrange(0, src@.len() as int) =~= src@);
    r
}

/// `name` under `prefix` as executable vectors.
fn join_path(prefix: &Vec<u8>, name: &Vec<u8>) -> (r: Vec<u8>)
    ensures
        r@ == join(prefix@, name@),
{
    if prefix.len() == 0 {
        let r = copy_bytes(name);
        r
    } else {
        let mut r = copy_bytes(prefix);
        r.push(47u8);
        push_bytes(&mut r, name);
        assert(r@ =~= join(prefix@, name@));
        r
    }
}

/// Classifies one user-supplied path, rejecting it with the specific
/// reason before any of its data is used.
pub fn validate_path(inp: &PathInput) -> (r: Result<(), BuildError>)
    ensures
        match spec_validate(*inp) {
            Ok(u) => r is Ok,
            Err(em) => r is Err && r->Err_0@ == em,
        },
{
    if inp.path.len() > 0 && inp.path[0] == 47u8 {
        return Err(
            BuildError::UnsupportedPath { path: copy_bytes(&inp.path), reason: PathReason::Absolute },
        );
    }
    match inp.node {
        FsNode::Symlink => Err(
            BuildError::UnsupportedPath { path: copy_bytes(&inp.path), reason: PathReason::Symlink },
        ),
        FsNode::Missing => Err(BuildError::NotFound { path: copy_bytes(&inp.path) }),
        FsNode::Other => Err(BuildError::NotFound { path: copy_bytes(&inp.path) }),
        _ => Ok(()),
    }
}

/// Appends the entries of the node found at `path`, or aborts with the
/// failure the walk hit.
pub fn walk_node(path: Vec<u8>, node: &FsNode, out: &mut Vec<ArchiveEntry>) -> (r: Result<
    (),
    BuildError,
>)
    ensures
        match spec_walk_node(path@, *node) {
            Ok(es) => r is Ok && models_of(final(out)@) == models_of(old(out)@) + es,
            Err(em) => r is Err && r->Err_0@ == em,
        },
    decreases *node, 0int,
{
    match node {
        FsNode::File { mode, content } => {
            let entry = ArchiveEntry {
                kind: EntryKind::File,
                path,
                mode: *mode,
                content: copy_bytes(content),
            };
            let ghost em = entry@;
            out.push(entry);
            proof {
                assert(models_of(out@) =~= models_of(old(out)@) + seq![em]);
                assert(seq![em] =~= spec_walk_node(path@, *node)->Ok_0);
            }
            Ok(())
        },
        FsNode::Unreadable { cause } => Err(
            BuildError::FileOpen { path, cause: copy_bytes(cause) },
        ),
        FsNode::Symlink => Err(
            BuildError::UnsupportedPath { path, reason: PathReason::Symlink },
        ),
        FsNode::Other => {
            proof {
                assert(models_of(out@) =~= models_of(old(out)@) + Seq::<EntryModel>::empty());
            }
            Ok(())
        },
        FsNode::Missing => {
            proof {
                assert(models_of(out@) =~= models_of(old(out)@) + Seq::<EntryModel>::empty());
            }
            Ok(())
        },
        FsNode::Dir { mode, children } => {
            let entry = ArchiveEntry {
                kind: EntryKind::Dir,
                path: copy_bytes(&path),
                mode: *mode,
                content: Vec::new(),
            };
            let ghost em = entry@;
            out.push(entry);
            proof {
                assert(em =~= dir_entry(path@, *mode));
                assert(models_of(out@) =~= models_of(old(out)@) + seq![em]);
            }
            proof {
                let cs_full = (*node)->Dir_children;
                assert(decreases_to!(*node => cs_full));
                assert(decreases_to!(cs_full => cs_full@));
                assert(cs_full@.subrange(0, cs_full@.len() as int) =~= cs_full@);
            }
            let r = walk_children(children, 0, &path, out);
            proof {
                let cs = children@;
                assert(cs.subrange(0, cs.len() as int) =~= cs);
                match spec_walk_children(cs, path@) {
                    Ok(es) => {
                        assert(models_of(out@) =~= models_of(old(out)@) + (seq![em] + es));
                    },
                    Err(e) => {},
                }
            }
            r
        },
    }
}

/// Appends the entries of the children of a directory at `prefix`,
/// starting at child `i`, or aborts with the first failure.
pub fn walk_children(
    children: &Vec<DirChild>,
    i: usize,
    prefix: &Vec<u8>,
    out: &mut Vec<ArchiveEntry>,
) -> (r: Result<(), BuildError>)
    requires
        i <= children@.len(),
    ensures
        match spec_walk_children(
            children@.subrange(i as int, children@.len() as int),
            prefix@,
        ) {
            Ok(es) => r is Ok && models_of(final(out)@) == models_of(old(out)@) + es,
            Err(em) => r is Err && r->Err_0@ == em,
        },
    decreases children@.subrange(i as int, children@.len() as int), 1int,
{
    let ghost cs = children@.subrange(i as int, children@.len() as int);
    if i == children.len() {
        proof {
            assert(models_of(out@) =~= models_of(old(out)@) + Seq::<EntryModel>::empty());
        }
        return Ok(());
    }
    let child = &children[i];
    proof {
        assert(cs[0] == children@[i as int]);
        assert(decreases_to!(cs => cs[0]));
    }
    let child_path = join_path(prefix, &child.name);
    let r1 = walk_node(child_path, &child.node, out);
    if let Err(e) = r1 {
        return Err(e);
    }
    proof {
        assert(cs.subrange(1, cs.len() as int) =~= children@.subrange(
            i as int + 1,
            children@.len() as int,
        ));
    }
    let r2 = walk_children(children, i + 1, prefix, out);
    if let Err(e) = r2 {
        return Err(e);
    }
    proof {
        let es0 = spec_walk_node(join(prefix@, children@[i as int].name@), children@[i as int].node)->Ok_0;
        let rest = spec_walk_children(cs.subrange(1, cs.len() as int), prefix@)->Ok_0;
        assert(models_of(out@) =~= models_of(old(out)@) + (es0 + rest));
    }
    Ok(())
}

/// The path `prefix` extended by every component of `comps` in turn.
pub open spec fn join_all(prefix: Seq<u8>, comps: Seq<Seq<u8>>) -> Seq<u8>
    decreases comps.len(),
{
    if comps.len() == 0 {
        prefix
    } else {
        join_all(join(prefix, comps[0]), comps.subrange(1, comps.len() as int))
    }
}

/// A regular file with `mode` and `content` is stored in the tree under
/// `node` at the relative component path `comps`, one child name per
/// component.
pub open spec fn tree_has_file(node: FsNode, comps: Seq<Seq<u8>>, mode: u64, content: Seq<u8>) -> bool
    decreases comps.len(), 1int,
{
    &&& node is Dir
    &&& comps.len() >= 1
    &&& exists|k: int|
        0 <= k < node->Dir_children@.len() && child_leads_to_file(
            #[trigger] node->Dir_children@[k],
            comps,
            mode,
            content,
        )
}

/// The child is the first component of `comps` and leads to the file.
pub open spec fn child_leads_to_file(c: DirChild, comps: Seq<Seq<u8>>, mode: u64, content: Seq<u8>) -> bool
    decreases comps.len(), 0int,
{
    if comps.len() == 0 {
        false
    } else if comps.len() == 1 {
        &&& c.name@ == comps[0]
        &&& c.node is File
        &&& c.node->File_mode == mode
        &&& c.node->File_content@ == content
    } else {
        &&& c.name@ == comps[0]
        &&& tree_has_file(c.node, comps.subrange(1, comps.len() as int), mode, content)
    }
}

/// A successful walk of a child list walked every child: each child's own
/// walk succeeded too.
pub proof fn lemma_children_walk_ok(cs: Seq<DirChild>, prefix: Seq<u8>, k: int)
    requires
        0 <= k < cs.len(),
        spec_walk_children(cs, prefix) is Ok,
    ensures
        spec_walk_node(join(prefix, cs[k].name@), cs[k].node) is Ok,
    decreases k,
{
    if k > 0 {
        let tail = cs.subrange(1, cs.len() as int);
        assert(tail[k - 1] == cs[k]);
        lemma_children_walk_ok(tail, prefix, k - 1);
    }
}

/// Whatever child `k`'s own walk contributed is among the children's
/// walk output.
pub proof fn lemma_children_walk_contains(cs: Seq<DirChild>, prefix: Seq<u8>, k: int, e: EntryModel)
    requires
        0 <= k < cs.len(),
        spec_walk_children(cs, prefix) is Ok,
        spec_walk_node(join(prefix, cs[k].name@), cs[k].node) is Ok,
        spec_walk_node(join(prefix, cs[k].name@), cs[k].node)->Ok_0.contains(e),
    ensures
        spec_walk_children(cs, prefix)->Ok_0.contains(e),
    decreases k,
{
    let es0 = spec_walk_node(join(prefix, cs[0].name@), cs[0].node)->Ok_0;
    let rest = spec_walk_children(cs.subrange(1, cs.len() as int), prefix)->Ok_0;
    if k == 0 {
        let i = choose|i: int| 0 <= i < es0.len() && es0[i] == e;
        assert((es0 + rest)[i] == e);
    } else {
        let tail = cs.subrange(1, cs.len() as int);
        assert(tail[k - 1] == cs[k]);
        lemma_children_walk_contains(tail, prefix, k - 1, e);
        let i = choose|i: int| 0 <= i < rest.len() && rest[i] == e;
        assert((es0 + rest)[es0.len() + i] == e);
    }
}

/// Directory trees expand in full: a file stored at any depth below a
/// walked child list appears in the walk's output as a file entry at its
/// complete relative path.
pub proof fn lemma_children_find_file(
    cs: Seq<DirChild>,
    prefix: Seq<u8>,
    comps: Seq<Seq<u8>>,
    mode: u64,
    content: Seq<u8>,
)
    requires
        comps.len() >= 1,
        exists|k: int|
            0 <= k < cs.len() && child_leads_to_file(#[trigger] cs[k], comps, mode, content),
        spec_walk_children(cs, prefix) is Ok,
    ensures
        spec_walk_children(cs, prefix)->Ok_0.contains(
            file_entry(join_all(prefix, comps), mode, content),
        ),
    decreases comps.len(),
{
    let k = choose|k: int|
        0 <= k < cs.len() && child_leads_to_file(#[trigger] cs[k], comps, mode, content);
    let child = cs[k];
    let cpath = join(prefix, child.name@);
    let e = file_entry(join_all(prefix, comps), mode, content);
    lemma_children_walk_ok(cs, prefix, k);
    if comps.len() == 1 {
        assert(comps.subrange(1, 1) =~= Seq::<Seq<u8>>::empty());
        assert(join(prefix, comps[0]) == cpath);
        assert(join_all(cpath, Seq::<Seq<u8>>::empty()) == cpath);
        assert(join_all(prefix, comps) == join_all(cpath, comps.subrange(1, comps.len() as int)));
        assert(join_all(prefix, comps) == cpath);
        assert(spec_walk_node(cpath, child.node)->Ok_0[0] == e);
        assert(spec_walk_node(cpath, child.node)->Ok_0.contains(e));
    } else {
        let ccs = child.node->Dir_children@;
        let sub = comps.subrange(1, comps.len() as int);
        assert(join(prefix, comps[0]) == cpath);
        assert(join_all(prefix, comps) == join_all(cpath, sub));
        let es_c = spec_walk_children(ccs, cpath)->Ok_0;
        lemma_children_find_file(ccs, cpath, sub, mode, content);
        let i = choose|i: int| 0 <= i < es_c.len() && es_c[i] == e;
        let dmode = child.node->Dir_mode;
        assert((seq![dir_entry(cpath, dmode)] + es_c)[i + 1] == e);
        assert(spec_walk_node(cpath, child.node)->Ok_0.contains(e));
    }
    lemma_children_walk_contains(cs, prefix, k, e);
}

/// Directory inputs expand recursively: a file stored at any depth under
/// a supplied directory appears, when the build of that input succeeds,
/// among its entries at its directory-relative path.
pub proof fn lemma_dir_input_finds_file(
    inp: PathInput,
    comps: Seq<Seq<u8>>,
    mode: u64,
    content: Seq<u8>,
)
    requires
        tree_has_file(inp.node, comps, mode, content),
        spec_entries_of_input(inp) is Ok,
    ensures
        spec_entries_of_input(inp)->Ok_0.contains(
            file_entry(join_all(Seq::empty(), comps), mode, content),
        ),
{
    lemma_children_find_file(inp.node->Dir_children@, Seq::empty(), comps, mode, content);
}

} // verus!
