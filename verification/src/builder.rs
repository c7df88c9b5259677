//! The archive builder: validates each supplied path, walks directories,
//! and encodes everything into one complete archive stream.

use vstd::prelude::*;

use crate::codec::{encode_entries, lemma_decode_encode, spec_decode, spec_encode};
use crate::entry::{ArchiveEntry, EntryKind, EntryModel, models_of, valid_entry};
use crate::fstree::{
    BuildError, BuildErrorModel, FsNode, PathInput, copy_bytes, is_absolute, spec_entries_of_input,
    walk_children,
};

verus! {

/// Prepends already-gathered entries to a build result that is still
/// pending.
pub open spec fn res_prepend(pre: Seq<EntryModel>, r: Result<Seq<EntryModel>, BuildErrorModel>) -> Result<
    Seq<EntryModel>,
    BuildErrorModel,
> {
    match r {
        Ok(t) => Ok(pre + t),
        Err(e) => Err(e),
    }
}

/// The entries of a whole build: each input's entries in input order, or
/// the first failure, which aborts everything after it.
pub open spec fn spec_build_entries(inputs: Seq<PathInput>) -> Result<
    Seq<EntryModel>,
    BuildErrorModel,
>
    decreases inputs.len(),
{
    if inputs.len() == 0 {
        Ok(Seq::empty())
    } else {
        match spec_entries_of_input(inputs[0]) {
            Err(e) => Err(e),
            Ok(es) => match spec_build_entries(inputs.subrange(1, inputs.len() as int)) {
                Err(e) => Err(e),
                Ok(rest) => Ok(es + rest),
            },
        }
    }
}

/// Appends the entries one input contributes, after validating it.
fn append_input(inp: &PathInput, out: &mut Vec<ArchiveEntry>) -> (r: Result<(), BuildError>)
    ensures
        match spec_entries_of_input(*inp) {
            Ok(es) => r is Ok && models_of(final(out)@) == models_of(old(out)@) + es,
            Err(em) => r is Err && r->Err_0@ == em,
        },
{
    if inp.path.len() > 0 && inp.path[0] == 47u8 {
        return Err(
            BuildError::UnsupportedPath {
                path: copy_bytes(&inp.path),
                reason: crate::fstree::PathReason::Absolute,
            },
        );
    }
    match &inp.node {
        FsNode::Symlink => Err(
            BuildError::UnsupportedPath {
                path: copy_bytes(&inp.path),
                reason: crate::fstree::PathReason::Symlink,
            },
        ),
        FsNode::Missing => Err(BuildError::NotFound { path: copy_bytes(&inp.path) }),
        FsNode::Other => Err(BuildError::NotFound { path: copy_bytes(&inp.path) }),
        FsNode::Unreadable { cause } => Err(
            BuildError::FileOpen { path: copy_bytes(&inp.path), cause: copy_bytes(cause) },
        ),
        FsNode::File { mode, content } => {
            let entry = ArchiveEntry {
                kind: EntryKind::File,
                path: copy_bytes(&inp.path),
                mode: *mode,
                content: copy_bytes(content),
            };
            let ghost em = entry@;
            out.push(entry);
            proof {
                assert(models_of(out@) =~= models_of(old(out)@) + seq![em]);
                assert(seq![em] =~= spec_entries_of_input(*inp)->Ok_0);
            }
            Ok(())
        },
        FsNode::Dir { mode, children } => {
            let empty_prefix: Vec<u8> = Vec::new();
            let r = walk_children(children, 0, &empty_prefix, out);
            proof {
                let cs = (inp.node)->Dir_children@;
                assert(cs.subrange(0, cs.len() as int) =~= cs);
            }
            r
        },
    }
}

/// Builds the archive stream for the supplied paths, in input order.
///
/// Succeeds exactly when every input validates and walks cleanly, and
/// then returns the complete encoding of the gathered entries — a stream
/// that decodes back to exactly those entries. On the first failing input
/// the whole build aborts with that failure and returns no bytes at all.
pub fn build_archive(inputs: &Vec<PathInput>) -> (r: Result<Vec<u8>, BuildError>)
    ensures
        match spec_build_entries(inputs@) {
            Ok(es) => r is Ok && r->Ok_0@ == spec_encode(es) && spec_decode(r->Ok_0@) == Some(es),
            Err(em) => r is Err && r->Err_0@ == em,
        },
{
    let mut entries: Vec<ArchiveEntry> = Vec::new();
    let mut i: usize = 0;
    proof {
        assert(inputs@.subrange(0, inputs@.len() as int) =~= inputs@);
        assert(models_of(entries@) =~= Seq::<EntryModel>::empty());
        match spec_build_entries(inputs@) {
            Ok(es) => {
                assert(models_of(entries@) + es =~= es);
            },
            Err(e) => {},
        }
    }
    while i < inputs.len()
        invariant
            i <= inputs@.len(),
            spec_build_entries(inputs@) == res_prepend(
                models_of(entries@),
                spec_build_entries(inputs@.subrange(i as int, inputs@.len() as int)),
            ),
        decreases inputs@.len() - i,
    {
        let ghost suf = inputs@.subrange(i as int, inputs@.len() as int);
        let ghost pre = models_of(entries@);
        proof {
            assert(suf[0] == inputs@[i as int]);
            assert(suf.subrange(1, suf.len() as int) =~= inputs@.subrange(
                i as int + 1,
                inputs@.len() as int,
            ));
        }
        let r = append_input(&inputs[i], &mut entries);
        match r {
            Err(e) => {
                return Err(e);
            },
            Ok(u) => {
                proof {
                    let es0 = spec_entries_of_input(inputs@[i as int])->Ok_0;
                    match spec_build_entries(
                        inputs@.subrange(i as int + 1, inputs@.len() as int),
                    ) {
                        Ok(t) => {
                            assert(pre + (es0 + t) =~= (pre + es0) + t);
                        },
                        Err(e) => {},
                    }
                }
            },
        }
        i = i + 1;
    }
    proof {
        assert(inputs@.subrange(i as int, inputs@.len() as int) =~= Seq::<PathInput>::empty());
        let ms = models_of(entries@);
        assert(ms + Seq::<EntryModel>::empty() =~= ms);
        assert(spec_build_entries(inputs@) == Ok::<Seq<EntryModel>, BuildErrorModel>(ms));
    }
    let bytes = encode_entries(&entries);
    proof {
        let ms = models_of(entries@);
        assert forall|k: int| 0 <= k < ms.len() implies valid_entry(#[trigger] ms[k]) by {
            let e = entries@[k];
            assert(e.path@.len() == e.path.len());
            assert(e.content@.len() == e.content.len());
        }
        lemma_decode_encode(ms);
    }
    Ok(bytes)
}

/// Round trip of the pipeline: the archive built from inputs that all
/// validate and walk cleanly decodes back to exactly those inputs'
/// entries — the same relative paths, permission bits and contents the
/// walk gathered. The length bound holds of every entry an executable
/// build gathers, since its paths and contents live in vectors.
pub proof fn lemma_build_extract_round_trip(inputs: Seq<PathInput>)
    requires
        spec_build_entries(inputs) is Ok,
        forall|i: int|
            0 <= i < spec_build_entries(inputs)->Ok_0.len() ==> valid_entry(
                #[trigger] spec_build_entries(inputs)->Ok_0[i],
            ),
    ensures
        spec_decode(spec_encode(spec_build_entries(inputs)->Ok_0)) == Some(
            spec_build_entries(inputs)->Ok_0,
        ),
{
    lemma_decode_encode(spec_build_entries(inputs)->Ok_0);
}

/// A build never gets past an absolute path: if any supplied path is
/// absolute, the whole build fails and the sink receives no archive.
pub proof fn lemma_absolute_path_aborts(inputs: Seq<PathInput>, i: int)
    requires
        0 <= i < inputs.len(),
        is_absolute(inputs[i].path@),
    ensures
        spec_build_entries(inputs) is Err,
    decreases inputs.len(),
{
    if i > 0 {
        if spec_entries_of_input(inputs[0]) is Ok {
            lemma_absolute_path_aborts(inputs.subrange(1, inputs.len() as int), i - 1);
        }
    }
}

/// A build never gets past a path that is a symbolic link: if any
/// supplied path resolves to one, the whole build fails.
pub proof fn lemma_symlink_aborts(inputs: Seq<PathInput>, i: int)
    requires
        0 <= i < inputs.len(),
        inputs[i].node is Symlink,
    ensures
        spec_build_entries(inputs) is Err,
    decreases inputs.len(),
{
    if i > 0 {
        if spec_entries_of_input(inputs[0]) is Ok {
            lemma_symlink_aborts(inputs.subrange(1, inputs.len() as int), i - 1);
        }
    }
}

/// Failures surface in input order: when every input before `i`
/// contributes its entries and input `i` fails, the build reports exactly
/// input `i`'s failure — no later input is reached out of order.
pub proof fn lemma_first_failure_reported(inputs: Seq<PathInput>, i: int)
    requires
        0 <= i < inputs.len(),
        forall|j: int| 0 <= j < i ==> spec_entries_of_input(#[trigger] inputs[j]) is Ok,
        spec_entries_of_input(inputs[i]) is Err,
    ensures
        spec_build_entries(inputs) == Err::<Seq<EntryModel>, BuildErrorModel>(
            spec_entries_of_input(inputs[i])->Err_0,
        ),
    decreases inputs.len(),
{
    if i > 0 {
        let rest = inputs.subrange(1, inputs.len() as int);
        assert forall|j: int| 0 <= j < i - 1 implies spec_entries_of_input(
            #[trigger] rest[j],
        ) is Ok by {
            assert(rest[j] == inputs[j + 1]);
        }
        assert(rest[i - 1] == inputs[i]);
        lemma_first_failure_reported(rest, i - 1);
    }
}

} // verus!
