//! The archive extractor: turns a received byte stream back into the
//! ordered entry sequence it encodes.
//!
//! The caller materializes the returned entries under its destination
//! root, in order: a directory entry becomes a directory, a file entry a
//! file with the carried content and permission bits. Extraction is a pure
//! function of the stream, so two runs over the same bytes yield the same
//! entries.

use vstd::prelude::*;

use crate::codec::{copy_range, read_u64_le, spec_decode};
use crate::entry::{ArchiveEntry, EntryKind, EntryModel, models_of};

verus! {

/// Why a stream failed to extract.
#[derive(Clone, Copy, PartialEq, Eq, Structural, Debug)]
pub enum ExtractError {
    /// The stream ended before a complete entry and trailer were read.
    Truncated,
    /// An entry opened with a tag byte the format does not define.
    BadTag,
    /// Bytes followed the trailer.
    TrailingData,
}

/// Prepends `pre` to a decode result that is still pending.
pub open spec fn opt_prepend(pre: Seq<EntryModel>, o: Option<Seq<EntryModel>>) -> Option<
    Seq<EntryModel>,
> {
    match o {
        Some(t) => Some(pre + t),
        None => None,
    }
}

/// Decodes a complete archive stream into its entries, in stream order.
/// Succeeds exactly on the well-formed streams: every well-formed stream
/// yields `Ok` with precisely the entries it encodes, and every truncated,
/// ill-tagged, or over-long stream yields `Err`.
#[verifier::rlimit(100)]
pub fn extract(stream: &Vec<u8>) -> (r: Result<Vec<ArchiveEntry>, ExtractError>)
    ensures
        match r {
            Ok(es) => spec_decode(stream@) == Some(models_of(es@)),
            Err(_) => spec_decode(stream@) is None,
        },
{
    let n = stream.len();
    let mut pos: usize = 0;
    let mut acc: Vec<ArchiveEntry> = Vec::new();
    proof {
        assert(stream@.subrange(0, stream@.len() as int) =~= stream@);
        assert(models_of(acc@) =~= Seq::<EntryModel>::empty());
        if spec_decode(stream@) is Some {
            assert(models_of(acc@) + spec_decode(stream@)->Some_0 =~= spec_decode(
                stream@,
            )->Some_0);
        }
    }
    loop
        invariant
            pos <= n == stream@.len(),
            spec_decode(stream@) == opt_prepend(
                models_of(acc@),
                spec_decode(stream@.subrange(pos as int, stream@.len() as int)),
            ),
        decreases stream@.len() - pos,
    {
        let ghost suf = stream@.subrange(pos as int, stream@.len() as int);
        if pos >= n {
            assert(suf.len() == 0);
            return Err(ExtractError::Truncated);
        }
        let tag = stream[pos];
        assert(suf[0] == tag);
        if tag == 0 {
            if pos + 1 == n {
                proof {
                    assert(spec_decode(suf) == Some(Seq::<EntryModel>::empty()));
                    assert(models_of(acc@) + Seq::<EntryModel>::empty() =~= models_of(acc@));
                }
                return Ok(acc);
            }
            return Err(ExtractError::TrailingData);
        }
        if tag != 1 && tag != 2 {
            return Err(ExtractError::BadTag);
        }
        let remaining = n - pos;
        if remaining < 25 {
            return Err(ExtractError::Truncated);
        }
        let plen64 = read_u64_le(stream, pos + 1);
        proof {
            assert(suf.subrange(1, 9) =~= stream@.subrange(pos as int + 1, pos as int + 9));
        }
        if plen64 > (remaining - 25) as u64 {
            return Err(ExtractError::Truncated);
        }
        let plen = plen64 as usize;
        let path = copy_range(stream, pos + 9, pos + 9 + plen);
        let mode = read_u64_le(stream, pos + 9 + plen);
        let clen64 = read_u64_le(stream, pos + 17 + plen);
        proof {
            assert(suf.subrange(9, 9 + plen as int) =~= stream@.subrange(
                pos as int + 9,
                pos as int + 9 + plen as int,
            ));
            assert(suf.subrange(9 + plen as int, 17 + plen as int) =~= stream@.subrange(
                pos as int + 9 + plen as int,
                pos as int + 17 + plen as int,
            ));
            assert(suf.subrange(17 + plen as int, 25 + plen as int) =~= stream@.subrange(
                pos as int + 17 + plen as int,
                pos as int + 25 + plen as int,
            ));
        }
        if clen64 > (remaining - 25 - plen) as u64 {
            return Err(ExtractError::Truncated);
        }
        let clen = clen64 as usize;
        let content = copy_range(stream, pos + 25 + plen, pos + 25 + plen + clen);
        let entry = ArchiveEntry {
            kind: if tag == 1 {
                EntryKind::File
            } else {
                EntryKind::Dir
            },
            path,
            mode,
            content,
        };
        proof {
            let plen_i = plen as int;
            let clen_i = clen as int;
            assert(suf.subrange(25 + plen_i, 25 + plen_i + clen_i) =~= stream@.subrange(
                pos as int + 25 + plen_i,
                pos as int + 25 + plen_i + clen_i,
            ));
            let next = suf.subrange(25 + plen_i + clen_i, suf.len() as int);
            assert(next =~= stream@.subrange(
                pos as int + 25 + plen_i + clen_i,
                stream@.len() as int,
            ));
            let d = EntryModel {
                kind: if suf[0] == 1u8 {
                    EntryKind::File
                } else {
                    EntryKind::Dir
                },
                path: suf.subrange(9, 9 + plen_i),
                mode: u64_from_le_at(suf, 9 + plen_i),
                content: suf.subrange(25 + plen_i, 25 + plen_i + clen_i),
            };
            assert(d =~= entry@);
            assert(spec_decode(suf) == opt_prepend(seq![entry@], spec_decode(next)));
            assert(models_of(acc@.push(entry)) =~= models_of(acc@) + seq![entry@]);
            match spec_decode(next) {
                Some(t) => {
                    assert(models_of(acc@) + (seq![entry@] + t) =~= (models_of(acc@) + seq![
                        entry@,
                    ]) + t);
                },
                None => {},
            }
        }
        acc.push(entry);
        pos = pos + 25 + plen + clen;
    }
}

/// The 64-bit little-endian integer found at offset `at` of `s`.
pub open spec fn u64_from_le_at(s: Seq<u8>, at: int) -> u64 {
    crate::codec::u64_from_le(s.subrange(at, at + 8))
}

} // verus!
