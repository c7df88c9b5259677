//! The wire format of the archive stream and its encoder.
//!
//! An archive stream is the concatenation of encoded entries followed by a
//! one-byte trailer. Each entry is laid out as
//! `[tag][path len: u64 le][path][mode: u64 le][content len: u64 le][content]`
//! with tag `1` for a file and `2` for a directory; the trailer is the
//! single byte `0`. Decoding is the exact inverse of encoding.

use vstd::prelude::*;

use crate::entry::{ArchiveEntry, EntryKind, EntryModel, models_of, valid_entry};

verus! {

/// The tag byte that opens the encoding of an entry of the given kind.
pub open spec fn tag_of(k: EntryKind) -> u8 {
    match k {
        EntryKind::File => 1u8,
        EntryKind::Dir => 2u8,
    }
}

/// The eight little-endian bytes of a 64-bit integer.
pub open spec fn u64_le(n: u64) -> Seq<u8> {
    seq![
        (n & 0xff) as u8,
        ((n >> 8) & 0xff) as u8,
        ((n >> 16) & 0xff) as u8,
        ((n >> 24) & 0xff) as u8,
        ((n >> 32) & 0xff) as u8,
        ((n >> 40) & 0xff) as u8,
        ((n >> 48) & 0xff) as u8,
        ((n >> 56) & 0xff) as u8,
    ]
}

/// The 64-bit integer read from eight little-endian bytes.
pub open spec fn u64_from_le(s: Seq<u8>) -> u64
    recommends
        s.len() == 8,
{
    ((s[0] as u64) | ((s[1] as u64) << 8) | ((s[2] as u64) << 16) | ((s[3] as u64) << 24)
        | ((s[4] as u64) << 32) | ((s[5] as u64) << 40) | ((s[6] as u64) << 48)
        | ((s[7] as u64) << 56)) as u64
}

/// Reading back the little-endian bytes of `n` yields `n`.
pub proof fn lemma_u64_le_round_trip(n: u64)
    ensures
        u64_from_le(u64_le(n)) == n,
{
    let s = u64_le(n);
    assert(s[0] == (n & 0xff) as u8);
    assert(s[1] == ((n >> 8) & 0xff) as u8);
    assert(s[2] == ((n >> 16) & 0xff) as u8);
    assert(s[3] == ((n >> 24) & 0xff) as u8);
    assert(s[4] == ((n >> 32) & 0xff) as u8);
    assert(s[5] == ((n >> 40) & 0xff) as u8);
    assert(s[6] == ((n >> 48) & 0xff) as u8);
    assert(s[7] == ((n >> 56) & 0xff) as u8);
    assert((((n & 0xff) as u8 as u64) | (((n >> 8) & 0xff) as u8 as u64) << 8
        | (((n >> 16) & 0xff) as u8 as u64) << 16 | (((n >> 24) & 0xff) as u8 as u64) << 24
        | (((n >> 32) & 0xff) as u8 as u64) << 32 | (((n >> 40) & 0xff) as u8 as u64) << 40
        | (((n >> 48) & 0xff) as u8 as u64) << 48 | (((n >> 56) & 0xff) as u8 as u64) << 56) as u64
        == n) by (bit_vector);
}

/// The encoding of one entry.
pub open spec fn spec_encode_entry(e: EntryModel) -> Seq<u8> {
    seq![tag_of(e.kind)] + u64_le(e.path.len() as u64) + e.path + u64_le(e.mode) + u64_le(
        e.content.len() as u64,
    ) + e.content
}

/// The encoding of a whole entry sequence: each entry in order, then the
/// trailer byte.
pub open spec fn spec_encode(es: Seq<EntryModel>) -> Seq<u8>
    decreases es.len(),
{
    if es.len() == 0 {
        seq![0u8]
    } else {
        spec_encode_entry(es[0]) + spec_encode(es.subrange(1, es.len() as int))
    }
}

/// The exact inverse of `spec_encode`: `Some(entries)` when the bytes are
/// one well-formed archive stream ending at its trailer, `None` on a
/// truncated stream, an unknown tag, or bytes past the trailer.
pub open spec fn spec_decode(s: Seq<u8>) -> Option<Seq<EntryModel>>
    decreases s.len(),
{
    if s.len() == 0 {
        None
    } else if s[0] == 0u8 {
        if s.len() == 1 {
            Some(Seq::empty())
        } else {
            None
        }
    } else if s[0] == 1u8 || s[0] == 2u8 {
        if s.len() < 25 {
            None
        } else {
            let plen = u64_from_le(s.subrange(1, 9)) as int;
            if s.len() < 25 + plen {
                None
            } else {
                let clen = u64_from_le(s.subrange(17 + plen, 25 + plen)) as int;
                if s.len() < 25 + plen + clen {
                    None
                } else {
                    let e = EntryModel {
                        kind: if s[0] == 1u8 {
                            EntryKind::File
                        } else {
                            EntryKind::Dir
                        },
                        path: s.subrange(9, 9 + plen),
                        mode: u64_from_le(s.subrange(9 + plen, 17 + plen)),
                        content: s.subrange(25 + plen, 25 + plen + clen),
                    };
                    match spec_decode(s.subrange(25 + plen + clen, s.len() as int)) {
                        Some(rest) => Some(seq![e] + rest),
                        None => None,
                    }
                }
            }
        }
    } else {
        None
    }
}

/// An encoded stream is never empty: it holds at least the trailer.
pub proof fn lemma_encode_len(es: Seq<EntryModel>)
    ensures
        spec_encode(es).len() >= 1,
    decreases es.len(),
{
    if es.len() > 0 {
        lemma_encode_len(es.subrange(1, es.len() as int));
    }
}

/// Decoding one encoded entry prepended to a non-empty tail parses
/// exactly that entry and continues with the tail.
#[verifier::rlimit(100)]
pub proof fn lemma_decode_step(e: EntryModel, tl: Seq<u8>)
    requires
        valid_entry(e),
        tl.len() >= 1,
    ensures
        spec_decode(spec_encode_entry(e) + tl) == match spec_decode(tl) {
            Some(r) => Some(seq![e] + r),
            None => None::<Seq<EntryModel>>,
        },
{
    let he = spec_encode_entry(e);
    let s = he + tl;
    let plen = e.path.len() as int;
    let clen = e.content.len() as int;
    lemma_u64_le_round_trip(e.path.len() as u64);
    lemma_u64_le_round_trip(e.mode);
    lemma_u64_le_round_trip(e.content.len() as u64);
    assert(he.len() == 25 + plen + clen);
    assert(s.len() == 25 + plen + clen + tl.len());
    assert(s[0] == tag_of(e.kind));
    assert(s.subrange(1, 9) =~= u64_le(e.path.len() as u64));
    assert(s.subrange(9, 9 + plen) =~= e.path);
    assert(s.subrange(9 + plen, 17 + plen) =~= u64_le(e.mode));
    assert(s.subrange(17 + plen, 25 + plen) =~= u64_le(e.content.len() as u64));
    assert(s.subrange(25 + plen, 25 + plen + clen) =~= e.content);
    assert(s.subrange(25 + plen + clen, s.len() as int) =~= tl);
    assert(u64_from_le(s.subrange(1, 9)) as int == plen);
    assert(u64_from_le(s.subrange(17 + plen, 25 + plen)) as int == clen);
    let d = EntryModel {
        kind: if s[0] == 1u8 {
            EntryKind::File
        } else {
            EntryKind::Dir
        },
        path: s.subrange(9, 9 + plen),
        mode: u64_from_le(s.subrange(9 + plen, 17 + plen)),
        content: s.subrange(25 + plen, 25 + plen + clen),
    };
    assert(d =~= e);
}

/// Round trip of the codec: decoding an encoded entry sequence yields
/// exactly that sequence, whenever every entry's lengths fit the wire
/// format's length fields.
pub proof fn lemma_decode_encode(es: Seq<EntryModel>)
    requires
        forall|i: int| 0 <= i < es.len() ==> valid_entry(#[trigger] es[i]),
    ensures
        spec_decode(spec_encode(es)) == Some(es),
    decreases es.len(),
{
    if es.len() == 0 {
        assert(spec_encode(es) == seq![0u8]);
        assert(spec_decode(seq![0u8]) == Some(Seq::<EntryModel>::empty()));
        assert(Seq::<EntryModel>::empty() =~= es);
    } else {
        let e = es[0];
        let rest = es.subrange(1, es.len() as int);
        lemma_decode_encode(rest);
        lemma_encode_len(rest);
        lemma_decode_step(e, spec_encode(rest));
        assert(seq![e] + rest =~= es);
    }
}

/// Appends the eight little-endian bytes of `n`.
pub fn push_u64_le(out: &mut Vec<u8>, n: u64)
    ensures
        final(out)@ == old(out)@ + u64_le(n),
{
    out.push((n & 0xff) as u8);
    out.push(((n >> 8) & 0xff) as u8);
    out.push(((n >> 16) & 0xff) as u8);
    out.push(((n >> 24) & 0xff) as u8);
    out.push(((n >> 32) & 0xff) as u8);
    out.push(((n >> 40) & 0xff) as u8);
    out.push(((n >> 48) & 0xff) as u8);
    out.push(((n >> 56) & 0xff) as u8);
    assert(out@ =~= old(out)@ + u64_le(n));
}

/// Reads the 64-bit little-endian integer at `off`.
pub fn read_u64_le(s: &Vec<u8>, off: usize) -> (r: u64)
    requires
        off + 8 <= s@.len(),
    ensures
        r == u64_from_le(s@.subrange(off as int, off as int + 8)),
{
    proof {
        assert(s@.len() == s.len());
    }
    let r = (s[off] as u64) | ((s[off + 1] as u64) << 8) | ((s[off + 2] as u64) << 16) | ((s[off
        + 3] as u64) << 24) | ((s[off + 4] as u64) << 32) | ((s[off + 5] as u64) << 40) | ((s[off
        + 6] as u64) << 48) | ((s[off + 7] as u64) << 56);
    proof {
        let sub = s@.subrange(off as int, off as int + 8);
        assert(forall|k: int| 0 <= k < 8 ==> #[trigger] sub[k] == s@[off + k]);
    }
    r
}

/// Appends all of `src`.
pub fn push_bytes(out: &mut Vec<u8>, src: &Vec<u8>)
    ensures
        final(out)@ == old(out)@ + src@,
{
    let mut i: usize = 0;
    while i < src.len()
        invariant
            i <= src@.len(),
            out@ == old(out)@ + src@.subrange(0, i as int),
        decreases src@.len() - i,
    {
        out.push(src[i]);
        assert(out@ =~= old(out)@ + src@.subrange(0, i as int + 1));
        i = i + 1;
    }
    assert(out@ =~= old(out)@ + src@);
}

/// Copies the bytes of `src` in `start .. end` into a fresh vector.
pub fn copy_range(src: &Vec<u8>, start: usize, end: usize) -> (r: Vec<u8>)
    requires
        start <= end <= src@.len(),
    ensures
        r@ == src@.subrange(start as int, end as int),
{
    let mut r: Vec<u8> = Vec::new();
    let mut i: usize = start;
    while i < end
        invariant
            start <= i <= end <= src@.len(),
            r@ == src@.subrange(start as int, i as int),
        decreases end - i,
    {
        r.push(src[i]);
        assert(r@ =~= src@.subrange(start as int, i as int + 1));
        i = i + 1;
    }
    r
}

/// Encodes the entries, in order, into one complete archive stream:
/// every entry's wire image followed by the trailer byte.
pub fn encode_entries(entries: &Vec<ArchiveEntry>) -> (r: Vec<u8>)
    ensures
        r@ == spec_encode(models_of(entries@)),
{
    let ghost ms = models_of(entries@);
    let mut out: Vec<u8> = Vec::new();
    let mut i: usize = 0;
    proof {
        assert(ms.subrange(0, ms.len() as int) =~= ms);
        assert(out@ + spec_encode(ms) =~= spec_encode(ms));
    }
    while i < entries.len()
        invariant
            i <= entries@.len(),
            ms == models_of(entries@),
            ms.len() == entries@.len(),
            spec_encode(ms) == out@ + spec_encode(ms.subrange(i as int, ms.len() as int)),
        decreases entries@.len() - i,
    {
        let ghost out0 = out@;
        let ghost suf = ms.subrange(i as int, ms.len() as int);
        let e = &entries[i];
        proof {
            assert(suf[0] == ms[i as int]);
            assert(suf.subrange(1, suf.len() as int) =~= ms.subrange(
                i as int + 1,
                ms.len() as int,
            ));
            assert(spec_encode(suf) == spec_encode_entry(ms[i as int]) + spec_encode(
                ms.subrange(i as int + 1, ms.len() as int),
            ));
            assert(ms[i as int] == e@);
        }
        match e.kind {
            EntryKind::File => out.push(1u8),
            EntryKind::Dir => out.push(2u8),
        }
        push_u64_le(&mut out, e.path.len() as u64);
        push_bytes(&mut out, &e.path);
        push_u64_le(&mut out, e.mode);
        push_u64_le(&mut out, e.content.len() as u64);
        push_bytes(&mut out, &e.content);
        proof {
            assert(out@ =~= out0 + spec_encode_entry(e@));
        }
        i = i + 1;
    }
    out.push(0u8);
    proof {
        assert(ms.subrange(i as int, ms.len() as int) =~= Seq::<EntryModel>::empty());
        assert(spec_encode(Seq::<EntryModel>::empty()) == seq![0u8]);
        assert(out@ =~= spec_encode(ms));
    }
    out
}

} // verus!
