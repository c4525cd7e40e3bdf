//! The reassembler: builds one byte-exact container from a header and the
//! stored tensor blobs, entirely in memory. On any failure it returns an
//! error and no bytes at all, so a caller can never leave a partial
//! container behind: it writes the returned buffer only on success.

use vstd::prelude::*;

use crate::errors::ExportError;
use crate::header::{ContainerHeader, HeaderV, TensorMetaV};
use crate::ser::{padded_body, spec_ser_header};

verus! {

/// The tensor ranges tile the data region in header order: the first
/// starts at zero and each next starts where the previous ends.
pub open spec fn contiguous(ts: Seq<(Seq<char>, TensorMetaV)>) -> bool {
    &&& (ts.len() > 0 ==> ts[0].1.offset_start == 0)
    &&& forall|i: int|
        0 <= i < ts.len() - 1 ==> (#[trigger] ts[i + 1]).1.offset_start == ts[i].1.offset_end
}

/// The number of bytes of the data region: the last tensor's end offset.
pub open spec fn data_len(ts: Seq<(Seq<char>, TensorMetaV)>) -> int {
    if ts.len() == 0 {
        0
    } else {
        ts.last().1.offset_end as int
    }
}

/// The spec-level image of a named blob list.
pub open spec fn blobs_view(bs: Seq<(String, Vec<u8>)>) -> Seq<(Seq<char>, Seq<u8>)> {
    bs.map_values(|b: (String, Vec<u8>)| (b.0@, b.1@))
}

/// The first blob stored under a name, scanning from `i`.
pub open spec fn blob_lookup_from(bs: Seq<(Seq<char>, Seq<u8>)>, name: Seq<char>, i: int) -> Option<
    Seq<u8>,
>
    decreases bs.len() - i,
{
    if i < 0 || i >= bs.len() {
        None
    } else if bs[i].0 == name {
        Some(bs[i].1)
    } else {
        blob_lookup_from(bs, name, i + 1)
    }
}

/// The first blob stored under a name.
pub open spec fn blob_lookup(bs: Seq<(Seq<char>, Seq<u8>)>, name: Seq<char>) -> Option<Seq<u8>> {
    blob_lookup_from(bs, name, 0)
}

/// Finds the first blob stored under a name.
fn find_blob<'a>(blobs: &'a Vec<(String, Vec<u8>)>, name: &String) -> (r: Option<&'a Vec<u8>>)
    ensures
        match r {
            Some(b) => blob_lookup(blobs_view(blobs@), name@) == Some(b@),
            None => blob_lookup(blobs_view(blobs@), name@) is None,
        },
{
    let ghost bv = blobs_view(blobs@);
    let mut t: usize = 0;
    while t < blobs.len()
        invariant
            t <= blobs@.len(),
            bv == blobs_view(blobs@),
            blob_lookup_from(bv, name@, 0) == blob_lookup_from(bv, name@, t as int),
        decreases blobs@.len() - t,
    {
        proof {
            assert(bv[t as int] == (blobs@[t as int].0@, blobs@[t as int].1@));
        }
        if blobs[t].0.eq(name) {
            return Some(&blobs[t].1);
        }
        t = t + 1;
    }
    None
}

/// Whether every tensor's blob is present with exactly the tensor's size.
pub open spec fn blobs_complete(h: HeaderV, bs: Seq<(Seq<char>, Seq<u8>)>) -> bool {
    forall|i: int|
        0 <= i < h.tensors.len() ==> {
            &&& blob_lookup(bs, (#[trigger] h.tensors[i]).0) is Some
            &&& blob_lookup(bs, h.tensors[i].0)->Some_0.len() == h.tensors[i].1.offset_end
                - h.tensors[i].1.offset_start
        }
}

/// Reassembles a container from a header and the stored blobs.
///
/// Succeeds exactly when the header's ranges tile the data region and
/// every tensor's blob is stored with its exact size; then the output is
/// the serialized header followed by the data region, and the byte span of
/// every tensor equals its stored blob. On any failure no bytes are
/// produced, so no partial container can be written from this result.
pub fn assemble_container(h: &ContainerHeader, blobs: &Vec<(String, Vec<u8>)>) -> (r: Result<
    Vec<u8>,
    ExportError,
>)
    requires
        h@.wf(),
    ensures
        match r {
            Ok(out) => {
                &&& contiguous(h@.tensors)
                &&& blobs_complete(h@, blobs_view(blobs@))
                &&& out@.len() == 8 + padded_body(h@).len() + data_len(h@.tensors)
                &&& out@.subrange(0, 8 + padded_body(h@).len() as int) == spec_ser_header(h@)
                &&& forall|i: int|
                    0 <= i < h@.tensors.len() ==> out@.subrange(
                        8 + padded_body(h@).len() + (#[trigger] h@.tensors[i]).1.offset_start,
                        8 + padded_body(h@).len() + h@.tensors[i].1.offset_end,
                    ) == blob_lookup(blobs_view(blobs@), h@.tensors[i].0)->Some_0
            },
            Err(e) => {
                &&& !(contiguous(h@.tensors) && blobs_complete(h@, blobs_view(blobs@)))
                &&& match e {
                    ExportError::BadLayout { name } => !contiguous(h@.tensors),
                    ExportError::MissingBlob { name } => exists|i: int|
                        0 <= i < h@.tensors.len() && (#[trigger] h@.tensors[i]).0 == name@
                            && blob_lookup(blobs_view(blobs@), h@.tensors[i].0) is None,
                    ExportError::WrongSizeBlob { name } => exists|i: int|
                        0 <= i < h@.tensors.len() && (#[trigger] h@.tensors[i]).0 == name@
                            && blob_lookup(blobs_view(blobs@), h@.tensors[i].0) is Some
                            && blob_lookup(blobs_view(blobs@), h@.tensors[i].0)->Some_0.len()
                            != h@.tensors[i].1.offset_end - h@.tensors[i].1.offset_start,
                }
            },
        },
{
    let ghost ts = h@.tensors;
    let ghost bv = blobs_view(blobs@);
    // Validate that the ranges tile the data region.
    let mut j: usize = 0;
    while j < h.tensors.len()
        invariant
            j <= h.tensors@.len(),
            ts == h@.tensors,
            h@.wf(),
            j > 0 ==> ts[0].1.offset_start == 0,
            forall|i: int|
                0 <= i < j - 1 ==> (#[trigger] ts[i + 1]).1.offset_start == ts[i].1.offset_end,
        decreases h.tensors@.len() - j,
    {
        let pair = &h.tensors[j];
        proof {
            assert(ts[j as int] == (pair.0@, pair.1@));
        }
        if j == 0 {
            if pair.1.offset_start != 0 {
                proof {
                    assert(!contiguous(ts));
                }
                return Err(ExportError::BadLayout { name: pair.0.clone() });
            }
        } else {
            let prev = &h.tensors[j - 1];
            proof {
                assert(ts[j - 1 as int] == (prev.0@, prev.1@));
            }
            if pair.1.offset_start != prev.1.offset_end {
                proof {
                    assert(ts[(j - 1) + 1 as int].1.offset_start != ts[
                        j - 1 as int].1.offset_end);
                    assert(!contiguous(ts));
                }
                return Err(ExportError::BadLayout { name: pair.0.clone() });
            }
        }
        j = j + 1;
    }
    proof {
        assert(contiguous(ts));
    }
    // Serialized header first, then each tensor's blob in header order.
    let mut out = crate::ser::serialize_header(h);
    let ghost head = spec_ser_header(h@);
    let ghost base = 8 + padded_body(h@).len() as int;
    proof {
        vstd::bytes::lemma_auto_spec_u64_to_from_le_bytes();
        assert(head.len() == base);
        assert(out@.subrange(0, base) =~= head);
    }
    let mut k: usize = 0;
    while k < h.tensors.len()
        invariant
            k <= h.tensors@.len(),
            ts == h@.tensors,
            bv == blobs_view(blobs@),
            h@.wf(),
            contiguous(ts),
            base == 8 + padded_body(h@).len() as int,
            head == spec_ser_header(h@),
            out@.len() == base + (if k == 0 {
                0int
            } else {
                ts[k - 1 as int].1.offset_end as int
            }),
            out@.subrange(0, base) == head,
            forall|i: int|
                0 <= i < k ==> {
                    &&& blob_lookup(bv, (#[trigger] ts[i]).0) is Some
                    &&& blob_lookup(bv, ts[i].0)->Some_0.len() == ts[i].1.offset_end
                        - ts[i].1.offset_start
                    &&& out@.subrange(base + ts[i].1.offset_start, base + ts[i].1.offset_end)
                        == blob_lookup(bv, ts[i].0)->Some_0
                },
        decreases h.tensors@.len() - k,
    {
        let pair = &h.tensors[k];
        proof {
            assert(ts[k as int] == (pair.0@, pair.1@));
            assert(ts[k as int].1.wf());
            if k > 0 {
                assert(ts[(k - 1) + 1 as int].1.offset_start == ts[k - 1 as int].1.offset_end);
            }
        }
        let blob = match find_blob(blobs, &pair.0) {
            Some(b) => b,
            None => {
                return Err(ExportError::MissingBlob { name: pair.0.clone() });
            },
        };
        let size = pair.1.offset_end - pair.1.offset_start;
        if (blob.len() as u64) != size {
            return Err(ExportError::WrongSizeBlob { name: pair.0.clone() });
        }
        let ghost oldout = out@;
        crate::ser::append_bytes(&mut out, blob.as_slice());
        proof {
            assert(out@ == oldout + blob@);
            assert(out@.subrange(0, base) =~= head);
            assert(oldout.len() == base + ts[k as int].1.offset_start);
            assert(out@.subrange(base + ts[k as int].1.offset_start, base + ts[
                k as int].1.offset_end) =~= blob@);
            assert forall|i: int|
                0 <= i < k implies out@.subrange(
                base + (#[trigger] ts[i]).1.offset_start,
                base + ts[i].1.offset_end,
            ) == blob_lookup(bv, ts[i].0)->Some_0 by {
                assert(ts[i].1.offset_end <= ts[k as int].1.offset_start) by {
                    lemma_contiguous_monotone(ts, i, k as int);
                }
                assert(out@.subrange(base + ts[i].1.offset_start, base + ts[i].1.offset_end)
                    =~= oldout.subrange(base + ts[i].1.offset_start, base + ts[i].1.offset_end));
            }
        }
        k = k + 1;
    }
    proof {
        assert(out@.len() == base + data_len(ts));
        assert(blobs_complete(h@, bv));
    }
    Ok(out)
}

/// In a contiguous layout, earlier tensors end at or before later tensors
/// start.
pub proof fn lemma_contiguous_monotone(ts: Seq<(Seq<char>, TensorMetaV)>, i: int, k: int)
    requires
        contiguous(ts),
        forall|t: int| 0 <= t < ts.len() ==> (#[trigger] ts[t]).1.wf(),
        0 <= i < k < ts.len(),
    ensures
        ts[i].1.offset_end <= ts[k].1.offset_start,
    decreases k - i,
{
    assert(ts[(k - 1) + 1].1.offset_start == ts[k - 1].1.offset_end);
    if i < k - 1 {
        lemma_contiguous_monotone(ts, i, k - 1);
        assert(ts[k - 1].1.offset_start <= ts[k - 1].1.offset_end);
    }
}

} // verus!
