//! The layer scheduler: turns a parsed header and an optional name
//! allow-list into downloadable layer descriptors, orders them largest
//! first, and decides which layers still need a fetch. The parallel
//! dispatch itself happens outside the library; this module fixes exactly
//! what is dispatched and what is done with each completed fetch.

use vstd::multiset::Multiset;
use vstd::prelude::*;

use crate::cache::sha256_hex;
use crate::errors::FetchError;
use crate::header::{ContainerHeader, TensorMetaV};

verus! {

/// The downloadable unit derived from one tensor: its name and the byte
/// range it occupies in the data region.
pub struct Layer {
    pub name: String,
    pub offset_start: u64,
    pub offset_end: u64,
    pub size: u64,
}

/// Whether a name passes an optional allow-list.
pub open spec fn allowed(allow: Option<Seq<Seq<char>>>, n: Seq<char>) -> bool {
    match allow {
        Some(a) => a.contains(n),
        None => true,
    }
}

/// The tensor entries selected by an optional allow-list, in header order.
pub open spec fn selected_entries(
    ts: Seq<(Seq<char>, TensorMetaV)>,
    allow: Option<Seq<Seq<char>>>,
) -> Seq<(Seq<char>, TensorMetaV)> {
    ts.filter(|e: (Seq<char>, TensorMetaV)| allowed(allow, e.0))
}

/// The spec-level image of an optional allow-list.
pub open spec fn allow_view(a: Option<&Vec<String>>) -> Option<Seq<Seq<char>>> {
    match a {
        Some(v) => Some(v@.map_values(|s: String| s@)),
        None => None,
    }
}

/// A layer list matches a tensor entry list entry for entry.
pub open spec fn layers_match(ls: Seq<Layer>, ts: Seq<(Seq<char>, TensorMetaV)>) -> bool {
    &&& ls.len() == ts.len()
    &&& forall|i: int|
        0 <= i < ls.len() ==> {
            &&& (#[trigger] ls[i]).name@ == ts[i].0
            &&& ls[i].offset_start == ts[i].1.offset_start
            &&& ls[i].offset_end == ts[i].1.offset_end
            &&& ls[i].size == ts[i].1.offset_end - ts[i].1.offset_start
        }
}

/// Whether a string list holds a string.
fn string_list_contains(v: &Vec<String>, s: &String) -> (r: bool)
    ensures
        r == v@.map_values(|x: String| x@).contains(s@),
{
    crate::cache::is_cached(s, v)
}

/// Builds the candidate layer list from a header: the tensors passing the
/// allow-list, in header order, each with its byte range and size.
pub fn build_layers(h: &ContainerHeader, allow: Option<&Vec<String>>) -> (r: Vec<Layer>)
    requires
        h@.wf(),
    ensures
        layers_match(r@, selected_entries(h@.tensors, allow_view(allow))),
{
    let ghost av = allow_view(allow);
    let ghost ts = h@.tensors;
    let ghost pred = |e: (Seq<char>, TensorMetaV)| allowed(av, e.0);
    let mut out: Vec<Layer> = Vec::new();
    let mut j: usize = 0;
    proof {
        assert(ts.subrange(0, 0) =~= Seq::<(Seq<char>, TensorMetaV)>::empty());
    }
    while j < h.tensors.len()
        invariant
            j <= h.tensors@.len(),
            ts == h@.tensors,
            av == allow_view(allow),
            h@.wf(),
            layers_match(out@, ts.subrange(0, j as int).filter(pred)),
            pred == (|e: (Seq<char>, TensorMetaV)| allowed(av, e.0)),
        decreases h.tensors@.len() - j,
    {
        let pair = &h.tensors[j];
        proof {
            assert(ts[j as int] == (pair.0@, pair.1@));
            assert(ts[j as int].1.wf());
            assert(ts.subrange(0, j + 1 as int) =~= ts.subrange(0, j as int).push(ts[j as int]));
            assert(ts.subrange(0, j as int).push(ts[j as int]).drop_last() =~= ts.subrange(
                0,
                j as int,
            ));
            reveal(Seq::filter);
        }
        let take = match allow {
            Some(list) => string_list_contains(list, &pair.0),
            None => true,
        };
        proof {
            assert(take == pred(ts[j as int]));
        }
        if take {
            let layer = Layer {
                name: pair.0.clone(),
                offset_start: pair.1.offset_start,
                offset_end: pair.1.offset_end,
                size: pair.1.offset_end - pair.1.offset_start,
            };
            out.push(layer);
        }
        proof {
            let prefix = ts.subrange(0, j as int);
            assert(ts.subrange(0, j + 1 as int).filter(pred) == if pred(ts[j as int]) {
                prefix.filter(pred).push(ts[j as int])
            } else {
                prefix.filter(pred)
            });
            assert(layers_match(out@, ts.subrange(0, j + 1 as int).filter(pred)));
        }
        j = j + 1;
    }
    proof {
        assert(ts.subrange(0, ts.len() as int) =~= ts);
    }
    out
}

/// Sorts layers by descending size, keeping the relative order of layers
/// of equal size; the result holds exactly the given layers.
pub fn sort_layers_by_size_desc(layers: Vec<Layer>) -> (r: Vec<Layer>)
    ensures
        r@.to_multiset() == layers@.to_multiset(),
        r@.len() == layers@.len(),
        forall|i: int, j: int| 0 <= i < j < r@.len() ==> (#[trigger] r@[i]).size >= (
        #[trigger] r@[j]).size,
{
    broadcast use vstd::seq_lib::group_to_multiset_ensures;
    broadcast use vstd::multiset::group_multiset_axioms;

    let mut work = layers;
    let mut out: Vec<Layer> = Vec::new();
    proof {
        assert(out@.to_multiset().add(work@.to_multiset()) =~= work@.to_multiset());
    }
    while work.len() > 0
        invariant
            out@.to_multiset().add(work@.to_multiset()) == layers@.to_multiset(),
            out@.len() + work@.len() == layers@.len(),
            forall|i: int, j: int| 0 <= i < j < out@.len() ==> (#[trigger] out@[i]).size >= (
            #[trigger] out@[j]).size,
            forall|i: int, j: int|
                0 <= i < out@.len() && 0 <= j < work@.len() ==> (#[trigger] out@[i]).size >= (
                #[trigger] work@[j]).size,
        decreases work@.len(),
    {
        let mut m: usize = 0;
        let mut t: usize = 1;
        while t < work.len()
            invariant
                m < t <= work@.len(),
                work@.len() > 0,
                forall|w: int| 0 <= w < t ==> (#[trigger] work@[w]).size <= work@[m as int].size,
            decreases work@.len() - t,
        {
            if work[t].size > work[m].size {
                m = t;
            }
            t = t + 1;
        }
        let ghost oldwork = work@;
        let ghost oldout = out@;
        let x = work.remove(m);
        proof {
            assert(x == oldwork[m as int]);
            assert(oldwork.contains(x));
            vstd::seq_lib::to_multiset_contains(oldwork, x);
            assert(oldwork.to_multiset().count(x) > 0);
            assert(work@ == oldwork.remove(m as int));
            vstd::seq_lib::to_multiset_remove(oldwork, m as int);
        }
        out.push(x);
        proof {
            assert(out@ =~= oldout.push(x));
            vstd::seq_lib::to_multiset_build(oldout, x);
            assert(out@.to_multiset() == oldout.to_multiset().insert(x));
            assert(out@.to_multiset().add(work@.to_multiset()) =~= oldout.to_multiset().add(
                oldwork.to_multiset(),
            ));
            assert forall|i: int, j: int|
                0 <= i < out@.len() && 0 <= j < work@.len() implies (#[trigger] out@[i]).size >= (
            #[trigger] work@[j]).size by {
                assert(work@[j] == if j < m { oldwork[j] } else { oldwork[j + 1] });
                if i < oldout.len() {
                    assert(out@[i] == oldout[i]);
                } else {
                    assert(out@[i] == x);
                }
            }
        }
    }
    proof {
        assert(work@.to_multiset() =~= Multiset::<Layer>::empty());
        assert(out@.to_multiset().add(Multiset::<Layer>::empty()) =~= out@.to_multiset());
    }
    out
}

/// The names of the manifest entries whose hashes are not yet available.
pub open spec fn pending_names(
    man: Seq<(Seq<char>, Seq<char>)>,
    avail: Seq<Seq<char>>,
) -> Seq<Seq<char>> {
    man.filter(|e: (Seq<char>, Seq<char>)| !avail.contains(e.1)).map_values(
        |e: (Seq<char>, Seq<char>)| e.0,
    )
}

/// The spec-level image of a name-to-hash pair list.
pub open spec fn pairs_view(man: Seq<(String, String)>) -> Seq<(Seq<char>, Seq<char>)> {
    man.map_values(|e: (String, String)| (e.0@, e.1@))
}

/// A name list matches a pair list key for key.
pub open spec fn names_match(ns: Seq<String>, es: Seq<(Seq<char>, Seq<char>)>) -> bool {
    &&& ns.len() == es.len()
    &&& forall|k: int| 0 <= k < ns.len() ==> (#[trigger] ns[k])@ == es[k].0
}

/// Plans the downloads for a manifest: the names whose declared hashes are
/// not in the locally available set, in manifest order. Entries whose
/// hashes are already available are never fetched again.
pub fn plan_layer_downloads(manifest: &Vec<(String, String)>, available: &Vec<String>) -> (r: Vec<
    String,
>)
    ensures
        r@.map_values(|s: String| s@) == pending_names(
            pairs_view(manifest@),
            available@.map_values(|s: String| s@),
        ),
{
    let ghost man = pairs_view(manifest@);
    let ghost av = available@.map_values(|s: String| s@);
    let ghost pred = |e: (Seq<char>, Seq<char>)| !av.contains(e.1);
    let mut out: Vec<String> = Vec::new();
    let mut j: usize = 0;
    proof {
        assert(man.subrange(0, 0) =~= Seq::<(Seq<char>, Seq<char>)>::empty());
        reveal(Seq::filter);
    }
    while j < manifest.len()
        invariant
            j <= manifest@.len(),
            man == pairs_view(manifest@),
            av == available@.map_values(|s: String| s@),
            pred == (|e: (Seq<char>, Seq<char>)| !av.contains(e.1)),
            names_match(out@, man.subrange(0, j as int).filter(pred)),
        decreases manifest@.len() - j,
    {
        let pair = &manifest[j];
        proof {
            assert(man[j as int] == (pair.0@, pair.1@));
            assert(man.subrange(0, j + 1 as int) =~= man.subrange(0, j as int).push(man[j as int]));
            assert(man.subrange(0, j as int).push(man[j as int]).drop_last() =~= man.subrange(
                0,
                j as int,
            ));
            reveal(Seq::filter);
        }
        let cached = crate::cache::is_cached(&pair.1, available);
        if !cached {
            out.push(pair.0.clone());
        }
        proof {
            let prefix = man.subrange(0, j as int);
            assert(man.subrange(0, j + 1 as int).filter(pred) == if pred(man[j as int]) {
                prefix.filter(pred).push(man[j as int])
            } else {
                prefix.filter(pred)
            });
            assert(names_match(out@, man.subrange(0, j + 1 as int).filter(pred)));
        }
        j = j + 1;
    }
    proof {
        assert(man.subrange(0, man.len() as int) =~= man);
        let sel = man.filter(pred);
        assert(out@.map_values(|s: String| s@) =~= sel.map_values(
            |e: (Seq<char>, Seq<char>)| e.0,
        ));
    }
    out
}

/// Idempotence of the scheduler: over a manifest whose hashes are all
/// already available, no downloads are planned at all.
pub proof fn lemma_scheduler_idempotent(man: Seq<(Seq<char>, Seq<char>)>, avail: Seq<Seq<char>>)
    requires
        forall|i: int| 0 <= i < man.len() ==> avail.contains((#[trigger] man[i]).1),
    ensures
        pending_names(man, avail).len() == 0,
    decreases man.len(),
{
    reveal(Seq::filter);
    if man.len() > 0 {
        assert(man.drop_last() =~= man.subrange(0, man.len() - 1));
        assert(forall|i: int|
            0 <= i < man.drop_last().len() ==> #[trigger] man.drop_last()[i] == man[i]);
        lemma_scheduler_idempotent(man.drop_last(), avail);
        assert(man.last() == man[man.len() - 1]);
        assert(avail.contains(man.last().1));
    }
}

/// One completed fetch of a layer, hashed and sized.
pub struct HashedLayer {
    pub name: String,
    pub offset_start: u64,
    pub offset_end: u64,
    pub size: u64,
    pub hash: String,
}

/// Checks and hashes the bytes fetched for a layer. Succeeds exactly when
/// the byte count equals the layer's size; a short or long read is a
/// truncation error, never a silent success.
pub fn process_fetched_layer(layer: &Layer, bytes: &Vec<u8>) -> (r: Result<HashedLayer, FetchError>)
    ensures
        match r {
            Ok(hl) => {
                &&& bytes@.len() == layer.size
                &&& hl.name@ == layer.name@
                &&& hl.offset_start == layer.offset_start
                &&& hl.offset_end == layer.offset_end
                &&& hl.size == layer.size
                &&& hl.hash@ == sha256_hex(bytes@)
            },
            Err(e) => bytes@.len() != layer.size && (e matches FetchError::TruncatedFetch {
                expected,
                got,
            } && expected == layer.size && got == bytes@.len()),
        },
{
    let got = bytes.len() as u64;
    if got != layer.size {
        return Err(FetchError::TruncatedFetch { expected: layer.size, got });
    }
    let hash = crate::cache::sha256_hash(bytes.as_slice());
    Ok(
        HashedLayer {
            name: layer.name.clone(),
            offset_start: layer.offset_start,
            offset_end: layer.offset_end,
            size: layer.size,
            hash,
        },
    )
}

} // verus!

verus! {

/// Chooses the layers one file's download batch must fetch. With no
/// manifest the hashes are unknown and every tensor is fetched; with one,
/// only the tensors whose declared hashes are not yet available, always in
/// header order.
pub fn select_layers_to_fetch(
    h: &ContainerHeader,
    manifest: &Vec<(String, String)>,
    available: &Vec<String>,
) -> (r: Vec<Layer>)
    requires
        h@.wf(),
    ensures
        manifest@.len() == 0 ==> layers_match(r@, selected_entries(h@.tensors, None)),
        manifest@.len() > 0 ==> layers_match(
            r@,
            selected_entries(
                h@.tensors,
                Some(pending_names(pairs_view(manifest@), available@.map_values(|s: String| s@))),
            ),
        ),
{
    if manifest.len() == 0 {
        build_layers(h, None)
    } else {
        let names = plan_layer_downloads(manifest, available);
        let r = build_layers(h, Some(&names));
        proof {
            assert(allow_view(Some(&names)) == Some(
                pending_names(pairs_view(manifest@), available@.map_values(|s: String| s@)),
            ));
        }
        r
    }
}

} // verus!
