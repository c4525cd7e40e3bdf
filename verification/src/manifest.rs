//! The hash manifest: per-model name-to-hash bindings consumed before a
//! download to decide what is already cached, and the merge of the
//! per-file bindings of one model into a single map.

use vstd::prelude::*;

use crate::header::{chars_to_bytes, plain_str};
use crate::layers::{pairs_view, HashedLayer};
use crate::ser::{dec_digits, ser_str};

verus! {

/// One manifest entry: a tensor name, the file it lives in, and the
/// declared content hash of its bytes.
pub struct ManifestEntry {
    pub name: String,
    pub file_name: String,
    pub hash: String,
}

/// The spec-level image of a manifest entry list.
pub open spec fn entries_view(es: Seq<ManifestEntry>) -> Seq<(Seq<char>, Seq<char>, Seq<char>)> {
    es.map_values(|e: ManifestEntry| (e.name@, e.file_name@, e.hash@))
}

/// The name-to-hash pairs of the entries that belong to one file.
pub open spec fn file_pairs(
    es: Seq<(Seq<char>, Seq<char>, Seq<char>)>,
    file: Seq<char>,
) -> Seq<(Seq<char>, Seq<char>)> {
    es.filter(|e: (Seq<char>, Seq<char>, Seq<char>)| e.1 == file).map_values(
        |e: (Seq<char>, Seq<char>, Seq<char>)| (e.0, e.2),
    )
}

/// A pair list matches a filtered entry list pairwise.
pub open spec fn pairs_match_entries(
    ps: Seq<(String, String)>,
    es: Seq<(Seq<char>, Seq<char>, Seq<char>)>,
) -> bool {
    &&& ps.len() == es.len()
    &&& forall|k: int|
        0 <= k < ps.len() ==> (#[trigger] ps[k]).0@ == es[k].0 && ps[k].1@ == es[k].2
}

/// Selects the name-to-hash pairs of the manifest entries that belong to
/// one file, in manifest order.
pub fn manifest_entries_for_file(entries: &Vec<ManifestEntry>, file_name: &String) -> (r: Vec<
    (String, String),
>)
    ensures
        pairs_view(r@) == file_pairs(entries_view(entries@), file_name@),
{
    let ghost ev = entries_view(entries@);
    let ghost pred = |e: (Seq<char>, Seq<char>, Seq<char>)| e.1 == file_name@;
    let mut out: Vec<(String, String)> = Vec::new();
    let mut j: usize = 0;
    proof {
        assert(ev.subrange(0, 0) =~= Seq::<(Seq<char>, Seq<char>, Seq<char>)>::empty());
        reveal(Seq::filter);
    }
    while j < entries.len()
        invariant
            j <= entries@.len(),
            ev == entries_view(entries@),
            pred == (|e: (Seq<char>, Seq<char>, Seq<char>)| e.1 == file_name@),
            pairs_match_entries(out@, ev.subrange(0, j as int).filter(pred)),
        decreases entries@.len() - j,
    {
        let e = &entries[j];
        proof {
            assert(ev[j as int] == (e.name@, e.file_name@, e.hash@));
            assert(ev.subrange(0, j + 1 as int) =~= ev.subrange(0, j as int).push(ev[j as int]));
            assert(ev.subrange(0, j as int).push(ev[j as int]).drop_last() =~= ev.subrange(
                0,
                j as int,
            ));
            reveal(Seq::filter);
        }
        if e.file_name.eq(file_name) {
            out.push((e.name.clone(), e.hash.clone()));
        }
        proof {
            let prefix = ev.subrange(0, j as int);
            assert(ev.subrange(0, j + 1 as int).filter(pred) == if pred(ev[j as int]) {
                prefix.filter(pred).push(ev[j as int])
            } else {
                prefix.filter(pred)
            });
            assert(pairs_match_entries(out@, ev.subrange(0, j + 1 as int).filter(pred)));
        }
        j = j + 1;
    }
    proof {
        assert(ev.subrange(0, ev.len() as int) =~= ev);
        let sel = ev.filter(pred);
        assert(pairs_view(out@) =~= sel.map_values(
            |e: (Seq<char>, Seq<char>, Seq<char>)| (e.0, e.2),
        ));
    }
    out
}

/// The binding of a name in a pair list: the value of its last
/// occurrence.
pub open spec fn assoc_last(kvs: Seq<(Seq<char>, Seq<char>)>, k: Seq<char>) -> Option<Seq<char>>
    decreases kvs.len(),
{
    if kvs.len() == 0 {
        None
    } else if kvs.last().0 == k {
        Some(kvs.last().1)
    } else {
        assoc_last(kvs.drop_last(), k)
    }
}

/// The concatenation of several pair lists, in order.
pub open spec fn concat_pair_lists(files: Seq<Seq<(Seq<char>, Seq<char>)>>) -> Seq<
    (Seq<char>, Seq<char>),
>
    decreases files.len(),
{
    if files.len() == 0 {
        Seq::empty()
    } else {
        concat_pair_lists(files.drop_last()) + files.last()
    }
}

/// The spec-level image of several pair lists.
pub open spec fn per_file_view(files: Seq<Vec<(String, String)>>) -> Seq<
    Seq<(Seq<char>, Seq<char>)>,
> {
    files.map_values(|f: Vec<(String, String)>| pairs_view(f@))
}

/// Flattens several pair lists into one, in order.
fn flatten_pair_lists(files: &Vec<Vec<(String, String)>>) -> (r: Vec<(String, String)>)
    ensures
        pairs_view(r@) == concat_pair_lists(per_file_view(files@)),
{
    let ghost fv = per_file_view(files@);
    let mut out: Vec<(String, String)> = Vec::new();
    let mut i: usize = 0;
    proof {
        assert(fv.subrange(0, 0) =~= Seq::<Seq<(Seq<char>, Seq<char>)>>::empty());
        assert(pairs_view(out@) =~= concat_pair_lists(fv.subrange(0, 0)));
    }
    while i < files.len()
        invariant
            i <= files@.len(),
            fv == per_file_view(files@),
            pairs_view(out@) == concat_pair_lists(fv.subrange(0, i as int)),
        decreases files@.len() - i,
    {
        let file = &files[i];
        proof {
            assert(fv[i as int] == pairs_view(file@));
        }
        let mut j: usize = 0;
        while j < file.len()
            invariant
                j <= file@.len(),
                fv == per_file_view(files@),
                i < files@.len(),
                fv[i as int] == pairs_view(file@),
                pairs_view(out@) == concat_pair_lists(fv.subrange(0, i as int)) + pairs_view(
                    file@,
                ).subrange(0, j as int),
            decreases file@.len() - j,
        {
            let p = &file[j];
            proof {
                assert(pairs_view(file@)[j as int] == (p.0@, p.1@));
            }
            let ghost oldv = pairs_view(out@);
            out.push((p.0.clone(), p.1.clone()));
            proof {
                assert(pairs_view(out@) =~= oldv.push((p.0@, p.1@)));
                assert(pairs_view(file@).subrange(0, j + 1 as int) =~= pairs_view(file@).subrange(
                    0,
                    j as int,
                ).push(pairs_view(file@)[j as int]));
                assert(pairs_view(out@) =~= concat_pair_lists(fv.subrange(0, i as int))
                    + pairs_view(file@).subrange(0, j + 1 as int));
            }
            j = j + 1;
        }
        proof {
            assert(pairs_view(file@).subrange(0, pairs_view(file@).len() as int) =~= pairs_view(
                file@,
            ));
            assert(fv.subrange(0, i + 1 as int).drop_last() =~= fv.subrange(0, i as int));
            assert(fv.subrange(0, i + 1 as int).last() == fv[i as int]);
            assert(concat_pair_lists(fv.subrange(0, i + 1 as int)) == concat_pair_lists(
                fv.subrange(0, i as int),
            ) + fv[i as int]);
        }
        i = i + 1;
    }
    proof {
        assert(fv.subrange(0, fv.len() as int) =~= fv);
    }
    out
}

/// The index of the entry bound to a name, if any.
fn find_name_index(v: &Vec<(String, String)>, name: &String) -> (r: Option<usize>)
    ensures
        match r {
            Some(i) => i < v@.len() && v@[i as int].0@ == name@,
            None => forall|t: int| 0 <= t < v@.len() ==> (#[trigger] v@[t]).0@ != name@,
        },
{
    let mut t: usize = 0;
    while t < v.len()
        invariant
            t <= v@.len(),
            forall|w: int| 0 <= w < t ==> (#[trigger] v@[w]).0@ != name@,
        decreases v@.len() - t,
    {
        if v[t].0.eq(name) {
            return Some(t);
        }
        t = t + 1;
    }
    None
}

/// No two entries share a name.
pub open spec fn names_unique(v: Seq<(String, String)>) -> bool {
    forall|i: int, j: int| 0 <= i < j < v.len() ==> (#[trigger] v[i]).0@ != (#[trigger] v[j]).0@
}

/// Every entry holds the last binding of its name in `man`.
pub open spec fn bindings_last(v: Seq<(String, String)>, man: Seq<(Seq<char>, Seq<char>)>) -> bool {
    forall|t: int|
        0 <= t < v.len() ==> assoc_last(man, (#[trigger] v[t]).0@) == Some(v[t].1@)
}

/// Some entry carries this name.
pub open spec fn contains_name(v: Seq<(String, String)>, n: Seq<char>) -> bool {
    exists|t: int| #![trigger v[t]] 0 <= t < v.len() && v[t].0@ == n
}

/// Every name bound in `man` has an entry.
pub open spec fn covers(man: Seq<(Seq<char>, Seq<char>)>, v: Seq<(String, String)>) -> bool {
    forall|k: Seq<char>|
        #![trigger assoc_last(man, k)]
        assoc_last(man, k) is Some ==> contains_name(v, k)
}

/// No entry carries this name.
pub open spec fn no_name(v: Seq<(String, String)>, n: Seq<char>) -> bool {
    forall|t: int| 0 <= t < v.len() ==> (#[trigger] v[t]).0@ != n
}

/// Every entry of `v` occurs in `w`.
pub open spec fn entries_among(v: Seq<(String, String)>, w: Seq<(String, String)>) -> bool {
    forall|t: int| #![trigger v[t]] 0 <= t < v.len() ==> w.contains(v[t])
}

/// Every name of `w` other than `n` still names an entry of `v`.
pub open spec fn names_kept(
    w: Seq<(String, String)>,
    v: Seq<(String, String)>,
    n: Seq<char>,
) -> bool {
    forall|u: int|
        #![trigger w[u]]
        0 <= u < w.len() && w[u].0@ != n ==> contains_name(v, w[u].0@)
}

/// Every entry list is among itself.
proof fn lemma_entries_among_refl(v: Seq<(String, String)>)
    ensures
        entries_among(v, v),
{
    assert forall|t: int| 0 <= t < v.len() implies v.contains(#[trigger] v[t]) by {
        assert(0 <= t < v.len() && v[t] == v[t]);
    }
}

/// Removing the one entry with a name leaves a list without that name,
/// made of the other entries.
#[verifier::rlimit(100)]
proof fn lemma_remove_entry(oldout: Seq<(String, String)>, gidx: int, n: Seq<char>)
    requires
        0 <= gidx < oldout.len(),
        names_unique(oldout),
        oldout[gidx].0@ == n,
    ensures
        no_name(oldout.remove(gidx), n),
        entries_among(oldout.remove(gidx), oldout),
        names_kept(oldout, oldout.remove(gidx), n),
        names_unique(oldout.remove(gidx)),
{
    let mid = oldout.remove(gidx);
    assert(mid.len() == oldout.len() - 1);
    assert forall|t: int| 0 <= t < mid.len() implies #[trigger] mid[t] == (if t < gidx {
        oldout[t]
    } else {
        oldout[t + 1]
    }) by {}
    assert forall|t: int| 0 <= t < mid.len() implies (#[trigger] mid[t]).0@ != n by {
        if t < gidx {
            assert(mid[t] == oldout[t]);
        } else {
            assert(mid[t] == oldout[t + 1]);
        }
    }
    assert forall|t: int| 0 <= t < mid.len() implies oldout.contains(#[trigger] mid[t]) by {
        if t < gidx {
            assert(oldout[t] == mid[t]);
        } else {
            assert(oldout[t + 1] == mid[t]);
        }
    }
    assert forall|u: int|
        0 <= u < oldout.len() && (#[trigger] oldout[u]).0@ != n implies contains_name(
        mid,
        oldout[u].0@,
    ) by {
        if u < gidx {
            assert(mid[u] == oldout[u]);
        } else {
            assert(u != gidx);
            assert(mid[u - 1] == oldout[u]);
        }
    }
    assert forall|a: int, b: int| 0 <= a < b < mid.len() implies (#[trigger] mid[a]).0@ != (
    #[trigger] mid[b]).0@ by {
        assert(mid[a] == if a < gidx {
            oldout[a]
        } else {
            oldout[a + 1]
        });
        assert(mid[b] == if b < gidx {
            oldout[b]
        } else {
            oldout[b + 1]
        });
    }
}

/// One merge step: replacing the entry of a name with the newest binding
/// keeps the map exact for the extended input.
proof fn lemma_merge_step(
    pref: Seq<(Seq<char>, Seq<char>)>,
    p: (Seq<char>, Seq<char>),
    oldout: Seq<(String, String)>,
    mid: Seq<(String, String)>,
    newv: Seq<(String, String)>,
)
    requires
        names_unique(oldout),
        bindings_last(oldout, pref),
        covers(pref, oldout),
        no_name(mid, p.0),
        entries_among(mid, oldout),
        names_kept(oldout, mid, p.0),
        names_unique(mid),
        newv.len() == mid.len() + 1,
        forall|t: int| 0 <= t < mid.len() ==> #[trigger] newv[t] == mid[t],
        newv.last().0@ == p.0,
        newv.last().1@ == p.1,
    ensures
        names_unique(newv),
        bindings_last(newv, pref.push(p)),
        covers(pref.push(p), newv),
{
    let pref2 = pref.push(p);
    assert(pref2.drop_last() =~= pref);
    assert(pref2.last() == p);
    assert forall|k: Seq<char>| true implies #[trigger] assoc_last(pref2, k) == (if k == p.0 {
        Some(p.1)
    } else {
        assoc_last(pref, k)
    }) by {}
    assert forall|a: int, b: int| 0 <= a < b < newv.len() implies (#[trigger] newv[a]).0@ != (
    #[trigger] newv[b]).0@ by {
        if b == mid.len() {
            assert(newv[a] == mid[a]);
            assert(mid[a].0@ != p.0);
        } else {
            assert(newv[a] == mid[a] && newv[b] == mid[b]);
        }
    }
    assert forall|t: int| 0 <= t < newv.len() implies assoc_last(pref2, (#[trigger] newv[t]).0@)
        == Some(newv[t].1@) by {
        if t == mid.len() {
        } else {
            assert(newv[t] == mid[t]);
            assert(mid[t].0@ != p.0);
            assert(oldout.contains(mid[t]));
            let u = choose|u: int| 0 <= u < oldout.len() && oldout[u] == mid[t];
            assert(assoc_last(pref, oldout[u].0@) == Some(oldout[u].1@));
        }
    }
    assert forall|k: Seq<char>| #[trigger] assoc_last(pref2, k) is Some implies contains_name(
        newv,
        k,
    ) by {
        if k == p.0 {
            assert(newv[mid.len() as int].0@ == k);
        } else {
            assert(assoc_last(pref, k) is Some);
            assert(contains_name(oldout, k));
            let u = choose|t: int| #![trigger oldout[t]] 0 <= t < oldout.len() && oldout[t].0@ == k;
            assert(oldout[u].0@ != p.0);
            assert(contains_name(mid, oldout[u].0@));
            let t0 = choose|t: int| #![trigger mid[t]] 0 <= t < mid.len() && mid[t].0@ == oldout[
                u].0@;
            assert(newv[t0].0@ == k);
        }
    }
}

/// Merges a pair list into a map: one entry per name, each bound to the
/// value of the name's last occurrence.
pub fn merge_pairs(pairs: &Vec<(String, String)>) -> (r: Vec<(String, String)>)
    ensures
        names_unique(r@),
        bindings_last(r@, pairs_view(pairs@)),
        covers(pairs_view(pairs@), r@),
{
    let ghost man = pairs_view(pairs@);
    let mut out: Vec<(String, String)> = Vec::new();
    let mut j: usize = 0;
    proof {
        assert(man.subrange(0, 0) =~= Seq::<(Seq<char>, Seq<char>)>::empty());
    }
    while j < pairs.len()
        invariant
            j <= pairs@.len(),
            man == pairs_view(pairs@),
            names_unique(out@),
            bindings_last(out@, man.subrange(0, j as int)),
            covers(man.subrange(0, j as int), out@),
        decreases pairs@.len() - j,
    {
        let p = &pairs[j];
        let ghost pref = man.subrange(0, j as int);
        let ghost pv = man[j as int];
        proof {
            assert(pv == (p.0@, p.1@));
            assert(man.subrange(0, j + 1 as int) =~= pref.push(pv));
        }
        let ghost oldout = out@;
        match find_name_index(&out, &p.0) {
            Some(idx) => {
                let ghost gidx = idx as int;
                let _ = out.remove(idx);
                proof {
                    assert(out@ == oldout.remove(gidx));
                    lemma_remove_entry(oldout, gidx, pv.0);
                }
            },
            None => {
                proof {
                    assert(no_name(out@, pv.0));
                    lemma_entries_among_refl(out@);
                    assert(entries_among(out@, oldout));
                    assert(names_kept(oldout, out@, pv.0)) by {
                        assert forall|u: int|
                            0 <= u < oldout.len() && (#[trigger] oldout[u]).0@
                                != pv.0 implies contains_name(out@, oldout[u].0@) by {
                            assert(out@[u].0@ == oldout[u].0@);
                        }
                    }
                }
            },
        }
        let ghost mid = out@;
        out.push((p.0.clone(), p.1.clone()));
        proof {
            assert(out@.len() == mid.len() + 1);
            assert(forall|t: int| 0 <= t < mid.len() ==> #[trigger] out@[t] == mid[t]);
            assert(out@.last().0@ == pv.0 && out@.last().1@ == pv.1);
            lemma_merge_step(pref, pv, oldout, mid, out@);
        }
        j = j + 1;
    }
    proof {
        assert(man.subrange(0, man.len() as int) =~= man);
    }
    out
}

/// Gathers one model's tensor-to-hash map from the per-file maps: the
/// per-file bindings merged in order, later files overriding earlier ones,
/// one entry per tensor name.
pub fn get_model_hashes_by_model_id(per_file_hashes: &Vec<Vec<(String, String)>>) -> (r: Vec<
    (String, String),
>)
    ensures
        names_unique(r@),
        bindings_last(r@, concat_pair_lists(per_file_view(per_file_hashes@))),
        covers(concat_pair_lists(per_file_view(per_file_hashes@)), r@),
{
    let flat = flatten_pair_lists(per_file_hashes);
    merge_pairs(&flat)
}

} // verus!

verus! {

/// The JSON object recorded for one hashed layer of a file.
pub open spec fn ser_hash_record(hl: HashedLayer, file: Seq<char>) -> Seq<u8> {
    chars_to_bytes("{\"data_offsets\":["@) + dec_digits(hl.offset_start as nat) + seq![44u8]
        + dec_digits(hl.offset_end as nat) + chars_to_bytes("],\"hash\":"@) + ser_str(hl.hash@)
        + chars_to_bytes(",\"size\":"@) + dec_digits(hl.size as nat) + chars_to_bytes(
        ",\"file_name\":"@,
    ) + ser_str(file) + seq![125u8]
}

/// The serialized first `j` hash records, with separating commas; each
/// record names the file its layer was fetched from.
pub open spec fn ser_hash_prefix(rs: Seq<(HashedLayer, String)>, j: int) -> Seq<u8>
    decreases j,
{
    if j <= 0 {
        Seq::<u8>::empty()
    } else if j == 1 {
        ser_str(rs[0].0.name@) + seq![58u8] + ser_hash_record(rs[0].0, rs[0].1@)
    } else {
        ser_hash_prefix(rs, j - 1) + seq![44u8] + ser_str(rs[j - 1].0.name@) + seq![58u8]
            + ser_hash_record(rs[j - 1].0, rs[j - 1].1@)
    }
}

/// The hash results document of a model: one object keyed by tensor name.
pub open spec fn ser_hash_results(rs: Seq<(HashedLayer, String)>) -> Seq<u8> {
    seq![123u8] + ser_hash_prefix(rs, rs.len() as int) + seq![125u8]
}

/// Appends the JSON object of one hashed layer.
fn append_hash_record(out: &mut Vec<u8>, hl: &HashedLayer, file: &str)
    requires
        plain_str(hl.hash@),
        plain_str(file@),
    ensures
        final(out)@ == old(out)@ + ser_hash_record(*hl, file@),
{
    proof {
        reveal_strlit("{\"data_offsets\":[");
        reveal_strlit("],\"hash\":");
        reveal_strlit(",\"size\":");
        reveal_strlit(",\"file_name\":");
        assert(("{\"data_offsets\":[").is_ascii());
        assert(("],\"hash\":").is_ascii());
        assert((",\"size\":").is_ascii());
        assert((",\"file_name\":").is_ascii());
    }
    crate::ser::append_ascii(out, "{\"data_offsets\":[");
    crate::ser::append_u64_dec(out, hl.offset_start);
    out.push(44u8);
    crate::ser::append_u64_dec(out, hl.offset_end);
    crate::ser::append_ascii(out, "],\"hash\":");
    crate::ser::append_json_str(out, hl.hash.as_str());
    crate::ser::append_ascii(out, ",\"size\":");
    crate::ser::append_u64_dec(out, hl.size);
    crate::ser::append_ascii(out, ",\"file_name\":");
    crate::ser::append_json_str(out, file);
    out.push(125u8);
    assert(out@ =~= old(out)@ + ser_hash_record(*hl, file@));
}

/// Serializes the hash results of a model: a JSON object keyed by tensor
/// name, each value holding the layer's byte range, content hash, size and
/// the name of the file it was fetched from. Succeeds exactly when every
/// name, hash and file name holds only plain characters.
pub fn hash_results_bytes(records: &Vec<(HashedLayer, String)>) -> (r: Option<Vec<u8>>)
    ensures
        match r {
            Some(out) => {
                &&& forall|i: int|
                    0 <= i < records@.len() ==> plain_str((#[trigger] records@[i]).0.name@)
                        && plain_str(records@[i].0.hash@) && plain_str(records@[i].1@)
                &&& out@ == ser_hash_results(records@)
            },
            None => !(forall|i: int|
                0 <= i < records@.len() ==> plain_str((#[trigger] records@[i]).0.name@)
                    && plain_str(records@[i].0.hash@) && plain_str(records@[i].1@)),
        },
{
    let mut t: usize = 0;
    while t < records.len()
        invariant
            t <= records@.len(),
            forall|i: int|
                0 <= i < t ==> plain_str((#[trigger] records@[i]).0.name@) && plain_str(
                    records@[i].0.hash@,
                ) && plain_str(records@[i].1@),
        decreases records@.len() - t,
    {
        if !crate::header::str_is_plain(records[t].0.name.as_str()) {
            return None;
        }
        if !crate::header::str_is_plain(records[t].0.hash.as_str()) {
            return None;
        }
        if !crate::header::str_is_plain(records[t].1.as_str()) {
            return None;
        }
        t = t + 1;
    }
    let mut out: Vec<u8> = Vec::new();
    out.push(123u8);
    let mut j: usize = 0;
    while j < records.len()
        invariant
            j <= records@.len(),
            forall|i: int|
                0 <= i < records@.len() ==> plain_str((#[trigger] records@[i]).0.name@)
                    && plain_str(records@[i].0.hash@) && plain_str(records@[i].1@),
            out@ == seq![123u8] + ser_hash_prefix(records@, j as int),
        decreases records@.len() - j,
    {
        if j > 0 {
            out.push(44u8);
        }
        let hl = &records[j].0;
        crate::ser::append_json_str(&mut out, hl.name.as_str());
        out.push(58u8);
        append_hash_record(&mut out, hl, records[j].1.as_str());
        proof {
            assert(out@ =~= seq![123u8] + ser_hash_prefix(records@, j + 1 as int));
        }
        j = j + 1;
    }
    out.push(125u8);
    proof {
        assert(out@ =~= ser_hash_results(records@));
    }
    Some(out)
}

} // verus!
