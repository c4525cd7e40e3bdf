//! Model metadata as plain values: what a model listing reports about a
//! model and its files, and the selection of container files among them.

use vstd::prelude::*;
use vstd::string::StringSliceAdditionalSpecFns;

verus! {

/// A file belonging to a model, as the model listing reports it.
pub struct Sibling {
    pub rfilename: String,
}

/// What the model listing reports about a model.
pub struct ModelInfo {
    pub id: String,
    pub author: Option<String>,
    pub sha: Option<String>,
    pub private: bool,
    pub disabled: Option<bool>,
    pub downloads: i32,
    pub likes: i32,
    pub library_name: Option<String>,
    pub tags: Vec<String>,
    pub pipeline_tag: Option<String>,
    pub siblings: Vec<Sibling>,
}

/// What the file listing reports about one file.
pub struct FileInfo {
    pub path: String,
    pub size: i64,
    pub blob_id: String,
}

/// Whether a byte sequence ends in a given suffix.
pub open spec fn ends_with_bytes(s: Seq<u8>, suffix: Seq<u8>) -> bool {
    s.len() >= suffix.len() && s.subrange(s.len() - suffix.len(), s.len() as int) == suffix
}

/// Whether a file name ends in the container file extension.
pub fn is_container_file_name(name: &str) -> (r: bool)
    ensures
        r == ends_with_bytes(name.spec_bytes(), crate::header::chars_to_bytes(".safetensors"@)),
{
    proof {
        reveal_strlit(".safetensors");
        assert((".safetensors").is_ascii());
        vstd::string::is_ascii_spec_bytes(".safetensors");
        assert((".safetensors").spec_bytes() =~= crate::header::chars_to_bytes(".safetensors"@));
    }
    let suffix = vstd::string::StrSliceExecFns::as_bytes_vec(".safetensors");
    let nb = name.as_bytes();
    if nb.len() < suffix.len() {
        return false;
    }
    let start = nb.len() - suffix.len();
    let mut t: usize = 0;
    while t < suffix.len()
        invariant
            t <= suffix@.len(),
            suffix@ == crate::header::chars_to_bytes(".safetensors"@),
            nb@ == name.spec_bytes(),
            nb@.len() <= usize::MAX,
            start + suffix@.len() == nb@.len(),
            forall|w: int| 0 <= w < t ==> nb@[start + w] == suffix@[w],
        decreases suffix@.len() - t,
    {
        if nb[start + t] != suffix[t] {
            proof {
                assert(nb@.subrange(start as int, nb@.len() as int)[t as int] != suffix@[t as int]);
            }
            return false;
        }
        t = t + 1;
    }
    proof {
        assert(nb@.subrange(start as int, nb@.len() as int) =~= suffix@);
    }
    true
}

/// The file names ending in the container extension, in listing order.
pub open spec fn container_file_names(names: Seq<Seq<char>>) -> Seq<Seq<char>> {
    names.filter(
        |n: Seq<char>|
            ends_with_bytes(
                vstd::utf8::encode_utf8(n),
                crate::header::chars_to_bytes(".safetensors"@),
            ),
    )
}

/// Selects the file names ending in the container extension, in listing
/// order.
pub fn safetensors_file_names(names: &Vec<String>) -> (r: Vec<String>)
    ensures
        r@.map_values(|s: String| s@) == container_file_names(names@.map_values(|s: String| s@)),
{
    let ghost nv = names@.map_values(|s: String| s@);
    let ghost pred = |n: Seq<char>|
        ends_with_bytes(
            vstd::utf8::encode_utf8(n),
            crate::header::chars_to_bytes(".safetensors"@),
        );
    let mut out: Vec<String> = Vec::new();
    let mut j: usize = 0;
    proof {
        assert(nv.subrange(0, 0) =~= Seq::<Seq<char>>::empty());
        assert(out@.map_values(|s: String| s@) =~= nv.subrange(0, 0).filter(pred));
        reveal(Seq::filter);
    }
    while j < names.len()
        invariant
            j <= names@.len(),
            nv == names@.map_values(|s: String| s@),
            pred == (|n: Seq<char>|
                ends_with_bytes(
                    vstd::utf8::encode_utf8(n),
                    crate::header::chars_to_bytes(".safetensors"@),
                )),
            out@.map_values(|s: String| s@) == nv.subrange(0, j as int).filter(pred),
        decreases names@.len() - j,
    {
        let name = &names[j];
        proof {
            assert(nv[j as int] == name@);
            assert(nv.subrange(0, j + 1 as int) =~= nv.subrange(0, j as int).push(nv[j as int]));
            assert(nv.subrange(0, j as int).push(nv[j as int]).drop_last() =~= nv.subrange(
                0,
                j as int,
            ));
            reveal(Seq::filter);
        }
        let ns = name.as_str();
        proof {
            assert(ns.spec_bytes() == vstd::utf8::encode_utf8(name@));
        }
        let ghost oldmapped = out@.map_values(|s: String| s@);
        if is_container_file_name(ns) {
            out.push(name.clone());
            proof {
                assert(out@.map_values(|s: String| s@) =~= oldmapped.push(name@));
            }
        }
        proof {
            let prefix = nv.subrange(0, j as int);
            assert(nv.subrange(0, j + 1 as int).filter(pred) == if pred(nv[j as int]) {
                prefix.filter(pred).push(nv[j as int])
            } else {
                prefix.filter(pred)
            });
        }
        j = j + 1;
    }
    proof {
        assert(nv.subrange(0, nv.len() as int) =~= nv);
    }
    out
}

} // verus!
