//! The container header model: an ordered map from tensor name to tensor
//! metadata, plus an optional free-form string metadata block.
//!
//! Offsets are relative to the start of the data region that follows the
//! serialized header; the format requires `offset_start <= offset_end`.

use vstd::prelude::*;

verus! {

/// Metadata of one tensor: its element type, its shape, and the half-open
/// byte range `[offset_start, offset_end)` it occupies in the data region.
pub struct TensorMeta {
    pub dtype: String,
    pub shape: Vec<u64>,
    pub offset_start: u64,
    pub offset_end: u64,
}

/// A parsed container header.
///
/// `tensors` keeps the order of the serialized header; names are unique and
/// never the reserved metadata key. `metadata` holds the optional free-form
/// string map stored under the reserved key.
pub struct ContainerHeader {
    pub metadata: Option<Vec<(String, String)>>,
    pub tensors: Vec<(String, TensorMeta)>,
}

/// Spec-level image of a `TensorMeta`.
#[verifier::ext_equal]
pub struct TensorMetaV {
    pub dtype: Seq<char>,
    pub shape: Seq<u64>,
    pub offset_start: u64,
    pub offset_end: u64,
}

/// Spec-level image of a `ContainerHeader`.
#[verifier::ext_equal]
pub struct HeaderV {
    pub metadata: Option<Seq<(Seq<char>, Seq<char>)>>,
    pub tensors: Seq<(Seq<char>, TensorMetaV)>,
}

/// Spec-level image of a metadata pair list.
pub open spec fn meta_pairs_view(kvs: Seq<(String, String)>) -> Seq<(Seq<char>, Seq<char>)> {
    kvs.map_values(|kv: (String, String)| (kv.0@, kv.1@))
}

/// Spec-level image of a tensor entry list.
pub open spec fn tensor_entries_view(ts: Seq<(String, TensorMeta)>) -> Seq<
    (Seq<char>, TensorMetaV),
> {
    ts.map_values(|nt: (String, TensorMeta)| (nt.0@, nt.1@))
}

impl View for TensorMeta {
    type V = TensorMetaV;

    open spec fn view(&self) -> TensorMetaV {
        TensorMetaV {
            dtype: self.dtype@,
            shape: self.shape@,
            offset_start: self.offset_start,
            offset_end: self.offset_end,
        }
    }
}

impl View for ContainerHeader {
    type V = HeaderV;

    open spec fn view(&self) -> HeaderV {
        HeaderV {
            metadata: match self.metadata {
                Some(kvs) => Some(meta_pairs_view(kvs@)),
                None => None,
            },
            tensors: tensor_entries_view(self.tensors@),
        }
    }
}

/// A character the codec stores without escaping: printable ASCII except
/// the quotation mark and the backslash.
pub open spec fn plain_char(c: char) -> bool {
    0x20 <= c as int <= 0x7e && c != '"' && c != '\\'
}

/// A string of plain characters only.
pub open spec fn plain_str(s: Seq<char>) -> bool {
    forall|i: int| 0 <= i < s.len() ==> plain_char(#[trigger] s[i])
}

/// The reserved key that holds the free-form metadata block.
pub open spec fn metadata_key() -> Seq<char> {
    "__metadata__"@
}

impl TensorMetaV {
    /// Well-formed tensor metadata: a plain dtype string and an ordered
    /// byte range.
    pub open spec fn wf(self) -> bool {
        &&& plain_str(self.dtype)
        &&& self.offset_start <= self.offset_end
    }

    /// Number of data bytes the tensor occupies.
    pub open spec fn size(self) -> int {
        self.offset_end - self.offset_start
    }
}

/// Well-formed metadata pair list: plain strings and unique keys.
pub open spec fn meta_pairs_wf(kvs: Seq<(Seq<char>, Seq<char>)>) -> bool {
    &&& forall|i: int|
        0 <= i < kvs.len() ==> plain_str((#[trigger] kvs[i]).0) && plain_str(kvs[i].1)
    &&& forall|i: int, j: int|
        0 <= i < j < kvs.len() ==> (#[trigger] kvs[i]).0 != (#[trigger] kvs[j]).0
}

/// Well-formed tensor entry list: plain unique names, none the reserved
/// key, and well-formed tensor metadata.
pub open spec fn tensor_entries_wf(ts: Seq<(Seq<char>, TensorMetaV)>) -> bool {
    &&& forall|i: int| 0 <= i < ts.len() ==> (#[trigger] ts[i]).1.wf()
    &&& forall|i: int|
        0 <= i < ts.len() ==> plain_str((#[trigger] ts[i]).0) && (ts[i]).0 != metadata_key()
    &&& forall|i: int, j: int|
        0 <= i < j < ts.len() ==> (#[trigger] ts[i]).0 != (#[trigger] ts[j]).0
}

impl HeaderV {
    /// Well-formed header: plain unique tensor names, none the reserved
    /// key, well-formed tensor metadata, and plain unique metadata keys.
    pub open spec fn wf(self) -> bool {
        &&& tensor_entries_wf(self.tensors)
        &&& match self.metadata {
            Some(kvs) => meta_pairs_wf(kvs),
            None => true,
        }
    }
}

/// The bytes of an all-plain (hence ASCII) character sequence.
pub open spec fn chars_to_bytes(s: Seq<char>) -> Seq<u8> {
    Seq::new(s.len(), |i: int| s[i] as u8)
}

/// The characters encoded by a sequence of ASCII bytes.
pub open spec fn bytes_to_chars(s: Seq<u8>) -> Seq<char> {
    Seq::new(s.len(), |i: int| s[i] as char)
}

/// A byte the parser accepts inside a quoted string.
pub open spec fn plain_byte(b: u8) -> bool {
    0x20 <= b <= 0x7e && b != 0x22 && b != 0x5c
}

/// Plain characters survive the round trip through their byte encoding.
pub proof fn lemma_plain_chars_bytes_id(s: Seq<char>)
    requires
        plain_str(s),
    ensures
        bytes_to_chars(chars_to_bytes(s)) =~= s,
        forall|i: int| 0 <= i < s.len() ==> plain_byte(#[trigger] chars_to_bytes(s)[i]),
{
    assert forall|i: int| 0 <= i < s.len() implies bytes_to_chars(chars_to_bytes(s))[i] == s[i] by {
        assert(plain_char(s[i]));
    }
}

} // verus!

verus! {

/// Decides whether a string holds only plain characters.
pub fn str_is_plain(s: &str) -> (r: bool)
    ensures
        r == plain_str(s@),
{
    if !s.is_ascii() {
        proof {
            let cs = s@;
            assert(!vstd::utf8::is_ascii_chars(cs));
            let w = choose|i: int| #![trigger cs[i]] 0 <= i < cs.len() && !('\0' <= cs[i] <= '\u{7f}');
            assert(!plain_char(cs[w]));
        }
        return false;
    }
    proof {
        vstd::string::is_ascii_spec_bytes(s);
    }
    let bs = s.as_bytes();
    let ghost cs = s@;
    let mut t: usize = 0;
    while t < bs.len()
        invariant
            t <= bs@.len(),
            bs@.len() == cs.len(),
            cs == s@,
            vstd::utf8::is_ascii_chars(cs),
            forall|i: int| 0 <= i < cs.len() ==> #[trigger] bs@[i] == cs[i] as u8,
            forall|i: int| 0 <= i < t ==> plain_char(#[trigger] cs[i]),
        decreases bs@.len() - t,
    {
        let b = bs[t];
        if !(0x20 <= b && b <= 0x7e && b != 0x22 && b != 0x5c) {
            proof {
                assert(cs[t as int] as u8 == b);
                assert('\0' <= cs[t as int] <= '\u{7f}');
                assert(!plain_char(cs[t as int]));
            }
            return false;
        }
        proof {
            assert(cs[t as int] as u8 == b);
            assert('\0' <= cs[t as int] <= '\u{7f}');
            assert(plain_char(cs[t as int]));
        }
        t = t + 1;
    }
    true
}

} // verus!
