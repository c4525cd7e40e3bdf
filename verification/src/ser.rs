//! Serialization of a container header: the canonical JSON body, space
//! padding to 8-byte alignment, and the little-endian length prefix.

use vstd::prelude::*;
use vstd::string::StringSliceAdditionalSpecFns;

use crate::header::{
    chars_to_bytes, metadata_key, plain_str, ContainerHeader, HeaderV, TensorMeta, TensorMetaV,
};

verus! {

/// Decimal digits of `n`, most significant first.
pub open spec fn dec_digits(n: nat) -> Seq<u8>
    decreases n,
{
    if n < 10 {
        seq![(48 + n) as u8]
    } else {
        dec_digits(n / 10) + seq![(48 + n % 10) as u8]
    }
}

/// A quoted JSON string of plain characters.
pub open spec fn ser_str(s: Seq<char>) -> Seq<u8> {
    seq![34u8] + chars_to_bytes(s) + seq![34u8]
}

/// Comma-separated decimal numbers, no brackets.
pub open spec fn ser_u64_items(v: Seq<u64>) -> Seq<u8>
    decreases v.len(),
{
    if v.len() == 0 {
        seq![]
    } else if v.len() == 1 {
        dec_digits(v[0] as nat)
    } else {
        dec_digits(v[0] as nat) + seq![44u8] + ser_u64_items(v.drop_first())
    }
}

/// A JSON array of decimal numbers.
pub open spec fn ser_u64_array(v: Seq<u64>) -> Seq<u8> {
    seq![91u8] + ser_u64_items(v) + seq![93u8]
}

/// The JSON object of one tensor's metadata, fields in canonical order.
pub open spec fn ser_tensor_meta(m: TensorMetaV) -> Seq<u8> {
    chars_to_bytes("{\"dtype\":"@) + ser_str(m.dtype) + chars_to_bytes(",\"shape\":"@)
        + ser_u64_array(m.shape) + chars_to_bytes(",\"data_offsets\":["@) + dec_digits(
        m.offset_start as nat,
    ) + seq![44u8] + dec_digits(m.offset_end as nat) + chars_to_bytes("]}"@)
}

/// Comma-separated `"key":"value"` pairs of the metadata block.
pub open spec fn ser_meta_items(kvs: Seq<(Seq<char>, Seq<char>)>) -> Seq<u8>
    decreases kvs.len(),
{
    if kvs.len() == 0 {
        seq![]
    } else if kvs.len() == 1 {
        ser_str(kvs[0].0) + seq![58u8] + ser_str(kvs[0].1)
    } else {
        ser_str(kvs[0].0) + seq![58u8] + ser_str(kvs[0].1) + seq![44u8] + ser_meta_items(
            kvs.drop_first(),
        )
    }
}

/// Comma-separated `"name":{...}` tensor entries.
pub open spec fn ser_tensor_items(ts: Seq<(Seq<char>, TensorMetaV)>) -> Seq<u8>
    decreases ts.len(),
{
    if ts.len() == 0 {
        seq![]
    } else if ts.len() == 1 {
        ser_str(ts[0].0) + seq![58u8] + ser_tensor_meta(ts[0].1)
    } else {
        ser_str(ts[0].0) + seq![58u8] + ser_tensor_meta(ts[0].1) + seq![44u8] + ser_tensor_items(
            ts.drop_first(),
        )
    }
}

/// The JSON body of a header: metadata block first when present, then the
/// tensor entries, in one object.
pub open spec fn ser_body(h: HeaderV) -> Seq<u8> {
    let meta_part = match h.metadata {
        Some(kvs) => ser_str(metadata_key()) + seq![58u8] + seq![123u8] + ser_meta_items(kvs)
            + seq![125u8] + (if h.tensors.len() > 0 {
            seq![44u8]
        } else {
            Seq::<u8>::empty()
        }),
        None => Seq::<u8>::empty(),
    };
    seq![123u8] + meta_part + ser_tensor_items(h.tensors) + seq![125u8]
}

/// Spaces needed after `n` body bytes so the padded body length is a
/// multiple of eight.
pub open spec fn pad_len(n: int) -> int {
    (8 - n % 8) % 8
}

/// `n` ASCII space bytes.
pub open spec fn spaces(n: int) -> Seq<u8> {
    Seq::new(if n >= 0 {
        n as nat
    } else {
        0
    }, |i: int| 32u8)
}

/// The space-padded JSON body.
pub open spec fn padded_body(h: HeaderV) -> Seq<u8> {
    ser_body(h) + spaces(pad_len(ser_body(h).len() as int))
}

/// The full serialized header: little-endian length prefix, then the
/// padded JSON body.
pub open spec fn spec_ser_header(h: HeaderV) -> Seq<u8> {
    vstd::bytes::spec_u64_to_le_bytes(padded_body(h).len() as u64) + padded_body(h)
}

/// Appends a byte slice.
pub fn append_bytes(out: &mut Vec<u8>, s: &[u8])
    ensures
        final(out)@ == old(out)@ + s@,
{
    let mut j: usize = 0;
    while j < s.len()
        invariant
            j <= s@.len(),
            out@ == old(out)@ + s@.subrange(0, j as int),
        decreases s@.len() - j,
    {
        out.push(s[j]);
        assert(s@.subrange(0, j + 1 as int) =~= s@.subrange(0, j as int) + seq![s@[j as int]]);
        j = j + 1;
    }
    assert(s@.subrange(0, s@.len() as int) =~= s@);
}

/// Appends the bytes of an ASCII string.
pub fn append_ascii(out: &mut Vec<u8>, s: &str)
    requires
        s.is_ascii(),
    ensures
        final(out)@ == old(out)@ + chars_to_bytes(s@),
{
    proof {
        vstd::string::is_ascii_spec_bytes(s);
        assert(s.spec_bytes() =~= chars_to_bytes(s@));
    }
    append_bytes(out, s.as_bytes());
}

/// Appends the decimal digits of `x`.
pub fn append_u64_dec(out: &mut Vec<u8>, x: u64)
    ensures
        final(out)@ == old(out)@ + dec_digits(x as nat),
    decreases x,
{
    if x >= 10 {
        append_u64_dec(out, x / 10);
    }
    out.push(48 + (x % 10) as u8);
    proof {
        if x < 10 {
            assert(out@ =~= old(out)@ + dec_digits(x as nat));
        } else {
            assert(out@ =~= old(out)@ + dec_digits(x as nat));
        }
    }
}

/// Appends a quoted JSON string.
pub fn append_json_str(out: &mut Vec<u8>, s: &str)
    requires
        plain_str(s@),
    ensures
        final(out)@ == old(out)@ + ser_str(s@),
{
    proof {
        assert(s.is_ascii()) by {
            assert(forall|i: int|
                0 <= i < s@.len() ==> '\0' <= #[trigger] s@[i] <= '\u{7f}');
        }
    }
    out.push(34u8);
    append_ascii(out, s);
    out.push(34u8);
    assert(out@ =~= old(out)@ + ser_str(s@));
}

/// Appends a JSON array of decimal numbers.
pub fn append_u64_array(out: &mut Vec<u8>, v: &Vec<u64>)
    ensures
        final(out)@ == old(out)@ + ser_u64_array(v@),
{
    out.push(91u8);
    let mut j: usize = 0;
    while j < v.len()
        invariant
            j <= v@.len(),
            out@ == old(out)@ + seq![91u8] + ser_items_prefix(v@, j as int),
        decreases v@.len() - j,
    {
        if j > 0 {
            out.push(44u8);
        }
        append_u64_dec(out, v[j]);
        proof {
            lemma_ser_items_prefix_step(v@, j as int);
            assert(out@ =~= old(out)@ + seq![91u8] + ser_items_prefix(v@, j + 1 as int));
        }
        j = j + 1;
    }
    out.push(93u8);
    proof {
        lemma_ser_items_prefix_full(v@);
        assert(out@ =~= old(out)@ + ser_u64_array(v@));
    }
}

/// The serialized first `j` items of a number list, with separating commas.
pub open spec fn ser_items_prefix(v: Seq<u64>, j: int) -> Seq<u8>
    decreases j,
{
    if j <= 0 {
        Seq::<u8>::empty()
    } else if j == 1 {
        dec_digits(v[0] as nat)
    } else {
        ser_items_prefix(v, j - 1) + seq![44u8] + dec_digits(v[j - 1] as nat)
    }
}

/// Extending the serialized prefix by one item appends a comma (after the
/// first item) and the item's digits.
pub proof fn lemma_ser_items_prefix_step(v: Seq<u64>, j: int)
    requires
        0 <= j < v.len(),
    ensures
        j == 0 ==> ser_items_prefix(v, 1) == dec_digits(v[0] as nat),
        j > 0 ==> ser_items_prefix(v, j + 1) == ser_items_prefix(v, j) + seq![44u8] + dec_digits(
            v[j] as nat,
        ),
{
}

/// The full serialized prefix is the serialized item list.
pub proof fn lemma_ser_items_prefix_full(v: Seq<u64>)
    ensures
        ser_items_prefix(v, v.len() as int) == ser_u64_items(v),
    decreases v.len(),
{
    if v.len() == 0 {
    } else if v.len() == 1 {
        assert(ser_items_prefix(v, 1) =~= ser_u64_items(v));
    } else {
        let w = v.drop_last();
        lemma_ser_items_prefix_full(w);
        lemma_ser_items_prefix_drop_last(v, v.len() as int - 1);
        lemma_ser_u64_items_snoc(v);
    }
}

/// The serialized prefix ignores items at or past `j`.
pub proof fn lemma_ser_items_prefix_drop_last(v: Seq<u64>, j: int)
    requires
        0 <= j <= v.len() - 1,
    ensures
        ser_items_prefix(v, j) == ser_items_prefix(v.drop_last(), j),
    decreases j,
{
    if j > 0 {
        lemma_ser_items_prefix_drop_last(v, j - 1);
    }
}

/// Serializing a list of two or more items appends the last item after a
/// comma.
pub proof fn lemma_ser_u64_items_snoc(v: Seq<u64>)
    requires
        v.len() >= 2,
    ensures
        ser_u64_items(v) == ser_u64_items(v.drop_last()) + seq![44u8] + dec_digits(
            v.last() as nat,
        ),
    decreases v.len(),
{
    if v.len() == 2 {
        assert(v.drop_first().len() == 1);
        assert(ser_u64_items(v) =~= ser_u64_items(v.drop_last()) + seq![44u8] + dec_digits(
            v.last() as nat,
        ));
    } else {
        lemma_ser_u64_items_snoc(v.drop_first());
        assert(v.drop_first().drop_last() =~= v.drop_last().drop_first());
        assert(v.drop_first().last() == v.last());
        assert(ser_u64_items(v.drop_first()) == ser_u64_items(v.drop_last().drop_first())
            + seq![44u8] + dec_digits(v.last() as nat));
        assert(v.drop_last().len() >= 2);
        assert(ser_u64_items(v.drop_last()) == dec_digits(v.drop_last()[0] as nat) + seq![44u8]
            + ser_u64_items(v.drop_last().drop_first()));
        assert(v.drop_last()[0] == v[0]);
        assert(ser_u64_items(v) == dec_digits(v[0] as nat) + seq![44u8] + ser_u64_items(
            v.drop_first(),
        ));
        assert(ser_u64_items(v) =~= ser_u64_items(v.drop_last()) + seq![44u8] + dec_digits(
            v.last() as nat,
        ));
    }
}

} // verus!


verus! {

/// The serialized first `j` metadata pairs, with separating commas.
pub open spec fn ser_meta_prefix(kvs: Seq<(Seq<char>, Seq<char>)>, j: int) -> Seq<u8>
    decreases j,
{
    if j <= 0 {
        Seq::<u8>::empty()
    } else if j == 1 {
        ser_str(kvs[0].0) + seq![58u8] + ser_str(kvs[0].1)
    } else {
        ser_meta_prefix(kvs, j - 1) + seq![44u8] + ser_str(kvs[j - 1].0) + seq![58u8] + ser_str(
            kvs[j - 1].1,
        )
    }
}

/// The serialized prefix of metadata pairs ignores pairs at or past `j`.
pub proof fn lemma_ser_meta_prefix_drop_last(kvs: Seq<(Seq<char>, Seq<char>)>, j: int)
    requires
        0 <= j <= kvs.len() - 1,
    ensures
        ser_meta_prefix(kvs, j) == ser_meta_prefix(kvs.drop_last(), j),
    decreases j,
{
    if j > 0 {
        lemma_ser_meta_prefix_drop_last(kvs, j - 1);
    }
}

/// Serializing two or more metadata pairs appends the last pair after a
/// comma.
pub proof fn lemma_ser_meta_items_snoc(kvs: Seq<(Seq<char>, Seq<char>)>)
    requires
        kvs.len() >= 2,
    ensures
        ser_meta_items(kvs) == ser_meta_items(kvs.drop_last()) + seq![44u8] + ser_str(
            kvs.last().0,
        ) + seq![58u8] + ser_str(kvs.last().1),
    decreases kvs.len(),
{
    if kvs.len() == 2 {
        assert(kvs.drop_first()[0] == kvs[1]);
        assert(kvs.drop_last()[0] == kvs[0]);
        assert(kvs.last() == kvs[1]);
        assert(kvs.drop_first().len() == 1);
        assert(kvs.drop_last().len() == 1);
        assert(ser_meta_items(kvs.drop_first()) == ser_str(kvs[1].0) + seq![58u8] + ser_str(
            kvs[1].1,
        ));
        assert(ser_meta_items(kvs.drop_last()) == ser_str(kvs[0].0) + seq![58u8] + ser_str(
            kvs[0].1,
        ));
        assert(ser_meta_items(kvs) == ser_str(kvs[0].0) + seq![58u8] + ser_str(kvs[0].1)
            + seq![44u8] + ser_meta_items(kvs.drop_first()));
        assert(ser_meta_items(kvs) =~= ser_meta_items(kvs.drop_last()) + seq![44u8] + ser_str(
            kvs.last().0,
        ) + seq![58u8] + ser_str(kvs.last().1));
    } else {
        lemma_ser_meta_items_snoc(kvs.drop_first());
        assert(kvs.drop_first().drop_last() =~= kvs.drop_last().drop_first());
        assert(kvs.drop_first().last() == kvs.last());
        assert(ser_meta_items(kvs.drop_first()) == ser_meta_items(kvs.drop_last().drop_first())
            + seq![44u8] + ser_str(kvs.last().0) + seq![58u8] + ser_str(kvs.last().1));
        assert(kvs.drop_last().len() >= 2);
        assert(kvs.drop_last()[0] == kvs[0]);
        assert(ser_meta_items(kvs.drop_last()) == ser_str(kvs[0].0) + seq![58u8] + ser_str(
            kvs[0].1,
        ) + seq![44u8] + ser_meta_items(kvs.drop_last().drop_first()));
        assert(ser_meta_items(kvs) == ser_str(kvs[0].0) + seq![58u8] + ser_str(kvs[0].1)
            + seq![44u8] + ser_meta_items(kvs.drop_first()));
        assert(ser_meta_items(kvs) =~= ser_meta_items(kvs.drop_last()) + seq![44u8] + ser_str(
            kvs.last().0,
        ) + seq![58u8] + ser_str(kvs.last().1));
    }
}

/// The full serialized prefix is the serialized metadata pair list.
pub proof fn lemma_ser_meta_prefix_full(kvs: Seq<(Seq<char>, Seq<char>)>)
    ensures
        ser_meta_prefix(kvs, kvs.len() as int) == ser_meta_items(kvs),
    decreases kvs.len(),
{
    if kvs.len() == 0 {
    } else if kvs.len() == 1 {
        assert(ser_meta_prefix(kvs, 1) =~= ser_meta_items(kvs));
    } else {
        lemma_ser_meta_prefix_full(kvs.drop_last());
        lemma_ser_meta_prefix_drop_last(kvs, kvs.len() as int - 1);
        lemma_ser_meta_items_snoc(kvs);
        assert(ser_meta_prefix(kvs, kvs.len() as int) =~= ser_meta_items(kvs));
    }
}

/// The serialized first `j` tensor entries, with separating commas.
pub open spec fn ser_tensor_prefix(ts: Seq<(Seq<char>, TensorMetaV)>, j: int) -> Seq<u8>
    decreases j,
{
    if j <= 0 {
        Seq::<u8>::empty()
    } else if j == 1 {
        ser_str(ts[0].0) + seq![58u8] + ser_tensor_meta(ts[0].1)
    } else {
        ser_tensor_prefix(ts, j - 1) + seq![44u8] + ser_str(ts[j - 1].0) + seq![58u8]
            + ser_tensor_meta(ts[j - 1].1)
    }
}

/// The serialized prefix of tensor entries ignores entries at or past `j`.
pub proof fn lemma_ser_tensor_prefix_drop_last(ts: Seq<(Seq<char>, TensorMetaV)>, j: int)
    requires
        0 <= j <= ts.len() - 1,
    ensures
        ser_tensor_prefix(ts, j) == ser_tensor_prefix(ts.drop_last(), j),
    decreases j,
{
    if j > 0 {
        lemma_ser_tensor_prefix_drop_last(ts, j - 1);
    }
}

/// Serializing two or more tensor entries appends the last entry after a
/// comma.
pub proof fn lemma_ser_tensor_items_snoc(ts: Seq<(Seq<char>, TensorMetaV)>)
    requires
        ts.len() >= 2,
    ensures
        ser_tensor_items(ts) == ser_tensor_items(ts.drop_last()) + seq![44u8] + ser_str(
            ts.last().0,
        ) + seq![58u8] + ser_tensor_meta(ts.last().1),
    decreases ts.len(),
{
    if ts.len() == 2 {
        assert(ts.drop_first()[0] == ts[1]);
        assert(ts.drop_last()[0] == ts[0]);
        assert(ts.last() == ts[1]);
        assert(ser_tensor_items(ts) =~= ser_tensor_items(ts.drop_last()) + seq![44u8] + ser_str(
            ts.last().0,
        ) + seq![58u8] + ser_tensor_meta(ts.last().1));
    } else {
        lemma_ser_tensor_items_snoc(ts.drop_first());
        assert(ts.drop_first().drop_last() =~= ts.drop_last().drop_first());
        assert(ts.drop_first().last() == ts.last());
        assert(ser_tensor_items(ts.drop_first()) == ser_tensor_items(ts.drop_last().drop_first())
            + seq![44u8] + ser_str(ts.last().0) + seq![58u8] + ser_tensor_meta(ts.last().1));
        assert(ts.drop_last().len() >= 2);
        assert(ts.drop_last()[0] == ts[0]);
        assert(ser_tensor_items(ts.drop_last()) == ser_str(ts[0].0) + seq![58u8] + ser_tensor_meta(
            ts[0].1,
        ) + seq![44u8] + ser_tensor_items(ts.drop_last().drop_first()));
        assert(ser_tensor_items(ts) == ser_str(ts[0].0) + seq![58u8] + ser_tensor_meta(ts[0].1)
            + seq![44u8] + ser_tensor_items(ts.drop_first()));
        assert(ser_tensor_items(ts) =~= ser_tensor_items(ts.drop_last()) + seq![44u8] + ser_str(
            ts.last().0,
        ) + seq![58u8] + ser_tensor_meta(ts.last().1));
    }
}

/// The full serialized prefix is the serialized tensor entry list.
pub proof fn lemma_ser_tensor_prefix_full(ts: Seq<(Seq<char>, TensorMetaV)>)
    ensures
        ser_tensor_prefix(ts, ts.len() as int) == ser_tensor_items(ts),
    decreases ts.len(),
{
    if ts.len() == 0 {
    } else if ts.len() == 1 {
        assert(ser_tensor_prefix(ts, 1) =~= ser_tensor_items(ts));
    } else {
        lemma_ser_tensor_prefix_full(ts.drop_last());
        lemma_ser_tensor_prefix_drop_last(ts, ts.len() as int - 1);
        lemma_ser_tensor_items_snoc(ts);
        assert(ser_tensor_prefix(ts, ts.len() as int) =~= ser_tensor_items(ts));
    }
}

/// Appends the JSON object of one tensor's metadata.
pub fn append_tensor_meta(out: &mut Vec<u8>, m: &TensorMeta)
    requires
        m@.wf(),
    ensures
        final(out)@ == old(out)@ + ser_tensor_meta(m@),
{
    proof {
        reveal_strlit("{\"dtype\":");
        reveal_strlit(",\"shape\":");
        reveal_strlit(",\"data_offsets\":[");
        reveal_strlit("]}");
        assert(("{\"dtype\":").is_ascii());
        assert((",\"shape\":").is_ascii());
        assert((",\"data_offsets\":[").is_ascii());
        assert(("]}").is_ascii());
    }
    append_ascii(out, "{\"dtype\":");
    append_json_str(out, self_dtype(m));
    append_ascii(out, ",\"shape\":");
    append_u64_array(out, &m.shape);
    append_ascii(out, ",\"data_offsets\":[");
    append_u64_dec(out, m.offset_start);
    out.push(44u8);
    append_u64_dec(out, m.offset_end);
    append_ascii(out, "]}");
    assert(out@ =~= old(out)@ + ser_tensor_meta(m@));
}

/// The dtype field as a string slice.
fn self_dtype(m: &TensorMeta) -> (s: &str)
    ensures
        s@ == m@.dtype,
{
    m.dtype.as_str()
}

/// Appends the JSON body of a header.
pub fn append_body(out: &mut Vec<u8>, h: &ContainerHeader)
    requires
        h@.wf(),
    ensures
        final(out)@ == old(out)@ + ser_body(h@),
{
    out.push(123u8);
    if let Some(kvs) = &h.metadata {
        let ghost kvsv = crate::header::meta_pairs_view(kvs@);
        proof {
            reveal_strlit("__metadata__");
            assert(plain_str("__metadata__"@));
            assert(h@.metadata == Some(kvsv));
        }
        append_json_str(out, "__metadata__");
        out.push(58u8);
        out.push(123u8);
        let mut j: usize = 0;
        while j < kvs.len()
            invariant
                j <= kvs@.len(),
                kvsv == crate::header::meta_pairs_view(kvs@),
                h@.wf(),
                h@.metadata == Some(kvsv),
                out@ == old(out)@ + seq![123u8] + ser_str(metadata_key()) + seq![58u8]
                    + seq![123u8] + ser_meta_prefix(kvsv, j as int),
            decreases kvs@.len() - j,
        {
            if j > 0 {
                out.push(44u8);
            }
            let pair = &kvs[j];
            proof {
                assert(crate::header::meta_pairs_wf(kvsv));
                assert(kvsv[j as int] == (pair.0@, pair.1@));
                assert(plain_str(kvsv[j as int].0) && plain_str(kvsv[j as int].1));
            }
            append_json_str(out, pair.0.as_str());
            out.push(58u8);
            append_json_str(out, pair.1.as_str());
            proof {
                assert(out@ =~= old(out)@ + seq![123u8] + ser_str(metadata_key()) + seq![58u8]
                    + seq![123u8] + ser_meta_prefix(kvsv, j + 1 as int));
            }
            j = j + 1;
        }
        out.push(125u8);
        if h.tensors.len() > 0 {
            out.push(44u8);
        }
        proof {
            lemma_ser_meta_prefix_full(kvsv);
        }
    }
    let ghost tsv = h@.tensors;
    let ghost pre = out@;
    let mut j: usize = 0;
    while j < h.tensors.len()
        invariant
            j <= h.tensors@.len(),
            tsv == h@.tensors,
            h@.wf(),
            out@ == pre + ser_tensor_prefix(tsv, j as int),
        decreases h.tensors@.len() - j,
    {
        if j > 0 {
            out.push(44u8);
        }
        let pair = &h.tensors[j];
        proof {
            assert(crate::header::tensor_entries_wf(tsv));
            assert(tsv[j as int] == (pair.0@, pair.1@));
            assert(plain_str(tsv[j as int].0));
            assert(tsv[j as int].1.wf());
        }
        append_json_str(out, pair.0.as_str());
        out.push(58u8);
        append_tensor_meta(out, &pair.1);
        proof {
            assert(out@ =~= pre + ser_tensor_prefix(tsv, j + 1 as int));
        }
        j = j + 1;
    }
    out.push(125u8);
    proof {
        lemma_ser_tensor_prefix_full(tsv);
        assert(out@ =~= old(out)@ + ser_body(h@));
    }
}

/// Serializes a header: the canonical JSON body, space padding to 8-byte
/// alignment, and the 8-byte little-endian length prefix.
#[verifier::rlimit(50)]
pub fn serialize_header(h: &ContainerHeader) -> (out: Vec<u8>)
    requires
        h@.wf(),
    ensures
        out@ == spec_ser_header(h@),
{
    let mut body: Vec<u8> = Vec::new();
    append_body(&mut body, h);
    let ghost orig = body@;
    let rem: usize = body.len() % 8;
    let pad: usize = if rem == 0 {
        0
    } else {
        8 - rem
    };
    proof {
        assert(pad == pad_len(orig.len() as int));
    }
    let mut t: usize = 0;
    while t < pad
        invariant
            t <= pad,
            pad == pad_len(orig.len() as int),
            orig == ser_body(h@),
            body@ == orig + spaces(t as int),
        decreases pad - t,
    {
        proof {
            assert(spaces(t + 1 as int) =~= spaces(t as int) + seq![32u8]);
        }
        body.push(32u8);
        t = t + 1;
    }
    proof {
        assert(body@ =~= padded_body(h@));
    }
    let mut out = vstd::bytes::u64_to_le_bytes(body.len() as u64);
    append_bytes(&mut out, body.as_slice());
    proof {
        assert(out@ =~= spec_ser_header(h@));
    }
    out
}

} // verus!

verus! {

/// Serializing two or more metadata pairs begins with the first pair and a
/// comma.
pub proof fn lemma_ser_meta_items_cons(kvs: Seq<(Seq<char>, Seq<char>)>)
    requires
        kvs.len() >= 2,
    ensures
        ser_meta_items(kvs) == ser_str(kvs[0].0) + seq![58u8] + ser_str(kvs[0].1) + seq![44u8]
            + ser_meta_items(kvs.drop_first()),
{
}

/// Serializing two or more tensor entries begins with the first entry and
/// a comma.
pub proof fn lemma_ser_tensor_items_cons(ts: Seq<(Seq<char>, TensorMetaV)>)
    requires
        ts.len() >= 2,
    ensures
        ser_tensor_items(ts) == ser_str(ts[0].0) + seq![58u8] + ser_tensor_meta(ts[0].1)
            + seq![44u8] + ser_tensor_items(ts.drop_first()),
{
}

} // verus!
