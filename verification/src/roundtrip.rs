//! Round trip of the header codec: parsing a serialized header yields the
//! original header content.

use vstd::prelude::*;

use crate::header::{
    bytes_to_chars, chars_to_bytes, meta_pairs_wf, metadata_key, plain_byte, plain_char, plain_str,
    tensor_entries_wf, HeaderV, TensorMetaV,
};
use crate::parse::{
    all_spaces_from, digits_val, expect_at, is_digit, parse_array_at, parse_body_at,
    parse_meta_obj, parse_meta_tail, parse_str_at, parse_tensor_meta_at, parse_tensors_tail,
    parse_u64_at, parse_u64_tail, scan_digits, scan_string, spec_parse_header,
};
use crate::ser::{
    dec_digits, padded_body, pad_len, ser_body, ser_meta_items, ser_str, ser_tensor_items,
    ser_tensor_meta, ser_u64_array, ser_u64_items, spaces, spec_ser_header,
};

verus! {

/// Every byte of a decimal rendering is a digit.
pub proof fn lemma_dec_digits_are_digits(n: nat)
    ensures
        dec_digits(n).len() >= 1,
        forall|k: int| 0 <= k < dec_digits(n).len() ==> is_digit(#[trigger] dec_digits(n)[k]),
    decreases n,
{
    if n >= 10 {
        lemma_dec_digits_are_digits(n / 10);
    }
}

/// The decimal rendering of `x` evaluates back to `x`.
pub proof fn lemma_dec_digits_val(n: nat)
    ensures
        digits_val(dec_digits(n)) == n,
    decreases n,
{
    if n < 10 {
        assert((48 + n) as u8 == 48 + n);
        assert(dec_digits(n) =~= seq![(48 + n) as u8]);
        assert(dec_digits(n).drop_last() =~= Seq::<u8>::empty());
        assert(digits_val(dec_digits(n)) == digits_val(Seq::<u8>::empty()) * 10 + (48 + n - 48));
    } else {
        lemma_dec_digits_val(n / 10);
        let d = dec_digits(n);
        assert((48 + n % 10) as u8 == 48 + n % 10);
        assert(d =~= dec_digits(n / 10) + seq![(48 + n % 10) as u8]);
        assert(d.drop_last() =~= dec_digits(n / 10));
        assert(d.last() == (48 + n % 10) as u8);
        assert(digits_val(d) == digits_val(dec_digits(n / 10)) * 10 + (48 + n % 10 - 48));
        assert(digits_val(d) == (n / 10) * 10 + n % 10);
    }
}

/// A digit span bounded by a non-digit scans to exactly its end.
pub proof fn lemma_scan_digits_exact(s: Seq<u8>, i: int, j: int)
    requires
        0 <= i <= j <= s.len(),
        forall|k: int| i <= k < j ==> is_digit(#[trigger] s[k]),
        j == s.len() || !is_digit(s[j]),
    ensures
        scan_digits(s, i) == j,
    decreases j - i,
{
    if i < j {
        lemma_scan_digits_exact(s, i + 1, j);
    }
}

/// Parsing right after the decimal rendering of a `u64`, bounded by a
/// non-digit, returns that number.
pub proof fn lemma_parse_u64_complete(s: Seq<u8>, i: int, x: u64)
    requires
        0 <= i,
        i + dec_digits(x as nat).len() <= s.len(),
        s.subrange(i, i + dec_digits(x as nat).len()) == dec_digits(x as nat),
        i + dec_digits(x as nat).len() == s.len() || !is_digit(
            s[i + dec_digits(x as nat).len()],
        ),
    ensures
        parse_u64_at(s, i) == Some((x, i + dec_digits(x as nat).len())),
{
    let d = dec_digits(x as nat);
    lemma_dec_digits_are_digits(x as nat);
    assert(forall|k: int|
        i <= k < i + d.len() ==> is_digit(#[trigger] s[k])) by {
        assert(forall|k: int|
            i <= k < i + d.len() ==> s[k] == s.subrange(i, i + d.len())[k - i]);
    }
    lemma_scan_digits_exact(s, i, i + d.len());
    lemma_dec_digits_val(x as nat);
    assert(s.subrange(i, i + d.len()) == d);
}

/// A plain byte span bounded by a quote scans to exactly the quote.
pub proof fn lemma_scan_string_exact(s: Seq<u8>, i: int, j: int)
    requires
        0 <= i <= j < s.len(),
        forall|k: int| i <= k < j ==> plain_byte(#[trigger] s[k]),
        s[j] == 34,
    ensures
        scan_string(s, i) == Some(j),
    decreases j - i,
{
    if i < j {
        assert(plain_byte(s[i]));
        lemma_scan_string_exact(s, i + 1, j);
    }
}

/// Parsing right after the serialization of a plain string returns that
/// string.
pub proof fn lemma_parse_str_complete(s: Seq<u8>, i: int, cs: Seq<char>)
    requires
        plain_str(cs),
        0 <= i,
        i + cs.len() + 2 <= s.len(),
        s.subrange(i, i + cs.len() + 2) == ser_str(cs),
    ensures
        parse_str_at(s, i) == Some((cs, i + cs.len() + 2)),
{
    let sub = s.subrange(i, i + cs.len() + 2);
    crate::header::lemma_plain_chars_bytes_id(cs);
    assert(s[i] == sub[0]);
    assert(sub[0] == 34);
    assert(s[i + cs.len() + 1] == sub[cs.len() as int + 1]);
    assert(sub[cs.len() as int + 1] == 34);
    assert(forall|k: int|
        i + 1 <= k < i + 1 + cs.len() ==> #[trigger] s[k] == chars_to_bytes(cs)[k - i - 1]) by {
        assert(forall|k: int|
            i + 1 <= k < i + 1 + cs.len() ==> #[trigger] s[k] == sub[k - i]);
    }
    lemma_scan_string_exact(s, i + 1, i + 1 + cs.len());
    assert(s.subrange(i + 1, i + 1 + cs.len()) =~= chars_to_bytes(cs));
    assert(bytes_to_chars(s.subrange(i + 1, i + 1 + cs.len())) == cs);
}

/// A token standing at `i` is consumed exactly.
pub proof fn lemma_expect_complete(s: Seq<u8>, i: int, tok: Seq<u8>)
    requires
        0 <= i,
        i + tok.len() <= s.len(),
        s.subrange(i, i + tok.len()) == tok,
    ensures
        expect_at(s, i, tok) == Some(i + tok.len()),
{
}

} // verus!

verus! {

/// A subrange equal to a concatenation splits at the seam.
pub proof fn lemma_subrange_prefix(s: Seq<u8>, i: int, a: Seq<u8>, b: Seq<u8>)
    requires
        0 <= i,
        i + a.len() + b.len() <= s.len(),
        s.subrange(i, i + a.len() + b.len()) == a + b,
    ensures
        s.subrange(i, i + a.len()) == a,
        s.subrange(i + a.len(), i + a.len() + b.len()) == b,
{
    let whole = s.subrange(i, i + a.len() + b.len());
    assert forall|k: int| 0 <= k < a.len() implies s.subrange(i, i + a.len())[k] == a[k] by {
        assert(whole[k] == (a + b)[k]);
    }
    assert(s.subrange(i, i + a.len()) =~= a);
    assert forall|k: int| 0 <= k < b.len() implies s.subrange(
        i + a.len(),
        i + a.len() + b.len(),
    )[k] == b[k] by {
        assert(whole[a.len() + k] == (a + b)[a.len() + k]);
    }
    assert(s.subrange(i + a.len(), i + a.len() + b.len()) =~= b);
}

/// Parsing right after the serialized items of a non-empty number list,
/// bounded by the closing bracket, returns that list.
pub proof fn lemma_parse_u64_tail_complete(s: Seq<u8>, i: int, v: Seq<u64>)
    requires
        v.len() >= 1,
        0 <= i,
        i + ser_u64_items(v).len() + 1 <= s.len(),
        s.subrange(i, i + ser_u64_items(v).len() + 1) == ser_u64_items(v) + seq![93u8],
    ensures
        parse_u64_tail(s, i) == Some((v, i + ser_u64_items(v).len() + 1)),
    decreases v.len(),
{
    if v.len() == 1 {
        let d = dec_digits(v[0] as nat);
        assert(ser_u64_items(v) == d);
        lemma_subrange_prefix(s, i, d, seq![93u8]);
        assert(s[i + d.len()] == s.subrange(i + d.len(), i + d.len() + 1)[0]);
        assert(s[i + d.len()] == 93);
        lemma_parse_u64_complete(s, i, v[0]);
        assert(seq![v[0]] =~= v);
    } else {
        let d = dec_digits(v[0] as nat);
        let rest = v.drop_first();
        let tail = seq![44u8] + ser_u64_items(rest) + seq![93u8];
        assert(ser_u64_items(v) == d + seq![44u8] + ser_u64_items(rest));
        assert(ser_u64_items(v) + seq![93u8] =~= d + tail);
        lemma_subrange_prefix(s, i, d, tail);
        let j = i + d.len();
        assert(s[j] == s.subrange(j, j + tail.len())[0]);
        assert(s[j] == 44);
        lemma_parse_u64_complete(s, i, v[0]);
        assert(tail =~= seq![44u8] + (ser_u64_items(rest) + seq![93u8]));
        lemma_subrange_prefix(s, j, seq![44u8], ser_u64_items(rest) + seq![93u8]);
        lemma_parse_u64_tail_complete(s, j + 1, rest);
        assert(seq![v[0]] + rest =~= v);
    }
}

/// Parsing right after a serialized number array returns that array.
pub proof fn lemma_parse_array_complete(s: Seq<u8>, i: int, v: Seq<u64>)
    requires
        0 <= i,
        i + ser_u64_array(v).len() <= s.len(),
        s.subrange(i, i + ser_u64_array(v).len()) == ser_u64_array(v),
    ensures
        parse_array_at(s, i) == Some((v, i + ser_u64_array(v).len())),
{
    let whole = s.subrange(i, i + ser_u64_array(v).len());
    assert(s[i] == whole[0]);
    assert(s[i] == 91);
    if v.len() == 0 {
        assert(ser_u64_items(v) == Seq::<u8>::empty());
        assert(ser_u64_array(v).len() == 2);
        assert(s[i + 1] == whole[1]);
        assert(s[i + 1] == 93);
        assert(parse_array_at(s, i) == Some((Seq::<u64>::empty(), i + 2)));
        assert(Seq::<u64>::empty() =~= v);
    } else {
        lemma_dec_digits_are_digits(v[0] as nat);
        let d = dec_digits(v[0] as nat);
        assert(ser_u64_items(v)[0] == d[0]);
        assert(s[i + 1] == whole[1]);
        assert(whole[1] == ser_u64_items(v)[0]);
        assert(is_digit(s[i + 1]));
        assert(s[i + 1] != 93);
        assert(ser_u64_array(v) =~= seq![91u8] + (ser_u64_items(v) + seq![93u8]));
        lemma_subrange_prefix(s, i, seq![91u8], ser_u64_items(v) + seq![93u8]);
        lemma_parse_u64_tail_complete(s, i + 1, v);
    }
}

/// Parsing right after a serialized tensor metadata object returns that
/// metadata.
pub proof fn lemma_parse_tensor_meta_complete(s: Seq<u8>, i: int, m: TensorMetaV)
    requires
        m.wf(),
        0 <= i,
        i + ser_tensor_meta(m).len() <= s.len(),
        s.subrange(i, i + ser_tensor_meta(m).len()) == ser_tensor_meta(m),
    ensures
        parse_tensor_meta_at(s, i) == Some((m, i + ser_tensor_meta(m).len())),
{
    reveal_strlit("{\"dtype\":");
    reveal_strlit(",\"shape\":");
    reveal_strlit(",\"data_offsets\":[");
    reveal_strlit("]}");
    let t1 = chars_to_bytes("{\"dtype\":"@);
    let t2 = chars_to_bytes(",\"shape\":"@);
    let t3 = chars_to_bytes(",\"data_offsets\":["@);
    let t4 = chars_to_bytes("]}"@);
    let p1 = ser_str(m.dtype);
    let p2 = ser_u64_array(m.shape);
    let p3 = dec_digits(m.offset_start as nat);
    let p4 = dec_digits(m.offset_end as nat);
    let whole = ser_tensor_meta(m);
    assert(whole =~= t1 + (p1 + (t2 + (p2 + (t3 + (p3 + (seq![44u8] + (p4 + t4))))))));
    lemma_subrange_prefix(s, i, t1, p1 + (t2 + (p2 + (t3 + (p3 + (seq![44u8] + (p4 + t4)))))));
    lemma_expect_complete(s, i, t1);
    let j0 = i + t1.len();
    lemma_subrange_prefix(s, j0, p1, t2 + (p2 + (t3 + (p3 + (seq![44u8] + (p4 + t4))))));
    lemma_parse_str_complete(s, j0, m.dtype);
    let j1 = j0 + p1.len();
    lemma_subrange_prefix(s, j1, t2, p2 + (t3 + (p3 + (seq![44u8] + (p4 + t4)))));
    lemma_expect_complete(s, j1, t2);
    let j2 = j1 + t2.len();
    lemma_subrange_prefix(s, j2, p2, t3 + (p3 + (seq![44u8] + (p4 + t4))));
    lemma_parse_array_complete(s, j2, m.shape);
    let j3 = j2 + p2.len();
    lemma_subrange_prefix(s, j3, t3, p3 + (seq![44u8] + (p4 + t4)));
    lemma_expect_complete(s, j3, t3);
    let j4 = j3 + t3.len();
    lemma_subrange_prefix(s, j4, p3, seq![44u8] + (p4 + t4));
    let j5 = j4 + p3.len();
    assert(s[j5] == s.subrange(j5, j5 + (seq![44u8] + (p4 + t4)).len())[0]);
    assert(s[j5] == 44);
    assert(!is_digit(44));
    lemma_parse_u64_complete(s, j4, m.offset_start);
    lemma_subrange_prefix(s, j5, seq![44u8], p4 + t4);
    lemma_subrange_prefix(s, j5 + 1, p4, t4);
    let j6 = j5 + 1 + p4.len();
    assert(s[j6] == s.subrange(j6, j6 + t4.len())[0]);
    assert(s[j6] == 93);
    assert(!is_digit(93));
    lemma_parse_u64_complete(s, j5 + 1, m.offset_end);
    lemma_expect_complete(s, j6, t4);
    assert(m =~= TensorMetaV {
        dtype: m.dtype,
        shape: m.shape,
        offset_start: m.offset_start,
        offset_end: m.offset_end,
    });
}

} // verus!

verus! {

/// Keys absent from `seen` and distinct from `k0` are absent from
/// `seen.push(k0)`.
proof fn lemma_not_in_push(seen: Seq<Seq<char>>, k0: Seq<char>, x: Seq<char>)
    requires
        !seen.contains(x),
        x != k0,
    ensures
        !seen.push(k0).contains(x),
{
    if seen.push(k0).contains(x) {
        let w = choose|w: int| 0 <= w < seen.push(k0).len() && seen.push(k0)[w] == x;
        if w < seen.len() {
            assert(seen[w] == x);
        }
    }
}

/// Parsing right after the serialized pairs of a non-empty metadata list,
/// bounded by the closing brace, returns that list.
#[verifier::rlimit(100)]
pub proof fn lemma_parse_meta_tail_complete(
    s: Seq<u8>,
    i: int,
    kvs: Seq<(Seq<char>, Seq<char>)>,
    seen: Seq<Seq<char>>,
)
    requires
        kvs.len() >= 1,
        meta_pairs_wf(kvs),
        forall|t: int| 0 <= t < kvs.len() ==> !seen.contains((#[trigger] kvs[t]).0),
        0 <= i,
        i + ser_meta_items(kvs).len() + 1 <= s.len(),
        s.subrange(i, i + ser_meta_items(kvs).len() + 1) == ser_meta_items(kvs) + seq![125u8],
    ensures
        parse_meta_tail(s, i, seen) == Some((kvs, i + ser_meta_items(kvs).len() + 1)),
    decreases kvs.len(),
{
    let k0 = kvs[0].0;
    let v0 = kvs[0].1;
    assert(plain_str(k0) && plain_str(v0));
    assert(!seen.contains(k0));
    if kvs.len() == 1 {
        let tail = seq![58u8] + (ser_str(v0) + seq![125u8]);
        assert(ser_meta_items(kvs) + seq![125u8] =~= ser_str(k0) + (seq![58u8] + (ser_str(v0)
            + seq![125u8])));
        lemma_subrange_prefix(s, i, ser_str(k0), tail);
        lemma_parse_str_complete(s, i, k0);
        let j0 = i + k0.len() + 2;
        assert(s[j0] == s.subrange(j0, j0 + tail.len())[0]);
        assert(s[j0] == 58);
        lemma_subrange_prefix(s, j0, seq![58u8], ser_str(v0) + seq![125u8]);
        lemma_subrange_prefix(s, j0 + 1, ser_str(v0), seq![125u8]);
        lemma_parse_str_complete(s, j0 + 1, v0);
        let j1 = j0 + 1 + v0.len() + 2;
        assert(s[j1] == s.subrange(j1, j1 + 1)[0]);
        assert(s[j1] == 125);
        assert(seq![(k0, v0)] =~= kvs);
    } else {
        let rest = kvs.drop_first();
        let after = seq![58u8] + (ser_str(v0) + (seq![44u8] + (ser_meta_items(rest)
            + seq![125u8])));
        crate::ser::lemma_ser_meta_items_cons(kvs);
        assert(ser_meta_items(kvs) + seq![125u8] =~= ser_str(k0) + after);
        lemma_subrange_prefix(s, i, ser_str(k0), after);
        lemma_parse_str_complete(s, i, k0);
        let j0 = i + k0.len() + 2;
        assert(s[j0] == s.subrange(j0, j0 + after.len())[0]);
        assert(s[j0] == 58);
        lemma_subrange_prefix(s, j0, seq![58u8], ser_str(v0) + (seq![44u8] + (ser_meta_items(rest)
            + seq![125u8])));
        lemma_subrange_prefix(
            s,
            j0 + 1,
            ser_str(v0),
            seq![44u8] + (ser_meta_items(rest) + seq![125u8]),
        );
        lemma_parse_str_complete(s, j0 + 1, v0);
        let j1 = j0 + 1 + v0.len() + 2;
        assert(s[j1] == s.subrange(j1, j1 + (seq![44u8] + (ser_meta_items(rest)
            + seq![125u8])).len())[0]);
        assert(s[j1] == 44);
        lemma_subrange_prefix(s, j1, seq![44u8], ser_meta_items(rest) + seq![125u8]);
        assert(meta_pairs_wf(rest)) by {
            assert(forall|t: int| 0 <= t < rest.len() ==> rest[t] == kvs[t + 1]);
        }
        assert forall|t: int| 0 <= t < rest.len() implies !seen.push(k0).contains(
            (#[trigger] rest[t]).0,
        ) by {
            assert(rest[t] == kvs[t + 1]);
            assert(kvs[0].0 != kvs[t + 1].0);
            assert(!seen.contains(kvs[t + 1].0));
            lemma_not_in_push(seen, k0, rest[t].0);
        }
        lemma_parse_meta_tail_complete(s, j1 + 1, rest, seen.push(k0));
        assert(seq![(k0, v0)] + rest =~= kvs);
    }
}

/// Parsing right after the serialized entries of a non-empty tensor list,
/// bounded by the closing brace, returns that list.
#[verifier::rlimit(100)]
pub proof fn lemma_parse_tensors_tail_complete(
    s: Seq<u8>,
    i: int,
    ts: Seq<(Seq<char>, TensorMetaV)>,
    seen: Seq<Seq<char>>,
)
    requires
        ts.len() >= 1,
        tensor_entries_wf(ts),
        forall|t: int| 0 <= t < ts.len() ==> !seen.contains((#[trigger] ts[t]).0),
        0 <= i,
        i + ser_tensor_items(ts).len() + 1 <= s.len(),
        s.subrange(i, i + ser_tensor_items(ts).len() + 1) == ser_tensor_items(ts) + seq![125u8],
    ensures
        parse_tensors_tail(s, i, seen) == Some((ts, i + ser_tensor_items(ts).len() + 1)),
    decreases ts.len(),
{
    let n0 = ts[0].0;
    let m0 = ts[0].1;
    assert(plain_str(n0) && m0.wf() && n0 != metadata_key());
    assert(!seen.contains(n0));
    if ts.len() == 1 {
        let tail = seq![58u8] + (ser_tensor_meta(m0) + seq![125u8]);
        assert(ser_tensor_items(ts) + seq![125u8] =~= ser_str(n0) + (seq![58u8] + (ser_tensor_meta(
            m0,
        ) + seq![125u8])));
        lemma_subrange_prefix(s, i, ser_str(n0), tail);
        lemma_parse_str_complete(s, i, n0);
        let j0 = i + n0.len() + 2;
        assert(s[j0] == s.subrange(j0, j0 + tail.len())[0]);
        assert(s[j0] == 58);
        lemma_subrange_prefix(s, j0, seq![58u8], ser_tensor_meta(m0) + seq![125u8]);
        lemma_subrange_prefix(s, j0 + 1, ser_tensor_meta(m0), seq![125u8]);
        lemma_parse_tensor_meta_complete(s, j0 + 1, m0);
        let j1 = j0 + 1 + ser_tensor_meta(m0).len();
        assert(s[j1] == s.subrange(j1, j1 + 1)[0]);
        assert(s[j1] == 125);
        assert(seq![(n0, m0)] =~= ts);
    } else {
        let rest = ts.drop_first();
        let after = seq![58u8] + (ser_tensor_meta(m0) + (seq![44u8] + (ser_tensor_items(rest)
            + seq![125u8])));
        crate::ser::lemma_ser_tensor_items_cons(ts);
        assert(ser_tensor_items(ts) + seq![125u8] =~= ser_str(n0) + after);
        lemma_subrange_prefix(s, i, ser_str(n0), after);
        lemma_parse_str_complete(s, i, n0);
        let j0 = i + n0.len() + 2;
        assert(s[j0] == s.subrange(j0, j0 + after.len())[0]);
        assert(s[j0] == 58);
        lemma_subrange_prefix(
            s,
            j0,
            seq![58u8],
            ser_tensor_meta(m0) + (seq![44u8] + (ser_tensor_items(rest) + seq![125u8])),
        );
        lemma_subrange_prefix(
            s,
            j0 + 1,
            ser_tensor_meta(m0),
            seq![44u8] + (ser_tensor_items(rest) + seq![125u8]),
        );
        lemma_parse_tensor_meta_complete(s, j0 + 1, m0);
        let j1 = j0 + 1 + ser_tensor_meta(m0).len();
        assert(s[j1] == s.subrange(j1, j1 + (seq![44u8] + (ser_tensor_items(rest)
            + seq![125u8])).len())[0]);
        assert(s[j1] == 44);
        lemma_subrange_prefix(s, j1, seq![44u8], ser_tensor_items(rest) + seq![125u8]);
        assert(tensor_entries_wf(rest)) by {
            assert(forall|t: int| 0 <= t < rest.len() ==> rest[t] == ts[t + 1]);
        }
        assert forall|t: int| 0 <= t < rest.len() implies !seen.push(n0).contains(
            (#[trigger] rest[t]).0,
        ) by {
            assert(rest[t] == ts[t + 1]);
            assert(ts[0].0 != ts[t + 1].0);
            assert(!seen.contains(ts[t + 1].0));
            lemma_not_in_push(seen, n0, rest[t].0);
        }
        lemma_parse_tensors_tail_complete(s, j1 + 1, rest, seen.push(n0));
        assert(seq![(n0, m0)] + rest =~= ts);
    }
}

} // verus!

verus! {

/// The reserved key is twelve plain characters.
proof fn lemma_metadata_key_shape()
    ensures
        metadata_key().len() == 12,
        plain_str(metadata_key()),
        metadata_key()[0] == '_',
{
    reveal_strlit("__metadata__");
}

/// A serialized tensor name followed by a colon never matches the quoted
/// reserved key.
pub proof fn lemma_expect_meta_none(s: Seq<u8>, i: int, name: Seq<char>)
    requires
        plain_str(name),
        name != metadata_key(),
        0 <= i,
        i + name.len() + 3 <= s.len(),
        s.subrange(i, i + name.len() + 2) == ser_str(name),
        s[i + name.len() + 2] == 58,
    ensures
        expect_at(s, i, ser_str(metadata_key())) is None,
{
    lemma_metadata_key_shape();
    let key = metadata_key();
    let tok = ser_str(key);
    assert(tok.len() == 14);
    if expect_at(s, i, tok) is Some {
        let sub = s.subrange(i, i + 14);
        assert(sub == tok);
        if name.len() == 12 {
            assert forall|t: int| 0 <= t < 12 implies name[t] == key[t] by {
                assert(s[i + 1 + t] == s.subrange(i, i + name.len() + 2)[1 + t]);
                assert(ser_str(name)[1 + t] == chars_to_bytes(name)[t]);
                assert(s[i + 1 + t] == sub[1 + t]);
                assert(tok[1 + t] == chars_to_bytes(key)[t]);
                assert(name[t] as u8 == key[t] as u8);
                assert(plain_char(name[t]));
                assert(plain_char(key[t]));
            }
            assert(name =~= key);
            assert(false);
        } else if name.len() < 12 {
            let p: int = 1 + name.len() as int;
            assert(tok[p] == chars_to_bytes(key)[p - 1]);
            assert(plain_char(key[p - 1]));
            assert(tok[p] != 34);
            assert(s[i + p] == s.subrange(i, i + name.len() + 2)[p]);
            assert(ser_str(name)[p] == 34);
            assert(s[i + p] == sub[p]);
            assert(false);
        } else {
            assert(tok[13] == 34);
            assert(s[i + 13] == sub[13]);
            assert(s[i + 13] == s.subrange(i, i + name.len() + 2)[13]);
            assert(ser_str(name)[13] == chars_to_bytes(name)[12]);
            assert(plain_char(name[12]));
            assert(s[i + 13] != 34);
            assert(false);
        }
    }
}

/// Parsing right after a serialized header body with no metadata block
/// returns that header.
#[verifier::rlimit(100)]
proof fn lemma_parse_body_complete_nometa(s: Seq<u8>, i: int, h: HeaderV)
    requires
        h.wf(),
        h.metadata is None,
        0 <= i,
        i + ser_body(h).len() <= s.len(),
        s.subrange(i, i + ser_body(h).len()) == ser_body(h),
    ensures
        parse_body_at(s, i) == Some((h, i + ser_body(h).len())),
{
    lemma_metadata_key_shape();
    let key = metadata_key();
    let whole = s.subrange(i, i + ser_body(h).len());
    assert(s[i] == whole[0]);
    assert(s[i] == 123);
    let ghost empty_seen = Seq::<Seq<char>>::empty();
    assert(forall|x: Seq<char>| !empty_seen.contains(x));
    let ts = h.tensors;
    if ts.len() == 0 {
        assert(ser_body(h).len() == 2);
        assert(s[i + 1] == whole[1]);
        assert(s[i + 1] == 125);
        assert(HeaderV { metadata: None, tensors: Seq::empty() } =~= h);
    } else {
        let n0 = ts[0].0;
        let m0 = ts[0].1;
        assert(plain_str(n0) && n0 != key && m0.wf());
        let items = ser_tensor_items(ts);
        assert(ser_body(h) =~= seq![123u8] + (items + seq![125u8]));
        lemma_subrange_prefix(s, i, seq![123u8], items + seq![125u8]);
        let after = if ts.len() == 1 {
            seq![58u8] + (ser_tensor_meta(m0) + seq![125u8])
        } else {
            seq![58u8] + (ser_tensor_meta(m0) + (seq![44u8] + (ser_tensor_items(ts.drop_first())
                + seq![125u8])))
        };
        if ts.len() > 1 {
            crate::ser::lemma_ser_tensor_items_cons(ts);
        }
        assert(items + seq![125u8] =~= ser_str(n0) + after);
        lemma_subrange_prefix(s, i + 1, ser_str(n0), after);
        assert(s[i + 1] == s.subrange(i + 1, i + 1 + ser_str(n0).len())[0]);
        assert(s[i + 1] == 34);
        assert(s[i + 1 + n0.len() + 2] == s.subrange(
            i + 1 + ser_str(n0).len(),
            i + 1 + ser_str(n0).len() + after.len(),
        )[0]);
        assert(s[i + 1 + n0.len() + 2] == 58);
        lemma_expect_meta_none(s, i + 1, n0);
        lemma_parse_tensors_tail_complete(s, i + 1, ts, empty_seen);
        assert(HeaderV { metadata: None, tensors: ts } =~= h);
    }
}

/// Parsing right after a serialized header body with a metadata block
/// returns that header.
#[verifier::rlimit(100)]
proof fn lemma_parse_body_complete_meta(s: Seq<u8>, i: int, h: HeaderV)
    requires
        h.wf(),
        h.metadata is Some,
        0 <= i,
        i + ser_body(h).len() <= s.len(),
        s.subrange(i, i + ser_body(h).len()) == ser_body(h),
    ensures
        parse_body_at(s, i) == Some((h, i + ser_body(h).len())),
{
    lemma_metadata_key_shape();
    let key = metadata_key();
    let tok = ser_str(key);
    assert(tok.len() == 14);
    let whole = s.subrange(i, i + ser_body(h).len());
    assert(s[i] == whole[0]);
    assert(s[i] == 123);
    let ghost empty_seen = Seq::<Seq<char>>::empty();
    assert(forall|x: Seq<char>| !empty_seen.contains(x));
    let kvs = h.metadata->Some_0;
    let ts = h.tensors;
    let tail_part = if ts.len() > 0 {
        seq![44u8] + (ser_tensor_items(ts) + seq![125u8])
    } else {
        seq![125u8]
    };
    let rest1 = tok + (seq![58u8] + (seq![123u8] + (ser_meta_items(kvs) + (seq![125u8]
        + tail_part))));
    assert(ser_body(h) =~= seq![123u8] + rest1);
    lemma_subrange_prefix(s, i, seq![123u8], rest1);
    assert(s[i + 1] == s.subrange(i + 1, i + 1 + rest1.len())[0]);
    assert(s[i + 1] == tok[0]);
    assert(s[i + 1] == 34);
    let rest2 = seq![58u8] + (seq![123u8] + (ser_meta_items(kvs) + (seq![125u8] + tail_part)));
    assert(rest1 =~= tok + rest2);
    lemma_subrange_prefix(s, i + 1, tok, rest2);
    lemma_expect_complete(s, i + 1, tok);
    let j0 = i + 1 + 14;
    assert(s[j0] == s.subrange(j0, j0 + rest2.len())[0]);
    assert(s[j0] == 58);
    let rest3 = seq![123u8] + (ser_meta_items(kvs) + (seq![125u8] + tail_part));
    lemma_subrange_prefix(s, j0, seq![58u8], rest3);
    assert(s[j0 + 1] == s.subrange(j0 + 1, j0 + 1 + rest3.len())[0]);
    assert(s[j0 + 1] == 123);
    let rest4 = ser_meta_items(kvs) + (seq![125u8] + tail_part);
    lemma_subrange_prefix(s, j0 + 1, seq![123u8], rest4);
    let j1 = j0 + 2 + ser_meta_items(kvs).len();
    lemma_subrange_prefix(s, j0 + 2, ser_meta_items(kvs), seq![125u8] + tail_part);
    assert(s[j1] == s.subrange(j1, j1 + (seq![125u8] + tail_part).len())[0]);
    assert(s[j1] == 125);
    if kvs.len() == 0 {
        assert(ser_meta_items(kvs).len() == 0);
        assert(j1 == j0 + 2);
        assert(parse_meta_obj(s, j0 + 1) == Some(
            (Seq::<(Seq<char>, Seq<char>)>::empty(), j0 + 3),
        ));
        assert(Seq::<(Seq<char>, Seq<char>)>::empty() =~= kvs);
    } else {
        assert(s[j0 + 2] == s.subrange(j0 + 2, j0 + 2 + rest4.len() - 2)[0] || true);
        assert(s[j0 + 2] == s.subrange(j0 + 2, j1)[0]);
        assert(s[j0 + 2] == ser_meta_items(kvs)[0]);
        assert(ser_meta_items(kvs)[0] == 34) by {
            assert(plain_str(kvs[0].0));
        }
        assert(!(j0 + 2 < s.len() && s[j0 + 2] == 125));
        assert(s.subrange(j0 + 2, j1 + 1) =~= ser_meta_items(kvs) + seq![125u8]) by {
            assert(forall|k: int|
                j0 + 2 <= k < j1 ==> #[trigger] s[k] == s.subrange(j0 + 2, j1)[k - j0 - 2]);
        }
        lemma_parse_meta_tail_complete(s, j0 + 2, kvs, empty_seen);
        assert(parse_meta_obj(s, j0 + 1) == Some((kvs, j1 + 1)));
    }
    lemma_subrange_prefix(s, j1, seq![125u8], tail_part);
    if ts.len() > 0 {
        assert(s[j1 + 1] == s.subrange(j1 + 1, j1 + 1 + tail_part.len())[0]);
        assert(s[j1 + 1] == 44);
        lemma_subrange_prefix(s, j1 + 1, seq![44u8], ser_tensor_items(ts) + seq![125u8]);
        lemma_parse_tensors_tail_complete(s, j1 + 2, ts, empty_seen);
        assert(HeaderV { metadata: Some(kvs), tensors: ts } =~= h);
    } else {
        assert(s[j1 + 1] == s.subrange(j1 + 1, j1 + 1 + tail_part.len())[0]);
        assert(s[j1 + 1] == 125);
        assert(HeaderV { metadata: Some(kvs), tensors: Seq::empty() } =~= h);
    }
}

/// Parsing right after a serialized header body returns that header.
pub proof fn lemma_parse_body_complete(s: Seq<u8>, i: int, h: HeaderV)
    requires
        h.wf(),
        0 <= i,
        i + ser_body(h).len() <= s.len(),
        s.subrange(i, i + ser_body(h).len()) == ser_body(h),
    ensures
        parse_body_at(s, i) == Some((h, i + ser_body(h).len())),
{
    match h.metadata {
        None => lemma_parse_body_complete_nometa(s, i, h),
        Some(kvs) => lemma_parse_body_complete_meta(s, i, h),
    }
}

} // verus!

verus! {

/// Round trip of the header codec: for every well-formed header whose
/// padded body fits the length prefix, parsing the serialized bytes yields
/// the header's exact content and the padded body length. Padding bytes
/// are not part of the content and need not round-trip.
pub proof fn lemma_header_round_trip(h: HeaderV)
    requires
        h.wf(),
        padded_body(h).len() <= u64::MAX,
    ensures
        spec_parse_header(spec_ser_header(h)) == Some((h, padded_body(h).len() as u64)),
{
    let body = padded_body(h);
    let n: u64 = body.len() as u64;
    let s = spec_ser_header(h);
    vstd::bytes::lemma_auto_spec_u64_to_from_le_bytes();
    assert(vstd::bytes::spec_u64_to_le_bytes(n).len() == 8);
    assert(s =~= vstd::bytes::spec_u64_to_le_bytes(n) + body);
    assert(s.subrange(0, 8) =~= vstd::bytes::spec_u64_to_le_bytes(n));
    assert(vstd::bytes::spec_u64_from_le_bytes(s.subrange(0, 8)) == n);
    assert(s.len() == 8 + n);
    assert(s.subrange(8, 8 + n) =~= body);
    let sb = ser_body(h);
    assert(body =~= sb + spaces(pad_len(sb.len() as int)));
    assert(body.subrange(0, body.len() as int) =~= body);
    lemma_subrange_prefix(body, 0, sb, spaces(pad_len(sb.len() as int)));
    lemma_parse_body_complete(body, 0, h);
    assert(all_spaces_from(body, sb.len() as int)) by {
        assert(forall|k: int|
            sb.len() <= k < body.len() ==> body[k] == spaces(pad_len(sb.len() as int))[k
                - sb.len()]);
    }
}

} // verus!
