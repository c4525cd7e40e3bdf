//! Parsing of a serialized container header: the little-endian length
//! prefix and the canonical JSON body the serializer produces.
//!
//! Each specification function consumes bytes from an index and returns the
//! parsed value with the index just past it, or nothing when the input does
//! not follow the grammar. The executable parser returns exactly what the
//! specification functions denote.

use vstd::prelude::*;
use vstd::string::StringSliceAdditionalSpecFns;

use crate::errors::FormatError;

use crate::header::{bytes_to_chars, plain_byte, HeaderV, TensorMetaV};

verus! {

/// An ASCII decimal digit.
pub open spec fn is_digit(b: u8) -> bool {
    48 <= b <= 57
}

/// First index at or after `i` that holds no digit (or the end).
pub open spec fn scan_digits(s: Seq<u8>, i: int) -> int
    decreases s.len() - i,
{
    if i < 0 || i >= s.len() {
        i
    } else if is_digit(s[i]) {
        scan_digits(s, i + 1)
    } else {
        i
    }
}

/// The value of a digit string, most significant digit first.
pub open spec fn digits_val(ds: Seq<u8>) -> int
    decreases ds.len(),
{
    if ds.len() == 0 {
        0
    } else {
        digits_val(ds.drop_last()) * 10 + (ds.last() - 48)
    }
}

/// Parses a decimal number that fits in a `u64`.
pub open spec fn parse_u64_at(s: Seq<u8>, i: int) -> Option<(u64, int)> {
    let j = scan_digits(s, i);
    if j == i {
        None
    } else {
        let v = digits_val(s.subrange(i, j));
        if v > u64::MAX {
            None
        } else {
            Some((v as u64, j))
        }
    }
}

/// Index of the closing quote of a string of plain bytes, scanning from
/// `i`.
pub open spec fn scan_string(s: Seq<u8>, i: int) -> Option<int>
    decreases s.len() - i,
{
    if i < 0 || i >= s.len() {
        None
    } else if s[i] == 34 {
        Some(i)
    } else if plain_byte(s[i]) {
        scan_string(s, i + 1)
    } else {
        None
    }
}

/// Parses a quoted string of plain characters.
pub open spec fn parse_str_at(s: Seq<u8>, i: int) -> Option<(Seq<char>, int)> {
    if 0 <= i < s.len() && s[i] == 34 {
        match scan_string(s, i + 1) {
            Some(j) => Some((bytes_to_chars(s.subrange(i + 1, j)), j + 1)),
            None => None,
        }
    } else {
        None
    }
}

/// Consumes the exact byte sequence `tok` at `i`.
pub open spec fn expect_at(s: Seq<u8>, i: int, tok: Seq<u8>) -> Option<int> {
    if 0 <= i && i + tok.len() <= s.len() && s.subrange(i, i + tok.len()) == tok {
        Some(i + tok.len())
    } else {
        None
    }
}

/// The range scanned for digits begins at `i` and stays in bounds.
pub proof fn lemma_scan_digits_range(s: Seq<u8>, i: int)
    requires
        0 <= i <= s.len(),
    ensures
        i <= scan_digits(s, i) <= s.len(),
        forall|k: int| i <= k < scan_digits(s, i) ==> is_digit(#[trigger] s[k]),
        scan_digits(s, i) < s.len() ==> !is_digit(s[scan_digits(s, i)]),
    decreases s.len() - i,
{
    if i < s.len() && is_digit(s[i]) {
        lemma_scan_digits_range(s, i + 1);
    }
}

/// The scanned string span holds plain bytes and ends on the quote.
pub proof fn lemma_scan_string_range(s: Seq<u8>, i: int)
    requires
        0 <= i <= s.len(),
    ensures
        match scan_string(s, i) {
            Some(j) => i <= j < s.len() && s[j] == 34 && forall|k: int|
                i <= k < j ==> plain_byte(#[trigger] s[k]),
            None => true,
        },
    decreases s.len() - i,
{
    if i < s.len() && s[i] != 34 && plain_byte(s[i]) {
        lemma_scan_string_range(s, i + 1);
    }
}

/// Executable scan for the closing quote, equal to `scan_string`.
pub fn find_string_end(s: &[u8], i: usize) -> (r: Option<usize>)
    requires
        i <= s@.len(),
    ensures
        match r {
            Some(j) => scan_string(s@, i as int) == Some(j as int) && i <= j < s@.len(),
            None => scan_string(s@, i as int) is None,
        },
{
    let mut k: usize = i;
    loop
        invariant
            i <= k <= s@.len(),
            scan_string(s@, i as int) == scan_string(s@, k as int),
        decreases s@.len() - k,
    {
        if k >= s.len() {
            return None;
        }
        let b = s[k];
        if b == 34 {
            proof {
                lemma_scan_string_range(s@, k as int);
            }
            return Some(k);
        }
        if !(0x20 <= b && b <= 0x7e && b != 0x5c) {
            return None;
        }
        k = k + 1;
    }
}

/// Executable parse of a quoted plain string; returns its bytes and the
/// index just past the closing quote.
pub fn parse_str_bytes(s: &[u8], i: usize) -> (r: Option<(Vec<u8>, usize)>)
    requires
        i <= s@.len(),
    ensures
        match r {
            Some((b, j)) => {
                &&& parse_str_at(s@, i as int) == Some((bytes_to_chars(b@), j as int))
                &&& i < j <= s@.len()
                &&& forall|k: int| 0 <= k < b@.len() ==> plain_byte(#[trigger] b@[k])
            },
            None => parse_str_at(s@, i as int) is None,
        },
{
    if i >= s.len() || s[i] != 34 {
        return None;
    }
    match find_string_end(s, i + 1) {
        Some(j) => {
            let b = vstd::slice::slice_to_vec(vstd::slice::slice_subrange(s, i + 1, j));
            proof {
                lemma_scan_string_range(s@, i + 1 as int);
            }
            Some((b, j + 1))
        },
        None => None,
    }
}

/// Executable parse of a decimal `u64`.
pub fn parse_u64(s: &[u8], i: usize) -> (r: Option<(u64, usize)>)
    requires
        i <= s@.len(),
    ensures
        match r {
            Some((x, j)) => parse_u64_at(s@, i as int) == Some((x, j as int)) && i < j
                <= s@.len(),
            None => parse_u64_at(s@, i as int) is None,
        },
{
    proof {
        lemma_scan_digits_range(s@, i as int);
    }
    let ghost jj = scan_digits(s@, i as int);
    let mut k: usize = i;
    let mut acc: u64 = 0;
    assert(s@.subrange(i as int, i as int) =~= Seq::<u8>::empty());
    while k < s.len() && 48 <= s[k] && s[k] <= 57
        invariant
            i <= k <= jj <= s@.len(),
            jj == scan_digits(s@, i as int),
            forall|t: int| i <= t < jj ==> is_digit(#[trigger] s@[t]),
            jj < s@.len() ==> !is_digit(s@[jj as int]),
            acc == digits_val(s@.subrange(i as int, k as int)),
        decreases s@.len() - k,
    {
        let d = s[k] - 48;
        proof {
            assert(k < jj);
            let pa = s@.subrange(i as int, k as int);
            let pa1 = s@.subrange(i as int, k + 1 as int);
            assert(pa1 =~= pa.push(s@[k as int]));
            assert(pa1.drop_last() =~= pa);
            assert(pa1.last() == s@[k as int]);
            assert(digits_val(pa1) == digits_val(pa) * 10 + d);
        }
        let next = match acc.checked_mul(10) {
            Some(t) => t.checked_add(d as u64),
            None => None,
        };
        match next {
            Some(t2) => {
                acc = t2;
            },
            None => {
                proof {
                    lemma_digits_val_nonneg_span(s@, i as int, k + 1 as int);
                    assert(digits_val(s@.subrange(i as int, k + 1 as int)) > u64::MAX);
                    lemma_digits_val_mono(s@, i as int, k + 1 as int, jj);
                }
                return None;
            },
        }
        k = k + 1;
    }
    proof {
        assert(k == jj);
    }
    if k == i {
        return None;
    }
    Some((acc, k))
}

/// Digit spans have non-negative values.
pub proof fn lemma_digits_val_nonneg_span(s: Seq<u8>, i: int, a: int)
    requires
        0 <= i <= a <= s.len(),
        forall|t: int| i <= t < a ==> is_digit(#[trigger] s[t]),
    ensures
        digits_val(s.subrange(i, a)) >= 0,
{
    let ds = s.subrange(i, a);
    assert(forall|k: int| 0 <= k < ds.len() ==> is_digit(#[trigger] ds[k]));
    lemma_digits_val_nonneg(ds);
}

/// Digit strings have non-negative values.
pub proof fn lemma_digits_val_nonneg(ds: Seq<u8>)
    requires
        forall|k: int| 0 <= k < ds.len() ==> is_digit(#[trigger] ds[k]),
    ensures
        digits_val(ds) >= 0,
    decreases ds.len(),
{
    if ds.len() > 0 {
        lemma_digits_val_nonneg(ds.drop_last());
    }
}

/// Extending a digit span cannot lower its value.
pub proof fn lemma_digits_val_mono(s: Seq<u8>, i: int, a: int, b: int)
    requires
        0 <= i <= a <= b <= s.len(),
        forall|t: int| i <= t < b ==> is_digit(#[trigger] s[t]),
    ensures
        digits_val(s.subrange(i, a)) <= digits_val(s.subrange(i, b)),
    decreases b - a,
{
    if a < b {
        lemma_digits_val_mono(s, i, a + 1, b);
        let pa = s.subrange(i, a);
        let pa1 = s.subrange(i, a + 1);
        assert(pa1 =~= pa.push(s[a]));
        assert(pa1.drop_last() =~= pa);
        lemma_digits_val_nonneg(pa);
        assert(digits_val(pa1) == digits_val(pa) * 10 + (s[a] - 48));
        assert(digits_val(pa) <= digits_val(pa) * 10 + (s[a] - 48));
    }
}

} // verus!

verus! {

/// Parses `number ("," number)* "]"`, starting at the first number.
pub open spec fn parse_u64_tail(s: Seq<u8>, i: int) -> Option<(Seq<u64>, int)>
    decreases s.len() - i,
{
    match parse_u64_at(s, i) {
        Some((x, j)) => {
            if j < s.len() && s[j] == 44 && j + 1 > i {
                match parse_u64_tail(s, j + 1) {
                    Some((xs, k)) => Some((seq![x] + xs, k)),
                    None => None,
                }
            } else if j < s.len() && s[j] == 93 {
                Some((seq![x], j + 1))
            } else {
                None
            }
        },
        None => None,
    }
}

/// Parses a complete JSON array of numbers.
pub open spec fn parse_array_at(s: Seq<u8>, i: int) -> Option<(Seq<u64>, int)> {
    if 0 <= i < s.len() && s[i] == 91 {
        if i + 1 < s.len() && s[i + 1] == 93 {
            Some((Seq::<u64>::empty(), i + 2))
        } else {
            parse_u64_tail(s, i + 1)
        }
    } else {
        None
    }
}

/// Parses one tensor's metadata object, fields in canonical order, and
/// requires an ordered byte range.
pub open spec fn parse_tensor_meta_at(s: Seq<u8>, i: int) -> Option<(TensorMetaV, int)> {
    match expect_at(s, i, crate::header::chars_to_bytes("{\"dtype\":"@)) {
        Some(j0) => match parse_str_at(s, j0) {
            Some((dt, j1)) => match expect_at(s, j1, crate::header::chars_to_bytes(",\"shape\":"@)) {
                Some(j2) => match parse_array_at(s, j2) {
                    Some((sh, j3)) => match expect_at(
                        s,
                        j3,
                        crate::header::chars_to_bytes(",\"data_offsets\":["@),
                    ) {
                        Some(j4) => match parse_u64_at(s, j4) {
                            Some((st, j5)) => {
                                if j5 < s.len() && s[j5] == 44 {
                                    match parse_u64_at(s, j5 + 1) {
                                        Some((en, j6)) => match expect_at(
                                            s,
                                            j6,
                                            crate::header::chars_to_bytes("]}"@),
                                        ) {
                                            Some(j7) => {
                                                if st <= en {
                                                    Some(
                                                        (
                                                            TensorMetaV {
                                                                dtype: dt,
                                                                shape: sh,
                                                                offset_start: st,
                                                                offset_end: en,
                                                            },
                                                            j7,
                                                        ),
                                                    )
                                                } else {
                                                    None
                                                }
                                            },
                                            None => None,
                                        },
                                        None => None,
                                    }
                                } else {
                                    None
                                }
                            },
                            None => None,
                        },
                        None => None,
                    },
                    None => None,
                },
                None => None,
            },
            None => None,
        },
        None => None,
    }
}

/// Parses `"key":"value" ("," "key":"value")* "}"`, rejecting keys already
/// seen.
pub open spec fn parse_meta_tail(s: Seq<u8>, i: int, seen: Seq<Seq<char>>) -> Option<
    (Seq<(Seq<char>, Seq<char>)>, int),
>
    decreases s.len() - i,
{
    match parse_str_at(s, i) {
        Some((k0, j0)) => {
            if seen.contains(k0) {
                None
            } else if j0 < s.len() && s[j0] == 58 {
                match parse_str_at(s, j0 + 1) {
                    Some((v0, j1)) => {
                        if j1 < s.len() && s[j1] == 44 && j1 + 1 > i {
                            match parse_meta_tail(s, j1 + 1, seen.push(k0)) {
                                Some((kvs, k)) => Some((seq![(k0, v0)] + kvs, k)),
                                None => None,
                            }
                        } else if j1 < s.len() && s[j1] == 125 {
                            Some((seq![(k0, v0)], j1 + 1))
                        } else {
                            None
                        }
                    },
                    None => None,
                }
            } else {
                None
            }
        },
        None => None,
    }
}

/// Parses the metadata block: an object of string pairs.
pub open spec fn parse_meta_obj(s: Seq<u8>, i: int) -> Option<(Seq<(Seq<char>, Seq<char>)>, int)> {
    if 0 <= i < s.len() && s[i] == 123 {
        if i + 1 < s.len() && s[i + 1] == 125 {
            Some((Seq::<(Seq<char>, Seq<char>)>::empty(), i + 2))
        } else {
            parse_meta_tail(s, i + 1, Seq::<Seq<char>>::empty())
        }
    } else {
        None
    }
}

/// Parses `"name":{...} ("," "name":{...})* "}"`, rejecting repeated names
/// and the reserved key.
pub open spec fn parse_tensors_tail(s: Seq<u8>, i: int, seen: Seq<Seq<char>>) -> Option<
    (Seq<(Seq<char>, TensorMetaV)>, int),
>
    decreases s.len() - i,
{
    match parse_str_at(s, i) {
        Some((n0, j0)) => {
            if seen.contains(n0) || n0 == crate::header::metadata_key() {
                None
            } else if j0 < s.len() && s[j0] == 58 {
                match parse_tensor_meta_at(s, j0 + 1) {
                    Some((m0, j1)) => {
                        if j1 < s.len() && s[j1] == 44 && j1 + 1 > i {
                            match parse_tensors_tail(s, j1 + 1, seen.push(n0)) {
                                Some((ts, k)) => Some((seq![(n0, m0)] + ts, k)),
                                None => None,
                            }
                        } else if j1 < s.len() && s[j1] == 125 {
                            Some((seq![(n0, m0)], j1 + 1))
                        } else {
                            None
                        }
                    },
                    None => None,
                }
            } else {
                None
            }
        },
        None => None,
    }
}

/// Parses the whole JSON body of a header: one object, metadata block
/// first when present, then the tensor entries.
pub open spec fn parse_body_at(s: Seq<u8>, i: int) -> Option<(HeaderV, int)> {
    if 0 <= i < s.len() && s[i] == 123 {
        if i + 1 < s.len() && s[i + 1] == 125 {
            Some((HeaderV { metadata: None, tensors: Seq::empty() }, i + 2))
        } else {
            match expect_at(s, i + 1, crate::ser::ser_str(crate::header::metadata_key())) {
                Some(j0) => {
                    if j0 < s.len() && s[j0] == 58 {
                        match parse_meta_obj(s, j0 + 1) {
                            Some((kvs, j1)) => {
                                if j1 < s.len() && s[j1] == 44 {
                                    match parse_tensors_tail(s, j1 + 1, Seq::empty()) {
                                        Some((ts, j2)) => Some(
                                            (HeaderV { metadata: Some(kvs), tensors: ts }, j2),
                                        ),
                                        None => None,
                                    }
                                } else if j1 < s.len() && s[j1] == 125 {
                                    Some(
                                        (
                                            HeaderV { metadata: Some(kvs), tensors: Seq::empty() },
                                            j1 + 1,
                                        ),
                                    )
                                } else {
                                    None
                                }
                            },
                            None => None,
                        }
                    } else {
                        None
                    }
                },
                None => match parse_tensors_tail(s, i + 1, Seq::empty()) {
                    Some((ts, j2)) => Some((HeaderV { metadata: None, tensors: ts }, j2)),
                    None => None,
                },
            }
        }
    } else {
        None
    }
}

/// Nothing but ASCII spaces from `i` to the end.
pub open spec fn all_spaces_from(s: Seq<u8>, i: int) -> bool {
    forall|k: int| i <= k < s.len() ==> s[k] == 32
}

/// Parses a full serialized header: the 8-byte little-endian body length,
/// then the JSON body, then space padding to the promised length.
pub open spec fn spec_parse_header(s: Seq<u8>) -> Option<(HeaderV, u64)> {
    if s.len() < 8 {
        None
    } else {
        let n = vstd::bytes::spec_u64_from_le_bytes(s.subrange(0, 8));
        if s.len() < 8 + n {
            None
        } else {
            let body = s.subrange(8, 8 + n);
            match parse_body_at(body, 0) {
                Some((h, j)) => {
                    if j <= body.len() && all_spaces_from(body, j) {
                        Some((h, n))
                    } else {
                        None
                    }
                },
                None => None,
            }
        }
    }
}

} // verus!

verus! {

/// Plain bytes decode to plain characters.
pub proof fn lemma_plain_bytes_to_chars(bs: Seq<u8>)
    requires
        forall|k: int| 0 <= k < bs.len() ==> plain_byte(#[trigger] bs[k]),
    ensures
        crate::header::plain_str(bytes_to_chars(bs)),
{
    assert forall|k: int| 0 <= k < bytes_to_chars(bs).len() implies crate::header::plain_char(
        #[trigger] bytes_to_chars(bs)[k],
    ) by {
        assert(plain_byte(bs[k]));
        assert(bytes_to_chars(bs)[k] == bs[k] as char);
    }
}

/// A parsed string holds only plain characters.
pub proof fn lemma_parse_str_plain(s: Seq<u8>, i: int)
    requires
        0 <= i <= s.len(),
    ensures
        match parse_str_at(s, i) {
            Some((cs, j)) => crate::header::plain_str(cs) && i < j <= s.len(),
            None => true,
        },
{
    if 0 <= i < s.len() && s[i] == 34 {
        lemma_scan_string_range(s, i + 1);
        match scan_string(s, i + 1) {
            Some(j) => {
                let bs = s.subrange(i + 1, j);
                assert(forall|k: int| 0 <= k < bs.len() ==> plain_byte(#[trigger] bs[k]));
                lemma_plain_bytes_to_chars(bs);
            },
            None => {},
        }
    }
}

/// The metadata keys of a parse list.
pub open spec fn meta_keys(kvs: Seq<(Seq<char>, Seq<char>)>) -> Seq<Seq<char>> {
    kvs.map_values(|p: (Seq<char>, Seq<char>)| p.0)
}

/// The tensor names of a parse list.
pub open spec fn tensor_names(ts: Seq<(Seq<char>, TensorMetaV)>) -> Seq<Seq<char>> {
    ts.map_values(|p: (Seq<char>, TensorMetaV)| p.0)
}

/// A parsed metadata pair list is well formed and avoids the seen keys.
pub proof fn lemma_parse_meta_tail_wf(s: Seq<u8>, i: int, seen: Seq<Seq<char>>)
    requires
        0 <= i <= s.len(),
    ensures
        match parse_meta_tail(s, i, seen) {
            Some((kvs, k)) => crate::header::meta_pairs_wf(kvs) && i < k <= s.len() && forall|
                t: int,
            | 0 <= t < kvs.len() ==> !seen.contains((#[trigger] kvs[t]).0),
            None => true,
        },
    decreases s.len() - i,
{
    lemma_parse_str_plain(s, i);
    match parse_str_at(s, i) {
        Some((k0, j0)) => {
            if !seen.contains(k0) && j0 < s.len() && s[j0] == 58 {
                lemma_parse_str_plain(s, j0 + 1);
                match parse_str_at(s, j0 + 1) {
                    Some((v0, j1)) => {
                        if j1 < s.len() && s[j1] == 44 && j1 + 1 > i {
                            lemma_parse_meta_tail_wf(s, j1 + 1, seen.push(k0));
                            match parse_meta_tail(s, j1 + 1, seen.push(k0)) {
                                Some((rest, k)) => {
                                    let kvs = seq![(k0, v0)] + rest;
                                    assert(seen.push(k0)[seen.len() as int] == k0);
                                    assert(seen.push(k0).contains(k0));
                                    assert forall|t: int| 0 <= t < kvs.len() implies !seen.contains(
                                        (#[trigger] kvs[t]).0,
                                    ) by {
                                        if t > 0 {
                                            assert(kvs[t] == rest[t - 1]);
                                            assert(!seen.push(k0).contains(rest[t - 1].0));
                                            if seen.contains(rest[t - 1].0) {
                                                let w = choose|w: int|
                                                    0 <= w < seen.len() && seen[w] == rest[t
                                                        - 1].0;
                                                assert(seen.push(k0)[w] == rest[t - 1].0);
                                            }
                                        }
                                    }
                                    assert forall|a: int, b: int|
                                        0 <= a < b < kvs.len() implies (#[trigger] kvs[a]).0 != (
                                    #[trigger] kvs[b]).0 by {
                                        if a == 0 {
                                            assert(kvs[b] == rest[b - 1]);
                                            assert(!seen.push(k0).contains(rest[b - 1].0));
                                            if rest[b - 1].0 == k0 {
                                                assert(seen.push(k0).contains(rest[b - 1].0));
                                            }
                                        } else {
                                            assert(kvs[a] == rest[a - 1]);
                                            assert(kvs[b] == rest[b - 1]);
                                        }
                                    }
                                    assert forall|t: int| 0 <= t < kvs.len() implies plain_str_pair(
                                        #[trigger] kvs[t],
                                    ) by {
                                        if t == 0 {
                                            assert(kvs[0] == (k0, v0));
                                        } else {
                                            assert(kvs[t] == rest[t - 1]);
                                        }
                                    }
                                },
                                None => {},
                            }
                        }
                    },
                    None => {},
                }
            }
        },
        None => {},
    }
}

/// Both parts of a metadata pair are plain strings.
pub open spec fn plain_str_pair(p: (Seq<char>, Seq<char>)) -> bool {
    crate::header::plain_str(p.0) && crate::header::plain_str(p.1)
}

} // verus!

verus! {

/// A parsed number list ends past its start and inside the input.
pub proof fn lemma_parse_u64_tail_bounds(s: Seq<u8>, i: int)
    requires
        0 <= i <= s.len(),
    ensures
        match parse_u64_tail(s, i) {
            Some((xs, k)) => i < k <= s.len(),
            None => true,
        },
    decreases s.len() - i,
{
    lemma_scan_digits_range(s, i);
    match parse_u64_at(s, i) {
        Some((x, j)) => {
            if j < s.len() && s[j] == 44 && j + 1 > i {
                lemma_parse_u64_tail_bounds(s, j + 1);
            }
        },
        None => {},
    }
}

/// A parsed number array ends past its start and inside the input.
pub proof fn lemma_parse_array_bounds(s: Seq<u8>, i: int)
    requires
        0 <= i <= s.len(),
    ensures
        match parse_array_at(s, i) {
            Some((xs, k)) => i < k <= s.len(),
            None => true,
        },
{
    if 0 <= i < s.len() && s[i] == 91 {
        if !(i + 1 < s.len() && s[i + 1] == 93) {
            lemma_parse_u64_tail_bounds(s, i + 1);
        }
    }
}

/// A parsed tensor metadata object is well formed.
pub proof fn lemma_parse_tensor_meta_wf(s: Seq<u8>, i: int)
    requires
        0 <= i <= s.len(),
    ensures
        match parse_tensor_meta_at(s, i) {
            Some((m, j)) => m.wf() && i < j <= s.len(),
            None => true,
        },
{
    reveal_strlit("{\"dtype\":");
    reveal_strlit(",\"shape\":");
    reveal_strlit(",\"data_offsets\":[");
    reveal_strlit("]}");
    match expect_at(s, i, crate::header::chars_to_bytes("{\"dtype\":"@)) {
        Some(j0) => {
            assert(i < j0 <= s.len());
            lemma_parse_str_plain(s, j0);
            match parse_str_at(s, j0) {
                Some((dt, j1)) => {
                    match expect_at(s, j1, crate::header::chars_to_bytes(",\"shape\":"@)) {
                        Some(j2) => {
                            assert(j1 < j2 <= s.len());
                            lemma_parse_array_bounds(s, j2);
                            match parse_array_at(s, j2) {
                                Some((sh, j3)) => {
                                    match expect_at(
                                        s,
                                        j3,
                                        crate::header::chars_to_bytes(",\"data_offsets\":["@),
                                    ) {
                                        Some(j4) => {
                                            assert(j3 < j4 <= s.len());
                                            lemma_scan_digits_range(s, j4);
                                            match parse_u64_at(s, j4) {
                                                Some((st, j5)) => {
                                                    if j5 < s.len() && s[j5] == 44 {
                                                        lemma_scan_digits_range(s, j5 + 1);
                                                    }
                                                },
                                                None => {},
                                            }
                                        },
                                        None => {},
                                    }
                                },
                                None => {},
                            }
                        },
                        None => {},
                    }
                },
                None => {},
            }
        },
        None => {},
    }
}

/// A parsed tensor entry list is well formed and avoids the seen names.
pub proof fn lemma_parse_tensors_tail_wf(s: Seq<u8>, i: int, seen: Seq<Seq<char>>)
    requires
        0 <= i <= s.len(),
    ensures
        match parse_tensors_tail(s, i, seen) {
            Some((ts, k)) => crate::header::tensor_entries_wf(ts) && i < k <= s.len() && forall|
                t: int,
            | 0 <= t < ts.len() ==> !seen.contains((#[trigger] ts[t]).0),
            None => true,
        },
    decreases s.len() - i,
{
    lemma_parse_str_plain(s, i);
    match parse_str_at(s, i) {
        Some((n0, j0)) => {
            if !seen.contains(n0) && n0 != crate::header::metadata_key() && j0 < s.len() && s[j0]
                == 58 {
                lemma_parse_tensor_meta_wf(s, j0 + 1);
                match parse_tensor_meta_at(s, j0 + 1) {
                    Some((m0, j1)) => {
                        if j1 < s.len() && s[j1] == 44 && j1 + 1 > i {
                            lemma_parse_tensors_tail_wf(s, j1 + 1, seen.push(n0));
                            match parse_tensors_tail(s, j1 + 1, seen.push(n0)) {
                                Some((rest, k)) => {
                                    let ts = seq![(n0, m0)] + rest;
                                    assert(seen.push(n0)[seen.len() as int] == n0);
                                    assert(seen.push(n0).contains(n0));
                                    assert forall|t: int| 0 <= t < ts.len() implies !seen.contains(
                                        (#[trigger] ts[t]).0,
                                    ) by {
                                        if t > 0 {
                                            assert(ts[t] == rest[t - 1]);
                                            assert(!seen.push(n0).contains(rest[t - 1].0));
                                            if seen.contains(rest[t - 1].0) {
                                                let w = choose|w: int|
                                                    0 <= w < seen.len() && seen[w] == rest[t
                                                        - 1].0;
                                                assert(seen.push(n0)[w] == rest[t - 1].0);
                                            }
                                        }
                                    }
                                    assert forall|a: int, b: int|
                                        0 <= a < b < ts.len() implies (#[trigger] ts[a]).0 != (
                                    #[trigger] ts[b]).0 by {
                                        if a == 0 {
                                            assert(ts[b] == rest[b - 1]);
                                            assert(!seen.push(n0).contains(rest[b - 1].0));
                                            if rest[b - 1].0 == n0 {
                                                assert(seen.push(n0).contains(rest[b - 1].0));
                                            }
                                        } else {
                                            assert(ts[a] == rest[a - 1]);
                                            assert(ts[b] == rest[b - 1]);
                                        }
                                    }
                                    assert forall|t: int| 0 <= t < ts.len() implies (
                                    #[trigger] ts[t]).1.wf() && crate::header::plain_str(ts[t].0)
                                        && ts[t].0 != crate::header::metadata_key() by {
                                        if t == 0 {
                                            assert(ts[0] == (n0, m0));
                                        } else {
                                            assert(ts[t] == rest[t - 1]);
                                        }
                                    }
                                },
                                None => {},
                            }
                        }
                    },
                    None => {},
                }
            }
        },
        None => {},
    }
}

/// A parsed header body is well formed.
pub proof fn lemma_parse_body_wf(s: Seq<u8>, i: int)
    requires
        0 <= i <= s.len(),
    ensures
        match parse_body_at(s, i) {
            Some((h, j)) => h.wf(),
            None => true,
        },
{
    if 0 <= i < s.len() && s[i] == 123 {
        if !(i + 1 < s.len() && s[i + 1] == 125) {
            match expect_at(s, i + 1, crate::ser::ser_str(crate::header::metadata_key())) {
                Some(j0) => {
                    if j0 < s.len() && s[j0] == 58 {
                        if j0 + 1 < s.len() && s[j0 + 1] == 123 && !(j0 + 2 < s.len() && s[j0 + 2]
                            == 125) {
                            lemma_parse_meta_tail_wf(s, j0 + 2, Seq::<Seq<char>>::empty());
                        }
                        match parse_meta_obj(s, j0 + 1) {
                            Some((kvs, j1)) => {
                                if j1 < s.len() && s[j1] == 44 {
                                    lemma_parse_tensors_tail_wf(
                                        s,
                                        j1 + 1,
                                        Seq::<Seq<char>>::empty(),
                                    );
                                }
                            },
                            None => {},
                        }
                    }
                },
                None => {
                    lemma_parse_tensors_tail_wf(s, i + 1, Seq::<Seq<char>>::empty());
                },
            }
        }
    }
}

} // verus!

verus! {

/// Matches the bytes of an ASCII literal at `i`.
pub fn expect_lit(s: &[u8], i: usize, tok: &str) -> (r: Option<usize>)
    requires
        tok.is_ascii(),
        i <= s@.len(),
    ensures
        match r {
            Some(j) => expect_at(s@, i as int, crate::header::chars_to_bytes(tok@)) == Some(
                j as int,
            ) && i <= j <= s@.len(),
            None => expect_at(s@, i as int, crate::header::chars_to_bytes(tok@)) is None,
        },
{
    proof {
        vstd::string::is_ascii_spec_bytes(tok);
        assert(tok.spec_bytes() =~= crate::header::chars_to_bytes(tok@));
    }
    let tb = vstd::string::StrSliceExecFns::as_bytes_vec(tok);
    if s.len() - i < tb.len() {
        return None;
    }
    let mut t: usize = 0;
    while t < tb.len()
        invariant
            t <= tb@.len(),
            i + tb@.len() <= s@.len(),
            s@.len() <= usize::MAX,
            tb@ == crate::header::chars_to_bytes(tok@),
            forall|k: int| 0 <= k < t ==> s@[i + k] == tb@[k],
        decreases tb@.len() - t,
    {
        if s[i + t] != tb[t] {
            proof {
                let sub = s@.subrange(i as int, i + tb@.len());
                assert(sub[t as int] == s@[i + t]);
                assert(sub != tb@);
            }
            return None;
        }
        t = t + 1;
    }
    proof {
        assert(s@.subrange(i as int, i + tb@.len()) =~= tb@);
    }
    Some(i + tb.len())
}

/// Composition of finished number items with the remaining tail parse.
pub open spec fn u64_tail_compose(s: Seq<u8>, i0: int, done: Seq<u64>, cur: int) -> bool {
    match parse_u64_tail(s, cur) {
        Some((xs, k)) => parse_u64_tail(s, i0) == Some((done + xs, k)),
        None => parse_u64_tail(s, i0) is None,
    }
}

/// Executable parse of a JSON array of numbers.
pub fn parse_u64_list(s: &[u8], i: usize) -> (r: Option<(Vec<u64>, usize)>)
    requires
        i <= s@.len(),
    ensures
        match r {
            Some((v, j)) => parse_array_at(s@, i as int) == Some((v@, j as int)) && i < j
                <= s@.len(),
            None => parse_array_at(s@, i as int) is None,
        },
{
    if i >= s.len() || s[i] != 91 {
        return None;
    }
    if i + 1 < s.len() && s[i + 1] == 93 {
        let out: Vec<u64> = Vec::new();
        proof {
            assert(out@ =~= Seq::<u64>::empty());
        }
        return Some((out, i + 2));
    }
    let mut done: Vec<u64> = Vec::new();
    let mut cur: usize = i + 1;
    proof {
        assert(done@ + parse_u64_tail(s@, i + 1 as int)->Some_0.0 =~= parse_u64_tail(
            s@,
            i + 1 as int,
        )->Some_0.0);
    }
    loop
        invariant
            i + 1 <= cur <= s@.len(),
            i < s@.len(),
            s@[i as int] == 91,
            !(i + 1 < s@.len() && s@[i + 1 as int] == 93),
            u64_tail_compose(s@, i + 1 as int, done@, cur as int),
        decreases s@.len() - cur,
    {
        match parse_u64(s, cur) {
            Some((x, j)) => {
                if j < s.len() && s[j] == 44 {
                    proof {
                        assert(parse_u64_tail(s@, cur as int) matches Some((xs, k)) ==> xs
                            == seq![x] + parse_u64_tail(s@, j + 1 as int)->Some_0.0);
                        assert((done@ + seq![x]) + parse_u64_tail(s@, j + 1 as int)->Some_0.0
                            =~= done@ + (seq![x] + parse_u64_tail(s@, j + 1 as int)->Some_0.0));
                        assert(done@.push(x) =~= done@ + seq![x]);
                    }
                    done.push(x);
                    cur = j + 1;
                } else if j < s.len() && s[j] == 93 {
                    proof {
                        assert(parse_u64_tail(s@, cur as int) == Some((seq![x], j + 1 as int)));
                        assert(done@.push(x) =~= done@ + seq![x]);
                    }
                    done.push(x);
                    return Some((done, j + 1));
                } else {
                    return None;
                }
            },
            None => {
                return None;
            },
        }
    }
}

/// Executable parse of one tensor's metadata object.
pub fn parse_tensor_meta(s: &[u8], i: usize) -> (r: Option<(crate::header::TensorMeta, usize)>)
    requires
        i <= s@.len(),
    ensures
        match r {
            Some((m, j)) => parse_tensor_meta_at(s@, i as int) == Some((m@, j as int)) && i < j
                <= s@.len(),
            None => parse_tensor_meta_at(s@, i as int) is None,
        },
{
    proof {
        reveal_strlit("{\"dtype\":");
        reveal_strlit(",\"shape\":");
        reveal_strlit(",\"data_offsets\":[");
        reveal_strlit("]}");
        assert(("{\"dtype\":").is_ascii());
        assert((",\"shape\":").is_ascii());
        assert((",\"data_offsets\":[").is_ascii());
        assert(("]}").is_ascii());
    }
    let j0 = match expect_lit(s, i, "{\"dtype\":") {
        Some(j) => j,
        None => {
            return None;
        },
    };
    let (dtb, j1) = match parse_str_bytes(s, j0) {
        Some(p) => p,
        None => {
            return None;
        },
    };
    let dt = crate::bridge::ascii_bytes_to_string(dtb);
    let j2 = match expect_lit(s, j1, ",\"shape\":") {
        Some(j) => j,
        None => {
            return None;
        },
    };
    let (sh, j3) = match parse_u64_list(s, j2) {
        Some(p) => p,
        None => {
            return None;
        },
    };
    let j4 = match expect_lit(s, j3, ",\"data_offsets\":[") {
        Some(j) => j,
        None => {
            return None;
        },
    };
    let (st, j5) = match parse_u64(s, j4) {
        Some(p) => p,
        None => {
            return None;
        },
    };
    if j5 >= s.len() || s[j5] != 44 {
        return None;
    }
    let (en, j6) = match parse_u64(s, j5 + 1) {
        Some(p) => p,
        None => {
            return None;
        },
    };
    let j7 = match expect_lit(s, j6, "]}") {
        Some(j) => j,
        None => {
            return None;
        },
    };
    if st > en {
        return None;
    }
    let m = crate::header::TensorMeta { dtype: dt, shape: sh, offset_start: st, offset_end: en };
    proof {
        assert(m@ =~= TensorMetaV {
            dtype: bytes_to_chars(dtb@),
            shape: sh@,
            offset_start: st,
            offset_end: en,
        });
    }
    Some((m, j7))
}

} // verus!

verus! {

/// The reserved metadata key as an owned string.
pub fn metadata_key_string() -> (s: String)
    ensures
        s@ == crate::header::metadata_key(),
{
    "__metadata__".to_owned()
}

/// Whether a metadata pair list already holds a key.
fn meta_has_key(done: &Vec<(String, String)>, k: &String) -> (r: bool)
    ensures
        r == meta_keys(crate::header::meta_pairs_view(done@)).contains(k@),
{
    let ghost keys = meta_keys(crate::header::meta_pairs_view(done@));
    let mut t: usize = 0;
    while t < done.len()
        invariant
            t <= done@.len(),
            keys == meta_keys(crate::header::meta_pairs_view(done@)),
            forall|w: int| 0 <= w < t ==> keys[w] != k@,
        decreases done@.len() - t,
    {
        if done[t].0.eq(k) {
            proof {
                assert(keys[t as int] == k@);
            }
            return true;
        }
        proof {
            assert(keys[t as int] == done@[t as int].0@);
        }
        t = t + 1;
    }
    proof {
        if keys.contains(k@) {
            let w = choose|w: int| 0 <= w < keys.len() && keys[w] == k@;
        }
    }
    false
}

/// Whether a tensor entry list already holds a name.
fn tensors_has_name(done: &Vec<(String, crate::header::TensorMeta)>, k: &String) -> (r: bool)
    ensures
        r == tensor_names(crate::header::tensor_entries_view(done@)).contains(k@),
{
    let ghost names = tensor_names(crate::header::tensor_entries_view(done@));
    let mut t: usize = 0;
    while t < done.len()
        invariant
            t <= done@.len(),
            names == tensor_names(crate::header::tensor_entries_view(done@)),
            forall|w: int| 0 <= w < t ==> names[w] != k@,
        decreases done@.len() - t,
    {
        if done[t].0.eq(k) {
            proof {
                assert(names[t as int] == k@);
            }
            return true;
        }
        proof {
            assert(names[t as int] == done@[t as int].0@);
        }
        t = t + 1;
    }
    proof {
        if names.contains(k@) {
            let w = choose|w: int| 0 <= w < names.len() && names[w] == k@;
        }
    }
    false
}

/// Composition of finished metadata pairs with the remaining tail parse.
pub open spec fn meta_compose(s: Seq<u8>, i0: int, done: Seq<(Seq<char>, Seq<char>)>, cur: int) -> bool {
    match parse_meta_tail(s, cur, meta_keys(done)) {
        Some((kvs, k)) => parse_meta_tail(s, i0, Seq::<Seq<char>>::empty()) == Some(
            (done + kvs, k),
        ),
        None => parse_meta_tail(s, i0, Seq::<Seq<char>>::empty()) is None,
    }
}

/// Executable parse of the metadata block.
pub fn parse_meta_object(s: &[u8], i: usize) -> (r: Option<(Vec<(String, String)>, usize)>)
    requires
        i <= s@.len(),
    ensures
        match r {
            Some((kvs, j)) => parse_meta_obj(s@, i as int) == Some(
                (crate::header::meta_pairs_view(kvs@), j as int),
            ) && i < j <= s@.len(),
            None => parse_meta_obj(s@, i as int) is None,
        },
{
    if i >= s.len() || s[i] != 123 {
        return None;
    }
    if i + 1 < s.len() && s[i + 1] == 125 {
        let out: Vec<(String, String)> = Vec::new();
        proof {
            assert(crate::header::meta_pairs_view(out@) =~= Seq::<(Seq<char>, Seq<char>)>::empty());
        }
        return Some((out, i + 2));
    }
    let mut done: Vec<(String, String)> = Vec::new();
    let mut cur: usize = i + 1;
    proof {
        assert(crate::header::meta_pairs_view(done@) =~= Seq::<(Seq<char>, Seq<char>)>::empty());
        assert(meta_keys(crate::header::meta_pairs_view(done@)) =~= Seq::<Seq<char>>::empty());
        assert(Seq::<(Seq<char>, Seq<char>)>::empty() + parse_meta_tail(
            s@,
            i + 1 as int,
            Seq::<Seq<char>>::empty(),
        )->Some_0.0 =~= parse_meta_tail(s@, i + 1 as int, Seq::<Seq<char>>::empty())->Some_0.0);
    }
    loop
        invariant
            i + 1 <= cur <= s@.len(),
            i < s@.len(),
            s@[i as int] == 123,
            !(i + 1 < s@.len() && s@[i + 1 as int] == 125),
            meta_compose(s@, i + 1 as int, crate::header::meta_pairs_view(done@), cur as int),
        decreases s@.len() - cur,
    {
        let ghost dv = crate::header::meta_pairs_view(done@);
        let ghost seen = meta_keys(dv);
        let (kb, j0) = match parse_str_bytes(s, cur) {
            Some(p) => p,
            None => {
                return None;
            },
        };
        let kstr = crate::bridge::ascii_bytes_to_string(kb);
        if meta_has_key(&done, &kstr) {
            return None;
        }
        if j0 >= s.len() || s[j0] != 58 {
            return None;
        }
        let (vb, j1) = match parse_str_bytes(s, j0 + 1) {
            Some(p) => p,
            None => {
                return None;
            },
        };
        let vstr = crate::bridge::ascii_bytes_to_string(vb);
        if j1 < s.len() && s[j1] == 44 {
            proof {
                let dv2 = crate::header::meta_pairs_view(done@.push((kstr, vstr)));
                assert(dv2 =~= dv.push((kstr@, vstr@)));
                assert(meta_keys(dv2) =~= seen.push(kstr@));
                assert(parse_meta_tail(s@, j1 + 1 as int, seen.push(kstr@)) matches Some((rest, k))
                    ==> (dv2 + rest =~= dv + (seq![(kstr@, vstr@)] + rest)));
            }
            done.push((kstr, vstr));
            cur = j1 + 1;
        } else if j1 < s.len() && s[j1] == 125 {
            proof {
                assert(parse_meta_tail(s@, cur as int, seen) == Some(
                    (seq![(kstr@, vstr@)], j1 + 1 as int),
                ));
                let dv2 = crate::header::meta_pairs_view(done@.push((kstr, vstr)));
                assert(dv2 =~= dv.push((kstr@, vstr@)));
                assert(dv2 =~= dv + seq![(kstr@, vstr@)]);
            }
            done.push((kstr, vstr));
            return Some((done, j1 + 1));
        } else {
            return None;
        }
    }
}

/// Composition of finished tensor entries with the remaining tail parse.
pub open spec fn tensors_compose(
    s: Seq<u8>,
    i0: int,
    done: Seq<(Seq<char>, TensorMetaV)>,
    cur: int,
) -> bool {
    match parse_tensors_tail(s, cur, tensor_names(done)) {
        Some((ts, k)) => parse_tensors_tail(s, i0, Seq::<Seq<char>>::empty()) == Some(
            (done + ts, k),
        ),
        None => parse_tensors_tail(s, i0, Seq::<Seq<char>>::empty()) is None,
    }
}

/// Executable parse of the tensor entry list, starting at the first name.
/// A malformed tensor metadata object is reported under the tensor's name.
pub fn parse_tensor_entries(s: &[u8], i: usize) -> (r: Result<
    (Vec<(String, crate::header::TensorMeta)>, usize),
    FormatError,
>)
    requires
        i <= s@.len(),
    ensures
        match r {
            Ok((ts, j)) => parse_tensors_tail(s@, i as int, Seq::<Seq<char>>::empty()) == Some(
                (crate::header::tensor_entries_view(ts@), j as int),
            ) && i < j <= s@.len(),
            Err(e) => parse_tensors_tail(s@, i as int, Seq::<Seq<char>>::empty()) is None && (
            e matches FormatError::MalformedBody || e matches FormatError::BadTensor { .. }),
        },
{
    let mk = metadata_key_string();
    let mut done: Vec<(String, crate::header::TensorMeta)> = Vec::new();
    let mut cur: usize = i;
    proof {
        assert(crate::header::tensor_entries_view(done@) =~= Seq::<
            (Seq<char>, TensorMetaV),
        >::empty());
        assert(tensor_names(crate::header::tensor_entries_view(done@)) =~= Seq::<
            Seq<char>,
        >::empty());
        assert(Seq::<(Seq<char>, TensorMetaV)>::empty() + parse_tensors_tail(
            s@,
            i as int,
            Seq::<Seq<char>>::empty(),
        )->Some_0.0 =~= parse_tensors_tail(s@, i as int, Seq::<Seq<char>>::empty())->Some_0.0);
    }
    loop
        invariant
            i <= cur <= s@.len(),
            mk@ == crate::header::metadata_key(),
            tensors_compose(s@, i as int, crate::header::tensor_entries_view(done@), cur as int),
        decreases s@.len() - cur,
    {
        let ghost dv = crate::header::tensor_entries_view(done@);
        let ghost seen = tensor_names(dv);
        let (nb, j0) = match parse_str_bytes(s, cur) {
            Some(p) => p,
            None => {
                return Err(FormatError::MalformedBody);
            },
        };
        let nstr = crate::bridge::ascii_bytes_to_string(nb);
        if tensors_has_name(&done, &nstr) {
            return Err(FormatError::MalformedBody);
        }
        if nstr.eq(&mk) {
            return Err(FormatError::MalformedBody);
        }
        if j0 >= s.len() || s[j0] != 58 {
            return Err(FormatError::MalformedBody);
        }
        let (m, j1) = match parse_tensor_meta(s, j0 + 1) {
            Some(p) => p,
            None => {
                return Err(FormatError::BadTensor { name: nstr });
            },
        };
        if j1 < s.len() && s[j1] == 44 {
            proof {
                let dv2 = crate::header::tensor_entries_view(done@.push((nstr, m)));
                assert(dv2 =~= dv.push((nstr@, m@)));
                assert(tensor_names(dv2) =~= seen.push(nstr@));
                assert(parse_tensors_tail(s@, j1 + 1 as int, seen.push(nstr@)) matches Some(
                    (rest, k),
                ) ==> (dv2 + rest =~= dv + (seq![(nstr@, m@)] + rest)));
            }
            done.push((nstr, m));
            cur = j1 + 1;
        } else if j1 < s.len() && s[j1] == 125 {
            proof {
                assert(parse_tensors_tail(s@, cur as int, seen) == Some(
                    (seq![(nstr@, m@)], j1 + 1 as int),
                ));
                let dv2 = crate::header::tensor_entries_view(done@.push((nstr, m)));
                assert(dv2 =~= dv.push((nstr@, m@)));
                assert(dv2 =~= dv + seq![(nstr@, m@)]);
            }
            done.push((nstr, m));
            return Ok((done, j1 + 1));
        } else {
            return Err(FormatError::MalformedBody);
        }
    }
}

} // verus!

verus! {

/// Executable parse of the whole JSON body of a header.
pub fn parse_body(s: &[u8], i: usize) -> (r: Result<
    (crate::header::ContainerHeader, usize),
    FormatError,
>)
    requires
        i <= s@.len(),
    ensures
        match r {
            Ok((h, j)) => parse_body_at(s@, i as int) == Some((h@, j as int)) && i < j
                <= s@.len() && h@.wf(),
            Err(e) => parse_body_at(s@, i as int) is None && (e matches FormatError::MalformedBody
                || e matches FormatError::BadTensor { .. }),
        },
{
    proof {
        reveal_strlit("\"__metadata__\"");
        reveal_strlit("__metadata__");
        assert(("\"__metadata__\"").is_ascii());
        assert(crate::header::chars_to_bytes("\"__metadata__\""@) =~= crate::ser::ser_str(
            crate::header::metadata_key(),
        ));
        lemma_parse_body_wf(s@, i as int);
    }
    if i >= s.len() || s[i] != 123 {
        return Err(FormatError::MalformedBody);
    }
    if i + 1 < s.len() && s[i + 1] == 125 {
        let h = crate::header::ContainerHeader { metadata: None, tensors: Vec::new() };
        proof {
            assert(h@ =~= HeaderV { metadata: None, tensors: Seq::empty() });
        }
        return Ok((h, i + 2));
    }
    match expect_lit(s, i + 1, "\"__metadata__\"") {
        Some(j0) => {
            if j0 >= s.len() || s[j0] != 58 {
                return Err(FormatError::MalformedBody);
            }
            let (kvs, j1) = match parse_meta_object(s, j0 + 1) {
                Some(p) => p,
                None => {
                    return Err(FormatError::MalformedBody);
                },
            };
            if j1 < s.len() && s[j1] == 44 {
                let (ts, j2) = match parse_tensor_entries(s, j1 + 1) {
                    Ok(p) => p,
                    Err(e) => {
                        return Err(e);
                    },
                };
                let h = crate::header::ContainerHeader { metadata: Some(kvs), tensors: ts };
                proof {
                    assert(h@ =~= HeaderV {
                        metadata: Some(crate::header::meta_pairs_view(kvs@)),
                        tensors: crate::header::tensor_entries_view(ts@),
                    });
                }
                Ok((h, j2))
            } else if j1 < s.len() && s[j1] == 125 {
                let h = crate::header::ContainerHeader { metadata: Some(kvs), tensors: Vec::new() };
                proof {
                    assert(h@ =~= HeaderV {
                        metadata: Some(crate::header::meta_pairs_view(kvs@)),
                        tensors: Seq::empty(),
                    });
                }
                Ok((h, j1 + 1))
            } else {
                Err(FormatError::MalformedBody)
            }
        },
        None => {
            let (ts, j2) = match parse_tensor_entries(s, i + 1) {
                Ok(p) => p,
                Err(e) => {
                    return Err(e);
                },
            };
            let h = crate::header::ContainerHeader { metadata: None, tensors: ts };
            proof {
                assert(h@ =~= HeaderV {
                    metadata: None,
                    tensors: crate::header::tensor_entries_view(ts@),
                });
            }
            Ok((h, j2))
        },
    }
}

/// Parses a serialized container header out of a byte buffer.
///
/// On success the returned header is well formed and the returned length is
/// the padded JSON body length read from the prefix; the buffer is accepted
/// exactly when the parsing specification accepts it. Each error names its
/// cause: a missing length prefix, a body shorter than the prefix promises,
/// or a body that does not follow the header grammar.
pub fn parse_header(s: &[u8]) -> (r: Result<(crate::header::ContainerHeader, u64), FormatError>)
    ensures
        match r {
            Ok((h, n)) => spec_parse_header(s@) == Some((h@, n)) && h@.wf(),
            Err(e) => spec_parse_header(s@) is None && match e {
                FormatError::MissingLengthPrefix => s@.len() < 8,
                FormatError::TruncatedBody => s@.len() >= 8 && s@.len() < 8
                    + vstd::bytes::spec_u64_from_le_bytes(s@.subrange(0, 8)),
                FormatError::MalformedBody => s@.len() >= 8 && s@.len() >= 8
                    + vstd::bytes::spec_u64_from_le_bytes(s@.subrange(0, 8)),
                FormatError::BadTensor { name } => s@.len() >= 8 && s@.len() >= 8
                    + vstd::bytes::spec_u64_from_le_bytes(s@.subrange(0, 8)),
            },
        },
{
    if s.len() < 8 {
        return Err(FormatError::MissingLengthPrefix);
    }
    let prefix = vstd::slice::slice_subrange(s, 0, 8);
    let n = vstd::bytes::u64_from_le_bytes(prefix);
    if ((s.len() - 8) as u64) < n {
        return Err(FormatError::TruncatedBody);
    }
    let nu = n as usize;
    let body = vstd::slice::slice_subrange(s, 8, 8 + nu);
    proof {
        assert(body@ == s@.subrange(8, 8 + n));
    }
    let (h, j) = match parse_body(body, 0) {
        Ok(p) => p,
        Err(e) => {
            return Err(e);
        },
    };
    let mut t: usize = j;
    while t < body.len()
        invariant
            j <= t <= body@.len(),
            s@.len() >= 8,
            s@.len() >= 8 + vstd::bytes::spec_u64_from_le_bytes(s@.subrange(0, 8)),
            body@ == s@.subrange(8, 8 + vstd::bytes::spec_u64_from_le_bytes(s@.subrange(0, 8))),
            parse_body_at(body@, 0) == Some((h@, j as int)),
            forall|k: int| j <= k < t ==> body@[k] == 32,
        decreases body@.len() - t,
    {
        if body[t] != 32 {
            proof {
                assert(!all_spaces_from(body@, j as int));
            }
            return Err(FormatError::MalformedBody);
        }
        t = t + 1;
    }
    proof {
        assert(all_spaces_from(body@, j as int));
    }
    Ok((h, n))
}

} // verus!
