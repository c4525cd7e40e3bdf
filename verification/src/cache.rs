//! The content-addressed cache: hashing, membership, dedup, and storage
//! keys. Blobs are stored one file per hash under a cache root; this module
//! holds every decision about hashes and keys, while reading and writing
//! the files themselves stays outside the library.

use vstd::prelude::*;

use crate::bridge::sha256_of;
use crate::header::bytes_to_chars;

verus! {

/// The lowercase hexadecimal digit of a value below sixteen.
pub open spec fn hex_digit(d: u8) -> u8 {
    if d < 10 {
        (48 + d) as u8
    } else {
        (87 + d) as u8
    }
}

/// The lowercase hexadecimal rendering of a byte sequence, two digits per
/// byte, high digit first.
pub open spec fn hex_bytes_of(bs: Seq<u8>) -> Seq<u8> {
    Seq::new(
        2 * bs.len(),
        |i: int|
            if i % 2 == 0 {
                hex_digit(bs[i / 2] / 16)
            } else {
                hex_digit(bs[i / 2] % 16)
            },
    )
}

/// The content hash of a byte buffer: the lowercase-hex SHA-256 digest.
pub open spec fn sha256_hex(bs: Seq<u8>) -> Seq<char> {
    bytes_to_chars(hex_bytes_of(sha256_of(bs)))
}

/// The lowercase hexadecimal digit of a value below sixteen.
fn hex_digit_of(d: u8) -> (r: u8)
    requires
        d < 16,
    ensures
        r == hex_digit(d),
{
    if d < 10 {
        48 + d
    } else {
        87 + d
    }
}

/// Computes the content hash of a byte buffer: the SHA-256 digest rendered
/// as 64 lowercase hexadecimal characters.
pub fn sha256_hash(bytes: &[u8]) -> (r: String)
    ensures
        r@ == sha256_hex(bytes@),
        r@.len() == 64,
{
    let digest = crate::bridge::sha256_digest(bytes);
    let ghost target = hex_bytes_of(digest@);
    let mut hex: Vec<u8> = Vec::new();
    let mut t: usize = 0;
    while t < digest.len()
        invariant
            t <= digest@.len(),
            target == hex_bytes_of(digest@),
            digest@ == sha256_of(bytes@),
            digest@.len() == 32,
            hex@ == target.subrange(0, 2 * t as int),
        decreases digest@.len() - t,
    {
        let b = digest[t];
        proof {
            assert(target[2 * t as int] == hex_digit(b / 16));
            assert(target[2 * t as int + 1] == hex_digit(b % 16));
            assert(target.subrange(0, 2 * (t + 1) as int) =~= target.subrange(0, 2 * t as int)
                + seq![hex_digit(b / 16), hex_digit(b % 16)]);
        }
        hex.push(hex_digit_of(b / 16));
        hex.push(hex_digit_of(b % 16));
        t = t + 1;
    }
    proof {
        assert(hex@ =~= target);
        assert(forall|i: int| 0 <= i < hex@.len() ==> #[trigger] hex@[i] < 128) by {
            assert(forall|i: int| 0 <= i < target.len() ==> #[trigger] target[i] < 128);
        }
    }
    crate::bridge::ascii_bytes_to_string(hex)
}

/// Hashing is deterministic and stable: equal byte buffers have equal
/// content hashes, in every invocation.
pub proof fn lemma_compute_hash_deterministic(a: Seq<u8>, b: Seq<u8>)
    requires
        a == b,
    ensures
        sha256_hex(a) == sha256_hex(b),
{
}

/// Pure membership test of a hash in a set of locally available hashes.
pub fn is_cached(hash: &String, available: &Vec<String>) -> (r: bool)
    ensures
        r == available@.map_values(|s: String| s@).contains(hash@),
{
    let ghost av = available@.map_values(|s: String| s@);
    let mut t: usize = 0;
    while t < available.len()
        invariant
            t <= available@.len(),
            av == available@.map_values(|s: String| s@),
            forall|w: int| 0 <= w < t ==> av[w] != hash@,
        decreases available@.len() - t,
    {
        if available[t].eq(hash) {
            proof {
                assert(av[t as int] == hash@);
            }
            return true;
        }
        proof {
            assert(av[t as int] == available@[t as int]@);
        }
        t = t + 1;
    }
    proof {
        if av.contains(hash@) {
            let w = choose|w: int| 0 <= w < av.len() && av[w] == hash@;
        }
    }
    false
}

/// The path of the blob stored for a hash: `cache_root/hash`.
pub fn store_path(cache_root: &str, hash: &str) -> (r: String)
    ensures
        r@ == cache_root@ + "/"@ + hash@,
{
    let mut s = cache_root.to_owned();
    vstd::string::StringExecFns::append(&mut s, "/");
    vstd::string::StringExecFns::append(&mut s, hash);
    s
}

/// Content equality implies storage-path equality: two blobs with the same
/// bytes are stored under one path, whatever tensor names refer to them.
pub proof fn lemma_content_implies_same_path(root: Seq<char>, b1: Seq<u8>, b2: Seq<u8>)
    requires
        b1 == b2,
    ensures
        root + "/"@ + sha256_hex(b1) == root + "/"@ + sha256_hex(b2),
{
}

/// Inserting a hash into a hash list: a no-op when present, appended when
/// new.
pub open spec fn insert_hash(hs: Seq<Seq<char>>, h: Seq<char>) -> Seq<Seq<char>> {
    if hs.contains(h) {
        hs
    } else {
        hs.push(h)
    }
}

/// An in-memory index of the hashes whose blobs are stored, one entry per
/// distinct hash.
pub struct CacheIndex {
    pub hashes: Vec<String>,
}

impl CacheIndex {
    /// The hashes in the index.
    pub open spec fn view_hashes(self) -> Seq<Seq<char>> {
        self.hashes@.map_values(|s: String| s@)
    }

    /// No hash occurs twice.
    pub open spec fn wf(self) -> bool {
        forall|i: int, j: int|
            0 <= i < j < self.view_hashes().len() ==> self.view_hashes()[i]
                != self.view_hashes()[j]
    }

    /// An empty index.
    pub fn new() -> (r: CacheIndex)
        ensures
            r.view_hashes() =~= Seq::<Seq<char>>::empty(),
            r.wf(),
    {
        CacheIndex { hashes: Vec::new() }
    }

    /// Whether a blob with this hash is already stored.
    pub fn contains_hash(&self, h: &String) -> (r: bool)
        ensures
            r == self.view_hashes().contains(h@),
    {
        is_cached(h, &self.hashes)
    }

    /// Records that a blob with this hash is stored. Recording a hash that
    /// is already present changes nothing: one entry per content.
    pub fn record(&mut self, h: String)
        requires
            old(self).wf(),
        ensures
            final(self).wf(),
            final(self).view_hashes() == insert_hash(old(self).view_hashes(), h@),
    {
        if self.contains_hash(&h) {
            return ;
        }
        let ghost oldv = self.view_hashes();
        self.hashes.push(h);
        proof {
            assert(self.view_hashes() =~= oldv.push(h@));
            assert forall|i: int, j: int|
                0 <= i < j < self.view_hashes().len() implies self.view_hashes()[i]
                != self.view_hashes()[j] by {
                if j < oldv.len() {
                } else {
                    assert(self.view_hashes()[j] == h@);
                    assert(self.view_hashes()[i] == oldv[i]);
                    if oldv[i] == h@ {
                        assert(oldv.contains(h@));
                    }
                }
            }
        }
    }
}

/// Dedup: recording the hashes of two byte buffers with identical content
/// adds at most one entry to the index, whatever names the buffers came
/// from.
pub proof fn lemma_dedup_single_entry(hs: Seq<Seq<char>>, b1: Seq<u8>, b2: Seq<u8>)
    requires
        b1 == b2,
    ensures
        insert_hash(insert_hash(hs, sha256_hex(b1)), sha256_hex(b2)).len() <= hs.len() + 1,
        insert_hash(insert_hash(hs, sha256_hex(b1)), sha256_hex(b2)) == insert_hash(
            hs,
            sha256_hex(b1),
        ),
{
    let h = sha256_hex(b1);
    assert(sha256_hex(b2) == h);
    if hs.contains(h) {
    } else {
        assert(hs.push(h)[hs.len() as int] == h);
        assert(insert_hash(hs, h).contains(h));
    }
}

} // verus!
