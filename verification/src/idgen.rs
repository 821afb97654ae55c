//! Collision-bounded unique identifier generation: a digest over the
//! service address, a discriminator and the current time, compressed into
//! a shorter identifier space and checked against the identifiers in use.

use vstd::prelude::*;
use vstd::seq_lib::seq_to_set_is_finite;
use vstd::set_lib::{lemma_int_range, lemma_len_subset, set_int_range};
use sha2::{Digest, Sha256};

use crate::clock::{timestamp_text_of, Clock};
use crate::ID_COMPRESSION_DIVISOR;

verus! {

/// How many digest samples are drawn before falling back to a direct
/// search for a free identifier. The fallback only matters when the time
/// source fails to advance between samples.
pub const MAX_DIGEST_ATTEMPTS: usize = 64;

/// The digest that seeds an identifier. Named, not stated: the
/// cryptographic digest takes pages to write down, and depends on the
/// three texts alone.
pub uninterp spec fn id_digest_of(seed: Seq<char>, salt: Seq<char>, stamp: Seq<char>) -> Seq<u8>;

/// Relies on sha2's Sha256: a 32-byte digest of the concatenated text,
/// a function of the text alone.
#[verifier::external_body]
fn sha256_id_digest(seed: &str, salt: &str, stamp: &str) -> (r: Vec<u8>)
    ensures
        r@ == id_digest_of(seed@, salt@, stamp@),
        r@.len() == 32,
{
    let mut hasher = Sha256::new();
    hasher.update(format!("{}{}{}", seed, salt, stamp));
    hasher.finalize().to_vec()
}

/// The big-endian value of a sequence's first eight bytes.
pub open spec fn be64_of(s: Seq<u8>) -> int {
    s[0] * 0x100000000000000 + s[1] * 0x1000000000000 + s[2] * 0x10000000000 + s[3] * 0x100000000
        + s[4] * 0x1000000 + s[5] * 0x10000 + s[6] * 0x100 + s[7]
}

/// Reads the first eight bytes as a big-endian integer.
fn be64_from_bytes(d: &Vec<u8>) -> (r: u64)
    requires
        d@.len() >= 8,
    ensures
        r as int == be64_of(d@),
{
    (d[0] as u64) * 0x100000000000000 + (d[1] as u64) * 0x1000000000000 + (d[2] as u64)
        * 0x10000000000 + (d[3] as u64) * 0x100000000 + (d[4] as u64) * 0x1000000 + (d[5] as u64)
        * 0x10000 + (d[6] as u64) * 0x100 + (d[7] as u64)
}

/// Whether `r` is an identifier drawn from the digest over the service
/// address `seed`, the discriminator `salt` and the rendering of some
/// clock reading: its first eight bytes read big-endian, compressed by
/// the identifier-space divisor.
pub open spec fn digest_derived_id(r: u64, seed: Seq<char>, salt: Seq<char>) -> bool {
    exists|t: u64|
        r as int == be64_of(id_digest_of(seed, salt, timestamp_text_of(t))) / (
        ID_COMPRESSION_DIVISOR as int)
}

/// One digest-derived candidate identifier for the given discriminator,
/// salted with a fresh reading of the clock.
fn candidate_id<C: Clock>(clock: &mut C, seed: &String, salt: &String) -> (r: u64)
    ensures
        digest_derived_id(r, seed@, salt@),
{
    let t = clock.now_nanos();
    let stamp = crate::clock::format_timestamp(t);
    let digest = sha256_id_digest(seed.as_str(), salt.as_str(), stamp.as_str());
    let v = be64_from_bytes(&digest);
    v / ID_COMPRESSION_DIVISOR
}

/// Whether `c` occurs among the identifiers in use.
fn contains_id(used: &Vec<u64>, c: u64) -> (r: bool)
    ensures
        r == used@.contains(c),
{
    let n = used.len();
    let mut i: usize = 0;
    while i < n
        invariant
            i <= n,
            n == used@.len(),
            forall|k: int| 0 <= k < i ==> used@[k] != c,
        decreases n - i,
    {
        if used[i] == c {
            return true;
        }
        i = i + 1;
    }
    false
}

/// Among the values up to a sequence's length, one is missing from it:
/// a sequence cannot cover more values than it has elements.
proof fn lemma_small_id_free(s: Seq<u64>)
    requires
        s.len() <= u64::MAX,
    ensures
        exists|c: u64| c <= s.len() && !s.contains(c),
{
    broadcast use seq_to_set_is_finite;
    broadcast use vstd::set::group_set_axioms;

    if forall|c: u64| c <= s.len() ==> #[trigger] s.contains(c) {
        let n = s.len() as int;
        let si = Seq::new(s.len(), |i: int| s[i] as int);
        assert forall|c: int| 0 <= c < n + 1 implies si.to_set().contains(c) by {
            let cu = c as u64;
            assert(0 <= c <= u64::MAX);
            assert(cu as int == c);
            assert(s.contains(cu));
            let i = choose|i: int| 0 <= i < s.len() && s[i] == cu;
            assert(si[i] == c);
            assert(si.contains(c));
        }
        lemma_int_range(0, n + 1);
        assert(set_int_range(0, n + 1).subset_of(si.to_set()));
        si.lemma_cardinality_of_set();
        lemma_len_subset(set_int_range(0, n + 1), si.to_set());
        assert(false);
    }
}

/// The smallest identifier not in use: every value below the result
/// occurs among the identifiers in use.
fn lowest_free_id(used: &Vec<u64>) -> (r: u64)
    ensures
        !used@.contains(r),
        forall|k: u64| k < r ==> used@.contains(k),
{
    let n = used.len();
    let mut c: u64 = 0;
    loop
        invariant
            c <= n as u64,
            n == used@.len(),
            forall|k: u64| k < c ==> used@.contains(k),
        decreases n as u64 - c + 1,
    {
        if !contains_id(used, c) {
            return c;
        }
        if c == n as u64 {
            proof {
                lemma_small_id_free(used@);
                let w = choose|w: u64| w <= used@.len() && !used@.contains(w);
                assert(w < c || w == c);
                assert(false);
            }
        }
        c = c + 1;
    }
}

/// Mints an identifier that collides with none of the identifiers in
/// use, and says where it came from: either it is drawn from a digest
/// over the service address, the discriminator and a fresh clock
/// reading, or — only when the clock failed to yield a free candidate —
/// it is the smallest free identifier.
pub fn mint_unique_id<C: Clock>(clock: &mut C, seed: &String, salt: &String, used: &Vec<u64>) -> (r:
    u64)
    ensures
        !used@.contains(r),
        digest_derived_id(r, seed@, salt@) || (forall|k: u64| k < r ==> used@.contains(k)),
{
    let mut attempts: usize = 0;
    while attempts < MAX_DIGEST_ATTEMPTS
        invariant true,
        decreases MAX_DIGEST_ATTEMPTS - attempts,
    {
        let c = candidate_id(clock, seed, salt);
        if !contains_id(used, c) {
            return c;
        }
        attempts = attempts + 1;
    }
    lowest_free_id(used)
}

/// Generates a unique graphic identifier, salted by the graphic's asset
/// path: an identifier avoiding every one in `used`, drawn from the
/// digest unless the clock failed to yield a free candidate, in which
/// case it is the smallest free one.
pub fn generate_ogid<C: Clock>(clock: &mut C, canister_id: &String, asset: &String, used: &Vec<
    u64,
>) -> (r: u64)
    ensures
        !used@.contains(r),
        digest_derived_id(r, canister_id@, asset@) || (forall|k: u64|
            k < r ==> used@.contains(k)),
{
    mint_unique_id(clock, canister_id, asset, used)
}

/// Generates a unique collection identifier, salted by a fixed
/// discriminator: an identifier avoiding every one in `used`, drawn from
/// the digest unless the clock failed to yield a free candidate, in
/// which case it is the smallest free one.
pub fn generate_collection_id<C: Clock>(clock: &mut C, canister_id: &String, used: &Vec<u64>) -> (r:
    u64)
    ensures
        !used@.contains(r),
        digest_derived_id(r, canister_id@, "seed"@) || (forall|k: u64|
            k < r ==> used@.contains(k)),
{
    let salt = String::from_str("seed");
    mint_unique_id(clock, canister_id, &salt, used)
}

} // verus!
