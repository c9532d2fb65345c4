//! Identifiers of symbols, tables, basic blocks and instructions: random version-4 UUIDs,
//! held as integers. Zero is the nil identifier and is never handed out.
use vstd::prelude::*;
use vstd::set_lib::{lemma_int_range, lemma_len_subset, lemma_map_size_bound, set_int_range};

verus! {

/// An identifier; `NIL_ID` stands for none.
pub type SymbolID = u128;

pub const NIL_ID: u128 = 0;

/// The bits of a UUID that hold its version and variant.
pub const UUID_VERSION_MASK: u128 = 0x0000_0000_0000_F000_C000_0000_0000_0000;

/// Version 4 (random), variant RFC 4122.
pub const UUID_V4_BITS: u128 = 0x0000_0000_0000_4000_8000_0000_0000_0000;

/// `uuid::Uuid::new_v4` read back as an integer with `Uuid::as_u128`: random bits with the
/// version nibble set to 4 and the two variant bits set to `10`. Nothing else is promised
/// of the value, which depends on the system's random source (the call panics only when
/// that source fails).
#[verifier::external_body]
fn random_uuid() -> (r: u128)
    ensures
        r & UUID_VERSION_MASK == UUID_V4_BITS,
{
    uuid::Uuid::new_v4().as_u128()
}

/// A version-4 UUID is never nil.
pub proof fn lemma_v4_not_nil(r: u128)
    requires
        r & UUID_VERSION_MASK == UUID_V4_BITS,
    ensures
        r != NIL_ID,
{
    assert(r & 0x0000_0000_0000_F000_C000_0000_0000_0000u128 == 0x0000_0000_0000_4000_8000_0000_0000_0000u128 ==> r != 0u128) by (bit_vector);
}

/// Whether `id` is among `ids`.
pub fn contains_id(ids: &Vec<u128>, id: u128) -> (r: bool)
    ensures
        r == ids@.contains(id),
{
    let mut i: usize = 0;
    while i < ids.len()
        invariant
            i <= ids@.len(),
            forall|j: int| 0 <= j < i ==> ids@[j] != id,
        decreases ids.len() - i,
    {
        if ids[i] == id {
            return true;
        }
        i = i + 1;
    }
    false
}

/// Among `n` values, some positive integer up to `n + 1` does not occur.
proof fn lemma_pigeonhole(used: Seq<u128>)
    requires
        used.len() < u128::MAX - 1,
    ensures
        exists|k: int| 1 <= k <= used.len() + 1 && !#[trigger] used.contains(k as u128),
{
    if forall|k: int| 1 <= k <= used.len() + 1 ==> #[trigger] used.contains(k as u128) {
        lemma_all_in_range_contained(used);
    }
}

proof fn lemma_all_in_range_contained(used: Seq<u128>)
    requires
        used.len() < u128::MAX - 1,
        forall|k: int| 1 <= k <= used.len() + 1 ==> #[trigger] used.contains(k as u128),
    ensures
        exists|k: int| 1 <= k <= used.len() + 1 && !#[trigger] used.contains(k as u128),
{
    let n = used.len() as int;
    let f = |x: u128| x as int;
    let t = used.to_set().map(f);
    let s = set_int_range(1, n + 2);
    used.lemma_cardinality_of_set();
    lemma_map_size_bound(used.to_set(), t, f);
    lemma_int_range(1, n + 2);
    assert forall|k: int| s.contains(k) implies t.contains(k) by {
        assert(used.contains(k as u128));
        assert(used.to_set().contains(k as u128));
        assert(f(k as u128) == k);
        assert(used.to_set().map(f).contains(f(k as u128)));
    }
    lemma_len_subset(s, t);
    assert(s.len() <= t.len());
}

/// An identifier that is neither nil nor among `used`: a random UUID, or, in the
/// unlikely case that it is already used, the smallest positive integer that is not.
pub fn fresh_id(used: &Vec<u128>) -> (r: u128)
    ensures
        r != NIL_ID,
        !used@.contains(r),
{
    let candidate = random_uuid();
    proof {
        lemma_v4_not_nil(candidate);
    }
    if !contains_id(used, candidate) {
        return candidate;
    }
    let n: usize = used.len();
    assert(used@.len() < u128::MAX - 1);
    let mut k: u128 = 1;
    while k <= used.len() as u128 + 1
        invariant
            1 <= k <= used@.len() + 2,
            used@.len() < u128::MAX - 1,
            forall|j: int| 1 <= j < k ==> #[trigger] used@.contains(j as u128),
        decreases used@.len() + 2 - k,
    {
        if !contains_id(used, k) {
            return k;
        }
        k = k + 1;
    }
    proof {
        lemma_pigeonhole(used@);
        let j = choose|j: int| 1 <= j <= used@.len() + 1 && !#[trigger] used@.contains(j as u128);
        assert(used@.contains(j as u128));
    }
    k
}

} // verus!
