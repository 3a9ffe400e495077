use vstd::prelude::*;

use itertools::Itertools;

use crate::player::PlayerId;

verus! {

broadcast use vstd::seq_lib::group_to_multiset_ensures;

/// A competitor's identity as a sort key: rating, title code, name, and the
/// identifier, which settles ties between equal identities.
pub type RankKey = (u16, u8, String, PlayerId);

/// Lexicographic order of texts, character by character by code point.
pub open spec fn text_lt(a: Seq<char>, b: Seq<char>) -> bool
    decreases a.len(),
{
    if a.len() == 0 {
        b.len() > 0
    } else if b.len() == 0 {
        false
    } else if a[0] != b[0] {
        (a[0] as u32) < (b[0] as u32)
    } else {
        text_lt(a.drop_first(), b.drop_first())
    }
}

/// The order of rank keys: rating, then title, then name, then identifier.
pub open spec fn key_lt(a: RankKey, b: RankKey) -> bool {
    ||| a.0 < b.0
    ||| a.0 == b.0 && a.1 < b.1
    ||| a.0 == b.0 && a.1 == b.1 && text_lt(a.2@, b.2@)
    ||| a.0 == b.0 && a.1 == b.1 && a.2@ == b.2@ && a.3 < b.3
}

/// Relies on itertools::Itertools::sorted: the items come back as a
/// permutation, in ascending order of the tuples' `Ord`, which compares field
/// by field, and strings by their UTF-8 bytes, the same order as by code point.
#[verifier::external_body]
pub(crate) fn sort_rank_keys(v: Vec<RankKey>) -> (r: Vec<RankKey>)
    ensures
        r@.to_multiset() == v@.to_multiset(),
        forall|i: int, j: int| 0 <= i < j < r@.len() ==> !key_lt(#[trigger] r@[j], #[trigger] r@[i]),
{
    v.into_iter().sorted().collect()
}

/// Order of (rank number, identifier) pairs: by rank, then by identifier.
pub open spec fn number_le(a: (u16, PlayerId), b: (u16, PlayerId)) -> bool {
    a.0 < b.0 || (a.0 == b.0 && a.1 <= b.1)
}

/// Relies on itertools::Itertools::sorted: the pairs come back as a
/// permutation, in ascending order of the tuples' `Ord`, field by field.
#[verifier::external_body]
pub(crate) fn sort_rank_numbers(v: Vec<(u16, PlayerId)>) -> (r: Vec<(u16, PlayerId)>)
    ensures
        r@.to_multiset() == v@.to_multiset(),
        forall|i: int, j: int| 0 <= i < j < r@.len() ==> number_le(#[trigger] r@[i], #[trigger] r@[j]),
{
    v.into_iter().sorted().collect()
}

/// A permutation of a sequence whose items have distinct identifiers keeps
/// every item and has distinct identifiers too.
pub proof fn lemma_permutation_keeps_ids<A>(v: Seq<A>, r: Seq<A>, id: spec_fn(A) -> u64)
    requires
        r.to_multiset() == v.to_multiset(),
        forall|i: int, j: int|
            0 <= i < v.len() && 0 <= j < v.len() && id(#[trigger] v[i]) == id(#[trigger] v[j])
                ==> i == j,
    ensures
        r.len() == v.len(),
        forall|i: int| 0 <= i < r.len() ==> v.contains(#[trigger] r[i]),
        forall|j: int| 0 <= j < v.len() ==> r.contains(#[trigger] v[j]),
        forall|i: int, j: int|
            0 <= i < r.len() && 0 <= j < r.len() && id(#[trigger] r[i]) == id(#[trigger] r[j])
                ==> i == j,
{
    assert(r.len() == v.len()) by {
        vstd::seq_lib::to_multiset_len(r);
        vstd::seq_lib::to_multiset_len(v);
    }
    assert forall|i: int| 0 <= i < r.len() implies v.contains(#[trigger] r[i]) by {
        assert(r.contains(r[i]));
        assert(r.to_multiset().count(r[i]) > 0);
        assert(v.to_multiset().count(r[i]) > 0);
    }
    assert forall|j: int| 0 <= j < v.len() implies r.contains(#[trigger] v[j]) by {
        assert(v.contains(v[j]));
        assert(v.to_multiset().count(v[j]) > 0);
        assert(r.to_multiset().count(v[j]) > 0);
    }
    assert(v.no_duplicates()) by {
        assert forall|i: int, j: int| 0 <= i < v.len() && 0 <= j < v.len() && i != j implies v[i]
            != v[j] by {
            if v[i] == v[j] {
                assert(id(v[i]) == id(v[j]));
            }
        }
    }
    v.lemma_multiset_has_no_duplicates();
    r.lemma_multiset_has_no_duplicates_conv();
    assert forall|i: int, j: int|
        0 <= i < r.len() && 0 <= j < r.len() && id(#[trigger] r[i]) == id(#[trigger] r[j])
            implies i == j by {
        assert(v.contains(r[i]));
        assert(v.contains(r[j]));
        let a = choose|a: int| 0 <= a < v.len() && v[a] == r[i];
        let b = choose|b: int| 0 <= b < v.len() && v[b] == r[j];
        assert(id(v[a]) == id(v[b]));
        assert(a == b);
    }
}

} // verus!
