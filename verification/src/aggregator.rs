use vstd::prelude::*;
use vstd::relations::{sorted_by, total_ordering};
use vstd::seq_lib::lemma_multiset_commutative;
use vstd::seq_lib::lemma_sorted_unique;
use vstd::string::StrSliceExecFns;
use vstd::string::StringExecFns;
use vstd::utf8::encode_utf8;

use crate::errors::IngestError;
use crate::hasher::{blake3_digest, hash_of};
use crate::hex::{bytes_to_hex, is_hex_lower_char, lemma_hex_of_props};

verus! {

/// Byte-wise lexicographic "less than or equal" on digest strings. Digests
/// are ASCII hex, and UTF-8 orders strings the same way their scalar values
/// do, so comparing characters by scalar value matches byte-wise comparison.
pub open spec fn digest_le(a: Seq<char>, b: Seq<char>) -> bool
    decreases a.len(),
{
    if a.len() == 0 {
        true
    } else if b.len() == 0 {
        false
    } else if a[0] == b[0] {
        digest_le(a.drop_first(), b.drop_first())
    } else {
        a[0] < b[0]
    }
}

/// The comparison `digest_le` as a first-class relation, as the sorting
/// lemmas expect it.
pub open spec fn digest_leq() -> spec_fn(Seq<char>, Seq<char>) -> bool {
    (|a: Seq<char>, b: Seq<char>| digest_le(a, b))
}

proof fn lemma_digest_le_refl(a: Seq<char>)
    ensures
        digest_le(a, a),
    decreases a.len(),
{
    if a.len() != 0 {
        lemma_digest_le_refl(a.drop_first());
    }
}

proof fn lemma_digest_le_connected(a: Seq<char>, b: Seq<char>)
    ensures
        digest_le(a, b) || digest_le(b, a),
    decreases a.len(),
{
    if a.len() != 0 && b.len() != 0 {
        if a[0] == b[0] {
            lemma_digest_le_connected(a.drop_first(), b.drop_first());
        }
    }
}

proof fn lemma_digest_le_antisym(a: Seq<char>, b: Seq<char>)
    requires
        digest_le(a, b),
        digest_le(b, a),
    ensures
        a == b,
    decreases a.len(),
{
    if a.len() == 0 {
        assert(b.len() == 0);
        assert(a =~= b);
    } else {
        assert(b.len() != 0);
        assert(a[0] == b[0]);
        lemma_digest_le_antisym(a.drop_first(), b.drop_first());
        assert(a.drop_first().len() == a.len() - 1);
        assert(b.drop_first().len() == b.len() - 1);
        assert(a.len() == b.len());
        assert(forall|i: int| 1 <= i < a.len() ==> a[i] == a.drop_first()[i - 1]);
        assert(forall|i: int| 1 <= i < b.len() ==> b[i] == b.drop_first()[i - 1]);
        assert(a =~= b);
    }
}

proof fn lemma_digest_le_trans(a: Seq<char>, b: Seq<char>, c: Seq<char>)
    requires
        digest_le(a, b),
        digest_le(b, c),
    ensures
        digest_le(a, c),
    decreases a.len(),
{
    if a.len() == 0 {
    } else {
        assert(b.len() != 0);
        assert(c.len() != 0);
        if a[0] == b[0] && b[0] == c[0] {
            lemma_digest_le_trans(a.drop_first(), b.drop_first(), c.drop_first());
        }
    }
}

/// The digest comparison is a total ordering, as sorting requires.
pub proof fn lemma_digest_total_ordering()
    ensures
        total_ordering(digest_leq()),
{
    let r = digest_leq();
    assert forall|a: Seq<char>| #[trigger] r(a, a) by {
        lemma_digest_le_refl(a);
    }
    assert forall|a: Seq<char>, b: Seq<char>| #[trigger] r(a, b) && #[trigger] r(b, a) implies a
        == b by {
        lemma_digest_le_antisym(a, b);
    }
    assert forall|a: Seq<char>, b: Seq<char>, c: Seq<char>|
        #[trigger] r(a, b) && #[trigger] r(b, c) implies r(a, c) by {
        lemma_digest_le_trans(a, b, c);
    }
    assert forall|a: Seq<char>, b: Seq<char>| #[trigger] r(a, b) || #[trigger] r(b, a) by {
        lemma_digest_le_connected(a, b);
    }
}

proof fn lemma_digest_le_skip(a: Seq<char>, b: Seq<char>, i: int)
    requires
        0 <= i <= a.len(),
        i <= b.len(),
        forall|j: int| 0 <= j < i ==> a[j] == b[j],
    ensures
        digest_le(a, b) == digest_le(a.skip(i), b.skip(i)),
    decreases i,
{
    if i > 0 {
        lemma_digest_le_skip(a.drop_first(), b.drop_first(), i - 1);
        assert(a.drop_first().skip(i - 1) =~= a.skip(i));
        assert(b.drop_first().skip(i - 1) =~= b.skip(i));
    } else {
        assert(a.skip(0) =~= a);
        assert(b.skip(0) =~= b);
    }
}

/// Compare two digest strings lexicographically by scalar value.
fn digest_le_exec(a: &str, b: &str) -> (r: bool)
    ensures
        r == digest_le(a@, b@),
{
    let a_len = a.unicode_len();
    let b_len = b.unicode_len();
    let mut i: usize = 0;
    loop
        invariant
            i <= a_len,
            i <= b_len,
            a_len == a@.len(),
            b_len == b@.len(),
            forall|j: int| 0 <= j < i ==> a@[j] == b@[j],
        decreases a_len - i,
    {
        if i == a_len {
            proof {
                lemma_digest_le_skip(a@, b@, i as int);
            }
            return true;
        }
        if i == b_len {
            proof {
                lemma_digest_le_skip(a@, b@, i as int);
                assert(a@.skip(i as int).len() > 0);
            }
            return false;
        }
        let ca = a.get_char(i);
        let cb = b.get_char(i);
        if ca != cb {
            proof {
                lemma_digest_le_skip(a@, b@, i as int);
                assert(a@.skip(i as int)[0] == ca);
                assert(b@.skip(i as int)[0] == cb);
            }
            return ca < cb;
        }
        i = i + 1;
    }
}

fn insertion_index(v: &Vec<String>, x: &str) -> (j: usize)
    requires
        sorted_by(v.deep_view(), digest_leq()),
    ensures
        j <= v@.len(),
        forall|k: int| 0 <= k < j ==> digest_le(#[trigger] v.deep_view()[k], x@),
        j < v@.len() ==> !digest_le(v.deep_view()[j as int], x@),
{
    let mut j: usize = 0;
    while j < v.len()
        invariant
            j <= v@.len(),
            forall|k: int| 0 <= k < j ==> digest_le(#[trigger] v.deep_view()[k], x@),
        decreases v@.len() - j,
    {
        if !digest_le_exec(v[j].as_str(), x) {
            return j;
        }
        j = j + 1;
    }
    j
}

/// Insert a digest string into a sorted vector, keeping it sorted.
fn insert_sorted(v: &mut Vec<String>, x: String)
    requires
        sorted_by(old(v).deep_view(), digest_leq()),
    ensures
        sorted_by(final(v).deep_view(), digest_leq()),
        final(v).deep_view().to_multiset() == old(v).deep_view().to_multiset().insert(x@),
{
    broadcast use vstd::seq_lib::group_to_multiset_ensures;
    broadcast use vstd::multiset::group_multiset_axioms;

    let j = insertion_index(v, x.as_str());
    let ghost dv = v.deep_view();
    let ghost xv = x@;
    v.insert(j, x);
    proof {
        let leq = digest_leq();
        let dv2 = v.deep_view();
        let ji = j as int;
        let n = dv.len() as int;
        dv.insert_ensures(ji, xv);
        assert(dv2 =~= dv.insert(ji, xv)) by {
            assert(v@ == old(v)@.insert(ji, x));
            assert(forall|i: int| 0 <= i < ji ==> old(v)@.insert(ji, x)[i] == old(v)@[i]) by {
                old(v)@.insert_ensures(ji, x);
            }
            assert(forall|i: int|
                ji <= i < old(v)@.len() ==> old(v)@.insert(ji, x)[i + 1] == old(v)@[i]) by {
                old(v)@.insert_ensures(ji, x);
            }
            assert(old(v)@.insert(ji, x)[ji] == x) by {
                old(v)@.insert_ensures(ji, x);
            }
        }
        // every element from position j on is at least x
        assert forall|m: int| ji <= m < n implies digest_le(xv, #[trigger] dv[m]) by {
            lemma_digest_le_connected(dv[ji], xv);
            if m > ji {
                assert(leq(dv[ji], dv[m]));
                lemma_digest_le_trans(xv, dv[ji], dv[m]);
            }
        }
        assert forall|p: int, q: int| 0 <= p < q < dv2.len() implies #[trigger] leq(
            dv2[p],
            dv2[q],
        ) by {
            if q < ji {
                assert(leq(dv[p], dv[q]));
            } else if p < ji && q == ji {
                assert(digest_le(dv[p], xv));
            } else if p < ji && q > ji {
                assert(leq(dv[p], dv[q - 1]));
            } else if p == ji {
                assert(digest_le(xv, dv[q - 1]));
            } else {
                assert(leq(dv[p - 1], dv[q - 1]));
            }
        }
        // the new multiset is the old one plus x
        assert(dv.insert(ji, xv) == dv.subrange(0, ji).push(xv) + dv.subrange(ji, n));
        lemma_multiset_commutative(dv.subrange(0, ji).push(xv), dv.subrange(ji, n));
        lemma_multiset_commutative(dv.subrange(0, ji), dv.subrange(ji, n));
        assert(dv =~= dv.subrange(0, ji) + dv.subrange(ji, n));
        assert(dv.subrange(0, ji).push(xv).to_multiset() =~= dv.subrange(0, ji).to_multiset()
            .insert(xv));
        assert(dv2.to_multiset() =~= dv.to_multiset().insert(xv));
    }
}

/// A copy of the digests, sorted by the byte-wise lexicographic order.
fn sorted_copy(v: &Vec<String>) -> (r: Vec<String>)
    ensures
        r.deep_view() == v.deep_view().sort_by(digest_leq()),
{
    broadcast use vstd::seq_lib::group_to_multiset_ensures;

    let mut r: Vec<String> = Vec::new();
    let mut i: usize = 0;
    while i < v.len()
        invariant
            i <= v@.len(),
            sorted_by(r.deep_view(), digest_leq()),
            r.deep_view().to_multiset() == v.deep_view().take(i as int).to_multiset(),
        decreases v@.len() - i,
    {
        let x = v[i].clone();
        proof {
            let dv = v.deep_view();
            assert(dv.take(i as int).push(dv[i as int]) =~= dv.take(i + 1 as int));
            dv.take(i as int).to_multiset_ensures();
            assert(dv.take(i as int).push(dv[i as int]).to_multiset() =~= dv.take(
                i as int,
            ).to_multiset().insert(dv[i as int]));
        }
        insert_sorted(&mut r, x);
        i = i + 1;
    }
    proof {
        lemma_digest_total_ordering();
        let dv = v.deep_view();
        assert(dv.take(dv.len() as int) =~= dv);
        dv.lemma_sort_by_ensures(digest_leq());
        lemma_sorted_unique(r.deep_view(), dv.sort_by(digest_leq()), digest_leq());
        assert(r.deep_view() =~= dv.sort_by(digest_leq()));
    }
    r
}

/// Concatenate the digest strings in order, with no separator.
fn join_all(v: &Vec<String>) -> (r: String)
    ensures
        r@ == v.deep_view().flatten(),
{
    let mut r = String::new();
    let mut i: usize = 0;
    while i < v.len()
        invariant
            i <= v@.len(),
            r@ == v.deep_view().take(i as int).flatten(),
        decreases v@.len() - i,
    {
        proof {
            let dv = v.deep_view();
            assert(dv.take(i as int).push(dv[i as int]) =~= dv.take(i + 1 as int));
            dv.take(i as int).lemma_flatten_push(dv[i as int]);
        }
        r.append(v[i].as_str());
        i = i + 1;
    }
    proof {
        assert(v.deep_view().take(v@.len() as int) =~= v.deep_view());
    }
    r
}

/// The root digest of a set of digest strings: sort them byte-wise
/// lexicographically, concatenate them in that order, and hash the UTF-8
/// bytes of the concatenation.
pub open spec fn root_of(digests: Seq<Seq<char>>) -> Seq<char> {
    hash_of(encode_utf8(digests.sort_by(digest_leq()).flatten()))
}

/// Combine leaf digests into one order-independent root digest.
///
/// Fails with `EmptyInput` exactly when no digests are supplied; otherwise
/// the result is the 64-character lowercase hex digest of the concatenation
/// of the sorted input strings. Sorting before concatenation makes the root
/// independent of the order in which the digests were supplied; this is a
/// flat commitment over the sorted set, deliberately not a branching Merkle
/// tree, and it hashes the concatenated hex-string representations, not raw
/// digest bytes.
pub fn compute_merkle_root(hashes: &Vec<String>) -> (r: Result<String, IngestError>)
    ensures
        r is Ok <==> hashes@.len() > 0,
        r is Err ==> r->Err_0 == IngestError::EmptyInput,
        r is Ok ==> r->Ok_0@ == root_of(hashes.deep_view()),
        r is Ok ==> r->Ok_0@.len() == 64,
        r is Ok ==> forall|i: int|
            0 <= i < r->Ok_0@.len() ==> is_hex_lower_char(#[trigger] r->Ok_0@[i]),
{
    if hashes.is_empty() {
        return Err(IngestError::EmptyInput);
    }
    let sorted = sorted_copy(hashes);
    let combined = join_all(&sorted);
    let combined_bytes = combined.as_str().as_bytes();
    proof {
        assert(combined_bytes@ == encode_utf8(hashes.deep_view().sort_by(digest_leq()).flatten()));
    }
    let digest = blake3_digest(combined_bytes);
    proof {
        lemma_hex_of_props(digest@);
    }
    Ok(bytes_to_hex(&digest))
}

/// The root digest is order-independent: inputs holding the same digests,
/// each the same number of times, in any order, produce the same root.
pub proof fn lemma_root_order_independent(a: Seq<Seq<char>>, b: Seq<Seq<char>>)
    requires
        a.to_multiset() == b.to_multiset(),
    ensures
        root_of(a) == root_of(b),
{
    lemma_digest_total_ordering();
    a.lemma_sort_by_ensures(digest_leq());
    b.lemma_sort_by_ensures(digest_leq());
    lemma_sorted_unique(a.sort_by(digest_leq()), b.sort_by(digest_leq()), digest_leq());
    assert(a.sort_by(digest_leq()) =~= b.sort_by(digest_leq()));
}

/// Aggregating a single digest roots to the hash of that digest string's
/// UTF-8 bytes: the concatenation of one string is the string itself.
pub proof fn lemma_root_of_single(d: Seq<char>)
    ensures
        root_of(seq![d]) == hash_of(encode_utf8(d)),
{
    lemma_digest_total_ordering();
    let s = seq![d];
    s.lemma_sort_by_ensures(digest_leq());
    lemma_digest_le_refl(d);
    assert(sorted_by(s, digest_leq()));
    lemma_sorted_unique(s.sort_by(digest_leq()), s, digest_leq());
    assert(s.sort_by(digest_leq()) =~= s);
    s.lemma_flatten_singleton();
    assert(s.flatten() == d);
}

} // verus!
