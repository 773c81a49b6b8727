//! The canonical form of a query: its name/value pairs with blank values
//! removed, sorted the way Rust sorts `(str, str)` tuples (by name, then by
//! value, each compared byte by byte).
use crate::url_ops::{pair_view, pairs_view};
use vstd::multiset::Multiset;
use vstd::prelude::*;
use vstd::relations::{sorted_by, total_ordering};
use vstd::utf8::{encode_utf8, encode_utf8_decode_utf8};

verus! {

broadcast use vstd::seq_lib::group_to_multiset_ensures;

/// A decoded query parameter: name and value.
pub type QueryPair = (Seq<char>, Seq<char>);

/// Lexicographic order on bytes (the order of `[u8]` and `str` in Rust).
pub open spec fn bytes_le(a: Seq<u8>, b: Seq<u8>) -> bool
    decreases a.len(),
{
    if a.len() == 0 {
        true
    } else if b.len() == 0 {
        false
    } else if a[0] != b[0] {
        a[0] < b[0]
    } else {
        bytes_le(a.drop_first(), b.drop_first())
    }
}

/// The order of `str`: lexicographic on the UTF-8 bytes.
pub open spec fn text_le(a: Seq<char>, b: Seq<char>) -> bool {
    bytes_le(encode_utf8(a), encode_utf8(b))
}

/// The order of a `(name, value)` tuple: by name, then by value.
pub open spec fn pair_le(p: QueryPair, q: QueryPair) -> bool {
    if p.0 != q.0 {
        text_le(p.0, q.0)
    } else {
        text_le(p.1, q.1)
    }
}

pub open spec fn pair_order() -> spec_fn(QueryPair, QueryPair) -> bool {
    |p: QueryPair, q: QueryPair| pair_le(p, q)
}

/// The pairs whose value is not blank, in the order given.
pub open spec fn without_blank_values(s: Seq<QueryPair>) -> Seq<QueryPair>
    decreases s.len(),
{
    if s.len() == 0 {
        Seq::empty()
    } else {
        let rest = without_blank_values(s.drop_last());
        if s.last().1.len() > 0 {
            rest.push(s.last())
        } else {
            rest
        }
    }
}

/// The canonical query pairs: blank values removed, then sorted.
pub open spec fn canonical_pairs(s: Seq<QueryPair>) -> Seq<QueryPair> {
    without_blank_values(s).sort_by(pair_order())
}

proof fn lemma_bytes_le_reflexive(a: Seq<u8>)
    ensures
        bytes_le(a, a),
    decreases a.len(),
{
    if a.len() > 0 {
        lemma_bytes_le_reflexive(a.drop_first());
    }
}

proof fn lemma_bytes_le_antisymmetric(a: Seq<u8>, b: Seq<u8>)
    requires
        bytes_le(a, b),
        bytes_le(b, a),
    ensures
        a == b,
    decreases a.len(),
{
    if a.len() > 0 && b.len() > 0 {
        lemma_bytes_le_antisymmetric(a.drop_first(), b.drop_first());
        assert(a =~= seq![a[0]] + a.drop_first());
        assert(b =~= seq![b[0]] + b.drop_first());
    }
}

proof fn lemma_bytes_le_transitive(a: Seq<u8>, b: Seq<u8>, c: Seq<u8>)
    requires
        bytes_le(a, b),
        bytes_le(b, c),
    ensures
        bytes_le(a, c),
    decreases a.len(),
{
    if a.len() > 0 && b.len() > 0 && c.len() > 0 {
        if a[0] == b[0] && b[0] == c[0] {
            lemma_bytes_le_transitive(a.drop_first(), b.drop_first(), c.drop_first());
        }
    }
}

proof fn lemma_bytes_le_total(a: Seq<u8>, b: Seq<u8>)
    ensures
        bytes_le(a, b) || bytes_le(b, a),
    decreases a.len(),
{
    if a.len() > 0 && b.len() > 0 && a[0] == b[0] {
        lemma_bytes_le_total(a.drop_first(), b.drop_first());
    }
}

proof fn lemma_text_le_antisymmetric(a: Seq<char>, b: Seq<char>)
    requires
        text_le(a, b),
        text_le(b, a),
    ensures
        a == b,
{
    lemma_bytes_le_antisymmetric(encode_utf8(a), encode_utf8(b));
    encode_utf8_decode_utf8(a);
    encode_utf8_decode_utf8(b);
}

/// The tuple order is a total order, so a sorted arrangement of given pairs
/// is unique.
pub proof fn lemma_pair_order_total()
    ensures
        total_ordering(pair_order()),
{
    let r = pair_order();
    assert forall|x: QueryPair| #[trigger] r(x, x) by {
        lemma_bytes_le_reflexive(encode_utf8(x.1));
    }
    assert forall|x: QueryPair, y: QueryPair| #[trigger] r(x, y) && #[trigger] r(y, x) implies x
        == y by {
        if x.0 != y.0 {
            lemma_text_le_antisymmetric(x.0, y.0);
        } else {
            lemma_text_le_antisymmetric(x.1, y.1);
        }
    }
    assert forall|x: QueryPair, y: QueryPair, z: QueryPair| #[trigger] r(x, y) && #[trigger] r(
        y,
        z,
    ) implies r(x, z) by {
        if x.0 != y.0 && y.0 != z.0 {
            lemma_bytes_le_transitive(encode_utf8(x.0), encode_utf8(y.0), encode_utf8(z.0));
            if x.0 == z.0 {
                lemma_text_le_antisymmetric(x.0, y.0);
            }
        } else if x.0 != y.0 {
        } else if y.0 != z.0 {
        } else {
            lemma_bytes_le_transitive(encode_utf8(x.1), encode_utf8(y.1), encode_utf8(z.1));
        }
    }
    assert forall|x: QueryPair, y: QueryPair| #[trigger] r(x, y) || #[trigger] r(y, x) by {
        if x.0 != y.0 {
            lemma_bytes_le_total(encode_utf8(x.0), encode_utf8(y.0));
        } else {
            lemma_bytes_le_total(encode_utf8(x.1), encode_utf8(y.1));
        }
    }
}

proof fn lemma_without_blank_count(s: Seq<QueryPair>, x: QueryPair)
    ensures
        without_blank_values(s).to_multiset().count(x) == if x.1.len() > 0 {
            s.to_multiset().count(x)
        } else {
            0
        },
    decreases s.len(),
{
    if s.len() > 0 {
        lemma_without_blank_count(s.drop_last(), x);
        assert(s =~= s.drop_last().push(s.last()));
    } else {
        assert(without_blank_values(s) =~= Seq::<QueryPair>::empty());
    }
}

proof fn lemma_without_blank_all_nonblank(s: Seq<QueryPair>)
    ensures
        forall|i: int|
            0 <= i < without_blank_values(s).len() ==> (#[trigger] without_blank_values(s)[i]).1.len()
                > 0,
    decreases s.len(),
{
    if s.len() > 0 {
        lemma_without_blank_all_nonblank(s.drop_last());
        let rest = without_blank_values(s.drop_last());
        assert forall|i: int| 0 <= i < without_blank_values(s).len() implies (
        #[trigger] without_blank_values(s)[i]).1.len() > 0 by {
            if i < rest.len() {
                assert(without_blank_values(s)[i] == rest[i]);
            }
        }
    }
}

proof fn lemma_without_blank_keeps_nonblank(s: Seq<QueryPair>)
    requires
        forall|i: int| 0 <= i < s.len() ==> (#[trigger] s[i]).1.len() > 0,
    ensures
        without_blank_values(s) == s,
    decreases s.len(),
{
    if s.len() > 0 {
        lemma_without_blank_keeps_nonblank(s.drop_last());
        assert(s =~= s.drop_last().push(s.last()));
    } else {
        assert(s =~= Seq::<QueryPair>::empty());
    }
}

/// What the canonical pairs are: sorted in tuple order, without blank values,
/// and holding each non-blank pair of the input as often as the input does.
pub proof fn lemma_canonical_pairs_properties(s: Seq<QueryPair>)
    ensures
        sorted_by(canonical_pairs(s), pair_order()),
        forall|i: int| 0 <= i < canonical_pairs(s).len() ==> (#[trigger] canonical_pairs(s)[i]).1.len() > 0,
        forall|x: QueryPair|
            #[trigger] canonical_pairs(s).to_multiset().count(x) == if x.1.len() > 0 {
                s.to_multiset().count(x)
            } else {
                0
            },
{
    lemma_pair_order_total();
    let w = without_blank_values(s);
    w.lemma_sort_by_ensures(pair_order());
    lemma_without_blank_all_nonblank(s);
    assert forall|x: QueryPair| #[trigger] canonical_pairs(s).to_multiset().count(x) == if x.1.len() > 0 {
        s.to_multiset().count(x)
    } else {
        0
    } by {
        lemma_without_blank_count(s, x);
    }
    assert forall|i: int| 0 <= i < canonical_pairs(s).len() implies (#[trigger] canonical_pairs(
        s,
    )[i]).1.len() > 0 by {
        let c = canonical_pairs(s);
        assert(c.to_multiset().count(c[i]) > 0);
        assert(w.to_multiset().count(c[i]) > 0);
        assert(w.contains(c[i]));
    }
}

/// Law: the canonical query does not depend on the order in which the
/// parameters were written.
pub proof fn lemma_canonical_pairs_ignore_order(s1: Seq<QueryPair>, s2: Seq<QueryPair>)
    requires
        s1.to_multiset() == s2.to_multiset(),
    ensures
        canonical_pairs(s1) == canonical_pairs(s2),
{
    lemma_pair_order_total();
    lemma_canonical_pairs_properties(s1);
    lemma_canonical_pairs_properties(s2);
    let c1 = canonical_pairs(s1);
    let c2 = canonical_pairs(s2);
    assert(c1.to_multiset() =~= c2.to_multiset());
    vstd::seq_lib::lemma_sorted_unique(c1, c2, pair_order());
}

/// Law: canonicalizing canonical pairs changes nothing.
pub proof fn lemma_canonical_pairs_idempotent(s: Seq<QueryPair>)
    ensures
        canonical_pairs(canonical_pairs(s)) == canonical_pairs(s),
{
    lemma_pair_order_total();
    let c = canonical_pairs(s);
    lemma_canonical_pairs_properties(s);
    lemma_without_blank_keeps_nonblank(c);
    c.lemma_sort_by_ensures(pair_order());
    vstd::seq_lib::lemma_sorted_unique(c.sort_by(pair_order()), c, pair_order());
}

/// Compares two byte strings in lexicographic order.
fn bytes_le_exec(a: &[u8], b: &[u8]) -> (r: bool)
    ensures
        r == bytes_le(a@, b@),
{
    let mut i: usize = 0;
    assert(a@.skip(0) =~= a@ && b@.skip(0) =~= b@);
    while i < a.len() && i < b.len() && a[i] == b[i]
        invariant
            i <= a@.len(),
            i <= b@.len(),
            bytes_le(a@, b@) == bytes_le(a@.skip(i as int), b@.skip(i as int)),
        decreases a@.len() - i,
    {
        assert(a@.skip(i as int).drop_first() =~= a@.skip(i + 1));
        assert(b@.skip(i as int).drop_first() =~= b@.skip(i + 1));
        i = i + 1;
    }
    if i == a.len() {
        true
    } else if i == b.len() {
        false
    } else {
        a[i] < b[i]
    }
}

/// Compares two query pairs in tuple order.
fn pair_le_exec(p: &(String, String), q: &(String, String)) -> (r: bool)
    ensures
        r == pair_le(pair_view(*p), pair_view(*q)),
{
    if p.0 != q.0 {
        bytes_le_exec(p.0.as_str().as_bytes(), q.0.as_str().as_bytes())
    } else {
        bytes_le_exec(p.1.as_str().as_bytes(), q.1.as_str().as_bytes())
    }
}

proof fn lemma_pairs_view_push(v: Seq<(String, String)>, x: (String, String))
    ensures
        pairs_view(v.push(x)) == pairs_view(v).push(pair_view(x)),
{
    assert(pairs_view(v.push(x)) =~= pairs_view(v).push(pair_view(x)));
}

/// Removes the pairs with a blank value, keeping the order of the others.
fn drop_blank_values(pairs: Vec<(String, String)>) -> (r: Vec<(String, String)>)
    ensures
        pairs_view(r@) == without_blank_values(pairs_view(pairs@)),
{
    let mut r: Vec<(String, String)> = Vec::new();
    let n = pairs.len();
    let mut i: usize = 0;
    while i < n
        invariant
            n == pairs@.len(),
            i <= n,
            pairs_view(r@) == without_blank_values(pairs_view(pairs@.take(i as int))),
        decreases n - i,
    {
        let p = &pairs[i];
        proof {
            lemma_pairs_view_push(pairs@.take(i as int), pairs@[i as int]);
            assert(pairs@.take(i as int).push(pairs@[i as int]) =~= pairs@.take(i + 1));
            let t = pairs_view(pairs@.take(i + 1));
            assert(t.drop_last() == pairs_view(pairs@.take(i as int)));
        }
        if !p.1.as_str().is_empty() {
            proof {
                lemma_pairs_view_push(r@, *p);
            }
            r.push((p.0.clone(), p.1.clone()));
        }
        i = i + 1;
    }
    assert(pairs@.take(n as int) =~= pairs@);
    r
}

/// Sorts the pairs in tuple order (insertion sort).
fn sort_pairs(pairs: Vec<(String, String)>) -> (r: Vec<(String, String)>)
    ensures
        pairs_view(r@) == pairs_view(pairs@).sort_by(pair_order()),
{
    proof {
        lemma_pair_order_total();
    }
    let ghost le = pair_order();
    let mut r: Vec<(String, String)> = Vec::new();
    let n = pairs.len();
    let mut i: usize = 0;
    while i < n
        invariant
            n == pairs@.len(),
            i <= n,
            total_ordering(le),
            le == pair_order(),
            sorted_by(pairs_view(r@), le),
            pairs_view(r@).to_multiset() == pairs_view(pairs@.take(i as int)).to_multiset(),
        decreases n - i,
    {
        let x = &pairs[i];
        let mut j: usize = 0;
        while j < r.len() && !pair_le_exec(x, &r[j])
            invariant
                j <= r@.len(),
                forall|k: int| 0 <= k < j ==> !pair_le(pair_view(*x), #[trigger] pair_view(r@[k])),
            decreases r@.len() - j,
        {
            j = j + 1;
        }
        let ghost old_r = pairs_view(r@);
        let ghost xv = pair_view(*x);
        r.insert(j, (x.0.clone(), x.1.clone()));
        proof {
            let nr = pairs_view(r@);
            assert(nr =~= old_r.take(j as int) + seq![xv] + old_r.skip(j as int));
            assert forall|a: int, b: int| 0 <= a < b < nr.len() implies #[trigger] le(nr[a], nr[b]) by {
                if b < j {
                    assert(nr[a] == old_r[a] && nr[b] == old_r[b]);
                } else if b == j {
                    assert(nr[a] == old_r[a]);
                    assert(!pair_le(xv, old_r[a]));
                    assert(le(old_r[a], xv) || le(xv, old_r[a]));
                } else if a < j {
                    assert(nr[a] == old_r[a] && nr[b] == old_r[b - 1]);
                } else if a == j {
                    assert(nr[b] == old_r[b - 1]);
                    assert(le(xv, old_r[j as int]));
                    if b - 1 > j {
                        assert(le(old_r[j as int], old_r[b - 1]));
                    }
                } else {
                    assert(nr[a] == old_r[a - 1] && nr[b] == old_r[b - 1]);
                }
            }
            vstd::seq_lib::lemma_multiset_commutative(old_r.take(j as int) + seq![xv], old_r.skip(j as int));
            vstd::seq_lib::lemma_multiset_commutative(old_r.take(j as int), seq![xv]);
            vstd::seq_lib::lemma_multiset_commutative(old_r.take(j as int), old_r.skip(j as int));
            assert(old_r =~= old_r.take(j as int) + old_r.skip(j as int));
            lemma_pairs_view_push(pairs@.take(i as int), pairs@[i as int]);
            assert(pairs@.take(i as int).push(pairs@[i as int]) =~= pairs@.take(i + 1));
            assert(seq![xv].to_multiset() =~= Multiset::empty().insert(xv)) by {
                assert(Seq::<QueryPair>::empty().push(xv) =~= seq![xv]);
            }
            assert(nr.to_multiset() =~= pairs_view(pairs@.take(i + 1)).to_multiset());
        }
        i = i + 1;
    }
    proof {
        assert(pairs@.take(n as int) =~= pairs@);
        let s = pairs_view(pairs@);
        s.lemma_sort_by_ensures(le);
        vstd::seq_lib::lemma_sorted_unique(pairs_view(r@), s.sort_by(le), le);
    }
    r
}

/// The canonical query pairs: the pairs with a blank value removed, the
/// others sorted by name, then by value.
pub fn canonical_query_pairs(pairs: Vec<(String, String)>) -> (r: Vec<(String, String)>)
    ensures
        pairs_view(r@) == canonical_pairs(pairs_view(pairs@)),
{
    let kept = drop_blank_values(pairs);
    sort_pairs(kept)
}

} // verus!
