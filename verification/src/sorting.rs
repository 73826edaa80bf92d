//! Sorting lines of text into dictionary order.

use crate::text::{
    at_most, dictionary_order, is_before, lemma_dictionary_order_total, lemma_precedes_connected,
    lemma_precedes_transitive, precedes, texts,
};
use vstd::prelude::*;
use vstd::relations::sorted_by;
use vstd::seq_lib::*;

verus! {

/// `s` rearranged into dictionary order.
pub open spec fn sorted_texts(s: Seq<Seq<char>>) -> Seq<Seq<char>> {
    s.sort_by(dictionary_order())
}

/// Each element is at most every later one.
pub open spec fn ascending(s: Seq<Seq<char>>) -> bool {
    forall|i: int, j: int| 0 <= i < j < s.len() ==> at_most(#[trigger] s[i], #[trigger] s[j])
}

/// A sequence in ascending order with the elements of `s` is `sorted_texts(s)`.
pub proof fn lemma_ascending_is_sorted(s: Seq<Seq<char>>, t: Seq<Seq<char>>)
    requires
        ascending(t),
        t.to_multiset() == s.to_multiset(),
    ensures
        t == sorted_texts(s),
{
    let r = dictionary_order();
    lemma_dictionary_order_total();
    s.lemma_sort_by_ensures(r);
    assert(sorted_by(t, r)) by {
        assert forall|i: int, j: int| 0 <= i < j < t.len() implies #[trigger] r(t[i], t[j]) by {
            assert(at_most(t[i], t[j]));
        }
    }
    lemma_sorted_unique(t, s.sort_by(r), r);
}

/// Sorting gives an ascending rearrangement.
pub proof fn lemma_sorted_texts(s: Seq<Seq<char>>)
    ensures
        ascending(sorted_texts(s)),
        sorted_texts(s).to_multiset() == s.to_multiset(),
        sorted_texts(s).len() == s.len(),
{
    let r = dictionary_order();
    lemma_dictionary_order_total();
    s.lemma_sort_by_ensures(r);
    let t = sorted_texts(s);
    assert forall|i: int, j: int| 0 <= i < j < t.len() implies at_most(
        #[trigger] t[i],
        #[trigger] t[j],
    ) by {
        assert(r(t[i], t[j]));
    }
    broadcast use to_multiset_len;

    assert(t.to_multiset().len() == t.len());
    assert(s.to_multiset().len() == s.len());
}

/// Two sequences with the same elements, in whatever order, sort to the same
/// sequence.
pub proof fn lemma_sorted_texts_order_independent(s: Seq<Seq<char>>, t: Seq<Seq<char>>)
    requires
        s.to_multiset() == t.to_multiset(),
    ensures
        sorted_texts(s) == sorted_texts(t),
{
    lemma_sorted_texts(s);
    lemma_ascending_is_sorted(t, sorted_texts(s));
}

/// Sorts the lines into dictionary order, in place.
pub fn sort_texts(v: &mut Vec<Vec<char>>)
    ensures
        texts(final(v)@) == sorted_texts(texts(old(v)@)),
{
    let n = v.len();
    let mut i: usize = 0;
    while i < n
        invariant
            i <= n,
            v.len() == n,
            texts(v@).to_multiset() == texts(old(v)@).to_multiset(),
            ascending(texts(v@).subrange(0, i as int)),
        decreases n - i,
    {
        let ghost before = v@;
        let x = v.remove(i);
        let mut j: usize = 0;
        while j < i && !is_before(&x, &v[j])
            invariant
                j <= i,
                i < n,
                v.len() == n - 1,
                v@ == before.remove(i as int),
                forall|k: int| 0 <= k < j ==> at_most(#[trigger] v@[k]@, x@),
            decreases i - j,
        {
            proof {
                lemma_precedes_connected(x@, v@[j as int]@);
            }
            j += 1;
        }
        v.insert(j, x);
        proof {
            let mid = before.remove(i as int);
            let after = mid.insert(j as int, x);
            assert(v@ == after);
            assert(x == before[i as int]);
            assert(texts(mid) =~= texts(before).remove(i as int));
            assert(texts(after) =~= texts(mid).insert(j as int, x@));
            broadcast use {to_multiset_remove, to_multiset_insert};

            assert(texts(mid).to_multiset() =~= texts(before).to_multiset().remove(x@));
            assert(texts(after).to_multiset() =~= texts(mid).to_multiset().insert(x@));
            assert(texts(before).to_multiset().count(x@) > 0) by {
                broadcast use to_multiset_contains;

                assert(texts(before)[i as int] == x@);
                assert(texts(before).contains(x@));
            }
            assert(texts(after).to_multiset() =~= texts(before).to_multiset());
            let p = texts(before).subrange(0, i as int);
            let q = texts(after).subrange(0, i + 1);
            assert forall|a: int, b: int| 0 <= a < b < q.len() implies at_most(
                #[trigger] q[a],
                #[trigger] q[b],
            ) by {
                if b < j {
                    assert(q[a] == p[a] && q[b] == p[b]);
                } else if b == j {
                    assert(q[a] == mid[a]@);
                } else if a < j {
                    assert(q[a] == p[a] && q[b] == p[b - 1]);
                } else if a == j {
                    assert(q[b] == p[b - 1]);
                    assert(precedes(x@, mid[j as int]@));
                    assert(mid[j as int]@ == p[j as int]);
                    if b - 1 > j {
                        assert(at_most(p[j as int], p[b - 1]));
                        if precedes(p[j as int], p[b - 1]) {
                            lemma_precedes_transitive(x@, p[j as int], p[b - 1]);
                        }
                    }
                } else {
                    assert(q[a] == p[a - 1] && q[b] == p[b - 1]);
                }
            }
        }
        i += 1;
    }
    proof {
        assert(texts(v@).subrange(0, n as int) =~= texts(v@));
        lemma_ascending_is_sorted(texts(old(v)@), texts(v@));
    }
}

/// Each name comes strictly before the next in dictionary order.
pub open spec fn strictly_ascending(names: Seq<Seq<char>>) -> bool {
    forall|i: int, j: int|
        0 <= i < j < names.len() ==> precedes(#[trigger] names[i], #[trigger] names[j])
}

/// The names of a finite set in dictionary order, each once.
pub open spec fn listing(names: Set<Seq<char>>) -> Seq<Seq<char>> {
    names.to_sorted_seq(dictionary_order())
}

/// The elements of a finite set, laid out as a sequence, do not repeat.
pub proof fn lemma_to_seq_no_duplicates(s: Set<Seq<char>>)
    requires
        s.finite(),
    ensures
        s.to_seq().no_duplicates(),
    decreases s.len(),
{
    if s.len() != 0 {
        let x = s.choose();
        let rest = s.remove(x).to_seq();
        lemma_to_seq_no_duplicates(s.remove(x));
        s.remove(x).lemma_to_seq_to_set_id();
        assert(!rest.contains(x)) by {
            if rest.contains(x) {
                assert(rest.to_set().contains(x));
            }
        }
        let t = seq![x] + rest;
        assert(s.to_seq() == t);
        assert forall|i: int, j: int| 0 <= i < t.len() && 0 <= j < t.len() && i != j implies t[i]
            != t[j] by {
            if i > 0 && j > 0 {
                assert(t[i] == rest[i - 1] && t[j] == rest[j - 1]);
            } else if i == 0 {
                assert(t[j] == rest[j - 1]);
                assert(rest.contains(rest[j - 1]));
            } else {
                assert(t[i] == rest[i - 1]);
                assert(rest.contains(rest[i - 1]));
            }
        }
    }
}

/// Two sequences without repetitions that hold the same elements hold each
/// as often as the other.
pub proof fn lemma_same_elements_same_multiset(s: Seq<Seq<char>>, t: Seq<Seq<char>>)
    requires
        s.no_duplicates(),
        t.no_duplicates(),
        s.to_set() == t.to_set(),
    ensures
        s.to_multiset() == t.to_multiset(),
{
    s.lemma_multiset_has_no_duplicates();
    t.lemma_multiset_has_no_duplicates();
    assert forall|x: Seq<char>| s.to_multiset().count(x) == t.to_multiset().count(x) by {
        broadcast use vstd::seq_lib::to_multiset_contains;

        assert(s.contains(x) <==> s.to_set().contains(x));
        assert(t.contains(x) <==> t.to_set().contains(x));
        assert(s.to_multiset().contains(x) <==> s.to_multiset().count(x) > 0);
        assert(t.to_multiset().contains(x) <==> t.to_multiset().count(x) > 0);
    }
    assert(s.to_multiset() =~= t.to_multiset());
}

/// Sorting any repetition-free sequence of a set's elements gives the set's
/// listing.
pub proof fn lemma_listing(names: Set<Seq<char>>, s: Seq<Seq<char>>)
    requires
        s.no_duplicates(),
        s.to_set() == names,
    ensures
        sorted_texts(s) == listing(names),
{
    vstd::seq_lib::seq_to_set_is_finite(s);
    lemma_to_seq_no_duplicates(names);
    names.lemma_to_seq_to_set_id();
    lemma_same_elements_same_multiset(s, names.to_seq());
    lemma_sorted_texts_order_independent(s, names.to_seq());
}

/// A strictly ascending sequence is the listing of its elements.
pub proof fn lemma_ascending_listing(s: Seq<Seq<char>>)
    requires
        strictly_ascending(s),
    ensures
        s.no_duplicates(),
        s == listing(s.to_set()),
{
    assert forall|i: int, j: int| 0 <= i < s.len() && 0 <= j < s.len() && i != j implies s[i]
        != s[j] by {
        if i < j {
            crate::text::lemma_precedes_asymmetric(s[i], s[j]);
        } else {
            crate::text::lemma_precedes_asymmetric(s[j], s[i]);
        }
    }
    lemma_listing(s.to_set(), s);
    assert(ascending(s));
    lemma_ascending_is_sorted(s, s);
}

} // verus!
