//! The similarity of two sets of names, and the role whose patterns are
//! closest to what is installed.

use crate::package::{package_names, Installation, InstallationView};
use crate::roles::{ReferenceView, Roles};
use crate::text::{at_most, chars_of, chars_of_all, same_chars, texts};
use vstd::prelude::*;

verus! {

/// A Jaccard index as a fraction: `shared` of the `total` distinct elements of
/// two sets are in both. Where `total` is 0 the index is 0.
#[derive(Clone, Copy, Debug)]
pub struct Similarity {
    pub shared: usize,
    pub total: usize,
}

/// A fraction of natural numbers; with `den == 0` its value is 0.
pub struct Ratio {
    pub num: nat,
    pub den: nat,
}

impl Ratio {
    /// The denominator by which fractions are compared: 1 in place of 0.
    pub open spec fn scale(self) -> nat {
        if self.den == 0 {
            1
        } else {
            self.den
        }
    }

    /// The value is 0.
    pub open spec fn is_zero(self) -> bool {
        self.num == 0
    }

    /// The value is 1.
    pub open spec fn is_one(self) -> bool {
        self.den > 0 && self.num == self.den
    }

    /// The value of `self` is greater than that of `other`.
    pub open spec fn exceeds(self, other: Ratio) -> bool {
        self.num * other.scale() > other.num * self.scale()
    }

    /// Both have the same value.
    pub open spec fn equals(self, other: Ratio) -> bool {
        self.num * other.scale() == other.num * self.scale()
    }
}

impl View for Similarity {
    type V = Ratio;

    open spec fn view(&self) -> Ratio {
        Ratio { num: self.shared as nat, den: self.total as nat }
    }
}

impl Similarity {
    /// Decides whether this index is greater than `other`.
    pub fn exceeds(&self, other: &Similarity) -> (r: bool)
        ensures
            r == self@.exceeds(other@),
    {
        let a: u128 = self.shared as u128;
        let b: u128 = if other.total == 0 {
            1
        } else {
            other.total as u128
        };
        let c: u128 = other.shared as u128;
        let d: u128 = if self.total == 0 {
            1
        } else {
            self.total as u128
        };
        assert(a * b <= 0xFFFF_FFFF_FFFF_FFFF * 0xFFFF_FFFF_FFFF_FFFF) by (nonlinear_arith)
            requires
                a <= 0xFFFF_FFFF_FFFF_FFFF,
                b <= 0xFFFF_FFFF_FFFF_FFFF,
        ;
        assert(c * d <= 0xFFFF_FFFF_FFFF_FFFF * 0xFFFF_FFFF_FFFF_FFFF) by (nonlinear_arith)
            requires
                c <= 0xFFFF_FFFF_FFFF_FFFF,
                d <= 0xFFFF_FFFF_FFFF_FFFF,
        ;
        a * b > c * d
    }
}

/// The Jaccard index of two sets: the size of the intersection over the size
/// of the union, and 0 where both are empty.
pub open spec fn jaccard_index(a: Set<Seq<char>>, b: Set<Seq<char>>) -> Ratio {
    Ratio { num: a.intersect(b).len(), den: a.union(b).len() }
}

/// The index does not depend on the order of its arguments.
pub proof fn lemma_jaccard_symmetric(a: Set<Seq<char>>, b: Set<Seq<char>>)
    ensures
        jaccard_index(a, b) == jaccard_index(b, a),
{
    assert(a.intersect(b) =~= b.intersect(a));
    assert(a.union(b) =~= b.union(a));
}

/// A non-empty set has index 1 with itself.
pub proof fn lemma_jaccard_self(a: Set<Seq<char>>)
    requires
        a.finite(),
        a.len() > 0,
    ensures
        jaccard_index(a, a).is_one(),
{
    assert(a.intersect(a) =~= a);
    assert(a.union(a) =~= a);
}

/// Two empty sets have index 0: the index is defined there.
pub proof fn lemma_jaccard_empty()
    ensures
        jaccard_index(Set::empty(), Set::empty()).is_zero(),
        !jaccard_index(Set::empty(), Set::empty()).exceeds(
            jaccard_index(Set::empty(), Set::empty()),
        ),
{
    assert(Set::<Seq<char>>::empty().intersect(Set::empty()) =~= Set::empty());
}

/// Decides whether `x` is among the texts of `v`.
pub fn contains_text(v: &Vec<Vec<char>>, x: &Vec<char>) -> (r: bool)
    ensures
        r == texts(v@).contains(x@),
{
    let mut i: usize = 0;
    while i < v.len()
        invariant
            i <= v.len(),
            forall|k: int| 0 <= k < i ==> texts(v@)[k] != x@,
        decreases v.len() - i,
    {
        if same_chars(&v[i], x) {
            assert(texts(v@)[i as int] == x@);
            return true;
        }
        i += 1;
    }
    false
}

/// Adds to `out` the texts of `v` that it does not hold yet, each once.
pub fn add_distinct(out: &mut Vec<Vec<char>>, v: &Vec<Vec<char>>)
    requires
        texts(old(out)@).no_duplicates(),
    ensures
        texts(final(out)@).no_duplicates(),
        texts(final(out)@).to_set() == texts(old(out)@).to_set().union(texts(v@).to_set()),
        final(out).len() >= old(out).len(),
        texts(final(out)@).take(old(out).len() as int) == texts(old(out)@),
{
    let ghost start = texts(out@);
    let mut i: usize = 0;
    assert(texts(v@).take(0).to_set() =~= Set::empty());
    assert(start.to_set().union(Set::empty()) =~= start.to_set());
    while i < v.len()
        invariant
            i <= v.len(),
            start == texts(old(out)@),
            out.len() >= start.len(),
            texts(out@).take(start.len() as int) == start,
            texts(out@).no_duplicates(),
            texts(out@).to_set() == start.to_set().union(texts(v@).take(i as int).to_set()),
        decreases v.len() - i,
    {
        let ghost before = texts(out@);
        let ghost x = v@[i as int]@;
        proof {
            assert(texts(v@).take(i + 1) =~= texts(v@).take(i as int).push(x));
            lemma_push_to_set(texts(v@).take(i as int), x);
        }
        if !contains_text(out, &v[i]) {
            let mut copy: Vec<char> = Vec::new();
            crate::text::append_chars(&mut copy, &v[i]);
            out.push(copy);
            proof {
                assert(texts(out@) =~= before.push(x));
                lemma_push_to_set(before, x);
                assert(texts(out@).to_set() =~= start.to_set().union(
                    texts(v@).take(i + 1).to_set(),
                ));
                assert(texts(out@).take(start.len() as int) =~= before.take(start.len() as int));
            }
        } else {
            proof {
                assert(before.to_set().contains(x));
                assert(before.to_set() =~= start.to_set().union(texts(v@).take(i + 1).to_set()));
            }
        }
        i += 1;
    }
    assert(texts(v@).take(i as int) =~= texts(v@));
}

/// The elements of `s.push(x)` are those of `s` and `x`.
pub proof fn lemma_push_to_set(s: Seq<Seq<char>>, x: Seq<char>)
    ensures
        s.push(x).to_set() == s.to_set().insert(x),
{
    let t = s.push(x);
    assert forall|e: Seq<char>| t.to_set().contains(e) <==> s.to_set().insert(x).contains(e) by {
        if t.contains(e) {
            let k = choose|k: int| 0 <= k < t.len() && t[k] == e;
            if k < s.len() {
                assert(s[k] == e);
            }
        }
        if s.contains(e) {
            let k = choose|k: int| 0 <= k < s.len() && s[k] == e;
            assert(t[k] == e);
        }
        if e == x {
            assert(t[s.len() as int] == e);
        }
    }
    assert(t.to_set() =~= s.to_set().insert(x));
}

/// The Jaccard index of two lists of names, each taken as a set.
pub fn jaccard(set1: &Vec<Vec<char>>, set2: &Vec<Vec<char>>) -> (r: Similarity)
    ensures
        r@ == jaccard_index(texts(set1@).to_set(), texts(set2@).to_set()),
{
    let ghost set_a = texts(set1@).to_set();
    let ghost set_b = texts(set2@).to_set();
    let mut all: Vec<Vec<char>> = Vec::new();
    assert(texts(all@).to_set() =~= Set::empty());
    add_distinct(&mut all, set1);
    let first = all.len();
    let ghost sa = texts(all@);
    assert(sa.to_set() =~= set_a);
    add_distinct(&mut all, set2);
    let ghost su = texts(all@);
    assert(su.take(first as int) == sa);
    let mut shared: usize = 0;
    let ghost mut common: Seq<Seq<char>> = Seq::empty();
    let mut i: usize = 0;
    assert(sa.take(0).to_set().intersect(set_b) =~= common.to_set());
    while i < first
        invariant
            i <= first,
            first <= all.len(),
            su == texts(all@),
            sa == su.take(first as int),
            set_b == texts(set2@).to_set(),
            su.no_duplicates(),
            common.no_duplicates(),
            common.len() == shared,
            shared <= i,
            common.to_set() == sa.take(i as int).to_set().intersect(set_b),
        decreases first - i,
    {
        let ghost x = sa[i as int];
        proof {
            assert(x == su[i as int]);
            assert(sa.take(i + 1) =~= sa.take(i as int).push(x));
            lemma_push_to_set(sa.take(i as int), x);
            assert(!sa.take(i as int).contains(x)) by {
                if sa.take(i as int).contains(x) {
                    let k = choose|k: int| 0 <= k < i && sa.take(i as int)[k] == x;
                    assert(su[k] == su[i as int]);
                }
            }
        }
        if contains_text(set2, &all[i]) {
            proof {
                assert(!common.contains(x)) by {
                    if common.contains(x) {
                        assert(common.to_set().contains(x));
                    }
                }
                lemma_push_to_set(common, x);
                let grown = common.push(x);
                assert(grown.no_duplicates());
                assert(grown.to_set() =~= sa.take(i + 1).to_set().intersect(set_b));
                common = grown;
            }
            shared += 1;
        } else {
            proof {
                assert(common.to_set() =~= sa.take(i + 1).to_set().intersect(set_b));
            }
        }
        i += 1;
    }
    proof {
        assert(sa.take(i as int) =~= sa);
        common.unique_seq_to_set();
        su.unique_seq_to_set();
        assert(su.to_set() =~= set_a.union(set_b));
    }
    Similarity { shared, total: all.len() }
}

/// The names of the installed patterns, as a set.
pub open spec fn installed_patterns(installation: InstallationView) -> Set<Seq<char>> {
    package_names(installation.patterns).to_set()
}

/// How close a role is to an installation: the Jaccard index of the
/// installed patterns and the patterns that the role requires.
pub open spec fn closeness(role: ReferenceView, installation: InstallationView) -> Ratio {
    jaccard_index(installed_patterns(installation), role.patterns.to_set())
}

/// `best` is the closest role: no role is closer, and of the roles that are
/// as close it is the first by name.
pub open spec fn is_closest(
    roles: Map<Seq<char>, ReferenceView>,
    installation: InstallationView,
    best: Seq<char>,
) -> bool {
    &&& roles.contains_key(best)
    &&& forall|k: Seq<char>| #[trigger]
        roles.contains_key(k) ==> {
            &&& !closeness(roles[k], installation).exceeds(closeness(roles[best], installation))
            &&& closeness(roles[k], installation).equals(closeness(roles[best], installation))
                ==> at_most(best, k)
        }
}

/// There is at most one closest role.
pub proof fn lemma_closest_unique(
    roles: Map<Seq<char>, ReferenceView>,
    installation: InstallationView,
    a: Seq<char>,
    b: Seq<char>,
)
    requires
        is_closest(roles, installation, a),
        is_closest(roles, installation, b),
    ensures
        a == b,
{
    assert(roles.contains_key(a) && roles.contains_key(b));
    let x = closeness(roles[a], installation);
    let y = closeness(roles[b], installation);
    assert(!x.exceeds(y) && !y.exceeds(x));
    assert(x.equals(y) && y.equals(x));
    assert(at_most(a, b) && at_most(b, a));
    if a != b {
        crate::text::lemma_precedes_asymmetric(a, b);
    }
}

/// Of three fractions, where the first is at most the second and the second
/// less than the third, the first is less than the third.
pub proof fn lemma_exceeds_chain(a: Ratio, b: Ratio, c: Ratio)
    requires
        !a.exceeds(b),
        c.exceeds(b),
    ensures
        c.exceeds(a),
{
    let (an, ad) = (a.num as int, a.scale() as int);
    let (bn, bd) = (b.num as int, b.scale() as int);
    let (cn, cd) = (c.num as int, c.scale() as int);
    assert(cn * ad > an * cd) by (nonlinear_arith)
        requires
            an * bd <= bn * ad,
            cn * bd > bn * cd,
            ad > 0,
            bd > 0,
            cd > 0,
            an >= 0,
            bn >= 0,
            cn >= 0,
    {
        assert(an * bd * cd <= bn * ad * cd);
        assert(cn * bd * ad > bn * cd * ad);
        assert(bn * ad * cd == bn * cd * ad);
        assert(an * cd * bd == an * bd * cd);
        assert(cn * ad * bd == cn * bd * ad);
        assert(cn * ad * bd > an * cd * bd);
    }
}

/// The role whose required patterns are closest to the installed ones, by
/// Jaccard index; of several that are equally close, the first by name.
/// Without roles there is none.
pub fn find_closer_role(roles: &Roles, installation: &Installation) -> (r: Option<String>)
    requires
        roles.wf(),
    ensures
        r is None <==> roles@ == Map::<Seq<char>, ReferenceView>::empty(),
        r matches Some(name) ==> is_closest(roles@, installation@, name@),
{
    let mut installed: Vec<Vec<char>> = Vec::new();
    let mut p: usize = 0;
    while p < installation.patterns.len()
        invariant
            p <= installation.patterns.len(),
            texts(installed@) == package_names(installation@.patterns).take(p as int),
        decreases installation.patterns.len() - p,
    {
        let ghost shown = texts(installed@);
        installed.push(chars_of(installation.patterns[p].name.as_str()));
        assert(texts(installed@) =~= shown.push(installation.patterns@[p as int].name@));
        p += 1;
        assert(package_names(installation@.patterns).take(p as int) =~= shown.push(
            installation.patterns@[p - 1].name@,
        ));
    }
    assert(package_names(installation@.patterns).take(p as int) =~= package_names(
        installation@.patterns,
    ));
    proof {
        roles.lemma_names();
    }
    let ghost names = roles.names();
    let n = roles.len();
    if n == 0 {
        assert(roles@ =~= Map::<Seq<char>, ReferenceView>::empty()) by {
            assert forall|k: Seq<char>| !roles@.contains_key(k) by {
                assert(!names.contains(k));
            }
        }
        return None;
    }
    let first = chars_of_all(&roles.installation(0).patterns);
    let mut best: usize = 0;
    let mut best_index = jaccard(&installed, &first);
    let mut i: usize = 1;
    while i < n
        invariant
            1 <= i <= n,
            n == names.len(),
            names == roles.names(),
            roles.wf(),
            best < i,
            texts(installed@) == package_names(installation@.patterns),
            best_index@ == closeness(roles@[names[best as int]], installation@),
            forall|k: int|
                0 <= k < i ==> !closeness(roles@[#[trigger] names[k]], installation@).exceeds(
                    best_index@,
                ),
            forall|k: int|
                0 <= k < best ==> best_index@.exceeds(
                    closeness(roles@[#[trigger] names[k]], installation@),
                ),
        decreases n - i,
    {
        let patterns = chars_of_all(&roles.installation(i).patterns);
        let index = jaccard(&installed, &patterns);
        if index.exceeds(&best_index) {
            proof {
                assert forall|k: int| 0 <= k < i implies index@.exceeds(
                    closeness(roles@[#[trigger] names[k]], installation@),
                ) by {
                    lemma_exceeds_chain(
                        closeness(roles@[names[k]], installation@),
                        best_index@,
                        index@,
                    );
                }
            }
            best = i;
            best_index = index;
        }
        i += 1;
    }
    let name = roles.name(best).clone();
    proof {
        let chosen = names[best as int];
        assert(names.contains(chosen));
        assert forall|k: Seq<char>| #[trigger] roles@.contains_key(k) implies {
            &&& !closeness(roles@[k], installation@).exceeds(
                closeness(roles@[chosen], installation@),
            )
            &&& closeness(roles@[k], installation@).equals(closeness(roles@[chosen], installation@))
                ==> at_most(chosen, k)
        } by {
            assert(names.contains(k));
            let at = choose|at: int| 0 <= at < names.len() && names[at] == k;
            assert(names[at] == k);
            if at < best {
                assert(best_index@.exceeds(closeness(roles@[names[at]], installation@)));
            }
        }
        assert(roles@.contains_key(chosen));
    }
    Some(name)
}

} // verus!
