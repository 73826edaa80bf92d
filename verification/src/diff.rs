//! Differences between two lists of packages, by name.

use crate::matcher::{contains_text, lemma_push_to_set};
use crate::package::{package_names, package_views, Package};
use crate::sorting::{lemma_listing, listing, sort_texts};
use crate::text::{chars_of, has_prefix, join_texts, joined, string_of, texts};
use vstd::prelude::*;

verus! {

/// The character sequences of a slice of string slices.
pub open spec fn slices(v: Seq<&str>) -> Seq<Seq<char>> {
    v.map_values(|s: &str| s@)
}

/// The prefixes of an exclusion list, if there is one.
pub open spec fn prefix_list(prefixes: Option<&[&str]>) -> Option<Seq<Seq<char>>> {
    match prefixes {
        Some(list) => Some(slices(list@)),
        None => None,
    }
}

/// `name` begins with `prefix`.
pub open spec fn begins_with(name: Seq<char>, prefix: Seq<char>) -> bool {
    prefix.is_prefix_of(name)
}

/// `name` begins with one of the prefixes. Without a list of prefixes no
/// name does.
pub open spec fn excluded(name: Seq<char>, prefixes: Option<Seq<Seq<char>>>) -> bool {
    prefixes matches Some(list) && begins_with_any(name, list)
}

/// `name` begins with one of the prefixes of the list.
pub open spec fn begins_with_any(name: Seq<char>, list: Seq<Seq<char>>) -> bool {
    exists|i: int| 0 <= i < list.len() && #[trigger] begins_with(name, list[i])
}

/// Decides whether `element` begins with one of `prefixes`.
pub fn is_prefix(element: &str, prefixes: Option<&[&str]>) -> (r: bool)
    ensures
        r == excluded(element@, prefix_list(prefixes)),
{
    let name = chars_of(element);
    starts_with_any(&name, prefixes)
}

fn starts_with_any(name: &Vec<char>, prefixes: Option<&[&str]>) -> (r: bool)
    ensures
        r == excluded(name@, prefix_list(prefixes)),
{
    match prefixes {
        Some(list) => {
            let ghost all = slices(list@);
            let mut i: usize = 0;
            while i < list.len()
                invariant
                    i <= list.len(),
                    all == slices(list@),
                    prefix_list(prefixes) == Some(all),
                    forall|k: int| 0 <= k < i ==> !#[trigger] begins_with(name@, all[k]),
                decreases list.len() - i,
            {
                let prefix = chars_of(list[i]);
                assert(prefix@ == all[i as int]);
                if has_prefix(name, &prefix) {
                    assert(0 <= i < all.len() && begins_with(name@, all[i as int]));
                    return true;
                }
                i += 1;
            }
            false
        },
        None => false,
    }
}

/// The names that are in `a`, not in `b`, and not excluded.
pub open spec fn difference(
    a: Seq<Seq<char>>,
    b: Seq<Seq<char>>,
    exclude: Option<Seq<Seq<char>>>,
) -> Set<Seq<char>> {
    a.to_set().filter(|n: Seq<char>| !b.contains(n) && !excluded(n, exclude))
}

/// The difference as it stands in the status report: the names in
/// dictionary order, a blank between each two.
pub open spec fn difference_text(
    a: Seq<Seq<char>>,
    b: Seq<Seq<char>>,
    exclude: Option<Seq<Seq<char>>>,
) -> Seq<char> {
    joined(listing(difference(a, b, exclude)), " "@)
}

/// The difference of a list with itself is empty, and so is its text,
/// whatever is excluded.
pub proof fn lemma_self_difference_empty(a: Seq<Seq<char>>, exclude: Option<Seq<Seq<char>>>)
    ensures
        difference(a, a, exclude) == Set::<Seq<char>>::empty(),
        difference_text(a, a, exclude) == Seq::<char>::empty(),
{
    let d = difference(a, a, exclude);
    assert(d =~= Set::<Seq<char>>::empty());
    assert(Seq::<Seq<char>>::empty().to_set() =~= d);
    lemma_listing(d, Seq::<Seq<char>>::empty());
    crate::sorting::lemma_sorted_texts(Seq::<Seq<char>>::empty());
    assert(listing(d) =~= Seq::<Seq<char>>::empty());
}

/// The names of a list of packages.
pub fn names_of(v: &Vec<Package>) -> (r: Vec<Vec<char>>)
    ensures
        texts(r@) == package_names(package_views(v@)),
{
    let ghost all = package_names(package_views(v@));
    let mut out: Vec<Vec<char>> = Vec::new();
    let mut i: usize = 0;
    while i < v.len()
        invariant
            i <= v.len(),
            all == package_names(package_views(v@)),
            texts(out@) == all.take(i as int),
        decreases v.len() - i,
    {
        let ghost shown = texts(out@);
        out.push(chars_of(v[i].name.as_str()));
        assert(texts(out@) =~= shown.push(v@[i as int].name@));
        i += 1;
        assert(all.take(i as int) =~= shown.push(v@[i - 1].name@));
    }
    assert(all.take(i as int) =~= all);
    out
}

/// The names of the packages of `vec_a` that `vec_b` has no package for and
/// that begin with none of the `exclude` prefixes: each once, in dictionary
/// order, a blank between each two.
pub fn diff_and_join(vec_a: &Vec<Package>, vec_b: &Vec<Package>, exclude: Option<&[&str]>) -> (r:
    String)
    ensures
        r@ == difference_text(
            package_names(package_views(vec_a@)),
            package_names(package_views(vec_b@)),
            prefix_list(exclude),
        ),
{
    let names_a = names_of(vec_a);
    let names_b = names_of(vec_b);
    let ghost a = texts(names_a@);
    let ghost b = texts(names_b@);
    let ghost target = difference(a, b, prefix_list(exclude));
    let mut kept: Vec<Vec<char>> = Vec::new();
    let mut i: usize = 0;
    assert(texts(kept@).to_set() =~= a.take(0).to_set().filter(
        |n: Seq<char>| !b.contains(n) && !excluded(n, prefix_list(exclude)),
    ));
    while i < names_a.len()
        invariant
            i <= names_a.len(),
            a == texts(names_a@),
            b == texts(names_b@),
            texts(kept@).no_duplicates(),
            texts(kept@).to_set() == a.take(i as int).to_set().filter(
                |n: Seq<char>| !b.contains(n) && !excluded(n, prefix_list(exclude)),
            ),
        decreases names_a.len() - i,
    {
        let ghost shown = texts(kept@);
        let ghost x = a[i as int];
        proof {
            assert(a.take(i + 1) =~= a.take(i as int).push(x));
            lemma_push_to_set(a.take(i as int), x);
        }
        let name = &names_a[i];
        if !contains_text(&names_b, name) && !starts_with_any(name, exclude) && !contains_text(
            &kept,
            name,
        ) {
            let mut copy: Vec<char> = Vec::new();
            crate::text::append_chars(&mut copy, name);
            kept.push(copy);
            proof {
                assert(texts(kept@) =~= shown.push(x));
                lemma_push_to_set(shown, x);
            }
        }
        assert(texts(kept@).to_set() =~= a.take(i + 1).to_set().filter(
            |n: Seq<char>| !b.contains(n) && !excluded(n, prefix_list(exclude)),
        ));
        i += 1;
    }
    proof {
        assert(a.take(i as int) =~= a);
        assert(texts(kept@).to_set() == target);
        lemma_listing(target, texts(kept@));
    }
    sort_texts(&mut kept);
    let line = join_texts(&kept, " ");
    string_of(&line)
}

} // verus!
