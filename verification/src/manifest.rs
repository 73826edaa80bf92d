//! Manifests: the sorted listing of an installation, one line for each
//! product, pattern and package.

use crate::package::{package_views, Installation, InstallationView, Package, PackageView};
use crate::sorting::{lemma_sorted_texts_order_independent, sort_texts, sorted_texts};
use crate::text::{append_decimal, append_str, chars_of, decimal, join_texts, joined, string_of,
    texts};
use vstd::hash_map::StringHashMap;
use vstd::prelude::*;

verus! {

/// The build time of each package that is known, by the package's full name,
/// in seconds.
pub struct Buildtimes {
    times: StringHashMap<u64>,
}

impl View for Buildtimes {
    type V = Map<Seq<char>, u64>;

    closed spec fn view(&self) -> Map<Seq<char>, u64> {
        self.times@
    }
}

impl Buildtimes {
    /// No build time is known.
    pub fn new() -> (r: Buildtimes)
        ensures
            r@ == Map::<Seq<char>, u64>::empty(),
    {
        Buildtimes { times: StringHashMap::new() }
    }

    /// Records the build time of the package `full_name`, in place of an
    /// earlier one.
    pub fn insert(&mut self, full_name: String, buildtime: u64)
        ensures
            final(self)@ == old(self)@.insert(full_name@, buildtime),
    {
        self.times.insert(full_name, buildtime);
    }

    /// The build time of the package `full_name`, if it is known.
    pub fn get(&self, full_name: &str) -> (r: Option<u64>)
        ensures
            r == if self@.contains_key(full_name@) {
                Some(self@[full_name@])
            } else {
                None
            },
    {
        match self.times.get(full_name) {
            Some(time) => Some(*time),
            None => None,
        }
    }
}

/// The line of a product.
pub open spec fn product_line(p: PackageView) -> Seq<char> {
    "product:"@ + p.full_name()
}

/// The line of a pattern.
pub open spec fn pattern_line(p: PackageView) -> Seq<char> {
    "pattern:"@ + p.full_name()
}

/// The line of a package: its full name and its build time where that is
/// known, the bare full name where it is not.
pub open spec fn package_line(p: PackageView, times: Map<Seq<char>, u64>) -> Seq<char> {
    if times.contains_key(p.full_name()) {
        p.full_name() + " "@ + decimal(times[p.full_name()] as nat)
    } else {
        p.full_name()
    }
}

/// The lines of a manifest before they are sorted.
pub open spec fn manifest_lines(i: InstallationView, times: Map<Seq<char>, u64>) -> Seq<
    Seq<char>,
> {
    i.products.map_values(|p: PackageView| product_line(p)) + i.patterns.map_values(
        |p: PackageView| pattern_line(p),
    ) + i.packages.map_values(|p: PackageView| package_line(p, times))
}

/// The text of a manifest: its lines in dictionary order, a line feed
/// between each two.
pub open spec fn manifest_text(i: InstallationView, times: Map<Seq<char>, u64>) -> Seq<char> {
    joined(sorted_texts(manifest_lines(i, times)), "\n"@)
}

/// The build time of every one of the packages is known.
pub open spec fn all_known(packages: Seq<PackageView>, times: Map<Seq<char>, u64>) -> bool {
    forall|k: int| 0 <= k < packages.len() ==> times.contains_key((#[trigger] packages[k]).full_name())
}

/// The place of the first of the packages whose build time is not known; the
/// number of packages where all are known.
pub open spec fn first_unknown(packages: Seq<PackageView>, times: Map<Seq<char>, u64>) -> int
    decreases packages.len(),
{
    if packages.len() == 0 {
        0
    } else if !times.contains_key(packages[0].full_name()) {
        0
    } else {
        1 + first_unknown(packages.drop_first(), times)
    }
}

/// Why a manifest could not be built.
#[derive(Debug)]
pub enum ManifestError {
    /// The repositories give no build time for the package of this full name.
    MissingBuildtime(String),
}

/// Mapping two sequences that hold the same elements through one function
/// gives two sequences that hold the same elements.
pub proof fn lemma_map_same_elements<A, B>(s: Seq<A>, t: Seq<A>, f: spec_fn(A) -> B)
    requires
        s.to_multiset() == t.to_multiset(),
    ensures
        s.map_values(f).to_multiset() == t.map_values(f).to_multiset(),
    decreases s.len(),
{
    broadcast use vstd::seq_lib::to_multiset_len;

    assert(s.len() == s.to_multiset().len());
    assert(t.len() == t.to_multiset().len());
    if s.len() == 0 {
        assert(s.map_values(f) =~= t.map_values(f));
    } else {
        broadcast use {
            vstd::seq_lib::to_multiset_contains,
            vstd::seq_lib::to_multiset_remove,
            vstd::seq_lib::to_multiset_insert,
        };

        let x = s[0];
        assert(s.contains(x));
        assert(s.to_multiset().count(x) > 0);
        assert(t.contains(x));
        let k = choose|k: int| 0 <= k < t.len() && t[k] == x;
        let s1 = s.remove(0);
        let t1 = t.remove(k);
        assert(s1.to_multiset() =~= s.to_multiset().remove(x));
        assert(t1.to_multiset() =~= t.to_multiset().remove(x));
        lemma_map_same_elements(s1, t1, f);
        assert(s.map_values(f) =~= s1.map_values(f).insert(0, f(x)));
        assert(t.map_values(f) =~= t1.map_values(f).insert(k, f(x)));
        assert(s.map_values(f).to_multiset() =~= s1.map_values(f).to_multiset().insert(f(x)));
        assert(t.map_values(f).to_multiset() =~= t1.map_values(f).to_multiset().insert(f(x)));
    }
}

/// The manifest does not depend on the order in which an installation lists
/// its products, patterns and packages.
pub proof fn lemma_manifest_order_independent(
    a: InstallationView,
    b: InstallationView,
    times: Map<Seq<char>, u64>,
)
    requires
        a.products.to_multiset() == b.products.to_multiset(),
        a.patterns.to_multiset() == b.patterns.to_multiset(),
        a.packages.to_multiset() == b.packages.to_multiset(),
    ensures
        manifest_text(a, times) == manifest_text(b, times),
{
    let f1 = |p: PackageView| product_line(p);
    let f2 = |p: PackageView| pattern_line(p);
    let f3 = |p: PackageView| package_line(p, times);
    lemma_map_same_elements(a.products, b.products, f1);
    lemma_map_same_elements(a.patterns, b.patterns, f2);
    lemma_map_same_elements(a.packages, b.packages, f3);
    broadcast use vstd::seq_lib::lemma_multiset_commutative;

    let la = manifest_lines(a, times);
    let lb = manifest_lines(b, times);
    assert(la == a.products.map_values(f1) + a.patterns.map_values(f2) + a.packages.map_values(
        f3,
    ));
    assert(lb == b.products.map_values(f1) + b.patterns.map_values(f2) + b.packages.map_values(
        f3,
    ));
    assert(la.to_multiset() =~= lb.to_multiset());
    lemma_sorted_texts_order_independent(la, lb);
}

fn push_named_lines(lines: &mut Vec<Vec<char>>, prefix: &str, items: &Vec<Package>)
    ensures
        texts(final(lines)@) == texts(old(lines)@) + package_views(items@).map_values(
            |p: PackageView| prefix@ + p.full_name(),
        ),
{
    let ghost start = texts(lines@);
    let ghost all = package_views(items@).map_values(|p: PackageView| prefix@ + p.full_name());
    let mut i: usize = 0;
    assert(start + all.take(0) =~= start);
    while i < items.len()
        invariant
            i <= items.len(),
            all == package_views(items@).map_values(|p: PackageView| prefix@ + p.full_name()),
            texts(lines@) == start + all.take(i as int),
        decreases items.len() - i,
    {
        let mut line = chars_of(prefix);
        let name = items[i].full_name_chars();
        crate::text::append_chars(&mut line, &name);
        let ghost shown = texts(lines@);
        lines.push(line);
        proof {
            let added = prefix@ + items@[i as int]@.full_name();
            assert(texts(lines@) =~= shown.push(added));
            assert(all.take(i + 1) =~= all.take(i as int).push(added));
            assert(texts(lines@) =~= start + all.take(i + 1));
        }
        i += 1;
    }
    assert(all.take(i as int) =~= all);
}

/// The manifest of an installation, with the build times of its packages
/// where `buildtimes` knows them.
pub fn system_manifest(installation: &Installation, buildtimes: &Buildtimes) -> (r: String)
    ensures
        r@ == manifest_text(installation@, buildtimes@),
{
    let mut lines: Vec<Vec<char>> = Vec::new();
    assert(texts(lines@) =~= Seq::<Seq<char>>::empty());
    push_named_lines(&mut lines, "product:", &installation.products);
    push_named_lines(&mut lines, "pattern:", &installation.patterns);
    let ghost head = texts(lines@);
    let ghost all = installation@.packages.map_values(
        |p: PackageView| package_line(p, buildtimes@),
    );
    let mut i: usize = 0;
    assert(head + all.take(0) =~= head);
    while i < installation.packages.len()
        invariant
            i <= installation.packages.len(),
            all == installation@.packages.map_values(
                |p: PackageView| package_line(p, buildtimes@),
            ),
            texts(lines@) == head + all.take(i as int),
        decreases installation.packages.len() - i,
    {
        let package = &installation.packages[i];
        let mut line = package.full_name_chars();
        let full_name = string_of(&line);
        match buildtimes.get(full_name.as_str()) {
            Some(time) => {
                append_str(&mut line, " ");
                append_decimal(&mut line, time);
            },
            None => {},
        }
        let ghost shown = texts(lines@);
        lines.push(line);
        proof {
            let added = package_line(package@, buildtimes@);
            assert(texts(lines@) =~= shown.push(added));
            assert(all.take(i + 1) =~= all.take(i as int).push(added));
            assert(texts(lines@) =~= head + all.take(i + 1));
        }
        i += 1;
    }
    proof {
        assert(all.take(i as int) =~= all);
        assert(head =~= installation@.products.map_values(|p: PackageView| product_line(p))
            + installation@.patterns.map_values(|p: PackageView| pattern_line(p)));
        assert(texts(lines@) =~= manifest_lines(installation@, buildtimes@));
    }
    sort_texts(&mut lines);
    let text = join_texts(&lines, "\n");
    string_of(&text)
}

/// Up to the first package whose build time is not known, every build time
/// is known; at that place, if there is one, it is not.
pub proof fn lemma_first_unknown(packages: Seq<PackageView>, times: Map<Seq<char>, u64>)
    ensures
        0 <= first_unknown(packages, times) <= packages.len(),
        forall|k: int|
            0 <= k < first_unknown(packages, times) ==> times.contains_key(
                (#[trigger] packages[k]).full_name(),
            ),
        first_unknown(packages, times) < packages.len() ==> !times.contains_key(
            packages[first_unknown(packages, times)].full_name(),
        ),
    decreases packages.len(),
{
    if packages.len() > 0 && times.contains_key(packages[0].full_name()) {
        let rest = packages.drop_first();
        lemma_first_unknown(rest, times);
        assert forall|k: int| 0 <= k < first_unknown(packages, times) implies times.contains_key(
            (#[trigger] packages[k]).full_name(),
        ) by {
            if k > 0 {
                assert(packages[k] == rest[k - 1]);
            }
        }
        if first_unknown(packages, times) < packages.len() {
            assert(packages[first_unknown(packages, times)] == rest[first_unknown(rest, times)]);
        }
    }
}

/// The place of the first package whose build time is not known, if there
/// is such a package.
pub fn find_unknown(packages: &Vec<Package>, buildtimes: &Buildtimes) -> (r: Option<usize>)
    ensures
        match r {
            Some(i) => i < packages.len() && i == first_unknown(
                package_views(packages@),
                buildtimes@,
            ),
            None => first_unknown(package_views(packages@), buildtimes@) == packages.len(),
        },
{
    let ghost all = package_views(packages@);
    let mut i: usize = 0;
    assert(all.skip(0) =~= all);
    while i < packages.len()
        invariant
            i <= packages.len(),
            all == package_views(packages@),
            first_unknown(all, buildtimes@) == i + first_unknown(all.skip(i as int), buildtimes@),
        decreases packages.len() - i,
    {
        let full_name = packages[i].full_name();
        assert(all.skip(i as int)[0] == all[i as int]);
        if buildtimes.get(full_name.as_str()).is_none() {
            return Some(i);
        }
        assert(all.skip(i as int).drop_first() =~= all.skip(i + 1));
        i += 1;
    }
    None
}

/// The manifest of an installation with the build time of every package.
/// Fails where `buildtimes` lacks a package, and names the first it lacks.
pub fn base_manifest(installation: &Installation, buildtimes: &Buildtimes) -> (r: Result<
    String,
    ManifestError,
>)
    ensures
        r is Ok <==> all_known(installation@.packages, buildtimes@),
        match r {
            Ok(text) => text@ == manifest_text(installation@, buildtimes@),
            Err(ManifestError::MissingBuildtime(name)) => first_unknown(
                installation@.packages,
                buildtimes@,
            ) < installation@.packages.len() && name@ == installation@.packages[first_unknown(
                installation@.packages,
                buildtimes@,
            )].full_name(),
        },
{
    proof {
        lemma_first_unknown(installation@.packages, buildtimes@);
    }
    match find_unknown(&installation.packages, buildtimes) {
        Some(i) => Err(ManifestError::MissingBuildtime(installation.packages[i].full_name())),
        None => Ok(system_manifest(installation, buildtimes)),
    }
}

} // verus!
