//! Packages and installations: what is on a system, or what a role
//! prescribes for it.

use crate::text::{append_str, chars_of, fields, same_chars, split_at_char, string_of, texts};
use vstd::prelude::*;
use vstd::std_specs::cmp::PartialEqSpecImpl;

verus! {

/// A resolved unit: a package, a pattern or a product.
#[derive(Debug)]
pub struct Package {
    pub name: String,
    pub version: String,
    pub arch: String,
}

/// What a `Package` holds, as character sequences.
pub struct PackageView {
    pub name: Seq<char>,
    pub version: Seq<char>,
    pub arch: Seq<char>,
}

impl PackageView {
    /// `name-version.arch`, the name a package is known by.
    pub open spec fn full_name(self) -> Seq<char> {
        self.name + seq!['-'] + self.version + seq!['.'] + self.arch
    }
}

impl View for Package {
    type V = PackageView;

    open spec fn view(&self) -> PackageView {
        PackageView { name: self.name@, version: self.version@, arch: self.arch@ }
    }
}

impl Package {
    /// A package of the given name, version and architecture.
    pub fn new(name: &str, version: &str, arch: &str) -> (p: Package)
        ensures
            p@ == (PackageView { name: name@, version: version@, arch: arch@ }),
    {
        Package {
            name: String::from_str(name),
            version: String::from_str(version),
            arch: String::from_str(arch),
        }
    }

    /// The characters of `full_name`.
    pub fn full_name_chars(&self) -> (r: Vec<char>)
        ensures
            r@ == self@.full_name(),
    {
        let mut out = chars_of(self.name.as_str());
        out.push('-');
        append_str(&mut out, self.version.as_str());
        out.push('.');
        append_str(&mut out, self.arch.as_str());
        assert(out@ =~= self@.full_name());
        out
    }

    /// `name-version.arch`.
    pub fn full_name(&self) -> (r: String)
        ensures
            r@ == self@.full_name(),
    {
        string_of(&self.full_name_chars())
    }

    /// A package with the same name, version and architecture.
    pub fn duplicate(&self) -> (p: Package)
        ensures
            p@ == self@,
    {
        Package {
            name: self.name.clone(),
            version: self.version.clone(),
            arch: self.arch.clone(),
        }
    }
}

impl PartialEq for Package {
    /// Two packages are the same when their full names are.
    fn eq(&self, other: &Package) -> (r: bool) {
        same_chars(&self.full_name_chars(), &other.full_name_chars())
    }
}

impl PartialEqSpecImpl for Package {
    open spec fn obeys_eq_spec() -> bool {
        true
    }

    open spec fn eq_spec(&self, other: &Package) -> bool {
        self@.full_name() == other@.full_name()
    }
}

/// The views of a sequence of packages.
pub open spec fn package_views(v: Seq<Package>) -> Seq<PackageView> {
    v.map_values(|p: Package| p@)
}

/// The names of a sequence of packages, in order.
pub open spec fn package_names(v: Seq<PackageView>) -> Seq<Seq<char>> {
    v.map_values(|p: PackageView| p.name)
}

/// What is installed, or should be: products, patterns and packages.
#[derive(Debug)]
pub struct Installation {
    pub products: Vec<Package>,
    pub patterns: Vec<Package>,
    pub packages: Vec<Package>,
}

/// What an `Installation` holds.
pub struct InstallationView {
    pub products: Seq<PackageView>,
    pub patterns: Seq<PackageView>,
    pub packages: Seq<PackageView>,
}

impl View for Installation {
    type V = InstallationView;

    open spec fn view(&self) -> InstallationView {
        InstallationView {
            products: package_views(self.products@),
            patterns: package_views(self.patterns@),
            packages: package_views(self.packages@),
        }
    }
}

/// The three kinds of unit that an installation lists.
#[derive(Clone, Copy, Debug, PartialEq, Eq, Structural)]
pub enum Kind {
    Product,
    Pattern,
    Package,
}

/// The product or pattern that a name with a prefix stands for: `product:NAME`
/// is the product `NAME` and `pattern:NAME` the pattern `NAME`, where `NAME`
/// holds no further colon. Any other name stands for neither.
pub open spec fn prefixed_unit(name: Seq<char>) -> Option<(Kind, Seq<char>)> {
    let parts = fields(name, ':');
    if parts.len() == 2 && parts[0] == "product"@ {
        Some((Kind::Product, parts[1]))
    } else if parts.len() == 2 && parts[0] == "pattern"@ {
        Some((Kind::Pattern, parts[1]))
    } else {
        None
    }
}

/// Where a resolved name belongs, and under which name: a product or a
/// pattern under its name without the prefix, and whatever is neither a
/// package under its whole name.
pub open spec fn routed(name: Seq<char>) -> (Kind, Seq<char>) {
    match prefixed_unit(name) {
        Some(unit) => unit,
        None => (Kind::Package, name),
    }
}

/// The name is one that the system's index gives to a unit of an
/// installation: that of a product or a pattern, or one without a colon.
/// The index lists other things too, under other prefixes.
pub open spec fn names_a_unit(name: Seq<char>) -> bool {
    prefixed_unit(name) is Some || fields(name, ':').len() == 1
}

/// The entry as a unit of the given kind, under the name that it is routed
/// to, if it is of that kind.
pub open spec fn as_kind(entry: PackageView, kind: Kind) -> Option<PackageView> {
    if routed(entry.name).0 == kind {
        Some(PackageView { name: routed(entry.name).1, version: entry.version, arch: entry.arch })
    } else {
        None
    }
}

/// The installation that a sequence of resolved entries makes up: each
/// entry in the list of its kind, in the order given.
pub open spec fn installation_of(entries: Seq<PackageView>) -> InstallationView {
    InstallationView {
        products: entries.filter_map(|e: PackageView| as_kind(e, Kind::Product)),
        patterns: entries.filter_map(|e: PackageView| as_kind(e, Kind::Pattern)),
        packages: entries.filter_map(|e: PackageView| as_kind(e, Kind::Package)),
    }
}

/// One more entry is one more unit in the list of its kind, and in no other
/// list.
pub proof fn lemma_installation_push(entries: Seq<PackageView>, e: PackageView)
    ensures
        installation_of(entries.push(e)).products == installation_of(entries).products + match as_kind(
            e,
            Kind::Product,
        ) {
            Some(p) => seq![p],
            None => Seq::empty(),
        },
        installation_of(entries.push(e)).patterns == installation_of(entries).patterns + match as_kind(
            e,
            Kind::Pattern,
        ) {
            Some(p) => seq![p],
            None => Seq::empty(),
        },
        installation_of(entries.push(e)).packages == installation_of(entries).packages + match as_kind(
            e,
            Kind::Package,
        ) {
            Some(p) => seq![p],
            None => Seq::empty(),
        },
{
    assert(entries.push(e).drop_last() =~= entries);
    assert(installation_of(entries.push(e)).products =~= installation_of(entries).products
        + match as_kind(e, Kind::Product) {
        Some(p) => seq![p],
        None => Seq::empty(),
    });
    assert(installation_of(entries.push(e)).patterns =~= installation_of(entries).patterns
        + match as_kind(e, Kind::Pattern) {
        Some(p) => seq![p],
        None => Seq::empty(),
    });
    assert(installation_of(entries.push(e)).packages =~= installation_of(entries).packages
        + match as_kind(e, Kind::Package) {
        Some(p) => seq![p],
        None => Seq::empty(),
    });
}

/// Every entry is in exactly one of the three lists: together they hold as
/// many units as there are entries.
pub proof fn lemma_every_entry_listed(entries: Seq<PackageView>)
    ensures
        installation_of(entries).products.len() + installation_of(entries).patterns.len()
            + installation_of(entries).packages.len() == entries.len(),
    decreases entries.len(),
{
    if entries.len() == 0 {
    } else {
        let front = entries.drop_last();
        lemma_every_entry_listed(front);
        lemma_installation_push(front, entries.last());
        assert(front.push(entries.last()) =~= entries);
    }
}

/// The parts of a name at its colons, and whether they are those of a
/// product or a pattern.
fn prefixed_parts(name: &str) -> (r: (Vec<Vec<char>>, Option<Kind>))
    ensures
        texts(r.0@) == fields(name@, ':'),
        match r.1 {
            Some(kind) => r.0.len() == 2 && prefixed_unit(name@) == Some((kind, r.0@[1]@)),
            None => prefixed_unit(name@) is None,
        },
{
    let chars = chars_of(name);
    let parts = split_at_char(&chars, ':');
    assert(texts(parts@).len() == parts.len());
    if parts.len() == 2 {
        assert(texts(parts@)[0] == parts@[0]@ && texts(parts@)[1] == parts@[1]@);
        let product = chars_of("product");
        let pattern = chars_of("pattern");
        if same_chars(&parts[0], &product) {
            (parts, Some(Kind::Product))
        } else if same_chars(&parts[0], &pattern) {
            (parts, Some(Kind::Pattern))
        } else {
            (parts, None)
        }
    } else {
        (parts, None)
    }
}

/// Decides where a resolved name belongs, and under which name.
pub fn route(name: &str) -> (r: (Kind, String))
    ensures
        (r.0, r.1@) == routed(name@),
{
    let (parts, prefix) = prefixed_parts(name);
    match prefix {
        Some(kind) => (kind, string_of(&parts[1])),
        None => (Kind::Package, String::from_str(name)),
    }
}

/// Decides whether the name is one that the system's index gives to a unit
/// of an installation.
pub fn is_unit_name(name: &str) -> (r: bool)
    ensures
        r == names_a_unit(name@),
{
    let (parts, prefix) = prefixed_parts(name);
    prefix.is_some() || parts.len() == 1
}

impl Installation {
    /// An installation without anything in it.
    pub fn new() -> (r: Installation)
        ensures
            r@ == installation_of(Seq::empty()),
    {
        let r = Installation { products: Vec::new(), patterns: Vec::new(), packages: Vec::new() };
        assert(r@.products =~= Seq::empty() && r@.patterns =~= Seq::empty() && r@.packages
            =~= Seq::empty());
        r
    }

    /// Puts a resolved entry into the list of its kind: a product or a
    /// pattern under its name without the prefix, anything else among the
    /// packages under its whole name.
    pub fn add(&mut self, entry: &Package)
        ensures
            final(self)@.products == old(self)@.products + match as_kind(entry@, Kind::Product) {
                Some(p) => seq![p],
                None => Seq::empty(),
            },
            final(self)@.patterns == old(self)@.patterns + match as_kind(entry@, Kind::Pattern) {
                Some(p) => seq![p],
                None => Seq::empty(),
            },
            final(self)@.packages == old(self)@.packages + match as_kind(entry@, Kind::Package) {
                Some(p) => seq![p],
                None => Seq::empty(),
            },
    {
        let ghost before = self@;
        let (kind, name) = route(entry.name.as_str());
        let unit = Package { name, version: entry.version.clone(), arch: entry.arch.clone() };
        match kind {
            Kind::Product => {
                self.products.push(unit);
                assert(self@.products =~= before.products.push(unit@));
            },
            Kind::Pattern => {
                self.patterns.push(unit);
                assert(self@.patterns =~= before.patterns.push(unit@));
            },
            Kind::Package => {
                self.packages.push(unit);
                assert(self@.packages =~= before.packages.push(unit@));
            },
        }
        assert(self@.products =~= before.products + match as_kind(entry@, Kind::Product) {
            Some(p) => seq![p],
            None => Seq::empty(),
        });
        assert(self@.patterns =~= before.patterns + match as_kind(entry@, Kind::Pattern) {
            Some(p) => seq![p],
            None => Seq::empty(),
        });
        assert(self@.packages =~= before.packages + match as_kind(entry@, Kind::Package) {
            Some(p) => seq![p],
            None => Seq::empty(),
        });
    }

    /// The installation that the solver's answer for a role makes up: each
    /// resolved entry in exactly one list, that of its kind.
    pub fn from_role(installables: &Vec<Package>) -> (r: Installation)
        ensures
            r@ == installation_of(package_views(installables@)),
            r.products.len() + r.patterns.len() + r.packages.len() == installables.len(),
    {
        let ghost all = package_views(installables@);
        let mut out = Installation::new();
        let mut i: usize = 0;
        assert(all.take(0) =~= Seq::<PackageView>::empty());
        while i < installables.len()
            invariant
                i <= installables.len(),
                all == package_views(installables@),
                out@ == installation_of(all.take(i as int)),
            decreases installables.len() - i,
        {
            proof {
                all.lemma_filter_map_take_succ(|e: PackageView| as_kind(e, Kind::Product), i as int);
                all.lemma_filter_map_take_succ(|e: PackageView| as_kind(e, Kind::Pattern), i as int);
                all.lemma_filter_map_take_succ(|e: PackageView| as_kind(e, Kind::Package), i as int);
            }
            out.add(&installables[i]);
            i += 1;
        }
        proof {
            assert(all.take(i as int) =~= all);
            lemma_every_entry_listed(all);
        }
        out
    }
}

} // verus!
