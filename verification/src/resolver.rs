//! What a role should install: the query for the dependency solver, and the
//! installation that the solver's answer makes up.

use crate::package::{installation_of, package_views, Installation, Package, PackageView};
use crate::query::{repo_views, testcase, testcase_text, ZypperConf, ZypperRepo};
use crate::roles::Roles;
use crate::text::strings;
use vstd::prelude::*;

verus! {

/// How much the solver reports of its work.
#[derive(Clone, Copy, Debug, PartialEq, Eq, Structural)]
pub enum DebugLevel {
    Level0,
    Level1,
    Level2,
    Level3,
    Level4,
}

impl DebugLevel {
    /// The number that the solver knows the level by.
    pub fn level(&self) -> (n: i32)
        ensures
            0 <= n <= 4,
            (n == 0) == (*self == DebugLevel::Level0),
            (n == 1) == (*self == DebugLevel::Level1),
            (n == 2) == (*self == DebugLevel::Level2),
            (n == 3) == (*self == DebugLevel::Level3),
            (n == 4) == (*self == DebugLevel::Level4),
    {
        match self {
            DebugLevel::Level0 => 0,
            DebugLevel::Level1 => 1,
            DebugLevel::Level2 => 2,
            DebugLevel::Level3 => 3,
            DebugLevel::Level4 => 4,
        }
    }
}

/// What the solver's transaction does with a package.
#[derive(Clone, Copy, Debug, PartialEq, Eq, Structural)]
pub enum TransactionType {
    Ignore,
    Erase,
    Reinstalled,
    Downgraded,
    Changed,
    Upgraded,
    Obsoleted,
    Install,
    Reinstall,
    Downgrade,
    Change,
    Upgrade,
    Obsoletes,
    MultiInstall,
    MultiReinstall,
    MaxType,
}

impl TransactionType {
    /// The number that the solver knows the type by.
    pub open spec fn number(self) -> int {
        match self {
            TransactionType::Ignore => 0x00,
            TransactionType::Erase => 0x10,
            TransactionType::Reinstalled => 0x11,
            TransactionType::Downgraded => 0x12,
            TransactionType::Changed => 0x13,
            TransactionType::Upgraded => 0x14,
            TransactionType::Obsoleted => 0x15,
            TransactionType::Install => 0x20,
            TransactionType::Reinstall => 0x21,
            TransactionType::Downgrade => 0x22,
            TransactionType::Change => 0x23,
            TransactionType::Upgrade => 0x24,
            TransactionType::Obsoletes => 0x25,
            TransactionType::MultiInstall => 0x30,
            TransactionType::MultiReinstall => 0x31,
            TransactionType::MaxType => 0x3f,
        }
    }

    /// The type that the solver knows by `value`, if it knows one.
    pub open spec fn of(value: int) -> Option<TransactionType> {
        if exists|t: TransactionType| #[trigger] t.number() == value {
            Some(choose|t: TransactionType| #[trigger] t.number() == value)
        } else {
            None
        }
    }

    /// The number that the solver knows the type by.
    pub fn id(&self) -> (n: i32)
        ensures
            n == self.number(),
            TransactionType::of(n as int) == Some(*self),
    {
        let n = match self {
            TransactionType::Ignore => 0x00,
            TransactionType::Erase => 0x10,
            TransactionType::Reinstalled => 0x11,
            TransactionType::Downgraded => 0x12,
            TransactionType::Changed => 0x13,
            TransactionType::Upgraded => 0x14,
            TransactionType::Obsoleted => 0x15,
            TransactionType::Install => 0x20,
            TransactionType::Reinstall => 0x21,
            TransactionType::Downgrade => 0x22,
            TransactionType::Change => 0x23,
            TransactionType::Upgrade => 0x24,
            TransactionType::Obsoletes => 0x25,
            TransactionType::MultiInstall => 0x30,
            TransactionType::MultiReinstall => 0x31,
            TransactionType::MaxType => 0x3f,
        };
        assert(self.number() == n);
        n
    }

    /// The type that the solver knows by `value`, if it knows one.
    pub fn from_id(value: i32) -> (r: Option<TransactionType>)
        ensures
            r == TransactionType::of(value as int),
    {
        let r = if value == 0x00 {
            Some(TransactionType::Ignore)
        } else if value == 0x10 {
            Some(TransactionType::Erase)
        } else if value == 0x11 {
            Some(TransactionType::Reinstalled)
        } else if value == 0x12 {
            Some(TransactionType::Downgraded)
        } else if value == 0x13 {
            Some(TransactionType::Changed)
        } else if value == 0x14 {
            Some(TransactionType::Upgraded)
        } else if value == 0x15 {
            Some(TransactionType::Obsoleted)
        } else if value == 0x20 {
            Some(TransactionType::Install)
        } else if value == 0x21 {
            Some(TransactionType::Reinstall)
        } else if value == 0x22 {
            Some(TransactionType::Downgrade)
        } else if value == 0x23 {
            Some(TransactionType::Change)
        } else if value == 0x24 {
            Some(TransactionType::Upgrade)
        } else if value == 0x25 {
            Some(TransactionType::Obsoletes)
        } else if value == 0x30 {
            Some(TransactionType::MultiInstall)
        } else if value == 0x31 {
            Some(TransactionType::MultiReinstall)
        } else if value == 0x3f {
            Some(TransactionType::MaxType)
        } else {
            None
        };
        proof {
            match r {
                Some(t) => {
                    assert(t.number() == value);
                },
                None => {
                    assert forall|t: TransactionType| #[trigger] t.number() != value by {}
                },
            }
        }
        r
    }
}

/// One class of the solver's classified transaction: the number of the
/// class and the packages that fall under it.
#[derive(Debug)]
pub struct TransactionClass {
    pub class: i32,
    pub packages: Vec<Package>,
}

/// What a `TransactionClass` holds.
pub struct TransactionClassView {
    pub class: int,
    pub packages: Seq<PackageView>,
}

impl View for TransactionClass {
    type V = TransactionClassView;

    open spec fn view(&self) -> TransactionClassView {
        TransactionClassView { class: self.class as int, packages: package_views(self.packages@) }
    }
}

/// The views of a sequence of classes.
pub open spec fn class_views(v: Seq<TransactionClass>) -> Seq<TransactionClassView> {
    v.map_values(|c: TransactionClass| c@)
}

/// Why the solver's answer gives no installation.
#[derive(Debug)]
pub enum SolveError {
    /// The solver found this many problems with the jobs.
    Problems(i32),
    /// The transaction holds a class of this type, which is no installation.
    UnexpectedTransaction(TransactionType),
    /// The transaction holds a class of this number, which is no known type.
    UnknownTransaction(i32),
}

/// The role that was asked for is not among the roles.
#[derive(Debug)]
pub struct RoleNotFoundError {
    pub role: String,
}

/// The class is one of plain installations.
pub open spec fn is_install(class: TransactionClassView) -> bool {
    TransactionType::of(class.class) == Some(TransactionType::Install)
}

/// The place of the first class that is not one of installations; the
/// number of classes where all are.
pub open spec fn first_foreign(classes: Seq<TransactionClassView>) -> int
    decreases classes.len(),
{
    if classes.len() == 0 {
        0
    } else if !is_install(classes[0]) {
        0
    } else {
        1 + first_foreign(classes.drop_first())
    }
}

/// The packages of all the classes, class after class.
pub open spec fn all_packages(classes: Seq<TransactionClassView>) -> Seq<PackageView>
    decreases classes.len(),
{
    if classes.len() == 0 {
        Seq::empty()
    } else {
        all_packages(classes.drop_last()) + classes.last().packages
    }
}

/// What the solver's answer says: the error for an answer that gives no
/// installation, else the resolved entries in the order of the answer.
pub open spec fn answer(problem_count: int, classes: Seq<TransactionClassView>) -> Result<
    Seq<PackageView>,
    SolveError,
> {
    let at = first_foreign(classes);
    if problem_count > 0 {
        Err(SolveError::Problems(problem_count as i32))
    } else if at < classes.len() {
        match TransactionType::of(classes[at].class) {
            Some(t) => Err(SolveError::UnexpectedTransaction(t)),
            None => Err(SolveError::UnknownTransaction(classes[at].class as i32)),
        }
    } else {
        Ok(all_packages(classes))
    }
}

/// The resolved entries of the solver's answer. Any problem that the solver
/// reports is an error, and so is any class of the transaction that is not
/// one of plain installations.
pub fn installables(problem_count: i32, classes: &Vec<TransactionClass>) -> (r: Result<
    Vec<Package>,
    SolveError,
>)
    ensures
        match r {
            Ok(found) => answer(problem_count as int, class_views(classes@)) == Ok::<
                Seq<PackageView>,
                SolveError,
            >(package_views(found@)),
            Err(e) => answer(problem_count as int, class_views(classes@)) == Err::<
                Seq<PackageView>,
                SolveError,
            >(e),
        },
{
    if problem_count > 0 {
        return Err(SolveError::Problems(problem_count));
    }
    let ghost all = class_views(classes@);
    let mut found: Vec<Package> = Vec::new();
    let mut i: usize = 0;
    assert(all.skip(0) =~= all);
    assert(all.take(0) =~= Seq::<TransactionClassView>::empty());
    assert(package_views(found@) =~= all_packages(all.take(0)));
    while i < classes.len()
        invariant
            i <= classes.len(),
            problem_count <= 0,
            all == class_views(classes@),
            first_foreign(all) == i + first_foreign(all.skip(i as int)),
            package_views(found@) == all_packages(all.take(i as int)),
        decreases classes.len() - i,
    {
        let class = &classes[i];
        assert(all.skip(i as int)[0] == class@);
        match TransactionType::from_id(class.class) {
            Some(TransactionType::Install) => {},
            Some(other) => {
                return Err(SolveError::UnexpectedTransaction(other));
            },
            None => {
                return Err(SolveError::UnknownTransaction(class.class));
            },
        }
        let ghost shown = package_views(found@);
        let mut k: usize = 0;
        while k < class.packages.len()
            invariant
                k <= class.packages.len(),
                package_views(found@) == shown + class@.packages.take(k as int),
            decreases class.packages.len() - k,
        {
            let ghost before = package_views(found@);
            found.push(class.packages[k].duplicate());
            assert(package_views(found@) =~= before.push(class.packages@[k as int]@));
            k += 1;
            assert(class@.packages.take(k as int) =~= class@.packages.take(k - 1).push(
                class.packages@[k - 1]@,
            ));
        }
        proof {
            assert(class@.packages.take(k as int) =~= class@.packages);
            assert(all.take(i + 1).drop_last() =~= all.take(i as int));
            assert(all.take(i + 1).last() == class@);
            assert(all.skip(i as int).drop_first() =~= all.skip(i + 1));
        }
        i += 1;
    }
    assert(all.take(i as int) =~= all);
    Ok(found)
}

/// The installation that the solver's answer prescribes: each resolved
/// entry in exactly one list, a product or a pattern in the list of its
/// kind and whatever is neither among the packages.
pub fn resolve(problem_count: i32, classes: &Vec<TransactionClass>) -> (r: Result<
    Installation,
    SolveError,
>)
    ensures
        match answer(problem_count as int, class_views(classes@)) {
            Ok(entries) => r matches Ok(installation) && installation@ == installation_of(entries)
                && installation.products.len() + installation.patterns.len()
                + installation.packages.len() == entries.len(),
            Err(e) => r matches Err(why) && why == e,
        },
{
    match installables(problem_count, classes) {
        Ok(found) => Ok(Installation::from_role(&found)),
        Err(e) => Err(e),
    }
}

/// The query that asks the solver what the role `role` installs: the base
/// product and the patterns that the role requires. Fails where there is no
/// such role.
pub fn role_testcase(
    role: &str,
    roles: &Roles,
    arch: &str,
    repo_alias: &Vec<ZypperRepo>,
    product: &str,
    conf: &ZypperConf,
) -> (r: Result<String, RoleNotFoundError>)
    requires
        roles.wf(),
    ensures
        match r {
            Ok(text) => roles@.contains_key(role@) && text@ == testcase_text(
                arch@,
                repo_views(repo_alias@),
                seq![product@],
                roles@[role@].patterns,
                Seq::empty(),
                *conf,
            ),
            Err(e) => !roles@.contains_key(role@) && e.role@ == role@,
        },
{
    match roles.get(role) {
        Some(reference) => {
            let mut products: Vec<String> = Vec::new();
            products.push(String::from_str(product));
            let extra_packages: Vec<String> = Vec::new();
            assert(strings(products@) =~= seq![product@]);
            assert(strings(extra_packages@) =~= Seq::<Seq<char>>::empty());
            Ok(testcase(arch, repo_alias, &products, &reference.patterns, &extra_packages, conf))
        },
        None => Err(RoleNotFoundError { role: String::from_str(role) }),
    }
}

} // verus!
