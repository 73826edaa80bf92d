//! Roles: for each role name the installation of reference that the role
//! prescribes.

use crate::sorting::{lemma_ascending_listing, listing, strictly_ascending};
use crate::text::{
    chars_of, copy_strings, is_before, lemma_precedes_asymmetric, lemma_precedes_connected,
    lemma_precedes_transitive, precedes, same_chars, strings,
};
use vstd::prelude::*;

verus! {

/// An installation of reference: what a role requires and what it
/// recommends.
#[derive(Debug)]
pub struct ReferenceInstallation {
    pub patterns: Vec<String>,
    pub packages: Vec<String>,
    pub patterns_opt: Vec<String>,
    pub packages_opt: Vec<String>,
}

/// What a `ReferenceInstallation` holds.
pub struct ReferenceView {
    pub patterns: Seq<Seq<char>>,
    pub packages: Seq<Seq<char>>,
    pub patterns_opt: Seq<Seq<char>>,
    pub packages_opt: Seq<Seq<char>>,
}

impl View for ReferenceInstallation {
    type V = ReferenceView;

    open spec fn view(&self) -> ReferenceView {
        ReferenceView {
            patterns: strings(self.patterns@),
            packages: strings(self.packages@),
            patterns_opt: strings(self.patterns_opt@),
            packages_opt: strings(self.packages_opt@),
        }
    }
}

/// What an installation of reference that prescribes nothing holds.
pub open spec fn nothing_prescribed() -> ReferenceView {
    ReferenceView {
        patterns: Seq::empty(),
        packages: Seq::empty(),
        patterns_opt: Seq::empty(),
        packages_opt: Seq::empty(),
    }
}

/// `own` where it is not empty, else `fallback`.
pub open spec fn own_or(own: Seq<Seq<char>>, fallback: Seq<Seq<char>>) -> Seq<Seq<char>> {
    if own.len() == 0 {
        fallback
    } else {
        own
    }
}

/// `own` with each empty field taken from `fallback`; a field that holds
/// anything is kept as it is.
pub open spec fn filled(own: ReferenceView, fallback: ReferenceView) -> ReferenceView {
    ReferenceView {
        patterns: own_or(own.patterns, fallback.patterns),
        packages: own_or(own.packages, fallback.packages),
        patterns_opt: own_or(own.patterns_opt, fallback.patterns_opt),
        packages_opt: own_or(own.packages_opt, fallback.packages_opt),
    }
}

/// The name of the role that the others inherit from.
pub open spec fn default_name() -> Seq<char> {
    "default"@
}

/// The roles after the default role is merged into the others and removed;
/// without a default role, the roles unchanged.
pub open spec fn with_default_applied(m: Map<Seq<char>, ReferenceView>) -> Map<
    Seq<char>,
    ReferenceView,
> {
    if m.contains_key(default_name()) {
        Map::new(
            |k: Seq<char>| m.contains_key(k) && k != default_name(),
            |k: Seq<char>| filled(m[k], m[default_name()]),
        )
    } else {
        m
    }
}

/// Applying the default a second time changes nothing.
pub proof fn lemma_apply_default_idempotent(m: Map<Seq<char>, ReferenceView>)
    ensures
        with_default_applied(with_default_applied(m)) == with_default_applied(m),
{
}

impl Default for ReferenceInstallation {
    /// An installation of reference that prescribes nothing.
    fn default() -> (r: ReferenceInstallation)
        ensures
            r@ == nothing_prescribed(),
    {
        ReferenceInstallation::new()
    }
}

impl ReferenceInstallation {
    /// An installation of reference that prescribes nothing.
    pub fn new() -> (r: ReferenceInstallation)
        ensures
            r@ == nothing_prescribed(),
    {
        let r = ReferenceInstallation {
            patterns: Vec::new(),
            packages: Vec::new(),
            patterns_opt: Vec::new(),
            packages_opt: Vec::new(),
        };
        assert(r@.patterns =~= Seq::empty() && r@.packages =~= Seq::empty() && r@.patterns_opt
            =~= Seq::empty() && r@.packages_opt =~= Seq::empty());
        r
    }

    /// A copy of this installation of reference.
    pub fn duplicate(&self) -> (r: ReferenceInstallation)
        ensures
            r@ == self@,
    {
        ReferenceInstallation {
            patterns: copy_strings(&self.patterns),
            packages: copy_strings(&self.packages),
            patterns_opt: copy_strings(&self.patterns_opt),
            packages_opt: copy_strings(&self.packages_opt),
        }
    }

    /// This installation with each empty field taken from `fallback`.
    pub fn filled_from(&self, fallback: &ReferenceInstallation) -> (r: ReferenceInstallation)
        ensures
            r@ == filled(self@, fallback@),
    {
        ReferenceInstallation {
            patterns: if self.patterns.len() == 0 {
                copy_strings(&fallback.patterns)
            } else {
                copy_strings(&self.patterns)
            },
            packages: if self.packages.len() == 0 {
                copy_strings(&fallback.packages)
            } else {
                copy_strings(&self.packages)
            },
            patterns_opt: if self.patterns_opt.len() == 0 {
                copy_strings(&fallback.patterns_opt)
            } else {
                copy_strings(&self.patterns_opt)
            },
            packages_opt: if self.packages_opt.len() == 0 {
                copy_strings(&fallback.packages_opt)
            } else {
                copy_strings(&self.packages_opt)
            },
        }
    }
}

/// One role: its name and what it prescribes.
#[derive(Debug)]
pub struct Role {
    pub name: String,
    pub installation: ReferenceInstallation,
}

/// The names of a sequence of roles, in order.
pub open spec fn role_names(e: Seq<Role>) -> Seq<Seq<char>> {
    e.map_values(|r: Role| r.name@)
}

/// The mapping that a sequence of roles stands for.
pub open spec fn role_map(e: Seq<Role>) -> Map<Seq<char>, ReferenceView> {
    Map::new(
        |k: Seq<char>| role_names(e).contains(k),
        |k: Seq<char>| e[role_names(e).index_of(k)].installation@,
    )
}

/// In a strictly ascending sequence of roles each name occurs once, and the
/// mapping gives for it the installation that stands beside it.
pub proof fn lemma_role_map(e: Seq<Role>)
    requires
        strictly_ascending(role_names(e)),
    ensures
        role_names(e).no_duplicates(),
        forall|i: int|
            0 <= i < e.len() ==> role_map(e).contains_key(#[trigger] role_names(e)[i])
                && role_map(e)[role_names(e)[i]] == e[i].installation@,
        forall|k: Seq<char>| #[trigger]
            role_map(e).contains_key(k) ==> 0 <= role_names(e).index_of(k) < e.len()
                && role_names(e)[role_names(e).index_of(k)] == k,
{
    let names = role_names(e);
    assert forall|i: int, j: int| 0 <= i < names.len() && 0 <= j < names.len() && i != j implies
        names[i] != names[j] by {
        if i < j {
            lemma_precedes_asymmetric(names[i], names[j]);
        } else {
            lemma_precedes_asymmetric(names[j], names[i]);
        }
    }
    assert forall|i: int| 0 <= i < e.len() implies role_map(e).contains_key(#[trigger] names[i])
        && role_map(e)[names[i]] == e[i].installation@ by {
        assert(names.contains(names[i]));
        let j = names.index_of(names[i]);
        assert(0 <= j < names.len() && names[j] == names[i]);
        assert(j == i);
    }
    assert forall|k: Seq<char>| #[trigger] role_map(e).contains_key(k) implies 0
        <= names.index_of(k) < e.len() && names[names.index_of(k)] == k by {
        assert(names.contains(k));
    }
}

/// The roles of a configuration, each name once, kept in dictionary order of
/// the names.
#[derive(Debug)]
pub struct Roles {
    entries: Vec<Role>,
}

impl View for Roles {
    type V = Map<Seq<char>, ReferenceView>;

    closed spec fn view(&self) -> Map<Seq<char>, ReferenceView> {
        role_map(self.entries@)
    }
}

impl Default for Roles {
    /// No roles.
    fn default() -> (r: Roles)
        ensures
            r.wf(),
            r@ == Map::<Seq<char>, ReferenceView>::empty(),
    {
        Roles::new()
    }
}

impl Roles {
    /// The invariant of the type: the names are strictly ascending.
    pub closed spec fn wf(&self) -> bool {
        strictly_ascending(role_names(self.entries@))
    }

    /// The role names in dictionary order.
    pub closed spec fn names(&self) -> Seq<Seq<char>> {
        role_names(self.entries@)
    }

    /// The names are those of the mapping, each once and in ascending order.
    pub proof fn lemma_names(&self)
        requires
            self.wf(),
        ensures
            strictly_ascending(self.names()),
            self.names().no_duplicates(),
            forall|k: Seq<char>| self@.contains_key(k) <==> self.names().contains(k),
            self@.dom() == self.names().to_set(),
            self@.dom().finite(),
            self.names() == listing(self@.dom()),
    {
        lemma_role_map(self.entries@);
        assert(self@.dom() =~= self.names().to_set());
        vstd::seq_lib::seq_to_set_is_finite(self.names());
        lemma_ascending_listing(self.names());
    }

    /// No roles.
    pub fn new() -> (r: Roles)
        ensures
            r.wf(),
            r@ == Map::<Seq<char>, ReferenceView>::empty(),
            r.names() == Seq::<Seq<char>>::empty(),
    {
        let r = Roles { entries: Vec::new() };
        assert(r@ =~= Map::<Seq<char>, ReferenceView>::empty());
        assert(r.names() =~= Seq::<Seq<char>>::empty());
        r
    }

    /// The number of roles.
    pub fn len(&self) -> (n: usize)
        ensures
            n == self.names().len(),
    {
        self.entries.len()
    }

    /// The name of the role at place `i` of the dictionary order.
    pub fn name(&self, i: usize) -> (r: &String)
        requires
            i < self.names().len(),
        ensures
            r@ == self.names()[i as int],
    {
        &self.entries[i].name
    }

    /// What the role at place `i` of the dictionary order prescribes.
    pub fn installation(&self, i: usize) -> (r: &ReferenceInstallation)
        requires
            self.wf(),
            i < self.names().len(),
        ensures
            r@ == self@[self.names()[i as int]],
    {
        proof {
            lemma_role_map(self.entries@);
        }
        &self.entries[i].installation
    }

    /// The place where `name` stands, or where it would have to be put.
    fn place(&self, name: &Vec<char>) -> (r: (usize, bool))
        requires
            self.wf(),
        ensures
            r.0 <= self.entries.len(),
            r.1 == self@.contains_key(name@),
            r.1 ==> r.0 < self.entries.len() && self.names()[r.0 as int] == name@,
            forall|k: int| 0 <= k < r.0 ==> precedes(#[trigger] self.names()[k], name@),
            forall|k: int|
                r.0 <= k < self.entries.len() && !r.1 ==> precedes(
                    name@,
                    #[trigger] self.names()[k],
                ),
    {
        let ghost names = self.names();
        proof {
            lemma_role_map(self.entries@);
        }
        let mut i: usize = 0;
        while i < self.entries.len()
            invariant
                i <= self.entries.len(),
                names == role_names(self.entries@),
                strictly_ascending(names),
                forall|k: int| 0 <= k < i ==> precedes(#[trigger] names[k], name@),
            decreases self.entries.len() - i,
        {
            let current = chars_of(self.entries[i].name.as_str());
            assert(current@ == names[i as int]);
            if !is_before(&current, name) {
                let found = same_chars(&current, name);
                proof {
                    lemma_precedes_connected(current@, name@);
                    if found {
                        assert(names.contains(name@));
                    } else {
                        assert forall|k: int| i <= k < names.len() implies precedes(
                            name@,
                            #[trigger] names[k],
                        ) by {
                            if k > i {
                                lemma_precedes_transitive(name@, names[i as int], names[k]);
                            }
                        }
                        assert(!names.contains(name@)) by {
                            if names.contains(name@) {
                                let k = choose|k: int| 0 <= k < names.len() && names[k] == name@;
                                if k < i {
                                    lemma_precedes_asymmetric(names[k], name@);
                                } else {
                                    lemma_precedes_asymmetric(name@, names[k]);
                                }
                            }
                        }
                    }
                }
                return (i, found);
            }
            i += 1;
        }
        proof {
            assert(!names.contains(name@)) by {
                if names.contains(name@) {
                    let k = choose|k: int| 0 <= k < names.len() && names[k] == name@;
                    lemma_precedes_asymmetric(names[k], name@);
                }
            }
        }
        (i, false)
    }

    /// What the role `name` prescribes, if there is such a role.
    pub fn get(&self, name: &str) -> (r: Option<&ReferenceInstallation>)
        requires
            self.wf(),
        ensures
            r is Some <==> self@.contains_key(name@),
            r matches Some(found) ==> found@ == self@[name@],
    {
        let key = chars_of(name);
        let (i, found) = self.place(&key);
        if found {
            proof {
                lemma_role_map(self.entries@);
            }
            Some(&self.entries[i].installation)
        } else {
            None
        }
    }

    /// Puts the role `name` in, in place of a role of that name if there is
    /// one.
    pub fn insert(&mut self, name: String, installation: ReferenceInstallation)
        requires
            old(self).wf(),
        ensures
            final(self).wf(),
            final(self)@ == old(self)@.insert(name@, installation@),
    {
        let key = chars_of(name.as_str());
        let (i, found) = self.place(&key);
        let ghost before = self.entries@;
        let ghost added = installation@;
        if found {
            self.entries.remove(i);
        }
        let ghost mid = self.entries@;
        self.entries.insert(i, Role { name, installation });
        proof {
            let after = self.entries@;
            let names = role_names(after);
            let old_names = role_names(before);
            assert(names[i as int] == key@);
            assert(old_names == old(self).names());
            assert forall|a: int, b: int| 0 <= a < b < names.len() implies precedes(
                #[trigger] names[a],
                #[trigger] names[b],
            ) by {
                if found {
                    assert(old_names[i as int] == key@);
                    assert(names[a] == old_names[a]);
                    assert(names[b] == old_names[b]);
                } else if b < i {
                    assert(names[a] == old_names[a] && names[b] == old_names[b]);
                } else if b == i {
                    assert(names[a] == old_names[a]);
                } else if a < i {
                    assert(names[a] == old_names[a] && names[b] == old_names[b - 1]);
                } else if a == i {
                    assert(names[b] == old_names[b - 1]);
                } else {
                    assert(names[a] == old_names[a - 1] && names[b] == old_names[b - 1]);
                }
            }
            lemma_role_map(before);
            lemma_role_map(after);
            let target = role_map(before).insert(key@, added);
            assert forall|k: Seq<char>| role_map(after).contains_key(k) <==> target.contains_key(
                k,
            ) by {
                if role_map(after).contains_key(k) {
                    let p = names.index_of(k);
                    if p != i {
                        let p0: int = if found || p < i {
                            p
                        } else {
                            p - 1
                        };
                        assert(old_names[p0] == k);
                        assert(old_names.contains(k));
                    }
                }
                if role_map(before).contains_key(k) && k != key@ {
                    let p0 = old_names.index_of(k);
                    let p: int = if found || p0 < i {
                        p0
                    } else {
                        p0 + 1
                    };
                    assert(names[p] == k);
                    assert(names.contains(k));
                }
                if k == key@ {
                    assert(names.contains(k));
                }
            }
            assert forall|k: Seq<char>| role_map(after).contains_key(k) implies role_map(after)[k]
                == target[k] by {
                let p = names.index_of(k);
                if p != i {
                    let p0: int = if found || p < i {
                        p
                    } else {
                        p - 1
                    };
                    assert(old_names[p0] == k);
                    assert(after[p] == before[p0]);
                    assert(k != key@) by {
                        if k == key@ {
                            assert(names[p] == names[i as int]);
                        }
                    }
                } else {
                    assert(k == key@);
                }
            }
            assert(role_map(after) =~= target);
        }
    }

    /// Merges the role `default` into every other role, field by field where
    /// the role's own field is empty, and removes it. Without such a role
    /// nothing changes.
    pub fn apply_default(&mut self)
        requires
            old(self).wf(),
        ensures
            final(self).wf(),
            final(self)@ == with_default_applied(old(self)@),
    {
        let key = chars_of("default");
        let (at, found) = self.place(&key);
        if !found {
            return ;
        }
        let ghost before = self.entries@;
        let ghost old_names = role_names(before);
        proof {
            lemma_role_map(before);
        }
        let mut merged: Vec<Role> = Vec::new();
        let mut i: usize = 0;
        while i < self.entries.len()
            invariant
                i <= self.entries.len(),
                at < self.entries.len(),
                self.entries@ == before,
                old_names == role_names(before),
                old_names[at as int] == default_name(),
                merged.len() == if i <= at {
                    i as int
                } else {
                    i - 1
                },
                forall|k: int|
                    0 <= k < merged.len() ==> (#[trigger] merged@[k]).name@ == old_names[if k
                        < at {
                        k
                    } else {
                        k + 1
                    }] && merged@[k].installation@ == filled(
                        before[if k < at {
                            k
                        } else {
                            k + 1
                        }].installation@,
                        before[at as int].installation@,
                    ),
            decreases self.entries.len() - i,
        {
            if i != at {
                let role = &self.entries[i];
                merged.push(
                    Role {
                        name: role.name.clone(),
                        installation: role.installation.filled_from(&self.entries[at].installation),
                    },
                );
            }
            i += 1;
        }
        self.entries = merged;
        proof {
            let after = self.entries@;
            let names = role_names(after);
            assert forall|a: int, b: int| 0 <= a < b < names.len() implies precedes(
                #[trigger] names[a],
                #[trigger] names[b],
            ) by {
                let a0 = if a < at {
                    a
                } else {
                    a + 1
                };
                let b0 = if b < at {
                    b
                } else {
                    b + 1
                };
                assert(names[a] == old_names[a0] && names[b] == old_names[b0]);
                assert(precedes(old_names[a0], old_names[b0]));
            }
            lemma_role_map(after);
            let target = with_default_applied(role_map(before));
            assert(role_map(before).contains_key(default_name())) by {
                assert(old_names.contains(default_name()));
            }
            assert(role_map(before)[default_name()] == before[at as int].installation@);
            assert forall|k: Seq<char>| role_map(after).contains_key(k) <==> target.contains_key(
                k,
            ) by {
                if role_map(after).contains_key(k) {
                    let p = names.index_of(k);
                    let p0 = if p < at {
                        p
                    } else {
                        p + 1
                    };
                    assert(names[p] == old_names[p0]);
                    assert(old_names.contains(k));
                    assert(k != default_name()) by {
                        if k == default_name() {
                            assert(old_names[p0] == old_names[at as int]);
                        }
                    }
                }
                if role_map(before).contains_key(k) && k != default_name() {
                    let p0 = old_names.index_of(k);
                    let p = if p0 < at {
                        p0
                    } else {
                        p0 - 1
                    };
                    assert(names[p] == old_names[p0]);
                    assert(names.contains(k));
                }
            }
            assert forall|k: Seq<char>| role_map(after).contains_key(k) implies role_map(after)[k]
                == target[k] by {
                let p = names.index_of(k);
                let p0 = if p < at {
                    p
                } else {
                    p + 1
                };
                assert(names[p] == old_names[p0]);
                assert(role_map(before)[old_names[p0]] == before[p0].installation@);
            }
            assert(role_map(after) =~= target);
        }
    }
}

} // verus!
