use ostatus::matcher::{find_closer_role, jaccard, Similarity};
use ostatus::package::{Installation, Package};
use ostatus::roles::{ReferenceInstallation, Roles};

fn name_set(items: &[&str]) -> Vec<Vec<char>> {
    items.iter().map(|s| s.chars().collect()).collect()
}

fn role_with_patterns(patterns: &[&str]) -> ReferenceInstallation {
    let mut role = ReferenceInstallation::new();
    role.patterns = patterns.iter().map(|s| s.to_string()).collect();
    role
}

fn installed_patterns(patterns: &[&str]) -> Installation {
    let mut installation = Installation::new();
    for p in patterns {
        installation.patterns.push(Package::new(p, "1.0-1", "noarch"));
    }
    installation
}

#[test]
fn jaccard_counts_shared_and_all() {
    let index = jaccard(&name_set(&["a", "b", "c"]), &name_set(&["a", "b"]));
    assert_eq!((index.shared, index.total), (2, 3));
    let index = jaccard(&name_set(&["a", "b", "c"]), &name_set(&["a", "b", "c", "d"]));
    assert_eq!((index.shared, index.total), (3, 4));
    let index = jaccard(&name_set(&["a"]), &name_set(&["b"]));
    assert_eq!((index.shared, index.total), (0, 2));
}

#[test]
fn jaccard_takes_lists_as_sets() {
    let index = jaccard(&name_set(&["a", "a", "b"]), &name_set(&["b", "b", "c", "b"]));
    assert_eq!((index.shared, index.total), (1, 3));
}

#[test]
fn jaccard_is_symmetric() {
    let a = name_set(&["base", "x11", "gnome"]);
    let b = name_set(&["base", "kde", "x11", "games"]);
    let ab = jaccard(&a, &b);
    let ba = jaccard(&b, &a);
    assert_eq!((ab.shared, ab.total), (ba.shared, ba.total));
    assert_eq!((ab.shared, ab.total), (2, 5));
}

#[test]
fn jaccard_of_a_set_with_itself_is_one() {
    let a = name_set(&["base", "x11"]);
    let index = jaccard(&a, &a);
    assert_eq!((index.shared, index.total), (2, 2));
}

#[test]
fn jaccard_of_two_empty_sets_is_zero() {
    let index = jaccard(&name_set(&[]), &name_set(&[]));
    assert_eq!((index.shared, index.total), (0, 0));
    let zero = Similarity { shared: 0, total: 5 };
    assert!(!index.exceeds(&zero));
    assert!(!zero.exceeds(&index));
    let some = Similarity { shared: 1, total: 5 };
    assert!(some.exceeds(&index));
    assert!(!index.exceeds(&some));
}

#[test]
fn similarity_compares_as_fractions() {
    let two_thirds = Similarity { shared: 2, total: 3 };
    let three_quarters = Similarity { shared: 3, total: 4 };
    let six_ninths = Similarity { shared: 6, total: 9 };
    assert!(three_quarters.exceeds(&two_thirds));
    assert!(!two_thirds.exceeds(&three_quarters));
    assert!(!two_thirds.exceeds(&six_ninths));
    assert!(!six_ninths.exceeds(&two_thirds));
    let big = Similarity { shared: usize::MAX, total: usize::MAX };
    let nearly = Similarity { shared: usize::MAX - 1, total: usize::MAX };
    assert!(big.exceeds(&nearly));
    assert!(!nearly.exceeds(&big));
}

#[test]
fn matcher_selects_the_closest_role() {
    let mut roles = Roles::new();
    roles.insert("X".to_string(), role_with_patterns(&["a", "b"]));
    roles.insert("Y".to_string(), role_with_patterns(&["a", "b", "c", "d"]));
    let system = installed_patterns(&["a", "b", "c"]);
    assert_eq!(find_closer_role(&roles, &system), Some("Y".to_string()));
}

#[test]
fn matcher_without_roles_finds_none() {
    let roles = Roles::new();
    let system = installed_patterns(&["a"]);
    assert_eq!(find_closer_role(&roles, &system), None);
}

#[test]
fn matcher_gives_a_role_even_for_a_poor_match() {
    let mut roles = Roles::new();
    roles.insert("server".to_string(), role_with_patterns(&["x"]));
    roles.insert("desktop".to_string(), role_with_patterns(&["y"]));
    let system = installed_patterns(&["a", "b"]);
    assert_eq!(find_closer_role(&roles, &system), Some("desktop".to_string()));
}

#[test]
fn matcher_gives_a_role_where_everything_is_empty() {
    let mut roles = Roles::new();
    roles.insert("minimal".to_string(), role_with_patterns(&[]));
    let system = installed_patterns(&[]);
    assert_eq!(find_closer_role(&roles, &system), Some("minimal".to_string()));
}

#[test]
fn matcher_breaks_ties_by_name() {
    let mut roles = Roles::new();
    roles.insert("zeta".to_string(), role_with_patterns(&["a", "b"]));
    roles.insert("alpha".to_string(), role_with_patterns(&["b", "a"]));
    roles.insert("mid".to_string(), role_with_patterns(&["a"]));
    let system = installed_patterns(&["a", "b"]);
    assert_eq!(find_closer_role(&roles, &system), Some("alpha".to_string()));
}

#[test]
fn matcher_looks_at_required_patterns_only() {
    let mut roles = Roles::new();
    let mut optional = role_with_patterns(&[]);
    optional.patterns_opt = vec!["a".to_string(), "b".to_string()];
    roles.insert("optional".to_string(), optional);
    roles.insert("required".to_string(), role_with_patterns(&["a"]));
    let system = installed_patterns(&["a", "b"]);
    assert_eq!(find_closer_role(&roles, &system), Some("required".to_string()));
}
