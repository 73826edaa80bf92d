use ostatus::package::{is_unit_name, route, Installation, Kind, Package};
use ostatus::resolver::{
    installables, resolve, DebugLevel, SolveError, TransactionClass, TransactionType,
};

fn install_class(packages: Vec<Package>) -> TransactionClass {
    TransactionClass { class: 0x20, packages }
}

fn full_names(packages: &Vec<Package>) -> Vec<String> {
    packages.iter().map(|p| p.full_name()).collect()
}

#[test]
fn package_full_name() {
    assert_eq!(Package::new("zypper", "1.14.53-1.1", "x86_64").full_name(), "zypper-1.14.53-1.1.x86_64");
    assert_eq!(Package::new("", "", "").full_name(), "-.");
}

#[test]
fn packages_are_the_same_by_full_name() {
    assert_eq!(Package::new("vim", "9.0-1", "x86_64"), Package::new("vim", "9.0-1", "x86_64"));
    assert_ne!(Package::new("vim", "9.0-1", "x86_64"), Package::new("vim", "9.0-2", "x86_64"));
    assert_eq!(Package::new("a-b", "1", "x"), Package::new("a", "b-1", "x"));
    let copy = Package::new("vim", "9.0-1", "x86_64").duplicate();
    assert_eq!((copy.name.as_str(), copy.version.as_str(), copy.arch.as_str()), ("vim", "9.0-1", "x86_64"));
}

#[test]
fn route_by_prefix() {
    assert_eq!(route("product:openSUSE"), (Kind::Product, "openSUSE".to_string()));
    assert_eq!(route("pattern:base"), (Kind::Pattern, "base".to_string()));
    assert_eq!(route("glibc"), (Kind::Package, "glibc".to_string()));
    assert_eq!(route(""), (Kind::Package, "".to_string()));
    assert_eq!(route("pattern:"), (Kind::Pattern, "".to_string()));
    assert_eq!(route("application:gimp"), (Kind::Package, "application:gimp".to_string()));
    assert_eq!(route("pattern:a:b"), (Kind::Package, "pattern:a:b".to_string()));
    assert_eq!(route("a:b:c"), (Kind::Package, "a:b:c".to_string()));
    assert_eq!(route("Pattern:base"), (Kind::Package, "Pattern:base".to_string()));
}

#[test]
fn from_role_sorts_entries_by_kind() {
    let found = vec![
        Package::new("glibc", "2.35-5.1", "x86_64"),
        Package::new("pattern:base", "20200505-1.2", "x86_64"),
        Package::new("product:openSUSE", "20220704-0", "x86_64"),
        Package::new("application:gimp", "1-1", "noarch"),
        Package::new("zypper", "1.14.53-1.1", "x86_64"),
        Package::new("pattern:x11", "20200505-1.2", "x86_64"),
    ];
    let installation = Installation::from_role(&found);
    assert_eq!(full_names(&installation.products), vec!["openSUSE-20220704-0.x86_64"]);
    assert_eq!(
        full_names(&installation.patterns),
        vec!["base-20200505-1.2.x86_64", "x11-20200505-1.2.x86_64"]
    );
    assert_eq!(
        full_names(&installation.packages),
        vec!["glibc-2.35-5.1.x86_64", "application:gimp-1-1.noarch", "zypper-1.14.53-1.1.x86_64"]
    );
    assert_eq!(
        installation.products.len() + installation.patterns.len() + installation.packages.len(),
        found.len()
    );
}

#[test]
fn from_role_takes_any_other_prefix_for_a_package() {
    let found = vec![Package::new("application:gedit", "41-1", "noarch")];
    let installation = Installation::from_role(&found);
    assert!(installation.products.is_empty());
    assert!(installation.patterns.is_empty());
    assert_eq!(full_names(&installation.packages), vec!["application:gedit-41-1.noarch"]);
    let classes = vec![install_class(found)];
    let resolved = resolve(0, &classes).unwrap();
    assert_eq!(full_names(&resolved.packages), vec!["application:gedit-41-1.noarch"]);
}

#[test]
fn unit_names_of_the_index() {
    assert!(is_unit_name("glibc"));
    assert!(is_unit_name("pattern:base"));
    assert!(is_unit_name("product:openSUSE"));
    assert!(is_unit_name(""));
    assert!(!is_unit_name("application:gimp"));
    assert!(!is_unit_name("pattern:a:b"));
    assert!(!is_unit_name("a:b:c"));
}

#[test]
fn resolve_fails_on_a_problem() {
    let classes = vec![install_class(vec![Package::new("glibc", "2.35-5.1", "x86_64")])];
    match resolve(1, &classes) {
        Err(SolveError::Problems(count)) => assert_eq!(count, 1),
        other => panic!("{:?}", other),
    }
    assert!(matches!(resolve(3, &vec![]), Err(SolveError::Problems(3))));
}

#[test]
fn resolve_gives_the_installation() {
    let classes = vec![
        install_class(vec![
            Package::new("product:openSUSE", "20220704-0", "x86_64"),
            Package::new("glibc", "2.35-5.1", "x86_64"),
        ]),
        install_class(vec![]),
        install_class(vec![Package::new("pattern:base", "20200505-1.2", "x86_64")]),
    ];
    let installation = resolve(0, &classes).unwrap();
    assert_eq!(full_names(&installation.products), vec!["openSUSE-20220704-0.x86_64"]);
    assert_eq!(full_names(&installation.patterns), vec!["base-20200505-1.2.x86_64"]);
    assert_eq!(full_names(&installation.packages), vec!["glibc-2.35-5.1.x86_64"]);
    let found = installables(0, &classes).unwrap();
    assert_eq!(
        full_names(&found),
        vec!["product:openSUSE-20220704-0.x86_64", "glibc-2.35-5.1.x86_64", "pattern:base-20200505-1.2.x86_64"]
    );
}

#[test]
fn resolve_of_an_empty_transaction() {
    let installation = resolve(0, &vec![]).unwrap();
    assert!(installation.products.is_empty());
    assert!(installation.patterns.is_empty());
    assert!(installation.packages.is_empty());
}

#[test]
fn resolve_refuses_what_is_no_installation() {
    let classes = vec![
        install_class(vec![Package::new("glibc", "2.35-5.1", "x86_64")]),
        TransactionClass { class: 0x10, packages: vec![Package::new("vim", "9.0-1", "x86_64")] },
        TransactionClass { class: 0x99, packages: vec![] },
    ];
    assert!(matches!(
        resolve(0, &classes),
        Err(SolveError::UnexpectedTransaction(TransactionType::Erase))
    ));
}

#[test]
fn resolve_refuses_an_unknown_class() {
    let classes = vec![TransactionClass { class: 0x99, packages: vec![] }, install_class(vec![])];
    assert!(matches!(resolve(0, &classes), Err(SolveError::UnknownTransaction(0x99))));
    assert!(matches!(resolve(-1, &classes), Err(SolveError::UnknownTransaction(0x99))));
}

#[test]
fn resolve_reports_problems_first() {
    let classes = vec![TransactionClass { class: 0x10, packages: vec![] }];
    assert!(matches!(resolve(2, &classes), Err(SolveError::Problems(2))));
}

#[test]
fn transaction_type_numbers() {
    assert_eq!(TransactionType::from_id(0x20), Some(TransactionType::Install));
    assert_eq!(TransactionType::from_id(0x00), Some(TransactionType::Ignore));
    assert_eq!(TransactionType::from_id(0x15), Some(TransactionType::Obsoleted));
    assert_eq!(TransactionType::from_id(0x31), Some(TransactionType::MultiReinstall));
    assert_eq!(TransactionType::from_id(0x3f), Some(TransactionType::MaxType));
    assert_eq!(TransactionType::from_id(0x16), None);
    assert_eq!(TransactionType::from_id(-1), None);
    assert_eq!(TransactionType::Install.id(), 0x20);
}

#[test]
fn transaction_type_numbers_go_both_ways() {
    let all = [
        TransactionType::Ignore,
        TransactionType::Erase,
        TransactionType::Reinstalled,
        TransactionType::Downgraded,
        TransactionType::Changed,
        TransactionType::Upgraded,
        TransactionType::Obsoleted,
        TransactionType::Install,
        TransactionType::Reinstall,
        TransactionType::Downgrade,
        TransactionType::Change,
        TransactionType::Upgrade,
        TransactionType::Obsoletes,
        TransactionType::MultiInstall,
        TransactionType::MultiReinstall,
        TransactionType::MaxType,
    ];
    for t in all {
        assert_eq!(TransactionType::from_id(t.id()), Some(t));
    }
    let known = (-1..0x100).filter(|n| TransactionType::from_id(*n).is_some()).count();
    assert_eq!(known, 16);
}

#[test]
fn debug_levels() {
    assert_eq!(DebugLevel::Level0.level(), 0);
    assert_eq!(DebugLevel::Level1.level(), 1);
    assert_eq!(DebugLevel::Level2.level(), 2);
    assert_eq!(DebugLevel::Level3.level(), 3);
    assert_eq!(DebugLevel::Level4.level(), 4);
}
