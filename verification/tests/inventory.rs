use ostatus::config::ConfigError;
use ostatus::ini::IniDocument;
use ostatus::inventory::{find_configs, parse_line, unquote, OsRelease};
use ostatus::package::Installation;
use ostatus::query::ZypperRepo;
use ostatus::repos::{definition_from, insert_by_priority, repo_alias, repo_definitions, RepoDefinition};

fn index_lines(items: &[&str]) -> Vec<String> {
    items.iter().map(|s| s.to_string()).collect()
}

fn names_in(packages: &Vec<ostatus::package::Package>) -> Vec<String> {
    packages.iter().map(|p| p.name.clone()).collect()
}

fn definition(alias: &str, priority: Option<i64>, enabled: Option<bool>, url: Option<&str>, cached: bool) -> RepoDefinition {
    RepoDefinition {
        alias: alias.to_string(),
        priority,
        enabled,
        baseurl: url.map(|u| u.to_string()),
        cached,
    }
}

fn aliases(repos: &Vec<ZypperRepo>) -> Vec<(String, i64)> {
    repos.iter().map(|r| (r.alias.clone(), r.priority)).collect()
}

const INDEX: [&str; 8] = [
    "glibc 2.35-5.1 x86_64",
    "pattern:base\t20200505-1.2   x86_64",
    "product:openSUSE 20220704-0 x86_64",
    "",
    "broken line",
    "application:gimp 1-1 noarch",
    "  zypper 1.14.53-1.1 x86_64  ",
    "too many words in here",
];

#[test]
fn parse_line_wants_three_words() {
    let unit = parse_line("glibc 2.35-5.1 x86_64").unwrap();
    assert_eq!((unit.name.as_str(), unit.version.as_str(), unit.arch.as_str()), ("glibc", "2.35-5.1", "x86_64"));
    let unit = parse_line("pattern:base 1 noarch").unwrap();
    assert_eq!(unit.name, "pattern:base");
    assert!(parse_line("application:gimp 1-1 noarch").is_none());
    assert!(parse_line("pattern:a:b 1-1 noarch").is_none());
    assert!(parse_line("glibc 2.35-5.1").is_none());
    assert!(parse_line("glibc 2.35-5.1 x86_64 extra").is_none());
    assert!(parse_line("").is_none());
}

#[test]
fn from_system_reads_the_index() {
    let installation = Installation::from_system(&index_lines(&INDEX));
    assert_eq!(names_in(&installation.products), vec!["openSUSE"]);
    assert_eq!(names_in(&installation.patterns), vec!["base"]);
    assert_eq!(names_in(&installation.packages), vec!["glibc", "zypper"]);
    assert_eq!(installation.patterns[0].full_name(), "base-20200505-1.2.x86_64");
}

#[test]
fn from_system_of_nothing() {
    let installation = Installation::from_system(&vec![]);
    assert!(installation.products.is_empty() && installation.patterns.is_empty() && installation.packages.is_empty());
}

#[test]
fn from_system_no_autoinstalled_skips_by_full_name() {
    let auto = index_lines(&["glibc", "pattern:base", "openSUSE", "missing"]);
    let installation = Installation::from_system_no_autoinstalled(&index_lines(&INDEX), &auto);
    assert_eq!(names_in(&installation.products), vec!["openSUSE"]);
    assert!(installation.patterns.is_empty());
    assert_eq!(names_in(&installation.packages), vec!["zypper"]);
}

#[test]
fn from_system_no_autoinstalled_without_a_list() {
    let installation = Installation::from_system_no_autoinstalled(&index_lines(&INDEX), &vec![]);
    assert_eq!(names_in(&installation.packages), vec!["glibc", "zypper"]);
    assert_eq!(names_in(&installation.patterns), vec!["base"]);
}

#[test]
fn autoinstalled_passes_over_comments() {
    let lines = index_lines(&["# generated", "glibc", "", "#zypper", "pattern:base", " # kept"]);
    assert_eq!(Installation::autoinstalled(&lines), index_lines(&["glibc", "", "pattern:base", " # kept"]));
    assert!(Installation::autoinstalled(&vec![]).is_empty());
}

#[test]
fn unquote_drops_every_quote() {
    assert_eq!(unquote("\"openSUSE Tumbleweed\""), "openSUSE Tumbleweed");
    assert_eq!(unquote("a\"b\"c"), "abc");
    assert_eq!(unquote("plain"), "plain");
    assert_eq!(unquote("\"\""), "");
}

#[test]
fn os_release_reads_the_description() {
    let text = "NAME=\"openSUSE Tumbleweed\"\n# VERSION=\"20220704\"\nID=\"opensuse-tumbleweed\"\n\
                ID_LIKE=\"opensuse suse\"\nVERSION_ID=\"20220704\"\nPRETTY_NAME=\"openSUSE Tumbleweed\"\n";
    let release = OsRelease::new(text).unwrap();
    assert_eq!(release.name, "openSUSE Tumbleweed");
    assert_eq!(release.id, "opensuse-tumbleweed");
    assert_eq!(release.version_id, "20220704");
    assert_eq!(release.pretty_name, "openSUSE Tumbleweed");
}

#[test]
fn os_release_names_the_first_missing_part() {
    match OsRelease::new("NAME=x\nVERSION_ID=1\n") {
        Err(ConfigError::Missing(part)) => assert_eq!(part, "ID"),
        other => panic!("{:?}", other),
    }
    match OsRelease::new("") {
        Err(ConfigError::Missing(part)) => assert_eq!(part, "NAME"),
        other => panic!("{:?}", other),
    }
    match OsRelease::new("NAME=x\nID=y\nPRETTY_NAME=z\n") {
        Err(ConfigError::Missing(part)) => assert_eq!(part, "VERSION_ID"),
        other => panic!("{:?}", other),
    }
    match OsRelease::new("NAME=x\nID=y\nVERSION_ID=1\nPRETTY_NAME\n") {
        Err(ConfigError::Missing(part)) => assert_eq!(part, "PRETTY_NAME"),
        other => panic!("{:?}", other),
    }
}

#[test]
fn os_release_refuses_what_is_no_description() {
    assert!(matches!(OsRelease::new("[open\n"), Err(ConfigError::Ini(_))));
}

#[test]
fn os_release_from_a_document() {
    let mut doc = IniDocument::new();
    doc.set("default", "name", Some("\"SLE Micro\"".to_string()));
    doc.set("default", "id", Some("sle-micro".to_string()));
    doc.set("default", "version_id", Some("\"5.2\"".to_string()));
    doc.set("default", "pretty_name", Some("\"SUSE Linux Enterprise Micro 5.2\"".to_string()));
    let release = OsRelease::from_document(&doc).unwrap();
    assert_eq!(release.name, "SLE Micro");
    assert_eq!(release.version_id, "5.2");
}

#[test]
fn find_configs_lists_the_places() {
    let release = OsRelease {
        name: "openSUSE Leap".to_string(),
        id: "opensuse-leap".to_string(),
        version_id: "15.4".to_string(),
        pretty_name: "openSUSE Leap 15.4".to_string(),
    };
    assert_eq!(
        find_configs(&release),
        vec![
            "/usr/etc/opensuse-leap.cfg",
            "/usr/etc/opensuse-leap-15.4.cfg",
            "/usr/etc/ostatus.cfg",
            "/etc/opensuse-leap.cfg",
            "/etc/opensuse-leap-15.4.cfg",
            "/etc/ostatus.cfg",
        ]
    );
}

#[test]
fn repo_alias_orders_by_priority() {
    let definitions = vec![
        definition("oss", None, None, Some("http://a/oss"), true),
        definition("update", Some(90), Some(true), Some("http://a/update"), true),
        definition("non-oss", Some(99), None, Some("http://a/non-oss"), true),
        definition("first", Some(-1), None, Some("http://a/first"), true),
    ];
    assert_eq!(
        aliases(&repo_alias(&definitions)),
        vec![
            ("first".to_string(), -1),
            ("update".to_string(), 90),
            ("oss".to_string(), 99),
            ("non-oss".to_string(), 99),
        ]
    );
}

#[test]
fn repo_alias_leaves_out_what_does_not_count() {
    let definitions = vec![
        definition("disabled", Some(1), Some(false), Some("http://a/1"), true),
        definition("uncached", Some(2), Some(true), Some("http://a/2"), false),
        definition("kept", Some(3), None, Some("http://a/3"), true),
        definition("same-url", Some(0), None, Some("http://a/3"), true),
        definition("no-url", None, None, None, true),
        definition("no-url-either", Some(5), None, None, true),
        definition("empty-url", Some(6), None, Some(""), true),
    ];
    assert_eq!(
        aliases(&repo_alias(&definitions)),
        vec![("kept".to_string(), 3), ("no-url".to_string(), 99)]
    );
}

#[test]
fn repo_alias_does_not_let_a_disabled_repository_claim_a_url() {
    let definitions = vec![
        definition("off", Some(1), Some(false), Some("http://a/1"), true),
        definition("on", Some(2), None, Some("http://a/1"), true),
    ];
    assert_eq!(aliases(&repo_alias(&definitions)), vec![("on".to_string(), 2)]);
    assert!(repo_alias(&vec![]).is_empty());
}

#[test]
fn insert_by_priority_goes_behind_equal_priorities() {
    let mut repos = vec![
        ZypperRepo { alias: "a".to_string(), priority: 1 },
        ZypperRepo { alias: "b".to_string(), priority: 5 },
        ZypperRepo { alias: "c".to_string(), priority: 5 },
        ZypperRepo { alias: "d".to_string(), priority: 9 },
    ];
    insert_by_priority(&mut repos, ZypperRepo { alias: "new".to_string(), priority: 5 });
    insert_by_priority(&mut repos, ZypperRepo { alias: "low".to_string(), priority: 0 });
    insert_by_priority(&mut repos, ZypperRepo { alias: "high".to_string(), priority: 10 });
    let order: Vec<String> = repos.iter().map(|r| r.alias.clone()).collect();
    assert_eq!(order, vec!["low", "a", "b", "c", "new", "d", "high"]);
}

#[test]
fn repo_definitions_reads_each_section() {
    let text = "[repo-oss]\nenabled=1\nautorefresh=1\n\
                baseurl=http://download.opensuse.org/tumbleweed/repo/oss/\npriority=90\n\n\
                [Off]\nenabled = No\nbaseurl = http://example.org/off\n\
                [bare]\n";
    let mut definitions = repo_definitions(text).unwrap();
    definitions.sort_by(|a, b| a.alias.cmp(&b.alias));
    let found: Vec<(String, Option<i64>, Option<bool>, Option<String>, bool)> = definitions
        .into_iter()
        .map(|d| (d.alias, d.priority, d.enabled, d.baseurl, d.cached))
        .collect();
    assert_eq!(
        found,
        vec![
            ("bare".to_string(), None, None, None, false),
            ("off".to_string(), None, Some(false), Some("http://example.org/off".to_string()), false),
            (
                "repo-oss".to_string(),
                Some(90),
                Some(true),
                Some("http://download.opensuse.org/tumbleweed/repo/oss/".to_string()),
                false
            ),
        ]
    );
}

#[test]
fn repo_definitions_pass_over_values_that_do_not_parse() {
    let text = "[odd]\npriority = high\nenabled = maybe\nbaseurl\n[neg]\npriority = -3\nenabled = TRUE\n";
    let mut definitions = repo_definitions(text).unwrap();
    definitions.sort_by(|a, b| a.alias.cmp(&b.alias));
    assert_eq!(
        (definitions[0].alias.as_str(), definitions[0].priority, definitions[0].enabled),
        ("neg", Some(-3), Some(true))
    );
    assert_eq!(
        (definitions[1].alias.as_str(), definitions[1].priority, definitions[1].enabled),
        ("odd", None, None)
    );
    assert_eq!(definitions[1].baseurl, None);
}

#[test]
fn repo_definitions_of_what_is_no_repository_file() {
    assert!(matches!(repo_definitions("[repo\n"), Err(ConfigError::Ini(_))));
    assert!(repo_definitions("").unwrap().is_empty());
}

#[test]
fn repo_definitions_then_repo_alias() {
    let text = "[a]\npriority=99\nbaseurl=http://x/a\n[b]\npriority=10\nbaseurl=http://x/b\n\
                [c]\nenabled=0\npriority=1\nbaseurl=http://x/c\n";
    let mut definitions = repo_definitions(text).unwrap();
    for definition in definitions.iter_mut() {
        definition.cached = true;
    }
    assert_eq!(
        aliases(&repo_alias(&definitions)),
        vec![("b".to_string(), 10), ("a".to_string(), 99)]
    );
}

#[test]
fn definition_from_a_document() {
    let mut doc = IniDocument::new();
    doc.set("oss", "priority", Some("42".to_string()));
    doc.set("oss", "enabled", Some("off".to_string()));
    doc.set("oss", "baseurl", Some("http://x/oss".to_string()));
    let definition = definition_from(&doc, "oss");
    assert_eq!(
        (definition.alias.as_str(), definition.priority, definition.enabled, definition.baseurl.as_deref()),
        ("oss", Some(42), Some(false), Some("http://x/oss"))
    );
    let missing = definition_from(&doc, "other");
    assert_eq!((missing.priority, missing.enabled, missing.baseurl, missing.cached), (None, None, None, false));
}

#[test]
fn definition_reads_priorities_as_signed_decimals() {
    let read = |value: &str| {
        let mut doc = IniDocument::new();
        doc.set("r", "priority", Some(value.to_string()));
        definition_from(&doc, "r").priority
    };
    assert_eq!(read("10"), Some(10));
    assert_eq!(read("+7"), Some(7));
    assert_eq!(read("-3"), Some(-3));
    assert_eq!(read("-0"), Some(0));
    assert_eq!(read("007"), Some(7));
    assert_eq!(read("9223372036854775807"), Some(i64::MAX));
    assert_eq!(read("-9223372036854775808"), Some(i64::MIN));
    assert_eq!(read("9223372036854775808"), None);
    assert_eq!(read("-9223372036854775809"), None);
    assert_eq!(read("99999999999999999999999999"), None);
    for odd in ["", "+", "-", "--1", "+-1", " 5", "5 ", "1_000", "0x10", "1.0", "ten", "\u{663}", "1\u{663}"] {
        assert_eq!(read(odd), None, "{:?}", odd);
    }
}
