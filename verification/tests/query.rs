use ostatus::config::ConfigError;
use ostatus::query::{testcase, ZypperConf, ZypperRepo};
use ostatus::resolver::role_testcase;
use ostatus::roles::{ReferenceInstallation, Roles};

fn query_list(items: &[&str]) -> Vec<String> {
    items.iter().map(|s| s.to_string()).collect()
}

fn query_repos() -> Vec<ZypperRepo> {
    vec![
        ZypperRepo { alias: "update".to_string(), priority: 90 },
        ZypperRepo { alias: "repo-oss".to_string(), priority: 99 },
    ]
}

#[test]
fn testcase_without_flags() {
    let conf = ZypperConf { only_requires: false, allow_vendor_change: false };
    let text = testcase(
        "x86_64",
        &query_repos(),
        &query_list(&["openSUSE"]),
        &query_list(&["base", "x11"]),
        &query_list(&["vim"]),
        &conf,
    );
    assert_eq!(
        text,
        "system x86_64 rpm\n\
         \n\
         repo update 90 solv /var/cache/zypp/solv/update/solv\n\
         repo repo-oss 99 solv /var/cache/zypp/solv/repo-oss/solv\n\
         \n\
         job install name product:openSUSE\n\
         job install name pattern:base\n\
         job install name pattern:x11\n\
         job install name vim"
    );
}

#[test]
fn testcase_with_both_flags() {
    let conf = ZypperConf { only_requires: true, allow_vendor_change: true };
    let text = testcase("aarch64", &vec![], &query_list(&["MicroOS"]), &vec![], &vec![], &conf);
    assert_eq!(
        text,
        "system aarch64 rpm\n\n\nsolverflags ignorerecommended allowvendorchange\njob install name product:MicroOS"
    );
}

#[test]
fn testcase_with_one_flag() {
    let only = ZypperConf { only_requires: true, allow_vendor_change: false };
    let text = testcase("x86_64", &vec![], &vec![], &query_list(&["base"]), &vec![], &only);
    assert_eq!(text, "system x86_64 rpm\n\n\nsolverflags ignorerecommended\njob install name pattern:base");
    let vendor = ZypperConf { only_requires: false, allow_vendor_change: true };
    let text = testcase("x86_64", &vec![], &vec![], &query_list(&["base"]), &vec![], &vendor);
    assert_eq!(text, "system x86_64 rpm\n\n\nsolverflags allowvendorchange\njob install name pattern:base");
}

#[test]
fn testcase_of_nothing() {
    let conf = ZypperConf { only_requires: false, allow_vendor_change: false };
    assert_eq!(testcase("s390x", &vec![], &vec![], &vec![], &vec![], &conf), "system s390x rpm\n\n\n");
}

#[test]
fn testcase_writes_negative_priorities() {
    let conf = ZypperConf { only_requires: false, allow_vendor_change: false };
    let repos = vec![ZypperRepo { alias: "first".to_string(), priority: -5 }];
    assert_eq!(
        testcase("x86_64", &repos, &vec![], &vec![], &vec![], &conf),
        "system x86_64 rpm\n\nrepo first -5 solv /var/cache/zypp/solv/first/solv\n\n"
    );
}

#[test]
fn zypper_conf_finds_the_settings() {
    let text = "[main]\n# solver.onlyRequires = true\nsolver.onlyRequires = true\nsolver.allowVendorChange=false\n";
    let conf = ZypperConf::new(text).unwrap();
    assert!(conf.only_requires);
    assert!(!conf.allow_vendor_change);
    let text = "solver.allowVendorChange \t=  true\n";
    let conf = ZypperConf::new(text).unwrap();
    assert!(!conf.only_requires);
    assert!(conf.allow_vendor_change);
}

#[test]
fn zypper_conf_wants_the_setting_at_the_start_of_a_line() {
    let conf = ZypperConf::new("  solver.onlyRequires = true\n## solver.allowVendorChange = true\n").unwrap();
    assert!(!conf.only_requires);
    assert!(!conf.allow_vendor_change);
    let conf = ZypperConf::new("").unwrap();
    assert!(!conf.only_requires);
    assert!(!conf.allow_vendor_change);
}

#[test]
fn zypper_conf_is_no_config_error() {
    let result: Result<ZypperConf, ConfigError> = ZypperConf::new("solver.onlyRequires = true");
    assert!(result.unwrap().only_requires);
}

#[test]
fn role_testcase_asks_for_the_patterns_of_the_role() {
    let mut roles = Roles::new();
    let mut web = ReferenceInstallation::new();
    web.patterns = query_list(&["base", "http"]);
    web.packages = query_list(&["nginx"]);
    roles.insert("web".to_string(), web);
    let conf = ZypperConf { only_requires: false, allow_vendor_change: false };
    let text = role_testcase("web", &roles, "x86_64", &query_repos(), "openSUSE", &conf).unwrap();
    assert_eq!(
        text,
        "system x86_64 rpm\n\
         \n\
         repo update 90 solv /var/cache/zypp/solv/update/solv\n\
         repo repo-oss 99 solv /var/cache/zypp/solv/repo-oss/solv\n\
         \n\
         job install name product:openSUSE\n\
         job install name pattern:base\n\
         job install name pattern:http"
    );
}

#[test]
fn role_testcase_of_an_unknown_role() {
    let roles = Roles::new();
    let conf = ZypperConf { only_requires: false, allow_vendor_change: false };
    let err = role_testcase("web", &roles, "x86_64", &vec![], "openSUSE", &conf).unwrap_err();
    assert_eq!(err.role, "web");
}

#[test]
fn testcase_has_one_flags_line_before_the_first_job() {
    let conf = ZypperConf { only_requires: true, allow_vendor_change: true };
    let text = testcase(
        "x86_64",
        &vec![],
        &query_list(&["openSUSE"]),
        &vec![],
        &query_list(&["vim"]),
        &conf,
    );
    assert_eq!(
        text,
        "system x86_64 rpm\n\n\nsolverflags ignorerecommended allowvendorchange\njob install name product:openSUSE\njob install name vim"
    );
    assert!(text.lines().all(|line| !line.ends_with(' ')));
}
