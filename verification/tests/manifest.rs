use ostatus::diff::{diff_and_join, is_prefix};
use ostatus::digest::{manifest_digest, to_lower_hex};
use ostatus::manifest::{base_manifest, find_unknown, system_manifest, Buildtimes, ManifestError};
use ostatus::package::{Installation, Package};
use ostatus::status::{create_status_file, status_document};

fn unit(name: &str) -> Package {
    Package::new(name, "1.0-1.1", "x86_64")
}

fn units(names: &[&str]) -> Vec<Package> {
    names.iter().map(|n| unit(n)).collect()
}

fn sample_installation() -> Installation {
    Installation {
        products: vec![Package::new("openSUSE", "20220704-0", "x86_64")],
        patterns: vec![Package::new("base", "20200505-1.2", "x86_64"), Package::new("apparmor", "20200505-1.2", "x86_64")],
        packages: vec![
            Package::new("zypper", "1.14.53-1.1", "x86_64"),
            Package::new("glibc", "2.35-5.1", "x86_64"),
            Package::new("aaa_base", "84.87-2.1", "x86_64"),
        ],
    }
}

fn sample_times() -> Buildtimes {
    let mut times = Buildtimes::new();
    times.insert("zypper-1.14.53-1.1.x86_64".to_string(), 1657113019);
    times.insert("glibc-2.35-5.1.x86_64".to_string(), 7);
    times.insert("aaa_base-84.87-2.1.x86_64".to_string(), 0);
    times
}

#[test]
fn buildtimes_insert_and_get() {
    let mut times = Buildtimes::new();
    assert_eq!(times.get("a-1.x"), None);
    times.insert("a-1.x".to_string(), 5);
    times.insert("b-1.x".to_string(), 6);
    times.insert("a-1.x".to_string(), 9);
    assert_eq!(times.get("a-1.x"), Some(9));
    assert_eq!(times.get("b-1.x"), Some(6));
    assert_eq!(times.get("c-1.x"), None);
}

#[test]
fn system_manifest_lists_sorted_lines() {
    let text = system_manifest(&sample_installation(), &sample_times());
    assert_eq!(
        text,
        "aaa_base-84.87-2.1.x86_64 0\n\
         glibc-2.35-5.1.x86_64 7\n\
         pattern:apparmor-20200505-1.2.x86_64\n\
         pattern:base-20200505-1.2.x86_64\n\
         product:openSUSE-20220704-0.x86_64\n\
         zypper-1.14.53-1.1.x86_64 1657113019"
    );
}

#[test]
fn system_manifest_falls_back_to_the_bare_name() {
    let mut times = Buildtimes::new();
    times.insert("glibc-2.35-5.1.x86_64".to_string(), 7);
    let text = system_manifest(&sample_installation(), &times);
    assert_eq!(
        text,
        "aaa_base-84.87-2.1.x86_64\n\
         glibc-2.35-5.1.x86_64 7\n\
         pattern:apparmor-20200505-1.2.x86_64\n\
         pattern:base-20200505-1.2.x86_64\n\
         product:openSUSE-20220704-0.x86_64\n\
         zypper-1.14.53-1.1.x86_64"
    );
}

#[test]
fn base_manifest_needs_every_build_time() {
    let mut times = Buildtimes::new();
    times.insert("zypper-1.14.53-1.1.x86_64".to_string(), 1657113019);
    times.insert("aaa_base-84.87-2.1.x86_64".to_string(), 3);
    match base_manifest(&sample_installation(), &times) {
        Err(ManifestError::MissingBuildtime(name)) => assert_eq!(name, "glibc-2.35-5.1.x86_64"),
        other => panic!("{:?}", other),
    }
    assert_eq!(find_unknown(&sample_installation().packages, &times), Some(1));
    assert_eq!(find_unknown(&sample_installation().packages, &sample_times()), None);
}

#[test]
fn base_manifest_with_every_build_time() {
    let text = base_manifest(&sample_installation(), &sample_times()).unwrap();
    assert_eq!(text, system_manifest(&sample_installation(), &sample_times()));
}

#[test]
fn manifest_does_not_depend_on_the_order() {
    let first = sample_installation();
    let mut second = sample_installation();
    second.patterns.reverse();
    second.packages.rotate_left(1);
    let times = sample_times();
    assert_eq!(system_manifest(&first, &times), system_manifest(&second, &times));
    assert_eq!(base_manifest(&first, &times).unwrap(), base_manifest(&second, &times).unwrap());
    assert_eq!(
        manifest_digest(&system_manifest(&first, &times)),
        manifest_digest(&system_manifest(&second, &times))
    );
}

#[test]
fn manifest_of_nothing_is_empty() {
    assert_eq!(system_manifest(&Installation::new(), &Buildtimes::new()), "");
    assert_eq!(base_manifest(&Installation::new(), &Buildtimes::new()).unwrap(), "");
}

#[test]
fn to_lower_hex_writes_two_digits_for_each_byte() {
    assert_eq!(to_lower_hex(&vec![0x00, 0x0f, 0xa0, 0xff, 0x12, 0xbe, 0xef]), "000fa0ff12beef");
    assert_eq!(to_lower_hex(&vec![]), "");
}

#[test]
fn manifest_digest_is_sha256() {
    assert_eq!(
        manifest_digest(""),
        "e3b0c44298fc1c149afbf4c8996fb92427ae41e4649b934ca495991b7852b855"
    );
    assert_eq!(
        manifest_digest("abc"),
        "ba7816bf8f01cfea414140de5dae2223b00361a396177a9cb410ff61f20015ad"
    );
}

#[test]
fn is_prefix_looks_through_the_list() {
    let list: &[&str] = &["patterns-", "kernel-", "snapper"];
    assert!(is_prefix("kernel-default", Some(list)));
    assert!(is_prefix("snapper-zypp-plugin", Some(list)));
    assert!(is_prefix("patterns-base-base", Some(list)));
    assert!(!is_prefix("vim", Some(list)));
    assert!(!is_prefix("my-kernel-default", Some(list)));
    assert!(!is_prefix("kernel-default", None));
    assert!(!is_prefix("kernel-default", Some(&[])));
    assert!(is_prefix("anything", Some(&[""])));
}

#[test]
fn diff_and_join_gives_what_only_the_first_has() {
    let a = units(&["vim", "zsh", "bash", "emacs"]);
    let b = units(&["bash", "glibc", "zsh"]);
    assert_eq!(diff_and_join(&a, &b, None), "emacs vim");
    assert_eq!(diff_and_join(&b, &a, None), "glibc");
}

#[test]
fn diff_and_join_goes_by_name_alone() {
    let a = vec![Package::new("vim", "9.0-1", "x86_64")];
    let b = vec![Package::new("vim", "8.2-3", "i586")];
    assert_eq!(diff_and_join(&a, &b, None), "");
}

#[test]
fn diff_and_join_names_each_once() {
    let a = vec![
        Package::new("gpg-pubkey", "1-1", "noarch"),
        Package::new("vim", "9.0-1", "x86_64"),
        Package::new("gpg-pubkey", "2-2", "noarch"),
    ];
    assert_eq!(diff_and_join(&a, &vec![], None), "gpg-pubkey vim");
}

#[test]
fn diff_and_join_leaves_out_excluded_names() {
    let a = units(&["vim", "kernel-default", "grub2-x86_64-efi", "patterns-base-base", "snapper", "akernel-"]);
    let b = units(&[]);
    let list: &[&str] = &["patterns-", "kernel-", "snapper", "grub2", "btrfsprogs"];
    assert_eq!(diff_and_join(&a, &b, Some(list)), "akernel- vim");
    assert_eq!(
        diff_and_join(&a, &b, None),
        "akernel- grub2-x86_64-efi kernel-default patterns-base-base snapper vim"
    );
}

#[test]
fn diff_of_a_list_with_itself_is_empty() {
    let a = units(&["vim", "zsh", "bash", "vim"]);
    assert_eq!(diff_and_join(&a, &a, None), "");
    assert_eq!(diff_and_join(&a, &a, Some(&[])), "");
    assert_eq!(diff_and_join(&a, &a, Some(&["v"])), "");
    assert_eq!(diff_and_join(&vec![], &vec![], None), "");
}

#[test]
fn status_document_has_ten_fields() {
    let user = Installation {
        products: vec![],
        patterns: units(&["base", "games"]),
        packages: units(&["vim", "kernel-default", "zypper", "htop"]),
    };
    let role = Installation {
        products: units(&["openSUSE"]),
        patterns: units(&["base", "x11"]),
        packages: units(&["zypper", "glibc", "aaa_base"]),
    };
    let system = Installation {
        products: units(&["openSUSE"]),
        patterns: units(&["base", "games"]),
        packages: units(&["vim", "kernel-default", "zypper", "htop", "glibc"]),
    };
    let text = status_document(
        "2022-07-06 12:00:00 UTC",
        "openSUSE",
        "20220704",
        "server",
        "aa11",
        "bb22",
        &user,
        &role,
        &system,
    );
    assert_eq!(
        text,
        "DATE=\"2022-07-06 12:00:00 UTC\"\n\
         PRODUCT=\"openSUSE\"\n\
         VERSION_ID=\"20220704\"\n\
         ROLE=\"server\"\n\
         BASE_MANIFEST_DIGEST=\"aa11\"\n\
         SYSTEM_MANIFEST_DIGEST=\"bb22\"\n\
         ADDED_PATTERNS=\"games\"\n\
         REMOVED_PATTERNS=\"x11\"\n\
         ADDED_PACKAGES=\"htop vim\"\n\
         REMOVED_PACKAGES=\"aaa_base\""
    );
}

#[test]
fn create_status_file_holds_the_digests() {
    let empty = Installation::new();
    let text = create_status_file("d", "p", "v", "r", "abc", "", &empty, &empty, &empty);
    assert_eq!(
        text,
        "DATE=\"d\"\n\
         PRODUCT=\"p\"\n\
         VERSION_ID=\"v\"\n\
         ROLE=\"r\"\n\
         BASE_MANIFEST_DIGEST=\"ba7816bf8f01cfea414140de5dae2223b00361a396177a9cb410ff61f20015ad\"\n\
         SYSTEM_MANIFEST_DIGEST=\"e3b0c44298fc1c149afbf4c8996fb92427ae41e4649b934ca495991b7852b855\"\n\
         ADDED_PATTERNS=\"\"\n\
         REMOVED_PATTERNS=\"\"\n\
         ADDED_PACKAGES=\"\"\n\
         REMOVED_PACKAGES=\"\""
    );
}
