//! The status report: which role the system runs, the digests of its two
//! manifests, and what was added to and removed from what the role
//! prescribes.

use crate::diff::{diff_and_join, difference_text, prefix_list, slices};
use crate::digest::{digest_text, manifest_digest};
use crate::package::{package_names, Installation, InstallationView};
use crate::text::{append_str, chars_of, join_texts, joined, string_of, texts};
use vstd::prelude::*;

verus! {

/// One field of the report: `KEY="value"`.
pub open spec fn status_line(key: Seq<char>, value: Seq<char>) -> Seq<char> {
    key + "=\""@ + value + "\""@
}

/// The prefixes of the package names that never count as added by the
/// user: the packages of patterns, kernels, and the tools of snapshots, boot
/// loader and file system.
pub open spec fn kept_out() -> Seq<Seq<char>> {
    seq!["patterns-"@, "kernel-"@, "snapper"@, "grub2"@, "btrfsprogs"@]
}

/// The fields of the report, in order.
pub open spec fn status_lines(
    date: Seq<char>,
    product: Seq<char>,
    version_id: Seq<char>,
    role: Seq<char>,
    base_digest: Seq<char>,
    system_digest: Seq<char>,
    user: InstallationView,
    prescribed: InstallationView,
    system: InstallationView,
) -> Seq<Seq<char>> {
    seq![
        status_line("DATE"@, date),
        status_line("PRODUCT"@, product),
        status_line("VERSION_ID"@, version_id),
        status_line("ROLE"@, role),
        status_line("BASE_MANIFEST_DIGEST"@, base_digest),
        status_line("SYSTEM_MANIFEST_DIGEST"@, system_digest),
        status_line(
            "ADDED_PATTERNS"@,
            difference_text(package_names(user.patterns), package_names(prescribed.patterns), None),
        ),
        status_line(
            "REMOVED_PATTERNS"@,
            difference_text(
                package_names(prescribed.patterns),
                package_names(system.patterns),
                None,
            ),
        ),
        status_line(
            "ADDED_PACKAGES"@,
            difference_text(
                package_names(user.packages),
                package_names(prescribed.packages),
                Some(kept_out()),
            ),
        ),
        status_line(
            "REMOVED_PACKAGES"@,
            difference_text(
                package_names(prescribed.packages),
                package_names(system.packages),
                None,
            ),
        ),
    ]
}

fn field(key: &str, value: &str) -> (r: Vec<char>)
    ensures
        r@ == status_line(key@, value@),
{
    let mut out = chars_of(key);
    append_str(&mut out, "=\"");
    append_str(&mut out, value);
    append_str(&mut out, "\"");
    out
}

/// The text of the status report, from the digests of the two manifests.
///
/// Added is what the user has and the role does not prescribe; removed is
/// what the role prescribes and the system lacks. Only among the added
/// packages the names that begin with one of `kept_out` are passed over.
pub fn status_document(
    date: &str,
    product: &str,
    version_id: &str,
    role: &str,
    base_digest: &str,
    system_digest: &str,
    packages_user: &Installation,
    inst_role: &Installation,
    inst_system: &Installation,
) -> (r: String)
    ensures
        r@ == joined(
            status_lines(
                date@,
                product@,
                version_id@,
                role@,
                base_digest@,
                system_digest@,
                packages_user@,
                inst_role@,
                inst_system@,
            ),
            "\n"@,
        ),
{
    let prefixes: [&str; 5] = ["patterns-", "kernel-", "snapper", "grub2", "btrfsprogs"];
    let exclude: &[&str] = prefixes.as_slice();
    assert(slices(exclude@) =~= kept_out());
    assert(prefix_list(Some(exclude)) == Some(kept_out()));
    assert(prefix_list(None) == None::<Seq<Seq<char>>>);
    let added_patterns = diff_and_join(&packages_user.patterns, &inst_role.patterns, None);
    let removed_patterns = diff_and_join(&inst_role.patterns, &inst_system.patterns, None);
    let added_packages = diff_and_join(
        &packages_user.packages,
        &inst_role.packages,
        Some(exclude),
    );
    let removed_packages = diff_and_join(&inst_role.packages, &inst_system.packages, None);
    let mut status: Vec<Vec<char>> = Vec::new();
    status.push(field("DATE", date));
    status.push(field("PRODUCT", product));
    status.push(field("VERSION_ID", version_id));
    status.push(field("ROLE", role));
    status.push(field("BASE_MANIFEST_DIGEST", base_digest));
    status.push(field("SYSTEM_MANIFEST_DIGEST", system_digest));
    status.push(field("ADDED_PATTERNS", added_patterns.as_str()));
    status.push(field("REMOVED_PATTERNS", removed_patterns.as_str()));
    status.push(field("ADDED_PACKAGES", added_packages.as_str()));
    status.push(field("REMOVED_PACKAGES", removed_packages.as_str()));
    assert(texts(status@) =~= status_lines(
        date@,
        product@,
        version_id@,
        role@,
        base_digest@,
        system_digest@,
        packages_user@,
        inst_role@,
        inst_system@,
    ));
    string_of(&join_texts(&status, "\n"))
}

/// The text of the status report, from the texts of the two manifests: the
/// report holds the digest of each.
pub fn create_status_file(
    date: &str,
    product: &str,
    version_id: &str,
    role: &str,
    base_manifest: &str,
    system_manifest: &str,
    packages_user: &Installation,
    inst_role: &Installation,
    inst_system: &Installation,
) -> (r: String)
    ensures
        r@ == joined(
            status_lines(
                date@,
                product@,
                version_id@,
                role@,
                digest_text(base_manifest@),
                digest_text(system_manifest@),
                packages_user@,
                inst_role@,
                inst_system@,
            ),
            "\n"@,
        ),
{
    let base_digest = manifest_digest(base_manifest);
    let system_digest = manifest_digest(system_manifest);
    status_document(
        date,
        product,
        version_id,
        role,
        base_digest.as_str(),
        system_digest.as_str(),
        packages_user,
        inst_role,
        inst_system,
    )
}

} // verus!
