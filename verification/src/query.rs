//! The query that asks the dependency solver what a role should install.
//!
//! The text is the whole protocol with the solver: one `system` line, one
//! `repo` line for each repository, the solver flags if there are any, and
//! one `job` line for each product, pattern and package to install.

use crate::config::ConfigError;
use crate::text::{
    append_signed_decimal, append_str, chars_of, join_texts, joined, signed_decimal, string_of,
    strings, texts,
};
use vstd::prelude::*;

verus! {

/// An enabled repository: its alias and its priority, where a lower number
/// takes precedence.
#[derive(Debug)]
pub struct ZypperRepo {
    pub alias: String,
    pub priority: i64,
}

/// What a `ZypperRepo` holds.
pub struct ZypperRepoView {
    pub alias: Seq<char>,
    pub priority: int,
}

impl View for ZypperRepo {
    type V = ZypperRepoView;

    open spec fn view(&self) -> ZypperRepoView {
        ZypperRepoView { alias: self.alias@, priority: self.priority as int }
    }
}

/// The views of a sequence of repositories.
pub open spec fn repo_views(v: Seq<ZypperRepo>) -> Seq<ZypperRepoView> {
    v.map_values(|r: ZypperRepo| r@)
}

/// The settings of the package manager that the solver has to follow.
#[derive(Clone, Copy, Debug)]
pub struct ZypperConf {
    /// Install only what is required, nothing that is merely recommended.
    pub only_requires: bool,
    /// Allow a package to change its vendor.
    pub allow_vendor_change: bool,
}

/// The regular-expression engine's type for a pattern that it refuses.
#[verifier::external_type_specification]
#[verifier::external_body]
pub struct ExRegexError(regex::Error);

/// Whether the regular expression `pattern` matches somewhere in
/// `haystack`; nothing where the pattern is no regular expression.
pub uninterp spec fn regex_search(pattern: Seq<char>, haystack: Seq<char>) -> Option<bool>;

/// Searches `haystack` for a match of `pattern`.
///
/// Trusted: `regex::Regex::new` compiles a pattern or refuses it, and
/// `regex::Regex::is_match` says whether the compiled pattern matches
/// somewhere in a text; both depend on the pattern and the text alone.
#[verifier::external_body]
fn search(pattern: &str, haystack: &str) -> (r: Result<bool, regex::Error>)
    ensures
        match r {
            Ok(found) => regex_search(pattern@, haystack@) == Some(found),
            Err(_) => regex_search(pattern@, haystack@) is None,
        },
{
    Ok(regex::Regex::new(pattern)?.is_match(haystack))
}

/// The pattern of a line that switches on `solver.onlyRequires`.
pub open spec fn only_requires_pattern() -> Seq<char> {
    "(?m)^solver.onlyRequires\\s*=\\s*true"@
}

/// The pattern of a line that switches on `solver.allowVendorChange`.
pub open spec fn allow_vendor_change_pattern() -> Seq<char> {
    "(?m)^solver.allowVendorChange\\s*=\\s*true"@
}

impl ZypperConf {
    /// The settings that the text of the package manager's configuration
    /// makes: each of the two is on where a line of the text sets it to
    /// `true`.
    pub fn new(conf: &str) -> (r: Result<ZypperConf, ConfigError>)
        ensures
            match (
                regex_search(only_requires_pattern(), conf@),
                regex_search(allow_vendor_change_pattern(), conf@),
            ) {
                (Some(only_requires), Some(allow_vendor_change)) => r == Ok::<
                    ZypperConf,
                    ConfigError,
                >(ZypperConf { only_requires, allow_vendor_change }),
                _ => r == Err::<ZypperConf, ConfigError>(ConfigError::Pattern),
            },
    {
        let only_requires = match search("(?m)^solver.onlyRequires\\s*=\\s*true", conf) {
            Ok(found) => found,
            Err(_) => {
                return Err(ConfigError::Pattern);
            },
        };
        let allow_vendor_change = match search(
            "(?m)^solver.allowVendorChange\\s*=\\s*true",
            conf,
        ) {
            Ok(found) => found,
            Err(_) => {
                return Err(ConfigError::Pattern);
            },
        };
        Ok(ZypperConf { only_requires, allow_vendor_change })
    }
}

/// The line that declares one repository.
pub open spec fn repo_line(repo: ZypperRepoView) -> Seq<char> {
    "repo "@ + repo.alias + " "@ + signed_decimal(repo.priority) + " solv /var/cache/zypp/solv/"@
        + repo.alias + "/solv\n"@
}

/// The lines that declare the repositories, in the order given.
pub open spec fn repo_lines(repos: Seq<ZypperRepoView>) -> Seq<char>
    decreases repos.len(),
{
    if repos.len() == 0 {
        Seq::empty()
    } else {
        repo_lines(repos.drop_last()) + repo_line(repos.last())
    }
}

/// The line of solver flags: the word `solverflags`, a blank and a flag for
/// each setting that is on, and a line feed right behind the last flag;
/// nothing at all where no flag is set.
pub open spec fn flags_line(conf: ZypperConf) -> Seq<char> {
    if !conf.only_requires && !conf.allow_vendor_change {
        Seq::empty()
    } else {
        "solverflags"@ + (if conf.only_requires {
            " ignorerecommended"@
        } else {
            Seq::empty()
        }) + (if conf.allow_vendor_change {
            " allowvendorchange"@
        } else {
            Seq::empty()
        }) + "\n"@
    }
}

/// Each item with `prefix` before it.
pub open spec fn prefixed(prefix: Seq<char>, items: Seq<Seq<char>>) -> Seq<Seq<char>> {
    items.map_values(|s: Seq<char>| prefix + s)
}

/// The jobs: products first, then patterns, then packages.
pub open spec fn job_lines(
    products: Seq<Seq<char>>,
    patterns: Seq<Seq<char>>,
    packages: Seq<Seq<char>>,
) -> Seq<Seq<char>> {
    prefixed("job install name product:"@, products) + prefixed(
        "job install name pattern:"@,
        patterns,
    ) + prefixed("job install name "@, packages)
}

/// The text of the query.
pub open spec fn testcase_text(
    arch: Seq<char>,
    repos: Seq<ZypperRepoView>,
    products: Seq<Seq<char>>,
    patterns: Seq<Seq<char>>,
    packages: Seq<Seq<char>>,
    conf: ZypperConf,
) -> Seq<char> {
    "system "@ + arch + " rpm\n\n"@ + repo_lines(repos) + "\n"@ + flags_line(conf) + joined(
        job_lines(products, patterns, packages),
        "\n"@,
    )
}

fn push_prefixed(jobs: &mut Vec<Vec<char>>, prefix: &str, items: &Vec<String>)
    ensures
        texts(final(jobs)@) == texts(old(jobs)@) + prefixed(prefix@, strings(items@)),
{
    let ghost start = texts(jobs@);
    let ghost all = prefixed(prefix@, strings(items@));
    let mut i: usize = 0;
    assert(start + all.take(0) =~= start);
    while i < items.len()
        invariant
            i <= items.len(),
            all == prefixed(prefix@, strings(items@)),
            texts(jobs@) == start + all.take(i as int),
        decreases items.len() - i,
    {
        let mut line = chars_of(prefix);
        append_str(&mut line, items[i].as_str());
        let ghost shown = texts(jobs@);
        jobs.push(line);
        proof {
            assert(texts(jobs@) =~= shown.push(prefix@ + items@[i as int]@));
            assert(all.take(i + 1) =~= all.take(i as int).push(prefix@ + items@[i as int]@));
            assert(texts(jobs@) =~= start + all.take(i + 1));
        }
        i += 1;
    }
    assert(all.take(i as int) =~= all);
}

/// Builds the query for the solver: the system's architecture, the
/// repositories in the order given, the flags that `conf` sets, and an
/// install job for each product, pattern and package.
pub fn testcase(
    arch: &str,
    repo_alias: &Vec<ZypperRepo>,
    products: &Vec<String>,
    patterns: &Vec<String>,
    packages: &Vec<String>,
    conf: &ZypperConf,
) -> (r: String)
    ensures
        r@ == testcase_text(
            arch@,
            repo_views(repo_alias@),
            strings(products@),
            strings(patterns@),
            strings(packages@),
            *conf,
        ),
{
    let mut out = chars_of("system ");
    append_str(&mut out, arch);
    append_str(&mut out, " rpm\n\n");
    let ghost head = out@;
    let ghost repos = repo_views(repo_alias@);
    let mut i: usize = 0;
    assert(head + repo_lines(repos.take(0)) =~= head);
    while i < repo_alias.len()
        invariant
            i <= repo_alias.len(),
            repos == repo_views(repo_alias@),
            out@ == head + repo_lines(repos.take(i as int)),
        decreases repo_alias.len() - i,
    {
        let ghost shown = out@;
        let repo = &repo_alias[i];
        append_str(&mut out, "repo ");
        append_str(&mut out, repo.alias.as_str());
        append_str(&mut out, " ");
        append_signed_decimal(&mut out, repo.priority);
        append_str(&mut out, " solv /var/cache/zypp/solv/");
        append_str(&mut out, repo.alias.as_str());
        append_str(&mut out, "/solv\n");
        proof {
            let t = repos.take(i + 1);
            assert(t.drop_last() =~= repos.take(i as int));
            assert(t.last() == repo_alias@[i as int]@);
            assert(out@ =~= shown + repo_line(t.last()));
            assert(out@ =~= head + repo_lines(t));
        }
        i += 1;
    }
    assert(repos.take(i as int) =~= repos);
    append_str(&mut out, "\n");
    let ghost before_flags = out@;
    if conf.only_requires || conf.allow_vendor_change {
        append_str(&mut out, "solverflags");
        if conf.only_requires {
            append_str(&mut out, " ignorerecommended");
        }
        if conf.allow_vendor_change {
            append_str(&mut out, " allowvendorchange");
        }
        append_str(&mut out, "\n");
    }
    assert(out@ =~= before_flags + flags_line(*conf));
    let mut jobs: Vec<Vec<char>> = Vec::new();
    assert(texts(jobs@) =~= Seq::<Seq<char>>::empty());
    push_prefixed(&mut jobs, "job install name product:", products);
    push_prefixed(&mut jobs, "job install name pattern:", patterns);
    push_prefixed(&mut jobs, "job install name ", packages);
    assert(texts(jobs@) =~= job_lines(strings(products@), strings(patterns@), strings(packages@)));
    let job_text = join_texts(&jobs, "\n");
    crate::text::append_chars(&mut out, &job_text);
    assert(out@ =~= testcase_text(
        arch@,
        repos,
        strings(products@),
        strings(patterns@),
        strings(packages@),
        *conf,
    ));
    string_of(&out)
}

} // verus!
