//! The repositories that the solver is to use: those that are enabled and
//! cached, one for each URL, by ascending priority.

use crate::config::ConfigError;
use crate::ini::{
    ini_bool, ini_int, ini_parse, parse_document, value_as_bool, value_as_int, DocumentView,
    IniDocument,
};
use crate::matcher::contains_text;
use crate::query::{repo_views, ZypperRepo, ZypperRepoView};
use crate::text::{chars_of, texts};
use vstd::prelude::*;

verus! {

/// What a repository file says of one repository, and whether the solver's
/// cache of the repository is there.
#[derive(Debug)]
pub struct RepoDefinition {
    pub alias: String,
    /// The key `priority`, if the file gives a number for it.
    pub priority: Option<i64>,
    /// The key `enabled`, if the file gives a truth value for it.
    pub enabled: Option<bool>,
    /// The key `baseurl`, if the file gives it.
    pub baseurl: Option<String>,
    /// Whether the solver has a cache of the repository.
    pub cached: bool,
}

/// A repository definition with the defaults filled in: priority 99,
/// enabled, and an empty URL.
pub struct RepoDefinitionView {
    pub alias: Seq<char>,
    pub priority: int,
    pub enabled: bool,
    pub baseurl: Seq<char>,
    pub cached: bool,
}

impl View for RepoDefinition {
    type V = RepoDefinitionView;

    open spec fn view(&self) -> RepoDefinitionView {
        RepoDefinitionView {
            alias: self.alias@,
            priority: match self.priority {
                Some(p) => p as int,
                None => 99,
            },
            enabled: match self.enabled {
                Some(e) => e,
                None => true,
            },
            baseurl: match self.baseurl {
                Some(u) => u@,
                None => Seq::empty(),
            },
            cached: self.cached,
        }
    }
}

/// The views of a sequence of repository definitions.
pub open spec fn definition_views(v: Seq<RepoDefinition>) -> Seq<RepoDefinitionView> {
    v.map_values(|d: RepoDefinition| d@)
}

/// The URLs of a sequence of definitions.
pub open spec fn urls_of(s: Seq<RepoDefinitionView>) -> Seq<Seq<char>> {
    s.map_values(|d: RepoDefinitionView| d.baseurl)
}

/// The definitions that count: cached and enabled, and of several with one
/// URL the first.
pub open spec fn selected(definitions: Seq<RepoDefinitionView>) -> Seq<RepoDefinitionView>
    decreases definitions.len(),
{
    if definitions.len() == 0 {
        Seq::empty()
    } else {
        let before = selected(definitions.drop_last());
        let d = definitions.last();
        if d.cached && d.enabled && !urls_of(before).contains(d.baseurl) {
            before.push(d)
        } else {
            before
        }
    }
}

/// The repository that a definition stands for.
pub open spec fn repo_of(d: RepoDefinitionView) -> ZypperRepoView {
    ZypperRepoView { alias: d.alias, priority: d.priority }
}

/// `repo` put into a sequence ordered by priority: behind every repository
/// whose priority is at most its own.
pub open spec fn inserted(ordered: Seq<ZypperRepoView>, repo: ZypperRepoView) -> Seq<
    ZypperRepoView,
>
    decreases ordered.len(),
{
    if ordered.len() == 0 {
        seq![repo]
    } else if ordered.last().priority <= repo.priority {
        ordered.push(repo)
    } else {
        inserted(ordered.drop_last(), repo).push(ordered.last())
    }
}

/// The repositories by ascending priority; those of one priority keep the
/// order in which they came.
pub open spec fn by_priority(repos: Seq<ZypperRepoView>) -> Seq<ZypperRepoView>
    decreases repos.len(),
{
    if repos.len() == 0 {
        Seq::empty()
    } else {
        inserted(by_priority(repos.drop_last()), repos.last())
    }
}

/// The priorities do not fall from one repository to the next.
pub open spec fn priorities_ascend(repos: Seq<ZypperRepoView>) -> bool {
    forall|i: int, j: int|
        0 <= i < j < repos.len() ==> (#[trigger] repos[i]).priority <= (#[trigger] repos[j]).priority
}

/// Putting a repository into an ordered sequence keeps it ordered and adds
/// just that repository.
pub proof fn lemma_inserted(ordered: Seq<ZypperRepoView>, repo: ZypperRepoView)
    requires
        priorities_ascend(ordered),
    ensures
        priorities_ascend(inserted(ordered, repo)),
        inserted(ordered, repo).to_multiset() == ordered.to_multiset().insert(repo),
        inserted(ordered, repo).len() == ordered.len() + 1,
    decreases ordered.len(),
{
    broadcast use {vstd::seq_lib::to_multiset_build, vstd::seq_lib::to_multiset_contains};

    if ordered.len() == 0 {
        assert(seq![repo] =~= ordered.push(repo));
    } else if ordered.last().priority > repo.priority {
        let front = ordered.drop_last();
        let last = ordered.last();
        assert(priorities_ascend(front));
        lemma_inserted(front, repo);
        let mid = inserted(front, repo);
        let out = mid.push(last);
        assert(ordered =~= front.push(last));
        assert(out.to_multiset() =~= ordered.to_multiset().insert(repo));
        assert forall|i: int, j: int| 0 <= i < j < out.len() implies (#[trigger] out[i]).priority
            <= (#[trigger] out[j]).priority by {
            if j == out.len() - 1 && mid[i] != repo {
                assert(mid.contains(mid[i]));
                assert(mid.to_multiset().count(mid[i]) > 0);
                assert(front.to_multiset().count(mid[i]) > 0);
                assert(front.contains(mid[i]));
                let k = front.index_of(mid[i]);
                assert(ordered[k].priority <= ordered[ordered.len() - 1].priority);
            }
        }
    }
}

/// Ordering by priority rearranges the repositories, and the priorities
/// ascend in what comes out.
pub proof fn lemma_by_priority(repos: Seq<ZypperRepoView>)
    ensures
        priorities_ascend(by_priority(repos)),
        by_priority(repos).to_multiset() == repos.to_multiset(),
        by_priority(repos).len() == repos.len(),
    decreases repos.len(),
{
    broadcast use vstd::seq_lib::to_multiset_build;

    if repos.len() == 0 {
        assert(by_priority(repos) =~= repos);
    } else {
        lemma_by_priority(repos.drop_last());
        lemma_inserted(by_priority(repos.drop_last()), repos.last());
        assert(repos =~= repos.drop_last().push(repos.last()));
        assert(repos.to_multiset() =~= repos.drop_last().to_multiset().insert(repos.last()));
    }
}

/// Puts `repo` into `ordered`, behind every repository whose priority is at
/// most its own.
pub fn insert_by_priority(ordered: &mut Vec<ZypperRepo>, repo: ZypperRepo)
    ensures
        repo_views(final(ordered)@) == inserted(repo_views(old(ordered)@), repo@),
{
    let ghost start = repo_views(ordered@);
    let mut k: usize = ordered.len();
    assert(start.take(k as int) =~= start);
    assert(start.skip(k as int) =~= Seq::<ZypperRepoView>::empty());
    while k > 0 && ordered[k - 1].priority > repo.priority
        invariant
            k <= ordered.len(),
            ordered@ == old(ordered)@,
            start == repo_views(ordered@),
            inserted(start, repo@) == inserted(start.take(k as int), repo@) + start.skip(k as int),
        decreases k,
    {
        proof {
            let t = start.take(k as int);
            assert(t.last() == start[k - 1]);
            assert(t.drop_last() =~= start.take(k - 1));
            assert(inserted(t, repo@) == inserted(start.take(k - 1), repo@).push(start[k - 1]));
            assert(inserted(start.take(k - 1), repo@).push(start[k - 1]) + start.skip(k as int)
                =~= inserted(start.take(k - 1), repo@) + start.skip(k - 1));
        }
        k -= 1;
    }
    proof {
        let t = start.take(k as int);
        if k > 0 {
            assert(t.last() == start[k - 1]);
            assert(inserted(t, repo@) == t.push(repo@));
        } else {
            assert(inserted(t, repo@) =~= t.push(repo@));
        }
        assert(t.push(repo@) + start.skip(k as int) =~= start.insert(k as int, repo@));
    }
    let ghost added = repo@;
    ordered.insert(k, repo);
    assert(repo_views(ordered@) =~= start.insert(k as int, added));
}

/// The repositories for the solver: of the definitions that are cached and
/// enabled, one for each URL, by ascending priority. A definition without
/// priority has priority 99, one without `enabled` is enabled.
pub fn repo_alias(definitions: &Vec<RepoDefinition>) -> (r: Vec<ZypperRepo>)
    ensures
        repo_views(r@) == by_priority(
            selected(definition_views(definitions@)).map_values(|d: RepoDefinitionView| repo_of(d)),
        ),
        priorities_ascend(repo_views(r@)),
{
    proof {
        lemma_by_priority(
            selected(definition_views(definitions@)).map_values(|d: RepoDefinitionView| repo_of(d)),
        );
    }
    let ghost all = definition_views(definitions@);
    let ghost f = |d: RepoDefinitionView| repo_of(d);
    let mut repos: Vec<ZypperRepo> = Vec::new();
    let mut urls: Vec<Vec<char>> = Vec::new();
    let mut i: usize = 0;
    assert(all.take(0) =~= Seq::<RepoDefinitionView>::empty());
    assert(selected(all.take(0)).map_values(f) =~= Seq::<ZypperRepoView>::empty());
    assert(texts(urls@) =~= urls_of(selected(all.take(0))));
    assert(repo_views(repos@) =~= Seq::<ZypperRepoView>::empty());
    while i < definitions.len()
        invariant
            i <= definitions.len(),
            all == definition_views(definitions@),
            f == |d: RepoDefinitionView| repo_of(d),
            texts(urls@) == urls_of(selected(all.take(i as int))),
            repo_views(repos@) == by_priority(selected(all.take(i as int)).map_values(f)),
        decreases definitions.len() - i,
    {
        let definition = &definitions[i];
        let ghost chosen = selected(all.take(i as int));
        proof {
            assert(all.take(i + 1).drop_last() =~= all.take(i as int));
            assert(all.take(i + 1).last() == definition@);
        }
        let enabled = match definition.enabled {
            Some(e) => e,
            None => true,
        };
        if definition.cached && enabled {
            let url = match &definition.baseurl {
                Some(u) => chars_of(u.as_str()),
                None => Vec::new(),
            };
            assert(url@ =~= definition@.baseurl);
            if !contains_text(&urls, &url) {
                let priority = match definition.priority {
                    Some(p) => p,
                    None => 99,
                };
                let ghost shown = texts(urls@);
                urls.push(url);
                insert_by_priority(
                    &mut repos,
                    ZypperRepo { alias: definition.alias.clone(), priority },
                );
                proof {
                    let grown = chosen.push(definition@);
                    assert(selected(all.take(i + 1)) == grown);
                    assert(texts(urls@) =~= shown.push(definition@.baseurl));
                    assert(urls_of(grown) =~= urls_of(chosen).push(definition@.baseurl));
                    assert(grown.map_values(f).drop_last() =~= chosen.map_values(f));
                    assert(grown.map_values(f).last() == repo_of(definition@));
                }
            }
        }
        i += 1;
    }
    assert(all.take(i as int) =~= all);
    repos
}

/// What a parsed repository file says of the repository `alias`; whether the
/// solver has a cache of it the file does not say.
pub open spec fn definition_of(doc: DocumentView, alias: Seq<char>) -> RepoDefinitionView {
    RepoDefinitionView {
        alias,
        priority: match IniDocument::value(doc, alias, "priority"@) {
            Some(v) => match ini_int(v) {
                Some(n) => n as int,
                None => 99,
            },
            None => 99,
        },
        enabled: match IniDocument::value(doc, alias, "enabled"@) {
            Some(v) => match ini_bool(v) {
                Some(b) => b,
                None => true,
            },
            None => true,
        },
        baseurl: match IniDocument::value(doc, alias, "baseurl"@) {
            Some(v) => v,
            None => Seq::empty(),
        },
        cached: false,
    }
}

/// The definitions are those of the sections of the document, one for each
/// section.
pub open spec fn defines_sections(definitions: Seq<RepoDefinitionView>, doc: DocumentView) -> bool {
    &&& forall|i: int|
        0 <= i < definitions.len() ==> doc.contains_key((#[trigger] definitions[i]).alias)
            && definitions[i] == definition_of(doc, definitions[i].alias)
    &&& forall|i: int, j: int|
        0 <= i < j < definitions.len() ==> (#[trigger] definitions[i]).alias
            != (#[trigger] definitions[j]).alias
    &&& forall|k: Seq<char>| #[trigger]
        doc.contains_key(k) ==> exists|i: int|
            0 <= i < definitions.len() && (#[trigger] definitions[i]).alias == k
}

/// What a parsed repository file says of the repository `alias`.
pub fn definition_from(doc: &IniDocument, alias: &str) -> (r: RepoDefinition)
    requires
        doc.wf(),
    ensures
        r@ == definition_of(doc@, alias@),
{
    let priority = match doc.get(alias, "priority") {
        Some(v) => value_as_int(v.as_str()),
        None => None,
    };
    let enabled = match doc.get(alias, "enabled") {
        Some(v) => value_as_bool(v.as_str()),
        None => None,
    };
    RepoDefinition {
        alias: String::from_str(alias),
        priority,
        enabled,
        baseurl: doc.get(alias, "baseurl"),
        cached: false,
    }
}

/// The repositories that a parsed repository file defines, one for each of
/// its sections.
pub fn definitions_from(doc: &IniDocument) -> (r: Vec<RepoDefinition>)
    requires
        doc.wf(),
    ensures
        defines_sections(definition_views(r@), doc@),
{
    let ghost names = doc.names();
    proof {
        doc.lemma_names();
    }
    let mut out: Vec<RepoDefinition> = Vec::new();
    let n = doc.len();
    let mut i: usize = 0;
    while i < n
        invariant
            i <= n,
            n == names.len(),
            doc.wf(),
            names == doc.names(),
            out.len() == i,
            forall|k: int|
                0 <= k < i ==> (#[trigger] definition_views(out@)[k]) == definition_of(
                    doc@,
                    names[k],
                ),
        decreases n - i,
    {
        let ghost shown = definition_views(out@);
        let definition = definition_from(doc, doc.name(i).as_str());
        let ghost added = definition@;
        out.push(definition);
        assert(definition_views(out@) =~= shown.push(added));
        i += 1;
    }
    proof {
        let all = definition_views(out@);
        assert forall|i: int| 0 <= i < all.len() implies doc@.contains_key((#[trigger] all[i]).alias)
            && all[i] == definition_of(doc@, all[i].alias) by {
            assert(names.contains(names[i]));
        }
        assert forall|k: Seq<char>| #[trigger] doc@.contains_key(k) implies exists|i: int|
            0 <= i < all.len() && (#[trigger] all[i]).alias == k by {
            assert(names.contains(k));
            let at = names.index_of(k);
            assert(all[at].alias == k);
        }
    }
    out
}

/// The repositories that the text of a repository file defines, one for
/// each of its sections, in no particular order. Whether the solver has a
/// cache of a repository is not in the file: `cached` is off in each.
pub fn repo_definitions(text: &str) -> (r: Result<Vec<RepoDefinition>, ConfigError>)
    ensures
        match ini_parse(text@) {
            Ok(doc) => r matches Ok(definitions) && defines_sections(
                definition_views(definitions@),
                doc,
            ),
            Err(why) => r matches Err(ConfigError::Ini(e)) && e@ == why,
        },
{
    match parse_document(text) {
        Ok(doc) => Ok(definitions_from(&doc)),
        Err(why) => Err(ConfigError::Ini(why)),
    }
}

} // verus!
