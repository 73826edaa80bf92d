//! Roles from configuration files, and configuration files from roles.

use crate::ini::{ini_parse, parse_document, DocumentView, IniDocument};
use crate::roles::{default_name, ReferenceInstallation, ReferenceView, Roles};
use crate::text::{
    append_chars, append_str, chars_of, chars_of_all, is_word, join_texts, joined,
    lemma_words_of_joined, same_chars, split_whitespace, string_of, strings, strings_of_all,
    words,
};
use vstd::prelude::*;

verus! {

/// Why a configuration could not be loaded.
#[derive(Debug)]
pub enum ConfigError {
    /// The text is not in INI form; the parser's complaint.
    Ini(String),
    /// The product definition is not XML that can be read.
    Xml,
    /// The document lacks a part that it must have; the part's name.
    Missing(String),
    /// A search pattern could not be compiled.
    Pattern,
}

/// The list that `key` gives in `section`: the words of its value, and
/// nothing where the key is missing or has no value.
pub open spec fn list_of(doc: DocumentView, section: Seq<char>, key: Seq<char>) -> Seq<Seq<char>> {
    match IniDocument::value(doc, section, key) {
        Some(v) => words(v),
        None => Seq::empty(),
    }
}

/// What the section of a role prescribes.
pub open spec fn reference_of(doc: DocumentView, section: Seq<char>) -> ReferenceView {
    ReferenceView {
        patterns: list_of(doc, section, "patterns"@),
        packages: list_of(doc, section, "packages"@),
        patterns_opt: list_of(doc, section, "patterns_opt"@),
        packages_opt: list_of(doc, section, "packages_opt"@),
    }
}

/// The roles of a configuration: one for each section, and the role
/// `default` whether the document has a section for it or not.
pub open spec fn roles_of(doc: DocumentView) -> Map<Seq<char>, ReferenceView> {
    Map::new(
        |k: Seq<char>| k == default_name() || doc.contains_key(k),
        |k: Seq<char>| reference_of(doc, k),
    )
}

/// The texts one after the other.
pub open spec fn concatenated(sources: Seq<Seq<char>>) -> Seq<char> {
    joined(sources, Seq::empty())
}

fn list_from(cfg: &IniDocument, section: &str, key: &str) -> (r: Vec<String>)
    requires
        cfg.wf(),
    ensures
        strings(r@) == list_of(cfg@, section@, key@),
{
    match cfg.get(section, key) {
        Some(value) => {
            let chars = chars_of(value.as_str());
            strings_of_all(&split_whitespace(&chars))
        },
        None => {
            let r: Vec<String> = Vec::new();
            assert(strings(r@) =~= Seq::<Seq<char>>::empty());
            r
        },
    }
}

impl ReferenceInstallation {
    /// What the section `section` of a configuration prescribes: for each
    /// of `patterns`, `packages`, `patterns_opt` and `packages_opt` the words
    /// of its value.
    pub fn from_ini(cfg: &IniDocument, section: &str) -> (r: ReferenceInstallation)
        requires
            cfg.wf(),
        ensures
            r@ == reference_of(cfg@, section@),
    {
        ReferenceInstallation {
            patterns: list_from(cfg, section, "patterns"),
            packages: list_from(cfg, section, "packages"),
            patterns_opt: list_from(cfg, section, "patterns_opt"),
            packages_opt: list_from(cfg, section, "packages_opt"),
        }
    }
}

impl Roles {
    /// The roles of a parsed configuration.
    pub fn from_document(cfg: &IniDocument) -> (r: Roles)
        requires
            cfg.wf(),
        ensures
            r.wf(),
            r@ == roles_of(cfg@),
    {
        let ghost names = cfg.names();
        proof {
            cfg.lemma_names();
        }
        let mut roles = Roles::new();
        roles.insert(String::from_str("default"), ReferenceInstallation::from_ini(cfg, "default"));
        let default = chars_of("default");
        let mut i: usize = 0;
        assert(roles@ =~= Map::new(
            |k: Seq<char>| k == default_name() || names.take(0).contains(k),
            |k: Seq<char>| reference_of(cfg@, k),
        ));
        let n = cfg.len();
        while i < n
            invariant
                i <= n,
                n == names.len(),
                cfg.wf(),
                names == cfg.names(),
                default@ == default_name(),
                roles.wf(),
                roles@ == Map::new(
                    |k: Seq<char>| k == default_name() || names.take(i as int).contains(k),
                    |k: Seq<char>| reference_of(cfg@, k),
                ),
            decreases n - i,
        {
            let section = cfg.name(i);
            let ghost name = names[i as int];
            assert(section@ == name);
            let ghost before = roles@;
            let section_chars = chars_of(section.as_str());
            if !same_chars(&section_chars, &default) {
                let installation = ReferenceInstallation::from_ini(cfg, section.as_str());
                roles.insert(section.clone(), installation);
            }
            proof {
                let shorter = names.take(i as int);
                let longer = names.take(i + 1);
                assert(longer =~= shorter.push(name));
                let goal = Map::new(
                    |k: Seq<char>| k == default_name() || names.take(i + 1).contains(k),
                    |k: Seq<char>| reference_of(cfg@, k),
                );
                assert forall|k: Seq<char>| roles@.contains_key(k) <==> goal.contains_key(k) by {
                    if shorter.contains(k) {
                        let p = shorter.index_of(k);
                        assert(longer[p] == k);
                    }
                    if longer.contains(k) {
                        let p = longer.index_of(k);
                        if p < i {
                            assert(shorter[p] == k);
                        }
                    }
                    if k == name {
                        assert(longer[i as int] == k);
                    }
                }
                assert forall|k: Seq<char>| roles@.contains_key(k) implies roles@[k] == goal[k] by {
                    assert(goal.contains_key(k));
                    assert(goal[k] == reference_of(cfg@, k));
                    if name == default_name() {
                        assert(roles@ == before);
                        assert(before.contains_key(k));
                        assert(before[k] == reference_of(cfg@, k));
                    } else if k != name {
                        assert(before.contains_key(k));
                        assert(before[k] == reference_of(cfg@, k));
                    } else {
                        assert(roles@[k] == reference_of(cfg@, name));
                    }
                }
                assert(roles@ =~= goal);
            }
            i += 1;
        }
        proof {
            assert(names.take(i as int) =~= names);
            assert(roles@ =~= roles_of(cfg@));
        }
        roles
    }

    /// The roles that the texts of one or more configuration files define.
    /// The texts are put one after the other before they are parsed, so a
    /// later text overrides an earlier one key by key.
    pub fn from_config(sources: &Vec<String>) -> (r: Result<Roles, ConfigError>)
        ensures
            match ini_parse(concatenated(strings(sources@))) {
                Ok(doc) => r matches Ok(roles) && roles.wf() && roles@ == roles_of(doc),
                Err(why) => r matches Err(ConfigError::Ini(e)) && e@ == why,
            },
    {
        let parts = chars_of_all(sources);
        let all_cfgs = string_of(&join_texts(&parts, ""));
        proof {
            reveal_strlit("");
            assert(""@ =~= Seq::<char>::empty());
        }
        match parse_document(all_cfgs.as_str()) {
            Ok(cfg) => Ok(Roles::from_document(&cfg)),
            Err(why) => Err(ConfigError::Ini(why)),
        }
    }
}

/// The line that gives `key` its list; nothing at all for an empty list.
pub open spec fn key_line(key: Seq<char>, list: Seq<Seq<char>>) -> Seq<char> {
    match written_value(list) {
        Some(value) => key + " = "@ + value + "\n"@,
        None => Seq::empty(),
    }
}

/// The section of one role, with an empty line after it.
pub open spec fn section_text(name: Seq<char>, role: ReferenceView) -> Seq<char> {
    "["@ + name + "]\n"@ + key_line("patterns"@, role.patterns) + key_line(
        "packages"@,
        role.packages,
    ) + key_line("patterns_opt"@, role.patterns_opt) + key_line("packages_opt"@, role.packages_opt)
        + "\n"@
}

/// The sections of the named roles, in the order of the names.
pub open spec fn config_text(names: Seq<Seq<char>>, roles: Map<Seq<char>, ReferenceView>) -> Seq<
    char,
>
    decreases names.len(),
{
    if names.len() == 0 {
        Seq::empty()
    } else {
        config_text(names.drop_last(), roles) + section_text(names.last(), roles[names.last()])
    }
}

/// The value that `key_line` writes for a list: the words with a blank
/// between each two, and no value at all for an empty list.
pub open spec fn written_value(list: Seq<Seq<char>>) -> Option<Seq<char>> {
    if list.len() == 0 {
        None
    } else {
        Some(joined(list, " "@))
    }
}

/// Every entry of every list is a word.
pub open spec fn made_of_words(role: ReferenceView) -> bool {
    &&& forall|i: int| 0 <= i < role.patterns.len() ==> is_word(#[trigger] role.patterns[i])
    &&& forall|i: int| 0 <= i < role.packages.len() ==> is_word(#[trigger] role.packages[i])
    &&& forall|i: int| 0 <= i < role.patterns_opt.len() ==> is_word(#[trigger] role.patterns_opt[i])
    &&& forall|i: int| 0 <= i < role.packages_opt.len() ==> is_word(#[trigger] role.packages_opt[i])
}

/// The document holds what `roles_to_config` writes for the roles: a section
/// for each role, and in it for each list the value written for it.
pub open spec fn holds_written(doc: DocumentView, roles: Map<Seq<char>, ReferenceView>) -> bool {
    &&& forall|k: Seq<char>| doc.contains_key(k) <==> roles.contains_key(k)
    &&& forall|k: Seq<char>| #[trigger]
        roles.contains_key(k) ==> {
            &&& IniDocument::value(doc, k, "patterns"@) == written_value(roles[k].patterns)
            &&& IniDocument::value(doc, k, "packages"@) == written_value(roles[k].packages)
            &&& IniDocument::value(doc, k, "patterns_opt"@) == written_value(roles[k].patterns_opt)
            &&& IniDocument::value(doc, k, "packages_opt"@) == written_value(roles[k].packages_opt)
        }
}

/// A list of words is read back from its written value as it was.
pub proof fn lemma_list_round_trip(
    doc: DocumentView,
    section: Seq<char>,
    key: Seq<char>,
    list: Seq<Seq<char>>,
)
    requires
        forall|i: int| 0 <= i < list.len() ==> is_word(#[trigger] list[i]),
        IniDocument::value(doc, section, key) == written_value(list),
    ensures
        list_of(doc, section, key) == list,
{
    lemma_words_of_joined(list);
    if list.len() == 0 {
        assert(list =~= Seq::<Seq<char>>::empty());
    }
}

/// Roles that are written as a configuration are read back as they were,
/// where the parser hands back what was written: the lists have to be made
/// of words, and the role `default` has to be among the roles, since reading
/// always gives that role.
pub proof fn lemma_roles_round_trip(doc: DocumentView, roles: Map<Seq<char>, ReferenceView>)
    requires
        roles.contains_key(default_name()),
        forall|k: Seq<char>| #[trigger] roles.contains_key(k) ==> made_of_words(roles[k]),
        holds_written(doc, roles),
    ensures
        roles_of(doc) == roles,
{
    assert forall|k: Seq<char>| #[trigger] roles.contains_key(k) implies reference_of(doc, k)
        == roles[k] by {
        assert(made_of_words(roles[k]));
        lemma_list_round_trip(doc, k, "patterns"@, roles[k].patterns);
        lemma_list_round_trip(doc, k, "packages"@, roles[k].packages);
        lemma_list_round_trip(doc, k, "patterns_opt"@, roles[k].patterns_opt);
        lemma_list_round_trip(doc, k, "packages_opt"@, roles[k].packages_opt);
    }
    assert(roles_of(doc) =~= roles);
}

fn append_key_line(out: &mut Vec<char>, key: &str, list: &Vec<String>)
    ensures
        final(out)@ == old(out)@ + key_line(key@, strings(list@)),
{
    if list.len() != 0 {
        append_str(out, key);
        append_str(out, " = ");
        let items = chars_of_all(list);
        let line = join_texts(&items, " ");
        append_chars(out, &line);
        append_str(out, "\n");
    }
    assert(out@ =~= old(out)@ + key_line(key@, strings(list@)));
}

/// Writes the roles as a configuration file: a section for each role, the
/// roles in dictionary order of their names, and in each section a line for
/// each list that is not empty.
pub fn roles_to_config(roles: &Roles) -> (r: String)
    requires
        roles.wf(),
    ensures
        r@ == config_text(crate::sorting::listing(roles@.dom()), roles@),
{
    let ghost names = roles.names();
    proof {
        roles.lemma_names();
    }
    let mut out: Vec<char> = Vec::new();
    let mut i: usize = 0;
    assert(names.take(0) =~= Seq::<Seq<char>>::empty());
    let n = roles.len();
    while i < n
        invariant
            i <= n,
            n == names.len(),
            roles.wf(),
            names == roles.names(),
            out@ == config_text(names.take(i as int), roles@),
        decreases n - i,
    {
        let ghost shown = out@;
        let installation = roles.installation(i);
        append_str(&mut out, "[");
        append_str(&mut out, roles.name(i).as_str());
        append_str(&mut out, "]\n");
        append_key_line(&mut out, "patterns", &installation.patterns);
        append_key_line(&mut out, "packages", &installation.packages);
        append_key_line(&mut out, "patterns_opt", &installation.patterns_opt);
        append_key_line(&mut out, "packages_opt", &installation.packages_opt);
        append_str(&mut out, "\n");
        proof {
            let t = names.take(i + 1);
            assert(t.drop_last() =~= names.take(i as int));
            assert(t.last() == names[i as int]);
            assert(out@ =~= shown + section_text(names[i as int], roles@[names[i as int]]));
        }
        i += 1;
    }
    assert(names.take(i as int) =~= names);
    string_of(&out)
}

} // verus!
