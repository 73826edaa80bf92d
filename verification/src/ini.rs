//! Configuration documents in INI form: sections of keys, each key with a
//! value or without one.

use crate::text::{chars_of, same_chars};
use vstd::prelude::*;

verus! {

/// One key of a section, with its value if it has one.
#[derive(Debug)]
pub struct IniEntry {
    pub key: String,
    pub value: Option<String>,
}

/// One section: its name and its keys.
#[derive(Debug)]
pub struct IniSection {
    pub name: String,
    pub entries: Vec<IniEntry>,
}

/// The keys of a section with their values.
pub type SectionView = Map<Seq<char>, Option<Seq<char>>>;

/// The sections of a document by name.
pub type DocumentView = Map<Seq<char>, SectionView>;

/// The value of an entry as characters.
pub open spec fn value_view(value: Option<String>) -> Option<Seq<char>> {
    match value {
        Some(s) => Some(s@),
        None => None,
    }
}

/// The keys of a sequence of entries, in order.
pub open spec fn entry_keys(entries: Seq<IniEntry>) -> Seq<Seq<char>> {
    entries.map_values(|e: IniEntry| e.key@)
}

/// The names of a sequence of sections, in order.
pub open spec fn section_names(sections: Seq<IniSection>) -> Seq<Seq<char>> {
    sections.map_values(|s: IniSection| s.name@)
}

/// The mapping that the entries of a section stand for.
pub open spec fn entries_map(entries: Seq<IniEntry>) -> SectionView {
    Map::new(
        |k: Seq<char>| entry_keys(entries).contains(k),
        |k: Seq<char>| value_view(entries[entry_keys(entries).index_of(k)].value),
    )
}

/// The mapping that the sections of a document stand for.
pub open spec fn sections_map(sections: Seq<IniSection>) -> DocumentView {
    Map::new(
        |k: Seq<char>| section_names(sections).contains(k),
        |k: Seq<char>| entries_map(sections[section_names(sections).index_of(k)].entries@),
    )
}

/// No section name occurs twice, and in no section a key occurs twice.
pub open spec fn sections_wf(sections: Seq<IniSection>) -> bool {
    &&& section_names(sections).no_duplicates()
    &&& forall|i: int|
        0 <= i < sections.len() ==> entry_keys((#[trigger] sections[i]).entries@).no_duplicates()
}

/// A parsed configuration document.
#[derive(Debug)]
pub struct IniDocument {
    sections: Vec<IniSection>,
}

impl View for IniDocument {
    type V = DocumentView;

    closed spec fn view(&self) -> DocumentView {
        sections_map(self.sections@)
    }
}

/// What the INI parser makes of a text: the sections with their keys, or the
/// parser's complaint.
pub uninterp spec fn ini_parse(text: Seq<char>) -> Result<DocumentView, Seq<char>>;

/// Parses `text` with a parser in its default settings.
///
/// Trusted: `configparser::ini::Ini::read` on an `Ini::new()` gives, for a
/// text, always the same map of sections or the same complaint; the sections
/// of a map have distinct names and the keys of a section are distinct.
#[verifier::external_body]
pub(crate) fn parse_document(text: &str) -> (r: Result<IniDocument, String>)
    ensures
        match r {
            Ok(doc) => doc.wf() && ini_parse(text@) == Ok::<DocumentView, Seq<char>>(doc@),
            Err(why) => ini_parse(text@) == Err::<DocumentView, Seq<char>>(why@),
        },
{
    let mut parser = configparser::ini::Ini::new();
    let map = parser.read(text.to_string())?;
    let section = |(name, keys): (String, std::collections::HashMap<String, Option<String>>)| {
        IniSection {
            name,
            entries: keys.into_iter().map(|(key, value)| IniEntry { key, value }).collect(),
        }
    };
    Ok(IniDocument { sections: map.into_iter().map(section).collect() })
}

/// The number that a decimal digit stands for.
pub open spec fn digit_value(c: char) -> Option<nat> {
    if '0' <= c <= '9' {
        Some((c as int - '0' as int) as nat)
    } else {
        None
    }
}

/// The number that a sequence of decimal digits stands for; nothing where
/// the sequence is empty or holds anything but digits.
pub open spec fn digits_value(s: Seq<char>) -> Option<nat>
    decreases s.len(),
{
    if s.len() == 0 {
        None
    } else if s.len() == 1 {
        digit_value(s[0])
    } else {
        match (digits_value(s.drop_last()), digit_value(s.last())) {
            (Some(front), Some(last)) => Some(front * 10 + last),
            _ => None,
        }
    }
}

/// The integer that a value reads as: decimal digits, with `+` or `-` before
/// them or without a sign, and nothing else; nothing where the value is not
/// of that form or the number does not fit.
pub open spec fn ini_int(value: Seq<char>) -> Option<i64> {
    if value.len() > 0 && value[0] == '-' {
        match digits_value(value.skip(1)) {
            Some(n) => if n <= 0x8000_0000_0000_0000 {
                Some((-(n as int)) as i64)
            } else {
                None
            },
            None => None,
        }
    } else {
        let digits = if value.len() > 0 && value[0] == '+' {
            value.skip(1)
        } else {
            value
        };
        match digits_value(digits) {
            Some(n) => if n <= 0x7FFF_FFFF_FFFF_FFFF {
                Some(n as i64)
            } else {
                None
            },
            None => None,
        }
    }
}

/// The truth value that the parser reads out of a value, if it reads one.
pub uninterp spec fn ini_bool(value: Seq<char>) -> Option<bool>;

/// Reads a value as an integer.
///
/// Trusted: `configparser::ini::Ini::getint`, asked for a key that was set to
/// a value, parses the value with `str::parse::<i64>`, which takes decimal
/// digits with or without a sign before them and refuses everything else and
/// every number that does not fit.
#[verifier::external_body]
pub(crate) fn value_as_int(value: &str) -> (r: Option<i64>)
    ensures
        r == ini_int(value@),
{
    let mut parser = configparser::ini::Ini::new();
    parser.setstr("value", "of", Some(value));
    parser.getint("value", "of").unwrap_or(None)
}

/// Reads a value as a truth value, in any of the spellings that the parser
/// knows.
///
/// Trusted: `configparser::ini::Ini::getboolcoerce`, asked for a key that was
/// set to a value, gives the truth value that it takes the value for or a
/// complaint, and which of the two depends on the value alone.
#[verifier::external_body]
pub(crate) fn value_as_bool(value: &str) -> (r: Option<bool>)
    ensures
        r == ini_bool(value@),
{
    let mut parser = configparser::ini::Ini::new();
    parser.setstr("value", "of", Some(value));
    parser.getboolcoerce("value", "of").unwrap_or(None)
}

/// The place of `key` among the entries, if it is there.
fn find_key(entries: &Vec<IniEntry>, key: &Vec<char>) -> (r: Option<usize>)
    ensures
        match r {
            Some(i) => i < entries.len() && entry_keys(entries@)[i as int] == key@,
            None => !entry_keys(entries@).contains(key@),
        },
{
    let ghost keys = entry_keys(entries@);
    let mut i: usize = 0;
    while i < entries.len()
        invariant
            i <= entries.len(),
            keys == entry_keys(entries@),
            forall|k: int| 0 <= k < i ==> keys[k] != key@,
        decreases entries.len() - i,
    {
        let current = chars_of(entries[i].key.as_str());
        if same_chars(&current, key) {
            assert(keys[i as int] == key@);
            return Some(i);
        }
        i += 1;
    }
    None
}

impl IniDocument {
    /// The invariant of the type.
    pub closed spec fn wf(&self) -> bool {
        sections_wf(self.sections@)
    }

    /// The value of `key` in `section`; none where the section or the key is
    /// missing or the key stands without a value.
    pub open spec fn value(doc: DocumentView, section: Seq<char>, key: Seq<char>) -> Option<
        Seq<char>,
    > {
        if doc.contains_key(section) && doc[section].contains_key(key) {
            doc[section][key]
        } else {
            None
        }
    }

    /// The names of the sections, in the order in which the document holds
    /// them.
    pub closed spec fn names(&self) -> Seq<Seq<char>> {
        section_names(self.sections@)
    }

    /// The names are those of the document's sections, each once.
    pub proof fn lemma_names(&self)
        requires
            self.wf(),
        ensures
            self.names().no_duplicates(),
            forall|k: Seq<char>| self@.contains_key(k) <==> self.names().contains(k),
    {
    }

    /// A document without sections.
    pub fn new() -> (r: IniDocument)
        ensures
            r.wf(),
            r@ == Map::<Seq<char>, SectionView>::empty(),
    {
        let r = IniDocument { sections: Vec::new() };
        assert(r@ =~= Map::<Seq<char>, SectionView>::empty());
        r
    }

    /// The number of sections.
    pub fn len(&self) -> (n: usize)
        ensures
            n == self.names().len(),
    {
        self.sections.len()
    }

    /// The name of the section at place `i`.
    pub fn name(&self, i: usize) -> (r: &String)
        requires
            i < self.names().len(),
        ensures
            r@ == self.names()[i as int],
    {
        &self.sections[i].name
    }

    fn find_section(&self, name: &Vec<char>) -> (r: Option<usize>)
        requires
            self.wf(),
        ensures
            match r {
                Some(i) => i < self.sections.len() && self.sections@[i as int].name@ == name@
                    && self@.contains_key(name@) && self@[name@] == entries_map(
                    self.sections@[i as int].entries@,
                ),
                None => !self@.contains_key(name@),
            },
    {
        let ghost names = section_names(self.sections@);
        let mut i: usize = 0;
        while i < self.sections.len()
            invariant
                i <= self.sections.len(),
                names == section_names(self.sections@),
                names.no_duplicates(),
                forall|k: int| 0 <= k < i ==> names[k] != name@,
            decreases self.sections.len() - i,
        {
            let current = chars_of(self.sections[i].name.as_str());
            if same_chars(&current, name) {
                proof {
                    assert(names[i as int] == name@);
                    assert(names.contains(name@));
                    let j = names.index_of(name@);
                    assert(names[j] == names[i as int]);
                }
                return Some(i);
            }
            i += 1;
        }
        None
    }

    /// The value of `key` in `section`; none where the section or the key is
    /// missing or the key stands without a value.
    pub fn get(&self, section: &str, key: &str) -> (r: Option<String>)
        requires
            self.wf(),
        ensures
            value_view(r) == IniDocument::value(self@, section@, key@),
    {
        let section_chars = chars_of(section);
        let key_chars = chars_of(key);
        match self.find_section(&section_chars) {
            Some(at) => {
                let entries = &self.sections[at].entries;
                let ghost keys = entry_keys(entries@);
                assert(keys.no_duplicates());
                match find_key(entries, &key_chars) {
                    Some(i) => {
                        proof {
                            assert(keys.contains(key@));
                            let j = keys.index_of(key@);
                            assert(keys[j] == keys[i as int]);
                        }
                        match &entries[i].value {
                            Some(v) => Some(v.clone()),
                            None => None,
                        }
                    },
                    None => None,
                }
            },
            None => None,
        }
    }

    /// Gives `key` of `section` the value `value`, in place of an earlier
    /// one; the section is made if the document lacks it.
    pub fn set(&mut self, section: &str, key: &str, value: Option<String>)
        requires
            old(self).wf(),
        ensures
            final(self).wf(),
            final(self)@ == old(self)@.insert(
                section@,
                (if old(self)@.contains_key(section@) {
                    old(self)@[section@]
                } else {
                    Map::<Seq<char>, Option<Seq<char>>>::empty()
                }).insert(key@, value_view(value)),
            ),
    {
        let section_chars = chars_of(section);
        let key_chars = chars_of(key);
        let ghost before = self.sections@;
        let ghost shown = self@;
        let found = self.find_section(&section_chars);
        let mut target = match found {
            Some(at) => self.sections.remove(at),
            None => IniSection { name: String::from_str(section), entries: Vec::new() },
        };
        let ghost rest = self.sections@;
        let ghost old_entries = target.entries@;
        let ghost old_keys = entry_keys(old_entries);
        assert(old_keys.no_duplicates());
        let place = find_key(&target.entries, &key_chars);
        match place {
            Some(at) => {
                target.entries.remove(at);
            },
            None => {},
        }
        let ghost kept = target.entries@;
        let ghost added = value_view(value);
        target.entries.push(IniEntry { key: String::from_str(key), value });
        let ghost new_entries = target.entries@;
        let ghost new_keys = entry_keys(new_entries);
        proof {
            let kept_keys = entry_keys(kept);
            assert(new_keys =~= kept_keys.push(key@));
            assert forall|k: int| 0 <= k < kept_keys.len() implies #[trigger] kept_keys[k] != key@
                && old_keys.contains(kept_keys[k]) by {
                let k0: int = if place is Some && k >= place->0 {
                    k + 1
                } else {
                    k
                };
                assert(kept_keys[k] == old_keys[k0]);
                if place is Some {
                    assert(old_keys[place->0 as int] == key@);
                }
            }
            assert(kept_keys.no_duplicates()) by {
                assert forall|a: int, b: int|
                    0 <= a < kept_keys.len() && 0 <= b < kept_keys.len() && a != b implies
                    kept_keys[a] != kept_keys[b] by {
                    let a0: int = if place is Some && a >= place->0 {
                        a + 1
                    } else {
                        a
                    };
                    let b0: int = if place is Some && b >= place->0 {
                        b + 1
                    } else {
                        b
                    };
                    assert(kept_keys[a] == old_keys[a0] && kept_keys[b] == old_keys[b0]);
                }
            }
            assert(new_keys.no_duplicates());
            let goal = entries_map(old_entries).insert(key@, added);
            assert forall|k: Seq<char>| entries_map(new_entries).contains_key(k)
                <==> goal.contains_key(k) by {
                if new_keys.contains(k) {
                    let p = new_keys.index_of(k);
                    if p < kept_keys.len() {
                        assert(kept_keys[p] == k);
                    }
                }
                if old_keys.contains(k) && k != key@ {
                    let p0 = old_keys.index_of(k);
                    let p: int = if place is Some && p0 > place->0 {
                        p0 - 1
                    } else {
                        p0
                    };
                    assert(kept_keys[p] == old_keys[p0]);
                    assert(new_keys[p] == k);
                }
                if k == key@ {
                    assert(new_keys[kept_keys.len() as int] == k);
                }
            }
            assert forall|k: Seq<char>| entries_map(new_entries).contains_key(k) implies
                entries_map(new_entries)[k] == goal[k] by {
                let p = new_keys.index_of(k);
                assert(new_keys[p] == k);
                if p < kept_keys.len() {
                    let p0: int = if place is Some && p >= place->0 {
                        p + 1
                    } else {
                        p
                    };
                    assert(kept_keys[p] == old_keys[p0]);
                    assert(old_keys.contains(k));
                    let q = old_keys.index_of(k);
                    assert(old_keys[q] == old_keys[p0]);
                    assert(new_entries[p] == old_entries[p0]);
                } else {
                    assert(k == key@);
                }
            }
            assert(entries_map(new_entries) =~= goal);
        }
        self.sections.push(target);
        proof {
            let after = self.sections@;
            let names = section_names(after);
            let old_names = section_names(before);
            let rest_names = section_names(rest);
            assert(names =~= rest_names.push(section@));
            assert forall|k: int| 0 <= k < rest_names.len() implies #[trigger] rest_names[k]
                != section@ && old_names.contains(rest_names[k]) && rest[k] == before[if found
                is Some && k >= found->0 {
                k + 1
            } else {
                k
            }] by {
                let k0: int = if found is Some && k >= found->0 {
                    k + 1
                } else {
                    k
                };
                assert(rest_names[k] == old_names[k0]);
                if found is Some {
                    assert(old_names[found->0 as int] == section@);
                } else {
                    assert(!old_names.contains(section@));
                }
            }
            assert(names.no_duplicates()) by {
                assert forall|a: int, b: int|
                    0 <= a < names.len() && 0 <= b < names.len() && a != b implies names[a]
                    != names[b] by {
                    let a0: int = if found is Some && a >= found->0 {
                        a + 1
                    } else {
                        a
                    };
                    let b0: int = if found is Some && b >= found->0 {
                        b + 1
                    } else {
                        b
                    };
                    if a < rest_names.len() && b < rest_names.len() {
                        assert(rest_names[a] == old_names[a0] && rest_names[b] == old_names[b0]);
                    }
                }
            }
            assert forall|k: int| 0 <= k < after.len() implies entry_keys(
                (#[trigger] after[k]).entries@,
            ).no_duplicates() by {
                if k < rest.len() {
                    assert(rest_names[k] != section@);
                }
            }
            let base = if shown.contains_key(section@) {
                shown[section@]
            } else {
                Map::<Seq<char>, Option<Seq<char>>>::empty()
            };
            assert(entries_map(old_entries) =~= base) by {
                if found is None {
                    assert(old_entries =~= Seq::<IniEntry>::empty());
                    assert(entries_map(old_entries) =~= Map::<
                        Seq<char>,
                        Option<Seq<char>>,
                    >::empty());
                }
            }
            let goal = shown.insert(section@, base.insert(key@, added));
            assert forall|k: Seq<char>| sections_map(after).contains_key(k) <==> goal.contains_key(
                k,
            ) by {
                if names.contains(k) {
                    let p = names.index_of(k);
                    if p < rest_names.len() {
                        assert(rest_names[p] == k);
                    }
                }
                if old_names.contains(k) && k != section@ {
                    let p0 = old_names.index_of(k);
                    let p: int = if found is Some && p0 > found->0 {
                        p0 - 1
                    } else {
                        p0
                    };
                    assert(rest_names[p] == old_names[p0]);
                    assert(names[p] == k);
                }
                if k == section@ {
                    assert(names[rest_names.len() as int] == k);
                }
            }
            assert forall|k: Seq<char>| sections_map(after).contains_key(k) implies sections_map(
                after,
            )[k] == goal[k] by {
                let p = names.index_of(k);
                assert(names[p] == k);
                if p < rest_names.len() {
                    let p0: int = if found is Some && p >= found->0 {
                        p + 1
                    } else {
                        p
                    };
                    assert(rest_names[p] == old_names[p0]);
                    assert(old_names.contains(k));
                    let q = old_names.index_of(k);
                    assert(old_names[q] == old_names[p0]);
                    assert(after[p] == before[p0]);
                } else {
                    assert(k == section@);
                }
            }
            assert(sections_map(after) =~= goal);
        }
    }
}

} // verus!
