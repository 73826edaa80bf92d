//! What the system reports about itself: the installed units, the release of
//! the operating system, and the places where a configuration may stand.

use crate::config::ConfigError;
use crate::ini::{ini_parse, parse_document, DocumentView, IniDocument};
use crate::matcher::contains_text;
use crate::package::{
    installation_of, is_unit_name, lemma_installation_push, names_a_unit, Installation, Package,
    PackageView,
};
use crate::text::{
    append_str, chars_of, chars_of_all, split_whitespace, string_of, strings, texts, words,
};
use vstd::prelude::*;

verus! {

/// The unit that a line of the system's index names: the line has to hold a
/// name, a version and an architecture, and nothing else, and the name has to
/// be that of a product, a pattern or a package. What the index lists under
/// another prefix is no unit of an installation.
pub open spec fn entry_of_line(line: Seq<char>) -> Option<PackageView> {
    let w = words(line);
    if w.len() == 3 && names_a_unit(w[0]) {
        Some(PackageView { name: w[0], version: w[1], arch: w[2] })
    } else {
        None
    }
}

/// The units that the lines name, in order; other lines are passed over.
pub open spec fn listed(lines: Seq<Seq<char>>) -> Seq<PackageView> {
    lines.filter_map(|l: Seq<char>| entry_of_line(l))
}

/// The unit that a line names, unless its name is among `auto`.
pub open spec fn user_entry_of_line(line: Seq<char>, auto: Seq<Seq<char>>) -> Option<PackageView> {
    match entry_of_line(line) {
        Some(e) => if auto.contains(e.name) {
            None
        } else {
            Some(e)
        },
        None => None,
    }
}

/// The units that the lines name and that were not installed automatically.
pub open spec fn user_listed(lines: Seq<Seq<char>>, auto: Seq<Seq<char>>) -> Seq<PackageView> {
    lines.filter_map(|l: Seq<char>| user_entry_of_line(l, auto))
}

/// A line of the list of automatically installed packages that is a comment.
pub open spec fn is_comment(line: Seq<char>) -> bool {
    line.len() > 0 && line[0] == '#'
}

/// Reads one line of the system's index.
pub fn parse_line(line: &str) -> (r: Option<Package>)
    ensures
        match r {
            Some(p) => entry_of_line(line@) == Some(p@),
            None => entry_of_line(line@) is None,
        },
{
    let chars = chars_of(line);
    let element = split_whitespace(&chars);
    assert(texts(element@).len() == element.len());
    if element.len() == 3 {
        assert(texts(element@)[0] == element@[0]@ && texts(element@)[1] == element@[1]@ && texts(
            element@,
        )[2] == element@[2]@);
        let name = string_of(&element[0]);
        if is_unit_name(name.as_str()) {
            Some(Package { name, version: string_of(&element[1]), arch: string_of(&element[2]) })
        } else {
            None
        }
    } else {
        None
    }
}

impl Installation {
    /// The names of the list of automatically installed packages: its
    /// lines but for the comments, which begin with `#`.
    pub fn autoinstalled(lines: &Vec<String>) -> (r: Vec<String>)
        ensures
            strings(r@) == strings(lines@).filter(|l: Seq<char>| !is_comment(l)),
    {
        let ghost all = strings(lines@);
        let ghost keep = |l: Seq<char>| !is_comment(l);
        let mut out: Vec<String> = Vec::new();
        let mut i: usize = 0;
        assert(all.take(0).filter(keep) =~= Seq::<Seq<char>>::empty());
        while i < lines.len()
            invariant
                i <= lines.len(),
                all == strings(lines@),
                keep == |l: Seq<char>| !is_comment(l),
                strings(out@) == all.take(i as int).filter(keep),
            decreases lines.len() - i,
        {
            let chars = chars_of(lines[i].as_str());
            let ghost shown = strings(out@);
            proof {
                assert(all.take(i + 1) =~= all.take(i as int).push(all[i as int]));
                all.take(i as int).lemma_filter_push(all[i as int], keep);
            }
            if !(chars.len() > 0 && chars[0] == '#') {
                out.push(lines[i].clone());
                assert(strings(out@) =~= shown.push(all[i as int]));
            }
            i += 1;
        }
        assert(all.take(i as int) =~= all);
        out
    }

    /// What is installed on the system, from the lines of its index: the
    /// products, the patterns and the packages. A line that names anything
    /// else, under another prefix, is passed over.
    pub fn from_system(lines: &Vec<String>) -> (r: Installation)
        ensures
            r@ == installation_of(listed(strings(lines@))),
    {
        let ghost all = strings(lines@);
        let ghost f = |l: Seq<char>| entry_of_line(l);
        let mut out = Installation::new();
        let mut i: usize = 0;
        assert(all.take(0).filter_map(f) =~= Seq::<PackageView>::empty());
        while i < lines.len()
            invariant
                i <= lines.len(),
                all == strings(lines@),
                f == |l: Seq<char>| entry_of_line(l),
                out@ == installation_of(all.take(i as int).filter_map(f)),
            decreases lines.len() - i,
        {
            proof {
                all.lemma_filter_map_take_succ(f, i as int);
            }
            match parse_line(lines[i].as_str()) {
                Some(entry) => {
                    out.add(&entry);
                    proof {
                        let shown = all.take(i as int).filter_map(f);
                        lemma_installation_push(shown, entry@);
                        assert(all.take(i + 1).filter_map(f) =~= shown.push(entry@));
                    }
                },
                None => {
                    assert(all.take(i + 1).filter_map(f) =~= all.take(i as int).filter_map(f));
                },
            }
            i += 1;
        }
        assert(all.take(i as int) =~= all);
        out
    }

    /// What the user has installed: the units of the system's index but for
    /// those whose name is in `autoinst`, the list of what was installed
    /// automatically.
    pub fn from_system_no_autoinstalled(lines: &Vec<String>, autoinst: &Vec<String>) -> (r:
        Installation)
        ensures
            r@ == installation_of(user_listed(strings(lines@), strings(autoinst@))),
    {
        let ghost all = strings(lines@);
        let ghost auto = strings(autoinst@);
        let ghost f = |l: Seq<char>| user_entry_of_line(l, auto);
        let skip = chars_of_all(autoinst);
        let mut out = Installation::new();
        let mut i: usize = 0;
        assert(all.take(0).filter_map(f) =~= Seq::<PackageView>::empty());
        while i < lines.len()
            invariant
                i <= lines.len(),
                all == strings(lines@),
                auto == strings(autoinst@),
                texts(skip@) == auto,
                f == |l: Seq<char>| user_entry_of_line(l, auto),
                out@ == installation_of(all.take(i as int).filter_map(f)),
            decreases lines.len() - i,
        {
            proof {
                all.lemma_filter_map_take_succ(f, i as int);
            }
            match parse_line(lines[i].as_str()) {
                Some(entry) => {
                    let name = chars_of(entry.name.as_str());
                    if !contains_text(&skip, &name) {
                        out.add(&entry);
                        proof {
                            let shown = all.take(i as int).filter_map(f);
                            lemma_installation_push(shown, entry@);
                            assert(all.take(i + 1).filter_map(f) =~= shown.push(entry@));
                        }
                    } else {
                        assert(all.take(i + 1).filter_map(f) =~= all.take(i as int).filter_map(f));
                    }
                },
                None => {
                    assert(all.take(i + 1).filter_map(f) =~= all.take(i as int).filter_map(f));
                },
            }
            i += 1;
        }
        assert(all.take(i as int) =~= all);
        out
    }
}

/// The release of the operating system.
#[derive(Debug)]
pub struct OsRelease {
    pub name: String,
    pub id: String,
    pub version_id: String,
    pub pretty_name: String,
}

/// What an `OsRelease` holds.
pub struct OsReleaseView {
    pub name: Seq<char>,
    pub id: Seq<char>,
    pub version_id: Seq<char>,
    pub pretty_name: Seq<char>,
}

impl View for OsRelease {
    type V = OsReleaseView;

    open spec fn view(&self) -> OsReleaseView {
        OsReleaseView {
            name: self.name@,
            id: self.id@,
            version_id: self.version_id@,
            pretty_name: self.pretty_name@,
        }
    }
}

/// A value without its double quotes.
pub open spec fn unquoted(s: Seq<char>) -> Seq<char> {
    s.filter(|c: char| c != '"')
}

/// Takes every double quote out of a value.
pub fn unquote(s: &str) -> (r: String)
    ensures
        r@ == unquoted(s@),
{
    let chars = chars_of(s);
    let ghost keep = |c: char| c != '"';
    let mut out: Vec<char> = Vec::new();
    let mut i: usize = 0;
    assert(chars@.take(0).filter(keep) =~= Seq::<char>::empty());
    while i < chars.len()
        invariant
            i <= chars.len(),
            keep == |c: char| c != '"',
            out@ == chars@.take(i as int).filter(keep),
        decreases chars.len() - i,
    {
        proof {
            assert(chars@.take(i + 1) =~= chars@.take(i as int).push(chars@[i as int]));
            chars@.take(i as int).lemma_filter_push(chars@[i as int], keep);
        }
        if chars[i] != '"' {
            out.push(chars[i]);
        }
        i += 1;
    }
    assert(chars@.take(i as int) =~= chars@);
    string_of(&out)
}

/// The value that the release description gives to `key`.
pub open spec fn release_value(doc: DocumentView, key: Seq<char>) -> Option<Seq<char>> {
    IniDocument::value(doc, "default"@, key)
}

/// The release that a parsed description gives, or the name of the first of
/// `NAME`, `ID`, `VERSION_ID` and `PRETTY_NAME` that it lacks.
pub open spec fn release_of(doc: DocumentView) -> Result<OsReleaseView, Seq<char>> {
    if release_value(doc, "name"@) is None {
        Err("NAME"@)
    } else if release_value(doc, "id"@) is None {
        Err("ID"@)
    } else if release_value(doc, "version_id"@) is None {
        Err("VERSION_ID"@)
    } else if release_value(doc, "pretty_name"@) is None {
        Err("PRETTY_NAME"@)
    } else {
        Ok(
            OsReleaseView {
                name: unquoted(release_value(doc, "name"@)->0),
                id: unquoted(release_value(doc, "id"@)->0),
                version_id: unquoted(release_value(doc, "version_id"@)->0),
                pretty_name: unquoted(release_value(doc, "pretty_name"@)->0),
            },
        )
    }
}

impl OsRelease {
    /// The release that a parsed description gives.
    pub fn from_document(doc: &IniDocument) -> (r: Result<OsRelease, ConfigError>)
        requires
            doc.wf(),
        ensures
            match release_of(doc@) {
                Ok(release) => r matches Ok(found) && found@ == release,
                Err(key) => r matches Err(ConfigError::Missing(name)) && name@ == key,
            },
    {
        let name = match doc.get("default", "name") {
            Some(v) => unquote(v.as_str()),
            None => {
                return Err(ConfigError::Missing(String::from_str("NAME")));
            },
        };
        let id = match doc.get("default", "id") {
            Some(v) => unquote(v.as_str()),
            None => {
                return Err(ConfigError::Missing(String::from_str("ID")));
            },
        };
        let version_id = match doc.get("default", "version_id") {
            Some(v) => unquote(v.as_str()),
            None => {
                return Err(ConfigError::Missing(String::from_str("VERSION_ID")));
            },
        };
        let pretty_name = match doc.get("default", "pretty_name") {
            Some(v) => unquote(v.as_str()),
            None => {
                return Err(ConfigError::Missing(String::from_str("PRETTY_NAME")));
            },
        };
        Ok(OsRelease { name, id, version_id, pretty_name })
    }

    /// The release that the text of the system's release description gives.
    /// The description has to give `NAME`, `ID`, `VERSION_ID` and
    /// `PRETTY_NAME`; of each value the double quotes are dropped.
    pub fn new(text: &str) -> (r: Result<OsRelease, ConfigError>)
        ensures
            match ini_parse(text@) {
                Ok(doc) => match release_of(doc) {
                    Ok(release) => r matches Ok(found) && found@ == release,
                    Err(key) => r matches Err(ConfigError::Missing(name)) && name@ == key,
                },
                Err(why) => r matches Err(ConfigError::Ini(e)) && e@ == why,
            },
    {
        match parse_document(text) {
            Ok(doc) => OsRelease::from_document(&doc),
            Err(why) => Err(ConfigError::Ini(why)),
        }
    }
}

/// The places where a configuration for this release may stand, each later
/// one overriding the ones before it: below `/usr/etc` and then below `/etc`,
/// in each the file of the distribution, the file of the distribution's
/// version, and `ostatus.cfg`.
pub open spec fn config_places(release: OsReleaseView) -> Seq<Seq<char>> {
    seq![
        "/usr/etc/"@ + release.id + ".cfg"@,
        "/usr/etc/"@ + release.id + "-"@ + release.version_id + ".cfg"@,
        "/usr/etc/ostatus.cfg"@,
        "/etc/"@ + release.id + ".cfg"@,
        "/etc/"@ + release.id + "-"@ + release.version_id + ".cfg"@,
        "/etc/ostatus.cfg"@,
    ]
}

fn config_place(dir: &str, id: &str, version_id: Option<&str>) -> (r: String)
    ensures
        r@ == match version_id {
            Some(v) => dir@ + "/"@ + id@ + "-"@ + v@ + ".cfg"@,
            None => dir@ + "/"@ + id@ + ".cfg"@,
        },
{
    let mut out = chars_of(dir);
    append_str(&mut out, "/");
    append_str(&mut out, id);
    match version_id {
        Some(v) => {
            append_str(&mut out, "-");
            append_str(&mut out, v);
        },
        None => {},
    }
    append_str(&mut out, ".cfg");
    string_of(&out)
}

/// The places where a configuration for this release may stand, in the
/// order in which they are to be read.
pub fn find_configs(release: &OsRelease) -> (r: Vec<String>)
    ensures
        strings(r@) == config_places(release@),
{
    let id = release.id.as_str();
    let version_id = release.version_id.as_str();
    let mut configs: Vec<String> = Vec::new();
    configs.push(config_place("/usr/etc", id, None));
    configs.push(config_place("/usr/etc", id, Some(version_id)));
    configs.push(String::from_str("/usr/etc/ostatus.cfg"));
    configs.push(config_place("/etc", id, None));
    configs.push(config_place("/etc", id, Some(version_id)));
    configs.push(String::from_str("/etc/ostatus.cfg"));
    proof {
        reveal_strlit("/usr/etc");
        reveal_strlit("/usr/etc/");
        reveal_strlit("/etc");
        reveal_strlit("/etc/");
        reveal_strlit("/");
        assert("/usr/etc"@ + "/"@ =~= "/usr/etc/"@);
        assert("/etc"@ + "/"@ =~= "/etc/"@);
        let got = strings(configs@);
        let want = config_places(release@);
        assert(got.len() == want.len());
        assert(got[0] =~= want[0]);
        assert(got[1] =~= want[1]);
        assert(got[2] =~= want[2]);
        assert(got[3] =~= want[3]);
        assert(got[4] =~= want[4]);
        assert(got[5] =~= want[5]);
        assert(got =~= want);
    }
    configs
}

} // verus!
