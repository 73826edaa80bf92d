//! Roles from a product definition: an XML document that lists the system
//! roles of a product with the patterns that each installs.

use crate::config::ConfigError;
use crate::roles::{default_name, ReferenceInstallation, ReferenceView, Roles};
use crate::text::{
    append_str, chars_of, fields, same_chars, split_at_char, string_of, strings, strings_of_all,
};
use vstd::prelude::*;

verus! {

/// An element of a parsed XML document.
#[verifier::external_type_specification]
#[verifier::external_body]
pub struct ExElement(xmltree::Element);

/// The XML parser's complaint.
#[verifier::external_type_specification]
#[verifier::external_body]
pub struct ExParseError(xmltree::ParseError);

/// A node of an XML document: an element, a piece of text, or anything else.
#[derive(Debug)]
pub enum XmlNode {
    Element(XmlElement),
    Text(String),
    Other,
}

/// An element of an XML document: its name without a namespace, and what
/// stands in it.
#[derive(Debug)]
pub struct XmlElement {
    pub name: String,
    pub children: Vec<XmlNode>,
}

/// What a parsed element holds: its name and, node for node, its children,
/// where character data of either form counts as text.
pub uninterp spec fn element_tree(e: xmltree::Element) -> XmlElement;

/// The root element of the XML document that the bytes are; nothing where
/// they are no XML document.
pub uninterp spec fn xml_document(data: Seq<u8>) -> Option<XmlElement>;

/// Parses an XML document.
///
/// Trusted: `xmltree::Element::parse` gives, for the bytes of a document,
/// always the same root element, or refuses them.
#[verifier::external_body]
fn parse_element(data: &[u8]) -> (r: Result<xmltree::Element, xmltree::ParseError>)
    ensures
        match r {
            Ok(root) => xml_document(data@) == Some(element_tree(root)),
            Err(_) => xml_document(data@) is None,
        },
{
    xmltree::Element::parse(data)
}

/// Copies out what a parsed element holds.
///
/// Trusted: the fields `name` and `children` of an `xmltree::Element`, and
/// the variants of `xmltree::XMLNode`, are copied one for one.
#[verifier::external_body]
fn tree_of(e: &xmltree::Element) -> (r: XmlElement)
    ensures
        r == element_tree(*e),
{
    let node = |n: &xmltree::XMLNode| match n {
        xmltree::XMLNode::Element(child) => XmlNode::Element(tree_of(child)),
        xmltree::XMLNode::Text(text) => XmlNode::Text(text.clone()),
        xmltree::XMLNode::CData(text) => XmlNode::Text(text.clone()),
        xmltree::XMLNode::Comment(_) => XmlNode::Other,
        xmltree::XMLNode::ProcessingInstruction(_, _) => XmlNode::Other,
    };
    XmlElement { name: e.name.clone(), children: e.children.iter().map(node).collect() }
}

/// The first element of the given name among the nodes.
pub open spec fn first_child(nodes: Seq<XmlNode>, name: Seq<char>) -> Option<XmlElement>
    decreases nodes.len(),
{
    if nodes.len() == 0 {
        None
    } else {
        match nodes[0] {
            XmlNode::Element(e) => if e.name@ == name {
                Some(e)
            } else {
                first_child(nodes.drop_first(), name)
            },
            _ => first_child(nodes.drop_first(), name),
        }
    }
}

/// The pieces of text among the nodes, put together; nothing where there is
/// no piece of text.
pub open spec fn text_of(nodes: Seq<XmlNode>) -> Option<Seq<char>>
    decreases nodes.len(),
{
    if nodes.len() == 0 {
        None
    } else {
        let before = text_of(nodes.drop_last());
        match nodes.last() {
            XmlNode::Text(t) => Some(
                match before {
                    Some(b) => b + t@,
                    None => t@,
                },
            ),
            _ => before,
        }
    }
}

/// The text at `software/default_patterns` below an element.
pub open spec fn default_patterns_text(e: XmlElement) -> Option<Seq<char>> {
    match first_child(e.children@, "software"@) {
        Some(software) => match first_child(software.children@, "default_patterns"@) {
            Some(patterns) => text_of(patterns.children@),
            None => None,
        },
        None => None,
    }
}

/// The patterns at `software/default_patterns` below an element: the pieces
/// of the text between blanks; nothing where there is no such text.
pub open spec fn default_patterns_of(e: XmlElement) -> Seq<Seq<char>> {
    match default_patterns_text(e) {
        Some(text) => fields(text, ' '),
        None => Seq::empty(),
    }
}

/// An installation of reference that requires the given patterns and
/// nothing else.
pub open spec fn patterns_only(patterns: Seq<Seq<char>>) -> ReferenceView {
    ReferenceView {
        patterns,
        packages: Seq::empty(),
        patterns_opt: Seq::empty(),
        packages_opt: Seq::empty(),
    }
}

/// The name of a system role: the text of its `id`.
pub open spec fn role_id(e: XmlElement) -> Option<Seq<char>> {
    match first_child(e.children@, "id"@) {
        Some(id) => text_of(id.children@),
        None => None,
    }
}

/// The roles that the `system_role` elements among the nodes define, a later
/// one in place of an earlier one of the same name; the part that is missing
/// where one of them has no `id`.
pub open spec fn system_roles_of(nodes: Seq<XmlNode>) -> Result<
    Map<Seq<char>, ReferenceView>,
    Seq<char>,
>
    decreases nodes.len(),
{
    if nodes.len() == 0 {
        Ok(Map::empty())
    } else {
        match system_roles_of(nodes.drop_last()) {
            Ok(roles) => match nodes.last() {
                XmlNode::Element(e) => if e.name@ == "system_role"@ {
                    match role_id(e) {
                        Some(id) => Ok(roles.insert(id, patterns_only(default_patterns_of(e)))),
                        None => Err("id"@),
                    }
                } else {
                    Ok(roles)
                },
                _ => Ok(roles),
            },
            Err(part) => Err(part),
        }
    }
}

/// The optional packages of the role `default` of every product.
pub open spec fn well_known_packages() -> Seq<Seq<char>> {
    seq![
        "kernel-default"@,
        "kernel-pae"@,
        "kernel-vanilla"@,
        "snapper"@,
        "grub2"@,
        "btrfsprogs"@,
    ]
}

/// The role `default` of a product definition: the default patterns of the
/// document, and the well-known optional packages.
pub open spec fn default_role_of(root: XmlElement) -> ReferenceView {
    ReferenceView {
        patterns: default_patterns_of(root),
        packages: Seq::empty(),
        patterns_opt: Seq::empty(),
        packages_opt: well_known_packages(),
    }
}

/// The roles of a product definition: those of its `system_roles`, and the
/// role `default`; the part that is missing where the document lacks
/// `system_roles` or a role its `id`.
pub open spec fn control_roles(root: XmlElement) -> Result<
    Map<Seq<char>, ReferenceView>,
    Seq<char>,
> {
    match first_child(root.children@, "system_roles"@) {
        Some(system_roles) => match system_roles_of(system_roles.children@) {
            Ok(roles) => Ok(roles.insert(default_name(), default_role_of(root))),
            Err(part) => Err(part),
        },
        None => Err("system_roles"@),
    }
}

impl XmlElement {
    /// The root element of an XML document.
    pub fn parse(data: &[u8]) -> (r: Result<XmlElement, ConfigError>)
        ensures
            match xml_document(data@) {
                Some(root) => r == Ok::<XmlElement, ConfigError>(root),
                None => r == Err::<XmlElement, ConfigError>(ConfigError::Xml),
            },
    {
        match parse_element(data) {
            Ok(root) => Ok(tree_of(&root)),
            Err(_) => Err(ConfigError::Xml),
        }
    }

    /// The first child element of the given name.
    pub fn get_child(&self, name: &str) -> (r: Option<&XmlElement>)
        ensures
            match r {
                Some(child) => first_child(self.children@, name@) == Some(*child),
                None => first_child(self.children@, name@) is None,
            },
    {
        let wanted = chars_of(name);
        let ghost all = self.children@;
        let mut i: usize = 0;
        assert(all.skip(0) =~= all);
        while i < self.children.len()
            invariant
                i <= self.children.len(),
                all == self.children@,
                wanted@ == name@,
                first_child(all, name@) == first_child(all.skip(i as int), name@),
            decreases self.children.len() - i,
        {
            assert(all.skip(i as int)[0] == all[i as int]);
            assert(all.skip(i as int).drop_first() =~= all.skip(i + 1));
            match &self.children[i] {
                XmlNode::Element(e) => {
                    let current = chars_of(e.name.as_str());
                    if same_chars(&current, &wanted) {
                        return Some(e);
                    }
                },
                _ => {},
            }
            i += 1;
        }
        None
    }

    /// The text that stands in the element: its pieces of text put
    /// together, and nothing where it has none.
    pub fn get_text(&self) -> (r: Option<String>)
        ensures
            crate::ini::value_view(r) == text_of(self.children@),
    {
        let ghost all = self.children@;
        let mut found = false;
        let mut out: Vec<char> = Vec::new();
        let mut i: usize = 0;
        assert(all.take(0) =~= Seq::<XmlNode>::empty());
        while i < self.children.len()
            invariant
                i <= self.children.len(),
                all == self.children@,
                !found ==> out@.len() == 0,
                text_of(all.take(i as int)) == if found {
                    Some(out@)
                } else {
                    None
                },
            decreases self.children.len() - i,
        {
            assert(all.take(i + 1).drop_last() =~= all.take(i as int));
            assert(all.take(i + 1).last() == all[i as int]);
            match &self.children[i] {
                XmlNode::Text(t) => {
                    let ghost shown = out@;
                    append_str(&mut out, t.as_str());
                    assert(!found ==> out@ =~= t@);
                    found = true;
                },
                _ => {},
            }
            i += 1;
        }
        assert(all.take(i as int) =~= all);
        if found {
            Some(string_of(&out))
        } else {
            None
        }
    }
}

/// The patterns at `software/default_patterns` below an element, if that
/// holds text.
pub fn default_patterns(element: &XmlElement) -> (r: Option<Vec<String>>)
    ensures
        match r {
            Some(patterns) => default_patterns_text(*element) is Some && strings(patterns@)
                == default_patterns_of(*element),
            None => default_patterns_text(*element) is None,
        },
{
    match element.get_child("software") {
        Some(software) => match software.get_child("default_patterns") {
            Some(patterns) => match patterns.get_text() {
                Some(text) => {
                    let chars = chars_of(text.as_str());
                    Some(strings_of_all(&split_at_char(&chars, ' ')))
                },
                None => None,
            },
            None => None,
        },
        None => None,
    }
}

fn patterns_or_none(element: &XmlElement) -> (r: Vec<String>)
    ensures
        strings(r@) == default_patterns_of(*element),
{
    match default_patterns(element) {
        Some(patterns) => patterns,
        None => {
            let r: Vec<String> = Vec::new();
            assert(strings(r@) =~= Seq::<Seq<char>>::empty());
            r
        },
    }
}

impl Roles {
    /// The roles that the `system_roles` of a product definition define,
    /// each with the patterns at its `software/default_patterns`.
    pub fn roles_patterns(element: &XmlElement) -> (r: Result<Roles, ConfigError>)
        ensures
            match first_child(element.children@, "system_roles"@) {
                Some(system_roles) => match system_roles_of(system_roles.children@) {
                    Ok(found) => r matches Ok(roles) && roles.wf() && roles@ == found,
                    Err(part) => r matches Err(ConfigError::Missing(name)) && name@ == part,
                },
                None => r matches Err(ConfigError::Missing(name)) && name@ == "system_roles"@,
            },
    {
        let system_roles = match element.get_child("system_roles") {
            Some(found) => found,
            None => {
                return Err(ConfigError::Missing(String::from_str("system_roles")));
            },
        };
        let ghost all = system_roles.children@;
        let wanted = chars_of("system_role");
        let mut roles = Roles::new();
        let mut i: usize = 0;
        assert(all.take(0) =~= Seq::<XmlNode>::empty());
        while i < system_roles.children.len()
            invariant
                i <= system_roles.children.len(),
                all == system_roles.children@,
                first_child(element.children@, "system_roles"@) == Some(*system_roles),
                wanted@ == "system_role"@,
                roles.wf(),
                system_roles_of(all.take(i as int)) == Ok::<
                    Map<Seq<char>, ReferenceView>,
                    Seq<char>,
                >(roles@),
            decreases system_roles.children.len() - i,
        {
            assert(all.take(i + 1).drop_last() =~= all.take(i as int));
            assert(all.take(i + 1).last() == all[i as int]);
            match &system_roles.children[i] {
                XmlNode::Element(system_role) => {
                    let current = chars_of(system_role.name.as_str());
                    if same_chars(&current, &wanted) {
                        let id = match system_role.get_child("id") {
                            Some(id) => id.get_text(),
                            None => None,
                        };
                        match id {
                            Some(role) => {
                                let mut installation = ReferenceInstallation::new();
                                installation.patterns = patterns_or_none(system_role);
                                roles.insert(role, installation);
                            },
                            None => {
                                proof {
                                    assert(role_id(*system_role) is None);
                                    assert(system_roles_of(all.take(i + 1)) == Err::<
                                        Map<Seq<char>, ReferenceView>,
                                        Seq<char>,
                                    >("id"@));
                                    lemma_system_roles_fail(all, i as int);
                                }
                                return Err(ConfigError::Missing(String::from_str("id")));
                            },
                        }
                    }
                },
                _ => {},
            }
            i += 1;
        }
        assert(all.take(i as int) =~= all);
        Ok(roles)
    }

    /// The roles of a product definition: those of its `system_roles`, and a
    /// role `default` with the default patterns of the document and the
    /// well-known optional packages.
    pub fn from_control_tree(root: &XmlElement) -> (r: Result<Roles, ConfigError>)
        ensures
            match control_roles(*root) {
                Ok(found) => r matches Ok(roles) && roles.wf() && roles@ == found,
                Err(part) => r matches Err(ConfigError::Missing(name)) && name@ == part,
            },
    {
        let mut default = ReferenceInstallation::new();
        default.patterns = patterns_or_none(root);
        let mut packages_opt: Vec<String> = Vec::new();
        packages_opt.push(String::from_str("kernel-default"));
        packages_opt.push(String::from_str("kernel-pae"));
        packages_opt.push(String::from_str("kernel-vanilla"));
        packages_opt.push(String::from_str("snapper"));
        packages_opt.push(String::from_str("grub2"));
        packages_opt.push(String::from_str("btrfsprogs"));
        assert(strings(packages_opt@) =~= well_known_packages());
        default.packages_opt = packages_opt;
        let mut roles = match Roles::roles_patterns(root) {
            Ok(roles) => roles,
            Err(e) => {
                return Err(e);
            },
        };
        roles.insert(String::from_str("default"), default);
        Ok(roles)
    }

    /// The roles of a product definition, from the bytes of the document.
    pub fn from_control(data: &[u8]) -> (r: Result<Roles, ConfigError>)
        ensures
            match xml_document(data@) {
                Some(root) => match control_roles(root) {
                    Ok(found) => r matches Ok(roles) && roles.wf() && roles@ == found,
                    Err(part) => r matches Err(ConfigError::Missing(name)) && name@ == part,
                },
                None => r matches Err(ConfigError::Xml),
            },
    {
        match XmlElement::parse(data) {
            Ok(root) => Roles::from_control_tree(&root),
            Err(e) => Err(e),
        }
    }
}

/// Once the roles of a beginning of the nodes lack a part, those of all the
/// nodes lack it.
pub proof fn lemma_system_roles_fail(nodes: Seq<XmlNode>, i: int)
    requires
        0 <= i < nodes.len(),
        system_roles_of(nodes.take(i + 1)) is Err,
    ensures
        system_roles_of(nodes) == system_roles_of(nodes.take(i + 1)),
    decreases nodes.len() - i,
{
    if i + 1 == nodes.len() {
        assert(nodes.take(i + 1) =~= nodes);
    } else {
        assert(nodes.take(i + 2).drop_last() =~= nodes.take(i + 1));
        lemma_system_roles_fail(nodes, i + 1);
    }
}

} // verus!
