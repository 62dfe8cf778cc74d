use vstd::prelude::*;

verus! {

#[verifier::external_type_specification]
#[verifier::external_body]
pub struct ExXMLElement(xml_builder::XMLElement);

#[verifier::external_type_specification]
#[verifier::external_body]
pub struct ExXML(xml_builder::XML);

/// The name of an element.
pub uninterp spec fn elem_name(e: xml_builder::XMLElement) -> Seq<char>;

/// The rendered attribute string of an element under insertion order: one
/// ` name="value"` piece per attribute, values escaped.
pub uninterp spec fn elem_attrs(e: xml_builder::XMLElement) -> Seq<char>;

/// The text content of an element, where it holds text.
pub uninterp spec fn elem_text(e: xml_builder::XMLElement) -> Option<Seq<char>>;

/// The renderings of an element's children, each at indentation level
/// `l`; empty while the element holds no child.
pub uninterp spec fn elem_kids(e: xml_builder::XMLElement, l: int) -> Seq<Seq<char>>;

/// The XML declaration a document will emit.
pub uninterp spec fn xml_decl(x: xml_builder::XML) -> Seq<char>;

/// The rendering of a document's root element, at level zero; empty while
/// no root is set.
pub uninterp spec fn xml_root_text(x: xml_builder::XML) -> Seq<char>;

/// Attribute-value escaping as xml-builder's `escape_str` performs it.
pub open spec fn escape_xml_char(c: char) -> Seq<char> {
    if c == '&' {
        seq!['&', 'a', 'm', 'p', ';']
    } else if c == '"' {
        seq!['&', 'q', 'u', 'o', 't', ';']
    } else if c == '\'' {
        seq!['&', 'a', 'p', 'o', 's', ';']
    } else if c == '<' {
        seq!['&', 'l', 't', ';']
    } else if c == '>' {
        seq!['&', 'g', 't', ';']
    } else {
        seq![c]
    }
}

pub open spec fn escape_xml(s: Seq<char>) -> Seq<char>
    decreases s.len(),
{
    if s.len() == 0 {
        Seq::empty()
    } else {
        escape_xml_char(s[0]) + escape_xml(s.drop_first())
    }
}

/// The indentation of level `l`: one tab per level.
pub open spec fn tabs(l: int) -> Seq<char>
    decreases l,
{
    if l <= 0 {
        Seq::empty()
    } else {
        tabs(l - 1).push('\t')
    }
}

pub open spec fn concat_texts(ss: Seq<Seq<char>>) -> Seq<char>
    decreases ss.len(),
{
    if ss.len() == 0 {
        Seq::empty()
    } else {
        ss[0] + concat_texts(ss.drop_first())
    }
}

/// The text xml-builder renders for an element at level `l` under the
/// default document settings (indentation, line breaks, insertion-order
/// attributes, collapsed empty tags), stated exactly as `render_level`
/// builds it from the element's name, attributes and content.
pub open spec fn elem_render(e: xml_builder::XMLElement, l: int) -> Seq<char> {
    match elem_text(e) {
        Some(t) => tabs(l) + seq!['<'] + elem_name(e) + elem_attrs(e) + seq!['>'] + t + seq![
            '<',
            '/',
        ] + elem_name(e) + seq!['>', '\n'],
        None => {
            if elem_kids(e, l + 1).len() == 0 {
                tabs(l) + seq!['<'] + elem_name(e) + elem_attrs(e) + seq![' ', '/', '>', '\n']
            } else {
                tabs(l) + seq!['<'] + elem_name(e) + elem_attrs(e) + seq!['>', '\n'] + concat_texts(
                    elem_kids(e, l + 1),
                ) + tabs(l) + seq!['<', '/'] + elem_name(e) + seq!['>', '\n']
            }
        },
    }
}

/// Relies on xml-builder's `XMLElement::new`: a fresh element with the
/// given name, no attributes and empty content.
#[verifier::external_body]
pub(crate) fn el_new(name: &str) -> (e: xml_builder::XMLElement)
    ensures
        elem_name(e) == name@,
        elem_attrs(e) == Seq::<char>::empty(),
        elem_text(e) is None,
        forall|l: int| elem_kids(e, l) == Seq::<Seq<char>>::empty(),
{
    xml_builder::XMLElement::new(name)
}

/// Relies on xml-builder's `XMLElement::add_attribute`: appends one
/// ` name="value"` piece, the value escaped, and leaves the content
/// alone.
#[verifier::external_body]
pub(crate) fn el_add_attribute(e: &mut xml_builder::XMLElement, name: &str, value: &str)
    ensures
        elem_name(*final(e)) == elem_name(*old(e)),
        elem_attrs(*final(e)) == elem_attrs(*old(e)) + seq![' '] + name@ + seq!['=', '"']
            + escape_xml(value@) + seq!['"'],
        elem_text(*final(e)) == elem_text(*old(e)),
        forall|l: int| elem_kids(*final(e), l) == elem_kids(*old(e), l),
{
    e.add_attribute(name, value);
}

/// Relies on xml-builder's `XMLElement::add_text`: succeeds exactly on an
/// element with empty content, which becomes a text element.
#[verifier::external_body]
pub(crate) fn el_add_text(e: &mut xml_builder::XMLElement, text: String) -> (ok: bool)
    ensures
        ok == (elem_text(*old(e)) is None && elem_kids(*old(e), 0).len() == 0),
        ok ==> elem_name(*final(e)) == elem_name(*old(e)) && elem_attrs(*final(e)) == elem_attrs(
            *old(e),
        ) && elem_text(*final(e)) == Some(text@) && (forall|l: int|
            elem_kids(*final(e), l) == Seq::<Seq<char>>::empty()),
        !ok ==> *final(e) == *old(e),
{
    e.add_text(text).is_ok()
}

/// Relies on xml-builder's `XMLElement::add_child`: succeeds unless the
/// parent holds text, and appends the child's rendering, one level
/// deeper, to the parent's children.
#[verifier::external_body]
pub(crate) fn el_add_child(e: &mut xml_builder::XMLElement, child: xml_builder::XMLElement) -> (ok:
    bool)
    ensures
        ok == (elem_text(*old(e)) is None),
        ok ==> elem_name(*final(e)) == elem_name(*old(e)) && elem_attrs(*final(e)) == elem_attrs(
            *old(e),
        ) && elem_text(*final(e)) is None && (forall|l: int|
            elem_kids(*final(e), l) == elem_kids(*old(e), l).push(elem_render(child, l))),
        !ok ==> *final(e) == *old(e),
{
    e.add_child(child).is_ok()
}

/// Relies on xml-builder's `XMLBuilder` (`new`, `version`, `encoding`,
/// `build`): a document declared XML 1.1 in UTF-8, with the default
/// rendering settings and no root element yet.
#[verifier::external_body]
pub(crate) fn new_xml_1_1_utf8() -> (x: xml_builder::XML)
    ensures
        xml_decl(x) == "<?xml version=\"1.1\" encoding=\"UTF-8\"?>\n"@,
        xml_root_text(x) == Seq::<char>::empty(),
{
    xml_builder::XMLBuilder::new().version(xml_builder::XMLVersion::XML1_1).encoding(
        "UTF-8".into(),
    ).build()
}

/// Relies on xml-builder's `XML::set_root_element`.
#[verifier::external_body]
pub(crate) fn xml_set_root(x: &mut xml_builder::XML, root: xml_builder::XMLElement)
    ensures
        xml_decl(*final(x)) == xml_decl(*old(x)),
        xml_root_text(*final(x)) == elem_render(root, 0),
{
    x.set_root_element(root);
}

/// Relies on xml-builder's `XML::generate`, writing to a byte vector
/// (which cannot fail), and on `String::from_utf8` (the rendering is
/// UTF-8 by construction): the declaration followed by the root's
/// rendering.
#[verifier::external_body]
pub(crate) fn xml_generate(x: xml_builder::XML) -> (r: Option<String>)
    ensures
        r is Some,
        r->0@ == xml_decl(x) + xml_root_text(x),
{
    let mut out: Vec<u8> = Vec::new();
    match x.generate(&mut out) {
        Ok(()) => String::from_utf8(out).ok(),
        Err(_) => None,
    }
}

} // verus!
