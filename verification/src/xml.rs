//! Documents built and written by `minidom`, and the model by which the
//! library states what such a document holds.

use minidom::Element;
use vstd::prelude::*;

verus! {

/// One step of a walk through an element in document order.
pub enum XmlEvent {
    /// The element begins: its name, its namespace and its attributes.
    Open { name: Seq<char>, namespace: Seq<char>, attrs: Map<Seq<char>, Seq<char>> },
    /// A text node.
    Text(Seq<char>),
    /// The element that was opened last ends.
    Close,
}

/// `minidom::Element`: an element and all that stands in it. Nothing of
/// its inside is known here but what `element_events` names.
#[verifier::external_type_specification]
#[verifier::external_body]
pub struct ExElement(minidom::Element);

/// `minidom::Error`: why a document could not be written. It is carried
/// through and never looked into.
#[verifier::external_type_specification]
#[verifier::external_body]
pub struct ExXmlError(minidom::Error);

/// What an element holds: the events of a walk through it in document
/// order, from its own `Open` to the matching `Close`. The elements that
/// this library makes declare no prefix; of others no more is said than
/// that they hold some such events.
pub uninterp spec fn element_events(e: Element) -> Seq<XmlEvent>;

/// The bytes that `minidom` writes for an element that holds `events`, or
/// `None` where it fails to write such an element.
pub uninterp spec fn xml_output(events: Seq<XmlEvent>) -> Option<Seq<u8>>;

/// An element without attributes and without children.
pub open spec fn empty_element(name: Seq<char>, namespace: Seq<char>) -> Seq<XmlEvent> {
    seq![XmlEvent::Open { name, namespace, attrs: Map::empty() }, XmlEvent::Close]
}

/// The element `events` with the attribute `name` set to `value`.
pub open spec fn with_attribute(events: Seq<XmlEvent>, name: Seq<char>, value: Seq<char>) -> Seq<
    XmlEvent,
> {
    if events.len() > 0 {
        match events[0] {
            XmlEvent::Open { name: n, namespace, attrs } => events.update(
                0,
                XmlEvent::Open { name: n, namespace, attrs: attrs.insert(name, value) },
            ),
            _ => events,
        }
    } else {
        events
    }
}

/// The element `events` with `child` appended behind its last child.
pub open spec fn with_child(events: Seq<XmlEvent>, child: Seq<XmlEvent>) -> Seq<XmlEvent> {
    if events.len() > 0 {
        events.drop_last() + child + seq![XmlEvent::Close]
    } else {
        events
    }
}

/// Whether `name` can name an element: `minidom` refuses a name with a
/// colon in it.
pub open spec fn plain_name(name: Seq<char>) -> bool {
    !name.contains(':')
}

/// `minidom::Element::bare`. The new element has the given name and
/// namespace, no attribute and no child. The call panics on a name that
/// holds a colon, which `requires` rules out.
#[verifier::external_body]
pub(crate) fn new_element(name: &str, namespace: &str) -> (e: Element)
    requires
        plain_name(name@),
    ensures
        element_events(e) == empty_element(name@, namespace@),
{
    Element::bare(name, namespace)
}

/// `minidom::Element::set_attr` with a string as the value: the attribute
/// is added, or replaced where the element had one of that name, and
/// nothing else changes.
#[verifier::external_body]
pub(crate) fn set_attribute(e: &mut Element, name: &str, value: &str)
    ensures
        element_events(*final(e)) == with_attribute(element_events(*old(e)), name@, value@),
{
    e.set_attr(name, value)
}

/// `minidom::Element::append_text_node`: a text node with the given text
/// becomes the element's last child.
#[verifier::external_body]
pub(crate) fn append_text(e: &mut Element, text: &str)
    ensures
        element_events(*final(e)) == with_child(
            element_events(*old(e)),
            seq![XmlEvent::Text(text@)],
        ),
{
    e.append_text_node(text)
}

/// `minidom::Element::append_child`: `child` becomes the element's last
/// child, unchanged.
#[verifier::external_body]
pub(crate) fn append_element(e: &mut Element, child: Element)
    ensures
        element_events(*final(e)) == with_child(element_events(*old(e)), element_events(child)),
{
    e.append_child(child);
}

/// `minidom::Element::write_to` into an empty vector. Whether it succeeds,
/// and the bytes that it writes, depend on what the element holds and on
/// nothing else: the vector takes every write.
#[verifier::external_body]
pub(crate) fn write_element(e: &Element) -> (written: Result<Vec<u8>, minidom::Error>)
    ensures
        match written {
            Ok(bytes) => xml_output(element_events(*e)) == Some(bytes@),
            Err(_) => xml_output(element_events(*e)) is None,
        },
{
    let mut out = Vec::new();
    e.write_to(&mut out).map(|_| out)
}

} // verus!
