//! The document writer: a depth-first, pre-order serialization of a
//! fully-populated tree into the bytes of a well-formed XML document,
//! through an events-based emitter.

use vstd::prelude::*;

use crate::GenError;
use crate::node::Node;
use crate::node::NodeView;
use crate::node::lemma_views_of;
use crate::node::views_of;
use crate::node::views_of_attrs;

verus! {

/// One part of the XML output stream, as handed to the emitter.
pub ghost enum WriterEvent {
    /// The XML declaration.
    StartDocument,
    /// The start tag of an element, with its attribute pairs.
    StartElement { name: Seq<char>, attributes: Seq<(Seq<char>, Seq<char>)> },
    /// A text payload, emitted as character data.
    CData(Seq<char>),
    /// The end of the most recently opened element.
    EndElement,
}

/// The opening tags an event leaves on the emitter's stack of open
/// elements: one for a start tag, minus one for an end tag, none
/// otherwise.
pub open spec fn event_depth(e: WriterEvent) -> int {
    match e {
        WriterEvent::StartElement { .. } => 1,
        WriterEvent::EndElement => -1,
        _ => 0,
    }
}

/// How many elements an event history leaves open: start tags accepted
/// minus end tags accepted.
pub open spec fn open_depth(events: Seq<WriterEvent>) -> int
    decreases events.len(),
{
    if events.len() == 0 {
        0
    } else {
        open_depth(events.drop_last()) + event_depth(events.last())
    }
}

/// Whether an event history has already started the document. The
/// emitter records a document start both for an explicit declaration and
/// for a start tag, which writes the declaration by itself when none was
/// written yet.
pub open spec fn document_started(events: Seq<WriterEvent>) -> bool {
    exists|i: int|
        0 <= i < events.len() && ((#[trigger] events[i]) is StartDocument
            || events[i] is StartElement)
}

#[verifier::external_type_specification]
#[verifier::external_body]
#[verifier::reject_recursive_types(W)]
pub struct ExEventWriter<W>(xml::writer::EventWriter<W>);

#[verifier::external_type_specification]
#[verifier::external_body]
pub struct ExEmitterError(xml::writer::Error);

/// The sequence of events successfully written to the emitter so far.
pub uninterp spec fn writer_events(w: xml::writer::EventWriter<Vec<u8>>) -> Seq<WriterEvent>;

/// The bytes an indenting emitter produces for a complete event
/// sequence; the emitter is deterministic, so the bytes are a function
/// of the events alone.
pub uninterp spec fn rendered_bytes(events: Seq<WriterEvent>) -> Seq<u8>;

/// Relies on xml's `EmitterConfig::new`, `EmitterConfig::perform_indent`
/// and `EmitterConfig::create_writer`: a fresh indenting event writer
/// over an empty byte buffer, with nothing written yet.
#[verifier::external_body]
fn writer_new() -> (w: xml::writer::EventWriter<Vec<u8>>)
    ensures
        writer_events(w) == Seq::<WriterEvent>::empty(),
{
    xml::EmitterConfig::new().perform_indent(true).create_writer(Vec::new())
}

/// Relies on xml's `EventWriter::write`: on success the document
/// declaration (version 1.0, UTF-8) is appended to the output. On a byte
/// buffer the only error is a repeated declaration, returned before
/// anything is written, so the write succeeds whenever the history has
/// not started the document.
#[verifier::external_body]
fn write_start_document(w: &mut xml::writer::EventWriter<Vec<u8>>) -> (r: Result<
    (),
    xml::writer::Error,
>)
    ensures
        !document_started(writer_events(*old(w))) ==> r is Ok,
        r is Ok ==> writer_events(*final(w)) == writer_events(*old(w)).push(
            WriterEvent::StartDocument,
        ),
        r is Err ==> writer_events(*final(w)) == writer_events(*old(w)),
{
    w.write(
        xml::writer::XmlEvent::StartDocument {
            version: xml::common::XmlVersion::Version10,
            encoding: Some("UTF-8"),
            standalone: None,
        },
    )
}

/// Relies on xml's `EventWriter::write`: a start tag with the given name
/// and attributes is appended to the output. On a byte buffer this write
/// cannot fail.
#[verifier::external_body]
fn write_start_element(
    w: &mut xml::writer::EventWriter<Vec<u8>>,
    name: &str,
    attributes: &Vec<(String, String)>,
) -> (r: Result<(), xml::writer::Error>)
    ensures
        r is Ok,
        writer_events(*final(w)) == writer_events(*old(w)).push(
            WriterEvent::StartElement {
                name: name@,
                attributes: views_of_attrs(attributes@),
            },
        ),
{
    let attrs: Vec<xml::attribute::Attribute> = attributes.iter().map(
        |a: &(String, String)| xml::attribute::Attribute {
            name: xml::name::Name::from(a.0.as_str()),
            value: a.1.as_str(),
        },
    ).collect();
    w.write(
        xml::writer::XmlEvent::StartElement {
            name: xml::name::Name::from(name),
            attributes: std::borrow::Cow::Owned(attrs),
            namespace: std::borrow::Cow::Owned(xml::namespace::Namespace::empty()),
        },
    )
}

/// Relies on xml's `EventWriter::write`: the text is appended to the
/// output as character data. On a byte buffer this write cannot fail.
#[verifier::external_body]
fn write_cdata(w: &mut xml::writer::EventWriter<Vec<u8>>, content: &str) -> (r: Result<
    (),
    xml::writer::Error,
>)
    ensures
        r is Ok,
        writer_events(*final(w)) == writer_events(*old(w)).push(WriterEvent::CData(content@)),
{
    w.write(xml::writer::XmlEvent::CData(content))
}

/// Relies on xml's `EventWriter::write`: on success the end tag of the
/// most recently opened element is appended to the output. The only
/// error on a byte buffer is an end tag with no element open, returned
/// before anything is written, so the write succeeds whenever the
/// history leaves an element open.
#[verifier::external_body]
fn write_end_element(w: &mut xml::writer::EventWriter<Vec<u8>>) -> (r: Result<
    (),
    xml::writer::Error,
>)
    ensures
        open_depth(writer_events(*old(w))) > 0 ==> r is Ok,
        r is Ok ==> writer_events(*final(w)) == writer_events(*old(w)).push(
            WriterEvent::EndElement,
        ),
        r is Err ==> writer_events(*final(w)) == writer_events(*old(w)),
{
    w.write(xml::writer::XmlEvent::end_element())
}

/// Relies on xml's `EventWriter::into_inner`: the buffer the writer
/// built by `writer_new` has accumulated, which is the deterministic
/// rendering of the events written to it.
#[verifier::external_body]
fn writer_into_bytes(w: xml::writer::EventWriter<Vec<u8>>) -> (r: Vec<u8>)
    ensures
        r@ == rendered_bytes(writer_events(w)),
{
    w.into_inner()
}

/// The events one element writes: its start tag, its text payload when
/// it has one and no children, its children in document order, and its
/// end tag.
pub open spec fn events_of(n: NodeView) -> Seq<WriterEvent>
    decreases n,
{
    seq![WriterEvent::StartElement { name: n.name, attributes: n.attrs }] + (if n.content
        is Some && n.children.len() == 0 {
        seq![WriterEvent::CData(n.content->0)]
    } else {
        Seq::empty()
    }) + events_of_children(n.children) + seq![WriterEvent::EndElement]
}

/// The concatenated events of a sequence of elements.
pub open spec fn events_of_children(s: Seq<NodeView>) -> Seq<WriterEvent>
    decreases s,
{
    if s.len() == 0 {
        Seq::empty()
    } else {
        events_of_children(s.drop_last()) + events_of(s.last())
    }
}

/// The full event stream of a document: the declaration, then the
/// tree's events.
pub open spec fn document_events(n: NodeView) -> Seq<WriterEvent> {
    seq![WriterEvent::StartDocument] + events_of(n)
}

/// Concatenating event histories adds their open depths.
pub proof fn lemma_open_depth_concat(a: Seq<WriterEvent>, b: Seq<WriterEvent>)
    ensures
        open_depth(a + b) == open_depth(a) + open_depth(b),
    decreases b.len(),
{
    if b.len() == 0 {
        assert(a + b =~= a);
    } else {
        assert((a + b).drop_last() =~= a + b.drop_last());
        lemma_open_depth_concat(a, b.drop_last());
    }
}

/// Appending one event adds that event's contribution to the depth.
pub proof fn lemma_open_depth_push(events: Seq<WriterEvent>, e: WriterEvent)
    ensures
        open_depth(events.push(e)) == open_depth(events) + event_depth(e),
{
    assert(events.push(e).drop_last() =~= events);
    assert(events.push(e).last() == e);
}

/// One element's events leave no element open: they hold as many end
/// tags as start tags, here and in every subtree.
pub proof fn lemma_events_of_depth(n: NodeView)
    ensures
        open_depth(events_of(n)) == 0,
    decreases n,
{
    let start = seq![WriterEvent::StartElement { name: n.name, attributes: n.attrs }];
    let mid = if n.content is Some && n.children.len() == 0 {
        seq![WriterEvent::CData(n.content->0)]
    } else {
        Seq::<WriterEvent>::empty()
    };
    let kids = events_of_children(n.children);
    let end = seq![WriterEvent::EndElement];
    lemma_events_of_children_depth(n.children);
    lemma_open_depth_concat(start, mid);
    lemma_open_depth_concat(start + mid, kids);
    lemma_open_depth_concat(start + mid + kids, end);
    assert(open_depth(start.drop_last()) == 0);
    assert(open_depth(start) == 1);
    assert(open_depth(mid) <= 0 && open_depth(mid) >= 0) by {
        if mid.len() > 0 {
            assert(open_depth(mid.drop_last()) == 0);
        }
    }
    assert(open_depth(end.drop_last()) == 0);
    assert(open_depth(end) == -1);
}

/// A child sequence's events leave no element open.
pub proof fn lemma_events_of_children_depth(s: Seq<NodeView>)
    ensures
        open_depth(events_of_children(s)) == 0,
    decreases s,
{
    if s.len() > 0 {
        lemma_events_of_children_depth(s.drop_last());
        lemma_events_of_depth(s.last());
        lemma_open_depth_concat(events_of_children(s.drop_last()), events_of(s.last()));
    }
}

/// Write one element depth-first: the start tag with all attributes,
/// the text content as character data only when there are no children,
/// each child in document order, then the end tag. The emitter accepts
/// every event this traversal hands it, so the write always succeeds.
#[verifier::loop_isolation(false)]
pub fn recurse_write_xml(
    writer: &mut xml::writer::EventWriter<Vec<u8>>,
    treenode: &Node,
) -> (r: Result<(), GenError>)
    requires
        open_depth(writer_events(*old(writer))) >= 0,
    ensures
        r is Ok,
        writer_events(*final(writer)) == writer_events(*old(writer)) + events_of(treenode@),
    decreases *treenode,
{
    let ghost base = writer_events(*writer);
    let ghost start_event = WriterEvent::StartElement {
        name: treenode@.name,
        attributes: treenode@.attrs,
    };
    match write_start_element(writer, treenode.name.as_str(), &treenode.attributes) {
        Ok(()) => {
        },
        Err(_) => {
            return unreached();
        },
    }
    proof {
        lemma_open_depth_push(base, start_event);
    }
    if let Some(content) = &treenode.content {
        if treenode.children.len() == 0 {
            let ghost pre_cdata = writer_events(*writer);
            match write_cdata(writer, content.as_str()) {
                Ok(()) => {
                },
                Err(_) => {
                    return unreached();
                },
            }
            proof {
                lemma_open_depth_push(pre_cdata, WriterEvent::CData(content@));
            }
        }
    }
    let ghost open_part = writer_events(*writer);
    proof {
        assert(open_depth(open_part) == open_depth(base) + 1);
    }
    let mut i: usize = 0;
    while i < treenode.children.len()
        invariant
            i <= treenode.children.len(),
            writer_events(*writer) == open_part + events_of_children(
                views_of(treenode.children@).subrange(0, i as int),
            ),
        decreases treenode.children.len() - i,
    {
        proof {
            lemma_views_of(treenode.children@);
            let prefix = views_of(treenode.children@).subrange(0, i as int);
            lemma_open_depth_concat(open_part, events_of_children(prefix));
            lemma_events_of_children_depth(prefix);
        }
        match recurse_write_xml(writer, &treenode.children[i]) {
            Ok(()) => {
            },
            Err(_) => {
                return unreached();
            },
        }
        proof {
            let cs = views_of(treenode.children@);
            assert(cs.subrange(0, i as int + 1).drop_last() =~= cs.subrange(0, i as int));
            assert(cs.subrange(0, i as int + 1).last() == cs[i as int]);
            assert(writer_events(*writer) =~= open_part + events_of_children(
                cs.subrange(0, i as int + 1),
            ));
        }
        i += 1;
    }
    proof {
        lemma_views_of(treenode.children@);
        let cs = views_of(treenode.children@);
        assert(cs.subrange(0, cs.len() as int) =~= cs);
        lemma_open_depth_concat(open_part, events_of_children(cs));
        lemma_events_of_children_depth(cs);
    }
    match write_end_element(writer) {
        Ok(()) => {
        },
        Err(_) => {
            return unreached();
        },
    }
    proof {
        assert(writer_events(*writer) =~= base + events_of(treenode@));
    }
    Ok(())
}

/// Serialize a document tree to the bytes of a complete XML document:
/// the declaration followed by the depth-first rendering of the tree.
/// The declaration goes to a fresh writer and the tree's events are
/// balanced, so the serialization always succeeds.
pub fn write_xml_document(treenode: &Node) -> (r: Result<Vec<u8>, GenError>)
    ensures
        r is Ok,
        r->Ok_0@ == rendered_bytes(document_events(treenode@)),
{
    let mut writer = writer_new();
    match write_start_document(&mut writer) {
        Ok(()) => {
        },
        Err(_) => {
            return unreached();
        },
    }
    proof {
        lemma_open_depth_push(Seq::<WriterEvent>::empty(), WriterEvent::StartDocument);
    }
    match recurse_write_xml(&mut writer, treenode) {
        Ok(()) => {
        },
        Err(_) => {
            return unreached();
        },
    }
    proof {
        assert(Seq::<WriterEvent>::empty().push(WriterEvent::StartDocument) + events_of(
            treenode@,
        ) =~= document_events(treenode@));
    }
    Ok(writer_into_bytes(writer))
}

} // verus!
