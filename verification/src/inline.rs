//! Inline XML datastreams: each version of a datastream of control group
//! `X` holds its content within the FOXML document, and is written out as
//! a document of its own.
use crate::events::{
    decoded, document_events, read_events, utf8_lossy, utf8_text, EventKind, XmlEvent,
};
use crate::identifiers::{DatastreamIdentifier, DatastreamIdentifierView};
use crate::text::{blank, is_blank};
use quick_xml::events::{BytesDecl, BytesEnd, BytesStart, BytesText, Event};
use vstd::prelude::*;
use vstd::utf8::encode_utf8;

verus! {

/// A `quick_xml::Writer` that indents what it writes and appends it to a
/// vector of bytes.
#[verifier::external_body]
pub struct XmlWriter {
    inner: quick_xml::Writer<Vec<u8>>,
}

/// One event as it was handed to a writer: its kind, its bytes and the
/// length of the name within them.
pub type Written = (EventKind, Seq<u8>, usize);

/// The events that were handed to the writer, in order.
pub uninterp spec fn written(writer: XmlWriter) -> Seq<Written>;

/// The character and the width with which the writer indents.
pub uninterp spec fn indentation(writer: XmlWriter) -> (u8, usize);

/// The bytes that a `quick_xml::Writer` with the given indentation makes
/// of the events that are handed to it.
pub uninterp spec fn indented_xml(events: Seq<Written>, indent_char: u8, indent_size: usize) -> Seq<
    u8,
>;

/// The content of the XML declaration that `quick_xml::events::BytesDecl::new`
/// makes of a version and an encoding, without the `standalone` attribute:
/// `xml version="<version>" encoding="<encoding>"`.
pub open spec fn declaration_bytes(version: Seq<char>, encoding: Seq<char>) -> Seq<u8> {
    encode_utf8("xml version=\""@) + encode_utf8(version) + encode_utf8("\" encoding=\""@)
        + encode_utf8(encoding) + encode_utf8("\""@)
}

/// Calls `quick_xml::Writer::new_with_indent` on an empty vector. Trusted:
/// nothing is written yet.
#[verifier::external_body]
fn new_writer(indent_char: u8, indent_size: usize) -> (writer: XmlWriter)
    ensures
        written(writer) == Seq::<Written>::empty(),
        indentation(writer) == (indent_char, indent_size),
{
    XmlWriter { inner: quick_xml::Writer::new_with_indent(Vec::new(), indent_char, indent_size) }
}

/// Calls `quick_xml::Writer::write_event` with the event of the given kind
/// that is made of the given bytes. Trusted: the event is the last that was
/// written, and the indentation stays. The call fails only where the vector
/// refuses bytes, and a vector takes what is written to it by appending.
#[verifier::external_body]
fn write_event(writer: &mut XmlWriter, kind: EventKind, bytes: &[u8], name_len: usize)
    ensures
        written(*final(writer)) == written(*old(writer)).push((kind, bytes@, name_len)),
        indentation(*final(writer)) == indentation(*old(writer)),
{
    let text = BytesText::from_escaped(bytes);
    let tag = BytesStart::borrowed(bytes, name_len);
    let event = match kind {
        EventKind::Start => Event::Start(tag),
        EventKind::Empty => Event::Empty(tag),
        EventKind::End => Event::End(BytesEnd::borrowed(bytes)),
        EventKind::Text => Event::Text(text),
        EventKind::Comment => Event::Comment(text),
        EventKind::CData => Event::CData(text),
        EventKind::Decl => Event::Decl(BytesDecl::from_start(tag)),
        EventKind::PI => Event::PI(text),
        EventKind::DocType => Event::DocType(text),
        EventKind::Eof => Event::Eof,
    };
    let _ = writer.inner.write_event(event);
}

/// Calls `quick_xml::Writer::into_inner`: the vector of bytes. Trusted: the
/// bytes depend on the events that were written and on the indentation
/// alone.
#[verifier::external_body]
fn finish(writer: XmlWriter) -> (bytes: Vec<u8>)
    ensures
        bytes@ == indented_xml(written(writer), indentation(writer).0, indentation(writer).1),
{
    writer.inner.into_inner()
}

/// Calls `quick_xml::events::BytesDecl::new` without the `standalone`
/// attribute and copies the declaration's content out. Trusted: the
/// content is `xml version="`, the version, `" encoding="`, the encoding
/// and `"`.
#[verifier::external_body]
fn declaration(version: &str, encoding: &str) -> (bytes: Vec<u8>)
    ensures
        bytes@ == declaration_bytes(version@, encoding@),
{
    BytesDecl::new(version.as_bytes(), Some(encoding.as_bytes()), None).to_vec()
}

/// What can be wrong with the events of a FOXML document.
#[derive(Clone, Copy, Debug, PartialEq, Eq, Structural)]
pub enum InlineFault {
    /// The document holds no `foxml:digitalObject`.
    MissingObject,
    /// An element lacks its `PID` or `ID`.
    MissingAttribute,
    /// The escapes of a text within a content are malformed.
    MalformedText,
    /// The document ends within a content.
    UnclosedContent,
}

/// Why the inline datastreams of a FOXML document could not be had.
#[derive(Debug)]
pub enum InlineError {
    /// The reader's own error.
    QuickXMLError(quick_xml::Error),
    /// The document was read, and its events are at fault.
    Invalid(InlineFault),
}

/// Where the extractor stands in a document.
#[derive(Clone, Copy, Debug, PartialEq, Eq, Structural)]
pub enum Phase {
    /// Before the `foxml:digitalObject`.
    SeekObject,
    /// Between datastreams, or within one that is not inline.
    SeekDatastream,
    /// Within an inline datastream, between versions.
    SeekVersion,
    /// Within the content of a version.
    InContent,
}

/// One inline version that was found: its identifier and the places of
/// the events that make its content.
pub struct InlineVersion {
    pub identifier: DatastreamIdentifier,
    pub selected: Vec<usize>,
}

/// An inline version as plain mathematical values.
pub struct InlineVersionView {
    pub identifier: DatastreamIdentifierView,
    pub selected: Seq<usize>,
}

impl View for InlineVersion {
    type V = InlineVersionView;

    open spec fn view(&self) -> InlineVersionView {
        InlineVersionView { identifier: self.identifier@, selected: self.selected@ }
    }
}

/// The views of a list of inline versions.
pub open spec fn version_views(versions: Seq<InlineVersion>) -> Seq<InlineVersionView> {
    Seq::new(versions.len(), |i: int| versions[i]@)
}

/// What the extractor knows at some place of a document.
pub struct Progress {
    pub phase: Phase,
    pub pid: Seq<char>,
    pub dsid: Seq<char>,
    pub version: Seq<char>,
    pub selected: Seq<usize>,
    pub found: Seq<InlineVersionView>,
}

/// The event opens a datastream of control group `X`.
pub open spec fn is_inline_datastream(e: XmlEvent) -> bool {
    e.kind == EventKind::Start && e.name@ == "foxml:datastream"@ && e.attribute("CONTROL_GROUP"@)
        == Some("X"@)
}

/// What the extractor knows before the first event.
pub open spec fn start() -> Progress {
    Progress {
        phase: Phase::SeekObject,
        pid: Seq::empty(),
        dsid: Seq::empty(),
        version: Seq::empty(),
        selected: Seq::empty(),
        found: Seq::empty(),
    }
}

/// What the extractor knows behind the event `e` at place `at`, given
/// what it knew before it.
pub open spec fn step(p: Progress, e: XmlEvent, at: usize) -> Result<Progress, InlineFault> {
    match p.phase {
        Phase::SeekObject => if e.kind == EventKind::Start && e.name@ == "foxml:digitalObject"@ {
            match e.attribute("PID"@) {
                Some(pid) => Ok(Progress { phase: Phase::SeekDatastream, pid, ..p }),
                None => Err(InlineFault::MissingAttribute),
            }
        } else {
            Ok(p)
        },
        Phase::SeekDatastream => if is_inline_datastream(e) {
            match e.attribute("ID"@) {
                Some(dsid) => Ok(Progress { phase: Phase::SeekVersion, dsid, ..p }),
                None => Err(InlineFault::MissingAttribute),
            }
        } else {
            Ok(p)
        },
        Phase::SeekVersion => if e.kind == EventKind::Start && e.name@
            == "foxml:datastreamVersion"@ {
            match e.attribute("ID"@) {
                Some(version) => Ok(
                    Progress { phase: Phase::InContent, version, selected: Seq::empty(), ..p },
                ),
                None => Err(InlineFault::MissingAttribute),
            }
        } else if e.kind == EventKind::End && e.name@ == "foxml:datastream"@ {
            Ok(Progress { phase: Phase::SeekDatastream, ..p })
        } else {
            Ok(p)
        },
        Phase::InContent => if e.kind == EventKind::Start && e.name@ == "foxml:xmlContent"@ {
            Ok(p)
        } else if e.kind == EventKind::End && e.name@ == "foxml:xmlContent"@ {
            Ok(
                Progress {
                    phase: Phase::SeekVersion,
                    selected: Seq::empty(),
                    found: p.found.push(
                        InlineVersionView {
                            identifier: DatastreamIdentifierView {
                                pid: p.pid,
                                dsid: p.dsid,
                                version: p.version,
                            },
                            selected: p.selected,
                        },
                    ),
                    ..p
                },
            )
        } else if e.kind == EventKind::Text {
            match e.text {
                None => Err(InlineFault::MalformedText),
                Some(text) => if blank(text@) {
                    Ok(p)
                } else {
                    Ok(Progress { selected: p.selected.push(at), ..p })
                },
            }
        } else {
            Ok(Progress { selected: p.selected.push(at), ..p })
        },
    }
}

/// What the extractor knows behind the first `upto` events.
pub open spec fn progress(events: Seq<XmlEvent>, upto: int) -> Result<Progress, InlineFault>
    decreases upto,
{
    if upto <= 0 {
        Ok(start())
    } else {
        match progress(events, upto - 1) {
            Ok(p) => step(p, events[upto - 1], (upto - 1) as usize),
            Err(fault) => Err(fault),
        }
    }
}

/// The inline versions of a document, in document order: each with the
/// places of the events of its content, which are all events between the
/// version's start and the end of its `foxml:xmlContent` but the opening
/// tag of that element and every text that is blank.
pub open spec fn inline_versions(events: Seq<XmlEvent>) -> Result<Seq<InlineVersionView>, InlineFault> {
    match progress(events, events.len() as int) {
        Ok(p) => match p.phase {
            Phase::SeekObject => Err(InlineFault::MissingObject),
            Phase::InContent => Err(InlineFault::UnclosedContent),
            _ => Ok(p.found),
        },
        Err(fault) => Err(fault),
    }
}

/// A fault that is met stays to the end of the document.
pub proof fn lemma_fault_stays(events: Seq<XmlEvent>, at: int, upto: int)
    requires
        0 <= at <= upto,
        progress(events, at) is Err,
    ensures
        progress(events, upto) == progress(events, at),
    decreases upto - at,
{
    if at < upto {
        lemma_fault_stays(events, at, upto - 1);
    }
}

/// The events at the given places, as they are handed to a writer.
pub open spec fn records_of(events: Seq<XmlEvent>, selected: Seq<usize>) -> Seq<Written> {
    Seq::new(
        selected.len(),
        |i: int|
            (
                events[selected[i] as int].kind,
                events[selected[i] as int].bytes@,
                events[selected[i] as int].name_len,
            ),
    )
}

/// What is handed to the writer for the events at the given places: an
/// XML declaration of version 1.0 and encoding UTF-8, then the events.
pub open spec fn document_records(events: Seq<XmlEvent>, selected: Seq<usize>) -> Seq<Written> {
    seq![(EventKind::Decl, declaration_bytes("1.0"@, "UTF-8"@), 3usize)] + records_of(
        events,
        selected,
    )
}

/// The document that is made of the events at the given places: an XML
/// declaration of version 1.0 and encoding UTF-8, then the events,
/// indented by two spaces.
pub open spec fn document_of(events: Seq<XmlEvent>, selected: Seq<usize>) -> Seq<char> {
    utf8_text(indented_xml(document_records(events, selected), 0x20, 2))
}

/// Every place lies within the events.
pub open spec fn places_within(selected: Seq<usize>, len: int) -> bool {
    forall|i: int| 0 <= i < selected.len() ==> #[trigger] selected[i] < len
}

/// Finds the inline versions of a document.
pub fn find_inline_versions(events: &Vec<XmlEvent>) -> (r: Result<Vec<InlineVersion>, InlineFault>)
    ensures
        match inline_versions(events@) {
            Ok(found) => r matches Ok(versions) && version_views(versions@) == found && forall|
                i: int,
            |
                0 <= i < versions.len() ==> places_within(
                    (#[trigger] versions[i]).selected@,
                    events.len() as int,
                ),
            Err(fault) => r matches Err(f) && f == fault,
        },
{
    let mut phase = Phase::SeekObject;
    let mut pid = String::new();
    let mut dsid = String::new();
    let mut version = String::new();
    let mut selected: Vec<usize> = Vec::new();
    let mut found: Vec<InlineVersion> = Vec::new();
    let mut i: usize = 0;
    assert(version_views(found@) =~= Seq::empty());
    while i < events.len()
        invariant
            i <= events.len(),
            progress(events@, i as int) == Ok::<Progress, InlineFault>(
                Progress {
                    phase,
                    pid: pid@,
                    dsid: dsid@,
                    version: version@,
                    selected: selected@,
                    found: version_views(found@),
                },
            ),
            places_within(selected@, i as int),
            forall|k: int|
                0 <= k < found.len() ==> places_within((#[trigger] found[k]).selected@, i as int),
        decreases events.len() - i,
    {
        let e = &events[i];
        let ghost before = Progress {
            phase,
            pid: pid@,
            dsid: dsid@,
            version: version@,
            selected: selected@,
            found: version_views(found@),
        };
        proof {
            assert(progress(events@, i + 1) == step(before, *e, i));
            if step(before, *e, i) is Err {
                lemma_fault_stays(events@, i + 1, events.len() as int);
            }
        }
        let name = e.name.as_str();
        match phase {
            Phase::SeekObject => {
                if e.kind == EventKind::Start && name.eq("foxml:digitalObject") {
                    match e.get_attribute("PID") {
                        Some(value) => {
                            pid = value.clone();
                            phase = Phase::SeekDatastream;
                        },
                        None => {
                            return Err(InlineFault::MissingAttribute);
                        },
                    }
                }
            },
            Phase::SeekDatastream => {
                let inline = e.kind == EventKind::Start && name.eq("foxml:datastream") && match e.get_attribute(
                    "CONTROL_GROUP",
                ) {
                    Some(group) => group.as_str().eq("X"),
                    None => false,
                };
                if inline {
                    match e.get_attribute("ID") {
                        Some(value) => {
                            dsid = value.clone();
                            phase = Phase::SeekVersion;
                        },
                        None => {
                            return Err(InlineFault::MissingAttribute);
                        },
                    }
                }
            },
            Phase::SeekVersion => {
                if e.kind == EventKind::Start && name.eq("foxml:datastreamVersion") {
                    match e.get_attribute("ID") {
                        Some(value) => {
                            version = value.clone();
                            selected = Vec::new();
                            phase = Phase::InContent;
                        },
                        None => {
                            return Err(InlineFault::MissingAttribute);
                        },
                    }
                } else if e.kind == EventKind::End && name.eq("foxml:datastream") {
                    phase = Phase::SeekDatastream;
                }
            },
            Phase::InContent => {
                if e.kind == EventKind::Start && name.eq("foxml:xmlContent") {
                } else if e.kind == EventKind::End && name.eq("foxml:xmlContent") {
                    let mut taken: Vec<usize> = Vec::new();
                    std::mem::swap(&mut taken, &mut selected);
                    let ghost old_found = found@;
                    let made = InlineVersion {
                        identifier: DatastreamIdentifier {
                            pid: pid.clone(),
                            dsid: dsid.clone(),
                            version: version.clone(),
                        },
                        selected: taken,
                    };
                    found.push(made);
                    assert(version_views(found@) =~= version_views(old_found).push(made@));
                    phase = Phase::SeekVersion;
                } else if e.kind == EventKind::Text {
                    match &e.text {
                        None => {
                            return Err(InlineFault::MalformedText);
                        },
                        Some(text) => {
                            if !is_blank(text.as_str()) {
                                selected.push(i);
                            }
                        },
                    }
                } else {
                    selected.push(i);
                }
            },
        }
        i += 1;
    }
    match phase {
        Phase::SeekObject => Err(InlineFault::MissingObject),
        Phase::InContent => Err(InlineFault::UnclosedContent),
        _ => Ok(found),
    }
}


/// Writes the content of one inline version as a document of its own: the
/// declaration and the events at the given places, as the writer indents
/// them.
pub fn extract_inline_datastream_version(events: &Vec<XmlEvent>, selected: &Vec<usize>) -> (r:
    String)
    requires
        places_within(selected@, events.len() as int),
    ensures
        r@ == document_of(events@, selected@),
{
    let mut writer = new_writer(0x20, 2);
    let header = declaration("1.0", "UTF-8");
    let ghost first = seq![(EventKind::Decl, declaration_bytes("1.0"@, "UTF-8"@), 3usize)];
    write_event(&mut writer, EventKind::Decl, header.as_slice(), 3);
    assert(written(writer) =~= first + records_of(events@, selected@.take(0)));
    let mut i: usize = 0;
    while i < selected.len()
        invariant
            i <= selected.len(),
            places_within(selected@, events.len() as int),
            indentation(writer) == (0x20u8, 2usize),
            first == seq![(EventKind::Decl, declaration_bytes("1.0"@, "UTF-8"@), 3usize)],
            written(writer) == first + records_of(events@, selected@.take(i as int)),
        decreases selected.len() - i,
    {
        let e = &events[selected[i]];
        write_event(&mut writer, e.kind, e.bytes.as_slice(), e.name_len);
        assert(records_of(events@, selected@.take(i + 1)) =~= records_of(
            events@,
            selected@.take(i as int),
        ).push((e.kind, e.bytes@, e.name_len)));
        assert(written(writer) =~= first + records_of(events@, selected@.take(i + 1)));
        i += 1;
    }
    assert(selected@.take(selected.len() as int) == selected@);
    let bytes = finish(writer);
    utf8_lossy(bytes.as_slice())
}

/// `documents` holds the inline versions of `events`, each with its
/// content as a document of its own, in document order.
pub open spec fn extracts(events: Seq<XmlEvent>, documents: Seq<(DatastreamIdentifier, String)>) -> bool {
    inline_versions(events) matches Ok(found) && documents.len() == found.len() && forall|i: int|
        0 <= i < documents.len() ==> (#[trigger] documents[i]).0@ == found[i].identifier
            && documents[i].1@ == document_of(events, found[i].selected)
}

/// What is made of the events of a FOXML document: the fault of the
/// events where they are at fault; else the inline versions, each with its
/// content as a document of its own.
pub open spec fn extraction_of(
    events: Seq<XmlEvent>,
    r: Result<Vec<(DatastreamIdentifier, String)>, InlineError>,
) -> bool {
    match inline_versions(events) {
        Ok(_) => r matches Ok(documents) && extracts(events, documents@),
        Err(fault) => r matches Err(InlineError::Invalid(f)) && f == fault,
    }
}

/// The inline versions of the events of a FOXML document, each with its
/// content as a document of its own, in document order.
pub fn extract_from_events(events: &Vec<XmlEvent>) -> (r: Result<
    Vec<(DatastreamIdentifier, String)>,
    InlineError,
>)
    ensures
        extraction_of(events@, r),
{
    let versions = match find_inline_versions(events) {
        Ok(versions) => versions,
        Err(fault) => {
            return Err(InlineError::Invalid(fault));
        },
    };
    let ghost found = version_views(versions@);
    let mut stack = crate::order::reversed(versions);
    let mut documents: Vec<(DatastreamIdentifier, String)> = Vec::new();
    while stack.len() > 0
        invariant
            stack.len() <= found.len(),
            inline_versions(events@) == Ok::<Seq<InlineVersionView>, InlineFault>(found),
            documents.len() == found.len() - stack.len(),
            forall|k: int|
                0 <= k < stack.len() ==> (#[trigger] stack[k])@ == found[found.len() - 1 - k]
                    && places_within(stack[k].selected@, events.len() as int),
            forall|i: int|
                0 <= i < documents.len() ==> (#[trigger] documents[i]).0@ == found[i].identifier
                    && documents[i].1@ == document_of(events@, found[i].selected),
        decreases stack.len(),
    {
        let version = stack.pop().unwrap();
        let document = extract_inline_datastream_version(events, &version.selected);
        documents.push((version.identifier, document));
    }
    Ok(documents)
}

/// Extracts the inline datastreams of a FOXML document: the reader's
/// error where the reader meets one; else what `extract_from_events` makes
/// of the events that the reader hands out, each decoded.
pub fn extract_inline_datastreams(foxml: &str) -> (r: Result<
    Vec<(DatastreamIdentifier, String)>,
    InlineError,
>)
    ensures
        document_events(foxml@).1 ==> r matches Err(InlineError::QuickXMLError(_)),
        !document_events(foxml@).1 ==> exists|events: Seq<XmlEvent>|
            decoded(events, document_events(foxml@).0) && #[trigger] extraction_of(events, r),
        r matches Ok(documents) ==> exists|events: Seq<XmlEvent>|
            #[trigger] extracts(events, documents@),
{
    match read_events(foxml) {
        Err(error) => Err(InlineError::QuickXMLError(error)),
        Ok(events) => {
            let r = extract_from_events(&events);
            proof {
                assert(decoded(events@, document_events(foxml@).0) && extraction_of(events@, r));
                if r is Ok {
                    assert(extracts(events@, r->Ok_0@));
                }
            }
            r
        },
    }
}

} // verus!
