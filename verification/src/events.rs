//! XML documents as sequences of plain events. `quick_xml` reads the text;
//! everything the library decides, it decides on these values.
use quick_xml::events::Event;
use vstd::prelude::*;
use vstd::slice::slice_subrange;
use vstd::utf8::{decode_utf8, valid_utf8};

verus! {

/// A `quick_xml::Reader` that stands somewhere in a document's text.
#[verifier::external_body]
pub struct XmlReader<'a> {
    inner: quick_xml::Reader<&'a [u8]>,
}

/// `quick_xml::Error`, carried through as an opaque value.
#[verifier::external_type_specification]
#[verifier::external_body]
pub struct ExXmlError(quick_xml::Error);

/// The kinds of event that a reader hands out.
#[derive(Clone, Copy, Debug, PartialEq, Eq, Structural)]
pub enum EventKind {
    /// `<tag attr="value">`
    Start,
    /// `</tag>`
    End,
    /// `<tag attr="value"/>`
    Empty,
    /// Character data between tags.
    Text,
    Comment,
    CData,
    Decl,
    PI,
    DocType,
    /// The end of the document.
    Eof,
}

/// One event as the reader hands it out: its kind, its undecoded bytes and,
/// for a tag, the length of the tag's name within them.
pub struct RawEvent {
    pub kind: EventKind,
    pub bytes: Vec<u8>,
    pub name_len: usize,
}

/// One event as plain values: its kind, its bytes and the length of the
/// name within them.
pub type Record = (EventKind, Seq<u8>, usize);

/// A raw event as plain values.
pub open spec fn record_of(raw: RawEvent) -> Record {
    (raw.kind, raw.bytes@, raw.name_len)
}

/// One attribute of a tag; the value is as written, still escaped.
#[derive(Clone, Debug, PartialEq, Eq)]
pub struct XmlAttribute {
    pub key: String,
    pub value: String,
}

/// One event with its parts decoded.
#[derive(Clone, Debug, PartialEq, Eq)]
pub struct XmlEvent {
    pub kind: EventKind,
    /// The qualified name of a `Start`, `Empty` or `End` event, else empty.
    pub name: String,
    /// The attributes of a `Start` or `Empty` event, else none.
    pub attributes: Vec<XmlAttribute>,
    /// The unescaped characters of a `Text` event; `None` for another kind
    /// and for text whose escapes are malformed.
    pub text: Option<String>,
    /// The event's bytes as they stood in the document.
    pub bytes: Vec<u8>,
    /// The length of the name within `bytes`, for a `Start` or `Empty` event.
    pub name_len: usize,
}

/// The text that `String::from_utf8_lossy` makes of `bytes`: where they
/// are valid UTF-8, the text that they encode.
pub uninterp spec fn utf8_text(bytes: Seq<u8>) -> Seq<char>;

/// What `quick_xml::escape::unescape` makes of `bytes`; `None` where it
/// reports a malformed escape.
pub uninterp spec fn unescaped(bytes: Seq<u8>) -> Option<Seq<u8>>;

/// What `quick_xml::events::attributes::Attributes` yields for a tag's
/// content whose name is `name_len` bytes long: for each attribute its key
/// and raw value, or nothing where the attribute is malformed.
pub uninterp spec fn tag_attributes(content: Seq<u8>, name_len: nat) -> Seq<
    Option<(Seq<u8>, Seq<u8>)>,
>;

/// What a `quick_xml::Reader` hands out of the text `xml` when it is read
/// from its start: the events before the end of the document or before the
/// reader's first error, and whether it is an error that ends them.
pub uninterp spec fn document_events(xml: Seq<char>) -> (Seq<Record>, bool);

/// The events that the reader has yet to hand out before the end of the
/// document or its first error.
pub uninterp spec fn events_ahead(reader: XmlReader) -> Seq<Record>;

/// Whether it is an error, not the end of the document, that follows the
/// events ahead.
pub uninterp spec fn error_ahead(reader: XmlReader) -> bool;

/// Calls `quick_xml::Reader::from_str`: a reader at the start of `xml`.
/// Trusted: what the reader will hand out depends on the text alone.
#[verifier::external_body]
fn reader_of<'a>(xml: &'a str) -> (reader: XmlReader<'a>)
    ensures
        events_ahead(reader) == document_events(xml@).0,
        error_ahead(reader) == document_events(xml@).1,
{
    XmlReader { inner: quick_xml::Reader::from_str(xml) }
}

/// Calls `quick_xml::Reader::read_event` and copies the event out: its
/// kind, its bytes and, for a tag, the length of `BytesStart::name`.
/// Trusted: the reader hands out the first of the events ahead and keeps
/// the others; where none is ahead it reports the end of the document or,
/// where an error is ahead, the error.
#[verifier::external_body]
fn next_event(reader: &mut XmlReader) -> (r: Result<RawEvent, quick_xml::Error>)
    ensures
        match r {
            Ok(raw) => if raw.kind == EventKind::Eof {
                events_ahead(*old(reader)).len() == 0 && !error_ahead(*old(reader))
            } else {
                events_ahead(*old(reader)).len() > 0 && record_of(raw) == events_ahead(
                    *old(reader),
                )[0] && events_ahead(*final(reader)) == events_ahead(*old(reader)).skip(1)
                    && error_ahead(*final(reader)) == error_ahead(*old(reader))
            },
            Err(_) => events_ahead(*old(reader)).len() == 0 && error_ahead(*old(reader)),
        },
{
    let mut buffer = Vec::new();
    let event = reader.inner.read_event(&mut buffer)?;
    let name_len = if let Event::Start(e) | Event::Empty(e) = &event { e.name().len() } else { 0 };
    Ok(RawEvent { name_len, bytes: event.to_vec(), kind: match event {
        Event::Start(_) => EventKind::Start,
        Event::Empty(_) => EventKind::Empty,
        Event::End(_) => EventKind::End,
        Event::Text(_) => EventKind::Text,
        Event::Comment(_) => EventKind::Comment,
        Event::CData(_) => EventKind::CData,
        Event::Decl(_) => EventKind::Decl,
        Event::PI(_) => EventKind::PI,
        Event::DocType(_) => EventKind::DocType,
        Event::Eof => EventKind::Eof,
    } })
}

/// Calls `String::from_utf8_lossy`. Trusted: the text depends on the bytes
/// alone, and of bytes that are valid UTF-8 it is the text that they
/// encode.
#[verifier::external_body]
pub(crate) fn utf8_lossy(bytes: &[u8]) -> (r: String)
    ensures
        r@ == utf8_text(bytes@),
        valid_utf8(bytes@) ==> r@ == decode_utf8(bytes@),
{
    String::from_utf8_lossy(bytes).into_owned()
}

/// Calls `quick_xml::escape::unescape`. Trusted: the result depends on the
/// bytes alone.
#[verifier::external_body]
fn unescape(bytes: &[u8]) -> (r: Option<Vec<u8>>)
    ensures
        match r {
            Some(plain) => unescaped(bytes@) == Some(plain@),
            None => unescaped(bytes@) is None,
        },
{
    quick_xml::escape::unescape(bytes).ok().map(|b| b.into_owned())
}

/// Walks `quick_xml::events::attributes::Attributes` over a tag's content
/// and copies out what it yields: each attribute, or nothing in the place
/// of one that is malformed. Trusted: the list depends on the content and
/// the name's length alone.
#[verifier::external_body]
fn attributes_of(content: &[u8], name_len: usize) -> (r: Vec<Option<(Vec<u8>, Vec<u8>)>>)
    ensures
        r.len() == tag_attributes(content@, name_len as nat).len(),
        forall|i: int|
            0 <= i < r.len() ==> match #[trigger] r[i] {
                Some(pair) => tag_attributes(content@, name_len as nat)[i] == Some(
                    (pair.0@, pair.1@),
                ),
                None => tag_attributes(content@, name_len as nat)[i] is None,
            },
{
    quick_xml::events::attributes::Attributes::new(content, name_len)
        .map(|a| a.ok().map(|a| (a.key.to_vec(), a.value.into_owned())))
        .collect()
}

/// The attributes that are well formed, each with key and value as text,
/// in order.
pub open spec fn kept_attributes(items: Seq<Option<(Seq<u8>, Seq<u8>)>>) -> Seq<
    (Seq<char>, Seq<char>),
>
    decreases items.len(),
{
    if items.len() == 0 {
        Seq::empty()
    } else {
        match items.last() {
            Some(pair) => kept_attributes(items.drop_last()).push(
                (utf8_text(pair.0), utf8_text(pair.1)),
            ),
            None => kept_attributes(items.drop_last()),
        }
    }
}

/// The name that an event of the given kind and bytes carries.
pub open spec fn decoded_name(record: Record) -> Seq<char> {
    if record.0 == EventKind::Start || record.0 == EventKind::Empty {
        if record.2 <= record.1.len() {
            utf8_text(record.1.subrange(0, record.2 as int))
        } else {
            utf8_text(record.1)
        }
    } else if record.0 == EventKind::End {
        utf8_text(record.1)
    } else {
        Seq::empty()
    }
}

/// The attributes that an event of the given kind and bytes carries, as
/// pairs of key and value.
pub open spec fn decoded_attributes(record: Record) -> Seq<(Seq<char>, Seq<char>)> {
    if record.0 == EventKind::Start || record.0 == EventKind::Empty {
        kept_attributes(tag_attributes(record.1, record.2 as nat))
    } else {
        Seq::empty()
    }
}

/// The unescaped text that an event of the given kind and bytes carries.
pub open spec fn decoded_text(record: Record) -> Option<Seq<char>> {
    if record.0 == EventKind::Text {
        match unescaped(record.1) {
            Some(bytes) => Some(utf8_text(bytes)),
            None => None,
        }
    } else {
        None
    }
}

/// The attributes of an event, as pairs of key and value.
pub open spec fn attribute_pairs(attributes: Seq<XmlAttribute>) -> Seq<(Seq<char>, Seq<char>)> {
    Seq::new(attributes.len(), |i: int| (attributes[i].key@, attributes[i].value@))
}

impl XmlEvent {
    /// `self` is the decoded form of the event of the given kind and
    /// bytes.
    pub open spec fn decodes_record(self, record: Record) -> bool {
        &&& self.kind == record.0
        &&& self.bytes@ == record.1
        &&& self.name_len == record.2
        &&& self.name@ == decoded_name(record)
        &&& attribute_pairs(self.attributes@) == decoded_attributes(record)
        &&& match self.text {
            Some(text) => decoded_text(record) == Some(text@),
            None => decoded_text(record) is None,
        }
    }

    /// `self` is the decoded form of `raw`.
    pub open spec fn decodes(self, raw: RawEvent) -> bool {
        self.decodes_record(record_of(raw))
    }

    /// The name, the attributes and the text of `self` are those that its
    /// kind and its bytes hold.
    pub open spec fn well_decoded(self) -> bool {
        self.decodes_record((self.kind, self.bytes@, self.name_len))
    }

    /// Decodes the name, the attributes and the text of a raw event.
    pub fn decode(raw: RawEvent) -> (event: XmlEvent)
        ensures
            event.decodes(raw),
            event.well_decoded(),
    {
        let is_tag = raw.kind == EventKind::Start || raw.kind == EventKind::Empty;
        let name = if is_tag {
            if raw.name_len <= raw.bytes.len() {
                utf8_lossy(slice_subrange(raw.bytes.as_slice(), 0, raw.name_len))
            } else {
                utf8_lossy(raw.bytes.as_slice())
            }
        } else if raw.kind == EventKind::End {
            utf8_lossy(raw.bytes.as_slice())
        } else {
            String::new()
        };
        let mut attributes: Vec<XmlAttribute> = Vec::new();
        if is_tag {
            let pairs = attributes_of(raw.bytes.as_slice(), raw.name_len);
            let ghost items = tag_attributes(raw.bytes@, raw.name_len as nat);
            let mut i: usize = 0;
            assert(items.take(0) =~= Seq::empty());
            assert(attribute_pairs(attributes@) =~= kept_attributes(items.take(0)));
            while i < pairs.len()
                invariant
                    i <= pairs.len(),
                    items == tag_attributes(raw.bytes@, raw.name_len as nat),
                    pairs.len() == items.len(),
                    forall|k: int|
                        0 <= k < pairs.len() ==> match #[trigger] pairs[k] {
                            Some(pair) => items[k] == Some((pair.0@, pair.1@)),
                            None => items[k] is None,
                        },
                    attribute_pairs(attributes@) == kept_attributes(items.take(i as int)),
                decreases pairs.len() - i,
            {
                proof {
                    assert(items.take(i + 1).drop_last() =~= items.take(i as int));
                    assert(items.take(i + 1).last() == items[i as int]);
                }
                let ghost before = attributes@;
                match &pairs[i] {
                    Some(pair) => {
                        let key = utf8_lossy(pair.0.as_slice());
                        let value = utf8_lossy(pair.1.as_slice());
                        attributes.push(XmlAttribute { key, value });
                        assert(attribute_pairs(attributes@) =~= attribute_pairs(before).push(
                            (key@, value@),
                        ));
                    },
                    None => {},
                }
                i += 1;
            }
            proof {
                assert(items.take(items.len() as int) =~= items);
            }
        }
        let text = if raw.kind == EventKind::Text {
            match unescape(raw.bytes.as_slice()) {
                Some(bytes) => Some(utf8_lossy(bytes.as_slice())),
                None => None,
            }
        } else {
            None
        };
        proof {
            if !is_tag {
                assert(attribute_pairs(attributes@) =~= decoded_attributes(record_of(raw)));
            }
        }
        XmlEvent { kind: raw.kind, name, attributes, text, bytes: raw.bytes, name_len: raw.name_len }
    }

    /// The value of the first attribute whose key is `key`.
    pub open spec fn attribute(self, key: Seq<char>) -> Option<Seq<char>> {
        first_value(self.attributes@, key)
    }

    /// The value of the first attribute whose key is `key`.
    pub fn get_attribute(&self, key: &str) -> (r: Option<&String>)
        ensures
            match r {
                Some(value) => self.attribute(key@) == Some(value@),
                None => self.attribute(key@) is None,
            },
    {
        let mut i: usize = 0;
        assert(self.attributes@.skip(0) == self.attributes@);
        while i < self.attributes.len()
            invariant
                i <= self.attributes.len(),
                first_value(self.attributes@, key@) == first_value(
                    self.attributes@.skip(i as int),
                    key@,
                ),
            decreases self.attributes.len() - i,
        {
            let ghost rest = self.attributes@.skip(i as int);
            assert(rest.first() == self.attributes@[i as int]);
            assert(rest.drop_first() == self.attributes@.skip(i + 1));
            if self.attributes[i].key.as_str().eq(key) {
                return Some(&self.attributes[i].value);
            }
            i += 1;
        }
        None
    }
}

/// The value of the first attribute in `attributes` whose key is `key`.
pub open spec fn first_value(attributes: Seq<XmlAttribute>, key: Seq<char>) -> Option<Seq<char>>
    decreases attributes.len(),
{
    if attributes.len() == 0 {
        None
    } else if attributes.first().key@ == key {
        Some(attributes.first().value@)
    } else {
        first_value(attributes.drop_first(), key)
    }
}

/// `events` are the decoded forms of `records`, one for one.
pub open spec fn decoded(events: Seq<XmlEvent>, records: Seq<Record>) -> bool {
    &&& events.len() == records.len()
    &&& forall|i: int| 0 <= i < events.len() ==> (#[trigger] events[i]).decodes_record(records[i])
}

/// Reads `xml` to its end. Where the reader meets no error, the result is
/// the events that it hands out before the end of the document, each
/// decoded; where it meets one, the result is its first error.
pub fn read_events(xml: &str) -> (r: Result<Vec<XmlEvent>, quick_xml::Error>)
    ensures
        match r {
            Ok(events) => !document_events(xml@).1 && decoded(events@, document_events(xml@).0),
            Err(_) => document_events(xml@).1,
        },
        r matches Ok(events) ==> forall|i: int|
            0 <= i < events.len() ==> (#[trigger] events[i]).kind != EventKind::Eof
                && events[i].well_decoded(),
{
    let mut reader = reader_of(xml);
    let mut events: Vec<XmlEvent> = Vec::new();
    let ghost all = document_events(xml@).0;
    assert(all.skip(0) =~= all);
    loop
        invariant
            all == document_events(xml@).0,
            events.len() <= all.len(),
            decoded(events@, all.take(events.len() as int)),
            events_ahead(reader) == all.skip(events.len() as int),
            error_ahead(reader) == document_events(xml@).1,
            forall|i: int|
                0 <= i < events.len() ==> (#[trigger] events[i]).kind != EventKind::Eof
                    && events[i].well_decoded(),
        decreases events_ahead(reader).len(),
    {
        let ghost n = events.len() as int;
        match next_event(&mut reader) {
            Err(error) => {
                return Err(error);
            },
            Ok(raw) => {
                if raw.kind == EventKind::Eof {
                    assert(all.take(n) =~= all);
                    return Ok(events);
                }
                let ghost record = record_of(raw);
                let event = XmlEvent::decode(raw);
                events.push(event);
                proof {
                    assert(record == all[n]);
                    assert(all.skip(n).skip(1) =~= all.skip(n + 1));
                    assert forall|i: int| 0 <= i < events.len() implies (#[trigger] events[i]).decodes_record(
                        all.take(n + 1)[i],
                    ) by {
                        if i < n {
                            assert(all.take(n)[i] == all.take(n + 1)[i]);
                        }
                    }
                }
            },
        }
    }
}

} // verus!
