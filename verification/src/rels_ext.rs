//! The RELS-EXT datastream: an object's relations to other objects, read
//! from the events of its RDF/XML document.
#![allow(non_snake_case)]

use crate::events::{decoded, document_events, read_events, EventKind, XmlEvent};
use crate::text::{
    blank, chars_of, has_prefix, is_blank, lenient_integer, lowercase, parse_lenient_integer,
    slice_of, starts_with, string_of, texts, to_lowercase,
};
use vstd::prelude::*;
use vstd::string::StringSliceAdditionalSpecFns;
use vstd::utf8::{
    decode_utf8, encode_scalar, encode_utf8, encode_utf8_decode_utf8, encode_utf8_first_scalar,
    encode_utf8_valid_utf8, is_ascii_chars, is_char_boundary, pop_first_scalar,
};

verus! {

/// The number of bytes of `info:fedora/`, which are left off the front of
/// every resource that a RELS-EXT names.
pub const PREFIX_LENGTH: usize = 12;

/// What can be wrong with the events of a RELS-EXT document.
#[derive(Clone, Copy, Debug, PartialEq, Eq, Structural)]
pub enum RelsExtFault {
    /// An element lacks the attribute that names its resource, or the
    /// attribute is shorter than the prefix that is left off, or the
    /// prefix ends within a character.
    MissingAttribute,
    /// The document ends before the text that an element should hold.
    MissingText,
    /// The escapes of a text are malformed.
    MalformedText,
    /// The text of a boolean element is neither `true` nor `false`.
    InvalidBoolean,
}

/// Why a RELS-EXT document could not be read.
#[derive(Debug)]
pub enum RelsExtError {
    /// The reader's own error.
    QuickXMLError(quick_xml::Error),
    /// The document was read, and its events are at fault.
    Invalid(RelsExtFault),
}

/// The relations of the Fedora ontologies whose elements name a resource.
#[derive(Clone, Copy, Debug, PartialEq, Eq, Structural)]
pub enum Relation {
    HasModel,
    FedoraRelationship,
    HasAnnotation,
    HasCollectionMember,
    HasConstituent,
    HasDependent,
    HasDerivation,
    HasDescription,
    HasEquivalent,
    HasMember,
    HasMetadata,
    HasPart,
    HasSubset,
    IsAnnotationOf,
    IsConstituentOf,
    IsDependentOf,
    IsDerivationOf,
    IsDescriptionOf,
    IsMemberOf,
    IsMemberOfCollection,
    IsMetadataFor,
    IsPartOf,
    IsSubsetOf,
}

/// The relation that an element of the given qualified name states.
pub open spec fn relation_named(name: Seq<char>) -> Option<Relation> {
    if name == "fedora-model:hasModel"@ {
        Some(Relation::HasModel)
    } else if name == "fedora:fedoraRelationship"@ {
        Some(Relation::FedoraRelationship)
    } else if name == "fedora:hasAnnotation"@ {
        Some(Relation::HasAnnotation)
    } else if name == "fedora:hasCollectionMember"@ {
        Some(Relation::HasCollectionMember)
    } else if name == "fedora:hasConstituent"@ {
        Some(Relation::HasConstituent)
    } else if name == "fedora:hasDependent"@ {
        Some(Relation::HasDependent)
    } else if name == "fedora:hasDerivation"@ {
        Some(Relation::HasDerivation)
    } else if name == "fedora:hasDescription"@ {
        Some(Relation::HasDescription)
    } else if name == "fedora:hasEquivalent"@ {
        Some(Relation::HasEquivalent)
    } else if name == "fedora:hasMember"@ {
        Some(Relation::HasMember)
    } else if name == "fedora:hasMetadata"@ {
        Some(Relation::HasMetadata)
    } else if name == "fedora:hasPart"@ {
        Some(Relation::HasPart)
    } else if name == "fedora:hasSubset"@ {
        Some(Relation::HasSubset)
    } else if name == "fedora:isAnnotationOf"@ {
        Some(Relation::IsAnnotationOf)
    } else if name == "fedora:isConstituentOf"@ {
        Some(Relation::IsConstituentOf)
    } else if name == "fedora:isDependentOf"@ {
        Some(Relation::IsDependentOf)
    } else if name == "fedora:isDerivationOf"@ {
        Some(Relation::IsDerivationOf)
    } else if name == "fedora:isDescriptionOf"@ {
        Some(Relation::IsDescriptionOf)
    } else if name == "fedora:isMemberOf"@ {
        Some(Relation::IsMemberOf)
    } else if name == "fedora:isMemberOfCollection"@ {
        Some(Relation::IsMemberOfCollection)
    } else if name == "fedora:isMetadataFor"@ {
        Some(Relation::IsMetadataFor)
    } else if name == "fedora:isPartOf"@ {
        Some(Relation::IsPartOf)
    } else if name == "fedora:isSubsetOf"@ {
        Some(Relation::IsSubsetOf)
    } else {
        None
    }
}

impl Relation {
    /// The relation that an element of the given qualified name states.
    pub fn named(name: &str) -> (r: Option<Relation>)
        ensures
            r == relation_named(name@),
    {
        if name.eq("fedora-model:hasModel") {
            Some(Relation::HasModel)
        } else if name.eq("fedora:fedoraRelationship") {
            Some(Relation::FedoraRelationship)
        } else if name.eq("fedora:hasAnnotation") {
            Some(Relation::HasAnnotation)
        } else if name.eq("fedora:hasCollectionMember") {
            Some(Relation::HasCollectionMember)
        } else if name.eq("fedora:hasConstituent") {
            Some(Relation::HasConstituent)
        } else if name.eq("fedora:hasDependent") {
            Some(Relation::HasDependent)
        } else if name.eq("fedora:hasDerivation") {
            Some(Relation::HasDerivation)
        } else if name.eq("fedora:hasDescription") {
            Some(Relation::HasDescription)
        } else if name.eq("fedora:hasEquivalent") {
            Some(Relation::HasEquivalent)
        } else if name.eq("fedora:hasMember") {
            Some(Relation::HasMember)
        } else if name.eq("fedora:hasMetadata") {
            Some(Relation::HasMetadata)
        } else if name.eq("fedora:hasPart") {
            Some(Relation::HasPart)
        } else if name.eq("fedora:hasSubset") {
            Some(Relation::HasSubset)
        } else if name.eq("fedora:isAnnotationOf") {
            Some(Relation::IsAnnotationOf)
        } else if name.eq("fedora:isConstituentOf") {
            Some(Relation::IsConstituentOf)
        } else if name.eq("fedora:isDependentOf") {
            Some(Relation::IsDependentOf)
        } else if name.eq("fedora:isDerivationOf") {
            Some(Relation::IsDerivationOf)
        } else if name.eq("fedora:isDescriptionOf") {
            Some(Relation::IsDescriptionOf)
        } else if name.eq("fedora:isMemberOf") {
            Some(Relation::IsMemberOf)
        } else if name.eq("fedora:isMemberOfCollection") {
            Some(Relation::IsMemberOfCollection)
        } else if name.eq("fedora:isMetadataFor") {
            Some(Relation::IsMetadataFor)
        } else if name.eq("fedora:isPartOf") {
            Some(Relation::IsPartOf)
        } else if name.eq("fedora:isSubsetOf") {
            Some(Relation::IsSubsetOf)
        } else {
            None
        }
    }
}

/// One object's RELS-EXT.
#[derive(Debug, Default, PartialEq)]
pub struct RelsExt {
    pub about: String,
    // Fedora model ontology.
    pub hasModel: Vec<String>,
    // Fedora relations ontology.
    pub fedoraRelationship: Vec<String>,
    pub hasAnnotation: Vec<String>,
    pub hasCollectionMember: Vec<String>,
    pub hasConstituent: Vec<String>,
    pub hasDependent: Vec<String>,
    pub hasDerivation: Vec<String>,
    pub hasDescription: Vec<String>,
    pub hasEquivalent: Vec<String>,
    pub hasMember: Vec<String>,
    pub hasMetadata: Vec<String>,
    pub hasPart: Vec<String>,
    pub hasSubset: Vec<String>,
    pub isAnnotationOf: Vec<String>,
    pub isConstituentOf: Vec<String>,
    pub isDependentOf: Vec<String>,
    pub isDerivationOf: Vec<String>,
    pub isDescriptionOf: Vec<String>,
    pub isMemberOf: Vec<String>,
    pub isMemberOfCollection: Vec<String>,
    pub isMetadataFor: Vec<String>,
    pub isPartOf: Vec<String>,
    pub isSubsetOf: Vec<String>,
    // Islandora ontology.
    pub deferDerivatives: Option<bool>,
    pub generateHOCR: Option<bool>,
    pub generateOCR: Option<bool>,
    pub isPageNumber: Option<isize>,
    pub isPageOf: Option<String>,
    pub isSection: Option<isize>,
    pub isSequenceNumber: Option<isize>,
    pub isSequenceNumberOf: Vec<(String, isize)>,
}

/// A RELS-EXT as plain mathematical values.
pub struct RelsExtView {
    pub about: Seq<char>,
    pub hasModel: Seq<Seq<char>>,
    pub fedoraRelationship: Seq<Seq<char>>,
    pub hasAnnotation: Seq<Seq<char>>,
    pub hasCollectionMember: Seq<Seq<char>>,
    pub hasConstituent: Seq<Seq<char>>,
    pub hasDependent: Seq<Seq<char>>,
    pub hasDerivation: Seq<Seq<char>>,
    pub hasDescription: Seq<Seq<char>>,
    pub hasEquivalent: Seq<Seq<char>>,
    pub hasMember: Seq<Seq<char>>,
    pub hasMetadata: Seq<Seq<char>>,
    pub hasPart: Seq<Seq<char>>,
    pub hasSubset: Seq<Seq<char>>,
    pub isAnnotationOf: Seq<Seq<char>>,
    pub isConstituentOf: Seq<Seq<char>>,
    pub isDependentOf: Seq<Seq<char>>,
    pub isDerivationOf: Seq<Seq<char>>,
    pub isDescriptionOf: Seq<Seq<char>>,
    pub isMemberOf: Seq<Seq<char>>,
    pub isMemberOfCollection: Seq<Seq<char>>,
    pub isMetadataFor: Seq<Seq<char>>,
    pub isPartOf: Seq<Seq<char>>,
    pub isSubsetOf: Seq<Seq<char>>,
    pub deferDerivatives: Option<bool>,
    pub generateHOCR: Option<bool>,
    pub generateOCR: Option<bool>,
    pub isPageNumber: Option<isize>,
    pub isPageOf: Option<Seq<char>>,
    pub isSection: Option<isize>,
    pub isSequenceNumber: Option<isize>,
    pub isSequenceNumberOf: Seq<(Seq<char>, isize)>,
}

/// The pairs of a list of numbered strings.
pub open spec fn numbered(v: Seq<(String, isize)>) -> Seq<(Seq<char>, isize)> {
    Seq::new(v.len(), |i: int| (v[i].0@, v[i].1))
}

/// The character sequence of an optional string.
pub open spec fn optional_text(s: Option<String>) -> Option<Seq<char>> {
    match s {
        Some(s) => Some(s@),
        None => None,
    }
}

impl View for RelsExt {
    type V = RelsExtView;

    open spec fn view(&self) -> RelsExtView {
        RelsExtView {
            about: self.about@,
            hasModel: texts(self.hasModel@),
            fedoraRelationship: texts(self.fedoraRelationship@),
            hasAnnotation: texts(self.hasAnnotation@),
            hasCollectionMember: texts(self.hasCollectionMember@),
            hasConstituent: texts(self.hasConstituent@),
            hasDependent: texts(self.hasDependent@),
            hasDerivation: texts(self.hasDerivation@),
            hasDescription: texts(self.hasDescription@),
            hasEquivalent: texts(self.hasEquivalent@),
            hasMember: texts(self.hasMember@),
            hasMetadata: texts(self.hasMetadata@),
            hasPart: texts(self.hasPart@),
            hasSubset: texts(self.hasSubset@),
            isAnnotationOf: texts(self.isAnnotationOf@),
            isConstituentOf: texts(self.isConstituentOf@),
            isDependentOf: texts(self.isDependentOf@),
            isDerivationOf: texts(self.isDerivationOf@),
            isDescriptionOf: texts(self.isDescriptionOf@),
            isMemberOf: texts(self.isMemberOf@),
            isMemberOfCollection: texts(self.isMemberOfCollection@),
            isMetadataFor: texts(self.isMetadataFor@),
            isPartOf: texts(self.isPartOf@),
            isSubsetOf: texts(self.isSubsetOf@),
            deferDerivatives: self.deferDerivatives,
            generateHOCR: self.generateHOCR,
            generateOCR: self.generateOCR,
            isPageNumber: self.isPageNumber,
            isPageOf: optional_text(self.isPageOf),
            isSection: self.isSection,
            isSequenceNumber: self.isSequenceNumber,
            isSequenceNumberOf: numbered(self.isSequenceNumberOf@),
        }
    }
}

impl RelsExtView {
    /// The RELS-EXT that states nothing.
    pub open spec fn empty() -> RelsExtView {
        RelsExtView {
            about: Seq::empty(),
            hasModel: Seq::empty(),
            fedoraRelationship: Seq::empty(),
            hasAnnotation: Seq::empty(),
            hasCollectionMember: Seq::empty(),
            hasConstituent: Seq::empty(),
            hasDependent: Seq::empty(),
            hasDerivation: Seq::empty(),
            hasDescription: Seq::empty(),
            hasEquivalent: Seq::empty(),
            hasMember: Seq::empty(),
            hasMetadata: Seq::empty(),
            hasPart: Seq::empty(),
            hasSubset: Seq::empty(),
            isAnnotationOf: Seq::empty(),
            isConstituentOf: Seq::empty(),
            isDependentOf: Seq::empty(),
            isDerivationOf: Seq::empty(),
            isDescriptionOf: Seq::empty(),
            isMemberOf: Seq::empty(),
            isMemberOfCollection: Seq::empty(),
            isMetadataFor: Seq::empty(),
            isPartOf: Seq::empty(),
            isSubsetOf: Seq::empty(),
            deferDerivatives: None,
            generateHOCR: None,
            generateOCR: None,
            isPageNumber: None,
            isPageOf: None,
            isSection: None,
            isSequenceNumber: None,
            isSequenceNumberOf: Seq::empty(),
        }
    }

    /// `self` with `resource` added at the end of the list of `relation`.
    pub open spec fn with_relation(self, relation: Relation, resource: Seq<char>) -> RelsExtView {
        match relation {
            Relation::HasModel => RelsExtView { hasModel: self.hasModel.push(resource), ..self },
            Relation::FedoraRelationship => RelsExtView { fedoraRelationship: self.fedoraRelationship.push(resource), ..self },
            Relation::HasAnnotation => RelsExtView { hasAnnotation: self.hasAnnotation.push(resource), ..self },
            Relation::HasCollectionMember => RelsExtView { hasCollectionMember: self.hasCollectionMember.push(resource), ..self },
            Relation::HasConstituent => RelsExtView { hasConstituent: self.hasConstituent.push(resource), ..self },
            Relation::HasDependent => RelsExtView { hasDependent: self.hasDependent.push(resource), ..self },
            Relation::HasDerivation => RelsExtView { hasDerivation: self.hasDerivation.push(resource), ..self },
            Relation::HasDescription => RelsExtView { hasDescription: self.hasDescription.push(resource), ..self },
            Relation::HasEquivalent => RelsExtView { hasEquivalent: self.hasEquivalent.push(resource), ..self },
            Relation::HasMember => RelsExtView { hasMember: self.hasMember.push(resource), ..self },
            Relation::HasMetadata => RelsExtView { hasMetadata: self.hasMetadata.push(resource), ..self },
            Relation::HasPart => RelsExtView { hasPart: self.hasPart.push(resource), ..self },
            Relation::HasSubset => RelsExtView { hasSubset: self.hasSubset.push(resource), ..self },
            Relation::IsAnnotationOf => RelsExtView { isAnnotationOf: self.isAnnotationOf.push(resource), ..self },
            Relation::IsConstituentOf => RelsExtView { isConstituentOf: self.isConstituentOf.push(resource), ..self },
            Relation::IsDependentOf => RelsExtView { isDependentOf: self.isDependentOf.push(resource), ..self },
            Relation::IsDerivationOf => RelsExtView { isDerivationOf: self.isDerivationOf.push(resource), ..self },
            Relation::IsDescriptionOf => RelsExtView { isDescriptionOf: self.isDescriptionOf.push(resource), ..self },
            Relation::IsMemberOf => RelsExtView { isMemberOf: self.isMemberOf.push(resource), ..self },
            Relation::IsMemberOfCollection => RelsExtView { isMemberOfCollection: self.isMemberOfCollection.push(resource), ..self },
            Relation::IsMetadataFor => RelsExtView { isMetadataFor: self.isMetadataFor.push(resource), ..self },
            Relation::IsPartOf => RelsExtView { isPartOf: self.isPartOf.push(resource), ..self },
            Relation::IsSubsetOf => RelsExtView { isSubsetOf: self.isSubsetOf.push(resource), ..self },
        }
    }

    /// The ten lists that name an object's parents, one after the other.
    pub open spec fn parent_resources(self) -> Seq<Seq<char>> {
        self.isPartOf + self.isConstituentOf + self.isMemberOf + self.isSubsetOf
            + self.isMemberOfCollection + self.isDerivationOf + self.isDependentOf
            + self.isDescriptionOf + self.isMetadataFor + self.isAnnotationOf
    }
}

/// The position of the first `c` in `s`, or the length of `s` where there
/// is none.
pub open spec fn first_index(s: Seq<char>, c: char) -> int
    decreases s.len(),
{
    if s.len() == 0 {
        0
    } else if s.first() == c {
        0
    } else {
        1 + first_index(s.drop_first(), c)
    }
}

/// A qualified name without its prefix: what follows the first colon, or
/// the whole name where it holds no colon.
pub open spec fn local_name(name: Seq<char>) -> Seq<char> {
    let colon = first_index(name, ':');
    if colon < name.len() {
        name.skip(colon + 1)
    } else {
        name
    }
}

/// `s` with its first `from` replaced by `to`.
pub open spec fn replace_first(s: Seq<char>, from: char, to: char) -> Seq<char> {
    let at = first_index(s, from);
    if at < s.len() {
        s.update(at, to)
    } else {
        s
    }
}

/// The parent that an `isSequenceNumberOf...` element names: the rest of
/// its local name, with the first underscore read as the colon of a PID.
pub open spec fn sequence_parent(name: Seq<char>) -> Option<Seq<char>> {
    let local = local_name(name);
    let predicate = "isSequenceNumberOf"@;
    if starts_with(local, predicate) {
        Some(replace_first(local.skip(predicate.len() as int), '_', ':'))
    } else {
        None
    }
}

/// `value` without its first `PREFIX_LENGTH` bytes, where `info:fedora/`
/// stands: nothing where it is shorter, or where these bytes end within a
/// character.
pub open spec fn without_prefix(value: Seq<char>) -> Option<Seq<char>> {
    let bytes = encode_utf8(value);
    if bytes.len() >= PREFIX_LENGTH && is_char_boundary(bytes, PREFIX_LENGTH as int) {
        Some(decode_utf8(bytes.skip(PREFIX_LENGTH as int)))
    } else {
        None
    }
}

/// Where the first `n` characters of a text are ASCII, its first `n` bytes
/// are these characters, and the bytes behind them are the rest of the
/// text.
pub proof fn lemma_ascii_head(chars: Seq<char>, n: int)
    requires
        0 <= n <= chars.len(),
        is_ascii_chars(chars.take(n)),
    ensures
        encode_utf8(chars).len() >= n,
        is_char_boundary(encode_utf8(chars), n),
        encode_utf8(chars).skip(n) == encode_utf8(chars.skip(n)),
    decreases n,
{
    let bytes = encode_utf8(chars);
    encode_utf8_valid_utf8(chars);
    if n == 0 {
        assert(chars.skip(0) =~= chars);
        assert(bytes.skip(0) =~= bytes);
    } else {
        let rest = chars.drop_first();
        assert(chars.take(n)[0] == chars[0]);
        assert(is_ascii_chars(rest.take(n - 1))) by {
            assert forall|i: int| 0 <= i < rest.take(n - 1).len() implies '\0' <= #[trigger] rest.take(
                n - 1,
            )[i] <= '\u{7f}' by {
                assert(rest.take(n - 1)[i] == chars.take(n)[i + 1]);
            }
        }
        lemma_ascii_head(rest, n - 1);
        encode_utf8_first_scalar(chars);
        encode_utf8_valid_utf8(rest);
        assert(encode_scalar(chars[0] as u32).len() == 1);
        assert(pop_first_scalar(bytes) =~= encode_utf8(rest));
        assert(rest.skip(n - 1) =~= chars.skip(n));
        assert(bytes.skip(n) =~= encode_utf8(rest).skip(n - 1));
    }
}

/// Of a value that begins with twelve ASCII characters, such as
/// `info:fedora/`, what is left without the prefix is what stands behind
/// these characters.
pub proof fn lemma_without_ascii_prefix(value: Seq<char>)
    requires
        value.len() >= PREFIX_LENGTH,
        is_ascii_chars(value.take(PREFIX_LENGTH as int)),
    ensures
        without_prefix(value) == Some(value.skip(PREFIX_LENGTH as int)),
{
    lemma_ascii_head(value, PREFIX_LENGTH as int);
    encode_utf8_decode_utf8(value.skip(PREFIX_LENGTH as int));
}

/// The value of the attribute `key` of `e` without its first
/// `PREFIX_LENGTH` bytes, where `info:fedora/` stands.
pub open spec fn stripped_attribute(e: XmlEvent, key: Seq<char>) -> Result<Seq<char>, RelsExtFault> {
    match e.attribute(key) {
        Some(value) => match without_prefix(value) {
            Some(rest) => Ok(rest),
            None => Err(RelsExtFault::MissingAttribute),
        },
        None => Err(RelsExtFault::MissingAttribute),
    }
}

/// The first text from position `i` on that is not blank, and the position
/// behind it.
pub open spec fn text_after(events: Seq<XmlEvent>, i: int) -> Result<(Seq<char>, int), RelsExtFault>
    decreases events.len() - i,
{
    if i < 0 || i >= events.len() {
        Err(RelsExtFault::MissingText)
    } else if events[i].kind == EventKind::Text {
        match events[i].text {
            None => Err(RelsExtFault::MalformedText),
            Some(text) => if blank(text@) {
                text_after(events, i + 1)
            } else {
                Ok((text@, i + 1))
            },
        }
    } else {
        text_after(events, i + 1)
    }
}

/// The boolean that `text` writes, in whatever case.
pub open spec fn boolean_of(text: Seq<char>) -> Option<bool> {
    if lowercase(text) == "true"@ {
        Some(true)
    } else if lowercase(text) == "false"@ {
        Some(false)
    } else {
        None
    }
}

/// The elements whose text is a boolean.
pub open spec fn is_flag(name: Seq<char>) -> bool {
    name == "islandora:deferDerivatives"@ || name == "islandora:generate_hocr"@ || name
        == "islandora:generate_ocr"@
}

/// The elements whose text is an integer.
pub open spec fn is_number(name: Seq<char>) -> bool {
    name == "islandora:isPageNumber"@ || name == "islandora:isSection"@ || name
        == "islandora:isSequenceNumber"@
}

impl RelsExtView {
    /// `self` with the flag that the element `name` states set to `value`.
    pub open spec fn with_flag(self, name: Seq<char>, value: bool) -> RelsExtView {
        if name == "islandora:deferDerivatives"@ {
            RelsExtView { deferDerivatives: Some(value), ..self }
        } else if name == "islandora:generate_hocr"@ {
            RelsExtView { generateHOCR: Some(value), ..self }
        } else {
            RelsExtView { generateOCR: Some(value), ..self }
        }
    }

    /// `self` with the number that the element `name` states set to
    /// `value`.
    pub open spec fn with_number(self, name: Seq<char>, value: Option<isize>) -> RelsExtView {
        if name == "islandora:isPageNumber"@ {
            RelsExtView { isPageNumber: value, ..self }
        } else if name == "islandora:isSection"@ {
            RelsExtView { isSection: value, ..self }
        } else {
            RelsExtView { isSequenceNumber: value, ..self }
        }
    }
}

/// What the element that starts at position `i` adds to `v`, and the
/// position at which reading goes on.
pub open spec fn element_step(events: Seq<XmlEvent>, i: int, v: RelsExtView) -> Result<
    (RelsExtView, int),
    RelsExtFault,
> {
    let e = events[i];
    let name = e.name@;
    if name == "rdf:Description"@ {
        match stripped_attribute(e, "rdf:about"@) {
            Ok(about) => Ok((RelsExtView { about, ..v }, i + 1)),
            Err(fault) => Err(fault),
        }
    } else if relation_named(name) is Some {
        match stripped_attribute(e, "rdf:resource"@) {
            Ok(resource) => Ok((v.with_relation(relation_named(name)->0, resource), i + 1)),
            Err(fault) => Err(fault),
        }
    } else if name == "islandora:isPageOf"@ {
        match stripped_attribute(e, "rdf:resource"@) {
            Ok(resource) => Ok((RelsExtView { isPageOf: Some(resource), ..v }, i + 1)),
            Err(fault) => Err(fault),
        }
    } else if is_flag(name) {
        match text_after(events, i + 1) {
            Ok((text, next)) => match boolean_of(text) {
                Some(value) => Ok((v.with_flag(name, value), next)),
                None => Err(RelsExtFault::InvalidBoolean),
            },
            Err(fault) => Err(fault),
        }
    } else if is_number(name) {
        match text_after(events, i + 1) {
            Ok((text, next)) => Ok((v.with_number(name, lenient_integer(text)), next)),
            Err(fault) => Err(fault),
        }
    } else if sequence_parent(name) is Some {
        match text_after(events, i + 1) {
            Ok((text, next)) => {
                let number = match lenient_integer(text) {
                    Some(n) => n,
                    None => 0,
                };
                Ok(
                    (
                        RelsExtView {
                            isSequenceNumberOf: v.isSequenceNumberOf.push(
                                (sequence_parent(name)->0, number),
                            ),
                            ..v
                        },
                        next,
                    ),
                )
            },
            Err(fault) => Err(fault),
        }
    } else {
        Ok((v, i + 1))
    }
}

/// The text search ends behind the position it started from.
pub proof fn lemma_text_after_advances(events: Seq<XmlEvent>, i: int)
    requires
        0 <= i,
    ensures
        text_after(events, i) matches Ok((_, next)) ==> i < next <= events.len(),
    decreases events.len() - i,
{
    if i < events.len() {
        lemma_text_after_advances(events, i + 1);
    }
}

/// An element's step ends behind the element.
pub proof fn lemma_element_step_advances(events: Seq<XmlEvent>, i: int, v: RelsExtView)
    requires
        0 <= i < events.len(),
    ensures
        element_step(events, i, v) matches Ok((_, next)) ==> i < next <= events.len(),
{
    lemma_text_after_advances(events, i + 1);
}

/// The RELS-EXT that the events from position `i` on make of `v`: every
/// `Start` and `Empty` event that is met is an element and takes its step,
/// every other event is passed over.
pub open spec fn parsed_from(events: Seq<XmlEvent>, i: int, v: RelsExtView) -> Result<
    RelsExtView,
    RelsExtFault,
>
    decreases events.len() - i,
{
    if i < 0 || i >= events.len() {
        Ok(v)
    } else if events[i].kind == EventKind::Start || events[i].kind == EventKind::Empty {
        match element_step(events, i, v) {
            Ok((next_view, next)) => if i < next <= events.len() {
                parsed_from(events, next, next_view)
            } else {
                Ok(next_view)
            },
            Err(fault) => Err(fault),
        }
    } else {
        parsed_from(events, i + 1, v)
    }
}

/// The RELS-EXT that a document's events state.
pub open spec fn parsed(events: Seq<XmlEvent>) -> Result<RelsExtView, RelsExtFault> {
    parsed_from(events, 0, RelsExtView::empty())
}

/// `r` is what is made of the events of a RELS-EXT document: the RELS-EXT
/// that they state, or their fault.
pub open spec fn reading_of(events: Seq<XmlEvent>, r: Result<RelsExt, RelsExtError>) -> bool {
    match parsed(events) {
        Ok(view) => r matches Ok(rels_ext) && rels_ext@ == view,
        Err(fault) => r matches Err(RelsExtError::Invalid(f)) && f == fault,
    }
}

/// The model of an object: the first resource under `hasModel`, or the
/// empty string where there is none.
pub open spec fn model_of(v: RelsExtView) -> Seq<char> {
    if v.hasModel.len() > 0 {
        v.hasModel.first()
    } else {
        Seq::empty()
    }
}

/// The weight of an object: its page number, else its sequence number,
/// else the number of its first `isSequenceNumberOf`.
pub open spec fn weight_of(v: RelsExtView) -> Option<isize> {
    if v.isPageNumber is Some {
        v.isPageNumber
    } else if v.isSequenceNumber is Some {
        v.isSequenceNumber
    } else if v.isSequenceNumberOf.len() > 0 {
        Some(v.isSequenceNumberOf.first().1)
    } else {
        None
    }
}

/// The position of the first `c` in `s`, or the length of `s`.
pub fn find_first(s: &Vec<char>, c: char) -> (r: usize)
    ensures
        r == first_index(s@, c),
        r <= s.len(),
{
    let mut i: usize = 0;
    assert(s@.skip(0) == s@);
    while i < s.len() && s[i] != c
        invariant
            i <= s.len(),
            first_index(s@, c) == i + first_index(s@.skip(i as int), c),
        decreases s.len() - i,
    {
        assert(s@.skip(i as int).drop_first() == s@.skip(i + 1));
        i += 1;
    }
    i
}

/// The value of the attribute `key` of `e` without its first
/// `PREFIX_LENGTH` bytes, where `info:fedora/` stands.
pub fn get_attribute_without_prefix(e: &XmlEvent, key: &str) -> (r: Result<String, RelsExtFault>)
    ensures
        match stripped_attribute(*e, key@) {
            Ok(value) => r matches Ok(s) && s@ == value,
            Err(fault) => r matches Err(f) && f == fault,
        },
{
    match e.get_attribute(key) {
        Some(value) => {
            let text = value.as_str();
            if text.as_bytes().len() >= PREFIX_LENGTH && text.is_char_boundary(PREFIX_LENGTH) {
                let (_, rest) = text.split_at(PREFIX_LENGTH);
                proof {
                    let bytes = text.spec_bytes();
                    assert(bytes.subrange(PREFIX_LENGTH as int, bytes.len() as int) =~= bytes.skip(
                        PREFIX_LENGTH as int,
                    ));
                    assert(encode_utf8(rest@) == bytes.skip(PREFIX_LENGTH as int));
                    encode_utf8_decode_utf8(rest@);
                }
                Ok(rest.to_owned())
            } else {
                Err(RelsExtFault::MissingAttribute)
            }
        },
        None => Err(RelsExtFault::MissingAttribute),
    }
}

/// The resource that the element names in `rdf:resource`.
pub fn get_resource_attribute(e: &XmlEvent) -> (r: Result<String, RelsExtFault>)
    ensures
        match stripped_attribute(*e, "rdf:resource"@) {
            Ok(value) => r matches Ok(s) && s@ == value,
            Err(fault) => r matches Err(f) && f == fault,
        },
{
    get_attribute_without_prefix(e, "rdf:resource")
}

/// The first text from `position` on that is not blank, and the position
/// behind it.
pub fn get_text(events: &Vec<XmlEvent>, position: usize) -> (r: Result<(String, usize), RelsExtFault>)
    ensures
        match text_after(events@, position as int) {
            Ok((text, next)) => r matches Ok(found) && found.0@ == text && found.1 == next
                && position < next <= events.len(),
            Err(fault) => r matches Err(f) && f == fault,
        },
{
    let mut i: usize = position;
    proof {
        lemma_text_after_advances(events@, position as int);
    }
    while i < events.len()
        invariant
            position <= i,
            text_after(events@, position as int) == text_after(events@, i as int),
        decreases events.len() - i,
    {
        if events[i].kind == EventKind::Text {
            match &events[i].text {
                None => {
                    return Err(RelsExtFault::MalformedText);
                },
                Some(text) => {
                    if !is_blank(text.as_str()) {
                        return Ok((text.clone(), i + 1));
                    }
                },
            }
        }
        i += 1;
    }
    Err(RelsExtFault::MissingText)
}

/// The parent that an `isSequenceNumberOf...` element names.
pub fn is_sequence_number_of(name: &str) -> (r: Option<String>)
    ensures
        optional_text(r) == sequence_parent(name@),
{
    let full = chars_of(name);
    let colon = find_first(&full, ':');
    let local = if colon < full.len() {
        slice_of(&full, colon + 1, full.len())
    } else {
        full
    };
    let predicate = chars_of("isSequenceNumberOf");
    if has_prefix(&local, &predicate) {
        let mut pid = slice_of(&local, predicate.len(), local.len());
        let at = find_first(&pid, '_');
        if at < pid.len() {
            pid.set(at, ':');
        }
        Some(string_of(&pid))
    } else {
        None
    }
}

impl RelsExt {
    /// The RELS-EXT that states nothing.
    pub fn new() -> (r: RelsExt)
        ensures
            r@ == RelsExtView::empty(),
    {
        let r = RelsExt {
            about: String::new(),
            hasModel: Vec::new(),
            fedoraRelationship: Vec::new(),
            hasAnnotation: Vec::new(),
            hasCollectionMember: Vec::new(),
            hasConstituent: Vec::new(),
            hasDependent: Vec::new(),
            hasDerivation: Vec::new(),
            hasDescription: Vec::new(),
            hasEquivalent: Vec::new(),
            hasMember: Vec::new(),
            hasMetadata: Vec::new(),
            hasPart: Vec::new(),
            hasSubset: Vec::new(),
            isAnnotationOf: Vec::new(),
            isConstituentOf: Vec::new(),
            isDependentOf: Vec::new(),
            isDerivationOf: Vec::new(),
            isDescriptionOf: Vec::new(),
            isMemberOf: Vec::new(),
            isMemberOfCollection: Vec::new(),
            isMetadataFor: Vec::new(),
            isPartOf: Vec::new(),
            isSubsetOf: Vec::new(),
            deferDerivatives: None,
            generateHOCR: None,
            generateOCR: None,
            isPageNumber: None,
            isPageOf: None,
            isSection: None,
            isSequenceNumber: None,
            isSequenceNumberOf: Vec::new(),
        };
        proof {
            assert(texts(r.hasModel@) =~= Seq::empty());
            assert(texts(r.fedoraRelationship@) =~= Seq::empty());
            assert(texts(r.hasAnnotation@) =~= Seq::empty());
            assert(texts(r.hasCollectionMember@) =~= Seq::empty());
            assert(texts(r.hasConstituent@) =~= Seq::empty());
            assert(texts(r.hasDependent@) =~= Seq::empty());
            assert(texts(r.hasDerivation@) =~= Seq::empty());
            assert(texts(r.hasDescription@) =~= Seq::empty());
            assert(texts(r.hasEquivalent@) =~= Seq::empty());
            assert(texts(r.hasMember@) =~= Seq::empty());
            assert(texts(r.hasMetadata@) =~= Seq::empty());
            assert(texts(r.hasPart@) =~= Seq::empty());
            assert(texts(r.hasSubset@) =~= Seq::empty());
            assert(texts(r.isAnnotationOf@) =~= Seq::empty());
            assert(texts(r.isConstituentOf@) =~= Seq::empty());
            assert(texts(r.isDependentOf@) =~= Seq::empty());
            assert(texts(r.isDerivationOf@) =~= Seq::empty());
            assert(texts(r.isDescriptionOf@) =~= Seq::empty());
            assert(texts(r.isMemberOf@) =~= Seq::empty());
            assert(texts(r.isMemberOfCollection@) =~= Seq::empty());
            assert(texts(r.isMetadataFor@) =~= Seq::empty());
            assert(texts(r.isPartOf@) =~= Seq::empty());
            assert(texts(r.isSubsetOf@) =~= Seq::empty());
            assert(numbered(r.isSequenceNumberOf@) =~= Seq::empty());
        }
        r
    }

    /// Adds `resource` at the end of the list of `relation`.
    pub fn push_relation(&mut self, relation: Relation, resource: String)
        ensures
            final(self)@ == old(self)@.with_relation(relation, resource@),
    {
        match relation {
            Relation::HasModel => {
                self.hasModel.push(resource);
                assert(texts(self.hasModel@) =~= texts(old(self).hasModel@).push(resource@));
            },
            Relation::FedoraRelationship => {
                self.fedoraRelationship.push(resource);
                assert(texts(self.fedoraRelationship@) =~= texts(old(self).fedoraRelationship@).push(resource@));
            },
            Relation::HasAnnotation => {
                self.hasAnnotation.push(resource);
                assert(texts(self.hasAnnotation@) =~= texts(old(self).hasAnnotation@).push(resource@));
            },
            Relation::HasCollectionMember => {
                self.hasCollectionMember.push(resource);
                assert(texts(self.hasCollectionMember@) =~= texts(old(self).hasCollectionMember@).push(resource@));
            },
            Relation::HasConstituent => {
                self.hasConstituent.push(resource);
                assert(texts(self.hasConstituent@) =~= texts(old(self).hasConstituent@).push(resource@));
            },
            Relation::HasDependent => {
                self.hasDependent.push(resource);
                assert(texts(self.hasDependent@) =~= texts(old(self).hasDependent@).push(resource@));
            },
            Relation::HasDerivation => {
                self.hasDerivation.push(resource);
                assert(texts(self.hasDerivation@) =~= texts(old(self).hasDerivation@).push(resource@));
            },
            Relation::HasDescription => {
                self.hasDescription.push(resource);
                assert(texts(self.hasDescription@) =~= texts(old(self).hasDescription@).push(resource@));
            },
            Relation::HasEquivalent => {
                self.hasEquivalent.push(resource);
                assert(texts(self.hasEquivalent@) =~= texts(old(self).hasEquivalent@).push(resource@));
            },
            Relation::HasMember => {
                self.hasMember.push(resource);
                assert(texts(self.hasMember@) =~= texts(old(self).hasMember@).push(resource@));
            },
            Relation::HasMetadata => {
                self.hasMetadata.push(resource);
                assert(texts(self.hasMetadata@) =~= texts(old(self).hasMetadata@).push(resource@));
            },
            Relation::HasPart => {
                self.hasPart.push(resource);
                assert(texts(self.hasPart@) =~= texts(old(self).hasPart@).push(resource@));
            },
            Relation::HasSubset => {
                self.hasSubset.push(resource);
                assert(texts(self.hasSubset@) =~= texts(old(self).hasSubset@).push(resource@));
            },
            Relation::IsAnnotationOf => {
                self.isAnnotationOf.push(resource);
                assert(texts(self.isAnnotationOf@) =~= texts(old(self).isAnnotationOf@).push(resource@));
            },
            Relation::IsConstituentOf => {
                self.isConstituentOf.push(resource);
                assert(texts(self.isConstituentOf@) =~= texts(old(self).isConstituentOf@).push(resource@));
            },
            Relation::IsDependentOf => {
                self.isDependentOf.push(resource);
                assert(texts(self.isDependentOf@) =~= texts(old(self).isDependentOf@).push(resource@));
            },
            Relation::IsDerivationOf => {
                self.isDerivationOf.push(resource);
                assert(texts(self.isDerivationOf@) =~= texts(old(self).isDerivationOf@).push(resource@));
            },
            Relation::IsDescriptionOf => {
                self.isDescriptionOf.push(resource);
                assert(texts(self.isDescriptionOf@) =~= texts(old(self).isDescriptionOf@).push(resource@));
            },
            Relation::IsMemberOf => {
                self.isMemberOf.push(resource);
                assert(texts(self.isMemberOf@) =~= texts(old(self).isMemberOf@).push(resource@));
            },
            Relation::IsMemberOfCollection => {
                self.isMemberOfCollection.push(resource);
                assert(texts(self.isMemberOfCollection@) =~= texts(old(self).isMemberOfCollection@).push(resource@));
            },
            Relation::IsMetadataFor => {
                self.isMetadataFor.push(resource);
                assert(texts(self.isMetadataFor@) =~= texts(old(self).isMetadataFor@).push(resource@));
            },
            Relation::IsPartOf => {
                self.isPartOf.push(resource);
                assert(texts(self.isPartOf@) =~= texts(old(self).isPartOf@).push(resource@));
            },
            Relation::IsSubsetOf => {
                self.isSubsetOf.push(resource);
                assert(texts(self.isSubsetOf@) =~= texts(old(self).isSubsetOf@).push(resource@));
            },
        }
    }

    /// Takes in the element that starts at `position`, and says where
    /// reading goes on: most elements name a resource in an attribute, the
    /// Islandora ones hold a text that is looked for behind them.
    pub fn process_element(rels_ext: &mut RelsExt, events: &Vec<XmlEvent>, position: usize) -> (r:
        Result<usize, RelsExtFault>)
        requires
            position < events.len(),
        ensures
            match element_step(events@, position as int, old(rels_ext)@) {
                Ok((view, next)) => r matches Ok(n) && n == next && final(rels_ext)@ == view
                    && position < n <= events.len(),
                Err(fault) => r matches Err(f) && f == fault,
            },
    {
        let e = &events[position];
        let name = e.name.as_str();
        proof {
            lemma_element_step_advances(events@, position as int, rels_ext@);
        }
        if name.eq("rdf:Description") {
            let about = get_attribute_without_prefix(e, "rdf:about")?;
            rels_ext.about = about;
            return Ok(position + 1);
        }
        if let Some(relation) = Relation::named(name) {
            let resource = get_resource_attribute(e)?;
            rels_ext.push_relation(relation, resource);
            return Ok(position + 1);
        }
        if name.eq("islandora:isPageOf") {
            let resource = get_resource_attribute(e)?;
            rels_ext.isPageOf = Some(resource);
            return Ok(position + 1);
        }
        let defer = name.eq("islandora:deferDerivatives");
        let hocr = name.eq("islandora:generate_hocr");
        let ocr = name.eq("islandora:generate_ocr");
        if defer || hocr || ocr {
            let (text, next) = get_text(events, position + 1)?;
            let lowered = to_lowercase(text.as_str());
            let value = if lowered.as_str().eq("true") {
                true
            } else if lowered.as_str().eq("false") {
                false
            } else {
                return Err(RelsExtFault::InvalidBoolean);
            };
            if defer {
                rels_ext.deferDerivatives = Some(value);
            } else if hocr {
                rels_ext.generateHOCR = Some(value);
            } else {
                rels_ext.generateOCR = Some(value);
            }
            return Ok(next);
        }
        let page = name.eq("islandora:isPageNumber");
        let section = name.eq("islandora:isSection");
        let sequence = name.eq("islandora:isSequenceNumber");
        if page || section || sequence {
            let (text, next) = get_text(events, position + 1)?;
            let value = parse_lenient_integer(text.as_str());
            if page {
                rels_ext.isPageNumber = value;
            } else if section {
                rels_ext.isSection = value;
            } else {
                rels_ext.isSequenceNumber = value;
            }
            return Ok(next);
        }
        if let Some(parent) = is_sequence_number_of(name) {
            let (text, next) = get_text(events, position + 1)?;
            let number = match parse_lenient_integer(text.as_str()) {
                Some(n) => n,
                None => 0,
            };
            rels_ext.isSequenceNumberOf.push((parent, number));
            assert(numbered(rels_ext.isSequenceNumberOf@) =~= numbered(
                old(rels_ext).isSequenceNumberOf@,
            ).push((parent@, number)));
            return Ok(next);
        }
        Ok(position + 1)
    }

    /// The RELS-EXT that the events of a document state.
    pub fn from_events(events: &Vec<XmlEvent>) -> (r: Result<RelsExt, RelsExtFault>)
        ensures
            match parsed(events@) {
                Ok(view) => r matches Ok(rels_ext) && rels_ext@ == view,
                Err(fault) => r matches Err(f) && f == fault,
            },
    {
        let mut rels_ext = RelsExt::new();
        let mut i: usize = 0;
        while i < events.len()
            invariant
                parsed(events@) == parsed_from(events@, i as int, rels_ext@),
            decreases events.len() - i,
        {
            if events[i].kind == EventKind::Start || events[i].kind == EventKind::Empty {
                i = RelsExt::process_element(&mut rels_ext, events, i)?;
            } else {
                i += 1;
            }
        }
        Ok(rels_ext)
    }

    /// Reads a RELS-EXT document: the reader's error where the reader
    /// meets one; else what `from_events` makes of the events that the
    /// reader hands out of the text, each decoded.
    pub fn from_string(xml: &str) -> (r: Result<RelsExt, RelsExtError>)
        ensures
            document_events(xml@).1 ==> r matches Err(RelsExtError::QuickXMLError(_)),
            !document_events(xml@).1 ==> exists|events: Seq<XmlEvent>|
                decoded(events, document_events(xml@).0) && #[trigger] reading_of(events, r),
    {
        match read_events(xml) {
            Err(error) => Err(RelsExtError::QuickXMLError(error)),
            Ok(events) => {
                let r = match RelsExt::from_events(&events) {
                    Ok(rels_ext) => Ok(rels_ext),
                    Err(fault) => Err(RelsExtError::Invalid(fault)),
                };
                assert(decoded(events@, document_events(xml@).0) && reading_of(events@, r));
                r
            },
        }
    }

    /// The model of the object: the first resource under `hasModel`, or the
    /// empty string.
    pub fn model(&self) -> (r: String)
        ensures
            r@ == model_of(self@),
    {
        if self.hasModel.len() > 0 {
            self.hasModel[0].clone()
        } else {
            String::new()
        }
    }

    /// The weight of the object: page number before sequence number before
    /// the number of the first `isSequenceNumberOf`.
    pub fn weight(&self) -> (r: Option<isize>)
        ensures
            r == weight_of(self@),
    {
        if self.isPageNumber.is_some() {
            self.isPageNumber
        } else if self.isSequenceNumber.is_some() {
            self.isSequenceNumber
        } else if self.isSequenceNumberOf.len() > 0 {
            Some(self.isSequenceNumberOf[0].1)
        } else {
            None
        }
    }
}

} // verus!
