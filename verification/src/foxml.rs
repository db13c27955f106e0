//! The typed view of a FOXML document: the properties of an object and the
//! descriptors of its datastreams.
use crate::dates::{parse_rfc3339_seconds, rfc3339_seconds};
use vstd::prelude::*;

verus! {

/// The state of an object.
#[derive(Clone, Copy, Debug, PartialEq, Eq, Structural)]
pub enum FoxmlObjectState {
    Active,
    Inactive,
    Deleted,
}

/// The state of a datastream: active, inactive or deleted.
#[derive(Clone, Copy, Debug, PartialEq, Eq, Structural)]
pub enum FoxmlDatastreamState {
    A,
    I,
    D,
}

/// How a datastream is stored: externally referenced, redirected, managed,
/// or inline XML.
#[derive(Clone, Copy, Debug, PartialEq, Eq, Structural)]
pub enum FoxmlControlGroup {
    E,
    R,
    M,
    X,
}

/// One property of an object.
#[derive(Debug, PartialEq)]
pub struct FoxmlProperty {
    pub name: String,
    pub value: String,
}

/// The properties of an object, in document order.
#[derive(Debug, PartialEq)]
pub struct FoxmlObjectProperties {
    pub properties: Vec<FoxmlProperty>,
}

/// Where the content of a datastream version lies.
#[derive(Debug, PartialEq)]
pub struct FoxmlDatastreamContentLocation {
    pub kind: String,
    pub reference: String,
}

/// The digest of the content of a datastream version.
#[derive(Debug, PartialEq)]
pub struct FoxmlDatastreamContentDigest {
    pub kind: String,
    pub digest: String,
}

/// One child of a datastream version.
#[derive(Debug, PartialEq)]
pub enum FoxmlDatastreamContent {
    ContentLocation(FoxmlDatastreamContentLocation),
    ContentDigest(FoxmlDatastreamContentDigest),
    XmlContent,
}

/// One version of a datastream; `created` counts seconds since the Unix
/// epoch.
#[derive(Debug, PartialEq)]
pub struct FoxmlDatastreamVersion {
    pub id: String,
    pub label: String,
    pub created: i64,
    pub mime_type: String,
    pub size: Option<i32>,
    pub format: Option<String>,
    pub content: Vec<FoxmlDatastreamContent>,
}

/// One datastream with its versions, in document order.
#[derive(Debug, PartialEq)]
pub struct FoxmlDatastream {
    pub id: String,
    pub state: FoxmlDatastreamState,
    pub control_group: FoxmlControlGroup,
    pub versionable: bool,
    pub versions: Vec<FoxmlDatastreamVersion>,
}

/// One object as its FOXML document describes it.
#[derive(Debug)]
pub struct Foxml {
    pub pid: String,
    pub properties: FoxmlObjectProperties,
    pub datastreams: Vec<FoxmlDatastream>,
}

/// The value of the first property of the given name.
pub open spec fn property_value(properties: Seq<FoxmlProperty>, name: Seq<char>) -> Option<
    Seq<char>,
>
    decreases properties.len(),
{
    if properties.len() == 0 {
        None
    } else if properties.first().name@ == name {
        Some(properties.first().value@)
    } else {
        property_value(properties.drop_first(), name)
    }
}

/// The state that a property value names.
pub open spec fn state_named(value: Seq<char>) -> Option<FoxmlObjectState> {
    if value == "Active"@ {
        Some(FoxmlObjectState::Active)
    } else if value == "Inactive"@ {
        Some(FoxmlObjectState::Inactive)
    } else if value == "Deleted"@ {
        Some(FoxmlObjectState::Deleted)
    } else {
        None
    }
}

/// The name of the property that holds an object's state.
pub open spec fn state_property() -> Seq<char> {
    "info:fedora/fedora-system:def/model#state"@
}

/// The name of the property that holds an object's label.
pub open spec fn label_property() -> Seq<char> {
    "info:fedora/fedora-system:def/model#label"@
}

/// The name of the property that holds an object's owner.
pub open spec fn owner_property() -> Seq<char> {
    "info:fedora/fedora-system:def/model#ownerId"@
}

/// The name of the property that holds the date of an object's creation.
pub open spec fn created_property() -> Seq<char> {
    "info:fedora/fedora-system:def/model#createdDate"@
}

/// The name of the property that holds the date of an object's last
/// change.
pub open spec fn modified_property() -> Seq<char> {
    "info:fedora/fedora-system:def/view#lastModifiedDate"@
}

impl FoxmlObjectState {
    /// The state that `value` names: one of `Active`, `Inactive`,
    /// `Deleted`.
    pub fn from_str(value: &str) -> (r: Option<FoxmlObjectState>)
        ensures
            r == state_named(value@),
    {
        if value.eq("Active") {
            Some(FoxmlObjectState::Active)
        } else if value.eq("Inactive") {
            Some(FoxmlObjectState::Inactive)
        } else if value.eq("Deleted") {
            Some(FoxmlObjectState::Deleted)
        } else {
            None
        }
    }
}

impl FoxmlObjectProperties {
    /// The value of the first property of the given name.
    pub open spec fn value_of(self, name: Seq<char>) -> Option<Seq<char>> {
        property_value(self.properties@, name)
    }

    /// The object's state, where the properties name one.
    pub open spec fn state_of(self) -> Option<FoxmlObjectState> {
        match self.value_of(state_property()) {
            Some(value) => state_named(value),
            None => None,
        }
    }

    /// The seconds since the Unix epoch of the date under the given name.
    pub open spec fn date_of(self, name: Seq<char>) -> Option<i64> {
        match self.value_of(name) {
            Some(value) => rfc3339_seconds(value),
            None => None,
        }
    }

    /// All that an object needs is there: state, label, owner and the two
    /// dates.
    pub open spec fn complete(self) -> bool {
        &&& self.state_of() is Some
        &&& self.value_of(label_property()) is Some
        &&& self.value_of(owner_property()) is Some
        &&& self.date_of(created_property()) is Some
        &&& self.date_of(modified_property()) is Some
    }

    /// The value of the first property of the given name.
    pub fn property(&self, name: &str) -> (r: Option<&String>)
        ensures
            match r {
                Some(value) => self.value_of(name@) == Some(value@),
                None => self.value_of(name@) is None,
            },
    {
        let mut i: usize = 0;
        assert(self.properties@.skip(0) == self.properties@);
        while i < self.properties.len()
            invariant
                i <= self.properties.len(),
                property_value(self.properties@, name@) == property_value(
                    self.properties@.skip(i as int),
                    name@,
                ),
            decreases self.properties.len() - i,
        {
            assert(self.properties@.skip(i as int).drop_first() == self.properties@.skip(i + 1));
            if self.properties[i].name.as_str().eq(name) {
                return Some(&self.properties[i].value);
            }
            i += 1;
        }
        None
    }

    /// The seconds since the Unix epoch of the date under the given name:
    /// `None` where the property is missing or is no RFC 3339 date.
    pub fn date_property(&self, name: &str) -> (r: Option<i64>)
        ensures
            r == self.date_of(name@),
    {
        match self.property(name) {
            Some(value) => parse_rfc3339_seconds(value.as_str()),
            None => None,
        }
    }

    /// The object's state, where the properties name one.
    pub fn find_state(&self) -> (r: Option<FoxmlObjectState>)
        ensures
            r == self.state_of(),
    {
        match self.property("info:fedora/fedora-system:def/model#state") {
            Some(value) => FoxmlObjectState::from_str(value.as_str()),
            None => None,
        }
    }

    /// The object's state.
    pub fn state(&self) -> (r: FoxmlObjectState)
        requires
            self.state_of() is Some,
        ensures
            Some(r) == self.state_of(),
    {
        match self.find_state() {
            Some(state) => state,
            None => FoxmlObjectState::Active,
        }
    }

    /// The object's label.
    pub fn label(&self) -> (r: String)
        requires
            self.value_of(label_property()) is Some,
        ensures
            Some(r@) == self.value_of(label_property()),
    {
        match self.property("info:fedora/fedora-system:def/model#label") {
            Some(value) => value.clone(),
            None => String::new(),
        }
    }

    /// The object's owner.
    pub fn owner_id(&self) -> (r: String)
        requires
            self.value_of(owner_property()) is Some,
        ensures
            Some(r@) == self.value_of(owner_property()),
    {
        match self.property("info:fedora/fedora-system:def/model#ownerId") {
            Some(value) => value.clone(),
            None => String::new(),
        }
    }

    /// When the object was created, in seconds since the Unix epoch.
    pub fn created_date(&self) -> (r: Option<i64>)
        ensures
            r == self.date_of(created_property()),
    {
        self.date_property("info:fedora/fedora-system:def/model#createdDate")
    }

    /// When the object was last changed, in seconds since the Unix epoch.
    pub fn modified_date(&self) -> (r: Option<i64>)
        ensures
            r == self.date_of(modified_property()),
    {
        self.date_property("info:fedora/fedora-system:def/view#lastModifiedDate")
    }

    /// Whether all that an object needs is there.
    pub fn is_complete(&self) -> (r: bool)
        ensures
            r == self.complete(),
    {
        self.find_state().is_some() && self.property(
            "info:fedora/fedora-system:def/model#label",
        ).is_some() && self.property("info:fedora/fedora-system:def/model#ownerId").is_some()
            && self.created_date().is_some() && self.modified_date().is_some()
    }
}

} // verus!
