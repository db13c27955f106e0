//! The object graph: objects with their datastreams and versions, in the
//! alphanumeric order of their identifiers.
use crate::extensions::{file_name_of, version_file_name};
use crate::foxml::{
    created_property, label_property, modified_property, owner_property, Foxml, FoxmlControlGroup,
    FoxmlDatastream, FoxmlDatastreamState, FoxmlDatastreamVersion, FoxmlObjectState,
};
use crate::order::{lemma_sorted_map, reversed, sort, sorted, HasKey, Keyed};
use crate::paths::{join, joined, path_file_stem, stem_of};
use crate::rels_ext::{model_of, weight_of, RelsExt, RelsExtView};
use crate::text::{chars_of, has_prefix, starts_with, texts};
use vstd::prelude::*;
use vstd::string::StringExecFns;

verus! {

/// The persistent identifier of an object: `namespace:localname`.
#[derive(Clone, Debug)]
pub struct Pid(pub String);

impl HasKey for Pid {
    open spec fn key(&self) -> Seq<char> {
        self.0@
    }
}

impl Keyed for Pid {
    fn key_str(&self) -> (k: &str) {
        self.0.as_str()
    }
}

impl Pid {
    /// The PID that the name of a staged object file holds: its file stem,
    /// as in `namespace:123.xml`.
    pub fn from_path(path: &str) -> (r: Option<Pid>)
        ensures
            match r {
                Some(pid) => path_file_stem(path@) == Some(pid.0@),
                None => path_file_stem(path@) is None,
            },
    {
        match stem_of(path) {
            Some(stem) => Some(Pid(stem)),
            None => None,
        }
    }
}

/// The state of an object.
#[derive(Clone, Copy, Debug, PartialEq, Eq, Structural)]
pub enum ObjectState {
    Active,
    Inactive,
    Deleted,
}

impl ObjectState {
    /// The state of an object as its FOXML names it.
    pub open spec fn of(state: FoxmlObjectState) -> ObjectState {
        match state {
            FoxmlObjectState::Active => ObjectState::Active,
            FoxmlObjectState::Inactive => ObjectState::Inactive,
            FoxmlObjectState::Deleted => ObjectState::Deleted,
        }
    }

    /// The word that stands for the state in a projection.
    pub open spec fn name(self) -> Seq<char> {
        match self {
            ObjectState::Active => "Active"@,
            ObjectState::Inactive => "Inactive"@,
            ObjectState::Deleted => "Deleted"@,
        }
    }

    pub fn from(state: FoxmlObjectState) -> (r: ObjectState)
        ensures
            r == ObjectState::of(state),
    {
        match state {
            FoxmlObjectState::Active => ObjectState::Active,
            FoxmlObjectState::Inactive => ObjectState::Inactive,
            FoxmlObjectState::Deleted => ObjectState::Deleted,
        }
    }

    pub fn as_str(&self) -> (r: &'static str)
        ensures
            r@ == self.name(),
    {
        match self {
            ObjectState::Active => "Active",
            ObjectState::Inactive => "Inactive",
            ObjectState::Deleted => "Deleted",
        }
    }
}

/// The state of a datastream.
#[derive(Clone, Copy, Debug, PartialEq, Eq, Structural)]
pub enum DatastreamState {
    Active,
    Inactive,
    Deleted,
}

impl DatastreamState {
    /// The state of a datastream as its FOXML abbreviates it.
    pub open spec fn of(state: FoxmlDatastreamState) -> DatastreamState {
        match state {
            FoxmlDatastreamState::A => DatastreamState::Active,
            FoxmlDatastreamState::I => DatastreamState::Inactive,
            FoxmlDatastreamState::D => DatastreamState::Deleted,
        }
    }

    pub fn from(state: FoxmlDatastreamState) -> (r: DatastreamState)
        ensures
            r == DatastreamState::of(state),
    {
        match state {
            FoxmlDatastreamState::A => DatastreamState::Active,
            FoxmlDatastreamState::I => DatastreamState::Inactive,
            FoxmlDatastreamState::D => DatastreamState::Deleted,
        }
    }
}

impl HasKey for FoxmlDatastreamVersion {
    open spec fn key(&self) -> Seq<char> {
        self.id@
    }
}

impl Keyed for FoxmlDatastreamVersion {
    fn key_str(&self) -> (k: &str) {
        self.id.as_str()
    }
}

impl HasKey for FoxmlDatastream {
    open spec fn key(&self) -> Seq<char> {
        self.id@
    }
}

impl Keyed for FoxmlDatastream {
    fn key_str(&self) -> (k: &str) {
        self.id.as_str()
    }
}

/// One version of a datastream; `created_date` counts seconds since the
/// Unix epoch.
#[derive(Clone, Debug)]
pub struct DatastreamVersion {
    pub pid: String,
    pub dsid: String,
    pub id: String,
    pub label: String,
    pub created_date: i64,
    pub mime_type: String,
}

/// A version as plain mathematical values.
pub struct VersionView {
    pub pid: Seq<char>,
    pub dsid: Seq<char>,
    pub id: Seq<char>,
    pub label: Seq<char>,
    pub created_date: i64,
    pub mime_type: Seq<char>,
}

impl View for DatastreamVersion {
    type V = VersionView;

    open spec fn view(&self) -> VersionView {
        VersionView {
            pid: self.pid@,
            dsid: self.dsid@,
            id: self.id@,
            label: self.label@,
            created_date: self.created_date,
            mime_type: self.mime_type@,
        }
    }
}

impl VersionView {
    /// The file name under which the version's content is staged.
    pub open spec fn file_name(self) -> Seq<char> {
        file_name_of(self.pid, self.dsid, self.id, self.label, self.mime_type)
    }

    /// Where the version's content lies below the datastreams directory:
    /// `<directory>/<pid>/<dsid>/<version>/<file name>`.
    pub open spec fn path(self, directory: Seq<char>) -> Seq<char> {
        joined(joined(joined(joined(directory, self.pid), self.dsid), self.id), self.file_name())
    }
}

/// The version that a FOXML version becomes within the given object and
/// datastream.
pub open spec fn version_of(pid: Seq<char>, dsid: Seq<char>, v: FoxmlDatastreamVersion) -> VersionView {
    VersionView {
        pid,
        dsid,
        id: v.id@,
        label: v.label@,
        created_date: v.created,
        mime_type: v.mime_type@,
    }
}

/// The versions that FOXML versions become, one for one.
pub open spec fn versions_of(
    pid: Seq<char>,
    dsid: Seq<char>,
    versions: Seq<FoxmlDatastreamVersion>,
) -> Seq<VersionView> {
    Seq::new(versions.len(), |i: int| version_of(pid, dsid, versions[i]))
}

/// The views of a list of versions.
pub open spec fn version_views(versions: Seq<DatastreamVersion>) -> Seq<VersionView> {
    Seq::new(versions.len(), |i: int| versions[i]@)
}

impl DatastreamVersion {
    pub fn new(pid: String, dsid: String, version: FoxmlDatastreamVersion) -> (r: Self)
        ensures
            r@ == version_of(pid@, dsid@, version),
    {
        DatastreamVersion {
            pid,
            dsid,
            id: version.id,
            label: version.label,
            created_date: version.created,
            mime_type: version.mime_type,
        }
    }

    /// The file name under which the version's content is staged.
    pub fn file_name(&self) -> (r: String)
        ensures
            r@ == self@.file_name(),
    {
        version_file_name(
            self.pid.as_str(),
            self.dsid.as_str(),
            self.id.as_str(),
            self.label.as_str(),
            self.mime_type.as_str(),
        )
    }

    /// Where the version's content lies below the datastreams directory.
    pub fn path(&self, datastreams_directory: &str) -> (r: String)
        ensures
            r@ == self@.path(datastreams_directory@),
    {
        let object = join(datastreams_directory, self.pid.as_str());
        let datastream = join(object.as_str(), self.dsid.as_str());
        let version = join(datastream.as_str(), self.id.as_str());
        join(version.as_str(), self.file_name().as_str())
    }
}

/// One datastream with its versions, sorted by their identifiers; the
/// latest is the last.
#[derive(Clone, Debug)]
pub struct Datastream {
    pub id: String,
    pub state: DatastreamState,
    pub versions: Vec<DatastreamVersion>,
}

/// A datastream as plain mathematical values.
pub struct DatastreamView {
    pub id: Seq<char>,
    pub state: DatastreamState,
    pub versions: Seq<VersionView>,
}

impl View for Datastream {
    type V = DatastreamView;

    open spec fn view(&self) -> DatastreamView {
        DatastreamView {
            id: self.id@,
            state: self.state,
            versions: version_views(self.versions@),
        }
    }
}

/// The views of a list of datastreams.
pub open spec fn datastream_views(datastreams: Seq<Datastream>) -> Seq<DatastreamView> {
    Seq::new(datastreams.len(), |i: int| datastreams[i]@)
}

impl Datastream {
    /// The latest version.
    pub fn latest(&self) -> (r: &DatastreamVersion)
        requires
            self.versions.len() > 0,
        ensures
            *r == self.versions@.last(),
    {
        &self.versions[self.versions.len() - 1]
    }
}

/// The datastream that a FOXML datastream becomes within the given object:
/// its versions sorted by identifier.
pub open spec fn datastream_of(pid: Seq<char>, d: FoxmlDatastream) -> DatastreamView {
    DatastreamView {
        id: d.id@,
        state: DatastreamState::of(d.state),
        versions: versions_of(pid, d.id@, sorted(d.versions@)),
    }
}

/// The datastreams that are kept of a list of FOXML datastreams: those
/// with at least one version, in the order of the list.
pub open spec fn kept_datastreams(pid: Seq<char>, datastreams: Seq<FoxmlDatastream>) -> Seq<
    DatastreamView,
>
    decreases datastreams.len(),
{
    if datastreams.len() == 0 {
        Seq::empty()
    } else if datastreams.last().versions.len() > 0 {
        kept_datastreams(pid, datastreams.drop_last()).push(datastream_of(pid, datastreams.last()))
    } else {
        kept_datastreams(pid, datastreams.drop_last())
    }
}

/// A datastream is externally referenced or redirected, which is not
/// supported.
pub open spec fn unsupported(datastreams: Seq<FoxmlDatastream>) -> bool {
    exists|i: int|
        0 <= i < datastreams.len() && ((#[trigger] datastreams[i]).control_group
            == FoxmlControlGroup::E || datastreams[i].control_group == FoxmlControlGroup::R)
}

/// The user to whom the objects of a Fedora user go.
pub open spec fn owner_of(owner_id: Seq<char>) -> Seq<char> {
    if owner_id == "fedoraAdmin"@ {
        "admin"@
    } else {
        owner_id
    }
}

/// Why an object could not be made of a FOXML document.
#[derive(Clone, Copy, Debug, PartialEq, Eq, Structural)]
pub enum ObjectError {
    /// The state, the label, the owner or one of the two dates is missing
    /// or cannot be read.
    IncompleteProperties,
    /// A datastream is externally referenced or redirected.
    UnsupportedControlGroup,
}

/// One object of the graph.
#[derive(Clone, Debug)]
pub struct Object {
    pub pid: Pid,
    pub state: ObjectState,
    pub owner: String,
    pub label: String,
    pub model: String,
    pub parents: Vec<String>,
    pub created_date: i64,
    pub modified_date: i64,
    pub datastreams: Vec<Datastream>,
    pub weight: Option<isize>,
}

/// An object as plain mathematical values.
pub struct ObjectView {
    pub pid: Seq<char>,
    pub state: ObjectState,
    pub owner: Seq<char>,
    pub label: Seq<char>,
    pub model: Seq<char>,
    pub parents: Seq<Seq<char>>,
    pub created_date: i64,
    pub modified_date: i64,
    pub datastreams: Seq<DatastreamView>,
    pub weight: Option<isize>,
}

impl View for Object {
    type V = ObjectView;

    open spec fn view(&self) -> ObjectView {
        ObjectView {
            pid: self.pid.0@,
            state: self.state,
            owner: self.owner@,
            label: self.label@,
            model: self.model@,
            parents: texts(self.parents@),
            created_date: self.created_date,
            modified_date: self.modified_date,
            datastreams: datastream_views(self.datastreams@),
            weight: self.weight,
        }
    }
}

impl HasKey for Object {
    open spec fn key(&self) -> Seq<char> {
        self.pid.0@
    }
}

impl Keyed for Object {
    fn key_str(&self) -> (k: &str) {
        self.pid.0.as_str()
    }
}

/// The object that a FOXML document describes, before its RELS-EXT is
/// taken in: datastreams sorted by identifier, those without a version
/// left out, and neither model nor parents nor weight.
pub open spec fn object_of(foxml: Foxml) -> ObjectView {
    ObjectView {
        pid: foxml.pid@,
        state: ObjectState::of(foxml.properties.state_of()->0),
        owner: owner_of(foxml.properties.value_of(owner_property())->0),
        label: foxml.properties.value_of(label_property())->0,
        model: Seq::empty(),
        parents: Seq::empty(),
        created_date: foxml.properties.date_of(created_property())->0,
        modified_date: foxml.properties.date_of(modified_property())->0,
        datastreams: kept_datastreams(foxml.pid@, sorted(foxml.datastreams@)),
        weight: None,
    }
}

/// The first datastream of the given identifier.
pub open spec fn first_datastream(datastreams: Seq<Datastream>, dsid: Seq<char>) -> Option<
    Datastream,
>
    decreases datastreams.len(),
{
    if datastreams.len() == 0 {
        None
    } else if datastreams.first().id@ == dsid {
        Some(datastreams.first())
    } else {
        first_datastream(datastreams.drop_first(), dsid)
    }
}

impl ObjectView {
    /// The object with what a RELS-EXT says of it: its model, its parents
    /// in alphanumeric order, and its weight.
    pub open spec fn with_rels_ext(self, rels_ext: RelsExtView) -> ObjectView {
        ObjectView {
            model: model_of(rels_ext),
            parents: sorted(rels_ext.parent_resources()),
            weight: weight_of(rels_ext),
            ..self
        }
    }

    /// The object has no content model.
    pub open spec fn missing_content_model(self) -> bool {
        self.model.len() == 0
    }

    /// The object belongs to the repository itself.
    pub open spec fn is_system_object(self) -> bool {
        starts_with(self.pid, "fedora-system:"@)
    }

    /// The object is a content model.
    pub open spec fn is_content_model(self) -> bool {
        self.model == "fedora-system:ContentModel-3.0"@
    }

    /// The object does not enter the graph.
    pub open spec fn excluded(self) -> bool {
        self.is_system_object() || self.is_content_model() || self.missing_content_model()
    }
}

/// The parents of an object are the resources of the ten parent relations
/// of its RELS-EXT, each as often as it is named; and where the
/// alphanumeric rank is that of an order on them, none ranks greater than
/// the next.
pub proof fn lemma_parents_in_order(rels_ext: RelsExtView)
    ensures
        sorted(rels_ext.parent_resources()).to_multiset()
            == rels_ext.parent_resources().to_multiset(),
        crate::order::ranks_as_order(sorted(rels_ext.parent_resources())) ==> forall|i: int|
            0 <= i < sorted(rels_ext.parent_resources()).len() - 1
                ==> #[trigger] crate::order::alphanumeric_rank(
                sorted(rels_ext.parent_resources())[i],
                sorted(rels_ext.parent_resources())[i + 1],
            ) != crate::order::Rank::Greater,
{
    let parents = sorted(rels_ext.parent_resources());
    crate::order::lemma_sorted_permutes(rels_ext.parent_resources());
    crate::order::lemma_sorted_ordered(rels_ext.parent_resources());
    assert(crate::order::keys(parents) =~= parents);
    if crate::order::ranks_as_order(parents) {
        crate::order::lemma_ordered_never_greater(parents);
    }
}

/// Makes the datastream of an object from its FOXML descriptor.
pub fn create_datastream(pid: &str, datastream: FoxmlDatastream) -> (r: Datastream)
    ensures
        r@ == datastream_of(pid@, datastream),
{
    let FoxmlDatastream { id, state, control_group: _, versionable: _, versions } = datastream;
    let ghost all = sorted(versions@);
    let mut stack = reversed(sort(versions));
    let mut result: Vec<DatastreamVersion> = Vec::new();
    while stack.len() > 0
        invariant
            stack.len() <= all.len(),
            forall|k: int| 0 <= k < stack.len() ==> stack@[k] == all[all.len() - 1 - k],
            result.len() == all.len() - stack.len(),
            forall|k: int|
                0 <= k < result.len() ==> (#[trigger] result@[k])@ == version_of(pid@, id@, all[k]),
        decreases stack.len(),
    {
        let version = stack.pop().unwrap();
        result.push(DatastreamVersion::new(String::from_str(pid), id.clone(), version));
    }
    assert(version_views(result@) =~= versions_of(pid@, id@, all));
    Datastream { id, state: DatastreamState::from(state), versions: result }
}

/// Adds clones of the strings of `list` to `all`.
fn extend_cloned(all: &mut Vec<String>, list: &Vec<String>)
    ensures
        texts(final(all)@) == texts(old(all)@) + texts(list@),
{
    let mut i: usize = 0;
    assert(texts(all@) =~= texts(old(all)@) + texts(list@.take(0)));
    while i < list.len()
        invariant
            i <= list.len(),
            texts(all@) == texts(old(all)@) + texts(list@.take(i as int)),
        decreases list.len() - i,
    {
        let ghost before = all@;
        all.push(list[i].clone());
        assert(texts(all@) =~= texts(before).push(list@[i as int]@));
        assert(texts(list@.take(i + 1)) =~= texts(list@.take(i as int)).push(list@[i as int]@));
        assert(texts(all@) =~= texts(old(all)@) + texts(list@.take(i + 1)));
        i += 1;
    }
    assert(list@.take(list.len() as int) == list@);
}

impl Object {
    /// The object that a FOXML document describes, before its RELS-EXT is
    /// taken in.
    pub fn new(foxml: Foxml) -> (r: Result<Object, ObjectError>)
        ensures
            !foxml.properties.complete() ==> r matches Err(ObjectError::IncompleteProperties),
            foxml.properties.complete() && unsupported(foxml.datastreams@) ==> r matches Err(
                ObjectError::UnsupportedControlGroup,
            ),
            foxml.properties.complete() && !unsupported(foxml.datastreams@) ==> (r matches Ok(
                object,
            ) && object@ == object_of(foxml)),
    {
        if !foxml.properties.is_complete() {
            return Err(ObjectError::IncompleteProperties);
        }
        let mut i: usize = 0;
        while i < foxml.datastreams.len()
            invariant
                i <= foxml.datastreams.len(),
                foxml.properties.complete(),
                forall|k: int|
                    0 <= k < i ==> (#[trigger] foxml.datastreams@[k]).control_group
                        != FoxmlControlGroup::E && foxml.datastreams@[k].control_group
                        != FoxmlControlGroup::R,
            decreases foxml.datastreams.len() - i,
        {
            match foxml.datastreams[i].control_group {
                FoxmlControlGroup::E | FoxmlControlGroup::R => {
                    return Err(ObjectError::UnsupportedControlGroup);
                },
                FoxmlControlGroup::M | FoxmlControlGroup::X => {},
            }
            i += 1;
        }
        let state = ObjectState::from(foxml.properties.state());
        let owner_id = foxml.properties.owner_id();
        let owner = if owner_id.as_str().eq("fedoraAdmin") {
            String::from_str("admin")
        } else {
            owner_id
        };
        let label = foxml.properties.label();
        let created_date = match foxml.properties.created_date() {
            Some(seconds) => seconds,
            None => 0,
        };
        let modified_date = match foxml.properties.modified_date() {
            Some(seconds) => seconds,
            None => 0,
        };
        let Foxml { pid, properties: _, datastreams } = foxml;
        let ghost all = sorted(datastreams@);
        let mut stack = reversed(sort(datastreams));
        let mut kept: Vec<Datastream> = Vec::new();
        while stack.len() > 0
            invariant
                stack.len() <= all.len(),
                forall|k: int| 0 <= k < stack.len() ==> stack@[k] == all[all.len() - 1 - k],
                datastream_views(kept@) == kept_datastreams(
                    pid@,
                    all.take(all.len() - stack.len()),
                ),
            decreases stack.len(),
        {
            let ghost n = all.len() - stack.len();
            let ghost before = kept@;
            let datastream = stack.pop().unwrap();
            assert(all.take(n + 1).drop_last() == all.take(n));
            assert(all.take(n + 1).last() == datastream);
            if datastream.versions.len() > 0 {
                let made = create_datastream(pid.as_str(), datastream);
                kept.push(made);
                assert(datastream_views(kept@) =~= datastream_views(before).push(made@));
            }
        }
        assert(all.take(all.len() as int) == all);
        let object = Object {
            pid: Pid(pid),
            state,
            owner,
            label,
            model: String::new(),
            parents: Vec::new(),
            created_date,
            modified_date,
            datastreams: kept,
            weight: None,
        };
        assert(texts(object.parents@) =~= Seq::empty());
        Ok(object)
    }

    /// Takes in what the object's RELS-EXT says of it: the model, the
    /// parents in alphanumeric order, and the weight.
    pub fn set_rels_ext(&mut self, rels_ext: &RelsExt)
        ensures
            final(self)@ == old(self)@.with_rels_ext(rels_ext@),
    {
        self.model = rels_ext.model();
        self.weight = rels_ext.weight();
        self.parents = Object::parents(rels_ext);
    }

    /// The parents that a RELS-EXT names: the resources of its ten parent
    /// relations, sorted in the alphanumeric order.
    pub fn parents(rels_ext: &RelsExt) -> (r: Vec<String>)
        ensures
            texts(r@) == sorted(rels_ext@.parent_resources()),
    {
        let mut all: Vec<String> = Vec::new();
        assert(texts(all@) =~= Seq::empty());
        extend_cloned(&mut all, &rels_ext.isPartOf);
        extend_cloned(&mut all, &rels_ext.isConstituentOf);
        extend_cloned(&mut all, &rels_ext.isMemberOf);
        extend_cloned(&mut all, &rels_ext.isSubsetOf);
        extend_cloned(&mut all, &rels_ext.isMemberOfCollection);
        extend_cloned(&mut all, &rels_ext.isDerivationOf);
        extend_cloned(&mut all, &rels_ext.isDependentOf);
        extend_cloned(&mut all, &rels_ext.isDescriptionOf);
        extend_cloned(&mut all, &rels_ext.isMetadataFor);
        extend_cloned(&mut all, &rels_ext.isAnnotationOf);
        assert(texts(all@) =~= rels_ext@.parent_resources());
        let ghost unsorted = all@;
        let r = sort(all);
        proof {
            let f = |s: String| s@;
            lemma_sorted_map(unsorted, f);
            assert(unsorted.map_values(f) =~= texts(unsorted));
            assert(sorted(unsorted).map_values(f) =~= texts(sorted(unsorted)));
        }
        r
    }

    /// The object has no content model.
    pub fn missing_content_model(&self) -> (r: bool)
        ensures
            r == self@.missing_content_model(),
    {
        self.model.as_str().unicode_len() == 0
    }

    /// The object belongs to the repository itself.
    pub fn is_system_object(&self) -> (r: bool)
        ensures
            r == self@.is_system_object(),
    {
        has_prefix(&chars_of(self.pid.0.as_str()), &chars_of("fedora-system:"))
    }

    /// The object is a content model.
    pub fn is_content_model(&self) -> (r: bool)
        ensures
            r == self@.is_content_model(),
    {
        self.model.as_str().eq("fedora-system:ContentModel-3.0")
    }

    /// The latest version of the first datastream of the given identifier;
    /// `None` where there is no such datastream or it has no version.
    pub fn datastream(&self, datastream_id: &str) -> (r: Option<&DatastreamVersion>)
        ensures
            match first_datastream(self.datastreams@, datastream_id@) {
                Some(datastream) => if datastream.versions.len() > 0 {
                    r matches Some(version) && *version == datastream.versions@.last()
                } else {
                    r is None
                },
                None => r is None,
            },
    {
        let mut i: usize = 0;
        assert(self.datastreams@.skip(0) == self.datastreams@);
        while i < self.datastreams.len()
            invariant
                i <= self.datastreams.len(),
                first_datastream(self.datastreams@, datastream_id@) == first_datastream(
                    self.datastreams@.skip(i as int),
                    datastream_id@,
                ),
            decreases self.datastreams.len() - i,
        {
            assert(self.datastreams@.skip(i as int).drop_first() == self.datastreams@.skip(i + 1));
            if self.datastreams[i].id.as_str().eq(datastream_id) {
                if self.datastreams[i].versions.len() > 0 {
                    return Some(self.datastreams[i].latest());
                } else {
                    return None;
                }
            }
            i += 1;
        }
        None
    }
}

} // verus!
