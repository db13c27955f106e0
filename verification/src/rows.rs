//! The rows of the four fixed projections: nodes, media, media revisions
//! and files.
use crate::object::{Datastream, DatastreamVersion, DatastreamView, Object, ObjectView, VersionView};
use crate::object_map::{graph_places, place_exists, ObjectMap, Place, Selection};
use crate::order::strictly_ordered;
use crate::paths::{name_of, path_file_name};
use crate::text::{decimal_string, decimal_text, join_with, joined_with, signed_decimal, texts, unsigned_decimal};
use sha1::Digest;
use vstd::prelude::*;
use vstd::string::StringExecFns;

verus! {

/// The content models that the projection of nodes knows.
#[derive(Clone, Copy, Debug, PartialEq, Eq, Structural)]
pub enum Model {
    Audio,
    BasicImage,
    Binary,
    Book,
    Collection,
    Compound,
    LargeImage,
    Newspaper,
    NewspaperIssue,
    NewspaperPage,
    Page,
    PDF,
    Video,
}

/// The content model that a Fedora model names.
pub open spec fn model_named(value: Seq<char>) -> Option<Model> {
    if value == "islandora:collectionCModel"@ {
        Some(Model::Collection)
    } else if value == "islandora:sp_basic_image"@ {
        Some(Model::BasicImage)
    } else if value == "islandora:sp_large_image_cmodel"@ {
        Some(Model::LargeImage)
    } else if value == "islandora:sp-audioCModel"@ {
        Some(Model::Audio)
    } else if value == "islandora:sp_videoCModel"@ {
        Some(Model::Video)
    } else if value == "islandora:sp_pdf"@ {
        Some(Model::PDF)
    } else if value == "islandora:bookCModel"@ {
        Some(Model::Book)
    } else if value == "islandora:pageCModel"@ {
        Some(Model::Page)
    } else if value == "islandora:newspaperCModel"@ {
        Some(Model::Newspaper)
    } else if value == "islandora:newspaperIssueCModel"@ {
        Some(Model::NewspaperIssue)
    } else if value == "islandora:newspaperPageCModel"@ {
        Some(Model::NewspaperPage)
    } else if value == "islandora:compoundCModel"@ {
        Some(Model::Compound)
    } else if value == "islandora:binaryCModel"@ {
        Some(Model::Binary)
    } else if value == "islandora:binaryObjectCModel"@ {
        Some(Model::Binary)
    } else {
        None
    }
}

/// What is said of a model that the projection does not know.
pub open spec fn unknown_model_message(value: Seq<char>) -> Seq<char> {
    "Unknown content model "@ + value
}

/// How an object of a model is shown.
#[derive(Clone, Copy, Debug, PartialEq, Eq, Structural)]
pub enum DisplayHint {
    Plain,
    OpenSeadragon,
    PdfJS,
}

impl Model {
    /// The IRI that stands for the model in the target ontology.
    pub open spec fn iri(self) -> Seq<char> {
        match self {
            Model::Audio => "http://purl.org/coar/resource_type/c_18cc"@,
            Model::BasicImage => "http://purl.org/coar/resource_type/c_c513"@,
            Model::Binary => "http://purl.org/coar/resource_type/c_1843"@,
            Model::Book => "https://schema.org/Book"@,
            Model::Collection => "http://purl.org/dc/dcmitype/Collection"@,
            Model::Compound => "http://purl.org/dc/dcmitype/Collection"@,
            Model::LargeImage => "http://purl.org/coar/resource_type/c_c513"@,
            Model::Newspaper => "https://schema.org/Book"@,
            Model::NewspaperIssue => "https://schema.org/PublicationIssue"@,
            Model::NewspaperPage => "http://id.loc.gov/ontologies/bibframe/part"@,
            Model::Page => "http://id.loc.gov/ontologies/bibframe/part"@,
            Model::PDF => "https://schema.org/DigitalDocument"@,
            Model::Video => "http://purl.org/coar/resource_type/c_12ce"@,
        }
    }

    /// How objects of the model are shown.
    pub open spec fn hint(self) -> DisplayHint {
        match self {
            Model::LargeImage => DisplayHint::OpenSeadragon,
            Model::NewspaperPage => DisplayHint::OpenSeadragon,
            Model::Page => DisplayHint::OpenSeadragon,
            Model::PDF => DisplayHint::PdfJS,
            _ => DisplayHint::Plain,
        }
    }

    /// The content model that a Fedora model names, or what is said of one
    /// that is not known.
    pub fn try_from(value: &str) -> (r: Result<Model, String>)
        ensures
            match model_named(value@) {
                Some(model) => r == Ok::<Model, String>(model),
                None => r matches Err(message) && message@ == unknown_model_message(value@),
            },
    {
        if value.eq("islandora:collectionCModel") {
            Ok(Model::Collection)
        } else if value.eq("islandora:sp_basic_image") {
            Ok(Model::BasicImage)
        } else if value.eq("islandora:sp_large_image_cmodel") {
            Ok(Model::LargeImage)
        } else if value.eq("islandora:sp-audioCModel") {
            Ok(Model::Audio)
        } else if value.eq("islandora:sp_videoCModel") {
            Ok(Model::Video)
        } else if value.eq("islandora:sp_pdf") {
            Ok(Model::PDF)
        } else if value.eq("islandora:bookCModel") {
            Ok(Model::Book)
        } else if value.eq("islandora:pageCModel") {
            Ok(Model::Page)
        } else if value.eq("islandora:newspaperCModel") {
            Ok(Model::Newspaper)
        } else if value.eq("islandora:newspaperIssueCModel") {
            Ok(Model::NewspaperIssue)
        } else if value.eq("islandora:newspaperPageCModel") {
            Ok(Model::NewspaperPage)
        } else if value.eq("islandora:compoundCModel") {
            Ok(Model::Compound)
        } else if value.eq("islandora:binaryCModel") {
            Ok(Model::Binary)
        } else if value.eq("islandora:binaryObjectCModel") {
            Ok(Model::Binary)
        } else {
            let mut message = String::from_str("Unknown content model ");
            message.append(value);
            Err(message)
        }
    }

    /// The IRI that stands for the model in the target ontology.
    pub fn identifier(&self) -> (r: &'static str)
        ensures
            r@ == self.iri(),
    {
        match self {
            Model::Audio => "http://purl.org/coar/resource_type/c_18cc",
            Model::BasicImage => "http://purl.org/coar/resource_type/c_c513",
            Model::Binary => "http://purl.org/coar/resource_type/c_1843",
            Model::Book => "https://schema.org/Book",
            Model::Collection => "http://purl.org/dc/dcmitype/Collection",
            Model::Compound => "http://purl.org/dc/dcmitype/Collection",
            Model::LargeImage => "http://purl.org/coar/resource_type/c_c513",
            Model::Newspaper => "https://schema.org/Book",
            Model::NewspaperIssue => "https://schema.org/PublicationIssue",
            Model::NewspaperPage => "http://id.loc.gov/ontologies/bibframe/part",
            Model::Page => "http://id.loc.gov/ontologies/bibframe/part",
            Model::PDF => "https://schema.org/DigitalDocument",
            Model::Video => "http://purl.org/coar/resource_type/c_12ce",
        }
    }
}

impl DisplayHint {
    /// The address of the viewer, or nothing.
    pub open spec fn address(self) -> Seq<char> {
        match self {
            DisplayHint::Plain => ""@,
            DisplayHint::OpenSeadragon => "http://openseadragon.github.io"@,
            DisplayHint::PdfJS => "http://mozilla.github.io/pdf.js"@,
        }
    }

    pub fn from(model: Model) -> (r: DisplayHint)
        ensures
            r == model.hint(),
    {
        match model {
            Model::LargeImage => DisplayHint::OpenSeadragon,
            Model::NewspaperPage => DisplayHint::OpenSeadragon,
            Model::Page => DisplayHint::OpenSeadragon,
            Model::PDF => DisplayHint::PdfJS,
            _ => DisplayHint::Plain,
        }
    }

    pub fn as_str(&self) -> (r: &'static str)
        ensures
            r@ == self.address(),
    {
        match *self {
            DisplayHint::Plain => "",
            DisplayHint::OpenSeadragon => "http://openseadragon.github.io",
            DisplayHint::PdfJS => "http://mozilla.github.io/pdf.js",
        }
    }
}

/// The bundle that a datastream identifier alone decides.
pub open spec fn dsid_bundle(dsid: Seq<char>) -> Option<Seq<char>> {
    if dsid == "OCR"@ || dsid == "FULL_TEXT"@ {
        Some("extracted_text"@)
    } else if dsid == "TECHMD"@ {
        Some("fits_technical_metadata"@)
    } else {
        None
    }
}

/// The bundle that a MIME type decides.
pub open spec fn mime_bundle(mime_type: Seq<char>) -> Option<Seq<char>> {
    if mime_type == "application/pdf"@ || mime_type == "text/plain"@ {
        Some("document"@)
    } else if mime_type == "audio/aac"@ || mime_type == "audio/mpeg"@ || mime_type == "audio/wav"@ {
        Some("audio"@)
    } else if mime_type == "image/gif"@ || mime_type == "image/jpeg"@ || mime_type == "image/jpg"@
        || mime_type == "image/png"@ {
        Some("image"@)
    } else if mime_type == "video/mp4"@ {
        Some("video"@)
    } else if mime_type == "application/rdf+xml"@ || mime_type == "application/xml"@ || mime_type
        == "image/jp2"@ || mime_type == "image/tiff"@ || mime_type == "text/xml"@ {
        Some("file"@)
    } else {
        None
    }
}

/// The bundle of a media: what the datastream identifier decides, else
/// what the MIME type decides, else `file`.
pub open spec fn bundle_of(dsid: Seq<char>, mime_type: Seq<char>) -> Seq<char> {
    match dsid_bundle(dsid) {
        Some(bundle) => bundle,
        None => match mime_bundle(mime_type) {
            Some(bundle) => bundle,
            None => "file"@,
        },
    }
}

/// The bundle of a media.
pub fn bundle(dsid: &str, mime_type: &str) -> (r: &'static str)
    ensures
        r@ == bundle_of(dsid@, mime_type@),
{
    if dsid.eq("OCR") || dsid.eq("FULL_TEXT") {
        "extracted_text"
    } else if dsid.eq("TECHMD") {
        "fits_technical_metadata"
    } else if mime_type.eq("application/pdf") || mime_type.eq("text/plain") {
        "document"
    } else if mime_type.eq("audio/aac") || mime_type.eq("audio/mpeg") || mime_type.eq("audio/wav") {
        "audio"
    } else if mime_type.eq("image/gif") || mime_type.eq("image/jpeg") || mime_type.eq("image/jpg")
        || mime_type.eq("image/png") {
        "image"
    } else if mime_type.eq("video/mp4") {
        "video"
    } else {
        "file"
    }
}

/// The character sequences of a list of names.
pub open spec fn names_of(names: Seq<&'static str>) -> Seq<Seq<char>> {
    Seq::new(names.len(), |i: int| names[i]@)
}

/// One row of `nodes.csv`.
#[derive(Clone, Debug)]
pub struct NodeRow {
    pub pid: String,
    pub created_date: i64,
    pub label: String,
    pub weight: String,
    pub model: String,
    pub modified_date: i64,
    pub state: String,
    pub user: String,
    pub display_hint: String,
    pub parents: String,
}

/// The text of a weight: its decimal form, or nothing.
pub open spec fn weight_text(weight: Option<isize>) -> Seq<char> {
    match weight {
        Some(w) => decimal_text(w as int),
        None => Seq::empty(),
    }
}

/// The first of the first `upto` objects whose model is not known.
pub open spec fn first_unknown_model(objects: Seq<Object>, upto: int) -> Option<int>
    decreases upto,
{
    if upto <= 0 {
        None
    } else {
        match first_unknown_model(objects, upto - 1) {
            Some(i) => Some(i),
            None => if model_named(objects[upto - 1].model@) is None {
                Some(upto - 1)
            } else {
                None
            },
        }
    }
}

impl NodeRow {
    /// The row says of `object` what `nodes.csv` holds of it.
    pub open spec fn describes(self, object: ObjectView) -> bool {
        &&& model_named(object.model) is Some
        &&& self.pid@ == object.pid
        &&& self.created_date == object.created_date
        &&& self.label@ == object.label
        &&& self.weight@ == weight_text(object.weight)
        &&& self.model@ == model_named(object.model)->0.iri()
        &&& self.modified_date == object.modified_date
        &&& self.state@ == object.state.name()
        &&& self.user@ == object.owner
        &&& self.display_hint@ == model_named(object.model)->0.hint().address()
        &&& self.parents@ == joined_with(object.parents, "|"@)
    }

    /// The row of an object, or what is said of its model where that is
    /// not known.
    pub fn new(object: &Object) -> (r: Result<NodeRow, String>)
        ensures
            match model_named(object@.model) {
                Some(_) => r matches Ok(row) && row.describes(object@),
                None => r matches Err(message) && message@ == unknown_model_message(
                    object@.model,
                ),
            },
    {
        let model = Model::try_from(object.model.as_str())?;
        let weight = match object.weight {
            Some(w) => decimal_string(w as i128),
            None => String::new(),
        };
        Ok(
            NodeRow {
                pid: object.pid.0.clone(),
                created_date: object.created_date,
                label: object.label.clone(),
                weight,
                model: String::from_str(model.identifier()),
                modified_date: object.modified_date,
                state: String::from_str(object.state.as_str()),
                user: object.owner.clone(),
                display_hint: String::from_str(DisplayHint::from(model).as_str()),
                parents: join_with(&object.parents, "|"),
            },
        )
    }

    /// The rows of `nodes.csv`: one for each object, in the order of the
    /// map; or what is said of the first model that is not known.
    pub fn csv(objects: &ObjectMap) -> (r: Result<Vec<NodeRow>, String>)
        ensures
            match first_unknown_model(objects.entries(), objects.entries().len() as int) {
                Some(i) => r matches Err(message) && message@ == unknown_model_message(
                    objects.entries()[i].model@,
                ),
                None => r matches Ok(rows) && rows.len() == objects.entries().len() && forall|
                    i: int,
                |
                    0 <= i < rows.len() ==> (#[trigger] rows[i]).describes(objects.entries()[i]@),
            },
    {
        let entries = objects.objects();
        let mut rows: Vec<NodeRow> = Vec::new();
        let mut i: usize = 0;
        while i < entries.len()
            invariant
                i <= entries.len(),
                entries@ == objects.entries(),
                first_unknown_model(entries@, i as int) is None,
                rows.len() == i,
                forall|k: int| 0 <= k < i ==> (#[trigger] rows[k]).describes(entries@[k]@),
            decreases entries.len() - i,
        {
            match NodeRow::new(&entries[i]) {
                Ok(row) => {
                    rows.push(row);
                },
                Err(message) => {
                    proof {
                        lemma_first_unknown_stays(entries@, i as int + 1, entries.len() as int);
                    }
                    return Err(message);
                },
            }
            i += 1;
        }
        Ok(rows)
    }

    /// The names of the columns.
    pub fn headers() -> (r: Vec<&'static str>)
        ensures
            names_of(r@) == seq![
                "pid"@,
                "created_date"@,
                "label"@,
                "weight"@,
                "model"@,
                "modified_date"@,
                "state"@,
                "user"@,
                "display_hint"@,
                "parents"@,
            ],
    {
        let r = vec![
            "pid",
            "created_date",
            "label",
            "weight",
            "model",
            "modified_date",
            "state",
            "user",
            "display_hint",
            "parents",
        ];
        assert(names_of(r@) =~= seq![
            "pid"@,
            "created_date"@,
            "label"@,
            "weight"@,
            "model"@,
            "modified_date"@,
            "state"@,
            "user"@,
            "display_hint"@,
            "parents"@,
        ]);
        r
    }

    /// The fields in the order of the columns, numbers in decimal form.
    pub fn to_record(&self) -> (r: Vec<String>)
        ensures
            texts(r@) == seq![
                self.pid@,
                decimal_text(self.created_date as int),
                self.label@,
                self.weight@,
                self.model@,
                decimal_text(self.modified_date as int),
                self.state@,
                self.user@,
                self.display_hint@,
                self.parents@,
            ],
    {
        let r = vec![
            self.pid.clone(),
            signed_decimal(self.created_date),
            self.label.clone(),
            self.weight.clone(),
            self.model.clone(),
            signed_decimal(self.modified_date),
            self.state.clone(),
            self.user.clone(),
            self.display_hint.clone(),
            self.parents.clone(),
        ];
        assert(texts(r@) =~= seq![
            self.pid@,
            decimal_text(self.created_date as int),
            self.label@,
            self.weight@,
            self.model@,
            decimal_text(self.modified_date as int),
            self.state@,
            self.user@,
            self.display_hint@,
            self.parents@,
        ]);
        r
    }
}

/// An unknown model that is found among the first objects is the first
/// unknown model of every longer stretch.
pub proof fn lemma_first_unknown_stays(objects: Seq<Object>, found: int, upto: int)
    requires
        0 <= found <= upto,
        first_unknown_model(objects, found) is Some,
    ensures
        first_unknown_model(objects, upto) == first_unknown_model(objects, found),
    decreases upto - found,
{
    if found < upto {
        lemma_first_unknown_stays(objects, found, upto - 1);
    }
}

/// The PIDs of the rows, in order.
pub open spec fn row_pids(rows: Seq<NodeRow>) -> Seq<Seq<char>> {
    Seq::new(rows.len(), |i: int| rows[i].pid@)
}

/// The rows of `nodes.csv` are strictly increasing in PID under the
/// alphanumeric order.
pub proof fn lemma_node_rows_increase(objects: ObjectMap, rows: Seq<NodeRow>)
    requires
        objects.well_formed(),
        rows.len() == objects.entries().len(),
        forall|i: int| 0 <= i < rows.len() ==> (#[trigger] rows[i]).describes(objects.entries()[i]@),
    ensures
        strictly_ordered(row_pids(rows)),
{
    assert(row_pids(rows) =~= objects.keys()) by {
        assert forall|i: int| 0 <= i < rows.len() implies row_pids(rows)[i] == objects.keys()[i] by {
            assert(rows[i].describes(objects.entries()[i]@));
        }
    }
}

/// Where the alphanumeric rank is that of an order on the PIDs of the map,
/// every row of `nodes.csv` precedes every row behind it.
pub proof fn lemma_node_rows_increase_throughout(objects: ObjectMap, rows: Seq<NodeRow>)
    requires
        objects.well_formed(),
        rows.len() == objects.entries().len(),
        forall|i: int| 0 <= i < rows.len() ==> (#[trigger] rows[i]).describes(objects.entries()[i]@),
        crate::order::ranks_as_order(row_pids(rows)),
    ensures
        forall|i: int, j: int|
            0 <= i < j < rows.len() ==> crate::order::precedes(
                #[trigger] row_pids(rows)[i],
                #[trigger] row_pids(rows)[j],
            ),
{
    lemma_node_rows_increase(objects, rows);
    assert forall|i: int, j: int| 0 <= i < j < rows.len() implies crate::order::precedes(
        #[trigger] row_pids(rows)[i],
        #[trigger] row_pids(rows)[j],
    ) by {
        crate::order::lemma_precedes_later(row_pids(rows), i, j);
    }
}

/// The parents of a row of `nodes.csv` are the resources of the ten parent
/// relations of the object's RELS-EXT, sorted in the alphanumeric order
/// and joined by `|`.
pub proof fn lemma_node_row_parents(
    row: NodeRow,
    object: ObjectView,
    rels_ext: crate::rels_ext::RelsExtView,
)
    requires
        row.describes(object.with_rels_ext(rels_ext)),
    ensures
        row.parents@ == joined_with(crate::order::sorted(rels_ext.parent_resources()), "|"@),
        row.weight@ == weight_text(crate::rels_ext::weight_of(rels_ext)),
{
}

/// One row of `media.csv` or of `media_revisions.csv`.
#[derive(Clone, Debug)]
pub struct MediaRow {
    pub pid: String,
    pub dsid: String,
    pub version: String,
    pub bundle: String,
    pub created_date: i64,
    pub file_size: u64,
    pub label: String,
    pub mime_type: String,
    pub name: String,
    pub user: String,
}

/// The size that is written for a file: its own, or 0 where it is missing.
pub open spec fn size_or_zero(size: Option<u64>) -> u64 {
    match size {
        Some(size) => size,
        None => 0,
    }
}

impl MediaRow {
    /// The row says of a version what the media projections hold of it.
    pub open spec fn describes(
        self,
        object: ObjectView,
        datastream: DatastreamView,
        version: VersionView,
        file_size: Option<u64>,
    ) -> bool {
        &&& self.pid@ == object.pid
        &&& self.dsid@ == datastream.id
        &&& self.version@ == version.id
        &&& self.bundle@ == bundle_of(datastream.id, version.mime_type)
        &&& self.created_date == version.created_date
        &&& self.file_size == size_or_zero(file_size)
        &&& self.label@ == version.label
        &&& self.mime_type@ == version.mime_type
        &&& self.name@ == version.file_name()
        &&& self.user@ == object.owner
    }

    /// The row says of the version at `place` what the media projections
    /// hold of it.
    pub open spec fn describes_place(self, objects: Seq<Object>, place: Place, size: Option<u64>) -> bool {
        let object = objects[place.0 as int];
        let datastream = object.datastreams@[place.1 as int];
        self.describes(object@, datastream@, datastream.versions@[place.2 as int]@, size)
    }

    /// The row of one version; `file_size` is the size of its file, if the
    /// file is there.
    pub fn new(
        object: &Object,
        datastream: &Datastream,
        version: &DatastreamVersion,
        file_size: Option<u64>,
    ) -> (r: MediaRow)
        ensures
            r.describes(object@, datastream@, version@, file_size),
    {
        MediaRow {
            pid: object.pid.0.clone(),
            dsid: datastream.id.clone(),
            version: version.id.clone(),
            bundle: String::from_str(bundle(datastream.id.as_str(), version.mime_type.as_str())),
            created_date: version.created_date,
            file_size: match file_size {
                Some(size) => size,
                None => 0,
            },
            label: version.label.clone(),
            mime_type: version.mime_type.clone(),
            name: version.file_name(),
            user: object.owner.clone(),
        }
    }

    /// The rows of the versions at `places`, one for one; `sizes` holds
    /// the size of each version's file, if the file is there.
    pub fn rows(objects: &ObjectMap, places: &Vec<Place>, sizes: &Vec<Option<u64>>) -> (r: Vec<
        MediaRow,
    >)
        requires
            sizes.len() == places.len(),
            forall|i: int| 0 <= i < places.len() ==> place_exists(objects.entries(), #[trigger] places[i]),
        ensures
            r.len() == places.len(),
            forall|i: int|
                0 <= i < r.len() ==> (#[trigger] r[i]).describes_place(
                    objects.entries(),
                    places[i],
                    sizes[i],
                ),
    {
        let entries = objects.objects();
        let mut r: Vec<MediaRow> = Vec::new();
        let mut i: usize = 0;
        while i < places.len()
            invariant
                i <= places.len(),
                sizes.len() == places.len(),
                entries@ == objects.entries(),
                forall|k: int| 0 <= k < places.len() ==> place_exists(entries@, #[trigger] places[k]),
                r.len() == i,
                forall|k: int|
                    0 <= k < i ==> (#[trigger] r[k]).describes_place(entries@, places[k], sizes[k]),
            decreases places.len() - i,
        {
            let place = places[i];
            assert(place_exists(entries@, places[i as int]));
            let object = &entries[place.0];
            let datastream = &object.datastreams[place.1];
            let version = &datastream.versions[place.2];
            r.push(MediaRow::new(object, datastream, version, sizes[i]));
            i += 1;
        }
        r
    }

    /// The rows of `media.csv`: the latest version of every datastream.
    /// `sizes` goes by `ObjectMap::latest_versions`.
    pub fn csv(objects: &ObjectMap, sizes: &Vec<Option<u64>>) -> (r: Vec<MediaRow>)
        requires
            sizes.len() == graph_places(
                Selection::Latest,
                objects.entries(),
                objects.entries().len() as int,
            ).len(),
        ensures
            r.len() == sizes.len(),
            forall|i: int|
                0 <= i < r.len() ==> (#[trigger] r[i]).describes_place(
                    objects.entries(),
                    graph_places(
                        Selection::Latest,
                        objects.entries(),
                        objects.entries().len() as int,
                    )[i],
                    sizes[i],
                ),
    {
        let places = objects.latest_versions();
        MediaRow::rows(objects, &places, sizes)
    }

    /// The rows of `media_revisions.csv`: every version but the latest of
    /// every datastream. `sizes` goes by `ObjectMap::previous_versions`.
    pub fn revisions_csv(objects: &ObjectMap, sizes: &Vec<Option<u64>>) -> (r: Vec<MediaRow>)
        requires
            sizes.len() == graph_places(
                Selection::Previous,
                objects.entries(),
                objects.entries().len() as int,
            ).len(),
        ensures
            r.len() == sizes.len(),
            forall|i: int|
                0 <= i < r.len() ==> (#[trigger] r[i]).describes_place(
                    objects.entries(),
                    graph_places(
                        Selection::Previous,
                        objects.entries(),
                        objects.entries().len() as int,
                    )[i],
                    sizes[i],
                ),
    {
        let places = objects.previous_versions();
        MediaRow::rows(objects, &places, sizes)
    }

    /// The names of the columns.
    pub fn headers() -> (r: Vec<&'static str>)
        ensures
            names_of(r@) == seq![
                "pid"@,
                "dsid"@,
                "version"@,
                "bundle"@,
                "created_date"@,
                "file_size"@,
                "label"@,
                "mime_type"@,
                "name"@,
                "user"@,
            ],
    {
        let r = vec![
            "pid",
            "dsid",
            "version",
            "bundle",
            "created_date",
            "file_size",
            "label",
            "mime_type",
            "name",
            "user",
        ];
        assert(names_of(r@) =~= seq![
            "pid"@,
            "dsid"@,
            "version"@,
            "bundle"@,
            "created_date"@,
            "file_size"@,
            "label"@,
            "mime_type"@,
            "name"@,
            "user"@,
        ]);
        r
    }

    /// The fields in the order of the columns, numbers in decimal form.
    pub fn to_record(&self) -> (r: Vec<String>)
        ensures
            texts(r@) == seq![
                self.pid@,
                self.dsid@,
                self.version@,
                self.bundle@,
                decimal_text(self.created_date as int),
                decimal_text(self.file_size as int),
                self.label@,
                self.mime_type@,
                self.name@,
                self.user@,
            ],
    {
        let r = vec![
            self.pid.clone(),
            self.dsid.clone(),
            self.version.clone(),
            self.bundle.clone(),
            signed_decimal(self.created_date),
            unsigned_decimal(self.file_size),
            self.label.clone(),
            self.mime_type.clone(),
            self.name.clone(),
            self.user.clone(),
        ];
        assert(texts(r@) =~= seq![
            self.pid@,
            self.dsid@,
            self.version@,
            self.bundle@,
            decimal_text(self.created_date as int),
            decimal_text(self.file_size as int),
            self.label@,
            self.mime_type@,
            self.name@,
            self.user@,
        ]);
        r
    }
}

/// What is known of a version's file: the SHA-1 of its content in
/// hexadecimal, and its size.
#[derive(Clone, Debug)]
pub struct FileFacts {
    pub sha1: String,
    pub size: u64,
}

/// The SHA-1 of `content` in lower-case hexadecimal, as the `sha1` crate
/// computes it.
pub uninterp spec fn sha1_hex(content: Seq<u8>) -> Seq<char>;

/// Calls `sha1::Sha1::digest` and writes the digest in hexadecimal.
/// Trusted: the digest depends on the bytes alone, and its twenty bytes
/// make forty characters.
#[verifier::external_body]
fn sha1_digest(content: &[u8]) -> (r: String)
    ensures
        r@ == sha1_hex(content@),
        r@.len() == 40,
{
    format!("{:x}", sha1::Sha1::digest(content))
}

/// One row of `files.csv`.
#[derive(Clone, Debug)]
pub struct FileRow {
    pub pid: String,
    pub dsid: String,
    pub version: String,
    pub created_date: i64,
    pub mime_type: String,
    pub name: String,
    pub path: String,
    pub user: String,
    pub sha1: String,
    pub size: u64,
}

/// Where the target system finds a version's file: below
/// `private://fedora/`, the name of the datastreams directory and then the
/// version's place in it.
pub open spec fn storage_path(directory: Seq<char>, version: VersionView) -> Seq<char> {
    let root = match path_file_name(directory) {
        Some(name) => name,
        None => Seq::empty(),
    };
    "private://fedora/"@ + version.path(root)
}

impl FileRow {
    /// The row says of a version what `files.csv` holds of it.
    pub open spec fn describes(
        self,
        object: ObjectView,
        datastream: DatastreamView,
        version: VersionView,
        directory: Seq<char>,
        file: Option<FileFacts>,
    ) -> bool {
        &&& self.pid@ == object.pid
        &&& self.dsid@ == datastream.id
        &&& self.version@ == version.id
        &&& self.created_date == version.created_date
        &&& self.mime_type@ == version.mime_type
        &&& self.name@ == version.file_name()
        &&& self.path@ == storage_path(directory, version)
        &&& self.user@ == object.owner
        &&& match file {
            Some(facts) => self.sha1@ == facts.sha1@ && self.size == facts.size,
            None => self.sha1@.len() == 0 && self.size == 0,
        }
    }

    /// The row says of the version at `place` what `files.csv` holds of it.
    pub open spec fn describes_place(
        self,
        objects: Seq<Object>,
        place: Place,
        directory: Seq<char>,
        file: Option<FileFacts>,
    ) -> bool {
        let object = objects[place.0 as int];
        let datastream = object.datastreams@[place.1 as int];
        self.describes(object@, datastream@, datastream.versions@[place.2 as int]@, directory, file)
    }

    /// The SHA-1 of a file's content, in hexadecimal: forty characters.
    pub fn sha1(content: &[u8]) -> (r: String)
        ensures
            r@ == sha1_hex(content@),
            r@.len() == 40,
    {
        sha1_digest(content)
    }

    /// The row of one version below the given datastreams directory;
    /// `file` is what is known of its file, if the file is there.
    pub fn new(
        object: &Object,
        datastream: &Datastream,
        version: &DatastreamVersion,
        datastreams_directory: &str,
        file: &Option<FileFacts>,
    ) -> (r: FileRow)
        ensures
            r.describes(object@, datastream@, version@, datastreams_directory@, *file),
    {
        let root = match name_of(datastreams_directory) {
            Some(name) => name,
            None => String::new(),
        };
        let mut path = String::from_str("private://fedora/");
        path.append(version.path(root.as_str()).as_str());
        let (sha1, size) = match file {
            Some(facts) => (facts.sha1.clone(), facts.size),
            None => (String::new(), 0),
        };
        FileRow {
            pid: object.pid.0.clone(),
            dsid: datastream.id.clone(),
            version: version.id.clone(),
            created_date: version.created_date,
            mime_type: version.mime_type.clone(),
            name: version.file_name(),
            path,
            user: object.owner.clone(),
            sha1,
            size,
        }
    }

    /// The rows of `files.csv`: every version of every datastream. `files`
    /// goes by `ObjectMap::versions`.
    pub fn csv(objects: &ObjectMap, datastreams_directory: &str, files: &Vec<Option<FileFacts>>) -> (r:
        Vec<FileRow>)
        requires
            files.len() == graph_places(
                Selection::All,
                objects.entries(),
                objects.entries().len() as int,
            ).len(),
        ensures
            r.len() == files.len(),
            forall|i: int|
                0 <= i < r.len() ==> (#[trigger] r[i]).describes_place(
                    objects.entries(),
                    graph_places(Selection::All, objects.entries(), objects.entries().len() as int)[i],
                    datastreams_directory@,
                    files[i],
                ),
    {
        let places = objects.versions();
        let entries = objects.objects();
        let mut r: Vec<FileRow> = Vec::new();
        let mut i: usize = 0;
        while i < places.len()
            invariant
                i <= places.len(),
                files.len() == places.len(),
                entries@ == objects.entries(),
                forall|k: int| 0 <= k < places.len() ==> place_exists(entries@, #[trigger] places[k]),
                r.len() == i,
                forall|k: int|
                    0 <= k < i ==> (#[trigger] r[k]).describes_place(
                        entries@,
                        places[k],
                        datastreams_directory@,
                        files[k],
                    ),
            decreases places.len() - i,
        {
            let place = places[i];
            assert(place_exists(entries@, places[i as int]));
            let object = &entries[place.0];
            let datastream = &object.datastreams[place.1];
            let version = &datastream.versions[place.2];
            r.push(FileRow::new(object, datastream, version, datastreams_directory, &files[i]));
            i += 1;
        }
        r
    }

    /// The names of the columns.
    pub fn headers() -> (r: Vec<&'static str>)
        ensures
            names_of(r@) == seq![
                "pid"@,
                "dsid"@,
                "version"@,
                "created_date"@,
                "mime_type"@,
                "name"@,
                "path"@,
                "user"@,
                "sha1"@,
                "size"@,
            ],
    {
        let r = vec![
            "pid",
            "dsid",
            "version",
            "created_date",
            "mime_type",
            "name",
            "path",
            "user",
            "sha1",
            "size",
        ];
        assert(names_of(r@) =~= seq![
            "pid"@,
            "dsid"@,
            "version"@,
            "created_date"@,
            "mime_type"@,
            "name"@,
            "path"@,
            "user"@,
            "sha1"@,
            "size"@,
        ]);
        r
    }

    /// The fields in the order of the columns, numbers in decimal form.
    pub fn to_record(&self) -> (r: Vec<String>)
        ensures
            texts(r@) == seq![
                self.pid@,
                self.dsid@,
                self.version@,
                decimal_text(self.created_date as int),
                self.mime_type@,
                self.name@,
                self.path@,
                self.user@,
                self.sha1@,
                decimal_text(self.size as int),
            ],
    {
        let r = vec![
            self.pid.clone(),
            self.dsid.clone(),
            self.version.clone(),
            signed_decimal(self.created_date),
            self.mime_type.clone(),
            self.name.clone(),
            self.path.clone(),
            self.user.clone(),
            self.sha1.clone(),
            unsigned_decimal(self.size),
        ];
        assert(texts(r@) =~= seq![
            self.pid@,
            self.dsid@,
            self.version@,
            decimal_text(self.created_date as int),
            self.mime_type@,
            self.name@,
            self.path@,
            self.user@,
            self.sha1@,
            decimal_text(self.size as int),
        ]);
        r
    }
}


/// The rows of the four fixed projections.
pub struct Projections {
    pub nodes: Vec<NodeRow>,
    pub media: Vec<MediaRow>,
    pub media_revisions: Vec<MediaRow>,
    pub files: Vec<FileRow>,
}

impl Projections {
    /// The four lists hold the rows of the objects and of their versions:
    /// one node for each object, one media for the latest version of each
    /// datastream, one media revision for each other version, and one
    /// file for each version.
    pub open spec fn projects(
        self,
        objects: Seq<Object>,
        directory: Seq<char>,
        latest_sizes: Seq<Option<u64>>,
        previous_sizes: Seq<Option<u64>>,
        files: Seq<Option<FileFacts>>,
    ) -> bool {
        &&& self.nodes.len() == objects.len()
        &&& forall|i: int|
            0 <= i < self.nodes.len() ==> (#[trigger] self.nodes[i]).describes(objects[i]@)
        &&& self.media.len() == latest_sizes.len()
        &&& forall|i: int|
            0 <= i < self.media.len() ==> (#[trigger] self.media[i]).describes_place(
                objects,
                graph_places(Selection::Latest, objects, objects.len() as int)[i],
                latest_sizes[i],
            )
        &&& self.media_revisions.len() == previous_sizes.len()
        &&& forall|i: int|
            0 <= i < self.media_revisions.len() ==> (#[trigger] self.media_revisions[i]).describes_place(
                objects,
                graph_places(Selection::Previous, objects, objects.len() as int)[i],
                previous_sizes[i],
            )
        &&& self.files.len() == files.len()
        &&& forall|i: int|
            0 <= i < self.files.len() ==> (#[trigger] self.files[i]).describes_place(
                objects,
                graph_places(Selection::All, objects, objects.len() as int)[i],
                directory,
                files[i],
            )
    }
}

/// Makes the rows of the four projections, or says which model is not
/// known: then no projection is made. The sizes and the file facts go by
/// the walks of the map over the latest, the previous and all versions.
pub fn generate_csvs(
    objects: &ObjectMap,
    datastreams_directory: &str,
    latest_sizes: &Vec<Option<u64>>,
    previous_sizes: &Vec<Option<u64>>,
    files: &Vec<Option<FileFacts>>,
) -> (r: Result<Projections, String>)
    requires
        latest_sizes.len() == graph_places(
            Selection::Latest,
            objects.entries(),
            objects.entries().len() as int,
        ).len(),
        previous_sizes.len() == graph_places(
            Selection::Previous,
            objects.entries(),
            objects.entries().len() as int,
        ).len(),
        files.len() == graph_places(
            Selection::All,
            objects.entries(),
            objects.entries().len() as int,
        ).len(),
    ensures
        match first_unknown_model(objects.entries(), objects.entries().len() as int) {
            Some(i) => r matches Err(message) && message@ == unknown_model_message(
                objects.entries()[i].model@,
            ),
            None => r matches Ok(made) && made.projects(
                objects.entries(),
                datastreams_directory@,
                latest_sizes@,
                previous_sizes@,
                files@,
            ),
        },
{
    let nodes = NodeRow::csv(objects)?;
    let media = MediaRow::csv(objects, latest_sizes);
    let media_revisions = MediaRow::revisions_csv(objects, previous_sizes);
    let files = FileRow::csv(objects, datastreams_directory, files);
    Ok(Projections { nodes, media, media_revisions, files })
}

} // verus!
