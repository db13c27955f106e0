use fedora_export::foxml::{
    Foxml, FoxmlControlGroup, FoxmlDatastream, FoxmlDatastreamState, FoxmlDatastreamVersion,
    FoxmlObjectProperties, FoxmlProperty,
};
use fedora_export::object::Object;
use fedora_export::object_map::ObjectMap;
use fedora_export::rels_ext::RelsExt;
use fedora_export::rows::{bundle, generate_csvs, DisplayHint, FileFacts, FileRow, MediaRow, Model, NodeRow};

fn property(name: &str, value: &str) -> FoxmlProperty {
    FoxmlProperty { name: name.to_string(), value: value.to_string() }
}

fn version(id: &str, label: &str, mime_type: &str) -> FoxmlDatastreamVersion {
    FoxmlDatastreamVersion {
        id: id.to_string(),
        label: label.to_string(),
        created: 1425320800,
        mime_type: mime_type.to_string(),
        size: None,
        format: None,
        content: vec![],
    }
}

fn datastream(id: &str, versions: Vec<FoxmlDatastreamVersion>) -> FoxmlDatastream {
    FoxmlDatastream {
        id: id.to_string(),
        state: FoxmlDatastreamState::A,
        control_group: FoxmlControlGroup::M,
        versionable: true,
        versions,
    }
}

fn object(pid: &str, model: &str, datastreams: Vec<FoxmlDatastream>) -> Object {
    let foxml = Foxml {
        pid: pid.to_string(),
        properties: FoxmlObjectProperties {
            properties: vec![
                property("info:fedora/fedora-system:def/model#state", "Active"),
                property("info:fedora/fedora-system:def/model#label", "A label"),
                property("info:fedora/fedora-system:def/model#ownerId", "fedoraAdmin"),
                property("info:fedora/fedora-system:def/model#createdDate", "2015-03-02T18:26:40.947Z"),
                property("info:fedora/fedora-system:def/view#lastModifiedDate", "2015-03-02T18:26:42.000Z"),
            ],
        },
        datastreams,
    };
    let mut object = Object::new(foxml).unwrap();
    object.set_rels_ext(&RelsExt {
        hasModel: vec![model.to_string()],
        isMemberOfCollection: vec!["ns:456".to_string(), "ns:789".to_string()],
        isMemberOf: vec!["ns:111".to_string()],
        isPageNumber: Some(2),
        ..RelsExt::default()
    });
    object
}

fn single_object_map() -> ObjectMap {
    ObjectMap::from_objects(vec![object(
        "namespace:1",
        "islandora:pageCModel",
        vec![datastream("DC", vec![version("DC1.0", "DC", "text/xml")])],
    )])
}

#[test]
fn single_object_projections() {
    let map = single_object_map();
    let content = b"<dc/>";
    let facts = FileFacts { sha1: FileRow::sha1(content), size: content.len() as u64 };
    let made = generate_csvs(&map, "/staged/datastreams", &vec![Some(5)], &vec![], &vec![Some(facts)]).unwrap();
    assert_eq!(made.nodes.len(), 1);
    assert_eq!(made.media.len(), 1);
    assert_eq!(made.media_revisions.len(), 0);
    assert_eq!(made.files.len(), 1);
    assert_eq!(made.media[0].bundle, "file");
    assert_eq!(made.media[0].file_size, 5);
    assert!(!made.files[0].sha1.is_empty());
    assert_eq!(made.files[0].sha1.len(), 40);
    assert_eq!(made.files[0].size, 5);
    assert_eq!(made.files[0].path, "private://fedora/datastreams/namespace:1/DC/DC1.0/namespace:1_DC_DC1.0.xml");
    assert_eq!(made.files[0].name, "namespace:1_DC_DC1.0.xml");
}

#[test]
fn node_row() {
    let map = single_object_map();
    let row = NodeRow::new(&map.objects()[0]).unwrap();
    assert_eq!(
        row.to_record(),
        vec![
            "namespace:1",
            "1425320800",
            "A label",
            "2",
            "http://id.loc.gov/ontologies/bibframe/part",
            "1425320802",
            "Active",
            "admin",
            "http://openseadragon.github.io",
            "ns:111|ns:456|ns:789",
        ]
    );
    assert_eq!(
        NodeRow::headers(),
        vec!["pid", "created_date", "label", "weight", "model", "modified_date", "state", "user", "display_hint", "parents"]
    );
}

#[test]
fn node_row_without_weight_and_parents() {
    let mut object = object("ns:1", "islandora:sp_pdf", vec![]);
    object.set_rels_ext(&RelsExt { hasModel: vec!["islandora:sp_pdf".to_string()], ..RelsExt::default() });
    let row = NodeRow::new(&object).unwrap();
    assert_eq!(row.weight, "");
    assert_eq!(row.parents, "");
    assert_eq!(row.model, "https://schema.org/DigitalDocument");
    assert_eq!(row.display_hint, "http://mozilla.github.io/pdf.js");
}

#[test]
fn unknown_content_model() {
    let map = ObjectMap::from_objects(vec![
        object("ns:1", "islandora:sp_pdf", vec![]),
        object("ns:2", "islandora:unknownCModel", vec![]),
    ]);
    let error = NodeRow::csv(&map).unwrap_err();
    assert_eq!(error, "Unknown content model islandora:unknownCModel");
    let error = generate_csvs(&map, "/staged/datastreams", &vec![], &vec![], &vec![]).err().unwrap();
    assert!(error.contains("islandora:unknownCModel"));
    assert_eq!(Model::try_from("nothing"), Err("Unknown content model nothing".to_string()));
}

#[test]
fn node_rows_are_in_pid_order() {
    let map = ObjectMap::from_objects(vec![
        object("item:10", "islandora:sp_pdf", vec![]),
        object("item:2", "islandora:sp_pdf", vec![]),
        object("item:1", "islandora:sp_pdf", vec![]),
    ]);
    let rows = NodeRow::csv(&map).unwrap();
    let pids: Vec<&str> = rows.iter().map(|row| row.pid.as_str()).collect();
    assert_eq!(pids, vec!["item:1", "item:2", "item:10"]);
}

#[test]
fn latest_and_previous_versions() {
    let map = ObjectMap::from_objects(vec![object(
        "ns:2",
        "islandora:sp_pdf",
        vec![datastream("OBJ", vec![version("OBJ.1", "one", "image/png"), version("OBJ.0", "zero", "image/png")])],
    )]);
    let media = MediaRow::csv(&map, &vec![Some(10)]);
    assert_eq!(media.len(), 1);
    assert_eq!(media[0].version, "OBJ.1");
    let revisions = MediaRow::revisions_csv(&map, &vec![None]);
    assert_eq!(revisions.len(), 1);
    assert_eq!(revisions[0].version, "OBJ.0");
    assert_eq!(revisions[0].file_size, 0);
    let files = FileRow::csv(&map, "/staged/datastreams", &vec![None, None]);
    let versions: Vec<&str> = files.iter().map(|row| row.version.as_str()).collect();
    assert_eq!(versions, vec!["OBJ.0", "OBJ.1"]);
    assert_eq!(files[0].sha1, "");
    assert_eq!(files[0].size, 0);
}

#[test]
fn media_row() {
    let map = single_object_map();
    let object = &map.objects()[0];
    let datastream = &object.datastreams[0];
    let row = MediaRow::new(object, datastream, datastream.latest(), Some(1234));
    assert_eq!(
        row.to_record(),
        vec!["namespace:1", "DC", "DC1.0", "file", "1425320800", "1234", "DC", "text/xml", "namespace:1_DC_DC1.0.xml", "admin"]
    );
    assert_eq!(
        MediaRow::headers(),
        vec!["pid", "dsid", "version", "bundle", "created_date", "file_size", "label", "mime_type", "name", "user"]
    );
}

#[test]
fn file_row() {
    let map = single_object_map();
    let object = &map.objects()[0];
    let datastream = &object.datastreams[0];
    let facts = Some(FileFacts { sha1: FileRow::sha1(b"abc"), size: 3 });
    let row = FileRow::new(object, datastream, datastream.latest(), "/staged/datastreams", &facts);
    assert_eq!(
        row.to_record(),
        vec![
            "namespace:1",
            "DC",
            "DC1.0",
            "1425320800",
            "text/xml",
            "namespace:1_DC_DC1.0.xml",
            "private://fedora/datastreams/namespace:1/DC/DC1.0/namespace:1_DC_DC1.0.xml",
            "admin",
            "a9993e364706816aba3e25717850c26c9cd0d89d",
            "3",
        ]
    );
    assert_eq!(
        FileRow::headers(),
        vec!["pid", "dsid", "version", "created_date", "mime_type", "name", "path", "user", "sha1", "size"]
    );
}

#[test]
fn sha1_of_known_contents() {
    assert_eq!(FileRow::sha1(b""), "da39a3ee5e6b4b0d3255bfef95601890afd80709");
    assert_eq!(FileRow::sha1(b"abc"), "a9993e364706816aba3e25717850c26c9cd0d89d");
}

#[test]
fn bundles() {
    assert_eq!(bundle("OCR", "text/plain"), "extracted_text");
    assert_eq!(bundle("FULL_TEXT", "application/pdf"), "extracted_text");
    assert_eq!(bundle("TECHMD", "text/xml"), "fits_technical_metadata");
    assert_eq!(bundle("OBJ", "application/pdf"), "document");
    assert_eq!(bundle("OBJ", "text/plain"), "document");
    assert_eq!(bundle("OBJ", "audio/mpeg"), "audio");
    assert_eq!(bundle("OBJ", "image/jpeg"), "image");
    assert_eq!(bundle("OBJ", "image/tiff"), "file");
    assert_eq!(bundle("OBJ", "image/jp2"), "file");
    assert_eq!(bundle("OBJ", "video/mp4"), "video");
    assert_eq!(bundle("OBJ", "application/octet-stream"), "file");
}

#[test]
fn models() {
    assert_eq!(Model::try_from("islandora:collectionCModel"), Ok(Model::Collection));
    assert_eq!(Model::try_from("islandora:binaryObjectCModel"), Ok(Model::Binary));
    assert_eq!(Model::Collection.identifier(), "http://purl.org/dc/dcmitype/Collection");
    assert_eq!(Model::BasicImage.identifier(), "http://purl.org/coar/resource_type/c_c513");
    assert_eq!(Model::Audio.identifier(), "http://purl.org/coar/resource_type/c_18cc");
    assert_eq!(DisplayHint::from(Model::LargeImage), DisplayHint::OpenSeadragon);
    assert_eq!(DisplayHint::from(Model::Page), DisplayHint::OpenSeadragon);
    assert_eq!(DisplayHint::from(Model::NewspaperPage), DisplayHint::OpenSeadragon);
    assert_eq!(DisplayHint::from(Model::PDF), DisplayHint::PdfJS);
    assert_eq!(DisplayHint::from(Model::Book), DisplayHint::Plain);
    assert_eq!(DisplayHint::Plain.as_str(), "");
}
