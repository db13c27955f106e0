use fedora_export::extensions::{extension_for, version_file_name};
use fedora_export::foxml::{
    Foxml, FoxmlControlGroup, FoxmlDatastream, FoxmlDatastreamState, FoxmlDatastreamVersion,
    FoxmlObjectProperties,
};
use fedora_export::identifiers::{DatastreamIdentifier, ObjectIdentifier};
use fedora_export::staging::{datastreams, find_reference, identify_files, migrate_managed_datastreams, object_destination};

fn version(id: &str, label: &str, mime_type: &str) -> FoxmlDatastreamVersion {
    FoxmlDatastreamVersion {
        id: id.to_string(),
        label: label.to_string(),
        created: 0,
        mime_type: mime_type.to_string(),
        size: None,
        format: None,
        content: vec![],
    }
}

fn datastream(id: &str, group: FoxmlControlGroup, versions: Vec<FoxmlDatastreamVersion>) -> FoxmlDatastream {
    FoxmlDatastream {
        id: id.to_string(),
        state: FoxmlDatastreamState::A,
        control_group: group,
        versionable: true,
        versions,
    }
}

fn identifier(pid: &str, dsid: &str, version: &str) -> DatastreamIdentifier {
    DatastreamIdentifier { pid: pid.to_string(), dsid: dsid.to_string(), version: version.to_string() }
}

#[test]
fn files_are_identified() {
    let paths = vec![
        "/store/info%3Afedora%2Fns%3A1".to_string(),
        "/store/README".to_string(),
        "/store/info%3Afedora%2Fns%3A2".to_string(),
    ];
    let (known, unknown) = identify_files::<ObjectIdentifier>(&paths);
    assert_eq!(
        known,
        vec![(ObjectIdentifier { pid: "ns:1".to_string() }, 0), (ObjectIdentifier { pid: "ns:2".to_string() }, 2)]
    );
    assert_eq!(unknown, vec![1]);
    let (known, unknown) = identify_files::<DatastreamIdentifier>(&paths);
    assert!(known.is_empty());
    assert_eq!(unknown, vec![0, 1, 2]);
}

#[test]
fn object_destinations() {
    assert_eq!(
        object_destination("/staged/objects", &ObjectIdentifier { pid: "ns:1".to_string() }),
        "/staged/objects/ns:1.xml"
    );
}

#[test]
fn datastreams_of_a_control_group() {
    let objects = vec![
        Foxml {
            pid: "ns:1".to_string(),
            properties: FoxmlObjectProperties { properties: vec![] },
            datastreams: vec![
                datastream("DC", FoxmlControlGroup::X, vec![version("DC.0", "DC", "text/xml")]),
                datastream(
                    "OBJ",
                    FoxmlControlGroup::M,
                    vec![version("OBJ.0", "01-01-1942_web.pdf", "application/pdf"), version("OBJ.1", "OBJ", "application/pdf")],
                ),
            ],
        },
        Foxml {
            pid: "ns:2".to_string(),
            properties: FoxmlObjectProperties { properties: vec![] },
            datastreams: vec![datastream("MODS", FoxmlControlGroup::M, vec![version("MODS.0", "MODS", "text/xml")])],
        },
    ];
    let managed = datastreams(&objects, FoxmlControlGroup::M, "/staged/datastreams");
    assert_eq!(
        managed,
        vec![
            (identifier("ns:1", "OBJ", "OBJ.0"), "/staged/datastreams/ns:1/OBJ/OBJ.0/01-01-1942_web.pdf".to_string()),
            (identifier("ns:1", "OBJ", "OBJ.1"), "/staged/datastreams/ns:1/OBJ/OBJ.1/ns:1_OBJ_OBJ.1.pdf".to_string()),
            (identifier("ns:2", "MODS", "MODS.0"), "/staged/datastreams/ns:2/MODS/MODS.0/ns:2_MODS_MODS.0.xml".to_string()),
        ]
    );
    let inline = datastreams(&objects, FoxmlControlGroup::X, "/d");
    assert_eq!(inline, vec![(identifier("ns:1", "DC", "DC.0"), "/d/ns:1/DC/DC.0/ns:1_DC_DC.0.xml".to_string())]);
    assert!(datastreams(&objects, FoxmlControlGroup::E, "/d").is_empty());
}

#[test]
fn orphans_and_references() {
    let files = vec![identifier("ns:1", "OBJ", "OBJ.0"), identifier("ns:9", "OBJ", "OBJ.0"), identifier("ns:1", "OBJ", "OBJ.1")];
    let managed = vec![identifier("ns:1", "OBJ", "OBJ.1"), identifier("ns:1", "OBJ", "OBJ.0"), identifier("ns:1", "OBJ", "OBJ.1")];
    let plan = migrate_managed_datastreams(&files, &managed);
    assert_eq!(plan.migrate, vec![(0, 1), (2, 2)]);
    assert_eq!(plan.orphans, vec![1]);
    assert_eq!(find_reference(&managed, &files[1]), None);
}

#[test]
fn file_names() {
    assert_eq!(version_file_name("ns:1", "OBJ", "OBJ.0", "scan.png", "image/png"), "scan.png");
    assert_eq!(version_file_name("ns:1", "OBJ", "OBJ.0", "scan.png", "image/jpeg"), "ns:1_OBJ_OBJ.0.jpg");
    assert_eq!(version_file_name("ns:1", "MODS", "MODS.3", "MODS", "text/xml"), "ns:1_MODS_MODS.3.xml");
    assert_eq!(version_file_name("ns:1", "X", "X.0", ".bin", "application/x-unknown"), ".bin");
    assert_eq!(version_file_name("ns:1", "X", "X.0", "bin", "application/x-unknown"), "ns:1_X_X.0.bin");
    assert_eq!(extension_for("image/tiff"), "tif");
    assert_eq!(extension_for("application/pdf"), "pdf");
    assert_eq!(extension_for("nothing/known"), "bin");
}
