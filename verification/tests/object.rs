use fedora_export::foxml::{
    Foxml, FoxmlControlGroup, FoxmlDatastream, FoxmlDatastreamContent, FoxmlDatastreamState,
    FoxmlDatastreamVersion, FoxmlObjectProperties, FoxmlObjectState, FoxmlProperty,
};
use fedora_export::object::{create_datastream, DatastreamState, Object, ObjectError, ObjectState, Pid};
use fedora_export::object_map::{object_files, ObjectMap, Selection};
use fedora_export::rels_ext::RelsExt;

fn property(name: &str, value: &str) -> FoxmlProperty {
    FoxmlProperty { name: name.to_string(), value: value.to_string() }
}

fn properties(owner: &str) -> FoxmlObjectProperties {
    FoxmlObjectProperties {
        properties: vec![
            property("info:fedora/fedora-system:def/model#state", "Active"),
            property("info:fedora/fedora-system:def/model#label", "A label"),
            property("info:fedora/fedora-system:def/model#ownerId", owner),
            property("info:fedora/fedora-system:def/model#createdDate", "2015-03-02T18:26:40.947Z"),
            property("info:fedora/fedora-system:def/view#lastModifiedDate", "2015-03-02T18:26:42.000Z"),
        ],
    }
}

fn version(id: &str, label: &str, mime_type: &str) -> FoxmlDatastreamVersion {
    FoxmlDatastreamVersion {
        id: id.to_string(),
        label: label.to_string(),
        created: 1425320800,
        mime_type: mime_type.to_string(),
        size: None,
        format: None,
        content: vec![FoxmlDatastreamContent::XmlContent],
    }
}

fn datastream(id: &str, group: FoxmlControlGroup, versions: Vec<FoxmlDatastreamVersion>) -> FoxmlDatastream {
    FoxmlDatastream {
        id: id.to_string(),
        state: FoxmlDatastreamState::A,
        control_group: group,
        versionable: true,
        versions,
    }
}

fn foxml(pid: &str, datastreams: Vec<FoxmlDatastream>) -> Foxml {
    Foxml { pid: pid.to_string(), properties: properties("fedoraAdmin"), datastreams }
}

fn object(pid: &str, model: &str) -> Object {
    let mut object = Object::new(foxml(
        pid,
        vec![datastream("DC", FoxmlControlGroup::X, vec![version("DC1.0", "DC", "text/xml")])],
    ))
    .unwrap();
    object.model = model.to_string();
    object
}

#[test]
fn foxml_properties() {
    let p = properties("someone");
    assert_eq!(p.state(), FoxmlObjectState::Active);
    assert_eq!(p.label(), "A label");
    assert_eq!(p.owner_id(), "someone");
    assert_eq!(p.created_date(), Some(1425320800));
    assert_eq!(p.modified_date(), Some(1425320802));
    assert!(p.is_complete());
    assert_eq!(p.property("nothing"), None);
    assert_eq!(FoxmlObjectState::from_str("Deleted"), Some(FoxmlObjectState::Deleted));
    assert_eq!(FoxmlObjectState::from_str("Inactive"), Some(FoxmlObjectState::Inactive));
    assert_eq!(FoxmlObjectState::from_str("A"), None);
}

#[test]
fn foxml_first_property_of_a_name_counts() {
    let p = FoxmlObjectProperties {
        properties: vec![
            property("info:fedora/fedora-system:def/model#label", "first"),
            property("info:fedora/fedora-system:def/model#label", "second"),
        ],
    };
    assert_eq!(p.label(), "first");
    assert!(!p.is_complete());
    assert_eq!(p.find_state(), None);
    assert_eq!(p.created_date(), None);
}

#[test]
fn object_from_foxml() {
    let object = Object::new(foxml(
        "namespace:1",
        vec![
            datastream(
                "OBJ",
                FoxmlControlGroup::M,
                vec![version("OBJ.10", "ten", "image/png"), version("OBJ.9", "nine", "image/png"), version("OBJ.0", "zero", "image/png")],
            ),
            datastream("DC", FoxmlControlGroup::X, vec![version("DC1.0", "DC", "text/xml")]),
            datastream("EMPTY", FoxmlControlGroup::M, vec![]),
        ],
    ))
    .unwrap();
    assert_eq!(object.pid.0, "namespace:1");
    assert_eq!(object.state, ObjectState::Active);
    assert_eq!(object.owner, "admin");
    assert_eq!(object.label, "A label");
    assert_eq!(object.model, "");
    assert!(object.parents.is_empty());
    assert_eq!(object.weight, None);
    assert_eq!(object.created_date, 1425320800);
    assert_eq!(object.modified_date, 1425320802);
    let ids: Vec<&str> = object.datastreams.iter().map(|d| d.id.as_str()).collect();
    assert_eq!(ids, vec!["DC", "OBJ"]);
    assert_eq!(object.datastreams[1].state, DatastreamState::Active);
    let versions: Vec<&str> = object.datastreams[1].versions.iter().map(|v| v.id.as_str()).collect();
    assert_eq!(versions, vec!["OBJ.0", "OBJ.9", "OBJ.10"]);
    assert_eq!(object.datastreams[1].latest().id, "OBJ.10");
    assert_eq!(object.datastreams[1].versions[0].pid, "namespace:1");
    assert_eq!(object.datastreams[1].versions[0].dsid, "OBJ");
    assert_eq!(object.datastream("OBJ").unwrap().label, "ten");
    assert!(object.datastream("MODS").is_none());
    assert!(object.missing_content_model());
    assert!(!object.is_system_object());
    assert!(!object.is_content_model());
}

#[test]
fn object_owner_is_kept_unless_it_is_the_fedora_admin() {
    let mut document = foxml("ns:1", vec![]);
    document.properties = properties("someone");
    assert_eq!(Object::new(document).unwrap().owner, "someone");
}

#[test]
fn object_with_external_datastream_is_not_supported() {
    for group in [FoxmlControlGroup::E, FoxmlControlGroup::R] {
        let result = Object::new(foxml("ns:1", vec![datastream("OBJ", group, vec![version("OBJ.0", "l", "image/png")])]));
        assert_eq!(result.err(), Some(ObjectError::UnsupportedControlGroup));
    }
}

#[test]
fn object_with_incomplete_properties() {
    let mut document = foxml("ns:1", vec![]);
    document.properties.properties.remove(1);
    assert_eq!(Object::new(document).err(), Some(ObjectError::IncompleteProperties));
    let mut document = foxml("ns:1", vec![]);
    document.properties.properties[3].value = "yesterday".to_string();
    assert_eq!(Object::new(document).err(), Some(ObjectError::IncompleteProperties));
}

#[test]
fn object_takes_model_parents_and_weight_from_rels_ext() {
    let rels_ext = RelsExt {
        isMemberOfCollection: vec!["ns:456".to_string(), "ns:789".to_string()],
        isMemberOf: vec!["ns:111".to_string()],
        hasModel: vec!["islandora:pageCModel".to_string()],
        isPageNumber: Some(2),
        isSequenceNumber: Some(3),
        isSequenceNumberOf: vec![("ns:100".to_string(), 321)],
        ..RelsExt::default()
    };
    let mut object = Object::new(foxml("ns:1", vec![])).unwrap();
    object.set_rels_ext(&rels_ext);
    assert_eq!(object.parents, vec!["ns:111".to_string(), "ns:456".to_string(), "ns:789".to_string()]);
    assert_eq!(object.weight, Some(2));
    assert_eq!(object.model, "islandora:pageCModel");
    assert!(!object.missing_content_model());
}

#[test]
fn parents_are_sorted_alphanumerically_and_keep_duplicates() {
    let rels_ext = RelsExt {
        isPartOf: vec!["item:10".to_string(), "item:2".to_string()],
        isConstituentOf: vec!["item:2".to_string()],
        isAnnotationOf: vec!["item:1".to_string()],
        hasPart: vec!["item:0".to_string()],
        ..RelsExt::default()
    };
    assert_eq!(
        Object::parents(&rels_ext),
        vec!["item:1".to_string(), "item:2".to_string(), "item:2".to_string(), "item:10".to_string()]
    );
}

#[test]
fn version_paths() {
    let object = Object::new(foxml(
        "ns:2",
        vec![datastream(
            "OBJ",
            FoxmlControlGroup::M,
            vec![version("OBJ.0", "scan.png", "image/png"), version("OBJ.1", "A scan", "image/png")],
        )],
    ))
    .unwrap();
    let versions = &object.datastreams[0].versions;
    assert_eq!(versions[0].file_name(), "scan.png");
    assert_eq!(versions[1].file_name(), "ns:2_OBJ_OBJ.1.png");
    assert_eq!(versions[0].path("/staged/datastreams"), "/staged/datastreams/ns:2/OBJ/OBJ.0/scan.png");
    assert_eq!(versions[1].path("/staged/datastreams"), "/staged/datastreams/ns:2/OBJ/OBJ.1/ns:2_OBJ_OBJ.1.png");
}

#[test]
fn pid_from_path() {
    assert_eq!(Pid::from_path("/staged/objects/namespace:123.xml").unwrap().0, "namespace:123");
    assert_eq!(Pid::from_path("namespace:123").unwrap().0, "namespace:123");
    assert!(Pid::from_path("/").is_none());
}

#[test]
fn object_map_is_sorted_by_pid() {
    let map = ObjectMap::from_objects(vec![
        object("item:10", "islandora:sp_pdf"),
        object("item:2", "islandora:sp_pdf"),
        object("item:1", "islandora:sp_pdf"),
        object("fedora-system:FedoraObject-3.0", "islandora:sp_pdf"),
        object("item:3", "fedora-system:ContentModel-3.0"),
        object("item:4", ""),
    ]);
    let pids: Vec<&str> = map.objects().iter().map(|o| o.pid.0.as_str()).collect();
    assert_eq!(pids, vec!["item:1", "item:2", "item:10"]);
    assert_eq!(map.inner().len(), 3);
}

#[test]
fn object_map_holds_one_object_for_each_pid() {
    let mut second = object("item:2", "islandora:sp_pdf");
    second.label = "second".to_string();
    let map = ObjectMap::from_objects(vec![object("item:2", "islandora:sp_pdf"), object("item:1", "islandora:sp_pdf"), second]);
    let labels: Vec<&str> = map.objects().iter().map(|o| o.label.as_str()).collect();
    assert_eq!(labels, vec!["A label", "second"]);
    assert_eq!(map.get("item:2").unwrap().label, "second");
    assert!(map.get("item:3").is_none());
}

#[test]
fn object_map_walks_versions() {
    let mut first = Object::new(foxml(
        "ns:2",
        vec![
            datastream("OBJ", FoxmlControlGroup::M, vec![version("OBJ.1", "l", "image/png"), version("OBJ.0", "l", "image/png")]),
            datastream("DC", FoxmlControlGroup::X, vec![version("DC.0", "l", "text/xml")]),
        ],
    ))
    .unwrap();
    first.model = "islandora:sp_pdf".to_string();
    let mut second = Object::new(foxml(
        "ns:1",
        vec![datastream(
            "MODS",
            FoxmlControlGroup::X,
            vec![version("MODS.2", "l", "text/xml"), version("MODS.0", "l", "text/xml"), version("MODS.1", "l", "text/xml")],
        )],
    ))
    .unwrap();
    second.model = "islandora:sp_pdf".to_string();
    let map = ObjectMap::from_objects(vec![first, second]);
    assert_eq!(map.versions(), vec![(0, 0, 0), (0, 0, 1), (0, 0, 2), (1, 0, 0), (1, 1, 0), (1, 1, 1)]);
    assert_eq!(map.latest_versions(), vec![(0, 0, 2), (1, 0, 0), (1, 1, 1)]);
    assert_eq!(map.previous_versions(), vec![(0, 0, 0), (0, 0, 1), (1, 1, 0)]);
    assert_eq!(map.places(Selection::All), map.versions());
    let latest = map.latest_versions()[2];
    assert_eq!(map.objects()[latest.0].datastreams[latest.1].versions[latest.2].id, "OBJ.1");
    let previous = map.previous_versions()[2];
    assert_eq!(map.objects()[previous.0].datastreams[previous.1].versions[previous.2].id, "OBJ.0");
}

#[test]
fn datastream_from_foxml() {
    let mut descriptor = datastream("OBJ", FoxmlControlGroup::M, vec![version("OBJ.2", "b", "image/png"), version("OBJ.1", "a", "image/png")]);
    descriptor.state = FoxmlDatastreamState::D;
    let made = create_datastream("ns:7", descriptor);
    assert_eq!(made.id, "OBJ");
    assert_eq!(made.state, DatastreamState::Deleted);
    let labels: Vec<&str> = made.versions.iter().map(|v| v.label.as_str()).collect();
    assert_eq!(labels, vec!["a", "b"]);
    assert_eq!(made.versions[0].pid, "ns:7");
    assert_eq!(made.versions[0].created_date, 1425320800);
    assert_eq!(ObjectState::from(FoxmlObjectState::Inactive), ObjectState::Inactive);
    assert_eq!(ObjectState::Deleted.as_str(), "Deleted");
    assert_eq!(DatastreamState::from(FoxmlDatastreamState::I), DatastreamState::Inactive);
}

#[test]
fn object_files_are_limited_to_pids() {
    let paths = vec!["/o/ns:1.xml".to_string(), "/o/ns:2.xml".to_string(), "/o/ns:10.xml".to_string()];
    assert_eq!(object_files(&paths, &vec![]), vec![0, 1, 2]);
    assert_eq!(object_files(&paths, &vec!["ns:10".to_string(), "ns:1".to_string()]), vec![0, 2]);
    assert_eq!(object_files(&paths, &vec!["ns:3".to_string()]), Vec::<usize>::new());
}

#[test]
fn rels_ext_document_gives_parents_weight_and_model() {
    let rels_ext = RelsExt::from_string(
        r#"<rdf:RDF xmlns:rdf="http://www.w3.org/1999/02/22-rdf-syntax-ns#" xmlns:fedora="info:fedora/fedora-system:def/relations-external#" xmlns:fedora-model="info:fedora/fedora-system:def/model#" xmlns:islandora="http://islandora.ca/ontology/relsext#">
  <rdf:Description rdf:about="info:fedora/ns:1">
    <fedora:isMemberOfCollection rdf:resource="info:fedora/ns:456"/>
    <fedora:isMemberOfCollection rdf:resource="info:fedora/ns:789"/>
    <fedora:isMemberOf rdf:resource="info:fedora/ns:111"/>
    <fedora-model:hasModel rdf:resource="info:fedora/islandora:pageCModel"/>
    <islandora:isPageNumber>2</islandora:isPageNumber>
    <islandora:isSequenceNumber>3</islandora:isSequenceNumber>
    <islandora:isSequenceNumberOfns_100>321</islandora:isSequenceNumberOfns_100>
  </rdf:Description>
</rdf:RDF>"#,
    )
    .unwrap();
    let mut object = Object::new(foxml("ns:1", vec![])).unwrap();
    object.set_rels_ext(&rels_ext);
    assert_eq!(object.parents, vec!["ns:111".to_string(), "ns:456".to_string(), "ns:789".to_string()]);
    assert_eq!(object.weight, Some(2));
    assert_eq!(object.model, "islandora:pageCModel");
    assert_eq!(rels_ext.isSequenceNumberOf, vec![("ns:100".to_string(), 321)]);
}
