use fedora_export::events::read_events;
use fedora_export::identifiers::DatastreamIdentifier;
use fedora_export::inline::{
    extract_from_events, extract_inline_datastream_version, extract_inline_datastreams,
    find_inline_versions, InlineError, InlineFault,
};

const FOXML: &str = r#"<?xml version="1.0" encoding="UTF-8"?>
<foxml:digitalObject VERSION="1.1" PID="ns:1" xmlns:foxml="info:fedora/fedora-system:def/foxml#">
  <foxml:objectProperties>
    <foxml:property NAME="info:fedora/fedora-system:def/model#state" VALUE="Active"/>
  </foxml:objectProperties>
  <foxml:datastream ID="RELS-EXT" STATE="A" CONTROL_GROUP="X" VERSIONABLE="true">
    <foxml:datastreamVersion ID="RELS-EXT.0" LABEL="RELS" CREATED="2015-03-02T18:26:40.947Z" MIMETYPE="application/rdf+xml">
      <foxml:xmlContent>
        <rdf:RDF xmlns:rdf="http://www.w3.org/1999/02/22-rdf-syntax-ns#">
          <rdf:Description rdf:about="info:fedora/ns:1">
            <hasModel rdf:resource="info:fedora/islandora:sp_pdf"></hasModel>
          </rdf:Description>
        </rdf:RDF>
      </foxml:xmlContent>
    </foxml:datastreamVersion>
    <foxml:datastreamVersion ID="RELS-EXT.1" LABEL="RELS" CREATED="2015-03-02T18:26:42.000Z" MIMETYPE="application/rdf+xml">
      <foxml:xmlContent>
        <rdf:RDF xmlns:rdf="x"><!-- kept --><note>second &amp; last</note><empty/></rdf:RDF>
      </foxml:xmlContent>
    </foxml:datastreamVersion>
  </foxml:datastream>
  <foxml:datastream ID="OBJ" STATE="A" CONTROL_GROUP="M" VERSIONABLE="true">
    <foxml:datastreamVersion ID="OBJ.0" LABEL="scan" CREATED="2015-03-02T18:26:40.947Z" MIMETYPE="image/png">
      <foxml:contentLocation TYPE="INTERNAL_ID" REF="ns:1+OBJ+OBJ.0"/>
    </foxml:datastreamVersion>
  </foxml:datastream>
</foxml:digitalObject>
"#;

fn identifier(version: &str) -> DatastreamIdentifier {
    DatastreamIdentifier { pid: "ns:1".to_string(), dsid: "RELS-EXT".to_string(), version: version.to_string() }
}

#[test]
fn inline_datastream_with_two_versions() {
    let documents = extract_inline_datastreams(FOXML).unwrap();
    assert_eq!(documents.len(), 2);
    assert_eq!(documents[0].0, identifier("RELS-EXT.0"));
    assert_eq!(documents[1].0, identifier("RELS-EXT.1"));
    assert_eq!(
        documents[0].1,
        "<?xml version=\"1.0\" encoding=\"UTF-8\"?>\n<rdf:RDF xmlns:rdf=\"http://www.w3.org/1999/02/22-rdf-syntax-ns#\">\n  <rdf:Description rdf:about=\"info:fedora/ns:1\">\n    <hasModel rdf:resource=\"info:fedora/islandora:sp_pdf\">\n    </hasModel>\n  </rdf:Description>\n</rdf:RDF>"
    );
    assert_eq!(
        documents[1].1,
        "<?xml version=\"1.0\" encoding=\"UTF-8\"?>\n<rdf:RDF xmlns:rdf=\"x\">\n  <!-- kept -->\n  <note>second &amp; last</note>\n  <empty/>\n</rdf:RDF>"
    );
    assert_ne!(documents[0].1, documents[1].1);
    assert_eq!(
        documents[0].0.as_path("/staged/datastreams"),
        "/staged/datastreams/ns:1/RELS-EXT/RELS-EXT.0"
    );
    assert_eq!(
        documents[1].0.as_path("/staged/datastreams"),
        "/staged/datastreams/ns:1/RELS-EXT/RELS-EXT.1"
    );
}

#[test]
fn inline_versions_are_found_by_place() {
    let events = read_events(FOXML).unwrap();
    let versions = find_inline_versions(&events).unwrap();
    assert_eq!(versions.len(), 2);
    assert_eq!(versions[0].identifier, identifier("RELS-EXT.0"));
    assert_eq!(versions[0].selected.len(), 6);
    assert_eq!(versions[1].selected.len(), 7);
    let document = extract_inline_datastream_version(&events, &versions[1].selected);
    assert_eq!(extract_from_events(&events).unwrap()[1].1, document);
}

#[test]
fn inline_document_of_nothing_is_a_declaration() {
    let events = read_events("<a/>").unwrap();
    assert_eq!(
        extract_inline_datastream_version(&events, &vec![]),
        "<?xml version=\"1.0\" encoding=\"UTF-8\"?>"
    );
}

#[test]
fn foxml_without_inline_datastreams() {
    let documents = extract_inline_datastreams(
        r#"<foxml:digitalObject PID="ns:1"><foxml:datastream ID="OBJ" CONTROL_GROUP="M"><foxml:datastreamVersion ID="OBJ.0"/></foxml:datastream></foxml:digitalObject>"#,
    )
    .unwrap();
    assert!(documents.is_empty());
}

#[test]
fn foxml_without_object() {
    let result = extract_inline_datastreams("<other></other>");
    assert!(matches!(result, Err(InlineError::Invalid(InlineFault::MissingObject))));
}

#[test]
fn foxml_without_pid() {
    let result = extract_inline_datastreams("<foxml:digitalObject></foxml:digitalObject>");
    assert!(matches!(result, Err(InlineError::Invalid(InlineFault::MissingAttribute))));
    let result = extract_inline_datastreams(
        r#"<foxml:digitalObject PID="ns:1"><foxml:datastream CONTROL_GROUP="X"></foxml:datastream></foxml:digitalObject>"#,
    );
    assert!(matches!(result, Err(InlineError::Invalid(InlineFault::MissingAttribute))));
}

#[test]
fn foxml_with_malformed_text() {
    let result = extract_inline_datastreams(
        r#"<foxml:digitalObject PID="ns:1"><foxml:datastream ID="DC" CONTROL_GROUP="X"><foxml:datastreamVersion ID="DC.0"><foxml:xmlContent><a>&nope;</a></foxml:xmlContent></foxml:datastreamVersion></foxml:datastream></foxml:digitalObject>"#,
    );
    assert!(matches!(result, Err(InlineError::Invalid(InlineFault::MalformedText))));
}

#[test]
fn foxml_that_ends_within_a_content() {
    let events = read_events(
        r#"<foxml:digitalObject PID="ns:1"><foxml:datastream ID="DC" CONTROL_GROUP="X"><foxml:datastreamVersion ID="DC.0"><foxml:xmlContent><a>"#,
    )
    .unwrap();
    assert_eq!(find_inline_versions(&events).err(), Some(InlineFault::UnclosedContent));
}

#[test]
fn foxml_reader_error() {
    let result = extract_inline_datastreams("<foxml:digitalObject PID=\"ns:1\"></wrong>");
    assert!(matches!(result, Err(InlineError::QuickXMLError(_))));
}
