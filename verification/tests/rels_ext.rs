use fedora_export::events::{read_events, EventKind};
use fedora_export::rels_ext::{
    get_attribute_without_prefix, get_resource_attribute, get_text, Relation, RelsExt, RelsExtError,
    RelsExtFault,
};
use fedora_export::text::parse_lenient_integer;

const CONTENT: &str = r#"
<rdf:RDF xmlns:rdf="http://www.w3.org/1999/02/22-rdf-syntax-ns#" 
xmlns:fedora="info:fedora/fedora-system:def/relations-external#" 
xmlns:fedora-model="info:fedora/fedora-system:def/model#" 
xmlns:islandora="http://islandora.ca/ontology/relsext#">
    <rdf:Description rdf:about="info:fedora/namespace:123">
        <fedora-model:hasModel rdf:resource="info:fedora/islandora:pageCModel"></fedora-model:hasModel>
        <fedora:isMemberOfCollection rdf:resource="info:fedora/namespace:456"></fedora:isMemberOfCollection>
        <fedora:isMemberOfCollection rdf:resource="info:fedora/namespace:789"></fedora:isMemberOfCollection>
        <fedora:isMemberOf rdf:resource="info:fedora/namespace:111"></fedora:isMemberOf>
        <islandora:deferDerivatives>true</islandora:deferDerivatives>
        <islandora:isSequenceNumberOfnamespace_100>321</islandora:isSequenceNumberOfnamespace_100>
        <islandora:isSequenceNumberOfnamespace_101>654</islandora:isSequenceNumberOfnamespace_101>
        <islandora:isPageOf rdf:resource="info:fedora/namespace:101"></islandora:isPageOf>
        <islandora:isSequenceNumber>001a</islandora:isSequenceNumber>
        <islandora:isPageNumber>2</islandora:isPageNumber>
        <islandora:isSection>1</islandora:isSection>
        <islandora:generate_ocr>TRUE</islandora:generate_ocr>
        <islandora:generate_hocr>TRUE</islandora:generate_hocr>
    </rdf:Description>
</rdf:RDF>
"#;

#[test]
fn valid_rels_ext() {
    let expected = RelsExt {
        about: "namespace:123".to_string(),
        isMemberOfCollection: vec!["namespace:456".to_string(), "namespace:789".to_string()],
        deferDerivatives: Some(true),
        isMemberOf: vec!["namespace:111".to_string()],
        hasModel: vec!["islandora:pageCModel".to_string()],
        isSequenceNumberOf: vec![
            ("namespace:100".to_string(), 321),
            ("namespace:101".to_string(), 654),
        ],
        isPageOf: Some("namespace:101".to_string()),
        isPageNumber: Some(2),
        isSection: Some(1),
        isSequenceNumber: Some(1),
        generateOCR: Some(true),
        generateHOCR: Some(true),
        ..RelsExt::default()
    };
    let result = RelsExt::from_string(CONTENT);
    assert!(result.is_ok());
    assert_eq!(result.unwrap(), expected);
}

#[test]
fn rels_ext_from_events_agrees_with_from_string() {
    let events = read_events(CONTENT).unwrap();
    let from_events = RelsExt::from_events(&events).unwrap();
    assert_eq!(from_events, RelsExt::from_string(CONTENT).unwrap());
}

#[test]
fn rels_ext_model_and_weight() {
    let rels_ext = RelsExt::from_string(CONTENT).unwrap();
    assert_eq!(rels_ext.model(), "islandora:pageCModel");
    assert_eq!(rels_ext.weight(), Some(2));
}

#[test]
fn rels_ext_weight_precedence() {
    let mut rels_ext = RelsExt::default();
    assert_eq!(rels_ext.weight(), None);
    rels_ext.isSequenceNumberOf = vec![("ns:100".to_string(), 321), ("ns:101".to_string(), 7)];
    assert_eq!(rels_ext.weight(), Some(321));
    rels_ext.isSequenceNumber = Some(3);
    assert_eq!(rels_ext.weight(), Some(3));
    rels_ext.isPageNumber = Some(2);
    assert_eq!(rels_ext.weight(), Some(2));
}

#[test]
fn rels_ext_without_model_has_empty_model() {
    let rels_ext = RelsExt::from_string(
        r#"<rdf:RDF><rdf:Description rdf:about="info:fedora/ns:1"></rdf:Description></rdf:RDF>"#,
    )
    .unwrap();
    assert_eq!(rels_ext.about, "ns:1");
    assert_eq!(rels_ext.model(), "");
}

#[test]
fn rels_ext_empty_elements_are_read() {
    let rels_ext = RelsExt::from_string(
        r#"<rdf:RDF><rdf:Description rdf:about="info:fedora/ns:1"><fedora:isPartOf rdf:resource="info:fedora/ns:2"/><fedora:hasPart rdf:resource="info:fedora/ns:3"/></rdf:Description></rdf:RDF>"#,
    )
    .unwrap();
    assert_eq!(rels_ext.isPartOf, vec!["ns:2".to_string()]);
    assert_eq!(rels_ext.hasPart, vec!["ns:3".to_string()]);
}

#[test]
fn rels_ext_missing_attribute() {
    let result = RelsExt::from_string(r#"<rdf:RDF><fedora:isPartOf/></rdf:RDF>"#);
    assert!(matches!(result, Err(RelsExtError::Invalid(RelsExtFault::MissingAttribute))));
}

#[test]
fn rels_ext_short_attribute() {
    let result = RelsExt::from_string(r#"<rdf:RDF><fedora:isPartOf rdf:resource="ns:2"/></rdf:RDF>"#);
    assert!(matches!(result, Err(RelsExtError::Invalid(RelsExtFault::MissingAttribute))));
}

#[test]
fn rels_ext_invalid_boolean() {
    let result = RelsExt::from_string(
        r#"<rdf:RDF><islandora:deferDerivatives>maybe</islandora:deferDerivatives></rdf:RDF>"#,
    );
    assert!(matches!(result, Err(RelsExtError::Invalid(RelsExtFault::InvalidBoolean))));
}

#[test]
fn rels_ext_missing_text() {
    let result = RelsExt::from_string(r#"<rdf:RDF><islandora:isPageNumber></islandora:isPageNumber></rdf:RDF>"#);
    assert!(matches!(result, Err(RelsExtError::Invalid(RelsExtFault::MissingText))));
}

#[test]
fn rels_ext_malformed_text() {
    let result = RelsExt::from_string(
        r#"<rdf:RDF><islandora:isPageNumber>1 &nope; 2</islandora:isPageNumber></rdf:RDF>"#,
    );
    assert!(matches!(result, Err(RelsExtError::Invalid(RelsExtFault::MalformedText))));
}

#[test]
fn rels_ext_reader_error() {
    let result = RelsExt::from_string(r#"<rdf:RDF><a></b></rdf:RDF>"#);
    assert!(matches!(result, Err(RelsExtError::QuickXMLError(_))));
}

#[test]
fn rels_ext_text_is_looked_for_behind_the_element() {
    // The page number is empty, so the next text that is not blank is taken.
    let rels_ext = RelsExt::from_string(
        r#"<rdf:RDF><islandora:isPageNumber></islandora:isPageNumber><islandora:isSection>7</islandora:isSection></rdf:RDF>"#,
    )
    .unwrap();
    assert_eq!(rels_ext.isPageNumber, Some(7));
    assert_eq!(rels_ext.isSection, None);
}

#[test]
fn lenient_integers() {
    assert_eq!(parse_lenient_integer("001a"), Some(1));
    assert_eq!(parse_lenient_integer("2"), Some(2));
    assert_eq!(parse_lenient_integer("-12"), Some(12));
    assert_eq!(parse_lenient_integer("p. 4, 5"), Some(45));
    assert_eq!(parse_lenient_integer(""), None);
    assert_eq!(parse_lenient_integer("abc"), None);
    assert_eq!(parse_lenient_integer("99999999999999999999999999"), None);
    assert_eq!(parse_lenient_integer("9223372036854775807"), Some(9223372036854775807));
}

#[test]
fn sequence_number_of_without_number_is_zero() {
    let rels_ext = RelsExt::from_string(
        r#"<rdf:RDF><islandora:isSequenceNumberOfns_1_2>none</islandora:isSequenceNumberOfns_1_2></rdf:RDF>"#,
    )
    .unwrap();
    assert_eq!(rels_ext.isSequenceNumberOf, vec![("ns:1_2".to_string(), 0)]);
}

#[test]
fn elements_are_processed_one_by_one() {
    let events = read_events(
        r#"<r><fedora:isPartOf rdf:resource="info:fedora/ns:2"/><islandora:isSection> <b/>4</islandora:isSection><x/></r>"#,
    )
    .unwrap();
    let kinds: Vec<EventKind> = events.iter().map(|e| e.kind).collect();
    assert_eq!(
        kinds,
        vec![
            EventKind::Text,
            EventKind::Start,
            EventKind::Text,
            EventKind::Empty,
            EventKind::Text,
            EventKind::Start,
            EventKind::Text,
            EventKind::Empty,
            EventKind::Text,
            EventKind::End,
            EventKind::Text,
            EventKind::Empty,
            EventKind::Text,
            EventKind::End,
        ]
    );
    let mut rels_ext = RelsExt::new();
    assert_eq!(RelsExt::process_element(&mut rels_ext, &events, 1), Ok(2));
    assert_eq!(RelsExt::process_element(&mut rels_ext, &events, 3), Ok(4));
    assert_eq!(rels_ext.isPartOf, vec!["ns:2".to_string()]);
    // The text is looked for behind the element, past what lies between.
    assert_eq!(RelsExt::process_element(&mut rels_ext, &events, 5), Ok(9));
    assert_eq!(rels_ext.isSection, Some(4));
    assert_eq!(get_text(&events, 6), Ok(("4".to_string(), 9)));
    assert_eq!(get_text(&events, 9), Err(RelsExtFault::MissingText));
    assert_eq!(get_resource_attribute(&events[3]), Ok("ns:2".to_string()));
    assert_eq!(get_attribute_without_prefix(&events[3], "rdf:about"), Err(RelsExtFault::MissingAttribute));
    assert_eq!(events[3].get_attribute("rdf:resource"), Some(&"info:fedora/ns:2".to_string()));
    assert_eq!(events[3].name, "fedora:isPartOf");
    assert_eq!(events[8].text, Some("4".to_string()));
    assert_eq!(events[9].name, "islandora:isSection");
}

#[test]
fn relations_are_named_by_their_elements() {
    assert_eq!(Relation::named("fedora-model:hasModel"), Some(Relation::HasModel));
    assert_eq!(Relation::named("fedora:isMemberOfCollection"), Some(Relation::IsMemberOfCollection));
    assert_eq!(Relation::named("fedora:hasModel"), None);
    assert_eq!(Relation::named("isPartOf"), None);
    let mut rels_ext = RelsExt::new();
    rels_ext.push_relation(Relation::HasEquivalent, "ns:1".to_string());
    rels_ext.push_relation(Relation::HasEquivalent, "ns:2".to_string());
    assert_eq!(rels_ext.hasEquivalent, vec!["ns:1".to_string(), "ns:2".to_string()]);
    assert_eq!(RelsExt::new(), RelsExt::default());
}

#[test]
fn prefix_is_left_off_by_bytes() {
    let events = read_events(
        "<r><fedora:isPartOf rdf:resource=\"info:fedora/n\u{e9}:1\"/><fedora:hasPart rdf:resource=\"\u{e9}\u{e9}\u{e9}\u{e9}\u{e9}\u{e9}ns:2\"/><fedora:hasPart rdf:resource=\"0123456789a\u{e9}ns:3\"/></r>",
    )
    .unwrap();
    assert_eq!(get_resource_attribute(&events[3]), Ok("n\u{e9}:1".to_string()));
    // Six characters of two bytes each are the twelve bytes that are left off.
    assert_eq!(get_resource_attribute(&events[5]), Ok("ns:2".to_string()));
    // The twelfth byte lies within a character.
    assert_eq!(get_resource_attribute(&events[7]), Err(RelsExtFault::MissingAttribute));
}
