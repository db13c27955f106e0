use fedora_export::events::read_events;
use fedora_export::xml_map::{name, parse, XmlMapError, XmlMapFault, XmlTree, XmlValue};

fn text(value: &str) -> XmlValue {
    XmlValue::Text(value.to_string())
}

#[test]
fn xml_valid_content() {
    let content = r#"
<oai_dc:dc xmlns:oai_dc="http://www.openarchives.org/OAI/2.0/oai_dc/" xmlns:dc="http://purl.org/dc/elements/1.1/" xmlns:xsi="http://www.w3.org/2001/XMLSchema-instance" xsi:schemaLocation="http://www.openarchives.org/OAI/2.0/oai_dc/ http://www.openarchives.org/OAI/2.0/oai_dc.xsd">
    <dc:title>Denver Catholic Register November 18, 1954</dc:title>
    <dc:subject>Carmel of the Holy Spirit</dc:subject>
    <dc:subject>Catholic News</dc:subject>
    <dc:subject></dc:subject>
</oai_dc:dc>
"#;
    let result = parse("text/xml", content).unwrap();
    assert!(result.is_ok());
    let tree = result.unwrap();
    assert_eq!(tree.get(0, "@xmlns:dc"), text("http://purl.org/dc/elements/1.1/"));
    assert_eq!(tree.get(0, "@xmlns:oai_dc"), text("http://www.openarchives.org/OAI/2.0/oai_dc/"));
    assert_eq!(tree.get(0, "@xmlns:xsi"), text("http://www.w3.org/2001/XMLSchema-instance"));
    assert_eq!(
        tree.get(0, "@xsi:schemaLocation"),
        text("http://www.openarchives.org/OAI/2.0/oai_dc/ http://www.openarchives.org/OAI/2.0/oai_dc.xsd")
    );
    assert_eq!(tree.get(0, "#namespace"), text("oai_dc"));
    assert_eq!(tree.get(0, "#text"), text(""));
    let titles = tree.children_named(0, "title");
    assert_eq!(titles.len(), 1);
    assert_eq!(tree.get(titles[0], "#namespace"), text("dc"));
    assert_eq!(tree.get(titles[0], "#text"), text("Denver Catholic Register November 18, 1954"));
    let subjects = match tree.get(0, "subject") {
        XmlValue::Elements(places) => places,
        XmlValue::Text(_) => panic!("subjects are elements"),
    };
    assert_eq!(subjects.len(), 3);
    assert_eq!(tree.get(subjects[0], "#namespace"), text("dc"));
    assert_eq!(tree.get(subjects[0], "#text"), text("Carmel of the Holy Spirit"));
    assert_eq!(tree.get(subjects[1], "#namespace"), text("dc"));
    assert_eq!(tree.get(subjects[1], "#text"), text("Catholic News"));
    assert_eq!(tree.get(subjects[2], "#namespace"), text("dc"));
    assert_eq!(tree.get(subjects[2], "#text"), text(""));
    assert_eq!(tree.nodes.len(), 5);
}

#[test]
fn xml_missing_key_is_an_empty_list() {
    let tree = parse("application/xml", "<a b=\"1\"><c/></a>").unwrap().unwrap();
    assert_eq!(tree.get(0, "nothing"), XmlValue::Elements(vec![]));
    assert_eq!(tree.get(0, "@nothing"), XmlValue::Elements(vec![]));
    assert_eq!(tree.get(0, "@b"), text("1"));
    assert_eq!(tree.get(0, "c"), XmlValue::Elements(vec![1]));
}

#[test]
fn xml_empty_elements_are_children() {
    let tree = parse("application/rdf+xml", "<r><x:e k=\"v\"/><e/></r>").unwrap().unwrap();
    assert_eq!(tree.nodes.len(), 3);
    assert_eq!(tree.nodes[0].children, vec![1, 2]);
    assert_eq!(tree.nodes[1].namespace, "x");
    assert_eq!(tree.nodes[1].local_name, "e");
    assert_eq!(tree.nodes[1].text, "");
    assert_eq!(tree.nodes[2].namespace, "");
    assert_eq!(tree.children_named(0, "e"), vec![1, 2]);
}

#[test]
fn xml_nested_children_stand_behind_their_parent() {
    let tree = parse("text/xml", "<a><b><c>deep</c></b><d>flat</d></a>").unwrap().unwrap();
    assert_eq!(tree.nodes.len(), 4);
    assert_eq!(tree.nodes[0].children, vec![1, 3]);
    assert_eq!(tree.nodes[1].children, vec![2]);
    assert_eq!(tree.nodes[2].text, "deep");
    assert_eq!(tree.nodes[3].text, "flat");
}

#[test]
fn xml_other_mime_types_are_not_read() {
    assert!(parse("image/png", "<a></a>").is_none());
    assert!(parse("text/plain", "<a></a>").is_none());
    assert!(parse("application/xml", "<a></a>").is_some());
}

#[test]
fn xml_without_root_is_unexpected_eof() {
    let result = parse("text/xml", "<?xml version=\"1.0\"?><!-- nothing -->").unwrap();
    assert!(matches!(result, Err(XmlMapError::Invalid(XmlMapFault::UnexpectedEof))));
    let result = parse("text/xml", "<a/>").unwrap();
    assert!(matches!(result, Err(XmlMapError::Invalid(XmlMapFault::UnexpectedEof))));
    let result = parse("text/xml", "<a><b>").unwrap();
    assert!(matches!(result, Err(XmlMapError::Invalid(XmlMapFault::UnexpectedEof))));
}

#[test]
fn xml_malformed_text() {
    let result = parse("text/xml", "<a>&nope;</a>").unwrap();
    assert!(matches!(result, Err(XmlMapError::Invalid(XmlMapFault::MalformedText))));
}

#[test]
fn xml_reader_error() {
    let result = parse("text/xml", "<a></b>").unwrap();
    assert!(matches!(result, Err(XmlMapError::QuickXMLError(_))));
}

#[test]
fn xml_names() {
    assert_eq!(name("dc:title"), ("dc".to_string(), "title".to_string()));
    assert_eq!(name("title"), ("".to_string(), "title".to_string()));
    assert_eq!(name("a:b:c"), ("".to_string(), "a".to_string()));
    assert_eq!(name(":b"), ("".to_string(), "b".to_string()));
}

#[test]
fn xml_text_is_unescaped_and_the_last_one_stays() {
    let events = read_events("<a>one &amp; two<b/>three</a>").unwrap();
    let tree = XmlTree::from_events(&events).unwrap();
    assert_eq!(tree.nodes[0].text, "three");
    let events = read_events("<a>one &amp; two</a>").unwrap();
    let tree = XmlTree::from_events(&events).unwrap();
    assert_eq!(tree.nodes[0].text, "one & two");
}

#[test]
fn xml_child_names() {
    let tree = parse("text/xml", "<a><b/><c/><x:b/><d/><c/></a>").unwrap().unwrap();
    assert_eq!(tree.child_names(0), vec!["b".to_string(), "c".to_string(), "d".to_string()]);
    assert_eq!(tree.child_names(1), Vec::<String>::new());
    assert_eq!(tree.children_named(0, "b"), vec![1, 3]);
    assert_eq!(tree.children_named(0, "c"), vec![2, 5]);
}

#[test]
fn xml_last_attribute_of_a_key_counts() {
    let events = read_events("<a k=\"1\"></a>").unwrap();
    let mut tree = XmlTree::from_events(&events).unwrap();
    let mut second = tree.nodes[0].attributes[0].clone();
    second.value = "2".to_string();
    tree.nodes[0].attributes.push(second);
    assert_eq!(tree.get(0, "@k"), text("2"));
}

#[test]
fn xml_find_descends_by_names() {
    let tree = parse(
        "text/xml",
        "<mods><name><part>a</part><part>b</part></name><title/><name><part>c</part><x:part>d</x:part><role/></name></mods>",
    )
    .unwrap()
    .unwrap();
    let path = |names: &[&str]| -> Vec<String> { names.iter().map(|n| n.to_string()).collect() };
    let parts = tree.find(0, &path(&["name", "part"]));
    let texts: Vec<&str> = parts.iter().map(|&at| tree.nodes[at].text.as_str()).collect();
    assert_eq!(texts, vec!["a", "b", "c", "d"]);
    assert_eq!(tree.find(0, &path(&[])), vec![0]);
    assert_eq!(tree.find(0, &path(&["name"])), tree.children_named(0, "name"));
    assert_eq!(tree.find(0, &path(&["name", "role", "part"])), Vec::<usize>::new());
    assert_eq!(tree.find(0, &path(&["nothing", "part"])), Vec::<usize>::new());
    assert_eq!(tree.descend(&vec![0, 0], "title"), vec![4, 4]);
}

#[test]
fn xml_elements_and_keys() {
    let tree = parse("text/xml", "<a k=\"1\" x:l=\"2\"><b/><c/><b/></a>").unwrap().unwrap();
    assert_eq!(tree.elements(0), vec![1, 2, 3]);
    assert_eq!(tree.elements(1), Vec::<usize>::new());
    assert_eq!(tree.keys(0), vec!["@k", "@x:l", "#namespace", "#text", "b", "c"]);
    assert_eq!(tree.keys(2), vec!["#namespace", "#text"]);
}

#[test]
fn xml_malformed_attributes_are_left_out() {
    let events = read_events("<a k=\"1\" broken l=\"2\"></a>").unwrap();
    let keys: Vec<&str> = events[1].attributes.iter().map(|a| a.key.as_str()).collect();
    assert_eq!(keys, vec!["k"]);
    let events = read_events("<a k=\"1\" l=\"2\"></a>").unwrap();
    let keys: Vec<&str> = events[1].attributes.iter().map(|a| a.key.as_str()).collect();
    assert_eq!(keys, vec!["k", "l"]);
}
