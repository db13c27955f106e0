use fedora_export::events::{read_events, EventKind};

#[test]
fn events_are_read_to_the_end_of_the_document() {
    let mut xml = String::from("<a>");
    for _ in 0..1000 {
        xml.push_str("<b/>");
    }
    xml.push_str("</a>");
    let events = read_events(&xml).unwrap();
    let tags: Vec<&str> = events.iter().filter(|e| e.kind != EventKind::Text).map(|e| e.name.as_str()).collect();
    assert_eq!(tags.len(), 1002);
    assert_eq!(tags[0], "a");
    assert_eq!(tags[1], "b");
    assert_eq!(tags[1001], "a");
    assert_eq!(events.last().unwrap().kind, EventKind::End);
    assert!(events.iter().all(|e| e.kind != EventKind::Eof));
    assert_eq!(read_events(&xml).unwrap(), events);
}

#[test]
fn events_of_a_text_without_tags() {
    let events = read_events("one &amp; two").unwrap();
    assert_eq!(events.len(), 1);
    assert_eq!(events[0].kind, EventKind::Text);
    assert_eq!(events[0].bytes, b"one &amp; two".to_vec());
    assert_eq!(events[0].text, Some("one & two".to_string()));
    assert_eq!(read_events("").unwrap(), vec![]);
}

#[test]
fn first_error_of_the_reader_ends_the_reading() {
    assert!(read_events("<a></b><c></c>").is_err());
    assert!(read_events("<a></a>").is_ok());
}
