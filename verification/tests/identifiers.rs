use fedora_export::identifiers::{DatastreamIdentifier, ObjectIdentifier};
use fedora_export::order::Rank;

#[test]
fn object_identifier_from_path() {
    let identifier = ObjectIdentifier::from_path("/fedora/data/objectStore/2c/info%3Afedora%2Farchden%3A13");
    assert_eq!(identifier, Some(ObjectIdentifier { pid: "archden:13".to_string() }));
}

#[test]
fn object_identifier_decodes_underscores() {
    let identifier = ObjectIdentifier::from_path("info%3Afedora%2Fmy%5Fns%3Aa%5Fb%5Fc");
    assert_eq!(identifier, Some(ObjectIdentifier { pid: "my_ns:a_b_c".to_string() }));
    let identifier = ObjectIdentifier::from_path("info%3Afedora%2Fmy_ns%3Aa_b");
    assert_eq!(identifier, Some(ObjectIdentifier { pid: "my_ns:a_b".to_string() }));
}

#[test]
fn object_identifier_takes_the_last_colon() {
    let identifier = ObjectIdentifier::from_path("info%3Afedora%2Fa%3Ab%3Ac");
    assert_eq!(identifier, Some(ObjectIdentifier { pid: "a%3Ab:c".to_string() }));
}

#[test]
fn object_identifier_of_a_datastream_file() {
    // The pattern of objects is not anchored: a datastream file matches it too.
    let identifier = ObjectIdentifier::from_path("info%3Afedora%2Farchden%3A13%2FTECHMD%2FTECHMD.0");
    assert_eq!(identifier, Some(ObjectIdentifier { pid: "archden:13%2FTECHMD%2FTECHMD.0".to_string() }));
}

#[test]
fn unidentified_files() {
    assert_eq!(ObjectIdentifier::from_path("/store/README.txt"), None);
    assert_eq!(ObjectIdentifier::from_path("info%3Afedora%2Farchden"), None);
    assert_eq!(ObjectIdentifier::from_path(""), None);
    assert_eq!(DatastreamIdentifier::from_path("info%3Afedora%2Farchden%3A13"), None);
    assert_eq!(DatastreamIdentifier::from_path("info%3Afedora%2Farchden%3A13%2FTECHMD"), None);
}

#[test]
fn datastream_identifier_from_path() {
    let identifier =
        DatastreamIdentifier::from_path("/fedora/data/datastreamStore/a1/info%3Afedora%2Farchden%3A13%2FTECHMD%2FTECHMD.0");
    assert_eq!(
        identifier,
        Some(DatastreamIdentifier {
            pid: "archden:13".to_string(),
            dsid: "TECHMD".to_string(),
            version: "TECHMD.0".to_string(),
        })
    );
}

#[test]
fn datastream_identifier_decodes_underscores() {
    let identifier = DatastreamIdentifier::from_path("info%3Afedora%2Fns%3A1%2FFULL%5FTEXT%2FFULL%5FTEXT.2");
    assert_eq!(
        identifier,
        Some(DatastreamIdentifier {
            pid: "ns:1".to_string(),
            dsid: "FULL_TEXT".to_string(),
            version: "FULL_TEXT.2".to_string(),
        })
    );
}

#[test]
fn identifier_round_trip() {
    for (namespace, local) in [("archden", "13"), ("my_ns", "a_b"), ("x", ""), ("", "y"), ("ns-1", "A.b~c")] {
        let encode = |s: &str| s.replace('_', "%5F");
        let file_name = format!("info%3Afedora%2F{}%3A{}", encode(namespace), encode(local));
        let identifier = ObjectIdentifier::from_path(&file_name);
        assert_eq!(identifier, Some(ObjectIdentifier { pid: format!("{}:{}", namespace, local) }));
    }
}

#[test]
fn datastream_identifier_as_path() {
    let identifier = DatastreamIdentifier {
        pid: "ns:1".to_string(),
        dsid: "OBJ".to_string(),
        version: "OBJ.0".to_string(),
    };
    assert_eq!(identifier.as_path("/staged/datastreams"), "/staged/datastreams/ns:1/OBJ/OBJ.0");
}

#[test]
fn identifiers_compare_alphanumerically() {
    let two = ObjectIdentifier { pid: "item:2".to_string() };
    let ten = ObjectIdentifier { pid: "item:10".to_string() };
    assert_eq!(two.compare(&ten), Rank::Less);
    assert_eq!(ten.compare(&two), Rank::Greater);
    assert_eq!(two.compare(&two), Rank::Equal);
    let a = DatastreamIdentifier { pid: "item:2".to_string(), dsid: "OBJ".to_string(), version: "OBJ.9".to_string() };
    let b = DatastreamIdentifier { pid: "item:2".to_string(), dsid: "OBJ".to_string(), version: "OBJ.10".to_string() };
    let c = DatastreamIdentifier { pid: "item:2".to_string(), dsid: "DC".to_string(), version: "DC.99".to_string() };
    assert_eq!(a.compare(&b), Rank::Less);
    assert_eq!(b.compare(&a), Rank::Greater);
    assert_eq!(c.compare(&a), Rank::Less);
    assert_eq!(a.compare(&a), Rank::Equal);
    assert!(a.same(&a));
    assert!(!a.same(&b));
}
