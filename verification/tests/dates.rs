use fedora_export::dates::{edtf, edtf_from};

#[test]
fn test_edtf() {
    assert_eq!(edtf("1900-01-01".into()), "1900-01-01".to_string(), "Dates equal");
}

#[test]
fn edtf_reads_rfc3339() {
    assert_eq!(edtf("2014-11-28T21:00:09+09:00"), "2014-11-28T21:00:09+09:00");
    assert_eq!(edtf("2014-11-28T12:00:09Z"), "2014-11-28T12:00:09+00:00");
}

#[test]
fn edtf_reads_rfc2822() {
    assert_eq!(edtf("Tue, 1 Jul 2003 10:52:37 +0200"), "2003-07-01T10:52:37+02:00");
}

#[test]
fn edtf_finds_a_date_within_a_text() {
    assert_eq!(edtf("Published 1954-11-18 in Denver"), "1954-11-18");
}

#[test]
fn edtf_of_no_date_is_empty() {
    assert_eq!(edtf("November 18, 1954"), "");
    assert_eq!(edtf(""), "");
    assert_eq!(edtf("1954-13-45"), "");
}

#[test]
fn edtf_prefers_rfc2822_then_rfc3339_then_date() {
    let a = Some("a".to_string());
    let b = Some("b".to_string());
    let c = Some("c".to_string());
    assert_eq!(edtf_from(a.clone(), b.clone(), c.clone()), "a");
    assert_eq!(edtf_from(None, b.clone(), c.clone()), "b");
    assert_eq!(edtf_from(None, None, c.clone()), "c");
    assert_eq!(edtf_from(None, None, None), "");
}
