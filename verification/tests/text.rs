use fedora_export::identifiers::{decode, find_last, find_line_end, match_datastream, match_object};
use fedora_export::rels_ext::{find_first, is_sequence_number_of};
use fedora_export::text::{
    chars_of, has_at, has_prefix, has_suffix, is_blank, signed_decimal, slice_of, string_of,
    unsigned_decimal,
};
use fedora_export::xml_map::count_colons;

fn chars(s: &str) -> Vec<char> {
    s.chars().collect()
}

#[test]
fn strings_and_characters() {
    assert_eq!(chars_of("héllo"), vec!['h', 'é', 'l', 'l', 'o']);
    assert_eq!(chars_of(""), Vec::<char>::new());
    assert_eq!(string_of(&vec!['a', 'ß', 'c']), "aßc");
    assert_eq!(string_of(&chars_of("info:fedora/ns:1")), "info:fedora/ns:1");
    assert_eq!(slice_of(&chars("abcdef"), 2, 4), vec!['c', 'd']);
    assert_eq!(slice_of(&chars("abcdef"), 3, 3), Vec::<char>::new());
}

#[test]
fn parts_of_strings() {
    let s = chars("isSequenceNumberOfns_1");
    assert!(has_prefix(&s, &chars("isSequenceNumberOf")));
    assert!(has_prefix(&s, &chars("")));
    assert!(!has_prefix(&s, &chars("isSequenceNumberOfns_12")));
    assert!(has_suffix(&s, &chars("ns_1")));
    assert!(has_suffix(&s, &chars("")));
    assert!(!has_suffix(&s, &chars("ns_2")));
    assert!(has_at(&s, &chars("Seq"), 2));
    assert!(!has_at(&s, &chars("Seq"), 3));
    assert!(!has_at(&s, &chars("ns_1"), 19));
    assert!(!has_at(&s, &chars("x"), 100));
    assert_eq!(find_first(&s, '_'), 20);
    assert_eq!(find_first(&s, 'i'), 0);
    assert_eq!(find_first(&s, '!'), 22);
    assert_eq!(count_colons(&chars("a:b:c")), 2);
    assert_eq!(count_colons(&chars("abc")), 0);
}

#[test]
fn decimals() {
    assert_eq!(signed_decimal(0), "0");
    assert_eq!(signed_decimal(-42), "-42");
    assert_eq!(signed_decimal(i64::MIN), "-9223372036854775808");
    assert_eq!(unsigned_decimal(u64::MAX), "18446744073709551615");
}

#[test]
fn underscores_are_decoded() {
    assert_eq!(decode(&chars("a%5Fb%5F%5Fc")), chars("a_b__c"));
    assert_eq!(decode(&chars("%5")), chars("%5"));
    assert_eq!(decode(&chars("%5f")), chars("%5f"));
    assert_eq!(decode(&chars("%%5F")), chars("%_"));
    assert_eq!(decode(&chars("")), chars(""));
}

#[test]
fn searches() {
    let s = chars("a%3Ab%3Ac\nd%3Ae");
    assert_eq!(find_line_end(&s, 0), 9);
    assert_eq!(find_line_end(&s, 9), 9);
    assert_eq!(find_line_end(&s, 10), 15);
    assert_eq!(find_last(&s, &chars("%3A"), 0, 9), Some(5));
    assert_eq!(find_last(&s, &chars("%3A"), 0, 7), Some(1));
    assert_eq!(find_last(&s, &chars("%3A"), 2, 7), None);
    assert_eq!(find_last(&s, &chars("%3A"), 0, 15), Some(11));
    assert_eq!(find_last(&s, &chars(""), 0, 15), None);
}

#[test]
fn patterns_stay_on_one_line() {
    let s = chars("info%3Afedora%2Fa\n%3Ab info%3Afedora%2Fc%3Ad\nrest");
    assert_eq!(match_object(&s), Some((chars("c"), chars("d"))));
    let s = chars("x info%3Afedora%2Fa%3Ab%2Fc%2Fd%2Fe");
    assert_eq!(match_datastream(&s), Some((chars("a"), chars("b%2Fc"), chars("d"), chars("e"))));
    assert_eq!(match_datastream(&chars("info%3Afedora%2Fa%2Fb%3Ac%2Fd")), None);
}

#[test]
fn sequence_parents() {
    assert_eq!(is_sequence_number_of("islandora:isSequenceNumberOfns_100"), Some("ns:100".to_string()));
    assert_eq!(is_sequence_number_of("isSequenceNumberOfns_1_2"), Some("ns:1_2".to_string()));
    assert_eq!(is_sequence_number_of("islandora:isSequenceNumberOf"), Some("".to_string()));
    assert_eq!(is_sequence_number_of("islandora:isSequenceNumber"), None);
    assert_eq!(is_sequence_number_of("a:b:isSequenceNumberOfx"), None);
}

#[test]
fn white_space_is_the_unicode_property() {
    let listed = |code: u32| -> bool {
        (0x09..=0x0D).contains(&code)
            || code == 0x20
            || code == 0x85
            || code == 0xA0
            || code == 0x1680
            || (0x2000..=0x200A).contains(&code)
            || code == 0x2028
            || code == 0x2029
            || code == 0x202F
            || code == 0x205F
            || code == 0x3000
    };
    let mut buffer = String::new();
    for code in 0..=0x10FFFFu32 {
        if let Some(c) = char::from_u32(code) {
            buffer.clear();
            buffer.push(c);
            assert_eq!(is_blank(&buffer), listed(code), "U+{:04X}", code);
        }
    }
}

#[test]
fn decimal_forms() {
    assert_eq!(signed_decimal(7), "7");
    assert_eq!(signed_decimal(10), "10");
    assert_eq!(signed_decimal(-10), "-10");
    assert_eq!(signed_decimal(1425320800), "1425320800");
    assert_eq!(unsigned_decimal(0), "0");
    assert_eq!(unsigned_decimal(1009), "1009");
}
