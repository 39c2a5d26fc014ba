use xscan::percent::{percent_decode, percent_encode};
use xscan::query::parse_query;
use xscan::headers::{header_pair, parse_headers};
use xscan::extract::extract_tags_from_param;

#[test]
fn percent_round_trip_reserved_and_unreserved() {
    let original: &[u8] = b"a b/c?d=e&f%g~h.i-j_k<l>m";
    let encoded = percent_encode(original);
    let decoded = percent_decode(&encoded).expect("encoded form must decode");
    assert_eq!(decoded, original.to_vec());
}

#[test]
fn percent_encode_exact_form() {
    let encoded = percent_encode(b"a b%3");
    assert_eq!(encoded, b"a%20b%253".to_vec());
}

#[test]
fn percent_decode_exact_values() {
    assert_eq!(percent_decode(b"%3Cscript%3E"), Ok(b"<script>".to_vec()));
    assert_eq!(percent_decode(b"plain"), Ok(b"plain".to_vec()));
    assert_eq!(percent_decode(b""), Ok(Vec::new()));
    assert_eq!(percent_decode(b"a+b%20c"), Ok(b"a+b c".to_vec()));
}

#[test]
fn percent_decode_rejects_malformed_escapes() {
    assert_eq!(percent_decode(b"%GG"), Err(0));
    assert_eq!(percent_decode(b"ab%"), Err(2));
    assert_eq!(percent_decode(b"ab%4"), Err(2));
    assert_eq!(percent_decode(b"%41%4"), Err(3));
}

#[test]
fn query_pairs_split_in_order() {
    let pairs = parse_query(b"a=1&b=2&c=3");
    assert_eq!(
        pairs,
        vec![
            (b"a".to_vec(), b"1".to_vec()),
            (b"b".to_vec(), b"2".to_vec()),
            (b"c".to_vec(), b"3".to_vec()),
        ]
    );
}

#[test]
fn query_pairs_edge_cases() {
    assert_eq!(parse_query(b""), Vec::<(Vec<u8>, Vec<u8>)>::new());
    // empty segments are skipped, a missing '=' means an empty value,
    // keys may repeat
    let pairs = parse_query(b"a=1&&flag&a=2&=v&trail=");
    assert_eq!(
        pairs,
        vec![
            (b"a".to_vec(), b"1".to_vec()),
            (b"flag".to_vec(), b"".to_vec()),
            (b"a".to_vec(), b"2".to_vec()),
            (b"".to_vec(), b"v".to_vec()),
            (b"trail".to_vec(), b"".to_vec()),
        ]
    );
}

#[test]
fn header_with_colon_splits_and_trims() {
    let parsed = header_pair(b"X-Test: 1");
    assert_eq!(parsed, Some((b"X-Test".to_vec(), b"1".to_vec())));
}

#[test]
fn header_without_colon_is_dropped() {
    assert_eq!(header_pair(b"no colon here"), None);
    let lines = vec![b"A: 1".to_vec(), b"bogus".to_vec(), b" B :  two  ".to_vec()];
    let parsed = parse_headers(&lines);
    assert_eq!(
        parsed,
        vec![
            (b"A".to_vec(), b"1".to_vec()),
            (b"B".to_vec(), b"two".to_vec()),
        ]
    );
}

#[test]
fn extract_paired_tag_before_single_tags() {
    let tags = extract_tags_from_param(b"<script>alert(1)</script>");
    assert_eq!(
        tags,
        vec![
            b"<script>alert(1)</script>".to_vec(),
            b"<script>".to_vec(),
            b"</script>".to_vec(),
        ]
    );
}

#[test]
fn extract_tag_rules_precede_attribute_rules() {
    let tags = extract_tags_from_param(b"<img src=x onerror=alert(1)>");
    assert_eq!(
        tags,
        vec![
            b"<img src=x onerror=alert(1)>".to_vec(),
            b"onerror=alert(1)".to_vec(),
            b"src=x".to_vec(),
        ]
    );
}

#[test]
fn extract_attr_spellings_are_distinct_rules() {
    assert_eq!(
        extract_tags_from_param(b"OnToGgLe=go"),
        vec![b"OnToGgLe=go".to_vec()]
    );
    assert_eq!(
        extract_tags_from_param(b"ONERROR=x"),
        Vec::<Vec<u8>>::new()
    );
    // lowercase and the one alternate spelling both fire, in rule order
    assert_eq!(
        extract_tags_from_param(b"onclick=a OnCliCk=b"),
        vec![b"onclick=a".to_vec(), b"OnCliCk=b".to_vec()]
    );
}

#[test]
fn extract_non_overlapping_left_to_right() {
    assert_eq!(
        extract_tags_from_param(b"<a><b>"),
        vec![b"<a>".to_vec(), b"<b>".to_vec()]
    );
    // "<>" has no byte between the brackets, so no rule fires
    assert_eq!(extract_tags_from_param(b"<>"), Vec::<Vec<u8>>::new());
    assert_eq!(extract_tags_from_param(b"plain text"), Vec::<Vec<u8>>::new());
}

#[test]
fn extract_attr_value_stops_at_gt_or_space() {
    assert_eq!(
        extract_tags_from_param(b"onload=run()>rest"),
        vec![b"onload=run()".to_vec()]
    );
    assert_eq!(
        extract_tags_from_param(b"src=u v"),
        vec![b"src=u".to_vec()]
    );
    // an empty attribute value is no match
    assert_eq!(extract_tags_from_param(b"onerror=>"), Vec::<Vec<u8>>::new());
}
