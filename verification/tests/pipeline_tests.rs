use xscan::outcome::{FetchOutput, ScanError, ScanOutcome};
use xscan::pipeline::{check_xss_reflection, evaluate_response};

fn fetched(status: u16, body: &[u8]) -> Result<FetchOutput, String> {
    Ok(FetchOutput { status, body: body.to_vec() })
}

#[test]
fn reflected_when_body_contains_decoded_tag() {
    let outcome = evaluate_response(
        Some(b"x=%3Cscript%3Ealert(1)%3C%2Fscript%3E"),
        200,
        b"hello <script>alert(1)</script> world",
    );
    assert_eq!(
        outcome,
        ScanOutcome::Reflected { tag: b"<script>alert(1)</script>".to_vec(), status: 200 }
    );
}

#[test]
fn not_reflected_when_body_lacks_tag() {
    let outcome = evaluate_response(
        Some(b"x=%3Cscript%3Ealert(1)%3C%2Fscript%3E"),
        200,
        b"the value was sanitized away",
    );
    assert_eq!(outcome, ScanOutcome::NotReflected { status: 200 });
}

#[test]
fn no_query_always_not_reflected() {
    let outcome = evaluate_response(None, 404, b"<script>alert(1)</script>");
    assert_eq!(outcome, ScanOutcome::NotReflected { status: 404 });
    let via_url = check_xss_reflection("http://h/p", fetched(404, b"<x>tags</x>"));
    assert_eq!(via_url, ScanOutcome::NotReflected { status: 404 });
}

#[test]
fn decoding_error_names_first_bad_parameter() {
    let outcome = evaluate_response(Some(b"a=ok&b=%ZZ&c=%GG"), 200, b"");
    assert_eq!(outcome, ScanOutcome::Failed { error: ScanError::Decoding { param: 1 } });
}

#[test]
fn fetch_error_becomes_failed_outcome() {
    let outcome = check_xss_reflection("http://h/p?x=1", Err(String::from("timed out")));
    assert_eq!(
        outcome,
        ScanOutcome::Failed { error: ScanError::Fetch { message: String::from("timed out") } }
    );
}

#[test]
fn invalid_url_becomes_url_parse_failure() {
    let outcome = check_xss_reflection("://missing-scheme", fetched(200, b"ok"));
    match outcome {
        ScanOutcome::Failed { error: ScanError::UrlParse { .. } } => {},
        other => panic!("expected a UrlParse failure, got {:?}", other),
    }
}

#[test]
fn end_to_end_echoed_query_reflects_full_tag() {
    let url = "http://h/p?x=%3Cimg%20src%3Dx%20onerror%3Dalert(1)%3E";
    let body = b"echo: x=<img src=x onerror=alert(1)>";
    let outcome = check_xss_reflection(url, fetched(200, body));
    assert_eq!(
        outcome,
        ScanOutcome::Reflected { tag: b"<img src=x onerror=alert(1)>".to_vec(), status: 200 }
    );
}

#[test]
fn reflection_scans_the_real_query_component() {
    // the fragment is not part of the query: its decoded tag appearing in the
    // body must not count as a reflection
    let url = "http://h/p?a=v#%3Cf%3E";
    let outcome = check_xss_reflection(url, fetched(200, b"page has <f> inside"));
    assert_eq!(outcome, ScanOutcome::NotReflected { status: 200 });
}

#[test]
fn keys_are_never_decoded() {
    // the encoded tag stands in the key, so no candidate arises from it
    let outcome = evaluate_response(Some(b"%3Ck%3E=v"), 200, b"<k>");
    assert_eq!(outcome, ScanOutcome::NotReflected { status: 200 });
}

#[test]
fn first_candidate_across_parameters_wins() {
    let outcome = evaluate_response(
        Some(b"a=%3Cu%3E&b=%3Cw%3E"),
        200,
        b"both <u> and <w> appear",
    );
    assert_eq!(outcome, ScanOutcome::Reflected { tag: b"<u>".to_vec(), status: 200 });
    let second = evaluate_response(Some(b"a=%3Cu%3E&b=%3Cw%3E"), 200, b"only <w> appears");
    assert_eq!(second, ScanOutcome::Reflected { tag: b"<w>".to_vec(), status: 200 });
}
