use vpn_router::resolver::{resolve_from_body, resolve_url, ResolveError};

fn strings(v: &[&str]) -> Vec<String> {
    v.iter().map(|s| s.to_string()).collect()
}

#[test]
fn keeps_only_ipv4_records() {
    let body = "{\"Answer\":[{\"data\":\"example.net.\"},{\"data\":\"93.184.216.34\"},{\"data\":\"2606:2800:220:1:248:1893:25c8:1946\"}]}";
    assert_eq!(resolve_from_body(body), Ok(strings(&["93.184.216.34"])));
}

#[test]
fn keeps_response_order() {
    let body = "{\"Answer\":[{\"data\":\"1.1.1.1\"},{\"data\":\"8.8.8.8\"},{\"data\":\"1.0.0.1\"}]}";
    assert_eq!(
        resolve_from_body(body),
        Ok(strings(&["1.1.1.1", "8.8.8.8", "1.0.0.1"]))
    );
}

#[test]
fn absent_answer_is_empty() {
    assert_eq!(resolve_from_body("{\"Status\":0}"), Ok(strings(&[])));
    assert_eq!(resolve_from_body("{}"), Ok(strings(&[])));
}

#[test]
fn non_array_answer_is_empty() {
    assert_eq!(resolve_from_body("{\"Answer\":5}"), Ok(strings(&[])));
    assert_eq!(resolve_from_body("{\"Answer\":\"1.2.3.4\"}"), Ok(strings(&[])));
}

#[test]
fn entries_without_string_data_are_skipped() {
    let body = "{\"Answer\":[{\"name\":\"x\"},{\"data\":7},{\"data\":\"1.2.3.4\"}]}";
    assert_eq!(resolve_from_body(body), Ok(strings(&["1.2.3.4"])));
}

#[test]
fn malformed_body_is_a_decode_error() {
    assert_eq!(resolve_from_body("not json"), Err(ResolveError::Decode));
    assert_eq!(resolve_from_body(""), Err(ResolveError::Decode));
    assert_eq!(resolve_from_body("{\"Answer\":["), Err(ResolveError::Decode));
}

#[test]
fn query_address_names_the_domain() {
    assert_eq!(
        resolve_url("example.com"),
        "https://dns.google/resolve?name=example.com"
    );
}
