use s3_proxy::authorize::authorize;
use s3_proxy::authorize::gate_request;
use s3_proxy::authorize::relay_status;
use s3_proxy::rules::parse_rules;
use s3_proxy::rules::RequestData;
use s3_proxy::rules::Rule;

fn req(method: &str, path: &str, query: Option<&str>, headers: &[(&str, &str)]) -> RequestData {
    RequestData {
        method: method.to_string(),
        path: path.to_string(),
        query: query.map(|q| q.to_string()),
        headers: headers.iter().map(|(n, v)| (n.to_string(), v.to_string())).collect(),
    }
}

fn load(lines: &[&str]) -> Vec<Rule> {
    parse_rules(&lines.iter().map(|l| l.to_string()).collect())
        .unwrap_or_else(|e| panic!("line {} failed to parse", e.line))
}

#[test]
fn exact_anchor_matches_only_exact_path() {
    let rules = load(&["GET /data$"]);
    assert!(rules[0].check(&req("GET", "/data", None, &[])));
    assert!(!rules[0].check(&req("GET", "/data/extra", None, &[])));
    assert!(!rules[0].check(&req("GET", "/dat", None, &[])));
}

#[test]
fn unanchored_pattern_matches_prefix() {
    let rules = load(&["GET /data"]);
    assert!(rules[0].check(&req("GET", "/data", None, &[])));
    assert!(rules[0].check(&req("GET", "/data/extra", None, &[])));
    assert!(!rules[0].check(&req("GET", "/other", None, &[])));
}

#[test]
fn method_must_be_listed() {
    let rules = load(&["GET POST /x"]);
    assert!(rules[0].check(&req("GET", "/x", None, &[])));
    assert!(rules[0].check(&req("POST", "/x", None, &[])));
    assert!(!rules[0].check(&req("DELETE", "/x", None, &[])));
}

#[test]
fn missing_or_wrong_header_denies() {
    let store = Some(load(&["POST /upload x-api-key=abc123"]));
    let without = req("POST", "/upload", None, &[]);
    let wrong = req("POST", "/upload", None, &[("x-api-key", "nope")]);
    let with = req("POST", "/upload", None, &[("x-api-key", "abc123")]);
    assert_eq!(gate_request(&store, &without), Some(401));
    assert_eq!(gate_request(&store, &wrong), Some(401));
    assert_eq!(gate_request(&store, &with), None);
}

#[test]
fn all_listed_headers_are_required() {
    let rules = load(&["GET / a=1 b=2"]);
    assert!(!rules[0].check(&req("GET", "/", None, &[("a", "1")])));
    assert!(rules[0].check(&req("GET", "/", None, &[("a", "1"), ("b", "2")])));
}

#[test]
fn query_group_order_and_extras_are_irrelevant() {
    let rules = load(&["GET /search ?q=cats&limit=5"]);
    assert!(rules[0].check(&req("GET", "/search", Some("limit=5&q=cats&extra=1"), &[])));
    assert!(rules[0].check(&req("GET", "/search", Some("q=cats&limit=5"), &[])));
    assert!(!rules[0].check(&req("GET", "/search", Some("q=cats"), &[])));
    assert!(!rules[0].check(&req("GET", "/search", None, &[])));
}

#[test]
fn any_one_query_group_suffices() {
    let rules = load(&["GET / ?a=1 ?b=2"]);
    assert!(rules[0].check(&req("GET", "/", Some("a=1"), &[])));
    assert!(rules[0].check(&req("GET", "/", Some("b=2"), &[])));
    assert!(!rules[0].check(&req("GET", "/", Some("c=3"), &[])));
}

#[test]
fn query_string_is_percent_decoded_before_matching() {
    let rules = load(&["GET / ?a=b"]);
    // the request carries "a%3Db", which only matches once decoded to "a=b"
    assert!(rules[0].check(&req("GET", "/", Some("a%3Db"), &[])));
    assert!(!rules[0].check(&req("GET", "/", Some("a=c"), &[])));
}

#[test]
fn unrestricted_mode_allows_everything() {
    let store: Option<Vec<Rule>> = None;
    assert!(authorize(&store, &req("GET", "/anything", None, &[])));
    assert!(authorize(&store, &req("DELETE", "/x", Some("q=1"), &[("h", "v")])));
    assert_eq!(gate_request(&store, &req("PUT", "/y", None, &[])), None);
}

#[test]
fn empty_store_denies_everything() {
    let store = Some(Vec::<Rule>::new());
    assert!(!authorize(&store, &req("GET", "/anything", None, &[])));
}

#[test]
fn rules_combine_with_or() {
    let store = Some(load(&["GET /a$", "POST /b"]));
    assert!(authorize(&store, &req("GET", "/a", None, &[])));
    assert!(authorize(&store, &req("POST", "/b/c", None, &[])));
    assert!(!authorize(&store, &req("POST", "/a", None, &[])));
}

#[test]
fn parsing_is_idempotent() {
    let lines: Vec<String> =
        ["GET /data$ x-team=infra ?a=1&b=2", "POST PUT /upload"].iter().map(|l| l.to_string()).collect();
    let first = parse_rules(&lines).unwrap();
    let second = parse_rules(&lines).unwrap();
    assert_eq!(first.len(), second.len());
    for (a, b) in first.iter().zip(second.iter()) {
        assert_eq!(a.methods, b.methods);
        assert_eq!(a.paths, b.paths);
        assert_eq!(a.headers, b.headers);
        assert_eq!(a.query, b.query);
    }
}

#[test]
fn parsed_fields_hold_the_line_tokens() {
    let rules = load(&["GET /objects/ ?prefix=public&limit=10 x-team=infra"]);
    assert_eq!(rules[0].methods, vec!["GET".to_string()]);
    assert_eq!(rules[0].paths, vec!["/objects/".to_string()]);
    assert_eq!(rules[0].headers, vec![("x-team".to_string(), "infra".to_string())]);
    assert_eq!(
        rules[0].query,
        vec![vec!["prefix=public".to_string(), "limit=10".to_string()]]
    );
}

#[test]
fn header_names_are_lowercased() {
    let rules = load(&["X-Team=Infra /x"]);
    assert_eq!(rules[0].headers, vec![("x-team".to_string(), "Infra".to_string())]);
}

#[test]
fn repeated_header_name_keeps_the_last_value() {
    let rules = load(&["a=1 a=2 /x"]);
    assert_eq!(rules[0].headers, vec![("a".to_string(), "2".to_string())]);
}

#[test]
fn unknown_method_fails_the_load() {
    let lines = vec!["GET /ok".to_string(), "FROB /x".to_string()];
    let err = parse_rules(&lines).unwrap_err();
    assert_eq!(err.line, 1);
}

#[test]
fn token_without_equals_fails_the_load() {
    let lines = vec!["notaheader".to_string()];
    assert_eq!(parse_rules(&lines).unwrap_err().line, 0);
}

#[test]
fn bad_header_name_fails_the_load() {
    let lines = vec!["a@b=c".to_string()];
    assert_eq!(parse_rules(&lines).unwrap_err().line, 0);
}

#[test]
fn bad_header_value_fails_the_load() {
    let lines = vec!["a=\u{1}".to_string()];
    assert_eq!(parse_rules(&lines).unwrap_err().line, 0);
}

#[test]
fn blank_lines_become_empty_rules() {
    let rules = load(&["", "GET /x"]);
    assert_eq!(rules.len(), 2);
    assert!(rules[0].methods.is_empty());
    assert!(rules[0].paths.is_empty());
    // an empty rule matches nothing: its method list is empty
    assert!(!rules[0].check(&req("GET", "/x", None, &[])));
}

#[test]
fn relay_status_maps_transport_failures_to_400() {
    assert_eq!(relay_status(true, 204), 204);
    assert_eq!(relay_status(true, 503), 503);
    assert_eq!(relay_status(false, 200), 400);
}

#[test]
fn only_the_last_dollar_is_an_anchor() {
    let rules = load(&["GET /a$$"]);
    assert!(rules[0].check(&req("GET", "/a$", None, &[])));
    assert!(!rules[0].check(&req("GET", "/a", None, &[])));
    assert!(!rules[0].check(&req("GET", "/a$x", None, &[])));
}
