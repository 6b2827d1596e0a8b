use hmac::Mac;
use sha2::Digest;

use s3_proxy::canon::canonical_query;
use s3_proxy::canon::canonical_uri;
use s3_proxy::rules::RequestData;
use s3_proxy::sign::build_upstream_url;
use s3_proxy::sign::current_amz_date;
use s3_proxy::sign::sign_request;
use s3_proxy::sign::SigningConfig;

fn cfg() -> SigningConfig {
    SigningConfig {
        s3_url: "https://bucket.example.com".to_string(),
        s3_region: "eu-west-1".to_string(),
        s3_account_key: "AKIDEXAMPLE".to_string(),
        s3_account_secret: "examplesecretkey".to_string(),
    }
}

fn req(method: &str, path: &str, query: Option<&str>, headers: &[(&str, &str)]) -> RequestData {
    RequestData {
        method: method.to_string(),
        path: path.to_string(),
        query: query.map(|q| q.to_string()),
        headers: headers.iter().map(|(n, v)| (n.to_string(), v.to_string())).collect(),
    }
}

fn header<'a>(signed: &'a s3_proxy::sign::SignedRequest, name: &str) -> Option<&'a str> {
    signed.headers.iter().find(|(n, _)| n == name).map(|(_, v)| v.as_str())
}

const TS: &str = "20240101T000000Z";

#[test]
fn upstream_url_concatenates_base_path_and_query() {
    let r = sign_request(&cfg(), &req("GET", "/objects/a", Some("x=1&y=2"), &[]), &TS.to_string())
        .unwrap();
    assert_eq!(r.url, "https://bucket.example.com/objects/a?x=1&y=2");
}

#[test]
fn empty_or_absent_query_leaves_no_question_mark() {
    let none = sign_request(&cfg(), &req("GET", "/a", None, &[]), &TS.to_string()).unwrap();
    assert_eq!(none.url, "https://bucket.example.com/a");
    let empty = sign_request(&cfg(), &req("GET", "/a", Some(""), &[]), &TS.to_string()).unwrap();
    assert_eq!(empty.url, "https://bucket.example.com/a");
}

#[test]
fn signing_headers_are_set() {
    let r = sign_request(&cfg(), &req("GET", "/a", None, &[]), &TS.to_string()).unwrap();
    assert_eq!(header(&r, "x-amz-date"), Some(TS));
    assert_eq!(header(&r, "x-amz-content-sha256"), Some("UNSIGNED-PAYLOAD"));
    assert_eq!(header(&r, "host"), Some("bucket.example.com"));
    let auth = header(&r, "authorization").unwrap();
    assert!(auth.starts_with(
        "AWS4-HMAC-SHA256 Credential=AKIDEXAMPLE/20240101/eu-west-1/s3/aws4_request, \
         SignedHeaders=host;x-amz-content-sha256;x-amz-date, Signature="
    ));
}

#[test]
fn only_content_type_and_length_survive_from_the_inbound_request() {
    let r = sign_request(
        &cfg(),
        &req(
            "PUT",
            "/a",
            None,
            &[("content-type", "text/plain"), ("content-length", "4"), ("x-secret", "leak")],
        ),
        &TS.to_string(),
    )
    .unwrap();
    assert_eq!(header(&r, "content-type"), Some("text/plain"));
    assert_eq!(header(&r, "content-length"), Some("4"));
    assert_eq!(header(&r, "x-secret"), None);
    assert!(header(&r, "authorization").unwrap().contains(
        "SignedHeaders=content-length;content-type;host;x-amz-content-sha256;x-amz-date"
    ));
}

#[test]
fn signing_is_deterministic_at_one_instant() {
    let a = sign_request(&cfg(), &req("GET", "/a", Some("q=1"), &[]), &TS.to_string()).unwrap();
    let b = sign_request(&cfg(), &req("GET", "/a", Some("q=1"), &[]), &TS.to_string()).unwrap();
    assert_eq!(header(&a, "authorization"), header(&b, "authorization"));
}

#[test]
fn different_instants_yield_different_signatures() {
    let a = sign_request(&cfg(), &req("GET", "/a", None, &[]), &TS.to_string()).unwrap();
    let b = sign_request(&cfg(), &req("GET", "/a", None, &[]), &"20240102T000000Z".to_string())
        .unwrap();
    assert_ne!(header(&a, "authorization"), header(&b, "authorization"));
}

#[test]
fn malformed_upstream_url_is_a_signing_error() {
    let mut c = cfg();
    c.s3_url = "not a url".to_string();
    assert!(sign_request(&c, &req("GET", "/a", None, &[]), &TS.to_string()).is_err());
}

#[test]
fn signature_agrees_with_a_hand_built_sigv4_chain() {
    let r = sign_request(&cfg(), &req("GET", "/objects/a", Some("x=1"), &[]), &TS.to_string())
        .unwrap();
    let auth = header(&r, "authorization").unwrap().to_string();

    let canonical_request = "GET\n/objects/a\nx=1\n\
        host:bucket.example.com\n\
        x-amz-content-sha256:UNSIGNED-PAYLOAD\n\
        x-amz-date:20240101T000000Z\n\
        \n\
        host;x-amz-content-sha256;x-amz-date\n\
        UNSIGNED-PAYLOAD";
    let cr_hash = hex_digest(canonical_request.as_bytes());
    let string_to_sign = format!(
        "AWS4-HMAC-SHA256\n20240101T000000Z\n20240101/eu-west-1/s3/aws4_request\n{}",
        cr_hash
    );
    let k_date = hmac_bytes(b"AWS4examplesecretkey", b"20240101");
    let k_region = hmac_bytes(&k_date, b"eu-west-1");
    let k_service = hmac_bytes(&k_region, b"s3");
    let k_signing = hmac_bytes(&k_service, b"aws4_request");
    let signature = hex_str(&hmac_bytes(&k_signing, string_to_sign.as_bytes()));

    let expected = format!(
        "AWS4-HMAC-SHA256 Credential=AKIDEXAMPLE/20240101/eu-west-1/s3/aws4_request, \
         SignedHeaders=host;x-amz-content-sha256;x-amz-date, Signature={}",
        signature
    );
    assert_eq!(auth, expected);
}

#[test]
fn query_parameters_are_sorted_for_signing_only() {
    // the two orders canonicalize alike, so the signatures agree ...
    let a = sign_request(&cfg(), &req("GET", "/a", Some("b=2&a=1"), &[]), &TS.to_string())
        .unwrap();
    let b = sign_request(&cfg(), &req("GET", "/a", Some("a=1&b=2"), &[]), &TS.to_string())
        .unwrap();
    assert_eq!(header(&a, "authorization"), header(&b, "authorization"));
    // ... while the forwarded URL keeps the query as received
    assert_eq!(a.url, "https://bucket.example.com/a?b=2&a=1");
    assert_eq!(b.url, "https://bucket.example.com/a?a=1&b=2");
}

#[test]
fn percent_hex_case_does_not_change_the_signature() {
    let a = sign_request(&cfg(), &req("GET", "/a", Some("k=%2fx"), &[]), &TS.to_string())
        .unwrap();
    let b = sign_request(&cfg(), &req("GET", "/a", Some("k=%2Fx"), &[]), &TS.to_string())
        .unwrap();
    assert_eq!(header(&a, "authorization"), header(&b, "authorization"));
}

#[test]
fn canonical_query_encodes_sorts_and_rejoins() {
    assert_eq!(canonical_query(&Some("b=2&a=1&a=0".to_string())), "a=0&a=1&b=2");
    assert_eq!(canonical_query(&Some("a=2&a=1".to_string())), "a=1&a=2");
    assert_eq!(canonical_query(&Some("a b=c+d".to_string())), "a%20b=c%2Bd");
    assert_eq!(canonical_query(&Some("k=%7e&flag".to_string())), "flag=&k=%7E");
    assert_eq!(canonical_query(&Some("k=\u{e9}".to_string())), "k=%C3%A9");
    assert_eq!(canonical_query(&Some(String::new())), "");
    assert_eq!(canonical_query(&None), "");
}

#[test]
fn canonical_uri_encodes_segments_and_keeps_slashes() {
    assert_eq!(canonical_uri(&"/objects/a".to_string()), "/objects/a");
    assert_eq!(canonical_uri(&"/a b/c".to_string()), "/a%20b/c");
    assert_eq!(canonical_uri(&"/pre%2Fenc".to_string()), "/pre%2Fenc");
    assert_eq!(canonical_uri(&String::new()), "/");
}

#[test]
fn signature_canonicalizes_path_and_query_in_the_chain() {
    let r = sign_request(&cfg(), &req("GET", "/a b", Some("b=2&a=1"), &[]), &TS.to_string())
        .unwrap();
    let auth = header(&r, "authorization").unwrap().to_string();

    let canonical_request = "GET\n/a%20b\na=1&b=2\n\
        host:bucket.example.com\n\
        x-amz-content-sha256:UNSIGNED-PAYLOAD\n\
        x-amz-date:20240101T000000Z\n\
        \n\
        host;x-amz-content-sha256;x-amz-date\n\
        UNSIGNED-PAYLOAD";
    let cr_hash = hex_digest(canonical_request.as_bytes());
    let string_to_sign = format!(
        "AWS4-HMAC-SHA256\n20240101T000000Z\n20240101/eu-west-1/s3/aws4_request\n{}",
        cr_hash
    );
    let k_date = hmac_bytes(b"AWS4examplesecretkey", b"20240101");
    let k_region = hmac_bytes(&k_date, b"eu-west-1");
    let k_service = hmac_bytes(&k_region, b"s3");
    let k_signing = hmac_bytes(&k_service, b"aws4_request");
    let signature = hex_str(&hmac_bytes(&k_signing, string_to_sign.as_bytes()));
    assert!(auth.ends_with(&format!("Signature={}", signature)));
}

#[test]
fn current_timestamp_has_the_compact_utc_shape() {
    let ts = current_amz_date();
    assert!(ts.len() >= 16);
    let bytes = ts.as_bytes();
    assert_eq!(bytes[8], b'T');
    assert_eq!(bytes[15], b'Z');
    assert!(bytes[..8].iter().all(|b| b.is_ascii_digit()));
}

fn hmac_bytes(key: &[u8], msg: &[u8]) -> Vec<u8> {
    let mut mac = hmac::Hmac::<sha2::Sha256>::new_from_slice(key).unwrap();
    mac.update(msg);
    mac.finalize().into_bytes().to_vec()
}

fn hex_digest(data: &[u8]) -> String {
    hex_str(&sha2::Sha256::digest(data).to_vec())
}

fn hex_str(bytes: &[u8]) -> String {
    bytes.iter().map(|b| format!("{:02x}", b)).collect()
}

#[test]
fn hex_encoding_is_exact() {
    assert_eq!(s3_proxy::crypto::hex_string(&vec![]), "");
    assert_eq!(s3_proxy::crypto::hex_string(&vec![0x00, 0xff, 0x1a]), "00ff1a");
}

#[test]
fn upstream_url_builder_drops_only_empty_queries() {
    assert_eq!(
        build_upstream_url("https://h", "/p", &Some("a=1".to_string())),
        "https://h/p?a=1"
    );
    assert_eq!(build_upstream_url("https://h", "/p", &Some(String::new())), "https://h/p");
    assert_eq!(build_upstream_url("https://h", "/p", &None), "https://h/p");
}
