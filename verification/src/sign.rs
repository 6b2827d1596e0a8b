//! The request signer: rewrites an outbound request into an
//! upstream-addressed one that carries an AWS Signature Version 4
//! `authorization` header, following the canonical-request →
//! string-to-sign → signing-key → signature chain with the scope
//! `date/region/s3/aws4_request` and the unsigned-payload sentinel. The
//! canonical request takes the percent-normalized URI and the encoded,
//! sorted query string; the forwarded URL keeps both as received.
//!
//! The signer is a pure function of the request content, the configuration
//! and the timestamp it is handed; the current instant comes from a wrapper
//! around the clock.

use vstd::prelude::*;
use vstd::string::*;
use vstd::utf8::encode_utf8;
use crate::crypto::sha256_of;
use crate::crypto::hmac_sha256_of;
use crate::crypto::hex_of;
use crate::crypto::sha256;
use crate::crypto::hmac_sha256;
use crate::crypto::hex_string;
use crate::canon::spec_canonical_uri;
use crate::canon::spec_canonical_query;
use crate::canon::canonical_uri;
use crate::canon::canonical_query;
use crate::rules::header_lookup;
use crate::rules::lookup_header;
use crate::rules::RequestData;

verus! {

/// What the signer needs of the process configuration: upstream base URL,
/// region and the credential pair.
pub struct SigningConfig {
    pub s3_url: String,
    pub s3_region: String,
    pub s3_account_key: String,
    pub s3_account_secret: String,
}

/// The mathematical model of a signing configuration.
pub ghost struct SigningConfigModel {
    pub s3_url: Seq<char>,
    pub s3_region: Seq<char>,
    pub s3_account_key: Seq<char>,
    pub s3_account_secret: Seq<char>,
}

impl View for SigningConfig {
    type V = SigningConfigModel;

    open spec fn view(&self) -> SigningConfigModel {
        SigningConfigModel {
            s3_url: self.s3_url@,
            s3_region: self.s3_region@,
            s3_account_key: self.s3_account_key@,
            s3_account_secret: self.s3_account_secret@,
        }
    }
}

/// What the signer hands back: the upstream URL the request must now
/// target, and the complete replacement header set.
pub struct SignedRequest {
    pub url: String,
    pub headers: Vec<(String, String)>,
}

/// The mathematical model of a signed request.
pub ghost struct SignedRequestModel {
    pub url: Seq<char>,
    pub headers: Seq<(Seq<char>, Seq<char>)>,
}

impl View for SignedRequest {
    type V = SignedRequestModel;

    open spec fn view(&self) -> SignedRequestModel {
        SignedRequestModel { url: self.url@, headers: self.headers.deep_view() }
    }
}

/// Why signing failed. The pipeline treats this as non-fatal and forwards
/// the request unsigned.
#[derive(Debug)]
pub enum SigningError {
    /// The configured upstream base URL does not parse as an absolute URL.
    BadUpstreamUrl,
}

// ---------------------------------------------------------------------------
// Trusted views of the clock and the URL parser
// ---------------------------------------------------------------------------

/// What `url::Url::parse` finds as the host of a URL string: `None` when
/// the string does not parse, otherwise the host text (empty when the URL
/// carries none).
pub uninterp spec fn url_host_of(s: Seq<char>) -> Option<Seq<char>>;

/// Relies on `url::Url::parse` to accept or reject the base URL and on
/// `url::Url::host_str` to hand its host out as text; both depend on the
/// input characters alone.
#[verifier::external_body]
pub fn url_host(s: &str) -> (r: Option<String>)
    ensures
        match r {
            Some(h) => url_host_of(s@) == Some(h@),
            None => url_host_of(s@) is None,
        },
{
    match url::Url::parse(s) {
        Ok(u) => Some(String::from(u.host_str().unwrap_or(""))),
        Err(_) => None,
    }
}

/// Relies on `chrono::Utc::now` and `format("%Y%m%dT%H%M%SZ")`: the current
/// UTC instant as `YYYYMMDDTHHMMSSZ`; the year is zero-padded to at least
/// four digits, so at least 16 characters come back.
#[verifier::external_body]
pub fn current_amz_date() -> (r: String)
    ensures
        r@.len() >= 16,
{
    chrono::Utc::now().format("%Y%m%dT%H%M%SZ").to_string()
}

// ---------------------------------------------------------------------------
// The upstream URL
// ---------------------------------------------------------------------------

/// The absolute upstream URL: base, then the original path, then `?` and
/// the original query unless the query is absent or empty.
pub open spec fn spec_upstream_url(
    base: Seq<char>,
    path: Seq<char>,
    query: Option<Seq<char>>,
) -> Seq<char> {
    match query {
        Some(q) => if q.len() > 0 {
            base + path + "?"@ + q
        } else {
            base + path
        },
        None => base + path,
    }
}

/// Builds the absolute upstream URL for a request.
pub fn build_upstream_url(base: &str, path: &str, query: &Option<String>) -> (r: String)
    ensures
        r@ == spec_upstream_url(base@, path@, query.deep_view()),
{
    let mut r = String::from_str(base);
    r.append(path);
    match query {
        Some(q) => {
            if !q.as_str().is_empty() {
                r.append("?");
                r.append(q.as_str());
            }
        },
        None => {},
    }
    proof {
        assert(r@ =~= spec_upstream_url(base@, path@, query.deep_view()));
    }
    r
}

// ---------------------------------------------------------------------------
// The SigV4 chain
// ---------------------------------------------------------------------------

/// The canonical header block: the signed headers in lexicographic order,
/// each as `name:value` with a trailing newline.
pub open spec fn spec_canonical_headers(
    ct: Option<Seq<char>>,
    cl: Option<Seq<char>>,
    host: Seq<char>,
    ts: Seq<char>,
) -> Seq<char> {
    (match cl {
        Some(v) => "content-length:"@ + v + "\n"@,
        None => Seq::<char>::empty(),
    }) + (match ct {
        Some(v) => "content-type:"@ + v + "\n"@,
        None => Seq::<char>::empty(),
    }) + "host:"@ + host + "\n"@ + "x-amz-content-sha256:UNSIGNED-PAYLOAD\n"@
        + "x-amz-date:"@ + ts + "\n"@
}

/// The `SignedHeaders` list matching `spec_canonical_headers`.
pub open spec fn spec_signed_header_names(
    ct: Option<Seq<char>>,
    cl: Option<Seq<char>>,
) -> Seq<char> {
    (match cl {
        Some(v) => "content-length;"@,
        None => Seq::<char>::empty(),
    }) + (match ct {
        Some(v) => "content-type;"@,
        None => Seq::<char>::empty(),
    }) + "host;x-amz-content-sha256;x-amz-date"@
}

/// The canonical request: method, the canonical (percent-normalized) URI,
/// the canonical (encoded and sorted) query string, the canonical headers,
/// the signed-header names, and the unsigned-payload sentinel,
/// newline-separated.
pub open spec fn spec_canonical_request(
    method: Seq<char>,
    cu: Seq<char>,
    cq: Seq<char>,
    ch: Seq<char>,
    sn: Seq<char>,
) -> Seq<char> {
    method + "\n"@ + cu + "\n"@ + cq + "\n"@ + ch + "\n"@ + sn + "\n"@
        + "UNSIGNED-PAYLOAD"@
}

/// The credential scope: the date (first eight timestamp characters), the
/// region, the service `s3` and the terminator.
pub open spec fn spec_credential_scope(date8: Seq<char>, region: Seq<char>) -> Seq<char> {
    date8 + "/"@ + region + "/s3/aws4_request"@
}

/// The string to sign: algorithm name, timestamp, scope, and the hex-coded
/// SHA-256 of the canonical request.
pub open spec fn spec_string_to_sign(
    ts: Seq<char>,
    scope: Seq<char>,
    cr: Seq<char>,
) -> Seq<char> {
    "AWS4-HMAC-SHA256\n"@ + ts + "\n"@ + scope + "\n"@ + hex_of(sha256_of(encode_utf8(cr)))
}

/// The signing key: the HMAC chain over `AWS4` + secret, date, region,
/// service and terminator.
pub open spec fn spec_signing_key(
    secret: Seq<char>,
    date8: Seq<char>,
    region: Seq<char>,
) -> Seq<u8> {
    hmac_sha256_of(
        hmac_sha256_of(
            hmac_sha256_of(
                hmac_sha256_of(encode_utf8("AWS4"@ + secret), encode_utf8(date8)),
                encode_utf8(region),
            ),
            encode_utf8("s3"@),
        ),
        encode_utf8("aws4_request"@),
    )
}

/// The value of the `authorization` header.
pub open spec fn spec_authorization_value(
    cfg: SigningConfigModel,
    method: Seq<char>,
    path: Seq<char>,
    query: Option<Seq<char>>,
    ct: Option<Seq<char>>,
    cl: Option<Seq<char>>,
    host: Seq<char>,
    ts: Seq<char>,
) -> Seq<char> {
    let ch = spec_canonical_headers(ct, cl, host, ts);
    let sn = spec_signed_header_names(ct, cl);
    let cr = spec_canonical_request(
        method, spec_canonical_uri(path), spec_canonical_query(query), ch, sn,
    );
    let scope = spec_credential_scope(ts.take(8), cfg.s3_region);
    let sts = spec_string_to_sign(ts, scope, cr);
    let key = spec_signing_key(cfg.s3_account_secret, ts.take(8), cfg.s3_region);
    let signature = hex_of(hmac_sha256_of(key, encode_utf8(sts)));
    "AWS4-HMAC-SHA256 Credential="@ + cfg.s3_account_key + "/"@ + scope
        + ", SignedHeaders="@ + sn + ", Signature="@ + signature
}

/// The replacement header set: the preserved `content-type` and
/// `content-length`, then the signing headers, the host, and last the
/// `authorization` value.
pub open spec fn spec_signed_headers(
    ct: Option<Seq<char>>,
    cl: Option<Seq<char>>,
    ts: Seq<char>,
    host: Seq<char>,
    auth: Seq<char>,
) -> Seq<(Seq<char>, Seq<char>)> {
    (match ct {
        Some(v) => seq![("content-type"@, v)],
        None => Seq::<(Seq<char>, Seq<char>)>::empty(),
    }) + (match cl {
        Some(v) => seq![("content-length"@, v)],
        None => Seq::<(Seq<char>, Seq<char>)>::empty(),
    }) + seq![
        ("x-amz-date"@, ts),
        ("x-amz-content-sha256"@, "UNSIGNED-PAYLOAD"@),
        ("host"@, host),
        ("authorization"@, auth),
    ]
}

/// What signing a request yields, as a function of the request content,
/// the configuration, and the timestamp. Meaningful when the upstream base
/// URL parses, which is what `sign_request` answers.
pub open spec fn spec_sign_request(
    cfg: SigningConfigModel,
    req: crate::rules::RequestModel,
    ts: Seq<char>,
) -> SignedRequestModel {
    let host = url_host_of(cfg.s3_url)->0;
    let ct = header_lookup(req.headers, "content-type"@);
    let cl = header_lookup(req.headers, "content-length"@);
    let auth = spec_authorization_value(cfg, req.method, req.path, req.query, ct, cl, host, ts);
    SignedRequestModel {
        url: spec_upstream_url(cfg.s3_url, req.path, req.query),
        headers: spec_signed_headers(ct, cl, ts, host, auth),
    }
}

fn canonical_headers(
    ct: &Option<String>,
    cl: &Option<String>,
    host: &String,
    ts: &String,
) -> (r: String)
    ensures
        r@ == spec_canonical_headers(ct.deep_view(), cl.deep_view(), host@, ts@),
{
    let mut r = String::new();
    match cl {
        Some(v) => {
            r.append("content-length:");
            r.append(v.as_str());
            r.append("\n");
        },
        None => {},
    }
    match ct {
        Some(v) => {
            r.append("content-type:");
            r.append(v.as_str());
            r.append("\n");
        },
        None => {},
    }
    r.append("host:");
    r.append(host.as_str());
    r.append("\n");
    r.append("x-amz-content-sha256:UNSIGNED-PAYLOAD\n");
    r.append("x-amz-date:");
    r.append(ts.as_str());
    r.append("\n");
    proof {
        assert(r@ =~= spec_canonical_headers(ct.deep_view(), cl.deep_view(), host@, ts@));
    }
    r
}

fn signed_header_names(ct: &Option<String>, cl: &Option<String>) -> (r: String)
    ensures
        r@ == spec_signed_header_names(ct.deep_view(), cl.deep_view()),
{
    let mut r = String::new();
    match cl {
        Some(_) => r.append("content-length;"),
        None => {},
    }
    match ct {
        Some(_) => r.append("content-type;"),
        None => {},
    }
    r.append("host;x-amz-content-sha256;x-amz-date");
    proof {
        assert(r@ =~= spec_signed_header_names(ct.deep_view(), cl.deep_view()));
    }
    r
}

fn canonical_request(
    method: &String,
    cu: &String,
    cq: &String,
    ch: &String,
    sn: &String,
) -> (r: String)
    ensures
        r@ == spec_canonical_request(method@, cu@, cq@, ch@, sn@),
{
    let mut r = String::new();
    r.append(method.as_str());
    r.append("\n");
    r.append(cu.as_str());
    r.append("\n");
    r.append(cq.as_str());
    r.append("\n");
    r.append(ch.as_str());
    r.append("\n");
    r.append(sn.as_str());
    r.append("\n");
    r.append("UNSIGNED-PAYLOAD");
    proof {
        assert(r@ =~= spec_canonical_request(method@, cu@, cq@, ch@, sn@));
    }
    r
}

fn credential_scope(date8: &str, region: &String) -> (r: String)
    ensures
        r@ == spec_credential_scope(date8@, region@),
{
    let mut r = String::from_str(date8);
    r.append("/");
    r.append(region.as_str());
    r.append("/s3/aws4_request");
    proof {
        assert(r@ =~= spec_credential_scope(date8@, region@));
    }
    r
}

fn string_to_sign(ts: &String, scope: &String, cr: &String) -> (r: String)
    ensures
        r@ == spec_string_to_sign(ts@, scope@, cr@),
{
    let cr_digest = sha256(cr.as_str().as_bytes());
    let cr_hash = hex_string(&cr_digest);
    let mut r = String::from_str("AWS4-HMAC-SHA256\n");
    r.append(ts.as_str());
    r.append("\n");
    r.append(scope.as_str());
    r.append("\n");
    r.append(cr_hash.as_str());
    proof {
        assert(r@ =~= spec_string_to_sign(ts@, scope@, cr@));
    }
    r
}

fn signing_key(secret: &String, date8: &str, region: &String) -> (r: Vec<u8>)
    ensures
        r@ == spec_signing_key(secret@, date8@, region@),
{
    let mut k0 = String::from_str("AWS4");
    k0.append(secret.as_str());
    proof {
        assert(k0@ =~= "AWS4"@ + secret@);
    }
    let k1 = hmac_sha256(k0.as_str().as_bytes(), date8.as_bytes());
    let k2 = hmac_sha256(k1.as_slice(), region.as_str().as_bytes());
    let k3 = hmac_sha256(k2.as_slice(), "s3".as_bytes());
    let k4 = hmac_sha256(k3.as_slice(), "aws4_request".as_bytes());
    k4
}

/// Computes the `authorization` value for the given request parts.
fn authorization_value(
    cfg: &SigningConfig,
    method: &String,
    path: &String,
    query: &Option<String>,
    ct: &Option<String>,
    cl: &Option<String>,
    host: &String,
    ts: &String,
) -> (r: String)
    requires
        ts@.len() >= 8,
    ensures
        r@ == spec_authorization_value(
            cfg@, method@, path@, query.deep_view(), ct.deep_view(), cl.deep_view(),
            host@, ts@,
        ),
{
    let ch = canonical_headers(ct, cl, host, ts);
    let sn = signed_header_names(ct, cl);
    let cu = canonical_uri(path);
    let cq = canonical_query(query);
    let cr = canonical_request(method, &cu, &cq, &ch, &sn);
    let date8 = ts.as_str().substring_char(0, 8);
    proof {
        assert(date8@ =~= ts@.take(8));
    }
    let scope = credential_scope(date8, &cfg.s3_region);
    let sts = string_to_sign(ts, &scope, &cr);
    let key = signing_key(&cfg.s3_account_secret, date8, &cfg.s3_region);
    let sig_bytes = hmac_sha256(key.as_slice(), sts.as_str().as_bytes());
    let signature = hex_string(&sig_bytes);
    let mut r = String::from_str("AWS4-HMAC-SHA256 Credential=");
    r.append(cfg.s3_account_key.as_str());
    r.append("/");
    r.append(scope.as_str());
    r.append(", SignedHeaders=");
    r.append(sn.as_str());
    r.append(", Signature=");
    r.append(signature.as_str());
    proof {
        assert(r@ =~= spec_authorization_value(
            cfg@, method@, path@, query.deep_view(), ct.deep_view(), cl.deep_view(),
            host@, ts@,
        ));
    }
    r
}

/// Signs a request: computes the upstream URL and the full replacement
/// header set, `authorization` included. Fails exactly when the configured
/// upstream base URL does not parse; the timestamp is expected in the
/// `YYYYMMDDTHHMMSSZ` shape, whose first eight characters are the date.
pub fn sign_request(
    cfg: &SigningConfig,
    req: &RequestData,
    amz_date: &String,
) -> (r: Result<SignedRequest, SigningError>)
    requires
        amz_date@.len() >= 8,
    ensures
        match r {
            Ok(s) => url_host_of(cfg.s3_url@) is Some
                && s@ == spec_sign_request(cfg@, req@, amz_date@),
            Err(_) => url_host_of(cfg.s3_url@) is None,
        },
{
    let host = match url_host(cfg.s3_url.as_str()) {
        Some(h) => h,
        None => {
            return Err(SigningError::BadUpstreamUrl);
        },
    };
    let url = build_upstream_url(cfg.s3_url.as_str(), req.path.as_str(), &req.query);
    let ctn = String::from_str("content-type");
    let cln = String::from_str("content-length");
    let ct: Option<String> = match lookup_header(&req.headers, &ctn) {
        Some(v) => Some(v.clone()),
        None => None,
    };
    let cl: Option<String> = match lookup_header(&req.headers, &cln) {
        Some(v) => Some(v.clone()),
        None => None,
    };
    proof {
        assert(ct.deep_view() == header_lookup(req@.headers, "content-type"@));
        assert(cl.deep_view() == header_lookup(req@.headers, "content-length"@));
    }
    let auth = authorization_value(
        cfg, &req.method, &req.path, &req.query, &ct, &cl, &host, amz_date,
    );
    let mut headers: Vec<(String, String)> = Vec::new();
    match &ct {
        Some(v) => headers.push((String::from_str("content-type"), v.clone())),
        None => {},
    }
    match &cl {
        Some(v) => headers.push((String::from_str("content-length"), v.clone())),
        None => {},
    }
    headers.push((String::from_str("x-amz-date"), amz_date.clone()));
    headers.push((
        String::from_str("x-amz-content-sha256"),
        String::from_str("UNSIGNED-PAYLOAD"),
    ));
    headers.push((String::from_str("host"), host.clone()));
    headers.push((String::from_str("authorization"), auth));
    let signed = SignedRequest { url, headers };
    proof {
        assert(signed@.headers =~~= spec_sign_request(cfg@, req@, amz_date@).headers);
        assert(signed@ == spec_sign_request(cfg@, req@, amz_date@));
    }
    Ok(signed)
}

/// Timestamps that differ within their first eight characters — the date
/// of the credential scope — yield different `authorization` values for the
/// same request content and configuration, whatever the digests do: the
/// scope stands verbatim in the value.
pub proof fn lemma_distinct_dates_sign_differently(
    cfg: SigningConfigModel,
    method: Seq<char>,
    path: Seq<char>,
    query: Option<Seq<char>>,
    ct: Option<Seq<char>>,
    cl: Option<Seq<char>>,
    host: Seq<char>,
    ts1: Seq<char>,
    ts2: Seq<char>,
)
    requires
        ts1.len() >= 8,
        ts2.len() >= 8,
        ts1.take(8) != ts2.take(8),
    ensures
        spec_authorization_value(cfg, method, path, query, ct, cl, host, ts1)
            != spec_authorization_value(cfg, method, path, query, ct, cl, host, ts2),
{
    let d1 = ts1.take(8);
    let d2 = ts2.take(8);
    assert(exists|d: int| 0 <= d < 8 && d1[d] != d2[d]) by {
        if forall|d: int| 0 <= d < 8 ==> d1[d] == d2[d] {
            assert(d1 =~= d2);
        }
    }
    let d = choose|d: int| 0 <= d < 8 && d1[d] != d2[d];
    let pre = "AWS4-HMAC-SHA256 Credential="@ + cfg.s3_account_key + "/"@;
    let s1 = spec_credential_scope(d1, cfg.s3_region);
    let s2 = spec_credential_scope(d2, cfg.s3_region);
    let i = pre.len() + d;
    assert(s1[d] == d1[d]);
    assert(s2[d] == d2[d]);
    let v1 = spec_authorization_value(cfg, method, path, query, ct, cl, host, ts1);
    let v2 = spec_authorization_value(cfg, method, path, query, ct, cl, host, ts2);
    assert(v1[i as int] == s1[d]);
    assert(v2[i as int] == s2[d]);
    assert(v1 != v2);
}

/// Signing is deterministic: the same request content, configuration and
/// instant always yield the same signed request, `authorization` value
/// included.
pub proof fn lemma_signing_deterministic(
    cfg1: SigningConfigModel,
    cfg2: SigningConfigModel,
    req1: crate::rules::RequestModel,
    req2: crate::rules::RequestModel,
    ts1: Seq<char>,
    ts2: Seq<char>,
)
    requires
        cfg1 == cfg2,
        req1 == req2,
        ts1 == ts2,
    ensures
        spec_sign_request(cfg1, req1, ts1) == spec_sign_request(cfg2, req2, ts2),
{
}

} // verus!
