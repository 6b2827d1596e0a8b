//! The rule language: parsing a line-oriented rule file into authorization
//! rules, and matching a request against them.
//!
//! One line is one rule; its whitespace-separated tokens are, in any order:
//! a path pattern (starting `/`, with a trailing `$` demanding exact
//! equality), a query requirement group (starting `?`, split on `&`), an
//! all-uppercase HTTP method name, or a `name=value` required header.

use vstd::prelude::*;
use vstd::string::*;
use crate::text::spec_split;
use crate::text::spec_ws_tokens;
use crate::text::spec_find;
use crate::text::lemma_ws_tokens_each_nonempty;
use crate::text::lemma_find_characterization;
use crate::text::split_char;
use crate::text::tokenize_ws;
use crate::text::find_char;
use crate::text::contains_string;
use crate::text::str_starts_with;
use crate::text::str_eq;

verus! {

/// The parts of an inbound HTTP request that authorization and signing look
/// at. Header names are expected in lowercase, as an HTTP/1 header map hands
/// them out; required-header names are lowercased during rule parsing to
/// match.
pub struct RequestData {
    pub method: String,
    pub path: String,
    pub query: Option<String>,
    pub headers: Vec<(String, String)>,
}

/// The mathematical model of a request.
pub ghost struct RequestModel {
    pub method: Seq<char>,
    pub path: Seq<char>,
    pub query: Option<Seq<char>>,
    pub headers: Seq<(Seq<char>, Seq<char>)>,
}

impl View for RequestData {
    type V = RequestModel;

    open spec fn view(&self) -> RequestModel {
        RequestModel {
            method: self.method@,
            path: self.path@,
            query: self.query.deep_view(),
            headers: self.headers.deep_view(),
        }
    }
}

/// One authorization rule, as parsed from one line of the rule file.
#[derive(Debug)]
pub struct Rule {
    pub methods: Vec<String>,
    pub paths: Vec<String>,
    pub headers: Vec<(String, String)>,
    pub query: Vec<Vec<String>>,
}

/// The mathematical model of a rule.
pub ghost struct RuleModel {
    pub methods: Seq<Seq<char>>,
    pub paths: Seq<Seq<char>>,
    pub headers: Seq<(Seq<char>, Seq<char>)>,
    pub query: Seq<Seq<Seq<char>>>,
}

impl View for Rule {
    type V = RuleModel;

    open spec fn view(&self) -> RuleModel {
        RuleModel {
            methods: self.methods.deep_view(),
            paths: self.paths.deep_view(),
            headers: self.headers.deep_view(),
            query: self.query.deep_view(),
        }
    }
}

impl DeepView for Rule {
    type V = RuleModel;

    open spec fn deep_view(&self) -> RuleModel {
        self.view()
    }
}

pub open spec fn empty_rule_model() -> RuleModel {
    RuleModel {
        methods: Seq::empty(),
        paths: Seq::empty(),
        headers: Seq::empty(),
        query: Seq::empty(),
    }
}

// ---------------------------------------------------------------------------
// Token classification
// ---------------------------------------------------------------------------

pub open spec fn is_upper(c: char) -> bool {
    'A' <= c && c <= 'Z'
}

pub open spec fn is_all_upper(t: Seq<char>) -> bool {
    forall|i: int| 0 <= i < t.len() ==> is_upper(t[i])
}

/// The HTTP method names a rule may list.
pub open spec fn is_known_method(t: Seq<char>) -> bool {
    ||| t == "GET"@
    ||| t == "HEAD"@
    ||| t == "POST"@
    ||| t == "PUT"@
    ||| t == "DELETE"@
    ||| t == "CONNECT"@
    ||| t == "OPTIONS"@
    ||| t == "TRACE"@
    ||| t == "PATCH"@
}

/// The characters `http` accepts in a header name (HTTP/1 table):
/// the token characters, with ASCII uppercase admitted and normalized.
pub open spec fn is_header_name_char(c: char) -> bool {
    ||| c == '!'
    ||| c == '"'
    ||| c == '#'
    ||| c == '$'
    ||| c == '%'
    ||| c == '&'
    ||| c == '\''
    ||| c == '*'
    ||| c == '+'
    ||| c == '-'
    ||| c == '.'
    ||| c == '^'
    ||| c == '_'
    ||| c == '`'
    ||| c == '|'
    ||| c == '~'
    ||| ('0' <= c && c <= '9')
    ||| ('a' <= c && c <= 'z')
    ||| is_upper(c)
}

/// A header name `http::header::HeaderName::from_str` accepts: 1 to 65535
/// characters, each from the header-name alphabet.
pub open spec fn is_valid_header_name(s: Seq<char>) -> bool {
    1 <= s.len() <= 65535 && forall|i: int| 0 <= i < s.len() ==> is_header_name_char(s[i])
}

pub open spec fn lower_char(c: char) -> char {
    if c == 'A' { 'a' } else if c == 'B' { 'b' } else if c == 'C' { 'c' }
    else if c == 'D' { 'd' } else if c == 'E' { 'e' } else if c == 'F' { 'f' }
    else if c == 'G' { 'g' } else if c == 'H' { 'h' } else if c == 'I' { 'i' }
    else if c == 'J' { 'j' } else if c == 'K' { 'k' } else if c == 'L' { 'l' }
    else if c == 'M' { 'm' } else if c == 'N' { 'n' } else if c == 'O' { 'o' }
    else if c == 'P' { 'p' } else if c == 'Q' { 'q' } else if c == 'R' { 'r' }
    else if c == 'S' { 's' } else if c == 'T' { 't' } else if c == 'U' { 'u' }
    else if c == 'V' { 'v' } else if c == 'W' { 'w' } else if c == 'X' { 'x' }
    else if c == 'Y' { 'y' } else if c == 'Z' { 'z' } else { c }
}

/// ASCII lowercasing, character by character.
pub open spec fn lower_seq(s: Seq<char>) -> Seq<char> {
    Seq::new(s.len(), |i: int| lower_char(s[i]))
}

/// A header value `http::header::HeaderValue::from_str` accepts: every byte
/// at least 32 and not 127, or a tab; on a UTF-8 string that is a test on
/// each character.
pub open spec fn is_valid_header_value_char(c: char) -> bool {
    c == '\t' || (32 <= c as u32 && c as u32 != 127)
}

pub open spec fn is_valid_header_value(s: Seq<char>) -> bool {
    forall|i: int| 0 <= i < s.len() ==> is_valid_header_value_char(s[i])
}

// ---------------------------------------------------------------------------
// Trusted views of the outside crates' parsers
// ---------------------------------------------------------------------------

/// What `urlencoding::decode` yields: `None` stands for its `Err`, raised
/// only on percent-sequences that decode to bytes that are not UTF-8.
pub uninterp spec fn url_decoded(s: Seq<char>) -> Option<Seq<char>>;

/// Relies on `urlencoding::decode`: percent-decodes `%XX` sequences, leaves
/// everything else as it stands, and fails only when the decoded bytes are
/// not valid UTF-8. The result depends on the input characters alone.
#[verifier::external_body]
pub fn decode_url(s: &str) -> (r: Option<String>)
    ensures
        match r {
            Some(d) => url_decoded(s@) == Some(d@),
            None => url_decoded(s@) is None,
        },
{
    urlencoding::decode(s).ok().map(|c| c.into_owned())
}

/// Relies on `http::header::HeaderName::from_str`, which accepts exactly the
/// names of 1 to 65535 characters from its HTTP/1 table, and on
/// `HeaderName::as_str`, which hands the accepted name back with ASCII
/// uppercase mapped to lowercase.
#[verifier::external_body]
pub fn parse_header_name(s: &str) -> (r: Option<String>)
    ensures
        r is Some <==> is_valid_header_name(s@),
        match r {
            Some(n) => n@ == lower_seq(s@),
            None => true,
        },
{
    match <http::header::HeaderName as core::str::FromStr>::from_str(s) {
        Ok(name) => Some(String::from(name.as_str())),
        Err(_) => None,
    }
}

/// Relies on `http::header::HeaderValue::from_str`, which accepts exactly the
/// strings whose bytes are all at least 32 and not 127, or tab.
#[verifier::external_body]
pub fn check_header_value(s: &str) -> (r: bool)
    ensures
        r == is_valid_header_value(s@),
{
    http::header::HeaderValue::from_str(s).is_ok()
}

// ---------------------------------------------------------------------------
// Parsing
// ---------------------------------------------------------------------------

/// Replaces the value of the first pair named `n`, or appends the pair:
/// what `HeaderMap::insert` does to the set of required headers.
pub open spec fn spec_upsert(
    hs: Seq<(Seq<char>, Seq<char>)>,
    n: Seq<char>,
    v: Seq<char>,
) -> Seq<(Seq<char>, Seq<char>)>
    decreases hs.len(),
{
    if hs.len() == 0 {
        seq![(n, v)]
    } else if hs[0].0 == n {
        seq![(n, v)] + hs.drop_first()
    } else {
        seq![hs[0]] + spec_upsert(hs.drop_first(), n, v)
    }
}

proof fn lemma_upsert_at(hs: Seq<(Seq<char>, Seq<char>)>, n: Seq<char>, v: Seq<char>, j: int)
    requires
        0 <= j < hs.len(),
        hs[j].0 == n,
        forall|k: int| 0 <= k < j ==> hs[k].0 != n,
    ensures
        spec_upsert(hs, n, v) =~= hs.update(j, (n, v)),
    decreases j,
{
    if j == 0 {
        assert(spec_upsert(hs, n, v) =~= hs.update(0, (n, v)));
    } else {
        assert forall|k: int| 0 <= k < j - 1 implies hs.drop_first()[k].0 != n by {
            assert(hs.drop_first()[k] == hs[k + 1]);
        }
        assert(hs.drop_first()[j - 1] == hs[j]);
        lemma_upsert_at(hs.drop_first(), n, v, j - 1);
        assert(spec_upsert(hs, n, v) =~= hs.update(j, (n, v)));
    }
}

proof fn lemma_upsert_missing(hs: Seq<(Seq<char>, Seq<char>)>, n: Seq<char>, v: Seq<char>)
    requires
        forall|k: int| 0 <= k < hs.len() ==> hs[k].0 != n,
    ensures
        spec_upsert(hs, n, v) =~= hs.push((n, v)),
    decreases hs.len(),
{
    if hs.len() > 0 {
        assert forall|k: int| 0 <= k < hs.drop_first().len()
            implies hs.drop_first()[k].0 != n by {
            assert(hs.drop_first()[k] == hs[k + 1]);
        }
        lemma_upsert_missing(hs.drop_first(), n, v);
        assert(spec_upsert(hs, n, v) =~= hs.push((n, v)));
    }
}

/// Splitting a token at its first `=`, as `str::split_once` does.
pub open spec fn spec_split_once_eq(t: Seq<char>) -> Option<(Seq<char>, Seq<char>)> {
    match spec_find(t, '=') {
        Some(j) => Some((t.take(j), t.skip(j + 1))),
        None => None,
    }
}

/// How one token extends a rule under construction; `None` is a parse error.
pub open spec fn spec_apply_token(m: RuleModel, t: Seq<char>) -> Option<RuleModel> {
    if t.len() > 0 && t[0] == '/' {
        Some(RuleModel { paths: m.paths.push(t), methods: m.methods, headers: m.headers, query: m.query })
    } else if t.len() > 0 && t[0] == '?' {
        Some(RuleModel {
            query: m.query.push(spec_split(t.drop_first(), '&')),
            methods: m.methods,
            paths: m.paths,
            headers: m.headers,
        })
    } else if is_all_upper(t) {
        if is_known_method(t) {
            Some(RuleModel { methods: m.methods.push(t), paths: m.paths, headers: m.headers, query: m.query })
        } else {
            None
        }
    } else {
        match spec_split_once_eq(t) {
            Some(nv) => if is_valid_header_name(nv.0) && is_valid_header_value(nv.1) {
                Some(RuleModel {
                    headers: spec_upsert(m.headers, lower_seq(nv.0), nv.1),
                    methods: m.methods,
                    paths: m.paths,
                    query: m.query,
                })
            } else {
                None
            },
            None => None,
        }
    }
}

pub open spec fn spec_parse_tokens(m: RuleModel, ts: Seq<Seq<char>>) -> Option<RuleModel>
    decreases ts.len(),
{
    if ts.len() == 0 {
        Some(m)
    } else {
        match spec_apply_token(m, ts[0]) {
            Some(m2) => spec_parse_tokens(m2, ts.drop_first()),
            None => None,
        }
    }
}

/// The rule one line denotes, or `None` when some token is malformed.
pub open spec fn spec_parse_line(line: Seq<char>) -> Option<RuleModel> {
    spec_parse_tokens(empty_rule_model(), spec_ws_tokens(line))
}

/// The rule sequence a file's lines denote; `None` when any line fails.
pub open spec fn spec_parse_rules(lines: Seq<Seq<char>>) -> Option<Seq<RuleModel>>
    decreases lines.len(),
{
    if lines.len() == 0 {
        Some(Seq::empty())
    } else {
        match (spec_parse_rules(lines.drop_last()), spec_parse_line(lines.last())) {
            (Some(rs), Some(r)) => Some(rs.push(r)),
            _ => None,
        }
    }
}

proof fn lemma_bad_line_rejects_all(lines: Seq<Seq<char>>, i: int)
    requires
        0 <= i < lines.len(),
        spec_parse_line(lines[i]) is None,
    ensures
        spec_parse_rules(lines) is None,
    decreases lines.len(),
{
    if i < lines.len() - 1 {
        assert(lines.drop_last()[i] == lines[i]);
        lemma_bad_line_rejects_all(lines.drop_last(), i);
    }
}

/// A malformed rule line: its index, counting from zero.
#[derive(Debug)]
pub struct RuleParseError {
    pub line: usize,
}

fn is_all_upper_exec(t: &str) -> (r: bool)
    ensures
        r == is_all_upper(t@),
{
    let n = t.unicode_len();
    let mut j: usize = 0;
    while j < n
        invariant
            j <= n,
            n == t@.len(),
            forall|k: int| 0 <= k < j ==> is_upper(t@[k]),
        decreases n - j,
    {
        let c = t.get_char(j);
        if !('A' <= c && c <= 'Z') {
            return false;
        }
        j = j + 1;
    }
    true
}

fn is_known_method_exec(t: &str) -> (r: bool)
    ensures
        r == is_known_method(t@),
{
    str_eq(t, "GET") || str_eq(t, "HEAD") || str_eq(t, "POST") || str_eq(t, "PUT")
        || str_eq(t, "DELETE") || str_eq(t, "CONNECT") || str_eq(t, "OPTIONS")
        || str_eq(t, "TRACE") || str_eq(t, "PATCH")
}

/// Inserts a required header, replacing the value of an existing name.
fn upsert_header(hs: &mut Vec<(String, String)>, n: String, v: String)
    ensures
        final(hs).deep_view() == spec_upsert(old(hs).deep_view(), n@, v@),
{
    let ghost dv = hs.deep_view();
    let mut j: usize = 0;
    while j < hs.len()
        invariant
            j <= hs.len(),
            dv == hs.deep_view(),
            dv == old(hs).deep_view(),
            forall|k: int| 0 <= k < j ==> hs.deep_view()[k].0 != n@,
        decreases hs.len() - j,
    {
        proof {
            assert(hs.deep_view()[j as int] == (hs@[j as int].0@, hs@[j as int].1@));
        }
        if str_eq(hs[j].0.as_str(), n.as_str()) {
            let ghost nn = n@;
            let ghost vv = v@;
            proof {
                lemma_upsert_at(dv, nn, vv, j as int);
            }
            hs.set(j, (n, v));
            proof {
                assert(hs.deep_view() =~~= dv.update(j as int, (nn, vv)));
                assert(dv == old(hs).deep_view());
                assert(hs.deep_view() == spec_upsert(old(hs).deep_view(), nn, vv));
            }
            return;
        }
        j = j + 1;
    }
    proof {
        lemma_upsert_missing(dv, n@, v@);
    }
    hs.push((n, v));
    proof {
        assert(hs.deep_view() =~~= dv.push((n@, v@)));
    }
}

/// Folds one token into the rule; `false` reports a malformed token, and
/// leaves the rule as it stood.
fn apply_token(rule: &mut Rule, t: &String) -> (ok: bool)
    requires
        t@.len() > 0,
    ensures
        match spec_apply_token(old(rule)@, t@) {
            Some(m) => ok && final(rule)@ == m,
            None => !ok && final(rule)@ == old(rule)@,
        },
{
    let ts = t.as_str();
    let n = ts.unicode_len();
    let c0 = ts.get_char(0);
    if c0 == '/' {
        rule.paths.push(t.clone());
        proof {
            assert(rule@.paths =~~= old(rule)@.paths.push(t@));
        }
        true
    } else if c0 == '?' {
        let tail = ts.substring_char(1, n);
        proof {
            assert(tail@ =~= t@.drop_first());
        }
        let group = split_char(tail, '&');
        rule.query.push(group);
        proof {
            assert(rule@.query =~~= old(rule)@.query.push(spec_split(t@.drop_first(), '&')));
        }
        true
    } else if is_all_upper_exec(ts) {
        if is_known_method_exec(ts) {
            rule.methods.push(t.clone());
            proof {
                assert(rule@.methods =~~= old(rule)@.methods.push(t@));
            }
            true
        } else {
            false
        }
    } else {
        match find_char(t, '=') {
            Some(j) => {
                proof {
                    lemma_find_characterization(t@, '=');
                }
                let name_part = ts.substring_char(0, j);
                let value_part = ts.substring_char(j + 1, n);
                proof {
                    assert(name_part@ =~= t@.take(j as int));
                    assert(value_part@ =~= t@.skip(j + 1));
                }
                match parse_header_name(name_part) {
                    Some(lowered) => {
                        if check_header_value(value_part) {
                            let value = String::from_str(value_part);
                            upsert_header(&mut rule.headers, lowered, value);
                            true
                        } else {
                            false
                        }
                    },
                    None => false,
                }
            },
            None => false,
        }
    }
}

/// Parses one line of the rule file, or reports it malformed.
pub fn parse_rule_line(line: &String) -> (r: Option<Rule>)
    ensures
        match r {
            Some(rule) => spec_parse_line(line@) == Some(rule@),
            None => spec_parse_line(line@) is None,
        },
{
    let tokens = tokenize_ws(line.as_str());
    let mut rule = Rule { methods: Vec::new(), paths: Vec::new(), headers: Vec::new(), query: Vec::new() };
    proof {
        assert(rule@.methods =~~= empty_rule_model().methods);
        assert(rule@.paths =~~= empty_rule_model().paths);
        assert(rule@.headers =~~= empty_rule_model().headers);
        assert(rule@.query =~~= empty_rule_model().query);
        assert(tokens.deep_view().skip(0) =~= tokens.deep_view());
    }
    let mut j: usize = 0;
    while j < tokens.len()
        invariant
            j <= tokens.len(),
            tokens.deep_view() == spec_ws_tokens(line@),
            spec_parse_line(line@) == spec_parse_tokens(rule@, tokens.deep_view().skip(j as int)),
        decreases tokens.len() - j,
    {
        let ghost ts = tokens.deep_view();
        proof {
            assert(ts.skip(j as int)[0] == ts[j as int]);
            assert(ts.skip(j as int).drop_first() =~= ts.skip(j + 1));
            assert(ts[j as int] == tokens@[j as int]@);
            lemma_ws_tokens_each_nonempty(line@, j as int);
        }
        let ok = apply_token(&mut rule, &tokens[j]);
        if !ok {
            return None;
        }
        j = j + 1;
    }
    proof {
        assert(tokens.deep_view().skip(tokens@.len() as int) =~= Seq::<Seq<char>>::empty());
    }
    Some(rule)
}

/// Parses a whole rule file, given as its lines. Parsing is atomic: the
/// first malformed line rejects the load, and no partial rule set comes out.
pub fn parse_rules(lines: &Vec<String>) -> (r: Result<Vec<Rule>, RuleParseError>)
    ensures
        match r {
            Ok(rules) => spec_parse_rules(lines.deep_view()) == Some(rules.deep_view()),
            Err(e) => spec_parse_rules(lines.deep_view()) is None
                && e.line < lines@.len()
                && spec_parse_line(lines.deep_view()[e.line as int]) is None
                && forall|k: int| 0 <= k < e.line
                    ==> spec_parse_line(lines.deep_view()[k]) is Some,
        },
{
    let mut rules: Vec<Rule> = Vec::new();
    proof {
        assert(lines.deep_view().take(0) =~= Seq::<Seq<char>>::empty());
        assert(rules.deep_view() =~~= Seq::<RuleModel>::empty());
    }
    let mut i: usize = 0;
    while i < lines.len()
        invariant
            i <= lines.len(),
            spec_parse_rules(lines.deep_view().take(i as int)) == Some(rules.deep_view()),
            forall|k: int| 0 <= k < i ==> spec_parse_line(lines.deep_view()[k]) is Some,
        decreases lines.len() - i,
    {
        let ghost lv = lines.deep_view();
        proof {
            assert(lv.take(i + 1).drop_last() =~= lv.take(i as int));
            assert(lv.take(i + 1).last() == lv[i as int]);
            assert(lv[i as int] == lines@[i as int]@);
        }
        let ghost old_rules = rules.deep_view();
        match parse_rule_line(&lines[i]) {
            Some(rule) => {
                rules.push(rule);
                proof {
                    assert(rules.deep_view() =~~= old_rules.push(rule@));
                }
            },
            None => {
                proof {
                    lemma_bad_line_rejects_all(lv, i as int);
                }
                return Err(RuleParseError { line: i });
            },
        }
        i = i + 1;
    }
    proof {
        assert(lines.deep_view().take(lines@.len() as int) =~= lines.deep_view());
    }
    Ok(rules)
}

// ---------------------------------------------------------------------------
// Matching
// ---------------------------------------------------------------------------

/// A pattern ending in `$` demands the exact path (without the `$`); any
/// other pattern is a prefix requirement.
pub open spec fn path_pattern_matches(pat: Seq<char>, path: Seq<char>) -> bool {
    if pat.len() > 0 && pat.last() == '$' {
        path == pat.drop_last()
    } else {
        pat.is_prefix_of(path)
    }
}

/// The value of the first header named `name`, as `HeaderMap::get` yields it.
pub open spec fn header_lookup(
    hs: Seq<(Seq<char>, Seq<char>)>,
    name: Seq<char>,
) -> Option<Seq<char>>
    decreases hs.len(),
{
    if hs.len() == 0 {
        None
    } else if hs[0].0 == name {
        Some(hs[0].1)
    } else {
        header_lookup(hs.drop_first(), name)
    }
}

/// Every required header is present with exactly its required value.
pub open spec fn headers_match(
    required: Seq<(Seq<char>, Seq<char>)>,
    have: Seq<(Seq<char>, Seq<char>)>,
) -> bool {
    forall|i: int| 0 <= i < required.len()
        ==> header_lookup(have, required[i].0) == Some(required[i].1)
}

/// Every token of the group occurs among the request's query parameters.
pub open spec fn group_matches(group: Seq<Seq<char>>, params: Seq<Seq<char>>) -> bool {
    forall|i: int| 0 <= i < group.len() ==> params.contains(group[i])
}

/// The query requirement holds when no group is given, or when the query
/// string decodes and some group's tokens all occur among its `&`-separated
/// parameters.
pub open spec fn query_requirement_matches(
    groups: Seq<Seq<Seq<char>>>,
    query: Option<Seq<char>>,
) -> bool {
    groups.len() == 0 || {
        match query {
            None => false,
            Some(q) => match url_decoded(q) {
                None => false,
                Some(d) => exists|i: int| 0 <= i < groups.len()
                    && group_matches(groups[i], spec_split(d, '&')),
            },
        }
    }
}

/// A rule matches a request iff the method is listed, some path pattern
/// matches, all required headers match, and the query requirement holds.
pub open spec fn rule_matches(rule: RuleModel, req: RequestModel) -> bool {
    &&& rule.methods.contains(req.method)
    &&& exists|i: int| 0 <= i < rule.paths.len() && path_pattern_matches(rule.paths[i], req.path)
    &&& headers_match(rule.headers, req.headers)
    &&& query_requirement_matches(rule.query, req.query)
}

proof fn lemma_header_lookup_at(hs: Seq<(Seq<char>, Seq<char>)>, name: Seq<char>, j: int)
    requires
        0 <= j < hs.len(),
        hs[j].0 == name,
        forall|k: int| 0 <= k < j ==> hs[k].0 != name,
    ensures
        header_lookup(hs, name) == Some(hs[j].1),
    decreases j,
{
    if j > 0 {
        assert forall|k: int| 0 <= k < j - 1 implies hs.drop_first()[k].0 != name by {
            assert(hs.drop_first()[k] == hs[k + 1]);
        }
        assert(hs.drop_first()[j - 1] == hs[j]);
        lemma_header_lookup_at(hs.drop_first(), name, j - 1);
    }
}

proof fn lemma_header_lookup_none(hs: Seq<(Seq<char>, Seq<char>)>, name: Seq<char>)
    requires
        forall|k: int| 0 <= k < hs.len() ==> hs[k].0 != name,
    ensures
        header_lookup(hs, name) is None,
    decreases hs.len(),
{
    if hs.len() > 0 {
        assert forall|k: int| 0 <= k < hs.drop_first().len()
            implies hs.drop_first()[k].0 != name by {
            assert(hs.drop_first()[k] == hs[k + 1]);
        }
        lemma_header_lookup_none(hs.drop_first(), name);
    }
}

fn path_pattern_match_exec(pat: &String, path: &String) -> (r: bool)
    ensures
        r == path_pattern_matches(pat@, path@),
{
    let ps = pat.as_str();
    let n = ps.unicode_len();
    if n > 0 && ps.get_char(n - 1) == '$' {
        let stem = ps.substring_char(0, n - 1);
        proof {
            assert(stem@ =~= pat@.drop_last());
        }
        str_eq(path.as_str(), stem)
    } else {
        str_starts_with(path, pat)
    }
}

fn match_paths(paths: &Vec<String>, path: &String) -> (r: bool)
    ensures
        r == exists|i: int| 0 <= i < paths.deep_view().len()
            && path_pattern_matches(paths.deep_view()[i], path@),
{
    let mut j: usize = 0;
    while j < paths.len()
        invariant
            j <= paths.len(),
            forall|k: int| 0 <= k < j ==> !path_pattern_matches(paths.deep_view()[k], path@),
        decreases paths.len() - j,
    {
        proof {
            assert(paths.deep_view()[j as int] == paths@[j as int]@);
        }
        if path_pattern_match_exec(&paths[j], path) {
            return true;
        }
        j = j + 1;
    }
    false
}

/// The value of the first header named `name@`, if any.
pub fn lookup_header<'a>(hs: &'a Vec<(String, String)>, name: &String) -> (r: Option<&'a String>)
    ensures
        match r {
            Some(v) => header_lookup(hs.deep_view(), name@) == Some(v@),
            None => header_lookup(hs.deep_view(), name@) is None,
        },
{
    let mut j: usize = 0;
    while j < hs.len()
        invariant
            j <= hs.len(),
            forall|k: int| 0 <= k < j ==> hs.deep_view()[k].0 != name@,
        decreases hs.len() - j,
    {
        proof {
            assert(hs.deep_view()[j as int] == (hs@[j as int].0@, hs@[j as int].1@));
        }
        if str_eq(hs[j].0.as_str(), name.as_str()) {
            proof {
                lemma_header_lookup_at(hs.deep_view(), name@, j as int);
            }
            return Some(&hs[j].1);
        }
        j = j + 1;
    }
    proof {
        lemma_header_lookup_none(hs.deep_view(), name@);
    }
    None
}

fn headers_all_match(required: &Vec<(String, String)>, have: &Vec<(String, String)>) -> (r: bool)
    ensures
        r == headers_match(required.deep_view(), have.deep_view()),
{
    let mut j: usize = 0;
    while j < required.len()
        invariant
            j <= required.len(),
            forall|k: int| 0 <= k < j
                ==> header_lookup(have.deep_view(), required.deep_view()[k].0)
                    == Some(required.deep_view()[k].1),
        decreases required.len() - j,
    {
        proof {
            assert(required.deep_view()[j as int]
                == (required@[j as int].0@, required@[j as int].1@));
        }
        match lookup_header(have, &required[j].0) {
            Some(v) => {
                if !str_eq(v.as_str(), required[j].1.as_str()) {
                    return false;
                }
            },
            None => {
                return false;
            },
        }
        j = j + 1;
    }
    true
}

fn group_all_present(group: &Vec<String>, params: &Vec<String>) -> (r: bool)
    ensures
        r == group_matches(group.deep_view(), params.deep_view()),
{
    let mut j: usize = 0;
    while j < group.len()
        invariant
            j <= group.len(),
            forall|k: int| 0 <= k < j ==> params.deep_view().contains(group.deep_view()[k]),
        decreases group.len() - j,
    {
        proof {
            assert(group.deep_view()[j as int] == group@[j as int]@);
        }
        if !contains_string(params, &group[j]) {
            return false;
        }
        j = j + 1;
    }
    true
}

fn query_groups_match(groups: &Vec<Vec<String>>, query: &Option<String>) -> (r: bool)
    ensures
        r == query_requirement_matches(groups.deep_view(), query.deep_view()),
{
    if groups.len() == 0 {
        return true;
    }
    match query {
        None => false,
        Some(q) => {
            match decode_url(q.as_str()) {
                None => false,
                Some(d) => {
                    let params = split_char(d.as_str(), '&');
                    let mut j: usize = 0;
                    while j < groups.len()
                        invariant
                            j <= groups.len(),
                            query.deep_view() == Some(q@),
                            params.deep_view() == spec_split(d@, '&'),
                            url_decoded(q@) == Some(d@),
                            forall|k: int| 0 <= k < j
                                ==> !group_matches(groups.deep_view()[k], params.deep_view()),
                        decreases groups.len() - j,
                    {
                        proof {
                            assert(groups.deep_view()[j as int] == groups@[j as int].deep_view());
                        }
                        if group_all_present(&groups[j], &params) {
                            proof {
                                assert(query.deep_view() == Some(q@));
                                assert(group_matches(
                                    groups.deep_view()[j as int],
                                    spec_split(d@, '&'),
                                ));
                            }
                            return true;
                        }
                        j = j + 1;
                    }
                    false
                },
            }
        },
    }
}

impl Rule {
    /// Whether this rule authorizes the request.
    pub fn check(&self, req: &RequestData) -> (r: bool)
        ensures
            r == rule_matches(self@, req@),
    {
        contains_string(&self.methods, &req.method)
            && match_paths(&self.paths, &req.path)
            && headers_all_match(&self.headers, &req.headers)
            && query_groups_match(&self.query, &req.query)
    }
}

// ---------------------------------------------------------------------------
// Laws of matching and parsing
// ---------------------------------------------------------------------------

/// A `$`-anchored pattern matches only the exact path; with the anchor
/// removed (and no second anchor left), the same pattern also matches every
/// path that extends that prefix.
pub proof fn lemma_exact_anchor(pat: Seq<char>, path: Seq<char>)
    requires
        pat.len() > 0,
        pat.last() == '$',
    ensures
        path_pattern_matches(pat, path) <==> path == pat.drop_last(),
        (pat.drop_last().len() == 0 || pat.drop_last().last() != '$')
            && pat.drop_last().is_prefix_of(path)
            ==> path_pattern_matches(pat.drop_last(), path),
{
}

/// A rule with a required header that the request lacks, or carries with a
/// different value, never matches, whatever the method, path and query say.
pub proof fn lemma_missing_header_denies(rule: RuleModel, req: RequestModel, i: int)
    requires
        0 <= i < rule.headers.len(),
        header_lookup(req.headers, rule.headers[i].0) != Some(rule.headers[i].1),
    ensures
        !rule_matches(rule, req),
{
}

/// Query parameters beyond the ones a group requires never prevent a match:
/// a group that matched still matches with more parameters present.
pub proof fn lemma_extra_params_keep_match(
    group: Seq<Seq<char>>,
    params: Seq<Seq<char>>,
    wider: Seq<Seq<char>>,
)
    requires
        group_matches(group, params),
        forall|t: Seq<char>| params.contains(t) ==> wider.contains(t),
    ensures
        group_matches(group, wider),
{
    assert forall|i: int| 0 <= i < group.len() implies wider.contains(group[i]) by {
        assert(params.contains(group[i]));
    }
}

/// Parsing is a pure function of the lines: parsing the same lines twice
/// yields structurally identical rule sequences.
pub proof fn lemma_parse_deterministic(lines1: Seq<Seq<char>>, lines2: Seq<Seq<char>>)
    requires
        lines1 == lines2,
    ensures
        spec_parse_rules(lines1) == spec_parse_rules(lines2),
{
}

} // verus!
