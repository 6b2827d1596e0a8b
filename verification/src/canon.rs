//! SigV4 canonicalization of the request target: percent-normalization
//! over the unreserved alphabet, the URI-encoded canonical path, and the
//! canonical query string — parameters split at the first `=`, encoded,
//! sorted by name then value, and rejoined.

use vstd::prelude::*;
use vstd::string::*;
use vstd::utf8::encode_utf8;
use crate::text::spec_split;
use crate::text::spec_find;
use crate::text::split_char;
use crate::text::find_char;
use crate::text::lemma_find_characterization;
use crate::text::str_eq;

verus! {

/// The unreserved URI characters, which stay as they are.
pub open spec fn is_unreserved(c: char) -> bool {
    ||| ('A' <= c && c <= 'Z')
    ||| ('a' <= c && c <= 'z')
    ||| ('0' <= c && c <= '9')
    ||| c == '-'
    ||| c == '.'
    ||| c == '_'
    ||| c == '~'
}

pub open spec fn is_hex_char(c: char) -> bool {
    ('0' <= c && c <= '9') || ('a' <= c && c <= 'f') || ('A' <= c && c <= 'F')
}

/// Uppercases the six lowercase hexadecimal digits; other characters stand.
pub open spec fn upper_hex_char(c: char) -> char {
    if c == 'a' { 'A' } else if c == 'b' { 'B' } else if c == 'c' { 'C' }
    else if c == 'd' { 'D' } else if c == 'e' { 'E' } else if c == 'f' { 'F' }
    else { c }
}

/// The uppercase hexadecimal digit for a value below 16.
pub open spec fn uhex_digit(n: u8) -> char {
    if n == 0 { '0' } else if n == 1 { '1' } else if n == 2 { '2' }
    else if n == 3 { '3' } else if n == 4 { '4' } else if n == 5 { '5' }
    else if n == 6 { '6' } else if n == 7 { '7' } else if n == 8 { '8' }
    else if n == 9 { '9' } else if n == 10 { 'A' } else if n == 11 { 'B' }
    else if n == 12 { 'C' } else if n == 13 { 'D' } else if n == 14 { 'E' }
    else { 'F' }
}

/// One byte as `%HH`, uppercase.
pub open spec fn percent_byte(b: u8) -> Seq<char> {
    seq!['%', uhex_digit(b / 16), uhex_digit(b % 16)]
}

/// A byte string as a run of `%HH` triplets.
pub open spec fn percent_bytes(bs: Seq<u8>) -> Seq<char>
    decreases bs.len(),
{
    if bs.len() == 0 {
        Seq::empty()
    } else {
        percent_bytes(bs.drop_last()) + percent_byte(bs.last())
    }
}

fn upper_nibble_str(n: u8) -> (r: &'static str)
    requires
        n < 16,
    ensures
        r@ == seq![uhex_digit(n)],
{
    proof {
        reveal_strlit("0");
        reveal_strlit("1");
        reveal_strlit("2");
        reveal_strlit("3");
        reveal_strlit("4");
        reveal_strlit("5");
        reveal_strlit("6");
        reveal_strlit("7");
        reveal_strlit("8");
        reveal_strlit("9");
        reveal_strlit("A");
        reveal_strlit("B");
        reveal_strlit("C");
        reveal_strlit("D");
        reveal_strlit("E");
        reveal_strlit("F");
    }
    let r: &'static str = if n == 0 { "0" } else if n == 1 { "1" } else if n == 2 { "2" }
    else if n == 3 { "3" } else if n == 4 { "4" } else if n == 5 { "5" }
    else if n == 6 { "6" } else if n == 7 { "7" } else if n == 8 { "8" }
    else if n == 9 { "9" } else if n == 10 { "A" } else if n == 11 { "B" }
    else if n == 12 { "C" } else if n == 13 { "D" } else if n == 14 { "E" }
    else { "F" };
    proof {
        assert(r@ =~= seq![uhex_digit(n)]);
    }
    r
}

/// Percent-encodes bytes as uppercase `%HH` triplets.
fn percent_string(bytes: &[u8]) -> (r: String)
    ensures
        r@ == percent_bytes(bytes@),
{
    let mut r = String::new();
    proof {
        assert(bytes@.take(0) =~= Seq::<u8>::empty());
        assert(r@ =~= percent_bytes(bytes@.take(0)));
    }
    let mut i: usize = 0;
    while i < bytes.len()
        invariant
            i <= bytes.len(),
            r@ == percent_bytes(bytes@.take(i as int)),
        decreases bytes.len() - i,
    {
        let b = bytes[i];
        r.append("%");
        r.append(upper_nibble_str(b / 16));
        r.append(upper_nibble_str(b % 16));
        proof {
            reveal_strlit("%");
            assert(bytes@.take(i + 1).drop_last() =~= bytes@.take(i as int));
            assert(bytes@.take(i + 1).last() == bytes@[i as int]);
            assert(r@ =~= percent_bytes(bytes@.take(i + 1)));
        }
        i = i + 1;
    }
    proof {
        assert(bytes@.take(bytes@.len() as int) =~= bytes@);
    }
    r
}

/// Percent-normalization: unreserved characters (and `/` when kept) stand;
/// a well-formed `%HH` triplet stands with its digits uppercased; every
/// other character is encoded as the `%HH` triplets of its UTF-8 bytes.
pub open spec fn spec_percent_normalize(s: Seq<char>, keep_slash: bool) -> Seq<char>
    decreases s.len(),
{
    if s.len() == 0 {
        Seq::empty()
    } else if is_unreserved(s[0]) || (keep_slash && s[0] == '/') {
        seq![s[0]] + spec_percent_normalize(s.skip(1), keep_slash)
    } else if s[0] == '%' && s.len() >= 3 && is_hex_char(s[1]) && is_hex_char(s[2]) {
        seq!['%', upper_hex_char(s[1]), upper_hex_char(s[2])]
            + spec_percent_normalize(s.skip(3), keep_slash)
    } else {
        percent_bytes(encode_utf8(seq![s[0]])) + spec_percent_normalize(s.skip(1), keep_slash)
    }
}

fn is_unreserved_exec(c: char) -> (r: bool)
    ensures
        r == is_unreserved(c),
{
    ('A' <= c && c <= 'Z') || ('a' <= c && c <= 'z') || ('0' <= c && c <= '9')
        || c == '-' || c == '.' || c == '_' || c == '~'
}

fn is_hex_char_exec(c: char) -> (r: bool)
    ensures
        r == is_hex_char(c),
{
    ('0' <= c && c <= '9') || ('a' <= c && c <= 'f') || ('A' <= c && c <= 'F')
}

fn upper_hex_str(s: &str, i: usize) -> (r: &str)
    requires
        i < s@.len(),
        s@.len() <= usize::MAX as nat,
    ensures
        r@ == seq![upper_hex_char(s@[i as int])],
{
    let c = s.get_char(i);
    proof {
        reveal_strlit("A");
        reveal_strlit("B");
        reveal_strlit("C");
        reveal_strlit("D");
        reveal_strlit("E");
        reveal_strlit("F");
    }
    if c == 'a' { "A" } else if c == 'b' { "B" } else if c == 'c' { "C" }
    else if c == 'd' { "D" } else if c == 'e' { "E" } else if c == 'f' { "F" }
    else {
        let one = s.substring_char(i, i + 1);
        proof {
            assert(one@ =~= seq![s@[i as int]]);
        }
        one
    }
}

/// Percent-normalizes one URI component (`keep_slash` keeps path slashes).
pub fn percent_normalize(s: &str, keep_slash: bool) -> (r: String)
    ensures
        r@ == spec_percent_normalize(s@, keep_slash),
{
    let n = s.unicode_len();
    let mut r = String::new();
    proof {
        assert(s@.skip(0) =~= s@);
        assert(r@ + spec_percent_normalize(s@, keep_slash)
            =~= spec_percent_normalize(s@, keep_slash));
    }
    let mut i: usize = 0;
    while i < n
        invariant
            i <= n,
            n == s@.len(),
            r@ + spec_percent_normalize(s@.skip(i as int), keep_slash)
                == spec_percent_normalize(s@, keep_slash),
        decreases n - i,
    {
        let ghost pre = r@;
        let ghost rest = s@.skip(i as int);
        proof {
            assert(rest[0] == s@[i as int]);
        }
        let c = s.get_char(i);
        if is_unreserved_exec(c) || (keep_slash && c == '/') {
            let one = s.substring_char(i, i + 1);
            proof {
                assert(one@ =~= seq![s@[i as int]]);
                assert(rest.skip(1) =~= s@.skip(i + 1));
            }
            r.append(one);
            proof {
                assert(r@ + spec_percent_normalize(s@.skip(i + 1), keep_slash)
                    =~= pre + spec_percent_normalize(rest, keep_slash));
            }
            i = i + 1;
        } else if c == '%' && n - i >= 3 && is_hex_char_exec(s.get_char(i + 1))
            && is_hex_char_exec(s.get_char(i + 2)) {
            proof {
                assert(rest.len() >= 3);
                assert(rest[1] == s@[i + 1]);
                assert(rest[2] == s@[i + 2]);
                assert(rest.skip(3) =~= s@.skip(i + 3));
            }
            r.append("%");
            r.append(upper_hex_str(s, i + 1));
            r.append(upper_hex_str(s, i + 2));
            proof {
                reveal_strlit("%");
                assert(r@ + spec_percent_normalize(s@.skip(i + 3), keep_slash)
                    =~= pre + spec_percent_normalize(rest, keep_slash));
            }
            i = i + 3;
        } else {
            let one = s.substring_char(i, i + 1);
            proof {
                assert(one@ =~= seq![s@[i as int]]);
                assert(rest.skip(1) =~= s@.skip(i + 1));
            }
            let encoded = percent_string(one.as_bytes());
            r.append(encoded.as_str());
            proof {
                assert(r@ + spec_percent_normalize(s@.skip(i + 1), keep_slash)
                    =~= pre + spec_percent_normalize(rest, keep_slash));
            }
            i = i + 1;
        }
    }
    proof {
        assert(s@.skip(n as int) =~= Seq::<char>::empty());
        assert(r@ + spec_percent_normalize(Seq::<char>::empty(), keep_slash) =~= r@);
    }
    r
}

/// A query token split at its first `=`: name and value (empty value when
/// no `=` occurs).
pub open spec fn spec_query_pair(t: Seq<char>) -> (Seq<char>, Seq<char>) {
    match spec_find(t, '=') {
        Some(j) => (t.take(j), t.skip(j + 1)),
        None => (t, Seq::<char>::empty()),
    }
}

/// The token's pair with name and value percent-normalized.
pub open spec fn spec_encoded_pair(t: Seq<char>) -> (Seq<char>, Seq<char>) {
    let p = spec_query_pair(t);
    (spec_percent_normalize(p.0, false), spec_percent_normalize(p.1, false))
}

fn encode_pair(t: &String) -> (r: (String, String))
    ensures
        (r.0@, r.1@) == spec_encoded_pair(t@),
{
    let ts = t.as_str();
    let n = ts.unicode_len();
    match find_char(t, '=') {
        Some(j) => {
            proof {
                lemma_find_characterization(t@, '=');
            }
            let name = ts.substring_char(0, j);
            let value = ts.substring_char(j + 1, n);
            proof {
                assert(name@ =~= t@.take(j as int));
                assert(value@ =~= t@.skip(j + 1));
            }
            (percent_normalize(name, false), percent_normalize(value, false))
        },
        None => {
            let encoded = percent_normalize(ts, false);
            proof {
                assert(spec_percent_normalize(Seq::<char>::empty(), false)
                    =~= Seq::<char>::empty());
            }
            (encoded, String::new())
        },
    }
}

/// Order on character sequences by character code, shorter prefix first.
pub open spec fn lex_le(a: Seq<char>, b: Seq<char>) -> bool
    decreases a.len(),
{
    if a.len() == 0 {
        true
    } else if b.len() == 0 {
        false
    } else if a[0] != b[0] {
        a[0] < b[0]
    } else {
        lex_le(a.skip(1), b.skip(1))
    }
}

/// Order on encoded query pairs: by name, then by value.
pub open spec fn pair_le(p: (Seq<char>, Seq<char>), q: (Seq<char>, Seq<char>)) -> bool {
    if p.0 == q.0 {
        lex_le(p.1, q.1)
    } else {
        lex_le(p.0, q.0)
    }
}

fn lex_le_exec(a: &str, b: &str) -> (r: bool)
    ensures
        r == lex_le(a@, b@),
    decreases a@.len(),
{
    let an = a.unicode_len();
    let bn = b.unicode_len();
    if an == 0 {
        true
    } else if bn == 0 {
        false
    } else {
        let ca = a.get_char(0);
        let cb = b.get_char(0);
        if ca != cb {
            ca < cb
        } else {
            let ta = a.substring_char(1, an);
            let tb = b.substring_char(1, bn);
            proof {
                assert(ta@ =~= a@.skip(1));
                assert(tb@ =~= b@.skip(1));
            }
            lex_le_exec(ta, tb)
        }
    }
}

fn pair_le_exec(p: &(String, String), q: &(String, String)) -> (r: bool)
    ensures
        r == pair_le((p.0@, p.1@), (q.0@, q.1@)),
{
    if str_eq(p.0.as_str(), q.0.as_str()) {
        lex_le_exec(p.1.as_str(), q.1.as_str())
    } else {
        lex_le_exec(p.0.as_str(), q.0.as_str())
    }
}

/// Inserts a pair before the first element it precedes or equals.
pub open spec fn spec_insert_sorted(
    p: (Seq<char>, Seq<char>),
    s: Seq<(Seq<char>, Seq<char>)>,
) -> Seq<(Seq<char>, Seq<char>)>
    decreases s.len(),
{
    if s.len() == 0 {
        seq![p]
    } else if pair_le(p, s[0]) {
        seq![p] + s
    } else {
        seq![s[0]] + spec_insert_sorted(p, s.drop_first())
    }
}

/// Insertion sort of the encoded pairs, name first, then value.
pub open spec fn spec_sort_pairs(ps: Seq<(Seq<char>, Seq<char>)>) -> Seq<(Seq<char>, Seq<char>)>
    decreases ps.len(),
{
    if ps.len() == 0 {
        Seq::empty()
    } else {
        spec_insert_sorted(ps.last(), spec_sort_pairs(ps.drop_last()))
    }
}

proof fn lemma_insert_sorted_at(
    p: (Seq<char>, Seq<char>),
    s: Seq<(Seq<char>, Seq<char>)>,
    idx: int,
)
    requires
        0 <= idx <= s.len(),
        forall|k: int| 0 <= k < idx ==> !pair_le(p, s[k]),
        idx < s.len() ==> pair_le(p, s[idx]),
    ensures
        spec_insert_sorted(p, s) =~= s.insert(idx, p),
    decreases idx,
{
    if idx == 0 {
        assert(spec_insert_sorted(p, s) =~= s.insert(0, p));
    } else {
        assert(!pair_le(p, s[0]));
        assert forall|k: int| 0 <= k < idx - 1 implies !pair_le(p, s.drop_first()[k]) by {
            assert(s.drop_first()[k] == s[k + 1]);
        }
        if idx - 1 < s.drop_first().len() {
            assert(s.drop_first()[idx - 1] == s[idx]);
        }
        lemma_insert_sorted_at(p, s.drop_first(), idx - 1);
        assert(spec_insert_sorted(p, s) =~= s.insert(idx, p));
    }
}

fn find_insert_pos(v: &Vec<(String, String)>, p: &(String, String)) -> (idx: usize)
    ensures
        idx <= v.len(),
        forall|k: int| 0 <= k < idx ==> !pair_le((p.0@, p.1@), v.deep_view()[k]),
        idx < v.len() ==> pair_le((p.0@, p.1@), v.deep_view()[idx as int]),
{
    let ghost pv = (p.0@, p.1@);
    let mut idx: usize = 0;
    while idx < v.len()
        invariant
            idx <= v.len(),
            pv == (p.0@, p.1@),
            forall|k: int| 0 <= k < idx ==> !pair_le(pv, v.deep_view()[k]),
        decreases v.len() - idx,
    {
        proof {
            assert(v.deep_view()[idx as int] == (v@[idx as int].0@, v@[idx as int].1@));
        }
        if pair_le_exec(p, &v[idx]) {
            return idx;
        }
        idx = idx + 1;
    }
    idx
}

fn insert_sorted(v: &mut Vec<(String, String)>, p: (String, String))
    ensures
        final(v).deep_view() == spec_insert_sorted((p.0@, p.1@), old(v).deep_view()),
{
    let ghost sv = v.deep_view();
    let ghost pv = (p.0@, p.1@);
    let idx = find_insert_pos(v, &p);
    proof {
        lemma_insert_sorted_at(pv, sv, idx as int);
    }
    v.insert(idx, p);
    proof {
        assert(v.deep_view() =~~= sv.insert(idx as int, pv));
    }
}

fn sort_pairs(ps: &Vec<(String, String)>) -> (r: Vec<(String, String)>)
    ensures
        r.deep_view() == spec_sort_pairs(ps.deep_view()),
{
    let ghost pv = ps.deep_view();
    let mut r: Vec<(String, String)> = Vec::new();
    proof {
        assert(pv.take(0) =~= Seq::<(Seq<char>, Seq<char>)>::empty());
        assert(r.deep_view() =~~= spec_sort_pairs(pv.take(0)));
    }
    let mut i: usize = 0;
    while i < ps.len()
        invariant
            i <= ps.len(),
            pv == ps.deep_view(),
            r.deep_view() == spec_sort_pairs(pv.take(i as int)),
        decreases ps.len() - i,
    {
        proof {
            assert(pv.take(i + 1).drop_last() =~= pv.take(i as int));
            assert(pv.take(i + 1).last() == pv[i as int]);
            assert(pv[i as int] == (ps@[i as int].0@, ps@[i as int].1@));
        }
        let pair = (ps[i].0.clone(), ps[i].1.clone());
        insert_sorted(&mut r, pair);
        i = i + 1;
    }
    proof {
        assert(pv.take(pv.len() as int) =~= pv);
    }
    r
}

/// One sorted pair as `name=value`.
pub open spec fn spec_pair_str(p: (Seq<char>, Seq<char>)) -> Seq<char> {
    p.0 + "="@ + p.1
}

/// The sorted pairs rejoined with `&`.
pub open spec fn spec_join_pairs(ps: Seq<(Seq<char>, Seq<char>)>) -> Seq<char>
    decreases ps.len(),
{
    if ps.len() == 0 {
        Seq::empty()
    } else if ps.len() == 1 {
        spec_pair_str(ps[0])
    } else {
        spec_join_pairs(ps.drop_last()) + "&"@ + spec_pair_str(ps.last())
    }
}

/// The encoded pairs of the query's `&`-separated tokens, in their order.
pub open spec fn spec_encoded_pairs(ts: Seq<Seq<char>>) -> Seq<(Seq<char>, Seq<char>)> {
    Seq::new(ts.len(), |i: int| spec_encoded_pair(ts[i]))
}

/// The SigV4 canonical query string: empty for an absent or empty query;
/// otherwise the parameters split on `&` and at the first `=`, name and
/// value percent-normalized, sorted by name then value, rejoined `k=v`.
pub open spec fn spec_canonical_query(q: Option<Seq<char>>) -> Seq<char> {
    match q {
        None => Seq::<char>::empty(),
        Some(qs) => if qs.len() == 0 {
            Seq::<char>::empty()
        } else {
            spec_join_pairs(spec_sort_pairs(spec_encoded_pairs(spec_split(qs, '&'))))
        },
    }
}

/// The SigV4 canonical URI: the path percent-normalized with its slashes
/// kept; `/` when the path is empty.
pub open spec fn spec_canonical_uri(path: Seq<char>) -> Seq<char> {
    if path.len() == 0 {
        "/"@
    } else {
        spec_percent_normalize(path, true)
    }
}

/// Builds the canonical URI of a request path.
pub fn canonical_uri(path: &String) -> (r: String)
    ensures
        r@ == spec_canonical_uri(path@),
{
    if path.as_str().is_empty() {
        String::from_str("/")
    } else {
        percent_normalize(path.as_str(), true)
    }
}

/// Builds the canonical query string of a request query.
pub fn canonical_query(query: &Option<String>) -> (r: String)
    ensures
        r@ == spec_canonical_query(query.deep_view()),
{
    match query {
        None => String::new(),
        Some(qs) => {
            if qs.as_str().is_empty() {
                return String::new();
            }
            let tokens = split_char(qs.as_str(), '&');
            let ghost ts = tokens.deep_view();
            let mut pairs: Vec<(String, String)> = Vec::new();
            proof {
                assert(pairs.deep_view() =~~= spec_encoded_pairs(ts).take(0));
            }
            let mut i: usize = 0;
            while i < tokens.len()
                invariant
                    i <= tokens.len(),
                    ts == tokens.deep_view(),
                    query.deep_view() == Some(qs@),
                    ts == spec_split(qs@, '&'),
                    pairs.deep_view() == spec_encoded_pairs(ts).take(i as int),
                decreases tokens.len() - i,
            {
                proof {
                    assert(ts[i as int] == tokens@[i as int]@);
                }
                let ghost before = pairs.deep_view();
                let p = encode_pair(&tokens[i]);
                pairs.push(p);
                proof {
                    assert(pairs.deep_view() =~~= before.push(spec_encoded_pair(ts[i as int])));
                    assert(pairs.deep_view() =~~= spec_encoded_pairs(ts).take(i + 1));
                }
                i = i + 1;
            }
            proof {
                assert(spec_encoded_pairs(ts).take(ts.len() as int) =~= spec_encoded_pairs(ts));
            }
            let sorted = sort_pairs(&pairs);
            let ghost sv = sorted.deep_view();
            let mut r = String::new();
            proof {
                assert(r@ =~= spec_join_pairs(sv.take(0)));
            }
            let mut j: usize = 0;
            while j < sorted.len()
                invariant
                    j <= sorted.len(),
                    sv == sorted.deep_view(),
                    query.deep_view() == Some(qs@),
                    sv == spec_sort_pairs(spec_encoded_pairs(spec_split(qs@, '&'))),
                    r@ == spec_join_pairs(sv.take(j as int)),
                decreases sorted.len() - j,
            {
                proof {
                    assert(sv.take(j + 1).drop_last() =~= sv.take(j as int));
                    assert(sv.take(j + 1).last() == sv[j as int]);
                    assert(sv[j as int] == (sorted@[j as int].0@, sorted@[j as int].1@));
                }
                if j > 0 {
                    r.append("&");
                }
                r.append(sorted[j].0.as_str());
                r.append("=");
                r.append(sorted[j].1.as_str());
                proof {
                    assert(r@ =~= spec_join_pairs(sv.take(j + 1)));
                }
                j = j + 1;
            }
            proof {
                assert(sv.take(sv.len() as int) =~= sv);
            }
            r
        },
    }
}

} // verus!
