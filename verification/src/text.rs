//! Character-level text helpers: splitting on a separator, whitespace
//! tokenizing, prefix tests and first-occurrence search, each with an exact
//! specification over `Seq<char>`.

use vstd::prelude::*;
use vstd::string::*;

verus! {

/// The characters that `split_ascii_whitespace` treats as separators.
pub open spec fn is_ws(c: char) -> bool {
    c == ' ' || c == '\t' || c == '\n' || c == '\r' || c == '\x0c'
}

/// Splitting on `sep`, keeping empty fields: the view of `str::split`.
pub open spec fn spec_split(s: Seq<char>, sep: char) -> Seq<Seq<char>>
    decreases s.len(),
{
    if s.len() == 0 {
        seq![Seq::<char>::empty()]
    } else if s[0] == sep {
        seq![Seq::<char>::empty()] + spec_split(s.drop_first(), sep)
    } else {
        let rest = spec_split(s.drop_first(), sep);
        seq![seq![s[0]] + rest[0]] + rest.drop_first()
    }
}

pub proof fn lemma_split_len(s: Seq<char>, sep: char)
    ensures
        spec_split(s, sep).len() >= 1,
    decreases s.len(),
{
    if s.len() > 0 {
        lemma_split_len(s.drop_first(), sep);
    }
}

/// Splits `s` on every occurrence of `sep`, keeping empty fields.
pub fn split_char(s: &str, sep: char) -> (r: Vec<String>)
    ensures
        r.deep_view() == spec_split(s@, sep),
{
    let n = s.unicode_len();
    let mut r: Vec<String> = Vec::new();
    r.push(String::new());
    proof {
        assert(s@.skip(n as int) =~= Seq::<char>::empty());
        assert(r.deep_view() =~~= spec_split(s@.skip(n as int), sep));
    }
    let mut i = n;
    while i > 0
        invariant
            i <= n,
            n == s@.len(),
            r.deep_view() == spec_split(s@.skip(i as int), sep),
        decreases i,
    {
        proof {
            lemma_split_len(s@.skip(i as int), sep);
            assert(s@.skip(i - 1).drop_first() =~= s@.skip(i as int));
            assert(s@.skip(i - 1)[0] == s@[i - 1]);
        }
        let ghost old_dv = r.deep_view();
        let c = s.get_char(i - 1);
        if c == sep {
            r.insert(0, String::new());
            proof {
                assert(r.deep_view() =~~= seq![Seq::<char>::empty()] + old_dv);
            }
        } else {
            let piece = s.substring_char(i - 1, i);
            proof {
                assert(piece@ =~= seq![s@[i - 1]]);
            }
            let first = r.remove(0);
            let combined = String::from_str(piece).concat(first.as_str());
            r.insert(0, combined);
            proof {
                assert(r.deep_view() =~~= seq![seq![s@[i - 1]] + old_dv[0]]
                    + old_dv.drop_first());
            }
        }
        i = i - 1;
    }
    proof {
        assert(s@.skip(0) =~= s@);
    }
    r
}

/// Whitespace tokenizing: the non-empty fields between runs of whitespace,
/// as `str::split_ascii_whitespace` yields them.
pub open spec fn spec_ws_tokens(s: Seq<char>) -> Seq<Seq<char>>
    decreases s.len(),
{
    if s.len() == 0 {
        Seq::<Seq<char>>::empty()
    } else if is_ws(s[0]) {
        spec_ws_tokens(s.drop_first())
    } else if s.len() > 1 && !is_ws(s[1]) {
        let rest = spec_ws_tokens(s.drop_first());
        seq![seq![s[0]] + rest[0]] + rest.drop_first()
    } else {
        seq![seq![s[0]]] + spec_ws_tokens(s.drop_first())
    }
}

pub proof fn lemma_ws_tokens_nonempty(s: Seq<char>)
    requires
        s.len() > 0,
        !is_ws(s[0]),
    ensures
        spec_ws_tokens(s).len() >= 1,
{
}

/// Every token a whitespace tokenizing yields is non-empty.
pub proof fn lemma_ws_tokens_each_nonempty(s: Seq<char>, i: int)
    requires
        0 <= i < spec_ws_tokens(s).len(),
    ensures
        spec_ws_tokens(s)[i].len() > 0,
    decreases s.len(),
{
    if s.len() > 0 {
        if is_ws(s[0]) {
            lemma_ws_tokens_each_nonempty(s.drop_first(), i);
        } else if s.len() > 1 && !is_ws(s[1]) {
            if i > 0 {
                lemma_ws_tokens_each_nonempty(s.drop_first(), i);
            }
        } else {
            if i > 0 {
                lemma_ws_tokens_each_nonempty(s.drop_first(), i - 1);
            }
        }
    }
}

/// Splits `s` into its whitespace-separated tokens, dropping the separators.
pub fn tokenize_ws(s: &str) -> (r: Vec<String>)
    ensures
        r.deep_view() == spec_ws_tokens(s@),
{
    let n = s.unicode_len();
    let mut r: Vec<String> = Vec::new();
    proof {
        assert(s@.skip(n as int) =~= Seq::<char>::empty());
        assert(r.deep_view() =~~= spec_ws_tokens(s@.skip(n as int)));
    }
    let mut i = n;
    while i > 0
        invariant
            i <= n,
            n == s@.len(),
            r.deep_view() == spec_ws_tokens(s@.skip(i as int)),
        decreases i,
    {
        proof {
            assert(s@.skip(i - 1).drop_first() =~= s@.skip(i as int));
            assert(s@.skip(i - 1)[0] == s@[i - 1]);
        }
        let ghost old_dv = r.deep_view();
        let c = s.get_char(i - 1);
        let piece = s.substring_char(i - 1, i);
        proof {
            assert(piece@ =~= seq![s@[i - 1]]);
        }
        if is_ws_exec(c) {
            // a separator: tokens unchanged
        } else if i < n && !is_ws_exec(s.get_char(i)) {
            proof {
                assert(s@.skip(i as int)[0] == s@[i as int]);
                lemma_ws_tokens_nonempty(s@.skip(i as int));
            }
            let first = r.remove(0);
            let combined = String::from_str(piece).concat(first.as_str());
            r.insert(0, combined);
            proof {
                assert(r.deep_view() =~~= seq![seq![s@[i - 1]] + old_dv[0]]
                    + old_dv.drop_first());
            }
        } else {
            r.insert(0, String::from_str(piece));
            proof {
                assert(r.deep_view() =~~= seq![seq![s@[i - 1]]] + old_dv);
            }
        }
        i = i - 1;
    }
    proof {
        assert(s@.skip(0) =~= s@);
    }
    r
}

/// Executable counterpart of `is_ws`.
pub fn is_ws_exec(c: char) -> (r: bool)
    ensures
        r == is_ws(c),
{
    c == ' ' || c == '\t' || c == '\n' || c == '\r' || c == '\x0c'
}

/// The index of the first occurrence of `c` in `s`, if any.
pub open spec fn spec_find(s: Seq<char>, c: char) -> Option<int>
    decreases s.len(),
{
    if s.len() == 0 {
        None
    } else if s[0] == c {
        Some(0int)
    } else {
        match spec_find(s.drop_first(), c) {
            Some(j) => Some(j + 1),
            None => None,
        }
    }
}

/// What `spec_find` returns: the least index holding `c`, or `None` when
/// `c` does not occur.
pub proof fn lemma_find_characterization(s: Seq<char>, c: char)
    ensures
        match spec_find(s, c) {
            None => forall|k: int| 0 <= k < s.len() ==> s[k] != c,
            Some(j) => 0 <= j < s.len() && s[j] == c
                && (forall|k: int| 0 <= k < j ==> s[k] != c),
        },
    decreases s.len(),
{
    if s.len() > 0 && s[0] != c {
        lemma_find_characterization(s.drop_first(), c);
        assert forall|k: int| 0 <= k < s.len() && spec_find(s, c) is None
            implies s[k] != c by {
            if k > 0 {
                assert(s.drop_first()[k - 1] == s[k]);
            }
        }
        if let Some(j) = spec_find(s, c) {
            assert(s.drop_first()[j - 1] == s[j]);
            assert forall|k: int| 0 <= k < j implies s[k] != c by {
                if k > 0 {
                    assert(s.drop_first()[k - 1] == s[k]);
                }
            }
        }
    }
}

/// Finds the first occurrence of `c` in `s`.
pub fn find_char(s: &String, c: char) -> (r: Option<usize>)
    ensures
        match r {
            Some(j) => spec_find(s@, c) == Some(j as int),
            None => spec_find(s@, c) is None,
        },
{
    let st = s.as_str();
    let n = st.unicode_len();
    let mut j: usize = 0;
    while j < n
        invariant
            j <= n,
            n == s@.len(),
            st@ == s@,
            forall|k: int| 0 <= k < j ==> s@[k] != c,
        decreases n - j,
    {
        if st.get_char(j) == c {
            proof {
                lemma_find_characterization(s@, c);
            }
            return Some(j);
        }
        j = j + 1;
    }
    proof {
        lemma_find_characterization(s@, c);
    }
    None
}

/// Whether `x` occurs among the strings of `v`.
pub fn contains_string(v: &Vec<String>, x: &String) -> (r: bool)
    ensures
        r == v.deep_view().contains(x@),
{
    let mut j: usize = 0;
    while j < v.len()
        invariant
            j <= v.len(),
            forall|k: int| 0 <= k < j ==> v.deep_view()[k] != x@,
        decreases v.len() - j,
    {
        proof {
            assert(v.deep_view()[j as int] == v@[j as int]@);
        }
        if x.eq(&v[j]) {
            return true;
        }
        j = j + 1;
    }
    proof {
        assert forall|k: int| 0 <= k < v.deep_view().len()
            implies v.deep_view()[k] != x@ by {}
    }
    false
}

/// Character-wise string equality.
pub fn str_eq(a: &str, b: &str) -> (r: bool)
    ensures
        r == (a@ == b@),
{
    let an = a.unicode_len();
    let bn = b.unicode_len();
    if an != bn {
        proof {
            assert(a@ != b@);
        }
        return false;
    }
    let mut j: usize = 0;
    while j < an
        invariant
            j <= an,
            an == a@.len(),
            bn == b@.len(),
            an == bn,
            forall|k: int| 0 <= k < j ==> a@[k] == b@[k],
        decreases an - j,
    {
        if a.get_char(j) != b.get_char(j) {
            return false;
        }
        j = j + 1;
    }
    proof {
        assert(a@ =~= b@);
    }
    true
}

/// Whether `p@` is a prefix of `s@`.
pub fn str_starts_with(s: &String, p: &String) -> (r: bool)
    ensures
        r == p@.is_prefix_of(s@),
{
    let ss = s.as_str();
    let ps = p.as_str();
    let sn = ss.unicode_len();
    let pn = ps.unicode_len();
    if pn > sn {
        proof {
            assert(!p@.is_prefix_of(s@));
        }
        return false;
    }
    let mut j: usize = 0;
    while j < pn
        invariant
            j <= pn,
            pn <= sn,
            sn == s@.len(),
            pn == p@.len(),
            ss@ == s@,
            ps@ == p@,
            forall|k: int| 0 <= k < j ==> s@[k] == p@[k],
        decreases pn - j,
    {
        if ss.get_char(j) != ps.get_char(j) {
            proof {
                assert(s@.subrange(0, p@.len() as int)[j as int] == s@[j as int]);
            }
            return false;
        }
        j = j + 1;
    }
    proof {
        assert(p@ =~= s@.subrange(0, p@.len() as int));
    }
    true
}

} // verus!
