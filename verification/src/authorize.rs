//! The authorizer and the forwarding pipeline's decisions: a request is
//! checked against the rule store before any signing or upstream I/O, and
//! transport failures are mapped to the one status the caller may see.

use vstd::prelude::*;
use crate::rules::Rule;
use crate::rules::RuleModel;
use crate::rules::RequestData;
use crate::rules::RequestModel;
use crate::rules::rule_matches;

verus! {

/// Some rule of the sequence matches the request.
pub open spec fn any_rule_matches(rules: Seq<RuleModel>, req: RequestModel) -> bool {
    exists|i: int| 0 <= i < rules.len() && #[trigger] rule_matches(rules[i], req)
}

/// Whether the store authorizes the request: with no rule store installed
/// every request is allowed (unrestricted mode); otherwise some rule must
/// match.
pub open spec fn spec_authorized(store: Option<Seq<RuleModel>>, req: RequestModel) -> bool {
    match store {
        None => true,
        Some(rules) => any_rule_matches(rules, req),
    }
}

/// Evaluates the request against the rule store.
pub fn authorize(store: &Option<Vec<Rule>>, req: &RequestData) -> (r: bool)
    ensures
        r == spec_authorized(store.deep_view(), req@),
{
    match store {
        None => true,
        Some(rules) => {
            let mut j: usize = 0;
            while j < rules.len()
                invariant
                    j <= rules.len(),
                    store.deep_view() == Some(rules.deep_view()),
                    forall|k: int| 0 <= k < j ==> !rule_matches(rules.deep_view()[k], req@),
                decreases rules.len() - j,
            {
                proof {
                    assert(rules.deep_view()[j as int] == rules@[j as int]@);
                }
                if rules[j].check(req) {
                    proof {
                        let ghost rs = rules.deep_view();
                        assert(rule_matches(rs[j as int], req@));
                        assert(any_rule_matches(rs, req@));
                    }
                    return true;
                }
                j = j + 1;
            }
            false
        },
    }
}

/// The pipeline's first step: an unauthorized request is answered with
/// status 401 at once, and neither signing nor any upstream call happens;
/// an authorized one goes on (`None`).
pub fn gate_request(store: &Option<Vec<Rule>>, req: &RequestData) -> (r: Option<u16>)
    ensures
        r is None <==> spec_authorized(store.deep_view(), req@),
        match r {
            Some(status) => status == 401,
            None => true,
        },
{
    if authorize(store, req) {
        None
    } else {
        Some(401)
    }
}

/// The status relayed to the caller after the single upstream attempt: the
/// upstream's own status when the transport succeeded, 400 (with an empty
/// body) on any transport failure.
pub fn relay_status(transport_ok: bool, upstream_status: u16) -> (r: u16)
    ensures
        r == if transport_ok { upstream_status } else { 400u16 },
{
    if transport_ok {
        upstream_status
    } else {
        400
    }
}

/// With no rule store installed, every request whatsoever is authorized.
pub proof fn lemma_unrestricted_mode(req: RequestModel)
    ensures
        spec_authorized(Option::<Seq<RuleModel>>::None, req),
{
}

} // verus!
