//! The address query client: builds the free-text lookup query for a
//! record, and reduces the service's response body to a pass/fail verdict.

use vstd::prelude::*;
use crate::record::InputRecord;
use crate::score::{score_ge_threshold, score_meets_threshold};
use crate::split::{clone_bytes, push_all};

verus! {

/// How many candidates one lookup asks the service for.
pub const RESULT_LIMIT: usize = 1;

/// The free-text query for an address: the street address, a comma and a
/// space, the postal code, a space, the city.
pub open spec fn query_spec(adresse: Seq<u8>, cp: Seq<u8>, ville: Seq<u8>) -> Seq<u8> {
    adresse + seq![44u8, 32u8] + cp + seq![32u8] + ville
}

/// Builds the lookup query text for one record.
pub fn build_query(rec: &InputRecord) -> (q: Vec<u8>)
    ensures
        q@ == query_spec(rec.adresse@, rec.cp@, rec.ville@),
{
    let mut q = clone_bytes(&rec.adresse);
    q.push(44);
    q.push(32);
    push_all(&mut q, &rec.cp);
    q.push(32);
    push_all(&mut q, &rec.ville);
    proof {
        assert(q@ =~= query_spec(rec.adresse@, rec.cp@, rec.ville@));
    }
    q
}

/// The decimal text of the best candidate's confidence score, when the
/// body is a JSON document whose `features[0].properties.score` is a
/// number; nothing otherwise. The text depends on the body bytes alone.
pub uninterp spec fn score_repr(body: Seq<u8>) -> Option<Seq<u8>>;

/// Relies on `serde_json::from_slice` and `serde_json::Value::get`, and on
/// the display form of `serde_json::Number`: parses the body as JSON,
/// walks to `features[0].properties.score`, and hands back that number's
/// decimal text. All of them compute from the body bytes alone, so the
/// result is the one `score_repr` names.
#[verifier::external_body]
fn extract_score_text(body: &Vec<u8>) -> (r: Option<Vec<u8>>)
    ensures
        r.deep_view() == score_repr(body@),
{
    let v: serde_json::Value = match serde_json::from_slice(body.as_slice()) {
        Ok(v) => v,
        Err(_) => return None,
    };
    let score = v
        .get("features")
        .and_then(|f| f.get(0))
        .and_then(|c| c.get("properties"))
        .and_then(|p| p.get("score"));
    match score {
        Some(serde_json::Value::Number(n)) => Some(n.to_string().into_bytes()),
        _ => None,
    }
}

/// Whether a response body counts as a confirmed address: it carries a
/// first candidate whose numeric score meets the threshold. Every other
/// body — no candidates, no numeric score, not parseable — does not.
pub open spec fn response_valid(body: Seq<u8>) -> bool {
    match score_repr(body) {
        Some(t) => score_ge_threshold(t),
        None => false,
    }
}

/// Reduces one response body to the verdict `response_valid` states.
pub fn interpret_response(body: &Vec<u8>) -> (r: bool)
    ensures
        r == response_valid(body@),
{
    match extract_score_text(body) {
        Some(t) => {
            proof {
                assert(score_repr(body@) == Some(t.deep_view()));
                assert(t.deep_view() =~= t@);
            }
            score_meets_threshold(&t)
        },
        None => false,
    }
}

} // verus!
