//! The decisions of the registry API: who may write, what a push must
//! satisfy, and what a drift check between two stored states answers.

use vstd::prelude::*;
use vstd::string::*;

use crate::diff::{any_breaking, diff_spec, diff_states, diffs_view, has_breaking, FieldDiff};
use crate::engine::{is_verify_error, state_hash, verify_failure, StateEngine};
use crate::error::{error_text, TaprootError};
use crate::fabric::{AuditEntry, AuditEntryView, Fabric, Policy, PolicyView};
use crate::registry::{desanitize, desanitized, Registry};
use crate::state::SignedState;
use crate::strmap::{lookup, StrMap};
use crate::text::concat;
use crate::trusted::now_timestamp;

verus! {

/// What the API serves: the registry, its fabric, and the registry's root.
#[derive(Debug)]
pub struct AppState {
    pub registry: Registry,
    pub fabric: Fabric,
    pub registry_root: String,
}

/// The body of a policy update: each setting given replaces the stored one.
#[derive(Debug)]
pub struct SetPolicyReq {
    pub require_signed: Option<bool>,
    pub require_check_strict: Option<bool>,
    pub allowed_branches: Option<Vec<String>>,
    pub blocked_env_keys: Option<Vec<String>>,
}

/// The body of a drift check between two stored states.
#[derive(Debug)]
pub struct CheckReq {
    pub baseline_hash: String,
    pub current_hash: String,
    /// Strict unless the request says otherwise.
    pub strict: bool,
}

/// The answer to a drift check.
#[derive(Debug)]
pub struct CheckResp {
    pub drifted: bool,
    pub has_breaking: bool,
    pub diffs: Vec<FieldDiff>,
    pub warnings: Vec<String>,
}

/// How a failed request is answered.
#[derive(Debug, Clone, Copy, PartialEq, Eq, Structural)]
pub enum ApiStatus {
    BadRequest,
    NotFound,
}

/// `s` without a leading `Bearer `, when it has one.
pub open spec fn bearer_token(s: Seq<char>) -> Seq<char> {
    if s.len() >= 7 && s.take(7) == "Bearer "@ {
        s.skip(7)
    } else {
        s
    }
}

/// Who a request acts as: nobody in particular when no token is stored (an
/// open registry); otherwise the actor of the bearer token in the
/// `Authorization` header, which must be present and known.
pub fn check_auth(fabric: &Fabric, tokens: &StrMap, authorization: Option<&str>) -> (r: Result<Option<String>, String>)
    ensures
        tokens@.len() == 0 ==> r matches Ok(None),
        tokens@.len() > 0 ==> ({
            let t = bearer_token(match authorization {
                Some(a) => a@,
                None => seq![],
            });
            if t.len() == 0 {
                r matches Err(m) && m@ == "missing Authorization Bearer token"@
            } else {
                match lookup(tokens@, t) {
                    Some(actor) => r matches Ok(Some(x)) && x@ == actor,
                    None => r matches Err(m) && m@ == "invalid token"@,
                }
            }
        }),
{
    if tokens.len() == 0 {
        return Ok(None);
    }
    let auth: &str = match authorization {
        Some(a) => a,
        None => "",
    };
    proof {
        reveal_strlit("");
    }
    let n: usize = auth.unicode_len();
    let prefix = "Bearer ";
    proof {
        reveal_strlit("Bearer ");
    }
    let token: &str = if n >= 7 && crate::text::text_equal(auth.substring_char(0, 7), prefix) {
        assert(auth@.subrange(0, 7) =~= auth@.take(7));
        assert(auth@.subrange(7, n as int) =~= auth@.skip(7));
        auth.substring_char(7, n)
    } else {
        proof {
            if n >= 7 {
                assert(auth@.subrange(0, 7) =~= auth@.take(7));
            }
        }
        auth
    };
    if token.unicode_len() == 0 {
        return Err(String::from_str("missing Authorization Bearer token"));
    }
    match fabric.verify_token(tokens, token) {
        Some(actor) => Ok(Some(actor)),
        None => Err(String::from_str("invalid token")),
    }
}

/// Why a pushed state is refused, if it is: it must verify, record its own
/// hash, and be signed where the repository's policy requires it.
pub fn push_state_problem(signed: &SignedState, policy: &Policy) -> (r: Option<String>)
    ensures
        verify_failure(signed@) is Some ==> (r matches Some(m) && exists|e: TaprootError|
            is_verify_error(signed@, e) && m@ == "verify failed: "@ + error_text(e)),
        verify_failure(signed@) is None ==> if policy@.require_signed && signed@.signature is None {
            r matches Some(m) && m@ == "policy requires signed state"@
        } else {
            r is None
        },
{
    match StateEngine::verify(signed) {
        Err(e) => {
            return Some(concat("verify failed: ", e.message().as_str()));
        },
        Ok(()) => {},
    }
    let computed = match StateEngine::hash(&signed.state) {
        Ok(h) => h,
        Err(e) => {
            return Some(e.message());
        },
    };
    if !crate::text::text_equal(computed.as_str(), signed.hash.as_str()) {
        let a = concat("hash mismatch expected ", signed.hash.as_str());
        let b = concat(a.as_str(), " got ");
        return Some(concat(b.as_str(), computed.as_str()));
    }
    if policy.require_signed && signed.signature.is_none() {
        return Some(String::from_str("policy requires signed state"));
    }
    None
}

/// The audit entry of a push of `signed` stored under `hash`, stamped now;
/// the actor is `local` when the request named none.
pub fn push_audit_entry(signed: &SignedState, hash: &str, actor: Option<String>) -> (e: AuditEntry)
    ensures
        e@.action == "push"@,
        e@.repo == signed@.state.base.repo,
        e@.branch == signed@.state.base.branch,
        e@.hash == hash@,
        e@.actor == (match actor {
            Some(a) => a@,
            None => "local"@,
        }),
        e@.signed == signed@.signature is Some,
{
    AuditEntry {
        ts: now_timestamp(),
        action: String::from_str("push"),
        repo: signed.state.base.repo.clone(),
        branch: signed.state.base.branch.clone(),
        hash: String::from_str(hash),
        actor: match actor {
            Some(a) => a,
            None => String::from_str("local"),
        },
        signed: signed.signature.is_some(),
    }
}

/// How a failed read of a stored state is answered: not found, or a bad
/// request with the error's message.
pub fn pull_failure(e: &TaprootError) -> (r: (ApiStatus, String))
    ensures
        e matches TaprootError::ObjectNotFound(_) ==> r.0 == ApiStatus::NotFound && r.1@ == "not found"@,
        !(e matches TaprootError::ObjectNotFound(_)) ==> r.0 == ApiStatus::BadRequest && r.1@ == error_text(*e),
{
    match e {
        TaprootError::ObjectNotFound(_) => (ApiStatus::NotFound, String::from_str("not found")),
        _ => (ApiStatus::BadRequest, e.message()),
    }
}

/// The repository and branch a ref request names, unescaped.
pub fn ref_request(repo: &str, branch: &str) -> (r: (String, String))
    ensures
        r.0@ == desanitized(repo@),
        r.1@ == desanitized(branch@),
{
    (desanitize(repo), desanitize(branch))
}

/// The policy a policy update stores: the stored (or default) policy for
/// `repo`, with the request's settings applied.
pub fn policy_update(current: Policy, repo: &str, req: SetPolicyReq) -> (p: Policy)
    ensures
        p@ == (PolicyView {
            repo: repo@,
            require_signed: match req.require_signed {
                Some(v) => v,
                None => current@.require_signed,
            },
            require_check_strict: match req.require_check_strict {
                Some(v) => v,
                None => current@.require_check_strict,
            },
            allowed_branches: match req.allowed_branches {
                Some(v) => crate::fabric::strings_view(v@),
                None => current@.allowed_branches,
            },
            blocked_env_keys: match req.blocked_env_keys {
                Some(v) => crate::fabric::strings_view(v@),
                None => current@.blocked_env_keys,
            },
        }),
{
    current.updated(repo, req.require_signed, req.require_check_strict, req.allowed_branches, req.blocked_env_keys)
}

/// The unsigned-side warnings of an API drift check, baseline first.
pub open spec fn api_unsigned_warnings(baseline_signed: bool, current_signed: bool) -> Seq<Seq<char>> {
    (if baseline_signed { seq![] } else { seq!["baseline is unsigned"@] })
        + (if current_signed { seq![] } else { seq!["current is unsigned"@] })
}

/// The answer to a drift check between two stored states: their
/// differences; a warning for each unsigned side; breaking when a
/// difference is breaking or a side is unsigned.
pub fn check_response(baseline: &SignedState, current: &SignedState, strict: bool) -> (r: CheckResp)
    ensures
        diffs_view(r.diffs@) == diff_spec(baseline@.state, current@.state, strict),
        r.warnings@.map_values(|w: String| w@) == api_unsigned_warnings(baseline@.signature is Some, current@.signature is Some),
        r.has_breaking == (any_breaking(diffs_view(r.diffs@)) || r.warnings@.len() > 0),
        r.drifted == (r.diffs@.len() > 0 || r.warnings@.len() > 0),
        baseline.signature is None ==> r.drifted && r.has_breaking && r.warnings@.len() >= 1
            && r.warnings@[0]@ == "baseline is unsigned"@,
        current.signature is None ==> r.drifted && r.has_breaking && r.warnings@.len() >= 1
            && r.warnings@.last()@ == "current is unsigned"@,
        baseline.signature is Some && current.signature is Some ==> r.warnings@.len() == 0,
        r.warnings@.len() == (if baseline.signature is None { 1int } else { 0 }) + (if current.signature is None { 1int } else { 0 }),
{
    let mut warnings: Vec<String> = Vec::new();
    if baseline.signature.is_none() {
        warnings.push(String::from_str("baseline is unsigned"));
    }
    if current.signature.is_none() {
        warnings.push(String::from_str("current is unsigned"));
    }
    assert(warnings@.map_values(|w: String| w@) =~= api_unsigned_warnings(baseline@.signature is Some, current@.signature is Some));
    let diffs = diff_states(&baseline.state, &current.state, strict);
    let breaking: bool = has_breaking(diffs.as_slice()) || warnings.len() > 0;
    let drifted: bool = diffs.len() > 0 || warnings.len() > 0;
    CheckResp { drifted, has_breaking: breaking, diffs, warnings }
}

/// The error of a drift check whose side could not be read: `what` is
/// `baseline` or `current`.
pub fn side_not_found(what: &str, e: &TaprootError) -> (m: String)
    ensures
        m@ == what@ + " not found: "@ + error_text(*e),
{
    let a = concat(what, " not found: ");
    concat(a.as_str(), e.message().as_str())
}

} // verus!
