//! The fabric around a registry: an audit log of what was pushed, a policy
//! per repository, and bearer tokens that name the actors allowed to write.

use vstd::prelude::*;
use vstd::string::*;

use crate::error::TaprootError;
use crate::registry::{join_path, path_join, sanitize, sanitized, str_byte_len};
use crate::strmap::{lemma_map_insert_lookup, lookup, map_insert, StrMap, TextPair};
use crate::text::{all_ws, byte_len, concat, has_char, is_blank, text_equal};

verus! {

/// One line of the audit log.
#[derive(Debug)]
pub struct AuditEntry {
    /// When it happened, RFC 3339.
    pub ts: String,
    /// `push`, `pull` or `verify`.
    pub action: String,
    pub repo: String,
    pub branch: String,
    pub hash: String,
    /// The token's actor, or `local`.
    pub actor: String,
    pub signed: bool,
}

pub struct AuditEntryView {
    pub ts: Seq<char>,
    pub action: Seq<char>,
    pub repo: Seq<char>,
    pub branch: Seq<char>,
    pub hash: Seq<char>,
    pub actor: Seq<char>,
    pub signed: bool,
}

impl View for AuditEntry {
    type V = AuditEntryView;

    open spec fn view(&self) -> AuditEntryView {
        AuditEntryView {
            ts: self.ts@,
            action: self.action@,
            repo: self.repo@,
            branch: self.branch@,
            hash: self.hash@,
            actor: self.actor@,
            signed: self.signed,
        }
    }
}

impl Clone for AuditEntry {
    fn clone(&self) -> (r: Self)
        ensures
            r@ == self@,
    {
        AuditEntry {
            ts: self.ts.clone(),
            action: self.action.clone(),
            repo: self.repo.clone(),
            branch: self.branch.clone(),
            hash: self.hash.clone(),
            actor: self.actor.clone(),
            signed: self.signed,
        }
    }
}

pub open spec fn audit_view(v: Seq<AuditEntry>) -> Seq<AuditEntryView> {
    v.map_values(|e: AuditEntry| e@)
}

pub open spec fn strings_view(v: Seq<String>) -> Seq<Seq<char>> {
    v.map_values(|s: String| s@)
}

/// A copy of a list of strings.
pub fn clone_strings(v: &Vec<String>) -> (r: Vec<String>)
    ensures
        strings_view(r@) == strings_view(v@),
{
    let n: usize = v.len();
    let mut r: Vec<String> = Vec::new();
    let mut i: usize = 0;
    while i < n
        invariant
            n == v@.len(),
            i <= n,
            r@.len() == i,
            forall|q: int| 0 <= q < i ==> (#[trigger] r@[q])@ == v@[q]@,
        decreases n - i,
    {
        r.push(v[i].clone());
        i = i + 1;
    }
    assert(strings_view(r@) =~= strings_view(v@));
    r
}

/// The default of a policy flag that the stored policy leaves out.
pub fn default_true() -> (b: bool)
    ensures
        b,
{
    true
}

/// A repository's policy.
#[derive(Debug)]
pub struct Policy {
    pub repo: String,
    pub require_signed: bool,
    pub require_check_strict: bool,
    /// Empty: every branch.
    pub allowed_branches: Vec<String>,
    pub blocked_env_keys: Vec<String>,
}

pub struct PolicyView {
    pub repo: Seq<char>,
    pub require_signed: bool,
    pub require_check_strict: bool,
    pub allowed_branches: Seq<Seq<char>>,
    pub blocked_env_keys: Seq<Seq<char>>,
}

impl View for Policy {
    type V = PolicyView;

    open spec fn view(&self) -> PolicyView {
        PolicyView {
            repo: self.repo@,
            require_signed: self.require_signed,
            require_check_strict: self.require_check_strict,
            allowed_branches: strings_view(self.allowed_branches@),
            blocked_env_keys: strings_view(self.blocked_env_keys@),
        }
    }
}

impl Clone for Policy {
    fn clone(&self) -> (r: Self)
        ensures
            r@ == self@,
    {
        Policy {
            repo: self.repo.clone(),
            require_signed: self.require_signed,
            require_check_strict: self.require_check_strict,
            allowed_branches: clone_strings(&self.allowed_branches),
            blocked_env_keys: clone_strings(&self.blocked_env_keys),
        }
    }
}

/// The policy of a repository that has none stored: signing and strict
/// checks required, every branch allowed, no key blocked.
pub open spec fn default_policy(repo: Seq<char>) -> PolicyView {
    PolicyView {
        repo,
        require_signed: true,
        require_check_strict: true,
        allowed_branches: seq![],
        blocked_env_keys: seq![],
    }
}

impl Default for Policy {
    /// The default policy, for every repository (`*`).
    fn default() -> (p: Self)
        ensures
            p@ == default_policy("*"@),
    {
        let p = Policy {
            repo: String::from_str("*"),
            require_signed: true,
            require_check_strict: true,
            allowed_branches: Vec::new(),
            blocked_env_keys: Vec::new(),
        };
        assert(p@.allowed_branches =~= Seq::<Seq<char>>::empty());
        assert(p@.blocked_env_keys =~= Seq::<Seq<char>>::empty());
        p
    }
}

impl Policy {
    /// The default policy for `repo`.
    pub fn for_repo(repo: &str) -> (p: Self)
        ensures
            p@ == default_policy(repo@),
    {
        let p = Policy {
            repo: String::from_str(repo),
            require_signed: true,
            require_check_strict: true,
            allowed_branches: Vec::new(),
            blocked_env_keys: Vec::new(),
        };
        assert(p@.allowed_branches =~= Seq::<Seq<char>>::empty());
        assert(p@.blocked_env_keys =~= Seq::<Seq<char>>::empty());
        p
    }

    /// This policy, for `repo`, with each given setting replacing the one
    /// it had.
    pub fn updated(
        self,
        repo: &str,
        require_signed: Option<bool>,
        require_check_strict: Option<bool>,
        allowed_branches: Option<Vec<String>>,
        blocked_env_keys: Option<Vec<String>>,
    ) -> (p: Self)
        ensures
            p@ == (PolicyView {
                repo: repo@,
                require_signed: match require_signed {
                    Some(v) => v,
                    None => self@.require_signed,
                },
                require_check_strict: match require_check_strict {
                    Some(v) => v,
                    None => self@.require_check_strict,
                },
                allowed_branches: match allowed_branches {
                    Some(v) => strings_view(v@),
                    None => self@.allowed_branches,
                },
                blocked_env_keys: match blocked_env_keys {
                    Some(v) => strings_view(v@),
                    None => self@.blocked_env_keys,
                },
            }),
    {
        let mut p = self;
        p.repo = String::from_str(repo);
        if let Some(v) = require_signed {
            p.require_signed = v;
        }
        if let Some(v) = require_check_strict {
            p.require_check_strict = v;
        }
        if let Some(v) = allowed_branches {
            p.allowed_branches = v;
        }
        if let Some(v) = blocked_env_keys {
            p.blocked_env_keys = v;
        }
        p
    }
}

/// A list given on the command line replaces a setting only when it is not
/// empty.
pub fn nonempty(v: Vec<String>) -> (r: Option<Vec<String>>)
    ensures
        v@.len() == 0 ==> r is None,
        v@.len() > 0 ==> r == Some(v),
{
    if v.len() == 0 {
        None
    } else {
        Some(v)
    }
}

/// Whether `token` may be stored: not blank, on one line, at least 8 bytes.
pub open spec fn token_acceptable(token: Seq<char>) -> bool {
    !all_ws(token) && !token.contains('\n') && str_byte_len(token) >= 8
}

/// The entries of an audit log that concern `repo`, or all of them.
pub open spec fn audit_filtered(es: Seq<AuditEntryView>, repo: Option<Seq<char>>) -> Seq<AuditEntryView> {
    match repo {
        None => es,
        Some(r) => es.filter(|e: AuditEntryView| e.repo == r),
    }
}

/// The fabric's files: tokens and policies under its own root, the audit
/// log beside the registry.
#[derive(Debug)]
pub struct Fabric {
    root: String,
    registry_root: String,
}

impl View for Fabric {
    type V = (Seq<char>, Seq<char>);

    closed spec fn view(&self) -> (Seq<char>, Seq<char>) {
        (self.root@, self.registry_root@)
    }
}

impl Fabric {
    /// A handle on the fabric at `fabric_root` beside the registry at
    /// `registry_root`; nothing is read or created.
    pub fn new(fabric_root: &str, registry_root: &str) -> (f: Self)
        ensures
            f@ == (fabric_root@, registry_root@),
    {
        Fabric { root: String::from_str(fabric_root), registry_root: String::from_str(registry_root) }
    }

    /// `<registry root>/audit.log`.
    pub fn audit_path(&self) -> (p: String)
        ensures
            p@ == path_join(self@.1, "audit.log"@),
    {
        join_path(self.registry_root.as_str(), "audit.log")
    }

    /// `<fabric root>/tokens.json`.
    pub fn tokens_path(&self) -> (p: String)
        ensures
            p@ == path_join(self@.0, "tokens.json"@),
    {
        join_path(self.root.as_str(), "tokens.json")
    }

    /// `<fabric root>/policy-<escaped repo>.json`.
    pub fn policy_path(&self, repo: &str) -> (p: String)
        ensures
            p@ == path_join(self@.0, "policy-"@ + sanitized(repo@) + ".json"@),
    {
        let name = concat(concat("policy-", sanitize(repo).as_str()).as_str(), ".json");
        join_path(self.root.as_str(), name.as_str())
    }

    /// The actor that `token` names in `tokens`, if any.
    pub fn verify_token(&self, tokens: &StrMap, token: &str) -> (r: Option<String>)
        ensures
            match lookup(tokens@, token@) {
                Some(a) => r matches Some(x) && x@ == a,
                None => r is None,
            },
    {
        match tokens.get(token) {
            Some(a) => Some(a.clone()),
            None => None,
        }
    }

    /// Records that `token` names `actor`, for an acceptable token.
    pub fn add_token(&self, tokens: &mut StrMap, token: &str, actor: &str) -> (r: Result<(), TaprootError>)
        ensures
            token_acceptable(token@) ==> r is Ok && final(tokens)@ == map_insert(old(tokens)@, token@, actor@),
            !token_acceptable(token@) ==> (r matches Err(TaprootError::InvalidKey(m)) && m@ == "invalid token"@)
                && final(tokens)@ == old(tokens)@,
    {
        if is_blank(token) || has_char(token, '\n') || token.len() < 8 {
            return Err(TaprootError::InvalidKey(String::from_str("invalid token")));
        }
        tokens.insert(String::from_str(token), String::from_str(actor));
        Ok(())
    }

    /// The entries of the audit log about `repo`, or all of them, in order.
    pub fn audit_log(&self, entries: Vec<AuditEntry>, filter_repo: Option<&str>) -> (r: Vec<AuditEntry>)
        ensures
            audit_view(r@) == audit_filtered(audit_view(entries@), match filter_repo {
                Some(f) => Some(f@),
                None => None,
            }),
    {
        match filter_repo {
            None => entries,
            Some(want) => {
                let ghost ev = audit_view(entries@);
                let ghost pred = |e: AuditEntryView| e.repo == want@;
                let n: usize = entries.len();
                let mut out: Vec<AuditEntry> = Vec::new();
                let mut i: usize = 0;
                while i < n
                    invariant
                        n == entries@.len(),
                        ev == audit_view(entries@),
                        pred == (|e: AuditEntryView| e.repo == want@),
                        i <= n,
                        audit_view(out@) == ev.take(i as int).filter(pred),
                    decreases n - i,
                {
                    proof {
                        assert(ev.take(i + 1).drop_last() =~= ev.take(i as int));
                        reveal(Seq::filter);
                    }
                    if text_equal(entries[i].repo.as_str(), want) {
                        out.push(entries[i].clone());
                        assert(audit_view(out@) =~= ev.take(i + 1).filter(pred));
                    } else {
                        assert(audit_view(out@) =~= ev.take(i + 1).filter(pred));
                    }
                    i = i + 1;
                }
                assert(ev.take(n as int) =~= ev);
                out
            },
        }
    }

    /// The policy stored for `repo`, or its default policy when none is.
    pub fn get_policy(&self, repo: &str, stored: Option<Policy>) -> (p: Policy)
        ensures
            match stored {
                Some(s) => p@ == s@,
                None => p@ == default_policy(repo@),
            },
    {
        match stored {
            Some(s) => s,
            None => Policy::for_repo(repo),
        }
    }
}

/// A token that was added names its actor: after `add_token(t, a)`
/// succeeds, `verify_token(t)` is `a`; other tokens are unaffected.
pub proof fn lemma_token_roundtrip(tokens: Seq<TextPair>, token: Seq<char>, actor: Seq<char>, other: Seq<char>)
    ensures
        lookup(map_insert(tokens, token, actor), token) == Some(actor),
        other != token ==> lookup(map_insert(tokens, token, actor), other) == lookup(tokens, other),
{
    lemma_map_insert_lookup(tokens, token, actor, token);
    lemma_map_insert_lookup(tokens, token, actor, other);
}

/// Appending an entry to the log extends every view of it by that entry
/// alone: the whole log by `e`, and the entries about `repo` by `e` exactly
/// when `e` is about `repo`. What was listed before stays, in order.
pub proof fn lemma_audit_append(log: Seq<AuditEntryView>, e: AuditEntryView, repo: Option<Seq<char>>)
    ensures
        audit_filtered(log.push(e), repo) == audit_filtered(log, repo) + (match repo {
            Some(r) => if e.repo == r { seq![e] } else { Seq::<AuditEntryView>::empty() },
            None => seq![e],
        }),
{
    if let Some(r) = repo {
        let pred = |x: AuditEntryView| x.repo == r;
        reveal(Seq::filter);
        assert(log.push(e).drop_last() =~= log);
        if e.repo == r {
            assert(log.push(e).filter(pred) =~= log.filter(pred) + seq![e]);
        } else {
            assert(log.push(e).filter(pred) =~= log.filter(pred) + Seq::<AuditEntryView>::empty());
        }
    } else {
        assert(log.push(e) =~= log + seq![e]);
    }
}

} // verus!
