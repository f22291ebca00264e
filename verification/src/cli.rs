//! The command line: its arguments, where its files live by default, and
//! the decisions its commands make between reading and printing.

use vstd::prelude::*;
use vstd::string::*;

use crate::diff::{DiffKind, FieldDiff, FieldDiffView, Severity};
use crate::engine::{signed_with, state_hash, verify_failure, StateEngine};
use crate::error::TaprootError;
use crate::fabric::Policy;
use crate::mount::MountTarget;
use crate::state::{SignedState, TaprootState};
use crate::text::{concat, decimal, decimal_string};
use crate::trusted::{base64_bytes, base64_error_text, is_base64_char};
use crate::util::{name_problem, validate_non_empty};

verus! {

// ---------------------------------------------------------------------------
// Arguments
// ---------------------------------------------------------------------------

/// The command line.
#[derive(Debug)]
pub struct Cli {
    pub command: Commands,
}

/// The commands.
#[derive(Debug)]
pub enum Commands {
    /// Initialise a new taproot state snapshot
    Init(InitArgs),
    /// Mount a taproot state (read-only FUSE, except the env file)
    Mount(MountArgs),
    /// Show current state status
    Status(StatusArgs),
    /// Verify state signature and hash
    Verify(VerifyArgs),
    /// Check current state against a baseline for drift (strict)
    Check(CheckArgs),
    /// Local signed state registry (content-addressed)
    Registry(RegistryArgs),
    /// Key management (ed25519)
    Keys(KeysArgs),
    /// Fabric: audit, policy, tokens
    Fabric(FabricArgs),
    /// Serve registry API (managed fabric)
    Serve(ServeArgs),
    /// Remote registry (push/pull via HTTP)
    Remote(RemoteArgs),
}

/// Arguments of `taproot init`.
#[derive(Debug)]
pub struct InitArgs {
    pub repo: String,
    pub branch: String,
    pub commit: String,
    pub state_path: Option<String>,
    pub no_sign: bool,
}

/// Arguments of `taproot mount`.
#[derive(Debug)]
pub struct MountArgs {
    pub path: String,
    pub state_path: Option<String>,
    pub no_fuse: bool,
}

/// Arguments of `taproot status`.
#[derive(Debug)]
pub struct StatusArgs {
    pub state_path: Option<String>,
}

/// Arguments of `taproot verify`.
#[derive(Debug)]
pub struct VerifyArgs {
    pub state_path: Option<String>,
}

/// Arguments of `taproot check`.
#[derive(Debug)]
pub struct CheckArgs {
    pub baseline: String,
    pub state_path: Option<String>,
    pub json: bool,
    pub strict: bool,
    pub no_strict: bool,
    pub allow_warnings: bool,
}

/// Arguments of `taproot registry`.
#[derive(Debug)]
pub struct RegistryArgs {
    pub command: RegistryCommands,
}

/// The subcommands of `taproot registry`.
#[derive(Debug)]
pub enum RegistryCommands {
    Push(RegistryPushArgs),
    Pull(RegistryPullArgs),
    List(RegistryListArgs),
    Show(RegistryShowArgs),
    Resolve(RegistryResolveArgs),
    Log(RegistryLogArgs),
}

/// Arguments of `taproot registry push`.
#[derive(Debug)]
pub struct RegistryPushArgs {
    pub state_path: Option<String>,
    pub registry: Option<String>,
}

/// Arguments of `taproot registry pull`.
#[derive(Debug)]
pub struct RegistryPullArgs {
    pub hash: String,
    pub out: Option<String>,
    pub registry: Option<String>,
}

/// Arguments of `taproot registry list`.
#[derive(Debug)]
pub struct RegistryListArgs {
    pub repo: String,
    pub registry: Option<String>,
}

/// Arguments of `taproot registry show`.
#[derive(Debug)]
pub struct RegistryShowArgs {
    pub hash: String,
    pub registry: Option<String>,
}

/// Arguments of `taproot registry resolve`.
#[derive(Debug)]
pub struct RegistryResolveArgs {
    pub repo: String,
    pub branch: String,
    pub registry: Option<String>,
}

/// Arguments of `taproot registry log`.
#[derive(Debug)]
pub struct RegistryLogArgs {
    pub repo: String,
    pub branch: String,
    pub registry: Option<String>,
}

/// Arguments of `taproot keys`.
#[derive(Debug)]
pub struct KeysArgs {
    pub command: KeysCommands,
}

/// The subcommands of `taproot keys`.
#[derive(Debug)]
pub enum KeysCommands {
    Generate(KeysGenerateArgs),
    List(KeysListArgs),
    Show(KeysShowArgs),
    Rotate(KeysRotateArgs),
}

/// Arguments of `taproot keys generate`.
#[derive(Debug)]
pub struct KeysGenerateArgs {
    pub id: Option<String>,
    pub keys: Option<String>,
}

/// Arguments of `taproot keys list`.
#[derive(Debug)]
pub struct KeysListArgs {
    pub keys: Option<String>,
}

/// Arguments of `taproot keys show`.
#[derive(Debug)]
pub struct KeysShowArgs {
    pub id: String,
    pub keys: Option<String>,
}

/// Arguments of `taproot keys rotate`.
#[derive(Debug)]
pub struct KeysRotateArgs {
    pub deactivate_old: bool,
    pub keys: Option<String>,
}

/// Arguments of `taproot fabric`.
#[derive(Debug)]
pub struct FabricArgs {
    pub command: FabricCommands,
}

/// The subcommands of `taproot fabric`.
#[derive(Debug)]
pub enum FabricCommands {
    Audit(FabricAuditArgs),
    PolicyGet(FabricPolicyGetArgs),
    PolicySet(FabricPolicySetArgs),
    TokenAdd(FabricTokenAddArgs),
    TokenList(FabricTokenListArgs),
}

/// Arguments of `taproot fabric audit`.
#[derive(Debug)]
pub struct FabricAuditArgs {
    pub repo: Option<String>,
    pub fabric: Option<String>,
    pub registry: Option<String>,
}

/// Arguments of `taproot fabric policy-get`.
#[derive(Debug)]
pub struct FabricPolicyGetArgs {
    pub repo: String,
    pub fabric: Option<String>,
    pub registry: Option<String>,
}

/// Arguments of `taproot fabric policy-set`.
#[derive(Debug)]
pub struct FabricPolicySetArgs {
    pub repo: String,
    pub require_signed: Option<bool>,
    pub require_check_strict: Option<bool>,
    pub allow_branch: Vec<String>,
    pub block_env: Vec<String>,
    pub fabric: Option<String>,
    pub registry: Option<String>,
}

/// Arguments of `taproot fabric token-add`.
#[derive(Debug)]
pub struct FabricTokenAddArgs {
    pub token: String,
    pub actor: String,
    pub fabric: Option<String>,
    pub registry: Option<String>,
}

/// Arguments of `taproot fabric token-list`.
#[derive(Debug)]
pub struct FabricTokenListArgs {
    pub fabric: Option<String>,
    pub registry: Option<String>,
}

/// Arguments of `taproot serve`.
#[derive(Debug)]
pub struct ServeArgs {
    pub addr: String,
    pub registry: Option<String>,
    pub fabric: Option<String>,
}

/// Arguments of `taproot remote`.
#[derive(Debug)]
pub struct RemoteArgs {
    pub command: RemoteCommands,
}

/// The subcommands of `taproot remote`.
#[derive(Debug)]
pub enum RemoteCommands {
    Push(RemotePushArgs),
    Pull(RemotePullArgs),
    Resolve(RemoteResolveArgs),
    Check(RemoteCheckArgs),
}

/// Arguments of `taproot remote push`.
#[derive(Debug)]
pub struct RemotePushArgs {
    pub remote: String,
    pub state_path: Option<String>,
    pub token: Option<String>,
}

/// Arguments of `taproot remote pull`.
#[derive(Debug)]
pub struct RemotePullArgs {
    pub hash: String,
    pub remote: String,
    pub out: Option<String>,
    pub token: Option<String>,
}

/// Arguments of `taproot remote resolve`.
#[derive(Debug)]
pub struct RemoteResolveArgs {
    pub repo: String,
    pub branch: String,
    pub remote: String,
    pub token: Option<String>,
}

/// Arguments of `taproot remote check`.
#[derive(Debug)]
pub struct RemoteCheckArgs {
    pub baseline_hash: String,
    pub current_hash: String,
    pub remote: String,
    pub strict: bool,
    pub json: bool,
}

// ---------------------------------------------------------------------------
// Default paths
// ---------------------------------------------------------------------------

/// The given path, or `default` when none is given.
pub fn resolve_or_default(input: Option<String>, default: &str) -> (p: String)
    ensures
        p@ == (match input {
            Some(s) => s@,
            None => default@,
        }),
{
    match input {
        Some(s) => s,
        None => String::from_str(default),
    }
}

/// The state file: `.taproot/state.json` by default.
pub fn resolve_state_path(input: Option<String>) -> (p: String)
    ensures
        p@ == (match input {
            Some(s) => s@,
            None => ".taproot/state.json"@,
        }),
{
    resolve_or_default(input, ".taproot/state.json")
}

/// The registry root: `.taproot/registry` by default.
pub fn resolve_registry_path(input: Option<String>) -> (p: String)
    ensures
        p@ == (match input {
            Some(s) => s@,
            None => ".taproot/registry"@,
        }),
{
    resolve_or_default(input, ".taproot/registry")
}

/// The key store: `.taproot/keys` by default.
pub fn resolve_keys_path(input: Option<String>) -> (p: String)
    ensures
        p@ == (match input {
            Some(s) => s@,
            None => ".taproot/keys"@,
        }),
{
    resolve_or_default(input, ".taproot/keys")
}

/// The fabric root: `.taproot/fabric` by default.
pub fn resolve_fabric_path(input: Option<String>) -> (p: String)
    ensures
        p@ == (match input {
            Some(s) => s@,
            None => ".taproot/fabric"@,
        }),
{
    resolve_or_default(input, ".taproot/fabric")
}

// ---------------------------------------------------------------------------
// Decisions
// ---------------------------------------------------------------------------

/// The first `n` characters of `s`, or all of it when shorter: how hashes
/// and keys are abbreviated.
pub fn prefix_of(s: &str, n: usize) -> (r: String)
    ensures
        r@ == (if s@.len() <= n { s@ } else { s@.take(n as int) }),
{
    let len: usize = s.unicode_len();
    if len <= n {
        String::from_str(s)
    } else {
        let r = String::from_str(s.substring_char(0, n));
        assert(s@.subrange(0, n as int) =~= s@.take(n as int));
        r
    }
}

/// The state that `taproot init` records for valid names: a fresh state
/// for `repo` at `branch@commit`.
pub fn init_state(repo: &str, branch: &str, commit: &str) -> (r: Result<TaprootState, TaprootError>)
    ensures
        match name_problem("repo"@, repo@) {
            Some(m) => r matches Err(TaprootError::InvalidKey(x)) && x@ == m,
            None => match name_problem("branch"@, branch@) {
                Some(m) => r matches Err(TaprootError::InvalidKey(x)) && x@ == m,
                None => match name_problem("commit"@, commit@) {
                    Some(m) => r matches Err(TaprootError::InvalidKey(x)) && x@ == m,
                    None => r matches Ok(s) && s@.version == "1.0"@ && s@.base.repo == repo@
                        && s@.base.branch == branch@ && s@.base.commit == commit@ && s@.runtimes.len() == 0
                        && s@.containers.len() == 0 && s@.env_vars.len() == 0 && s@.notes is None,
                },
            },
        },
{
    match validate_non_empty("repo", repo) {
        Err(e) => {
            return Err(e);
        },
        Ok(()) => {},
    }
    match validate_non_empty("branch", branch) {
        Err(e) => {
            return Err(e);
        },
        Ok(()) => {},
    }
    match validate_non_empty("commit", commit) {
        Err(e) => {
            return Err(e);
        },
        Ok(()) => {},
    }
    Ok(TaprootState::new(repo, branch, commit))
}

/// The envelope `taproot init` saves: with `no_sign`, the state and its
/// hash only; otherwise signed with `key` (the store's default key) or,
/// when there is none, with a fresh ephemeral key.
pub fn init_envelope(state: &TaprootState, no_sign: bool, key: Option<&str>) -> (r: Result<SignedState, TaprootError>)
    ensures
        no_sign ==> (r matches Ok(s) && s@.state == state@ && s@.hash == state_hash(state@) && s@.signature is None
            && s@.public_key is None),
        !no_sign && key is None ==> (r matches Ok(s) && s@.state == state@ && verify_failure(s@) is None
            && s@.signature is Some),
        !no_sign && key is Some ==> match base64_bytes(crate::text::trim(key->Some_0@)) {
            Some(k) => if k.len() == 32 {
                r matches Ok(s) && s@ == signed_with(state@, k) && verify_failure(s@) is None
            } else {
                r matches Err(TaprootError::InvalidKey(m)) && m@ == "private key must be 32 bytes"@
            },
            None => r matches Err(TaprootError::InvalidKey(m))
                && m@ == base64_error_text(crate::text::trim(key->Some_0@)),
        },
{
    if no_sign {
        let hash = match StateEngine::hash(state) {
            Ok(h) => h,
            Err(e) => {
                return Err(e);
            },
        };
        return Ok(SignedState { state: state.clone(), hash, signature: None, public_key: None });
    }
    match key {
        Some(k) => StateEngine::sign(state, k),
        None => {
            let (secret, _public) = StateEngine::generate_keypair();
            proof {
                lemma_base64_trim(secret@);
            }
            StateEngine::sign(state, secret.as_str())
        },
    }
}

/// Base64 text has no surrounding whitespace to trim.
proof fn lemma_base64_trim(text: Seq<char>)
    requires
        forall|i: int| 0 <= i < text.len() ==> is_base64_char(#[trigger] text[i]),
    ensures
        crate::text::trim(text) == text,
{
    if text.len() > 0 {
        assert(is_base64_char(text[0]));
        assert(is_base64_char(text.last()));
    }
}

/// Whether `taproot mount` goes on to a FUSE mount at `path`, which must be
/// an existing empty directory: a symlink, a non-directory, a missing target
/// and a directory that holds entries are refused, with `no_fuse` too;
/// `Ok(false)` means the target was validated and no mount is made.
pub fn mount_decision(target: &MountTarget, path: &str, no_fuse: bool) -> (r: Result<bool, TaprootError>)
    ensures
        match target {
            MountTarget::Symlink => r matches Err(TaprootError::Mount(m))
                && m@ == "mountpoint is a symlink (refusing): "@ + path@,
            MountTarget::NotDirectory => r matches Err(TaprootError::Mount(m))
                && m@ == "mountpoint is not a directory: "@ + path@,
            MountTarget::Missing(_) => r matches Err(TaprootError::Mount(m))
                && m@ == "mountpoint does not exist: "@ + path@,
            MountTarget::NonEmptyDirectory => r matches Err(TaprootError::Mount(m))
                && m@ == "mountpoint is not empty: "@ + path@,
            MountTarget::Directory => r == Ok::<bool, TaprootError>(!no_fuse),
        },
{
    match target {
        MountTarget::Symlink => Err(TaprootError::Mount(concat("mountpoint is a symlink (refusing): ", path))),
        MountTarget::NotDirectory => Err(TaprootError::Mount(concat("mountpoint is not a directory: ", path))),
        MountTarget::Missing(_) => Err(TaprootError::Mount(concat("mountpoint does not exist: ", path))),
        MountTarget::NonEmptyDirectory => Err(TaprootError::Mount(concat("mountpoint is not empty: ", path))),
        MountTarget::Directory => Ok(!no_fuse),
    }
}

/// `s` without trailing `/`s.
pub open spec fn without_trailing_slashes(s: Seq<char>) -> Seq<char>
    decreases s.len(),
{
    if s.len() > 0 && s.last() == '/' {
        without_trailing_slashes(s.drop_last())
    } else {
        s
    }
}

proof fn lemma_without_trailing_slashes(s: Seq<char>, e: int)
    requires
        0 <= e <= s.len(),
        forall|j: int| e <= j < s.len() ==> s[j] == '/',
        e == 0 || s[e - 1] != '/',
    ensures
        without_trailing_slashes(s) == s.take(e),
    decreases s.len() - e,
{
    if e < s.len() {
        assert(s.drop_last().take(e) =~= s.take(e));
        lemma_without_trailing_slashes(s.drop_last(), e);
    } else {
        assert(s.take(e) =~= s);
    }
}

/// The URL of an API route on a remote registry: the remote's base without
/// trailing `/`, then `route`.
pub fn remote_url(remote: &str, route: &str) -> (u: String)
    ensures
        u@ == without_trailing_slashes(remote@) + route@,
{
    let n: usize = remote.unicode_len();
    let mut e: usize = n;
    while e > 0 && remote.get_char(e - 1) == '/'
        invariant
            n == remote@.len(),
            e <= n,
            forall|j: int| e <= j < n ==> remote@[j] == '/',
        decreases e,
    {
        e = e - 1;
    }
    proof {
        lemma_without_trailing_slashes(remote@, e as int);
        assert(remote@.subrange(0, e as int) =~= remote@.take(e as int));
    }
    concat(remote.substring_char(0, e), route)
}

/// The `Authorization` header value for a bearer token.
pub fn bearer_header(token: &str) -> (h: String)
    ensures
        h@ == "Bearer "@ + token@,
{
    concat("Bearer ", token)
}

/// The error for a remote request answered with a failure status: what
/// was attempted and the body of the answer.
pub fn remote_failure(context: &str, body: &str) -> (e: TaprootError)
    ensures
        e matches TaprootError::InvalidKey(m) && m@ == context@ + " failed: "@ + body@,
{
    let a = concat(context, " failed: ");
    TaprootError::InvalidKey(concat(a.as_str(), body))
}

/// A remote drift check fails when the remote reports breaking drift.
pub fn remote_check_outcome(has_breaking: bool) -> (r: Result<(), TaprootError>)
    ensures
        has_breaking ==> (r matches Err(TaprootError::Drift { breaking, warning }) && breaking == 1 && warning == 0),
        !has_breaking ==> r is Ok,
{
    if has_breaking {
        Err(TaprootError::Drift { breaking: 1, warning: 0 })
    } else {
        Ok(())
    }
}

/// A local push is refused when the repository's policy requires signing
/// and the state is unsigned.
pub fn local_push_policy(policy: &Policy, signed: &SignedState) -> (r: Result<(), TaprootError>)
    ensures
        policy@.require_signed && signed@.signature is None ==> (r matches Err(TaprootError::InvalidKey(m))
            && m@ == "policy requires signed state"@),
        !(policy@.require_signed && signed@.signature is None) ==> r is Ok,
{
    if policy.require_signed && signed.signature.is_none() {
        Err(TaprootError::InvalidKey(String::from_str("policy requires signed state")))
    } else {
        Ok(())
    }
}

/// The summary line of a check's drift: `breaking` and `warnings` counts,
/// `warning` in the singular for exactly one.
pub fn drift_summary(breaking: usize, warnings: usize) -> (s: String)
    ensures
        s@ == "drift:      "@ + decimal(breaking as nat) + " breaking, "@ + decimal(warnings as nat) + " warning"@
            + (if warnings == 1 { ""@ } else { "s"@ }),
{
    let a = concat("drift:      ", decimal_string(breaking as u64).as_str());
    let b = concat(a.as_str(), " breaking, ");
    let c = concat(b.as_str(), decimal_string(warnings as u64).as_str());
    let d = concat(c.as_str(), " warning");
    if warnings == 1 {
        concat(d.as_str(), "")
    } else {
        concat(d.as_str(), "s")
    }
}

/// How a check prints one difference.
pub open spec fn diff_line_text(d: FieldDiffView) -> Seq<char> {
    let icon = if d.severity == Severity::Breaking { "\u{2717}"@ } else { "\u{26a0}"@ };
    let sev = if d.severity == Severity::Breaking { "breaking"@ } else { "warning"@ };
    match d.kind {
        DiffKind::Changed => "  "@ + icon + " "@ + d.path + ": "@ + (match d.expected {
            Some(e) => e,
            None => "null"@,
        }) + " -> "@ + (match d.actual {
            Some(a) => a,
            None => "null"@,
        }) + " (changed, "@ + sev + ")"@,
        DiffKind::Added => "  "@ + icon + " "@ + d.path + ": +"@ + (match d.actual {
            Some(a) => a,
            None => ""@,
        }) + " (added, "@ + sev + ")"@,
        DiffKind::Removed => "  "@ + icon + " "@ + d.path + ": -"@ + (match d.expected {
            Some(e) => e,
            None => ""@,
        }) + " (removed, "@ + sev + ")"@,
    }
}

fn text_or(o: &Option<String>, dflt: &str) -> (r: String)
    ensures
        r@ == (match o {
            Some(s) => s@,
            None => dflt@,
        }),
{
    match o {
        Some(s) => s.clone(),
        None => String::from_str(dflt),
    }
}

/// The line a check prints for the difference `d`.
pub fn diff_line(d: &FieldDiff) -> (s: String)
    ensures
        s@ == diff_line_text(d@),
{
    let icon: &str = if d.severity == Severity::Breaking { "\u{2717}" } else { "\u{26a0}" };
    let sev: &str = if d.severity == Severity::Breaking { "breaking" } else { "warning" };
    let head = concat(concat(concat("  ", icon).as_str(), " ").as_str(), d.path.as_str());
    match d.kind {
        DiffKind::Changed => {
            let a = concat(head.as_str(), ": ");
            let b = concat(a.as_str(), text_or(&d.expected, "null").as_str());
            let c = concat(b.as_str(), " -> ");
            let e = concat(c.as_str(), text_or(&d.actual, "null").as_str());
            let f = concat(e.as_str(), " (changed, ");
            concat(concat(f.as_str(), sev).as_str(), ")")
        },
        DiffKind::Added => {
            let a = concat(head.as_str(), ": +");
            let b = concat(a.as_str(), text_or(&d.actual, "").as_str());
            let f = concat(b.as_str(), " (added, ");
            concat(concat(f.as_str(), sev).as_str(), ")")
        },
        DiffKind::Removed => {
            let a = concat(head.as_str(), ": -");
            let b = concat(a.as_str(), text_or(&d.expected, "").as_str());
            let f = concat(b.as_str(), " (removed, ");
            concat(concat(f.as_str(), sev).as_str(), ")")
        },
    }
}

} // verus!
