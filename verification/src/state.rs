//! The environment state: a git baseline, pinned runtimes, containerised
//! services and environment variables, and its signed envelope.

use vstd::prelude::*;
use vstd::string::*;

use crate::strmap::{map_insert, StrMap, TextPair};
use crate::trusted::now_timestamp;

verus! {

/// The text of an optional string.
pub open spec fn opt_text(o: Option<String>) -> Option<Seq<char>> {
    match o {
        Some(s) => Some(s@),
        None => None,
    }
}

pub fn clone_opt(o: &Option<String>) -> (r: Option<String>)
    ensures
        opt_text(r) == opt_text(*o),
{
    match o {
        Some(s) => Some(s.clone()),
        None => None,
    }
}

/// Git baseline this environment inherits from: branch plus commit.
#[derive(Debug, PartialEq, Eq)]
pub struct BaseRef {
    pub repo: String,
    pub branch: String,
    pub commit: String,
}

pub struct BaseRefView {
    pub repo: Seq<char>,
    pub branch: Seq<char>,
    pub commit: Seq<char>,
}

impl View for BaseRef {
    type V = BaseRefView;

    open spec fn view(&self) -> BaseRefView {
        BaseRefView { repo: self.repo@, branch: self.branch@, commit: self.commit@ }
    }
}

impl Clone for BaseRef {
    fn clone(&self) -> (r: Self)
        ensures
            r@ == self@,
    {
        BaseRef { repo: self.repo.clone(), branch: self.branch.clone(), commit: self.commit.clone() }
    }
}

/// A pinned runtime, such as python 3.11.4.
#[derive(Debug, PartialEq, Eq)]
pub struct Runtime {
    pub name: String,
    pub version: String,
    pub pinned: bool,
}

pub struct RuntimeView {
    pub name: Seq<char>,
    pub version: Seq<char>,
    pub pinned: bool,
}

impl View for Runtime {
    type V = RuntimeView;

    open spec fn view(&self) -> RuntimeView {
        RuntimeView { name: self.name@, version: self.version@, pinned: self.pinned }
    }
}

impl Clone for Runtime {
    fn clone(&self) -> (r: Self)
        ensures
            r@ == self@,
    {
        Runtime { name: self.name.clone(), version: self.version.clone(), pinned: self.pinned }
    }
}

/// A containerised service, such as postgres 15.3.
#[derive(Debug, PartialEq, Eq)]
pub struct Container {
    pub name: String,
    pub version: String,
    /// e.g. postgres:15.3 or a full digest
    pub image: String,
    pub signed: bool,
}

pub struct ContainerView {
    pub name: Seq<char>,
    pub version: Seq<char>,
    pub image: Seq<char>,
    pub signed: bool,
}

impl View for Container {
    type V = ContainerView;

    open spec fn view(&self) -> ContainerView {
        ContainerView {
            name: self.name@,
            version: self.version@,
            image: self.image@,
            signed: self.signed,
        }
    }
}

impl Clone for Container {
    fn clone(&self) -> (r: Self)
        ensures
            r@ == self@,
    {
        Container {
            name: self.name.clone(),
            version: self.version.clone(),
            image: self.image.clone(),
            signed: self.signed,
        }
    }
}

pub open spec fn runtimes_view(v: Seq<Runtime>) -> Seq<RuntimeView> {
    v.map_values(|r: Runtime| r@)
}

pub open spec fn containers_view(v: Seq<Container>) -> Seq<ContainerView> {
    v.map_values(|c: Container| c@)
}

pub fn clone_runtimes(v: &Vec<Runtime>) -> (r: Vec<Runtime>)
    ensures
        runtimes_view(r@) == runtimes_view(v@),
{
    let mut r: Vec<Runtime> = Vec::new();
    let n: usize = v.len();
    let mut i: usize = 0;
    while i < n
        invariant
            n == v@.len(),
            i <= n,
            r@.len() == i,
            forall|j: int| 0 <= j < i ==> (#[trigger] r@[j])@ == v@[j]@,
        decreases n - i,
    {
        r.push(v[i].clone());
        i = i + 1;
    }
    assert(runtimes_view(r@) =~= runtimes_view(v@));
    r
}

pub fn clone_containers(v: &Vec<Container>) -> (r: Vec<Container>)
    ensures
        containers_view(r@) == containers_view(v@),
{
    let mut r: Vec<Container> = Vec::new();
    let n: usize = v.len();
    let mut i: usize = 0;
    while i < n
        invariant
            n == v@.len(),
            i <= n,
            r@.len() == i,
            forall|j: int| 0 <= j < i ==> (#[trigger] r@[j])@ == v@[j]@,
        decreases n - i,
    {
        r.push(v[i].clone());
        i = i + 1;
    }
    assert(containers_view(r@) =~= containers_view(v@));
    r
}

/// The core state object: everything needed to reproduce the environment.
/// `env_vars` is ordered by key, so its rendering is deterministic.
#[derive(Debug, PartialEq, Eq)]
pub struct TaprootState {
    /// Schema version, e.g. "1.0"
    pub version: String,
    pub base: BaseRef,
    pub runtimes: Vec<Runtime>,
    pub containers: Vec<Container>,
    pub env_vars: StrMap,
    /// When the snapshot was taken, as RFC 3339 text in UTC (`...Z`).
    pub created_at: String,
    /// Optional freeform notes
    pub notes: Option<String>,
}

pub struct StateView {
    pub version: Seq<char>,
    pub base: BaseRefView,
    pub runtimes: Seq<RuntimeView>,
    pub containers: Seq<ContainerView>,
    pub env_vars: Seq<TextPair>,
    pub created_at: Seq<char>,
    pub notes: Option<Seq<char>>,
}

impl View for TaprootState {
    type V = StateView;

    open spec fn view(&self) -> StateView {
        StateView {
            version: self.version@,
            base: self.base@,
            runtimes: runtimes_view(self.runtimes@),
            containers: containers_view(self.containers@),
            env_vars: self.env_vars@,
            created_at: self.created_at@,
            notes: opt_text(self.notes),
        }
    }
}

impl Clone for TaprootState {
    fn clone(&self) -> (r: Self)
        ensures
            r@ == self@,
    {
        TaprootState {
            version: self.version.clone(),
            base: self.base.clone(),
            runtimes: clone_runtimes(&self.runtimes),
            containers: clone_containers(&self.containers),
            env_vars: self.env_vars.clone(),
            created_at: self.created_at.clone(),
            notes: clone_opt(&self.notes),
        }
    }
}

impl TaprootState {
    /// A fresh state at schema version 1.0 for `repo` at `branch@commit`,
    /// stamped with the current time, with no runtimes, containers, variables
    /// or notes.
    pub fn new(repo: &str, branch: &str, commit: &str) -> (s: Self)
        ensures
            s@.version == "1.0"@,
            s@.base == (BaseRefView { repo: repo@, branch: branch@, commit: commit@ }),
            s@.runtimes.len() == 0,
            s@.containers.len() == 0,
            s@.env_vars.len() == 0,
            s@.notes is None,
    {
        let s = TaprootState {
            version: String::from_str("1.0"),
            base: BaseRef {
                repo: String::from_str(repo),
                branch: String::from_str(branch),
                commit: String::from_str(commit),
            },
            runtimes: Vec::new(),
            containers: Vec::new(),
            env_vars: StrMap::new(),
            created_at: now_timestamp(),
            notes: None,
        };
        assert(s@.runtimes =~= Seq::<RuntimeView>::empty());
        assert(s@.containers =~= Seq::<ContainerView>::empty());
        s
    }

    /// The same state with a pinned runtime appended.
    pub fn with_runtime(self, name: &str, version: &str) -> (s: Self)
        ensures
            s@ == (StateView {
                runtimes: self@.runtimes.push(RuntimeView { name: name@, version: version@, pinned: true }),
                ..self@
            }),
    {
        let mut s = self;
        s.runtimes.push(Runtime { name: String::from_str(name), version: String::from_str(version), pinned: true });
        assert(runtimes_view(s.runtimes@) =~= runtimes_view(self.runtimes@).push(RuntimeView { name: name@, version: version@, pinned: true }));
        s
    }

    /// The same state with a signed container appended.
    pub fn with_container(self, name: &str, version: &str, image: &str) -> (s: Self)
        ensures
            s@ == (StateView {
                containers: self@.containers.push(ContainerView { name: name@, version: version@, image: image@, signed: true }),
                ..self@
            }),
    {
        let mut s = self;
        s.containers.push(Container {
            name: String::from_str(name),
            version: String::from_str(version),
            image: String::from_str(image),
            signed: true,
        });
        assert(containers_view(s.containers@) =~= containers_view(self.containers@).push(ContainerView { name: name@, version: version@, image: image@, signed: true }));
        s
    }

    /// The same state with `key` set to `value`.
    pub fn with_env(self, key: &str, value: &str) -> (s: Self)
        ensures
            s@ == (StateView { env_vars: map_insert(self@.env_vars, key@, value@), ..self@ }),
    {
        let mut s = self;
        s.env_vars.insert(String::from_str(key), String::from_str(value));
        s
    }
}

/// A state with its integrity envelope: the hash of its canonical form and,
/// when signed, the signature over that hash and the signer's public key.
#[derive(Debug, PartialEq, Eq)]
pub struct SignedState {
    pub state: TaprootState,
    /// hex sha256, no prefix
    pub hash: String,
    /// base64 ed25519 signature over the hash bytes, None if unsigned
    pub signature: Option<String>,
    /// base64 public key that signed it, if any
    pub public_key: Option<String>,
}

pub struct SignedView {
    pub state: StateView,
    pub hash: Seq<char>,
    pub signature: Option<Seq<char>>,
    pub public_key: Option<Seq<char>>,
}

impl View for SignedState {
    type V = SignedView;

    open spec fn view(&self) -> SignedView {
        SignedView {
            state: self.state@,
            hash: self.hash@,
            signature: opt_text(self.signature),
            public_key: opt_text(self.public_key),
        }
    }
}

impl Clone for SignedState {
    fn clone(&self) -> (r: Self)
        ensures
            r@ == self@,
    {
        SignedState {
            state: self.state.clone(),
            hash: self.hash.clone(),
            signature: clone_opt(&self.signature),
            public_key: clone_opt(&self.public_key),
        }
    }
}

} // verus!
