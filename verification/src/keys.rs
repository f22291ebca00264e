//! Keys for signing states: each keypair is kept in a file of its own, and
//! an index lists all of them in the order they were made.

use vstd::prelude::*;
use vstd::string::*;

use crate::engine::StateEngine;
use crate::error::TaprootError;
use crate::registry::{join_path, path_join};
use crate::strmap::{map_from_pairs, pairs_view, StrMap, TextPair};
use crate::text::{all_ws, concat, has_char, is_blank, is_ws};
use crate::trusted::{base64_bytes, base64_decode, base64_of, ed25519_public_of, hex_encode, hex_text, hex_value, lemma_hex_text_digits, now_timestamp};

verus! {

/// A stored keypair: the secret stays local, the public key is shared.
#[derive(Debug)]
pub struct Keypair {
    pub id: String,
    /// base64 of the 32-byte secret key
    pub private_key: String,
    /// base64 of the 32-byte public key
    pub public_key: String,
    /// When the key was made, RFC 3339.
    pub created_at: String,
    pub active: bool,
}

pub struct KeypairView {
    pub id: Seq<char>,
    pub private_key: Seq<char>,
    pub public_key: Seq<char>,
    pub created_at: Seq<char>,
    pub active: bool,
}

impl View for Keypair {
    type V = KeypairView;

    open spec fn view(&self) -> KeypairView {
        KeypairView {
            id: self.id@,
            private_key: self.private_key@,
            public_key: self.public_key@,
            created_at: self.created_at@,
            active: self.active,
        }
    }
}

impl Clone for Keypair {
    fn clone(&self) -> (r: Self)
        ensures
            r@ == self@,
    {
        Keypair {
            id: self.id.clone(),
            private_key: self.private_key.clone(),
            public_key: self.public_key.clone(),
            created_at: self.created_at.clone(),
            active: self.active,
        }
    }
}

pub open spec fn keys_view(v: Seq<Keypair>) -> Seq<KeypairView> {
    v.map_values(|k: Keypair| k@)
}

/// The id a key gets when none is given: `key-` and the hex of the first
/// four bytes of its public key.
pub open spec fn default_key_id(public_b64: Seq<char>) -> Seq<char> {
    let b = match base64_bytes(public_b64) {
        Some(b) => b,
        None => seq![],
    };
    "key-"@ + hex_text(b.take(if b.len() < 4 { b.len() as int } else { 4 }))
}

/// A key id names a file: it must not be blank or hold `/`, `\` or NUL.
pub open spec fn valid_key_id(id: Seq<char>) -> bool {
    !id.contains('/') && !id.contains('\\') && !id.contains('\0') && !all_ws(id)
}

proof fn lemma_default_key_id_valid(public_b64: Seq<char>)
    ensures
        valid_key_id(default_key_id(public_b64)),
{
    reveal_strlit("key-");
    let b = match base64_bytes(public_b64) {
        Some(b) => b,
        None => seq![],
    };
    let h = hex_text(b.take(if b.len() < 4 { b.len() as int } else { 4 }));
    let d = default_key_id(public_b64);
    assert(d == "key-"@ + h);
    assert forall|i: int| 0 <= i < d.len() implies d[i] != '/' && d[i] != '\\' && d[i] != '\0' by {
        if i >= 4 {
            assert(d[i] == h[i - 4]);
            lemma_hex_text_digits(b.take(if b.len() < 4 { b.len() as int } else { 4 }), i - 4);
        }
    }
    assert(!is_ws(d[0]));
}

/// The position of the last active key, if any.
pub open spec fn last_active(keys: Seq<KeypairView>) -> Option<int>
    decreases keys.len(),
{
    if keys.len() == 0 {
        None
    } else if keys.last().active {
        Some(keys.len() - 1)
    } else {
        last_active(keys.drop_last())
    }
}

/// The position of the key `default_key` picks: the most recent active key,
/// else the most recent key.
pub open spec fn default_position(keys: Seq<KeypairView>) -> int {
    match last_active(keys) {
        Some(i) => i,
        None => keys.len() - 1,
    }
}

pub proof fn lemma_last_active(keys: Seq<KeypairView>)
    ensures
        match last_active(keys) {
            Some(i) => 0 <= i < keys.len() && keys[i].active && forall|j: int| i < j < keys.len() ==> !keys[j].active,
            None => forall|j: int| 0 <= j < keys.len() ==> !keys[j].active,
        },
    decreases keys.len(),
{
    if keys.len() > 0 && !keys.last().active {
        lemma_last_active(keys.drop_last());
        assert forall|j: int| 0 <= j < keys.len() - 1 implies keys.drop_last()[j] == keys[j] by {}
    }
}

/// The key store at a directory: `keys.json` is the index, `<id>.key` the
/// file of each key.
#[derive(Debug)]
pub struct KeyStore {
    root: String,
}

impl View for KeyStore {
    type V = Seq<char>;

    closed spec fn view(&self) -> Seq<char> {
        self.root@
    }
}

impl KeyStore {
    /// A handle on the key store at `root`; nothing is read or created.
    pub fn new(root: &str) -> (k: Self)
        ensures
            k@ == root@,
    {
        KeyStore { root: String::from_str(root) }
    }

    /// `<root>/keys.json`.
    pub fn index_path(&self) -> (p: String)
        ensures
            p@ == path_join(self@, "keys.json"@),
    {
        join_path(self.root.as_str(), "keys.json")
    }

    /// `<root>/<id>.key`.
    pub fn key_path(&self, id: &str) -> (p: String)
        ensures
            p@ == path_join(self@, id@ + ".key"@),
    {
        join_path(self.root.as_str(), concat(id, ".key").as_str())
    }

    /// A fresh active keypair named `id`, or by default after its public
    /// key; the id must be valid. Whether a key of that id is already
    /// stored is for the caller to check.
    pub fn prepare_key(&self, id: Option<String>) -> (r: Result<Keypair, TaprootError>)
        ensures
            match id {
                Some(i) => valid_key_id(i@) <==> r is Ok,
                None => r is Ok,
            },
            r matches Err(e) ==> (e matches TaprootError::InvalidKey(m) && m@ == "invalid key id"@),
            r matches Ok(k) ==> {
                &&& k@.id == (match id {
                    Some(i) => i@,
                    None => default_key_id(k@.public_key),
                })
                &&& k@.active
                &&& exists|s: Seq<u8>| s.len() == 32 && k@.private_key == base64_of(s)
                    && base64_bytes(k@.private_key) == Some(s) && k@.public_key == base64_of(ed25519_public_of(s))
                &&& k@.private_key.len() == 44
                &&& k@.public_key.len() == 44
            },
    {
        let (priv_b64, pub_b64) = StateEngine::generate_keypair();
        let ghost given = id;
        let key_id: String = match id {
            Some(i) => i,
            None => key_id_for(pub_b64.as_str()),
        };
        proof {
            if given is None {
                lemma_default_key_id_valid(pub_b64@);
            }
        }
        if has_char(key_id.as_str(), '/') || has_char(key_id.as_str(), '\\') || has_char(key_id.as_str(), '\0')
            || is_blank(key_id.as_str()) {
            return Err(TaprootError::InvalidKey(String::from_str("invalid key id")));
        }
        let priv_bytes = match base64_decode(priv_b64.as_str()) {
            Ok(b) => b,
            Err(e) => {
                return Err(TaprootError::InvalidKey(e));
            },
        };
        if priv_bytes.len() != 32 {
            return Err(TaprootError::InvalidKey(String::from_str("private key must be 32 bytes")));
        }
        Ok(Keypair { id: key_id, private_key: priv_b64, public_key: pub_b64, created_at: now_timestamp(), active: true })
    }
}

/// `key-` and the hex of the first four bytes the public key decodes to.
pub fn key_id_for(public_b64: &str) -> (r: String)
    ensures
        r@ == default_key_id(public_b64@),
{
    let bytes: Vec<u8> = match base64_decode(public_b64) {
        Ok(b) => b,
        Err(_) => Vec::new(),
    };
    let n: usize = if bytes.len() < 4 { bytes.len() } else { 4 };
    let mut prefix: Vec<u8> = Vec::new();
    let mut i: usize = 0;
    while i < n
        invariant
            n <= bytes@.len(),
            i <= n,
            prefix@ == bytes@.take(i as int),
        decreases n - i,
    {
        prefix.push(bytes[i]);
        i = i + 1;
        assert(prefix@ =~= bytes@.take(i as int));
    }
    let hex = hex_encode(prefix.as_slice());
    concat("key-", hex.as_str())
}

impl KeyStore {
    /// The key to sign with when none is named: the most recent active key,
    /// else the most recent key; an error when there is none.
    pub fn default_key(&self, index: &Vec<Keypair>) -> (r: Result<Keypair, TaprootError>)
        ensures
            index@.len() == 0 ==> (r matches Err(TaprootError::InvalidKey(m))
                && m@ == "no keys found \u{2014} run `taproot keys generate`"@),
            index@.len() > 0 ==> (r matches Ok(k) && k@ == keys_view(index@)[default_position(keys_view(index@))]),
    {
        let n: usize = index.len();
        if n == 0 {
            return Err(TaprootError::InvalidKey(String::from_str("no keys found \u{2014} run `taproot keys generate`")));
        }
        let ghost kv = keys_view(index@);
        proof {
            lemma_last_active(kv);
        }
        let mut i: usize = n;
        while i > 0
            invariant
                n == index@.len(),
                kv == keys_view(index@),
                i <= n,
                forall|j: int| i <= j < n ==> !kv[j].active,
            decreases i,
        {
            if index[i - 1].active {
                proof {
                    lemma_last_active(kv);
                    if last_active(kv) != Some((i - 1) as int) {
                        assert(kv[i - 1].active);
                    }
                }
                return Ok(index[i - 1].clone());
            }
            i = i - 1;
        }
        Ok(index[n - 1].clone())
    }

    /// The secret key to sign with: that of the key named `id`, whose key
    /// file the caller read into `stored` (`None` when there is no such
    /// file), or, when no id is named, that of the default key of `index`.
    pub fn private_key(&self, id: Option<&str>, stored: Option<&Keypair>, index: &Vec<Keypair>) -> (r: Result<String, TaprootError>)
        ensures
            match id {
                Some(i) => match stored {
                    Some(k) => r matches Ok(x) && x@ == k@.private_key,
                    None => r matches Err(TaprootError::InvalidKey(m)) && m@ == "key not found: "@ + i@,
                },
                None => if index@.len() == 0 {
                    r matches Err(TaprootError::InvalidKey(m)) && m@ == "no keys found \u{2014} run `taproot keys generate`"@
                } else {
                    r matches Ok(k) && k@ == keys_view(index@)[default_position(keys_view(index@))].private_key
                },
            },
    {
        match id {
            Some(want) => match stored {
                Some(k) => Ok(k.private_key.clone()),
                None => Err(key_not_found(want)),
            },
            None => match self.default_key(index) {
                Ok(k) => Ok(k.private_key),
                Err(e) => Err(e),
            },
        }
    }

    /// The public keys by id; where two keys share an id the later wins.
    pub fn public_keys(&self, index: &Vec<Keypair>) -> (m: StrMap)
        ensures
            m@ == map_from_pairs(keys_view(index@).map_values(|k: KeypairView| (k.id, k.public_key))),
    {
        let n: usize = index.len();
        let mut pairs: Vec<(String, String)> = Vec::new();
        let mut i: usize = 0;
        while i < n
            invariant
                n == index@.len(),
                i <= n,
                pairs@.len() == i,
                forall|q: int| 0 <= q < i ==> (#[trigger] pairs@[q]).0@ == index@[q].id@ && pairs@[q].1@ == index@[q].public_key@,
            decreases n - i,
        {
            pairs.push((index[i].id.clone(), index[i].public_key.clone()));
            i = i + 1;
        }
        assert(pairs_view(pairs@) =~= keys_view(index@).map_values(|k: KeypairView| (k.id, k.public_key)));
        StrMap::from_pairs(pairs)
    }
}

/// Marks every key but `keep` inactive, as a rotation that retires the old
/// keys does.
pub fn deactivate_others(index: &mut Vec<Keypair>, keep: &str)
    ensures
        keys_view(final(index)@) == keys_view(old(index)@).map_values(|k: KeypairView|
            (KeypairView { active: k.active && k.id == keep@, ..k })),
{
    let ghost start = keys_view(index@);
    let n: usize = index.len();
    let mut i: usize = 0;
    while i < n
        invariant
            n == index@.len(),
            start.len() == n,
            i <= n,
            forall|q: int| 0 <= q < i ==> (#[trigger] index@[q])@ == (KeypairView { active: start[q].active && start[q].id == keep@, ..start[q] }),
            forall|q: int| i <= q < n ==> (#[trigger] index@[q])@ == start[q],
        decreases n - i,
    {
        if !crate::text::text_equal(index[i].id.as_str(), keep) {
            let mut k = index[i].clone();
            k.active = false;
            index.set(i, k);
        }
        i = i + 1;
    }
    assert(keys_view(index@) =~= start.map_values(|k: KeypairView| (KeypairView { active: k.active && k.id == keep@, ..k })));
}

/// The error for a key id that is already stored.
pub fn key_exists(id: &str) -> (e: TaprootError)
    ensures
        e matches TaprootError::InvalidKey(m) && m@ == "key id already exists: "@ + id@,
{
    TaprootError::InvalidKey(concat("key id already exists: ", id))
}

/// The error for a key id that is not stored.
pub fn key_not_found(id: &str) -> (e: TaprootError)
    ensures
        e matches TaprootError::InvalidKey(m) && m@ == "key not found: "@ + id@,
{
    TaprootError::InvalidKey(concat("key not found: ", id))
}

/// After a rotation that retires the old keys, the default key is the new
/// one: `index` with the new active key appended and every other key
/// deactivated has its default at the new key.
pub proof fn lemma_rotation_default_is_new(index: Seq<KeypairView>, new_key: KeypairView)
    requires
        new_key.active,
    ensures
        ({
            let rotated = index.push(new_key).map_values(|k: KeypairView|
                (KeypairView { active: k.active && k.id == new_key.id, ..k }));
            &&& default_position(rotated) == index.len()
            &&& rotated[index.len() as int] == new_key
            &&& forall|i: int| 0 <= i < rotated.len() && rotated[i].id != new_key.id ==> !(#[trigger] rotated[i]).active
        }),
{
    let rotated = index.push(new_key).map_values(|k: KeypairView|
        (KeypairView { active: k.active && k.id == new_key.id, ..k }));
    assert(rotated.last() == rotated[index.len() as int]);
    assert(rotated[index.len() as int] == new_key);
}

} // verus!
