//! Canonical encoding, hashing, signing and verification of states.

use vstd::prelude::*;
use vstd::string::*;

use crate::error::TaprootError;
use crate::state::{BaseRefView, Container, ContainerView, Runtime, RuntimeView, SignedState, SignedView, StateView, TaprootState};
use crate::strmap::{StrMap, TextPair};
use crate::registry::{hash_problem, is_hex_digit, str_byte_len};
use crate::text::{bool_text, push_char, trim, trimmed};
use crate::trusted::{
    base64_bytes, base64_decode, base64_encode, base64_error_text, base64_of, ed25519_key_error_text, ed25519_accepts, ed25519_generate_secret,
    ed25519_key_accepted, ed25519_public_key, ed25519_public_of, ed25519_sign, ed25519_signature_of,
    ed25519_verify, hex_decode, hex_digit_lower, is_base64_char, hex_encode, hex_text, hex_value, lemma_hex_digit_value, lemma_hex_roundtrip,
    lemma_hex_text_digits, sha256, sha256_of,
};

verus! {

// ---------------------------------------------------------------------------
// Canonical JSON
// ---------------------------------------------------------------------------

/// How one character is written inside a JSON string: quote and backslash
/// escaped, the short escapes for backspace, form feed, newline, carriage
/// return and tab, `\u00xx` (lowercase hex) for the other control
/// characters, and everything else as itself.
pub open spec fn json_escape(c: char) -> Seq<char> {
    let u = c as u32;
    if c == '"' {
        seq!['\\', '"']
    } else if c == '\\' {
        seq!['\\', '\\']
    } else if u == 0x08 {
        seq!['\\', 'b']
    } else if u == 0x0c {
        seq!['\\', 'f']
    } else if u == 0x0a {
        seq!['\\', 'n']
    } else if u == 0x0d {
        seq!['\\', 'r']
    } else if u == 0x09 {
        seq!['\\', 't']
    } else if u < 0x20 {
        seq!['\\', 'u', '0', '0', hex_digit_lower((u / 16) as nat), hex_digit_lower((u % 16) as nat)]
    } else {
        seq![c]
    }
}

pub open spec fn json_escaped(s: Seq<char>) -> Seq<char>
    decreases s.len(),
{
    if s.len() == 0 {
        seq![]
    } else {
        json_escaped(s.drop_last()) + json_escape(s.last())
    }
}

/// `s` as a JSON string literal.
pub open spec fn json_str(s: Seq<char>) -> Seq<char> {
    seq!['"'] + json_escaped(s) + seq!['"']
}

/// The renderings of the elements of `s`, separated by commas.
pub open spec fn joined<T>(s: Seq<T>, f: spec_fn(T) -> Seq<char>) -> Seq<char>
    decreases s.len(),
{
    if s.len() == 0 {
        seq![]
    } else if s.len() == 1 {
        f(s[0])
    } else {
        joined(s.drop_last(), f) + seq![','] + f(s.last())
    }
}

pub open spec fn base_json(b: BaseRefView) -> Seq<char> {
    "{\"branch\":"@ + json_str(b.branch) + ",\"commit\":"@ + json_str(b.commit) + ",\"repo\":"@
        + json_str(b.repo) + "}"@
}

pub open spec fn runtime_json(r: RuntimeView) -> Seq<char> {
    "{\"name\":"@ + json_str(r.name) + ",\"pinned\":"@ + bool_text(r.pinned) + ",\"version\":"@
        + json_str(r.version) + "}"@
}

pub open spec fn container_json(c: ContainerView) -> Seq<char> {
    "{\"image\":"@ + json_str(c.image) + ",\"name\":"@ + json_str(c.name) + ",\"signed\":"@
        + bool_text(c.signed) + ",\"version\":"@ + json_str(c.version) + "}"@
}

pub open spec fn env_entry_json(p: TextPair) -> Seq<char> {
    json_str(p.0) + seq![':'] + json_str(p.1)
}

pub open spec fn containers_part(v: StateView) -> Seq<char> {
    if v.containers.len() > 0 {
        ",\"containers\":["@ + joined(v.containers, |c: ContainerView| container_json(c)) + "]"@
    } else {
        seq![]
    }
}

pub open spec fn env_part(v: StateView) -> Seq<char> {
    if v.env_vars.len() > 0 {
        ",\"env_vars\":{"@ + joined(v.env_vars, |p: TextPair| env_entry_json(p)) + "}"@
    } else {
        seq![]
    }
}

pub open spec fn notes_part(v: StateView) -> Seq<char> {
    match v.notes {
        Some(n) => ",\"notes\":"@ + json_str(n),
        None => seq![],
    }
}

pub open spec fn runtimes_part(v: StateView) -> Seq<char> {
    if v.runtimes.len() > 0 {
        ",\"runtimes\":["@ + joined(v.runtimes, |r: RuntimeView| runtime_json(r)) + "]"@
    } else {
        seq![]
    }
}

/// The canonical JSON text of a state: compact, with the keys of every
/// object in sorted order, and with empty lists, an empty variable map and
/// absent notes left out.
pub open spec fn canonical_json(v: StateView) -> Seq<char> {
    "{\"base\":"@ + base_json(v.base) + containers_part(v) + ",\"created_at\":"@ + json_str(
        v.created_at,
    ) + env_part(v) + notes_part(v) + runtimes_part(v) + ",\"version\":"@ + json_str(v.version)
        + "}"@
}

/// The UTF-8 bytes of the canonical JSON text.
pub open spec fn canonical_bytes(v: StateView) -> Seq<u8> {
    vstd::utf8::encode_utf8(canonical_json(v))
}

/// The SHA-256 digest of the canonical bytes.
pub open spec fn state_digest(v: StateView) -> Seq<u8> {
    sha256_of(canonical_bytes(v))
}

/// The state's hash: its digest in lowercase hexadecimal.
pub open spec fn state_hash(v: StateView) -> Seq<char> {
    hex_text(state_digest(v))
}

fn hex_char(d: u32) -> (c: char)
    requires
        d < 16,
    ensures
        c == hex_digit_lower(d as nat),
{
    if d == 0 { '0' }
    else if d == 1 { '1' }
    else if d == 2 { '2' }
    else if d == 3 { '3' }
    else if d == 4 { '4' }
    else if d == 5 { '5' }
    else if d == 6 { '6' }
    else if d == 7 { '7' }
    else if d == 8 { '8' }
    else if d == 9 { '9' }
    else if d == 10 { 'a' }
    else if d == 11 { 'b' }
    else if d == 12 { 'c' }
    else if d == 13 { 'd' }
    else if d == 14 { 'e' }
    else { 'f' }
}

fn push_escaped(out: &mut String, c: char)
    ensures
        final(out)@ == old(out)@ + json_escape(c),
{
    let u: u32 = c as u32;
    if c == '"' {
        push_char(out, '\\');
        push_char(out, '"');
    } else if c == '\\' {
        push_char(out, '\\');
        push_char(out, '\\');
    } else if u == 0x08 {
        push_char(out, '\\');
        push_char(out, 'b');
    } else if u == 0x0c {
        push_char(out, '\\');
        push_char(out, 'f');
    } else if u == 0x0a {
        push_char(out, '\\');
        push_char(out, 'n');
    } else if u == 0x0d {
        push_char(out, '\\');
        push_char(out, 'r');
    } else if u == 0x09 {
        push_char(out, '\\');
        push_char(out, 't');
    } else if u < 0x20 {
        push_char(out, '\\');
        push_char(out, 'u');
        push_char(out, '0');
        push_char(out, '0');
        push_char(out, hex_char(u / 16));
        push_char(out, hex_char(u % 16));
    } else {
        push_char(out, c);
    }
    assert(final(out)@ =~= old(out)@ + json_escape(c));
}

/// Appends `s` as a JSON string literal.
pub fn push_json_str(out: &mut String, s: &str)
    ensures
        final(out)@ == old(out)@ + json_str(s@),
{
    let ghost start = out@;
    push_char(out, '"');
    let n: usize = s.unicode_len();
    let mut i: usize = 0;
    assert(s@.take(0) =~= Seq::<char>::empty());
    while i < n
        invariant
            n == s@.len(),
            i <= n,
            out@ == start + seq!['"'] + json_escaped(s@.take(i as int)),
        decreases n - i,
    {
        let c: char = s.get_char(i);
        push_escaped(out, c);
        assert(s@.take(i + 1).drop_last() =~= s@.take(i as int));
        assert(s@.take(i + 1).last() == c);
        assert(out@ =~= start + seq!['"'] + json_escaped(s@.take(i + 1)));
        i = i + 1;
    }
    push_char(out, '"');
    assert(s@.take(n as int) =~= s@);
    assert(out@ =~= start + json_str(s@));
}

fn push_text(out: &mut String, t: &str)
    ensures
        final(out)@ == old(out)@ + t@,
{
    out.append(t);
}

fn push_bool(out: &mut String, b: bool)
    ensures
        final(out)@ == old(out)@ + bool_text(b),
{
    if b {
        push_text(out, "true");
    } else {
        push_text(out, "false");
    }
    proof {
        reveal_strlit("true");
        reveal_strlit("false");
    }
    assert(final(out)@ =~= old(out)@ + bool_text(b));
}

fn push_base(out: &mut String, b: &crate::state::BaseRef)
    ensures
        final(out)@ == old(out)@ + base_json(b@),
{
    let ghost start = out@;
    push_text(out, "{\"branch\":");
    push_json_str(out, b.branch.as_str());
    push_text(out, ",\"commit\":");
    push_json_str(out, b.commit.as_str());
    push_text(out, ",\"repo\":");
    push_json_str(out, b.repo.as_str());
    push_text(out, "}");
    assert(out@ =~= start + base_json(b@));
}

fn push_runtime(out: &mut String, r: &Runtime)
    ensures
        final(out)@ == old(out)@ + runtime_json(r@),
{
    let ghost start = out@;
    push_text(out, "{\"name\":");
    push_json_str(out, r.name.as_str());
    push_text(out, ",\"pinned\":");
    push_bool(out, r.pinned);
    push_text(out, ",\"version\":");
    push_json_str(out, r.version.as_str());
    push_text(out, "}");
    assert(out@ =~= start + runtime_json(r@));
}

fn push_container(out: &mut String, c: &Container)
    ensures
        final(out)@ == old(out)@ + container_json(c@),
{
    let ghost start = out@;
    push_text(out, "{\"image\":");
    push_json_str(out, c.image.as_str());
    push_text(out, ",\"name\":");
    push_json_str(out, c.name.as_str());
    push_text(out, ",\"signed\":");
    push_bool(out, c.signed);
    push_text(out, ",\"version\":");
    push_json_str(out, c.version.as_str());
    push_text(out, "}");
    assert(out@ =~= start + container_json(c@));
}

proof fn lemma_joined_step<T>(s: Seq<T>, f: spec_fn(T) -> Seq<char>, i: int)
    requires
        0 <= i < s.len(),
    ensures
        joined(s.take(i + 1), f) == joined(s.take(i), f) + (if i > 0 { seq![','] } else { seq![] }) + f(s[i]),
{
    let t = s.take(i + 1);
    assert(t.drop_last() =~= s.take(i));
    assert(t.last() == s[i]);
    if i == 0 {
        assert(t[0] == s[0]);
        assert(s.take(0) =~= Seq::<T>::empty());
        assert(joined(s.take(i), f) =~= Seq::<char>::empty());
    }
}

fn push_runtimes(out: &mut String, v: &Vec<Runtime>)
    ensures
        final(out)@ == old(out)@ + joined(crate::state::runtimes_view(v@), |r: RuntimeView| runtime_json(r)),
{
    let ghost start = out@;
    let ghost rv = crate::state::runtimes_view(v@);
    let ghost f = |r: RuntimeView| runtime_json(r);
    let n: usize = v.len();
    let mut i: usize = 0;
    assert(rv.take(0) =~= Seq::<RuntimeView>::empty());
    while i < n
        invariant
            n == v@.len(),
            rv == crate::state::runtimes_view(v@),
            f == (|r: RuntimeView| runtime_json(r)),
            i <= n,
            out@ == start + joined(rv.take(i as int), f),
        decreases n - i,
    {
        proof {
            lemma_joined_step(rv, f, i as int);
        }
        if i > 0 {
            push_char(out, ',');
        }
        push_runtime(out, &v[i]);
        assert(out@ =~= start + joined(rv.take(i + 1), f));
        i = i + 1;
    }
    assert(rv.take(n as int) =~= rv);
}

fn push_containers(out: &mut String, v: &Vec<Container>)
    ensures
        final(out)@ == old(out)@ + joined(crate::state::containers_view(v@), |c: ContainerView| container_json(c)),
{
    let ghost start = out@;
    let ghost cv = crate::state::containers_view(v@);
    let ghost f = |c: ContainerView| container_json(c);
    let n: usize = v.len();
    let mut i: usize = 0;
    assert(cv.take(0) =~= Seq::<ContainerView>::empty());
    while i < n
        invariant
            n == v@.len(),
            cv == crate::state::containers_view(v@),
            f == (|c: ContainerView| container_json(c)),
            i <= n,
            out@ == start + joined(cv.take(i as int), f),
        decreases n - i,
    {
        proof {
            lemma_joined_step(cv, f, i as int);
        }
        if i > 0 {
            push_char(out, ',');
        }
        push_container(out, &v[i]);
        assert(out@ =~= start + joined(cv.take(i + 1), f));
        i = i + 1;
    }
    assert(cv.take(n as int) =~= cv);
}

fn push_env(out: &mut String, m: &StrMap)
    ensures
        final(out)@ == old(out)@ + joined(m@, |p: TextPair| env_entry_json(p)),
{
    let ghost start = out@;
    let ghost f = |p: TextPair| env_entry_json(p);
    let n: usize = m.len();
    let mut i: usize = 0;
    assert(m@.take(0) =~= Seq::<TextPair>::empty());
    while i < n
        invariant
            n == m@.len(),
            f == (|p: TextPair| env_entry_json(p)),
            i <= n,
            out@ == start + joined(m@.take(i as int), f),
        decreases n - i,
    {
        proof {
            lemma_joined_step(m@, f, i as int);
        }
        if i > 0 {
            push_char(out, ',');
        }
        let ghost before = out@;
        push_json_str(out, m.key_at(i).as_str());
        push_char(out, ':');
        push_json_str(out, m.value_at(i).as_str());
        assert(out@ =~= before + env_entry_json(m@[i as int]));
        assert(out@ =~= start + joined(m@.take(i + 1), f));
        i = i + 1;
    }
    assert(m@.take(n as int) =~= m@);
}

fn push_containers_part(out: &mut String, state: &TaprootState)
    ensures
        final(out)@ == old(out)@ + containers_part(state@),
{
    if state.containers.len() > 0 {
        let ghost start = out@;
        push_text(out, ",\"containers\":[");
        push_containers(out, &state.containers);
        push_text(out, "]");
        assert(out@ =~= start + containers_part(state@));
    } else {
        assert(out@ =~= old(out)@ + containers_part(state@));
    }
}

fn push_env_part(out: &mut String, state: &TaprootState)
    ensures
        final(out)@ == old(out)@ + env_part(state@),
{
    if state.env_vars.len() > 0 {
        let ghost start = out@;
        push_text(out, ",\"env_vars\":{");
        push_env(out, &state.env_vars);
        push_text(out, "}");
        assert(out@ =~= start + env_part(state@));
    } else {
        assert(out@ =~= old(out)@ + env_part(state@));
    }
}

fn push_notes_part(out: &mut String, state: &TaprootState)
    ensures
        final(out)@ == old(out)@ + notes_part(state@),
{
    match &state.notes {
        Some(n) => {
            let ghost start = out@;
            push_text(out, ",\"notes\":");
            push_json_str(out, n.as_str());
            assert(out@ =~= start + notes_part(state@));
        },
        None => {
            assert(out@ =~= old(out)@ + notes_part(state@));
        },
    }
}

fn push_runtimes_part(out: &mut String, state: &TaprootState)
    ensures
        final(out)@ == old(out)@ + runtimes_part(state@),
{
    if state.runtimes.len() > 0 {
        let ghost start = out@;
        push_text(out, ",\"runtimes\":[");
        push_runtimes(out, &state.runtimes);
        push_text(out, "]");
        assert(out@ =~= start + runtimes_part(state@));
    } else {
        assert(out@ =~= old(out)@ + runtimes_part(state@));
    }
}

/// The canonical JSON text of `state`.
pub fn canonical_text(state: &TaprootState) -> (r: String)
    ensures
        r@ == canonical_json(state@),
{
    let mut out = String::new();
    push_text(&mut out, "{\"base\":");
    push_base(&mut out, &state.base);
    push_containers_part(&mut out, state);
    push_text(&mut out, ",\"created_at\":");
    push_json_str(&mut out, state.created_at.as_str());
    push_env_part(&mut out, state);
    push_notes_part(&mut out, state);
    push_runtimes_part(&mut out, state);
    push_text(&mut out, ",\"version\":");
    push_json_str(&mut out, state.version.as_str());
    push_text(&mut out, "}");
    assert(out@ =~= canonical_json(state@));
    out
}

/// Escaping one character never gives an empty text, and gives a single
/// character exactly when that character is written as itself.
proof fn lemma_json_escape_shape(c: char)
    ensures
        json_escape(c).len() >= 1,
        json_escape(c)[0] != '\\' ==> json_escape(c) == seq![c],
        json_escape(c)[0] == '\\' ==> json_escape(c).len() >= 2,
        json_escape(c)[0] == '\\' && json_escape(c)[1] == 'u' ==> json_escape(c).len() == 6,
        json_escape(c)[0] == '\\' && json_escape(c)[1] != 'u' ==> json_escape(c).len() == 2,
{
}

/// Different characters are escaped differently.
proof fn lemma_json_escape_injective(c1: char, c2: char)
    requires
        json_escape(c1) == json_escape(c2),
    ensures
        c1 == c2,
{
    let u1 = c1 as u32;
    let u2 = c2 as u32;
    vstd::utf8::char_u32_cast(c1, u1);
    vstd::utf8::char_u32_cast(c2, u2);
    let e = json_escape(c1);
    lemma_json_escape_shape(c1);
    lemma_json_escape_shape(c2);
    if e[0] != '\\' {
        assert(e[0] == c1 && json_escape(c2)[0] == c2);
    } else if e.len() == 2 {
        assert(e[1] == json_escape(c2)[1]);
        if e[1] == '"' {
            assert(c1 == '"' && c2 == '"');
        } else if e[1] == '\\' {
            assert(c1 == '\\' && c2 == '\\');
        } else {
            assert(u1 == u2);
        }
    } else if e.len() == 6 {
        assert(u1 < 0x20 && u2 < 0x20);
        lemma_hex_digit_value((u1 / 16) as nat);
        lemma_hex_digit_value((u2 / 16) as nat);
        lemma_hex_digit_value((u1 % 16) as nat);
        lemma_hex_digit_value((u2 % 16) as nat);
        assert(e[4] == json_escape(c2)[4] && e[5] == json_escape(c2)[5]);
        assert((u1 / 16) as u8 == (u2 / 16) as u8);
        assert((u1 % 16) as u8 == (u2 % 16) as u8);
        assert(u1 == u2);
    }
}

/// `json_escaped` read from the front: the first character's escape, then
/// the rest.
proof fn lemma_json_escaped_front(s: Seq<char>)
    requires
        s.len() > 0,
    ensures
        json_escaped(s) == json_escape(s[0]) + json_escaped(s.drop_first()),
    decreases s.len(),
{
    if s.len() == 1 {
        assert(s.drop_last() =~= Seq::<char>::empty());
        assert(s.drop_first() =~= Seq::<char>::empty());
        assert(json_escaped(s) =~= json_escape(s[0]) + json_escaped(s.drop_first()));
    } else {
        lemma_json_escaped_front(s.drop_last());
        assert(s.drop_last().drop_first() =~= s.drop_first().drop_last());
        assert(s.drop_first().last() == s.last());
        assert(json_escaped(s) =~= json_escape(s[0]) + json_escaped(s.drop_first()));
    }
}

/// Two texts with the same escaped form are equal: escaping loses nothing.
pub proof fn lemma_json_escaped_injective(a: Seq<char>, b: Seq<char>)
    requires
        json_escaped(a) == json_escaped(b),
    ensures
        a == b,
    decreases a.len(),
{
    if a.len() == 0 {
        if b.len() > 0 {
            lemma_json_escaped_front(b);
            lemma_json_escape_shape(b[0]);
        }
        assert(a =~= b);
    } else if b.len() == 0 {
        lemma_json_escaped_front(a);
        lemma_json_escape_shape(a[0]);
    } else {
        lemma_json_escaped_front(a);
        lemma_json_escaped_front(b);
        lemma_json_escape_shape(a[0]);
        lemma_json_escape_shape(b[0]);
        let ea = json_escape(a[0]);
        let eb = json_escape(b[0]);
        let t = json_escaped(a);
        assert(t == ea + json_escaped(a.drop_first()));
        assert(t == eb + json_escaped(b.drop_first()));
        assert(t[0] == ea[0] && t[0] == eb[0]);
        if ea[0] == '\\' {
            assert(t[1] == ea[1] && t[1] == eb[1]);
        }
        assert(ea.len() == eb.len());
        assert(ea =~= t.take(ea.len() as int));
        assert(eb =~= t.take(eb.len() as int));
        lemma_json_escape_injective(a[0], b[0]);
        assert(json_escaped(a.drop_first()) =~= t.skip(ea.len() as int));
        assert(json_escaped(b.drop_first()) =~= t.skip(eb.len() as int));
        lemma_json_escaped_injective(a.drop_first(), b.drop_first());
        assert(a =~= seq![a[0]] + a.drop_first());
        assert(b =~= seq![b[0]] + b.drop_first());
    }
}

#[verifier::opaque]
spec fn json_before_notes(v: StateView) -> Seq<char> {
    "{\"base\":"@ + base_json(v.base) + containers_part(v) + ",\"created_at\":"@ + json_str(v.created_at) + env_part(v)
}

#[verifier::opaque]
spec fn json_after_notes(v: StateView) -> Seq<char> {
    runtimes_part(v) + ",\"version\":"@ + json_str(v.version) + "}"@
}

proof fn lemma_canonical_json_split(v: StateView)
    ensures
        canonical_json(v) == json_before_notes(v) + notes_part(v) + json_after_notes(v),
{
    reveal(json_before_notes);
    reveal(json_after_notes);
    let b = json_before_notes(v);
    let n = notes_part(v);
    let r = runtimes_part(v);
    let l = ",\"version\":"@;
    let j = json_str(v.version);
    let c = "}"@;
    assert(canonical_json(v) == b + n + r + l + j + c);
    assert(b + n + r + l + j + c =~= b + n + (r + l + j + c));
}

/// The canonical JSON covers the notes: two states that differ only in
/// their notes (one with and one without, or with different texts) have
/// different canonical JSON, and so sign and hash differently.
pub proof fn lemma_canonical_json_covers_notes(v: StateView, n1: Option<Seq<char>>, n2: Option<Seq<char>>)
    requires
        n1 != n2,
    ensures
        canonical_json(StateView { notes: n1, ..v }) != canonical_json(StateView { notes: n2, ..v }),
{
    let v1 = StateView { notes: n1, ..v };
    let v2 = StateView { notes: n2, ..v };
    lemma_canonical_json_split(v1);
    lemma_canonical_json_split(v2);
    let pre = json_before_notes(v1);
    let post = json_after_notes(v1);
    assert(json_before_notes(v2) == pre) by {
        reveal(json_before_notes);
    }
    assert(json_after_notes(v2) == post) by {
        reveal(json_after_notes);
    }
    if canonical_json(v1) == canonical_json(v2) {
        lemma_cancel_around(pre, notes_part(v1), notes_part(v2), post);
        lemma_notes_part_injective(n1, n2, v1, v2);
    }
}

proof fn lemma_cancel_around(pre: Seq<char>, x1: Seq<char>, x2: Seq<char>, post: Seq<char>)
    requires
        pre + x1 + post == pre + x2 + post,
    ensures
        x1 == x2,
{
    let t = pre + x1 + post;
    assert(t.len() == (pre + x2 + post).len());
    assert(x1.len() == x2.len());
    assert(x1 =~= t.subrange(pre.len() as int, (pre.len() + x1.len()) as int));
    assert(x2 =~= (pre + x2 + post).subrange(pre.len() as int, (pre.len() + x2.len()) as int));
}

proof fn lemma_notes_part_injective(n1: Option<Seq<char>>, n2: Option<Seq<char>>, v1: StateView, v2: StateView)
    requires
        v1.notes == n1,
        v2.notes == n2,
        notes_part(v1) == notes_part(v2),
    ensures
        n1 == n2,
{
    reveal_strlit(",\"notes\":");
    let x1 = notes_part(v1);
    let x2 = notes_part(v2);
    match (n1, n2) {
        (Some(a), Some(b)) => {
            assert(json_escaped(a) =~= x1.subrange(10, x1.len() - 1));
            assert(json_escaped(b) =~= x2.subrange(10, x2.len() - 1));
            lemma_json_escaped_injective(a, b);
        },
        _ => {},
    }
}

/// A state with notes carries them in its canonical JSON, as the member
/// `"notes"` holding the notes as a JSON string.
pub proof fn lemma_canonical_json_has_notes(v: StateView, n: Seq<char>) -> (o: int)
    requires
        v.notes == Some(n),
    ensures
        0 <= o,
        o + 9 + json_str(n).len() <= canonical_json(v).len(),
        canonical_json(v).subrange(o, o + 9 + json_str(n).len()) == ",\"notes\":"@ + json_str(n),
{
    reveal_strlit(",\"notes\":");
    lemma_canonical_json_split(v);
    let pre = json_before_notes(v);
    let x = ",\"notes\":"@ + json_str(n);
    assert(notes_part(v) == x);
    assert(canonical_json(v).subrange(pre.len() as int, (pre.len() + x.len()) as int) =~= x);
    pre.len() as int
}

/// Hexadecimal text of a 32-byte digest passes hash validation.
pub proof fn lemma_digest_text_valid(d: Seq<u8>)
    requires
        d.len() == 32,
    ensures
        hash_problem(hex_text(d)) is None,
        hex_text(d).len() == 64,
{
    lemma_hex_roundtrip(d);
    let t = hex_text(d);
    assert forall|i: int| 0 <= i < t.len() implies is_hex_digit(#[trigger] t[i]) && '\0' <= t[i] <= '\u{7f}' by {
        lemma_hex_text_digits(d, i);
    }
    assert(vstd::utf8::is_ascii_chars(t));
    vstd::utf8::is_ascii_chars_encode_utf8(t);
    assert(str_byte_len(t) == 64);
}

/// Why a signed state fails verification.
pub enum VerifyFailure {
    /// The recorded hash is not the hash of the state.
    HashMismatch,
    /// The signature is not valid base64.
    SignatureEncoding,
    /// The public key is not valid base64.
    KeyEncoding,
    /// The signature does not decode to 64 bytes.
    SignatureLength,
    /// The public key does not decode to 32 bytes.
    KeyLength,
    /// The public key bytes are not an ed25519 key.
    KeyRejected,
    /// The signature does not verify under the key.
    SignatureRejected,
    /// Only one of signature and public key is present.
    Incomplete,
}

/// The first check that the signed state `v` fails, or `None` when it
/// verifies: the hash must be the hash of the state and, when a signature
/// is present, it must be a valid ed25519 signature of the state's digest
/// under the recorded public key. An unsigned state needs only the hash.
pub open spec fn verify_failure(v: SignedView) -> Option<VerifyFailure> {
    if state_hash(v.state) != v.hash {
        Some(VerifyFailure::HashMismatch)
    } else {
        match (v.signature, v.public_key) {
            (Some(sig), Some(pk)) => match (base64_bytes(sig), base64_bytes(pk)) {
                (None, _) => Some(VerifyFailure::SignatureEncoding),
                (Some(_), None) => Some(VerifyFailure::KeyEncoding),
                (Some(sb), Some(pb)) => if sb.len() != 64 {
                    Some(VerifyFailure::SignatureLength)
                } else if pb.len() != 32 {
                    Some(VerifyFailure::KeyLength)
                } else if !ed25519_key_accepted(pb) {
                    Some(VerifyFailure::KeyRejected)
                } else if !ed25519_accepts(pb, state_digest(v.state), sb) {
                    Some(VerifyFailure::SignatureRejected)
                } else {
                    None
                },
            },
            (None, None) => None,
            _ => Some(VerifyFailure::Incomplete),
        }
    }
}

/// The envelope that signing the state `v` with the secret key `k` gives.
pub open spec fn signed_with(v: StateView, k: Seq<u8>) -> SignedView {
    SignedView {
        state: v,
        hash: state_hash(v),
        signature: Some(base64_of(ed25519_signature_of(k, state_digest(v)))),
        public_key: Some(base64_of(ed25519_public_of(k))),
    }
}

/// `e` is the error that verification of `v` reports.
pub open spec fn is_verify_error(v: SignedView, e: TaprootError) -> bool {
    match verify_failure(v) {
        None => false,
        Some(VerifyFailure::HashMismatch) => e matches TaprootError::HashMismatch { expected, got }
            && expected@ == v.hash && got@ == state_hash(v.state),
        Some(VerifyFailure::SignatureRejected) => e matches TaprootError::InvalidSignature,
        Some(VerifyFailure::SignatureLength) => e matches TaprootError::InvalidKey(m)
            && m@ == "signature must be 64 bytes"@,
        Some(VerifyFailure::KeyLength) => e matches TaprootError::InvalidKey(m)
            && m@ == "public key must be 32 bytes"@,
        Some(VerifyFailure::Incomplete) => e matches TaprootError::InvalidKey(m)
            && m@ == "signature and public_key must both be present or both absent"@,
        Some(VerifyFailure::SignatureEncoding) => e matches TaprootError::InvalidKey(m)
            && m@ == base64_error_text(v.signature->Some_0),
        Some(VerifyFailure::KeyEncoding) => e matches TaprootError::InvalidKey(m)
            && m@ == base64_error_text(v.public_key->Some_0),
        Some(VerifyFailure::KeyRejected) => e matches TaprootError::InvalidKey(m)
            && m@ == ed25519_key_error_text(base64_bytes(v.public_key->Some_0)->Some_0),
    }
}

/// Hashing, signing and verification of states.
pub struct StateEngine;

impl StateEngine {
    /// Canonical JSON of `state` as UTF-8 bytes: compact, object keys sorted
    /// at every level.
    pub fn to_canonical_json(state: &TaprootState) -> (r: Result<Vec<u8>, TaprootError>)
        ensures
            r matches Ok(b) && b@ == canonical_bytes(state@),
    {
        let text = canonical_text(state);
        Ok(text.as_str().as_bytes_vec())
    }

    /// SHA-256 of the canonical JSON of `state`, as 64 lowercase hex digits.
    pub fn hash(state: &TaprootState) -> (r: Result<String, TaprootError>)
        ensures
            r matches Ok(h) && h@ == state_hash(state@) && h@.len() == 64 && hash_problem(h@) is None,
    {
        let text = canonical_text(state);
        let digest = sha256(text.as_str().as_bytes());
        proof {
            lemma_digest_text_valid(digest@);
        }
        Ok(hex_encode(digest.as_slice()))
    }

    /// A fresh ed25519 keypair as (secret key, public key), both base64.
    pub fn generate_keypair() -> (r: (String, String))
        ensures
            exists|k: Seq<u8>|
                k.len() == 32 && r.0@ == base64_of(k) && base64_bytes(r.0@) == Some(k) && r.1@
                    == base64_of(ed25519_public_of(k)),
            forall|i: int| 0 <= i < r.0@.len() ==> is_base64_char(#[trigger] r.0@[i]),
            r.0@.len() == 44,
            r.1@.len() == 44,
    {
        let secret = ed25519_generate_secret();
        let public = ed25519_public_key(secret.as_slice());
        let a = base64_encode(secret.as_slice());
        let b = base64_encode(public.as_slice());
        assert(secret@.len() == 32 && a@ == base64_of(secret@));
        (a, b)
    }

    /// Signs `state` with the base64 secret key `private_key_b64` (surrounding
    /// whitespace ignored): the envelope records the state, its hash, the
    /// signature of the hash bytes and the signer's public key. A state so
    /// signed always passes [`StateEngine::verify`].
    pub fn sign(state: &TaprootState, private_key_b64: &str) -> (r: Result<SignedState, TaprootError>)
        ensures
            match base64_bytes(trim(private_key_b64@)) {
                None => r matches Err(TaprootError::InvalidKey(m)) && m@ == base64_error_text(trim(private_key_b64@)),
                Some(k) => if k.len() != 32 {
                    r matches Err(TaprootError::InvalidKey(m)) && m@ == "private key must be 32 bytes"@
                } else {
                    r matches Ok(s) && s@ == signed_with(state@, k) && verify_failure(s@) is None
                },
            },
    {
        let text = canonical_text(state);
        let digest = sha256(text.as_str().as_bytes());
        proof {
            lemma_digest_text_valid(digest@);
            lemma_hex_roundtrip(digest@);
        }
        let hash_hex = hex_encode(digest.as_slice());
        let hash_bytes = match hex_decode(hash_hex.as_str()) {
            Some(b) => b,
            None => {
                return Err(TaprootError::InvalidKey(String::from_str("hash not hex")));
            },
        };
        assert(hash_bytes@ == digest@);
        let key_text = trimmed(private_key_b64);
        let key_bytes = match base64_decode(key_text.as_str()) {
            Ok(b) => b,
            Err(e) => {
                return Err(TaprootError::InvalidKey(e));
            },
        };
        if key_bytes.len() != 32 {
            return Err(TaprootError::InvalidKey(String::from_str("private key must be 32 bytes")));
        }
        let signature = ed25519_sign(key_bytes.as_slice(), hash_bytes.as_slice());
        let public = ed25519_public_key(key_bytes.as_slice());
        let sig_text = base64_encode(signature.as_slice());
        let pub_text = base64_encode(public.as_slice());
        let s = SignedState {
            state: state.clone(),
            hash: hash_hex,
            signature: Some(sig_text),
            public_key: Some(pub_text),
        };
        assert(s@ == signed_with(state@, key_bytes@));
        Ok(s)
    }

    /// Checks that the recorded hash is the hash of the state and, when the
    /// state is signed, that the signature verifies under the recorded public
    /// key. Unsigned states pass on the hash alone.
    pub fn verify(signed: &SignedState) -> (r: Result<(), TaprootError>)
        ensures
            verify_failure(signed@) is None <==> r is Ok,
            r matches Err(e) ==> is_verify_error(signed@, e),
    {
        let text = canonical_text(&signed.state);
        let digest = sha256(text.as_str().as_bytes());
        let computed = hex_encode(digest.as_slice());
        if !crate::text::text_equal(computed.as_str(), signed.hash.as_str()) {
            return Err(TaprootError::HashMismatch { expected: signed.hash.clone(), got: computed });
        }
        match (&signed.signature, &signed.public_key) {
            (Some(sig_b64), Some(pub_b64)) => {
                let sig_bytes = match base64_decode(sig_b64.as_str()) {
                    Ok(b) => b,
                    Err(e) => {
                        return Err(TaprootError::InvalidKey(e));
                    },
                };
                let pub_bytes = match base64_decode(pub_b64.as_str()) {
                    Ok(b) => b,
                    Err(e) => {
                        return Err(TaprootError::InvalidKey(e));
                    },
                };
                if sig_bytes.len() != 64 {
                    return Err(TaprootError::InvalidKey(String::from_str("signature must be 64 bytes")));
                }
                if pub_bytes.len() != 32 {
                    return Err(TaprootError::InvalidKey(String::from_str("public key must be 32 bytes")));
                }
                proof {
                    lemma_hex_roundtrip(digest@);
                }
                let hash_bytes = match hex_decode(signed.hash.as_str()) {
                    Some(b) => b,
                    None => {
                        return Err(TaprootError::InvalidKey(String::from_str("hash not hex")));
                    },
                };
                match ed25519_verify(pub_bytes.as_slice(), hash_bytes.as_slice(), sig_bytes.as_slice()) {
                    Err(e) => Err(TaprootError::InvalidKey(e)),
                    Ok(true) => Ok(()),
                    Ok(false) => Err(TaprootError::InvalidSignature),
                }
            },
            (None, None) => Ok(()),
            _ => Err(TaprootError::InvalidKey(String::from_str("signature and public_key must both be present or both absent"))),
        }
    }
}

} // verus!
