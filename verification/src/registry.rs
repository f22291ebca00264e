//! Content-addressed registry of signed states.
//!
//! Layout under the registry root:
//! - `objects/<hash>.json` holds a signed state;
//! - `refs/<escaped repo>/<escaped branch>` holds the hash a branch points at.
//!
//! Names are escaped with `%` → `%25` and `/` → `%2F`, which is reversible, so
//! `a/b` and `a__b` never share a path.

use vstd::prelude::*;
use vstd::string::*;

use crate::engine::{is_verify_error, state_hash, verify_failure, StateEngine};
use crate::error::TaprootError;
use crate::state::{SignedState, SignedView};
use crate::text::{lemma_text_lt_asymmetric, lemma_text_lt_irreflexive, lemma_text_lt_total, lemma_text_lt_transitive, text_less, text_lt, trim, trimmed};
use crate::util::{name_problem, validate_non_empty};
use crate::strmap::{pairs_view, TextPair};
use crate::text::{concat, decimal, decimal_string, lemma_replace_all_no_match, push_char, replace_all, replace_text};

verus! {

/// How one character of a name is written in a path component.
pub open spec fn escape_char(c: char) -> Seq<char> {
    if c == '%' {
        seq!['%', '2', '5']
    } else if c == '/' {
        seq!['%', '2', 'F']
    } else {
        seq![c]
    }
}

/// A name escaped for use as a single path component.
pub open spec fn sanitized(s: Seq<char>) -> Seq<char>
    decreases s.len(),
{
    if s.len() == 0 {
        seq![]
    } else {
        escape_char(s[0]) + sanitized(s.drop_first())
    }
}

/// The inverse replacement: `%2F` → `/`, then `%25` → `%`.
pub open spec fn desanitized(s: Seq<char>) -> Seq<char> {
    replace_all(replace_all(s, seq!['%', '2', 'F'], seq!['/']), seq!['%', '2', '5'], seq!['%'])
}

/// Escapes `/` as `%2F` and `%` as `%25`.
pub fn sanitize(s: &str) -> (r: String)
    ensures
        r@ == sanitized(s@),
{
    let n: usize = s.unicode_len();
    let mut out = String::new();
    let mut i: usize = 0;
    assert(s@.skip(0) =~= s@);
    while i < n
        invariant
            n == s@.len(),
            i <= n,
            out@ + sanitized(s@.skip(i as int)) == sanitized(s@),
        decreases n - i,
    {
        let c: char = s.get_char(i);
        let ghost rest = s@.skip(i as int);
        assert(rest[0] == c);
        assert(rest.drop_first() =~= s@.skip((i + 1) as int));
        if c == '%' {
            push_char(&mut out, '%');
            push_char(&mut out, '2');
            push_char(&mut out, '5');
        } else if c == '/' {
            push_char(&mut out, '%');
            push_char(&mut out, '2');
            push_char(&mut out, 'F');
        } else {
            push_char(&mut out, c);
        }
        assert(out@ + sanitized(s@.skip((i + 1) as int)) =~= sanitized(s@));
        i = i + 1;
    }
    assert(s@.skip(n as int) =~= Seq::<char>::empty());
    assert(out@ =~= sanitized(s@));
    out
}

/// Reverses [`sanitize`]: `%2F` → `/`, then `%25` → `%`.
pub fn desanitize(s: &str) -> (r: String)
    ensures
        r@ == desanitized(s@),
{
    proof {
        reveal_strlit("%2F");
        reveal_strlit("/");
        reveal_strlit("%25");
        reveal_strlit("%");
    }
    let a = replace_text(s, "%2F", "/");
    let b = replace_text(a.as_str(), "%25", "%");
    assert("%2F"@ =~= seq!['%', '2', 'F']);
    assert("/"@ =~= seq!['/']);
    assert("%25"@ =~= seq!['%', '2', '5']);
    assert("%"@ =~= seq!['%']);
    b
}

/// `s` with only `%` escaped, which is what undoing the `/` escapes of
/// [`sanitized`] leaves.
spec fn percent_escaped(s: Seq<char>) -> Seq<char>
    decreases s.len(),
{
    if s.len() == 0 {
        seq![]
    } else if s[0] == '%' {
        seq!['%', '2', '5'] + percent_escaped(s.drop_first())
    } else {
        seq![s[0]] + percent_escaped(s.drop_first())
    }
}

proof fn lemma_undo_slash(s: Seq<char>)
    ensures
        replace_all(sanitized(s), seq!['%', '2', 'F'], seq!['/']) == percent_escaped(s),
    decreases s.len(),
{
    let p = seq!['%', '2', 'F'];
    let r = seq!['/'];
    if s.len() > 0 {
        lemma_undo_slash(s.drop_first());
        let e = sanitized(s);
        let tail = sanitized(s.drop_first());
        assert(e == escape_char(s[0]) + tail);
        if s[0] == '/' {
            assert(e.take(3) =~= p);
            assert(e.skip(3) =~= tail);
            assert(replace_all(e, p, r) == r + replace_all(tail, p, r));
            assert(replace_all(e, p, r) =~= percent_escaped(s));
        } else if s[0] == '%' {
            let e1 = e.drop_first();
            let e2 = e1.drop_first();
            assert(e1 =~= seq!['2', '5'] + tail);
            assert(e2 =~= seq!['5'] + tail);
            assert(e2.drop_first() =~= tail);
            assert(e.take(3) =~= seq!['%', '2', '5']);
            assert(e.take(3) != p) by {
                assert(e.take(3)[2] != p[2]);
            }
            assert(replace_all(e, p, r) == seq![e[0]] + replace_all(e1, p, r));
            lemma_replace_all_no_match(e1, p, r);
            lemma_replace_all_no_match(e2, p, r);
            assert(replace_all(e, p, r) =~= percent_escaped(s));
        } else {
            lemma_replace_all_no_match(e, p, r);
            assert(e.drop_first() =~= tail);
            assert(replace_all(e, p, r) =~= percent_escaped(s));
        }
    }
}

proof fn lemma_undo_percent(s: Seq<char>)
    ensures
        replace_all(percent_escaped(s), seq!['%', '2', '5'], seq!['%']) == s,
    decreases s.len(),
{
    let p = seq!['%', '2', '5'];
    let r = seq!['%'];
    if s.len() > 0 {
        lemma_undo_percent(s.drop_first());
        let e = percent_escaped(s);
        let tail = percent_escaped(s.drop_first());
        if s[0] == '%' {
            assert(e.take(3) =~= p);
            assert(e.skip(3) =~= tail);
            assert(replace_all(e, p, r) == r + replace_all(tail, p, r));
        } else {
            assert(e == seq![s[0]] + tail);
            lemma_replace_all_no_match(e, p, r);
            assert(e.drop_first() =~= tail);
        }
        assert(replace_all(e, p, r) =~= s);
    } else {
        assert(replace_all(percent_escaped(s), p, r) =~= s);
    }
}

/// Escaping a name and unescaping it gives the name back.
pub proof fn lemma_sanitize_roundtrip(s: Seq<char>)
    ensures
        desanitized(sanitized(s)) == s,
{
    lemma_undo_slash(s);
    lemma_undo_percent(s);
}

/// Distinct names never share a path component.
pub proof fn lemma_sanitize_injective(a: Seq<char>, b: Seq<char>)
    requires
        sanitized(a) == sanitized(b),
    ensures
        a == b,
{
    lemma_sanitize_roundtrip(a);
    lemma_sanitize_roundtrip(b);
}

/// An escaped name holds no `/`, so it is one path component.
pub proof fn lemma_sanitized_has_no_slash(s: Seq<char>)
    ensures
        !sanitized(s).contains('/'),
    decreases s.len(),
{
    if s.len() > 0 {
        lemma_sanitized_has_no_slash(s.drop_first());
        let e = sanitized(s);
        let head = escape_char(s[0]);
        let tail = sanitized(s.drop_first());
        assert(e == head + tail);
        if e.contains('/') {
            let k = choose|k: int| 0 <= k < e.len() && e[k] == '/';
            if k < head.len() {
                assert(head[k] == '/');
            } else {
                assert(tail[k - head.len()] == '/');
            }
        }
    }
}

/// An ASCII hexadecimal digit, either case.
pub open spec fn is_hex_digit(c: char) -> bool {
    let u = c as u32;
    (0x30 <= u && u <= 0x39) || (0x61 <= u && u <= 0x66) || (0x41 <= u && u <= 0x46)
}

/// The length of `s` in bytes, as `str::len` reports it.
pub open spec fn str_byte_len(s: Seq<char>) -> nat {
    (vstd::utf8::encode_utf8(s).len() as usize) as nat
}

/// What is wrong with `h` as an object hash, if anything: it must be 64
/// bytes long and consist of hexadecimal digits.
pub open spec fn hash_problem(h: Seq<char>) -> Option<Seq<char>> {
    if str_byte_len(h) != 64 {
        Some("hash must be 64 hex chars, got "@ + decimal(str_byte_len(h)) + " chars"@)
    } else if !(forall|i: int| 0 <= i < h.len() ==> is_hex_digit(#[trigger] h[i])) {
        Some("hash must be hex"@)
    } else {
        None
    }
}

fn is_hex_char(c: char) -> (b: bool)
    ensures
        b == is_hex_digit(c),
{
    let u: u32 = c as u32;
    (0x30 <= u && u <= 0x39) || (0x61 <= u && u <= 0x66) || (0x41 <= u && u <= 0x46)
}

/// Checks that `hash` is 64 hexadecimal digits.
pub fn validate_hash(hash: &str) -> (r: Result<(), TaprootError>)
    ensures
        match hash_problem(hash@) {
            None => r is Ok,
            Some(m) => r matches Err(TaprootError::InvalidHash(e)) && e@ == m,
        },
{
    let len: usize = hash.len();
    if len != 64 {
        let msg = concat(concat("hash must be 64 hex chars, got ", decimal_string(len as u64).as_str()).as_str(), " chars");
        return Err(TaprootError::InvalidHash(msg));
    }
    let n: usize = hash.unicode_len();
    let mut i: usize = 0;
    while i < n
        invariant
            n == hash@.len(),
            i <= n,
            str_byte_len(hash@) == 64,
            forall|j: int| 0 <= j < i ==> is_hex_digit(#[trigger] hash@[j]),
        decreases n - i,
    {
        if !is_hex_char(hash.get_char(i)) {
            return Err(TaprootError::InvalidHash(String::from_str("hash must be hex")));
        }
        i = i + 1;
    }
    Ok(())
}

// ---------------------------------------------------------------------------
// Paths
// ---------------------------------------------------------------------------

/// `base` joined with the relative component `name`, as `Path::join` does:
/// one `/` between them unless `base` is empty or already ends with one.
pub open spec fn path_join(base: Seq<char>, name: Seq<char>) -> Seq<char> {
    if base.len() == 0 {
        name
    } else if base.last() == '/' {
        base + name
    } else {
        base + seq!['/'] + name
    }
}

/// `base` joined with the relative component `name`.
pub fn join_path(base: &str, name: &str) -> (r: String)
    ensures
        r@ == path_join(base@, name@),
{
    let n: usize = base.unicode_len();
    if n == 0 {
        String::from_str(name)
    } else if base.get_char(n - 1) == '/' {
        concat(base, name)
    } else {
        let mut r = String::from_str(base);
        push_char(&mut r, '/');
        r.append(name);
        r
    }
}

/// A ref file found in a repository's directory: its file name, whether it
/// is a regular file, and what reading it gave.
#[derive(Debug)]
pub struct RefFile {
    pub name: String,
    pub is_file: bool,
    pub content: Result<String, String>,
}

/// What a push writes: the object file, the ref file, and the hash that the
/// ref file holds.
#[derive(Debug)]
pub struct PushPlan {
    pub hash: String,
    pub object_path: String,
    pub ref_path: String,
}

/// The pairs are sorted by their first component.
pub open spec fn sorted_by_first(s: Seq<TextPair>) -> bool {
    forall|i: int, j: int| 0 <= i < j < s.len() ==> !text_lt(#[trigger] s[j].0, #[trigger] s[i].0)
}

/// The refs that a listing keeps, in directory order, or the first error:
/// entries that are not regular files are skipped; a file's name, unescaped,
/// must be a valid branch name; unreadable files are an error; a file that
/// is blank, or whose trimmed text is not a valid hash, is skipped.
pub open spec fn kept_refs(es: Seq<(Seq<char>, bool, Result<Seq<char>, Seq<char>>)>) -> Result<Seq<TextPair>, TaprootErrorView>
    decreases es.len(),
{
    if es.len() == 0 {
        Ok(seq![])
    } else {
        match kept_refs(es.drop_last()) {
            Err(e) => Err(e),
            Ok(prev) => {
                let (name, is_file, content) = es.last();
                if !is_file {
                    Ok(prev)
                } else {
                    let branch = desanitized(name);
                    match name_problem("branch"@, branch) {
                        Some(m) => Err(TaprootErrorView::InvalidKey(m)),
                        None => match content {
                            Err(io) => Err(TaprootErrorView::Io(io)),
                            Ok(text) => {
                                let h = trim(text);
                                if h.len() == 0 || hash_problem(h) is Some {
                                    Ok(prev)
                                } else {
                                    Ok(prev.push((branch, h)))
                                }
                            },
                        },
                    }
                }
            },
        }
    }
}

/// The errors of a listing, as text.
pub enum TaprootErrorView {
    InvalidKey(Seq<char>),
    Io(Seq<char>),
}

proof fn lemma_kept_refs_err(es: Seq<(Seq<char>, bool, Result<Seq<char>, Seq<char>>)>, k: int)
    requires
        0 <= k <= es.len(),
        kept_refs(es.take(k)) is Err,
    ensures
        kept_refs(es) == kept_refs(es.take(k)),
    decreases es.len() - k,
{
    if k < es.len() {
        assert(es.drop_last().take(k) =~= es.take(k));
        lemma_kept_refs_err(es.drop_last(), k);
    } else {
        assert(es.take(k) =~= es);
    }
}

pub open spec fn ref_files_view(v: Seq<RefFile>) -> Seq<(Seq<char>, bool, Result<Seq<char>, Seq<char>>)> {
    v.map_values(|f: RefFile| (f.name@, f.is_file, match f.content {
        Ok(t) => Ok::<Seq<char>, Seq<char>>(t@),
        Err(e) => Err::<Seq<char>, Seq<char>>(e@),
    }))
}

/// Inserts `x` after every pair whose first component is not above `x`'s.
fn insert_sorted(out: &mut Vec<(String, String)>, x: (String, String))
    requires
        sorted_by_first(pairs_view(old(out)@)),
    ensures
        sorted_by_first(pairs_view(final(out)@)),
        pairs_view(final(out)@).to_multiset() == pairs_view(old(out)@).to_multiset().insert((x.0@, x.1@)),
{
    let ghost before = pairs_view(out@);
    let ghost xv: TextPair = (x.0@, x.1@);
    let n: usize = out.len();
    let mut p: usize = 0;
    while p < n && !text_less(x.0.as_str(), out[p].0.as_str())
        invariant
            n == out@.len(),
            before == pairs_view(out@),
            xv == (x.0@, x.1@),
            p <= n,
            forall|q: int| 0 <= q < p ==> !text_lt(xv.0, #[trigger] before[q].0),
        decreases n - p,
    {
        assert(before[p as int] == (out@[p as int].0@, out@[p as int].1@));
        p = p + 1;
    }
    if p < n {
        assert(before[p as int] == (out@[p as int].0@, out@[p as int].1@));
        assert(text_lt(xv.0, before[p as int].0));
    }
    out.insert(p, x);
    proof {
        let after = pairs_view(out@);
        assert(after =~= before.insert(p as int, xv));
        vstd::seq_lib::to_multiset_insert(before, p as int, xv);
        assert forall|i: int, j: int| 0 <= i < j < after.len() implies !text_lt(#[trigger] after[j].0, #[trigger] after[i].0) by {
            if i < p && j < p {
                assert(after[i] == before[i] && after[j] == before[j]);
            } else if i < p && j == p {
                assert(after[i] == before[i]);
                lemma_text_lt_total(before[i].0, xv.0);
                if text_lt(xv.0, before[i].0) {
                } else {
                    lemma_text_lt_asymmetric(xv.0, before[i].0);
                }
                if before[i].0 == xv.0 {
                    lemma_text_lt_irreflexive(xv.0);
                } else {
                    lemma_text_lt_asymmetric(before[i].0, xv.0);
                }
            } else if i < p {
                assert(after[i] == before[i] && after[j] == before[j - 1]);
            } else if i == p {
                assert(after[j] == before[j - 1]);
                assert(text_lt(xv.0, before[p as int].0));
                if text_lt(before[j - 1].0, xv.0) {
                    lemma_text_lt_transitive(before[j - 1].0, xv.0, before[p as int].0);
                    if j - 1 > p {
                    } else {
                        lemma_text_lt_irreflexive(before[p as int].0);
                    }
                }
            } else {
                assert(after[i] == before[i - 1] && after[j] == before[j - 1]);
            }
        }
    }
}

/// The refs of a repository directory's entries, sorted by branch (see
/// [`kept_refs`]).
#[verifier::rlimit(50)]
pub fn collect_refs(entries: &Vec<RefFile>) -> (r: Result<Vec<(String, String)>, TaprootError>)
    ensures
        match kept_refs(ref_files_view(entries@)) {
            Err(TaprootErrorView::InvalidKey(m)) => r matches Err(TaprootError::InvalidKey(x)) && x@ == m,
            Err(TaprootErrorView::Io(m)) => r matches Err(TaprootError::Io(x)) && x@ == m,
            Ok(kept) => r matches Ok(v) && sorted_by_first(pairs_view(v@))
                && pairs_view(v@).to_multiset() == kept.to_multiset(),
        },
{
    let ghost ev = ref_files_view(entries@);
    let n: usize = entries.len();
    let mut out: Vec<(String, String)> = Vec::new();
    let mut i: usize = 0;
    proof {
        assert(ev.take(0) =~= Seq::<(Seq<char>, bool, Result<Seq<char>, Seq<char>>)>::empty());
        assert(pairs_view(out@) =~= Seq::<TextPair>::empty());
    }
    while i < n
        invariant
            n == entries@.len(),
            ev == ref_files_view(entries@),
            i <= n,
            kept_refs(ev.take(i as int)) matches Ok(k) && sorted_by_first(pairs_view(out@))
                && pairs_view(out@).to_multiset() == k.to_multiset(),
        decreases n - i,
    {
        let ghost prev = kept_refs(ev.take(i as int))->Ok_0;
        let ghost cur = ev[i as int];
        proof {
            assert(ev.take(i + 1).drop_last() =~= ev.take(i as int));
            assert(ev.take(i + 1).last() == cur);
        }
        let e: &RefFile = &entries[i];
        assert(cur.0 == e.name@ && cur.1 == e.is_file);
        if e.is_file {
            let branch = desanitize(e.name.as_str());
            match validate_non_empty("branch", branch.as_str()) {
                Err(err) => {
                    proof {
                        lemma_kept_refs_err(ev, i + 1);
                    }
                    return Err(err);
                },
                Ok(()) => {},
            }
            let text: &String = match &e.content {
                Err(io) => {
                    assert(cur.2 == Err::<Seq<char>, Seq<char>>(io@));
                    proof {
                        lemma_kept_refs_err(ev, i + 1);
                    }
                    return Err(TaprootError::Io(io.clone()));
                },
                Ok(t) => t,
            };
            assert(cur.2 == Ok::<Seq<char>, Seq<char>>(text@));
            let h = trimmed(text.as_str());
            if h.unicode_len() > 0 && validate_hash(h.as_str()).is_ok() {
                proof {
                    assert(kept_refs(ev.take(i + 1)) == Ok::<Seq<TextPair>, TaprootErrorView>(prev.push((branch@, h@))));
                    vstd::seq_lib::to_multiset_build(prev, (branch@, h@));
                }
                insert_sorted(&mut out, (branch, h));
            } else {
                assert(kept_refs(ev.take(i + 1)) == Ok::<Seq<TextPair>, TaprootErrorView>(prev));
            }
        } else {
            assert(kept_refs(ev.take(i + 1)) == Ok::<Seq<TextPair>, TaprootErrorView>(prev));
        }
        i = i + 1;
    }
    assert(ev.take(n as int) =~= ev);
    Ok(out)
}

/// A local registry rooted at a directory.
#[derive(Debug)]
pub struct Registry {
    root: String,
}

impl View for Registry {
    type V = Seq<char>;

    closed spec fn view(&self) -> Seq<char> {
        self.root@
    }
}

impl Registry {
    /// A handle on the registry at `root`; nothing is read or created.
    pub fn new(root: &str) -> (r: Self)
        ensures
            r@ == root@,
    {
        Registry { root: String::from_str(root) }
    }

    /// A handle on the registry at `root`, whose directories
    /// [`Registry::objects_dir`] and [`Registry::refs_dir`] the caller
    /// creates when missing.
    pub fn open(root: &str) -> (r: Self)
        ensures
            r@ == root@,
    {
        Registry::new(root)
    }

    /// The registry's root directory.
    pub fn root(&self) -> (r: &str)
        ensures
            r@ == self@,
    {
        self.root.as_str()
    }

    /// `<root>/objects`.
    pub fn objects_dir(&self) -> (p: String)
        ensures
            p@ == path_join(self@, "objects"@),
    {
        join_path(self.root.as_str(), "objects")
    }

    /// `<root>/refs`.
    pub fn refs_dir(&self) -> (p: String)
        ensures
            p@ == path_join(self@, "refs"@),
    {
        join_path(self.root.as_str(), "refs")
    }

    /// `<root>/objects/<hash>.json`.
    pub fn object_path(&self, hash: &str) -> (p: String)
        ensures
            p@ == path_join(path_join(self@, "objects"@), hash@ + ".json"@),
    {
        let dir = self.objects_dir();
        join_path(dir.as_str(), concat(hash, ".json").as_str())
    }

    /// `<root>/refs/<escaped repo>/<escaped branch>`, for valid names.
    pub fn ref_path(&self, repo: &str, branch: &str) -> (r: Result<String, TaprootError>)
        ensures
            match name_problem("repo"@, repo@) {
                Some(m) => r matches Err(TaprootError::InvalidKey(x)) && x@ == m,
                None => match name_problem("branch"@, branch@) {
                    Some(m) => r matches Err(TaprootError::InvalidKey(x)) && x@ == m,
                    None => r matches Ok(p) && p@ == path_join(
                        path_join(path_join(self@, "refs"@), sanitized(repo@)),
                        sanitized(branch@),
                    ),
                },
            },
    {
        match validate_non_empty("repo", repo) {
            Err(e) => {
                return Err(e);
            },
            Ok(()) => {},
        }
        match validate_non_empty("branch", branch) {
            Err(e) => {
                return Err(e);
            },
            Ok(()) => {},
        }
        let dir = self.refs_dir();
        let rdir = join_path(dir.as_str(), sanitize(repo).as_str());
        Ok(join_path(rdir.as_str(), sanitize(branch).as_str()))
    }

    /// The directory that holds a repository's refs, for a valid name.
    pub fn repo_refs_dir(&self, repo: &str) -> (r: Result<String, TaprootError>)
        ensures
            match name_problem("repo"@, repo@) {
                Some(m) => r matches Err(TaprootError::InvalidKey(x)) && x@ == m,
                None => r matches Ok(p) && p@ == path_join(path_join(self@, "refs"@), sanitized(repo@)),
            },
    {
        match validate_non_empty("repo", repo) {
            Err(e) => {
                return Err(e);
            },
            Ok(()) => {},
        }
        let dir = self.refs_dir();
        Ok(join_path(dir.as_str(), sanitize(repo).as_str()))
    }

    /// The checks a push makes before it writes anything: the state must
    /// verify, its hash must be the hash of its state, its repository and
    /// branch must be valid names and its hash a valid hash. On success, the
    /// files the push writes.
    pub fn prepare_push(&self, signed: &SignedState) -> (r: Result<PushPlan, TaprootError>)
        ensures
            verify_failure(signed@) is Some ==> (r matches Err(e) && is_verify_error(signed@, e)),
            verify_failure(signed@) is None ==> match name_problem("repo"@, signed@.state.base.repo) {
                Some(m) => r matches Err(TaprootError::InvalidKey(x)) && x@ == m,
                None => match name_problem("branch"@, signed@.state.base.branch) {
                    Some(m) => r matches Err(TaprootError::InvalidKey(x)) && x@ == m,
                    None => match hash_problem(signed@.hash) {
                        Some(m) => r matches Err(TaprootError::InvalidHash(x)) && x@ == m,
                        None => r matches Ok(p) && p.hash@ == signed@.hash
                            && p.object_path@ == path_join(path_join(self@, "objects"@), signed@.hash + ".json"@)
                            && p.ref_path@ == path_join(
                                path_join(path_join(self@, "refs"@), sanitized(signed@.state.base.repo)),
                                sanitized(signed@.state.base.branch),
                            ),
                    },
                },
            },
    {
        match StateEngine::verify(signed) {
            Err(e) => {
                return Err(e);
            },
            Ok(()) => {},
        }
        let computed = match StateEngine::hash(&signed.state) {
            Ok(h) => h,
            Err(e) => {
                return Err(e);
            },
        };
        if !crate::text::text_equal(computed.as_str(), signed.hash.as_str()) {
            return Err(TaprootError::HashMismatch { expected: signed.hash.clone(), got: computed });
        }
        let repo = signed.state.base.repo.as_str();
        let branch = signed.state.base.branch.as_str();
        match validate_non_empty("repo", repo) {
            Err(e) => {
                return Err(e);
            },
            Ok(()) => {},
        }
        match validate_non_empty("branch", branch) {
            Err(e) => {
                return Err(e);
            },
            Ok(()) => {},
        }
        match validate_hash(signed.hash.as_str()) {
            Err(e) => {
                return Err(e);
            },
            Ok(()) => {},
        }
        let object_path = self.object_path(signed.hash.as_str());
        let ref_path = match self.ref_path(repo, branch) {
            Ok(p) => p,
            Err(e) => {
                return Err(e);
            },
        };
        Ok(PushPlan { hash: signed.hash.clone(), object_path, ref_path })
    }

    /// Where the object `hash` is stored, for a valid hash.
    pub fn pull_path(&self, hash: &str) -> (r: Result<String, TaprootError>)
        ensures
            match hash_problem(hash@) {
                Some(m) => r matches Err(TaprootError::InvalidHash(x)) && x@ == m,
                None => r matches Ok(p) && p@ == path_join(path_join(self@, "objects"@), hash@ + ".json"@),
            },
    {
        match validate_hash(hash) {
            Err(e) => Err(e),
            Ok(()) => Ok(self.object_path(hash)),
        }
    }
}

/// The checks on an object read back for `hash`: it must verify, and it
/// must record `hash` as its hash.
pub fn accept_pulled(hash: &str, signed: SignedState) -> (r: Result<SignedState, TaprootError>)
    ensures
        verify_failure(signed@) is Some ==> (r matches Err(e) && is_verify_error(signed@, e)),
        verify_failure(signed@) is None ==> if signed@.hash == hash@ {
            r matches Ok(s) && s@ == signed@
        } else {
            r matches Err(TaprootError::HashMismatch { expected, got }) && expected@ == hash@ && got@ == signed@.hash
        },
{
    match StateEngine::verify(&signed) {
        Err(e) => {
            return Err(e);
        },
        Ok(()) => {},
    }
    if !crate::text::text_equal(signed.hash.as_str(), hash) {
        return Err(TaprootError::HashMismatch { expected: String::from_str(hash), got: signed.hash.clone() });
    }
    Ok(signed)
}

/// The hash a ref file's text names: `None` when the text is blank, else
/// the trimmed text, which must be a valid hash.
pub fn ref_target(content: &str) -> (r: Result<Option<String>, TaprootError>)
    ensures
        trim(content@).len() == 0 ==> r matches Ok(None),
        trim(content@).len() > 0 ==> match hash_problem(trim(content@)) {
            Some(m) => r matches Err(TaprootError::InvalidHash(x)) && x@ == m,
            None => r matches Ok(Some(h)) && h@ == trim(content@),
        },
{
    let h = trimmed(content);
    if h.unicode_len() == 0 {
        return Ok(None);
    }
    match validate_hash(h.as_str()) {
        Err(e) => Err(e),
        Ok(()) => Ok(Some(h)),
    }
}

/// The error for a ref path that exists but is not a regular file.
pub fn ref_not_a_file(path: &str) -> (e: TaprootError)
    ensures
        e matches TaprootError::InvalidKey(m) && m@ == "ref path is not a file: "@ + path@,
{
    TaprootError::InvalidKey(concat("ref path is not a file: ", path))
}

/// What a push writes to a ref file, reading the ref gives back: a valid
/// hash is its own trimmed text and is not blank, so [`ref_target`] of it is
/// the hash itself.
pub proof fn lemma_pushed_ref_reads_back(h: Seq<char>)
    requires
        hash_problem(h) is None,
    ensures
        trim(h) == h,
        h.len() > 0,
{
    if h.len() == 0 {
        assert(vstd::utf8::encode_utf8(h) =~= Seq::<u8>::empty()) by {
            reveal_with_fuel(vstd::utf8::encode_utf8, 1);
        }
    } else {
        assert(is_hex_digit(h[0]));
        assert(is_hex_digit(h.last()));
        assert(!crate::text::is_ws(h[0]));
        assert(crate::text::trim_start(h) == h);
        assert(!crate::text::is_ws(h.last()));
    }
}

} // verus!
