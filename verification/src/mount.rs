//! The mounted view of a signed state: an in-memory file tree that is
//! read-only except for the `env` file, a journal of what was written to
//! `env`, and the parsing that turns an edited `env` back into a state.

use vstd::prelude::*;
use vstd::string::*;

use crate::engine::{state_hash, StateEngine};
use crate::error::TaprootError;
use crate::trusted::{now_timestamp, utf8_decode, utf8_error_text};
use crate::state::{ContainerView, Runtime, Container, RuntimeView, SignedState, SignedView, StateView};
use crate::strmap::{keys_sorted, map_insert, pairs_view, StrMap, TextPair};
use crate::state::{containers_view, runtimes_view};
use crate::text::{all_ws, bool_string, bool_text, concat, decimal, decimal_string, is_blank, text_lt, trim, trimmed};

verus! {

// ---------------------------------------------------------------------------
// Env file parsing
// ---------------------------------------------------------------------------

/// Index of the first `c` in `s`, or `s.len()` when there is none.
pub open spec fn index_of(s: Seq<char>, c: char) -> int
    decreases s.len(),
{
    if s.len() == 0 {
        0
    } else if s[0] == c {
        0
    } else {
        1 + index_of(s.drop_first(), c)
    }
}

pub proof fn lemma_index_of(s: Seq<char>, c: char)
    ensures
        0 <= index_of(s, c) <= s.len(),
        index_of(s, c) < s.len() ==> s[index_of(s, c)] == c,
        forall|j: int| 0 <= j < index_of(s, c) ==> s[j] != c,
    decreases s.len(),
{
    if s.len() > 0 && s[0] != c {
        lemma_index_of(s.drop_first(), c);
        assert forall|j: int| 0 <= j < index_of(s, c) implies s[j] != c by {
            if j > 0 {
                assert(s[j] == s.drop_first()[j - 1]);
            }
        }
    }
}

/// The lines of `s` as `str::lines` yields them before line-ending removal:
/// the pieces between `\n`s, without a final empty piece.
pub open spec fn line_pieces(s: Seq<char>) -> Seq<Seq<char>>
    decreases s.len(),
{
    if s.len() == 0 {
        seq![]
    } else {
        let i = index_of(s, '\n');
        proof {
            lemma_index_of(s, '\n');
        }
        if i < s.len() {
            seq![s.take(i)] + line_pieces(s.skip(i + 1))
        } else {
            seq![s]
        }
    }
}

/// `s` without trailing carriage returns.
pub open spec fn strip_cr(s: Seq<char>) -> Seq<char>
    decreases s.len(),
{
    if s.len() > 0 && s.last() == '\r' {
        strip_cr(s.drop_last())
    } else {
        s
    }
}

/// Why an env file was rejected, and on which line (counting from 1).
pub enum EnvError {
    MissingEquals(nat),
    EmptyKey(nat),
}

/// Parses the lines from `i` on into `acc`: blank lines are skipped, every
/// other line must be `key=value` with a key that is not blank; the key is
/// trimmed, the value kept as is, and a later line wins over an earlier one.
pub open spec fn parse_lines(lines: Seq<Seq<char>>, i: nat, acc: Seq<TextPair>) -> Result<Seq<TextPair>, EnvError>
    decreases lines.len() - i,
{
    if i >= lines.len() {
        Ok(acc)
    } else {
        let l = strip_cr(lines[i as int]);
        if all_ws(l) {
            parse_lines(lines, i + 1, acc)
        } else {
            let e = index_of(l, '=');
            if e >= l.len() {
                Err(EnvError::MissingEquals(i + 1))
            } else if trim(l.take(e)).len() == 0 {
                Err(EnvError::EmptyKey(i + 1))
            } else {
                parse_lines(lines, i + 1, map_insert(acc, trim(l.take(e)), l.skip(e + 1)))
            }
        }
    }
}

/// The variables that the env file text `content` holds, or why it is malformed.
pub open spec fn env_parse(content: Seq<char>) -> Result<Seq<TextPair>, EnvError> {
    parse_lines(line_pieces(content), 0, seq![])
}

/// The message for a malformed env file.
pub open spec fn env_error_message(e: EnvError) -> Seq<char> {
    match e {
        EnvError::MissingEquals(line) => "malformed env line "@ + decimal(line) + ": expected key=value"@,
        EnvError::EmptyKey(line) => "malformed env line "@ + decimal(line) + ": empty key"@,
    }
}

fn find_char(s: &str, n: usize, from: usize, c: char) -> (r: usize)
    requires
        n == s@.len(),
        from <= n,
    ensures
        r == from + index_of(s@.skip(from as int), c),
        from <= r <= n,
        r < n ==> s@[r as int] == c,
        forall|j: int| from <= j < r ==> s@[j] != c,
{
    proof {
        lemma_index_of(s@.skip(from as int), c);
    }
    let mut i: usize = from;
    while i < n && s.get_char(i) != c
        invariant
            n == s@.len(),
            from <= i <= n,
            forall|j: int| from <= j < i ==> s@[j] != c,
        decreases n - i,
    {
        i = i + 1;
    }
    proof {
        let t = s@.skip(from as int);
        lemma_index_of(t, c);
        let k = index_of(t, c);
        if k < i - from {
            assert(t[k] == s@[from + k]);
        }
        if i < n {
            assert(t[i - from] == c);
        }
    }
    i
}

proof fn lemma_strip_cr_take(s: Seq<char>, e: int)
    requires
        0 <= e <= s.len(),
        forall|j: int| e <= j < s.len() ==> s[j] == '\r',
        e == 0 || s[e - 1] != '\r',
    ensures
        strip_cr(s) == s.take(e),
    decreases s.len() - e,
{
    if e < s.len() {
        assert(s.drop_last().take(e) =~= s.take(e));
        lemma_strip_cr_take(s.drop_last(), e);
    } else {
        assert(s.take(e) =~= s);
    }
}

fn without_trailing_cr(s: &str) -> (r: String)
    ensures
        r@ == strip_cr(s@),
{
    let n: usize = s.unicode_len();
    let mut e: usize = n;
    while e > 0 && s.get_char(e - 1) == '\r'
        invariant
            n == s@.len(),
            e <= n,
            forall|j: int| e <= j < n ==> s@[j] == '\r',
        decreases e,
    {
        e = e - 1;
    }
    proof {
        lemma_strip_cr_take(s@, e as int);
        assert(s@.take(e as int) =~= s@.subrange(0, e as int));
    }
    String::from_str(s.substring_char(0, e))
}

fn env_error(line: usize, what: &str) -> (e: TaprootError)
    ensures
        e matches TaprootError::Mount(m) && m@ == "malformed env line "@ + decimal(line as nat) + what@,
{
    let a = concat("malformed env line ", decimal_string(line as u64).as_str());
    TaprootError::Mount(concat(a.as_str(), what))
}

/// Parses a `key=value` env file into a map. Blank lines are skipped; a
/// line without `=` or with a blank key is an error naming the line.
pub fn parse_env(content: &str) -> (r: Result<StrMap, TaprootError>)
    ensures
        match env_parse(content@) {
            Ok(es) => r matches Ok(m) && m@ == es,
            Err(e) => r matches Err(TaprootError::Mount(msg)) && msg@ == env_error_message(e),
        },
{
    let ghost all = line_pieces(content@);
    let n: usize = content.unicode_len();
    let mut map = StrMap::new();
    let mut pos: usize = 0;
    let mut idx: usize = 0;
    let ghost mut done: Seq<Seq<char>> = seq![];
    assert(content@.skip(0) =~= content@);
    assert(all =~= done + line_pieces(content@.skip(0)));
    while pos < n
        invariant
            n == content@.len(),
            pos <= n,
            idx == done.len(),
            idx <= pos,
            all == line_pieces(content@),
            all == done + line_pieces(content@.skip(pos as int)),
            parse_lines(all, idx as nat, map@) == env_parse(content@),
        decreases n - pos,
    {
        let ghost rest = content@.skip(pos as int);
        let nl: usize = find_char(content, n, pos, '\n');
        let piece: &str = content.substring_char(pos, nl);
        proof {
            lemma_index_of(rest, '\n');
            assert(rest.take(nl - pos) =~= piece@);
            if nl < n {
                assert(rest.skip(nl - pos + 1) =~= content@.skip(nl + 1));
            } else {
                assert(rest =~= piece@);
            }
            assert(line_pieces(rest)[0] == piece@);
            assert(all[idx as int] == piece@);
        }
        let line = without_trailing_cr(piece);
        if !is_blank(line.as_str()) {
            let ll: usize = line.unicode_len();
            let e: usize = find_char(line.as_str(), ll, 0, '=');
            assert(line@.skip(0) =~= line@);
            if e >= ll {
                return Err(env_error(idx + 1, ": expected key=value"));
            }
            let key = trimmed(line.as_str().substring_char(0, e));
            assert(line@.subrange(0, e as int) =~= line@.take(e as int));
            if key.unicode_len() == 0 {
                return Err(env_error(idx + 1, ": empty key"));
            }
            let value = String::from_str(line.as_str().substring_char(e + 1, ll));
            assert(line@.subrange(e + 1, ll as int) =~= line@.skip(e + 1));
            map.insert(key, value);
        }
        proof {
            done = done.push(piece@);
            if nl < n {
                assert(line_pieces(rest) == seq![piece@] + line_pieces(content@.skip(nl + 1)));
                assert(all =~= done + line_pieces(content@.skip(nl + 1)));
            } else {
                assert(line_pieces(rest) == seq![piece@]);
                assert(content@.skip(n as int) =~= Seq::<char>::empty());
                assert(all =~= done + line_pieces(content@.skip(n as int)));
            }
        }
        idx = idx + 1;
        pos = if nl < n { nl + 1 } else { n };
    }
    assert(content@.skip(pos as int) =~= Seq::<char>::empty());
    assert(done =~= all);
    Ok(map)
}

// ---------------------------------------------------------------------------
// Inode table
// ---------------------------------------------------------------------------

/// The inode number of the root directory.
pub const ROOT_INO: u64 = 1;

/// What an inode is.
#[derive(Debug, Clone, Copy, PartialEq, Eq, Structural)]
pub enum NodeKind {
    Directory,
    RegularFile,
}

/// Why a filesystem request is refused.
#[derive(Debug, Clone, Copy, PartialEq, Eq, Structural)]
pub enum FsError {
    /// No such inode (`ENOENT`).
    NotFound,
    /// The inode is a directory (`EISDIR`).
    IsDir,
    /// The inode is not a directory (`ENOTDIR`).
    NotDir,
    /// The inode is read-only (`EROFS`).
    ReadOnly,
    /// A negative or overflowing offset (`EINVAL`).
    Invalid,
}

/// One file or directory of the mounted tree.
#[derive(Debug, PartialEq, Eq)]
pub struct Inode {
    pub ino: u64,
    pub parent: u64,
    pub name: String,
    pub kind: NodeKind,
    pub data: Vec<u8>,
    pub children: Vec<u64>,
    /// Writable inodes accept writes; everything else stays read-only.
    pub writable: bool,
}

#[verifier::ext_equal]
pub struct InodeView {
    pub ino: u64,
    pub parent: u64,
    pub name: Seq<char>,
    pub kind: NodeKind,
    pub data: Seq<u8>,
    pub children: Seq<u64>,
    pub writable: bool,
}

impl View for Inode {
    type V = InodeView;

    open spec fn view(&self) -> InodeView {
        InodeView {
            ino: self.ino,
            parent: self.parent,
            name: self.name@,
            kind: self.kind,
            data: self.data@,
            children: self.children@,
            writable: self.writable,
        }
    }
}

fn copy_bytes(v: &Vec<u8>) -> (r: Vec<u8>)
    ensures
        r@ == v@,
{
    v.clone()
}

fn copy_inos(v: &Vec<u64>) -> (r: Vec<u64>)
    ensures
        r@ == v@,
{
    v.clone()
}

impl Clone for Inode {
    fn clone(&self) -> (r: Self)
        ensures
            r@ == self@,
    {
        Inode {
            ino: self.ino,
            parent: self.parent,
            name: self.name.clone(),
            kind: self.kind,
            data: copy_bytes(&self.data),
            children: copy_inos(&self.children),
            writable: self.writable,
        }
    }
}

/// What was written to the env file during a mount session.
#[derive(Debug, PartialEq, Eq)]
pub struct Journal {
    pub env_original: Vec<u8>,
    pub env_data: Vec<u8>,
}

fn bytes_equal(a: &Vec<u8>, b: &Vec<u8>) -> (r: bool)
    ensures
        r == (a@ == b@),
{
    if a.len() != b.len() {
        return false;
    }
    let n: usize = a.len();
    let mut i: usize = 0;
    while i < n
        invariant
            n == a@.len(),
            n == b@.len(),
            i <= n,
            forall|j: int| 0 <= j < i ==> a@[j] == b@[j],
        decreases n - i,
    {
        if a[i] != b[i] {
            return false;
        }
        i = i + 1;
    }
    assert(a@ =~= b@);
    true
}

impl Journal {
    /// The env file differs from what the mount started with.
    pub fn drifted(&self) -> (r: bool)
        ensures
            r == (self.env_data@ != self.env_original@),
    {
        !bytes_equal(&self.env_data, &self.env_original)
    }
}

/// Attributes of an inode, apart from times and ownership.
#[derive(Debug, Clone, Copy, PartialEq, Eq)]
pub struct FileAttrs {
    pub ino: u64,
    pub size: u64,
    pub blocks: u64,
    pub kind: NodeKind,
    pub perm: u16,
    pub nlink: u32,
    pub blksize: u32,
}

/// Attributes for an inode: directories are `r-xr-xr-x` with two links and
/// at least one block, writable files `rw-r--r--`, other files `r--r--r--`;
/// blocks are 512 bytes, rounded up.
pub open spec fn attrs_of(ino: u64, size: u64, kind: NodeKind, writable: bool) -> FileAttrs {
    FileAttrs {
        ino,
        size,
        blocks: (if kind == NodeKind::Directory && (size + 511) / 512 == 0 { 1 } else { (size + 511) / 512 }) as u64,
        kind,
        perm: if kind == NodeKind::Directory { 0o555u16 } else if writable { 0o644u16 } else { 0o444u16 },
        nlink: if kind == NodeKind::Directory { 2u32 } else { 1u32 },
        blksize: 4096,
    }
}

/// The attributes of an inode with `size` bytes of data.
pub fn file_attr(ino: u64, size: u64, kind: NodeKind, writable: bool) -> (a: FileAttrs)
    ensures
        a == attrs_of(ino, size, kind, writable),
{
    let perm: u16 = if kind == NodeKind::Directory {
        0o555
    } else if writable {
        0o644
    } else {
        0o444
    };
    let whole: u64 = size / 512;
    let blocks_needed: u64 = if size % 512 == 0 { whole } else { whole + 1 };
    assert(blocks_needed == (size + 511) / 512);
    let blocks: u64 = if kind == NodeKind::Directory && blocks_needed == 0 { 1 } else { blocks_needed };
    FileAttrs {
        ino,
        size,
        blocks,
        kind,
        perm,
        nlink: if kind == NodeKind::Directory { 2 } else { 1 },
        blksize: 4096,
    }
}

/// A name that may appear as a file name in the mounted tree: 1 to 64
/// characters from ASCII letters, digits, `-`, `_` and `.`, and not `.` or `..`.
pub open spec fn safe_filename(name: Seq<char>) -> bool {
    &&& 0 < name.len()
    &&& vstd::utf8::encode_utf8(name).len() <= 64
    &&& name != seq!['.']
    &&& name != seq!['.', '.']
    &&& forall|i: int| 0 <= i < name.len() ==> safe_name_char(#[trigger] name[i])
}

/// An ASCII letter or digit, `-`, `_` or `.`.
pub open spec fn safe_name_char(c: char) -> bool {
    let u = c as u32;
    (0x30 <= u && u <= 0x39) || (0x41 <= u && u <= 0x5a) || (0x61 <= u && u <= 0x7a) || c == '-'
        || c == '_' || c == '.'
}

/// Whether `name` is a safe file name for the mounted tree.
pub fn is_safe_filename(name: &str) -> (b: bool)
    ensures
        b == safe_filename(name@),
{
    let n: usize = name.unicode_len();
    if n == 0 {
        return false;
    }
    if n > 64 {
        proof {
            crate::text::lemma_utf8_len_bounds(name@);
        }
        return false;
    }
    if crate::text::byte_len(name) > 64 {
        return false;
    }
    if (n == 1 && name.get_char(0) == '.') || (n == 2 && name.get_char(0) == '.' && name.get_char(1) == '.') {
        assert(name@ =~= seq!['.'] || name@ =~= seq!['.', '.']);
        return false;
    }
    assert(name@ != seq!['.']) by {
        if name@ == seq!['.'] {
            assert(name@[0] == '.');
        }
    }
    assert(name@ != seq!['.', '.']) by {
        if name@ == seq!['.', '.'] {
            assert(name@[0] == '.' && name@[1] == '.');
        }
    }
    let mut i: usize = 0;
    while i < n
        invariant
            n == name@.len(),
            i <= n,
            forall|j: int| 0 <= j < i ==> safe_name_char(#[trigger] name@[j]),
        decreases n - i,
    {
        let c: char = name.get_char(i);
        let u: u32 = c as u32;
        let ok: bool = (0x30 <= u && u <= 0x39) || (0x41 <= u && u <= 0x5a) || (0x61 <= u && u <= 0x7a)
            || c == '-' || c == '_' || c == '.';
        if !ok {
            return false;
        }
        i = i + 1;
    }
    true
}

/// `d` zero-padded to length `n` when shorter, else cut to `n`.
pub open spec fn resized(d: Seq<u8>, n: nat) -> Seq<u8> {
    if n <= d.len() {
        d.take(n as int)
    } else {
        d + Seq::new((n - d.len()) as nat, |i: int| 0u8)
    }
}

/// `d` after writing `w` at offset `off`, zero-filling any gap.
pub open spec fn written(d: Seq<u8>, off: nat, w: Seq<u8>) -> Seq<u8> {
    let end = off + w.len();
    let padded = if end > d.len() { resized(d, end) } else { d };
    padded.take(off as int) + w + padded.skip(end as int)
}

/// What a write of `w` at `off` leaves in a file that held `d`: its length is
/// the larger of the old length and the end of the write; the bytes before
/// `off` and those after the written range stay as they were; the range
/// holds `w`; a gap between the old end and `off` reads as zeros.
pub proof fn lemma_write_bytes(d: Seq<u8>, off: nat, w: Seq<u8>)
    ensures
        written(d, off, w).len() == (if off + w.len() > d.len() { (off + w.len()) as int } else { d.len() as int }),
        forall|q: int| 0 <= q < off && q < d.len() ==> #[trigger] written(d, off, w)[q] == d[q],
        forall|q: int| d.len() <= q < off ==> #[trigger] written(d, off, w)[q] == 0u8,
        forall|q: int| 0 <= q < w.len() ==> #[trigger] written(d, off, w)[off + q] == w[q],
        forall|q: int| off + w.len() <= q < d.len() ==> #[trigger] written(d, off, w)[q] == d[q],
{
    let end = off + w.len();
    let padded = if end > d.len() { resized(d, end) } else { d };
    let r = written(d, off, w);
    assert(padded.len() == if end > d.len() { end as int } else { d.len() as int });
    assert forall|q: int| 0 <= q < padded.len() && q < d.len() implies padded[q] == d[q] by {}
    assert forall|q: int| d.len() <= q < padded.len() implies padded[q] == 0u8 by {}
    assert forall|q: int| 0 <= q < off && q < d.len() implies #[trigger] r[q] == d[q] by {
        assert(r[q] == padded.take(off as int)[q]);
    }
    assert forall|q: int| d.len() <= q < off implies #[trigger] r[q] == 0u8 by {
        assert(r[q] == padded.take(off as int)[q]);
    }
    assert forall|q: int| 0 <= q < w.len() implies #[trigger] r[off + q] == w[q] by {
        assert(r[off + q] == (padded.take(off as int) + w)[off + q]);
    }
    assert forall|q: int| end <= q < d.len() implies #[trigger] r[q] == d[q] by {
        assert(r[q] == padded.skip(end as int)[q - end]);
    }
}

/// `d` zero-padded or cut to `n` bytes.
fn resize_bytes(d: &Vec<u8>, n: usize) -> (r: Vec<u8>)
    ensures
        r@ == resized(d@, n as nat),
{
    let keep: usize = if n < d.len() { n } else { d.len() };
    let mut r: Vec<u8> = Vec::new();
    let mut i: usize = 0;
    while i < keep
        invariant
            keep <= d@.len(),
            keep <= n,
            i <= keep,
            r@ == d@.take(i as int),
        decreases keep - i,
    {
        r.push(d[i]);
        i = i + 1;
        assert(r@ =~= d@.take(i as int));
    }
    while i < n
        invariant
            keep <= d@.len(),
            keep <= n,
            keep <= i <= n,
            keep == (if n < d@.len() { n as int } else { d@.len() as int }),
            r@ == d@.take(keep as int) + Seq::new((i - keep) as nat, |j: int| 0u8),
        decreases n - i,
    {
        r.push(0u8);
        i = i + 1;
        assert(r@ =~= d@.take(keep as int) + Seq::new((i - keep) as nat, |j: int| 0u8));
    }
    proof {
        if n <= d@.len() {
            assert(r@ =~= d@.take(n as int));
        } else {
            assert(d@.take(keep as int) =~= d@);
        }
    }
    r
}

/// The mounted tree: inodes numbered from 1 in creation order, the env
/// file's inode, and the journal of its contents.
#[derive(Debug)]
pub struct TaprootFS {
    inodes: Vec<Inode>,
    next_ino: u64,
    env_ino: Option<u64>,
    journal: Journal,
}

pub struct FsView {
    pub inodes: Seq<InodeView>,
    pub env_ino: Option<u64>,
    pub env_original: Seq<u8>,
    pub env_data: Seq<u8>,
}

impl View for TaprootFS {
    type V = FsView;

    closed spec fn view(&self) -> FsView {
        FsView {
            inodes: self.inodes@.map_values(|i: Inode| i@),
            env_ino: self.env_ino,
            env_original: self.journal.env_original@,
            env_data: self.journal.env_data@,
        }
    }
}

/// The inode numbered `ino`, when there is one.
pub open spec fn node(v: FsView, ino: u64) -> Option<InodeView> {
    if 1 <= ino && ino <= v.inodes.len() {
        Some(v.inodes[ino - 1])
    } else {
        None
    }
}

/// The first child of `parent` named `name`.
pub open spec fn child_named(v: FsView, kids: Seq<u64>, name: Seq<char>) -> Option<u64>
    decreases kids.len(),
{
    if kids.len() == 0 {
        None
    } else if node(v, kids[0]) matches Some(n) && n.name == name {
        Some(kids[0])
    } else {
        child_named(v, kids.drop_first(), name)
    }
}

/// The child of `parent` called `name`, if any.
pub open spec fn lookup_spec(v: FsView, parent: u64, name: Seq<char>) -> Option<u64> {
    match node(v, parent) {
        Some(p) => child_named(v, p.children, name),
        None => None,
    }
}

/// Inodes are numbered from 1 in order, the root is a directory, every
/// child is an existing inode, and the journal tracks the env file.
pub open spec fn fs_wf(v: FsView) -> bool {
    &&& v.inodes.len() >= 1
    &&& v.inodes.len() < 0xffff_ffff_ffff
    &&& forall|i: int| 0 <= i < v.inodes.len() ==> (#[trigger] v.inodes[i]).ino == i + 1
    &&& v.inodes[0].kind == NodeKind::Directory
    &&& forall|i: int| 0 <= i < v.inodes.len() ==> (#[trigger] v.inodes[i]).writable ==> v.inodes[i].kind == NodeKind::RegularFile
    &&& forall|i: int| 0 <= i < v.inodes.len() ==> (#[trigger] v.inodes[i]).children.len() <= v.inodes.len()
    &&& forall|i: int, j: int| 0 <= i < v.inodes.len() && 0 <= j < v.inodes[i].children.len()
        ==> 1 <= #[trigger] v.inodes[i].children[j] <= v.inodes.len()
    &&& match v.env_ino {
        Some(e) => 1 <= e <= v.inodes.len() && v.inodes[e - 1].data == v.env_data
            && v.inodes[e - 1].kind == NodeKind::RegularFile,
        None => true,
    }
}

/// The attributes of inode `ino`, when it exists; a directory's size is 0.
pub open spec fn node_attrs(v: FsView, ino: u64) -> Option<FileAttrs> {
    match node(v, ino) {
        None => None,
        Some(n) => Some(attrs_of(ino, (if n.kind == NodeKind::Directory { 0 } else { n.data.len() }) as u64, n.kind, n.writable)),
    }
}

impl TaprootFS {
    /// The tree's consistency predicate.
    pub closed spec fn wf(&self) -> bool {
        &&& fs_wf(self@)
        &&& self.next_ino == self.inodes@.len() + 1
    }

    /// Number of inodes.
    pub fn inode_count(&self) -> (n: usize)
        ensures
            n == self@.inodes.len(),
    {
        self.inodes.len()
    }

    /// The inode numbered `ino`.
    pub fn get_inode(&self, ino: u64) -> (r: Option<&Inode>)
        ensures
            match r {
                Some(i) => node(self@, ino) == Some(i@),
                None => node(self@, ino) is None,
            },
    {
        if ino >= 1 && ino <= self.inodes.len() as u64 {
            Some(&self.inodes[(ino - 1) as usize])
        } else {
            None
        }
    }

    /// The journal of the env file.
    pub fn journal(&self) -> (j: &Journal)
        ensures
            j.env_original@ == self@.env_original,
            j.env_data@ == self@.env_data,
    {
        &self.journal
    }

    /// The child of `parent` called `name`.
    pub fn lookup_ino(&self, parent: u64, name: &str) -> (r: Option<u64>)
        requires
            self.wf(),
        ensures
            r == lookup_spec(self@, parent, name@),
    {
        if parent < 1 || parent > self.inodes.len() as u64 {
            return None;
        }
        let p: &Inode = &self.inodes[(parent - 1) as usize];
        let ghost v = self@;
        let ghost kids = v.inodes[parent - 1].children;
        let n: usize = p.children.len();
        let total: usize = self.inodes.len();
        let mut k: usize = 0;
        assert(kids.skip(0) =~= kids);
        while k < n
            invariant
                self.wf(),
                total == self.inodes@.len(),
                v == self@,
                1 <= parent <= self.inodes@.len(),
                kids == self@.inodes[parent - 1].children,
                p@ == self@.inodes[parent - 1],
                n == kids.len(),
                k <= n,
                child_named(v, kids, name@) == child_named(v, kids.skip(k as int), name@),
            decreases n - k,
        {
            let c: u64 = p.children[k];
            assert(kids.skip(k as int)[0] == c);
            assert(kids.skip(k as int).drop_first() =~= kids.skip(k + 1));
            assert(1 <= c <= self.inodes@.len()) by {
                assert(v.inodes[parent - 1].children[k as int] == c);
            }
            let ci: usize = (c - 1) as usize;
            assert(ci as int == c - 1);
            assert(node(v, c) == Some(v.inodes[ci as int]));
            assert(v.inodes[ci as int] == self.inodes@[ci as int]@);
            if crate::text::text_equal(self.inodes[ci].name.as_str(), name) {
                return Some(c);
            }
            k = k + 1;
        }
        None
    }

    /// Attributes of the inode `ino`, when it exists.
    pub fn getattr_for(&self, ino: u64) -> (r: Option<FileAttrs>)
        ensures
            r == node_attrs(self@, ino),
    {
        match self.get_inode(ino) {
            None => None,
            Some(inode) => {
                let size: u64 = if inode.kind == NodeKind::Directory { 0 } else { inode.data.len() as u64 };
                Some(file_attr(ino, size, inode.kind, inode.writable))
            },
        }
    }

    fn add_node(&mut self, parent: u64, name: &str, kind: NodeKind, data: Vec<u8>, writable: bool) -> (ino: u64)
        requires
            old(self).wf(),
            1 <= parent <= old(self)@.inodes.len(),
            old(self)@.inodes.len() + 1 < 0xffff_ffff_ffff,
            old(self)@.env_ino matches Some(e) ==> e != old(self)@.inodes.len() + 1,
            writable ==> kind == NodeKind::RegularFile,
        ensures
            final(self).wf(),
            ino == old(self)@.inodes.len() + 1,
            final(self)@.inodes == old(self)@.inodes.update(
                parent - 1,
                InodeView { children: old(self)@.inodes[parent - 1].children.push(ino), ..old(self)@.inodes[parent - 1] },
            ).push(InodeView { ino, parent, name: name@, kind, data: data@, children: seq![], writable }),
            final(self)@.env_ino == old(self)@.env_ino,
            final(self)@.env_original == old(self)@.env_original,
            final(self)@.env_data == old(self)@.env_data,
    {
        let ghost before = self@;
        let ino: u64 = self.next_ino;
        let total: usize = self.inodes.len();
        let pi: usize = (parent - 1) as usize;
        assert(pi as int == parent - 1);
        let mut p: Inode = self.inodes[pi].clone();
        p.children.push(ino);
        self.inodes.set(pi, p);
        assert(self.inodes@[pi as int]@ == InodeView { children: before.inodes[parent - 1].children.push(ino), ..before.inodes[parent - 1] });
        self.inodes.push(Inode {
            ino,
            parent,
            name: String::from_str(name),
            kind,
            data,
            children: Vec::new(),
            writable,
        });
        self.next_ino = ino + 1;
        let ghost want = before.inodes.update(
            parent - 1,
            InodeView { children: before.inodes[parent - 1].children.push(ino), ..before.inodes[parent - 1] },
        ).push(InodeView { ino, parent, name: name@, kind, data: data@, children: seq![], writable });
        assert(self@.inodes =~= want);
        proof {
            let v = self@;
            assert forall|i: int, j: int| 0 <= i < v.inodes.len() && 0 <= j < v.inodes[i].children.len()
                implies 1 <= #[trigger] v.inodes[i].children[j] <= v.inodes.len() by {
                if i < before.inodes.len() && i != parent - 1 {
                    assert(v.inodes[i] == before.inodes[i]);
                } else if i == parent - 1 {
                    if j < before.inodes[i].children.len() {
                        assert(v.inodes[i].children[j] == before.inodes[i].children[j]);
                    }
                }
            }
            assert forall|i: int| 0 <= i < v.inodes.len() implies (#[trigger] v.inodes[i]).ino == i + 1 by {
                if i < before.inodes.len() && i != parent - 1 {
                    assert(v.inodes[i] == before.inodes[i]);
                }
            }
            if parent - 1 == 0 {
                assert(v.inodes[0].kind == before.inodes[0].kind);
            } else {
                assert(v.inodes[0] == before.inodes[0]);
            }
            match v.env_ino {
                Some(e) => {
                    if e - 1 != parent - 1 {
                        assert(v.inodes[e - 1] == before.inodes[e - 1]);
                    }
                },
                None => {},
            }
        }
        ino
    }

    /// Replaces the data of the inode at index `i`, keeping the journal in step.
    fn store_data(&mut self, i: usize, d: Vec<u8>)
        requires
            old(self).wf(),
            i < old(self)@.inodes.len(),
            old(self)@.inodes[i as int].kind == NodeKind::RegularFile,
        ensures
            final(self).wf(),
            final(self)@.inodes == old(self)@.inodes.update(i as int, InodeView { data: d@, ..old(self)@.inodes[i as int] }),
            final(self)@.env_ino == old(self)@.env_ino,
            final(self)@.env_original == old(self)@.env_original,
            final(self)@.env_data == (if old(self)@.env_ino == Some((i + 1) as u64) { d@ } else { old(self)@.env_data }),
    {
        let ghost before = self@;
        let is_env: bool = match self.env_ino {
            Some(e) => e == (i as u64) + 1,
            None => false,
        };
        let mut node: Inode = self.inodes[i].clone();
        if is_env {
            self.journal.env_data = copy_bytes(&d);
        }
        node.data = d;
        self.inodes.set(i, node);
        assert(self@.inodes =~= before.inodes.update(i as int, InodeView { data: d@, ..before.inodes[i as int] }));
        proof {
            let v = self@;
            assert forall|a: int, j: int| 0 <= a < v.inodes.len() && 0 <= j < v.inodes[a].children.len()
                implies 1 <= #[trigger] v.inodes[a].children[j] <= v.inodes.len() by {
                assert(v.inodes[a].children == before.inodes[a].children);
            }
            assert forall|a: int| 0 <= a < v.inodes.len() implies (#[trigger] v.inodes[a]).ino == a + 1 by {
                assert(v.inodes[a].ino == before.inodes[a].ino);
            }
            assert(v.inodes[0].kind == before.inodes[0].kind);
            match v.env_ino {
                Some(e) => {
                    if e - 1 != i {
                        assert(v.inodes[e - 1] == before.inodes[e - 1]);
                    }
                },
                None => {},
            }
        }
    }

    /// Writes `data` at `offset` into a writable file, zero-filling any gap,
    /// and records the env file's new contents in the journal.
    pub fn apply_write(&mut self, ino: u64, offset: i64, data: &[u8]) -> (r: Result<u32, FsError>)
        requires
            old(self).wf(),
        ensures
            final(self).wf(),
            match node(old(self)@, ino) {
                None => r == Err::<u32, FsError>(FsError::NotFound) && final(self)@ == old(self)@,
                Some(n) => if n.kind == NodeKind::Directory {
                    r == Err::<u32, FsError>(FsError::IsDir) && final(self)@ == old(self)@
                } else if !n.writable {
                    r == Err::<u32, FsError>(FsError::ReadOnly) && final(self)@ == old(self)@
                } else if offset < 0 || (offset as usize) + data@.len() > usize::MAX {
                    r == Err::<u32, FsError>(FsError::Invalid) && final(self)@ == old(self)@
                } else {
                    let nd = written(n.data, (offset as usize) as nat, data@);
                    &&& r == Ok::<u32, FsError>(data@.len() as u32)
                    &&& final(self)@.inodes == old(self)@.inodes.update(ino - 1, InodeView { data: nd, ..n })
                    &&& final(self)@.env_ino == old(self)@.env_ino
                    &&& final(self)@.env_original == old(self)@.env_original
                    &&& final(self)@.env_data == (if old(self)@.env_ino == Some(ino) { nd } else { old(self)@.env_data })
                },
            },
            r is Ok ==> {
                let before = old(self)@.inodes[ino - 1].data;
                let after = final(self)@.inodes[ino - 1].data;
                let off = (offset as usize) as int;
                let end = off + data@.len();
                &&& 1 <= ino <= old(self)@.inodes.len()
                &&& 0 <= offset
                &&& after.len() == (if end > before.len() { end } else { before.len() as int })
                &&& forall|q: int| 0 <= q < off && q < before.len() ==> after[q] == before[q]
                &&& forall|q: int| before.len() <= q < off ==> after[q] == 0u8
                &&& forall|q: int| 0 <= q < data@.len() ==> after[off + q] == data@[q]
                &&& forall|q: int| end <= q < before.len() ==> after[q] == before[q]
            },
    {
        if ino < 1 || ino > self.inodes.len() as u64 {
            return Err(FsError::NotFound);
        }
        let i: usize = (ino - 1) as usize;
        if self.inodes[i].kind == NodeKind::Directory {
            return Err(FsError::IsDir);
        }
        if !self.inodes[i].writable {
            return Err(FsError::ReadOnly);
        }
        if offset < 0 {
            return Err(FsError::Invalid);
        }
        let off: usize = offset as usize;
        let end: usize = match off.checked_add(data.len()) {
            Some(e) => e,
            None => {
                return Err(FsError::Invalid);
            },
        };
        let ghost old_data = self@.inodes[i as int].data;
        let cur: usize = self.inodes[i].data.len();
        let mut d: Vec<u8> = if end > cur {
            resize_bytes(&self.inodes[i].data, end)
        } else {
            copy_bytes(&self.inodes[i].data)
        };
        let ghost padded = d@;
        let n: usize = data.len();
        let mut k: usize = 0;
        while k < n
            invariant
                n == data@.len(),
                end == off + n,
                end <= d@.len(),
                d@.len() == padded.len(),
                k <= n,
                forall|q: int| 0 <= q < off ==> d@[q] == padded[q],
                forall|q: int| end <= q < d@.len() ==> d@[q] == padded[q],
                forall|q: int| off + k <= q < end ==> d@[q] == padded[q],
                forall|q: int| 0 <= q < k ==> d@[off + q] == data@[q],
            decreases n - k,
        {
            d.set(off + k, data[k]);
            k = k + 1;
        }
        assert(d@ =~= written(old_data, off as nat, data@));
        proof {
            lemma_write_bytes(old_data, off as nat, data@);
            let nd = written(old_data, off as nat, data@);
            assert forall|q: int| 0 <= q < data@.len() implies nd[off + q] == data@[q] by {
                assert(nd[off as nat + q] == data@[q]);
            }
        }
        self.store_data(i, d);
        Ok(data.len() as u32)
    }

    /// Cuts or zero-extends a writable file to `size` bytes, recording the
    /// env file's new contents in the journal.
    pub fn apply_truncate(&mut self, ino: u64, size: u64) -> (r: Result<(), FsError>)
        requires
            old(self).wf(),
        ensures
            final(self).wf(),
            match node(old(self)@, ino) {
                None => r == Err::<(), FsError>(FsError::NotFound) && final(self)@ == old(self)@,
                Some(n) => if n.kind == NodeKind::Directory {
                    r == Err::<(), FsError>(FsError::IsDir) && final(self)@ == old(self)@
                } else if !n.writable {
                    r == Err::<(), FsError>(FsError::ReadOnly) && final(self)@ == old(self)@
                } else {
                    let nd = resized(n.data, (size as usize) as nat);
                    &&& r is Ok
                    &&& final(self)@.inodes == old(self)@.inodes.update(ino - 1, InodeView { data: nd, ..n })
                    &&& final(self)@.env_ino == old(self)@.env_ino
                    &&& final(self)@.env_original == old(self)@.env_original
                    &&& final(self)@.env_data == (if old(self)@.env_ino == Some(ino) { nd } else { old(self)@.env_data })
                },
            },
    {
        if ino < 1 || ino > self.inodes.len() as u64 {
            return Err(FsError::NotFound);
        }
        let i: usize = (ino - 1) as usize;
        if self.inodes[i].kind == NodeKind::Directory {
            return Err(FsError::IsDir);
        }
        if !self.inodes[i].writable {
            return Err(FsError::ReadOnly);
        }
        let ghost old_data = self@.inodes[i as int].data;
        let d: Vec<u8> = resize_bytes(&self.inodes[i].data, size as usize);
        self.store_data(i, d);
        Ok(())
    }
}

// ---------------------------------------------------------------------------
// The tree of a mounted state
// ---------------------------------------------------------------------------

/// The env file: one `key=value` line per variable, in key order.
pub open spec fn env_text(es: Seq<TextPair>) -> Seq<char>
    decreases es.len(),
{
    if es.len() == 0 {
        seq![]
    } else {
        env_text(es.drop_last()) + es.last().0 + seq!['='] + es.last().1 + seq!['\n']
    }
}

/// The file shown for a runtime.
pub open spec fn runtime_text(r: RuntimeView) -> Seq<char> {
    "name: "@ + r.name + "\nversion: "@ + r.version + "\npinned: "@ + bool_text(r.pinned) + "\n"@
}

/// The file shown for a container.
pub open spec fn container_text(c: ContainerView) -> Seq<char> {
    "name: "@ + c.name + "\nversion: "@ + c.version + "\nimage: "@ + c.image + "\nsigned: "@ + bool_text(
        c.signed,
    ) + "\n"@
}

/// The README at the root of the mount.
pub open spec fn readme_text(s: SignedView) -> Seq<char> {
    "taproot mount\n=============\nrepo: "@ + s.state.base.repo + "  branch: "@ + s.state.base.branch
        + "  commit: "@ + s.state.base.commit + "\nstate: "@ + (if s.signature is Some {
        "signed"@
    } else {
        "unsigned"@
    }) + "  sha256:"@ + s.hash + "\nruntimes: "@ + decimal(s.state.runtimes.len()) + "  containers: "@
        + decimal(s.state.containers.len()) + "  env-vars: "@ + decimal(s.state.env_vars.len())
        + "\n\nRead-only, except one file:\nenv \u{2014} edit key=value lines to change env-vars.\nOn unmount, edits are captured as drift; run\n`taproot sync` to review, sign, and adopt them.\n\nFiles:\nstate.json  \u{2014} pretty-printed SignedState\nenv         \u{2014} key=value list (WRITABLE)\nhash        \u{2014} sha256 hex\nversion     \u{2014} schema version\nruntimes/   \u{2014} per-runtime virtual files\ncontainers/ \u{2014} per-container virtual files\n"@
}

/// The files shown in a directory for candidates given as (name, contents):
/// `<name>.txt` for each candidate whose name is safe, the first one winning
/// when two share a name.
pub open spec fn kept_files(cands: Seq<TextPair>) -> Seq<TextPair>
    decreases cands.len(),
{
    if cands.len() == 0 {
        seq![]
    } else {
        let prev = kept_files(cands.drop_last());
        let fname = cands.last().0 + ".txt"@;
        if safe_filename(cands.last().0) && !(exists|j: int| 0 <= j < prev.len() && #[trigger] prev[j].0 == fname) {
            prev.push((fname, cands.last().1))
        } else {
            prev
        }
    }
}

/// The files of the `runtimes/` directory, as (name, contents).
pub open spec fn runtime_files(s: StateView) -> Seq<TextPair> {
    kept_files(s.runtimes.map_values(|r: RuntimeView| (r.name, runtime_text(r))))
}

/// The files of the `containers/` directory, as (name, contents).
pub open spec fn container_files(s: StateView) -> Seq<TextPair> {
    kept_files(s.containers.map_values(|c: ContainerView| (c.name, container_text(c))))
}

/// A file of the tree, holding the UTF-8 bytes of `text`.
pub open spec fn file_node(ino: int, parent: int, name: Seq<char>, text: Seq<char>, writable: bool) -> InodeView {
    InodeView {
        ino: ino as u64,
        parent: parent as u64,
        name,
        kind: NodeKind::RegularFile,
        data: vstd::utf8::encode_utf8(text),
        children: seq![],
        writable,
    }
}

/// A directory of the tree.
pub open spec fn dir_node(ino: int, parent: int, name: Seq<char>, children: Seq<u64>) -> InodeView {
    InodeView {
        ino: ino as u64,
        parent: parent as u64,
        name,
        kind: NodeKind::Directory,
        data: seq![],
        children,
        writable: false,
    }
}

/// `n` consecutive inode numbers from `first`.
pub open spec fn numbered_from(first: int, n: nat) -> Seq<u64> {
    Seq::new(n, |i: int| (first + i) as u64)
}

/// Read-only file nodes for `files`, numbered from `first`, under `parent`.
pub open spec fn file_nodes(files: Seq<TextPair>, first: int, parent: int) -> Seq<InodeView> {
    Seq::new(files.len(), |i: int| file_node(first + i, parent, files[i].0, files[i].1, false))
}

/// The root's first entries, before the per-runtime and per-container parts.
pub open spec fn top_nodes(s: SignedView, state_json: Seq<char>, root_kids: Seq<u64>, runtime_kids: Seq<u64>) -> Seq<InodeView> {
    seq![
        dir_node(1, 1, seq![], root_kids),
        file_node(2, 1, "README.taproot"@, readme_text(s), false),
        file_node(3, 1, "state.json"@, state_json, false),
        file_node(4, 1, "env"@, env_text(s.state.env_vars), true),
        file_node(5, 1, "hash"@, s.hash, false),
        file_node(6, 1, "version"@, s.state.version, false),
        dir_node(7, 1, "runtimes"@, runtime_kids),
    ]
}

/// The whole tree mounted for `s`, whose `state.json` shows `state_json`.
pub open spec fn mount_tree(s: SignedView, state_json: Seq<char>) -> Seq<InodeView> {
    let rf = runtime_files(s.state);
    let cf = container_files(s.state);
    let cdir: int = rf.len() as int + 8;
    top_nodes(s, state_json, seq![2u64, 3u64, 4u64, 5u64, 6u64, 7u64, cdir as u64], numbered_from(8, rf.len()))
        + file_nodes(rf, 8, 7) + seq![dir_node(cdir, 1, "containers"@, numbered_from(cdir + 1, cf.len()))]
        + file_nodes(cf, cdir + 1, cdir)
}

fn env_file_text(env: &StrMap) -> (r: String)
    ensures
        r@ == env_text(env@),
{
    let n: usize = env.len();
    let mut out = String::new();
    let mut i: usize = 0;
    while i < n
        invariant
            n == env@.len(),
            i <= n,
            out@ == env_text(env@.take(i as int)),
        decreases n - i,
    {
        out.append(env.key_at(i).as_str());
        out.append("=");
        out.append(env.value_at(i).as_str());
        out.append("\n");
        proof {
            reveal_strlit("=");
            reveal_strlit("\n");
            assert(env@.take(i + 1).drop_last() =~= env@.take(i as int));
        }
        i = i + 1;
    }
    assert(env@.take(n as int) =~= env@);
    out
}

fn runtime_file_text(r: &Runtime) -> (s: String)
    ensures
        s@ == runtime_text(r@),
{
    let mut s = String::from_str("name: ");
    s.append(r.name.as_str());
    s.append("\nversion: ");
    s.append(r.version.as_str());
    s.append("\npinned: ");
    s.append(bool_string(r.pinned).as_str());
    s.append("\n");
    s
}

fn container_file_text(c: &Container) -> (s: String)
    ensures
        s@ == container_text(c@),
{
    let mut s = String::from_str("name: ");
    s.append(c.name.as_str());
    s.append("\nversion: ");
    s.append(c.version.as_str());
    s.append("\nimage: ");
    s.append(c.image.as_str());
    s.append("\nsigned: ");
    s.append(bool_string(c.signed).as_str());
    s.append("\n");
    s
}

fn readme_file_text(signed: &SignedState) -> (r: String)
    ensures
        r@ == readme_text(signed@),
{
    let st = &signed.state;
    let mut s = String::from_str("taproot mount\n=============\nrepo: ");
    s.append(st.base.repo.as_str());
    s.append("  branch: ");
    s.append(st.base.branch.as_str());
    s.append("  commit: ");
    s.append(st.base.commit.as_str());
    s.append("\nstate: ");
    if signed.signature.is_some() {
        s.append("signed");
    } else {
        s.append("unsigned");
    }
    s.append("  sha256:");
    s.append(signed.hash.as_str());
    s.append("\nruntimes: ");
    s.append(decimal_string(st.runtimes.len() as u64).as_str());
    s.append("  containers: ");
    s.append(decimal_string(st.containers.len() as u64).as_str());
    s.append("  env-vars: ");
    s.append(decimal_string(st.env_vars.len() as u64).as_str());
    s.append("\n\nRead-only, except one file:\nenv \u{2014} edit key=value lines to change env-vars.\nOn unmount, edits are captured as drift; run\n`taproot sync` to review, sign, and adopt them.\n\nFiles:\nstate.json  \u{2014} pretty-printed SignedState\nenv         \u{2014} key=value list (WRITABLE)\nhash        \u{2014} sha256 hex\nversion     \u{2014} schema version\nruntimes/   \u{2014} per-runtime virtual files\ncontainers/ \u{2014} per-container virtual files\n");
    s
}

proof fn lemma_child_named_files(v: FsView, first: int, files: Seq<TextPair>, name: Seq<char>)
    requires
        1 <= first,
        first + files.len() <= v.inodes.len() + 1,
        first + files.len() <= 0xffff_ffff_ffff,
        forall|j: int| 0 <= j < files.len() ==> v.inodes[first + j - 1].name == #[trigger] files[j].0,
    ensures
        (child_named(v, numbered_from(first, files.len()), name) is Some) <==> (exists|j: int|
            0 <= j < files.len() && #[trigger] files[j].0 == name),
    decreases files.len(),
{
    if files.len() > 0 {
        let kids = numbered_from(first, files.len());
        let rest = files.drop_first();
        assert(kids[0] == first as u64);
        assert(kids.drop_first() =~= numbered_from(first + 1, rest.len()));
        assert forall|j: int| 0 <= j < rest.len() implies v.inodes[(first + 1) + j - 1].name == #[trigger] rest[j].0 by {
            assert(rest[j] == files[j + 1]);
        }
        lemma_child_named_files(v, first + 1, rest, name);
        assert(node(v, first as u64) == Some(v.inodes[first - 1]));
        assert(v.inodes[first + 0 - 1].name == files[0].0);
        if files[0].0 != name {
            if exists|j: int| 0 <= j < files.len() && #[trigger] files[j].0 == name {
                let j = choose|j: int| 0 <= j < files.len() && #[trigger] files[j].0 == name;
                assert(rest[j - 1] == files[j]);
            }
            if exists|j: int| 0 <= j < rest.len() && #[trigger] rest[j].0 == name {
                let j = choose|j: int| 0 <= j < rest.len() && #[trigger] rest[j].0 == name;
                assert(rest[j] == files[j + 1]);
            }
        }
    }
}

fn runtime_candidates(rs: &Vec<Runtime>) -> (v: Vec<(String, String)>)
    ensures
        pairs_view(v@) == runtimes_view(rs@).map_values(|r: RuntimeView| (r.name, runtime_text(r))),
{
    let mut v: Vec<(String, String)> = Vec::new();
    let n: usize = rs.len();
    let mut i: usize = 0;
    while i < n
        invariant
            n == rs@.len(),
            i <= n,
            v@.len() == i,
            forall|j: int| 0 <= j < i ==> (#[trigger] v@[j]).0@ == rs@[j].name@ && v@[j].1@ == runtime_text(rs@[j]@),
        decreases n - i,
    {
        v.push((rs[i].name.clone(), runtime_file_text(&rs[i])));
        i = i + 1;
    }
    assert(pairs_view(v@) =~= runtimes_view(rs@).map_values(|r: RuntimeView| (r.name, runtime_text(r))));
    v
}

fn container_candidates(cs: &Vec<Container>) -> (v: Vec<(String, String)>)
    ensures
        pairs_view(v@) == containers_view(cs@).map_values(|c: ContainerView| (c.name, container_text(c))),
{
    let mut v: Vec<(String, String)> = Vec::new();
    let n: usize = cs.len();
    let mut i: usize = 0;
    while i < n
        invariant
            n == cs@.len(),
            i <= n,
            v@.len() == i,
            forall|j: int| 0 <= j < i ==> (#[trigger] v@[j]).0@ == cs@[j].name@ && v@[j].1@ == container_text(cs@[j]@),
        decreases n - i,
    {
        v.push((cs[i].name.clone(), container_file_text(&cs[i])));
        i = i + 1;
    }
    assert(pairs_view(v@) =~= containers_view(cs@).map_values(|c: ContainerView| (c.name, container_text(c))));
    v
}

proof fn lemma_kept_files_len(cands: Seq<TextPair>)
    ensures
        kept_files(cands).len() <= cands.len(),
    decreases cands.len(),
{
    if cands.len() > 0 {
        lemma_kept_files_len(cands.drop_last());
    }
}

impl TaprootFS {
    /// Adds, under the empty directory `dir` (the newest inode), a file for
    /// each kept candidate.
    fn add_kept_files(&mut self, dir: u64, cands: &Vec<(String, String)>)
        requires
            old(self).wf(),
            dir == old(self)@.inodes.len(),
            old(self)@.inodes[dir - 1].kind == NodeKind::Directory,
            old(self)@.inodes[dir - 1].children == Seq::<u64>::empty(),
            old(self)@.inodes.len() + cands@.len() + 2 < 0xffff_ffff_ffff,
            old(self)@.env_ino matches Some(e) ==> e < dir,
        ensures
            final(self).wf(),
            final(self)@.inodes == old(self)@.inodes.update(
                dir - 1,
                InodeView { children: numbered_from(dir + 1, kept_files(pairs_view(cands@)).len()), ..old(self)@.inodes[dir - 1] },
            ) + file_nodes(kept_files(pairs_view(cands@)), dir + 1, dir as int),
            final(self)@.env_ino == old(self)@.env_ino,
            final(self)@.env_original == old(self)@.env_original,
            final(self)@.env_data == old(self)@.env_data,
    {
        let ghost base = self@;
        let ghost pv = pairs_view(cands@);
        let n: usize = cands.len();
        let mut i: usize = 0;
        proof {
            assert(pv.take(0) =~= Seq::<TextPair>::empty());
            assert(self@.inodes =~~= base.inodes.update(
                dir - 1,
                InodeView { children: numbered_from(dir + 1, 0), ..base.inodes[dir - 1] },
            ) + file_nodes(seq![], dir + 1, dir as int));
        }
        while i < n
            invariant
                self.wf(),
                n == cands@.len(),
                pv == pairs_view(cands@),
                i <= n,
                dir == base.inodes.len(),
                1 <= dir,
                base.inodes.len() + n + 2 < 0xffff_ffff_ffff,
                base.env_ino matches Some(e) ==> e < dir,
                base.inodes[dir - 1].kind == NodeKind::Directory,
                kept_files(pv.take(i as int)).len() <= i,
                self@.inodes == base.inodes.update(
                    dir - 1,
                    InodeView { children: numbered_from(dir + 1, kept_files(pv.take(i as int)).len()), ..base.inodes[dir - 1] },
                ) + file_nodes(kept_files(pv.take(i as int)), dir + 1, dir as int),
                self@.env_ino == base.env_ino,
                self@.env_original == base.env_original,
                self@.env_data == base.env_data,
            decreases n - i,
        {
            let ghost kept = kept_files(pv.take(i as int));
            let ghost v = self@;
            proof {
                assert(pv.take(i + 1).drop_last() =~= pv.take(i as int));
                assert(pv.take(i + 1).last() == pv[i as int]);
                assert(pv[i as int] == (cands@[i as int].0@, cands@[i as int].1@));
            }
            if is_safe_filename(cands[i].0.as_str()) {
                let fname = concat(cands[i].0.as_str(), ".txt");
                proof {
                    let head = base.inodes.update(
                        dir - 1,
                        InodeView { children: numbered_from(dir + 1, kept.len()), ..base.inodes[dir - 1] },
                    );
                    assert(head.len() == dir);
                    assert(v.inodes[dir - 1] == head[dir - 1]);
                    assert forall|j: int| 0 <= j < kept.len() implies v.inodes[(dir + 1) + j - 1].name == #[trigger] kept[j].0 by {
                        assert(v.inodes[dir + j] == file_nodes(kept, dir + 1, dir as int)[j]);
                    }
                    lemma_child_named_files(v, dir + 1, kept, fname@);
                    assert(v.inodes[dir - 1].children == numbered_from(dir + 1, kept.len()));
                    assert(node(v, dir) == Some(v.inodes[dir - 1]));
                }
                if self.lookup_ino(dir, fname.as_str()).is_none() {
                    let bytes = cands[i].1.as_str().as_bytes_vec();
                    let ino = self.add_node(dir, fname.as_str(), NodeKind::RegularFile, bytes, false);
                    proof {
                        let nk = kept.push((fname@, pv[i as int].1));
                        assert(kept_files(pv.take(i + 1)) == nk);
                        assert(ino == dir + kept.len() + 1);
                        assert(numbered_from(dir + 1, kept.len()).push(ino) =~= numbered_from(dir + 1, nk.len()));
                        assert(self@.inodes =~~= base.inodes.update(
                            dir - 1,
                            InodeView { children: numbered_from(dir + 1, nk.len()), ..base.inodes[dir - 1] },
                        ) + file_nodes(nk, dir + 1, dir as int));
                    }
                } else {
                    assert(kept_files(pv.take(i + 1)) == kept);
                }
            } else {
                assert(kept_files(pv.take(i + 1)) == kept);
            }
            i = i + 1;
        }
        assert(pv.take(n as int) =~= pv);
    }
}

impl TaprootFS {
    /// The tree for `signed`: at the root `README.taproot`, `state.json`
    /// (showing `state_json`), the writable `env` file, `hash`, `version`,
    /// and the directories `runtimes/` and `containers/` with a `<name>.txt`
    /// file for each entry whose name is a safe file name (the first of two
    /// entries with one name wins). The journal starts with the env file's
    /// contents, unchanged.
    pub fn new(signed: &SignedState, state_json: &str) -> (fs: Self)
        requires
            signed@.state.runtimes.len() + signed@.state.containers.len() < 0xffff_0000_0000,
        ensures
            fs.wf(),
            fs@.inodes == mount_tree(signed@, state_json@),
            fs@.env_ino == Some(4u64),
            fs@.env_original == vstd::utf8::encode_utf8(env_text(signed@.state.env_vars)),
            fs@.env_data == fs@.env_original,
    {
        let ghost sv = signed@;
        let mut inodes: Vec<Inode> = Vec::new();
        inodes.push(Inode {
            ino: ROOT_INO,
            parent: ROOT_INO,
            name: String::new(),
            kind: NodeKind::Directory,
            data: Vec::new(),
            children: Vec::new(),
            writable: false,
        });
        let mut fs = TaprootFS {
            inodes,
            next_ino: ROOT_INO + 1,
            env_ino: None,
            journal: Journal { env_original: Vec::new(), env_data: Vec::new() },
        };
        let readme = readme_file_text(signed);
        let env = env_file_text(&signed.state.env_vars);
        fs.add_node(ROOT_INO, "README.taproot", NodeKind::RegularFile, readme.as_str().as_bytes_vec(), false);
        fs.add_node(ROOT_INO, "state.json", NodeKind::RegularFile, state_json.as_bytes_vec(), false);
        let env_ino = fs.add_node(ROOT_INO, "env", NodeKind::RegularFile, env.as_str().as_bytes_vec(), true);
        fs.env_ino = Some(env_ino);
        fs.journal = Journal { env_original: env.as_str().as_bytes_vec(), env_data: env.as_str().as_bytes_vec() };
        fs.add_node(ROOT_INO, "hash", NodeKind::RegularFile, signed.hash.as_str().as_bytes_vec(), false);
        fs.add_node(ROOT_INO, "version", NodeKind::RegularFile, signed.state.version.as_str().as_bytes_vec(), false);
        let rdir = fs.add_node(ROOT_INO, "runtimes", NodeKind::Directory, Vec::new(), false);
        let ghost top = top_nodes(sv, state_json@, seq![2u64, 3u64, 4u64, 5u64, 6u64, 7u64], seq![]);
        assert(fs@.inodes =~~= top);
        let rc = runtime_candidates(&signed.state.runtimes);
        assert(rc@.len() == pairs_view(rc@).len());
        assert(sv.state.runtimes.len() == signed.state.runtimes@.len());
        fs.add_kept_files(rdir, &rc);
        let ghost rf = runtime_files(sv.state);
        proof {
            lemma_kept_files_len(pairs_view(rc@));
            assert(fs@.inodes =~~= top_nodes(sv, state_json@, seq![2u64, 3u64, 4u64, 5u64, 6u64, 7u64], numbered_from(8, rf.len()))
                + file_nodes(rf, 8, 7));
        }
        let cdir = fs.add_node(ROOT_INO, "containers", NodeKind::Directory, Vec::new(), false);
        let ghost cdi: int = rf.len() as int + 8;
        proof {
            assert(cdir == cdi);
            assert(fs@.inodes =~~= top_nodes(sv, state_json@, seq![2u64, 3u64, 4u64, 5u64, 6u64, 7u64, cdi as u64], numbered_from(8, rf.len()))
                + file_nodes(rf, 8, 7) + seq![dir_node(cdi, 1, "containers"@, seq![])]);
        }
        let cc = container_candidates(&signed.state.containers);
        assert(cc@.len() == pairs_view(cc@).len());
        assert(sv.state.containers.len() == signed.state.containers@.len());
        fs.add_kept_files(cdir, &cc);
        proof {
            let cf = container_files(sv.state);
            assert(fs@.inodes =~~= mount_tree(sv, state_json@));
        }
        fs
    }
}

/// The bytes a read of `size` bytes at `off` returns from `d`.
pub open spec fn read_range(d: Seq<u8>, off: int, size: int) -> Seq<u8> {
    if off >= d.len() {
        seq![]
    } else if off + size < d.len() {
        d.subrange(off, off + size)
    } else {
        d.subrange(off, d.len() as int)
    }
}

/// One entry of a directory listing: the inode, the offset of the next
/// entry, its kind and its name.
#[derive(Debug)]
pub struct DirEntry {
    pub ino: u64,
    pub offset: i64,
    pub kind: NodeKind,
    pub name: String,
}

pub struct DirEntryView {
    pub ino: u64,
    pub offset: int,
    pub kind: NodeKind,
    pub name: Seq<char>,
}

impl View for DirEntry {
    type V = DirEntryView;

    open spec fn view(&self) -> DirEntryView {
        DirEntryView { ino: self.ino, offset: self.offset as int, kind: self.kind, name: self.name@ }
    }
}

pub open spec fn entries_view(v: Seq<DirEntry>) -> Seq<DirEntryView> {
    v.map_values(|e: DirEntry| e@)
}

/// All entries of directory `d` (inode `ino`): `.`, `..` (the root is its
/// own parent), then the children in creation order; as (inode, kind, name).
pub open spec fn all_entries(v: FsView, ino: u64, d: InodeView) -> Seq<(u64, NodeKind, Seq<char>)> {
    seq![(ino, NodeKind::Directory, "."@), (if ino == ROOT_INO { ROOT_INO } else { d.parent }, NodeKind::Directory, ".."@)]
        + d.children.map_values(|c: u64| (c, v.inodes[c - 1].kind, v.inodes[c - 1].name))
}

/// The listing from offset `off` on: entry `i` (from 0) carries offset
/// `i + 1`, and those with an offset up to `off` are left out.
pub open spec fn listing_from(es: Seq<(u64, NodeKind, Seq<char>)>, off: int) -> Seq<DirEntryView> {
    if off >= es.len() {
        seq![]
    } else {
        Seq::new((es.len() - off) as nat, |k: int| DirEntryView {
            ino: es[off + k].0,
            offset: off + k + 1,
            kind: es[off + k].1,
            name: es[off + k].2,
        })
    }
}

impl TaprootFS {
    /// The attributes of the child of `parent` called `name`.
    pub fn lookup_entry(&self, parent: u64, name: &str) -> (r: Option<FileAttrs>)
        requires
            self.wf(),
        ensures
            r == (match lookup_spec(self@, parent, name@) {
                Some(c) => node_attrs(self@, c),
                None => None,
            }),
    {
        match self.lookup_ino(parent, name) {
            Some(c) => self.getattr_for(c),
            None => None,
        }
    }

    /// Reads up to `size` bytes at `offset` from a file; past the end the
    /// read is empty.
    pub fn read_data(&self, ino: u64, offset: i64, size: u32) -> (r: Result<Vec<u8>, FsError>)
        ensures
            match node(self@, ino) {
                None => r == Err::<Vec<u8>, FsError>(FsError::NotFound),
                Some(n) => if n.kind == NodeKind::Directory {
                    r == Err::<Vec<u8>, FsError>(FsError::IsDir)
                } else if offset < 0 {
                    r == Err::<Vec<u8>, FsError>(FsError::Invalid)
                } else {
                    r matches Ok(d) && d@ == read_range(n.data, offset as int, size as int)
                },
            },
    {
        let inode = match self.get_inode(ino) {
            Some(i) => i,
            None => {
                return Err(FsError::NotFound);
            },
        };
        if inode.kind == NodeKind::Directory {
            return Err(FsError::IsDir);
        }
        if offset < 0 {
            return Err(FsError::Invalid);
        }
        let len: usize = inode.data.len();
        if (offset as u64) >= (len as u64) {
            return Ok(Vec::new());
        }
        let off: usize = offset as usize;
        let end: usize = if (size as usize) < len - off { off + size as usize } else { len };
        let mut out: Vec<u8> = Vec::new();
        let mut i: usize = off;
        while i < end
            invariant
                off <= i <= end,
                end <= len,
                len == inode.data@.len(),
                out@ == inode.data@.subrange(off as int, i as int),
            decreases end - i,
        {
            out.push(inode.data[i]);
            i = i + 1;
            assert(out@ =~= inode.data@.subrange(off as int, i as int));
        }
        Ok(out)
    }

    /// The entries of directory `ino` after offset `offset`.
    pub fn dir_entries(&self, ino: u64, offset: i64) -> (r: Result<Vec<DirEntry>, FsError>)
        requires
            self.wf(),
        ensures
            offset < 0 ==> r == Err::<Vec<DirEntry>, FsError>(FsError::Invalid),
            offset >= 0 ==> match node(self@, ino) {
                None => r == Err::<Vec<DirEntry>, FsError>(FsError::NotFound),
                Some(d) => if d.kind != NodeKind::Directory {
                    r == Err::<Vec<DirEntry>, FsError>(FsError::NotDir)
                } else {
                    r matches Ok(es) && entries_view(es@) == listing_from(all_entries(self@, ino, d), offset as int)
                },
            },
    {
        if offset < 0 {
            return Err(FsError::Invalid);
        }
        let inode = match self.get_inode(ino) {
            Some(i) => i,
            None => {
                return Err(FsError::NotFound);
            },
        };
        if inode.kind != NodeKind::Directory {
            return Err(FsError::NotDir);
        }
        let ghost v = self@;
        let ghost all = all_entries(v, ino, inode@);
        let mut names: Vec<(u64, NodeKind, String)> = Vec::new();
        names.push((ino, NodeKind::Directory, String::from_str(".")));
        names.push((if ino == ROOT_INO { ROOT_INO } else { inode.parent }, NodeKind::Directory, String::from_str("..")));
        let nk: usize = inode.children.len();
        let total: usize = self.inodes.len();
        let mut k: usize = 0;
        while k < nk
            invariant
                self.wf(),
                v == self@,
                total == self@.inodes.len(),
                node(v, ino) == Some(inode@),
                all == all_entries(v, ino, inode@),
                nk == inode.children@.len(),
                k <= nk,
                names@.len() == k + 2,
                forall|q: int| 0 <= q < k + 2 ==> (#[trigger] names@[q]).0 == all[q].0 && names@[q].1 == all[q].1
                    && names@[q].2@ == all[q].2,
            decreases nk - k,
        {
            let c: u64 = inode.children[k];
            assert(1 <= c <= total) by {
                assert(v.inodes[ino - 1].children[k as int] == c);
            }
            let child: &Inode = &self.inodes[(c - 1) as usize];
            assert(all[k + 2] == (c, v.inodes[c - 1].kind, v.inodes[c - 1].name));
            names.push((c, child.kind, child.name.clone()));
            k = k + 1;
        }
        let n: usize = names.len();
        assert(inode@.children.len() <= v.inodes.len()) by {
            assert(v.inodes[ino - 1] == inode@);
        }
        let mut out: Vec<DirEntry> = Vec::new();
        if (offset as u64) < (n as u64) {
            let off: usize = offset as usize;
            let mut i: usize = off;
            while i < n
                invariant
                    n == names@.len(),
                    n == all.len(),
                    n <= 0xffff_ffff_ffff + 2,
                    off == offset,
                    off <= i <= n,
                    forall|q: int| 0 <= q < n ==> (#[trigger] names@[q]).0 == all[q].0 && names@[q].1 == all[q].1
                        && names@[q].2@ == all[q].2,
                    out@.len() == i - off,
                    forall|q: int| 0 <= q < i - off ==> (#[trigger] out@[q])@ == listing_from(all, off as int)[q],
                decreases n - i,
            {
                out.push(DirEntry {
                    ino: names[i].0,
                    offset: (i + 1) as i64,
                    kind: names[i].1,
                    name: names[i].2.clone(),
                });
                i = i + 1;
            }
            assert(entries_view(out@) =~= listing_from(all, offset as int));
        } else {
            assert(entries_view(out@) =~= listing_from(all, offset as int));
        }
        Ok(out)
    }

    /// Opens inode `ino`: a request that writes or truncates is refused on a
    /// read-only inode, and a truncating one empties the file.
    pub fn open_file(&mut self, ino: u64, wants_write: bool, truncate: bool) -> (r: Result<(), FsError>)
        requires
            old(self).wf(),
        ensures
            final(self).wf(),
            match node(old(self)@, ino) {
                None => r == Err::<(), FsError>(FsError::NotFound) && final(self)@ == old(self)@,
                Some(n) => if (wants_write || truncate) && !n.writable {
                    r == Err::<(), FsError>(FsError::ReadOnly) && final(self)@ == old(self)@
                } else if truncate {
                    &&& r is Ok
                    &&& final(self)@.inodes == old(self)@.inodes.update(ino - 1, InodeView { data: seq![], ..n })
                    &&& final(self)@.env_ino == old(self)@.env_ino
                    &&& final(self)@.env_original == old(self)@.env_original
                    &&& final(self)@.env_data == (if old(self)@.env_ino == Some(ino) { seq![] } else { old(self)@.env_data })
                } else {
                    r is Ok && final(self)@ == old(self)@
                },
            },
    {
        let writable: bool = match self.get_inode(ino) {
            Some(i) => i.writable,
            None => {
                return Err(FsError::NotFound);
            },
        };
        if (wants_write || truncate) && !writable {
            return Err(FsError::ReadOnly);
        }
        if truncate {
            proof {
                let n = node(self@, ino)->Some_0;
                assert(n.kind == NodeKind::RegularFile) by {
                    if n.kind == NodeKind::Directory {
                        assert(n.writable == false) by {
                            assert(fs_wf(self@));
                        }
                    }
                }
                assert(resized(n.data, 0) =~= Seq::<u8>::empty());
            }
            return self.apply_truncate(ino, 0);
        }
        Ok(())
    }

    /// A change of attributes: only a new size of a writable file is
    /// honoured; the file's new attributes come back.
    pub fn set_size(&mut self, ino: u64, size: Option<u64>) -> (r: Result<FileAttrs, FsError>)
        requires
            old(self).wf(),
        ensures
            final(self).wf(),
            match size {
                None => r == Err::<FileAttrs, FsError>(FsError::ReadOnly) && final(self)@ == old(self)@,
                Some(sz) => match node(old(self)@, ino) {
                    None => r == Err::<FileAttrs, FsError>(FsError::NotFound) && final(self)@ == old(self)@,
                    Some(n) => if n.kind == NodeKind::Directory {
                        r == Err::<FileAttrs, FsError>(FsError::IsDir) && final(self)@ == old(self)@
                    } else if !n.writable {
                        r == Err::<FileAttrs, FsError>(FsError::ReadOnly) && final(self)@ == old(self)@
                    } else {
                        let nd = resized(n.data, (sz as usize) as nat);
                        &&& final(self)@.inodes == old(self)@.inodes.update(ino - 1, InodeView { data: nd, ..n })
                        &&& final(self)@.env_ino == old(self)@.env_ino
                        &&& final(self)@.env_original == old(self)@.env_original
                        &&& final(self)@.env_data == (if old(self)@.env_ino == Some(ino) { nd } else { old(self)@.env_data })
                        &&& r == Ok::<FileAttrs, FsError>(attrs_of(ino, nd.len() as u64, NodeKind::RegularFile, true))
                    },
                },
            },
    {
        match size {
            None => Err(FsError::ReadOnly),
            Some(sz) => {
                match self.apply_truncate(ino, sz) {
                    Err(e) => Err(e),
                    Ok(()) => {
                        match self.getattr_for(ino) {
                            Some(a) => Ok(a),
                            None => Err(FsError::NotFound),
                        }
                    },
                }
            },
        }
    }
}

// ---------------------------------------------------------------------------
// Drift
// ---------------------------------------------------------------------------

/// Why the env file's bytes cannot become a state, when they cannot.
pub open spec fn drift_error(bytes: Seq<u8>) -> Option<Seq<char>> {
    if !vstd::utf8::valid_utf8(bytes) {
        Some("env file is not utf-8: "@ + utf8_error_text(bytes))
    } else {
        match env_parse(vstd::utf8::decode_utf8(bytes)) {
            Ok(_) => None,
            Err(e) => Some(env_error_message(e)),
        }
    }
}

/// `d` is `base` with its variables replaced by `es`, restamped, hashed
/// afresh and unsigned.
pub open spec fn is_drift_of(d: SignedView, base: SignedView, es: Seq<TextPair>) -> bool {
    &&& d.state == StateView { env_vars: es, created_at: d.state.created_at, ..base.state }
    &&& d.hash == state_hash(d.state)
    &&& d.signature is None
    &&& d.public_key is None
}

/// The state that the edited env file describes: `signed`'s state with the
/// variables read back from `env_content`, stamped now, with a fresh hash
/// and no signature (it no longer matches what was signed).
pub fn extract_env_drift(signed: &SignedState, env_content: &[u8]) -> (r: Result<SignedState, TaprootError>)
    ensures
        match drift_error(env_content@) {
            Some(m) => r matches Err(TaprootError::Mount(x)) && x@ == m,
            None => r matches Ok(d) && env_parse(vstd::utf8::decode_utf8(env_content@)) matches Ok(es)
                && is_drift_of(d@, signed@, es),
        },
{
    let text = match utf8_decode(env_content) {
        Ok(t) => t,
        Err(e) => {
            return Err(TaprootError::Mount(concat("env file is not utf-8: ", e.as_str())));
        },
    };
    let env_vars = match parse_env(text.as_str()) {
        Ok(m) => m,
        Err(e) => {
            return Err(e);
        },
    };
    let mut state = signed.state.clone();
    state.env_vars = env_vars;
    state.created_at = now_timestamp();
    let hash = match StateEngine::hash(&state) {
        Ok(h) => h,
        Err(e) => {
            return Err(e);
        },
    };
    let d = SignedState { state, hash, signature: None, public_key: None };
    assert(d@.state =~~= StateView { env_vars: d@.state.env_vars, created_at: d@.state.created_at, ..signed@.state });
    Ok(d)
}

/// What a mount session leaves behind.
#[derive(Debug)]
pub struct MountOutcome {
    /// The state the edited env file describes, when it was edited and
    /// could be read back.
    pub drift: Option<SignedState>,
    /// The edited env file's bytes, when they could not be read back; the
    /// session's edits survive in them.
    pub raw_env: Option<Vec<u8>>,
    /// Why the edited env file could not be read back.
    pub parse_error: Option<TaprootError>,
}

/// The outcome of a session from its journal: nothing when the env file
/// ends as it began; else the drifted state, or, when the file cannot be
/// read back, its raw bytes with the reason.
pub fn outcome_from_journal(j: &Journal, signed: &SignedState) -> (o: MountOutcome)
    ensures
        j.env_data@ == j.env_original@ ==> o.drift is None && o.raw_env is None && o.parse_error is None,
        j.env_data@ != j.env_original@ ==> match drift_error(j.env_data@) {
            Some(m) => {
                &&& o.drift is None
                &&& o.raw_env matches Some(b) && b@ == j.env_data@
                &&& o.parse_error matches Some(TaprootError::Mount(x)) && x@ == m
            },
            None => {
                &&& o.raw_env is None
                &&& o.parse_error is None
                &&& o.drift matches Some(d) && env_parse(vstd::utf8::decode_utf8(j.env_data@)) matches Ok(es)
                    && is_drift_of(d@, signed@, es)
            },
        },
{
    if j.drifted() {
        match extract_env_drift(signed, j.env_data.as_slice()) {
            Ok(d) => MountOutcome { drift: Some(d), raw_env: None, parse_error: None },
            Err(e) => MountOutcome { drift: None, raw_env: Some(copy_bytes(&j.env_data)), parse_error: Some(e) },
        }
    } else {
        MountOutcome { drift: None, raw_env: None, parse_error: None }
    }
}

/// What is found at a mount point.
#[derive(Debug)]
pub enum MountTarget {
    /// Nothing, or it could not be examined: the reason.
    Missing(String),
    Symlink,
    NotDirectory,
    /// A directory that holds entries.
    NonEmptyDirectory,
    /// An empty directory.
    Directory,
}

/// Whether a FUSE session can be started at `path`: only an existing
/// directory that is not a symlink is accepted. Whether it is empty is left
/// to the caller (`mount_decision` refuses one that is not).
pub fn check_mountpoint(target: &MountTarget, path: &str) -> (r: Result<(), TaprootError>)
    ensures
        match target {
            MountTarget::Missing(e) => r matches Err(TaprootError::Mount(m))
                && m@ == "mountpoint does not exist: "@ + path@ + ": "@ + e@,
            MountTarget::Symlink => r matches Err(TaprootError::Mount(m))
                && m@ == "mountpoint is a symlink (refusing): "@ + path@,
            MountTarget::NotDirectory => r matches Err(TaprootError::Mount(m))
                && m@ == "mountpoint is not a directory: "@ + path@,
            MountTarget::NonEmptyDirectory => r is Ok,
            MountTarget::Directory => r is Ok,
        },
{
    match target {
        MountTarget::Missing(e) => {
            let a = concat("mountpoint does not exist: ", path);
            let b = concat(a.as_str(), ": ");
            Err(TaprootError::Mount(concat(b.as_str(), e.as_str())))
        },
        MountTarget::Symlink => Err(TaprootError::Mount(concat("mountpoint is a symlink (refusing): ", path))),
        MountTarget::NotDirectory => Err(TaprootError::Mount(concat("mountpoint is not a directory: ", path))),
        MountTarget::NonEmptyDirectory => Ok(()),
        MountTarget::Directory => Ok(()),
    }
}

/// Emptying a file and then writing `w` at offset 0 leaves exactly `w`,
/// whatever the file held: rewriting the env file with what it held is no
/// drift.
pub proof fn lemma_truncate_then_write(before: Seq<u8>, w: Seq<u8>)
    ensures
        written(resized(before, 0), 0, w) == w,
{
    let e = resized(before, 0);
    assert(e =~= Seq::<u8>::empty());
    let padded = resized(e, w.len());
    assert(padded.len() == w.len());
    assert(padded.take(0) + w + padded.skip(w.len() as int) =~= w);
}

/// In a freshly mounted tree only the env file (inode 4) is writable.
pub proof fn lemma_only_env_writable(s: SignedView, state_json: Seq<char>)
    ensures
        forall|i: int| 0 <= i < mount_tree(s, state_json).len() ==>
            (#[trigger] mount_tree(s, state_json)[i]).writable == (i == 3),
{
    let t = mount_tree(s, state_json);
    let rf = runtime_files(s.state);
    let cf = container_files(s.state);
    let cdi: int = rf.len() as int + 8;
    let top = top_nodes(s, state_json, seq![2u64, 3u64, 4u64, 5u64, 6u64, 7u64, cdi as u64], numbered_from(8, rf.len()));
    let a = top + file_nodes(rf, 8, 7);
    let b = a + seq![dir_node(cdi, 1, "containers"@, numbered_from(cdi + 1, cf.len()))];
    assert forall|i: int| 0 <= i < t.len() implies (#[trigger] t[i]).writable == (i == 3) by {
        if i < 7 {
            assert(t[i] == top[i]);
        } else if i < a.len() {
            assert(t[i] == file_nodes(rf, 8, 7)[i - 7]);
        } else if i < b.len() {
            assert(t[i] == b[i]);
        } else {
            assert(t[i] == file_nodes(cf, cdi + 1, cdi)[i - b.len()]);
        }
    }
}

// ---------------------------------------------------------------------------
// Reading the env file back
// ---------------------------------------------------------------------------

/// A variable that the env file carries faithfully: its key is not blank,
/// has no surrounding whitespace, no `=` and no line break; its value has no
/// line break and does not end in a carriage return.
pub open spec fn env_entry_ok(p: TextPair) -> bool {
    &&& !all_ws(p.0)
    &&& trim(p.0) == p.0
    &&& !p.0.contains('=')
    &&& !p.0.contains('\n')
    &&& !p.1.contains('\n')
    &&& (p.1.len() == 0 || p.1.last() != '\r')
}

/// The line of the env file for one variable, without its line break.
pub open spec fn env_line(p: TextPair) -> Seq<char> {
    p.0 + seq!['='] + p.1
}

proof fn lemma_env_text_append(a: Seq<TextPair>, b: Seq<TextPair>)
    ensures
        env_text(a + b) == env_text(a) + env_text(b),
    decreases b.len(),
{
    if b.len() == 0 {
        assert(a + b =~= a);
        assert(env_text(b) =~= Seq::<char>::empty());
        assert(env_text(a) + env_text(b) =~= env_text(a));
    } else {
        assert((a + b).drop_last() =~= a + b.drop_last());
        assert((a + b).last() == b.last());
        lemma_env_text_append(a, b.drop_last());
        let l = b.last().0 + seq!['='] + b.last().1 + seq!['\n'];
        assert(env_text(a + b) =~= env_text(a + b.drop_last()) + l);
        assert(env_text(b) =~= env_text(b.drop_last()) + l);
        assert(env_text(a) + env_text(b.drop_last()) + l =~= env_text(a) + (env_text(b.drop_last()) + l));
    }
}

proof fn lemma_first_at(s: Seq<char>, c: char, k: int)
    requires
        0 <= k < s.len(),
        s[k] == c,
        forall|j: int| 0 <= j < k ==> s[j] != c,
    ensures
        index_of(s, c) == k,
{
    lemma_index_of(s, c);
    let i = index_of(s, c);
    if i < k {
        assert(s[i] == c);
    }
    if i > k {
        assert(s[k] != c);
    }
}

proof fn lemma_line_pieces_cons(l: Seq<char>, rest: Seq<char>)
    requires
        !l.contains('\n'),
    ensures
        line_pieces(l + seq!['\n'] + rest) == seq![l] + line_pieces(rest),
{
    let s = l + seq!['\n'] + rest;
    assert(s[l.len() as int] == '\n');
    assert forall|j: int| 0 <= j < l.len() implies s[j] != '\n' by {
        assert(s[j] == l[j]);
    }
    lemma_first_at(s, '\n', l.len() as int);
    assert(s.take(l.len() as int) =~= l);
    assert(s.skip(l.len() as int + 1) =~= rest);
}

proof fn lemma_env_lines(es: Seq<TextPair>)
    requires
        forall|i: int| 0 <= i < es.len() ==> env_entry_ok(#[trigger] es[i]),
    ensures
        line_pieces(env_text(es)) == es.map_values(|p: TextPair| env_line(p)),
    decreases es.len(),
{
    if es.len() == 0 {
        assert(env_text(es) =~= Seq::<char>::empty());
        assert(es.map_values(|p: TextPair| env_line(p)) =~= Seq::<Seq<char>>::empty());
    } else {
        let head = seq![es[0]];
        let tail = es.drop_first();
        assert(head + tail =~= es);
        lemma_env_text_append(head, tail);
        assert(head.drop_last() =~= Seq::<TextPair>::empty());
        assert(env_text(head.drop_last()) =~= Seq::<char>::empty());
        let l = env_line(es[0]);
        assert(env_text(head) =~= l + seq!['\n']);
        assert(env_entry_ok(es[0]));
        assert(!l.contains('\n')) by {
            if l.contains('\n') {
                let j = choose|j: int| 0 <= j < l.len() && l[j] == '\n';
                if j < es[0].0.len() {
                    assert(es[0].0[j] == '\n');
                } else if j > es[0].0.len() {
                    assert(es[0].1[j - es[0].0.len() - 1] == '\n');
                }
            }
        }
        assert forall|i: int| 0 <= i < tail.len() implies env_entry_ok(#[trigger] tail[i]) by {
            assert(tail[i] == es[i + 1]);
        }
        lemma_env_lines(tail);
        assert(env_text(es) =~= l + seq!['\n'] + env_text(tail));
        lemma_line_pieces_cons(l, env_text(tail));
        assert(es.map_values(|p: TextPair| env_line(p)) =~= seq![l] + tail.map_values(|p: TextPair| env_line(p)));
    }
}

proof fn lemma_parse_env_lines(es: Seq<TextPair>, i: int)
    requires
        0 <= i <= es.len(),
        keys_sorted(es),
        forall|q: int| 0 <= q < es.len() ==> env_entry_ok(#[trigger] es[q]),
    ensures
        parse_lines(es.map_values(|p: TextPair| env_line(p)), i as nat, es.take(i)) == Ok::<Seq<TextPair>, EnvError>(es),
    decreases es.len() - i,
{
    let lines = es.map_values(|p: TextPair| env_line(p));
    if i == es.len() {
        assert(es.take(i) =~= es);
    } else {
        let p = es[i];
        let l = lines[i];
        assert(l == env_line(p));
        assert(env_entry_ok(p));
        // no carriage return to strip
        if p.1.len() == 0 {
            assert(l.last() == '=');
        } else {
            assert(l.last() == p.1.last());
        }
        assert(strip_cr(l) == l);
        // the line is not blank
        assert(!all_ws(l)) by {
            let j = choose|j: int| 0 <= j < p.0.len() && !crate::text::is_ws(#[trigger] p.0[j]);
            assert(l[j] == p.0[j]);
        }
        // the first `=` ends the key
        assert(l[p.0.len() as int] == '=');
        assert forall|j: int| 0 <= j < p.0.len() implies l[j] != '=' by {
            assert(l[j] == p.0[j]);
        }
        lemma_first_at(l, '=', p.0.len() as int);
        assert(l.take(p.0.len() as int) =~= p.0);
        assert(l.skip(p.0.len() as int + 1) =~= p.1);
        assert(trim(p.0).len() > 0) by {
            if p.0.len() == 0 {
                assert(all_ws(p.0));
            }
        }
        // inserting the next key appends it
        let acc = es.take(i);
        assert forall|a: int, b: int| 0 <= a < b < acc.len() implies text_lt(#[trigger] acc[a].0, #[trigger] acc[b].0) by {
            assert(acc[a] == es[a] && acc[b] == es[b]);
        }
        assert forall|q: int| 0 <= q < acc.len() implies text_lt(#[trigger] acc[q].0, p.0) by {
            assert(acc[q] == es[q]);
        }
        crate::strmap::lemma_map_insert_at(acc, p.0, p.1, acc.len() as int);
        assert(acc.take(acc.len() as int) + seq![(p.0, p.1)] + acc.skip(acc.len() as int) =~= es.take(i + 1));
        lemma_parse_env_lines(es, i + 1);
    }
}

/// The env file reads back as the variables it was written from: parsing
/// the text the mount shows for sorted, well-formed variables gives them
/// back, so extracting drift from an unedited env file changes no variable.
pub proof fn lemma_env_roundtrip(es: Seq<TextPair>)
    requires
        keys_sorted(es),
        forall|i: int| 0 <= i < es.len() ==> env_entry_ok(#[trigger] es[i]),
    ensures
        env_parse(env_text(es)) == Ok::<Seq<TextPair>, EnvError>(es),
        drift_error(vstd::utf8::encode_utf8(env_text(es))) is None,
        vstd::utf8::decode_utf8(vstd::utf8::encode_utf8(env_text(es))) == env_text(es),
{
    lemma_env_lines(es);
    assert(es.take(0) =~= Seq::<TextPair>::empty());
    lemma_parse_env_lines(es, 0);
    vstd::utf8::encode_utf8_valid_utf8(env_text(es));
    vstd::utf8::encode_utf8_decode_utf8(env_text(es));
}

} // verus!
