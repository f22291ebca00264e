//! Field-by-field drift between a baseline state and a current state.

use vstd::prelude::*;
use vstd::string::*;

use crate::error::TaprootError;
use crate::state::{SignedState, Container, ContainerView, Runtime, RuntimeView, StateView, TaprootState, clone_opt, containers_view, opt_text, runtimes_view};
use crate::strmap::{
    keys_sorted, lemma_map_from_pairs_sorted, lemma_map_from_pairs_vals, lemma_map_insert_at,
    lemma_lookup_index, lemma_map_insert_lookup, lemma_map_insert_sorted, lemma_sorted_tail, lookup,
    map_from_pairs, map_insert, map_vals, StrMap, TextPair,
};
use crate::text::{
    bool_string, bool_text, concat, lemma_text_lt_asymmetric, lemma_text_lt_irreflexive, lemma_text_lt_total,
    text_equal, text_less, text_lt,
};

verus! {

/// What happened to a field.
#[derive(Debug, Clone, Copy, PartialEq, Eq, Structural)]
pub enum DiffKind {
    Added,
    Removed,
    Changed,
}

/// How much a difference matters.
#[derive(Debug, Clone, Copy, PartialEq, Eq, Structural)]
pub enum Severity {
    Breaking,
    Warning,
}

/// One difference between a baseline and a current state.
#[derive(Debug, PartialEq, Eq)]
pub struct FieldDiff {
    pub path: String,
    pub kind: DiffKind,
    pub expected: Option<String>,
    pub actual: Option<String>,
    pub severity: Severity,
}

pub struct FieldDiffView {
    pub path: Seq<char>,
    pub kind: DiffKind,
    pub expected: Option<Seq<char>>,
    pub actual: Option<Seq<char>>,
    pub severity: Severity,
}

impl View for FieldDiff {
    type V = FieldDiffView;

    open spec fn view(&self) -> FieldDiffView {
        FieldDiffView {
            path: self.path@,
            kind: self.kind,
            expected: opt_text(self.expected),
            actual: opt_text(self.actual),
            severity: self.severity,
        }
    }
}

impl Clone for FieldDiff {
    fn clone(&self) -> (r: Self)
        ensures
            r@ == self@,
    {
        FieldDiff {
            path: self.path.clone(),
            kind: self.kind,
            expected: clone_opt(&self.expected),
            actual: clone_opt(&self.actual),
            severity: self.severity,
        }
    }
}

pub open spec fn diffs_view(v: Seq<FieldDiff>) -> Seq<FieldDiffView> {
    v.map_values(|d: FieldDiff| d@)
}

/// The severity of a difference that only matters in strict mode.
pub open spec fn soft(strict: bool) -> Severity {
    if strict { Severity::Breaking } else { Severity::Warning }
}

pub open spec fn change(path: Seq<char>, e: Seq<char>, a: Seq<char>, sev: Severity) -> Seq<FieldDiffView> {
    seq![FieldDiffView { path, kind: DiffKind::Changed, expected: Some(e), actual: Some(a), severity: sev }]
}

/// A change of `path` from `e` to `a`, if they differ.
pub open spec fn change_if(path: Seq<char>, e: Seq<char>, a: Seq<char>, sev: Severity) -> Seq<FieldDiffView> {
    if e != a { change(path, e, a, sev) } else { seq![] }
}

/// Differences of the version and the git baseline: the version and the
/// repository always break; branch and commit break only in strict mode.
pub open spec fn head_diffs(b: StateView, c: StateView, strict: bool) -> Seq<FieldDiffView> {
    change_if("version"@, b.version, c.version, Severity::Breaking)
        + change_if("base.repo"@, b.base.repo, c.base.repo, Severity::Breaking)
        + change_if("base.branch"@, b.base.branch, c.base.branch, soft(strict))
        + change_if("base.commit"@, b.base.commit, c.base.commit, soft(strict))
}

/// The differences between two keyed collections, walking the union of their
/// keys in order: a key only in the baseline is removed, a key only in the
/// current one is added, and a key in both is compared.
pub open spec fn merge_keyed<V>(
    bs: Seq<(Seq<char>, V)>,
    cs: Seq<(Seq<char>, V)>,
    removed: spec_fn(Seq<char>, V) -> Seq<FieldDiffView>,
    added: spec_fn(Seq<char>, V) -> Seq<FieldDiffView>,
    changed: spec_fn(Seq<char>, V, V) -> Seq<FieldDiffView>,
) -> Seq<FieldDiffView>
    decreases bs.len() + cs.len(),
{
    if bs.len() == 0 && cs.len() == 0 {
        seq![]
    } else if cs.len() == 0 || (bs.len() > 0 && text_lt(bs[0].0, cs[0].0)) {
        removed(bs[0].0, bs[0].1) + merge_keyed(bs.drop_first(), cs, removed, added, changed)
    } else if bs.len() == 0 || text_lt(cs[0].0, bs[0].0) {
        added(cs[0].0, cs[0].1) + merge_keyed(bs, cs.drop_first(), removed, added, changed)
    } else {
        changed(bs[0].0, bs[0].1, cs[0].1) + merge_keyed(bs.drop_first(), cs.drop_first(), removed, added, changed)
    }
}

/// Runtimes keyed by name; of several with one name the last counts.
pub open spec fn keyed_runtimes(rv: Seq<RuntimeView>) -> Seq<(Seq<char>, RuntimeView)> {
    map_from_pairs(rv.map_values(|r: RuntimeView| (r.name, r)))
}

/// Containers keyed by name; of several with one name the last counts.
pub open spec fn keyed_containers(cv: Seq<ContainerView>) -> Seq<(Seq<char>, ContainerView)> {
    map_from_pairs(cv.map_values(|c: ContainerView| (c.name, c)))
}

pub open spec fn rt_removed(k: Seq<char>, r: RuntimeView) -> Seq<FieldDiffView> {
    seq![FieldDiffView { path: "runtimes."@ + k, kind: DiffKind::Removed, expected: Some(r.version), actual: None, severity: Severity::Breaking }]
}

pub open spec fn rt_added(k: Seq<char>, r: RuntimeView) -> Seq<FieldDiffView> {
    seq![FieldDiffView { path: "runtimes."@ + k, kind: DiffKind::Added, expected: None, actual: Some(r.version), severity: Severity::Breaking }]
}

/// A runtime in both: its version breaks; its pinning breaks only in strict mode.
pub open spec fn rt_changed(strict: bool, k: Seq<char>, b: RuntimeView, c: RuntimeView) -> Seq<FieldDiffView> {
    change_if("runtimes."@ + k + ".version"@, b.version, c.version, Severity::Breaking)
        + change_if("runtimes."@ + k + ".pinned"@, bool_text(b.pinned), bool_text(c.pinned), soft(strict))
}

pub open spec fn ct_removed(k: Seq<char>, c: ContainerView) -> Seq<FieldDiffView> {
    seq![FieldDiffView { path: "containers."@ + k, kind: DiffKind::Removed, expected: Some(c.image), actual: None, severity: Severity::Breaking }]
}

pub open spec fn ct_added(k: Seq<char>, c: ContainerView) -> Seq<FieldDiffView> {
    seq![FieldDiffView { path: "containers."@ + k, kind: DiffKind::Added, expected: None, actual: Some(c.image), severity: Severity::Breaking }]
}

/// A container in both: version and image break; dropping its signing
/// always breaks, any other change of signing only in strict mode.
pub open spec fn ct_changed(strict: bool, k: Seq<char>, b: ContainerView, c: ContainerView) -> Seq<FieldDiffView> {
    change_if("containers."@ + k + ".version"@, b.version, c.version, Severity::Breaking)
        + change_if("containers."@ + k + ".image"@, b.image, c.image, Severity::Breaking)
        + change_if("containers."@ + k + ".signed"@, bool_text(b.signed), bool_text(c.signed),
            if (!c.signed && b.signed) || strict { Severity::Breaking } else { Severity::Warning })
}

pub open spec fn env_removed(k: Seq<char>, v: Seq<char>) -> Seq<FieldDiffView> {
    seq![FieldDiffView { path: "env_vars."@ + k, kind: DiffKind::Removed, expected: Some(v), actual: None, severity: Severity::Breaking }]
}

pub open spec fn env_added(k: Seq<char>, v: Seq<char>) -> Seq<FieldDiffView> {
    seq![FieldDiffView { path: "env_vars."@ + k, kind: DiffKind::Added, expected: None, actual: Some(v), severity: Severity::Breaking }]
}

pub open spec fn env_changed(k: Seq<char>, b: Seq<char>, c: Seq<char>) -> Seq<FieldDiffView> {
    change_if("env_vars."@ + k, b, c, Severity::Breaking)
}

pub open spec fn runtime_diffs(b: StateView, c: StateView, strict: bool) -> Seq<FieldDiffView> {
    merge_keyed(keyed_runtimes(b.runtimes), keyed_runtimes(c.runtimes),
        |k: Seq<char>, r: RuntimeView| rt_removed(k, r),
        |k: Seq<char>, r: RuntimeView| rt_added(k, r),
        |k: Seq<char>, x: RuntimeView, y: RuntimeView| rt_changed(strict, k, x, y))
}

pub open spec fn container_diffs(b: StateView, c: StateView, strict: bool) -> Seq<FieldDiffView> {
    merge_keyed(keyed_containers(b.containers), keyed_containers(c.containers),
        |k: Seq<char>, x: ContainerView| ct_removed(k, x),
        |k: Seq<char>, x: ContainerView| ct_added(k, x),
        |k: Seq<char>, x: ContainerView, y: ContainerView| ct_changed(strict, k, x, y))
}

pub open spec fn env_diffs(b: StateView, c: StateView) -> Seq<FieldDiffView> {
    merge_keyed(b.env_vars, c.env_vars,
        |k: Seq<char>, v: Seq<char>| env_removed(k, v),
        |k: Seq<char>, v: Seq<char>| env_added(k, v),
        |k: Seq<char>, x: Seq<char>, y: Seq<char>| env_changed(k, x, y))
}

/// Notes differ: a warning, breaking in strict mode.
pub open spec fn notes_diffs(b: StateView, c: StateView, strict: bool) -> Seq<FieldDiffView> {
    if b.notes != c.notes {
        seq![FieldDiffView { path: "notes"@, kind: DiffKind::Changed, expected: b.notes, actual: c.notes, severity: soft(strict) }]
    } else {
        seq![]
    }
}

/// All differences from `b` to `c`, in report order: version and baseline,
/// runtimes, containers and variables by name, then notes. The creation
/// time never counts.
pub open spec fn diff_spec(b: StateView, c: StateView, strict: bool) -> Seq<FieldDiffView> {
    head_diffs(b, c, strict) + runtime_diffs(b, c, strict) + container_diffs(b, c, strict) + env_diffs(b, c)
        + notes_diffs(b, c, strict)
}

// ---------------------------------------------------------------------------
// Executable diff
// ---------------------------------------------------------------------------

fn diff_entry(path: String, kind: DiffKind, expected: Option<String>, actual: Option<String>, severity: Severity) -> (d: FieldDiff)
    ensures
        d@ == (FieldDiffView { path: path@, kind, expected: opt_text(expected), actual: opt_text(actual), severity }),
{
    FieldDiff { path, kind, expected, actual, severity }
}

fn push_change_if(out: &mut Vec<FieldDiff>, path: String, e: &str, a: &str, sev: Severity)
    ensures
        diffs_view(final(out)@) == diffs_view(old(out)@) + change_if(path@, e@, a@, sev),
{
    if !text_equal(e, a) {
        out.push(diff_entry(path, DiffKind::Changed, Some(String::from_str(e)), Some(String::from_str(a)), sev));
    }
    assert(diffs_view(final(out)@) =~= diffs_view(old(out)@) + change_if(path@, e@, a@, sev));
}

fn soft_severity(strict: bool) -> (s: Severity)
    ensures
        s == soft(strict),
{
    if strict { Severity::Breaking } else { Severity::Warning }
}

/// Positions of `names` keyed by name in order, the last occurrence of a
/// name winning.
pub open spec fn numbered(ns: Seq<Seq<char>>) -> Seq<(Seq<char>, usize)> {
    Seq::new(ns.len(), |i: int| (ns[i], i as usize))
}

pub open spec fn index_view(ns: Seq<Seq<char>>, idx: Seq<usize>) -> Seq<(Seq<char>, usize)> {
    idx.map_values(|p: usize| (ns[p as int], p))
}

fn name_index(names: &Vec<String>) -> (idx: Vec<usize>)
    ensures
        index_view(names@.map_values(|s: String| s@), idx@) == map_from_pairs(numbered(names@.map_values(|s: String| s@))),
        forall|i: int| 0 <= i < idx@.len() ==> idx@[i] < names@.len(),
{
    let ghost ns = names@.map_values(|s: String| s@);
    let ghost all = numbered(ns);
    let n: usize = names.len();
    let mut idx: Vec<usize> = Vec::new();
    let mut i: usize = 0;
    assert(index_view(ns, idx@) =~= map_from_pairs(all.take(0)));
    while i < n
        invariant
            n == names@.len(),
            ns == names@.map_values(|s: String| s@),
            all == numbered(ns),
            i <= n,
            index_view(ns, idx@) == map_from_pairs(all.take(i as int)),
            forall|q: int| 0 <= q < idx@.len() ==> idx@[q] < i,
        decreases n - i,
    {
        let ghost es = index_view(ns, idx@);
        proof {
            lemma_map_from_pairs_sorted(all.take(i as int));
            assert(all.take(i + 1).drop_last() =~= all.take(i as int));
            assert(all.take(i + 1).last() == (ns[i as int], i));
        }
        let key: &str = names[i].as_str();
        let m: usize = idx.len();
        let mut j: usize = 0;
        while j < m && text_less(names[idx[j]].as_str(), key)
            invariant
                m == idx@.len(),
                n == names@.len(),
                i < n,
                key@ == ns[i as int],
                ns == names@.map_values(|s: String| s@),
                es == index_view(ns, idx@),
                j <= m,
                forall|q: int| 0 <= q < idx@.len() ==> idx@[q] < i,
                forall|q: int| 0 <= q < j ==> text_lt(#[trigger] es[q].0, key@),
            decreases m - j,
        {
            assert(es[j as int].0 == names@[idx@[j as int] as int]@);
            j = j + 1;
        }
        proof {
            if j < m {
                assert(es[j as int].0 == names@[idx@[j as int] as int]@);
            }
            lemma_map_insert_at(es, ns[i as int], i, j as int);
        }
        if j < m && text_equal(names[idx[j]].as_str(), key) {
            assert(es[j as int].0 == ns[i as int]);
            idx.set(j, i);
            assert(index_view(ns, idx@) =~= es.take(j as int) + seq![(ns[i as int], i)] + es.skip(j + 1));
        } else {
            if j < m {
                assert(es[j as int].0 != ns[i as int]);
            }
            idx.insert(j, i);
            assert(index_view(ns, idx@) =~= es.take(j as int) + seq![(ns[i as int], i)] + es.skip(j as int));
        }
        i = i + 1;
    }
    assert(all.take(n as int) =~= all);
    idx
}

fn runtime_names(v: &Vec<Runtime>) -> (ns: Vec<String>)
    ensures
        ns@.map_values(|s: String| s@) == runtimes_view(v@).map_values(|r: RuntimeView| r.name),
{
    let mut ns: Vec<String> = Vec::new();
    let n: usize = v.len();
    let mut i: usize = 0;
    while i < n
        invariant
            n == v@.len(),
            i <= n,
            ns@.len() == i,
            forall|q: int| 0 <= q < i ==> (#[trigger] ns@[q])@ == v@[q].name@,
        decreases n - i,
    {
        ns.push(v[i].name.clone());
        i = i + 1;
    }
    assert(ns@.map_values(|s: String| s@) =~= runtimes_view(v@).map_values(|r: RuntimeView| r.name));
    ns
}

fn container_names(v: &Vec<Container>) -> (ns: Vec<String>)
    ensures
        ns@.map_values(|s: String| s@) == containers_view(v@).map_values(|c: ContainerView| c.name),
{
    let mut ns: Vec<String> = Vec::new();
    let n: usize = v.len();
    let mut i: usize = 0;
    while i < n
        invariant
            n == v@.len(),
            i <= n,
            ns@.len() == i,
            forall|q: int| 0 <= q < i ==> (#[trigger] ns@[q])@ == v@[q].name@,
        decreases n - i,
    {
        ns.push(v[i].name.clone());
        i = i + 1;
    }
    assert(ns@.map_values(|s: String| s@) =~= containers_view(v@).map_values(|c: ContainerView| c.name));
    ns
}

/// Keyed views built from a name index agree with keying the items directly.
proof fn lemma_index_keyed<T>(items: Seq<T>, name_of: spec_fn(T) -> Seq<char>, idx: Seq<usize>)
    requires
        items.len() <= usize::MAX,
        index_view(items.map_values(name_of), idx) == map_from_pairs(numbered(items.map_values(name_of))),
    ensures
        map_vals(index_view(items.map_values(name_of), idx), |p: usize| items[p as int])
            == map_from_pairs(items.map_values(|x: T| (name_of(x), x))),
{
    let ns = items.map_values(name_of);
    let f = |p: usize| items[p as int];
    lemma_map_from_pairs_vals(numbered(ns), f);
    let lhs = map_vals(numbered(ns), f);
    let rhs = items.map_values(|x: T| (name_of(x), x));
    assert(lhs.len() == rhs.len());
    assert forall|i: int| 0 <= i < lhs.len() implies lhs[i] == rhs[i] by {
        assert(numbered(ns)[i] == (ns[i], i as usize));
        assert(ns[i] == name_of(items[i]));
    }
    assert(lhs =~= rhs);
}

/// The runtime differences, given name indexes of both lists.
#[verifier::rlimit(40)]
fn runtime_diff_list(b: &Vec<Runtime>, bi: &Vec<usize>, c: &Vec<Runtime>, ci: &Vec<usize>, strict: bool) -> (out: Vec<FieldDiff>)
    requires
        forall|q: int| 0 <= q < bi@.len() ==> bi@[q] < b@.len(),
        forall|q: int| 0 <= q < ci@.len() ==> ci@[q] < c@.len(),
    ensures
        diffs_view(out@) == merge_keyed(
            bi@.map_values(|p: usize| (b@[p as int].name@, b@[p as int]@)),
            ci@.map_values(|p: usize| (c@[p as int].name@, c@[p as int]@)),
            |k: Seq<char>, r: RuntimeView| rt_removed(k, r),
            |k: Seq<char>, r: RuntimeView| rt_added(k, r),
            |k: Seq<char>, x: RuntimeView, y: RuntimeView| rt_changed(strict, k, x, y)),
{
    let ghost kb = bi@.map_values(|p: usize| (b@[p as int].name@, b@[p as int]@));
    let ghost kc = ci@.map_values(|p: usize| (c@[p as int].name@, c@[p as int]@));
    let ghost fr = |k: Seq<char>, r: RuntimeView| rt_removed(k, r);
    let ghost fa = |k: Seq<char>, r: RuntimeView| rt_added(k, r);
    let ghost fc = |k: Seq<char>, x: RuntimeView, y: RuntimeView| rt_changed(strict, k, x, y);
    let bn: usize = bi.len();
    let cn: usize = ci.len();
    let mut out: Vec<FieldDiff> = Vec::new();
    let mut i: usize = 0;
    let mut j: usize = 0;
    assert(kb.skip(0) =~= kb);
    assert(kc.skip(0) =~= kc);
    assert(diffs_view(out@) =~= Seq::<FieldDiffView>::empty());
    while i < bn || j < cn
        invariant
            bn == bi@.len(),
            cn == ci@.len(),
            i <= bn,
            j <= cn,
            forall|q: int| 0 <= q < bi@.len() ==> bi@[q] < b@.len(),
            forall|q: int| 0 <= q < ci@.len() ==> ci@[q] < c@.len(),
            kb == bi@.map_values(|p: usize| (b@[p as int].name@, b@[p as int]@)),
            kc == ci@.map_values(|p: usize| (c@[p as int].name@, c@[p as int]@)),
            fr == (|k: Seq<char>, r: RuntimeView| rt_removed(k, r)),
            fa == (|k: Seq<char>, r: RuntimeView| rt_added(k, r)),
            fc == (|k: Seq<char>, x: RuntimeView, y: RuntimeView| rt_changed(strict, k, x, y)),
            diffs_view(out@) + merge_keyed(kb.skip(i as int), kc.skip(j as int), fr, fa, fc) == merge_keyed(kb, kc, fr, fa, fc),
        decreases (bn - i) + (cn - j),
    {
        let ghost rb = kb.skip(i as int);
        let ghost rc = kc.skip(j as int);
        let ghost before = diffs_view(out@);
        let take_b: bool = j >= cn || (i < bn && text_less(b[bi[i]].name.as_str(), c[ci[j]].name.as_str()));
        if take_b {
            let r = &b[bi[i]];
            assert(rb[0] == kb[i as int]);
            let path = concat("runtimes.", r.name.as_str());
            out.push(diff_entry(path, DiffKind::Removed, Some(r.version.clone()), None, Severity::Breaking));
            assert(rb.drop_first() =~= kb.skip(i + 1));
            assert(diffs_view(out@) =~= before + fr(rb[0].0, rb[0].1));
            i = i + 1;
        } else {
            let take_c: bool = i >= bn || text_less(c[ci[j]].name.as_str(), b[bi[i]].name.as_str());
            if take_c {
                let r = &c[ci[j]];
                assert(rc[0] == kc[j as int]);
                let path = concat("runtimes.", r.name.as_str());
                out.push(diff_entry(path, DiffKind::Added, None, Some(r.version.clone()), Severity::Breaking));
                assert(rc.drop_first() =~= kc.skip(j + 1));
                assert(diffs_view(out@) =~= before + fa(rc[0].0, rc[0].1));
                j = j + 1;
            } else {
                let x = &b[bi[i]];
                let y = &c[ci[j]];
                assert(rb[0] == kb[i as int]);
                assert(rc[0] == kc[j as int]);
                let prefix = concat("runtimes.", x.name.as_str());
                push_change_if(&mut out, concat(prefix.as_str(), ".version"), x.version.as_str(), y.version.as_str(), Severity::Breaking);
                let bp = bool_string(x.pinned);
                let cp = bool_string(y.pinned);
                push_change_if(&mut out, concat(prefix.as_str(), ".pinned"), bp.as_str(), cp.as_str(), soft_severity(strict));
                assert(rb.drop_first() =~= kb.skip(i + 1));
                assert(rc.drop_first() =~= kc.skip(j + 1));
                assert(diffs_view(out@) =~= before + fc(rb[0].0, rb[0].1, rc[0].1));
                i = i + 1;
                j = j + 1;
            }
        }
    }
    assert(kb.skip(i as int) =~= Seq::<(Seq<char>, RuntimeView)>::empty());
    assert(kc.skip(j as int) =~= Seq::<(Seq<char>, RuntimeView)>::empty());
    out
}

/// The container differences, given name indexes of both lists.
#[verifier::rlimit(40)]
fn container_diff_list(b: &Vec<Container>, bi: &Vec<usize>, c: &Vec<Container>, ci: &Vec<usize>, strict: bool) -> (out: Vec<FieldDiff>)
    requires
        forall|q: int| 0 <= q < bi@.len() ==> bi@[q] < b@.len(),
        forall|q: int| 0 <= q < ci@.len() ==> ci@[q] < c@.len(),
    ensures
        diffs_view(out@) == merge_keyed(
            bi@.map_values(|p: usize| (b@[p as int].name@, b@[p as int]@)),
            ci@.map_values(|p: usize| (c@[p as int].name@, c@[p as int]@)),
            |k: Seq<char>, r: ContainerView| ct_removed(k, r),
            |k: Seq<char>, r: ContainerView| ct_added(k, r),
            |k: Seq<char>, x: ContainerView, y: ContainerView| ct_changed(strict, k, x, y)),
{
    let ghost kb = bi@.map_values(|p: usize| (b@[p as int].name@, b@[p as int]@));
    let ghost kc = ci@.map_values(|p: usize| (c@[p as int].name@, c@[p as int]@));
    let ghost fr = |k: Seq<char>, r: ContainerView| ct_removed(k, r);
    let ghost fa = |k: Seq<char>, r: ContainerView| ct_added(k, r);
    let ghost fc = |k: Seq<char>, x: ContainerView, y: ContainerView| ct_changed(strict, k, x, y);
    let bn: usize = bi.len();
    let cn: usize = ci.len();
    let mut out: Vec<FieldDiff> = Vec::new();
    let mut i: usize = 0;
    let mut j: usize = 0;
    assert(kb.skip(0) =~= kb);
    assert(kc.skip(0) =~= kc);
    assert(diffs_view(out@) =~= Seq::<FieldDiffView>::empty());
    while i < bn || j < cn
        invariant
            bn == bi@.len(),
            cn == ci@.len(),
            i <= bn,
            j <= cn,
            forall|q: int| 0 <= q < bi@.len() ==> bi@[q] < b@.len(),
            forall|q: int| 0 <= q < ci@.len() ==> ci@[q] < c@.len(),
            kb == bi@.map_values(|p: usize| (b@[p as int].name@, b@[p as int]@)),
            kc == ci@.map_values(|p: usize| (c@[p as int].name@, c@[p as int]@)),
            fr == (|k: Seq<char>, r: ContainerView| ct_removed(k, r)),
            fa == (|k: Seq<char>, r: ContainerView| ct_added(k, r)),
            fc == (|k: Seq<char>, x: ContainerView, y: ContainerView| ct_changed(strict, k, x, y)),
            diffs_view(out@) + merge_keyed(kb.skip(i as int), kc.skip(j as int), fr, fa, fc) == merge_keyed(kb, kc, fr, fa, fc),
        decreases (bn - i) + (cn - j),
    {
        let ghost rb = kb.skip(i as int);
        let ghost rc = kc.skip(j as int);
        let ghost before = diffs_view(out@);
        let take_b: bool = j >= cn || (i < bn && text_less(b[bi[i]].name.as_str(), c[ci[j]].name.as_str()));
        if take_b {
            let r = &b[bi[i]];
            assert(rb[0] == kb[i as int]);
            let path = concat("containers.", r.name.as_str());
            out.push(diff_entry(path, DiffKind::Removed, Some(r.image.clone()), None, Severity::Breaking));
            assert(rb.drop_first() =~= kb.skip(i + 1));
            assert(diffs_view(out@) =~= before + fr(rb[0].0, rb[0].1));
            i = i + 1;
        } else {
            let take_c: bool = i >= bn || text_less(c[ci[j]].name.as_str(), b[bi[i]].name.as_str());
            if take_c {
                let r = &c[ci[j]];
                assert(rc[0] == kc[j as int]);
                let path = concat("containers.", r.name.as_str());
                out.push(diff_entry(path, DiffKind::Added, None, Some(r.image.clone()), Severity::Breaking));
                assert(rc.drop_first() =~= kc.skip(j + 1));
                assert(diffs_view(out@) =~= before + fa(rc[0].0, rc[0].1));
                j = j + 1;
            } else {
                let x = &b[bi[i]];
                let y = &c[ci[j]];
                assert(rb[0] == kb[i as int]);
                assert(rc[0] == kc[j as int]);
                let prefix = concat("containers.", x.name.as_str());
                push_change_if(&mut out, concat(prefix.as_str(), ".version"), x.version.as_str(), y.version.as_str(), Severity::Breaking);
                push_change_if(&mut out, concat(prefix.as_str(), ".image"), x.image.as_str(), y.image.as_str(), Severity::Breaking);
                let bs = bool_string(x.signed);
                let cs = bool_string(y.signed);
                let sev = if (!y.signed && x.signed) || strict { Severity::Breaking } else { Severity::Warning };
                push_change_if(&mut out, concat(prefix.as_str(), ".signed"), bs.as_str(), cs.as_str(), sev);
                assert(rb.drop_first() =~= kb.skip(i + 1));
                assert(rc.drop_first() =~= kc.skip(j + 1));
                assert(diffs_view(out@) =~= before + fc(rb[0].0, rb[0].1, rc[0].1));
                i = i + 1;
                j = j + 1;
            }
        }
    }
    assert(kb.skip(i as int) =~= Seq::<(Seq<char>, ContainerView)>::empty());
    assert(kc.skip(j as int) =~= Seq::<(Seq<char>, ContainerView)>::empty());
    out
}

/// The variable differences between two maps.
fn env_diff_list(b: &StrMap, c: &StrMap) -> (out: Vec<FieldDiff>)
    ensures
        diffs_view(out@) == merge_keyed(b@, c@,
            |k: Seq<char>, v: Seq<char>| env_removed(k, v),
            |k: Seq<char>, v: Seq<char>| env_added(k, v),
            |k: Seq<char>, x: Seq<char>, y: Seq<char>| env_changed(k, x, y)),
{
    let ghost kb = b@;
    let ghost kc = c@;
    let ghost fr = |k: Seq<char>, v: Seq<char>| env_removed(k, v);
    let ghost fa = |k: Seq<char>, v: Seq<char>| env_added(k, v);
    let ghost fc = |k: Seq<char>, x: Seq<char>, y: Seq<char>| env_changed(k, x, y);
    let bn: usize = b.len();
    let cn: usize = c.len();
    let mut out: Vec<FieldDiff> = Vec::new();
    let mut i: usize = 0;
    let mut j: usize = 0;
    assert(kb.skip(0) =~= kb);
    assert(kc.skip(0) =~= kc);
    assert(diffs_view(out@) =~= Seq::<FieldDiffView>::empty());
    while i < bn || j < cn
        invariant
            bn == kb.len(),
            cn == kc.len(),
            kb == b@,
            kc == c@,
            i <= bn,
            j <= cn,
            fr == (|k: Seq<char>, v: Seq<char>| env_removed(k, v)),
            fa == (|k: Seq<char>, v: Seq<char>| env_added(k, v)),
            fc == (|k: Seq<char>, x: Seq<char>, y: Seq<char>| env_changed(k, x, y)),
            diffs_view(out@) + merge_keyed(kb.skip(i as int), kc.skip(j as int), fr, fa, fc) == merge_keyed(kb, kc, fr, fa, fc),
        decreases (bn - i) + (cn - j),
    {
        let ghost rb = kb.skip(i as int);
        let ghost rc = kc.skip(j as int);
        let ghost before = diffs_view(out@);
        let take_b: bool = j >= cn || (i < bn && text_less(b.key_at(i).as_str(), c.key_at(j).as_str()));
        if take_b {
            assert(rb[0] == kb[i as int]);
            let path = concat("env_vars.", b.key_at(i).as_str());
            out.push(diff_entry(path, DiffKind::Removed, Some(b.value_at(i).clone()), None, Severity::Breaking));
            assert(rb.drop_first() =~= kb.skip(i + 1));
            assert(diffs_view(out@) =~= before + fr(rb[0].0, rb[0].1));
            i = i + 1;
        } else {
            let take_c: bool = i >= bn || text_less(c.key_at(j).as_str(), b.key_at(i).as_str());
            if take_c {
                assert(rc[0] == kc[j as int]);
                let path = concat("env_vars.", c.key_at(j).as_str());
                out.push(diff_entry(path, DiffKind::Added, None, Some(c.value_at(j).clone()), Severity::Breaking));
                assert(rc.drop_first() =~= kc.skip(j + 1));
                assert(diffs_view(out@) =~= before + fa(rc[0].0, rc[0].1));
                j = j + 1;
            } else {
                assert(rb[0] == kb[i as int]);
                assert(rc[0] == kc[j as int]);
                let path = concat("env_vars.", b.key_at(i).as_str());
                push_change_if(&mut out, path, b.value_at(i).as_str(), c.value_at(j).as_str(), Severity::Breaking);
                assert(rb.drop_first() =~= kb.skip(i + 1));
                assert(rc.drop_first() =~= kc.skip(j + 1));
                assert(diffs_view(out@) =~= before + fc(rb[0].0, rb[0].1, rc[0].1));
                i = i + 1;
                j = j + 1;
            }
        }
    }
    assert(kb.skip(i as int) =~= Seq::<TextPair>::empty());
    assert(kc.skip(j as int) =~= Seq::<TextPair>::empty());
    out
}

fn append_diffs(out: &mut Vec<FieldDiff>, more: Vec<FieldDiff>)
    ensures
        diffs_view(final(out)@) == diffs_view(old(out)@) + diffs_view(more@),
{
    let mut more = more;
    let ghost m = more@;
    out.append(&mut more);
    assert(diffs_view(final(out)@) =~= diffs_view(old(out)@) + diffs_view(m));
}

/// Every difference from `baseline` to `current`, in report order: version
/// and git baseline, then runtimes, containers and variables by name (the
/// last entry of a duplicated name counts), then notes. The creation time is
/// never compared. In strict mode every difference is breaking.
pub fn diff_states(baseline: &TaprootState, current: &TaprootState, strict: bool) -> (diffs: Vec<FieldDiff>)
    ensures
        diffs_view(diffs@) == diff_spec(baseline@, current@, strict),
{
    let ghost bv = baseline@;
    let ghost cv = current@;
    let mut out: Vec<FieldDiff> = Vec::new();
    push_change_if(&mut out, String::from_str("version"), baseline.version.as_str(), current.version.as_str(), Severity::Breaking);
    push_change_if(&mut out, String::from_str("base.repo"), baseline.base.repo.as_str(), current.base.repo.as_str(), Severity::Breaking);
    push_change_if(&mut out, String::from_str("base.branch"), baseline.base.branch.as_str(), current.base.branch.as_str(), soft_severity(strict));
    push_change_if(&mut out, String::from_str("base.commit"), baseline.base.commit.as_str(), current.base.commit.as_str(), soft_severity(strict));
    assert(diffs_view(out@) =~= head_diffs(bv, cv, strict));

    // runtimes, keyed by name
    let bnames = runtime_names(&baseline.runtimes);
    let bi = name_index(&bnames);
    let cnames = runtime_names(&current.runtimes);
    let ci = name_index(&cnames);
    let nb: usize = baseline.runtimes.len();
    let nc: usize = current.runtimes.len();
    proof {
        assert(bv.runtimes.len() == nb && cv.runtimes.len() == nc);
        lemma_index_keyed(bv.runtimes, |r: RuntimeView| r.name, bi@);
        lemma_index_keyed(cv.runtimes, |r: RuntimeView| r.name, ci@);
        let kb = bi@.map_values(|p: usize| (baseline.runtimes@[p as int].name@, baseline.runtimes@[p as int]@));
        let kc = ci@.map_values(|p: usize| (current.runtimes@[p as int].name@, current.runtimes@[p as int]@));
        assert(kb =~= map_vals(index_view(bv.runtimes.map_values(|r: RuntimeView| r.name), bi@), |p: usize| bv.runtimes[p as int]));
        assert(kc =~= map_vals(index_view(cv.runtimes.map_values(|r: RuntimeView| r.name), ci@), |p: usize| cv.runtimes[p as int]));
        assert(bv.runtimes.map_values(|r: RuntimeView| (r.name, r)) =~= bv.runtimes.map_values(|x: RuntimeView| ((|r: RuntimeView| r.name)(x), x)));
        assert(cv.runtimes.map_values(|r: RuntimeView| (r.name, r)) =~= cv.runtimes.map_values(|x: RuntimeView| ((|r: RuntimeView| r.name)(x), x)));
    }
    let rd = runtime_diff_list(&baseline.runtimes, &bi, &current.runtimes, &ci, strict);
    append_diffs(&mut out, rd);

    // containers, keyed by name
    let bnames = container_names(&baseline.containers);
    let bi = name_index(&bnames);
    let cnames = container_names(&current.containers);
    let ci = name_index(&cnames);
    let nb: usize = baseline.containers.len();
    let nc: usize = current.containers.len();
    proof {
        assert(bv.containers.len() == nb && cv.containers.len() == nc);
        lemma_index_keyed(bv.containers, |c: ContainerView| c.name, bi@);
        lemma_index_keyed(cv.containers, |c: ContainerView| c.name, ci@);
        let kb = bi@.map_values(|p: usize| (baseline.containers@[p as int].name@, baseline.containers@[p as int]@));
        let kc = ci@.map_values(|p: usize| (current.containers@[p as int].name@, current.containers@[p as int]@));
        assert(kb =~= map_vals(index_view(bv.containers.map_values(|c: ContainerView| c.name), bi@), |p: usize| bv.containers[p as int]));
        assert(kc =~= map_vals(index_view(cv.containers.map_values(|c: ContainerView| c.name), ci@), |p: usize| cv.containers[p as int]));
        assert(bv.containers.map_values(|c: ContainerView| (c.name, c)) =~= bv.containers.map_values(|x: ContainerView| ((|c: ContainerView| c.name)(x), x)));
        assert(cv.containers.map_values(|c: ContainerView| (c.name, c)) =~= cv.containers.map_values(|x: ContainerView| ((|c: ContainerView| c.name)(x), x)));
    }
    let cd = container_diff_list(&baseline.containers, &bi, &current.containers, &ci, strict);
    append_diffs(&mut out, cd);

    // variables, already in key order
    let ed = env_diff_list(&baseline.env_vars, &current.env_vars);
    append_diffs(&mut out, ed);

    // notes
    let notes_equal: bool = match (&baseline.notes, &current.notes) {
        (Some(x), Some(y)) => text_equal(x.as_str(), y.as_str()),
        (None, None) => true,
        _ => false,
    };
    if !notes_equal {
        out.push(diff_entry(String::from_str("notes"), DiffKind::Changed, clone_opt(&baseline.notes), clone_opt(&current.notes), soft_severity(strict)));
    }
    assert(diffs_view(out@) =~= diff_spec(bv, cv, strict));
    out
}

/// Whether some difference is breaking.
pub open spec fn any_breaking(ds: Seq<FieldDiffView>) -> bool {
    exists|i: int| 0 <= i < ds.len() && ds[i].severity == Severity::Breaking
}

/// Whether any of `diffs` is breaking.
pub fn has_breaking(diffs: &[FieldDiff]) -> (r: bool)
    ensures
        r == any_breaking(diffs@.map_values(|d: FieldDiff| d@)),
{
    let n: usize = diffs.len();
    let mut i: usize = 0;
    while i < n
        invariant
            n == diffs@.len(),
            i <= n,
            forall|q: int| 0 <= q < i ==> diffs@[q].severity != Severity::Breaking,
        decreases n - i,
    {
        if diffs[i].severity == Severity::Breaking {
            assert(diffs@.map_values(|d: FieldDiff| d@)[i as int].severity == Severity::Breaking);
            return true;
        }
        i = i + 1;
    }
    assert(!any_breaking(diffs@.map_values(|d: FieldDiff| d@))) by {
        let ds = diffs@.map_values(|d: FieldDiff| d@);
        if any_breaking(ds) {
            let q = choose|q: int| 0 <= q < ds.len() && ds[q].severity == Severity::Breaking;
            assert(diffs@[q].severity == Severity::Breaking);
        }
    }
    false
}

// ---------------------------------------------------------------------------
// Laws
// ---------------------------------------------------------------------------

proof fn lemma_merge_self<V>(
    bs: Seq<(Seq<char>, V)>,
    removed: spec_fn(Seq<char>, V) -> Seq<FieldDiffView>,
    added: spec_fn(Seq<char>, V) -> Seq<FieldDiffView>,
    changed: spec_fn(Seq<char>, V, V) -> Seq<FieldDiffView>,
)
    requires
        forall|k: Seq<char>, v: V| #[trigger] changed(k, v, v) == Seq::<FieldDiffView>::empty(),
    ensures
        merge_keyed(bs, bs, removed, added, changed) == Seq::<FieldDiffView>::empty(),
    decreases bs.len(),
{
    if bs.len() > 0 {
        lemma_text_lt_irreflexive(bs[0].0);
        lemma_merge_self(bs.drop_first(), removed, added, changed);
        assert(changed(bs[0].0, bs[0].1, bs[0].1) == Seq::<FieldDiffView>::empty());
        assert(merge_keyed(bs, bs, removed, added, changed) =~= Seq::<FieldDiffView>::empty());
    }
}

/// A state does not drift from itself, in either mode.
pub proof fn lemma_no_diff_on_identical(s: StateView, strict: bool)
    ensures
        diff_spec(s, s, strict) == Seq::<FieldDiffView>::empty(),
{
    lemma_merge_self(keyed_runtimes(s.runtimes),
        |k: Seq<char>, r: RuntimeView| rt_removed(k, r),
        |k: Seq<char>, r: RuntimeView| rt_added(k, r),
        |k: Seq<char>, x: RuntimeView, y: RuntimeView| rt_changed(strict, k, x, y));
    lemma_merge_self(keyed_containers(s.containers),
        |k: Seq<char>, x: ContainerView| ct_removed(k, x),
        |k: Seq<char>, x: ContainerView| ct_added(k, x),
        |k: Seq<char>, x: ContainerView, y: ContainerView| ct_changed(strict, k, x, y));
    lemma_merge_self(s.env_vars,
        |k: Seq<char>, v: Seq<char>| env_removed(k, v),
        |k: Seq<char>, v: Seq<char>| env_added(k, v),
        |k: Seq<char>, x: Seq<char>, y: Seq<char>| env_changed(k, x, y));
    assert(diff_spec(s, s, strict) =~= Seq::<FieldDiffView>::empty());
}

/// The creation time of either state never affects the differences.
pub proof fn lemma_created_at_ignored(b: StateView, c: StateView, t1: Seq<char>, t2: Seq<char>, strict: bool)
    ensures
        diff_spec(StateView { created_at: t1, ..b }, StateView { created_at: t2, ..c }, strict) == diff_spec(b, c, strict),
{
}

pub open spec fn all_breaking(ds: Seq<FieldDiffView>) -> bool {
    forall|i: int| 0 <= i < ds.len() ==> (#[trigger] ds[i]).severity == Severity::Breaking
}

proof fn lemma_merge_all_breaking<V>(
    bs: Seq<(Seq<char>, V)>,
    cs: Seq<(Seq<char>, V)>,
    removed: spec_fn(Seq<char>, V) -> Seq<FieldDiffView>,
    added: spec_fn(Seq<char>, V) -> Seq<FieldDiffView>,
    changed: spec_fn(Seq<char>, V, V) -> Seq<FieldDiffView>,
)
    requires
        forall|k: Seq<char>, v: V| all_breaking(#[trigger] removed(k, v)),
        forall|k: Seq<char>, v: V| all_breaking(#[trigger] added(k, v)),
        forall|k: Seq<char>, v: V, w: V| all_breaking(#[trigger] changed(k, v, w)),
    ensures
        all_breaking(merge_keyed(bs, cs, removed, added, changed)),
    decreases bs.len() + cs.len(),
{
    if bs.len() == 0 && cs.len() == 0 {
    } else if cs.len() == 0 || (bs.len() > 0 && text_lt(bs[0].0, cs[0].0)) {
        lemma_merge_all_breaking(bs.drop_first(), cs, removed, added, changed);
        let h = removed(bs[0].0, bs[0].1);
        let t = merge_keyed(bs.drop_first(), cs, removed, added, changed);
        assert forall|i: int| 0 <= i < (h + t).len() implies (#[trigger] (h + t)[i]).severity == Severity::Breaking by {
            if i >= h.len() { assert((h + t)[i] == t[i - h.len()]); }
        }
    } else if bs.len() == 0 || text_lt(cs[0].0, bs[0].0) {
        lemma_merge_all_breaking(bs, cs.drop_first(), removed, added, changed);
        let h = added(cs[0].0, cs[0].1);
        let t = merge_keyed(bs, cs.drop_first(), removed, added, changed);
        assert forall|i: int| 0 <= i < (h + t).len() implies (#[trigger] (h + t)[i]).severity == Severity::Breaking by {
            if i >= h.len() { assert((h + t)[i] == t[i - h.len()]); }
        }
    } else {
        lemma_merge_all_breaking(bs.drop_first(), cs.drop_first(), removed, added, changed);
        let h = changed(bs[0].0, bs[0].1, cs[0].1);
        let t = merge_keyed(bs.drop_first(), cs.drop_first(), removed, added, changed);
        assert forall|i: int| 0 <= i < (h + t).len() implies (#[trigger] (h + t)[i]).severity == Severity::Breaking by {
            if i >= h.len() { assert((h + t)[i] == t[i - h.len()]); }
        }
    }
}

proof fn lemma_concat_breaking(a: Seq<FieldDiffView>, b: Seq<FieldDiffView>)
    requires
        all_breaking(a),
        all_breaking(b),
    ensures
        all_breaking(a + b),
{
    assert forall|i: int| 0 <= i < (a + b).len() implies (#[trigger] (a + b)[i]).severity == Severity::Breaking by {
        if i >= a.len() { assert((a + b)[i] == b[i - a.len()]); } else { assert((a + b)[i] == a[i]); }
    }
}

/// In strict mode every difference is breaking.
pub proof fn lemma_strict_all_breaking(b: StateView, c: StateView)
    ensures
        all_breaking(diff_spec(b, c, true)),
{
    let rr = |k: Seq<char>, r: RuntimeView| rt_removed(k, r);
    let ra = |k: Seq<char>, r: RuntimeView| rt_added(k, r);
    let rc = |k: Seq<char>, x: RuntimeView, y: RuntimeView| rt_changed(true, k, x, y);
    assert forall|k: Seq<char>, x: RuntimeView, y: RuntimeView| all_breaking(#[trigger] rc(k, x, y)) by {
        lemma_concat_breaking(change_if("runtimes."@ + k + ".version"@, x.version, y.version, Severity::Breaking),
            change_if("runtimes."@ + k + ".pinned"@, bool_text(x.pinned), bool_text(y.pinned), soft(true)));
    }
    assert forall|k: Seq<char>, x: RuntimeView| all_breaking(#[trigger] rr(k, x)) by {}
    assert forall|k: Seq<char>, x: RuntimeView| all_breaking(#[trigger] ra(k, x)) by {}
    lemma_merge_all_breaking(keyed_runtimes(b.runtimes), keyed_runtimes(c.runtimes), rr, ra, rc);
    let cr = |k: Seq<char>, x: ContainerView| ct_removed(k, x);
    let ca = |k: Seq<char>, x: ContainerView| ct_added(k, x);
    let cc = |k: Seq<char>, x: ContainerView, y: ContainerView| ct_changed(true, k, x, y);
    assert forall|k: Seq<char>, x: ContainerView, y: ContainerView| all_breaking(#[trigger] cc(k, x, y)) by {
        let a1 = change_if("containers."@ + k + ".version"@, x.version, y.version, Severity::Breaking);
        let a2 = change_if("containers."@ + k + ".image"@, x.image, y.image, Severity::Breaking);
        let a3 = change_if("containers."@ + k + ".signed"@, bool_text(x.signed), bool_text(y.signed), Severity::Breaking);
        lemma_concat_breaking(a1, a2);
        lemma_concat_breaking(a1 + a2, a3);
    }
    assert forall|k: Seq<char>, x: ContainerView| all_breaking(#[trigger] cr(k, x)) by {}
    assert forall|k: Seq<char>, x: ContainerView| all_breaking(#[trigger] ca(k, x)) by {}
    lemma_merge_all_breaking(keyed_containers(b.containers), keyed_containers(c.containers), cr, ca, cc);
    let er = |k: Seq<char>, v: Seq<char>| env_removed(k, v);
    let ea = |k: Seq<char>, v: Seq<char>| env_added(k, v);
    let ec = |k: Seq<char>, x: Seq<char>, y: Seq<char>| env_changed(k, x, y);
    assert forall|k: Seq<char>, x: Seq<char>, y: Seq<char>| all_breaking(#[trigger] ec(k, x, y)) by {}
    assert forall|k: Seq<char>, x: Seq<char>| all_breaking(#[trigger] er(k, x)) by {}
    assert forall|k: Seq<char>, x: Seq<char>| all_breaking(#[trigger] ea(k, x)) by {}
    lemma_merge_all_breaking(b.env_vars, c.env_vars, er, ea, ec);
    let h1 = change_if("version"@, b.version, c.version, Severity::Breaking);
    let h2 = change_if("base.repo"@, b.base.repo, c.base.repo, Severity::Breaking);
    let h3 = change_if("base.branch"@, b.base.branch, c.base.branch, soft(true));
    let h4 = change_if("base.commit"@, b.base.commit, c.base.commit, soft(true));
    lemma_concat_breaking(h1, h2);
    lemma_concat_breaking(h1 + h2, h3);
    lemma_concat_breaking(h1 + h2 + h3, h4);
    let r = runtime_diffs(b, c, true);
    let k = container_diffs(b, c, true);
    let e = env_diffs(b, c);
    let n = notes_diffs(b, c, true);
    let h = head_diffs(b, c, true);
    lemma_concat_breaking(h, r);
    lemma_concat_breaking(h + r, k);
    lemma_concat_breaking(h + r + k, e);
    lemma_concat_breaking(h + r + k + e, n);
}

/// Two lists of differences that name the same paths, kinds and values in
/// the same order; their severities may differ.
pub open spec fn same_but_severity(a: Seq<FieldDiffView>, b: Seq<FieldDiffView>) -> bool {
    &&& a.len() == b.len()
    &&& forall|i: int| 0 <= i < a.len() ==> {
        &&& (#[trigger] a[i]).path == b[i].path
        &&& a[i].kind == b[i].kind
        &&& a[i].expected == b[i].expected
        &&& a[i].actual == b[i].actual
    }
}

proof fn lemma_concat_same(a1: Seq<FieldDiffView>, b1: Seq<FieldDiffView>, a2: Seq<FieldDiffView>, b2: Seq<FieldDiffView>)
    requires
        same_but_severity(a1, b1),
        same_but_severity(a2, b2),
    ensures
        same_but_severity(a1 + a2, b1 + b2),
{
    assert forall|i: int| 0 <= i < (a1 + a2).len() implies {
        &&& (#[trigger] (a1 + a2)[i]).path == (b1 + b2)[i].path
        &&& (a1 + a2)[i].kind == (b1 + b2)[i].kind
        &&& (a1 + a2)[i].expected == (b1 + b2)[i].expected
        &&& (a1 + a2)[i].actual == (b1 + b2)[i].actual
    } by {
        if i < a1.len() {
            assert((a1 + a2)[i] == a1[i] && (b1 + b2)[i] == b1[i]);
        } else {
            assert((a1 + a2)[i] == a2[i - a1.len()] && (b1 + b2)[i] == b2[i - a1.len()]);
        }
    }
}

proof fn lemma_change_if_same(path: Seq<char>, e: Seq<char>, a: Seq<char>, s1: Severity, s2: Severity)
    ensures
        same_but_severity(change_if(path, e, a, s1), change_if(path, e, a, s2)),
{
}

proof fn lemma_merge_same<V>(
    bs: Seq<(Seq<char>, V)>,
    cs: Seq<(Seq<char>, V)>,
    removed: spec_fn(Seq<char>, V) -> Seq<FieldDiffView>,
    added: spec_fn(Seq<char>, V) -> Seq<FieldDiffView>,
    changed1: spec_fn(Seq<char>, V, V) -> Seq<FieldDiffView>,
    changed2: spec_fn(Seq<char>, V, V) -> Seq<FieldDiffView>,
)
    requires
        forall|k: Seq<char>, v: V, w: V| same_but_severity(#[trigger] changed1(k, v, w), changed2(k, v, w)),
    ensures
        same_but_severity(merge_keyed(bs, cs, removed, added, changed1), merge_keyed(bs, cs, removed, added, changed2)),
    decreases bs.len() + cs.len(),
{
    if bs.len() == 0 && cs.len() == 0 {
    } else if cs.len() == 0 || (bs.len() > 0 && text_lt(bs[0].0, cs[0].0)) {
        lemma_merge_same(bs.drop_first(), cs, removed, added, changed1, changed2);
        let h = removed(bs[0].0, bs[0].1);
        lemma_concat_same(h, h, merge_keyed(bs.drop_first(), cs, removed, added, changed1),
            merge_keyed(bs.drop_first(), cs, removed, added, changed2));
    } else if bs.len() == 0 || text_lt(cs[0].0, bs[0].0) {
        lemma_merge_same(bs, cs.drop_first(), removed, added, changed1, changed2);
        let h = added(cs[0].0, cs[0].1);
        lemma_concat_same(h, h, merge_keyed(bs, cs.drop_first(), removed, added, changed1),
            merge_keyed(bs, cs.drop_first(), removed, added, changed2));
    } else {
        lemma_merge_same(bs.drop_first(), cs.drop_first(), removed, added, changed1, changed2);
        lemma_concat_same(changed1(bs[0].0, bs[0].1, cs[0].1), changed2(bs[0].0, bs[0].1, cs[0].1),
            merge_keyed(bs.drop_first(), cs.drop_first(), removed, added, changed1),
            merge_keyed(bs.drop_first(), cs.drop_first(), removed, added, changed2));
    }
}

/// Strict mode changes only the severities: the strict and the non-strict
/// report list the same differences (paths, kinds, expected and actual
/// values) in the same order, and in the strict one each is breaking.
pub proof fn lemma_strict_only_changes_severity(b: StateView, c: StateView)
    ensures
        same_but_severity(diff_spec(b, c, false), diff_spec(b, c, true)),
        all_breaking(diff_spec(b, c, true)),
{
    lemma_strict_all_breaking(b, c);
    let rr = |k: Seq<char>, r: RuntimeView| rt_removed(k, r);
    let ra = |k: Seq<char>, r: RuntimeView| rt_added(k, r);
    let rc0 = |k: Seq<char>, x: RuntimeView, y: RuntimeView| rt_changed(false, k, x, y);
    let rc1 = |k: Seq<char>, x: RuntimeView, y: RuntimeView| rt_changed(true, k, x, y);
    assert forall|k: Seq<char>, x: RuntimeView, y: RuntimeView| same_but_severity(#[trigger] rc0(k, x, y), rc1(k, x, y)) by {
        let v = change_if("runtimes."@ + k + ".version"@, x.version, y.version, Severity::Breaking);
        let p = "runtimes."@ + k + ".pinned"@;
        lemma_change_if_same(p, bool_text(x.pinned), bool_text(y.pinned), soft(false), soft(true));
        lemma_concat_same(v, v, change_if(p, bool_text(x.pinned), bool_text(y.pinned), soft(false)),
            change_if(p, bool_text(x.pinned), bool_text(y.pinned), soft(true)));
    }
    lemma_merge_same(keyed_runtimes(b.runtimes), keyed_runtimes(c.runtimes), rr, ra, rc0, rc1);
    let cr = |k: Seq<char>, x: ContainerView| ct_removed(k, x);
    let ca = |k: Seq<char>, x: ContainerView| ct_added(k, x);
    let cc0 = |k: Seq<char>, x: ContainerView, y: ContainerView| ct_changed(false, k, x, y);
    let cc1 = |k: Seq<char>, x: ContainerView, y: ContainerView| ct_changed(true, k, x, y);
    assert forall|k: Seq<char>, x: ContainerView, y: ContainerView| same_but_severity(#[trigger] cc0(k, x, y), cc1(k, x, y)) by {
        let a12 = change_if("containers."@ + k + ".version"@, x.version, y.version, Severity::Breaking)
            + change_if("containers."@ + k + ".image"@, x.image, y.image, Severity::Breaking);
        let p = "containers."@ + k + ".signed"@;
        let s0 = if !y.signed && x.signed { Severity::Breaking } else { Severity::Warning };
        lemma_change_if_same(p, bool_text(x.signed), bool_text(y.signed), s0, Severity::Breaking);
        lemma_concat_same(a12, a12, change_if(p, bool_text(x.signed), bool_text(y.signed), s0),
            change_if(p, bool_text(x.signed), bool_text(y.signed), Severity::Breaking));
    }
    lemma_merge_same(keyed_containers(b.containers), keyed_containers(c.containers), cr, ca, cc0, cc1);
    let h0 = change_if("version"@, b.version, c.version, Severity::Breaking)
        + change_if("base.repo"@, b.base.repo, c.base.repo, Severity::Breaking);
    lemma_change_if_same("base.branch"@, b.base.branch, c.base.branch, soft(false), soft(true));
    lemma_change_if_same("base.commit"@, b.base.commit, c.base.commit, soft(false), soft(true));
    lemma_concat_same(h0, h0, change_if("base.branch"@, b.base.branch, c.base.branch, soft(false)),
        change_if("base.branch"@, b.base.branch, c.base.branch, soft(true)));
    lemma_concat_same(h0 + change_if("base.branch"@, b.base.branch, c.base.branch, soft(false)),
        h0 + change_if("base.branch"@, b.base.branch, c.base.branch, soft(true)),
        change_if("base.commit"@, b.base.commit, c.base.commit, soft(false)),
        change_if("base.commit"@, b.base.commit, c.base.commit, soft(true)));
    let e = env_diffs(b, c);
    lemma_concat_same(head_diffs(b, c, false), head_diffs(b, c, true), runtime_diffs(b, c, false), runtime_diffs(b, c, true));
    lemma_concat_same(head_diffs(b, c, false) + runtime_diffs(b, c, false), head_diffs(b, c, true) + runtime_diffs(b, c, true),
        container_diffs(b, c, false), container_diffs(b, c, true));
    let n0 = head_diffs(b, c, false) + runtime_diffs(b, c, false) + container_diffs(b, c, false);
    let n1 = head_diffs(b, c, true) + runtime_diffs(b, c, true) + container_diffs(b, c, true);
    lemma_concat_same(n0, n1, e, e);
    lemma_concat_same(n0 + e, n1 + e, notes_diffs(b, c, false), notes_diffs(b, c, true));
}

/// In a map built from `ps`, the key of the pair at `i` reads back that
/// pair's value when no later pair has the same key.
proof fn lemma_map_from_pairs_last<V>(ps: Seq<(Seq<char>, V)>, i: int)
    requires
        0 <= i < ps.len(),
        forall|t: int| i < t < ps.len() ==> (#[trigger] ps[t]).0 != ps[i].0,
    ensures
        lookup(map_from_pairs(ps), ps[i].0) == Some(ps[i].1),
    decreases ps.len(),
{
    let last = ps.last();
    lemma_map_insert_lookup(map_from_pairs(ps.drop_last()), last.0, last.1, ps[i].0);
    if i < ps.len() - 1 {
        assert(ps[ps.len() - 1].0 != ps[i].0);
        assert forall|t: int| i < t < ps.drop_last().len() implies (#[trigger] ps.drop_last()[t]).0 != ps.drop_last()[i].0 by {
            assert(ps.drop_last()[t] == ps[t]);
        }
        lemma_map_from_pairs_last(ps.drop_last(), i);
    }
}

/// A key of a sorted map that is not its first key reads back the same
/// value in the map without its first pair.
proof fn lemma_lookup_past_first<V>(es: Seq<(Seq<char>, V)>, k: Seq<char>)
    requires
        es.len() > 0,
        es[0].0 != k,
    ensures
        lookup(es.drop_first(), k) == lookup(es, k),
{
}

/// A key present in a sorted map is not below the map's first key.
proof fn lemma_first_key_not_above<V>(es: Seq<(Seq<char>, V)>, k: Seq<char>)
    requires
        keys_sorted(es),
        lookup(es, k) is Some,
    ensures
        es.len() > 0,
        !text_lt(k, es[0].0),
{
    lemma_lookup_index(es, k);
    let j = choose|j: int| 0 <= j < es.len() && es[j].0 == k && es[j].1 == lookup(es, k).unwrap();
    if j == 0 {
        lemma_text_lt_irreflexive(k);
    } else {
        assert(text_lt(es[0].0, es[j].0));
        lemma_text_lt_asymmetric(es[0].0, k);
    }
}

/// When a key is in both sorted maps, the merged differences hold what
/// `changed` gives for it, as one contiguous run starting at the result.
proof fn lemma_merge_holds_changed<V>(
    bs: Seq<(Seq<char>, V)>,
    cs: Seq<(Seq<char>, V)>,
    removed: spec_fn(Seq<char>, V) -> Seq<FieldDiffView>,
    added: spec_fn(Seq<char>, V) -> Seq<FieldDiffView>,
    changed: spec_fn(Seq<char>, V, V) -> Seq<FieldDiffView>,
    k: Seq<char>,
    x: V,
    y: V,
) -> (o: int)
    requires
        keys_sorted(bs),
        keys_sorted(cs),
        lookup(bs, k) == Some(x),
        lookup(cs, k) == Some(y),
    ensures
        0 <= o,
        o + changed(k, x, y).len() <= merge_keyed(bs, cs, removed, added, changed).len(),
        merge_keyed(bs, cs, removed, added, changed).subrange(o, o + changed(k, x, y).len()) == changed(k, x, y),
    decreases bs.len() + cs.len(),
{
    lemma_first_key_not_above(bs, k);
    lemma_first_key_not_above(cs, k);
    let m = merge_keyed(bs, cs, removed, added, changed);
    let l: int = changed(k, x, y).len() as int;
    if text_lt(bs[0].0, cs[0].0) {
        if bs[0].0 == k {
            lemma_text_lt_asymmetric(k, cs[0].0);
            lemma_text_lt_total(k, cs[0].0);
            lemma_text_lt_irreflexive(k);
        }
        lemma_lookup_past_first(bs, k);
        lemma_sorted_tail(bs);
        let h = removed(bs[0].0, bs[0].1);
        let t = merge_keyed(bs.drop_first(), cs, removed, added, changed);
        let o1 = lemma_merge_holds_changed(bs.drop_first(), cs, removed, added, changed, k, x, y);
        assert(m == h + t);
        assert(m.subrange(h.len() + o1, h.len() + o1 + l) =~= t.subrange(o1, o1 + l));
        h.len() + o1
    } else if text_lt(cs[0].0, bs[0].0) {
        if cs[0].0 == k {
            lemma_text_lt_asymmetric(k, bs[0].0);
            lemma_text_lt_irreflexive(k);
        }
        lemma_lookup_past_first(cs, k);
        lemma_sorted_tail(cs);
        let h = added(cs[0].0, cs[0].1);
        let t = merge_keyed(bs, cs.drop_first(), removed, added, changed);
        let o1 = lemma_merge_holds_changed(bs, cs.drop_first(), removed, added, changed, k, x, y);
        assert(m == h + t);
        assert(m.subrange(h.len() + o1, h.len() + o1 + l) =~= t.subrange(o1, o1 + l));
        h.len() + o1
    } else {
        lemma_text_lt_total(bs[0].0, cs[0].0);
        let h = changed(bs[0].0, bs[0].1, cs[0].1);
        let t = merge_keyed(bs.drop_first(), cs.drop_first(), removed, added, changed);
        assert(m == h + t);
        if bs[0].0 == k {
            assert(m.subrange(0, l) =~= h);
            0
        } else {
            lemma_lookup_past_first(bs, k);
            lemma_lookup_past_first(cs, k);
            lemma_sorted_tail(bs);
            lemma_sorted_tail(cs);
            let o1 = lemma_merge_holds_changed(bs.drop_first(), cs.drop_first(), removed, added, changed, k, x, y);
            assert(m.subrange(h.len() + o1, h.len() + o1 + l) =~= t.subrange(o1, o1 + l));
            h.len() + o1
        }
    }
}

/// A change of a container's `signed` flag between the baseline and the
/// current state (for each, the last container of that name) is reported as
/// a change of `containers.<name>.signed` from the old to the new flag. It
/// is breaking when the container loses its signing or in strict mode, and
/// a warning when a relaxed check sees a container gain it.
pub proof fn lemma_container_signing_change(b: StateView, c: StateView, strict: bool, i: int, j: int) -> (n: int)
    requires
        0 <= i < b.containers.len(),
        0 <= j < c.containers.len(),
        b.containers[i].name == c.containers[j].name,
        forall|t: int| i < t < b.containers.len() ==> (#[trigger] b.containers[t]).name != b.containers[i].name,
        forall|t: int| j < t < c.containers.len() ==> (#[trigger] c.containers[t]).name != c.containers[j].name,
        b.containers[i].signed != c.containers[j].signed,
    ensures
        0 <= n < diff_spec(b, c, strict).len(),
        diff_spec(b, c, strict)[n] == (FieldDiffView {
            path: "containers."@ + b.containers[i].name + ".signed"@,
            kind: DiffKind::Changed,
            expected: Some(if b.containers[i].signed { "true"@ } else { "false"@ }),
            actual: Some(if c.containers[j].signed { "true"@ } else { "false"@ }),
            severity: if b.containers[i].signed || strict { Severity::Breaking } else { Severity::Warning },
        }),
{
    reveal_strlit("true");
    reveal_strlit("false");
    let k = b.containers[i].name;
    let x = b.containers[i];
    let y = c.containers[j];
    let pb = b.containers.map_values(|q: ContainerView| (q.name, q));
    let pc = c.containers.map_values(|q: ContainerView| (q.name, q));
    assert forall|t: int| i < t < pb.len() implies (#[trigger] pb[t]).0 != pb[i].0 by {
        assert(b.containers[t].name != k);
    }
    assert forall|t: int| j < t < pc.len() implies (#[trigger] pc[t]).0 != pc[j].0 by {
        assert(c.containers[t].name != k);
    }
    lemma_map_from_pairs_last(pb, i);
    lemma_map_from_pairs_last(pc, j);
    lemma_map_from_pairs_sorted(pb);
    lemma_map_from_pairs_sorted(pc);
    let cr = |k: Seq<char>, x: ContainerView| ct_removed(k, x);
    let ca = |k: Seq<char>, x: ContainerView| ct_added(k, x);
    let cc = |k: Seq<char>, x: ContainerView, y: ContainerView| ct_changed(strict, k, x, y);
    let o = lemma_merge_holds_changed(keyed_containers(b.containers), keyed_containers(c.containers), cr, ca, cc, k, x, y);
    let a12 = change_if("containers."@ + k + ".version"@, x.version, y.version, Severity::Breaking)
        + change_if("containers."@ + k + ".image"@, x.image, y.image, Severity::Breaking);
    let sev = if (!y.signed && x.signed) || strict { Severity::Breaking } else { Severity::Warning };
    let want = FieldDiffView {
        path: "containers."@ + k + ".signed"@,
        kind: DiffKind::Changed,
        expected: Some(if x.signed { "true"@ } else { "false"@ }),
        actual: Some(if y.signed { "true"@ } else { "false"@ }),
        severity: if x.signed || strict { Severity::Breaking } else { Severity::Warning },
    };
    assert(bool_text(true) =~= "true"@);
    assert(bool_text(false) =~= "false"@);
    assert(bool_text(x.signed) != bool_text(y.signed));
    assert(change_if("containers."@ + k + ".signed"@, bool_text(x.signed), bool_text(y.signed), sev) =~= seq![want]);
    assert(cc(k, x, y) =~= a12 + seq![want]);
    let ks = container_diffs(b, c, strict);
    let q = o + a12.len();
    assert(ks.subrange(o, o + cc(k, x, y).len()) == cc(k, x, y));
    assert(ks[q] == cc(k, x, y)[a12.len() as int]);
    let pre = head_diffs(b, c, strict) + runtime_diffs(b, c, strict);
    let d = diff_spec(b, c, strict);
    assert(d == pre + ks + env_diffs(b, c) + notes_diffs(b, c, strict));
    let n = pre.len() + q;
    assert(d[n] == ks[q]);
    n
}

/// Unsigning a container is always breaking: when a container's `signed`
/// goes from true to false between the baseline and the current state (for
/// each, the last container of that name), the differences hold a change of
/// `containers.<name>.signed` from `true` to `false` of severity Breaking,
/// in strict and in relaxed mode alike.
pub proof fn lemma_unsigned_container_breaks(b: StateView, c: StateView, strict: bool, i: int, j: int) -> (n: int)
    requires
        0 <= i < b.containers.len(),
        0 <= j < c.containers.len(),
        b.containers[i].name == c.containers[j].name,
        forall|t: int| i < t < b.containers.len() ==> (#[trigger] b.containers[t]).name != b.containers[i].name,
        forall|t: int| j < t < c.containers.len() ==> (#[trigger] c.containers[t]).name != c.containers[j].name,
        b.containers[i].signed,
        !c.containers[j].signed,
    ensures
        0 <= n < diff_spec(b, c, strict).len(),
        diff_spec(b, c, strict)[n] == (FieldDiffView {
            path: "containers."@ + b.containers[i].name + ".signed"@,
            kind: DiffKind::Changed,
            expected: Some("true"@),
            actual: Some("false"@),
            severity: Severity::Breaking,
        }),
        any_breaking(diff_spec(b, c, strict)),
{
    let n = lemma_container_signing_change(b, c, strict, i, j);
    assert(diff_spec(b, c, strict)[n].severity == Severity::Breaking);
    n
}

// ---------------------------------------------------------------------------
// Drift check report
// ---------------------------------------------------------------------------

/// One side of a drift check: where the state came from and its envelope.
#[derive(Debug, PartialEq, Eq)]
pub struct EndpointInfo {
    pub path: String,
    pub hash: String,
    pub signed: bool,
}

pub struct EndpointView {
    pub path: Seq<char>,
    pub hash: Seq<char>,
    pub signed: bool,
}

impl View for EndpointInfo {
    type V = EndpointView;

    open spec fn view(&self) -> EndpointView {
        EndpointView { path: self.path@, hash: self.hash@, signed: self.signed }
    }
}

/// The result of comparing a current state with a baseline.
#[derive(Debug, PartialEq, Eq)]
pub struct CheckReport {
    pub version: String,
    pub baseline: EndpointInfo,
    pub current: EndpointInfo,
    pub drifted: bool,
    pub has_breaking: bool,
    pub diffs: Vec<FieldDiff>,
    /// One entry for each unsigned side.
    pub warnings: Vec<String>,
}

/// How many of `ds` have severity `sev`.
pub open spec fn count_sev(ds: Seq<FieldDiffView>, sev: Severity) -> nat
    decreases ds.len(),
{
    if ds.len() == 0 {
        0
    } else {
        count_sev(ds.drop_last(), sev) + if ds.last().severity == sev { 1nat } else { 0nat }
    }
}

proof fn lemma_count_le(ds: Seq<FieldDiffView>, sev: Severity)
    ensures
        count_sev(ds, sev) <= ds.len(),
    decreases ds.len(),
{
    if ds.len() > 0 {
        lemma_count_le(ds.drop_last(), sev);
    }
}

/// The number of differences of severity `sev`.
pub fn count_severity(diffs: &Vec<FieldDiff>, sev: Severity) -> (n: usize)
    ensures
        n == count_sev(diffs_view(diffs@), sev),
{
    let len: usize = diffs.len();
    let mut i: usize = 0;
    let mut n: usize = 0;
    let ghost dv = diffs_view(diffs@);
    assert(dv.take(0) =~= Seq::<FieldDiffView>::empty());
    while i < len
        invariant
            len == diffs@.len(),
            dv == diffs_view(diffs@),
            i <= len,
            n == count_sev(dv.take(i as int), sev),
            n <= i,
        decreases len - i,
    {
        assert(dv.take(i + 1).drop_last() =~= dv.take(i as int));
        assert(dv.take(i + 1).last() == diffs@[i as int]@);
        if diffs[i].severity == sev {
            n = n + 1;
        }
        i = i + 1;
    }
    assert(dv.take(len as int) =~= dv);
    n
}

/// What a drift check concludes, with the figures its summary prints.
#[derive(Debug, PartialEq, Eq)]
pub struct CheckVerdict {
    pub report: CheckReport,
    /// Breaking field differences.
    pub breaking: usize,
    /// Warning field differences.
    pub warnings: usize,
    /// Whether the summary reports the check as failed rather than passing
    /// with warnings only.
    pub failed_status: bool,
    /// `Ok` when the check passes; otherwise the drift that fails it.
    pub outcome: Result<(), TaprootError>,
}

/// The unsigned-side warnings of a drift check, current side first.
pub open spec fn unsigned_warnings(baseline_signed: bool, current_signed: bool) -> Seq<Seq<char>> {
    (if current_signed { seq![] } else { seq!["current state is unsigned — not cryptographically signed"@] })
        + (if baseline_signed { seq![] } else { seq!["baseline is unsigned — not cryptographically signed"@] })
}

/// Compares `current` with `baseline` and decides the check. Strict mode is
/// `strict` unless `no_strict`. An unsigned side always fails the check and
/// counts as one more breaking difference; any breaking difference fails it;
/// warnings fail it in strict mode unless `allow_warnings`.
pub fn evaluate_check(
    baseline: &SignedState,
    baseline_path: &str,
    current: &SignedState,
    current_path: &str,
    strict: bool,
    no_strict: bool,
    allow_warnings: bool,
) -> (v: CheckVerdict)
    ensures
        ({
            let eff = if no_strict { false } else { strict };
            let ds = diff_spec(baseline@.state, current@.state, eff);
            let br = count_sev(ds, Severity::Breaking);
            let wa = count_sev(ds, Severity::Warning);
            let uw = unsigned_warnings(baseline@.signature is Some, current@.signature is Some);
            &&& diffs_view(v.report.diffs@) == ds
            &&& v.report.warnings@.map_values(|w: String| w@) == uw
            &&& v.report.version@ == "1.0"@
            &&& v.report.baseline@ == (EndpointView { path: baseline_path@, hash: baseline@.hash, signed: baseline@.signature is Some })
            &&& v.report.current@ == (EndpointView { path: current_path@, hash: current@.hash, signed: current@.signature is Some })
            &&& v.report.drifted == (ds.len() > 0 || uw.len() > 0)
            &&& v.report.has_breaking == (br > 0 || uw.len() > 0 || (eff && wa > 0 && !allow_warnings))
            &&& v.breaking == br
            &&& v.warnings == wa
            &&& v.failed_status == (br > 0 || uw.len() > 0 || (eff && wa > 0))
            &&& if uw.len() > 0 {
                v.outcome matches Err(TaprootError::Drift { breaking, warning })
                    && breaking == (if br + uw.len() > usize::MAX { usize::MAX as int } else { (br + uw.len()) as int })
                    && warning == wa
            } else if br > 0 || (wa > 0 && eff && !allow_warnings) {
                v.outcome matches Err(TaprootError::Drift { breaking, warning }) && breaking == br && warning == wa
            } else {
                v.outcome is Ok
            }
        }),
        baseline.signature is None || current.signature is None ==> {
            &&& v.outcome matches Err(TaprootError::Drift { breaking, warning }) && breaking >= 1
            &&& v.report.drifted
            &&& v.report.has_breaking
            &&& v.failed_status
        },
        current.signature is None ==> v.report.warnings@.len() >= 1
            && v.report.warnings@[0]@ == "current state is unsigned — not cryptographically signed"@,
        baseline.signature is None ==> v.report.warnings@.len() >= 1
            && v.report.warnings@.last()@ == "baseline is unsigned — not cryptographically signed"@,
        v.report.warnings@.len() == (if baseline.signature is None { 1int } else { 0 }) + (if current.signature is None { 1int } else { 0 }),
{
    let mut unsigned: Vec<String> = Vec::new();
    if current.signature.is_none() {
        unsigned.push(String::from_str("current state is unsigned — not cryptographically signed"));
    }
    if baseline.signature.is_none() {
        unsigned.push(String::from_str("baseline is unsigned — not cryptographically signed"));
    }
    let ghost uw = unsigned_warnings(baseline@.signature is Some, current@.signature is Some);
    assert(unsigned@.map_values(|w: String| w@) =~= uw);
    let effective_strict: bool = if no_strict { false } else { strict };
    let diffs = diff_states(&baseline.state, &current.state, effective_strict);
    let breaking: usize = count_severity(&diffs, Severity::Breaking);
    let warnings: usize = count_severity(&diffs, Severity::Warning);
    proof {
        lemma_count_le(diffs_view(diffs@), Severity::Breaking);
    }
    let unsigned_count: usize = unsigned.len();
    let has_unsigned: bool = unsigned_count > 0;
    let is_breaking_drift: bool = breaking > 0 || has_unsigned;
    let is_any_drift: bool = diffs.len() > 0 || has_unsigned;
    let outcome: Result<(), TaprootError> = if has_unsigned {
        Err(TaprootError::Drift { breaking: breaking.saturating_add(unsigned_count), warning: warnings })
    } else if breaking > 0 {
        Err(TaprootError::Drift { breaking, warning: warnings })
    } else if warnings > 0 && effective_strict && !allow_warnings {
        Err(TaprootError::Drift { breaking, warning: warnings })
    } else {
        Ok(())
    };
    let report = CheckReport {
        version: String::from_str("1.0"),
        baseline: EndpointInfo {
            path: String::from_str(baseline_path),
            hash: baseline.hash.clone(),
            signed: baseline.signature.is_some(),
        },
        current: EndpointInfo {
            path: String::from_str(current_path),
            hash: current.hash.clone(),
            signed: current.signature.is_some(),
        },
        drifted: is_any_drift,
        has_breaking: is_breaking_drift || (effective_strict && warnings > 0 && !allow_warnings),
        diffs,
        warnings: unsigned,
    };
    CheckVerdict {
        report,
        breaking,
        warnings,
        failed_status: is_breaking_drift || (effective_strict && warnings > 0),
        outcome,
    }
}

/// A list of differences is breaking exactly when it counts a breaking
/// difference, so `has_breaking` and the check's breaking count agree.
pub proof fn lemma_breaking_iff_counted(ds: Seq<FieldDiffView>)
    ensures
        any_breaking(ds) <==> count_sev(ds, Severity::Breaking) > 0,
    decreases ds.len(),
{
    if ds.len() > 0 {
        let init = ds.drop_last();
        lemma_breaking_iff_counted(init);
        if any_breaking(init) {
            let i = choose|i: int| 0 <= i < init.len() && init[i].severity == Severity::Breaking;
            assert(ds[i] == init[i]);
        }
        if any_breaking(ds) && ds.last().severity != Severity::Breaking {
            let i = choose|i: int| 0 <= i < ds.len() && ds[i].severity == Severity::Breaking;
            assert(i < ds.len() - 1);
            assert(init[i] == ds[i]);
        }
        if ds.last().severity == Severity::Breaking {
            assert(ds[ds.len() - 1].severity == Severity::Breaking);
        }
    }
}

} // verus!
