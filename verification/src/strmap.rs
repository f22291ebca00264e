//! An ordered map from text keys to text values, kept as a vector of pairs
//! sorted strictly by key (the order of `String`).

use vstd::prelude::*;
use vstd::string::*;

use crate::text::{lemma_text_lt_asymmetric, lemma_text_lt_irreflexive, lemma_text_lt_total, lemma_text_lt_transitive, text_equal, text_less, text_lt};

verus! {

/// A text pair seen as mathematical sequences.
pub type TextPair = (Seq<char>, Seq<char>);

/// Keys strictly increase along `es`, so no key occurs twice.
pub open spec fn keys_sorted<V>(es: Seq<(Seq<char>, V)>) -> bool {
    forall|i: int, j: int| 0 <= i < j < es.len() ==> text_lt(#[trigger] es[i].0, #[trigger] es[j].0)
}

/// The value stored under `k`, if any.
pub open spec fn lookup<V>(es: Seq<(Seq<char>, V)>, k: Seq<char>) -> Option<V>
    decreases es.len(),
{
    if es.len() == 0 {
        None
    } else if es[0].0 == k {
        Some(es[0].1)
    } else {
        lookup(es.drop_first(), k)
    }
}

/// `es` with `k` bound to `v`: an existing binding is replaced in place,
/// otherwise the pair goes where the key order puts it.
pub open spec fn map_insert<V>(es: Seq<(Seq<char>, V)>, k: Seq<char>, v: V) -> Seq<(Seq<char>, V)>
    decreases es.len(),
{
    if es.len() == 0 {
        seq![(k, v)]
    } else if es[0].0 == k {
        seq![(k, v)] + es.drop_first()
    } else if text_lt(k, es[0].0) {
        seq![(k, v)] + es
    } else {
        seq![es[0]] + map_insert(es.drop_first(), k, v)
    }
}

/// The bindings of `es` as a finite map.
pub open spec fn as_map<V>(es: Seq<(Seq<char>, V)>) -> Map<Seq<char>, V>
    decreases es.len(),
{
    if es.len() == 0 {
        Map::empty()
    } else {
        as_map(es.drop_first()).insert(es[0].0, es[0].1)
    }
}

/// Builds the pairs of `ps` into a map, one insertion at a time, so that a
/// later pair wins over an earlier one with the same key.
pub open spec fn map_from_pairs<V>(ps: Seq<(Seq<char>, V)>) -> Seq<(Seq<char>, V)>
    decreases ps.len(),
{
    if ps.len() == 0 {
        seq![]
    } else {
        let last = ps.last();
        map_insert(map_from_pairs(ps.drop_last()), last.0, last.1)
    }
}

/// The mathematical view of a vector of string pairs.
pub open spec fn pairs_view(v: Seq<(String, String)>) -> Seq<TextPair> {
    v.map_values(|p: (String, String)| (p.0@, p.1@))
}

/// Text keys mapped to text values, in key order.
#[derive(Debug, PartialEq, Eq)]
pub struct StrMap {
    entries: Vec<(String, String)>,
}

impl View for StrMap {
    type V = Seq<TextPair>;

    closed spec fn view(&self) -> Seq<TextPair> {
        pairs_view(self.entries@)
    }
}

pub proof fn lemma_sorted_tail<V>(es: Seq<(Seq<char>, V)>)
    requires
        keys_sorted(es),
        es.len() > 0,
    ensures
        keys_sorted(es.drop_first()),
{
    assert forall|i: int, j: int| 0 <= i < j < es.drop_first().len() implies text_lt(
        #[trigger] es.drop_first()[i].0,
        #[trigger] es.drop_first()[j].0,
    ) by {
        assert(es.drop_first()[i] == es[i + 1]);
        assert(es.drop_first()[j] == es[j + 1]);
    }
}

/// In a sorted map, `lookup` finds exactly the pair with that key.
pub proof fn lemma_lookup_index<V>(es: Seq<(Seq<char>, V)>, k: Seq<char>)
    requires
        keys_sorted(es),
    ensures
        lookup(es, k) matches Some(v) ==> exists|i: int| 0 <= i < es.len() && es[i].0 == k && es[i].1 == v,
        lookup(es, k) is None ==> forall|i: int| 0 <= i < es.len() ==> es[i].0 != k,
        forall|i: int| 0 <= i < es.len() && es[i].0 == k ==> lookup(es, k) == Some(es[i].1),
    decreases es.len(),
{
    if es.len() > 0 {
        lemma_sorted_tail(es);
        lemma_lookup_index(es.drop_first(), k);
        if es[0].0 == k {
            assert forall|i: int| 0 <= i < es.len() && es[i].0 == k implies lookup(es, k) == Some(es[i].1) by {
                if i > 0 {
                    assert(text_lt(es[0].0, es[i].0));
                    lemma_text_lt_irreflexive(k);
                }
            }
        } else {
            assert forall|i: int| 0 <= i < es.len() && es[i].0 == k implies lookup(es, k) == Some(es[i].1) by {
                assert(es.drop_first()[i - 1] == es[i]);
            }
            if lookup(es, k) is Some {
                let i = choose|i: int| 0 <= i < es.drop_first().len() && es.drop_first()[i].0 == k && es.drop_first()[i].1 == lookup(es, k).unwrap();
                assert(es[i + 1] == es.drop_first()[i]);
            } else {
                assert forall|i: int| 0 <= i < es.len() implies es[i].0 != k by {
                    if i > 0 {
                        assert(es[i] == es.drop_first()[i - 1]);
                    }
                }
            }
        }
    }
}

/// `map_insert` at the position `j` where the key goes.
pub proof fn lemma_map_insert_at<V>(es: Seq<(Seq<char>, V)>, k: Seq<char>, v: V, j: int)
    requires
        keys_sorted(es),
        0 <= j <= es.len(),
        forall|i: int| 0 <= i < j ==> text_lt(#[trigger] es[i].0, k),
        j < es.len() ==> !text_lt(es[j].0, k),
    ensures
        j < es.len() && es[j].0 == k ==> map_insert(es, k, v) == es.take(j) + seq![(k, v)] + es.skip(j + 1),
        !(j < es.len() && es[j].0 == k) ==> map_insert(es, k, v) == es.take(j) + seq![(k, v)] + es.skip(j),
    decreases j,
{
    if j == 0 {
        if es.len() > 0 {
            if es[0].0 != k {
                lemma_text_lt_total(es[0].0, k);
            }
            assert(es.skip(1) =~= es.drop_first());
        }
        assert(es.take(0) + seq![(k, v)] + es.skip(0) =~= seq![(k, v)] + es);
        assert(es.skip(0) =~= es);
    } else {
        lemma_sorted_tail(es);
        assert forall|i: int| 0 <= i < j - 1 implies text_lt(#[trigger] es.drop_first()[i].0, k) by {
            assert(es.drop_first()[i] == es[i + 1]);
        }
        lemma_map_insert_at(es.drop_first(), k, v, j - 1);
        assert(text_lt(es[0].0, k));
        lemma_text_lt_asymmetric(es[0].0, k);
        lemma_text_lt_irreflexive(k);
        assert(es[0].0 != k);
        let t = es.drop_first();
        if j < es.len() && es[j].0 == k {
            assert(t[j - 1] == es[j]);
            assert(seq![es[0]] + (t.take(j - 1) + seq![(k, v)] + t.skip(j)) =~= es.take(j) + seq![(k, v)] + es.skip(j + 1));
        } else {
            if j < es.len() {
                assert(t[j - 1] == es[j]);
            }
            assert(seq![es[0]] + (t.take(j - 1) + seq![(k, v)] + t.skip(j - 1)) =~= es.take(j) + seq![(k, v)] + es.skip(j));
        }
    }
}

/// Inserting keeps the keys sorted.
pub proof fn lemma_map_insert_sorted<V>(es: Seq<(Seq<char>, V)>, k: Seq<char>, v: V)
    requires
        keys_sorted(es),
    ensures
        keys_sorted(map_insert(es, k, v)),
    decreases es.len(),
{
    if es.len() > 0 {
        lemma_sorted_tail(es);
        lemma_map_insert_sorted(es.drop_first(), k, v);
        let r = map_insert(es, k, v);
        if es[0].0 == k {
            assert forall|i: int, j: int| 0 <= i < j < r.len() implies text_lt(#[trigger] r[i].0, #[trigger] r[j].0) by {
                if i == 0 {
                    assert(r[j] == es[j]);
                } else {
                    assert(r[i] == es[i] && r[j] == es[j]);
                }
            }
        } else if text_lt(k, es[0].0) {
            assert forall|i: int, j: int| 0 <= i < j < r.len() implies text_lt(#[trigger] r[i].0, #[trigger] r[j].0) by {
                if i == 0 {
                    assert(r[j] == es[j - 1]);
                    if j - 1 > 0 {
                        lemma_text_lt_transitive(k, es[0].0, es[j - 1].0);
                    }
                } else {
                    assert(r[i] == es[i - 1] && r[j] == es[j - 1]);
                }
            }
        } else {
            lemma_text_lt_total(k, es[0].0);
            let t = map_insert(es.drop_first(), k, v);
            assert(r == seq![es[0]] + t);
            // every key of t is a key of es.drop_first() or k, all above es[0]
            assert forall|i: int| 0 <= i < t.len() implies text_lt(es[0].0, #[trigger] t[i].0) by {
                lemma_map_insert_keys(es.drop_first(), k, v, i);
                if t[i].0 != k {
                    let m = choose|m: int| 0 <= m < es.drop_first().len() && es.drop_first()[m].0 == t[i].0;
                    assert(es.drop_first()[m] == es[m + 1]);
                }
            }
            assert forall|i: int, j: int| 0 <= i < j < r.len() implies text_lt(#[trigger] r[i].0, #[trigger] r[j].0) by {
                if i == 0 {
                    assert(r[j] == t[j - 1]);
                } else {
                    assert(r[i] == t[i - 1] && r[j] == t[j - 1]);
                }
            }
        }
    }
}

/// Every key after an insertion is the inserted key or an old key.
pub proof fn lemma_map_insert_keys<V>(es: Seq<(Seq<char>, V)>, k: Seq<char>, v: V, i: int)
    requires
        0 <= i < map_insert(es, k, v).len(),
    ensures
        map_insert(es, k, v)[i].0 == k || exists|m: int| 0 <= m < es.len() && es[m].0 == map_insert(es, k, v)[i].0,
    decreases es.len(),
{
    let r = map_insert(es, k, v);
    if es.len() > 0 {
        if es[0].0 == k {
            if i > 0 {
                assert(r[i] == es[i]);
            }
        } else if text_lt(k, es[0].0) {
            if i > 0 {
                assert(r[i] == es[i - 1]);
            }
        } else {
            if i == 0 {
                assert(r[0] == es[0]);
            } else {
                lemma_map_insert_keys(es.drop_first(), k, v, i - 1);
                if r[i].0 != k {
                    let m = choose|m: int| 0 <= m < es.drop_first().len() && es.drop_first()[m].0 == map_insert(es.drop_first(), k, v)[i - 1].0;
                    assert(es[m + 1] == es.drop_first()[m]);
                }
            }
        }
    }
}

/// After an insertion, the key reads back the inserted value and every other
/// key reads back what it read before.
pub proof fn lemma_map_insert_lookup<V>(es: Seq<(Seq<char>, V)>, k: Seq<char>, v: V, q: Seq<char>)
    ensures
        lookup(map_insert(es, k, v), q) == if q == k { Some(v) } else { lookup(es, q) },
    decreases es.len(),
{
    if es.len() > 0 {
        lemma_map_insert_lookup(es.drop_first(), k, v, q);
        let r = map_insert(es, k, v);
        if es[0].0 == k {
            assert(r.drop_first() =~= es.drop_first());
        } else if text_lt(k, es[0].0) {
            assert(r.drop_first() =~= es);
        } else {
            assert(r.drop_first() =~= map_insert(es.drop_first(), k, v));
        }
    } else {
        let r = map_insert(es, k, v);
        assert(r.drop_first() =~= Seq::<(Seq<char>, V)>::empty());
        assert(lookup(r.drop_first(), q) is None);
    }
}

impl StrMap {
    /// The map with no bindings.
    pub fn new() -> (m: Self)
        ensures
            m@ == Seq::<TextPair>::empty(),
            keys_sorted(m@),
    {
        let m = StrMap { entries: Vec::new() };
        assert(m@ =~= Seq::<TextPair>::empty());
        m
    }

    #[verifier::type_invariant]
    closed spec fn inv(self) -> bool {
        keys_sorted(self@)
    }

    /// Number of bindings.
    pub fn len(&self) -> (n: usize)
        ensures
            n == self@.len(),
    {
        self.entries.len()
    }

    pub fn is_empty(&self) -> (b: bool)
        ensures
            b == (self@.len() == 0),
    {
        self.entries.len() == 0
    }

    /// The key of the `i`-th binding in key order.
    pub fn key_at(&self, i: usize) -> (k: &String)
        requires
            i < self@.len(),
        ensures
            k@ == self@[i as int].0,
    {
        &self.entries[i].0
    }

    /// The value of the `i`-th binding in key order.
    pub fn value_at(&self, i: usize) -> (v: &String)
        requires
            i < self@.len(),
        ensures
            v@ == self@[i as int].1,
    {
        &self.entries[i].1
    }

    /// Position of the first key not below `k`.
    fn position(&self, k: &str) -> (j: usize)
        ensures
            j <= self@.len(),
            forall|i: int| 0 <= i < j ==> text_lt(#[trigger] self@[i].0, k@),
            j < self@.len() ==> !text_lt(self@[j as int].0, k@),
    {
        let n: usize = self.entries.len();
        let mut j: usize = 0;
        while j < n && text_less(self.entries[j].0.as_str(), k)
            invariant
                n == self@.len(),
                j <= n,
                forall|i: int| 0 <= i < j ==> text_lt(#[trigger] self@[i].0, k@),
            decreases n - j,
        {
            j = j + 1;
        }
        j
    }

    /// The value bound to `key`, if any.
    pub fn get(&self, key: &str) -> (r: Option<&String>)
        ensures
            match r {
                Some(v) => lookup(self@, key@) == Some(v@),
                None => lookup(self@, key@) is None,
            },
    {
        proof {
            use_type_invariant(self);
            lemma_lookup_index(self@, key@);
        }
        let j: usize = self.position(key);
        if j < self.entries.len() && text_equal(self.entries[j].0.as_str(), key) {
            Some(&self.entries[j].1)
        } else {
            proof {
                assert forall|i: int| 0 <= i < self@.len() implies self@[i].0 != key@ by {
                    if i < j {
                        lemma_text_lt_irreflexive(key@);
                    } else if i > j {
                        assert(text_lt(self@[j as int].0, self@[i].0));
                        if self@[i].0 == key@ {
                            lemma_text_lt_total(self@[j as int].0, key@);
                        }
                    }
                }
            }
            None
        }
    }

    /// Binds `key` to `value`, returning the value it replaced.
    pub fn insert(&mut self, key: String, value: String) -> (old_value: Option<String>)
        ensures
            final(self)@ == map_insert(old(self)@, key@, value@),
            match old_value {
                Some(v) => lookup(old(self)@, key@) == Some(v@),
                None => lookup(old(self)@, key@) is None,
            },
    {
        proof {
            use_type_invariant(&*self);
            lemma_lookup_index(self@, key@);
        }
        let ghost before = self@;
        let j: usize = self.position(key.as_str());
        proof {
            lemma_map_insert_at(before, key@, value@, j as int);
            lemma_map_insert_sorted(before, key@, value@);
        }
        let mut es: Vec<(String, String)> = Vec::new();
        std::mem::swap(&mut es, &mut self.entries);
        assert(pairs_view(es@) == before);
        let old_value: Option<String>;
        if j < es.len() && text_equal(es[j].0.as_str(), key.as_str()) {
            let prev = es[j].1.clone();
            let ghost kv = key@;
            let ghost vv = value@;
            es.set(j, (key, value));
            assert(pairs_view(es@) =~= before.take(j as int) + seq![(kv, vv)] + before.skip(j + 1));
            old_value = Some(prev);
        } else {
            proof {
                assert forall|i: int| 0 <= i < before.len() implies before[i].0 != key@ by {
                    if i < j {
                        lemma_text_lt_irreflexive(key@);
                    } else if i > j {
                        assert(text_lt(before[j as int].0, before[i].0));
                        if before[i].0 == key@ {
                            lemma_text_lt_total(before[j as int].0, key@);
                        }
                    }
                }
            }
            let ghost kv = key@;
            let ghost vv = value@;
            es.insert(j, (key, value));
            assert(pairs_view(es@) =~= before.take(j as int) + seq![(kv, vv)] + before.skip(j as int));
            old_value = None;
        }
        self.entries = es;
        old_value
    }

    /// Builds a map from pairs; a later pair wins over an earlier one with the same key.
    pub fn from_pairs(pairs: Vec<(String, String)>) -> (m: Self)
        ensures
            m@ == map_from_pairs(pairs_view(pairs@)),
    {
        let mut m = StrMap::new();
        let n: usize = pairs.len();
        let ghost all = pairs_view(pairs@);
        let mut i: usize = 0;
        while i < n
            invariant
                n == pairs@.len(),
                all == pairs_view(pairs@),
                i <= n,
                m@ == map_from_pairs(all.take(i as int)),
            decreases n - i,
        {
            proof {
                assert(all.take(i + 1).drop_last() =~= all.take(i as int));
                assert(all.take(i + 1).last() == all[i as int]);
            }
            m.insert(pairs[i].0.clone(), pairs[i].1.clone());
            i = i + 1;
        }
        assert(all.take(n as int) =~= all);
        m
    }

    /// The bindings in key order, as owned pairs.
    pub fn to_pairs(&self) -> (v: Vec<(String, String)>)
        ensures
            pairs_view(v@) == self@,
    {
        let mut v: Vec<(String, String)> = Vec::new();
        let n: usize = self.entries.len();
        let mut i: usize = 0;
        while i < n
            invariant
                n == self@.len(),
                i <= n,
                v@.len() == i,
                pairs_view(v@) == self@.take(i as int),
            decreases n - i,
        {
            let a: String = self.entries[i].0.clone();
            let b: String = self.entries[i].1.clone();
            assert(a@ == self@[i as int].0 && b@ == self@[i as int].1);
            let ghost old_v = v@;
            v.push((a, b));
            assert(v@ == old_v.push((a, b)));
            assert(v@.len() == i + 1);
            assert(v@[i as int] == (a, b));
            assert(pairs_view(v@)[i as int] == (a@, b@));
            assert(pairs_view(v@)[i as int] == self@[i as int]);
            assert(pairs_view(v@) =~= self@.take(i + 1));
            i = i + 1;
        }
        assert(self@.take(n as int) =~= self@);
        v
    }
}

impl Clone for StrMap {
    fn clone(&self) -> (r: Self)
        ensures
            r@ == self@,
    {
        proof {
            use_type_invariant(self);
        }
        let entries = self.to_pairs();
        StrMap { entries }
    }
}

} // verus!

verus! {

/// `es` with `f` applied to every value.
pub open spec fn map_vals<A, B>(es: Seq<(Seq<char>, A)>, f: spec_fn(A) -> B) -> Seq<(Seq<char>, B)> {
    es.map_values(|e: (Seq<char>, A)| (e.0, f(e.1)))
}

/// Inserting commutes with transforming the values.
pub proof fn lemma_map_insert_vals<A, B>(es: Seq<(Seq<char>, A)>, k: Seq<char>, v: A, f: spec_fn(A) -> B)
    ensures
        map_insert(map_vals(es, f), k, f(v)) == map_vals(map_insert(es, k, v), f),
    decreases es.len(),
{
    let m = map_vals(es, f);
    if es.len() > 0 {
        assert(m[0] == (es[0].0, f(es[0].1)));
        assert(m.drop_first() =~= map_vals(es.drop_first(), f));
        lemma_map_insert_vals(es.drop_first(), k, v, f);
        if es[0].0 == k {
            assert(map_insert(m, k, f(v)) =~= map_vals(map_insert(es, k, v), f));
        } else if text_lt(k, es[0].0) {
            assert(map_insert(m, k, f(v)) =~= map_vals(map_insert(es, k, v), f));
        } else {
            assert(map_insert(m, k, f(v)) =~= map_vals(map_insert(es, k, v), f));
        }
    } else {
        assert(map_insert(m, k, f(v)) =~= map_vals(map_insert(es, k, v), f));
    }
}

/// Building a map commutes with transforming the values.
pub proof fn lemma_map_from_pairs_vals<A, B>(ps: Seq<(Seq<char>, A)>, f: spec_fn(A) -> B)
    ensures
        map_from_pairs(map_vals(ps, f)) == map_vals(map_from_pairs(ps), f),
    decreases ps.len(),
{
    if ps.len() > 0 {
        let m = map_vals(ps, f);
        assert(m.drop_last() =~= map_vals(ps.drop_last(), f));
        assert(m.last() == (ps.last().0, f(ps.last().1)));
        lemma_map_from_pairs_vals(ps.drop_last(), f);
        lemma_map_insert_vals(map_from_pairs(ps.drop_last()), ps.last().0, ps.last().1, f);
    } else {
        assert(map_from_pairs(map_vals(ps, f)) =~= map_vals(map_from_pairs(ps), f));
    }
}

/// A map built by insertions has sorted keys.
pub proof fn lemma_map_from_pairs_sorted<V>(ps: Seq<(Seq<char>, V)>)
    ensures
        keys_sorted(map_from_pairs(ps)),
    decreases ps.len(),
{
    if ps.len() > 0 {
        lemma_map_from_pairs_sorted(ps.drop_last());
        lemma_map_insert_sorted(map_from_pairs(ps.drop_last()), ps.last().0, ps.last().1);
    }
}

} // verus!
