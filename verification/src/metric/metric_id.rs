//! The identity of a measurement series: a key and a set of tags, with
//! annotations that say which tags identify the series and which give it
//! meaning.
//!
//! Tags are kept as a strictly ascending list of pairs, so one set of tags
//! has one representation. Equality and hashing read the key and the tags
//! and nothing else.

use vstd::prelude::*;
use vstd::std_specs::cmp::PartialEqSpecImpl;
use std::hash::Hash;
use std::hash::Hasher;
use crate::metric::order::Order;
use crate::metric::order::Pair;
use crate::metric::order::pair_lt;
use crate::metric::order::pair_order;
use crate::metric::order::str_order;
use crate::metric::order::lemma_pair_asymmetric;
use crate::metric::order::lemma_pair_irreflexive;
use crate::metric::order::lemma_pair_total;
use crate::metric::order::lemma_pair_transitive;

verus! {

/// A list of owned pairs, as the contracts see it.
pub open spec fn pairs_view(v: Seq<(String, String)>) -> Seq<Pair> {
    Seq::new(v.len(), |i: int| (v[i].0@, v[i].1@))
}

/// A list of borrowed pairs, as the contracts see it.
pub open spec fn borrowed_pairs_view(v: Seq<(&str, &str)>) -> Seq<Pair> {
    Seq::new(v.len(), |i: int| (v[i].0@, v[i].1@))
}

/// The names that a list of owned strings holds.
pub open spec fn names_of(v: Seq<String>) -> Set<Seq<char>> {
    Set::new(|name: Seq<char>| exists|i: int| 0 <= i < v.len() && #[trigger] v[i]@ == name)
}

/// The names that a list of borrowed strings holds.
pub open spec fn borrowed_names_of(v: Seq<&str>) -> Set<Seq<char>> {
    Set::new(|name: Seq<char>| exists|i: int| 0 <= i < v.len() && #[trigger] v[i]@ == name)
}

/// Whether the pairs stand in strictly ascending order.
pub open spec fn sorted(s: Seq<Pair>) -> bool {
    forall|i: int, j: int| 0 <= i < j < s.len() ==> pair_lt(#[trigger] s[i], #[trigger] s[j])
}

/// The ascending list `s` with `p` put in its place; `s` itself where it
/// holds `p` already.
pub open spec fn insert_sorted(s: Seq<Pair>, p: Pair) -> Seq<Pair>
    decreases s.len(),
{
    if s.len() == 0 {
        seq![p]
    } else if p == s[0] {
        s
    } else if pair_lt(p, s[0]) {
        seq![p] + s
    } else {
        seq![s[0]] + insert_sorted(s.drop_first(), p)
    }
}

/// The ascending list `s` with each of `ps` put in its place, one after
/// the other.
pub open spec fn insert_all(s: Seq<Pair>, ps: Seq<Pair>) -> Seq<Pair>
    decreases ps.len(),
{
    if ps.len() == 0 {
        s
    } else {
        insert_sorted(insert_all(s, ps.drop_last()), ps.last())
    }
}

/// What a metric id, or a builder of one, holds.
pub struct MetricIdView {
    pub key: Option<Seq<char>>,
    /// The tags, in ascending order.
    pub tags: Seq<Pair>,
    /// The resource pairs, in the order in which they were added.
    pub resource: Seq<Pair>,
    /// The names of the tags that identify the series.
    pub identity: Set<Seq<char>>,
    /// The names of the tags that say what the series means.
    pub meaning: Set<Seq<char>>,
}

impl MetricIdView {
    /// The view of an id with nothing in it.
    pub open spec fn empty() -> MetricIdView {
        MetricIdView {
            key: None,
            tags: Seq::empty(),
            resource: Seq::empty(),
            identity: Set::empty(),
            meaning: Set::empty(),
        }
    }

    /// Whether two ids name the same series: the same key and the same
    /// tags.
    pub open spec fn same_series(self, other: MetricIdView) -> bool {
        self.key == other.key && self.tags == other.tags
    }
}

/// Every pair of `insert_sorted(s, p)` is `p` or a pair of `s`, and the
/// other way round.
pub proof fn lemma_insert_sorted_holds(s: Seq<Pair>, p: Pair)
    ensures
        forall|x: Pair| #[trigger] insert_sorted(s, p).contains(x) <==> (s.contains(x) || x == p),
    decreases s.len(),
{
    let r = insert_sorted(s, p);
    if s.len() == 0 {
        assert(r[0] == p);
        assert forall|x: Pair| #[trigger] r.contains(x) <==> (s.contains(x) || x == p) by {}
    } else if p == s[0] {
        assert(s.contains(p));
    } else if pair_lt(p, s[0]) {
        assert forall|x: Pair| #[trigger] r.contains(x) <==> (s.contains(x) || x == p) by {
            if r.contains(x) {
                let i = choose|i: int| 0 <= i < r.len() && r[i] == x;
                if i > 0 {
                    assert(s[i - 1] == x);
                }
            }
            if s.contains(x) {
                let i = choose|i: int| 0 <= i < s.len() && s[i] == x;
                assert(r[i + 1] == x);
            }
            if x == p {
                assert(r[0] == x);
            }
        }
    } else {
        let t = s.drop_first();
        let rt = insert_sorted(t, p);
        lemma_insert_sorted_holds(t, p);
        assert forall|x: Pair| #[trigger] r.contains(x) <==> (s.contains(x) || x == p) by {
            if r.contains(x) {
                let i = choose|i: int| 0 <= i < r.len() && r[i] == x;
                if i > 0 {
                    assert(rt[i - 1] == x);
                    assert(rt.contains(x));
                    if t.contains(x) {
                        let k = choose|k: int| 0 <= k < t.len() && t[k] == x;
                        assert(s[k + 1] == x);
                    }
                } else {
                    assert(s[0] == x);
                }
            }
            if s.contains(x) {
                let i = choose|i: int| 0 <= i < s.len() && s[i] == x;
                if i == 0 {
                    assert(r[0] == x);
                } else {
                    assert(t[i - 1] == x);
                    assert(rt.contains(x));
                    let k = choose|k: int| 0 <= k < rt.len() && rt[k] == x;
                    assert(r[k + 1] == x);
                }
            }
            if x == p {
                assert(rt.contains(x));
                let k = choose|k: int| 0 <= k < rt.len() && rt[k] == x;
                assert(r[k + 1] == x);
            }
        }
    }
}

/// Putting a pair in its place keeps the list in ascending order.
pub proof fn lemma_insert_sorted_sorted(s: Seq<Pair>, p: Pair)
    requires
        sorted(s),
    ensures
        sorted(insert_sorted(s, p)),
    decreases s.len(),
{
    let r = insert_sorted(s, p);
    if s.len() == 0 {
    } else if p == s[0] {
    } else if pair_lt(p, s[0]) {
        assert forall|i: int, j: int| 0 <= i < j < r.len() implies pair_lt(
            #[trigger] r[i],
            #[trigger] r[j],
        ) by {
            if i == 0 {
                if j > 1 {
                    assert(pair_lt(s[0], s[j - 1]));
                    lemma_pair_transitive(p, s[0], s[j - 1]);
                }
            } else {
                assert(pair_lt(s[i - 1], s[j - 1]));
            }
        }
    } else {
        let t = s.drop_first();
        let rt = insert_sorted(t, p);
        assert forall|i: int, j: int| 0 <= i < j < t.len() implies pair_lt(
            #[trigger] t[i],
            #[trigger] t[j],
        ) by {
            assert(pair_lt(s[i + 1], s[j + 1]));
        }
        lemma_insert_sorted_sorted(t, p);
        lemma_insert_sorted_holds(t, p);
        lemma_pair_total(p, s[0]);
        assert forall|i: int, j: int| 0 <= i < j < r.len() implies pair_lt(
            #[trigger] r[i],
            #[trigger] r[j],
        ) by {
            if i == 0 {
                let x = rt[j - 1];
                assert(rt.contains(x));
                if t.contains(x) {
                    let k = choose|k: int| 0 <= k < t.len() && t[k] == x;
                    assert(pair_lt(s[0], s[k + 1]));
                }
            } else {
                assert(pair_lt(rt[i - 1], rt[j - 1]));
            }
        }
    }
}

/// Where every pair before position `i` comes before `p`, putting `p` in
/// its place leaves those pairs alone.
pub proof fn lemma_insert_after_prefix(s: Seq<Pair>, p: Pair, i: int)
    requires
        0 <= i <= s.len(),
        forall|j: int| 0 <= j < i ==> pair_lt(#[trigger] s[j], p),
    ensures
        insert_sorted(s, p) == s.take(i) + insert_sorted(s.skip(i), p),
    decreases i,
{
    if i == 0 {
        assert(s.skip(0) =~= s);
        assert(s.take(0) + insert_sorted(s, p) =~= insert_sorted(s, p));
    } else {
        let t = s.drop_first();
        assert(pair_lt(s[0], p));
        lemma_pair_asymmetric(s[0], p);
        assert forall|j: int| 0 <= j < i - 1 implies pair_lt(#[trigger] t[j], p) by {
            assert(pair_lt(s[j + 1], p));
        }
        lemma_insert_after_prefix(t, p, i - 1);
        assert(t.skip(i - 1) =~= s.skip(i));
        assert(seq![s[0]] + t.take(i - 1) =~= s.take(i));
        assert(seq![s[0]] + (t.take(i - 1) + insert_sorted(s.skip(i), p)) =~= s.take(i) + insert_sorted(
            s.skip(i),
            p,
        ));
    }
}

/// Ascending lists that hold the same pairs are the same list.
pub proof fn lemma_sorted_is_canonical(a: Seq<Pair>, b: Seq<Pair>)
    requires
        sorted(a),
        sorted(b),
        forall|x: Pair| a.contains(x) <==> b.contains(x),
    ensures
        a == b,
    decreases a.len(),
{
    if a.len() == 0 {
        if b.len() > 0 {
            assert(b.contains(b[0]));
        }
        assert(a =~= b);
    } else if b.len() == 0 {
        assert(a.contains(a[0]));
    } else {
        assert(a.contains(a[0]));
        assert(b.contains(b[0]));
        let k = choose|k: int| 0 <= k < b.len() && b[k] == a[0];
        let m = choose|m: int| 0 <= m < a.len() && a[m] == b[0];
        if k > 0 {
            assert(pair_lt(b[0], b[k]));
            if m > 0 {
                assert(pair_lt(a[0], a[m]));
                lemma_pair_asymmetric(a[0], a[m]);
            } else {
                lemma_pair_irreflexive(a[0]);
            }
        }
        assert(a[0] == b[0]);
        let ta = a.drop_first();
        let tb = b.drop_first();
        assert forall|i: int, j: int| 0 <= i < j < ta.len() implies pair_lt(
            #[trigger] ta[i],
            #[trigger] ta[j],
        ) by {
            assert(pair_lt(a[i + 1], a[j + 1]));
        }
        assert forall|i: int, j: int| 0 <= i < j < tb.len() implies pair_lt(
            #[trigger] tb[i],
            #[trigger] tb[j],
        ) by {
            assert(pair_lt(b[i + 1], b[j + 1]));
        }
        assert forall|x: Pair| ta.contains(x) <==> tb.contains(x) by {
            if ta.contains(x) {
                let i = choose|i: int| 0 <= i < ta.len() && ta[i] == x;
                assert(a[i + 1] == x);
                assert(a.contains(x));
                let j = choose|j: int| 0 <= j < b.len() && b[j] == x;
                assert(pair_lt(a[0], a[i + 1]));
                lemma_pair_irreflexive(x);
                assert(j > 0);
                assert(tb[j - 1] == x);
            }
            if tb.contains(x) {
                let i = choose|i: int| 0 <= i < tb.len() && tb[i] == x;
                assert(b[i + 1] == x);
                assert(b.contains(x));
                let j = choose|j: int| 0 <= j < a.len() && a[j] == x;
                assert(pair_lt(b[0], b[i + 1]));
                lemma_pair_irreflexive(x);
                assert(j > 0);
                assert(ta[j - 1] == x);
            }
        }
        lemma_sorted_is_canonical(ta, tb);
        assert(a =~= seq![a[0]] + ta);
        assert(b =~= seq![b[0]] + tb);
    }
}

/// Putting several pairs in their places keeps the list in ascending
/// order.
pub proof fn lemma_insert_all_sorted(s: Seq<Pair>, ps: Seq<Pair>)
    requires
        sorted(s),
    ensures
        sorted(insert_all(s, ps)),
    decreases ps.len(),
{
    if ps.len() > 0 {
        lemma_insert_all_sorted(s, ps.drop_last());
        lemma_insert_sorted_sorted(insert_all(s, ps.drop_last()), ps.last());
    }
}

/// Two ids name the same series if and only if they have the same key and
/// the same set of tags, whatever their annotations and resource pairs.
pub proof fn lemma_same_series_iff_same_key_and_tag_set(a: MetricIdView, b: MetricIdView)
    requires
        sorted(a.tags),
        sorted(b.tags),
    ensures
        a.same_series(b) <==> (a.key == b.key && forall|x: Pair|
            a.tags.contains(x) <==> b.tags.contains(x)),
{
    if a.key == b.key && (forall|x: Pair| a.tags.contains(x) <==> b.tags.contains(x)) {
        lemma_sorted_is_canonical(a.tags, b.tags);
    }
}

/// Ids made from the same key and the same tags, put in one after the
/// other in the same order, name the same series.
pub proof fn lemma_same_insertions_same_series(
    a: MetricIdView,
    b: MetricIdView,
    key: Option<Seq<char>>,
    tags: Seq<Pair>,
)
    requires
        a.key == key,
        b.key == key,
        a.tags == insert_all(Seq::empty(), tags),
        b.tags == insert_all(Seq::empty(), tags),
    ensures
        a.same_series(b),
        sorted(a.tags),
{
    lemma_insert_all_sorted(Seq::empty(), tags);
}

/// The order in which two tags are put in does not matter.
pub proof fn lemma_insertion_order_is_irrelevant(s: Seq<Pair>, p: Pair, q: Pair)
    requires
        sorted(s),
    ensures
        insert_sorted(insert_sorted(s, p), q) == insert_sorted(insert_sorted(s, q), p),
{
    let sp = insert_sorted(s, p);
    let sq = insert_sorted(s, q);
    lemma_insert_sorted_sorted(s, p);
    lemma_insert_sorted_sorted(s, q);
    lemma_insert_sorted_sorted(sp, q);
    lemma_insert_sorted_sorted(sq, p);
    lemma_insert_sorted_holds(s, p);
    lemma_insert_sorted_holds(s, q);
    lemma_insert_sorted_holds(sp, q);
    lemma_insert_sorted_holds(sq, p);
    lemma_sorted_is_canonical(insert_sorted(sp, q), insert_sorted(sq, p));
}

/// A tag that the id does not hold yet makes it another series.
pub proof fn lemma_new_tag_new_series(a: MetricIdView, p: Pair)
    requires
        sorted(a.tags),
        !a.tags.contains(p),
    ensures
        !a.same_series(MetricIdView { tags: insert_sorted(a.tags, p), ..a }),
{
    lemma_insert_sorted_holds(a.tags, p);
    assert(insert_sorted(a.tags, p).contains(p));
}

/// Puts the pair in its place in the ascending list; leaves the list alone
/// where it holds the pair already.
fn insert_pair(tags: &mut Vec<(String, String)>, key: &str, value: &str)
    requires
        sorted(pairs_view(old(tags)@)),
    ensures
        pairs_view(final(tags)@) == insert_sorted(pairs_view(old(tags)@), (key@, value@)),
        sorted(pairs_view(final(tags)@)),
{
    let ghost before = pairs_view(tags@);
    let ghost p: Pair = (key@, value@);
    proof {
        lemma_insert_sorted_sorted(before, p);
    }
    let mut i: usize = 0;
    while i < tags.len()
        invariant
            i <= tags@.len(),
            before == pairs_view(tags@),
            tags@ == old(tags)@,
            p == (key@, value@),
            sorted(insert_sorted(before, p)),
            forall|j: int| 0 <= j < i ==> pair_lt(#[trigger] before[j], p),
        decreases tags@.len() - i,
    {
        let o = pair_order(tags[i].0.as_str(), tags[i].1.as_str(), key, value);
        assert(before[i as int] == (tags@[i as int].0@, tags@[i as int].1@));
        match o {
            Order::Less => {
                i = i + 1;
            },
            Order::Equal => {
                proof {
                    lemma_insert_after_prefix(before, p, i as int);
                    assert(before.skip(i as int)[0] == p);
                    assert(before.take(i as int) + before.skip(i as int) =~= before);
                }
                return ;
            },
            Order::Greater => {
                proof {
                    lemma_insert_after_prefix(before, p, i as int);
                    lemma_pair_asymmetric(p, before[i as int]);
                    assert(before.skip(i as int)[0] == before[i as int]);
                }
                tags.insert(i, (key.to_owned(), value.to_owned()));
                assert(pairs_view(tags@) =~= before.take(i as int) + (seq![p] + before.skip(i as int)));
                return ;
            },
        }
    }
    proof {
        lemma_insert_after_prefix(before, p, i as int);
        assert(before.skip(i as int).len() == 0);
    }
    tags.push((key.to_owned(), value.to_owned()));
    assert(pairs_view(tags@) =~= before.take(i as int) + seq![p]);
}

/// Adds the name to the list unless the list holds it already.
fn add_name(names: &mut Vec<String>, name: &str)
    ensures
        names_of(final(names)@) == names_of(old(names)@).insert(name@),
{
    let mut i: usize = 0;
    while i < names.len()
        invariant
            i <= names@.len(),
            names@ == old(names)@,
            forall|j: int| 0 <= j < i ==> (#[trigger] names@[j])@ != name@,
        decreases names@.len() - i,
    {
        match str_order(names[i].as_str(), name) {
            Order::Equal => {
                assert(names@[i as int]@ == name@);
                assert(names_of(names@) =~= names_of(names@).insert(name@));
                return ;
            },
            _ => {
                i = i + 1;
            },
        }
    }
    names.push(name.to_owned());
    assert(names_of(names@) =~= names_of(old(names)@).insert(name@)) by {
        assert forall|n: Seq<char>| names_of(names@).contains(n) <==> names_of(old(names)@).insert(
            name@,
        ).contains(n) by {
            if names_of(names@).contains(n) {
                let k = choose|k: int| 0 <= k < names@.len() && #[trigger] names@[k]@ == n;
                if k < old(names)@.len() {
                    assert(old(names)@[k]@ == n);
                }
            }
            if names_of(old(names)@).contains(n) {
                let k = choose|k: int| 0 <= k < old(names)@.len() && #[trigger] old(names)@[k]@ == n;
                assert(names@[k]@ == n);
            }
            if n == name@ {
                assert(names@[old(names)@.len() as int]@ == n);
            }
        }
    }
}

/// A copy of an optional key.
fn copy_key(key: &Option<String>) -> (copy: Option<String>)
    ensures
        key_view(copy) == key_view(*key),
{
    match key {
        Some(k) => Some(k.clone()),
        None => None,
    }
}

/// A copy of a list of pairs.
fn copy_pairs(pairs: &Vec<(String, String)>) -> (copy: Vec<(String, String)>)
    ensures
        pairs_view(copy@) == pairs_view(pairs@),
{
    let mut copy: Vec<(String, String)> = Vec::new();
    let mut i: usize = 0;
    while i < pairs.len()
        invariant
            i <= pairs@.len(),
            copy@.len() == i,
            forall|j: int| 0 <= j < i ==> (#[trigger] copy@[j]).0@ == pairs@[j].0@ && copy@[j].1@ == pairs@[j].1@,
        decreases pairs@.len() - i,
    {
        copy.push((pairs[i].0.clone(), pairs[i].1.clone()));
        i = i + 1;
    }
    assert(pairs_view(copy@) =~= pairs_view(pairs@));
    copy
}

/// A copy of a list of names.
fn copy_names(names: &Vec<String>) -> (copy: Vec<String>)
    ensures
        names_of(copy@) == names_of(names@),
{
    let mut copy: Vec<String> = Vec::new();
    let mut i: usize = 0;
    while i < names.len()
        invariant
            i <= names@.len(),
            copy@.len() == i,
            forall|j: int| 0 <= j < i ==> (#[trigger] copy@[j])@ == names@[j]@,
        decreases names@.len() - i,
    {
        copy.push(names[i].clone());
        i = i + 1;
    }
    assert(names_of(copy@) =~= names_of(names@)) by {
        assert forall|n: Seq<char>| names_of(copy@).contains(n) <==> names_of(names@).contains(n) by {
            if names_of(copy@).contains(n) {
                let k = choose|k: int| 0 <= k < copy@.len() && #[trigger] copy@[k]@ == n;
                assert(names@[k]@ == n);
            }
            if names_of(names@).contains(n) {
                let k = choose|k: int| 0 <= k < names@.len() && #[trigger] names@[k]@ == n;
                assert(copy@[k]@ == n);
            }
        }
    }
    copy
}

/// Whether two options of strings hold the same.
fn same_key(a: &Option<String>, b: &Option<String>) -> (same: bool)
    ensures
        same == (key_view(*a) == key_view(*b)),
{
    match (a, b) {
        (Some(x), Some(y)) => *x == *y,
        (None, None) => true,
        _ => false,
    }
}

/// Whether two lists hold the same pairs in the same order.
fn same_pairs(a: &Vec<(String, String)>, b: &Vec<(String, String)>) -> (same: bool)
    ensures
        same == (pairs_view(a@) == pairs_view(b@)),
{
    if a.len() != b.len() {
        assert(pairs_view(a@).len() != pairs_view(b@).len());
        return false;
    }
    let mut i: usize = 0;
    while i < a.len()
        invariant
            i <= a@.len(),
            a@.len() == b@.len(),
            forall|j: int| 0 <= j < i ==> pairs_view(a@)[j] == pairs_view(b@)[j],
        decreases a@.len() - i,
    {
        if !(a[i].0 == b[i].0 && a[i].1 == b[i].1) {
            assert(pairs_view(a@)[i as int] != pairs_view(b@)[i as int]);
            return false;
        }
        i = i + 1;
    }
    assert(pairs_view(a@) =~= pairs_view(b@));
    true
}

/// An optional key, as the contracts see it.
pub open spec fn key_view(key: Option<String>) -> Option<Seq<char>> {
    match key {
        Some(k) => Some(k@),
        None => None,
    }
}

/// Accumulates the parts of a metric id. Each step takes the builder and
/// hands back a new one, so a builder kept as a base can be cloned and
/// specialised any number of times.
#[derive(Debug)]
pub struct MetricIdBuilder {
    key: Option<String>,
    tags: Vec<(String, String)>,
    resource: Vec<(String, String)>,
    identity: Vec<String>,
    meaning: Vec<String>,
}

impl View for MetricIdBuilder {
    type V = MetricIdView;

    closed spec fn view(&self) -> MetricIdView {
        MetricIdView {
            key: key_view(self.key),
            tags: pairs_view(self.tags@),
            resource: pairs_view(self.resource@),
            identity: names_of(self.identity@),
            meaning: names_of(self.meaning@),
        }
    }
}

impl MetricIdBuilder {
    #[verifier::type_invariant]
    spec fn ascending(&self) -> bool {
        sorted(pairs_view(self.tags@))
    }

    /// Sets the key, replacing one set before.
    pub fn key(self, key: &str) -> (b: MetricIdBuilder)
        ensures
            b@ == (MetricIdView { key: Some(key@), ..self@ }),
            sorted(b@.tags),
    {
        proof {
            use_type_invariant(&self);
        }
        MetricIdBuilder {
            key: Some(key.to_owned()),
            tags: self.tags,
            resource: self.resource,
            identity: self.identity,
            meaning: self.meaning,
        }
    }

    /// Adds one tag to the set of tags.
    pub fn tag(self, key: &str, value: &str) -> (b: MetricIdBuilder)
        ensures
            b@ == (MetricIdView { tags: insert_sorted(self@.tags, (key@, value@)), ..self@ }),
            sorted(b@.tags),
    {
        proof {
            use_type_invariant(&self);
        }
        let mut tags = self.tags;
        insert_pair(&mut tags, key, value);
        MetricIdBuilder {
            key: self.key,
            tags,
            resource: self.resource,
            identity: self.identity,
            meaning: self.meaning,
        }
    }

    /// Adds each of the given tags to the set of tags.
    pub fn tags(self, tags: &[(&str, &str)]) -> (b: MetricIdBuilder)
        ensures
            b@ == (MetricIdView { tags: insert_all(self@.tags, borrowed_pairs_view(tags@)), ..self@ }),
            sorted(b@.tags),
    {
        proof {
            use_type_invariant(&self);
        }
        let ghost before = self@;
        let ghost given = borrowed_pairs_view(tags@);
        let mut own = self.tags;
        let mut i: usize = 0;
        assert(given.take(0) =~= Seq::<Pair>::empty());
        while i < tags.len()
            invariant
                i <= tags@.len(),
                given == borrowed_pairs_view(tags@),
                sorted(pairs_view(own@)),
                pairs_view(own@) == insert_all(before.tags, given.take(i as int)),
            decreases tags@.len() - i,
        {
            let pair = &tags[i];
            insert_pair(&mut own, pair.0, pair.1);
            proof {
                let next = given.take(i + 1);
                assert(next.drop_last() =~= given.take(i as int));
                assert(next.last() == (tags@[i as int].0@, tags@[i as int].1@));
            }
            i = i + 1;
        }
        assert(given.take(tags@.len() as int) =~= given);
        MetricIdBuilder {
            key: self.key,
            tags: own,
            resource: self.resource,
            identity: self.identity,
            meaning: self.meaning,
        }
    }

    /// Appends one resource pair.
    pub fn resource(self, key: &str, value: &str) -> (b: MetricIdBuilder)
        ensures
            b@ == (MetricIdView { resource: self@.resource.push((key@, value@)), ..self@ }),
            sorted(b@.tags),
    {
        proof {
            use_type_invariant(&self);
        }
        let mut resource = self.resource;
        resource.push((key.to_owned(), value.to_owned()));
        assert(pairs_view(resource@) =~= self@.resource.push((key@, value@)));
        MetricIdBuilder {
            key: self.key,
            tags: self.tags,
            resource,
            identity: self.identity,
            meaning: self.meaning,
        }
    }

    /// Marks the named tags as those that identify the series.
    pub fn identity(self, names: &[&str]) -> (b: MetricIdBuilder)
        ensures
            b@ == (MetricIdView { identity: self@.identity.union(borrowed_names_of(names@)), ..self@ }),
            sorted(b@.tags),
    {
        proof {
            use_type_invariant(&self);
        }
        let mut identity = self.identity;
        add_names(&mut identity, names);
        MetricIdBuilder {
            key: self.key,
            tags: self.tags,
            resource: self.resource,
            identity,
            meaning: self.meaning,
        }
    }

    /// Marks the named tags as those that say what the series means.
    pub fn meaning(self, names: &[&str]) -> (b: MetricIdBuilder)
        ensures
            b@ == (MetricIdView { meaning: self@.meaning.union(borrowed_names_of(names@)), ..self@ }),
            sorted(b@.tags),
    {
        proof {
            use_type_invariant(&self);
        }
        let mut meaning = self.meaning;
        add_names(&mut meaning, names);
        MetricIdBuilder {
            key: self.key,
            tags: self.tags,
            resource: self.resource,
            identity: self.identity,
            meaning,
        }
    }

    /// The metric id that holds what the builder holds. The builder stays
    /// as it is.
    pub fn build(&self) -> (id: MetricId)
        ensures
            id@ == self@,
            sorted(id@.tags),
    {
        proof {
            use_type_invariant(self);
        }
        MetricId {
            key: copy_key(&self.key),
            tags: copy_pairs(&self.tags),
            resource: copy_pairs(&self.resource),
            identity: copy_names(&self.identity),
            meaning: copy_names(&self.meaning),
        }
    }
}

/// Adds each of the names to the list unless the list holds it already.
fn add_names(own: &mut Vec<String>, names: &[&str])
    ensures
        names_of(final(own)@) == names_of(old(own)@).union(borrowed_names_of(names@)),
{
    let mut i: usize = 0;
    assert(names_of(own@) =~= names_of(old(own)@).union(borrowed_names_of(names@.take(0))));
    while i < names.len()
        invariant
            i <= names@.len(),
            names_of(own@) == names_of(old(own)@).union(borrowed_names_of(names@.take(i as int))),
        decreases names@.len() - i,
    {
        add_name(own, names[i]);
        proof {
            let a = borrowed_names_of(names@.take(i as int));
            let b = borrowed_names_of(names@.take(i + 1));
            assert(b =~= a.insert(names@[i as int]@)) by {
                assert forall|n: Seq<char>| b.contains(n) <==> a.insert(names@[i as int]@).contains(n) by {
                    if b.contains(n) {
                        let k = choose|k: int| 0 <= k < i + 1 && #[trigger] names@.take(i + 1)[k]@ == n;
                        if k < i {
                            assert(names@.take(i as int)[k]@ == n);
                        }
                    }
                    if a.contains(n) {
                        let k = choose|k: int| 0 <= k < i && #[trigger] names@.take(i as int)[k]@ == n;
                        assert(names@.take(i + 1)[k]@ == n);
                    }
                    if n == names@[i as int]@ {
                        assert(names@.take(i + 1)[i as int]@ == n);
                    }
                }
            }
            assert(names_of(own@) =~= names_of(old(own)@).union(b));
        }
        i = i + 1;
    }
    assert(names@.take(names@.len() as int) =~= names@);
}

/// The identity of a measurement series.
#[derive(Debug)]
pub struct MetricId {
    key: Option<String>,
    tags: Vec<(String, String)>,
    resource: Vec<(String, String)>,
    identity: Vec<String>,
    meaning: Vec<String>,
}

impl View for MetricId {
    type V = MetricIdView;

    closed spec fn view(&self) -> MetricIdView {
        MetricIdView {
            key: key_view(self.key),
            tags: pairs_view(self.tags@),
            resource: pairs_view(self.resource@),
            identity: names_of(self.identity@),
            meaning: names_of(self.meaning@),
        }
    }
}

impl MetricId {
    #[verifier::type_invariant]
    spec fn ascending(&self) -> bool {
        sorted(pairs_view(self.tags@))
    }

    /// A builder that holds nothing yet.
    pub fn new() -> (b: MetricIdBuilder)
        ensures
            b@ == MetricIdView::empty(),
            sorted(b@.tags),
    {
        let b = MetricIdBuilder {
            key: None,
            tags: Vec::new(),
            resource: Vec::new(),
            identity: Vec::new(),
            meaning: Vec::new(),
        };
        assert(b@.tags =~= Seq::<Pair>::empty());
        assert(b@.resource =~= Seq::<Pair>::empty());
        assert(b@.identity =~= Set::<Seq<char>>::empty());
        assert(b@.meaning =~= Set::<Seq<char>>::empty());
        b
    }

    /// A builder that holds the key and nothing else.
    pub fn new_with_key(key: &str) -> (b: MetricIdBuilder)
        ensures
            b@ == (MetricIdView { key: Some(key@), ..MetricIdView::empty() }),
            sorted(b@.tags),
    {
        let b = MetricIdBuilder {
            key: Some(key.to_owned()),
            tags: Vec::new(),
            resource: Vec::new(),
            identity: Vec::new(),
            meaning: Vec::new(),
        };
        assert(b@.tags =~= Seq::<Pair>::empty());
        assert(b@.resource =~= Seq::<Pair>::empty());
        assert(b@.identity =~= Set::<Seq<char>>::empty());
        assert(b@.meaning =~= Set::<Seq<char>>::empty());
        b
    }

    /// The key.
    pub fn key(&self) -> (key: &Option<String>)
        ensures
            key_view(*key) == self@.key,
    {
        &self.key
    }

    /// The tags, in ascending order.
    pub fn tags(&self) -> (tags: &Vec<(String, String)>)
        ensures
            pairs_view(tags@) == self@.tags,
            sorted(pairs_view(tags@)),
    {
        proof {
            use_type_invariant(self);
        }
        &self.tags
    }

    /// The resource pairs, in the order in which they were added.
    pub fn resource(&self) -> (resource: &Vec<(String, String)>)
        ensures
            pairs_view(resource@) == self@.resource,
    {
        &self.resource
    }

    /// The names of the tags that identify the series.
    pub fn identity(&self) -> (names: &Vec<String>)
        ensures
            names_of(names@) == self@.identity,
    {
        &self.identity
    }

    /// The names of the tags that say what the series means.
    pub fn meaning(&self) -> (names: &Vec<String>)
        ensures
            names_of(names@) == self@.meaning,
    {
        &self.meaning
    }

    /// Whether the two ids name the same series.
    pub fn same_series(&self, other: &MetricId) -> (same: bool)
        ensures
            same == self@.same_series(other@),
    {
        same_key(&self.key, &other.key) && same_pairs(&self.tags, &other.tags)
    }

    /// The id written out for a person to read: what `format!` makes of
    /// the key, the tags and the resource pairs, each as `std::fmt::Debug`
    /// shows it. Nothing is claimed of the text.
    #[verifier::external_body]
    pub fn to_string(&self) -> (text: String) {
        format!("{:?} {:?} {:?}", self.key, self.tags, self.resource)
    }
}

impl Clone for MetricIdBuilder {
    fn clone(&self) -> (copy: MetricIdBuilder)
        ensures
            copy@ == self@,
    {
        proof {
            use_type_invariant(self);
        }
        MetricIdBuilder {
            key: copy_key(&self.key),
            tags: copy_pairs(&self.tags),
            resource: copy_pairs(&self.resource),
            identity: copy_names(&self.identity),
            meaning: copy_names(&self.meaning),
        }
    }
}

impl Clone for MetricId {
    fn clone(&self) -> (copy: MetricId)
        ensures
            copy@ == self@,
    {
        proof {
            use_type_invariant(self);
        }
        MetricId {
            key: copy_key(&self.key),
            tags: copy_pairs(&self.tags),
            resource: copy_pairs(&self.resource),
            identity: copy_names(&self.identity),
            meaning: copy_names(&self.meaning),
        }
    }
}

impl PartialEq for MetricId {
    fn eq(&self, other: &MetricId) -> (same: bool) {
        self.same_series(other)
    }
}

impl Eq for MetricId {

}

impl PartialEqSpecImpl for MetricId {
    open spec fn obeys_eq_spec() -> bool {
        true
    }

    open spec fn eq_spec(&self, other: &MetricId) -> bool {
        self@.same_series(other@)
    }
}

impl Hash for MetricId {
    /// Feeds the key and the tags to `std::hash::Hash::hash`, and no other
    /// field: the two that equality reads. Nothing is claimed of what the
    /// hasher makes of them.
    #[verifier::external_body]
    fn hash<H: Hasher>(&self, state: &mut H) {
        (&self.key, &self.tags).hash(state)
    }
}

} // verus!
