//! A map that keeps its entries in ascending key order.
//!
//! The map is viewed as a mathematical `Map` from key views to value views.
//! Its listing, the sequence in which the entries are handed out, is the one
//! sequence that holds every entry once and in ascending key order.

use vstd::prelude::*;
use crate::order::Key;
use crate::order::Rank;

verus! {

struct Entry<K, V> {
    key: K,
    value: V,
}

/// A finite map with keys of type `K`, kept in the order of `K::precedes`.
pub struct OrderedMap<K: Key, V: View> {
    entries: Vec<Entry<K, V>>,
}

/// Says that `s` lists the entries of `m`: every entry once, keys ascending.
pub open spec fn is_listing<K: Key, W>(s: Seq<(K::V, W)>, m: Map<K::V, W>) -> bool {
    &&& forall|i: int, j: int| 0 <= i < j < s.len() ==> K::precedes(#[trigger] s[i].0, #[trigger] s[j].0)
    &&& forall|i: int| 0 <= i < s.len() ==> m.contains_pair(#[trigger] s[i].0, s[i].1)
    &&& forall|k: K::V| m.dom().contains(k) ==> exists|i: int| 0 <= i < s.len() && #[trigger] s[i].0 == k
}

/// A strictly increasing function on the first `n` numbers that takes no
/// negative value is at least the identity.
proof fn lemma_increasing_at_least(f: spec_fn(int) -> int, n: int, i: int)
    requires
        0 <= i < n,
        forall|x: int| 0 <= x < n ==> 0 <= #[trigger] f(x),
        forall|x: int, y: int| 0 <= x < y < n ==> #[trigger] f(x) < #[trigger] f(y),
    ensures
        f(i) >= i,
    decreases i,
{
    if i > 0 {
        lemma_increasing_at_least(f, n, i - 1);
        assert(f(i - 1) < f(i));
    }
}

/// Where the keys of `a` all occur in `b`, and both ascend, each key of `a`
/// stands in `b` at the same place or later.
proof fn lemma_listing_embeds<K: Key, W>(a: Seq<(K::V, W)>, b: Seq<(K::V, W)>, m: Map<K::V, W>, i: int)
    requires
        is_listing::<K, W>(a, m),
        is_listing::<K, W>(b, m),
        0 <= i < a.len(),
    ensures
        exists|j: int| i <= j < b.len() && #[trigger] b[j].0 == a[i].0,
{
    let f = |x: int| choose|j: int| 0 <= j < b.len() && #[trigger] b[j].0 == a[x].0;
    assert forall|x: int| 0 <= x < a.len() implies 0 <= #[trigger] f(x) < b.len() && b[f(x)].0 == a[x].0 by {
        assert(m.contains_pair(a[x].0, a[x].1));
    }
    assert forall|x: int, y: int| 0 <= x < y < a.len() implies #[trigger] f(x) < #[trigger] f(y) by {
        assert(m.contains_pair(a[x].0, a[x].1));
        assert(m.contains_pair(a[y].0, a[y].1));
        assert(K::precedes(a[x].0, a[y].0));
        K::lemma_irreflexive(a[x].0);
        if f(y) < f(x) {
            assert(K::precedes(b[f(y)].0, b[f(x)].0));
            K::lemma_transitive(a[x].0, a[y].0, a[x].0);
        }
    }
    lemma_increasing_at_least(f, a.len() as int, i);
    assert(m.contains_pair(a[i].0, a[i].1));
    assert(b[f(i)].0 == a[i].0);
}

/// A map has one listing: what a listing holds, and in which order, is
/// determined by the map.
pub proof fn lemma_listing_unique<K: Key, W>(a: Seq<(K::V, W)>, b: Seq<(K::V, W)>, m: Map<K::V, W>)
    requires
        is_listing::<K, W>(a, m),
        is_listing::<K, W>(b, m),
    ensures
        a == b,
{
    if a.len() > 0 {
        lemma_listing_embeds::<K, W>(a, b, m, a.len() - 1);
    }
    if b.len() > 0 {
        lemma_listing_embeds::<K, W>(b, a, m, b.len() - 1);
    }
    assert(a.len() == b.len());
    assert forall|i: int| 0 <= i < a.len() implies a[i] == b[i] by {
        lemma_listing_embeds::<K, W>(a, b, m, i);
        lemma_listing_embeds::<K, W>(b, a, m, i);
        let j = choose|j: int| i <= j < b.len() && #[trigger] b[j].0 == a[i].0;
        let k = choose|k: int| i <= k < a.len() && #[trigger] a[k].0 == b[i].0;
        K::lemma_irreflexive(a[i].0);
        if j > i {
            assert(K::precedes(b[i].0, b[j].0));
            if k > i {
                assert(K::precedes(a[i].0, a[k].0));
                K::lemma_transitive(a[i].0, b[i].0, a[i].0);
            }
        }
        assert(a[i].0 == b[i].0);
        assert(m.contains_pair(a[i].0, a[i].1));
        assert(m.contains_pair(b[i].0, b[i].1));
    }
    assert(a =~= b);
}

spec fn ascending<K: Key, V: View>(es: Seq<Entry<K, V>>) -> bool {
    forall|i: int, j: int| 0 <= i < j < es.len() ==> K::precedes(#[trigger] es[i].key@, #[trigger] es[j].key@)
}

spec fn holds<K: Key, V: View>(es: Seq<Entry<K, V>>, k: K::V) -> bool {
    exists|i: int| 0 <= i < es.len() && #[trigger] es[i].key@ == k
}

spec fn place<K: Key, V: View>(es: Seq<Entry<K, V>>, k: K::V) -> int {
    choose|i: int| 0 <= i < es.len() && #[trigger] es[i].key@ == k
}

spec fn model<K: Key, V: View>(es: Seq<Entry<K, V>>) -> Map<K::V, V::V> {
    Map::new(|k: K::V| holds(es, k), |k: K::V| es[place(es, k)].value@)
}

spec fn pairs<K: Key, V: View>(es: Seq<Entry<K, V>>) -> Seq<(K::V, V::V)> {
    Seq::new(es.len(), |i: int| (es[i].key@, es[i].value@))
}

/// In an ascending sequence a key stands at one place only.
proof fn lemma_place<K: Key, V: View>(es: Seq<Entry<K, V>>, i: int)
    requires
        ascending(es),
        0 <= i < es.len(),
    ensures
        holds(es, es[i].key@),
        place(es, es[i].key@) == i,
        model(es).dom().contains(es[i].key@),
        model(es)[es[i].key@] == es[i].value@,
{
    let k = es[i].key@;
    assert(es[i].key@ == k);
    let j = place(es, k);
    K::lemma_irreflexive(k);
    if j < i {
        assert(K::precedes(es[j].key@, es[i].key@));
    } else if i < j {
        assert(K::precedes(es[i].key@, es[j].key@));
    }
}

/// A key that stands between its neighbours is not in the sequence.
proof fn lemma_absent<K: Key, V: View>(es: Seq<Entry<K, V>>, k: K::V, p: int)
    requires
        0 <= p <= es.len(),
        forall|i: int| 0 <= i < p ==> K::precedes(#[trigger] es[i].key@, k),
        forall|i: int| p <= i < es.len() ==> K::precedes(k, #[trigger] es[i].key@),
    ensures
        !holds(es, k),
        !model(es).dom().contains(k),
{
    K::lemma_irreflexive(k);
    if holds(es, k) {
        let j = place(es, k);
        assert(es[j].key@ == k);
    }
}

proof fn lemma_model_insert<K: Key, V: View>(es: Seq<Entry<K, V>>, e: Entry<K, V>, p: int)
    requires
        ascending(es),
        0 <= p <= es.len(),
        forall|i: int| 0 <= i < p ==> K::precedes(#[trigger] es[i].key@, e.key@),
        forall|i: int| p <= i < es.len() ==> K::precedes(e.key@, #[trigger] es[i].key@),
    ensures
        ascending(es.insert(p, e)),
        model(es.insert(p, e)) == model(es).insert(e.key@, e.value@),
{
    let fs = es.insert(p, e);
    assert forall|i: int, j: int| 0 <= i < j < fs.len() implies K::precedes(
        #[trigger] fs[i].key@,
        #[trigger] fs[j].key@,
    ) by {
        if j < p {
            assert(K::precedes(es[i].key@, es[j].key@));
        } else if j == p {
            assert(K::precedes(es[i].key@, e.key@));
        } else if i < p {
            assert(K::precedes(es[i].key@, es[j - 1].key@));
        } else if i == p {
            assert(K::precedes(e.key@, es[j - 1].key@));
        } else {
            assert(K::precedes(es[i - 1].key@, es[j - 1].key@));
        }
    }
    let want = model(es).insert(e.key@, e.value@);
    assert forall|k: K::V| model(fs).dom().contains(k) <==> want.dom().contains(k) by {
        if holds(fs, k) {
            let j = place(fs, k);
            if j < p {
                assert(es[j].key@ == k);
            } else if j > p {
                assert(es[j - 1].key@ == k);
            }
        }
        if holds(es, k) {
            let j = place(es, k);
            if j < p {
                assert(fs[j].key@ == k);
            } else {
                assert(fs[j + 1].key@ == k);
            }
        }
        if k == e.key@ {
            assert(fs[p].key@ == k);
        }
    }
    assert forall|k: K::V| model(fs).dom().contains(k) implies model(fs)[k] == want[k] by {
        let j = place(fs, k);
        lemma_place(fs, j);
        if j < p {
            lemma_place(es, j);
            K::lemma_irreflexive(k);
        } else if j > p {
            lemma_place(es, j - 1);
            K::lemma_irreflexive(k);
        }
    }
    assert(model(fs) =~= want);
}

proof fn lemma_model_update<K: Key, V: View>(es: Seq<Entry<K, V>>, e: Entry<K, V>, p: int)
    requires
        ascending(es),
        0 <= p < es.len(),
        es[p].key@ == e.key@,
    ensures
        ascending(es.update(p, e)),
        model(es.update(p, e)) == model(es).insert(e.key@, e.value@),
{
    let fs = es.update(p, e);
    assert forall|i: int, j: int| 0 <= i < j < fs.len() implies K::precedes(
        #[trigger] fs[i].key@,
        #[trigger] fs[j].key@,
    ) by {
        assert(K::precedes(es[i].key@, es[j].key@));
    }
    let want = model(es).insert(e.key@, e.value@);
    assert forall|k: K::V| model(fs).dom().contains(k) <==> want.dom().contains(k) by {
        if holds(fs, k) {
            let j = place(fs, k);
            assert(es[j].key@ == k);
        }
        if holds(es, k) {
            let j = place(es, k);
            assert(fs[j].key@ == k);
        }
        if k == e.key@ {
            assert(fs[p].key@ == k);
        }
    }
    assert forall|k: K::V| model(fs).dom().contains(k) implies model(fs)[k] == want[k] by {
        let j = place(fs, k);
        lemma_place(fs, j);
        lemma_place(es, j);
        lemma_place(es, p);
    }
    assert(model(fs) =~= want);
}

proof fn lemma_model_remove<K: Key, V: View>(es: Seq<Entry<K, V>>, p: int)
    requires
        ascending(es),
        0 <= p < es.len(),
    ensures
        ascending(es.remove(p)),
        model(es.remove(p)) == model(es).remove(es[p].key@),
{
    let fs = es.remove(p);
    let gone = es[p].key@;
    assert forall|i: int, j: int| 0 <= i < j < fs.len() implies K::precedes(
        #[trigger] fs[i].key@,
        #[trigger] fs[j].key@,
    ) by {
        let a = if i < p { i } else { i + 1 };
        let b = if j < p { j } else { j + 1 };
        assert(K::precedes(es[a].key@, es[b].key@));
    }
    let want = model(es).remove(gone);
    assert forall|k: K::V| model(fs).dom().contains(k) <==> want.dom().contains(k) by {
        if holds(fs, k) {
            let j = place(fs, k);
            let a = if j < p { j } else { j + 1 };
            assert(es[a].key@ == k);
            lemma_place(es, a);
            lemma_place(es, p);
        }
        if holds(es, k) && k != gone {
            let j = place(es, k);
            if j < p {
                assert(fs[j].key@ == k);
            } else {
                assert(fs[j - 1].key@ == k);
            }
        }
    }
    assert forall|k: K::V| model(fs).dom().contains(k) implies model(fs)[k] == want[k] by {
        let j = place(fs, k);
        lemma_place(fs, j);
        let a = if j < p { j } else { j + 1 };
        lemma_place(es, a);
        lemma_place(es, p);
    }
    assert(model(fs) =~= want);
}

proof fn lemma_pairs_list_model<K: Key, V: View>(es: Seq<Entry<K, V>>)
    requires
        ascending(es),
    ensures
        is_listing::<K, V::V>(pairs(es), model(es)),
        model(es).dom().finite(),
        model(es).dom().len() == es.len(),
{
    let s = pairs(es);
    let m = model(es);
    assert forall|i: int, j: int| 0 <= i < j < s.len() implies K::precedes(
        #[trigger] s[i].0,
        #[trigger] s[j].0,
    ) by {
        assert(K::precedes(es[i].key@, es[j].key@));
    }
    assert forall|i: int| 0 <= i < s.len() implies m.contains_pair(#[trigger] s[i].0, s[i].1) by {
        lemma_place(es, i);
    }
    assert forall|k: K::V| m.dom().contains(k) implies exists|i: int|
        0 <= i < s.len() && #[trigger] s[i].0 == k by {
        let j = place(es, k);
        assert(s[j].0 == k);
    }
    let ks = Seq::new(es.len(), |i: int| es[i].key@);
    assert forall|i: int, j: int| 0 <= i < ks.len() && 0 <= j < ks.len() && i != j implies ks[i]
        != ks[j] by {
        K::lemma_irreflexive(ks[i]);
        if i < j {
            assert(K::precedes(es[i].key@, es[j].key@));
        } else {
            assert(K::precedes(es[j].key@, es[i].key@));
        }
    }
    assert(ks.no_duplicates());
    ks.unique_seq_to_set();
    assert forall|k: K::V| ks.to_set().contains(k) <==> m.dom().contains(k) by {
        if ks.contains(k) {
            let j = choose|j: int| 0 <= j < ks.len() && ks[j] == k;
            assert(es[j].key@ == k);
        }
        if holds(es, k) {
            let j = place(es, k);
            assert(ks[j] == k);
        }
    }
    assert(ks.to_set() =~= m.dom());
}

impl<K: Key, V: View> View for OrderedMap<K, V> {
    type V = Map<K::V, V::V>;

    closed spec fn view(&self) -> Map<K::V, V::V> {
        model(self.entries@)
    }
}

impl<K: Key, V: View> OrderedMap<K, V> {
    #[verifier::type_invariant]
    spec fn well_ordered(self) -> bool {
        ascending(self.entries@)
    }

    /// The entries in the order in which they are handed out.
    pub closed spec fn listing(&self) -> Seq<(K::V, V::V)> {
        pairs(self.entries@)
    }

    /// An empty map.
    pub fn new() -> (m: Self)
        ensures
            m@ == Map::<K::V, V::V>::empty(),
            m.listing().len() == 0,
    {
        let m = OrderedMap { entries: Vec::new() };
        assert(m@ =~= Map::<K::V, V::V>::empty());
        m
    }

    /// The number of entries; states what the listing is.
    pub fn len(&self) -> (n: usize)
        ensures
            n == self.listing().len(),
            n == self@.dom().len(),
            self@.dom().finite(),
            is_listing::<K, V::V>(self.listing(), self@),
    {
        proof {
            use_type_invariant(self);
            lemma_pairs_list_model(self.entries@);
        }
        self.entries.len()
    }

    /// The key of the entry at place `i` of the listing.
    pub fn key_at(&self, i: usize) -> (key: &K)
        requires
            i < self.listing().len(),
        ensures
            key@ == self.listing()[i as int].0,
    {
        &self.entries[i].key
    }

    /// The value of the entry at place `i` of the listing.
    pub fn value_at(&self, i: usize) -> (value: &V)
        requires
            i < self.listing().len(),
        ensures
            value@ == self.listing()[i as int].1,
    {
        &self.entries[i].value
    }

    /// Finds where `key` stands, or where it would have to be put.
    fn locate(&self, key: &K) -> (r: (bool, usize))
        ensures
            r.1 <= self.entries.len(),
            r.0 ==> r.1 < self.entries.len() && self.entries[r.1 as int].key@ == key@,
            !r.0 ==> forall|i: int| 0 <= i < r.1 ==> K::precedes(#[trigger] self.entries[i].key@, key@),
            !r.0 ==> forall|i: int|
                r.1 <= i < self.entries.len() ==> K::precedes(key@, #[trigger] self.entries[i].key@),
    {
        proof {
            use_type_invariant(self);
        }
        let mut i: usize = 0;
        while i < self.entries.len()
            invariant
                i <= self.entries.len(),
                ascending(self.entries@),
                forall|j: int| 0 <= j < i ==> K::precedes(#[trigger] self.entries[j].key@, key@),
            decreases self.entries.len() - i,
        {
            match self.entries[i].key.rank(key) {
                Rank::Before => {},
                Rank::Same => {
                    return (true, i);
                },
                Rank::After => {
                    assert forall|j: int| i <= j < self.entries.len() implies K::precedes(
                        key@,
                        #[trigger] self.entries[j].key@,
                    ) by {
                        if i < j {
                            assert(K::precedes(self.entries[i as int].key@, self.entries[j].key@));
                            K::lemma_transitive(key@, self.entries[i as int].key@, self.entries[j].key@);
                        }
                    }
                    return (false, i);
                },
            }
            i += 1;
        }
        (false, i)
    }

    /// Whether the map holds `key`.
    pub fn contains_key(&self, key: &K) -> (found: bool)
        ensures
            found == self@.dom().contains(key@),
    {
        let (found, p) = self.locate(key);
        proof {
            use_type_invariant(self);
            if found {
                lemma_place(self.entries@, p as int);
            } else {
                lemma_absent(self.entries@, key@, p as int);
            }
        }
        found
    }

    /// The value stored under `key`, if there is one.
    pub fn get(&self, key: &K) -> (value: Option<&V>)
        ensures
            value is Some <==> self@.dom().contains(key@),
            value matches Some(v) ==> v@ == self@[key@],
    {
        let (found, p) = self.locate(key);
        proof {
            use_type_invariant(self);
            if found {
                lemma_place(self.entries@, p as int);
            } else {
                lemma_absent(self.entries@, key@, p as int);
            }
        }
        if found {
            Some(&self.entries[p].value)
        } else {
            None
        }
    }

    /// Stores `value` under `key`, in place of what was there.
    pub fn insert(&mut self, key: K, value: V)
        ensures
            final(self)@ == old(self)@.insert(key@, value@),
    {
        let (found, p) = self.locate(&key);
        let entry = Entry { key, value };
        proof {
            use_type_invariant(&*self);
            if found {
                lemma_model_update(self.entries@, entry, p as int);
            } else {
                lemma_model_insert(self.entries@, entry, p as int);
            }
        }
        let mut entries: Vec<Entry<K, V>> = Vec::new();
        std::mem::swap(&mut self.entries, &mut entries);
        if found {
            entries.set(p, entry);
        } else {
            entries.insert(p, entry);
        }
        self.entries = entries;
    }

    /// Takes out the entry under `key` and hands back its value.
    pub fn remove(&mut self, key: &K) -> (value: Option<V>)
        ensures
            final(self)@ == old(self)@.remove(key@),
            value is Some <==> old(self)@.dom().contains(key@),
            value matches Some(v) ==> v@ == old(self)@[key@],
    {
        let (found, p) = self.locate(key);
        proof {
            use_type_invariant(&*self);
            if found {
                lemma_place(self.entries@, p as int);
                lemma_model_remove(self.entries@, p as int);
            } else {
                lemma_absent(self.entries@, key@, p as int);
                assert(self@ =~= self@.remove(key@));
            }
        }
        if found {
            let mut entries: Vec<Entry<K, V>> = Vec::new();
            std::mem::swap(&mut self.entries, &mut entries);
            let entry = entries.remove(p);
            self.entries = entries;
            Some(entry.value)
        } else {
            None
        }
    }

    /// Takes out every entry.
    pub fn clear(&mut self)
        ensures
            final(self)@ == Map::<K::V, V::V>::empty(),
    {
        self.entries = Vec::new();
        assert(self@ =~= Map::<K::V, V::V>::empty());
    }
}

} // verus!
