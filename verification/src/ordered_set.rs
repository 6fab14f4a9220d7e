//! A set that keeps its members in ascending order.

use vstd::prelude::*;
use crate::order::Key;
use crate::ordered_map::is_listing;
use crate::ordered_map::OrderedMap;

verus! {

/// Says that `s` lists the members of `set`: every member once, ascending.
pub open spec fn lists_members<K: Key>(s: Seq<K::V>, set: Set<K::V>) -> bool {
    &&& forall|i: int, j: int| 0 <= i < j < s.len() ==> K::precedes(#[trigger] s[i], #[trigger] s[j])
    &&& forall|i: int| 0 <= i < s.len() ==> set.contains(#[trigger] s[i])
    &&& forall|member: K::V| set.contains(member) ==> exists|i: int| 0 <= i < s.len() && #[trigger] s[i] == member
}

/// The views of a list of keys.
pub open spec fn key_views<K: Key>(list: Seq<K>) -> Seq<K::V> {
    list.map_values(|key: K| key@)
}

/// A finite set of keys of type `K`, kept in the order of `K::precedes`.
pub struct OrderedSet<K: Key> {
    members: OrderedMap<K, ()>,
}

impl<K: Key> View for OrderedSet<K> {
    type V = Set<K::V>;

    closed spec fn view(&self) -> Set<K::V> {
        self.members@.dom()
    }
}

impl<K: Key> OrderedSet<K> {
    /// The empty set.
    pub fn new() -> (set: Self)
        ensures
            set@ == Set::<K::V>::empty(),
    {
        let set = OrderedSet { members: OrderedMap::new() };
        assert(set@ =~= Set::<K::V>::empty());
        set
    }

    /// The number of members.
    pub fn len(&self) -> (n: usize)
        ensures
            self@.finite(),
            n == self@.len(),
    {
        self.members.len()
    }

    /// Whether `member` is in the set.
    pub fn contains(&self, member: &K) -> (found: bool)
        ensures
            found == self@.contains(member@),
    {
        self.members.contains_key(member)
    }

    /// Adds `member`; says whether it was new.
    pub fn insert(&mut self, member: K) -> (added: bool)
        ensures
            final(self)@ == old(self)@.insert(member@),
            added == !old(self)@.contains(member@),
    {
        let added = !self.members.contains_key(&member);
        self.members.insert(member, ());
        assert(self@ =~= old(self)@.insert(member@));
        added
    }

    /// Takes `member` out; says whether it was in the set.
    pub fn remove(&mut self, member: &K) -> (removed: bool)
        ensures
            final(self)@ == old(self)@.remove(member@),
            removed == old(self)@.contains(member@),
    {
        let removed = self.members.remove(member).is_some();
        assert(self@ =~= old(self)@.remove(member@));
        removed
    }

    /// The members in ascending order.
    pub fn to_vec(&self) -> (list: Vec<K>)
        ensures
            lists_members::<K>(key_views(list@), self@),
    {
        let n = self.members.len();
        let mut list: Vec<K> = Vec::new();
        let mut i: usize = 0;
        while i < n
            invariant
                i <= n,
                n == self.members.listing().len(),
                list@.len() == i,
                forall|j: int| 0 <= j < i ==> (#[trigger] list@[j])@ == self.members.listing()[j].0,
            decreases n - i,
        {
            list.push(self.members.key_at(i).duplicate());
            i += 1;
        }
        proof {
            let s = key_views(list@);
            let l = self.members.listing();
            assert(is_listing::<K, ()>(l, self.members@));
            assert forall|j: int| 0 <= j < s.len() implies #[trigger] s[j] == l[j].0 by {
                assert(s[j] == list@[j]@);
            }
            assert forall|a: int, b: int| 0 <= a < b < s.len() implies K::precedes(
                #[trigger] s[a],
                #[trigger] s[b],
            ) by {
                assert(K::precedes(l[a].0, l[b].0));
            }
            assert forall|j: int| 0 <= j < s.len() implies self@.contains(#[trigger] s[j]) by {
                assert(self.members@.contains_pair(l[j].0, l[j].1));
            }
            assert forall|p: K::V| self@.contains(p) implies exists|j: int|
                0 <= j < s.len() && #[trigger] s[j] == p by {
                let j = choose|j: int| 0 <= j < l.len() && #[trigger] l[j].0 == p;
                assert(s[j] == p);
            }
        }
        list
    }
}

} // verus!
