//! Lists of values under names.

use crate::sort::views;
use crate::text::owned;
use vstd::hash_map::StringHashMap;
use vstd::prelude::*;

verus! {

/// Lists of values, each under a name, with the values in the order in which
/// they were put.
#[verifier::reject_recursive_types(T)]
pub struct Table<T> {
    slots: StringHashMap<usize>,
    lists: Vec<Vec<T>>,
}

/// What a [`Table`] stands for.
pub type TableModel<V> = Map<Seq<char>, Seq<V>>;

/// A table with one value more under a name.
pub open spec fn put_under<K, V>(m: Map<K, Seq<V>>, key: K, value: V) -> Map<K, Seq<V>> {
    m.insert(key, listed_under(m, key).push(value))
}

/// The values under a name; none where the name is unknown.
pub open spec fn listed_under<K, V>(m: Map<K, Seq<V>>, key: K) -> Seq<V> {
    if m.contains_key(key) {
        m[key]
    } else {
        seq![]
    }
}

impl<T> Table<T> {
    /// Every name has a list of its own.
    #[verifier::type_invariant]
    spec fn has_own_lists(self) -> bool {
        &&& forall|k: Seq<char>|
            self.slots@.contains_key(k) ==> (#[trigger] self.slots@[k]) < self.lists@.len()
        &&& forall|a: Seq<char>, b: Seq<char>|
            self.slots@.contains_key(a) && self.slots@.contains_key(b) && (#[trigger] self.slots@[a])
                == (#[trigger] self.slots@[b]) ==> a == b
    }
}

impl<T: View> View for Table<T> {
    type V = TableModel<T::V>;

    closed spec fn view(&self) -> TableModel<T::V> {
        Map::new(
            |k: Seq<char>| self.slots@.contains_key(k),
            |k: Seq<char>| views(self.lists@[self.slots@[k] as int]@),
        )
    }
}

impl<T: View> Table<T> {
    /// A table without names.
    pub fn new() -> (r: Self)
        ensures
            r@ == Map::<Seq<char>, Seq<T::V>>::empty(),
    {
        let r = Table { slots: StringHashMap::new(), lists: Vec::new() };
        assert(r@ =~= Map::<Seq<char>, Seq<T::V>>::empty());
        r
    }

    /// The values under a name.
    pub fn get(&self, key: &str) -> (r: Option<&Vec<T>>)
        ensures
            match r {
                Some(v) => self@.contains_key(key@) && views(v@) == self@[key@],
                None => !self@.contains_key(key@),
            },
    {
        proof {
            use_type_invariant(self);
        }
        match self.slots.get(key) {
            Some(i) => Some(&self.lists[*i]),
            None => None,
        }
    }

    /// Puts a value under a name, behind those that are there.
    pub fn push(&mut self, key: &str, value: T)
        ensures
            final(self)@ == put_under(old(self)@, key@, value@),
    {
        let mut taken: Table<T> = Table::new();
        core::mem::swap(self, &mut taken);
        proof {
            use_type_invariant(&taken);
        }
        let ghost before = taken@;
        let Table { mut slots, mut lists } = taken;
        let ghost had = lists@;
        let found: Option<usize> = match slots.get(key) {
            Some(i) => Some(*i),
            None => None,
        };
        match found {
            Some(i) => {
                let mut list: Vec<T> = Vec::new();
                core::mem::swap(&mut lists[i], &mut list);
                let ghost values = list@;
                list.push(value);
                assert(views(list@) =~= views(values).push(value@));
                core::mem::swap(&mut lists[i], &mut list);
                assert(lists@ =~= had.update(i as int, lists@[i as int]));
            },
            None => {
                let mut list: Vec<T> = Vec::new();
                list.push(value);
                assert(views(list@) =~= Seq::<T::V>::empty().push(value@));
                slots.insert(owned(key), lists.len());
                lists.push(list);
            },
        }
        *self = Table { slots, lists };
        assert(self@ =~= put_under(before, key@, value@));
    }
}

} // verus!
