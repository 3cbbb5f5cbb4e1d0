//! The variable store: a mapping from names to typed values in which a later
//! value for a name replaces the earlier one.
use crate::value::{ValueView, VxdValue};
use vstd::hash_map::StringHashMap;
use vstd::prelude::*;

verus! {

/// The names `names` as mathematical values, in order.
spec fn names_of(names: Seq<String>) -> Seq<Seq<char>> {
    names.map_values(|name: String| name@)
}

/// The list of names holds every key of the table once, and nothing else.
spec fn lists_keys(names: Seq<String>, table: Map<Seq<char>, VxdValue>) -> bool {
    &&& names_of(names).no_duplicates()
    &&& forall|key: Seq<char>| #[trigger]
        table.contains_key(key) <==> names_of(names).contains(key)
}

/// The table as a mapping from names to mathematical values.
spec fn values_of(table: Map<Seq<char>, VxdValue>) -> Map<Seq<char>, ValueView> {
    table.map_values(|value: VxdValue| value@)
}

/// The entries list the mapping `store`: every name of the mapping once, each
/// with its value, and nothing else.
pub open spec fn lists(entries: Seq<(String, VxdValue)>, store: Map<Seq<char>, ValueView>) -> bool {
    &&& forall|i: int, j: int|
        0 <= i < j < entries.len() ==> (#[trigger] entries[i]).0@ != (#[trigger] entries[j]).0@
    &&& forall|i: int|
        0 <= i < entries.len() ==> store.contains_key((#[trigger] entries[i]).0@)
            && store[entries[i].0@] == entries[i].1@
    &&& forall|key: Seq<char>| #[trigger]
        store.contains_key(key) ==> exists|i: int|
            0 <= i < entries.len() && (#[trigger] entries[i]).0@ == key
}

/// A mapping from names to typed values.
///
/// Each name has at most one value, and the names stand in no order. Beside
/// the table the store keeps a list of its names, from which `snapshot` goes
/// through the entries.
pub struct VariableStore {
    names: Vec<String>,
    table: StringHashMap<VxdValue>,
}

impl View for VariableStore {
    type V = Map<Seq<char>, ValueView>;

    closed spec fn view(&self) -> Map<Seq<char>, ValueView> {
        values_of(self.table@)
    }
}

/// Puts `value` under `name`, and lists the name if it is new.
fn put(names: &mut Vec<String>, table: &mut StringHashMap<VxdValue>, name: String, value: VxdValue)
    requires
        lists_keys(old(names)@, old(table)@),
    ensures
        lists_keys(final(names)@, final(table)@),
        final(table)@ == old(table)@.insert(name@, value),
{
    if !table.contains_key(name.as_str()) {
        let listed = name.clone();
        proof {
            let before = names_of(names@);
            assert(names_of(names@.push(listed)) =~= before.push(name@));
            assert(!before.contains(name@));
            assert forall|key: Seq<char>|
                before.push(name@).contains(key) <==> (before.contains(key) || key == name@) by {
                if before.contains(key) {
                    let i = choose|i: int| 0 <= i < before.len() && before[i] == key;
                    assert(before.push(name@)[i] == key);
                }
                if key == name@ {
                    assert(before.push(name@)[before.len() as int] == key);
                }
            }
        }
        names.push(listed);
    }
    table.insert(name, value);
}

impl VariableStore {
    #[verifier::type_invariant]
    spec fn well_formed(&self) -> bool {
        lists_keys(self.names@, self.table@)
    }

    /// The empty store.
    pub fn new() -> (r: Self)
        ensures
            r@ == Map::<Seq<char>, ValueView>::empty(),
    {
        let r = VariableStore { names: Vec::new(), table: StringHashMap::new() };
        assert(r@ =~= Map::<Seq<char>, ValueView>::empty());
        r
    }

    /// Gives `name` the value `value`, in place of any value it had.
    pub fn insert(&mut self, name: String, value: VxdValue)
        ensures
            final(self)@ == old(self)@.insert(name@, value@),
    {
        let mut held = VariableStore::new();
        core::mem::swap(self, &mut held);
        proof {
            use_type_invariant(&held);
        }
        let VariableStore { mut names, mut table } = held;
        put(&mut names, &mut table, name, value);
        *self = VariableStore { names, table };
        assert(self@ =~= old(self)@.insert(name@, value@));
    }

    /// The value of `name`, if it has one.
    pub fn get(&self, name: &str) -> (r: Option<&VxdValue>)
        ensures
            match r {
                Some(value) => self@.contains_key(name@) && self@[name@] == value@,
                None => !self@.contains_key(name@),
            },
    {
        self.table.get(name)
    }

    /// Tells whether `name` has a value.
    pub fn contains_key(&self, name: &str) -> (r: bool)
        ensures
            r == self@.contains_key(name@),
    {
        self.table.contains_key(name)
    }

    /// The number of names that have a value.
    pub fn len(&self) -> (r: usize)
        ensures
            self@.dom().finite(),
            r == self@.len(),
    {
        proof {
            use_type_invariant(self);
            self.lemma_count();
        }
        self.names.len()
    }

    /// The list of names is as long as the mapping is large.
    proof fn lemma_count(&self)
        requires
            lists_keys(self.names@, self.table@),
        ensures
            self@.dom().finite(),
            self.names@.len() == self@.len(),
    {
        let listed = names_of(self.names@);
        assert(self@.dom() =~= listed.to_set());
        vstd::seq_lib::seq_to_set_is_finite(listed);
        listed.unique_seq_to_set();
    }

    /// Tells whether no name has a value.
    pub fn is_empty(&self) -> (r: bool)
        ensures
            r == (self@ == Map::<Seq<char>, ValueView>::empty()),
    {
        proof {
            use_type_invariant(self);
            let listed = names_of(self.names@);
            if listed.len() > 0 {
                assert(listed.contains(listed[0]));
                assert(self@.contains_key(listed[0]));
            } else {
                assert(self@ =~= Map::<Seq<char>, ValueView>::empty());
            }
        }
        self.names.len() == 0
    }

    /// The whole mapping as a list: every name once, with a copy of its value.
    pub fn snapshot(&self) -> (r: Vec<(String, VxdValue)>)
        ensures
            lists(r@, self@),
            r@.len() == self@.len(),
    {
        let count: usize = self.names.len();
        let mut entries: Vec<(String, VxdValue)> = Vec::new();
        let mut i: usize = 0;
        proof {
            use_type_invariant(self);
            self.lemma_count();
        }
        while i < count
            invariant
                i <= count == self.names@.len(),
                lists_keys(self.names@, self.table@),
                entries@.len() == i,
                forall|k: int|
                    0 <= k < i ==> (#[trigger] entries@[k]).0@ == self.names@[k]@
                        && entries@[k].1@ == self@[self.names@[k]@],
            decreases count - i,
        {
            let name: &String = &self.names[i];
            assert(names_of(self.names@)[i as int] == name@);
            assert(names_of(self.names@).contains(name@));
            if let Some(value) = self.table.get(name.as_str()) {
                entries.push((name.clone(), value.clone()));
            }
            i += 1;
        }
        proof {
            let listed = names_of(self.names@);
            assert forall|key: Seq<char>| #[trigger] self@.contains_key(key) implies exists|k: int|
                0 <= k < entries@.len() && (#[trigger] entries@[k]).0@ == key by {
                let k = choose|k: int| 0 <= k < listed.len() && listed[k] == key;
                assert(entries@[k].0@ == key);
            }
            assert forall|k: int| 0 <= k < entries@.len() implies self@.contains_key(
                (#[trigger] entries@[k]).0@,
            ) by {
                assert(listed[k] == entries@[k].0@);
                assert(listed.contains(entries@[k].0@));
            }
            assert forall|k: int, j: int| 0 <= k < j < entries@.len() implies (
            #[trigger] entries@[k]).0@ != (#[trigger] entries@[j]).0@ by {
                assert(listed[k] == entries@[k].0@);
                assert(listed[j] == entries@[j].0@);
            }
        }
        entries
    }
}

} // verus!
