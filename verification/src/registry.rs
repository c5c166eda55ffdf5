//! A registry of values keyed by peer, one value per key: the in-memory
//! wire's channels, the browser carrier's data channels.

use vstd::prelude::*;
use crate::datagram::PeerKey;

verus! {

/// Whether two peer keys are the same key.
pub fn same_key(a: &PeerKey, b: &PeerKey) -> (r: bool)
    ensures
        r == (a@ == b@),
{
    let mut i: usize = 0;
    while i < 32
        invariant
            i <= 32,
            a@.len() == 32,
            b@.len() == 32,
            forall|j: int| 0 <= j < i ==> a@[j] == b@[j],
        decreases 32 - i,
    {
        if a[i] != b[i] {
            return false;
        }
        i = i + 1;
    }
    assert(a@ =~= b@);
    true
}

/// A map from peer keys to the value registered for each, one value per key.
pub struct Registry<T> {
    entries: Vec<(PeerKey, T)>,
    map: Ghost<Map<Seq<u8>, T>>,
}

/// Each key is held once, and the entries are exactly the map.
pub open spec fn entries_match<T>(entries: Seq<(PeerKey, T)>, map: Map<Seq<u8>, T>) -> bool {
    &&& forall|i: int, j: int|
        0 <= i < j < entries.len() ==> (#[trigger] entries[i]).0@ != (#[trigger] entries[j]).0@
    &&& forall|i: int|
        0 <= i < entries.len() ==> map.contains_key((#[trigger] entries[i]).0@) && map[entries[i].0@]
            == entries[i].1
    &&& forall|k: Seq<u8>|
        #[trigger] map.contains_key(k) ==> exists|i: int|
            0 <= i < entries.len() && (#[trigger] entries[i]).0@ == k
}

/// The index of the entry for `key`, if there is one.
fn find_index<T>(entries: &Vec<(PeerKey, T)>, key: &PeerKey) -> (r: Option<usize>)
    ensures
        r matches Some(i) ==> i < entries@.len() && entries@[i as int].0@ == key@,
        r is None ==> forall|j: int| 0 <= j < entries@.len() ==> (#[trigger] entries@[j]).0@ != key@,
{
    let mut i: usize = 0;
    while i < entries.len()
        invariant
            i <= entries@.len(),
            forall|j: int| 0 <= j < i ==> (#[trigger] entries@[j]).0@ != key@,
        decreases entries@.len() - i,
    {
        if same_key(&entries[i].0, key) {
            return Some(i);
        }
        i = i + 1;
    }
    None
}

impl<T> Registry<T> {
    /// The value registered for each key.
    pub closed spec fn view(&self) -> Map<Seq<u8>, T> {
        self.map@
    }

    #[verifier::type_invariant]
    spec fn wf(self) -> bool {
        entries_match(self.entries@, self.map@)
    }

    /// An empty registry.
    pub fn new() -> (r: Self)
        ensures
            r.view() == Map::<Seq<u8>, T>::empty(),
    {
        Registry { entries: Vec::new(), map: Ghost(Map::empty()) }
    }

    /// Register `value` for `key`, replacing what was registered for it.
    pub fn insert(&mut self, key: PeerKey, value: T)
        ensures
            final(self).view() == old(self).view().insert(key@, value),
    {
        let mut taken: Registry<T> = Registry::new();
        core::mem::swap(self, &mut taken);
        proof {
            use_type_invariant(&taken);
        }
        let Registry { mut entries, map } = taken;
        let ghost old_entries = entries@;
        let ghost new_map = map@.insert(key@, value);
        match find_index(&entries, &key) {
            Some(i) => {
                entries.set(i, (key, value));
                proof {
                    assert forall|k: Seq<u8>| #[trigger] new_map.contains_key(k) implies exists|i: int|
                        0 <= i < entries@.len() && (#[trigger] entries@[i]).0@ == k by {
                        if k != key@ {
                            let w = choose|w: int| 0 <= w < old_entries.len() && (#[trigger] old_entries[w]).0@ == k;
                            assert(entries@[w].0@ == k);
                        } else {
                            assert(entries@[i as int].0@ == k);
                        }
                    }
                }
            },
            None => {
                entries.push((key, value));
                proof {
                    let n = old_entries.len() as int;
                    assert forall|k: Seq<u8>| #[trigger] new_map.contains_key(k) implies exists|i: int|
                        0 <= i < entries@.len() && (#[trigger] entries@[i]).0@ == k by {
                        if k != key@ {
                            let w = choose|w: int| 0 <= w < old_entries.len() && (#[trigger] old_entries[w]).0@ == k;
                            assert(entries@[w].0@ == k);
                        } else {
                            assert(entries@[n].0@ == k);
                        }
                    }
                }
            },
        }
        *self = Registry { entries, map: Ghost(new_map) };
    }

    /// The value registered for `key`, if any.
    pub fn get(&self, key: &PeerKey) -> (r: Option<&T>)
        ensures
            r matches Some(v) ==> self.view().contains_key(key@) && *v == self.view()[key@],
            r is None ==> !self.view().contains_key(key@),
    {
        proof {
            use_type_invariant(self);
        }
        match find_index(&self.entries, key) {
            Some(i) => Some(&self.entries[i].1),
            None => None,
        }
    }
}

} // verus!
