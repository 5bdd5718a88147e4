//! Numbers for resource keys.

use vstd::prelude::*;
use vstd::string::*;

use crate::access;
use crate::access::{KeyModel, ResourceKey};
use crate::dirty::DirtyKey;
use crate::text::str_eq;

verus! {

/// Whether two keys are the same.
fn same_key(a: &ResourceKey, b: &ResourceKey) -> (same: bool)
    ensures
        same == (a@ == b@),
{
    match (a, b) {
        (ResourceKey::Input(x), ResourceKey::Input(y)) => str_eq(x.as_str(), y.as_str()),
        (
            ResourceKey::HostState { op: x, key: k },
            ResourceKey::HostState { op: y, key: l },
        ) => x.0 == y.0 && *k == *l,
        (ResourceKey::OpaqueHost { op: x }, ResourceKey::OpaqueHost { op: y }) => x.0 == y.0,
        (
            ResourceKey::NodeOutput { node: x, output: o },
            ResourceKey::NodeOutput { node: y, output: q },
        ) => x.0 == y.0 && str_eq(o.as_str(), q.as_str()),
        _ => false,
    }
}

/// Resource keys, each with a number: its place in the order in which they came.
pub struct KeyTable {
    keys: Vec<ResourceKey>,
}

impl View for KeyTable {
    type V = Seq<KeyModel>;

    closed spec fn view(&self) -> Seq<KeyModel> {
        access::key_models(self.keys@)
    }
}

impl KeyTable {
    /// No key is there twice, so that each has one number.
    pub open spec fn wf(&self) -> bool {
        self@.no_duplicates()
    }

    /// A table without keys.
    pub fn new() -> (t: Self)
        ensures
            t.wf(),
            t@ == Seq::<KeyModel>::empty(),
    {
        let t = KeyTable { keys: Vec::new() };
        assert(t@ =~= Seq::<KeyModel>::empty());
        t
    }

    /// The number of a key. One that is not there yet gets the next number, and all others keep
    /// theirs.
    pub fn intern(&mut self, key: &ResourceKey) -> (id: DirtyKey)
        requires
            old(self).wf(),
        ensures
            final(self).wf(),
            final(self)@ == (if old(self)@.contains(key@) {
                old(self)@
            } else {
                old(self)@.push(key@)
            }),
            id.0 < final(self)@.len(),
            final(self)@[id.0 as int] == key@,
    {
        let ghost before = self@;
        let mut i: usize = 0;
        while i < self.keys.len()
            invariant
                i <= self.keys@.len(),
                self@ == before,
                before == old(self)@,
                old(self).wf(),
                forall|k: int| 0 <= k < i ==> #[trigger] before[k] != key@,
            decreases self.keys.len() - i,
        {
            assert(before[i as int] == self.keys@[i as int]@);
            if same_key(&self.keys[i], key) {
                assert(before.contains(key@));
                return DirtyKey(i as u64);
            }
            i = i + 1;
        }
        assert(!before.contains(key@));
        self.keys.push(key.duplicate());
        assert(self@ =~= before.push(key@));
        DirtyKey(i as u64)
    }

    /// The key with a number.
    pub fn key(&self, id: DirtyKey) -> (key: Option<&ResourceKey>)
        ensures
            match key {
                Some(k) => id.0 < self@.len() && k@ == self@[id.0 as int],
                None => id.0 >= self@.len(),
            },
    {
        if id.0 < self.keys.len() as u64 {
            let i: usize = id.0 as usize;
            assert(self@[i as int] == self.keys@[i as int]@);
            Some(&self.keys[i])
        } else {
            None
        }
    }
}

/// Two keys of a table have the same number only where they are the same key, and a key has only
/// one number.
pub proof fn law_one_key_one_number(t: KeyTable, i: int, j: int)
    requires
        t.wf(),
        0 <= i < t@.len(),
        0 <= j < t@.len(),
    ensures
        t@[i] == t@[j] <==> i == j,
{
}

} // verus!
