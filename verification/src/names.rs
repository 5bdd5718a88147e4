//! Maps from names to values, in the order of the names.

use vstd::prelude::*;
use vstd::string::*;
use vstd::utf8::*;

use crate::text;
use crate::text::str_eq;

verus! {

/// A byte string comes before another in the order of a dictionary.
pub open spec fn before(a: Seq<u8>, b: Seq<u8>) -> bool
    decreases a.len(),
{
    if b.len() == 0 {
        false
    } else if a.len() == 0 {
        true
    } else if a[0] != b[0] {
        a[0] < b[0]
    } else {
        before(a.drop_first(), b.drop_first())
    }
}

/// A name comes before another: its bytes do.
pub open spec fn name_before(a: Seq<char>, b: Seq<char>) -> bool {
    before(encode_utf8(a), encode_utf8(b))
}

/// No byte string comes before itself, and of two that differ one comes first.
proof fn lemma_before_total(a: Seq<u8>, b: Seq<u8>)
    ensures
        !before(a, a),
        a != b ==> before(a, b) || before(b, a),
        before(a, b) ==> !before(b, a),
    decreases a.len(),
{
    if a.len() > 0 {
        lemma_before_total(a.drop_first(), a.drop_first());
        if b.len() > 0 {
            lemma_before_total(a.drop_first(), b.drop_first());
            if a[0] == b[0] && a.drop_first() == b.drop_first() {
                assert(a =~= seq![a[0]] + a.drop_first());
                assert(b =~= seq![b[0]] + b.drop_first());
            }
        }
    } else if b.len() == 0 {
        assert(a =~= b);
    }
}

/// The order goes on from one byte string to the next.
proof fn lemma_before_transitive(a: Seq<u8>, b: Seq<u8>, c: Seq<u8>)
    requires
        before(a, b),
        before(b, c),
    ensures
        before(a, c),
    decreases a.len(),
{
    if a.len() > 0 && a[0] == b[0] && b[0] == c[0] {
        lemma_before_transitive(a.drop_first(), b.drop_first(), c.drop_first());
    }
}

/// Whether the name `a` comes before the name `b`.
fn is_before(a: &str, b: &str) -> (res: bool)
    ensures
        res == name_before(a@, b@),
{
    let x = a.as_bytes();
    let y = b.as_bytes();
    let mut i: usize = 0;
    assert(x@.skip(0) =~= x@);
    assert(y@.skip(0) =~= y@);
    while i < x.len() && i < y.len()
        invariant
            i <= x@.len(),
            i <= y@.len(),
            x@ == encode_utf8(a@),
            y@ == encode_utf8(b@),
            before(x@, y@) == before(x@.skip(i as int), y@.skip(i as int)),
        decreases x.len() - i,
    {
        if x[i] != y[i] {
            assert(x@.skip(i as int)[0] == x@[i as int]);
            assert(y@.skip(i as int)[0] == y@[i as int]);
            return x[i] < y[i];
        }
        assert(x@.skip(i as int).drop_first() =~= x@.skip(i + 1));
        assert(y@.skip(i as int).drop_first() =~= y@.skip(i + 1));
        i = i + 1;
    }
    i < y.len()
}

/// A map from names to values, in the order of the names.
#[derive(Clone, Debug, PartialEq, Eq)]
pub struct NameMap<V> {
    names: Vec<String>,
    values: Vec<V>,
}

/// Names stand in order, so none stands there twice.
spec fn in_order(names: Seq<String>) -> bool {
    forall|i: int, j: int|
        0 <= i < j < names.len() ==> name_before((#[trigger] names[i])@, (#[trigger] names[j])@)
}

/// Where a name stands.
spec fn found(names: Seq<String>, name: Seq<char>, i: int) -> bool {
    0 <= i < names.len() && names[i]@ == name
}

/// A name stands in one place only.
proof fn lemma_found_once(names: Seq<String>, name: Seq<char>, i: int, j: int)
    requires
        in_order(names),
        found(names, name, i),
        found(names, name, j),
    ensures
        i == j,
{
    lemma_before_total(encode_utf8(name), encode_utf8(name));
    if i < j {
        assert(name_before(names[i]@, names[j]@));
    } else if j < i {
        assert(name_before(names[j]@, names[i]@));
    }
}

impl<V> View for NameMap<V> {
    type V = Map<Seq<char>, V>;

    closed spec fn view(&self) -> Map<Seq<char>, V> {
        Map::new(
            |name: Seq<char>| exists|i: int| found(self.names@, name, i),
            |name: Seq<char>| self.values@[choose|i: int| found(self.names@, name, i)],
        )
    }
}

impl<V> NameMap<V> {
    /// Every name has a value, and the names stand in order.
    pub closed spec fn wf(&self) -> bool {
        &&& self.names@.len() == self.values@.len()
        &&& in_order(self.names@)
    }

    /// The names in order.
    pub closed spec fn keys(&self) -> Seq<Seq<char>> {
        self.names@.map_values(|s: String| s@)
    }

    /// The names in order are those of the map, and none stands there twice.
    pub proof fn law_names_in_order(&self)
        requires
            self.wf(),
        ensures
            forall|i: int, j: int|
                0 <= i < j < self.keys().len() ==> name_before(
                    #[trigger] self.keys()[i],
                    #[trigger] self.keys()[j],
                ),
            forall|name: Seq<char>|
                self@.contains_key(name) <==> #[trigger] self.keys().contains(name),
    {
        assert forall|name: Seq<char>|
            self@.contains_key(name) <==> #[trigger] self.keys().contains(name) by {
            if self@.contains_key(name) {
                let i = choose|i: int| found(self.names@, name, i);
                assert(self.keys()[i] == name);
            }
            if self.keys().contains(name) {
                let i = choose|i: int| 0 <= i < self.keys().len() && self.keys()[i] == name;
                assert(found(self.names@, name, i));
            }
        }
    }

    /// The value at a place is that of the name there.
    proof fn lemma_at(&self, i: int)
        requires
            self.wf(),
            0 <= i < self.names@.len(),
        ensures
            self@.contains_key(self.names@[i]@),
            self@[self.names@[i]@] == self.values@[i],
    {
        let name = self.names@[i]@;
        assert(found(self.names@, name, i));
        lemma_found_once(self.names@, name, i, choose|j: int| found(self.names@, name, j));
    }

    /// An empty map.
    pub fn new() -> (m: Self)
        ensures
            m.wf(),
            m@ == Map::<Seq<char>, V>::empty(),
    {
        let m = NameMap { names: Vec::new(), values: Vec::new() };
        assert(m@ =~= Map::<Seq<char>, V>::empty());
        m
    }

    /// How many names there are.
    pub fn len(&self) -> (n: usize)
        ensures
            n == self.keys().len(),
    {
        self.names.len()
    }

    /// Whether there are no names.
    pub fn is_empty(&self) -> (b: bool)
        requires
            self.wf(),
        ensures
            b == (self@ == Map::<Seq<char>, V>::empty()),
    {
        proof {
            if self.names@.len() == 0 {
                assert(self@ =~= Map::<Seq<char>, V>::empty());
            } else {
                self.lemma_at(0);
            }
        }
        self.names.len() == 0
    }

    /// The name at a place in the order.
    pub fn name_at(&self, i: usize) -> (name: Option<&str>)
        ensures
            match name {
                Some(s) => i < self.keys().len() && s@ == self.keys()[i as int],
                None => i >= self.keys().len(),
            },
    {
        if i < self.names.len() {
            Some(self.names[i].as_str())
        } else {
            None
        }
    }

    /// Where a name belongs: behind the names that come before it.
    fn place(&self, name: &str) -> (k: usize)
        requires
            self.wf(),
        ensures
            k <= self.names@.len(),
            forall|i: int| 0 <= i < k ==> name_before((#[trigger] self.names@[i])@, name@),
            k < self.names@.len() ==> !name_before(self.names@[k as int]@, name@),
    {
        let mut k: usize = 0;
        while k < self.names.len() && is_before(self.names[k].as_str(), name)
            invariant
                k <= self.names@.len(),
                forall|i: int| 0 <= i < k ==> name_before((#[trigger] self.names@[i])@, name@),
            decreases self.names.len() - k,
        {
            k = k + 1;
        }
        k
    }

    /// A name that does not stand where it belongs does not stand anywhere.
    proof fn lemma_absent(&self, name: Seq<char>, k: int)
        requires
            self.wf(),
            0 <= k <= self.names@.len(),
            forall|i: int| 0 <= i < k ==> name_before((#[trigger] self.names@[i])@, name),
            k < self.names@.len() ==> !name_before(self.names@[k]@, name),
            k < self.names@.len() ==> self.names@[k]@ != name,
        ensures
            !self@.contains_key(name),
            forall|i: int|
                k <= i < self.names@.len() ==> name_before(name, (#[trigger] self.names@[i])@),
    {
        assert forall|i: int| k <= i < self.names@.len() implies name_before(
            name,
            (#[trigger] self.names@[i])@,
        ) by {
            let at = self.names@[k]@;
            lemma_before_total(encode_utf8(name), encode_utf8(at));
            if encode_utf8(name) == encode_utf8(at) {
                text::lemma_utf8_injective(name, at);
            }
            if i > k {
                assert(name_before(self.names@[k]@, self.names@[i]@));
                lemma_before_transitive(
                    encode_utf8(name),
                    encode_utf8(at),
                    encode_utf8(self.names@[i]@),
                );
            }
        }
        if self@.contains_key(name) {
            let i = choose|i: int| found(self.names@, name, i);
            lemma_before_total(encode_utf8(name), encode_utf8(name));
            assert(self.names@[i]@ == name);
        }
    }

    /// The value of a name.
    pub fn get(&self, name: &str) -> (res: Option<&V>)
        requires
            self.wf(),
        ensures
            match res {
                Some(v) => self@.contains_key(name@) && *v == self@[name@],
                None => !self@.contains_key(name@),
            },
    {
        let k = self.place(name);
        if k < self.names.len() && str_eq(self.names[k].as_str(), name) {
            proof {
                self.lemma_at(k as int);
            }
            Some(&self.values[k])
        } else {
            proof {
                self.lemma_absent(name@, k as int);
            }
            None
        }
    }

    /// Gives a name a value.
    pub fn insert(&mut self, name: String, value: V)
        requires
            old(self).wf(),
        ensures
            final(self).wf(),
            final(self)@ == old(self)@.insert(name@, value),
    {
        let k = self.place(name.as_str());
        let ghost pre = *self;
        if k < self.names.len() && str_eq(self.names[k].as_str(), name.as_str()) {
            self.values.set(k, value);
            proof {
                assert forall|n: Seq<char>| self@.contains_key(n) implies #[trigger] self@[n]
                    == pre@.insert(name@, value)[n] by {
                    let i = choose|i: int| found(self.names@, n, i);
                    self.lemma_at(i);
                    pre.lemma_at(i);
                    if i == k {
                        assert(n == name@);
                    } else if n == name@ {
                        lemma_found_once(self.names@, n, i, k as int);
                    }
                }
                assert(found(self.names@, name@, k as int));
                assert(self@ =~= pre@.insert(name@, value));
            }
        } else {
            proof {
                pre.lemma_absent(name@, k as int);
            }
            let ghost n0 = name;
            self.names.insert(k, name);
            self.values.insert(k, value);
            proof {
                assert forall|i: int, j: int| 0 <= i < j < self.names@.len() implies name_before(
                    (#[trigger] self.names@[i])@,
                    (#[trigger] self.names@[j])@,
                ) by {
                    if j < k {
                        assert(name_before(pre.names@[i]@, pre.names@[j]@));
                    } else if j > k {
                        if i > k {
                            assert(name_before(pre.names@[i - 1]@, pre.names@[j - 1]@));
                        } else if i < k {
                            assert(name_before(pre.names@[i]@, pre.names@[j - 1]@));
                        } else {
                            assert(name_before(n0@, pre.names@[j - 1]@));
                        }
                    } else {
                        assert(name_before(pre.names@[i]@, n0@));
                    }
                }
                assert(found(self.names@, n0@, k as int));
                assert forall|n: Seq<char>| self@.contains_key(n) == pre@.insert(
                    n0@,
                    value,
                ).contains_key(n) by {
                    if self@.contains_key(n) && n != n0@ {
                        let i = choose|i: int| found(self.names@, n, i);
                        let j = if i < k { i } else { i - 1 };
                        assert(found(pre.names@, n, j));
                    }
                    if pre@.contains_key(n) {
                        let i = choose|i: int| found(pre.names@, n, i);
                        let j = if i < k { i } else { i + 1 };
                        assert(found(self.names@, n, j));
                    }
                }
                assert forall|n: Seq<char>| self@.contains_key(n) implies #[trigger] self@[n]
                    == pre@.insert(n0@, value)[n] by {
                    let i = choose|i: int| found(self.names@, n, i);
                    self.lemma_at(i);
                    if i == k {
                        assert(n == n0@);
                    } else {
                        let j = if i < k { i } else { i - 1 };
                        pre.lemma_at(j);
                        if n == n0@ {
                            lemma_found_once(self.names@, n, i, k as int);
                        }
                    }
                }
                assert(self@ =~= pre@.insert(n0@, value));
            }
        }
    }
}

} // verus!
