//! A small mapping from text to text, kept as two parallel vectors.
//!
//! No key occurs twice.  The view is the mathematical map; the order in which
//! the entries are stored is the order in which their keys were first given.

use vstd::prelude::*;

verus! {

/// No text occurs twice in `ks`.
pub open spec fn distinct(ks: Seq<Seq<char>>) -> bool {
    forall|i: int, j: int| 0 <= i < j < ks.len() ==> ks[i] != ks[j]
}

/// `k` occurs in `ks`.
pub open spec fn has_key(ks: Seq<Seq<char>>, k: Seq<char>) -> bool {
    exists|i: int| 0 <= i < ks.len() && ks[i] == k
}

/// Where `k` occurs in `ks`.
pub open spec fn position(ks: Seq<Seq<char>>, k: Seq<char>) -> int {
    choose|i: int| 0 <= i < ks.len() && ks[i] == k
}

/// The map that sends each key to the value stored beside it.
pub open spec fn mapping<V>(ks: Seq<Seq<char>>, vs: Seq<V>) -> Map<Seq<char>, V> {
    Map::new(|k: Seq<char>| has_key(ks, k), |k: Seq<char>| vs[position(ks, k)])
}

/// In a sequence without repetition, a key is found where it stands.
pub proof fn lemma_position(ks: Seq<Seq<char>>, i: int)
    requires
        distinct(ks),
        0 <= i < ks.len(),
    ensures
        has_key(ks, ks[i]),
        position(ks, ks[i]) == i,
{
    let p = position(ks, ks[i]);
    assert(0 <= p < ks.len() && ks[p] == ks[i]);
    if p < i {
        assert(ks[p] != ks[i]);
    }
    if i < p {
        assert(ks[i] != ks[p]);
    }
}

/// Replacing the value beside a key is an insertion into the map.
pub proof fn lemma_mapping_update<V>(ks: Seq<Seq<char>>, vs: Seq<V>, i: int, v: V)
    requires
        distinct(ks),
        ks.len() == vs.len(),
        0 <= i < ks.len(),
    ensures
        mapping(ks, vs.update(i, v)) == mapping(ks, vs).insert(ks[i], v),
{
    lemma_position(ks, i);
    let vs2 = vs.update(i, v);
    assert forall|k: Seq<char>| has_key(ks, k) implies #[trigger] mapping(ks, vs2)[k] == mapping(
        ks,
        vs,
    ).insert(ks[i], v)[k] by {
        let p = position(ks, k);
        if k != ks[i] {
            assert(p != i);
        }
    }
    assert(mapping(ks, vs2) =~= mapping(ks, vs).insert(ks[i], v));
}

/// Appending a new key with its value is an insertion into the map.
pub proof fn lemma_mapping_push<V>(ks: Seq<Seq<char>>, vs: Seq<V>, k: Seq<char>, v: V)
    requires
        distinct(ks),
        ks.len() == vs.len(),
        !has_key(ks, k),
    ensures
        distinct(ks.push(k)),
        mapping(ks.push(k), vs.push(v)) == mapping(ks, vs).insert(k, v),
{
    let ks2 = ks.push(k);
    let vs2 = vs.push(v);
    assert(distinct(ks2)) by {
        assert forall|a: int, b: int| 0 <= a < b < ks2.len() implies ks2[a] != ks2[b] by {
            if b == ks.len() {
                assert(ks[a] == ks2[a]);
            }
        }
    }
    lemma_position(ks2, ks.len() as int);
    assert forall|j: Seq<char>| has_key(ks2, j) <==> (has_key(ks, j) || j == k) by {
        if has_key(ks2, j) {
            let p = position(ks2, j);
            if p < ks.len() {
                assert(ks[p] == j);
            }
        }
        if has_key(ks, j) {
            let p = position(ks, j);
            assert(ks2[p] == j);
        }
    }
    assert forall|j: Seq<char>| has_key(ks, j) implies #[trigger] mapping(ks2, vs2)[j] == mapping(
        ks,
        vs,
    )[j] by {
        let p = position(ks, j);
        assert(ks2[p] == j);
        lemma_position(ks2, p);
    }
    assert(mapping(ks2, vs2) =~= mapping(ks, vs).insert(k, v));
}

/// Taking out a key with its value is a removal from the map.
pub proof fn lemma_mapping_remove<V>(ks: Seq<Seq<char>>, vs: Seq<V>, i: int)
    requires
        distinct(ks),
        ks.len() == vs.len(),
        0 <= i < ks.len(),
    ensures
        distinct(ks.remove(i)),
        mapping(ks.remove(i), vs.remove(i)) == mapping(ks, vs).remove(ks[i]),
{
    let ks2 = ks.remove(i);
    let vs2 = vs.remove(i);
    let key = ks[i];
    assert(distinct(ks2)) by {
        assert forall|a: int, b: int| 0 <= a < b < ks2.len() implies ks2[a] != ks2[b] by {
            let a0 = if a < i { a } else { a + 1 };
            let b0 = if b < i { b } else { b + 1 };
            assert(ks2[a] == ks[a0] && ks2[b] == ks[b0]);
        }
    }
    lemma_position(ks, i);
    assert forall|k: Seq<char>| has_key(ks2, k) <==> (has_key(ks, k) && k != key) by {
        if has_key(ks2, k) {
            let p = position(ks2, k);
            let source = if p < i { p } else { p + 1 };
            assert(ks[source] == k);
            if k == key {
                lemma_position(ks, source);
            }
        }
        if has_key(ks, k) && k != key {
            let p = position(ks, k);
            let shifted = if p < i { p } else { p - 1 };
            assert(ks2[shifted] == k);
        }
    }
    assert forall|k: Seq<char>| has_key(ks2, k) implies #[trigger] mapping(ks2, vs2)[k] == mapping(
        ks,
        vs,
    )[k] by {
        let p = position(ks2, k);
        let source = if p < i { p } else { p + 1 };
        assert(ks[source] == k);
        lemma_position(ks, source);
    }
    assert(mapping(ks2, vs2) =~= mapping(ks, vs).remove(key));
}

/// Removing a key that is not there changes nothing.
pub proof fn lemma_mapping_absent<V>(ks: Seq<Seq<char>>, vs: Seq<V>, k: Seq<char>)
    requires
        !has_key(ks, k),
    ensures
        mapping(ks, vs).remove(k) == mapping(ks, vs),
{
    assert(mapping(ks, vs).remove(k) =~= mapping(ks, vs));
}

/// Index of the first occurrence of `key` among `keys`, if it is there.
pub fn find_key(keys: &Vec<String>, key: &str) -> (r: Option<usize>)
    ensures
        match r {
            Some(i) => i < keys.len() && keys[i as int]@ == key@ && forall|j: int|
                0 <= j < i ==> keys[j]@ != key@,
            None => !has_key(keys.deep_view(), key@),
        },
{
    let wanted = key.to_owned();
    let mut i: usize = 0;
    while i < keys.len()
        invariant
            i <= keys.len(),
            wanted@ == key@,
            forall|j: int| 0 <= j < i ==> keys[j]@ != key@,
        decreases keys.len() - i,
    {
        if keys[i] == wanted {
            return Some(i);
        }
        i += 1;
    }
    assert(!has_key(keys.deep_view(), key@)) by {
        if has_key(keys.deep_view(), key@) {
            let j = position(keys.deep_view(), key@);
            assert(keys.deep_view()[j] == keys[j]@);
        }
    }
    None
}

/// A mapping from text to text.
pub struct Dict {
    pub keys: Vec<String>,
    pub values: Vec<String>,
}

impl View for Dict {
    type V = Map<Seq<char>, Seq<char>>;

    open spec fn view(&self) -> Map<Seq<char>, Seq<char>> {
        mapping(self.keys.deep_view(), self.values.deep_view())
    }
}

impl Dict {
    /// Every key has its value, and no key occurs twice.
    pub open spec fn wf(&self) -> bool {
        &&& self.keys.len() == self.values.len()
        &&& distinct(self.keys.deep_view())
    }

    /// The empty mapping.
    pub fn new() -> (d: Dict)
        ensures
            d.wf(),
            d@ == Map::<Seq<char>, Seq<char>>::empty(),
    {
        let d = Dict { keys: Vec::new(), values: Vec::new() };
        assert(d@ =~= Map::<Seq<char>, Seq<char>>::empty());
        d
    }

    /// Number of entries.
    pub fn len(&self) -> (n: usize)
        ensures
            n == self.keys.len(),
    {
        self.keys.len()
    }

    /// The value stored for `key`.
    pub fn get(&self, key: &str) -> (r: Option<&String>)
        requires
            self.wf(),
        ensures
            match r {
                Some(v) => self@.contains_key(key@) && self@[key@] == v@,
                None => !self@.contains_key(key@),
            },
    {
        match find_key(&self.keys, key) {
            Some(i) => {
                proof {
                    lemma_position(self.keys.deep_view(), i as int);
                }
                Some(&self.values[i])
            },
            None => None,
        }
    }

    /// Stores `value` for `key`, in place of what was stored for it before.
    pub fn insert(&mut self, key: &str, value: String)
        requires
            old(self).wf(),
        ensures
            final(self).wf(),
            final(self)@ == old(self)@.insert(key@, value@),
    {
        let ghost ks = self.keys.deep_view();
        let ghost vs = self.values.deep_view();
        match find_key(&self.keys, key) {
            Some(i) => {
                self.values[i] = value;
                proof {
                    assert(self.keys.deep_view() == ks);
                    assert(self.values.deep_view() =~= vs.update(i as int, value@));
                    assert(ks[i as int] == key@);
                    lemma_mapping_update(ks, vs, i as int, value@);
                }
            },
            None => {
                self.keys.push(key.to_owned());
                self.values.push(value);
                proof {
                    assert(self.keys.deep_view() =~= ks.push(key@));
                    assert(self.values.deep_view() =~= vs.push(value@));
                    lemma_mapping_push(ks, vs, key@, value@);
                }
            },
        }
    }

    /// Removes the entry for `key`, if there is one.
    pub fn remove(&mut self, key: &str)
        requires
            old(self).wf(),
        ensures
            final(self).wf(),
            final(self)@ == old(self)@.remove(key@),
    {
        let ghost ks = self.keys.deep_view();
        let ghost vs = self.values.deep_view();
        match find_key(&self.keys, key) {
            Some(i) => {
                self.keys.remove(i);
                self.values.remove(i);
                proof {
                    assert(self.keys.deep_view() =~= ks.remove(i as int));
                    assert(self.values.deep_view() =~= vs.remove(i as int));
                    assert(ks[i as int] == key@);
                    lemma_mapping_remove(ks, vs, i as int);
                }
            },
            None => {
                proof {
                    lemma_mapping_absent(ks, vs, key@);
                }
            },
        }
    }

    /// A copy of the mapping.
    pub fn duplicate(&self) -> (d: Dict)
        requires
            self.wf(),
        ensures
            d.wf(),
            d@ == self@,
    {
        let mut keys: Vec<String> = Vec::new();
        let mut values: Vec<String> = Vec::new();
        let mut i: usize = 0;
        while i < self.keys.len()
            invariant
                i <= self.keys.len() == self.values.len(),
                keys@ == self.keys@.take(i as int),
                values@ == self.values@.take(i as int),
            decreases self.keys.len() - i,
        {
            keys.push(self.keys[i].clone());
            values.push(self.values[i].clone());
            i += 1;
        }
        assert(keys@ == self.keys@);
        assert(values@ == self.values@);
        let d = Dict { keys, values };
        assert(d.keys.deep_view() =~= self.keys.deep_view());
        assert(d.values.deep_view() =~= self.values.deep_view());
        d
    }
}

} // verus!
