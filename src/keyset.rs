//! Key sets: keys in insertion order, at most one per path, with a manual
//! saturating reference counter.
use crate::key::Key;
use crate::name::parse_name;
use indexmap::IndexMap;
use vstd::prelude::*;

verus! {

/// `indexmap::IndexMap`, opaque here: what a map holds is read through
/// `entries`, which the wrappers below speak of.
#[verifier::external_type_specification]
#[verifier::external_body]
#[verifier::reject_recursive_types(K)]
#[verifier::reject_recursive_types(V)]
#[verifier::reject_recursive_types(S)]
pub struct ExIndexMap<K, V, S>(IndexMap<K, V, S>);

/// The entries of a map from paths to keys, in the map's order.
pub uninterp spec fn entries(m: IndexMap<String, Key>) -> Seq<(Seq<char>, Key)>;

/// Relies on `IndexMap::new`: an empty map.
#[verifier::external_body]
fn map_new() -> (r: IndexMap<String, Key>)
    ensures
        entries(r) == Seq::<(Seq<char>, Key)>::empty(),
{
    IndexMap::new()
}

/// Relies on `IndexMap::len`: the number of entries.
#[verifier::external_body]
fn map_len(m: &IndexMap<String, Key>) -> (r: usize)
    ensures
        r == entries(*m).len(),
{
    m.len()
}

/// Relies on `IndexMap::get_index_of`: the position of the entry with `k`.
#[verifier::external_body]
fn map_index_of(m: &IndexMap<String, Key>, k: &String) -> (r: Option<usize>)
    ensures
        r matches Some(i) ==> i < entries(*m).len() && entries(*m)[i as int].0 == k@,
        r is None ==> forall|i: int| 0 <= i < entries(*m).len() ==> entries(*m)[i].0 != k@,
{
    m.get_index_of(k)
}

/// Relies on `IndexMap::insert`: a new key goes last; an existing key keeps
/// its place and gets the new value.
#[verifier::external_body]
fn map_insert(m: &mut IndexMap<String, Key>, k: String, v: Key)
    ensures
        (forall|i: int| 0 <= i < entries(*old(m)).len() ==> entries(*old(m))[i].0 != k@) ==> entries(
            *final(m),
        ) == entries(*old(m)).push((k@, v)),
        forall|i: int|
            0 <= i < entries(*old(m)).len() && entries(*old(m))[i].0 == k@ ==> entries(*final(m))
                == entries(*old(m)).update(i, (k@, v)),
{
    m.insert(k, v);
}

/// Relies on `IndexMap::get_index`: the entry at `i`, if `i` is in range.
#[verifier::external_body]
fn map_get_index(m: &IndexMap<String, Key>, i: usize) -> (r: Option<(&String, &Key)>)
    ensures
        r.is_some() == (i < entries(*m).len()),
        r matches Some((k, v)) ==> k@ == entries(*m)[i as int].0 && *v == entries(*m)[i as int].1,
{
    m.get_index(i)
}

/// Relies on `IndexMap::shift_remove_index`: removes the entry at `i`,
/// keeping the order of the others.
#[verifier::external_body]
fn map_shift_remove_index(m: &mut IndexMap<String, Key>, i: usize) -> (r: Option<(String, Key)>)
    ensures
        i < entries(*old(m)).len() ==> (r matches Some((k, v)) && k@ == entries(*old(m))[i as int].0
            && v == entries(*old(m))[i as int].1),
        i < entries(*old(m)).len() ==> entries(*final(m)) == entries(*old(m)).remove(i as int),
        i >= entries(*old(m)).len() ==> r is None && entries(*final(m)) == entries(*old(m)),
{
    m.shift_remove_index(i)
}

/// Relies on `IndexMap::clear`: no entries are left.
#[verifier::external_body]
fn map_clear(m: &mut IndexMap<String, Key>)
    ensures
        entries(*final(m)) == Seq::<(Seq<char>, Key)>::empty(),
{
    m.clear();
}

/// `keys` with `key` appended, unless a key with the same path is there.
pub open spec fn appended(keys: Seq<Key>, key: Key) -> Seq<Key> {
    if exists|i: int| 0 <= i < keys.len() && keys[i].spec_path() == key.spec_path() {
        keys
    } else {
        keys.push(key)
    }
}

/// The keys a set holds after appending `ks` in order to an empty set.
pub open spec fn collected(ks: Seq<Key>) -> Seq<Key>
    decreases ks.len(),
{
    if ks.len() == 0 {
        seq![]
    } else {
        appended(collected(ks.drop_last()), ks.last())
    }
}

/// No two keys share a path.
pub open spec fn unique_paths(keys: Seq<Key>) -> bool {
    forall|i: int, j: int|
        0 <= i < keys.len() && 0 <= j < keys.len() && i != j ==> #[trigger] keys[i].spec_path()
            != #[trigger] keys[j].spec_path()
}

/// The position an index denotes in a set of `len` keys: `0..len` counts
/// from the front, `-len..0` from the back (`-1` is the last key).
pub open spec fn index_in(index: int, len: int) -> Option<int> {
    if 0 <= index < len {
        Some(index)
    } else if index < 0 && len + index >= 0 {
        Some(len + index)
    } else {
        None
    }
}

/// The refcount after an increment that stops at `u16::MAX`.
pub open spec fn inc_sat(n: u16) -> u16 {
    if n == u16::MAX {
        n
    } else {
        (n + 1) as u16
    }
}

/// The refcount after a decrement that stops at zero.
pub open spec fn dec_sat(n: u16) -> u16 {
    if n == 0 {
        n
    } else {
        (n - 1) as u16
    }
}

/// Appending a key whose path is already present, whatever its namespace
/// or value, leaves a set as it was: a set holds one key per path.
pub proof fn lemma_same_path_merges(ks: Seq<Key>, a: Key, b: Key)
    requires
        a.spec_path() == b.spec_path(),
    ensures
        appended(appended(ks, a), b) == appended(ks, a),
        appended(appended(ks, a), b).len() <= ks.len() + 1,
{
    let once = appended(ks, a);
    if exists|i: int| 0 <= i < ks.len() && ks[i].spec_path() == a.spec_path() {
        let i = choose|i: int| 0 <= i < ks.len() && ks[i].spec_path() == a.spec_path();
        assert(once[i].spec_path() == b.spec_path());
    } else {
        assert(once[ks.len() as int] == a);
    }
}

/// Increments a reference count, staying at `u16::MAX`.
pub fn increase_refs(n: u16) -> (r: u16)
    ensures
        r == inc_sat(n),
{
    if n == u16::MAX {
        n
    } else {
        n + 1
    }
}

/// Decrements a reference count, staying at zero.
pub fn decrease_refs(n: u16) -> (r: u16)
    ensures
        r == dec_sat(n),
{
    if n == 0 {
        n
    } else {
        n - 1
    }
}

/// Keys in insertion order, unique by path, and a reference counter.
pub struct KeySet {
    keys: IndexMap<String, Key>,
    refs: u16,
}

impl KeySet {
    /// Each entry is keyed by its key's path, and no path occurs twice.
    pub closed spec fn wf(&self) -> bool {
        &&& forall|i: int|
            0 <= i < entries(self.keys).len() ==> (#[trigger] entries(self.keys)[i]).0 == entries(
                self.keys,
            )[i].1.spec_path()
        &&& forall|i: int, j: int|
            0 <= i < entries(self.keys).len() && 0 <= j < entries(self.keys).len() && i != j
                ==> (#[trigger] entries(self.keys)[i]).0 != (#[trigger] entries(self.keys)[j]).0
    }

    pub closed spec fn spec_keys(&self) -> Seq<Key> {
        entries(self.keys).map_values(|e: (Seq<char>, Key)| e.1)
    }

    pub closed spec fn spec_refs(&self) -> u16 {
        self.refs
    }

    /// An empty set with a zero counter.
    pub fn new() -> (r: KeySet)
        ensures
            r.wf(),
            r.spec_keys() == Seq::<Key>::empty(),
            r.spec_refs() == 0,
    {
        let r = KeySet { keys: map_new(), refs: 0 };
        proof {
            assert(r.spec_keys() =~= Seq::<Key>::empty());
        }
        r
    }

    pub fn len(&self) -> (r: usize)
        requires
            self.wf(),
        ensures
            r == self.spec_keys().len(),
            unique_paths(self.spec_keys()),
    {
        map_len(&self.keys)
    }

    /// The position of the key with path `p`.
    fn position(&self, p: &str) -> (r: Option<usize>)
        requires
            self.wf(),
        ensures
            r matches Some(i) ==> i < self.spec_keys().len() && self.spec_keys()[i as int].spec_path()
                == p@,
            r is None ==> forall|i: int|
                0 <= i < self.spec_keys().len() ==> self.spec_keys()[i].spec_path() != p@,
    {
        let k = p.to_owned();
        let r = map_index_of(&self.keys, &k);
        proof {
            if r is None {
                assert forall|i: int| 0 <= i < self.spec_keys().len() implies self.spec_keys()[i].spec_path() != p@ by {
                    assert(entries(self.keys)[i].0 != k@);
                }
            }
        }
        r
    }

    /// Appends `key` unless a key with the same path is already there; a
    /// duplicate is dropped and the set left as it was.
    pub fn append(&mut self, key: Key)
        requires
            old(self).wf(),
        ensures
            final(self).wf(),
            final(self).spec_keys() == appended(old(self).spec_keys(), key),
            final(self).spec_refs() == old(self).spec_refs(),
            unique_paths(final(self).spec_keys()),
    {
        let p = key.name().path_str().to_owned();
        match self.position(p.as_str()) {
            Some(i) => {
                proof {
                    assert(self.spec_keys()[i as int].spec_path() == key.spec_path());
                }
            },
            None => {
                proof {
                    assert forall|i: int| 0 <= i < entries(self.keys).len() implies entries(self.keys)[i].0 != p@ by {
                        assert(self.spec_keys()[i].spec_path() != p@);
                    }
                }
                let ghost before = entries(self.keys);
                map_insert(&mut self.keys, p, key);
                proof {
                    assert(entries(self.keys) == before.push((key.spec_path(), key)));
                    assert(self.spec_keys() =~= old(self).spec_keys().push(key));
                }
            },
        }
    }

    /// Drops every key; the counter stays.
    pub fn clear(&mut self)
        ensures
            final(self).wf(),
            final(self).spec_keys() == Seq::<Key>::empty(),
            final(self).spec_refs() == old(self).spec_refs(),
    {
        map_clear(&mut self.keys);
        proof {
            assert(self.spec_keys() =~= Seq::<Key>::empty());
        }
    }

    /// Removes the key whose path is the one `name` parses to, and hands it
    /// over; the order of the others is kept. Nothing changes when `name`
    /// does not parse or no key has that path.
    pub fn take(&mut self, name: &str) -> (r: Option<Key>)
        requires
            old(self).wf(),
        ensures
            final(self).wf(),
            final(self).spec_refs() == old(self).spec_refs(),
            parse_name(name@) is None ==> r is None && final(self).spec_keys() == old(
                self,
            ).spec_keys(),
            parse_name(name@) matches Some((_, p)) ==> match r {
                Some(k) => exists|i: int|
                    0 <= i < old(self).spec_keys().len() && old(self).spec_keys()[i] == k
                        && k.spec_path() == p && final(self).spec_keys() == old(
                        self,
                    ).spec_keys().remove(i),
                None => final(self).spec_keys() == old(self).spec_keys() && forall|i: int|
                    0 <= i < old(self).spec_keys().len() ==> old(self).spec_keys()[i].spec_path()
                        != p,
            },
    {
        match Key::from_str(name) {
            Ok(k) => {
                match self.position(k.name().path_str()) {
                    Some(i) => {
                        let ghost before = entries(self.keys);
                        let removed = map_shift_remove_index(&mut self.keys, i);
                        proof {
                            assert(self.spec_keys() =~= old(self).spec_keys().remove(i as int));
                            assert forall|a: int| 0 <= a < entries(self.keys).len() implies (#[trigger] entries(self.keys)[a]).0 == entries(self.keys)[a].1.spec_path() by {
                                if a < i {
                                    assert(entries(self.keys)[a] == before[a]);
                                } else {
                                    assert(entries(self.keys)[a] == before[a + 1]);
                                }
                            }
                            assert forall|a: int, b: int|
                                0 <= a < entries(self.keys).len() && 0 <= b < entries(self.keys).len() && a != b
                                    implies (#[trigger] entries(self.keys)[a]).0 != (#[trigger] entries(self.keys)[b]).0 by {
                                let a2 = if a < i { a } else { a + 1 };
                                let b2 = if b < i { b } else { b + 1 };
                                assert(entries(self.keys)[a] == before[a2]);
                                assert(entries(self.keys)[b] == before[b2]);
                            }
                        }
                        match removed {
                            Some((_, v)) => Some(v),
                            None => None,
                        }
                    },
                    None => None,
                }
            },
            Err(_) => None,
        }
    }

    /// The key with the same path as `key`, if any.
    pub fn lookup_key(&self, key: &Key) -> (r: Option<&Key>)
        requires
            self.wf(),
        ensures
            match r {
                Some(k) => exists|i: int|
                    0 <= i < self.spec_keys().len() && self.spec_keys()[i] == *k && k.spec_path()
                        == key.spec_path(),
                None => forall|i: int|
                    0 <= i < self.spec_keys().len() ==> self.spec_keys()[i].spec_path()
                        != key.spec_path(),
            },
    {
        match self.position(key.name().path_str()) {
            Some(i) => match map_get_index(&self.keys, i) {
                Some((_, v)) => {
                    proof {
                        assert(self.spec_keys()[i as int] == *v);
                    }
                    Some(v)
                },
                None => None,
            },
            None => None,
        }
    }

    /// The key whose path is the one `name` parses to; none when `name` does
    /// not parse or no key has that path.
    pub fn lookup(&self, name: &str) -> (r: Option<&Key>)
        requires
            self.wf(),
        ensures
            parse_name(name@) is None ==> r is None,
            parse_name(name@) matches Some((_, p)) ==> match r {
                Some(k) => exists|i: int|
                    0 <= i < self.spec_keys().len() && self.spec_keys()[i] == *k && k.spec_path()
                        == p,
                None => forall|i: int|
                    0 <= i < self.spec_keys().len() ==> self.spec_keys()[i].spec_path() != p,
            },
    {
        match Key::from_str(name) {
            Ok(k) => self.lookup_key(&k),
            Err(_) => None,
        }
    }

    /// Where `index` points in this set, by the rule of `index_in`.
    fn resolve_index(&self, index: isize) -> (r: Option<usize>)
        requires
            self.wf(),
        ensures
            match index_in(index as int, self.spec_keys().len() as int) {
                Some(j) => r matches Some(i) && i as int == j,
                None => r is None,
            },
    {
        let len = self.len();
        if index >= 0 {
            let i = index as usize;
            if i < len {
                Some(i)
            } else {
                None
            }
        } else {
            let back: usize = (-(index + 1)) as usize + 1;
            if back <= len {
                Some(len - back)
            } else {
                None
            }
        }
    }

    /// The key at `index` in insertion order; a negative index counts from
    /// the back (`-1` is the last key). Out of range gives none.
    pub fn get(&self, index: isize) -> (r: Option<&Key>)
        requires
            self.wf(),
        ensures
            match index_in(index as int, self.spec_keys().len() as int) {
                Some(j) => r matches Some(k) && *k == self.spec_keys()[j],
                None => r is None,
            },
    {
        match self.resolve_index(index) {
            Some(i) => match map_get_index(&self.keys, i) {
                Some((_, v)) => {
                    proof {
                        assert(self.spec_keys()[i as int] == *v);
                    }
                    Some(v)
                },
                None => None,
            },
            None => None,
        }
    }

    /// Removes the key at `index` (as for `get`) and hands it over; the order
    /// of the others is kept. Out of range changes nothing.
    pub fn remove(&mut self, index: isize) -> (r: Option<Key>)
        requires
            old(self).wf(),
        ensures
            final(self).wf(),
            final(self).spec_refs() == old(self).spec_refs(),
            match index_in(index as int, old(self).spec_keys().len() as int) {
                Some(j) => r == Some(old(self).spec_keys()[j]) && final(self).spec_keys() == old(
                    self,
                ).spec_keys().remove(j),
                None => r is None && final(self).spec_keys() == old(self).spec_keys(),
            },
    {
        match self.resolve_index(index) {
            Some(i) => {
                let ghost before = entries(self.keys);
                let removed = map_shift_remove_index(&mut self.keys, i);
                proof {
                    assert(self.spec_keys() =~= old(self).spec_keys().remove(i as int));
                    assert forall|a: int| 0 <= a < entries(self.keys).len() implies (#[trigger] entries(self.keys)[a]).0 == entries(self.keys)[a].1.spec_path() by {
                        if a < i {
                            assert(entries(self.keys)[a] == before[a]);
                        } else {
                            assert(entries(self.keys)[a] == before[a + 1]);
                        }
                    }
                    assert forall|a: int, b: int|
                        0 <= a < entries(self.keys).len() && 0 <= b < entries(self.keys).len() && a != b
                            implies (#[trigger] entries(self.keys)[a]).0 != (#[trigger] entries(self.keys)[b]).0 by {
                        let a2 = if a < i { a } else { a + 1 };
                        let b2 = if b < i { b } else { b + 1 };
                        assert(entries(self.keys)[a] == before[a2]);
                        assert(entries(self.keys)[b] == before[b2]);
                    }
                }
                match removed {
                    Some((_, v)) => {
                        proof {
                            assert(v == old(self).spec_keys()[i as int]);
                        }
                        Some(v)
                    },
                    None => None,
                }
            },
            None => None,
        }
    }

    /// The keys in insertion order.
    pub fn values(&self) -> (r: Vec<&Key>)
        requires
            self.wf(),
        ensures
            r@.len() == self.spec_keys().len(),
            forall|i: int| 0 <= i < r@.len() ==> *r@[i] == self.spec_keys()[i],
    {
        let len = self.len();
        let mut out: Vec<&Key> = Vec::new();
        let mut i: usize = 0;
        while i < len
            invariant
                len == self.spec_keys().len(),
                i <= len,
                out@.len() == i,
                forall|j: int| 0 <= j < i ==> *out@[j] == self.spec_keys()[j],
            decreases len - i,
        {
            match map_get_index(&self.keys, i) {
                Some((_, v)) => out.push(v),
                None => {},
            }
            i = i + 1;
        }
        out
    }

    pub fn reference_counter(&self) -> (r: u16)
        ensures
            r == self.spec_refs(),
    {
        self.refs
    }

    /// Increments the counter, staying at `u16::MAX`; returns the new count.
    pub fn increase_reference_counter(&mut self) -> (r: u16)
        requires
            old(self).wf(),
        ensures
            final(self).wf(),
            r == inc_sat(old(self).spec_refs()),
            final(self).spec_refs() == r,
            final(self).spec_keys() == old(self).spec_keys(),
    {
        self.refs = increase_refs(self.refs);
        self.refs
    }

    /// Decrements the counter, staying at zero; returns the new count.
    pub fn decrease_reference_counter(&mut self) -> (r: u16)
        requires
            old(self).wf(),
        ensures
            final(self).wf(),
            r == dec_sat(old(self).spec_refs()),
            final(self).spec_refs() == r,
            final(self).spec_keys() == old(self).spec_keys(),
    {
        self.refs = decrease_refs(self.refs);
        self.refs
    }

    /// Overwrites the counter; returns the new count.
    pub fn set_reference_counter(&mut self, n: u16) -> (r: u16)
        requires
            old(self).wf(),
        ensures
            final(self).wf(),
            r == n,
            final(self).spec_refs() == n,
            final(self).spec_keys() == old(self).spec_keys(),
    {
        self.refs = n;
        self.refs
    }

    /// A set holding `keys` appended in order: a key whose path is already
    /// there is dropped.
    pub fn from_iter(keys: Vec<Key>) -> (r: KeySet)
        ensures
            r.wf(),
            r.spec_keys() == collected(keys@),
            r.spec_refs() == 0,
    {
        let mut ks = KeySet::new();
        let mut rest = keys;
        let ghost all = keys@;
        while rest.len() > 0
            invariant
                ks.wf(),
                ks.spec_refs() == 0,
                rest@.len() <= all.len(),
                rest@ == all.skip(all.len() - rest@.len()),
                ks.spec_keys() == collected(all.take(all.len() - rest@.len())),
            decreases rest@.len(),
        {
            let ghost done = all.len() - rest@.len();
            let k = rest.remove(0);
            proof {
                assert(all.take(done + 1).drop_last() =~= all.take(done));
                assert(all.take(done + 1).last() == all[done]);
                assert(rest@ =~= all.skip(all.len() - rest@.len()));
            }
            ks.append(k);
        }
        proof {
            assert(all.take(all.len() as int) =~= all);
        }
        ks
    }
}

impl Default for KeySet {
    fn default() -> (r: KeySet)
        ensures
            r.wf(),
            r.spec_keys() == Seq::<Key>::empty(),
            r.spec_refs() == 0,
    {
        KeySet::new()
    }
}

} // verus!
