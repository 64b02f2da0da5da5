//! Small keyed tables used by the world model.
//!
//! Every table keeps its entries in insertion order and looks a key up by its first
//! entry; `insert` replaces the value of an existing key in place, so a key occurs once
//! in any table built by `new` and `insert`.
use vstd::prelude::*;
use crate::util::{first_index, has_key, key_index, key_is, lemma_first_index, lookup, text_is};
use crate::models::Direction;

verus! {

/// A table from integer ids to values.
#[derive(Debug)]
pub struct IdMap<V> {
    pub entries: Vec<(i32, V)>,
}

impl<V> View for IdMap<V> {
    type V = Seq<(i32, V)>;

    open spec fn view(&self) -> Seq<(i32, V)> {
        self.entries@
    }
}

/// The entries of `s` after inserting `v` under `k`.
pub open spec fn inserted<K, V>(s: Seq<(K, V)>, k: K, v: V) -> Seq<(K, V)> {
    if has_key(s, k) {
        s.update(key_index(s, k), (k, v))
    } else {
        s.push((k, v))
    }
}

/// Inserting a key twice leaves the table as inserting the later value alone would:
/// the later value replaces the earlier one in place.
pub proof fn lemma_insert_twice<K, V>(s: Seq<(K, V)>, k: K, a: V, b: V)
    ensures
        inserted(inserted(s, k, a), k, b) == inserted(s, k, b),
{
    let t = inserted(s, k, a);
    lemma_first_index(s, key_is::<K, V>(k));
    lemma_first_index(t, key_is::<K, V>(k));
    let ik = key_index(s, k);
    if has_key(s, k) {
        assert(key_is::<K, V>(k)(t[ik]));
        if key_index(t, k) < ik {
            assert(key_is::<K, V>(k)(s[key_index(t, k)]));
        }
        assert(inserted(t, k, b) =~= inserted(s, k, b));
    } else {
        assert(key_is::<K, V>(k)(t[s.len() as int]));
        if key_index(t, k) < s.len() {
            assert(key_is::<K, V>(k)(s[key_index(t, k)]));
        }
        assert(inserted(t, k, b) =~= inserted(s, k, b));
    }
}

/// Reading a key after inserting it gives the inserted value; other keys are untouched.
pub proof fn lemma_lookup_inserted<K, V>(s: Seq<(K, V)>, k: K, v: V, j: K)
    ensures
        lookup(inserted(s, k, v), k) == Some(v),
        j != k ==> lookup(inserted(s, k, v), j) == lookup(s, j),
        has_key(inserted(s, k, v), j) == (j == k || has_key(s, j)),
{
    let t = inserted(s, k, v);
    lemma_first_index(s, key_is::<K, V>(k));
    lemma_first_index(s, key_is::<K, V>(j));
    lemma_first_index(t, key_is::<K, V>(k));
    lemma_first_index(t, key_is::<K, V>(j));
    let ik = key_index(s, k);
    let jk = key_index(s, j);
    if has_key(s, k) {
        assert(key_is::<K, V>(k)(t[ik]));
        if key_index(t, k) < ik {
            assert(key_is::<K, V>(k)(s[key_index(t, k)]));
        }
        if j != k {
            if jk >= 0 {
                assert(key_is::<K, V>(j)(t[jk]));
                if key_index(t, j) >= 0 && key_index(t, j) < jk {
                    assert(key_is::<K, V>(j)(s[key_index(t, j)]));
                }
            } else {
                if key_index(t, j) >= 0 {
                    assert(key_is::<K, V>(j)(s[key_index(t, j)]));
                }
            }
        }
    } else {
        assert(key_is::<K, V>(k)(t[s.len() as int]));
        if key_index(t, k) >= 0 && key_index(t, k) < s.len() {
            assert(key_is::<K, V>(k)(s[key_index(t, k)]));
        }
        if j != k {
            if jk >= 0 {
                assert(key_is::<K, V>(j)(t[jk]));
                if key_index(t, j) >= 0 && key_index(t, j) < jk {
                    assert(key_is::<K, V>(j)(s[key_index(t, j)]));
                }
            } else {
                if key_index(t, j) >= 0 {
                    assert(key_index(t, j) < s.len());
                    assert(key_is::<K, V>(j)(s[key_index(t, j)]));
                }
            }
        }
    }
}

/// Inserting a key that no entry carries appends it.
pub proof fn lemma_insert_fresh<K, V>(s: Seq<(K, V)>, k: K, v: V)
    requires
        forall|i: int| 0 <= i < s.len() ==> s[i].0 != k,
    ensures
        inserted(s, k, v) == s.push((k, v)),
{
    lemma_first_index(s, key_is::<K, V>(k));
    if has_key(s, k) {
        assert(s[key_index(s, k)].0 == k);
    }
}

/// The key of any entry is a key of the table.
pub proof fn lemma_has_key_at<K, V>(s: Seq<(K, V)>, i: int)
    requires
        0 <= i < s.len(),
    ensures
        has_key(s, s[i].0),
{
    lemma_first_index(s, key_is::<K, V>(s[i].0));
    assert(key_is::<K, V>(s[i].0)(s[i]));
}

/// An entry whose key no earlier entry carries is the one a lookup finds.
pub proof fn lemma_key_index_at<K, V>(s: Seq<(K, V)>, i: int)
    requires
        0 <= i < s.len(),
        forall|j: int| 0 <= j < i ==> s[j].0 != s[i].0,
    ensures
        key_index(s, s[i].0) == i,
        lookup(s, s[i].0) == Some(s[i].1),
{
    let k = s[i].0;
    lemma_first_index(s, key_is::<K, V>(k));
    assert(key_is::<K, V>(k)(s[i]));
    let f = key_index(s, k);
    if f < i {
        assert(key_is::<K, V>(k)(s[f]));
    }
}

impl<V> IdMap<V> {
    /// An empty table.
    pub fn new() -> (m: Self)
        ensures
            m@ == Seq::<(i32, V)>::empty(),
    {
        IdMap { entries: Vec::new() }
    }

    /// Position of the entry for `id`.
    pub fn index_of(&self, id: i32) -> (r: Option<usize>)
        ensures
            match r {
                Some(i) => i as int == key_index(self@, id) && i < self@.len() && self@[i as int].0 == id,
                None => key_index(self@, id) == -1,
            },
    {
        proof {
            lemma_first_index(self@, key_is::<i32, V>(id));
        }
        let mut i: usize = 0;
        while i < self.entries.len()
            invariant
                i <= self@.len(),
                forall|j: int| 0 <= j < i ==> self@[j].0 != id,
                -1 <= key_index(self@, id) < self@.len(),
                key_index(self@, id) >= 0 ==> self@[key_index(self@, id)].0 == id,
                forall|j: int| 0 <= j < key_index(self@, id) ==> self@[j].0 != id,
                key_index(self@, id) == -1 ==> forall|j: int| 0 <= j < self@.len() ==> self@[j].0 != id,
            decreases self@.len() - i,
        {
            if self.entries[i].0 == id {
                return Some(i);
            }
            i = i + 1;
        }
        None
    }

    /// Whether some entry has key `id`.
    pub fn contains_key(&self, id: &i32) -> (b: bool)
        ensures
            b == has_key(self@, *id),
    {
        self.index_of(*id).is_some()
    }

    /// The value stored under `id`.
    pub fn get(&self, id: &i32) -> (r: Option<&V>)
        ensures
            match r {
                Some(v) => lookup(self@, *id) == Some(*v),
                None => lookup(self@, *id) is None,
            },
    {
        match self.index_of(*id) {
            Some(i) => Some(&self.entries[i].1),
            None => None,
        }
    }

    /// Stores `v` under `id`, giving back the value it replaces.
    pub fn insert(&mut self, id: i32, v: V) -> (prev: Option<V>)
        ensures
            final(self)@ == inserted(old(self)@, id, v),
            prev == lookup(old(self)@, id),
    {
        match self.index_of(id) {
            Some(i) => {
                let e = self.entries.remove(i);
                self.entries.insert(i, (id, v));
                proof {
                    assert(final(self)@ =~= old(self)@.update(i as int, (id, v)));
                }
                Some(e.1)
            },
            None => {
                self.entries.push((id, v));
                None
            },
        }
    }
}

/// A table from names to values; names are compared by their characters.
#[derive(Debug)]
pub struct NameMap<V> {
    pub entries: Vec<(String, V)>,
}

/// The entries of a name table, with each name as its characters.
pub open spec fn name_entries<V>(s: Seq<(String, V)>) -> Seq<(Seq<char>, V)> {
    s.map_values(|e: (String, V)| (e.0@, e.1))
}

impl<V> View for NameMap<V> {
    type V = Seq<(Seq<char>, V)>;

    open spec fn view(&self) -> Seq<(Seq<char>, V)> {
        name_entries(self.entries@)
    }
}

impl<V> NameMap<V> {
    /// An empty table.
    pub fn new() -> (m: Self)
        ensures
            m@ == Seq::<(Seq<char>, V)>::empty(),
    {
        NameMap { entries: Vec::new() }
    }

    /// Position of the entry for `name`.
    pub fn index_of(&self, name: &str) -> (r: Option<usize>)
        ensures
            match r {
                Some(i) => i as int == key_index(self@, name@) && i < self@.len() && self@[i as int].0 == name@,
                None => key_index(self@, name@) == -1,
            },
    {
        let ghost k = name@;
        proof {
            lemma_first_index(self@, key_is::<Seq<char>, V>(k));
        }
        let mut i: usize = 0;
        while i < self.entries.len()
            invariant
                i <= self@.len(),
                k == name@,
                self@.len() == self.entries@.len(),
                forall|j: int| 0 <= j < i ==> self@[j].0 != k,
                -1 <= key_index(self@, k) < self@.len(),
                key_index(self@, k) >= 0 ==> self@[key_index(self@, k)].0 == k,
                forall|j: int| 0 <= j < key_index(self@, k) ==> self@[j].0 != k,
                key_index(self@, k) == -1 ==> forall|j: int| 0 <= j < self@.len() ==> self@[j].0 != k,
            decreases self@.len() - i,
        {
            assert(self@[i as int].0 == self.entries@[i as int].0@);
            let same = text_is(self.entries[i].0.as_str(), name);
            if same {
                return Some(i);
            }
            i = i + 1;
        }
        None
    }

    /// Whether some entry is named `name`.
    pub fn contains_key(&self, name: &str) -> (b: bool)
        ensures
            b == has_key(self@, name@),
    {
        self.index_of(name).is_some()
    }

    /// The value stored under `name`.
    pub fn get(&self, name: &str) -> (r: Option<&V>)
        ensures
            match r {
                Some(v) => lookup(self@, name@) == Some(*v),
                None => lookup(self@, name@) is None,
            },
    {
        match self.index_of(name) {
            Some(i) => Some(&self.entries[i].1),
            None => None,
        }
    }

    /// Stores `v` under `name`, giving back the value it replaces.
    pub fn insert(&mut self, name: String, v: V) -> (prev: Option<V>)
        ensures
            final(self)@ == inserted(old(self)@, name@, v),
            prev == lookup(old(self)@, name@),
    {
        let ghost k = name@;
        match self.index_of(name.as_str()) {
            Some(i) => {
                let e = self.entries.remove(i);
                self.entries.insert(i, (name, v));
                proof {
                    assert(final(self).entries@ =~= old(self).entries@.update(i as int, (name, v)));
                    assert(final(self)@ =~= old(self)@.update(i as int, (k, v)));
                }
                Some(e.1)
            },
            None => {
                self.entries.push((name, v));
                proof {
                    assert(final(self)@ =~= old(self)@.push((k, v)));
                }
                None
            },
        }
    }
}

/// A table from directions to room ids.
#[derive(Debug)]
pub struct ExitMap {
    pub entries: Vec<(Direction, i32)>,
}

impl View for ExitMap {
    type V = Seq<(Direction, i32)>;

    open spec fn view(&self) -> Seq<(Direction, i32)> {
        self.entries@
    }
}

impl ExitMap {
    /// An empty table.
    pub fn new() -> (m: Self)
        ensures
            m@ == Seq::<(Direction, i32)>::empty(),
    {
        ExitMap { entries: Vec::new() }
    }

    /// Position of the entry for `dir`.
    pub fn index_of(&self, dir: Direction) -> (r: Option<usize>)
        ensures
            match r {
                Some(i) => i as int == key_index(self@, dir) && i < self@.len() && self@[i as int].0 == dir,
                None => key_index(self@, dir) == -1,
            },
    {
        proof {
            lemma_first_index(self@, key_is::<Direction, i32>(dir));
        }
        let mut i: usize = 0;
        while i < self.entries.len()
            invariant
                i <= self@.len(),
                forall|j: int| 0 <= j < i ==> self@[j].0 != dir,
                -1 <= key_index(self@, dir) < self@.len(),
                key_index(self@, dir) >= 0 ==> self@[key_index(self@, dir)].0 == dir,
                forall|j: int| 0 <= j < key_index(self@, dir) ==> self@[j].0 != dir,
                key_index(self@, dir) == -1 ==> forall|j: int| 0 <= j < self@.len() ==> self@[j].0 != dir,
            decreases self@.len() - i,
        {
            if self.entries[i].0 == dir {
                return Some(i);
            }
            i = i + 1;
        }
        None
    }

    /// Whether the table leads somewhere in direction `dir`.
    pub fn contains_key(&self, dir: &Direction) -> (b: bool)
        ensures
            b == has_key(self@, *dir),
    {
        self.index_of(*dir).is_some()
    }

    /// The room that direction `dir` leads to.
    pub fn get(&self, dir: &Direction) -> (r: Option<i32>)
        ensures
            r == lookup(self@, *dir),
    {
        match self.index_of(*dir) {
            Some(i) => Some(self.entries[i].1),
            None => None,
        }
    }

    /// Makes direction `dir` lead to `room`, giving back the room it led to before.
    pub fn insert(&mut self, dir: Direction, room: i32) -> (prev: Option<i32>)
        ensures
            final(self)@ == inserted(old(self)@, dir, room),
            prev == lookup(old(self)@, dir),
    {
        match self.index_of(dir) {
            Some(i) => {
                let prev = self.entries[i].1;
                self.entries.set(i, (dir, room));
                Some(prev)
            },
            None => {
                self.entries.push((dir, room));
                None
            },
        }
    }
}

} // verus!
