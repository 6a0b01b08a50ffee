use vstd::prelude::*;

verus! {

/// A map from names to values, kept as a list of entries. Lookups find the
/// first entry with the name; `insert` replaces that entry or appends a new
/// one, and `remove` drops every entry with the name, so a name that only
/// these operations put in occurs once.
#[derive(Clone, Debug, PartialEq)]
pub struct Table<V> {
    entries: Vec<(String, V)>,
}

/// The index of the first entry named `k`.
pub open spec fn find_in<V>(entries: Seq<(String, V)>, k: Seq<char>) -> Option<int>
    decreases entries.len(),
{
    if entries.len() == 0 {
        None
    } else {
        match find_in(entries.drop_last(), k) {
            Some(i) => Some(i),
            None => if entries.last().0@ == k {
                Some(entries.len() - 1)
            } else {
                None
            },
        }
    }
}

/// The entries whose name is not `k`, in order.
pub open spec fn without<V>(entries: Seq<(String, V)>, k: Seq<char>) -> Seq<(String, V)>
    decreases entries.len(),
{
    if entries.len() == 0 {
        entries
    } else if entries.last().0@ == k {
        without(entries.drop_last(), k)
    } else {
        without(entries.drop_last(), k).push(entries.last())
    }
}

proof fn lemma_find_in_bounds<V>(entries: Seq<(String, V)>, k: Seq<char>)
    ensures
        find_in(entries, k) matches Some(i) ==> {
            &&& 0 <= i < entries.len()
            &&& entries[i].0@ == k
            &&& forall|j: int| 0 <= j < i ==> #[trigger] entries[j].0@ != k
        },
        find_in(entries, k) is None ==> forall|j: int| 0 <= j < entries.len() ==> #[trigger] entries[j].0@ != k,
    decreases entries.len(),
{
    if entries.len() > 0 {
        let d = entries.drop_last();
        lemma_find_in_bounds(d, k);
        assert forall|j: int| 0 <= j < d.len() implies #[trigger] d[j] == entries[j] by {}
        match find_in(d, k) {
            Some(i) => {
                assert forall|j: int| 0 <= j < i implies #[trigger] entries[j].0@ != k by {
                    assert(d[j] == entries[j]);
                }
            },
            None => {
                assert forall|j: int| 0 <= j < entries.len() - 1 implies #[trigger] entries[j].0@ != k by {
                    assert(d[j] == entries[j]);
                }
            },
        }
    }
}

/// The first index with the name, characterised directly.
proof fn lemma_find_in_first<V>(entries: Seq<(String, V)>, k: Seq<char>, i: int)
    requires
        0 <= i < entries.len(),
        entries[i].0@ == k,
        forall|j: int| 0 <= j < i ==> #[trigger] entries[j].0@ != k,
    ensures
        find_in(entries, k) == Some(i),
    decreases entries.len(),
{
    lemma_find_in_bounds(entries, k);
    if i < entries.len() - 1 {
        lemma_find_in_first(entries.drop_last(), k, i);
    } else {
        lemma_find_in_bounds(entries.drop_last(), k);
    }
}

proof fn lemma_find_in_none<V>(entries: Seq<(String, V)>, k: Seq<char>)
    requires
        forall|j: int| 0 <= j < entries.len() ==> #[trigger] entries[j].0@ != k,
    ensures
        find_in(entries, k) is None,
{
    lemma_find_in_bounds(entries, k);
}

proof fn lemma_without<V>(entries: Seq<(String, V)>, k: Seq<char>, k2: Seq<char>)
    ensures
        k2 == k ==> find_in(without(entries, k), k2) is None,
        k2 != k ==> match find_in(entries, k2) {
            Some(i) => find_in(without(entries, k), k2) matches Some(j) && without(entries, k)[j] == entries[i],
            None => find_in(without(entries, k), k2) is None,
        },
    decreases entries.len(),
{
    if entries.len() > 0 {
        let d = entries.drop_last();
        lemma_without(d, k, k2);
        let w = without(d, k);
        lemma_find_in_bounds(d, k2);
        lemma_find_in_bounds(entries, k2);
        lemma_find_in_bounds(w, k2);
        if entries.last().0@ != k {
            let w2 = w.push(entries.last());
            assert(w2.drop_last() =~= w);
            lemma_find_in_bounds(w2, k2);
            if k2 != k {
                match find_in(d, k2) {
                    Some(i) => {
                        let j = find_in(w, k2)->0;
                        lemma_find_in_first(w2, k2, j);
                    },
                    None => {
                        if entries.last().0@ == k2 {
                            lemma_find_in_none(w, k2);
                            lemma_find_in_first(w2, k2, w.len() as int);
                        }
                    },
                }
            } else {
                lemma_find_in_none(w, k2);
            }
        }
    }
}

/// Lookups depend on the names only.
pub proof fn lemma_find_same_names<V, W>(a: Seq<(String, V)>, b: Seq<(String, W)>, k: Seq<char>)
    requires
        a.len() == b.len(),
        forall|i: int| 0 <= i < a.len() ==> #[trigger] a[i].0@ == b[i].0@,
    ensures
        find_in(a, k) == find_in(b, k),
    decreases a.len(),
{
    if a.len() > 0 {
        let da = a.drop_last();
        let db = b.drop_last();
        assert forall|i: int| 0 <= i < da.len() implies #[trigger] da[i].0@ == db[i].0@ by {
            assert(da[i] == a[i]);
            assert(db[i] == b[i]);
        }
        lemma_find_same_names(da, db, k);
        assert(a.last().0@ == b.last().0@);
    }
}

/// Removing the entries named `k` keeps names apart and adds no name.
proof fn lemma_without_unique<V>(entries: Seq<(String, V)>, k: Seq<char>)
    requires
        forall|i: int, j: int| 0 <= i < j < entries.len() ==> #[trigger] entries[i].0@ != #[trigger] entries[j].0@,
    ensures
        forall|i: int, j: int|
            0 <= i < j < without(entries, k).len() ==> #[trigger] without(entries, k)[i].0@ != #[trigger] without(entries, k)[j].0@,
        forall|j: int| 0 <= j < without(entries, k).len() ==> exists|i: int| 0 <= i < entries.len() && #[trigger] without(entries, k)[j].0@ == entries[i].0@,
    decreases entries.len(),
{
    if entries.len() > 0 {
        let pre = entries.drop_last();
        assert forall|i: int, j: int| 0 <= i < j < pre.len() implies #[trigger] pre[i].0@ != #[trigger] pre[j].0@ by {
            assert(pre[i] == entries[i]);
            assert(pre[j] == entries[j]);
        }
        lemma_without_unique(pre, k);
        let w = without(pre, k);
        if entries.last().0@ != k {
            let w2 = w.push(entries.last());
            assert forall|j: int| 0 <= j < w.len() implies #[trigger] w[j].0@ != entries.last().0@ by {
                let i = choose|i: int| 0 <= i < pre.len() && w[j].0@ == pre[i].0@;
                assert(pre[i] == entries[i]);
                assert(entries[i].0@ != entries[entries.len() - 1].0@);
            }
            assert forall|j: int| 0 <= j < w2.len() implies exists|i: int| 0 <= i < entries.len() && #[trigger] w2[j].0@ == entries[i].0@ by {
                if j < w.len() {
                    let i = choose|i: int| 0 <= i < pre.len() && w[j].0@ == pre[i].0@;
                    assert(pre[i] == entries[i]);
                    assert(w2[j] == w[j]);
                } else {
                    assert(w2[j].0@ == entries[entries.len() - 1].0@);
                }
            }
            assert forall|a: int, b: int| 0 <= a < b < w2.len() implies #[trigger] w2[a].0@ != #[trigger] w2[b].0@ by {
                if b < w.len() {
                    assert(w2[a] == w[a]);
                    assert(w2[b] == w[b]);
                } else {
                    assert(w2[a] == w[a]);
                }
            }
        } else {
            assert forall|j: int| 0 <= j < w.len() implies exists|i: int| 0 <= i < entries.len() && #[trigger] w[j].0@ == entries[i].0@ by {
                let i = choose|i: int| 0 <= i < pre.len() && w[j].0@ == pre[i].0@;
                assert(pre[i] == entries[i]);
            }
        }
    }
}

pub proof fn lemma_find_in_props<V>(entries: Seq<(String, V)>, k: Seq<char>)
    ensures
        find_in(entries, k) matches Some(i) ==> 0 <= i < entries.len() && entries[i].0@ == k,
        find_in(entries, k) is None ==> forall|j: int| 0 <= j < entries.len() ==> #[trigger] entries[j].0@ != k,
{
    lemma_find_in_bounds(entries, k);
}

impl<V> Table<V> {
    pub closed spec fn spec_entries(&self) -> Seq<(String, V)> {
        self.entries@
    }

    /// The names, in order.
    pub open spec fn spec_keys(&self) -> Seq<Seq<char>> {
        self.spec_entries().map_values(|e: (String, V)| e.0@)
    }

    /// The values, in order.
    pub open spec fn spec_values(&self) -> Seq<V> {
        self.spec_entries().map_values(|e: (String, V)| e.1)
    }

    /// No two entries have the same name.
    pub open spec fn unique(&self) -> bool {
        forall|i: int, j: int|
            0 <= i < j < self.spec_entries().len() ==> #[trigger] self.spec_entries()[i].0@ != #[trigger] self.spec_entries()[j].0@
    }

    pub open spec fn spec_len(&self) -> nat {
        self.spec_entries().len()
    }

    pub open spec fn spec_find(&self, k: Seq<char>) -> Option<int> {
        find_in(self.spec_entries(), k)
    }

    pub open spec fn spec_contains(&self, k: Seq<char>) -> bool {
        self.spec_find(k) is Some
    }

    /// The value stored under `k`.
    pub open spec fn spec_get(&self, k: Seq<char>) -> Option<V> {
        match self.spec_find(k) {
            Some(i) => Some(self.spec_entries()[i].1),
            None => None,
        }
    }

    pub fn new() -> (r: Self)
        ensures
            r.spec_entries().len() == 0,
            forall|k: Seq<char>| #[trigger] r.spec_get(k) is None,
            r.unique(),
    {
        Table { entries: Vec::new() }
    }

    /// A table with exactly these entries.
    pub fn from_entries(entries: Vec<(String, V)>) -> (r: Self)
        ensures
            r.spec_entries() == entries@,
    {
        Table { entries }
    }

    /// The entries, in order.
    pub fn into_entries(self) -> (r: Vec<(String, V)>)
        ensures
            r@ == self.spec_entries(),
    {
        self.entries
    }

    pub fn len(&self) -> (r: usize)
        ensures
            r == self.spec_len(),
    {
        self.entries.len()
    }

    /// The index of the first entry named `key`.
    pub fn find(&self, key: &str) -> (r: Option<usize>)
        ensures
            r matches Some(i) ==> i < self.spec_len(),
            match r {
                Some(i) => self.spec_find(key@) == Some(i as int),
                None => self.spec_find(key@) is None,
            },
    {
        let k = key.to_owned();
        let mut i: usize = 0;
        while i < self.entries.len()
            invariant
                k@ == key@,
                i <= self.entries.len(),
                forall|j: int| 0 <= j < i ==> #[trigger] self.entries@[j].0@ != key@,
            decreases self.entries.len() - i,
        {
            if self.entries[i].0 == k {
                proof {
                    lemma_find_in_first(self.entries@, key@, i as int);
                }
                return Some(i);
            }
            i = i + 1;
        }
        proof {
            lemma_find_in_none(self.entries@, key@);
        }
        None
    }

    pub fn contains_key(&self, key: &str) -> (r: bool)
        ensures
            r == self.spec_contains(key@),
    {
        self.find(key).is_some()
    }

    pub fn get(&self, key: &str) -> (r: Option<&V>)
        ensures
            match r {
                Some(v) => self.spec_get(key@) == Some(*v),
                None => self.spec_get(key@) is None,
            },
    {
        match self.find(key) {
            Some(i) => Some(&self.entries[i].1),
            None => None,
        }
    }

    pub fn key_at(&self, i: usize) -> (r: &String)
        requires
            i < self.spec_len(),
        ensures
            *r == self.spec_entries()[i as int].0,
    {
        &self.entries[i].0
    }

    pub fn value_at(&self, i: usize) -> (r: &V)
        requires
            i < self.spec_len(),
        ensures
            *r == self.spec_entries()[i as int].1,
    {
        &self.entries[i].1
    }

    /// Stores `value` under `key`: in the first entry with the name when there
    /// is one, as a new last entry when there is not.
    pub fn insert(&mut self, key: String, value: V)
        ensures
            final(self).spec_get(key@) == Some(value),
            final(self).spec_len() == old(self).spec_len() + if old(self).spec_contains(key@) {
                0int
            } else {
                1int
            },
            forall|k: Seq<char>| k != key@ ==> #[trigger] final(self).spec_get(k) == old(self).spec_get(k),
            match old(self).spec_find(key@) {
                Some(i) => final(self).spec_entries() == old(self).spec_entries().update(
                    i,
                    (old(self).spec_entries()[i].0, value),
                ),
                None => final(self).spec_entries() == old(self).spec_entries().push((key, value)),
            },
            old(self).unique() ==> final(self).unique(),
    {
        let ghost old_entries = self.entries@;
        let ghost kv = key@;
        proof {
            lemma_find_in_bounds(old_entries, kv);
        }
        match self.find(key.as_str()) {
            Some(i) => {
                let k = self.entries[i].0.clone();
                self.entries.set(i, (k, value));
                proof {
                    lemma_find_in_first(self.entries@, kv, i as int);
                    assert forall|k2: Seq<char>| k2 != kv implies #[trigger] self.spec_get(k2) == old(self).spec_get(k2) by {
                        lemma_find_in_bounds(old_entries, k2);
                        lemma_find_in_bounds(self.entries@, k2);
                        match find_in(old_entries, k2) {
                            Some(j) => {
                                assert(j != i);
                                lemma_find_in_first(self.entries@, k2, j);
                            },
                            None => {
                                lemma_find_in_none(self.entries@, k2);
                            },
                        }
                    }
                    if old(self).unique() {
                        assert forall|a: int, b: int| 0 <= a < b < self.entries@.len() implies #[trigger] self.entries@[a].0@
                            != #[trigger] self.entries@[b].0@ by {
                            assert(self.entries@[a].0@ == old_entries[a].0@);
                            assert(self.entries@[b].0@ == old_entries[b].0@);
                        }
                    }
                }
            },
            None => {
                proof {
                    lemma_find_in_props(old_entries, kv);
                }
                self.entries.push((key, value));
                proof {
                    let n = old_entries.len() as int;
                    lemma_find_in_first(self.entries@, kv, n);
                    assert forall|k2: Seq<char>| k2 != kv implies #[trigger] self.spec_get(k2) == old(self).spec_get(k2) by {
                        lemma_find_in_bounds(old_entries, k2);
                        match find_in(old_entries, k2) {
                            Some(j) => {
                                lemma_find_in_first(self.entries@, k2, j);
                            },
                            None => {
                                lemma_find_in_none(self.entries@, k2);
                            },
                        }
                    }
                }
            },
        }
    }

    /// Puts `value` in the first entry named `key` and hands back what was
    /// there; without such an entry the table is left as it is.
    pub fn replace(&mut self, key: &str, value: V) -> (r: Option<V>)
        ensures
            r == old(self).spec_get(key@),
            match old(self).spec_find(key@) {
                Some(i) => final(self).spec_entries() == old(self).spec_entries().update(
                    i,
                    (old(self).spec_entries()[i].0, value),
                ),
                None => final(self).spec_entries() == old(self).spec_entries(),
            },
            r is Some ==> final(self).spec_get(key@) == Some(value),
            forall|k: Seq<char>| k != key@ ==> #[trigger] final(self).spec_get(k) == old(self).spec_get(k),
            old(self).unique() ==> final(self).unique(),
    {
        let ghost old_entries = self.entries@;
        let ghost kv = key@;
        proof {
            lemma_find_in_bounds(old_entries, kv);
        }
        match self.find(key) {
            Some(i) => {
                let (k, previous) = self.entries.remove(i);
                self.entries.insert(i, (k, value));
                proof {
                    assert(self.entries@ =~= old_entries.update(i as int, (old_entries[i as int].0, value)));
                    if old(self).unique() {
                        assert forall|a: int, b: int| 0 <= a < b < self.entries@.len() implies #[trigger] self.entries@[a].0@
                            != #[trigger] self.entries@[b].0@ by {
                            assert(self.entries@[a].0@ == old_entries[a].0@);
                            assert(self.entries@[b].0@ == old_entries[b].0@);
                        }
                    }
                    lemma_find_in_first(self.entries@, kv, i as int);
                    assert forall|k2: Seq<char>| k2 != kv implies #[trigger] self.spec_get(k2) == old(self).spec_get(k2) by {
                        lemma_find_in_bounds(old_entries, k2);
                        lemma_find_in_bounds(self.entries@, k2);
                        match find_in(old_entries, k2) {
                            Some(j) => {
                                assert(j != i);
                                lemma_find_in_first(self.entries@, k2, j);
                            },
                            None => {
                                lemma_find_in_none(self.entries@, k2);
                            },
                        }
                    }
                }
                Some(previous)
            },
            None => None,
        }
    }

    /// Removes every entry named `key`; the others keep their order.
    pub fn remove(&mut self, key: &str)
        ensures
            final(self).spec_get(key@) is None,
            forall|k: Seq<char>| k != key@ ==> #[trigger] final(self).spec_get(k) == old(self).spec_get(k),
            final(self).spec_entries() == without(old(self).spec_entries(), key@),
            old(self).unique() ==> final(self).unique(),
    {
        let k = key.to_owned();
        let mut kept: Vec<(String, V)> = Vec::new();
        let mut entries: Vec<(String, V)> = Vec::new();
        std::mem::swap(&mut entries, &mut self.entries);
        let ghost old_entries = entries@;
        // walk the entries from the back so that removal keeps the order
        let mut rev: Vec<(String, V)> = Vec::new();
        while entries.len() > 0
            invariant
                old_entries == entries@ + rev@.reverse(),
            decreases entries.len(),
        {
            let e = entries.pop().unwrap();
            proof {
                assert(rev@.push(e).reverse() =~= seq![e] + rev@.reverse());
            }
            rev.push(e);
            proof {
                assert(old_entries =~= entries@ + rev@.reverse());
            }
        }
        proof {
            assert(rev@.reverse() =~= old_entries);
        }
        while rev.len() > 0
            invariant
                k@ == key@,
                kept@ == without(old_entries.take(old_entries.len() - rev@.len()), key@),
                rev@.reverse() == old_entries.skip(old_entries.len() - rev@.len()),
                rev@.len() <= old_entries.len(),
            decreases rev.len(),
        {
            let ghost done = old_entries.len() - rev@.len();
            let ghost before = rev@;
            let e = rev.pop().unwrap();
            proof {
                assert(before.reverse()[0] == before.last());
                assert(e == old_entries[done]);
                assert(old_entries.take(done + 1).drop_last() =~= old_entries.take(done));
                assert forall|j: int| 0 <= j < rev@.len() implies #[trigger] rev@.reverse()[j] == old_entries.skip(done + 1)[j] by {
                    assert(rev@.reverse()[j] == before.reverse()[j + 1]);
                }
                assert(rev@.reverse() =~= old_entries.skip(done + 1));
            }
            if e.0 != k {
                kept.push(e);
            }
        }
        proof {
            assert(old_entries.take(old_entries.len() as int) =~= old_entries);
            lemma_without(old_entries, key@, key@);
        }
        self.entries = kept;
        proof {
            assert forall|k2: Seq<char>| k2 != key@ implies #[trigger] self.spec_get(k2) == old(self).spec_get(k2) by {
                lemma_without(old_entries, key@, k2);
            }
            if old(self).unique() {
                lemma_without_unique(old_entries, key@);
            }
        }
    }

    pub fn clear(&mut self)
        ensures
            final(self).spec_entries().len() == 0,
            final(self).unique(),
    {
        self.entries = Vec::new();
    }
}

} // verus!
