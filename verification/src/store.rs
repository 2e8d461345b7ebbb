//! An in-memory model of the key-value backend, holding encoded records
//! under todo identifiers. It offers exactly the operations the request
//! handlers compose: scan, get, set, exists, delete. `set` is an
//! unconditional upsert; `delete` removes a present key and leaves an
//! absent one alone. The order of a scan is the store's insertion order;
//! callers may not rely on any particular order.

use vstd::prelude::*;
use crate::models::key_of;
use crate::models::todo_key;

verus! {

/// The store: a sequence of (identifier, record text) pairs with pairwise
/// distinct identifiers.
pub struct Store {
    pub entries: Vec<(String, String)>,
}

impl Store {
    /// The identifiers currently present, in scan order.
    pub open spec fn ids(self) -> Seq<Seq<char>> {
        self.entries@.map_values(|p: (String, String)| p.0@)
    }

    /// Whether a record is stored under the identifier.
    pub open spec fn contains_id(self, id: Seq<char>) -> bool {
        exists|i: int|
            0 <= i < self.entries@.len() && (#[trigger] self.entries@[i]).0@ == id
    }

    /// The record text stored under a present identifier.
    pub open spec fn record_of(self, id: Seq<char>) -> Seq<char> {
        let i = choose|i: int|
            0 <= i < self.entries@.len() && (#[trigger] self.entries@[i]).0@ == id;
        self.entries@[i].1@
    }

    /// Well-formed: no identifier occurs twice.
    pub open spec fn wf(self) -> bool {
        forall|i: int, j: int|
            0 <= i < j < self.entries@.len() ==> (#[trigger] self.entries@[i]).0@ != (
            #[trigger] self.entries@[j]).0@
    }

    /// With distinct identifiers, the record under an identifier is the one
    /// at any index holding that identifier.
    pub proof fn lemma_record_at(self, i: int)
        requires
            self.wf(),
            0 <= i < self.entries@.len(),
        ensures
            self.contains_id(self.entries@[i].0@),
            self.record_of(self.entries@[i].0@) == self.entries@[i].1@,
    {
        let id = self.entries@[i].0@;
        let j = choose|j: int|
            0 <= j < self.entries@.len() && (#[trigger] self.entries@[j]).0@ == id;
        if i < j {
            assert(self.entries@[i].0@ != self.entries@[j].0@);
        } else if j < i {
            assert(self.entries@[j].0@ != self.entries@[i].0@);
        }
    }

    /// An empty store.
    pub fn new() -> (r: Store)
        ensures
            r.entries@.len() == 0,
            r.wf(),
    {
        Store { entries: Vec::new() }
    }

    /// The number of stored records.
    pub fn len(&self) -> (r: usize)
        ensures
            r == self.entries@.len(),
    {
        self.entries.len()
    }

    /// Looks up the index holding the identifier, if any.
    fn find(&self, id: &String) -> (r: Option<usize>)
        ensures
            match r {
                Some(i) => i < self.entries@.len() && self.entries@[i as int].0@ == id@,
                None => !self.contains_id(id@),
            },
    {
        let n = self.entries.len();
        let mut k: usize = 0;
        while k < n
            invariant
                n == self.entries@.len(),
                0 <= k <= n,
                forall|j: int| 0 <= j < k ==> (#[trigger] self.entries@[j]).0@ != id@,
            decreases n - k,
        {
            if self.entries[k].0 == *id {
                return Some(k);
            }
            k = k + 1;
        }
        None
    }

    /// The existence check that gates update and delete.
    pub fn exists_id(&self, id: &String) -> (r: bool)
        ensures
            r == self.contains_id(id@),
    {
        match self.find(id) {
            Some(_) => true,
            None => false,
        }
    }

    /// Fetches the record stored under the identifier.
    pub fn get_record(&self, id: &String) -> (r: Option<String>)
        requires
            self.wf(),
        ensures
            match r {
                Some(rec) => self.contains_id(id@) && rec@ == self.record_of(id@),
                None => !self.contains_id(id@),
            },
    {
        match self.find(id) {
            Some(i) => {
                proof {
                    self.lemma_record_at(i as int);
                }
                Some(self.entries[i].1.clone())
            },
            None => None,
        }
    }

    /// Unconditional upsert: overwrites the record under a present
    /// identifier in place, or appends a new entry at the end of the scan
    /// order. Every other entry is untouched.
    pub fn set(&mut self, id: String, record: String)
        requires
            old(self).wf(),
        ensures
            final(self).wf(),
            final(self).contains_id(id@),
            final(self).record_of(id@) == record@,
            old(self).contains_id(id@) ==> final(self).ids() == old(self).ids(),
            !old(self).contains_id(id@) ==> final(self).ids() == old(self).ids().push(id@),
            forall|other: Seq<char>|
                other != id@ ==> #[trigger] final(self).contains_id(other) == old(
                    self,
                ).contains_id(other),
            forall|other: Seq<char>|
                other != id@ && old(self).contains_id(other) ==> #[trigger] final(self).record_of(
                    other,
                ) == old(self).record_of(other),
    {
        let ghost pre = *self;
        match self.find(&id) {
            Some(i) => {
                let ghost gid = id@;
                self.entries.set(i, (id, record));
                proof {
                    assert(self.wf());
                    assert(self.ids() =~= pre.ids());
                    self.lemma_record_at(i as int);
                    assert forall|other: Seq<char>| other != gid implies #[trigger] self
                        .contains_id(other) == pre.contains_id(other) by {
                        if pre.contains_id(other) {
                            let j = choose|j: int|
                                0 <= j < pre.entries@.len() && (#[trigger] pre.entries@[j]).0@
                                    == other;
                            assert(self.entries@[j].0@ == other);
                        }
                        if self.contains_id(other) {
                            let j = choose|j: int|
                                0 <= j < self.entries@.len() && (#[trigger] self.entries@[j]).0@
                                    == other;
                            assert(pre.entries@[j].0@ == other);
                        }
                    }
                    assert forall|other: Seq<char>|
                        other != gid && pre.contains_id(other) implies #[trigger] self.record_of(
                        other,
                    ) == pre.record_of(other) by {
                        let j = choose|j: int|
                            0 <= j < pre.entries@.len() && (#[trigger] pre.entries@[j]).0@ == other;
                        assert(self.entries@[j].0@ == other);
                        pre.lemma_record_at(j);
                        self.lemma_record_at(j);
                    }
                }
            },
            None => {
                let ghost gid = id@;
                self.entries.push((id, record));
                proof {
                    assert(self.wf());
                    assert(self.ids() =~= pre.ids().push(gid));
                    self.lemma_record_at(self.entries@.len() - 1);
                    assert forall|other: Seq<char>| other != gid implies #[trigger] self
                        .contains_id(other) == pre.contains_id(other) by {
                        if pre.contains_id(other) {
                            let j = choose|j: int|
                                0 <= j < pre.entries@.len() && (#[trigger] pre.entries@[j]).0@
                                    == other;
                            assert(self.entries@[j].0@ == other);
                        }
                        if self.contains_id(other) {
                            let j = choose|j: int|
                                0 <= j < self.entries@.len() && (#[trigger] self.entries@[j]).0@
                                    == other;
                            assert(pre.entries@[j].0@ == other);
                        }
                    }
                    assert forall|other: Seq<char>|
                        other != gid && pre.contains_id(other) implies #[trigger] self.record_of(
                        other,
                    ) == pre.record_of(other) by {
                        let j = choose|j: int|
                            0 <= j < pre.entries@.len() && (#[trigger] pre.entries@[j]).0@ == other;
                        assert(self.entries@[j].0@ == other);
                        pre.lemma_record_at(j);
                        self.lemma_record_at(j);
                    }
                }
            },
        }
    }

    /// Removes the record under the identifier; leaves the store as it was
    /// if the identifier is absent.
    pub fn delete(&mut self, id: &String) -> (removed: bool)
        requires
            old(self).wf(),
        ensures
            final(self).wf(),
            removed == old(self).contains_id(id@),
            !final(self).contains_id(id@),
            !old(self).contains_id(id@) ==> *final(self) == *old(self),
            old(self).contains_id(id@) ==> exists|k: int|
                0 <= k < old(self).entries@.len() && old(self).ids()[k] == id@
                    && final(self).entries@ == old(self).entries@.remove(k),
            forall|other: Seq<char>|
                other != id@ ==> #[trigger] final(self).contains_id(other) == old(
                    self,
                ).contains_id(other),
            forall|other: Seq<char>|
                other != id@ && old(self).contains_id(other) ==> #[trigger] final(self).record_of(
                    other,
                ) == old(self).record_of(other),
    {
        let ghost pre = *self;
        match self.find(id) {
            Some(i) => {
                self.entries.remove(i);
                proof {
                    let k = i as int;
                    assert(pre.ids()[k] == id@);
                    assert(self.entries@ == pre.entries@.remove(k));
                    assert forall|a: int, b: int|
                        0 <= a < b < self.entries@.len() implies (#[trigger] self.entries@[a]).0@
                        != (#[trigger] self.entries@[b]).0@ by {
                        let a0 = if a < k {
                            a
                        } else {
                            a + 1
                        };
                        let b0 = if b < k {
                            b
                        } else {
                            b + 1
                        };
                        assert(self.entries@[a] == pre.entries@[a0]);
                        assert(self.entries@[b] == pre.entries@[b0]);
                    }
                    assert forall|other: Seq<char>| self.contains_id(other) implies pre.contains_id(
                        other,
                    ) && other == id@ || pre.contains_id(other) by {
                        let j = choose|j: int|
                            0 <= j < self.entries@.len() && (#[trigger] self.entries@[j]).0@
                                == other;
                        let j0 = if j < k {
                            j
                        } else {
                            j + 1
                        };
                        assert(pre.entries@[j0].0@ == other);
                    }
                    assert(!self.contains_id(id@)) by {
                        if self.contains_id(id@) {
                            let j = choose|j: int|
                                0 <= j < self.entries@.len() && (#[trigger] self.entries@[j]).0@
                                    == id@;
                            let j0 = if j < k {
                                j
                            } else {
                                j + 1
                            };
                            assert(pre.entries@[j0].0@ == id@);
                            if j0 < k {
                                assert(pre.entries@[j0].0@ != pre.entries@[k].0@);
                            } else if k < j0 {
                                assert(pre.entries@[k].0@ != pre.entries@[j0].0@);
                            }
                        }
                    }
                    assert forall|other: Seq<char>| other != id@ implies #[trigger] self
                        .contains_id(other) == pre.contains_id(other) by {
                        if pre.contains_id(other) {
                            let j = choose|j: int|
                                0 <= j < pre.entries@.len() && (#[trigger] pre.entries@[j]).0@
                                    == other;
                            let j1 = if j < k {
                                j
                            } else {
                                j - 1
                            };
                            assert(j != k);
                            assert(self.entries@[j1].0@ == other);
                        }
                        if self.contains_id(other) {
                            let j = choose|j: int|
                                0 <= j < self.entries@.len() && (#[trigger] self.entries@[j]).0@
                                    == other;
                            let j0 = if j < k {
                                j
                            } else {
                                j + 1
                            };
                            assert(pre.entries@[j0].0@ == other);
                        }
                    }
                    assert forall|other: Seq<char>|
                        other != id@ && pre.contains_id(other) implies #[trigger] self.record_of(
                        other,
                    ) == pre.record_of(other) by {
                        let j = choose|j: int|
                            0 <= j < pre.entries@.len() && (#[trigger] pre.entries@[j]).0@ == other;
                        let j1 = if j < k {
                            j
                        } else {
                            j - 1
                        };
                        assert(j != k);
                        assert(self.entries@[j1].0@ == other);
                        assert(self.entries@[j1].1@ == pre.entries@[j].1@);
                        pre.lemma_record_at(j);
                        self.lemma_record_at(j1);
                    }
                }
                true
            },
            None => false,
        }
    }

    /// The entry at a scan position: its identifier and its record text.
    pub fn entry_at(&self, k: usize) -> (r: (String, String))
        requires
            self.wf(),
            k < self.entries@.len(),
        ensures
            r.0@ == self.ids()[k as int],
            self.contains_id(r.0@),
            r.1@ == self.record_of(r.0@),
    {
        proof {
            self.lemma_record_at(k as int);
        }
        let p = &self.entries[k];
        (p.0.clone(), p.1.clone())
    }

    /// Scan: the store keys currently present, in scan order, each the
    /// reserved prefix followed by the identifier.
    pub fn scan_keys(&self) -> (r: Vec<String>)
        ensures
            r@.len() == self.ids().len(),
            forall|i: int| 0 <= i < r@.len() ==> (#[trigger] r@[i])@ == key_of(self.ids()[i]),
    {
        let n = self.entries.len();
        let mut out: Vec<String> = Vec::new();
        let mut k: usize = 0;
        while k < n
            invariant
                n == self.entries@.len(),
                0 <= k <= n,
                out@.len() == k,
                forall|i: int| 0 <= i < k ==> (#[trigger] out@[i])@ == key_of(self.ids()[i]),
            decreases n - k,
        {
            out.push(todo_key(self.entries[k].0.as_str()));
            k = k + 1;
        }
        out
    }
}

} // verus!
