//! The ordered entity mapping that every level of the configuration graph
//! uses: unique string keys, point lookup, in-place update, and iteration in
//! a stable insertion order.

use vstd::prelude::*;

verus! {

/// An entity that carries its own identifier.
pub trait HasId {
    spec fn spec_id(&self) -> Seq<char>;

    fn id(&self) -> (r: &str)
        ensures
            r@ == self.spec_id(),
    ;
}

/// The reply to a create operation: the generated identifier.
#[derive(Debug)]
pub struct AddResponse {
    pub id: String,
}

/// An ordered mapping from identifier to entity.  Keys are unique; entries
/// keep insertion order, which iteration follows.
pub struct EntityMap<T> {
    pub entries: Vec<(String, T)>,
}

impl<T> EntityMap<T> {
    /// Key uniqueness: at most one entry per identifier.
    pub open spec fn wf(&self) -> bool {
        forall|i: int, j: int|
            0 <= i < j < self.entries@.len() ==> (#[trigger] self.entries@[i]).0@ != (
            #[trigger] self.entries@[j]).0@
    }

    pub open spec fn spec_len(&self) -> int {
        self.entries@.len() as int
    }

    /// The value stored at a key: the first entry that carries it.
    pub open spec fn spec_get(&self, k: Seq<char>) -> Option<T> {
        entries_get(self.entries@, k)
    }

    pub open spec fn spec_contains(&self, k: Seq<char>) -> bool {
        self.spec_get(k) is Some
    }

    pub fn new() -> (r: EntityMap<T>)
        ensures
            r.entries@.len() == 0,
            r.wf(),
    {
        EntityMap { entries: Vec::new() }
    }

    pub fn len(&self) -> (r: usize)
        ensures
            r == self.entries@.len(),
    {
        self.entries.len()
    }

    /// The position of the entry with the given key, if one exists.
    pub fn index_of(&self, id: &str) -> (r: Option<usize>)
        ensures
            match r {
                Some(i) => i < self.entries@.len() && self.entries@[i as int].0@ == id@
                    && self.spec_get(id@) == Some(self.entries@[i as int].1) && (forall|j: int|
                    0 <= j < i ==> (#[trigger] self.entries@[j]).0@ != id@),
                None => self.spec_get(id@) is None && (forall|j: int|
                    0 <= j < self.entries@.len() ==> (#[trigger] self.entries@[j]).0@ != id@),
            },
    {
        let ghost es = self.entries@;
        let n = self.entries.len();
        let mut i: usize = 0;
        proof {
            assert(es.subrange(0, es.len() as int) =~= es);
        }
        while i < n
            invariant
                i <= n == es.len(),
                es == self.entries@,
                entries_get(es, id@) == entries_get(es.subrange(i as int, es.len() as int), id@),
                forall|j: int| 0 <= j < i ==> (#[trigger] es[j]).0@ != id@,
            decreases n - i,
        {
            let ghost tail = es.subrange(i as int, es.len() as int);
            proof {
                assert(tail[0] == es[i as int]);
                assert(tail.subrange(1, tail.len() as int) =~= es.subrange(
                    i + 1,
                    es.len() as int,
                ));
            }
            if crate::nums::str_eq(self.entries[i].0.as_str(), id) {
                return Some(i);
            }
            i = i + 1;
        }
        proof {
            assert(es.subrange(n as int, es.len() as int) =~= Seq::<(String, T)>::empty());
        }
        None
    }

    /// The entity stored at a key.
    pub fn get(&self, id: &str) -> (r: Option<&T>)
        ensures
            match r {
                Some(v) => self.spec_get(id@) == Some(*v),
                None => self.spec_get(id@) is None,
            },
    {
        match self.index_of(id) {
            Some(i) => Some(&self.entries[i].1),
            None => None,
        }
    }

    /// Stores an entity under a key: replaces the value in place where the
    /// key exists, else appends a new entry.
    pub fn insert(&mut self, id: String, v: T)
        requires
            old(self).wf(),
        ensures
            final(self).wf(),
            final(self).spec_get(id@) == Some(v),
            forall|k: Seq<char>|
                k != id@ ==> #[trigger] final(self).spec_get(k) == old(self).spec_get(k),
            old(self).spec_contains(id@) ==> final(self).entries@.len()
                == old(self).entries@.len(),
            !old(self).spec_contains(id@) ==> final(self).entries@ == old(self).entries@.push(
                (id, v),
            ),
            forall|j: int|
                0 <= j < final(self).entries@.len() ==> #[trigger] final(self).entries@[j]
                    == old(self).entries@[j] || (final(self).entries@[j].0@ == id@
                    && final(self).entries@[j].1 == v),
    {
        let ghost es0 = self.entries@;
        match self.index_of(id.as_str()) {
            Some(i) => {
                let slot = &mut self.entries[i].1;
                *slot = v;
                proof {
                    assert(self.entries@[i as int].0@ == id@ && self.entries@[i as int].1 == v);
                    assert(forall|j: int|
                        0 <= j < es0.len() && j != i ==> self.entries@[j] == es0[j]);
                    assert(forall|j: int|
                        0 <= j < es0.len() ==> (#[trigger] self.entries@[j]).0@ == es0[j].0@);
                    lemma_entries_get_unique(es0, self.entries@, i as int, id@, v);
                }
            },
            None => {
                self.entries.push((id, v));
                proof {
                    lemma_entries_get_push(es0, id@, v, self.entries@);
                }
            },
        }
    }
}

/// The first entry with the given key among a sequence of entries.
pub open spec fn entries_get<T>(es: Seq<(String, T)>, k: Seq<char>) -> Option<T>
    decreases es.len(),
{
    if es.len() == 0 {
        None
    } else if es[0].0@ == k {
        Some(es[0].1)
    } else {
        entries_get(es.subrange(1, es.len() as int), k)
    }
}

/// Replacing the value at the unique position of a key updates that key's
/// lookup and no other.
pub proof fn lemma_entries_get_unique<T>(
    es0: Seq<(String, T)>,
    es1: Seq<(String, T)>,
    i: int,
    id: Seq<char>,
    v: T,
)
    requires
        es0.len() == es1.len(),
        0 <= i < es0.len(),
        es1[i].0@ == id,
        es1[i].1 == v,
        forall|j: int| 0 <= j < es0.len() && j != i ==> #[trigger] es1[j] == es0[j],
        forall|j: int| 0 <= j < es0.len() ==> (#[trigger] es1[j]).0@ == es0[j].0@,
        forall|j: int| 0 <= j < i ==> (#[trigger] es0[j]).0@ != id,
    ensures
        entries_get(es1, id) == Some(v),
        forall|k: Seq<char>| k != id ==> #[trigger] entries_get(es1, k) == entries_get(es0, k),
    decreases es0.len(),
{
    if es0.len() > 0 {
        let t0 = es0.subrange(1, es0.len() as int);
        let t1 = es1.subrange(1, es1.len() as int);
        assert(forall|j: int| 0 <= j < t0.len() ==> #[trigger] t0[j] == es0[j + 1]);
        assert(forall|j: int| 0 <= j < t1.len() ==> #[trigger] t1[j] == es1[j + 1]);
        if i == 0 {
            assert(es1[0].0@ == id);
            assert(entries_get(es1, id) == Some(v));
            assert(t1 =~= t0);
            assert forall|k: Seq<char>| k != id implies #[trigger] entries_get(es1, k)
                == entries_get(es0, k) by {
                assert(es0[0].0@ == id);
            }
        } else {
            assert(forall|j: int| 0 <= j < i - 1 ==> (#[trigger] t0[j]).0@ != id);
            lemma_entries_get_unique(t0, t1, i - 1, id, v);
            assert(es1[0] == es0[0]);
            assert(es0[0].0@ != id);
            assert(es1[0].0@ != id);
            assert(entries_get(es1, id) == entries_get(t1, id));
            assert forall|k: Seq<char>| k != id implies #[trigger] entries_get(es1, k)
                == entries_get(es0, k) by {
                if es0[0].0@ == k {
                    assert(entries_get(es1, k) == Some(es1[0].1));
                    assert(entries_get(es0, k) == Some(es0[0].1));
                } else {
                    assert(entries_get(es1, k) == entries_get(t1, k));
                    assert(entries_get(es0, k) == entries_get(t0, k));
                    assert(entries_get(t1, k) == entries_get(t0, k));
                }
            }
        }
    }
}

/// Appending a fresh key leaves every other lookup unchanged and makes the
/// new key found.
proof fn lemma_entries_get_push<T>(
    es0: Seq<(String, T)>,
    id: Seq<char>,
    v: T,
    es1: Seq<(String, T)>,
)
    requires
        es1.len() == es0.len() + 1,
        forall|j: int| 0 <= j < es0.len() ==> #[trigger] es1[j] == es0[j],
        es1[es0.len() as int].0@ == id,
        es1[es0.len() as int].1 == v,
        forall|j: int| 0 <= j < es0.len() ==> (#[trigger] es0[j]).0@ != id,
    ensures
        entries_get(es1, id) == Some(v),
        forall|k: Seq<char>| k != id ==> #[trigger] entries_get(es1, k) == entries_get(es0, k),
    decreases es0.len(),
{
    let t1 = es1.subrange(1, es1.len() as int);
    if es0.len() == 0 {
        assert(es1.len() == 1);
        assert(es1[0].0@ == id);
        assert(entries_get(es1, id) == Some(v));
        assert forall|k: Seq<char>| k != id implies #[trigger] entries_get(es1, k)
            == entries_get(es0, k) by {
            assert(es1[0].0@ != k);
            assert(entries_get(es1, k) == entries_get(t1, k));
            assert(t1 =~= Seq::<(String, T)>::empty());
            assert(entries_get(t1, k) is None);
            assert(entries_get(es0, k) is None);
        }
    } else {
        let t0 = es0.subrange(1, es0.len() as int);
        assert(forall|j: int| 0 <= j < t0.len() ==> #[trigger] t0[j] == es0[j + 1]);
        assert(forall|j: int| 0 <= j < t1.len() ==> #[trigger] t1[j] == es1[j + 1]);
        assert(t1.len() == t0.len() + 1);
        assert(t1[t0.len() as int] == es1[es0.len() as int]);
        assert(t1[t0.len() as int].0@ == id && t1[t0.len() as int].1 == v);
        assert(forall|j: int| 0 <= j < t0.len() ==> (#[trigger] t0[j]).0@ != id);
        lemma_entries_get_push(t0, id, v, t1);
        assert(es1[0] == es0[0]);
        assert(es0[0].0@ != id);
        assert(entries_get(es1, id) == entries_get(t1, id));
        assert forall|k: Seq<char>| k != id implies #[trigger] entries_get(es1, k)
            == entries_get(es0, k) by {
            if es0[0].0@ == k {
                assert(entries_get(es1, k) == Some(es1[0].1));
                assert(entries_get(es0, k) == Some(es0[0].1));
            } else {
                assert(entries_get(es1, k) == entries_get(t1, k));
                assert(entries_get(es0, k) == entries_get(t0, k));
                assert(entries_get(t1, k) == entries_get(t0, k));
            }
        }
    }
}

} // verus!
