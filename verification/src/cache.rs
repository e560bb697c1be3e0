//! A compilation cache handed to the module loader: a plain key-to-bytes
//! store, explicitly constructed and passed by reference by its owner, never
//! a process-wide static.

use vstd::prelude::*;

verus! {

/// What a key is bound to, looking from the front of the store.
pub open spec fn cache_lookup(entries: Seq<(Vec<u8>, Vec<u8>)>, key: Seq<u8>) -> Option<Seq<u8>>
    decreases entries.len(),
{
    if entries.len() == 0 {
        None
    } else if entries[0].0@ == key {
        Some(entries[0].1@)
    } else {
        cache_lookup(entries.drop_first(), key)
    }
}

/// `other` is bound the same way in both stores.
pub open spec fn same_binding(
    a: Seq<(Vec<u8>, Vec<u8>)>,
    b: Seq<(Vec<u8>, Vec<u8>)>,
    other: Seq<u8>,
) -> bool {
    cache_lookup(a, other) == cache_lookup(b, other)
}

/// An owned key-to-bytes store with unique keys.
#[derive(Debug)]
pub struct Cache {
    pub entries: Vec<(Vec<u8>, Vec<u8>)>,
}

/// Byte-vector equality, decided element by element.
fn bytes_eq(a: &[u8], b: &Vec<u8>) -> (r: bool)
    ensures
        r == (a@ == b@),
{
    if a.len() != b.len() {
        proof {
            assert(a@.len() != b@.len());
        }
        return false;
    }
    let mut i: usize = 0;
    while i < a.len()
        invariant
            0 <= i <= a@.len(),
            a@.len() == b@.len(),
            forall|j: int| 0 <= j < i ==> a@[j] == b@[j],
        decreases a@.len() - i,
    {
        if a[i] != b[i] {
            return false;
        }
        i = i + 1;
    }
    proof {
        assert(a@ =~= b@);
    }
    true
}

proof fn lemma_cache_lookup_pin(entries: Seq<(Vec<u8>, Vec<u8>)>, key: Seq<u8>, i: int)
    requires
        0 <= i <= entries.len(),
        forall|j: int| 0 <= j < i ==> entries[j].0@ != key,
        i < entries.len() ==> entries[i].0@ == key,
    ensures
        cache_lookup(entries, key) == if i == entries.len() {
            None::<Seq<u8>>
        } else {
            Some(entries[i].1@)
        },
    decreases i,
{
    if i > 0 {
        lemma_cache_lookup_pin(entries.drop_first(), key, i - 1);
    }
}

impl Cache {
    pub fn new() -> (r: Cache)
        ensures
            r.entries@.len() == 0,
    {
        Cache { entries: Vec::new() }
    }

    /// Look a key up; the result is exactly what the store binds it to.
    pub fn get(&self, key: &[u8]) -> (r: Option<&Vec<u8>>)
        ensures
            match r {
                Some(v) => cache_lookup(self.entries@, key@) == Some(v@),
                None => cache_lookup(self.entries@, key@) is None,
            },
    {
        let mut i: usize = 0;
        let n = self.entries.len();
        while i < n
            invariant
                0 <= i <= n,
                n == self.entries@.len(),
                forall|j: int| 0 <= j < i ==> self.entries@[j].0@ != key@,
            decreases n - i,
        {
            if bytes_eq(key, &self.entries[i].0) {
                proof {
                    lemma_cache_lookup_pin(self.entries@, key@, i as int);
                }
                return Some(&self.entries[i].1);
            }
            i = i + 1;
        }
        proof {
            lemma_cache_lookup_pin(self.entries@, key@, n as int);
        }
        None
    }

    /// Bind a key, replacing what it was bound to before; every other key
    /// keeps its binding. Returns whether the store accepted the entry, which
    /// it always does.
    pub fn insert(&mut self, key: Vec<u8>, value: Vec<u8>) -> (r: bool)
        ensures
            r,
            cache_lookup(final(self).entries@, key@) == Some(value@),
            forall|other: Seq<u8>|
                other != key@ ==> #[trigger] same_binding(
                    final(self).entries@,
                    old(self).entries@,
                    other,
                ),
    {
        let ghost entries0 = self.entries@;
        let ghost keyv = key@;
        let mut i: usize = 0;
        let n = self.entries.len();
        while i < n
            invariant
                0 <= i <= n,
                n == self.entries@.len(),
                self.entries@ == entries0,
                entries0 == old(self).entries@,
                key@ == keyv,
                forall|j: int| 0 <= j < i ==> self.entries@[j].0@ != keyv,
            decreases n - i,
        {
            if bytes_eq(&self.entries[i].0, &key) {
                self.entries.remove(i);
                self.entries.insert(i, (key, value));
                proof {
                    assert(self.entries@ =~= entries0.update(i as int, self.entries@[i as int]));
                    assert(self.entries@[i as int].0@ == keyv);
                    lemma_cache_update(entries0, self.entries@, keyv, i as int);
                }
                return true;
            }
            i = i + 1;
        }
        self.entries.push((key, value));
        proof {
            assert(self.entries@ =~= entries0.push(self.entries@[n as int]));
            assert(self.entries@[n as int].0@ == keyv);
            lemma_cache_append(entries0, self.entries@, keyv);
        }
        true
    }
}

/// Updating the entry at the first position of `key` rebinds `key` alone.
proof fn lemma_cache_update(
    before: Seq<(Vec<u8>, Vec<u8>)>,
    after: Seq<(Vec<u8>, Vec<u8>)>,
    key: Seq<u8>,
    i: int,
)
    requires
        0 <= i < before.len(),
        after.len() == before.len(),
        forall|j: int| 0 <= j < before.len() && j != i ==> after[j] == before[j],
        forall|j: int| 0 <= j < i ==> before[j].0@ != key,
        before[i].0@ == key,
        after[i].0@ == key,
    ensures
        cache_lookup(after, key) == Some(after[i].1@),
        forall|other: Seq<u8>|
            other != key ==> #[trigger] same_binding(after, before, other),
    decreases i,
{
    if i == 0 {
        assert forall|other: Seq<u8>| other != key implies #[trigger] same_binding(
            after,
            before,
            other,
        ) by {
            assert(after.drop_first() =~= before.drop_first());
        }
    } else {
        assert(after[0] == before[0]);
        assert(before[0].0@ != key);
        assert(forall|j: int|
            0 <= j < before.drop_first().len() && j != i - 1 ==> after.drop_first()[j]
                == before.drop_first()[j]);
        lemma_cache_update(before.drop_first(), after.drop_first(), key, i - 1);
        assert(cache_lookup(after, key) == cache_lookup(after.drop_first(), key));
        assert(after.drop_first()[i - 1] == after[i]);
        assert forall|other: Seq<u8>| other != key implies #[trigger] same_binding(
            after,
            before,
            other,
        ) by {
            assert(same_binding(after.drop_first(), before.drop_first(), other));
            if after[0].0@ != other {
                assert(cache_lookup(after, other) == cache_lookup(after.drop_first(), other));
                assert(cache_lookup(before, other) == cache_lookup(before.drop_first(), other));
            }
        }
    }
}

/// Appending a fresh key binds it and disturbs nothing else.
proof fn lemma_cache_append(
    before: Seq<(Vec<u8>, Vec<u8>)>,
    after: Seq<(Vec<u8>, Vec<u8>)>,
    key: Seq<u8>,
)
    requires
        after.len() == before.len() + 1,
        forall|j: int| 0 <= j < before.len() ==> after[j] == before[j],
        forall|j: int| 0 <= j < before.len() ==> before[j].0@ != key,
        after[before.len() as int].0@ == key,
    ensures
        cache_lookup(after, key) == Some(after[before.len() as int].1@),
        forall|other: Seq<u8>|
            other != key ==> #[trigger] same_binding(after, before, other),
    decreases before.len(),
{
    if before.len() == 0 {
        assert forall|other: Seq<u8>| other != key implies #[trigger] same_binding(
            after,
            before,
            other,
        ) by {
            assert(cache_lookup(after, other) == cache_lookup(after.drop_first(), other));
            assert(after.drop_first() =~= Seq::<(Vec<u8>, Vec<u8>)>::empty());
        }
    } else {
        assert(after[0] == before[0]);
        assert(forall|j: int|
            0 <= j < before.drop_first().len() ==> after.drop_first()[j] == before.drop_first()[j]);
        lemma_cache_append(before.drop_first(), after.drop_first(), key);
        assert(after.drop_first()[before.len() - 1] == after[before.len() as int]);
        assert forall|other: Seq<u8>| other != key implies #[trigger] same_binding(
            after,
            before,
            other,
        ) by {
            assert(same_binding(after.drop_first(), before.drop_first(), other));
            if after[0].0@ != other {
                assert(cache_lookup(after, other) == cache_lookup(after.drop_first(), other));
                assert(cache_lookup(before, other) == cache_lookup(before.drop_first(), other));
            }
        }
    }
}

} // verus!
