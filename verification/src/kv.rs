//! Per-account token balances: a small map from 32-byte token ids to
//! `u64` balances, with each key held at most once.

use vstd::prelude::*;

verus! {

/// The balance a key list gives to `key`: the first entry that carries
/// it, or zero when no entry does.
pub open spec fn spec_kv_get(s: Seq<([u8; 32], u64)>, key: Seq<u8>) -> u64
    decreases s.len(),
{
    if s.len() == 0 {
        0
    } else if s[0].0@ == key {
        s[0].1
    } else {
        spec_kv_get(s.drop_first(), key)
    }
}

/// The entry list after setting `key` to `value`: the first entry that
/// carries the key is replaced, or the pair is appended.
pub open spec fn spec_kv_insert(s: Seq<([u8; 32], u64)>, key: [u8; 32], value: u64) -> Seq<
    ([u8; 32], u64),
>
    decreases s.len(),
{
    if s.len() == 0 {
        seq![(key, value)]
    } else if s[0].0@ == key@ {
        seq![(key, value)] + s.drop_first()
    } else {
        seq![s[0]] + spec_kv_insert(s.drop_first(), key, value)
    }
}

/// A token-balance map.
pub struct KVMap {
    pub entries: Vec<([u8; 32], u64)>,
}

impl KVMap {
    /// Each token id appears at most once.
    pub open spec fn wf(self) -> bool {
        forall|i: int, j: int|
            0 <= i < j < self.entries@.len() ==> self.entries@[i].0@ != self.entries@[j].0@
    }

    /// An empty map.
    pub fn new() -> (r: KVMap)
        ensures
            r.entries@.len() == 0,
            r.wf(),
    {
        KVMap { entries: Vec::new() }
    }

    /// The balance of `key`, zero when absent.
    pub fn get(&self, key: &[u8; 32]) -> (r: u64)
        ensures
            r == spec_kv_get(self.entries@, key@),
    {
        let n = self.entries.len();
        let mut i: usize = 0;
        proof {
            assert(self.entries@.skip(0) =~= self.entries@);
        }
        while i < n
            invariant
                i <= n,
                n == self.entries@.len(),
                spec_kv_get(self.entries@, key@) == spec_kv_get(
                    self.entries@.skip(i as int),
                    key@,
                ),
            decreases n - i,
        {
            let ghost tail = self.entries@.skip(i as int);
            proof {
                assert(tail[0] == self.entries@[i as int]);
                assert(tail.drop_first() =~= self.entries@.skip(i + 1));
            }
            let entry_key: [u8; 32] = self.entries[i].0;
            if crate::types::array_eq(&entry_key, key) {
                return self.entries[i].1;
            }
            i = i + 1;
        }
        proof {
            assert(self.entries@.skip(n as int) =~= Seq::<([u8; 32], u64)>::empty());
        }
        0
    }

    /// Set `key` to `value`, replacing any entry that carries it.
    pub fn insert(&mut self, key: [u8; 32], value: u64)
        requires
            old(self).wf(),
        ensures
            final(self).entries@ == spec_kv_insert(old(self).entries@, key, value),
            final(self).wf(),
    {
        let n = self.entries.len();
        let mut i: usize = 0;
        proof {
            assert(self.entries@.skip(0) =~= self.entries@);
            assert(self.entries@.take(0) + spec_kv_insert(self.entries@, key, value)
                =~= spec_kv_insert(self.entries@, key, value));
        }
        while i < n
            invariant
                i <= n,
                n == self.entries@.len(),
                self.entries@ == old(self).entries@,
                old(self).wf(),
                forall|k: int| 0 <= k < i ==> self.entries@[k].0@ != key@,
                spec_kv_insert(self.entries@, key, value) == self.entries@.take(i as int)
                    + spec_kv_insert(self.entries@.skip(i as int), key, value),
            decreases n - i,
        {
            let ghost whole = self.entries@;
            let ghost tail = whole.skip(i as int);
            proof {
                assert(tail[0] == whole[i as int]);
                assert(tail.drop_first() =~= whole.skip(i + 1));
            }
            let entry_key: [u8; 32] = self.entries[i].0;
            if crate::types::array_eq(&entry_key, &key) {
                proof {
                    assert(spec_kv_insert(tail, key, value) =~= seq![(key, value)]
                        + whole.skip(i + 1));
                    assert(whole.take(i as int) + (seq![(key, value)] + whole.skip(i + 1))
                        =~= whole.update(i as int, (key, value)));
                }
                let prev = self.entries[i];
                self.entries.set(i, (key, value));
                proof {
                    assert(self.entries@ =~= whole.update(i as int, (key, value)));
                    assert forall|a: int, b: int|
                        0 <= a < b < self.entries@.len() implies self.entries@[a].0@
                        != self.entries@[b].0@ by {
                        assert(whole[a].0@ != whole[b].0@);
                        assert(self.entries@[a].0@ == if a == i {
                            key@
                        } else {
                            whole[a].0@
                        });
                        assert(self.entries@[b].0@ == if b == i {
                            key@
                        } else {
                            whole[b].0@
                        });
                        assert(whole[i as int].0@ == key@);
                    }
                }
                let _ = prev;
                return ;
            }
            proof {
                assert(spec_kv_insert(tail, key, value) =~= seq![tail[0]] + spec_kv_insert(
                    tail.drop_first(),
                    key,
                    value,
                ));
                assert(whole.take(i as int) + (seq![tail[0]] + spec_kv_insert(
                    whole.skip(i + 1),
                    key,
                    value,
                )) =~= whole.take(i + 1) + spec_kv_insert(whole.skip(i + 1), key, value));
            }
            i = i + 1;
        }
        proof {
            assert(self.entries@.skip(n as int) =~= Seq::<([u8; 32], u64)>::empty());
            assert(spec_kv_insert(self.entries@.skip(n as int), key, value) =~= seq![
                (key, value),
            ]);
        }
        self.entries.push((key, value));
        proof {
            let whole = old(self).entries@;
            assert(self.entries@ =~= whole.take(n as int) + seq![(key, value)]);
            assert(whole.take(n as int) =~= whole);
            assert(self.entries@ =~= spec_kv_insert(whole, key, value));
            assert forall|a: int, b: int|
                0 <= a < b < self.entries@.len() implies self.entries@[a].0@
                != self.entries@[b].0@ by {
                if b < whole.len() {
                    assert(whole[a].0@ != whole[b].0@);
                } else {
                    assert(self.entries@[b] == (key, value));
                    assert(whole[a].0@ != key@);
                }
            }
        }
    }

    /// How many token ids the map holds.
    pub fn len(&self) -> (r: usize)
        ensures
            r == self.entries@.len(),
    {
        self.entries.len()
    }
}

/// Inserting then reading gives the inserted balance back, and leaves
/// every other token's balance alone.
pub proof fn lemma_kv_insert_get(s: Seq<([u8; 32], u64)>, key: [u8; 32], value: u64)
    ensures
        spec_kv_get(spec_kv_insert(s, key, value), key@) == value,
        forall|other: Seq<u8>|
            other != key@ ==> spec_kv_get(spec_kv_insert(s, key, value), other) == spec_kv_get(
                s,
                other,
            ),
    decreases s.len(),
{
    let t = spec_kv_insert(s, key, value);
    if s.len() == 0 {
        assert(t =~= seq![(key, value)]);
        assert(t.drop_first() =~= Seq::<([u8; 32], u64)>::empty());
        assert forall|other: Seq<u8>| other != key@ implies spec_kv_get(t, other) == spec_kv_get(
            s,
            other,
        ) by {
            assert(spec_kv_get(t, other) == spec_kv_get(t.drop_first(), other));
        }
    } else if s[0].0@ == key@ {
        assert(t =~= seq![(key, value)] + s.drop_first());
        assert(t.drop_first() =~= s.drop_first());
        assert forall|other: Seq<u8>| other != key@ implies spec_kv_get(t, other) == spec_kv_get(
            s,
            other,
        ) by {
            assert(spec_kv_get(t, other) == spec_kv_get(s.drop_first(), other));
            assert(spec_kv_get(s, other) == spec_kv_get(s.drop_first(), other));
        }
    } else {
        lemma_kv_insert_get(s.drop_first(), key, value);
        assert(t =~= seq![s[0]] + spec_kv_insert(s.drop_first(), key, value));
        assert(t.drop_first() =~= spec_kv_insert(s.drop_first(), key, value));
        assert(spec_kv_get(t, key@) == spec_kv_get(t.drop_first(), key@));
        assert forall|other: Seq<u8>| other != key@ implies spec_kv_get(t, other) == spec_kv_get(
            s,
            other,
        ) by {
            if s[0].0@ == other {
                assert(spec_kv_get(t, other) == t[0].1);
                assert(spec_kv_get(s, other) == s[0].1);
            } else {
                assert(spec_kv_get(t, other) == spec_kv_get(t.drop_first(), other));
                assert(spec_kv_get(s, other) == spec_kv_get(s.drop_first(), other));
            }
        }
    }
}

} // verus!
