//! The key-value store: keys map to a value and an optional deadline, in
//! milliseconds of a monotonic clock. Expired entries read as absent and are
//! removed when read.
use vstd::prelude::*;
use crate::resp::{RedisValue, Resp};
use crate::command::eq_bytes;

verus! {

/// A stored value and the instant, if any, from which it is expired.
pub struct Entry {
    pub key: Vec<u8>,
    pub value: RedisValue,
    pub deadline: Option<u64>,
}

/// What a key maps to: a value and its deadline.
pub type Slot = (Resp, Option<nat>);

pub open spec fn slot(value: RedisValue, deadline: Option<u64>) -> Slot {
    (value@, match deadline {
        Some(d) => Some(d as nat),
        None => None,
    })
}

pub open spec fn slot_of(e: Entry) -> Slot {
    slot(e.value, e.deadline)
}

/// The slot of the last entry with key `k`.
pub open spec fn lookup(es: Seq<Entry>, k: Seq<u8>) -> Option<Slot>
    decreases es.len(),
{
    if es.len() == 0 {
        None
    } else if es.last().key@ == k {
        Some(slot_of(es.last()))
    } else {
        lookup(es.drop_last(), k)
    }
}

pub open spec fn unique_keys(es: Seq<Entry>) -> bool {
    forall|i: int, j: int| 0 <= i < j < es.len() ==> (#[trigger] es[i]).key@ != (#[trigger] es[j]).key@
}

/// Whether a slot is live at `now`: it has no deadline or the deadline is later.
pub open spec fn live(s: Slot, now: nat) -> bool {
    match s.1 {
        Some(d) => now < d,
        None => true,
    }
}

/// The deadline of a value set at `now` with a time to live, saturating at
/// the clock's largest value.
pub open spec fn deadline_of(now: nat, ttl: Option<nat>) -> Option<nat> {
    match ttl {
        Some(d) => Some(if now + d <= u64::MAX { (now + d) as nat } else { u64::MAX as nat }),
        None => None,
    }
}

/// A mapping from keys to values with deadlines.
pub struct Store {
    entries: Vec<Entry>,
}

impl View for Store {
    type V = Map<Seq<u8>, Slot>;

    closed spec fn view(&self) -> Map<Seq<u8>, Slot> {
        Map::new(|k: Seq<u8>| lookup(self.entries@, k) is Some, |k: Seq<u8>| lookup(self.entries@, k)->0)
    }
}

proof fn lemma_lookup_at(es: Seq<Entry>, i: int)
    requires
        unique_keys(es),
        0 <= i < es.len(),
    ensures
        lookup(es, es[i].key@) == Some(slot_of(es[i])),
    decreases es.len(),
{
    if i < es.len() - 1 {
        assert(es.drop_last()[i] == es[i]);
        lemma_lookup_at(es.drop_last(), i);
    }
}

proof fn lemma_lookup_none(es: Seq<Entry>, k: Seq<u8>)
    requires
        forall|i: int| 0 <= i < es.len() ==> (#[trigger] es[i]).key@ != k,
    ensures
        lookup(es, k) is None,
    decreases es.len(),
{
    if es.len() > 0 {
        assert forall|i: int| 0 <= i < es.drop_last().len() implies (#[trigger] es.drop_last()[i]).key@ != k by {
            assert(es.drop_last()[i] == es[i]);
        }
        lemma_lookup_none(es.drop_last(), k);
    }
}

/// Lookups in a sequence with unique keys go to the one entry with the key.
proof fn lemma_lookup(es: Seq<Entry>, k: Seq<u8>)
    requires
        unique_keys(es),
    ensures
        (exists|i: int| 0 <= i < es.len() && (#[trigger] es[i]).key@ == k) ==> lookup(es, k) is Some,
        forall|i: int| 0 <= i < es.len() && (#[trigger] es[i]).key@ == k ==> lookup(es, k) == Some(slot_of(es[i])),
        (forall|i: int| 0 <= i < es.len() ==> (#[trigger] es[i]).key@ != k) ==> lookup(es, k) is None,
{
    assert forall|i: int| 0 <= i < es.len() && (#[trigger] es[i]).key@ == k implies lookup(es, k) == Some(slot_of(es[i])) by {
        lemma_lookup_at(es, i);
    }
    if forall|i: int| 0 <= i < es.len() ==> (#[trigger] es[i]).key@ != k {
        lemma_lookup_none(es, k);
    }
}

impl Store {
    pub closed spec fn wf(&self) -> bool {
        unique_keys(self.entries@)
    }

    /// An empty store.
    pub fn new() -> (r: Store)
        ensures
            r.wf(),
            r@ == Map::<Seq<u8>, Slot>::empty(),
    {
        let r = Store { entries: Vec::new() };
        assert(r@ =~= Map::<Seq<u8>, Slot>::empty());
        r
    }

    /// Index of the entry with key `key`.
    fn find(&self, key: &[u8]) -> (r: Option<usize>)
        requires
            self.wf(),
        ensures
            match r {
                Some(i) => i < self.entries@.len() && self.entries@[i as int].key@ == key@,
                None => forall|i: int| 0 <= i < self.entries@.len() ==> (#[trigger] self.entries@[i]).key@ != key@,
            },
    {
        let mut i: usize = 0;
        while i < self.entries.len()
            invariant
                i <= self.entries@.len(),
                forall|j: int| 0 <= j < i ==> (#[trigger] self.entries@[j]).key@ != key@,
            decreases self.entries@.len() - i,
        {
            if eq_bytes(self.entries[i].key.as_slice(), key) {
                return Some(i);
            }
            i = i + 1;
        }
        None
    }

    /// Maps `key` to `value` with the deadline `deadline`, replacing what it mapped to.
    pub fn insert(&mut self, key: &[u8], value: RedisValue, deadline: Option<u64>)
        requires
            old(self).wf(),
        ensures
            final(self).wf(),
            final(self)@ == old(self)@.insert(key@, slot(value, deadline)),
    {
        let ghost e_slot = slot(value, deadline);
        let ghost old_es = self.entries@;
        let k = vstd::slice::slice_to_vec(key);
        let e = Entry { key: k, value, deadline };
        assert(slot_of(e) == e_slot);
        let ghost eg = e;
        let ghost mut idx: int = 0;
        match self.find(key) {
            Some(i) => {
                self.entries.set(i, e);
                proof {
                    idx = i as int;
                }
            },
            None => {
                self.entries.push(e);
                proof {
                    idx = old_es.len() as int;
                }
            },
        }
        let ghost es = self.entries@;
        assert(unique_keys(es)) by {
            assert forall|a: int, b: int| 0 <= a < b < es.len() implies (#[trigger] es[a]).key@ != (#[trigger] es[b]).key@ by {
                if a < old_es.len() && b < old_es.len() && es[a] == old_es[a] && es[b] == old_es[b] {
                } else {
                }
            }
        }
        proof {
            assert forall|k2: Seq<u8>| #![auto] lookup(es, k2) == (if k2 == key@ { Some(e_slot) } else { lookup(old_es, k2) }) by {
                lemma_lookup(es, k2);
                lemma_lookup(old_es, k2);
                if k2 != key@ {
                    if exists|i: int| 0 <= i < old_es.len() && (#[trigger] old_es[i]).key@ == k2 {
                        let i = choose|i: int| 0 <= i < old_es.len() && (#[trigger] old_es[i]).key@ == k2;
                        assert(es[i] == old_es[i]);
                    } else {
                        assert forall|i: int| 0 <= i < es.len() implies (#[trigger] es[i]).key@ != k2 by {
                            if i < old_es.len() && es[i] == old_es[i] {
                            }
                        }
                    }
                } else {
                    assert(es[idx] == eg);
                    assert(es[idx].key@ == key@);
                }
            }
        }
        assert(self@ =~= old(self)@.insert(key@, e_slot));
    }

    /// The value of `key` if it is live at `now`; an expired entry is removed.
    pub fn lookup_live(&mut self, key: &[u8], now: u64) -> (r: Option<RedisValue>)
        requires
            old(self).wf(),
        ensures
            final(self).wf(),
            match old(self)@.get(key@) {
                Some(s) => if live(s, now as nat) {
                    r is Some && r->0@ == s.0 && final(self)@ == old(self)@
                } else {
                    r is None && final(self)@ == old(self)@.remove(key@)
                },
                None => r is None && final(self)@ == old(self)@,
            },
    {
        let ghost old_es = self.entries@;
        proof {
            lemma_lookup(old_es, key@);
        }
        match self.find(key) {
            None => None,
            Some(i) => {
                let expired = match self.entries[i].deadline {
                    Some(d) => now >= d,
                    None => false,
                };
                if expired {
                    self.entries.remove(i);
                    let ghost es = self.entries@;
                    assert(unique_keys(es)) by {
                        assert forall|a: int, b: int| 0 <= a < b < es.len() implies (#[trigger] es[a]).key@ != (#[trigger] es[b]).key@ by {
                            let a0 = if a < i { a } else { a + 1 };
                            let b0 = if b < i { b } else { b + 1 };
                            assert(es[a] == old_es[a0]);
                            assert(es[b] == old_es[b0]);
                        }
                    }
                    proof {
                        assert forall|k2: Seq<u8>| #![auto] lookup(es, k2) == (if k2 == key@ { None } else { lookup(old_es, k2) }) by {
                            lemma_lookup(es, k2);
                            lemma_lookup(old_es, k2);
                            if k2 != key@ {
                                if exists|j: int| 0 <= j < old_es.len() && (#[trigger] old_es[j]).key@ == k2 {
                                    let j = choose|j: int| 0 <= j < old_es.len() && (#[trigger] old_es[j]).key@ == k2;
                                    let j2 = if j < i { j } else { j - 1 };
                                    assert(es[j2] == old_es[j]);
                                } else {
                                    assert forall|j: int| 0 <= j < es.len() implies (#[trigger] es[j]).key@ != k2 by {
                                        let j0 = if j < i { j } else { j + 1 };
                                        assert(es[j] == old_es[j0]);
                                    }
                                }
                            } else {
                                assert forall|j: int| 0 <= j < es.len() implies (#[trigger] es[j]).key@ != k2 by {
                                    let j0 = if j < i { j } else { j + 1 };
                                    assert(es[j] == old_es[j0]);
                                }
                            }
                        }
                    }
                    assert(self@ =~= old(self)@.remove(key@));
                    None
                } else {
                    Some(self.entries[i].value.copy_value())
                }
            },
        }
    }
}

} // verus!
