//! The identifier generator and the typed record store.
use crate::record::{encoding, from_bytes, to_bytes, Record};
use crate::stable::{
    cell_get, cell_set, cell_value, map_contents, map_entries, map_get, map_insert, ByteMap,
    CounterCell,
};
use vstd::prelude::*;

verus! {

/// Issues identifiers from a durable counter: each call hands out the
/// current value and stores its successor.
pub struct IdGenerator {
    cell: CounterCell,
}

impl IdGenerator {
    /// The identifier that the next successful call of `next_id` returns.
    pub closed spec fn current(&self) -> u64 {
        cell_value(self.cell)
    }

    /// A generator over an opened durable counter; a new counter holds 0.
    pub fn open(cell: CounterCell) -> (r: IdGenerator)
        ensures
            r.current() == cell_value(cell),
    {
        IdGenerator { cell }
    }

    /// The identifier that the next successful call of `next_id` returns.
    pub fn peek(&self) -> (r: u64)
        ensures
            r == self.current(),
    {
        cell_get(&self.cell)
    }

    /// Hands out the current value and advances the counter by one; `None`
    /// once the counter has reached `u64::MAX`, which is then kept, so no
    /// identifier is ever issued twice.
    pub fn next_id(&mut self) -> (r: Option<u64>)
        ensures
            r is Some <==> old(self).current() < u64::MAX,
            match r {
                Some(id) => id == old(self).current() && final(self).current() == id + 1,
                None => final(self).current() == old(self).current(),
            },
    {
        let current = cell_get(&self.cell);
        if current == u64::MAX {
            return None;
        }
        cell_set(&mut self.cell, current + 1);
        Some(current)
    }
}

/// `s` lists the values of `m` once each, by ascending identifier.
pub open spec fn lists_in_order<T: Record>(s: Seq<T::V>, m: Map<u64, T::V>) -> bool {
    &&& forall|i: int, j: int| 0 <= i < j < s.len() ==> T::key_of(s[i]) < T::key_of(s[j])
    &&& forall|i: int|
        0 <= i < s.len() ==> m.contains_key(T::key_of(#[trigger] s[i])) && m[T::key_of(s[i])]
            == s[i]
    &&& forall|k: u64| #[trigger]
        m.contains_key(k) ==> exists|i: int| 0 <= i < s.len() && T::key_of(s[i]) == k
}

/// The views of a sequence of records.
pub open spec fn views<T: Record>(s: Seq<T>) -> Seq<T::V> {
    s.map_values(|r: T| r@)
}

fn same_bytes(a: &Vec<u8>, b: &Vec<u8>) -> (r: bool)
    ensures
        r == (a@ == b@),
{
    if a.len() != b.len() {
        return false;
    }
    let mut i: usize = 0;
    while i < a.len()
        invariant
            i <= a@.len(),
            a@.len() == b@.len(),
            a@.take(i as int) == b@.take(i as int),
        decreases a@.len() - i,
    {
        if a[i] != b[i] {
            assert(a@.take(i as int + 1)[i as int] != b@.take(i as int + 1)[i as int]);
            return false;
        }
        assert(a@.take(i as int + 1) =~= b@.take(i as int + 1));
        i = i + 1;
    }
    assert(a@ =~= a@.take(i as int));
    assert(b@ =~= b@.take(i as int));
    true
}

/// Every entry of `m` is the encoding of a record whose identifier is its
/// key.
pub open spec fn holds_records<T: Record>(m: Map<u64, Seq<u8>>) -> bool {
    forall|k: u64| #[trigger]
        m.contains_key(k) ==> exists|v: T::V| #[trigger] encoding::<T>(v) == m[k] && T::key_of(v)
            == k
}

/// The record that `bytes` encodes, when it is one whose identifier is `key`;
/// `None` when `bytes` encodes no such record.
pub fn entry_holds_record<T: Record>(key: u64, bytes: &Vec<u8>) -> (r: Option<T>)
    ensures
        r is Some <==> exists|v: T::V| #[trigger] encoding::<T>(v) == bytes@ && T::key_of(v) == key,
        r is Some ==> encoding::<T>(r->0@) == bytes@ && T::key_of(r->0@) == key,
{
    let rec = match from_bytes::<T>(bytes) {
        Some(rec) => rec,
        None => {
            return None;
        },
    };
    if rec.key() != key {
        assert forall|v: T::V| #[trigger] encoding::<T>(v) == bytes@ implies T::key_of(v) != key by {
            assert(rec@ == v);
        }
        return None;
    }
    let again = to_bytes(&rec);
    if !same_bytes(&again, bytes) {
        assert forall|v: T::V| #[trigger] encoding::<T>(v) == bytes@ implies T::key_of(v) != key by {
            assert(rec@ == v);
        }
        return None;
    }
    Some(rec)
}

/// A durable map from identifiers to records of one type.
pub struct Store<T: Record> {
    map: ByteMap,
    model: Ghost<Map<u64, T::V>>,
}

impl<T: Record> View for Store<T> {
    type V = Map<u64, T::V>;

    closed spec fn view(&self) -> Map<u64, T::V> {
        self.model@
    }
}

impl<T: Record> Store<T> {
    /// Every stored entry is the encoding of a record whose identifier is its
    /// key.
    pub closed spec fn wf(&self) -> bool {
        &&& map_contents(self.map).dom() == self.model@.dom()
        &&& forall|k: u64| #[trigger]
            self.model@.contains_key(k) ==> map_contents(self.map)[k] == encoding::<T>(
                self.model@[k],
            ) && T::key_of(self.model@[k]) == k
    }

    /// A store over an opened durable map. `Some` exactly when every entry
    /// of the map holds a record stored under its own identifier; the store
    /// then holds those records.
    pub fn open(map: ByteMap) -> (r: Option<Self>)
        ensures
            r is Some <==> holds_records::<T>(map_contents(map)),
            r is Some ==> r->0.wf() && r->0@.dom() == map_contents(map).dom() && forall|k: u64|
                #[trigger] r->0@.contains_key(k) ==> encoding::<T>(r->0@[k])
                    == map_contents(map)[k],
    {
        let entries = map_entries(&map);
        let ghost mut model: Map<u64, T::V> = Map::empty();
        let mut i: usize = 0;
        while i < entries.len()
            invariant
                i <= entries@.len(),
                forall|j: int|
                    0 <= j < entries@.len() ==> #[trigger] map_contents(map).contains_key(
                        entries@[j].0,
                    ) && map_contents(map)[entries@[j].0] == entries@[j].1@,
                forall|k: u64|
                    #[trigger] map_contents(map).contains_key(k) ==> exists|j: int|
                        0 <= j < entries@.len() && entries@[j].0 == k,
                forall|j: int| 0 <= j < i ==> model.contains_key(#[trigger] entries@[j].0),
                forall|k: u64| #[trigger]
                    model.contains_key(k) ==> map_contents(map).contains_key(k)
                        && map_contents(map)[k] == encoding::<T>(model[k]) && T::key_of(model[k])
                        == k,
            decreases entries@.len() - i,
        {
            let key = entries[i].0;
            match entry_holds_record::<T>(key, &entries[i].1) {
                Some(rec) => {
                    proof {
                        assert(map_contents(map).contains_key(entries@[i as int].0));
                        model = model.insert(key, rec@);
                    }
                },
                None => {
                    proof {
                        assert(map_contents(map).contains_key(key));
                        assert(!holds_records::<T>(map_contents(map)));
                    }
                    return None;
                },
            }
            i = i + 1;
        }
        proof {
            assert forall|k: u64| #[trigger] map_contents(map).contains_key(k) implies model.contains_key(k) by {
                let j = choose|j: int| 0 <= j < entries@.len() && entries@[j].0 == k;
                assert(model.contains_key(entries@[j].0));
            }
            assert(map_contents(map).dom() =~= model.dom());
            assert forall|k: u64| #[trigger] map_contents(map).contains_key(k) implies exists|v: T::V|
                #[trigger] encoding::<T>(v) == map_contents(map)[k] && T::key_of(v) == k by {
                assert(encoding::<T>(model[k]) == map_contents(map)[k]);
            }
        }
        Some(Store { map, model: Ghost(model) })
    }

    /// Stores `record` at `id`, replacing any record there.
    pub fn insert(&mut self, id: u64, record: &T)
        requires
            old(self).wf(),
            T::key_of(record@) == id,
        ensures
            final(self).wf(),
            final(self)@ == old(self)@.insert(id, record@),
    {
        let bytes = to_bytes(record);
        let _ = map_insert(&mut self.map, id, bytes);
        self.model = Ghost(self.model@.insert(id, record@));
        assert(map_contents(self.map).dom() =~= self.model@.dom());
    }

    /// The record stored at `id`, if any.
    pub fn lookup(&self, id: u64) -> (r: Option<T>)
        requires
            self.wf(),
        ensures
            r is Some <==> self@.contains_key(id),
            r is Some ==> r->0@ == self@[id] && T::key_of(r->0@) == id,
    {
        match map_get(&self.map, id) {
            Some(bytes) => {
                let r = from_bytes::<T>(&bytes);
                assert(encoding::<T>(self@[id]) == bytes@);
                r
            },
            None => None,
        }
    }

    /// Whether a record is stored at `id`.
    pub fn contains(&self, id: u64) -> (r: bool)
        requires
            self.wf(),
        ensures
            r == self@.contains_key(id),
    {
        map_get(&self.map, id).is_some()
    }

    /// Every stored record, by ascending identifier.
    pub fn scan(&self) -> (r: Vec<T>)
        requires
            self.wf(),
        ensures
            lists_in_order::<T>(views(r@), self@),
    {
        let entries = map_entries(&self.map);
        let mut out: Vec<T> = Vec::new();
        let mut i: usize = 0;
        while i < entries.len()
            invariant
                self.wf(),
                i <= entries@.len(),
                out@.len() == i,
                forall|a: int, b: int|
                    0 <= a < b < entries@.len() ==> entries@[a].0 < entries@[b].0,
                forall|j: int|
                    0 <= j < entries@.len() ==> #[trigger] map_contents(self.map).contains_key(
                        entries@[j].0,
                    ) && map_contents(self.map)[entries@[j].0] == entries@[j].1@,
                forall|j: int| 0 <= j < i ==> #[trigger] out@[j]@ == self@[entries@[j].0],
            decreases entries@.len() - i,
        {
            let ghost key = entries@[i as int].0;
            assert(self@.contains_key(key));
            assert(encoding::<T>(self@[key]) == entries@[i as int].1@);
            match from_bytes::<T>(&entries[i].1) {
                Some(rec) => {
                    out.push(rec);
                },
                None => {
                    // The entry is the encoding of a stored record, so it decodes.
                    assert(false);
                },
            }
            i = i + 1;
        }
        proof {
            let s = views(out@);
            assert forall|j: int| 0 <= j < s.len() implies T::key_of(#[trigger] s[j])
                == entries@[j].0 by {
                assert(self@.contains_key(entries@[j].0));
            }
            assert forall|k: u64| #[trigger] self@.contains_key(k) implies exists|i: int|
                0 <= i < s.len() && T::key_of(s[i]) == k by {
                assert(map_contents(self.map).contains_key(k));
                let j = choose|j: int| 0 <= j < entries@.len() && entries@[j].0 == k;
                assert(T::key_of(s[j]) == k);
            }
            assert forall|j: int| 0 <= j < s.len() implies self@.contains_key(T::key_of(#[trigger] s[j]))
                && self@[T::key_of(s[j])] == s[j] by {
                assert(T::key_of(s[j]) == entries@[j].0);
            }
        }
        out
    }
}

/// Identifiers handed out by successive successful calls of `next_id`, where
/// each call starts from the counter that the previous one left, are
/// strictly increasing and without gaps.
pub proof fn issued_ids_increase(ids: Seq<u64>, counters: Seq<u64>)
    requires
        counters.len() == ids.len() + 1,
        forall|i: int|
            0 <= i < ids.len() ==> #[trigger] ids[i] == counters[i] && counters[i + 1] == ids[i]
                + 1,
    ensures
        forall|j: int| 0 <= j < ids.len() ==> #[trigger] ids[j] == ids[0] + j,
        forall|i: int, j: int| 0 <= i < j < ids.len() ==> ids[i] < ids[j],
    decreases ids.len(),
{
    if ids.len() > 1 {
        let shorter = ids.drop_last();
        issued_ids_increase(shorter, counters.drop_last());
        assert forall|j: int| 0 <= j < ids.len() implies #[trigger] ids[j] == ids[0] + j by {
            if j < ids.len() - 1 {
                assert(shorter[j] == ids[j]);
            } else {
                assert(shorter[j - 1] == ids[j - 1]);
                assert(ids[j - 1] == counters[j - 1]);
            }
        }
    }
}

/// The contents of a store after the inserts `ins`, in order, starting from
/// `m`.
pub open spec fn after_inserts<V>(m: Map<u64, V>, ins: Seq<(u64, V)>) -> Map<u64, V>
    decreases ins.len(),
{
    if ins.len() == 0 {
        m
    } else {
        after_inserts(m, ins.drop_last()).insert(ins.last().0, ins.last().1)
    }
}

/// After a series of inserts into an empty store, an identifier is present
/// exactly when one of the inserts was at it: one never inserted is absent.
pub proof fn present_iff_inserted<V>(ins: Seq<(u64, V)>, id: u64)
    ensures
        after_inserts(Map::<u64, V>::empty(), ins).contains_key(id) <==> exists|i: int|
            0 <= i < ins.len() && #[trigger] ins[i].0 == id,
    decreases ins.len(),
{
    if ins.len() > 0 {
        let shorter = ins.drop_last();
        present_iff_inserted(shorter, id);
        if exists|i: int| 0 <= i < shorter.len() && #[trigger] shorter[i].0 == id {
            let i = choose|i: int| 0 <= i < shorter.len() && #[trigger] shorter[i].0 == id;
            assert(ins[i].0 == id);
        }
        if exists|i: int| 0 <= i < ins.len() && #[trigger] ins[i].0 == id {
            let i = choose|i: int| 0 <= i < ins.len() && #[trigger] ins[i].0 == id;
            if i < ins.len() - 1 {
                assert(shorter[i].0 == id);
            }
        }
    }
}

/// After a series of inserts into an empty store, an identifier holds the
/// value of the last insert at it.
pub proof fn last_insert_wins<V>(ins: Seq<(u64, V)>, id: u64, i: int)
    requires
        0 <= i < ins.len(),
        ins[i].0 == id,
        forall|j: int| i < j < ins.len() ==> #[trigger] ins[j].0 != id,
    ensures
        after_inserts(Map::<u64, V>::empty(), ins).contains_key(id),
        after_inserts(Map::<u64, V>::empty(), ins)[id] == ins[i].1,
    decreases ins.len(),
{
    if i < ins.len() - 1 {
        let shorter = ins.drop_last();
        assert(ins[ins.len() - 1].0 != id);
        assert forall|j: int| i < j < shorter.len() implies #[trigger] shorter[j].0 != id by {
            assert(ins[j].0 != id);
        }
        last_insert_wins(shorter, id, i);
    }
}

/// A record inserted at `id` is what a lookup of `id` gives, also after an
/// insert at another identifier.
pub proof fn insert_then_lookup<V>(before: Map<u64, V>, id: u64, v: V, other: u64, w: V)
    requires
        other != id,
    ensures
        before.insert(id, v).contains_key(id),
        before.insert(id, v)[id] == v,
        before.insert(id, v).insert(other, w).contains_key(id),
        before.insert(id, v).insert(other, w)[id] == v,
{
}

/// A map has one listing by ascending identifier: two sequences that both
/// list it are equal.
pub proof fn listing_is_unique<T: Record>(s1: Seq<T::V>, s2: Seq<T::V>, m: Map<u64, T::V>)
    requires
        lists_in_order::<T>(s1, m),
        lists_in_order::<T>(s2, m),
    ensures
        s1 == s2,
{
    assert forall|i: int| 0 <= i < s1.len() && i < s2.len() implies T::key_of(#[trigger] s1[i])
        == T::key_of(s2[i]) by {
        same_key_at::<T>(s1, s2, m, i);
    }
    if s1.len() < s2.len() {
        let n = s1.len() as int;
        let k = T::key_of(s2[n]);
        assert(m.contains_key(k));
        let j = choose|j: int| 0 <= j < s1.len() && T::key_of(s1[j]) == k;
        assert(T::key_of(s1[j]) == T::key_of(s2[j]));
    } else if s2.len() < s1.len() {
        let n = s2.len() as int;
        let k = T::key_of(s1[n]);
        assert(m.contains_key(k));
        let j = choose|j: int| 0 <= j < s2.len() && T::key_of(s2[j]) == k;
        assert(T::key_of(s1[j]) == T::key_of(s2[j]));
    }
    assert forall|i: int| 0 <= i < s1.len() implies s1[i] == s2[i] by {
        assert(T::key_of(s1[i]) == T::key_of(s2[i]));
    }
    assert(s1 =~= s2);
}

proof fn same_key_at<T: Record>(s1: Seq<T::V>, s2: Seq<T::V>, m: Map<u64, T::V>, i: int)
    requires
        lists_in_order::<T>(s1, m),
        lists_in_order::<T>(s2, m),
        0 <= i < s1.len(),
        i < s2.len(),
    ensures
        T::key_of(s1[i]) == T::key_of(s2[i]),
    decreases i,
{
    if i > 0 {
        same_key_at::<T>(s1, s2, m, i - 1);
    }
    let k1 = T::key_of(s1[i]);
    let k2 = T::key_of(s2[i]);
    assert(m.contains_key(k1) && m.contains_key(k2));
    if k1 < k2 {
        let j = choose|j: int| 0 <= j < s2.len() && T::key_of(s2[j]) == k1;
        if j < i {
            same_key_at::<T>(s1, s2, m, j);
        }
    } else if k2 < k1 {
        let j = choose|j: int| 0 <= j < s1.len() && T::key_of(s1[j]) == k2;
        if j < i {
            same_key_at::<T>(s1, s2, m, j);
        }
    }
}

} // verus!
