//! An ordered map from gym id to gym record, kept in durable memory in the
//! byte form of the codec.
use crate::codec::{decode_gym, encode_gym, gym_bytes, try_decode_gym};
use crate::model::{Gym, GymView};
use crate::partition::{table_contents, DurableTable, MAX_RECORD_SIZE};
use vstd::prelude::*;

verus! {

/// The records of one table, ordered by key.
pub struct GymStore {
    table: DurableTable,
    model: Ghost<Map<u64, GymView>>,
}

impl View for GymStore {
    type V = Map<u64, GymView>;

    closed spec fn view(&self) -> Map<u64, GymView> {
        self.model@
    }
}

/// Whether the byte form of `g` fits in a table entry.
pub open spec fn fits(g: GymView) -> bool {
    gym_bytes(g).len() <= MAX_RECORD_SIZE
}

/// Whether `b` is the byte form of a gym with id `k`, no id above `last_id`.
pub open spec fn entry_ok(b: Seq<u8>, k: u64, last_id: u64) -> bool {
    exists|g: GymView| b == gym_bytes(g) && g.id == k && k <= last_id
}

/// Whether the keys of `s` rise strictly from first to last.
pub open spec fn keys_increasing(s: Seq<(u64, GymView)>) -> bool {
    forall|i: int, j: int| 0 <= i < j < s.len() ==> (#[trigger] s[i]).0 < (#[trigger] s[j]).0
}

/// Whether the byte form of `g` fits in a table entry.
pub fn record_fits(g: &Gym) -> (r: bool)
    ensures
        r == fits(g@),
{
    encode_gym(g).len() <= MAX_RECORD_SIZE
}

impl GymStore {
    /// Each entry of the table is the byte form of the record under its key.
    pub closed spec fn inv(&self) -> bool {
        table_contents(self.table) == self.model@.map_values(|g: GymView| gym_bytes(g))
    }

    /// Takes over `table`: `Some` exactly when every entry is the byte form
    /// of a gym stored under its own id, no id above `last_id`; that gym is
    /// then the record under the key.
    pub fn load(table: DurableTable, last_id: u64) -> (r: Option<GymStore>)
        ensures
            r is Some <==> forall|k: u64| #[trigger] table_contents(table).contains_key(k) ==> entry_ok(
                table_contents(table)[k],
                k,
                last_id,
            ),
            r matches Some(s) ==> {
                &&& s.inv()
                &&& s@.dom() == table_contents(table).dom()
                &&& forall|k: u64|
                    #[trigger] s@.contains_key(k) ==> gym_bytes(s@[k]) == table_contents(table)[k]
                        && s@[k].id == k && k <= last_id
            },
    {
        let entries = table.entries();
        let ghost mut model = Map::<u64, GymView>::empty();
        let mut i: usize = 0;
        while i < entries.len()
            invariant
                i <= entries.len(),
                entries.len() == table_contents(table).len(),
                forall|a: int|
                    0 <= a < entries.len() ==> table_contents(table).contains_key(#[trigger] entries@[a].0)
                        && entries@[a].1@ == table_contents(table)[entries@[a].0],
                forall|k: u64|
                    #[trigger] table_contents(table).contains_key(k) ==> exists|a: int|
                        0 <= a < entries.len() && entries@[a].0 == k,
                forall|k: u64|
                    #[trigger] model.contains_key(k) ==> table_contents(table).contains_key(k) && gym_bytes(model[k])
                        == table_contents(table)[k] && model[k].id == k && k <= last_id,
                forall|a: int| 0 <= a < i ==> model.contains_key(#[trigger] entries@[a].0),
            decreases entries.len() - i,
        {
            let k = entries[i].0;
            let ghost bytes = entries@[i as int].1@;
            let ghost expect = if entry_ok(bytes, k, last_id) {
                Some(choose|g: GymView| bytes == gym_bytes(g) && g.id == k && k <= last_id)
            } else {
                None
            };
            match try_decode_gym(&entries[i].1, Ghost(expect)) {
                Some(g) => {
                    if g.id != k || k > last_id {
                        assert(!entry_ok(table_contents(table)[k], k, last_id));
                        return None;
                    }
                    proof {
                        model = model.insert(k, g@);
                    }
                },
                None => {
                    assert(!entry_ok(table_contents(table)[k], k, last_id));
                    return None;
                },
            }
            i = i + 1;
        }
        assert forall|k: u64| #[trigger] table_contents(table).contains_key(k) implies model.contains_key(k) by {
            let a = choose|a: int| 0 <= a < entries.len() && entries@[a].0 == k;
        }
        let s = GymStore { table, model: Ghost(model) };
        assert(table_contents(s.table) =~= s.model@.map_values(|g: GymView| gym_bytes(g)));
        assert(s@.dom() =~= table_contents(table).dom());
        Some(s)
    }

    /// A copy of the record under `id`, if there is one.
    pub fn get(&self, id: u64) -> (r: Option<Gym>)
        requires
            self.inv(),
        ensures
            match r {
                Some(g) => self@.contains_key(id) && g@ == self@[id],
                None => !self@.contains_key(id),
            },
    {
        match self.table.get(id) {
            Some(bytes) => Some(decode_gym(&bytes, Ghost(self.model@[id]))),
            None => None,
        }
    }

    /// Puts `g` under `id` when its byte form fits in an entry; otherwise
    /// leaves the table as it is.
    pub fn insert(&mut self, id: u64, g: &Gym) -> (r: bool)
        requires
            old(self).inv(),
        ensures
            final(self).inv(),
            r == fits(g@),
            r ==> final(self)@ == old(self)@.insert(id, g@),
            !r ==> final(self)@ == old(self)@,
    {
        let bytes = encode_gym(g);
        if bytes.len() > MAX_RECORD_SIZE {
            return false;
        }
        self.table.insert(id, &bytes);
        self.model = Ghost(self.model@.insert(id, g@));
        assert(table_contents(self.table) =~= self.model@.map_values(|g: GymView| gym_bytes(g)));
        true
    }

    /// Takes the record under `id` out of the table.
    pub fn remove(&mut self, id: u64) -> (r: Option<Gym>)
        requires
            old(self).inv(),
        ensures
            final(self).inv(),
            final(self)@ == old(self)@.remove(id),
            match r {
                Some(p) => old(self)@.contains_key(id) && p@ == old(self)@[id],
                None => !old(self)@.contains_key(id),
            },
    {
        let ghost before = self.model@;
        let r = match self.table.remove(id) {
            Some(bytes) => Some(decode_gym(&bytes, Ghost(before[id]))),
            None => None,
        };
        self.model = Ghost(before.remove(id));
        assert(table_contents(self.table) =~= self.model@.map_values(|g: GymView| gym_bytes(g)));
        r
    }

    /// Every key with a copy of its record, in increasing order of key.
    pub fn scan_all(&self) -> (r: Vec<(u64, Gym)>)
        requires
            self.inv(),
        ensures
            r.len() == self@.len(),
            keys_increasing(r@.map_values(|e: (u64, Gym)| (e.0, e.1@))),
            forall|i: int|
                0 <= i < r.len() ==> self@.contains_key(#[trigger] r@[i].0) && r@[i].1@
                    == self@[r@[i].0],
    {
        let entries = self.table.entries();
        let mut r: Vec<(u64, Gym)> = Vec::new();
        let mut i: usize = 0;
        while i < entries.len()
            invariant
                i <= entries.len(),
                self.inv(),
                r.len() == i,
                crate::partition::keys_rise(entries@),
                forall|a: int|
                    0 <= a < entries.len() ==> table_contents(self.table).contains_key(#[trigger] entries@[a].0)
                        && entries@[a].1@ == table_contents(self.table)[entries@[a].0],
                forall|a: int|
                    0 <= a < i ==> (#[trigger] r@[a]).0 == entries@[a].0 && self@.contains_key(r@[a].0) && r@[a].1@
                        == self@[r@[a].0],
            decreases entries.len() - i,
        {
            let k = entries[i].0;
            let g = decode_gym(&entries[i].1, Ghost(self.model@[k]));
            r.push((k, g));
            i = i + 1;
        }
        assert(self@.dom() =~= table_contents(self.table).dom());
        let ghost rv = r@.map_values(|e: (u64, Gym)| (e.0, e.1@));
        assert forall|a: int, b: int| 0 <= a < b < r.len() implies (#[trigger] rv[a]).0 < (#[trigger] rv[b]).0 by {
            assert(entries@[a].0 < entries@[b].0);
        }
        r
    }
}

} // verus!
