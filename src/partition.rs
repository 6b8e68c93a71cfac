//! The durable memory region, its virtual partitions, the counter cell that
//! lives in one of them and the byte table that lives in another.
//!
//! The stable-structures types are generic over a `Memory` trait that Verus
//! cannot take as a bound, so each is held in an opaque struct of this module.
use ic_stable_structures::cell::{InitError, ValueError};
use ic_stable_structures::memory_manager::{MemoryId, MemoryManager, VirtualMemory};
use ic_stable_structures::storable::Blob;
use ic_stable_structures::{Cell, DefaultMemoryImpl, StableBTreeMap};
use vstd::prelude::*;

verus! {

/// The default memory region is shared through a `RefCell`, which Verus
/// carries here as an opaque type.
#[verifier::external_type_specification]
#[verifier::external_body]
#[verifier::reject_recursive_types(T)]
pub struct ExRefCell<T: ?Sized>(std::cell::RefCell<T>);

#[verifier::external_type_specification]
#[verifier::external_body]
pub struct ExMemoryId(MemoryId);

#[verifier::external_type_specification]
#[verifier::external_body]
pub struct ExInitError(InitError);

#[verifier::external_type_specification]
#[verifier::external_body]
pub struct ExValueError(ValueError);

/// The partition table laid over the process's durable memory region.
#[verifier::external_body]
pub struct MemoryPartitions {
    manager: MemoryManager<DefaultMemoryImpl>,
}

/// The handle of one virtual partition.
#[verifier::external_body]
pub struct Partition {
    memory: VirtualMemory<DefaultMemoryImpl>,
}

/// A `u64` kept durably in a partition of its own.
#[verifier::external_body]
pub struct DurableCounter {
    cell: Cell<u64, VirtualMemory<DefaultMemoryImpl>>,
}

/// The value that a durable counter holds.
pub uninterp spec fn counter_value(c: DurableCounter) -> u64;

/// Relies on `DefaultMemoryImpl::default`: the durable memory region of this
/// process.
#[verifier::external_body]
pub fn default_memory() -> (r: DefaultMemoryImpl) {
    DefaultMemoryImpl::default()
}

impl MemoryPartitions {
    /// Relies on `MemoryManager::init`: lays a new partition table over an
    /// empty region, or reads the one that is already there.
    #[verifier::external_body]
    pub fn init(memory: DefaultMemoryImpl) -> (r: MemoryPartitions) {
        MemoryPartitions { manager: MemoryManager::init(memory) }
    }

    /// Relies on `MemoryManager::get`: the handle of the partition with that
    /// id; two calls with one id reach the same bytes.
    #[verifier::external_body]
    pub fn get(&self, id: MemoryId) -> (r: Partition) {
        Partition { memory: self.manager.get(id) }
    }
}

/// Relies on `MemoryId::new`, which panics on the one reserved id, 255.
#[verifier::external_body]
pub fn memory_id(id: u8) -> (r: MemoryId)
    requires
        id != 255,
{
    MemoryId::new(id)
}

impl DurableCounter {
    /// Relies on `Cell::init`: the value already stored in the partition, or
    /// `default` when the partition holds no cell yet.
    #[verifier::external_body]
    pub fn init(p: Partition, default: u64) -> (r: Result<DurableCounter, InitError>) {
        match Cell::init(p.memory, default) {
            Ok(cell) => Ok(DurableCounter { cell }),
            Err(e) => Err(e),
        }
    }

    /// Relies on `Cell::get`: the value that the cell holds.
    #[verifier::external_body]
    pub fn get(&self) -> (r: u64)
        ensures
            r == counter_value(*self),
    {
        *self.cell.get()
    }

    /// Relies on `Cell::set`: the cell holds `v` and the old value is
    /// returned. It fails only when the memory must grow and cannot; `init`
    /// has already given the cell a page, where eight bytes always fit.
    #[verifier::external_body]
    pub fn set(&mut self, v: u64) -> (r: Result<u64, ValueError>)
        ensures
            r is Ok,
            counter_value(*final(self)) == v,
            r->Ok_0 == counter_value(*old(self)),
    {
        self.cell.set(v)
    }
}

/// The largest byte form that a table entry can hold.
pub const MAX_RECORD_SIZE: usize = 1024;

/// An ordered table from `u64` keys to byte strings of at most
/// `MAX_RECORD_SIZE` bytes, kept durably in a partition of its own.
#[verifier::external_body]
pub struct DurableTable {
    map: StableBTreeMap<u64, Blob<1024>, VirtualMemory<DefaultMemoryImpl>>,
}

/// The entries that a durable table holds.
pub uninterp spec fn table_contents(t: DurableTable) -> Map<u64, Seq<u8>>;

/// Whether the keys of `s` rise strictly from first to last.
pub open spec fn keys_rise(s: Seq<(u64, Vec<u8>)>) -> bool {
    forall|i: int, j: int| 0 <= i < j < s.len() ==> (#[trigger] s[i]).0 < (#[trigger] s[j]).0
}

impl DurableTable {
    /// Relies on `StableBTreeMap::init`: a new table in an empty partition,
    /// or the one that the partition already holds.
    #[verifier::external_body]
    pub fn init(p: Partition) -> (r: DurableTable) {
        DurableTable { map: StableBTreeMap::init(p.memory) }
    }

    /// Relies on `StableBTreeMap::get`: the bytes under `k`, if any.
    #[verifier::external_body]
    pub fn get(&self, k: u64) -> (r: Option<Vec<u8>>)
        ensures
            match r {
                Some(v) => table_contents(*self).contains_key(k) && v@ == table_contents(*self)[k],
                None => !table_contents(*self).contains_key(k),
            },
    {
        match self.map.get(&k) {
            Some(blob) => Some(blob.as_slice().to_vec()),
            None => None,
        }
    }

    /// Relies on `Blob::try_from`, which takes any slice of at most
    /// `MAX_RECORD_SIZE` bytes, and on `StableBTreeMap::insert`, which puts
    /// the bytes under `k` in place of what was there.
    #[verifier::external_body]
    pub fn insert(&mut self, k: u64, v: &Vec<u8>)
        requires
            v.len() <= MAX_RECORD_SIZE,
        ensures
            table_contents(*final(self)) == table_contents(*old(self)).insert(k, v@),
    {
        if let Ok(blob) = Blob::<1024>::try_from(v.as_slice()) {
            self.map.insert(k, blob);
        }
    }

    /// Relies on `StableBTreeMap::remove`: takes the entry under `k` out and
    /// returns its bytes.
    #[verifier::external_body]
    pub fn remove(&mut self, k: u64) -> (r: Option<Vec<u8>>)
        ensures
            table_contents(*final(self)) == table_contents(*old(self)).remove(k),
            match r {
                Some(v) => table_contents(*old(self)).contains_key(k) && v@ == table_contents(*old(self))[k],
                None => !table_contents(*old(self)).contains_key(k),
            },
    {
        match self.map.remove(&k) {
            Some(blob) => Some(blob.as_slice().to_vec()),
            None => None,
        }
    }

    /// Relies on `StableBTreeMap::iter`: every entry once, in increasing
    /// order of key.
    #[verifier::external_body]
    pub fn entries(&self) -> (r: Vec<(u64, Vec<u8>)>)
        ensures
            r.len() == table_contents(*self).len(),
            keys_rise(r@),
            forall|i: int|
                0 <= i < r.len() ==> table_contents(*self).contains_key(#[trigger] r@[i].0)
                    && r@[i].1@ == table_contents(*self)[r@[i].0],
            forall|k: u64|
                #[trigger] table_contents(*self).contains_key(k) ==> exists|i: int|
                    0 <= i < r.len() && r@[i].0 == k,
    {
        self.map.iter().map(|(k, blob)| (k, blob.as_slice().to_vec())).collect()
    }
}

} // verus!
