//! Issues gym ids from a counter kept in durable memory.
use crate::partition::{counter_value, memory_id, DurableCounter, MemoryPartitions};
use vstd::prelude::*;

verus! {

/// The partition that holds the id counter; no table uses it.
pub const COUNTER_PARTITION: u8 = 0;

/// Hands out ids one above the last one issued.
pub struct IdAllocator {
    counter: DurableCounter,
}

impl View for IdAllocator {
    /// The last id issued, or the value the counter started from.
    type V = u64;

    closed spec fn view(&self) -> u64 {
        counter_value(self.counter)
    }
}

impl IdAllocator {
    /// Binds the allocator to its partition; `None` when the partition holds
    /// a cell of a layout that cannot be read.
    pub fn init(partitions: &MemoryPartitions) -> (r: Option<IdAllocator>) {
        let memory = partitions.get(memory_id(COUNTER_PARTITION));
        match DurableCounter::init(memory, 0) {
            Ok(counter) => Some(IdAllocator { counter }),
            Err(_) => None,
        }
    }

    /// The last id issued.
    pub fn last(&self) -> (r: u64)
        ensures
            r == self@,
    {
        self.counter.get()
    }

    /// Stores and returns the id after the last one. `None`, with the
    /// counter unchanged, exactly when the ids are used up.
    pub fn next_id(&mut self) -> (r: Option<u64>)
        ensures
            r is Some <==> old(self)@ < u64::MAX,
            match r {
                Some(id) => old(self)@ < u64::MAX && id == old(self)@ + 1 && final(self)@ == id,
                None => final(self)@ == old(self)@,
            },
    {
        let current = self.counter.get();
        if current == u64::MAX {
            return None;
        }
        match self.counter.set(current + 1) {
            Ok(_) => Some(current + 1),
            Err(_) => None,
        }
    }
}

} // verus!
