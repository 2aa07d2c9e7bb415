//! The per-instance handle table: small integers that stand for host-owned
//! resources. Guests only ever see the integer; the table decides whether it
//! still names anything, and of which type.

use vstd::prelude::*;

verus! {

/// Which side of the boundary owns the resource behind a handle.
#[derive(Clone, Copy, Debug, PartialEq, Eq, Structural)]
pub enum Owner {
    Host,
    Guest,
}

/// Why the table turned a request down.
#[derive(Clone, Copy, Debug, PartialEq, Eq, Structural)]
pub enum HandleError {
    /// The handle names no live entry.
    InvalidHandle,
    /// The entry is live but was inserted under another type tag.
    TypeMismatch,
    /// Every index that fits a handle is in use.
    Exhausted,
}

/// One live entry of the table.
pub struct Entry<T> {
    pub tag: u32,
    pub owner: Owner,
    pub payload: T,
}

/// Handle table with free-list reuse of indices.
///
/// A slot is either occupied or listed exactly once in `free`; the most
/// recently freed index is handed out first, and the table only grows when
/// no freed index is left.
pub struct HandleTable<T> {
    slots: Vec<Option<Entry<T>>>,
    free: Vec<u32>,
}

/// What one request on a handle answers, given the live entries.
pub open spec fn lookup<T>(entries: Map<u32, Entry<T>>, handle: u32, tag: u32) -> Result<
    T,
    HandleError,
> {
    if !entries.dom().contains(handle) {
        Err(HandleError::InvalidHandle)
    } else if entries[handle].tag != tag {
        Err(HandleError::TypeMismatch)
    } else {
        Ok(entries[handle].payload)
    }
}

impl<T> HandleTable<T> {
    /// The live entries, by handle.
    pub closed spec fn view(&self) -> Map<u32, Entry<T>> {
        Map::new(
            |h: u32| (h as int) < self.slots@.len() && self.slots@[h as int] is Some,
            |h: u32| self.slots@[h as int]->Some_0,
        )
    }

    /// The freed indices, oldest first.
    pub closed spec fn free_list(&self) -> Seq<u32> {
        self.free@
    }

    /// How many indices the table has handed out at least once.
    pub closed spec fn slot_count(&self) -> nat {
        self.slots@.len()
    }

    /// The handle that the next successful `insert` returns.
    pub open spec fn next_handle(&self) -> nat {
        if self.free_list().len() > 0 {
            self.free_list().last() as nat
        } else {
            self.slot_count()
        }
    }

    /// A slot is free exactly when the free list names it, and names it once.
    pub closed spec fn wf(&self) -> bool {
        &&& self.slots@.len() <= u32::MAX as nat + 1
        &&& self.free@.no_duplicates()
        &&& forall|k: int|
            0 <= k < self.free@.len() ==> (#[trigger] self.free@[k] as int) < self.slots@.len()
                && self.slots@[self.free@[k] as int] is None
        &&& forall|i: int|
            0 <= i < self.slots@.len() && (#[trigger] self.slots@[i]) is None
                ==> self.free@.contains(i as u32)
    }

    /// An empty table.
    pub fn new() -> (table: Self)
        ensures
            table.wf(),
            table@ == Map::<u32, Entry<T>>::empty(),
            table.free_list() == Seq::<u32>::empty(),
            table.slot_count() == 0,
    {
        let table = HandleTable { slots: Vec::new(), free: Vec::new() };
        assert(table@ =~= Map::<u32, Entry<T>>::empty());
        table
    }

    /// How many indices the table has handed out at least once.
    pub fn capacity_used(&self) -> (n: usize)
        ensures
            n == self.slot_count(),
    {
        self.slots.len()
    }

    /// Whether `handle` names a live entry.
    pub fn contains(&self, handle: u32) -> (live: bool)
        ensures
            live == self@.dom().contains(handle),
    {
        let i: usize = handle as usize;
        i < self.slots.len() && self.slots[i].is_some()
    }

    /// Creates an entry and returns its handle.
    ///
    /// The most recently freed index is reused; with none freed, the table
    /// grows by one. Fails only when no index that fits a handle is left.
    pub fn insert(&mut self, tag: u32, owner: Owner, payload: T) -> (result: Result<
        u32,
        HandleError,
    >)
        requires
            old(self).wf(),
        ensures
            final(self).wf(),
            match result {
                Ok(handle) => {
                    &&& old(self).next_handle() <= u32::MAX
                    &&& handle == old(self).next_handle()
                    &&& !old(self)@.dom().contains(handle)
                    &&& final(self)@ == old(self)@.insert(handle, Entry { tag, owner, payload })
                    &&& final(self).free_list() == if old(self).free_list().len() > 0 {
                        old(self).free_list().drop_last()
                    } else {
                        old(self).free_list()
                    }
                    &&& final(self).slot_count() == if old(self).free_list().len() > 0 {
                        old(self).slot_count()
                    } else {
                        old(self).slot_count() + 1
                    }
                },
                Err(e) => {
                    &&& e == HandleError::Exhausted
                    &&& old(self).next_handle() > u32::MAX
                    &&& final(self)@ == old(self)@
                    &&& final(self).free_list() == old(self).free_list()
                    &&& final(self).slot_count() == old(self).slot_count()
                },
            },
    {
        let entry = Entry { tag, owner, payload };
        let n_free: usize = self.free.len();
        if n_free > 0 {
            let handle: u32 = self.free[n_free - 1];
            let ghost before = *self;
            self.free.pop();
            let i: usize = handle as usize;
            self.slots.push(Some(entry));
            let _ = self.slots.swap_remove(i);
            proof {
                assert(before.slots@[i as int] is None);
                assert(self.slots@ =~= before.slots@.update(i as int, Some(entry)));
                assert(self.free@ =~= before.free@.drop_last());
                assert(self@ =~= before@.insert(handle, entry));
                assert forall|j: int|
                    0 <= j < self.slots@.len() && (#[trigger] self.slots@[j]) is None
                        implies self.free@.contains(j as u32) by {
                    assert(before.slots@[j] is None);
                    assert(before.free@.contains(j as u32));
                    let k: int = choose|k: int|
                        0 <= k < before.free@.len() && before.free@[k] == j as u32;
                    assert(k != before.free@.len() - 1);
                    assert(self.free@[k] == j as u32);
                }
            }
            Ok(handle)
        } else {
            let n: usize = self.slots.len();
            if n > u32::MAX as usize {
                return Err(HandleError::Exhausted);
            }
            let ghost before = *self;
            self.slots.push(Some(entry));
            proof {
                assert(self@ =~= before@.insert(n as u32, entry));
                assert forall|j: int|
                    0 <= j < self.slots@.len() && (#[trigger] self.slots@[j]) is None
                        implies self.free@.contains(j as u32) by {
                    assert(before.slots@[j] is None);
                }
            }
            Ok(n as u32)
        }
    }

    /// Looks at the resource behind `handle` without consuming the handle.
    pub fn borrow(&self, handle: u32, tag: u32) -> (result: Result<&T, HandleError>)
        requires
            self.wf(),
        ensures
            match result {
                Ok(payload) => lookup(self@, handle, tag) == Ok::<T, HandleError>(*payload),
                Err(e) => lookup(self@, handle, tag) == Err::<T, HandleError>(e),
            },
    {
        let i: usize = handle as usize;
        if i >= self.slots.len() {
            return Err(HandleError::InvalidHandle);
        }
        match &self.slots[i] {
            None => Err(HandleError::InvalidHandle),
            Some(entry) => {
                if entry.tag != tag {
                    Err(HandleError::TypeMismatch)
                } else {
                    Ok(&entry.payload)
                }
            },
        }
    }

    /// Consumes `handle` and hands its resource out.
    ///
    /// On failure the table is left as it was: a mismatched tag does not
    /// consume the handle.
    pub fn take(&mut self, handle: u32, tag: u32) -> (result: Result<T, HandleError>)
        requires
            old(self).wf(),
        ensures
            final(self).wf(),
            result == lookup(old(self)@, handle, tag),
            final(self).slot_count() == old(self).slot_count(),
            match result {
                Ok(_) => {
                    &&& final(self)@ == old(self)@.remove(handle)
                    &&& final(self).free_list() == old(self).free_list().push(handle)
                },
                Err(_) => {
                    &&& final(self)@ == old(self)@
                    &&& final(self).free_list() == old(self).free_list()
                },
            },
    {
        let i: usize = handle as usize;
        if i >= self.slots.len() {
            return Err(HandleError::InvalidHandle);
        }
        match &self.slots[i] {
            None => {
                return Err(HandleError::InvalidHandle);
            },
            Some(entry) => {
                if entry.tag != tag {
                    return Err(HandleError::TypeMismatch);
                }
            },
        }
        let entry = self.vacate(handle);
        Ok(entry.payload)
    }

    /// Puts `payload` in the place of the resource behind `handle` and hands
    /// the former resource out; tag, owner and handle stay as they are.
    ///
    /// On failure the table is left as it was and `payload` is dropped.
    pub fn replace(&mut self, handle: u32, tag: u32, payload: T) -> (result: Result<
        T,
        HandleError,
    >)
        requires
            old(self).wf(),
        ensures
            final(self).wf(),
            result == lookup(old(self)@, handle, tag),
            final(self).slot_count() == old(self).slot_count(),
            final(self).free_list() == old(self).free_list(),
            match result {
                Ok(_) => final(self)@ == old(self)@.insert(
                    handle,
                    Entry { tag, owner: old(self)@[handle].owner, payload },
                ),
                Err(_) => final(self)@ == old(self)@,
            },
    {
        let i: usize = handle as usize;
        if i >= self.slots.len() {
            return Err(HandleError::InvalidHandle);
        }
        match &self.slots[i] {
            None => {
                return Err(HandleError::InvalidHandle);
            },
            Some(entry) => {
                if entry.tag != tag {
                    return Err(HandleError::TypeMismatch);
                }
            },
        }
        let ghost before = *self;
        self.slots.push(None);
        let slot = self.slots.swap_remove(i);
        let former = slot.unwrap();
        let entry = Entry { tag: former.tag, owner: former.owner, payload };
        self.slots.push(Some(entry));
        let _ = self.slots.swap_remove(i);
        proof {
            assert(self.slots@ =~= before.slots@.update(i as int, Some(entry)));
            assert(self@ =~= before@.insert(handle, entry));
            assert forall|k: int| 0 <= k < self.free@.len() implies (
            #[trigger] self.free@[k] as int) < self.slots@.len()
                && self.slots@[self.free@[k] as int] is None by {
                assert(before.slots@[before.free@[k] as int] is None);
            }
            assert forall|j: int|
                0 <= j < self.slots@.len() && (#[trigger] self.slots@[j]) is None
                    implies self.free@.contains(j as u32) by {
                assert(before.slots@[j] is None);
            }
        }
        Ok(former.payload)
    }

    /// Drops the entry behind `handle`, whatever its type.
    pub fn remove(&mut self, handle: u32) -> (result: Result<(), HandleError>)
        requires
            old(self).wf(),
        ensures
            final(self).wf(),
            final(self).slot_count() == old(self).slot_count(),
            match result {
                Ok(_) => {
                    &&& old(self)@.dom().contains(handle)
                    &&& final(self)@ == old(self)@.remove(handle)
                    &&& final(self).free_list() == old(self).free_list().push(handle)
                },
                Err(e) => {
                    &&& e == HandleError::InvalidHandle
                    &&& !old(self)@.dom().contains(handle)
                    &&& final(self)@ == old(self)@
                    &&& final(self).free_list() == old(self).free_list()
                },
            },
    {
        if !self.contains(handle) {
            return Err(HandleError::InvalidHandle);
        }
        let _ = self.vacate(handle);
        Ok(())
    }

    /// Empties the slot of a live handle and puts its index on the free list.
    fn vacate(&mut self, handle: u32) -> (entry: Entry<T>)
        requires
            old(self).wf(),
            old(self)@.dom().contains(handle),
        ensures
            final(self).wf(),
            entry == old(self)@[handle],
            final(self)@ == old(self)@.remove(handle),
            final(self).free_list() == old(self).free_list().push(handle),
            final(self).slot_count() == old(self).slot_count(),
    {
        let i: usize = handle as usize;
        let ghost before = *self;
        self.slots.push(None);
        let slot = self.slots.swap_remove(i);
        self.free.push(handle);
        proof {
            assert(self.slots@ =~= before.slots@.update(i as int, None));
            assert(self@ =~= before@.remove(handle));
            assert(!before.free@.contains(handle)) by {
                if before.free@.contains(handle) {
                    let k: int = choose|k: int|
                        0 <= k < before.free@.len() && before.free@[k] == handle;
                    assert(before.slots@[before.free@[k] as int] is None);
                }
            }
            assert forall|k: int| 0 <= k < self.free@.len() implies (
            #[trigger] self.free@[k] as int) < self.slots@.len()
                && self.slots@[self.free@[k] as int] is None by {
                if k < before.free@.len() {
                    assert(self.free@[k] == before.free@[k]);
                }
            }
            assert forall|j: int|
                0 <= j < self.slots@.len() && (#[trigger] self.slots@[j]) is None
                    implies self.free@.contains(j as u32) by {
                if j == i as int {
                    assert(self.free@[before.free@.len() as int] == handle);
                } else {
                    assert(before.slots@[j] is None);
                    let k: int = choose|k: int|
                        0 <= k < before.free@.len() && before.free@[k] == j as u32;
                    assert(self.free@[k] == j as u32);
                }
            }
        }
        slot.unwrap()
    }
}

/// The life of a handle: once `insert` has put an entry under a handle that
/// was not live, every borrow under the entry's tag answers with the payload
/// and changes nothing, so any number of them succeed; one `take` answers
/// with the payload too; and after that `take`, or after a `remove`, every
/// borrow and every take of the handle fails as invalid, under any tag.
pub proof fn law_handle_lifecycle<T>(entries: Map<u32, Entry<T>>, handle: u32, entry: Entry<T>)
    requires
        !entries.dom().contains(handle),
    ensures
        lookup(entries.insert(handle, entry), handle, entry.tag) == Ok::<T, HandleError>(
            entry.payload,
        ),
        forall|tag: u32|
            #[trigger] lookup(entries.insert(handle, entry).remove(handle), handle, tag) == Err::<
                T,
                HandleError,
            >(HandleError::InvalidHandle),
        forall|tag: u32|
            tag != entry.tag ==> #[trigger] lookup(entries.insert(handle, entry), handle, tag)
                == Err::<T, HandleError>(HandleError::TypeMismatch),
        forall|other: u32, tag: u32|
            other != handle ==> #[trigger] lookup(entries.insert(handle, entry), other, tag)
                == lookup(entries, other, tag),
{
}

} // verus!
