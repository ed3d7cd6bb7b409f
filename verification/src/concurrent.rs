//! The concurrent translation table: [`NatTable`], a [`FlowTable`] guarded
//! by a verified reader-writer lock.
//!
//! A single lock guards the whole bijection. Read operations acquire a
//! shared handle, so any number of readers may proceed concurrently; write
//! operations acquire the exclusive handle. The lock's invariant is that
//! the stored table is well formed, so every reader borrows one complete,
//! well-formed snapshot of the mapping — never a partially updated one —
//! and each operation's result is consistent with a single bijective
//! snapshot, which its contract states.
//!
//! The contracts that pin down how each operation changes the mapping are
//! on the sequential [`FlowTable`]: a caller of the concurrent table cannot
//! observe its state between operations, so the contracts here relate each
//! result to the snapshot at which the operation took effect.

use vstd::prelude::*;
use vstd::rwlock::RwLock;
use crate::flow::FlowIdentifier;
use crate::model::{bijective, collides, forward_lookup, in_range, reverse_lookup};
use crate::table::{CollisionError, FlowTable};

verus! {

/// The lock invariant: whatever table value is stored in the lock is well
/// formed.
pub open spec fn lock_inv() -> spec_fn(FlowTable) -> bool {
    |t: FlowTable| t.wf()
}

/// A thread-safe bijective mapping between internal and external flow
/// identifiers.
///
/// Operations may block while another thread holds the lock; they never
/// observe or expose a partially updated mapping.
pub struct NatTable {
    lock: RwLock<FlowTable, spec_fn(FlowTable) -> bool>,
}

impl NatTable {
    /// The table's invariant: its lock stores exactly the well-formed flow
    /// tables.
    pub closed spec fn wf(&self) -> bool {
        self.lock.pred() == lock_inv()
    }

    /// Creates a new empty table.
    pub fn new() -> (t: NatTable)
        ensures
            t.wf(),
    {
        let table = FlowTable::new();
        proof {
            assert(lock_inv()(table));
        }
        let lock = RwLock::<FlowTable, spec_fn(FlowTable) -> bool>::new(table, Ghost(lock_inv()));
        NatTable { lock }
    }

    /// Adds the pair `(internal, external)` atomically, unless either
    /// identifier already participates in the mapping at the moment the
    /// write lock is held — including re-insertion of an identical pair —
    /// in which case the table is unchanged and a [`CollisionError`] comes
    /// back.
    pub fn insert(&self, internal: FlowIdentifier, external: FlowIdentifier) -> (r: Result<
        (),
        CollisionError,
    >)
        requires
            self.wf(),
        ensures
            exists|m: Map<FlowIdentifier, FlowIdentifier>|
                #[trigger] bijective(m) && ((r is Ok) <==> !collides(m, internal, external)),
    {
        let (mut table, handle) = self.lock.acquire_write();
        let ghost m0 = table@;
        proof {
            assert(table.wf());
            table.lemma_wf();
        }
        let r = table.insert(internal, external);
        proof {
            assert(lock_inv()(table));
        }
        handle.release_write(table);
        proof {
            assert(bijective(m0) && ((r is Ok) <==> !collides(m0, internal, external)));
        }
        r
    }

    /// Forces the pair `(internal, external)` into the table atomically,
    /// evicting whatever mappings involved either identifier on either
    /// side. Cannot fail.
    pub fn insert_overwrite(&self, internal: FlowIdentifier, external: FlowIdentifier)
        requires
            self.wf(),
    {
        let (mut table, handle) = self.lock.acquire_write();
        proof {
            assert(table.wf());
        }
        table.insert_overwrite(internal, external);
        proof {
            assert(lock_inv()(table));
        }
        handle.release_write(table);
    }

    /// The internal identifier that translated to `external` in the
    /// bijective snapshot the read lock saw, or `None` if no mapping used
    /// `external` there. Returns a copy.
    pub fn get_internal(&self, external: &FlowIdentifier) -> (r: Option<FlowIdentifier>)
        requires
            self.wf(),
        ensures
            exists|m: Map<FlowIdentifier, FlowIdentifier>|
                #[trigger] bijective(m) && r == reverse_lookup(m, *external),
    {
        let handle = self.lock.acquire_read();
        let table = handle.borrow();
        proof {
            assert(table.wf());
            table.lemma_wf();
        }
        let r = table.get_internal(external);
        let ghost m0 = table@;
        handle.release_read();
        proof {
            assert(bijective(m0) && r == reverse_lookup(m0, *external));
        }
        r
    }

    /// The external identifier that `internal` translated to in the
    /// bijective snapshot the read lock saw, or `None` if `internal` had no
    /// mapping there. Returns a copy.
    pub fn get_external(&self, internal: &FlowIdentifier) -> (r: Option<FlowIdentifier>)
        requires
            self.wf(),
        ensures
            exists|m: Map<FlowIdentifier, FlowIdentifier>|
                #[trigger] bijective(m) && r == forward_lookup(m, *internal),
    {
        let handle = self.lock.acquire_read();
        let table = handle.borrow();
        proof {
            assert(table.wf());
            table.lemma_wf();
        }
        let r = table.get_external(internal);
        let ghost m0 = table@;
        handle.release_read();
        proof {
            assert(bijective(m0) && r == forward_lookup(m0, *internal));
        }
        r
    }

    /// Whether `internal` participated in the snapshot the read lock saw.
    pub fn contains_internal(&self, internal: &FlowIdentifier) -> (r: bool)
        requires
            self.wf(),
        ensures
            exists|m: Map<FlowIdentifier, FlowIdentifier>|
                #[trigger] bijective(m) && r == m.dom().contains(*internal),
    {
        let handle = self.lock.acquire_read();
        let table = handle.borrow();
        proof {
            assert(table.wf());
            table.lemma_wf();
        }
        let r = table.contains_internal(internal);
        let ghost m0 = table@;
        handle.release_read();
        proof {
            assert(bijective(m0) && r == m0.dom().contains(*internal));
        }
        r
    }

    /// Whether `external` participated in the snapshot the read lock saw.
    pub fn contains_external(&self, external: &FlowIdentifier) -> (r: bool)
        requires
            self.wf(),
        ensures
            exists|m: Map<FlowIdentifier, FlowIdentifier>|
                #[trigger] bijective(m) && r == in_range(m, *external),
    {
        let handle = self.lock.acquire_read();
        let table = handle.borrow();
        proof {
            assert(table.wf());
            table.lemma_wf();
        }
        let r = table.contains_external(external);
        let ghost m0 = table@;
        handle.release_read();
        proof {
            assert(bijective(m0) && r == in_range(m0, *external));
        }
        r
    }

    /// The number of mappings in the snapshot the read lock saw.
    pub fn len(&self) -> (n: usize)
        requires
            self.wf(),
        ensures
            exists|m: Map<FlowIdentifier, FlowIdentifier>| #[trigger] bijective(m) && n == m.len(),
    {
        let handle = self.lock.acquire_read();
        let table = handle.borrow();
        proof {
            assert(table.wf());
            table.lemma_wf();
        }
        let n = table.len();
        let ghost m0 = table@;
        handle.release_read();
        proof {
            assert(bijective(m0) && n == m0.len());
        }
        n
    }

    /// Whether the snapshot the read lock saw held no mapping.
    pub fn is_empty(&self) -> (r: bool)
        requires
            self.wf(),
        ensures
            exists|m: Map<FlowIdentifier, FlowIdentifier>|
                #[trigger] bijective(m) && r == (m.len() == 0),
    {
        let handle = self.lock.acquire_read();
        let table = handle.borrow();
        proof {
            assert(table.wf());
            table.lemma_wf();
        }
        let r = table.is_empty();
        let ghost m0 = table@;
        handle.release_read();
        proof {
            assert(bijective(m0) && r == (m0.len() == 0));
        }
        r
    }

    /// Atomically empties the table: every mapping present at the moment
    /// the write lock is held is gone.
    pub fn clear(&self)
        requires
            self.wf(),
    {
        let (mut table, handle) = self.lock.acquire_write();
        table.clear();
        proof {
            assert(lock_inv()(table));
        }
        handle.release_write(table);
    }

    /// Atomically removes the mapping whose internal side is `internal`,
    /// if one existed when the write lock was held, and returns the
    /// external identifier it translated to.
    pub fn remove_internal(&self, internal: &FlowIdentifier) -> (r: Option<FlowIdentifier>)
        requires
            self.wf(),
        ensures
            exists|m: Map<FlowIdentifier, FlowIdentifier>|
                #[trigger] bijective(m) && r == forward_lookup(m, *internal),
    {
        let (mut table, handle) = self.lock.acquire_write();
        let ghost m0 = table@;
        proof {
            assert(table.wf());
            table.lemma_wf();
        }
        let r = table.remove_internal(internal);
        proof {
            assert(lock_inv()(table));
        }
        handle.release_write(table);
        proof {
            assert(bijective(m0) && r == forward_lookup(m0, *internal));
        }
        r
    }

    /// Atomically removes the mapping whose external side is `external`,
    /// if one existed when the write lock was held, and returns the
    /// internal identifier that translated to it.
    pub fn remove_external(&self, external: &FlowIdentifier) -> (r: Option<FlowIdentifier>)
        requires
            self.wf(),
        ensures
            exists|m: Map<FlowIdentifier, FlowIdentifier>|
                #[trigger] bijective(m) && r == reverse_lookup(m, *external),
    {
        let (mut table, handle) = self.lock.acquire_write();
        let ghost m0 = table@;
        proof {
            assert(table.wf());
            table.lemma_wf();
        }
        let r = table.remove_external(external);
        proof {
            assert(lock_inv()(table));
        }
        handle.release_write(table);
        proof {
            assert(bijective(m0) && r == reverse_lookup(m0, *external));
        }
        r
    }
}

} // verus!
