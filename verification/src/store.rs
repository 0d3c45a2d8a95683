//! The snapshot behind a reader-writer lock: one writer publishes, any number
//! of readers draw, and no reader sees a reading half written.

use vstd::prelude::*;
use vstd::rwlock::{ReadHandle, RwLock, RwLockPredicate};
use crate::snapshot::{Config, RawSnapshot, Snapshot};
use crate::updater::{action_in, next_phase, Action, Event, Updater};

verus! {

/// What the lock admits: well-formed snapshots of the capacity and the table
/// size that the store was set up with.
pub struct Consistent {
    pub history_capacity: usize,
    pub table_size: usize,
}

impl RwLockPredicate<Snapshot> for Consistent {
    open spec fn inv(self, snapshot: Snapshot) -> bool {
        &&& snapshot.wf()
        &&& snapshot.history_capacity() == self.history_capacity
        &&& snapshot.table_size() == self.table_size
    }
}

/// The shared snapshot.
pub struct SnapshotStore {
    lock: RwLock<Snapshot, Consistent>,
}

/// Shared access to the snapshot for the time of one render pass. The access
/// is not given up when the reader goes out of scope: call `release`.
pub struct SnapshotReader<'a> {
    handle: ReadHandle<'a, Snapshot, Consistent>,
}

impl<'a> SnapshotReader<'a> {
    /// The snapshot that this reader sees.
    pub closed spec fn view(&self) -> Snapshot {
        self.handle.view()
    }

    /// Every snapshot that a reader sees is one that the lock admits: it was
    /// published whole.
    #[verifier::type_invariant]
    spec fn sees_whole_snapshot(&self) -> bool {
        self.handle.rwlock().inv(self.handle.view())
    }

    /// The snapshot, to read from.
    pub fn snapshot(&self) -> (snapshot: &Snapshot)
        ensures
            *snapshot == self@,
            snapshot.wf(),
    {
        proof {
            use_type_invariant(self);
        }
        self.handle.borrow()
    }

    /// Gives up the shared access.
    pub fn release(self) {
        self.handle.release_read();
    }
}

impl SnapshotStore {
    /// What every snapshot in the store meets.
    pub closed spec fn admits(&self) -> Consistent {
        self.lock.pred()
    }

    /// A store that holds the startup state.
    pub fn new(config: &Config) -> (store: Self)
        ensures
            store.admits().history_capacity == config.history_capacity,
            store.admits().table_size == config.table_size,
    {
        let snapshot = Snapshot::new(config);
        let ghost admitted = Consistent {
            history_capacity: config.history_capacity,
            table_size: config.table_size,
        };
        SnapshotStore { lock: RwLock::new(snapshot, Ghost(admitted)) }
    }

    /// Takes shared access, waiting while a writer is at work. The snapshot
    /// that the reader sees is well formed: its series and histories belong
    /// to one and the same published reading.
    pub fn read(&self) -> (reader: SnapshotReader<'_>)
        ensures
            self.admits().inv(reader@),
    {
        let handle = self.lock.acquire_read();
        SnapshotReader { handle }
    }

    /// Runs `look` on the snapshot under shared access and gives the access
    /// up when `look` is done. Whatever snapshot `look` sees is well formed.
    pub fn inspect<R, F: FnOnce(&Snapshot) -> R>(&self, look: F) -> (seen: R)
        requires
            forall|snapshot: &Snapshot|
                self.admits().inv(*snapshot) ==> call_requires(look, (snapshot,)),
        ensures
            exists|snapshot: &Snapshot|
                self.admits().inv(*snapshot) && call_ensures(look, (snapshot,), seen),
    {
        let reader = self.read();
        let seen = look(reader.snapshot());
        reader.release();
        seen
    }

    /// Takes exclusive access, publishes `raw` where it can be used, and
    /// gives the access up. Tells whether the reading was published; where
    /// it was not, the snapshot is left as it was.
    pub fn publish(&self, raw: &RawSnapshot) -> (done: bool)
        ensures
            done == raw.usable(),
    {
        let (mut snapshot, handle) = self.lock.acquire_write();
        let done = raw.is_usable();
        if done {
            snapshot.publish(raw);
        }
        handle.release_write(snapshot);
        done
    }

    /// Takes one event of the update cycle. A reading that the cycle is to
    /// write is published under exclusive access, which is given up again
    /// before this returns; any other event leaves the snapshot alone and
    /// the lock untouched. Returns what to do next.
    pub fn update(&self, updater: &mut Updater, event: Event) -> (action: Action)
        ensures
            final(updater).phase() == next_phase(old(updater).phase(), event),
            final(updater).period_ms() == old(updater).period_ms(),
            action == action_in(final(updater).phase(), final(updater).period_ms()),
    {
        if updater.writes(&event) {
            if let Event::SnapshotReady(raw) = &event {
                let _ = self.publish(raw);
            }
        }
        updater.advance(&event)
    }
}

} // verus!
