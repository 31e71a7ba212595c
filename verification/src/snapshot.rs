//! The base snapshot that VMs are restored from.
use vstd::prelude::*;
use crate::paths::{join_path, join_target};

verus! {

/// The directory that holds a Firecracker snapshot (`vmstate.bin` and
/// `memory.bin`).
#[derive(Debug, Clone)]
pub struct SnapshotManager {
    pub snapshot_path: String,
}

impl SnapshotManager {
    /// A manager for the snapshot in `snapshot_path`.
    pub fn new(snapshot_path: String) -> (m: Self)
        ensures
            m.snapshot_path == snapshot_path,
    {
        SnapshotManager { snapshot_path }
    }

    /// The VM state file of the snapshot.
    pub fn vmstate_path(&self) -> (p: String)
        ensures
            p@ == join_target("vmstate.bin"@, self.snapshot_path@),
    {
        join_path(self.snapshot_path.as_str(), "vmstate.bin")
    }

    /// The guest memory file of the snapshot.
    pub fn memory_path(&self) -> (p: String)
        ensures
            p@ == join_target("memory.bin"@, self.snapshot_path@),
    {
        join_path(self.snapshot_path.as_str(), "memory.bin")
    }
}

} // verus!
