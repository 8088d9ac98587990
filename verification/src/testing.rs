//! A fixed-response storage provider for tests.

use vstd::prelude::*;

use crate::snapshot::{copy_snapshots, Snapshot};
use crate::traits::SystemProvider;

verus! {

/// A provider that answers from fixed values instead of a storage
/// subsystem.
pub struct FakeSystem {
    pub snapshots: Vec<Snapshot>,
    pub is_pool_imported: bool,
    pub send_full_backup: bool,
    pub send_incremental_backup: bool,
}

impl FakeSystem {
    /// An empty provider that reports every pool imported and every
    /// transfer successful.
    pub fn new() -> (r: FakeSystem)
        ensures
            r.snapshots@.len() == 0,
            r.is_pool_imported,
            r.send_full_backup,
            r.send_incremental_backup,
    {
        FakeSystem {
            snapshots: Vec::new(),
            is_pool_imported: true,
            send_full_backup: true,
            send_incremental_backup: true,
        }
    }

    /// An otherwise-empty provider that lists the given snapshots.
    pub fn new_with_snaps(snapshots: Vec<Snapshot>) -> (r: FakeSystem)
        ensures
            r.snapshots == snapshots,
            r.is_pool_imported,
            r.send_full_backup,
            r.send_incremental_backup,
    {
        let mut system = FakeSystem::new();
        system.snapshots = snapshots;
        system
    }
}

impl SystemProvider for FakeSystem {
    fn get_all_snapshots(&self) -> Vec<Snapshot> {
        copy_snapshots(&self.snapshots)
    }

    fn is_pool_imported(&self, _pool_name: &str) -> bool {
        self.is_pool_imported
    }

    fn send_full_backup(&self, _latest_snapshot: &str, _backup_dataset: &str) -> bool {
        self.send_full_backup
    }

    fn send_incremental_backup(
        &self,
        _ancestor_snapshot: &str,
        _latest_snapshot: &str,
        _backup_dataset: &str,
    ) -> bool {
        self.send_incremental_backup
    }

    fn create_dataset_tree_if_needed(&self, _backup_dataset: &str) -> bool {
        true
    }
}

} // verus!
