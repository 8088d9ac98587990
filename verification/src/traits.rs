//! The capability interface to the storage subsystem.

use vstd::prelude::*;

use crate::snapshot::Snapshot;

verus! {

/// What the reconciler's surroundings must provide: a snapshot listing,
/// a pool-availability check, and the three transfer operations, each
/// reporting success. The binary implements it by invoking the storage
/// tool; tests implement it with fixed responses.
pub trait SystemProvider {
    fn get_all_snapshots(&self) -> Vec<Snapshot>;

    fn is_pool_imported(&self, pool_name: &str) -> bool;

    fn send_incremental_backup(
        &self,
        ancestor_snapshot: &str,
        latest_snapshot: &str,
        backup_dataset: &str,
    ) -> bool;

    fn send_full_backup(&self, latest_snapshot: &str, backup_dataset: &str) -> bool;

    fn create_dataset_tree_if_needed(&self, backup_dataset: &str) -> bool;
}

} // verus!
