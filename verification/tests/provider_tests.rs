use cantaloupe::snapshot::Snapshot;
use cantaloupe::testing::FakeSystem;
use cantaloupe::traits::SystemProvider;

#[test]
fn fake_system_lists_its_snapshots() {
    let snaps = vec![Snapshot::new("tank@2022-05-10-0000-00-TEST")];
    let system = FakeSystem::new_with_snaps(snaps.clone());

    assert_eq!(system.get_all_snapshots(), snaps);
    assert!(system.is_pool_imported("tank"));
}

#[test]
fn fake_system_reports_configured_transfer_results() {
    let mut system = FakeSystem::new();
    system.send_full_backup = false;

    assert!(!system.send_full_backup("a@1-2-3-4-5-T", "backup/a"));
    assert!(system.send_incremental_backup("a@1-2-3-4-5-T", "a@1-2-3-4-6-T", "backup/a"));
    assert!(system.create_dataset_tree_if_needed("backup/a"));
}
