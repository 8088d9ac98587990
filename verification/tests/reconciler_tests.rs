use cantaloupe::snapshot::Snapshot;
use cantaloupe::Cantaloupe;

fn get_example_snapshots() -> Vec<Snapshot> {
    vec![
        Snapshot::new("tank/var/log@2021-06-03-1800-00-TEST"),
        Snapshot::new("tank/var/log@2021-01-01-1300-12-TEST"),
        Snapshot::new("tank/var/log@2022-10-05-1953-12-TEST"),
        Snapshot::new("tank/var/log@2022-09-29-1512-00-CHECKPOINT"),
        Snapshot::new("tank/usr/home@2022-09-29-1512-00-ELEPHANT"),
        Snapshot::new("backup/tank/var/log@2020-05-13-0013-23-TEST"),
        Snapshot::new("backup/tank/var/log@2021-07-23-0548-19-LOL"),
        Snapshot::new("backup/tank/var/log@2021-06-03-1800-00-TEST"),
        Snapshot::new("backup/usr/ports@2021-06-03-1800-00-DOLPHIN"),
    ]
}

fn get_example_snapshots_no_common_snapshots() -> Vec<Snapshot> {
    vec![
        Snapshot::new("tank/var/log@2021-06-03-1800-00-TEST"),
        Snapshot::new("backup/tank/var/log@2021-07-23-0548-19-LOL"),
    ]
}

#[test]
fn test_get_source_snapshots_labeled_should_return_snapshots_with_correct_label() {
    let program = Cantaloupe::new(&get_example_snapshots(), "backup", "tank/var/log", "TEST");
    let expected_snapshots = vec![
        Snapshot::new("tank/var/log@2021-01-01-1300-12-TEST"),
        Snapshot::new("tank/var/log@2021-06-03-1800-00-TEST"),
        Snapshot::new("tank/var/log@2022-10-05-1953-12-TEST"),
    ];

    let snapshots = program.get_source_snapshots_labeled();

    assert_eq!(snapshots.len(), 3);

    for expected_snapshot in expected_snapshots {
        assert!(snapshots.contains(&expected_snapshot));
    }
}

#[test]
fn test_get_backup_snapshots_labeled_should_return_snapshots_with_correct_label() {
    let program = Cantaloupe::new(&get_example_snapshots(), "backup", "tank/var/log", "TEST");
    let expected_snapshots = vec![
        Snapshot::new("backup/tank/var/log@2020-05-13-0013-23-TEST"),
        Snapshot::new("backup/tank/var/log@2021-06-03-1800-00-TEST"),
    ];

    let snapshots = program.get_backup_snapshots_labeled();

    assert_eq!(snapshots.len(), 2);

    for expected_snapshot in expected_snapshots {
        assert!(snapshots.contains(&expected_snapshot));
    }
}

#[test]
fn test_get_backup_snapshots_should_get_all_backup_snapshots() {
    let program = Cantaloupe::new(&get_example_snapshots(), "backup", "tank/var/log", "TEST");
    let expected_snapshots = vec![
        Snapshot::new("backup/tank/var/log@2020-05-13-0013-23-TEST"),
        Snapshot::new("backup/tank/var/log@2021-07-23-0548-19-LOL"),
        Snapshot::new("backup/tank/var/log@2021-06-03-1800-00-TEST"),
    ];

    let snapshots = program.get_backup_snapshots();

    assert_eq!(snapshots.len(), 3);

    for expected_snapshot in expected_snapshots {
        assert!(snapshots.contains(&expected_snapshot));
    }
}

#[test]
fn test_get_common_snapshot_should_return_common_snapshot() {
    let program = Cantaloupe::new(&get_example_snapshots(), "backup", "tank/var/log", "TEST");
    let expected_common_snapshot = "tank/var/log@2021-06-03-1800-00-TEST";

    let common_snapshot = program.get_common_snapshot();

    assert_eq!(common_snapshot.unwrap(), expected_common_snapshot);
}

#[test]
fn test_get_common_snapshot_should_not_return_common_snapshot() {
    let program = Cantaloupe::new(
        &get_example_snapshots_no_common_snapshots(),
        "backup",
        "tank/var/log",
        "TEST",
    );

    let common_snapshot = program.get_common_snapshot();

    assert!(common_snapshot.is_none());
}

#[test]
fn test_get_latest_source_snapshot_name_should_get_latest() {
    let snapshots = vec![
        Snapshot::new("tank/var/log@2021-07-23-0548-19-TEST"),
        Snapshot::new("tank/var/log@2020-05-13-0013-23-TEST"),
        Snapshot::new("tank/var/log@2021-06-03-1800-00-TEST"),
        Snapshot::new("backup/tank/var/log@2022-12-10-1800-00-TEST"),
        Snapshot::new("zebra/tank/var/log@2022-12-10-1800-00-TEST"),
    ];
    let expected_snapshot = "tank/var/log@2021-07-23-0548-19-TEST";
    let program = Cantaloupe::new(&snapshots, "backup", "tank/var/log", "TEST");

    let snapshot = program.get_latest_source_snapshot_name();

    assert_eq!(snapshot, expected_snapshot);
}

/// The ancestor must be the most recent shared snapshot, not merely any
/// shared one: here both 2021-01-01 and 2021-06-03 exist on the backup
/// side, and the newer of the two wins.
#[test]
fn test_get_common_snapshot_prefers_most_recent_match() {
    let snapshots = vec![
        Snapshot::new("tank/var/log@2021-01-01-1300-12-TEST"),
        Snapshot::new("tank/var/log@2021-06-03-1800-00-TEST"),
        Snapshot::new("tank/var/log@2022-10-05-1953-12-TEST"),
        Snapshot::new("backup/tank/var/log@2021-01-01-1300-12-TEST"),
        Snapshot::new("backup/tank/var/log@2021-06-03-1800-00-TEST"),
    ];
    let program = Cantaloupe::new(&snapshots, "backup", "tank/var/log", "TEST");

    let common_snapshot = program.get_common_snapshot();

    assert_eq!(common_snapshot.unwrap(), "tank/var/log@2021-06-03-1800-00-TEST");
}

/// A backup snapshot that shares only the label, not the dataset path,
/// is no ancestor.
#[test]
fn test_get_common_snapshot_ignores_unrelated_dataset_paths() {
    let snapshots = vec![
        Snapshot::new("tank/var/log@2021-06-03-1800-00-TEST"),
        Snapshot::new("backup/tank/usr/home@2021-06-03-1800-00-TEST"),
    ];
    let program = Cantaloupe::new(&snapshots, "backup", "tank/var/log", "TEST");

    let common_snapshot = program.get_common_snapshot();

    assert!(common_snapshot.is_none());
}

/// Filtering a selection that is already filtered by the same dataset
/// and label changes nothing.
#[test]
fn test_selection_is_idempotent() {
    let program = Cantaloupe::new(&get_example_snapshots(), "backup", "tank/var/log", "TEST");
    let first = program.get_source_snapshots_labeled().clone();

    let again = Cantaloupe::new(&first, "backup", "tank/var/log", "TEST");
    let second = again.get_source_snapshots_labeled();

    assert_eq!(&first, second);
}

/// The `@`-anchored prefix check keeps sibling datasets apart even when
/// one path is a string prefix of the other: `tank/var` selects nothing
/// under `tank/var2`, and `tank/va` selects nothing under `tank/var`.
/// The label suffix check narrows the selection further; without it the
/// unlabeled filter admits every label under the exact dataset.
#[test]
fn dataset_path_prefix_edge_case() {
    let snapshots = vec![
        Snapshot::new("tank/var@2021-06-03-1800-00-TEST"),
        Snapshot::new("tank/var2@2021-06-03-1800-00-TEST"),
        Snapshot::new("backup/tank/var@2021-06-03-1800-00-OTHER"),
    ];

    let for_tank_var = Cantaloupe::new(&snapshots, "backup", "tank/var", "TEST");
    let labeled = for_tank_var.get_source_snapshots_labeled();
    assert_eq!(labeled.len(), 1);
    assert_eq!(labeled[0], Snapshot::new("tank/var@2021-06-03-1800-00-TEST"));

    let for_tank_va = Cantaloupe::new(&snapshots, "backup", "tank/va", "TEST");
    assert_eq!(for_tank_va.get_source_snapshots_labeled().len(), 0);

    // Without the label restriction the whole backup dataset is visible,
    // whatever each snapshot's label.
    let any_label = for_tank_var.get_backup_snapshots();
    assert_eq!(any_label.len(), 1);
    assert_eq!(
        any_label[0],
        Snapshot::new("backup/tank/var@2021-06-03-1800-00-OTHER")
    );
}
