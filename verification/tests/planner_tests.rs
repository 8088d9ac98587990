use cantaloupe::planner::Plan;
use cantaloupe::snapshot::Snapshot;
use cantaloupe::Cantaloupe;

#[test]
fn plan_reports_no_source_snapshots() {
    let snapshots = vec![Snapshot::new("tank/var/log@2021-06-03-1800-00-OTHER")];
    let program = Cantaloupe::new(&snapshots, "backup", "tank/var/log", "TEST");

    assert!(matches!(program.plan(), Plan::NoSourceSnapshots));
}

#[test]
fn plan_reports_up_to_date() {
    let snapshots = vec![
        Snapshot::new("tank/var/log@2021-06-03-1800-00-TEST"),
        Snapshot::new("backup/tank/var/log@2021-06-03-1800-00-TEST"),
    ];
    let program = Cantaloupe::new(&snapshots, "backup", "tank/var/log", "TEST");

    assert!(matches!(program.plan(), Plan::UpToDate));
}

#[test]
fn plan_reports_conflict_with_count() {
    let snapshots = vec![
        Snapshot::new("tank/var/log@2021-06-03-1800-00-TEST"),
        Snapshot::new("backup/tank/var/log@2021-07-23-0548-19-LOL"),
        Snapshot::new("backup/tank/var/log@2021-08-01-0000-00-LOL"),
    ];
    let program = Cantaloupe::new(&snapshots, "backup", "tank/var/log", "TEST");

    match program.plan() {
        Plan::ConflictSkip { existing_count } => assert_eq!(existing_count, 2),
        _ => panic!("expected a conflict skip"),
    }
}

#[test]
fn plan_reports_full_send_for_untouched_backup_dataset() {
    let snapshots = vec![Snapshot::new("tank/var/log@2021-06-03-1800-00-TEST")];
    let program = Cantaloupe::new(&snapshots, "backup", "tank/var/log", "TEST");

    match program.plan() {
        Plan::FullSend { to } => assert_eq!(to, "tank/var/log@2021-06-03-1800-00-TEST"),
        _ => panic!("expected a full send"),
    }
}

/// Backup pool `backup`, source dataset `tank/var/log`, label `TEST`:
/// one timestamp shared by both sides and one newer source-only snapshot
/// call for an incremental transfer from the shared point to the newest.
#[test]
fn plan_end_to_end_incremental_scenario() {
    let snapshots = vec![
        Snapshot::new("tank/var/log@2021-06-03-1800-00-TEST"),
        Snapshot::new("tank/var/log@2022-10-05-1953-12-TEST"),
        Snapshot::new("backup/tank/var/log@2021-06-03-1800-00-TEST"),
    ];
    let program = Cantaloupe::new(&snapshots, "backup", "tank/var/log", "TEST");

    match program.plan() {
        Plan::Incremental { from, to } => {
            assert_eq!(from, "tank/var/log@2021-06-03-1800-00-TEST");
            assert_eq!(to, "tank/var/log@2022-10-05-1953-12-TEST");
        },
        _ => panic!("expected an incremental transfer"),
    }
}
