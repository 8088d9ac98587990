use cantaloupe::snapshot::Snapshot;

#[test]
fn test_from_batch_format_should_return_snapshots() {
    let unparsed_snapshots = vec![
        "tank@lol",
        "tank@2022-09-27-1300-00-TEST",
        "tank@ok",
        "tank@2022-05-10-0000-00-TEST",
    ];
    let expected_snapshots = vec![
        Snapshot::new("tank@2022-05-10-0000-00-TEST"),
        Snapshot::new("tank@2022-09-27-1300-00-TEST"),
    ];

    let snapshots = Snapshot::from_batch(&unparsed_snapshots);

    assert_eq!(snapshots.len(), 2);
    assert_eq!(snapshots, expected_snapshots);
}

#[test]
fn test_from_batch_format_should_not_return_snapshots() {
    let unparsed_snapshots = vec![
        "tank@lol",
        "tank@2022-09-27-1300-MISTAKE",
        "tank@ok",
        "tank@nothing",
    ];

    let snapshots = Snapshot::from_batch(&unparsed_snapshots);

    assert_eq!(snapshots.len(), 0);
}

#[test]
fn test_from_batch_drops_lines_without_separator_or_empty_parts() {
    let unparsed_snapshots = vec![
        "tank/var/log",
        "",
        "@2022-09-27-1300-00-TEST",
        "tank@",
        "tank@2022-09-27-1300-00-TEST",
    ];

    let snapshots = Snapshot::from_batch(&unparsed_snapshots);

    assert_eq!(snapshots.len(), 1);
    assert_eq!(snapshots[0], Snapshot::new("tank@2022-09-27-1300-00-TEST"));
}

#[test]
fn test_from_batch_preserves_duplicates_and_sorts() {
    let unparsed_snapshots = vec![
        "tank@2022-09-27-1300-00-TEST",
        "tank@2022-05-10-0000-00-TEST",
        "tank@2022-09-27-1300-00-TEST",
    ];
    let expected_snapshots = vec![
        Snapshot::new("tank@2022-05-10-0000-00-TEST"),
        Snapshot::new("tank@2022-09-27-1300-00-TEST"),
        Snapshot::new("tank@2022-09-27-1300-00-TEST"),
    ];

    let snapshots = Snapshot::from_batch(&unparsed_snapshots);

    assert_eq!(snapshots, expected_snapshots);
}

/// Within one dataset the fixed-width, left-padded timestamp makes
/// lexicographic name order the chronological order.
#[test]
fn test_names_of_one_dataset_sort_chronologically() {
    let unparsed_snapshots = vec![
        "tank@2022-10-05-1953-12-TEST",
        "tank@2021-06-03-1800-00-TEST",
        "tank@2021-06-03-0900-00-TEST",
        "tank@2021-01-01-1300-12-TEST",
    ];
    let expected_snapshots = vec![
        Snapshot::new("tank@2021-01-01-1300-12-TEST"),
        Snapshot::new("tank@2021-06-03-0900-00-TEST"),
        Snapshot::new("tank@2021-06-03-1800-00-TEST"),
        Snapshot::new("tank@2022-10-05-1953-12-TEST"),
    ];

    let snapshots = Snapshot::from_batch(&unparsed_snapshots);

    assert_eq!(snapshots, expected_snapshots);
}
