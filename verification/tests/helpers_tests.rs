use cantaloupe::helpers::{get_backup_dataset, get_source_pool_name, get_source_pool_names};

#[test]
fn test_get_source_pool_name_should_return_pool_name() {
    let source_pool_name = get_source_pool_name("tank/var/log");

    assert_eq!(source_pool_name, "tank");
}

#[test]
fn test_get_source_pool_names_should_be_correct() {
    let source_datasets = vec![
        String::from("tank/var/log"),
        String::from("elephants/in/space"),
        String::from("dolphins/are/awesome"),
    ];
    let expected = ["tank", "elephants", "dolphins"];

    let result = get_source_pool_names(&source_datasets);

    assert_eq!(result.len(), 3);
    for pool in expected {
        assert!(result.iter().any(|p| p == pool));
    }
}

#[test]
fn test_get_backup_dataset_should_get_name() {
    let expected_name = "backup/tank/var/log";

    let name = get_backup_dataset("backup", "tank/var/log");

    assert_eq!(name, expected_name);
}

#[test]
fn test_get_source_pool_names_deduplicates() {
    let source_datasets = vec![
        String::from("tank/var/log"),
        String::from("tank/usr/home"),
        String::from("tank"),
    ];

    let result = get_source_pool_names(&source_datasets);

    assert_eq!(result.len(), 1);
    assert_eq!(result[0], "tank");
}

#[test]
fn test_get_source_pool_name_without_separator_is_whole_path() {
    assert_eq!(get_source_pool_name("tank"), "tank");
}
