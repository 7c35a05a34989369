use pexand::db::Database;

#[test]
fn portable_database_sits_in_the_working_directory() {
    assert_eq!(
        Database::database_path_parts(true, Some("C:\\Users\\neo\\AppData".to_string())),
        vec!["pexand.db".to_string()]
    );
}

#[test]
fn standard_database_sits_under_app_data() {
    assert_eq!(
        Database::database_path_parts(false, Some("C:\\AppData".to_string())),
        vec!["C:\\AppData".to_string(), "Pexand".to_string(), "pexand.db".to_string()]
    );
    assert_eq!(
        Database::database_path_parts(false, None),
        vec![".".to_string(), "Pexand".to_string(), "pexand.db".to_string()]
    );
}

#[test]
fn settings_files_follow_the_same_rule() {
    assert_eq!(
        Database::location_of(true, None, "block_apps.json"),
        vec!["block_apps.json".to_string()]
    );
    assert_eq!(
        Database::location_of(false, Some("A".to_string()), "block_apps.json"),
        vec!["A".to_string(), "Pexand".to_string(), "block_apps.json".to_string()]
    );
}
