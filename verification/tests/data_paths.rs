use hope_core::paths::{data_path_for, PathError};

#[test]
fn log_and_session_databases_sit_apart_under_one_root() {
    let home = Some("/home/u".to_string());
    assert_eq!(hope_core::logging::db_path_for(&home), Ok("/home/u/.opencomputer/logs.db".to_string()));
    assert_eq!(hope_core::session::db_path_for(&home), Ok("/home/u/.opencomputer/sessions.db".to_string()));
    assert_eq!(data_path_for(&home, "logs.db"), hope_core::logging::db_path_for(&home));
    assert_ne!(hope_core::logging::db_path_for(&home), hope_core::session::db_path_for(&home));
}

#[test]
fn unknown_home_gives_no_database_path() {
    assert_eq!(hope_core::logging::db_path_for(&None), Err(PathError::NoHomeDir));
    assert_eq!(hope_core::session::db_path_for(&None), Err(PathError::NoHomeDir));
}
