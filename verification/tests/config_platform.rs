//! The platform's paths.

use localdb_core::config::PlatformPaths;
use localdb_core::os_path::OsPath;
use std::path::PathBuf;

fn path(p: &OsPath) -> PathBuf {
    PathBuf::from(String::from_utf8(p.bytes.clone()).expect("should be UTF-8 here"))
}

#[test]
fn platform_paths_resolve_succeeds() {
    let paths = PlatformPaths::resolve();
    assert!(paths.is_some(), "platform paths should resolve");
}

#[test]
fn platform_paths_are_absolute() {
    let paths = PlatformPaths::resolve().expect("should resolve");
    assert!(
        path(&paths.config_file).is_absolute(),
        "config_file must be absolute"
    );
    assert!(path(&paths.data_dir).is_absolute(), "data_dir must be absolute");
    assert!(
        path(&paths.models_dir).is_absolute(),
        "models_dir must be absolute"
    );
    assert!(path(&paths.logs_dir).is_absolute(), "logs_dir must be absolute");
}

#[test]
fn socket_path_is_inside_data_dir() {
    let paths = PlatformPaths::resolve().expect("should resolve");
    let sock = paths.socket_path();
    assert!(path(&sock).starts_with(path(&paths.data_dir)));
    assert_eq!(path(&sock).file_name().unwrap(), "daemon.sock");
}

#[test]
fn write_lock_path_is_inside_data_dir() {
    let paths = PlatformPaths::resolve().expect("should resolve");
    let lock = paths.write_lock_path();
    assert!(path(&lock).starts_with(path(&paths.data_dir)));
    assert_eq!(path(&lock).file_name().unwrap(), ".write.lock");
}

#[test]
fn runtime_state_db_path_is_inside_data_dir() {
    let paths = PlatformPaths::resolve().expect("should resolve");
    let db = paths.runtime_state_db_path();
    assert!(path(&db).starts_with(path(&paths.data_dir)));
    assert_eq!(path(&db).file_name().unwrap(), "runtime-state.db");
}

#[test]
fn config_file_ends_with_config_yaml() {
    let paths = PlatformPaths::resolve().expect("should resolve");
    assert_eq!(path(&paths.config_file).file_name().unwrap(), "config.yaml");
}

#[test]
fn models_dir_ends_with_models() {
    let paths = PlatformPaths::resolve().expect("should resolve");
    let models = path(&paths.models_dir);
    let last = models.file_name().unwrap();
    assert_eq!(last, "models");
}
