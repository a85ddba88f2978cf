use okane::config::{AppConfig, StorageRoot, set_root_dir, get_root_dir};

#[test]
fn test_default_config() {
    let config = AppConfig::default();
    assert_eq!(config.server.host, "0.0.0.0");
    assert_eq!(config.server.port, 8080);
    assert_eq!(config.server.jwt_secret, "YOUR_SUPER_SECRET_KEY");
    assert_eq!(config.database.data_dir, "data");
}

#[test]
fn test_root_dir_defaults_to_data() {
    let state = StorageRoot::new();
    assert_eq!(get_root_dir(&state), "data");
}

#[test]
fn test_root_dir_set_once() {
    let mut state = StorageRoot::new();
    set_root_dir(&mut state, "/var/okane".to_string());
    assert_eq!(get_root_dir(&state), "/var/okane");
    set_root_dir(&mut state, "/tmp/elsewhere".to_string());
    assert_eq!(get_root_dir(&state), "/var/okane");
}
