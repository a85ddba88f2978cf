//! Application configuration, and the process-wide storage root modelled
//! as explicit set-once state.

use vstd::prelude::*;

verus! {

/// Global application configuration.
#[derive(Clone, Debug)]
pub struct AppConfig {
    pub server: ServerConfig,
    pub database: DatabaseConfig,
}

#[derive(Clone, Debug)]
pub struct ServerConfig {
    pub host: String,
    pub port: u16,
    pub jwt_secret: String,
}

#[derive(Clone, Debug)]
pub struct DatabaseConfig {
    pub data_dir: String,
}

impl Default for AppConfig {
    /// The development defaults; deployments override them from their
    /// configuration files.
    fn default() -> (r: AppConfig)
        ensures
            r.server.host@ == "0.0.0.0"@,
            r.server.port == 8080,
            r.server.jwt_secret@ == "YOUR_SUPER_SECRET_KEY"@,
            r.database.data_dir@ == "data"@,
    {
        AppConfig {
            server: ServerConfig {
                host: "0.0.0.0".to_owned(),
                port: 8080,
                jwt_secret: "YOUR_SUPER_SECRET_KEY".to_owned(),
            },
            database: DatabaseConfig { data_dir: "data".to_owned() },
        }
    }
}

/// The storage layer's root directory: configured once at startup and
/// read thereafter; late re-configuration is rejected.
pub struct StorageRoot {
    pub root_dir: Option<String>,
}

impl StorageRoot {
    /// An unconfigured root.
    pub fn new() -> (r: StorageRoot)
        ensures
            r.root_dir is None,
    {
        StorageRoot { root_dir: None }
    }
}

/// Set the data root directory; only the first call takes effect.
pub fn set_root_dir(state: &mut StorageRoot, path: String)
    ensures
        old(state).root_dir is None ==> final(state).root_dir == Some(path),
        old(state).root_dir is Some ==> final(state).root_dir == old(state).root_dir,
{
    match state.root_dir {
        None => {
            state.root_dir = Some(path);
        },
        Some(_) => {},
    }
}

/// The configured data root directory, with the conventional default
/// when none was set.
pub fn get_root_dir(state: &StorageRoot) -> (r: String)
    ensures
        match state.root_dir {
            Some(p) => r@ == p@,
            None => r@ == "data"@,
        },
{
    match &state.root_dir {
        Some(p) => p.clone(),
        None => "data".to_owned(),
    }
}

} // verus!
