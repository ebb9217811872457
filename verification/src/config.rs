//! Application configuration. Reading and parsing the configuration
//! file is the caller's concern; this module fixes the shape of the
//! settings and the defaults used when no file exists.

use vstd::prelude::*;

use crate::error::AppError;

verus! {

/// Network settings of the HTTP server.
pub struct ServerConfig {
    pub host: String,
    pub port: u16,
}

impl Default for ServerConfig {
    fn default() -> (r: Self)
        ensures
            r.host@ == "127.0.0.1"@,
            r.port == 8080,
    {
        ServerConfig { host: "127.0.0.1".to_owned(), port: 8080 }
    }
}

impl Clone for ServerConfig {
    fn clone(&self) -> (r: Self)
        ensures
            r.host@ == self.host@,
            r.port == self.port,
    {
        ServerConfig { host: self.host.clone(), port: self.port }
    }
}

/// Location of the backing file, with backup fields that are present
/// in the schema but never consulted by the store.
pub struct DatabaseConfig {
    pub path: String,
    pub auto_backup: bool,
    pub backup_dir: Option<String>,
}

impl Default for DatabaseConfig {
    fn default() -> (r: Self)
        ensures
            r.path@ == "./data/env-store.json"@,
            r.auto_backup == true,
            r.backup_dir matches Some(d) && d@ == "./backups"@,
    {
        DatabaseConfig {
            path: "./data/env-store.json".to_owned(),
            auto_backup: true,
            backup_dir: Some("./backups".to_owned()),
        }
    }
}

impl Clone for DatabaseConfig {
    fn clone(&self) -> (r: Self)
        ensures
            r.path@ == self.path@,
            r.auto_backup == self.auto_backup,
            r.backup_dir is Some <==> self.backup_dir is Some,
    {
        DatabaseConfig {
            path: self.path.clone(),
            auto_backup: self.auto_backup,
            backup_dir: match &self.backup_dir {
                Some(d) => Some(d.clone()),
                None => None,
            },
        }
    }
}

/// Defaults applied by the CLI when no flag names them.
pub struct DefaultsConfig {
    pub environment: String,
    pub export_format: String,
}

impl Default for DefaultsConfig {
    fn default() -> (r: Self)
        ensures
            r.environment@ == "development"@,
            r.export_format@ == "dotenv"@,
    {
        DefaultsConfig {
            environment: "development".to_owned(),
            export_format: "dotenv".to_owned(),
        }
    }
}

impl Clone for DefaultsConfig {
    fn clone(&self) -> (r: Self)
        ensures
            r.environment@ == self.environment@,
            r.export_format@ == self.export_format@,
    {
        DefaultsConfig {
            environment: self.environment.clone(),
            export_format: self.export_format.clone(),
        }
    }
}

/// The whole application configuration.
pub struct AppConfig {
    pub server: ServerConfig,
    pub database: DatabaseConfig,
    pub defaults: DefaultsConfig,
}

/// Whether a configuration holds exactly the default values.
pub open spec fn is_default_config(c: AppConfig) -> bool {
    &&& c.server.host@ == "127.0.0.1"@
    &&& c.server.port == 8080
    &&& c.database.path@ == "./data/env-store.json"@
    &&& c.database.auto_backup == true
    &&& (c.database.backup_dir matches Some(d) && d@ == "./backups"@)
    &&& c.defaults.environment@ == "development"@
    &&& c.defaults.export_format@ == "dotenv"@
}

impl Default for AppConfig {
    fn default() -> (r: Self)
        ensures
            is_default_config(r),
    {
        AppConfig {
            server: ServerConfig::default(),
            database: DatabaseConfig::default(),
            defaults: DefaultsConfig::default(),
        }
    }
}

impl Clone for AppConfig {
    fn clone(&self) -> (r: Self)
        ensures
            r.server.host@ == self.server.host@,
            r.server.port == self.server.port,
            r.database.path@ == self.database.path@,
    {
        AppConfig {
            server: self.server.clone(),
            database: self.database.clone(),
            defaults: self.defaults.clone(),
        }
    }
}

impl AppConfig {
    /// The settings to run with: the configuration file's parsed
    /// contents when the file existed and parsed, else the defaults.
    /// Locating, reading and parsing the file is the collaborator's
    /// concern.
    pub fn load(parsed: Option<AppConfig>) -> (r: Result<AppConfig, AppError>)
        ensures
            match parsed {
                Some(c) => r == Ok::<AppConfig, AppError>(c),
                None => r matches Ok(c) && is_default_config(c),
            },
    {
        match parsed {
            Some(c) => Ok(c),
            None => Ok(AppConfig::default()),
        }
    }
}

} // verus!
