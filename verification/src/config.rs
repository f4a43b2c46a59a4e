//! The service's configuration shapes. Loading them from the process
//! environment is left to the binary around the library.

use vstd::prelude::*;

verus! {

/// The HTTP application's settings.
#[derive(Debug, Clone, PartialEq)]
pub struct AppConfig {
    pub host: String,
    pub port: u16,
    pub parallel_files: usize,
    pub region: String,
    pub rust_log: String,
}

/// The wide-column store's settings.
#[derive(Debug, Clone, PartialEq)]
pub struct DatabaseConfig {
    pub connection_url: String,
    pub datacenter: String,
    pub concurrency_limit: usize,
    pub schema_file: String,
}

/// The search collaborator's settings.
#[derive(Debug, Clone, PartialEq)]
pub struct ElasticSearchConfig {
    pub url: String,
    pub enabled: bool,
    pub batch_size: usize,
    pub num_shards: usize,
    pub index: String,
    pub user: Option<String>,
    pub password: Option<String>,
    pub concurrency_limit: usize,
    pub refresh_interval: String,
    pub source_enabled: bool,
}

/// All settings together.
#[derive(Debug, Clone, PartialEq)]
pub struct GeneralConfig {
    pub app: AppConfig,
    pub db: DatabaseConfig,
    pub es: ElasticSearchConfig,
}

/// The flat settings shape of the service's first iteration.
#[derive(Debug, Clone, PartialEq)]
pub struct Config {
    pub host: String,
    pub port: i32,
    pub region: String,
    pub db_url: String,
    pub db_dc: String,
    pub parallel_files: usize,
    pub db_parallelism: usize,
    pub schema_file: String,
}

} // verus!
