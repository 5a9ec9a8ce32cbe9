//! Process settings, as plain values.  Loading them from disk and
//! turning them into connection options belongs to the surrounding
//! program; the library only carries them.

use vstd::prelude::*;

verus! {

/// Settings of the service itself.
#[derive(Debug, Clone)]
pub struct ApplicationSettings {
    pub folder_to_watch: String,
    pub host: String,
    pub port: u16,
    pub request_pool: u32,
    pub one_request_replenishment_time: u64,
}

/// Settings of the relational store.
#[derive(Debug, Clone)]
pub struct DatabaseSettings {
    pub username: String,
    pub password: String,
    pub port: u16,
    pub host: String,
    pub database_name: String,
    pub require_ssl: bool,
}

/// Paths of the certificates for client authentication.
#[derive(Debug, Clone)]
pub struct CertificateSettings {
    pub ca_cert_path: String,
    pub server_cert_path: String,
    pub server_key_path: String,
}

/// Settings of the key-value cache.
#[derive(Debug, Clone)]
pub struct CacheSettings {
    pub host: String,
    pub port: u16,
}

/// Everything the service is configured with.
#[derive(Debug, Clone)]
pub struct Settings {
    pub application: ApplicationSettings,
    pub database: DatabaseSettings,
    pub certificates: CertificateSettings,
    pub cache: CacheSettings,
}

} // verus!
