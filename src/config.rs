//! Server settings.

use vstd::prelude::*;

verus! {

/// Settings of the server: where it listens, where its store is, and how many
/// transfers run at once.
#[derive(Clone, Debug)]
pub struct ServerConfig {
    pub port: u16,
    pub database_url: String,
    pub max_simultaneous_downloads: usize,
}

impl Default for ServerConfig {
    /// Port 8080, an in-memory SQLite store, and ten transfers at once.
    fn default() -> (r: ServerConfig)
        ensures
            r.port == 8080,
            r.database_url@ == "sqlite::memory:"@,
            r.max_simultaneous_downloads == 10,
    {
        ServerConfig {
            port: 8080,
            database_url: "sqlite::memory:".to_owned(),
            max_simultaneous_downloads: 10,
        }
    }
}

} // verus!
