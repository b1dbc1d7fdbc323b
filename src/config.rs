//! Settings of the server.

use vstd::prelude::*;

verus! {

/// Name of the snapshot file inside the backup directory.
pub const BACKUP_FILE_NAME: &'static str = "discovery_service_backup.json";

/// Server settings: listen port, collection interval in seconds, optional
/// backup directory, and backup interval in seconds.
#[derive(Clone, Debug)]
pub struct Config {
    pub port: u16,
    pub gc_interval: u16,
    pub backup_path: Option<String>,
    pub backup_interval: u16,
}

impl Default for Config {
    fn default() -> (r: Config)
        ensures
            r.port == 3000,
            r.gc_interval == 60,
            r.backup_path is None,
            r.backup_interval == 600,
    {
        Config { port: 3000, gc_interval: 60, backup_path: None, backup_interval: 600 }
    }
}

impl Config {
    /// Whether snapshots are written and restored.
    pub fn backups_enabled(&self) -> (r: bool)
        ensures
            r == self.backup_path is Some,
    {
        self.backup_path.is_some()
    }
}

} // verus!
