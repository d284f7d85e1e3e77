//! Application settings.
use vstd::prelude::*;

verus! {

/// Struct that holds all application settings.
#[derive(Clone, Debug)]
pub struct Config {
    // ~~~~~~~~~~ [Detection] ~~~~~~~~~~ //
    /// Enable allow list checking.
    ///
    /// If false, allow list is ignored and all suspicious
    /// processes are killed immediately
    pub enable_allowlist: bool,
    /// Path to SQLite3 database file with allow list.
    pub allowlist_path: String,
    /// Max time a process can be inactive before its stats get removed from
    /// process table.
    pub flush_timeout_sec: u64,
    /// Max value of susness field that processes are allowed to have.
    /// If this value is exceeded, the process is killed.
    pub critical_susp: i32,
    // ~~~~~~~~~~ [Killing] ~~~~~~~~~~ //
    /// When killing a suspicious process, also kill its parent process.
    pub kill_parent: bool,
    /// When killing a suspicious process, also kill all its descendants recursively.
    pub kill_children: bool,
    /// When killing a suspicious process, kill the entire process group the process
    /// belongs to.
    pub kill_proc_group: bool,
    /// *For debug purposes.*
    ///
    /// When killing a suspicious process, send `SIGTERM` instead of `SIGKILL`, so
    /// that accidentally killed processes could cleanup before exiting.
    pub use_sigterm: bool,
}

/// The allow list database used when no configuration file says otherwise.
pub open spec fn default_allowlist_path() -> Seq<char> {
    "/etc/daeth/allowlist.db"@
}

impl Default for Config {
    fn default() -> (c: Config)
        ensures
            c.enable_allowlist,
            c.allowlist_path@ == default_allowlist_path(),
            c.flush_timeout_sec == 120,
            c.critical_susp == 5,
            !c.kill_parent,
            c.kill_children,
            !c.kill_proc_group,
            !c.use_sigterm,
    {
        Config {
            enable_allowlist: true,
            allowlist_path: "/etc/daeth/allowlist.db".to_owned(),
            flush_timeout_sec: 120,
            critical_susp: 5,
            kill_parent: false,
            kill_children: true,
            kill_proc_group: false,
            use_sigterm: false,
        }
    }
}

} // verus!
