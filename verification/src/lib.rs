//! Core logic of a desktop SSH/terminal client: the ssh-agent protocol
//! subset spoken by the per-session virtual agent, directory listings,
//! shell-command quoting, transfer progress accounting, key migration,
//! and the registries that track connections, terminals, tunnels and
//! transfers.
//!
//! All I/O — sockets, SSH channels, SFTP round trips, the PTY — lives
//! outside this crate; the functions here work on plain values and
//! state exactly what they compute.
pub mod agent;
pub mod assist;
pub mod assoc;
pub mod connections;
pub mod errors;
pub mod keys;
pub mod listing;
pub mod osdetect;
pub mod settings;
pub mod shell;
pub mod strutil;
pub mod terminals;
pub mod transfer;
pub mod tunnels;
pub mod wire;

use vstd::prelude::*;

verus! {

/// A directory entry as reported to the UI layer: `entry_type` is `"d"`
/// for a directory and `"-"` for anything else.
pub struct FileEntry {
    pub name: String,
    pub path: String,
    pub entry_type: String,
    pub size: u64,
    pub last_modified: u64,
    pub permissions: String,
}

impl FileEntry {
    /// True when this entry describes a directory.
    pub fn is_dir(&self) -> (r: bool)
        ensures
            r == (self.entry_type@ == seq!['d']),
    {
        proof {
            reveal_strlit("d");
            assert("d"@ =~= seq!['d']);
        }
        crate::strutil::str_eq(self.entry_type.as_str(), "d")
    }
}

} // verus!
