//! Connection bookkeeping: the configuration of a connection with its
//! recursive jump-host chain, the response returned by a connect, and
//! the registry that holds at most one active connection per id.
use vstd::prelude::*;

verus! {

use crate::assoc::lemma_assoc_append;
use crate::assoc::lemma_assoc_lookup_at;
use crate::assoc::lemma_assoc_lookup_none;
use crate::assoc::lemma_assoc_remove;
use crate::assoc::lemma_assoc_update;
use crate::assoc::spec_assoc_lookup;
use crate::assoc::spec_assoc_wf;
use crate::strutil::str_eq;

/// How a session authenticates: a password, or a private key file
/// with an optional passphrase.
pub enum AuthMethod {
    Password { password: String },
    PrivateKey { key_path: String, passphrase: Option<String> },
}

/// The configuration of one connection. `jump_host` chains
/// recursively: the jump is connected first, and the target's stream
/// runs through a channel opened on it.
pub struct ConnectionConfig {
    pub id: String,
    pub name: String,
    pub host: String,
    pub port: u16,
    pub username: String,
    pub auth_method: AuthMethod,
    pub jump_host: Option<Box<ConnectionConfig>>,
}

/// What a connect command reports back to the UI.
pub struct ConnectionResponse {
    pub success: bool,
    pub message: String,
    pub term_id: Option<String>,
    pub detected_os: Option<String>,
}

/// The endpoints of a connection chain, outermost jump first and the
/// target last: the order in which the hops are connected.
pub open spec fn spec_chain_endpoints(cfg: ConnectionConfig) -> Seq<(Seq<char>, u16)>
    decreases cfg,
{
    match cfg.jump_host {
        Option::None => seq![(cfg.host@, cfg.port)],
        Option::Some(jump) => spec_chain_endpoints(*jump).push((cfg.host@, cfg.port)),
    }
}

/// The number of hops of a chain: one more than its jumps.
pub open spec fn spec_chain_len(cfg: ConnectionConfig) -> nat {
    spec_chain_endpoints(cfg).len()
}

/// Lists the `host:port` endpoints of a chain in connection order:
/// the outermost jump is dialed first, the target comes last.
pub fn chain_endpoints(cfg: &ConnectionConfig) -> (r: Vec<(String, u16)>)
    ensures
        r@.map_values(|e: (String, u16)| (e.0@, e.1)) == spec_chain_endpoints(*cfg),
    decreases *cfg,
{
    match &cfg.jump_host {
        Option::None => {
            let mut v: Vec<(String, u16)> = Vec::new();
            v.push((cfg.host.clone(), cfg.port));
            proof {
                assert(v@.map_values(|e: (String, u16)| (e.0@, e.1)) =~= spec_chain_endpoints(
                    *cfg,
                ));
            }
            v
        },
        Option::Some(jump) => {
            let mut v = chain_endpoints(jump);
            v.push((cfg.host.clone(), cfg.port));
            proof {
                assert(v@.map_values(|e: (String, u16)| (e.0@, e.1)) =~= spec_chain_endpoints(
                    *cfg,
                ));
            }
            v
        },
    }
}

/// A chain connects only when every hop authenticates.
pub open spec fn spec_chain_succeeds(auth_ok: Seq<bool>) -> bool {
    forall|i: int| 0 <= i < auth_ok.len() ==> auth_ok[i]
}

/// Whether a chain connect succeeds, given each hop's authentication
/// outcome in connection order: true exactly when every hop
/// authenticated; the first failure fails the whole connect.
pub fn chain_connect_succeeds(auth_ok: &Vec<bool>) -> (r: bool)
    ensures
        r == spec_chain_succeeds(auth_ok@),
{
    let n = auth_ok.len();
    let mut i: usize = 0;
    while i < n
        invariant
            n == auth_ok@.len(),
            0 <= i <= n,
            forall|j: int| 0 <= j < i ==> auth_ok@[j],
        decreases n - i,
    {
        if !auth_ok[i] {
            return false;
        }
        i = i + 1;
    }
    true
}

/// What the registry holds for one active connection: its
/// configuration, the detected operating system, and whether the
/// SFTP subsystem opened.
pub struct ConnectionRecord {
    pub config: ConnectionConfig,
    pub detected_os: Option<String>,
    pub has_sftp: bool,
}

/// The registry of active connections: at most one record per id.
/// Disconnecting one id never touches another, which is what keeps a
/// jump host's own entry alive when a target through it closes.
pub struct ConnectionRegistry {
    pub entries: Vec<(String, ConnectionRecord)>,
}

impl ConnectionRegistry {
    /// The record registered under `id`.
    pub open spec fn spec_record(&self, id: Seq<char>) -> Option<ConnectionRecord> {
        spec_assoc_lookup(self.entries@, id)
    }

    /// At most one record per id.
    pub open spec fn wf(&self) -> bool {
        spec_assoc_wf(self.entries@)
    }

    /// An empty registry.
    pub fn new() -> (r: ConnectionRegistry)
        ensures
            r.wf(),
            forall|id: Seq<char>| r.spec_record(id) is None,
    {
        let r = ConnectionRegistry { entries: Vec::new() };
        proof {
            assert forall|id: Seq<char>| r.spec_record(id) is None by {
                assert(r.entries@.len() == 0);
            }
        }
        r
    }

    /// Finds the index of `id`.
    fn find(&self, id: &str) -> (r: Option<usize>)
        ensures
            match r {
                Some(i) => i < self.entries@.len() && self.entries@[i as int].0@ == id@ && forall|
                    j: int,
                |
                    0 <= j < i ==> (#[trigger] self.entries@[j]).0@ != id@,
                None => forall|j: int|
                    0 <= j < self.entries@.len() ==> (#[trigger] self.entries@[j]).0@ != id@,
            },
    {
        let n = self.entries.len();
        let mut i: usize = 0;
        while i < n
            invariant
                n == self.entries@.len(),
                0 <= i <= n,
                forall|j: int| 0 <= j < i ==> (#[trigger] self.entries@[j]).0@ != id@,
            decreases n - i,
        {
            if str_eq(self.entries[i].0.as_str(), id) {
                return Some(i);
            }
            i = i + 1;
        }
        None
    }

    /// Registers the record of a freshly connected id; a stale record
    /// under the same id is replaced, keeping at most one per id.
    pub fn insert(&mut self, id: &str, record: ConnectionRecord)
        requires
            old(self).wf(),
        ensures
            final (self).wf(),
            final (self).spec_record(id@) == Some(record),
            forall|other: Seq<char>|
                other != id@ ==> #[trigger] final (self).spec_record(other) == old(
                    self,
                ).spec_record(other),
    {
        match self.find(id) {
            Some(i) => {
                let ghost before = self.entries@;
                let owned = self.entries[i].0.clone();
                self.entries.set(i, (owned, record));
                proof {
                    lemma_assoc_update(before, self.entries@, id@, i as int);
                }
            },
            None => {
                let ghost before = self.entries@;
                let owned_id = id.to_owned();
                self.entries.push((owned_id, record));
                proof {
                    lemma_assoc_append(before, self.entries@, id@);
                }
            },
        }
    }

    /// Whether `id` has an active connection.
    pub fn contains(&self, id: &str) -> (r: bool)
        ensures
            r == (self.spec_record(id@) is Some),
    {
        match self.find(id) {
            Some(i) => {
                proof {
                    lemma_assoc_lookup_at(self.entries@, id@, i as int);
                }
                true
            },
            None => {
                proof {
                    lemma_assoc_lookup_none(self.entries@, id@);
                }
                false
            },
        }
    }

    /// The record of `id`, when one is registered.
    pub fn get(&self, id: &str) -> (r: Option<&ConnectionRecord>)
        ensures
            match r {
                Some(rec) => self.spec_record(id@) == Some(*rec),
                None => self.spec_record(id@) is None,
            },
    {
        match self.find(id) {
            Some(i) => {
                proof {
                    lemma_assoc_lookup_at(self.entries@, id@, i as int);
                }
                Some(&self.entries[i].1)
            },
            None => {
                proof {
                    lemma_assoc_lookup_none(self.entries@, id@);
                }
                None
            },
        }
    }

    /// Removes the record of `id` on disconnect; every other
    /// connection — a shared jump host's included — stays registered.
    pub fn remove(&mut self, id: &str)
        requires
            old(self).wf(),
        ensures
            final (self).wf(),
            final (self).spec_record(id@) is None,
            forall|other: Seq<char>|
                other != id@ ==> #[trigger] final (self).spec_record(other) == old(
                    self,
                ).spec_record(other),
    {
        match self.find(id) {
            Some(i) => {
                let ghost before = self.entries@;
                self.entries.remove(i);
                proof {
                    lemma_assoc_remove(before, self.entries@, id@, i as int);
                }
            },
            None => {
                proof {
                    lemma_assoc_lookup_none(self.entries@, id@);
                }
            },
        }
    }
}

} // verus!
