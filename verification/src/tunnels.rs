//! Tunnel bookkeeping: saved tunnel descriptions, the internal ids
//! that key live local listeners, the table of remote forwards
//! consulted when the server opens a `forwarded-tcpip` channel, and
//! the live status injected into listings.
use vstd::prelude::*;

verus! {

use crate::strutil::dec_string;
use crate::strutil::push_char;
use crate::strutil::spec_radix;
use crate::strutil::str_eq;
use vstd::string::StrSliceExecFns;
use vstd::string::StringExecFns;

/// The payload of a `tunnel:status-change` event.
pub struct TunnelStatusChange {
    pub id: String,
    pub status: String,
    pub error: Option<String>,
}

/// A tunnel as persisted: its kind is the string `local` or `remote`,
/// and `status` is injected at listing time, never stored.
pub struct SavedTunnel {
    pub id: String,
    pub connection_id: String,
    pub tunnel_type: String,
    pub local_port: u16,
    pub remote_port: u16,
    pub remote_host: String,
    pub bind_address: Option<String>,
    pub status: Option<String>,
}

/// Where an incoming remote forward dials: the local target host and
/// port, and the bind address the forward was requested with.
pub struct ForwardTarget {
    pub host: String,
    pub port: u16,
    pub bind_addr: String,
}

/// Whether a saved tunnel is of the local kind; anything else counts
/// as remote.
pub open spec fn spec_is_local_tunnel(t: SavedTunnel) -> bool {
    t.tunnel_type@ == seq!['l', 'o', 'c', 'a', 'l']
}

/// The internal id that keys a tunnel in the live tables:
/// `local:{local_port}:{remote_port}` for a local forward,
/// `remote:{remote_port}:{local_port}` for a remote one.
pub open spec fn spec_internal_id(t: SavedTunnel) -> Seq<char> {
    if spec_is_local_tunnel(t) {
        seq!['l', 'o', 'c', 'a', 'l', ':'] + spec_radix(t.local_port as int, 10) + seq![':']
            + spec_radix(t.remote_port as int, 10)
    } else {
        seq!['r', 'e', 'm', 'o', 't', 'e', ':'] + spec_radix(t.remote_port as int, 10) + seq![':']
            + spec_radix(t.local_port as int, 10)
    }
}

/// Rebuilds a saved tunnel's internal id, as stop and listing do.
pub fn internal_id(t: &SavedTunnel) -> (r: String)
    ensures
        r@ == spec_internal_id(*t),
{
    proof {
        reveal_strlit("local");
        reveal_strlit("local:");
        reveal_strlit("remote:");
        assert("local"@ =~= seq!['l', 'o', 'c', 'a', 'l']);
        assert("local:"@ =~= seq!['l', 'o', 'c', 'a', 'l', ':']);
        assert("remote:"@ =~= seq!['r', 'e', 'm', 'o', 't', 'e', ':']);
    }
    if str_eq(t.tunnel_type.as_str(), "local") {
        let mut out = "local:".to_owned();
        let lp = dec_string(t.local_port as u64);
        out.append(lp.as_str());
        push_char(&mut out, ':');
        let rp = dec_string(t.remote_port as u64);
        out.append(rp.as_str());
        proof {
            assert(out@ =~= spec_internal_id(*t));
        }
        out
    } else {
        let mut out = "remote:".to_owned();
        let rp = dec_string(t.remote_port as u64);
        out.append(rp.as_str());
        push_char(&mut out, ':');
        let lp = dec_string(t.local_port as u64);
        out.append(lp.as_str());
        proof {
            assert(out@ =~= spec_internal_id(*t));
        }
        out
    }
}

/// The target registered for a remote port: the first entry whose
/// port matches.
pub open spec fn spec_forward_lookup(entries: Seq<(u16, ForwardTarget)>, port: u16) -> Option<
    ForwardTarget,
>
    decreases entries.len(),
{
    if entries.len() == 0 {
        None
    } else if entries[0].0 == port {
        Some(entries[0].1)
    } else {
        spec_forward_lookup(entries.drop_first(), port)
    }
}

/// An entry whose port has no earlier duplicate is what the lookup
/// finds.
proof fn lemma_forward_lookup_at(entries: Seq<(u16, ForwardTarget)>, port: u16, i: int)
    requires
        0 <= i < entries.len(),
        entries[i].0 == port,
        forall|j: int| 0 <= j < i ==> (#[trigger] entries[j]).0 != port,
    ensures
        spec_forward_lookup(entries, port) == Some(entries[i].1),
    decreases i,
{
    if i > 0 {
        assert(entries.drop_first()[i - 1] == entries[i]);
        assert forall|j: int| 0 <= j < i - 1 implies (#[trigger] entries.drop_first()[j]).0
            != port by {
            assert(entries.drop_first()[j] == entries[j + 1]);
        }
        lemma_forward_lookup_at(entries.drop_first(), port, i - 1);
    }
}

/// When no entry's port matches, the lookup finds nothing.
proof fn lemma_forward_lookup_none(entries: Seq<(u16, ForwardTarget)>, port: u16)
    requires
        forall|j: int| 0 <= j < entries.len() ==> (#[trigger] entries[j]).0 != port,
    ensures
        spec_forward_lookup(entries, port) is None,
    decreases entries.len(),
{
    if entries.len() > 0 {
        assert forall|j: int| 0 <= j < entries.drop_first().len() implies (
        #[trigger] entries.drop_first()[j]).0 != port by {
            assert(entries.drop_first()[j] == entries[j + 1]);
        }
        lemma_forward_lookup_none(entries.drop_first(), port);
    }
}

/// Lookups of a different port see through an update at `i`.
proof fn lemma_forward_lookup_agrees(
    before: Seq<(u16, ForwardTarget)>,
    after: Seq<(u16, ForwardTarget)>,
    other: u16,
    i: int,
)
    requires
        before.len() == after.len(),
        0 <= i < before.len(),
        forall|j: int| 0 <= j < before.len() && j != i ==> after[j] == before[j],
        before[i].0 == after[i].0,
        after[i].0 != other,
    ensures
        spec_forward_lookup(after, other) == spec_forward_lookup(before, other),
    decreases before.len(),
{
    if before.len() == 0 {
    } else if i == 0 {
        if before[0].0 == other {
        } else {
            assert(after.drop_first() =~= before.drop_first());
        }
    } else {
        assert(after[0] == before[0]);
        if before[0].0 == other {
        } else {
            assert forall|j: int|
                0 <= j < before.drop_first().len() && j != i - 1 implies after.drop_first()[j]
                == before.drop_first()[j] by {
                assert(after.drop_first()[j] == after[j + 1]);
                assert(before.drop_first()[j] == before[j + 1]);
            }
            assert(before.drop_first()[i - 1] == before[i]);
            assert(after.drop_first()[i - 1] == after[i]);
            lemma_forward_lookup_agrees(before.drop_first(), after.drop_first(), other, i - 1);
        }
    }
}

/// A lookup that does not match an appended entry never reaches it.
proof fn lemma_forward_lookup_skips_last(
    before: Seq<(u16, ForwardTarget)>,
    after: Seq<(u16, ForwardTarget)>,
    other: u16,
)
    requires
        after.len() == before.len() + 1,
        forall|j: int| 0 <= j < before.len() ==> after[j] == before[j],
        after.last().0 != other,
    ensures
        spec_forward_lookup(after, other) == spec_forward_lookup(before, other),
    decreases before.len(),
{
    if before.len() == 0 {
        assert(after[0].0 != other);
    } else {
        assert(after[0] == before[0]);
        if before[0].0 == other {
        } else {
            assert forall|j: int| 0 <= j < before.drop_first().len() implies after.drop_first()[j]
                == before.drop_first()[j] by {
                assert(after.drop_first()[j] == after[j + 1]);
                assert(before.drop_first()[j] == before[j + 1]);
            }
            assert(after.drop_first().last() == after.last());
            lemma_forward_lookup_skips_last(before.drop_first(), after.drop_first(), other);
        }
    }
}

/// Removing an entry of a different port does not change a lookup.
proof fn lemma_forward_lookup_drops(before: Seq<(u16, ForwardTarget)>, port: u16, other: u16, i:
    int)
    requires
        0 <= i < before.len(),
        before[i].0 == port,
        other != port,
    ensures
        spec_forward_lookup(before.remove(i), other) == spec_forward_lookup(before, other),
    decreases before.len(),
{
    let after = before.remove(i);
    if i == 0 {
        assert(after =~= before.drop_first());
    } else {
        assert(after[0] == before[0]);
        if before[0].0 == other {
        } else {
            assert(after.drop_first() =~= before.drop_first().remove(i - 1));
            assert(before.drop_first()[i - 1] == before[i]);
            lemma_forward_lookup_drops(before.drop_first(), port, other, i - 1);
        }
    }
}

/// The live tunnel tables: the internal ids of running local
/// listeners, and the remote forwards keyed by their server-side
/// port. A tunnel is listed as active exactly when its entry is
/// present.
pub struct TunnelTables {
    pub local_ids: Vec<String>,
    pub remote_forwards: Vec<(u16, ForwardTarget)>,
}

impl TunnelTables {
    /// No local id and no remote port occurs twice.
    pub open spec fn wf(&self) -> bool {
        &&& forall|i: int, j: int|
            0 <= i < j < self.local_ids@.len() ==> (#[trigger] self.local_ids@[i])@ != (
            #[trigger] self.local_ids@[j])@
        &&& forall|i: int, j: int|
            0 <= i < j < self.remote_forwards@.len() ==> (#[trigger] self.remote_forwards@[i]).0
                != (#[trigger] self.remote_forwards@[j]).0
    }

    /// Whether a local listener runs under this internal id.
    pub open spec fn spec_local_active(&self, id: Seq<char>) -> bool {
        exists|i: int| 0 <= i < self.local_ids@.len() && (#[trigger] self.local_ids@[i])@ == id
    }

    /// The target registered for a remote port.
    pub open spec fn spec_remote(&self, port: u16) -> Option<ForwardTarget> {
        spec_forward_lookup(self.remote_forwards@, port)
    }

    /// Empty tables.
    pub fn new() -> (r: TunnelTables)
        ensures
            r.wf(),
            forall|id: Seq<char>| !r.spec_local_active(id),
            forall|port: u16| r.spec_remote(port) is None,
    {
        let r = TunnelTables { local_ids: Vec::new(), remote_forwards: Vec::new() };
        proof {
            assert forall|port: u16| r.spec_remote(port) is None by {
                assert(r.remote_forwards@.len() == 0);
            }
        }
        r
    }

    /// Finds the index of a local id.
    fn find_local(&self, id: &str) -> (r: Option<usize>)
        ensures
            match r {
                Some(i) => i < self.local_ids@.len() && (self.local_ids@[i as int])@ == id@,
                None => forall|j: int|
                    0 <= j < self.local_ids@.len() ==> (#[trigger] self.local_ids@[j])@ != id@,
            },
    {
        let n = self.local_ids.len();
        let mut i: usize = 0;
        while i < n
            invariant
                n == self.local_ids@.len(),
                0 <= i <= n,
                forall|j: int| 0 <= j < i ==> (#[trigger] self.local_ids@[j])@ != id@,
            decreases n - i,
        {
            if str_eq(self.local_ids[i].as_str(), id) {
                return Some(i);
            }
            i = i + 1;
        }
        None
    }

    /// Records a started local listener under its internal id; a
    /// second start under the same id changes nothing.
    pub fn add_local(&mut self, id: &str)
        requires
            old(self).wf(),
        ensures
            final (self).wf(),
            final (self).spec_local_active(id@),
            forall|other: Seq<char>|
                other != id@ ==> #[trigger] final (self).spec_local_active(other) == old(
                    self,
                ).spec_local_active(other),
            final (self).remote_forwards@ == old(self).remote_forwards@,
    {
        match self.find_local(id) {
            Some(_) => {},
            None => {
                let ghost before = self.local_ids@;
                let owned = id.to_owned();
                self.local_ids.push(owned);
                proof {
                    assert(self.local_ids@.last()@ == id@);
                    assert forall|other: Seq<char>| other != id@ implies #[trigger] self
                        .spec_local_active(other) == old(self).spec_local_active(other) by {
                        if self.spec_local_active(other) {
                            let i = choose|i: int|
                                0 <= i < self.local_ids@.len() && (self.local_ids@[i])@ == other;
                            assert(i < before.len());
                            assert(before[i] == self.local_ids@[i]);
                        }
                        if old(self).spec_local_active(other) {
                            let i = choose|i: int|
                                0 <= i < before.len() && (before[i])@ == other;
                            assert(self.local_ids@[i] == before[i]);
                        }
                    }
                    assert forall|p: int, q: int|
                        0 <= p < q < self.local_ids@.len() implies (
                    #[trigger] self.local_ids@[p])@ != (#[trigger] self.local_ids@[q])@ by {
                        if q < before.len() {
                            assert(self.local_ids@[p] == before[p]);
                            assert(self.local_ids@[q] == before[q]);
                        } else {
                            assert(self.local_ids@[p] == before[p]);
                            assert((self.local_ids@[q])@ == id@);
                        }
                    }
                }
            },
        }
    }

    /// Whether a local listener runs under this internal id.
    pub fn local_active(&self, id: &str) -> (r: bool)
        ensures
            r == self.spec_local_active(id@),
    {
        match self.find_local(id) {
            Some(i) => {
                proof {
                    assert(self.spec_local_active(id@)) by {
                        assert((self.local_ids@[i as int])@ == id@);
                    }
                }
                true
            },
            None => false,
        }
    }

    /// Drops a stopped local listener's id; every other listener
    /// stays.
    pub fn remove_local(&mut self, id: &str)
        requires
            old(self).wf(),
        ensures
            final (self).wf(),
            !final (self).spec_local_active(id@),
            forall|other: Seq<char>|
                other != id@ ==> #[trigger] final (self).spec_local_active(other) == old(
                    self,
                ).spec_local_active(other),
            final (self).remote_forwards@ == old(self).remote_forwards@,
    {
        match self.find_local(id) {
            Some(i) => {
                let ghost before = self.local_ids@;
                self.local_ids.remove(i);
                proof {
                    assert forall|j: int|
                        0 <= j < self.local_ids@.len() implies (#[trigger] self.local_ids@[j])@
                        != id@ by {
                        if j < i {
                            assert(self.local_ids@[j] == before[j]);
                            assert(before[j]@ != before[i as int]@);
                        } else {
                            assert(self.local_ids@[j] == before[j + 1]);
                            assert(before[j + 1]@ != before[i as int]@);
                        }
                    }
                    assert forall|other: Seq<char>| other != id@ implies #[trigger] self
                        .spec_local_active(other) == old(self).spec_local_active(other) by {
                        if self.spec_local_active(other) {
                            let k = choose|k: int|
                                0 <= k < self.local_ids@.len() && (self.local_ids@[k])@ == other;
                            let bk = if k < i {
                                k
                            } else {
                                k + 1
                            };
                            assert(before[bk] == self.local_ids@[k]);
                        }
                        if old(self).spec_local_active(other) {
                            let k = choose|k: int| 0 <= k < before.len() && (before[k])@ == other;
                            if k < i {
                                assert(self.local_ids@[k] == before[k]);
                            } else {
                                assert(k != i);
                                assert(self.local_ids@[k - 1] == before[k]);
                            }
                        }
                    }
                    assert forall|p: int, q: int|
                        0 <= p < q < self.local_ids@.len() implies (
                    #[trigger] self.local_ids@[p])@ != (#[trigger] self.local_ids@[q])@ by {
                        let bp = if p < i {
                            p
                        } else {
                            p + 1
                        };
                        let bq = if q < i {
                            q
                        } else {
                            q + 1
                        };
                        assert(self.local_ids@[p] == before[bp]);
                        assert(self.local_ids@[q] == before[bq]);
                    }
                }
            },
            None => {},
        }
    }

    /// Finds the index of a remote port.
    fn find_remote(&self, port: u16) -> (r: Option<usize>)
        ensures
            match r {
                Some(i) => i < self.remote_forwards@.len() && self.remote_forwards@[i as int].0
                    == port && forall|j: int|
                    0 <= j < i ==> (#[trigger] self.remote_forwards@[j]).0 != port,
                None => forall|j: int|
                    0 <= j < self.remote_forwards@.len() ==> (
                    #[trigger] self.remote_forwards@[j]).0 != port,
            },
    {
        let n = self.remote_forwards.len();
        let mut i: usize = 0;
        while i < n
            invariant
                n == self.remote_forwards@.len(),
                0 <= i <= n,
                forall|j: int| 0 <= j < i ==> (#[trigger] self.remote_forwards@[j]).0 != port,
            decreases n - i,
        {
            if self.remote_forwards[i].0 == port {
                return Some(i);
            }
            i = i + 1;
        }
        None
    }

    /// Registers a remote forward for its server-side port, replacing
    /// a stale entry; every other port keeps its target.
    pub fn add_remote(&mut self, port: u16, target: ForwardTarget)
        requires
            old(self).wf(),
        ensures
            final (self).wf(),
            final (self).spec_remote(port) == Some(target),
            forall|other: u16|
                other != port ==> #[trigger] final (self).spec_remote(other) == old(
                    self,
                ).spec_remote(other),
            final (self).local_ids@ == old(self).local_ids@,
    {
        match self.find_remote(port) {
            Some(i) => {
                let ghost before = self.remote_forwards@;
                self.remote_forwards.set(i, (port, target));
                proof {
                    lemma_forward_lookup_at(self.remote_forwards@, port, i as int);
                    assert forall|other: u16| other != port implies #[trigger] self.spec_remote(
                        other,
                    ) == old(self).spec_remote(other) by {
                        lemma_forward_lookup_agrees(
                            before,
                            self.remote_forwards@,
                            other,
                            i as int,
                        );
                    }
                    assert forall|p: int, q: int|
                        0 <= p < q < self.remote_forwards@.len() implies (
                    #[trigger] self.remote_forwards@[p]).0 != (
                    #[trigger] self.remote_forwards@[q]).0 by {
                        assert(before[p].0 != before[q].0);
                    }
                }
            },
            None => {
                let ghost before = self.remote_forwards@;
                self.remote_forwards.push((port, target));
                proof {
                    lemma_forward_lookup_at(
                        self.remote_forwards@,
                        port,
                        self.remote_forwards@.len() - 1,
                    );
                    assert forall|other: u16| other != port implies #[trigger] self.spec_remote(
                        other,
                    ) == old(self).spec_remote(other) by {
                        lemma_forward_lookup_skips_last(before, self.remote_forwards@, other);
                    }
                    assert forall|p: int, q: int|
                        0 <= p < q < self.remote_forwards@.len() implies (
                    #[trigger] self.remote_forwards@[p]).0 != (
                    #[trigger] self.remote_forwards@[q]).0 by {
                        if q < before.len() {
                            assert(self.remote_forwards@[p] == before[p]);
                            assert(self.remote_forwards@[q] == before[q]);
                        } else {
                            assert(self.remote_forwards@[p] == before[p]);
                        }
                    }
                }
            },
        }
    }

    /// The target to dial when a `forwarded-tcpip` channel arrives
    /// for `port`; nothing when no tunnel registered it.
    pub fn remote_lookup(&self, port: u16) -> (r: Option<&ForwardTarget>)
        ensures
            match r {
                Some(t) => self.spec_remote(port) == Some(*t),
                None => self.spec_remote(port) is None,
            },
    {
        match self.find_remote(port) {
            Some(i) => {
                proof {
                    lemma_forward_lookup_at(self.remote_forwards@, port, i as int);
                }
                Some(&self.remote_forwards[i].1)
            },
            None => {
                proof {
                    lemma_forward_lookup_none(self.remote_forwards@, port);
                }
                None
            },
        }
    }

    /// Drops a cancelled remote forward; every other port keeps its
    /// target.
    pub fn remove_remote(&mut self, port: u16)
        requires
            old(self).wf(),
        ensures
            final (self).wf(),
            final (self).spec_remote(port) is None,
            forall|other: u16|
                other != port ==> #[trigger] final (self).spec_remote(other) == old(
                    self,
                ).spec_remote(other),
            final (self).local_ids@ == old(self).local_ids@,
    {
        match self.find_remote(port) {
            Some(i) => {
                let ghost before = self.remote_forwards@;
                self.remote_forwards.remove(i);
                proof {
                    assert forall|j: int|
                        0 <= j < self.remote_forwards@.len() implies (
                    #[trigger] self.remote_forwards@[j]).0 != port by {
                        if j < i {
                            assert(self.remote_forwards@[j] == before[j]);
                        } else {
                            assert(self.remote_forwards@[j] == before[j + 1]);
                        }
                    }
                    lemma_forward_lookup_none(self.remote_forwards@, port);
                    assert forall|other: u16| other != port implies #[trigger] self.spec_remote(
                        other,
                    ) == old(self).spec_remote(other) by {
                        lemma_forward_lookup_drops(before, port, other, i as int);
                    }
                    assert forall|p: int, q: int|
                        0 <= p < q < self.remote_forwards@.len() implies (
                    #[trigger] self.remote_forwards@[p]).0 != (
                    #[trigger] self.remote_forwards@[q]).0 by {
                        let bp = if p < i {
                            p
                        } else {
                            p + 1
                        };
                        let bq = if q < i {
                            q
                        } else {
                            q + 1
                        };
                        assert(self.remote_forwards@[p] == before[bp]);
                        assert(self.remote_forwards@[q] == before[bq]);
                    }
                }
            },
            None => {
                proof {
                    lemma_forward_lookup_none(self.remote_forwards@, port);
                }
            },
        }
    }
}

/// Whether a saved tunnel is live in the tables: a local tunnel by
/// its internal id among the listeners, a remote one by its
/// server-side port.
pub open spec fn spec_tunnel_active(t: SavedTunnel, tables: TunnelTables) -> bool {
    if spec_is_local_tunnel(t) {
        tables.spec_local_active(spec_internal_id(t))
    } else {
        tables.spec_remote(t.remote_port) is Some
    }
}

/// The status string injected into a listing row.
pub open spec fn spec_status_string(active: bool) -> Seq<char> {
    if active {
        seq!['a', 'c', 't', 'i', 'v', 'e']
    } else {
        seq!['s', 't', 'o', 'p', 'p', 'e', 'd']
    }
}

/// Returns a copy of a saved tunnel with its live status injected:
/// `active` exactly when its table entry is present, else `stopped`.
pub fn with_status(t: &SavedTunnel, tables: &TunnelTables) -> (r: SavedTunnel)
    ensures
        r.id == t.id,
        r.connection_id == t.connection_id,
        r.tunnel_type == t.tunnel_type,
        r.local_port == t.local_port,
        r.remote_port == t.remote_port,
        r.remote_host == t.remote_host,
        r.bind_address == t.bind_address,
        r.status matches Some(s) && s@ == spec_status_string(spec_tunnel_active(*t, *tables)),
{
    proof {
        reveal_strlit("local");
        reveal_strlit("active");
        reveal_strlit("stopped");
        assert("local"@ =~= seq!['l', 'o', 'c', 'a', 'l']);
        assert("active"@ =~= seq!['a', 'c', 't', 'i', 'v', 'e']);
        assert("stopped"@ =~= seq!['s', 't', 'o', 'p', 'p', 'e', 'd']);
    }
    let active = if str_eq(t.tunnel_type.as_str(), "local") {
        let iid = internal_id(t);
        tables.local_active(iid.as_str())
    } else {
        match tables.remote_lookup(t.remote_port) {
            Some(_) => true,
            None => false,
        }
    };
    let status = if active {
        "active".to_owned()
    } else {
        "stopped".to_owned()
    };
    let bind = match &t.bind_address {
        Some(b) => Some(b.clone()),
        None => None,
    };
    SavedTunnel {
        id: t.id.clone(),
        connection_id: t.connection_id.clone(),
        tunnel_type: t.tunnel_type.clone(),
        local_port: t.local_port,
        remote_port: t.remote_port,
        remote_host: t.remote_host.clone(),
        bind_address: bind,
        status: Some(status),
    }
}

} // verus!
