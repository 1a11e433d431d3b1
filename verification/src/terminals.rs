//! Terminal bookkeeping: which terminal belongs to which connection,
//! idempotent creation, closing one terminal or every terminal of a
//! connection, resize coalescing, and the ordered output log whose
//! concatenation is exactly the bytes the terminal produced.
use vstd::prelude::*;

verus! {

use crate::assoc::lemma_assoc_append;
use crate::assoc::lemma_assoc_lookup_at;
use crate::assoc::lemma_assoc_lookup_none;
use crate::assoc::lemma_assoc_remove;
use crate::assoc::spec_assoc_lookup;
use crate::assoc::spec_assoc_wf;
use crate::strutil::str_eq;
use crate::transfer::spec_concat;
use crate::transfer::spec_views;

/// The terminal registry: terminal id to owning connection id (the
/// literal `local` for local PTYs). One entry per terminal.
pub struct TerminalRegistry {
    pub entries: Vec<(String, String)>,
}

impl TerminalRegistry {
    /// The connection that owns `term_id`.
    pub open spec fn spec_owner(&self, term_id: Seq<char>) -> Option<String> {
        spec_assoc_lookup(self.entries@, term_id)
    }

    /// One entry per terminal id.
    pub open spec fn wf(&self) -> bool {
        spec_assoc_wf(self.entries@)
    }

    /// An empty registry.
    pub fn new() -> (r: TerminalRegistry)
        ensures
            r.wf(),
            forall|id: Seq<char>| r.spec_owner(id) is None,
    {
        let r = TerminalRegistry { entries: Vec::new() };
        proof {
            assert forall|id: Seq<char>| r.spec_owner(id) is None by {
                assert(r.entries@.len() == 0);
            }
        }
        r
    }

    /// Finds the index of `term_id`.
    fn find(&self, term_id: &str) -> (r: Option<usize>)
        ensures
            match r {
                Some(i) => i < self.entries@.len() && self.entries@[i as int].0@ == term_id@
                    && forall|j: int|
                    0 <= j < i ==> (#[trigger] self.entries@[j]).0@ != term_id@,
                None => forall|j: int|
                    0 <= j < self.entries@.len() ==> (#[trigger] self.entries@[j]).0@ != term_id@,
            },
    {
        let n = self.entries.len();
        let mut i: usize = 0;
        while i < n
            invariant
                n == self.entries@.len(),
                0 <= i <= n,
                forall|j: int| 0 <= j < i ==> (#[trigger] self.entries@[j]).0@ != term_id@,
            decreases n - i,
        {
            if str_eq(self.entries[i].0.as_str(), term_id) {
                return Some(i);
            }
            i = i + 1;
        }
        None
    }

    /// Registers a terminal under its owning connection. Creating a
    /// terminal that already exists is a no-op — the registry is left
    /// untouched — and the report tells the caller to close the
    /// unused channel.
    pub fn create(&mut self, term_id: &str, connection_id: &str) -> (created: bool)
        requires
            old(self).wf(),
        ensures
            final (self).wf(),
            created == (old(self).spec_owner(term_id@) is None),
            !created ==> final (self).entries@ == old(self).entries@,
            created ==> {
                &&& final (self).spec_owner(term_id@) matches Some(c) && c@ == connection_id@
                &&& forall|other: Seq<char>|
                    other != term_id@ ==> #[trigger] final (self).spec_owner(other) == old(
                        self,
                    ).spec_owner(other)
            },
    {
        match self.find(term_id) {
            Some(i) => {
                proof {
                    lemma_assoc_lookup_at(self.entries@, term_id@, i as int);
                }
                false
            },
            None => {
                proof {
                    lemma_assoc_lookup_none(self.entries@, term_id@);
                }
                let ghost before = self.entries@;
                let owned_id = term_id.to_owned();
                let owned_conn = connection_id.to_owned();
                self.entries.push((owned_id, owned_conn));
                proof {
                    lemma_assoc_append(before, self.entries@, term_id@);
                }
                true
            },
        }
    }

    /// The owning connection of `term_id`, when it is registered.
    pub fn owner_of(&self, term_id: &str) -> (r: Option<&String>)
        ensures
            match r {
                Some(c) => self.spec_owner(term_id@) == Some(*c),
                None => self.spec_owner(term_id@) is None,
            },
    {
        match self.find(term_id) {
            Some(i) => {
                proof {
                    lemma_assoc_lookup_at(self.entries@, term_id@, i as int);
                }
                Some(&self.entries[i].1)
            },
            None => {
                proof {
                    lemma_assoc_lookup_none(self.entries@, term_id@);
                }
                None
            },
        }
    }

    /// Removes one terminal on explicit close, remote EOF or exit;
    /// every other terminal stays.
    pub fn close(&mut self, term_id: &str)
        requires
            old(self).wf(),
        ensures
            final (self).wf(),
            final (self).spec_owner(term_id@) is None,
            forall|other: Seq<char>|
                other != term_id@ ==> #[trigger] final (self).spec_owner(other) == old(
                    self,
                ).spec_owner(other),
    {
        match self.find(term_id) {
            Some(i) => {
                let ghost before = self.entries@;
                self.entries.remove(i);
                proof {
                    lemma_assoc_remove(before, self.entries@, term_id@, i as int);
                }
            },
            None => {
                proof {
                    lemma_assoc_lookup_none(self.entries@, term_id@);
                }
            },
        }
    }

    /// Closes every terminal owned by `connection_id`, as a
    /// disconnect must before the session handle drops: exactly the
    /// entries of other connections remain, in their order.
    pub fn close_by_connection(&mut self, connection_id: &str)
        requires
            old(self).wf(),
        ensures
            final (self).wf(),
            final (self).entries@ == old(self).entries@.filter(
                (|e: (String, String)| e.1@ != connection_id@),
            ),
    {
        let n = self.entries.len();
        let mut kept: Vec<(String, String)> = Vec::new();
        let ghost orig = self.entries@;
        let ghost pred = (|e: (String, String)| e.1@ != connection_id@);
        proof {
            reveal(Seq::filter);
            assert(orig.take(0).filter(pred) =~= Seq::<(String, String)>::empty());
        }
        let mut i: usize = 0;
        while i < n
            invariant
                n == orig.len(),
                self.entries@ == orig,
                spec_assoc_wf(orig),
                0 <= i <= n,
                pred == (|e: (String, String)| e.1@ != connection_id@),
                kept@ == orig.take(i as int).filter(pred),
                forall|k: int|
                    0 <= k < kept@.len() ==> exists|j: int|
                        0 <= j < i && #[trigger] kept@[k] == orig[j],
                spec_assoc_wf(kept@),
            decreases n - i,
        {
            proof {
                reveal(Seq::filter);
                assert(orig.take(i as int + 1).drop_last() =~= orig.take(i as int));
                assert(orig.take(i as int + 1).last() == orig[i as int]);
            }
            let keep = !str_eq(self.entries[i].1.as_str(), connection_id);
            if keep {
                let ghost prev = kept@;
                let tid = self.entries[i].0.clone();
                let cid = self.entries[i].1.clone();
                kept.push((tid, cid));
                proof {
                    assert(kept@.last() == orig[i as int]);
                    assert(kept@ =~= prev.push(orig[i as int]));
                    assert(kept@ =~= orig.take(i as int + 1).filter(pred));
                    assert forall|k: int| 0 <= k < kept@.len() implies exists|j: int|
                        0 <= j < i + 1 && #[trigger] kept@[k] == orig[j] by {
                        if k < prev.len() {
                            assert(prev[k] == kept@[k]);
                        } else {
                            assert(kept@[k] == orig[i as int]);
                        }
                    }
                    assert forall|p: int, q: int| 0 <= p < q < kept@.len() implies (
                    #[trigger] kept@[p]).0@ != (#[trigger] kept@[q]).0@ by {
                        let jp = choose|j: int| 0 <= j < i + 1 && kept@[p] == orig[j];
                        let jq = choose|j: int| 0 <= j < i + 1 && kept@[q] == orig[j];
                        if jp != jq {
                        } else {
                            lemma_filter_distinct_positions(orig.take(i as int + 1), pred, p, q);
                        }
                    }
                }
            } else {
                proof {
                    assert(kept@ =~= orig.take(i as int + 1).filter(pred));
                }
            }
            i = i + 1;
        }
        proof {
            assert(orig.take(n as int) =~= orig);
        }
        self.entries = kept;
    }
}

/// Two distinct positions of a filtered sequence come from distinct
/// positions of the base sequence, so their keys differ when the base
/// has unique keys.
proof fn lemma_filter_distinct_positions(
    s: Seq<(String, String)>,
    pred: spec_fn((String, String)) -> bool,
    p: int,
    q: int,
)
    requires
        spec_assoc_wf(s),
        0 <= p < q < s.filter(pred).len(),
    ensures
        s.filter(pred)[p].0@ != s.filter(pred)[q].0@,
    decreases s.len(),
{
    reveal(Seq::filter);
    if s.len() > 0 {
        let fs = s.filter(pred);
        let sub = s.drop_last().filter(pred);
        assert forall|a: int, b: int| 0 <= a < b < s.drop_last().len() implies (
        #[trigger] s.drop_last()[a]).0@ != (#[trigger] s.drop_last()[b]).0@ by {
            assert(s.drop_last()[a] == s[a]);
            assert(s.drop_last()[b] == s[b]);
        }
        if pred(s.last()) {
            assert(fs == sub.push(s.last()));
            if q < fs.len() - 1 {
                assert(fs[p] == sub[p]);
                assert(fs[q] == sub[q]);
                lemma_filter_distinct_positions(s.drop_last(), pred, p, q);
            } else {
                assert(fs[q] == s.last());
                assert(fs[p] == sub[p]);
                lemma_filter_element_from_base(s.drop_last(), pred, p);
                let j = choose|j: int|
                    0 <= j < s.drop_last().len() && s.drop_last().filter(pred)[p]
                        == s.drop_last()[j];
                assert(s.drop_last()[j] == s[j]);
                assert(s[j].0@ != s[s.len() - 1].0@);
            }
        } else {
            assert(fs == sub);
            lemma_filter_distinct_positions(s.drop_last(), pred, p, q);
        }
    }
}

/// Every element of a filtered sequence occurs in the base sequence.
proof fn lemma_filter_element_from_base(
    s: Seq<(String, String)>,
    pred: spec_fn((String, String)) -> bool,
    p: int,
)
    requires
        0 <= p < s.filter(pred).len(),
    ensures
        exists|j: int| 0 <= j < s.len() && s.filter(pred)[p] == s[j],
    decreases s.len(),
{
    reveal(Seq::filter);
    if s.len() > 0 {
        let fs = s.filter(pred);
        let sub = s.drop_last().filter(pred);
        if pred(s.last()) {
            if p < fs.len() - 1 {
                assert(fs[p] == sub[p]);
                lemma_filter_element_from_base(s.drop_last(), pred, p);
                let j = choose|j: int| 0 <= j < s.drop_last().len() && sub[p] == s.drop_last()[j];
                assert(fs[p] == s[j]);
            } else {
                assert(fs[p] == s[s.len() - 1]);
            }
        } else {
            assert(fs[p] == sub[p]);
            lemma_filter_element_from_base(s.drop_last(), pred, p);
            let j = choose|j: int| 0 <= j < s.drop_last().len() && sub[p] == s.drop_last()[j];
            assert(fs[p] == s[j]);
        }
    }
}

/// The input queue of one terminal: the UI appends at the back, the
/// single writer takes from the front, so bytes reach the remote in
/// submission order.
pub struct InputQueue {
    pub items: Vec<Vec<u8>>,
}

impl InputQueue {
    /// An empty queue.
    pub fn new() -> (r: InputQueue)
        ensures
            r.items@.len() == 0,
    {
        InputQueue { items: Vec::new() }
    }

    /// Queues one write from the UI, behind everything already
    /// pending.
    pub fn push(&mut self, chunk: Vec<u8>)
        ensures
            final (self).items@ == old(self).items@.push(chunk),
    {
        self.items.push(chunk);
    }

    /// Takes the oldest pending write for the channel; nothing when
    /// the queue is empty.
    pub fn pop(&mut self) -> (r: Option<Vec<u8>>)
        ensures
            old(self).items@.len() == 0 ==> r is None && final (self).items@ == old(self).items@,
            old(self).items@.len() > 0 ==> {
                &&& r matches Some(chunk) && chunk@ == old(self).items@[0]@
                &&& final (self).items@ == old(self).items@.drop_first()
            },
    {
        if self.items.len() == 0 {
            None
        } else {
            let chunk = self.items.remove(0);
            proof {
                assert(old(self).items@.remove(0) =~= old(self).items@.drop_first());
            }
            Some(chunk)
        }
    }
}

/// Applies only the newest pending resize, as the driver drains its
/// resize queue before acting: the last request wins.
pub fn coalesce_resizes(pending: &Vec<(u16, u16)>) -> (r: Option<(u16, u16)>)
    ensures
        pending@.len() == 0 ==> r is None,
        pending@.len() > 0 ==> r == Some(pending@.last()),
{
    let n = pending.len();
    if n == 0 {
        None
    } else {
        Some(pending[n - 1])
    }
}

/// The ordered log of output chunks emitted for one terminal. A
/// single producer appends, so the stream the UI reassembles is the
/// concatenation of the chunks in emission order — byte for byte what
/// the terminal produced, however the reads were split.
pub struct OutputLog {
    pub chunks: Vec<Vec<u8>>,
}

impl OutputLog {
    /// The whole byte stream emitted so far.
    pub open spec fn spec_stream(&self) -> Seq<u8> {
        spec_concat(spec_views(self.chunks@))
    }

    /// An empty log.
    pub fn new() -> (r: OutputLog)
        ensures
            r.chunks@.len() == 0,
            r.spec_stream() == Seq::<u8>::empty(),
    {
        let r = OutputLog { chunks: Vec::new() };
        proof {
            assert(spec_views(r.chunks@) =~= Seq::<Seq<u8>>::empty());
        }
        r
    }

    /// Emits one chunk of raw bytes, exactly as read — never decoded,
    /// because a read may split a multi-byte character. The stream
    /// grows by exactly these bytes, at its end.
    pub fn emit(&mut self, chunk: Vec<u8>)
        ensures
            final (self).chunks@ == old(self).chunks@.push(chunk),
            final (self).spec_stream() == old(self).spec_stream() + chunk@,
    {
        let ghost prev = self.chunks@;
        self.chunks.push(chunk);
        proof {
            assert(spec_views(self.chunks@) =~= spec_views(prev).push(self.chunks@.last()@));
            crate::transfer::lemma_concat_push(spec_views(prev), self.chunks@.last()@);
        }
    }
}

/// Replaying any chunked reads of a byte stream through the log
/// reassembles that stream exactly: emission preserves content and
/// order for each terminal id.
pub proof fn lemma_output_stream_exact(chunks: Seq<Seq<u8>>, data: Seq<u8>, size: int)
    requires
        size >= 1,
        chunks == crate::transfer::spec_chunks(data, size),
    ensures
        spec_concat(chunks) == data,
{
    crate::transfer::lemma_chunks_concat(data, size);
}

} // verus!
