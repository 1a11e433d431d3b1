//! The transfer engine's pure core: the 4 MiB chunking used by the
//! full-duplex pipelines, the progress accounting whose counts never
//! decrease, the per-file transfer driver with cancellation at chunk
//! boundaries, and the process-wide cancellation table.
use vstd::prelude::*;

verus! {

use crate::assoc::lemma_assoc_append;
use crate::assoc::lemma_assoc_lookup_at;
use crate::assoc::lemma_assoc_lookup_none;
use crate::assoc::lemma_assoc_remove;
use crate::assoc::lemma_assoc_update;
use crate::assoc::spec_assoc_lookup;
use crate::assoc::spec_assoc_wf;
use crate::strutil::str_eq;

/// The chunk size of every transfer pipeline: 4 MiB.
pub const TRANSFER_CHUNK_SIZE: usize = 4194304;

/// The views of a vector of byte chunks.
pub open spec fn spec_views(s: Seq<Vec<u8>>) -> Seq<Seq<u8>> {
    s.map_values(|v: Vec<u8>| v@)
}

/// The concatenation of a sequence of byte chunks.
pub open spec fn spec_concat(s: Seq<Seq<u8>>) -> Seq<u8>
    decreases s.len(),
{
    if s.len() == 0 {
        Seq::empty()
    } else {
        spec_concat(s.drop_last()) + s.last()
    }
}

/// How a byte string is cut into chunks of at most `size` bytes: full
/// chunks first, then whatever remains. The `size < 1` guard only
/// serves termination; callers always pass a positive size.
pub open spec fn spec_chunks(data: Seq<u8>, size: int) -> Seq<Seq<u8>>
    decreases data.len(),
{
    if data.len() == 0 {
        Seq::empty()
    } else if data.len() <= size || size < 1 {
        seq![data]
    } else {
        seq![data.take(size)] + spec_chunks(data.skip(size), size)
    }
}

/// Concatenation after one more chunk.
pub proof fn lemma_concat_push(s: Seq<Seq<u8>>, x: Seq<u8>)
    ensures
        spec_concat(s.push(x)) == spec_concat(s) + x,
{
    assert(s.push(x).drop_last() =~= s);
    assert(s.push(x).last() == x);
}

/// Concatenation after prepending one chunk.
pub proof fn lemma_concat_prepend(x: Seq<u8>, s: Seq<Seq<u8>>)
    ensures
        spec_concat(seq![x] + s) == x + spec_concat(s),
    decreases s.len(),
{
    if s.len() == 0 {
        assert(seq![x] + s =~= Seq::<Seq<u8>>::empty().push(x));
        lemma_concat_push(Seq::empty(), x);
        assert(spec_concat(Seq::<Seq<u8>>::empty()) + x =~= x);
        assert(x + spec_concat(s) =~= x);
    } else {
        assert((seq![x] + s).drop_last() =~= seq![x] + s.drop_last());
        assert((seq![x] + s).last() == s.last());
        lemma_concat_prepend(x, s.drop_last());
        assert(spec_concat(seq![x] + s) == x + spec_concat(s.drop_last()) + s.last());
        assert(x + spec_concat(s.drop_last()) + s.last() =~= x + spec_concat(s));
    }
}

/// Splitting a byte string into chunks and concatenating them gives
/// the original bytes back: the round-trip law of the pipelines.
pub proof fn lemma_chunks_concat(data: Seq<u8>, size: int)
    requires
        size >= 1,
    ensures
        spec_concat(spec_chunks(data, size)) == data,
    decreases data.len(),
{
    if data.len() == 0 {
        assert(spec_concat(spec_chunks(data, size)) =~= data);
    } else if data.len() <= size {
        assert(spec_chunks(data, size) =~= Seq::<Seq<u8>>::empty().push(data));
        lemma_concat_push(Seq::empty(), data);
        assert(spec_concat(Seq::<Seq<u8>>::empty()) + data =~= data);
    } else {
        lemma_chunks_concat(data.skip(size), size);
        lemma_concat_prepend(data.take(size), spec_chunks(data.skip(size), size));
        assert(data.take(size) + data.skip(size) =~= data);
    }
}

/// One more chunk of a prefix.
pub proof fn lemma_concat_take_succ(s: Seq<Seq<u8>>, k: int)
    requires
        0 <= k < s.len(),
    ensures
        spec_concat(s.take(k + 1)) == spec_concat(s.take(k)) + s[k],
{
    assert(s.take(k + 1).drop_last() =~= s.take(k));
    assert(s.take(k + 1).last() == s[k]);
}

/// A prefix of the chunks never concatenates to more bytes than the
/// whole.
pub proof fn lemma_concat_take_le(s: Seq<Seq<u8>>, k: int)
    requires
        0 <= k <= s.len(),
    ensures
        spec_concat(s.take(k)).len() <= spec_concat(s).len(),
    decreases s.len() - k,
{
    if k == s.len() {
        assert(s.take(k) =~= s);
    } else {
        lemma_concat_take_succ(s, k);
        lemma_concat_take_le(s, k + 1);
    }
}

/// Appends all of `b` to `out`.
fn append_bytes(out: &mut Vec<u8>, b: &[u8])
    ensures
        final (out)@ == old(out)@ + b@,
{
    let n = b.len();
    let mut i: usize = 0;
    while i < n
        invariant
            n == b@.len(),
            0 <= i <= n,
            out@ =~= old(out)@ + b@.take(i as int),
        decreases n - i,
    {
        out.push(b[i]);
        proof {
            assert(b@.take(i as int).push(b@[i as int]) =~= b@.take(i as int + 1));
        }
        i = i + 1;
    }
    proof {
        assert(b@.take(n as int) =~= b@);
        assert(out@ =~= old(out)@ + b@);
    }
}

/// Cuts `data` into chunks of at most `size` bytes, as the producer
/// task of a pipeline reads them; concatenating the chunks gives the
/// input back.
pub fn split_chunks(data: &Vec<u8>, size: usize) -> (r: Vec<Vec<u8>>)
    requires
        size >= 1,
    ensures
        spec_views(r@) == spec_chunks(data@, size as int),
        spec_concat(spec_views(r@)) == data@,
{
    let n = data.len();
    let mut out: Vec<Vec<u8>> = Vec::new();
    let mut i: usize = 0;
    proof {
        assert(spec_views(out@) =~= Seq::<Seq<u8>>::empty());
        assert(data@.skip(0) =~= data@);
        assert(spec_views(out@) + spec_chunks(data@, size as int) =~= spec_chunks(
            data@,
            size as int,
        ));
    }
    while i < n
        invariant
            n == data@.len(),
            size >= 1,
            0 <= i <= n,
            spec_chunks(data@, size as int) == spec_views(out@) + spec_chunks(
                data@.skip(i as int),
                size as int,
            ),
        decreases n - i,
    {
        let end = if n - i < size {
            n
        } else {
            i + size
        };
        let chunk = crate::wire::slice_range_to_vec(data.as_slice(), i, end);
        let ghost prev_out = out@;
        let ghost prev_i = i as int;
        out.push(chunk);
        proof {
            let sz = size as int;
            let rest = data@.skip(prev_i);
            let piece = data@.subrange(prev_i, end as int);
            assert(out@.last()@ == piece);
            assert(spec_views(out@) =~= spec_views(prev_out).push(piece));
            assert(spec_views(prev_out).push(piece) =~= spec_views(prev_out) + seq![piece]);
            if n - prev_i <= size {
                assert(rest.len() <= sz);
                assert(rest.len() > 0);
                assert(spec_chunks(rest, sz) == seq![rest]);
                assert(piece =~= rest);
                assert(data@.skip(end as int) =~= Seq::<u8>::empty());
                assert(spec_chunks(data@.skip(end as int), sz) == Seq::<Seq<u8>>::empty());
                assert(spec_views(out@) + spec_chunks(data@.skip(end as int), sz) =~= spec_views(
                    prev_out,
                ) + spec_chunks(rest, sz));
            } else {
                assert(rest.len() > sz);
                assert(spec_chunks(rest, sz) == seq![rest.take(sz)] + spec_chunks(
                    rest.skip(sz),
                    sz,
                ));
                assert(piece =~= rest.take(sz));
                assert(rest.skip(sz) =~= data@.skip(end as int));
                assert(spec_views(out@) + spec_chunks(data@.skip(end as int), sz) =~= spec_views(
                    prev_out,
                ) + spec_chunks(rest, sz));
            }
        }
        i = end;
    }
    proof {
        assert(data@.skip(n as int) =~= Seq::<u8>::empty());
        assert(spec_chunks(Seq::<u8>::empty(), size as int) == Seq::<Seq<u8>>::empty());
        assert(spec_views(out@) + Seq::<Seq<u8>>::empty() =~= spec_views(out@));
        lemma_chunks_concat(data@, size as int);
    }
    out
}

/// Concatenates chunks back into one byte string, as the consumer of
/// a pipeline writes them out in order.
pub fn concat_chunks(chunks: &Vec<Vec<u8>>) -> (r: Vec<u8>)
    ensures
        r@ == spec_concat(spec_views(chunks@)),
{
    let n = chunks.len();
    let mut out: Vec<u8> = Vec::new();
    let mut i: usize = 0;
    proof {
        assert(spec_views(chunks@.take(0)) =~= Seq::<Seq<u8>>::empty());
    }
    while i < n
        invariant
            n == chunks@.len(),
            0 <= i <= n,
            out@ == spec_concat(spec_views(chunks@.take(i as int))),
        decreases n - i,
    {
        append_bytes(&mut out, chunks[i].as_slice());
        proof {
            let v = spec_views(chunks@);
            assert(spec_views(chunks@.take(i as int)) =~= v.take(i as int));
            assert(spec_views(chunks@.take(i as int + 1)) =~= v.take(i as int + 1));
            lemma_concat_take_succ(v, i as int);
            assert(v[i as int] == chunks@[i as int]@);
        }
        i = i + 1;
    }
    proof {
        assert(chunks@.take(n as int) =~= chunks@);
    }
    out
}

/// The running byte counts of one transfer. Only this tracker updates
/// `transferred`, so the reported counts never decrease.
pub struct TransferTracker {
    pub total: u64,
    pub transferred: u64,
}

impl TransferTracker {
    /// Starts a transfer of `total` expected bytes.
    pub fn new(total: u64) -> (r: TransferTracker)
        ensures
            r.total == total,
            r.transferred == 0,
    {
        TransferTracker { total, transferred: 0 }
    }

    /// Accounts one chunk of `n` bytes; the count only grows.
    pub fn record(&mut self, n: u64)
        requires
            old(self).transferred + n <= u64::MAX,
        ensures
            final (self).transferred == old(self).transferred + n,
            final (self).total == old(self).total,
            final (self).transferred >= old(self).transferred,
    {
        self.transferred = self.transferred + n;
    }
}

/// One `transfer-progress` event as the UI sees it.
pub struct ProgressEvent {
    pub transferred: u64,
    pub total: u64,
}

/// How one file transfer ended.
pub enum TransferEnd {
    /// Every chunk was written.
    Completed,
    /// The cancellation flag was observed at a chunk boundary; the
    /// chunks before it were written, nothing after.
    Cancelled,
}

/// The observable result of driving one file through the pipeline:
/// the progress events emitted, the bytes written to the destination,
/// and how it ended.
pub struct TransferRun {
    pub events: Vec<ProgressEvent>,
    pub written: Vec<u8>,
    pub end: TransferEnd,
}

/// The progress events carry one total and never decreasing counts.
pub open spec fn spec_events_monotone(events: Seq<ProgressEvent>, total: u64) -> bool {
    &&& forall|i: int| 0 <= i < events.len() ==> (#[trigger] events[i]).total == total
    &&& forall|i: int, j: int|
        0 <= i <= j < events.len() ==> (#[trigger] events[i]).transferred <= (
        #[trigger] events[j]).transferred
}

/// Drives one file's chunks through the pipeline, as the consumer
/// loop of a put or get does: an initial progress event, one write
/// and one progress event per chunk, and a stop at the first chunk
/// boundary where the cancellation flag was observed.
///
/// `cancel_at` names the boundary at which the flag read true, if
/// ever; the flag is set by another task, so every value must be
/// served. On a complete run the final count equals the byte total of
/// the source chunks; a cancelled run writes exactly the chunks
/// before the boundary.
pub fn run_file_transfer(chunks: &Vec<Vec<u8>>, total: u64, cancel_at: Option<usize>) -> (r:
    TransferRun)
    requires
        spec_concat(spec_views(chunks@)).len() <= u64::MAX,
    ensures
        r.events@.len() >= 1,
        r.events@[0].transferred == 0 && r.events@[0].total == total,
        spec_events_monotone(r.events@, total),
        match cancel_at {
            None => {
                &&& r.end is Completed
                &&& r.written@ == spec_concat(spec_views(chunks@))
                &&& r.events@.last().transferred == spec_concat(spec_views(chunks@)).len()
            },
            Some(c) => {
                if c < chunks@.len() {
                    &&& r.end is Cancelled
                    &&& r.written@ == spec_concat(spec_views(chunks@.take(c as int)))
                } else {
                    &&& r.end is Completed
                    &&& r.written@ == spec_concat(spec_views(chunks@))
                    &&& r.events@.last().transferred == spec_concat(spec_views(chunks@)).len()
                }
            },
        },
{
    let n = chunks.len();
    let mut events: Vec<ProgressEvent> = Vec::new();
    let mut written: Vec<u8> = Vec::new();
    let mut tracker = TransferTracker::new(total);
    events.push(ProgressEvent { transferred: 0, total });
    let mut k: usize = 0;
    proof {
        assert(spec_views(chunks@.take(0)) =~= Seq::<Seq<u8>>::empty());
    }
    while k < n
        invariant
            n == chunks@.len(),
            0 <= k <= n,
            spec_concat(spec_views(chunks@)).len() <= u64::MAX,
            tracker.total == total,
            tracker.transferred == spec_concat(spec_views(chunks@.take(k as int))).len(),
            written@ == spec_concat(spec_views(chunks@.take(k as int))),
            events@.len() >= 1,
            events@[0].transferred == 0 && events@[0].total == total,
            spec_events_monotone(events@, total),
            forall|i: int|
                0 <= i < events@.len() ==> (#[trigger] events@[i]).transferred
                    <= tracker.transferred,
            events@.last().transferred == tracker.transferred,
            match cancel_at {
                Some(c) => k <= c,
                None => true,
            },
        decreases n - k,
    {
        match cancel_at {
            Some(c) => {
                if k == c {
                    return TransferRun { events, written, end: TransferEnd::Cancelled };
                }
            },
            None => {},
        }
        proof {
            let v = spec_views(chunks@);
            assert(spec_views(chunks@.take(k as int)) =~= v.take(k as int));
            assert(spec_views(chunks@.take(k as int + 1)) =~= v.take(k as int + 1));
            lemma_concat_take_succ(v, k as int);
            lemma_concat_take_le(v, k as int + 1);
            assert(v[k as int] == chunks@[k as int]@);
        }
        let chunk_len = chunks[k].len();
        append_bytes(&mut written, chunks[k].as_slice());
        tracker.record(chunk_len as u64);
        events.push(ProgressEvent { transferred: tracker.transferred, total });
        k = k + 1;
    }
    proof {
        assert(chunks@.take(n as int) =~= chunks@);
    }
    TransferRun { events, written, end: TransferEnd::Completed }
}

/// A file tree as the size walks see it: regular files carry their
/// byte size, directories their entries. Symlinks count as files of
/// their target's size, as the walks treat them.
pub enum FsTree {
    File { size: u64 },
    Dir { children: Vec<FsTree> },
}

/// The byte total of a tree: the sum of its file sizes, the figure a
/// transfer reports as its total.
pub open spec fn spec_tree_size(t: FsTree) -> int
    decreases t, 0int,
{
    match t {
        FsTree::File { size } => size as int,
        FsTree::Dir { children } => spec_forest_from(children@, 0),
    }
}

/// The byte total of the sibling trees from index `i` on.
pub open spec fn spec_forest_from(ts: Seq<FsTree>, i: int) -> int
    decreases ts, ts.len() - i,
{
    if 0 <= i < ts.len() {
        spec_tree_size(ts[i]) + spec_forest_from(ts, i + 1)
    } else {
        0
    }
}

/// Sizes are sums of non-negative file sizes.
pub proof fn lemma_tree_size_nonneg(t: FsTree)
    ensures
        spec_tree_size(t) >= 0,
    decreases t, 0int,
{
    match t {
        FsTree::File { size } => {},
        FsTree::Dir { children } => {
            lemma_forest_from_nonneg(children@, 0);
        },
    }
}

/// A suffix sum of siblings is non-negative.
pub proof fn lemma_forest_from_nonneg(ts: Seq<FsTree>, i: int)
    ensures
        spec_forest_from(ts, i) >= 0,
    decreases ts, ts.len() - i,
{
    if 0 <= i < ts.len() {
        lemma_tree_size_nonneg(ts[i]);
        lemma_forest_from_nonneg(ts, i + 1);
    }
}

/// Computes a tree's byte total, as the pre-transfer walk does to
/// seed the progress figure.
pub fn tree_size(t: &FsTree) -> (r: u64)
    requires
        spec_tree_size(*t) <= u64::MAX,
    ensures
        r == spec_tree_size(*t),
    decreases *t, 0int,
{
    match t {
        FsTree::File { size } => *size,
        FsTree::Dir { children } => {
            proof {
                broadcast use vstd::std_specs::vec::axiom_vec_decreases_to_view;

                assert(decreases_to!(*t => *children));
            }
            forest_size(children)
        },
    }
}

/// Computes the byte total of sibling trees.
fn forest_size(ts: &Vec<FsTree>) -> (r: u64)
    requires
        spec_forest_from(ts@, 0) <= u64::MAX,
    ensures
        r == spec_forest_from(ts@, 0),
    decreases ts@, 0int,
{
    let n = ts.len();
    let mut total: u64 = 0;
    let mut i: usize = 0;
    while i < n
        invariant
            n == ts@.len(),
            0 <= i <= n,
            total + spec_forest_from(ts@, i as int) == spec_forest_from(ts@, 0),
            spec_forest_from(ts@, 0) <= u64::MAX,
        decreases n - i,
    {
        proof {
            broadcast use vstd::seq::axiom_seq_index_decreases;

            lemma_tree_size_nonneg(ts@[i as int]);
            lemma_forest_from_nonneg(ts@, i as int + 1);
            assert(decreases_to!(ts@ => ts@[i as int]));
        }
        let c = tree_size(&ts[i]);
        total = total + c;
        i = i + 1;
    }
    total
}

/// The process-wide cancellation table: transfer id to flag. One
/// entry per registered transfer; `cancel` flips the flag that the
/// running transfer reads at chunk boundaries.
pub struct CancelRegistry {
    pub entries: Vec<(String, bool)>,
}

impl CancelRegistry {
    /// The flag registered under `id`.
    pub open spec fn spec_flag(&self, id: Seq<char>) -> Option<bool> {
        spec_assoc_lookup(self.entries@, id)
    }

    /// No id occurs twice.
    pub open spec fn wf(&self) -> bool {
        spec_assoc_wf(self.entries@)
    }

    /// An empty table.
    pub fn new() -> (r: CancelRegistry)
        ensures
            r.wf(),
            forall|id: Seq<char>| r.spec_flag(id) is None,
    {
        let r = CancelRegistry { entries: Vec::new() };
        proof {
            assert forall|id: Seq<char>| r.spec_flag(id) is None by {
                assert(r.entries@.len() == 0);
            }
        }
        r
    }

    /// Finds the index of `id`, scanning in order.
    fn find(&self, id: &str) -> (r: Option<usize>)
        ensures
            match r {
                Some(i) => i < self.entries@.len() && self.entries@[i as int].0@ == id@ && forall|
                    j: int,
                |
                    0 <= j < i ==> (#[trigger] self.entries@[j]).0@ != id@,
                None => forall|j: int|
                    0 <= j < self.entries@.len() ==> (#[trigger] self.entries@[j]).0@ != id@,
            },
    {
        let n = self.entries.len();
        let mut i: usize = 0;
        while i < n
            invariant
                n == self.entries@.len(),
                0 <= i <= n,
                forall|j: int| 0 <= j < i ==> (#[trigger] self.entries@[j]).0@ != id@,
            decreases n - i,
        {
            if str_eq(self.entries[i].0.as_str(), id) {
                return Some(i);
            }
            i = i + 1;
        }
        None
    }

    /// Sets the flag stored at the first index of `id`.
    fn set_flag(&mut self, i: usize, flag: bool)
        requires
            old(self).wf(),
            i < old(self).entries@.len(),
            forall|j: int| 0 <= j < i ==> (#[trigger] old(self).entries@[j]).0@ != old(
                self,
            ).entries@[i as int].0@,
        ensures
            final (self).wf(),
            final (self).spec_flag(old(self).entries@[i as int].0@) == Some(flag),
            forall|other: Seq<char>|
                other != old(self).entries@[i as int].0@ ==> #[trigger] final (self).spec_flag(
                    other,
                ) == old(self).spec_flag(other),
    {
        let ghost before = self.entries@;
        let ghost id = self.entries@[i as int].0@;
        let owned = self.entries[i].0.clone();
        self.entries.set(i, (owned, flag));
        proof {
            lemma_assoc_update(before, self.entries@, id, i as int);
        }
    }

    /// Registers a transfer with a cleared flag; an existing entry is
    /// reset. Every other transfer keeps its flag.
    pub fn register(&mut self, id: &str)
        requires
            old(self).wf(),
        ensures
            final (self).wf(),
            final (self).spec_flag(id@) == Some(false),
            forall|other: Seq<char>|
                other != id@ ==> #[trigger] final (self).spec_flag(other) == old(self).spec_flag(
                    other,
                ),
    {
        match self.find(id) {
            Some(i) => {
                self.set_flag(i, false);
            },
            None => {
                let ghost before = self.entries@;
                let owned_id = id.to_owned();
                self.entries.push((owned_id, false));
                proof {
                    lemma_assoc_append(before, self.entries@, id@);
                }
            },
        }
    }

    /// Sets the flag of `id` if it is registered, as the cancel
    /// command does; tells whether an entry was found. No other flag
    /// moves.
    pub fn cancel(&mut self, id: &str) -> (found: bool)
        requires
            old(self).wf(),
        ensures
            final (self).wf(),
            found == (old(self).spec_flag(id@) is Some),
            found ==> final (self).spec_flag(id@) == Some(true),
            !found ==> final (self).spec_flag(id@) is None,
            forall|other: Seq<char>|
                other != id@ ==> #[trigger] final (self).spec_flag(other) == old(self).spec_flag(
                    other,
                ),
    {
        match self.find(id) {
            Some(i) => {
                proof {
                    lemma_assoc_lookup_at(self.entries@, id@, i as int);
                }
                self.set_flag(i, true);
                true
            },
            None => {
                proof {
                    lemma_assoc_lookup_none(self.entries@, id@);
                }
                false
            },
        }
    }

    /// Reads the flag of `id`: true only when the transfer is
    /// registered and was cancelled.
    pub fn is_cancelled(&self, id: &str) -> (r: bool)
        ensures
            r == (self.spec_flag(id@) == Some(true)),
    {
        match self.find(id) {
            Some(i) => {
                proof {
                    lemma_assoc_lookup_at(self.entries@, id@, i as int);
                }
                self.entries[i].1
            },
            None => {
                proof {
                    lemma_assoc_lookup_none(self.entries@, id@);
                }
                false
            },
        }
    }

    /// Removes the entry of `id` when the transfer terminates; every
    /// other entry stays.
    pub fn remove(&mut self, id: &str)
        requires
            old(self).wf(),
        ensures
            final (self).wf(),
            final (self).spec_flag(id@) is None,
            forall|other: Seq<char>|
                other != id@ ==> #[trigger] final (self).spec_flag(other) == old(self).spec_flag(
                    other,
                ),
    {
        match self.find(id) {
            Some(i) => {
                let ghost before = self.entries@;
                self.entries.remove(i);
                proof {
                    lemma_assoc_remove(before, self.entries@, id@, i as int);
                }
            },
            None => {
                proof {
                    lemma_assoc_lookup_none(self.entries@, id@);
                }
            },
        }
    }
}

} // verus!
