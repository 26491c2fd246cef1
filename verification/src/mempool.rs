//! Narwhal-style mempool: workers batch transactions, batches are
//! acknowledged by validators, and a batch with a quorum of distinct
//! acknowledgements is certified. Consensus orders only the digests of
//! certified batches.

use vstd::prelude::*;
use crate::hash::{
    byte_views, bytes_eq, contains_bytes, copy_byte_list, copy_bytes, hash256_eq, sha3_256, sha3_256_spec, Hash256,
};

verus! {

/// Maximum transactions per batch.
pub const DEFAULT_MAX_BATCH_SIZE: usize = 100;

/// Maximum pending batches before new batches are dropped.
pub const DEFAULT_MAX_PENDING_BATCHES: usize = 256;

// ---------------------------------------------------------------------------
// Batches and their digests
// ---------------------------------------------------------------------------

/// A batch of transactions created by a worker.
#[derive(Debug)]
pub struct TransactionBatch {
    /// Batch identifier: SHA3-256 of the batch's contents.
    pub digest: Hash256,
    /// The worker that created this batch.
    pub worker_id: u32,
    /// The validator that created this batch.
    pub author: Vec<u8>,
    /// Serialized transactions.
    pub transactions: Vec<Vec<u8>>,
    /// Digests of parent batches (DAG edges).
    pub parents: Vec<Hash256>,
    /// Creation time (Unix milliseconds).
    pub timestamp: u64,
}

/// Little-endian bytes of a `u32`.
pub open spec fn le32(x: u32) -> Seq<u8> {
    seq![(x % 256) as u8, ((x / 256) % 256) as u8, ((x / 65536) % 256) as u8, ((x / 16777216) % 256) as u8]
}

/// Each transaction framed by its length (as `u32`, little-endian).
pub open spec fn tx_frames(txs: Seq<Seq<u8>>) -> Seq<u8>
    decreases txs.len(),
{
    if txs.len() == 0 {
        Seq::empty()
    } else {
        tx_frames(txs.drop_last()) + le32(txs.last().len() as u32) + txs.last()
    }
}

/// The parent digests, concatenated.
pub open spec fn parent_bytes(parents: Seq<Hash256>) -> Seq<u8>
    decreases parents.len(),
{
    if parents.len() == 0 {
        Seq::empty()
    } else {
        parent_bytes(parents.drop_last()) + parents.last().0@
    }
}

/// The bytes a batch digest is computed over.
pub open spec fn batch_preimage(worker_id: u32, author: Seq<u8>, txs: Seq<Seq<u8>>, parents: Seq<Hash256>) -> Seq<
    u8,
> {
    le32(worker_id) + author + tx_frames(txs) + parent_bytes(parents)
}

/// Digest of a batch's contents.
pub open spec fn batch_digest(worker_id: u32, author: Seq<u8>, txs: Seq<Seq<u8>>, parents: Seq<Hash256>) -> Seq<u8> {
    sha3_256_spec(batch_preimage(worker_id, author, txs, parents))
}

fn push_le32(buf: &mut Vec<u8>, x: u32)
    ensures
        final(buf)@ == old(buf)@ + le32(x),
{
    buf.push((x % 256) as u8);
    buf.push(((x / 256) % 256) as u8);
    buf.push(((x / 65536) % 256) as u8);
    buf.push(((x / 16777216) % 256) as u8);
    assert(buf@ =~= old(buf)@ + le32(x));
}

fn push_bytes(buf: &mut Vec<u8>, data: &[u8])
    ensures
        final(buf)@ == old(buf)@ + data@,
{
    let mut i: usize = 0;
    while i < data.len()
        invariant
            i <= data@.len(),
            buf@ == old(buf)@ + data@.take(i as int),
        decreases data@.len() - i,
    {
        buf.push(data[i]);
        assert(data@.take(i + 1) =~= data@.take(i as int).push(data@[i as int]));
        assert(buf@ =~= old(buf)@ + data@.take(i + 1));
        i = i + 1;
    }
    assert(data@.take(data@.len() as int) =~= data@);
}

impl TransactionBatch {
    /// Digest of a batch: SHA3-256 over the worker id, the author, each
    /// transaction framed by its length, and the parent digests.
    pub fn compute_digest(worker_id: u32, author: &[u8], transactions: &[Vec<u8>], parents: &[Hash256]) -> (r:
        Hash256)
        ensures
            r.0@ == batch_digest(worker_id, author@, byte_views(transactions@), parents@),
    {
        let mut data: Vec<u8> = Vec::new();
        push_le32(&mut data, worker_id);
        push_bytes(&mut data, author);
        let ghost txs = byte_views(transactions@);
        let mut i: usize = 0;
        assert(txs.take(0) =~= Seq::<Seq<u8>>::empty());
        while i < transactions.len()
            invariant
                txs == byte_views(transactions@),
                i <= txs.len(),
                data@ == le32(worker_id) + author@ + tx_frames(txs.take(i as int)),
            decreases txs.len() - i,
        {
            let tx = &transactions[i];
            push_le32(&mut data, tx.len() as u32);
            push_bytes(&mut data, tx.as_slice());
            assert(txs.take(i + 1).drop_last() =~= txs.take(i as int));
            assert(txs.take(i + 1).last() == tx@);
            assert(data@ =~= le32(worker_id) + author@ + tx_frames(txs.take(i + 1)));
            i = i + 1;
        }
        assert(txs.take(txs.len() as int) =~= txs);
        let mut k: usize = 0;
        assert(parents@.take(0) =~= Seq::<Hash256>::empty());
        while k < parents.len()
            invariant
                k <= parents@.len(),
                data@ == le32(worker_id) + author@ + tx_frames(txs) + parent_bytes(parents@.take(k as int)),
            decreases parents@.len() - k,
        {
            push_bytes(&mut data, parents[k].0.as_slice());
            assert(parents@.take(k + 1).drop_last() =~= parents@.take(k as int));
            assert(data@ =~= le32(worker_id) + author@ + tx_frames(txs) + parent_bytes(parents@.take(k + 1)));
            k = k + 1;
        }
        assert(parents@.take(parents@.len() as int) =~= parents@);
        sha3_256(data.as_slice())
    }
}

#[verifier::external_type_specification]
#[verifier::external_body]
pub struct ExSystemTime(std::time::SystemTime);

#[verifier::external_type_specification]
#[verifier::external_body]
pub struct ExSystemTimeError(std::time::SystemTimeError);

/// Calls `std::time::SystemTime::now`. The value depends on the clock, so
/// nothing is promised of it.
#[verifier::external_body]
fn system_now() -> (t: std::time::SystemTime) {
    std::time::SystemTime::now()
}

/// Calls `SystemTime::duration_since` with `UNIX_EPOCH`: the time elapsed
/// since the Unix epoch, or an error for a time before it. Nothing is
/// promised of which, as the value it reads comes from the clock.
#[verifier::external_body]
fn since_unix_epoch(t: &std::time::SystemTime) -> (r: Result<std::time::Duration, std::time::SystemTimeError>) {
    t.duration_since(std::time::UNIX_EPOCH)
}

/// Calls `Duration::as_millis`: whole milliseconds of a duration, which
/// this library cannot see inside, so nothing is promised of the value.
#[verifier::external_body]
fn duration_millis(d: &std::time::Duration) -> (r: u128) {
    d.as_millis()
}

/// The clock as milliseconds since the Unix epoch, truncated to `u64`
/// (0 for a clock before the epoch).
fn unix_millis_now() -> (t: u64) {
    let now = system_now();
    match since_unix_epoch(&now) {
        Ok(d) => {
            let ms = duration_millis(&d);
            #[verifier::truncate]
            (ms as u64)
        },
        Err(_) => 0,
    }
}

// ---------------------------------------------------------------------------
// Certificates
// ---------------------------------------------------------------------------

/// A certificate for a batch: the validators that acknowledged it.
#[derive(Debug)]
pub struct BatchCertificate {
    /// The batch this certificate is for.
    pub batch_digest: Hash256,
    /// The batch author (empty when the batch is not known locally).
    pub author: Vec<u8>,
    /// Distinct acknowledging validators.
    pub acknowledgements: Vec<Vec<u8>>,
    /// DAG round in which the certificate was started.
    pub round: u64,
}

impl BatchCertificate {
    /// Whether the certificate has at least `required` acknowledgements.
    pub fn is_valid(&self, required: usize) -> (r: bool)
        ensures
            r == (self.acknowledgements@.len() >= required),
    {
        self.acknowledgements.len() >= required
    }
}

// ---------------------------------------------------------------------------
// Workers
// ---------------------------------------------------------------------------

/// What a worker holds.
pub struct WorkerView {
    pub id: u32,
    pub author: Seq<u8>,
    pub pending: Seq<Seq<u8>>,
    pub max_batch_size: usize,
    pub current_parents: Seq<Hash256>,
}

/// Worker: batches incoming transactions.
pub struct Worker {
    id: u32,
    author: Vec<u8>,
    pending: Vec<Vec<u8>>,
    max_batch_size: usize,
    current_parents: Vec<Hash256>,
}

impl View for Worker {
    type V = WorkerView;

    closed spec fn view(&self) -> WorkerView {
        WorkerView {
            id: self.id,
            author: self.author@,
            pending: byte_views(self.pending@),
            max_batch_size: self.max_batch_size,
            current_parents: self.current_parents@,
        }
    }
}

/// Number of transactions the next batch of a worker takes.
pub open spec fn batch_take(w: WorkerView) -> int {
    if w.pending.len() < w.max_batch_size { w.pending.len() as int } else { w.max_batch_size as int }
}

/// The worker after sealing a batch: the batched transactions leave the
/// queue and the parents are consumed.
pub open spec fn after_seal(w: WorkerView) -> WorkerView {
    WorkerView { pending: w.pending.skip(batch_take(w)), current_parents: Seq::empty(), ..w }
}

/// Whether `b` is the batch a worker in state `w` seals.
pub open spec fn is_sealed_batch(b: TransactionBatch, w: WorkerView) -> bool {
    let txs = w.pending.take(batch_take(w));
    &&& b.worker_id == w.id
    &&& b.author@ == w.author
    &&& byte_views(b.transactions@) == txs
    &&& b.parents@ == w.current_parents
    &&& b.digest.0@ == batch_digest(w.id, w.author, txs, w.current_parents)
}

impl Worker {
    /// A worker with an empty queue and no parents.
    pub fn new(id: u32, author: Vec<u8>) -> (w: Self)
        ensures
            w@ == (WorkerView {
                id,
                author: author@,
                pending: Seq::empty(),
                max_batch_size: DEFAULT_MAX_BATCH_SIZE,
                current_parents: Seq::empty(),
            }),
    {
        let w = Worker {
            id,
            author,
            pending: Vec::new(),
            max_batch_size: DEFAULT_MAX_BATCH_SIZE,
            current_parents: Vec::new(),
        };
        assert(w@.pending =~= Seq::<Seq<u8>>::empty());
        w
    }

    /// Queues a transaction.
    pub fn add_transaction(&mut self, tx: Vec<u8>)
        ensures
            final(self)@ == (WorkerView { pending: old(self)@.pending.push(tx@), ..old(self)@ }),
    {
        let ghost before = self.pending@;
        self.pending.push(tx);
        assert(byte_views(self.pending@) =~= byte_views(before).push(tx@));
    }

    /// Number of queued transactions.
    pub fn pending_count(&self) -> (n: usize)
        ensures
            n == self@.pending.len(),
    {
        self.pending.len()
    }

    /// Whether a full batch is queued.
    pub fn should_seal_batch(&self) -> (r: bool)
        ensures
            r == (self@.pending.len() >= self@.max_batch_size),
    {
        self.pending.len() >= self.max_batch_size
    }

    /// Seals up to `max_batch_size` queued transactions into a batch,
    /// stamped with the current time; `None` when the queue is empty.
    pub fn seal_batch(&mut self) -> (r: Option<TransactionBatch>)
        ensures
            old(self)@.pending.len() == 0 ==> r is None && final(self)@ == old(self)@,
            old(self)@.pending.len() > 0 ==> (r matches Some(b) && is_sealed_batch(b, old(self)@) && final(self)@
                == after_seal(old(self)@)),
    {
        let now = unix_millis_now();
        self.seal_batch_at(now)
    }

    /// Seals up to `max_batch_size` queued transactions into a batch
    /// stamped `timestamp`; `None` when the queue is empty.
    pub fn seal_batch_at(&mut self, timestamp: u64) -> (r: Option<TransactionBatch>)
        ensures
            old(self)@.pending.len() == 0 ==> r is None && final(self)@ == old(self)@,
            old(self)@.pending.len() > 0 ==> (r matches Some(b) && is_sealed_batch(b, old(self)@) && b.timestamp
                == timestamp && final(self)@ == after_seal(old(self)@)),
    {
        if self.pending.len() == 0 {
            return None;
        }
        let ghost w = self@;
        let count = if self.pending.len() < self.max_batch_size { self.pending.len() } else { self.max_batch_size };
        let ghost all = self.pending@;
        let mut transactions = self.pending.split_off(count);
        std::mem::swap(&mut transactions, &mut self.pending);
        let mut parents: Vec<Hash256> = Vec::new();
        std::mem::swap(&mut parents, &mut self.current_parents);
        proof {
            assert(byte_views(transactions@) =~= byte_views(all).take(count as int));
            assert(byte_views(self.pending@) =~= byte_views(all).skip(count as int));
            assert(self@.current_parents =~= Seq::<Hash256>::empty());
        }
        let digest = TransactionBatch::compute_digest(
            self.id,
            self.author.as_slice(),
            transactions.as_slice(),
            parents.as_slice(),
        );
        let author = copy_bytes(self.author.as_slice());
        Some(TransactionBatch { digest, worker_id: self.id, author, transactions, parents, timestamp })
    }

    /// Sets the parent digests of the next batch.
    pub fn set_parents(&mut self, parents: Vec<Hash256>)
        ensures
            final(self)@ == (WorkerView { current_parents: parents@, ..old(self)@ }),
    {
        self.current_parents = parents;
    }
}

// ---------------------------------------------------------------------------
// Mempool
// ---------------------------------------------------------------------------

/// A sealed batch awaiting certification, by digest and author.
struct PendingBatch {
    digest: Hash256,
    author: Vec<u8>,
}

/// A certificate as sequences.
pub struct CertView {
    pub digest: Hash256,
    pub author: Seq<u8>,
    pub acks: Seq<Seq<u8>>,
    pub round: u64,
}

/// What a mempool holds.
pub struct MempoolView {
    pub workers: Seq<WorkerView>,
    /// Certificates in progress and complete, one per digest.
    pub certified: Seq<CertView>,
    /// Sealed batches awaiting certification: `(digest, author)`, one per digest.
    pub pending: Seq<(Seq<u8>, Seq<u8>)>,
    pub current_round: u64,
    pub quorum_threshold: usize,
    pub max_pending: usize,
}

/// Mempool: workers and batch certification.
pub struct Mempool {
    workers: Vec<Worker>,
    certified: Vec<BatchCertificate>,
    pending_batches: Vec<PendingBatch>,
    current_round: u64,
    quorum_threshold: usize,
    max_pending: usize,
}

pub open spec fn cert_view(c: BatchCertificate) -> CertView {
    CertView { digest: c.batch_digest, author: c.author@, acks: byte_views(c.acknowledgements@), round: c.round }
}

spec fn worker_views(ws: Seq<Worker>) -> Seq<WorkerView> {
    ws.map_values(|w: Worker| w@)
}

spec fn pending_views(ps: Seq<PendingBatch>) -> Seq<(Seq<u8>, Seq<u8>)> {
    ps.map_values(|p: PendingBatch| (p.digest.0@, p.author@))
}

impl View for Mempool {
    type V = MempoolView;

    closed spec fn view(&self) -> MempoolView {
        MempoolView {
            workers: worker_views(self.workers@),
            certified: self.certified@.map_values(|c: BatchCertificate| cert_view(c)),
            pending: pending_views(self.pending_batches@),
            current_round: self.current_round,
            quorum_threshold: self.quorum_threshold,
            max_pending: self.max_pending,
        }
    }
}

/// Index of the entry with digest `d` in a list of digests-with-author
/// (-1 when absent).
pub open spec fn pending_index(p: Seq<(Seq<u8>, Seq<u8>)>, d: Seq<u8>) -> int {
    if exists|k: int| 0 <= k < p.len() && (#[trigger] p[k]).0 == d {
        choose|k: int| 0 <= k < p.len() && (#[trigger] p[k]).0 == d
    } else {
        -1
    }
}

/// Recording a sealed batch: its author replaces the one of an entry
/// with the same digest, or a new entry is appended.
pub open spec fn record_pending(p: Seq<(Seq<u8>, Seq<u8>)>, d: Seq<u8>, author: Seq<u8>) -> Seq<(Seq<u8>, Seq<u8>)> {
    let k = pending_index(p, d);
    if k >= 0 { p.update(k, (d, author)) } else { p.push((d, author)) }
}

/// Index of the certificate for digest `d` (-1 when absent).
pub open spec fn cert_index(c: Seq<CertView>, d: Hash256) -> int {
    if exists|k: int| 0 <= k < c.len() && (#[trigger] c[k]).digest.0@ == d.0@ {
        choose|k: int| 0 <= k < c.len() && (#[trigger] c[k]).digest.0@ == d.0@
    } else {
        -1
    }
}

/// Digests appear at most once in the pending list and in the
/// certificates.
pub open spec fn mempool_wf(m: MempoolView) -> bool {
    &&& forall|i: int, j: int| 0 <= i < j < m.pending.len() ==> (#[trigger] m.pending[i]).0 != (#[trigger] m.pending[j]).0
    &&& forall|i: int, j: int|
        0 <= i < j < m.certified.len() ==> (#[trigger] m.certified[i]).digest.0@ != (
        #[trigger] m.certified[j]).digest.0@
}

/// Whether a certificate has reached the quorum.
pub open spec fn cert_valid(c: CertView, quorum: usize) -> bool {
    c.acks.len() >= quorum
}

/// Digests of the certificates that reached the quorum, in order.
pub open spec fn valid_digests(c: Seq<CertView>, quorum: usize) -> Seq<Hash256>
    decreases c.len(),
{
    if c.len() == 0 {
        Seq::empty()
    } else {
        let rest = valid_digests(c.drop_last(), quorum);
        if cert_valid(c.last(), quorum) { rest.push(c.last().digest) } else { rest }
    }
}

/// Total number of queued transactions.
pub open spec fn pending_total(ws: Seq<WorkerView>) -> nat
    decreases ws.len(),
{
    if ws.len() == 0 { 0 } else { pending_total(ws.drop_last()) + ws.last().pending.len() }
}

/// Worker `i` of a fresh mempool.
pub open spec fn fresh_worker(i: int, author: Seq<u8>) -> WorkerView {
    WorkerView {
        id: i as u32,
        author,
        pending: Seq::empty(),
        max_batch_size: DEFAULT_MAX_BATCH_SIZE,
        current_parents: Seq::empty(),
    }
}

/// Digest of the batch a worker in state `w` seals.
pub open spec fn sealed_digest(w: WorkerView) -> Seq<u8> {
    batch_digest(w.id, w.author, w.pending.take(batch_take(w)), w.current_parents)
}

/// Sealing every worker in order: a worker with queued transactions
/// seals a batch, which is recorded and returned while fewer than `max`
/// batches are pending, and dropped otherwise. Gives the pending list
/// and the indices of the workers whose batches are returned.
pub open spec fn seal_all(ws: Seq<WorkerView>, p: Seq<(Seq<u8>, Seq<u8>)>, max: usize) -> (
    Seq<(Seq<u8>, Seq<u8>)>,
    Seq<int>,
)
    decreases ws.len(),
{
    if ws.len() == 0 {
        (p, Seq::empty())
    } else {
        let (p1, kept) = seal_all(ws.drop_last(), p, max);
        let w = ws.last();
        if w.pending.len() == 0 {
            (p1, kept)
        } else if p1.len() < max {
            (record_pending(p1, sealed_digest(w), w.author), kept.push(ws.len() - 1))
        } else {
            (p1, kept)
        }
    }
}

/// A worker after a sealing round: sealed when it had queued transactions.
pub open spec fn after_round(w: WorkerView) -> WorkerView {
    if w.pending.len() > 0 { after_seal(w) } else { w }
}

proof fn lemma_pending_total_prefix(ws: Seq<WorkerView>, i: int)
    requires
        0 <= i <= ws.len(),
    ensures
        pending_total(ws.take(i)) <= pending_total(ws),
    decreases ws.len() - i,
{
    if i < ws.len() {
        lemma_pending_total_prefix(ws, i + 1);
        assert(ws.take(i + 1).drop_last() =~= ws.take(i));
    } else {
        assert(ws.take(i) =~= ws);
    }
}

/// The certificates once the one for `d` exists: a missing certificate
/// is started with the author of the pending batch (empty when it is not
/// known locally) in the current round.
pub open spec fn started_certs(m: MempoolView, d: Hash256) -> Seq<CertView> {
    let pi = pending_index(m.pending, d.0@);
    if cert_index(m.certified, d) >= 0 {
        m.certified
    } else {
        m.certified.push(
            CertView {
                digest: d,
                author: if pi >= 0 { m.pending[pi].1 } else { Seq::empty() },
                acks: Seq::empty(),
                round: m.current_round,
            },
        )
    }
}

/// Index of the certificate for `d` once it exists.
pub open spec fn started_index(m: MempoolView, d: Hash256) -> int {
    let k0 = cert_index(m.certified, d);
    if k0 >= 0 { k0 } else { m.certified.len() as int }
}

/// The certificates after an acknowledgement of `d` by `ack` (added
/// unless already present), and the index of the one for `d`.
pub open spec fn acknowledged(m: MempoolView, d: Hash256, ack: Seq<u8>) -> (Seq<CertView>, int) {
    let started = started_certs(m, d);
    let k = started_index(m, d);
    let c = started[k];
    let acks = if c.acks.contains(ack) { c.acks } else { c.acks.push(ack) };
    (started.update(k, CertView { acks, ..c }), k)
}

/// Acknowledging a batch twice by the same validator counts once: the
/// second acknowledgement changes nothing.
pub proof fn lemma_acknowledge_idempotent(m: MempoolView, d: Hash256, ack: Seq<u8>)
    requires
        mempool_wf(m),
    ensures
        ({
            let (certified, k) = acknowledged(m, d, ack);
            let m1 = MempoolView { certified, ..m };
            acknowledged(m1, d, ack) == (certified, k)
        }),
{
    let (certified, k) = acknowledged(m, d, ack);
    let m1 = MempoolView { certified, ..m };
    let started = started_certs(m, d);
    assert(started[k].digest.0@ == d.0@);
    assert(certified[k].digest.0@ == d.0@);
    let k1 = cert_index(certified, d);
    assert(k1 >= 0);
    if k1 != k {
        assert(certified[k1].digest.0@ == d.0@);
        if cert_index(m.certified, d) >= 0 {
            if k1 < k {
                assert(m.certified[k1].digest.0@ != m.certified[k].digest.0@);
            } else {
                assert(m.certified[k].digest.0@ != m.certified[k1].digest.0@);
            }
        } else {
            assert(m.certified[k1].digest.0@ == d.0@);
        }
    }
    assert(started_certs(m1, d) == certified);
    let c = started[k];
    if !c.acks.contains(ack) {
        assert(c.acks.push(ack)[c.acks.len() as int] == ack);
    }
    assert(certified[k].acks.contains(ack));
    assert(acknowledged(m1, d, ack).0 =~= certified);
}

impl Mempool {
    /// A mempool with `num_workers` workers and the given quorum.
    pub fn new(num_workers: u32, author: Vec<u8>, quorum_threshold: usize) -> (m: Self)
        ensures
            mempool_wf(m@),
            m@.workers == Seq::new(num_workers as nat, |i: int| fresh_worker(i, author@)),
            m@.certified.len() == 0,
            m@.pending.len() == 0,
            m@.current_round == 0,
            m@.quorum_threshold == quorum_threshold,
            m@.max_pending == DEFAULT_MAX_PENDING_BATCHES,
    {
        let mut workers: Vec<Worker> = Vec::new();
        let mut i: u32 = 0;
        while i < num_workers
            invariant
                i <= num_workers,
                worker_views(workers@) == Seq::new(i as nat, |k: int| fresh_worker(k, author@)),
            decreases num_workers - i,
        {
            let ghost before = workers@;
            let w = Worker::new(i, copy_bytes(author.as_slice()));
            assert(w@ == fresh_worker(i as int, author@));
            workers.push(w);
            assert(worker_views(workers@) =~= worker_views(before).push(w@));
            assert(worker_views(workers@) =~= Seq::new((i + 1) as nat, |k: int| fresh_worker(k, author@)));
            i = i + 1;
        }
        let m = Mempool {
            workers,
            certified: Vec::new(),
            pending_batches: Vec::new(),
            current_round: 0,
            quorum_threshold,
            max_pending: DEFAULT_MAX_PENDING_BATCHES,
        };
        assert(m@.certified =~= Seq::<CertView>::empty());
        assert(m@.pending =~= Seq::<(Seq<u8>, Seq<u8>)>::empty());
        m
    }

    /// Queues a transaction on worker `p mod w`, where `p` is the number of
    /// pending batches and `w` the number of workers; nothing happens
    /// without workers.
    pub fn submit_transaction(&mut self, tx: Vec<u8>)
        ensures
            old(self)@.workers.len() == 0 ==> final(self)@ == old(self)@,
            old(self)@.workers.len() > 0 ==> ({
                let k = old(self)@.pending.len() % old(self)@.workers.len();
                final(self)@ == (MempoolView {
                    workers: old(self)@.workers.update(
                        k as int,
                        WorkerView { pending: old(self)@.workers[k as int].pending.push(tx@), ..old(self)@.workers[k as int] },
                    ),
                    ..old(self)@
                })
            }),
    {
        if self.workers.len() == 0 {
            return;
        }
        let k = self.pending_batches.len() % self.workers.len();
        let ghost before = self.workers@;
        self.workers[k].add_transaction(tx);
        proof {
            assert(worker_views(self.workers@) =~= worker_views(before).update(
                k as int,
                WorkerView { pending: before[k as int]@.pending.push(tx@), ..before[k as int]@ },
            ));
        }
    }

    fn find_pending(&self, d: &Hash256) -> (r: Option<usize>)
        requires
            mempool_wf(self@),
        ensures
            match r {
                Some(k) => k < self@.pending.len() && pending_index(self@.pending, d.0@) == k,
                None => pending_index(self@.pending, d.0@) == -1,
            },
    {
        let ghost p = self@.pending;
        let mut i: usize = 0;
        while i < self.pending_batches.len()
            invariant
                p == self@.pending,
                p.len() == self.pending_batches@.len(),
                mempool_wf(self@),
                i <= p.len(),
                forall|j: int| 0 <= j < i ==> (#[trigger] p[j]).0 != d.0@,
            decreases p.len() - i,
        {
            assert(p[i as int].0 == self.pending_batches@[i as int].digest.0@);
            if hash256_eq(&self.pending_batches[i].digest, d) {
                proof {
                    assert(p[i as int].0 == d.0@);
                    let k = pending_index(p, d.0@);
                    if k != i {
                        if k < i {
                            assert(p[k].0 != p[i as int].0);
                        } else {
                            assert(p[i as int].0 != p[k].0);
                        }
                    }
                }
                return Some(i);
            }
            i = i + 1;
        }
        None
    }

    /// Records a sealed batch among the pending ones.
    fn record(&mut self, digest: Hash256, author: Vec<u8>)
        requires
            mempool_wf(old(self)@),
        ensures
            mempool_wf(final(self)@),
            final(self)@ == (MempoolView { pending: record_pending(old(self)@.pending, digest.0@, author@), ..old(self)@ }),
    {
        let ghost p = self@.pending;
        match self.find_pending(&digest) {
            Some(k) => {
                self.pending_batches[k].author = author;
                proof {
                    let n = self@.pending;
                    assert(n =~= p.update(k as int, (digest.0@, author@)));
                    assert forall|i: int, j: int| 0 <= i < j < n.len() implies (#[trigger] n[i]).0 != (
                    #[trigger] n[j]).0 by {
                        assert(n[i].0 == p[i].0 && n[j].0 == p[j].0);
                        assert(p[i].0 != p[j].0);
                    }
                    assert(self@.certified == old(self)@.certified);
                }
            },
            None => {
                self.pending_batches.push(PendingBatch { digest, author });
                proof {
                    let n = self@.pending;
                    assert(n =~= p.push((digest.0@, author@)));
                    assert forall|i: int, j: int| 0 <= i < j < n.len() implies (#[trigger] n[i]).0 != (
                    #[trigger] n[j]).0 by {
                        if j == p.len() {
                            assert(p[i].0 != digest.0@);
                        } else {
                            assert(p[i].0 != p[j].0);
                        }
                    }
                    assert(self@.certified == old(self)@.certified);
                }
            },
        }
    }

    fn find_cert(&self, d: &Hash256) -> (r: Option<usize>)
        requires
            mempool_wf(self@),
        ensures
            match r {
                Some(k) => k < self@.certified.len() && cert_index(self@.certified, *d) == k,
                None => cert_index(self@.certified, *d) == -1,
            },
    {
        let ghost c = self@.certified;
        let mut i: usize = 0;
        while i < self.certified.len()
            invariant
                c == self@.certified,
                c.len() == self.certified@.len(),
                mempool_wf(self@),
                i <= c.len(),
                forall|j: int| 0 <= j < i ==> (#[trigger] c[j]).digest.0@ != d.0@,
            decreases c.len() - i,
        {
            assert(c[i as int].digest == self.certified@[i as int].batch_digest);
            if hash256_eq(&self.certified[i].batch_digest, d) {
                proof {
                    let k = cert_index(c, *d);
                    if k != i {
                        if k < i {
                            assert(c[k].digest.0@ != c[i as int].digest.0@);
                        } else {
                            assert(c[i as int].digest.0@ != c[k].digest.0@);
                        }
                    }
                }
                return Some(i);
            }
            i = i + 1;
        }
        None
    }

    /// Records that `acknowledger` received the batch `batch_digest`
    /// (each validator counts once); returns the certificate when it has
    /// reached the quorum.
    pub fn acknowledge_batch(&mut self, batch_digest: &Hash256, acknowledger: Vec<u8>) -> (r: Option<
        BatchCertificate,
    >)
        requires
            mempool_wf(old(self)@),
        ensures
            mempool_wf(final(self)@),
            ({
                let (certified, k) = acknowledged(old(self)@, *batch_digest, acknowledger@);
                &&& final(self)@ == (MempoolView { certified, ..old(self)@ })
                &&& r is Some <==> cert_valid(certified[k], old(self)@.quorum_threshold)
                &&& r matches Some(c) ==> cert_view(c) == certified[k]
            }),
    {
        let ghost old_m = self@;
        let k = match self.find_cert(batch_digest) {
            Some(k) => k,
            None => {
                let author = match self.find_pending(batch_digest) {
                    Some(p) => {
                        assert(self@.pending[p as int].1 == self.pending_batches@[p as int].author@);
                        copy_bytes(self.pending_batches[p].author.as_slice())
                    },
                    None => {
                        let v: Vec<u8> = Vec::new();
                        assert(v@ =~= Seq::<u8>::empty());
                        v
                    },
                };
                let ghost before = self.certified@;
                let acks: Vec<Vec<u8>> = Vec::new();
                assert(byte_views(acks@) =~= Seq::<Seq<u8>>::empty());
                self.certified.push(
                    BatchCertificate {
                        batch_digest: *batch_digest,
                        author,
                        acknowledgements: acks,
                        round: self.current_round,
                    },
                );
                proof {
                    let c = self@.certified;
                    assert forall|i: int, j: int| 0 <= i < j < c.len() implies (#[trigger] c[i]).digest.0@ != (
                    #[trigger] c[j]).digest.0@ by {
                        if j == old_m.certified.len() {
                            assert(old_m.certified[i].digest.0@ != batch_digest.0@);
                        } else {
                            assert(old_m.certified[i].digest.0@ != old_m.certified[j].digest.0@);
                        }
                    }
                }
                self.certified.len() - 1
            },
        };
        let ghost mid = self.certified@;
        let ghost mid_v = self@;
        assert(mempool_wf(mid_v));
        assert(mid_v.certified == started_certs(old_m, *batch_digest));
        assert(k == started_index(old_m, *batch_digest));
        if !contains_bytes(&self.certified[k].acknowledgements, acknowledger.as_slice()) {
            let ghost before_acks = self.certified@[k as int].acknowledgements@;
            self.certified[k].acknowledgements.push(acknowledger);
            assert(byte_views(self.certified@[k as int].acknowledgements@) =~= byte_views(before_acks).push(
                acknowledger@,
            ));
        }
        proof {
            let c = self@.certified;
            assert forall|i: int, j: int| 0 <= i < j < c.len() implies (#[trigger] c[i]).digest.0@ != (
            #[trigger] c[j]).digest.0@ by {
                assert(c[i].digest == mid_v.certified[i].digest && c[j].digest == mid_v.certified[j].digest);
            }
            assert(c =~= acknowledged(old_m, *batch_digest, acknowledger@).0);
        }
        if self.certified[k].acknowledgements.len() >= self.quorum_threshold {
            let c = &self.certified[k];
            Some(
                BatchCertificate {
                    batch_digest: c.batch_digest,
                    author: copy_bytes(c.author.as_slice()),
                    acknowledgements: copy_byte_list(&c.acknowledgements),
                    round: c.round,
                },
            )
        } else {
            None
        }
    }

    /// Digests of the certificates that have reached the quorum.
    pub fn certified_digests(&self) -> (r: Vec<Hash256>)
        ensures
            r@ == valid_digests(self@.certified, self@.quorum_threshold),
    {
        let ghost c = self@.certified;
        let mut out: Vec<Hash256> = Vec::new();
        let mut i: usize = 0;
        assert(c.take(0) =~= Seq::<CertView>::empty());
        while i < self.certified.len()
            invariant
                c == self@.certified,
                c.len() == self.certified@.len(),
                i <= c.len(),
                out@ == valid_digests(c.take(i as int), self@.quorum_threshold),
            decreases c.len() - i,
        {
            assert(c.take(i + 1).drop_last() =~= c.take(i as int));
            assert(c.take(i + 1).last() == c[i as int]);
            if self.certified[i].acknowledgements.len() >= self.quorum_threshold {
                out.push(self.certified[i].batch_digest);
            }
            i = i + 1;
        }
        assert(c.take(c.len() as int) =~= c);
        out
    }

    /// Moves to the next DAG round: the certified digests become the
    /// parents of every worker's next batch.
    pub fn advance_round(&mut self)
        requires
            old(self)@.current_round < u64::MAX,
        ensures
            final(self)@ == (MempoolView {
                current_round: (old(self)@.current_round + 1) as u64,
                workers: old(self)@.workers.map_values(
                    |w: WorkerView|
                        WorkerView {
                            current_parents: valid_digests(old(self)@.certified, old(self)@.quorum_threshold),
                            ..w
                        },
                ),
                ..old(self)@
            }),
    {
        self.current_round = self.current_round + 1;
        let parents = self.certified_digests();
        let ghost ws = self@.workers;
        let mut i: usize = 0;
        while i < self.workers.len()
            invariant
                ws.len() == self@.workers.len(),
                i <= ws.len(),
                parents@ == valid_digests(self@.certified, self@.quorum_threshold),
                forall|k: int| 0 <= k < i ==> self@.workers[k] == (WorkerView { current_parents: parents@, ..#[trigger] ws[k] }),
                forall|k: int| i <= k < ws.len() ==> self@.workers[k] == #[trigger] ws[k],
                self@.certified == old(self)@.certified,
                self@.pending == old(self)@.pending,
                self@.current_round == old(self)@.current_round + 1,
                self@.quorum_threshold == old(self)@.quorum_threshold,
                self@.max_pending == old(self)@.max_pending,
                ws == old(self)@.workers,
            decreases ws.len() - i,
        {
            let ghost before = self.workers@;
            let mut copy: Vec<Hash256> = Vec::new();
            let mut j: usize = 0;
            while j < parents.len()
                invariant
                    j <= parents@.len(),
                    copy@ == parents@.take(j as int),
                decreases parents@.len() - j,
            {
                copy.push(parents[j]);
                assert(parents@.take(j + 1) =~= parents@.take(j as int).push(parents@[j as int]));
                j = j + 1;
            }
            assert(parents@.take(parents@.len() as int) =~= parents@);
            self.workers[i].set_parents(copy);
            proof {
                assert(worker_views(self.workers@) =~= worker_views(before).update(
                    i as int,
                    self.workers@[i as int]@,
                ));
            }
            i = i + 1;
        }
        proof {
            assert(self@.workers =~= ws.map_values(
                |w: WorkerView| WorkerView { current_parents: parents@, ..w },
            ));
        }
    }

    /// Current DAG round.
    pub fn current_round(&self) -> (r: u64)
        ensures
            r == self@.current_round,
    {
        self.current_round
    }

    /// Number of certificates that have reached the quorum.
    pub fn certified_count(&self) -> (n: usize)
        ensures
            n == valid_digests(self@.certified, self@.quorum_threshold).len(),
    {
        self.certified_digests().len()
    }

    /// Total queued transactions across all workers.
    pub fn total_pending(&self) -> (n: usize)
        requires
            pending_total(self@.workers) <= usize::MAX,
        ensures
            n == pending_total(self@.workers),
    {
        let ghost ws = self@.workers;
        let mut total: usize = 0;
        let mut i: usize = 0;
        assert(ws.take(0) =~= Seq::<WorkerView>::empty());
        while i < self.workers.len()
            invariant
                ws == self@.workers,
                ws.len() == self.workers@.len(),
                i <= ws.len(),
                total == pending_total(ws.take(i as int)),
                pending_total(ws) <= usize::MAX,
            decreases ws.len() - i,
        {
            assert(ws.take(i + 1).drop_last() =~= ws.take(i as int));
            assert(ws.take(i + 1).last() == ws[i as int]);
            proof { lemma_pending_total_prefix(ws, i + 1); }
            total = total + self.workers[i].pending_count();
            i = i + 1;
        }
        assert(ws.take(ws.len() as int) =~= ws);
        total
    }

    /// Seals a batch from every worker with queued transactions; each
    /// batch is recorded as pending and returned while fewer than
    /// `max_pending` batches are pending, and dropped otherwise.
    pub fn seal_batches(&mut self) -> (r: Vec<TransactionBatch>)
        requires
            mempool_wf(old(self)@),
        ensures
            mempool_wf(final(self)@),
            ({
                let (pending, kept) = seal_all(old(self)@.workers, old(self)@.pending, old(self)@.max_pending);
                &&& final(self)@ == (MempoolView {
                    workers: old(self)@.workers.map_values(|w: WorkerView| after_round(w)),
                    pending,
                    ..old(self)@
                })
                &&& r@.len() == kept.len()
                &&& forall|j: int| 0 <= j < r@.len() ==> 0 <= #[trigger] kept[j] < old(self)@.workers.len()
                    && is_sealed_batch(r@[j], old(self)@.workers[kept[j]])
            }),
    {
        let ghost old_m = self@;
        let ghost ws = old_m.workers;
        let mut out: Vec<TransactionBatch> = Vec::new();
        let mut i: usize = 0;
        assert(ws.take(0) =~= Seq::<WorkerView>::empty());
        while i < self.workers.len()
            invariant
                ws == old_m.workers,
                ws.len() == self@.workers.len(),
                i <= ws.len(),
                mempool_wf(self@),
                self@.certified == old_m.certified,
                self@.current_round == old_m.current_round,
                self@.quorum_threshold == old_m.quorum_threshold,
                self@.max_pending == old_m.max_pending,
                forall|k: int| 0 <= k < i ==> self@.workers[k] == after_round(#[trigger] ws[k]),
                forall|k: int| i <= k < ws.len() ==> self@.workers[k] == #[trigger] ws[k],
                self@.pending == seal_all(ws.take(i as int), old_m.pending, old_m.max_pending).0,
                out@.len() == seal_all(ws.take(i as int), old_m.pending, old_m.max_pending).1.len(),
                forall|j: int|
                    0 <= j < out@.len() ==> 0 <= #[trigger] seal_all(ws.take(i as int), old_m.pending, old_m.max_pending).1[j]
                        < i && is_sealed_batch(
                        out@[j],
                        ws[seal_all(ws.take(i as int), old_m.pending, old_m.max_pending).1[j]],
                    ),
            decreases ws.len() - i,
        {
            let ghost prev = seal_all(ws.take(i as int), old_m.pending, old_m.max_pending);
            let ghost before_workers = self.workers@;
            assert(ws.take(i + 1).drop_last() =~= ws.take(i as int));
            assert(ws.take(i + 1).last() == ws[i as int]);
            let sealed = self.workers[i].seal_batch();
            proof {
                assert(worker_views(self.workers@) =~= worker_views(before_workers).update(
                    i as int,
                    self.workers@[i as int]@,
                ));
            }
            match sealed {
                None => {},
                Some(batch) => {
                    if self.pending_batches.len() < self.max_pending {
                        assert(self@.pending == prev.0);
                        self.record(batch.digest, copy_bytes(batch.author.as_slice()));
                        out.push(batch);
                    }
                },
            }
            proof {
                let next = seal_all(ws.take(i + 1), old_m.pending, old_m.max_pending);
                assert forall|j: int| 0 <= j < out@.len() implies 0 <= #[trigger] next.1[j] < i + 1 && is_sealed_batch(
                    out@[j],
                    ws[next.1[j]],
                ) by {
                    if j < prev.1.len() {
                        assert(next.1[j] == prev.1[j]);
                    }
                }
            }
            i = i + 1;
        }
        proof {
            assert(ws.take(ws.len() as int) =~= ws);
            assert(self@.workers =~= ws.map_values(|w: WorkerView| after_round(w)));
        }
        out
    }

    /// Seals a batch from worker `worker_idx` (even below the batch size)
    /// and records it as pending; `None` for an unknown worker or an empty
    /// queue.
    pub fn force_seal(&mut self, worker_idx: usize) -> (r: Option<TransactionBatch>)
        requires
            mempool_wf(old(self)@),
        ensures
            mempool_wf(final(self)@),
            worker_idx >= old(self)@.workers.len() || old(self)@.workers[worker_idx as int].pending.len() == 0 ==> r
                is None && final(self)@ == old(self)@,
            worker_idx < old(self)@.workers.len() && old(self)@.workers[worker_idx as int].pending.len() > 0 ==> (r matches Some(b)
                && is_sealed_batch(b, old(self)@.workers[worker_idx as int]) && final(self)@ == (MempoolView {
                workers: old(self)@.workers.update(worker_idx as int, after_seal(old(self)@.workers[worker_idx as int])),
                pending: record_pending(old(self)@.pending, b.digest.0@, b.author@),
                ..old(self)@
            })),
    {
        if worker_idx >= self.workers.len() {
            return None;
        }
        let ghost before = self.workers@;
        let sealed = self.workers[worker_idx].seal_batch();
        proof {
            assert(worker_views(self.workers@) =~= worker_views(before).update(
                worker_idx as int,
                self.workers@[worker_idx as int]@,
            ));
        }
        match sealed {
            None => {
                proof {
                    assert(worker_views(self.workers@) =~= worker_views(before));
                }
                None
            },
            Some(batch) => {
                assert(self@.pending == old(self)@.pending);
                assert(self@.certified == old(self)@.certified);
                self.record(batch.digest, copy_bytes(batch.author.as_slice()));
                Some(batch)
            },
        }
    }
}

} // verus!
