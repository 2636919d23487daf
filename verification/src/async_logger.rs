//! Trace records on their way to a sink: a bounded queue, batches and counters.

use crate::circuit_breaker::bump;
use crate::config::texts;
use crate::trace_record::TraceRecord;
use tokio::sync::mpsc::{error::TrySendError, Receiver, Sender};
use vstd::prelude::*;
use vstd::string::StringExecFns;

verus! {

/// How many records wait for the worker at most.
pub const DEFAULT_QUEUE_CAPACITY: usize = 100_000;

/// How many records make a batch.
pub const DEFAULT_BATCH_SIZE: usize = 500;

/// After how many milliseconds an incomplete batch is flushed.
pub const DEFAULT_FLUSH_INTERVAL_MS: u64 = 100;

/// `tokio::sync::mpsc::Sender`, the near end of a queue.
#[verifier::external_type_specification]
#[verifier::external_body]
#[verifier::reject_recursive_types(T)]
pub struct ExSender<T>(tokio::sync::mpsc::Sender<T>);

/// `tokio::sync::mpsc::Receiver`, the far end of a queue.
#[verifier::external_type_specification]
#[verifier::external_body]
#[verifier::reject_recursive_types(T)]
pub struct ExReceiver<T>(tokio::sync::mpsc::Receiver<T>);

/// The number of records that a queue was made for, by its near end.
pub uninterp spec fn queue_limit(s: tokio::sync::mpsc::Sender<TraceRecord>) -> usize;

/// What became of a record that was put into the queue. One that the queue does not
/// take comes back.
pub enum SendOutcome {
    Sent,
    Full(TraceRecord),
    Closed(TraceRecord),
}

/// `tokio::sync::mpsc::channel`: the two ends of a queue for so many records, which must
/// be at least one and fit the queue's own counter.
#[verifier::external_body]
fn new_queue(capacity: usize) -> (r: (Sender<TraceRecord>, Receiver<TraceRecord>))
    requires
        0 < capacity <= usize::MAX / 8,
    ensures
        queue_limit(r.0) == capacity,
{
    tokio::sync::mpsc::channel(capacity)
}

/// `tokio::sync::mpsc::Sender::try_send`: whether the queue takes the record depends on
/// what its other end does meanwhile; a record that it does not take comes back as it
/// was. What the other end then receives is left unsaid.
#[verifier::external_body]
fn try_send(sender: &Sender<TraceRecord>, record: TraceRecord) -> (r: SendOutcome)
    ensures
        r matches SendOutcome::Full(back) ==> back == record,
        r matches SendOutcome::Closed(back) ==> back == record,
{
    match sender.try_send(record) {
        Ok(()) => SendOutcome::Sent,
        Err(TrySendError::Full(back)) => SendOutcome::Full(back),
        Err(TrySendError::Closed(back)) => SendOutcome::Closed(back),
    }
}

/// The two ends of one queue, as it was made for so many records.
pub closed spec fn are_ends(
    sender: Sender<TraceRecord>,
    receiver: Receiver<TraceRecord>,
    capacity: usize,
) -> bool {
    call_ensures(new_queue, (capacity,), (sender, receiver))
}

/// The record was put into the queue, and that became of it.
pub closed spec fn is_answer(
    sender: Sender<TraceRecord>,
    record: TraceRecord,
    outcome: SendOutcome,
) -> bool {
    call_ensures(try_send, (&sender, record), outcome)
}

/// Records that are kept in memory, by one owner.
#[derive(Debug)]
pub struct MemorySink {
    pub records: Vec<TraceRecord>,
}

impl MemorySink {
    pub fn new() -> (r: Self)
        ensures
            r.records@.len() == 0,
    {
        MemorySink { records: Vec::new() }
    }

    /// Hands out all records and forgets them.
    pub fn drain(&mut self) -> (r: Vec<TraceRecord>)
        ensures
            r@ == old(self).records@,
            final(self).records@.len() == 0,
    {
        let mut taken: Vec<TraceRecord> = Vec::new();
        std::mem::swap(&mut taken, &mut self.records);
        taken
    }

    pub fn len(&self) -> (r: usize)
        ensures
            r == self.records@.len(),
    {
        self.records.len()
    }

    pub fn is_empty(&self) -> (r: bool)
        ensures
            r == (self.records@.len() == 0),
    {
        self.len() == 0
    }

    /// Adds records at the end.
    pub fn extend(&mut self, batch: Vec<TraceRecord>)
        ensures
            final(self).records@ == old(self).records@ + batch@,
    {
        let mut more = batch;
        self.records.append(&mut more);
    }
}

impl Default for MemorySink {
    fn default() -> (r: Self)
        ensures
            r.records@.len() == 0,
    {
        MemorySink::new()
    }
}

/// Where records go.
#[derive(Debug)]
pub enum LogSinkConfig {
    Kafka { brokers: Vec<String>, topic: String },
    Stdout,
    File { path: String },
    Memory(MemorySink),
}

/// Counts of the records that came, that were dropped and that were flushed, and of the
/// flushes.
#[derive(Debug, Clone, Copy)]
pub struct LoggerStats {
    pub total_sent: u64,
    pub total_dropped: u64,
    pub total_flushed: u64,
    pub flush_count: u64,
}

impl Default for LoggerStats {
    fn default() -> (r: Self)
        ensures
            r == LoggerStats::zero(),
    {
        LoggerStats { total_sent: 0, total_dropped: 0, total_flushed: 0, flush_count: 0 }
    }
}

impl LoggerStats {
    pub open spec fn zero() -> LoggerStats {
        LoggerStats { total_sent: 0, total_dropped: 0, total_flushed: 0, flush_count: 0 }
    }

    /// One more record, taken or dropped.
    pub open spec fn counted(self, taken: bool) -> LoggerStats {
        if taken {
            LoggerStats { total_sent: bump(self.total_sent), ..self }
        } else {
            LoggerStats { total_dropped: bump(self.total_dropped), ..self }
        }
    }

    /// One more flush, of so many records.
    pub open spec fn flushed(self, len: nat) -> LoggerStats {
        LoggerStats {
            total_flushed: ((self.total_flushed + len) % 0x1_0000_0000_0000_0000) as u64,
            flush_count: bump(self.flush_count),
            ..self
        }
    }

    /// Counts what became of a record; with it, whether the queue took it.
    pub fn record_outcome(&mut self, outcome: SendOutcome) -> (taken: bool)
        ensures
            taken == (outcome is Sent),
            *final(self) == old(self).counted(outcome is Sent),
    {
        match outcome {
            SendOutcome::Sent => {
                self.total_sent = self.total_sent.wrapping_add(1);
                true
            },
            SendOutcome::Full(_) => {
                self.total_dropped = self.total_dropped.wrapping_add(1);
                false
            },
            SendOutcome::Closed(_) => {
                self.total_dropped = self.total_dropped.wrapping_add(1);
                false
            },
        }
    }

    /// Counts a flush of so many records.
    pub fn record_flush(&mut self, len: usize)
        ensures
            *final(self) == old(self).flushed(len as nat),
    {
        self.total_flushed = self.total_flushed.wrapping_add(len as u64);
        self.flush_count = self.flush_count.wrapping_add(1);
    }
}

/// The near end of the logger: it puts records into the queue and counts them. The records
/// that the queue took are known in their order.
pub struct AsyncBatchLogger {
    pub sender: Sender<TraceRecord>,
    pub stats: LoggerStats,
    pub queued: Ghost<Seq<TraceRecord>>,
}

/// The far end of the logger: it gathers records into batches for a sink.
#[derive(Debug)]
pub struct BatchWorker {
    pub sink: LogSinkConfig,
    pub batch: Vec<TraceRecord>,
    pub batch_size: usize,
    pub flush_interval_ms: u64,
}

/// What happens to a worker.
pub enum WorkerEvent {
    /// The flush interval has passed.
    Tick,
    /// A record came out of the queue.
    Received(TraceRecord),
    /// The queue is closed and empty.
    Closed,
}

impl AsyncBatchLogger {
    /// What every operation keeps: the queue itself took each of the records that count as
    /// queued, and there are as many of them as were counted.
    pub open spec fn wf(self) -> bool {
        &&& forall|i: int|
            0 <= i < self.queued@.len() ==> is_answer(
                self.sender,
                #[trigger] self.queued@[i],
                SendOutcome::Sent,
            )
        &&& self.stats.total_sent == self.queued@.len() % 0x1_0000_0000_0000_0000
    }

    /// A logger with the usual sizes.
    pub fn new(sink: LogSinkConfig) -> (r: (AsyncBatchLogger, Receiver<TraceRecord>, BatchWorker))
        ensures
            r.0.stats == LoggerStats::zero(),
            are_ends(r.0.sender, r.1, DEFAULT_QUEUE_CAPACITY),
            queue_limit(r.0.sender) == DEFAULT_QUEUE_CAPACITY,
            r.0.queued@.len() == 0,
            r.0.wf(),
            r.2.is_idle(sink, DEFAULT_BATCH_SIZE, DEFAULT_FLUSH_INTERVAL_MS),
    {
        AsyncBatchLogger::with_options(
            sink,
            DEFAULT_QUEUE_CAPACITY,
            DEFAULT_BATCH_SIZE,
            DEFAULT_FLUSH_INTERVAL_MS,
        )
    }

    /// A logger: its near end, the queue's far end and the worker for it.
    pub fn with_options(
        sink: LogSinkConfig,
        queue_capacity: usize,
        batch_size: usize,
        flush_interval_ms: u64,
    ) -> (r: (AsyncBatchLogger, Receiver<TraceRecord>, BatchWorker))
        requires
            0 < queue_capacity <= usize::MAX / 8,
        ensures
            r.0.stats == LoggerStats::zero(),
            are_ends(r.0.sender, r.1, queue_capacity),
            queue_limit(r.0.sender) == queue_capacity,
            r.0.queued@.len() == 0,
            r.0.wf(),
            r.2.is_idle(sink, batch_size, flush_interval_ms),
    {
        let (sender, receiver) = new_queue(queue_capacity);
        let logger = AsyncBatchLogger {
            sender,
            stats: LoggerStats::default(),
            queued: Ghost(Seq::empty()),
        };
        let worker = BatchWorker { sink, batch: Vec::new(), batch_size, flush_interval_ms };
        (logger, receiver, worker)
    }

    /// Puts a record into the queue, or drops it where the queue is full or closed.
    pub fn log(&mut self, record: TraceRecord) -> (taken: bool)
        ensures
            exists|outcome: SendOutcome| #[trigger]
                is_answer(old(self).sender, record, outcome) && taken == (outcome is Sent),
            final(self).sender == old(self).sender,
            final(self).queued@ == if taken {
                old(self).queued@.push(record)
            } else {
                old(self).queued@
            },
            old(self).wf() ==> final(self).wf(),
            final(self).stats == old(self).stats.counted(taken),
    {
        let ghost given = record;
        let outcome = try_send(&self.sender, record);
        assert(is_answer(self.sender, given, outcome));
        let taken = self.stats.record_outcome(outcome);
        if taken {
            self.queued = Ghost(self.queued@.push(given));
        }
        taken
    }

    /// The records taken, dropped and flushed, and the flushes.
    pub fn stats(&self) -> (r: (u64, u64, u64, u64))
        ensures
            r == (
                self.stats.total_sent,
                self.stats.total_dropped,
                self.stats.total_flushed,
                self.stats.flush_count,
            ),
    {
        (
            self.stats.total_sent,
            self.stats.total_dropped,
            self.stats.total_flushed,
            self.stats.flush_count,
        )
    }
}

/// The batch as an event leaves it, before any flush.
pub open spec fn gathered(batch: Seq<TraceRecord>, event: WorkerEvent) -> Seq<TraceRecord> {
    match event {
        WorkerEvent::Received(record) => batch.push(record),
        _ => batch,
    }
}

/// The event brings the gathered batch to a flush: a full batch on a record, any batch
/// that is not empty otherwise.
pub open spec fn is_flushed(batch: Seq<TraceRecord>, batch_size: usize, event: WorkerEvent) -> bool {
    match event {
        WorkerEvent::Received(_) => batch.len() + 1 >= batch_size,
        _ => batch.len() > 0,
    }
}

/// The records that are flushed on an event.
pub open spec fn flushed_on(
    batch: Seq<TraceRecord>,
    batch_size: usize,
    event: WorkerEvent,
) -> Seq<TraceRecord> {
    if is_flushed(batch, batch_size, event) {
        gathered(batch, event)
    } else {
        Seq::empty()
    }
}

/// The records that wait after an event.
pub open spec fn waiting_after(
    batch: Seq<TraceRecord>,
    batch_size: usize,
    event: WorkerEvent,
) -> Seq<TraceRecord> {
    if is_flushed(batch, batch_size, event) {
        Seq::empty()
    } else {
        gathered(batch, event)
    }
}

impl BatchWorker {
    /// A worker that holds no records yet.
    pub open spec fn is_idle(
        self,
        sink: LogSinkConfig,
        batch_size: usize,
        flush_interval_ms: u64,
    ) -> bool {
        &&& self.sink == sink
        &&& self.batch@.len() == 0
        &&& self.batch_size == batch_size
        &&& self.flush_interval_ms == flush_interval_ms
    }

    /// Takes an event: with it come the records to flush, where there are any, and
    /// whether the worker goes on.
    pub fn handle(&mut self, event: WorkerEvent) -> (r: (Option<Vec<TraceRecord>>, bool))
        ensures
            match r.0 {
                Some(batch) => is_flushed(old(self).batch@, old(self).batch_size, event) && batch@
                    == gathered(old(self).batch@, event),
                None => !is_flushed(old(self).batch@, old(self).batch_size, event),
            },
            r.1 == !(event is Closed),
            final(self).batch@ == waiting_after(old(self).batch@, old(self).batch_size, event),
            *final(self) == (BatchWorker { batch: final(self).batch, ..*old(self) }),
    {
        match event {
            WorkerEvent::Tick => (self.take_batch(), true),
            WorkerEvent::Received(record) => {
                self.batch.push(record);
                if self.batch.len() >= self.batch_size {
                    (self.take_batch(), true)
                } else {
                    (None, true)
                }
            },
            WorkerEvent::Closed => (self.take_batch(), false),
        }
    }

    /// The whole batch, where it is not empty.
    fn take_batch(&mut self) -> (r: Option<Vec<TraceRecord>>)
        ensures
            match r {
                Some(batch) => old(self).batch@.len() > 0 && batch@ == old(self).batch@,
                None => old(self).batch@.len() == 0,
            },
            final(self).batch@ == Seq::<TraceRecord>::empty(),
            *final(self) == (BatchWorker { batch: final(self).batch, ..*old(self) }),
    {
        let mut taken: Vec<TraceRecord> = Vec::new();
        std::mem::swap(&mut taken, &mut self.batch);
        assert(self.batch@ =~= Seq::<TraceRecord>::empty());
        if taken.len() == 0 {
            None
        } else {
            Some(taken)
        }
    }
}

/// What is left to do for a flush outside of this library.
pub enum FlushOutput {
    Nothing,
    /// Print each text on a line of its own.
    Print(Vec<String>),
    /// Append a text to a file.
    Append { path: String, text: String },
}

/// Records as texts, where they could be rendered at all.
pub open spec fn rendered_texts(rendered: Seq<Option<String>>) -> Seq<Seq<char>>
    decreases rendered.len(),
{
    if rendered.len() == 0 {
        Seq::empty()
    } else {
        let before = rendered_texts(rendered.drop_last());
        match rendered.last() {
            Some(text) => before.push(text@),
            None => before,
        }
    }
}

/// Texts one after the other, each with a line break behind it.
pub open spec fn as_lines(texts: Seq<Seq<char>>) -> Seq<char>
    decreases texts.len(),
{
    if texts.len() == 0 {
        Seq::empty()
    } else {
        as_lines(texts.drop_last()) + texts.last() + seq!['\n']
    }
}

/// What a flush asks for, by its sink.
pub open spec fn is_output(
    out: FlushOutput,
    sink: LogSinkConfig,
    rendered: Seq<Option<String>>,
) -> bool {
    let wanted = rendered_texts(rendered);
    match sink {
        LogSinkConfig::Stdout => out matches FlushOutput::Print(lines) && texts(lines@) == wanted,
        LogSinkConfig::File { path } => if as_lines(wanted).len() == 0 {
            out is Nothing
        } else {
            out matches FlushOutput::Append { path: p, text } && p@ == path@ && text@ == as_lines(
                wanted,
            )
        },
        LogSinkConfig::Kafka { .. } => out is Nothing,
        LogSinkConfig::Memory(_) => out is Nothing,
    }
}

/// The sink after a flush: only one in memory changes, and gets the records at its end.
pub open spec fn is_sink_after(
    after: LogSinkConfig,
    before: LogSinkConfig,
    batch: Seq<TraceRecord>,
) -> bool {
    match before {
        LogSinkConfig::Memory(mem) => after matches LogSinkConfig::Memory(now) && now.records@
            == mem.records@ + batch,
        _ => after == before,
    }
}

fn keep_rendered(rendered: Vec<Option<String>>) -> (r: Vec<String>)
    ensures
        texts(r@) == rendered_texts(rendered@),
{
    let mut lines: Vec<String> = Vec::new();
    let mut i: usize = 0;
    assert(texts(lines@) =~= rendered_texts(rendered@.take(0)));
    while i < rendered.len()
        invariant
            i <= rendered@.len(),
            texts(lines@) == rendered_texts(rendered@.take(i as int)),
        decreases rendered@.len() - i,
    {
        let ghost before = lines@;
        proof {
            let next = rendered@.take(i + 1);
            assert(next.drop_last() =~= rendered@.take(i as int));
            assert(next.last() == rendered@[i as int]);
        }
        if let Some(text) = &rendered[i] {
            lines.push(text.clone());
            assert(texts(lines@) =~= texts(before).push(text@));
        }
        i = i + 1;
    }
    assert(rendered@.take(rendered@.len() as int) =~= rendered@);
    lines
}

fn join_lines(lines: &Vec<String>) -> (r: String)
    ensures
        r@ == as_lines(texts(lines@)),
{
    let mut all = String::new();
    let mut i: usize = 0;
    assert(all@ =~= as_lines(texts(lines@.take(0))));
    while i < lines.len()
        invariant
            i <= lines@.len(),
            all@ == as_lines(texts(lines@.take(i as int))),
        decreases lines@.len() - i,
    {
        proof {
            let next = texts(lines@.take(i + 1));
            assert(next.drop_last() =~= texts(lines@.take(i as int)));
            assert(next.last() == lines@[i as int]@);
            reveal_strlit("\n");
            assert("\n"@ =~= seq!['\n']);
        }
        all.append(lines[i].as_str());
        all.append("\n");
        i = i + 1;
    }
    assert(lines@.take(lines@.len() as int) =~= lines@);
    all
}

/// Flushes a batch: a sink in memory takes the records, and for the others the result
/// says what is to be written. `rendered` holds the records as texts.
pub fn flush_batch(
    sink: &mut LogSinkConfig,
    batch: Vec<TraceRecord>,
    rendered: Vec<Option<String>>,
    stats: &mut LoggerStats,
) -> (out: FlushOutput)
    ensures
        is_output(out, *old(sink), rendered@),
        is_sink_after(*final(sink), *old(sink), batch@),
        *final(stats) == old(stats).flushed(batch@.len()),
{
    stats.record_flush(batch.len());
    match sink {
        LogSinkConfig::Stdout => FlushOutput::Print(keep_rendered(rendered)),
        LogSinkConfig::File { path } => {
            let text = join_lines(&keep_rendered(rendered));
            if text.as_str().is_empty() {
                FlushOutput::Nothing
            } else {
                FlushOutput::Append { path: path.clone(), text }
            }
        },
        LogSinkConfig::Kafka { brokers: _brokers, topic: _topic } => FlushOutput::Nothing,
        LogSinkConfig::Memory(mem) => {
            mem.extend(batch);
            FlushOutput::Nothing
        },
    }
}

/// The records that events bring, in order.
pub open spec fn received(events: Seq<WorkerEvent>) -> Seq<TraceRecord>
    decreases events.len(),
{
    if events.len() == 0 {
        Seq::empty()
    } else {
        gathered(received(events.drop_last()), events.last())
    }
}

/// The records that wait after events, for a worker that begins with none.
pub open spec fn waiting(events: Seq<WorkerEvent>, batch_size: usize) -> Seq<TraceRecord>
    decreases events.len(),
{
    if events.len() == 0 {
        Seq::empty()
    } else {
        waiting_after(waiting(events.drop_last(), batch_size), batch_size, events.last())
    }
}

/// All records that were flushed on events, in order.
pub open spec fn flushed_in_all(events: Seq<WorkerEvent>, batch_size: usize) -> Seq<TraceRecord>
    decreases events.len(),
{
    if events.len() == 0 {
        Seq::empty()
    } else {
        flushed_in_all(events.drop_last(), batch_size) + flushed_on(
            waiting(events.drop_last(), batch_size),
            batch_size,
            events.last(),
        )
    }
}

/// No record is lost, doubled or moved: those flushed and those that wait are those that
/// came, in their order.
pub proof fn every_record_is_flushed_or_waits(events: Seq<WorkerEvent>, batch_size: usize)
    ensures
        flushed_in_all(events, batch_size) + waiting(events, batch_size) == received(events),
    decreases events.len(),
{
    if events.len() > 0 {
        every_record_is_flushed_or_waits(events.drop_last(), batch_size);
    }
    assert(flushed_in_all(events, batch_size) + waiting(events, batch_size) =~= received(events));
}

/// After any event fewer records wait than make a batch, and none once the queue is
/// closed or the interval has passed.
pub proof fn batches_stay_small(events: Seq<WorkerEvent>, batch_size: usize)
    ensures
        waiting(events, batch_size).len() < batch_size || waiting(events, batch_size).len() == 0,
        events.len() > 0 && !(events.last() is Received) ==> waiting(events, batch_size).len() == 0,
    decreases events.len(),
{
    if events.len() > 0 {
        batches_stay_small(events.drop_last(), batch_size);
    }
}

/// The counts after several records were logged, each of them taken or not.
pub open spec fn counted_all(stats: LoggerStats, taken: Seq<bool>) -> LoggerStats
    decreases taken.len(),
{
    if taken.len() == 0 {
        stats
    } else {
        counted_all(stats, taken.drop_last()).counted(taken.last())
    }
}

/// What a queue has taken after several records were logged, each of them taken or not.
pub open spec fn taken_in_all(
    before: Seq<TraceRecord>,
    logged: Seq<(TraceRecord, bool)>,
) -> Seq<TraceRecord>
    decreases logged.len(),
{
    if logged.len() == 0 {
        before
    } else {
        let so_far = taken_in_all(before, logged.drop_last());
        if logged.last().1 {
            so_far.push(logged.last().0)
        } else {
            so_far
        }
    }
}

/// Whether each record was taken.
pub open spec fn flags(logged: Seq<(TraceRecord, bool)>) -> Seq<bool> {
    logged.map_values(|l: (TraceRecord, bool)| l.1)
}

/// Records are queued in the order in which they are logged: those taken before stay in
/// front, a record that is taken comes last, and one that is not leaves the queue alone.
pub proof fn records_are_queued_in_order(
    before: Seq<TraceRecord>,
    logged: Seq<(TraceRecord, bool)>,
    record: TraceRecord,
)
    ensures
        before.is_prefix_of(taken_in_all(before, logged)),
        taken_in_all(before, logged.push((record, true))) == taken_in_all(before, logged).push(
            record,
        ),
        taken_in_all(before, logged.push((record, false))) == taken_in_all(before, logged),
    decreases logged.len(),
{
    assert(logged.push((record, true)).drop_last() =~= logged);
    assert(logged.push((record, false)).drop_last() =~= logged);
    if logged.len() > 0 {
        records_are_queued_in_order(before, logged.drop_last(), record);
    }
}

/// A new logger counts as sent exactly the records that its queue has taken.
pub proof fn sent_records_are_queued(logged: Seq<(TraceRecord, bool)>)
    requires
        logged.len() <= u64::MAX,
    ensures
        counted_all(LoggerStats::zero(), flags(logged)).total_sent == taken_in_all(
            Seq::empty(),
            logged,
        ).len(),
        taken_in_all(Seq::empty(), logged).len() <= logged.len(),
    decreases logged.len(),
{
    if logged.len() > 0 {
        sent_records_are_queued(logged.drop_last());
        assert(flags(logged).drop_last() =~= flags(logged.drop_last()));
    }
}

/// However many records are logged to a new logger, those taken and those dropped make up
/// all of them.
pub proof fn all_records_are_counted(taken: Seq<bool>)
    requires
        taken.len() <= u64::MAX,
    ensures
        counted_all(LoggerStats::zero(), taken).total_sent + counted_all(
            LoggerStats::zero(),
            taken,
        ).total_dropped == taken.len(),
    decreases taken.len(),
{
    if taken.len() > 0 {
        all_records_are_counted(taken.drop_last());
        every_record_is_counted(
            counted_all(LoggerStats::zero(), taken.drop_last()),
            taken.last(),
        );
    }
}

/// Each record that is logged is counted once, as taken or as dropped.
pub proof fn every_record_is_counted(stats: LoggerStats, taken: bool)
    requires
        stats.total_sent < u64::MAX,
        stats.total_dropped < u64::MAX,
    ensures
        stats.counted(taken).total_sent + stats.counted(taken).total_dropped == stats.total_sent
            + stats.total_dropped + 1,
        stats.counted(taken).total_flushed == stats.total_flushed,
        stats.counted(taken).flush_count == stats.flush_count,
{
}

/// A record that completes a batch is flushed with all that waited before it, and a record
/// that does not flushes nothing: it waits behind those before it. So no more records than a
/// batch has are flushed at once, unless a batch has none.
pub proof fn full_batches_are_flushed(
    batch: Seq<TraceRecord>,
    batch_size: usize,
    record: TraceRecord,
)
    ensures
        batch.len() + 1 >= batch_size ==> flushed_on(
            batch,
            batch_size,
            WorkerEvent::Received(record),
        ) == batch.push(record) && waiting_after(
            batch,
            batch_size,
            WorkerEvent::Received(record),
        ).len() == 0,
        batch.len() + 1 < batch_size ==> flushed_on(
            batch,
            batch_size,
            WorkerEvent::Received(record),
        ).len() == 0 && waiting_after(batch, batch_size, WorkerEvent::Received(record))
            == batch.push(record),
        batch.len() < batch_size ==> flushed_on(
            batch,
            batch_size,
            WorkerEvent::Received(record),
        ).len() == batch_size || flushed_on(
            batch,
            batch_size,
            WorkerEvent::Received(record),
        ).len() == 0,
{
}

/// When the interval has passed, or the queue is closed, all that waits is flushed at once.
pub proof fn ticks_flush_everything(batch: Seq<TraceRecord>, batch_size: usize)
    ensures
        flushed_on(batch, batch_size, WorkerEvent::Tick) == batch,
        waiting_after(batch, batch_size, WorkerEvent::Tick).len() == 0,
        flushed_on(batch, batch_size, WorkerEvent::Closed) == batch,
        waiting_after(batch, batch_size, WorkerEvent::Closed).len() == 0,
        is_flushed(batch, batch_size, WorkerEvent::Tick) <==> batch.len() > 0,
        is_flushed(batch, batch_size, WorkerEvent::Closed) <==> batch.len() > 0,
{
    assert(flushed_on(batch, batch_size, WorkerEvent::Tick) =~= batch);
    assert(flushed_on(batch, batch_size, WorkerEvent::Closed) =~= batch);
}

/// Texts are written one after the other: what is written of two lists is what is written of
/// the first and then of the second, and a single text is written as it is, with a line
/// break behind it.
pub proof fn lines_follow_each_other(a: Seq<Seq<char>>, b: Seq<Seq<char>>, text: Seq<char>)
    ensures
        as_lines(a + b) == as_lines(a) + as_lines(b),
        as_lines(seq![text]) == text.push('\n'),
        as_lines(Seq::empty()).len() == 0,
    decreases b.len(),
{
    reveal_with_fuel(as_lines, 2);
    assert(seq![text].drop_last() =~= Seq::<Seq<char>>::empty());
    assert(as_lines(seq![text]) =~= text.push('\n'));
    if b.len() == 0 {
        assert(a + b =~= a);
        assert(as_lines(a + b) =~= as_lines(a) + as_lines(b));
    } else {
        lines_follow_each_other(a, b.drop_last(), text);
        assert((a + b).drop_last() =~= a + b.drop_last());
        assert(as_lines(a + b) =~= as_lines(a) + as_lines(b));
    }
}

/// Every record that could be rendered gives its own text, in order, and one that could not
/// gives none.
pub proof fn rendered_records_are_kept_in_order(
    a: Seq<Option<String>>,
    b: Seq<Option<String>>,
    text: String,
)
    ensures
        rendered_texts(a + b) == rendered_texts(a) + rendered_texts(b),
        rendered_texts(seq![Some(text)]) == seq![text@],
        rendered_texts(seq![None::<String>]).len() == 0,
    decreases b.len(),
{
    reveal_with_fuel(rendered_texts, 2);
    assert(seq![Some(text)].drop_last() =~= Seq::<Option<String>>::empty());
    assert(seq![None::<String>].drop_last() =~= Seq::<Option<String>>::empty());
    assert(rendered_texts(seq![Some(text)]) =~= seq![text@]);
    if b.len() == 0 {
        assert(a + b =~= a);
        assert(rendered_texts(a + b) =~= rendered_texts(a) + rendered_texts(b));
    } else {
        rendered_records_are_kept_in_order(a, b.drop_last(), text);
        assert((a + b).drop_last() =~= a + b.drop_last());
        assert(rendered_texts(a + b) =~= rendered_texts(a) + rendered_texts(b));
    }
}

/// A flush is counted once, with as many records as it has, and counts nothing else.
pub proof fn every_flush_is_counted(stats: LoggerStats, len: nat)
    requires
        stats.total_flushed + len <= u64::MAX,
        stats.flush_count < u64::MAX,
    ensures
        stats.flushed(len).total_flushed == stats.total_flushed + len,
        stats.flushed(len).flush_count == stats.flush_count + 1,
        stats.flushed(len).total_sent == stats.total_sent,
        stats.flushed(len).total_dropped == stats.total_dropped,
{
}

/// A sink in memory keeps every record of every flush behind those before, and no other sink
/// changes.
pub proof fn memory_keeps_all_flushes(
    before: LogSinkConfig,
    between: LogSinkConfig,
    after: LogSinkConfig,
    first: Seq<TraceRecord>,
    second: Seq<TraceRecord>,
)
    requires
        is_sink_after(between, before, first),
        is_sink_after(after, between, second),
    ensures
        before matches LogSinkConfig::Memory(mem) ==> (after matches LogSinkConfig::Memory(now)
            && now.records@ == mem.records@ + first + second),
        !(before is Memory) ==> after == before,
{
}

/// What is printed or written is what could be rendered, and nothing is written for a sink
/// in memory or for one that only counts.
pub proof fn flushes_write_what_was_rendered(
    out: FlushOutput,
    sink: LogSinkConfig,
    rendered: Seq<Option<String>>,
)
    requires
        is_output(out, sink, rendered),
    ensures
        sink is Stdout ==> (out matches FlushOutput::Print(lines) && texts(lines@)
            == rendered_texts(rendered)),
        sink matches LogSinkConfig::File { path: p } ==> (rendered_texts(rendered).len() > 0 ==> (
        out matches FlushOutput::Append { path, text } && path@ == p@ && text@ == as_lines(
            rendered_texts(rendered),
        ))),
        sink is File && rendered_texts(rendered).len() == 0 ==> out is Nothing,
        sink is Kafka || sink is Memory ==> out is Nothing,
{
    let all = rendered_texts(rendered);
    if all.len() > 0 {
        assert(as_lines(all).len() > 0);
    }
}

} // verus!
