use gateway::async_logger::{
    flush_batch, AsyncBatchLogger, BatchWorker, FlushOutput, LogSinkConfig, LoggerStats, MemorySink,
    SendOutcome, WorkerEvent,
};
use gateway::trace_record::TraceRecord;
use std::sync::{Arc, Mutex};
use tokio::sync::mpsc::Receiver;

fn record(name: &str) -> TraceRecord {
    TraceRecord::new(name.to_string(), "r".to_string())
}

fn flush(worker: &mut BatchWorker, batch: Vec<TraceRecord>, stats: &mut LoggerStats) -> FlushOutput {
    flush_batch(&mut worker.sink, batch, vec![], stats)
}

/// Takes all records out of the queue.
fn pump(worker: &mut BatchWorker, queue: &mut Receiver<TraceRecord>, stats: &mut LoggerStats) {
    while let Ok(record) = queue.try_recv() {
        if let (Some(batch), true) = worker.handle(WorkerEvent::Received(record)) {
            flush(worker, batch, stats);
        }
    }
}

fn tick(worker: &mut BatchWorker, stats: &mut LoggerStats) {
    if let (Some(batch), true) = worker.handle(WorkerEvent::Tick) {
        flush(worker, batch, stats);
    }
}

fn drain(worker: &mut BatchWorker) -> Vec<TraceRecord> {
    match &mut worker.sink {
        LogSinkConfig::Memory(mem) => mem.drain(),
        _ => panic!("no sink in memory"),
    }
}

#[test]
fn test_memory_sink_basic() {
    let (mut logger, mut queue, mut worker) =
        AsyncBatchLogger::new(LogSinkConfig::Memory(MemorySink::new()));

    for i in 0..10 {
        let mut record = TraceRecord::new(format!("trace-{}", i), format!("req-{}", i));
        record.path = format!("/test/{}", i);
        logger.log(record);
    }

    pump(&mut worker, &mut queue, &mut logger.stats);
    tick(&mut worker, &mut logger.stats);

    let records = drain(&mut worker);
    assert_eq!(records.len(), 10);
    assert_eq!(records[0].trace_id, "trace-0");
    assert_eq!(records[9].path, "/test/9");
}

#[test]
fn test_batched_flush() {
    let (mut logger, mut queue, mut worker) =
        AsyncBatchLogger::with_options(LogSinkConfig::Memory(MemorySink::new()), 1000, 10, 10_000);

    for i in 0..25 {
        let record = TraceRecord::new(format!("t-{}", i), format!("r-{}", i));
        logger.log(record);
    }

    pump(&mut worker, &mut queue, &mut logger.stats);

    let (sent, dropped, flushed, flush_count) = logger.stats();
    assert_eq!(sent, 25);
    assert_eq!(dropped, 0);
    assert_eq!(flushed, 20);
    assert_eq!(flush_count, 2);

    tick(&mut worker, &mut logger.stats);
    let records = drain(&mut worker);
    assert_eq!(records.len(), 25);
    for i in 0..25 {
        assert_eq!(records[i].trace_id, format!("t-{}", i));
    }
    assert_eq!(logger.stats(), (25, 0, 25, 3));
}

#[test]
fn test_queue_overflow_drops_records() {
    let (mut logger, _queue, _worker) =
        AsyncBatchLogger::with_options(LogSinkConfig::Memory(MemorySink::new()), 50, 1000, 60_000);

    for i in 0..100 {
        let record = TraceRecord::new(format!("t-{}", i), format!("r-{}", i));
        let taken = logger.log(record);
        assert_eq!(taken, i < 50);
    }

    let (sent, dropped, _flushed, _) = logger.stats();
    assert_eq!(sent, 50);
    assert!(dropped > 0);
    assert_eq!(dropped, 50);
}

#[test]
fn test_concurrent_logging() {
    let (logger, mut queue, mut worker) =
        AsyncBatchLogger::new(LogSinkConfig::Memory(MemorySink::new()));
    let logger = Arc::new(Mutex::new(logger));
    let runtime = tokio::runtime::Builder::new_multi_thread().worker_threads(4).build().unwrap();

    runtime.block_on(async {
        let mut handles = vec![];
        for task_id in 0..10 {
            let logger = logger.clone();
            handles.push(tokio::spawn(async move {
                for i in 0..100 {
                    let mut record = TraceRecord::new(
                        format!("trace-{}-{}", task_id, i),
                        format!("req-{}-{}", task_id, i),
                    );
                    record.path = format!("/task/{}/item/{}", task_id, i);
                    logger.lock().unwrap().log(record);
                }
            }));
        }
        for h in handles {
            h.await.unwrap();
        }
    });

    let mut logger = logger.lock().unwrap();
    pump(&mut worker, &mut queue, &mut logger.stats);
    tick(&mut worker, &mut logger.stats);

    let (sent, dropped, flushed, _) = logger.stats();
    assert_eq!(sent, 1000);
    assert_eq!(dropped, 0);
    assert_eq!(flushed, 1000);
    assert_eq!(drain(&mut worker).len(), 1000);
}

#[test]
fn records_come_out_in_the_order_in_which_they_were_taken() {
    let (mut logger, mut queue, _worker) =
        AsyncBatchLogger::with_options(LogSinkConfig::Stdout, 2, 10, 10);
    assert!(logger.log(record("a")) && logger.log(record("b")));
    assert!(!logger.log(record("lost")));
    assert_eq!(queue.try_recv().unwrap().trace_id, "a");
    assert!(logger.log(record("c")));
    assert_eq!(queue.try_recv().unwrap().trace_id, "b");
    assert_eq!(queue.try_recv().unwrap().trace_id, "c");
    assert!(queue.try_recv().is_err());
    assert_eq!(logger.stats(), (3, 1, 0, 0));
}

#[test]
fn a_closed_queue_drops_records() {
    let (mut logger, queue, _worker) = AsyncBatchLogger::new(LogSinkConfig::Stdout);
    drop(queue);
    assert!(!logger.log(record("a")));
    assert_eq!(logger.stats(), (0, 1, 0, 0));
}

#[test]
fn outcomes_are_counted() {
    let mut stats = LoggerStats::default();
    assert!(stats.record_outcome(SendOutcome::Sent));
    assert!(!stats.record_outcome(SendOutcome::Full(record("a"))));
    assert!(!stats.record_outcome(SendOutcome::Closed(record("b"))));
    stats.record_flush(7);
    assert_eq!(
        (stats.total_sent, stats.total_dropped, stats.total_flushed, stats.flush_count),
        (1, 2, 7, 1)
    );
    stats.total_flushed = u64::MAX;
    stats.record_flush(2);
    assert_eq!(stats.total_flushed, 1);
}

#[test]
fn a_closed_queue_flushes_what_waits() {
    let (_logger, _queue, mut worker) = AsyncBatchLogger::new(LogSinkConfig::Stdout);
    assert!(matches!(worker.handle(WorkerEvent::Tick), (None, true)));
    assert!(matches!(worker.handle(WorkerEvent::Received(record("a"))), (None, true)));
    let (batch, goes_on) = worker.handle(WorkerEvent::Closed);
    assert!(!goes_on);
    assert_eq!(batch.unwrap()[0].trace_id, "a");
    assert!(matches!(worker.handle(WorkerEvent::Closed), (None, false)));
}

#[test]
fn a_batch_size_of_nothing_flushes_at_once() {
    let (_logger, _queue, mut worker) =
        AsyncBatchLogger::with_options(LogSinkConfig::Stdout, 1, 0, 5);
    let (batch, goes_on) = worker.handle(WorkerEvent::Received(record("a")));
    assert!(goes_on);
    assert_eq!(batch.unwrap().len(), 1);
    assert_eq!(worker.flush_interval_ms, 5);
}

#[test]
fn sinks_say_what_is_to_be_written() {
    let rendered = || vec![Some("{1}".to_string()), None, Some("{2}".to_string())];
    let mut stats = LoggerStats::default();
    match flush_batch(&mut LogSinkConfig::Stdout, vec![record("a")], rendered(), &mut stats) {
        FlushOutput::Print(lines) => assert_eq!(lines, vec!["{1}", "{2}"]),
        _ => panic!("not printed"),
    }
    let mut file = LogSinkConfig::File { path: "/var/log/t".to_string() };
    match flush_batch(&mut file, vec![record("a")], rendered(), &mut stats) {
        FlushOutput::Append { path, text } => {
            assert_eq!(path, "/var/log/t");
            assert_eq!(text, "{1}\n{2}\n");
        }
        _ => panic!("not written"),
    }
    let nothing = flush_batch(&mut file, vec![record("a")], vec![None], &mut stats);
    assert!(matches!(nothing, FlushOutput::Nothing));
    let mut kafka = LogSinkConfig::Kafka { brokers: vec![], topic: "t".to_string() };
    let nothing = flush_batch(&mut kafka, vec![record("a"), record("b")], rendered(), &mut stats);
    assert!(matches!(nothing, FlushOutput::Nothing));
    assert_eq!((stats.total_flushed, stats.flush_count), (5, 4));
}

#[test]
fn a_sink_in_memory_keeps_records() {
    let mut mem = MemorySink::default();
    assert!(mem.is_empty());
    mem.extend(vec![record("a"), record("b")]);
    mem.extend(vec![record("c")]);
    assert_eq!(mem.len(), 3);
    let all = mem.drain();
    assert_eq!(all[2].trace_id, "c");
    assert!(mem.is_empty());
}
