use fast_log::Level;
use fast_log::appender::{Appender, Command, FastLogFormatRecord, MemAppender, SinkEffect};
use fast_log::clock::Timestamp;
use fast_log::error::LogError;
use fast_log::fast_log::{
    IngestState, Logger, exit, flush, ingest_step, init_custom_log, init_log, sink_step,
};
use fast_log::filter::{Filter, NoFilter};

fn ts(second: u32, micros: u32) -> Timestamp {
    Timestamp { year: 2024, month: 1, day: 2, hour: 3, minute: 4, second, micros }
}

struct RejectAll {}

impl Filter for RejectAll {
    fn filter(&self, _record: &fast_log::appender::FastLogRecord) -> bool {
        true
    }
}

#[test]
fn s1_three_records_in_submission_order() {
    let mut p = init_log::<NoFilter>("t.log", Level::Info, None, false).unwrap();
    let sender = Some(p.sender);
    for (i, a) in ["a", "b", "c"].iter().enumerate() {
        let r = sender
            .as_ref()
            .unwrap()
            .log(
                Level::Info,
                "t".to_string(),
                a.to_string(),
                "m".to_string(),
                "f.rs".to_string(),
                Some(1),
                ts(5, i as u32),
            );
        assert!(matches!(r, Some(Ok(()))));
    }
    assert!(flush(&sender).is_ok());
    assert!(exit(&sender).is_ok());

    // Drive the ingest stage over everything the producers queued.
    let mut forwarded = Vec::new();
    let mut ingest_exited = false;
    while !ingest_exited {
        let rec = p.main_recv.recv().unwrap();
        let (out, done) = ingest_step(&mut p.ingest, rec);
        forwarded.extend(out);
        ingest_exited = done;
    }
    if ingest_exited {
        p.wait_group.done();
    }
    // Three events, the flush record, the exit record, in order.
    assert_eq!(forwarded.len(), 5);
    assert_eq!(forwarded[0].args, "a");
    assert_eq!(forwarded[1].args, "b");
    assert_eq!(forwarded[2].args, "c");
    assert_eq!(forwarded[3].command, Command::CommandFlush);
    assert_eq!(forwarded[4].command, Command::CommandExit);

    // Drive the sink stage; the file appender asks for three appends.
    let now = ts(9, 0);
    let mut appends = Vec::new();
    let mut sink_exited = false;
    for rec in forwarded {
        let (effects, done) = sink_step(&mut p.sink, rec, &now);
        for e in effects {
            match e {
                SinkEffect::AppendFile { path, data } => {
                    assert_eq!(path, "t.log");
                    appends.push(data);
                },
                _ => panic!("unexpected effect"),
            }
        }
        if done {
            sink_exited = true;
            p.wait_group.done();
            break;
        }
    }
    assert!(sink_exited);
    assert!(p.wait_group.is_done());
    assert_eq!(appends.len(), 3);
    assert_eq!(appends[0], "2024-01-02T03:04:05.000000 INFO m - a\n");
    assert_eq!(appends[1], "2024-01-02T03:04:05.000001 INFO m - b\n");
    assert_eq!(appends[2], "2024-01-02T03:04:05.000002 INFO m - c\n");
}

#[test]
fn s3_level_gate() {
    let mut logger = Logger::new();
    logger.set_level(Level::Warn);
    assert!(!logger.enabled(Level::Info));
    assert!(logger.enabled(Level::Warn));
    assert!(logger.enabled(Level::Error));
    assert_eq!(logger.get_level(), Level::Warn);
}

#[test]
fn s4_flush_before_init_is_not_initialized() {
    let r = flush::<NoFilter>(&None);
    assert!(matches!(r, Err(LogError::NotInitialized)));
    let r = exit::<NoFilter>(&None);
    assert!(matches!(r, Err(LogError::NotInitialized)));
}

#[test]
fn s5_empty_appenders_refused() {
    let r = init_custom_log(Vec::new(), Level::Info, NoFilter {}, FastLogFormatRecord::new());
    assert!(matches!(r, Err(LogError::EmptyAppenders)));
}

#[test]
fn s6_two_producers_interleaved() {
    let appenders = vec![Appender::Mem(MemAppender::new())];
    let mut p =
        init_custom_log(appenders, Level::Info, NoFilter {}, FastLogFormatRecord::new()).unwrap();
    let sender = Some(p.sender);
    let per_thread = 10000u32;
    // The two producer streams interleave record by record; each stays in
    // submission order through both stages.
    for i in 0..per_thread {
        for tag in ["p1", "p2"] {
            let r = sender
                .as_ref()
                .unwrap()
                .log(
                    Level::Info,
                    tag.to_string(),
                    format!("{}-{}", tag, i),
                    "m".to_string(),
                    "f.rs".to_string(),
                    None,
                    ts(5, i % 1000000),
                );
            assert!(matches!(r, Some(Ok(()))));
        }
    }
    assert!(flush(&sender).is_ok());
    assert!(exit(&sender).is_ok());

    let mut forwarded = Vec::new();
    loop {
        let rec = p.main_recv.recv().unwrap();
        let (out, done) = ingest_step(&mut p.ingest, rec);
        forwarded.extend(out);
        if done {
            break;
        }
    }
    let now = ts(9, 0);
    for rec in forwarded {
        let (_, done) = sink_step(&mut p.sink, rec, &now);
        if done {
            break;
        }
    }
    match &p.sink.appenders[0] {
        Appender::Mem(m) => {
            let events: Vec<_> =
                m.records.iter().filter(|r| r.command == Command::CommandRecord).collect();
            assert_eq!(events.len(), 2 * per_thread as usize);
            for tag in ["p1", "p2"] {
                let own: Vec<_> = events.iter().filter(|r| r.target == tag).collect();
                assert_eq!(own.len(), per_thread as usize);
                for (i, r) in own.iter().enumerate() {
                    assert_eq!(r.args, format!("{}-{}", tag, i));
                }
            }
        },
        _ => panic!("expected the memory appender"),
    }
}

#[test]
fn p4_filter_veto_drops_events_but_not_controls() {
    let appenders = vec![Appender::Mem(MemAppender::new())];
    let mut p =
        init_custom_log(appenders, Level::Info, RejectAll {}, FastLogFormatRecord::new()).unwrap();
    let sender = Some(p.sender);
    let r = sender
        .as_ref()
        .unwrap()
        .log(
            Level::Info,
            "t".to_string(),
            "dropped".to_string(),
            "m".to_string(),
            "f.rs".to_string(),
            None,
            ts(5, 0),
        );
    assert!(r.is_none());
    assert!(flush(&sender).is_ok());
    assert!(exit(&sender).is_ok());
    let mut forwarded = Vec::new();
    loop {
        let rec = p.main_recv.recv().unwrap();
        let (out, done) = ingest_step(&mut p.ingest, rec);
        forwarded.extend(out);
        if done {
            break;
        }
    }
    let now = ts(9, 0);
    for rec in forwarded {
        let (_, done) = sink_step(&mut p.sink, rec, &now);
        if done {
            break;
        }
    }
    match &p.sink.appenders[0] {
        Appender::Mem(m) => {
            // The control record still reached the appender; no log event did.
            assert_eq!(m.records.len(), 1);
            assert_eq!(m.records[0].command, Command::CommandFlush);
        },
        _ => panic!("expected the memory appender"),
    }
}

#[test]
fn p9_blacklisted_module_is_dropped_before_the_queue() {
    let mut p = init_log::<NoFilter>("t.log", Level::Info, None, false).unwrap();
    let sender = Some(p.sender);
    let r = sender
        .as_ref()
        .unwrap()
        .log(
            Level::Info,
            "t".to_string(),
            "polling".to_string(),
            "may::io::sys::select".to_string(),
            "f.rs".to_string(),
            None,
            ts(5, 0),
        );
    assert!(r.is_none());
    assert!(flush(&sender).is_ok());
    // Only the flush record is in the queue.
    let rec = p.main_recv.recv().unwrap();
    assert_eq!(rec.command, Command::CommandFlush);
    let (out, done) = ingest_step(&mut p.ingest, rec);
    assert!(!done);
    assert_eq!(out.len(), 1);
    assert_eq!(out[0].command, Command::CommandFlush);
}

#[test]
fn p3_no_records_accepted_after_exit() {
    let mut p = init_log::<NoFilter>("t.log", Level::Info, None, false).unwrap();
    let sender = Some(p.sender);
    assert!(exit(&sender).is_ok());
    let rec = p.main_recv.recv().unwrap();
    let mut ingest = IngestState::new();
    let (out, done) = ingest_step(&mut ingest, rec);
    assert!(done);
    assert_eq!(out.len(), 1);
    p.wait_group.done();
    let (effects, done) = sink_step(&mut p.sink, out.into_iter().next().unwrap(), &ts(9, 0));
    assert!(done);
    assert!(effects.is_empty());
    p.wait_group.done();
    assert!(p.wait_group.is_done());
    // Both receivers gone: the producer path reports the failed send.
    drop(p.main_recv);
    let r = flush(&sender);
    assert!(matches!(r, Err(LogError::SendFailed)));
}
