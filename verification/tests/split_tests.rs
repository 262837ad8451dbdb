use std::cell::Cell;

use fast_log::Level;
use fast_log::appender::{Appender, SinkEffect};
use fast_log::clock::Timestamp;
use fast_log::consts::LogSize;
use fast_log::error::LogError;
use fast_log::fast_log::{exit, flush, ingest_step, init_split_log, sink_step};
use fast_log::file_split::{
    FileSplitAppender, LogPack, Packer, RollingType, do_pack, should_remove_snapshot,
};
use fast_log::filter::NoFilter;

fn ts(second: u32, micros: u32) -> Timestamp {
    Timestamp { year: 2024, month: 1, day: 2, hour: 3, minute: 4, second, micros }
}

struct FakePacker {
    calls: Cell<u32>,
    outcome: Result<bool, ()>,
}

impl Packer for FakePacker {
    fn pack_name(&self) -> &'static str {
        "zip"
    }

    fn do_pack(&self, _log_file_path: &str) -> Result<bool, LogError> {
        self.calls.set(self.calls.get() + 1);
        match self.outcome {
            Ok(b) => Ok(b),
            Err(()) => Err(LogError::PackerError("no space".to_string())),
        }
    }

    fn retry(&self) -> i32 {
        2
    }
}

#[test]
fn p5_rotation_at_the_threshold() {
    let mut sp = FileSplitAppender::new("d/".to_string(), 10, RollingType::All, 0);
    let rec = fast_log::appender::FastLogRecord::new_record(
        Level::Info,
        "t".to_string(),
        "x".to_string(),
        "m".to_string(),
        "f.rs".to_string(),
        None,
        ts(5, 123456),
    );
    // Below the threshold: no rotation.
    assert!(!sp.should_rotate(&rec));
    sp.record_written(9);
    assert!(!sp.should_rotate(&rec));
    // At the threshold: exactly one rotation; the counter restarts only
    // once the copy has succeeded and `truncate` reports it.
    sp.record_written(1);
    assert!(sp.should_rotate(&rec));
    let pack = sp.send_pack(&ts(5, 123456));
    assert_eq!(sp.temp_bytes, 10);
    sp.truncate();
    assert_eq!(sp.temp_bytes, 0);
    assert!(!sp.should_rotate(&rec));
    assert_eq!(pack.dir, "d/");
    assert_eq!(pack.new_log_name, "d/temp2024_01_02T03_04_05.123456.log");
    assert!(matches!(pack.rolling, RollingType::All));
}

#[test]
fn failed_copy_aborts_the_rotation() {
    let mut sp = FileSplitAppender::new("d/".to_string(), 10, RollingType::All, 0);
    let rec = fast_log::appender::FastLogRecord::new_record(
        Level::Info,
        "t".to_string(),
        "x".to_string(),
        "m".to_string(),
        "f.rs".to_string(),
        None,
        ts(5, 0),
    );
    sp.record_written(10);
    assert!(sp.should_rotate(&rec));
    // The copy failed: `truncate` is never called, the counter still matches
    // the file, and the very next delivery rotates again.
    let _ = sp.send_pack(&ts(5, 0));
    assert_eq!(sp.temp_bytes, 10);
    assert!(sp.should_rotate(&rec));
}

#[test]
fn p5_flush_rotates_even_when_empty() {
    let mut sp = FileSplitAppender::new("d/".to_string(), 10, RollingType::All, 0);
    let fl = fast_log::appender::FastLogRecord::flush_record(ts(6, 0));
    assert!(sp.should_rotate(&fl));
    let pack = sp.send_pack(&ts(6, 0));
    assert_eq!(pack.new_log_name, "d/temp2024_01_02T03_04_06.000000.log");
    sp.truncate();
    assert_eq!(sp.temp_bytes, 0);
}

#[test]
fn p8_packer_outcome_decides_snapshot_removal() {
    let keep = FakePacker { calls: Cell::new(0), outcome: Ok(false) };
    let remove = FakePacker { calls: Cell::new(0), outcome: Ok(true) };
    let pack = LogPack {
        dir: "d/".to_string(),
        rolling: RollingType::All,
        new_log_name: "d/temp2024_01_02T03_04_05.123456.log".to_string(),
    };
    let r = do_pack(&keep, pack);
    assert!(matches!(r, Ok(false)));
    assert!(!should_remove_snapshot(&r));
    assert_eq!(keep.calls.get(), 1);

    let pack = LogPack {
        dir: "d/".to_string(),
        rolling: RollingType::All,
        new_log_name: "d/temp2024_01_02T03_04_05.123456.log".to_string(),
    };
    let r = do_pack(&remove, pack);
    assert!(matches!(r, Ok(true)));
    assert!(should_remove_snapshot(&r));
}

#[test]
fn failed_packs_retry_then_keep_the_snapshot() {
    let failing = FakePacker { calls: Cell::new(0), outcome: Err(()) };
    let pack = LogPack {
        dir: "d/".to_string(),
        rolling: RollingType::All,
        new_log_name: "d/temp2024_01_02T03_04_05.123456.log".to_string(),
    };
    let r = do_pack(&failing, pack);
    // One attempt plus the two retries it asked for; the snapshot stays.
    assert_eq!(failing.calls.get(), 3);
    assert!(matches!(r, Ok(false)));
    assert!(!should_remove_snapshot(&r));
}

#[test]
fn empty_snapshot_path_hands_the_pack_back() {
    let packer = FakePacker { calls: Cell::new(0), outcome: Ok(true) };
    let pack =
        LogPack { dir: "d/".to_string(), rolling: RollingType::All, new_log_name: String::new() };
    let r = do_pack(&packer, pack);
    assert_eq!(packer.calls.get(), 0);
    match r {
        Err(p) => assert_eq!(p.dir, "d/"),
        Ok(_) => panic!("an empty path must hand the pack back"),
    }
}

#[test]
fn s2_split_log_rotates_and_keeps_two_snapshots() {
    let mut p = init_split_log::<NoFilter>(
        "d/",
        LogSize::KB(1),
        RollingType::KeepNum(2),
        Level::Info,
        None,
        false,
        0,
    )
    .unwrap();
    assert!(p.pack_sender.is_some() && p.pack_recv.is_some());
    let sender = Some(p.sender);
    // Submit about 3 KB of rendered text, flushing now and then so the
    // deferred buffer reaches the sink.
    let payload = "x".repeat(100);
    for i in 0..60u32 {
        let r = sender
            .as_ref()
            .unwrap()
            .log(
                Level::Info,
                "t".to_string(),
                payload.clone(),
                "m".to_string(),
                "f.rs".to_string(),
                None,
                ts(5, i),
            );
        assert!(matches!(r, Some(Ok(()))));
        if i % 10 == 9 {
            assert!(flush(&sender).is_ok());
        }
    }
    assert!(exit(&sender).is_ok());

    let mut forwarded = Vec::new();
    loop {
        let rec = p.main_recv.recv().unwrap();
        let (out, done) = ingest_step(&mut p.ingest, rec);
        forwarded.extend(out);
        if done {
            break;
        }
    }

    // The saver side, simulated: the directory listing and the packer.
    let packer = FakePacker { calls: Cell::new(0), outcome: Ok(false) };
    let mut dir_names: Vec<String> = vec!["temp.log".to_string()];
    let mut rotations = 0u32;
    let mut tick = 0u32;
    for rec in forwarded {
        tick += 1;
        let (effects, done) = sink_step(&mut p.sink, rec, &ts(6, tick));
        for e in effects {
            match e {
                SinkEffect::WriteTemp { dir, data } => {
                    assert_eq!(dir, "d/");
                    match &mut p.sink.appenders[0] {
                        Appender::Split(sp) => sp.record_written(data.len() as u64),
                        _ => panic!("expected the split appender"),
                    }
                },
                SinkEffect::Rotate { pack } => {
                    // The copy succeeded: restart the byte counter.
                    match &mut p.sink.appenders[0] {
                        Appender::Split(sp) => sp.truncate(),
                        _ => panic!("expected the split appender"),
                    }
                    rotations += 1;
                    let name = pack.new_log_name.strip_prefix("d/").unwrap().to_string();
                    dir_names.push(name);
                    let removals =
                        pack.rolling.do_rolling(dir_names.clone(), &ts(6, tick));
                    dir_names.retain(|n| !removals.contains(n));
                    let r = do_pack(&packer, pack);
                    assert!(!should_remove_snapshot(&r));
                },
                _ => panic!("unexpected effect"),
            }
        }
        if done {
            break;
        }
    }
    // More than a kilobyte per flush: at least three rotations happened, the
    // packer saw each of them, and retention kept at most two snapshots.
    assert!(rotations >= 3);
    assert_eq!(packer.calls.get(), rotations);
    let snapshots: Vec<_> = dir_names.iter().filter(|n| *n != "temp.log").collect();
    assert_eq!(snapshots.len(), 2);
}
