use vstd::prelude::*;

use crate::Level;
use crate::clock::{Timestamp, iso_stamp};
use crate::file_split::{FileSplitAppender, LogPack};

verus! {

/// What a queued record asks of the stages: carry a log event, drain the
/// deferred buffer, or shut the pipeline down.
#[derive(Clone, Copy, PartialEq, Eq, Structural, Debug)]
pub enum Command {
    CommandRecord,
    CommandFlush,
    CommandExit,
}

/// The mathematical shadow of a record: every text field as a character
/// sequence.
pub ghost struct RecordView {
    pub command: Command,
    pub level: Level,
    pub target: Seq<char>,
    pub args: Seq<char>,
    pub module: Seq<char>,
    pub file: Seq<char>,
    pub line: Option<u32>,
    pub now: Timestamp,
    pub formatted: Seq<char>,
}

/// One log event or control command travelling through the pipeline.
pub struct FastLogRecord {
    pub command: Command,
    pub level: Level,
    pub target: String,
    pub args: String,
    pub module: String,
    pub file: String,
    pub line: Option<u32>,
    pub now: Timestamp,
    pub formatted: String,
}

impl View for FastLogRecord {
    type V = RecordView;

    open spec fn view(&self) -> RecordView {
        RecordView {
            command: self.command,
            level: self.level,
            target: self.target@,
            args: self.args@,
            module: self.module@,
            file: self.file@,
            line: self.line,
            now: self.now,
            formatted: self.formatted@,
        }
    }
}

/// The views of a sequence of records.
pub open spec fn views_of(s: Seq<FastLogRecord>) -> Seq<RecordView> {
    s.map_values(|r: FastLogRecord| r@)
}

impl FastLogRecord {
    /// A fresh log event: `command` is `CommandRecord` and `formatted` is
    /// still empty.
    pub fn new_record(
        level: Level,
        target: String,
        args: String,
        module: String,
        file: String,
        line: Option<u32>,
        now: Timestamp,
    ) -> (r: FastLogRecord)
        ensures
            r@.command == Command::CommandRecord,
            r@.level == level,
            r@.target == target@,
            r@.args == args@,
            r@.module == module@,
            r@.file == file@,
            r@.line == line,
            r@.now == now,
            r@.formatted.len() == 0,
    {
        FastLogRecord {
            command: Command::CommandRecord,
            level,
            target,
            args,
            module,
            file,
            line,
            now,
            formatted: String::new(),
        }
    }

    /// The control record `flush` submits; its text fields carry the
    /// conventional `flush` sentinel.
    pub fn flush_record(now: Timestamp) -> (r: FastLogRecord)
        ensures
            r@.command == Command::CommandFlush,
            r@.level == Level::Info,
            r@.target.len() == 0,
            r@.args == "flush"@,
            r@.module.len() == 0,
            r@.file.len() == 0,
            r@.line is None,
            r@.now == now,
            r@.formatted == "flush"@,
    {
        FastLogRecord {
            command: Command::CommandFlush,
            level: Level::Info,
            target: String::new(),
            args: "flush".to_owned(),
            module: String::new(),
            file: String::new(),
            line: None,
            now,
            formatted: "flush".to_owned(),
        }
    }

    /// The control record `exit` submits; its text fields carry the
    /// conventional `exit` sentinel.
    pub fn exit_record(now: Timestamp) -> (r: FastLogRecord)
        ensures
            r@.command == Command::CommandExit,
            r@.level == Level::Info,
            r@.target.len() == 0,
            r@.args == "exit"@,
            r@.module.len() == 0,
            r@.file.len() == 0,
            r@.line is None,
            r@.now == now,
            r@.formatted == "exit"@,
    {
        FastLogRecord {
            command: Command::CommandExit,
            level: Level::Info,
            target: String::new(),
            args: "exit".to_owned(),
            module: String::new(),
            file: String::new(),
            line: None,
            now,
            formatted: "exit".to_owned(),
        }
    }

    /// A copy whose view is the same.
    pub fn duplicate(&self) -> (r: FastLogRecord)
        ensures
            r@ == self@,
    {
        FastLogRecord {
            command: self.command,
            level: self.level,
            target: self.target.clone(),
            args: self.args.clone(),
            module: self.module.clone(),
            file: self.file.clone(),
            line: self.line,
            now: self.now,
            formatted: self.formatted.clone(),
        }
    }
}

/// The level tag the formatter prints.
pub open spec fn level_chars(l: Level) -> Seq<char> {
    match l {
        Level::Error => seq!['E', 'R', 'R', 'O', 'R'],
        Level::Warn => seq!['W', 'A', 'R', 'N'],
        Level::Info => seq!['I', 'N', 'F', 'O'],
        Level::Debug => seq!['D', 'E', 'B', 'U', 'G'],
        Level::Trace => seq!['T', 'R', 'A', 'C', 'E'],
    }
}

fn level_str(l: Level) -> (r: &'static str)
    ensures
        r@ == level_chars(l),
{
    let s = match l {
        Level::Error => "ERROR",
        Level::Warn => "WARN",
        Level::Info => "INFO",
        Level::Debug => "DEBUG",
        Level::Trace => "TRACE",
    };
    proof {
        reveal_strlit("ERROR");
        reveal_strlit("WARN");
        reveal_strlit("INFO");
        reveal_strlit("DEBUG");
        reveal_strlit("TRACE");
        assert(s@ =~= level_chars(l));
    }
    s
}

/// The one-line rendering the default formatter produces:
/// `<local time ISO-8601> <LEVEL> <module> - <args>` and a newline.
pub open spec fn rendered(r: RecordView) -> Seq<char> {
    iso_stamp(r.now) + seq![' '] + level_chars(r.level) + seq![' '] + r.module + seq![
        ' ',
        '-',
        ' ',
    ] + r.args + seq!['\n']
}

/// The default record formatter.
pub struct FastLogFormatRecord {}

impl FastLogFormatRecord {
    pub fn new() -> (r: FastLogFormatRecord) {
        FastLogFormatRecord {  }
    }

    /// Fills `formatted` with the default rendering; every other field stays.
    pub fn do_format(&self, record: &mut FastLogRecord)
        ensures
            final(record)@ == (RecordView { formatted: rendered(old(record)@), ..old(record)@ }),
    {
        let mut out = String::new();
        crate::clock::push_iso_stamp(&mut out, &record.now);
        out.append(" ");
        out.append(level_str(record.level));
        out.append(" ");
        out.append(record.module.as_str());
        out.append(" - ");
        out.append(record.args.as_str());
        out.append("\n");
        proof {
            reveal_strlit(" ");
            reveal_strlit(" - ");
            reveal_strlit("\n");
            assert(out@ =~= rendered(old(record)@));
        }
        record.formatted = out;
    }
}

/// What the sink stage asks its embedding program to perform on its behalf:
/// all file and console work leaves the pipeline through these values.
pub enum SinkEffect {
    /// Write this text to standard output.
    WriteConsole(String),
    /// Append this text to the plain log file at `path`.
    AppendFile { path: String, data: String },
    /// Append this text to `<dir>temp.log` and flush the handle; afterwards
    /// report the byte count with `FileSplitAppender::record_written`.
    WriteTemp { dir: String, data: String },
    /// Rotation: copy `<dir>temp.log` to `pack.new_log_name`. Only once the
    /// copy succeeds: truncate the live file, call the split appender's
    /// `truncate` so its byte counter restarts, and hand `pack` to the saver
    /// queue. When the copy fails the rotation is abandoned whole — counter
    /// and file both keep their bytes — and the next delivery rotates again.
    Rotate { pack: LogPack },
}

/// Writes each record to standard output.
pub struct ConsoleAppender {}

/// Appends each record to one plain log file.
pub struct FileAppender {
    pub path: String,
}

impl FileAppender {
    pub fn new(path: &str) -> (r: FileAppender)
        ensures
            r.path@ == path@,
    {
        FileAppender { path: path.to_owned() }
    }
}

/// Keeps every delivered record in memory; the test sink.
pub struct MemAppender {
    pub records: Vec<FastLogRecord>,
}

impl MemAppender {
    pub fn new() -> (r: MemAppender)
        ensures
            r.records@.len() == 0,
    {
        MemAppender { records: Vec::new() }
    }
}

/// One sink the pipeline fans out to.
pub enum Appender {
    Console(ConsoleAppender),
    File(FileAppender),
    Split(FileSplitAppender),
    Mem(MemAppender),
}

/// Which deliveries hand an effect back: the console and plain-file sinks
/// ignore control records, the split sink always acts (write or rotate), and
/// the memory sink only records.
pub open spec fn produces_effect(a: Appender, rec: RecordView) -> bool {
    match a {
        Appender::Console(_) => rec.command == Command::CommandRecord,
        Appender::File(_) => rec.command == Command::CommandRecord,
        Appender::Split(_) => true,
        Appender::Mem(_) => false,
    }
}

/// How one delivery changes an appender and which effect it emits.
pub open spec fn delivered(
    a0: Appender,
    a1: Appender,
    rec: RecordView,
    now: Timestamp,
    eff: Option<SinkEffect>,
) -> bool {
    match a0 {
        Appender::Console(_) => a1 == a0 && if rec.command == Command::CommandRecord {
            eff matches Some(SinkEffect::WriteConsole(s)) && s@ == rec.formatted
        } else {
            eff is None
        },
        Appender::File(f) => a1 == a0 && if rec.command == Command::CommandRecord {
            eff matches Some(SinkEffect::AppendFile { path, data }) && path@ == f.path@ && data@
                == rec.formatted
        } else {
            eff is None
        },
        Appender::Mem(m) => (a1 matches Appender::Mem(m1) && views_of(m1.records@) == views_of(
            m.records@,
        ).push(rec)) && eff is None,
        Appender::Split(sp) => a1 == a0 && if sp.rotates_on(rec) {
            eff matches Some(SinkEffect::Rotate { pack }) && pack.dir@ == sp.dir_path@
                && pack.rolling == sp.rolling_type && pack.new_log_name@ == sp.dir_path@
                + crate::file_split::snapshot_name(now)
        } else {
            eff matches Some(SinkEffect::WriteTemp { dir, data }) && dir@ == sp.dir_path@
                && data@ == rec.formatted
        },
    }
}

impl Appender {
    /// Delivers one formatted record to this sink. The split sink hands back
    /// a write or a rotation for the embedding program to perform; after a
    /// write it expects `record_written` with the byte count, and after a
    /// rotation whose copy succeeded, `truncate`.
    pub fn do_log(&mut self, record: &FastLogRecord, now: &Timestamp) -> (r: Option<SinkEffect>)
        ensures
            delivered(*old(self), *final(self), record@, *now, r),
            r is Some <==> produces_effect(*old(self), record@),
    {
        match self {
            Appender::Console(_) => {
                if record.command == Command::CommandRecord {
                    Some(SinkEffect::WriteConsole(record.formatted.clone()))
                } else {
                    None
                }
            },
            Appender::File(f) => {
                if record.command == Command::CommandRecord {
                    Some(
                        SinkEffect::AppendFile {
                            path: f.path.clone(),
                            data: record.formatted.clone(),
                        },
                    )
                } else {
                    None
                }
            },
            Appender::Mem(m) => {
                m.records.push(record.duplicate());
                proof {
                    assert(views_of(m.records@) =~= views_of(old(self)->Mem_0.records@).push(
                        record@,
                    ));
                }
                None
            },
            Appender::Split(sp) => {
                if sp.should_rotate(record) {
                    let pack = sp.send_pack(now);
                    Some(SinkEffect::Rotate { pack })
                } else {
                    Some(
                        SinkEffect::WriteTemp {
                            dir: sp.dir_path.clone(),
                            data: record.formatted.clone(),
                        },
                    )
                }
            },
        }
    }
}

} // verus!
