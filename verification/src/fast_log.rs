use vstd::prelude::*;

use crate::Level;
use crate::appender::{
    Appender, Command, FastLogFormatRecord, FastLogRecord, RecordView, SinkEffect, delivered,
    produces_effect, rendered,
};
use crate::clock::Timestamp;
use crate::consts::LogSize;
use crate::error::LogError;
use crate::file_split::{FileSplitAppender, LogPack, RollingType};
use crate::filter::Filter;
use crate::queue::{channel_send, new_channel, send_result};
use crate::wait::FastLogWaitGroup;

verus! {

/// The process-wide level threshold: a record is enabled when its level
/// ordinal does not exceed the configured one.
pub struct Logger {
    pub level: i32,
}

impl Logger {
    /// The stored ordinal always names one of the five levels.
    pub open spec fn wf(self) -> bool {
        1 <= self.level <= 5
    }

    /// Starts at the most severe level, as the process-wide threshold does
    /// before initialization configures it.
    pub fn new() -> (r: Logger)
        ensures
            r.wf(),
            r.level == 1,
    {
        Logger { level: 1 }
    }

    pub fn set_level(&mut self, level: Level)
        ensures
            final(self).level == level.ordinal(),
            final(self).wf(),
    {
        self.level = level.to_ordinal();
    }

    pub fn get_level(&self) -> (r: Level)
        requires
            self.wf(),
        ensures
            r.ordinal() == self.level,
    {
        if self.level == 1 {
            Level::Error
        } else if self.level == 2 {
            Level::Warn
        } else if self.level == 3 {
            Level::Info
        } else if self.level == 4 {
            Level::Debug
        } else {
            Level::Trace
        }
    }

    /// Whether a record at `level` is enabled under this threshold.
    pub fn enabled(&self, level: Level) -> (b: bool)
        requires
            self.wf(),
        ensures
            b == (level.ordinal() <= self.level),
    {
        level.to_ordinal() <= self.level
    }
}

/// The module path whose records are dropped before they are queued, so the
/// coroutine runtime's own I/O polling can never log through the pipeline it
/// drives.
pub open spec fn blacklisted(module: Seq<char>) -> bool {
    module == "may::io::sys::select"@
}

fn is_blacklisted(module: &String) -> (r: bool)
    ensures
        r == blacklisted(module@),
{
    let b: String = "may::io::sys::select".to_owned();
    module.eq(&b)
}

/// The producer endpoint: the installed filter and the ingest queue.
pub struct LoggerSender<F: Filter> {
    pub filter: F,
    pub inner: may::sync::mpsc::Sender<FastLogRecord>,
}

impl<F: Filter> LoggerSender<F> {
    /// A fresh ingest queue with this filter on its producer side. The
    /// returned sender carries exactly the given filter; that the two
    /// endpoints are connected rests on the queue crate and stays outside
    /// the contract.
    pub fn new(filter: F) -> (r: (LoggerSender<F>, may::sync::mpsc::Receiver<FastLogRecord>))
        ensures
            r.0.filter == filter,
    {
        let (s, recv) = new_channel();
        (LoggerSender { filter, inner: s }, recv)
    }

    /// Queues one record; fails only once the ingest stage is gone.
    pub fn send(&self, data: FastLogRecord) -> (r: Result<(), LogError>)
        ensures
            r is Err ==> r == Result::<(), LogError>::Err(LogError::SendFailed),
    {
        send_result(channel_send(&self.inner, data))
    }

    /// The producer path: consult the filter, drop blacklisted module paths,
    /// build the record and queue it. `None` means the record was dropped
    /// before the queue; otherwise the queueing outcome comes back.
    pub fn log(
        &self,
        level: Level,
        target: String,
        args: String,
        module: String,
        file: String,
        line: Option<u32>,
        now: Timestamp,
    ) -> (r: Option<Result<(), LogError>>)
        ensures
            blacklisted(module@) ==> r is None,
            r matches Some(x) ==> (x is Err ==> x == Result::<(), LogError>::Err(
                LogError::SendFailed,
            )),
    {
        let record = FastLogRecord::new_record(level, target, args, module, file, line, now);
        if self.filter.filter(&record) {
            return None;
        }
        if is_blacklisted(&record.module) {
            return None;
        }
        Some(self.send(record))
    }
}

/// The ingest stage's deferred buffer.
pub struct IngestState {
    pub log_stack: Vec<FastLogRecord>,
}

impl IngestState {
    pub fn new() -> (r: IngestState)
        ensures
            r.log_stack@.len() == 0,
    {
        IngestState { log_stack: Vec::new() }
    }
}

/// One turn of the ingest worker. A log event is buffered; `Flush` forwards
/// the whole buffer in order and then itself; `Exit` forwards itself alone
/// and stops the stage.
pub fn ingest_step(state: &mut IngestState, rec: FastLogRecord) -> (r: (Vec<FastLogRecord>, bool))
    ensures
        rec@.command == Command::CommandExit ==> r.0@ == seq![rec] && r.1
            && final(state).log_stack@ == old(state).log_stack@,
        rec@.command == Command::CommandFlush ==> r.0@ == old(state).log_stack@.push(rec)
            && final(state).log_stack@.len() == 0 && !r.1,
        rec@.command == Command::CommandRecord ==> r.0@.len() == 0 && final(state).log_stack@
            == old(state).log_stack@.push(rec) && !r.1,
{
    match rec.command {
        Command::CommandExit => {
            let mut out: Vec<FastLogRecord> = Vec::new();
            out.push(rec);
            proof {
                assert(out@ =~= seq![rec]);
            }
            (out, true)
        },
        Command::CommandFlush => {
            let mut out: Vec<FastLogRecord> = Vec::new();
            core::mem::swap(&mut out, &mut state.log_stack);
            out.push(rec);
            (out, false)
        },
        Command::CommandRecord => {
            state.log_stack.push(rec);
            (Vec::new(), false)
        },
    }
}

/// The record as the sink formats it before fan-out.
pub open spec fn formatted_view(rec: RecordView) -> RecordView {
    RecordView { formatted: rendered(rec), ..rec }
}

/// The sink stage: the appender list and the formatter.
pub struct SinkState {
    pub appenders: Vec<Appender>,
    pub format: FastLogFormatRecord,
}

/// How one sink turn relates the appenders before and after: each appender
/// received the formatted record once, in order, and the emitted effects are
/// their outputs, in the same order.
pub open spec fn sink_dispatch(
    a0: Seq<Appender>,
    a1: Seq<Appender>,
    effs: Seq<SinkEffect>,
    rec: RecordView,
    now: Timestamp,
) -> bool
    decreases a0.len(),
{
    if a0.len() == 0 {
        a1.len() == 0 && effs.len() == 0
    } else {
        a1.len() > 0 && if produces_effect(a0[0], rec) {
            effs.len() > 0 && delivered(a0[0], a1[0], rec, now, Some(effs[0])) && sink_dispatch(
                a0.drop_first(),
                a1.drop_first(),
                effs.drop_first(),
                rec,
                now,
            )
        } else {
            delivered(a0[0], a1[0], rec, now, None) && sink_dispatch(
                a0.drop_first(),
                a1.drop_first(),
                effs,
                rec,
                now,
            )
        }
    }
}

proof fn lemma_sink_dispatch_snoc(
    a0: Seq<Appender>,
    a1: Seq<Appender>,
    effs: Seq<SinkEffect>,
    rec: RecordView,
    now: Timestamp,
    x: Appender,
    y: Appender,
    e: Option<SinkEffect>,
)
    requires
        sink_dispatch(a0, a1, effs, rec, now),
        delivered(x, y, rec, now, e),
        e is Some <==> produces_effect(x, rec),
    ensures
        sink_dispatch(
            a0.push(x),
            a1.push(y),
            match e {
                Some(ef) => effs.push(ef),
                None => effs,
            },
            rec,
            now,
        ),
    decreases a0.len(),
{
    let na = a0.push(x);
    let nb = a1.push(y);
    let ne = match e {
        Some(ef) => effs.push(ef),
        None => effs,
    };
    if a0.len() == 0 {
        assert(na[0] == x && nb[0] == y);
        assert(na.drop_first() =~= Seq::<Appender>::empty());
        assert(nb.drop_first() =~= Seq::<Appender>::empty());
        match e {
            Some(ef) => {
                assert(ne[0] == ef);
                assert(ne.drop_first() =~= Seq::<SinkEffect>::empty());
                assert(sink_dispatch(na.drop_first(), nb.drop_first(), ne.drop_first(), rec, now));
            },
            None => {
                assert(ne.len() == 0);
                assert(sink_dispatch(na.drop_first(), nb.drop_first(), ne, rec, now));
            },
        }
        assert(sink_dispatch(na, nb, ne, rec, now));
    } else {
        assert(na[0] == a0[0] && nb[0] == a1[0]);
        assert(na.drop_first() =~= a0.drop_first().push(x));
        assert(nb.drop_first() =~= a1.drop_first().push(y));
        if produces_effect(a0[0], rec) {
            lemma_sink_dispatch_snoc(
                a0.drop_first(),
                a1.drop_first(),
                effs.drop_first(),
                rec,
                now,
                x,
                y,
                e,
            );
            assert(ne[0] == effs[0]);
            match e {
                Some(ef) => {
                    assert(ne.drop_first() =~= effs.drop_first().push(ef));
                },
                None => {},
            }
        } else {
            lemma_sink_dispatch_snoc(a0.drop_first(), a1.drop_first(), effs, rec, now, x, y, e);
        }
    }
}

/// One turn of the sink worker. `Exit` stops the stage; any other record is
/// formatted once and handed to every appender in order, and the file and
/// console work they request comes back as effects for the embedding program.
pub fn sink_step(state: &mut SinkState, record: FastLogRecord, now: &Timestamp) -> (r: (
    Vec<SinkEffect>,
    bool,
))
    ensures
        record@.command == Command::CommandExit ==> r.1
            && final(state).appenders@ == old(state).appenders@ && r.0@.len() == 0,
        record@.command != Command::CommandExit ==> !r.1 && sink_dispatch(
            old(state).appenders@,
            final(state).appenders@,
            r.0@,
            formatted_view(record@),
            *now,
        ),
{
    let mut record = record;
    let ghost incoming = record@;
    if record.command == Command::CommandExit {
        return (Vec::new(), true);
    }
    state.format.do_format(&mut record);
    let ghost fr = record@;
    let ghost orig = state.appenders@;
    let mut done: Vec<Appender> = Vec::new();
    let mut effects: Vec<SinkEffect> = Vec::new();
    proof {
        assert(orig.take(0) =~= Seq::<Appender>::empty());
        assert(orig.skip(0) =~= orig);
    }
    while state.appenders.len() > 0
        invariant
            record@ == fr,
            fr == formatted_view(incoming),
            done@.len() <= orig.len(),
            state.appenders@ == orig.skip(done@.len() as int),
            sink_dispatch(orig.take(done@.len() as int), done@, effects@, fr, *now),
        decreases state.appenders@.len(),
    {
        let ghost i = done@.len() as int;
        let mut a = state.appenders.remove(0);
        proof {
            assert(orig.skip(i)[0] == orig[i]);
            assert(orig.skip(i).remove(0) =~= orig.skip(i + 1));
        }
        let e = a.do_log(&record, now);
        match e {
            Some(ef) => {
                proof {
                    lemma_sink_dispatch_snoc(
                        orig.take(i),
                        done@,
                        effects@,
                        fr,
                        *now,
                        orig[i],
                        a,
                        Some(ef),
                    );
                    assert(orig.take(i).push(orig[i]) =~= orig.take(i + 1));
                }
                effects.push(ef);
            },
            None => {
                proof {
                    lemma_sink_dispatch_snoc(
                        orig.take(i),
                        done@,
                        effects@,
                        fr,
                        *now,
                        orig[i],
                        a,
                        None,
                    );
                    assert(orig.take(i).push(orig[i]) =~= orig.take(i + 1));
                }
            },
        }
        done.push(a);
    }
    proof {
        assert(orig.take(done@.len() as int) =~= orig);
    }
    state.appenders = done;
    (effects, false)
}

/// The ingest stage over a whole submission sequence: what it forwards to
/// the sink queue, starting from buffer `buf`, stopping at the first `Exit`.
pub open spec fn ingest_run(input: Seq<RecordView>, buf: Seq<RecordView>) -> Seq<RecordView>
    decreases input.len(),
{
    if input.len() == 0 {
        Seq::empty()
    } else if input[0].command == Command::CommandExit {
        seq![input[0]]
    } else if input[0].command == Command::CommandFlush {
        buf + seq![input[0]] + ingest_run(input.drop_first(), Seq::empty())
    } else {
        ingest_run(input.drop_first(), buf.push(input[0]))
    }
}

/// Whether the ingest stage terminates on this input.
pub open spec fn ingest_exits(input: Seq<RecordView>) -> bool
    decreases input.len(),
{
    if input.len() == 0 {
        false
    } else if input[0].command == Command::CommandExit {
        true
    } else {
        ingest_exits(input.drop_first())
    }
}

/// What the sink stage delivers to every appender, in order, each record
/// formatted once; delivery stops at the first `Exit`.
pub open spec fn sink_deliveries(q2: Seq<RecordView>) -> Seq<RecordView>
    decreases q2.len(),
{
    if q2.len() == 0 {
        Seq::empty()
    } else if q2[0].command == Command::CommandExit {
        Seq::empty()
    } else {
        seq![formatted_view(q2[0])] + sink_deliveries(q2.drop_first())
    }
}

/// Whether the sink stage terminates on this queue content.
pub open spec fn sink_exits(q2: Seq<RecordView>) -> bool
    decreases q2.len(),
{
    if q2.len() == 0 {
        false
    } else if q2[0].command == Command::CommandExit {
        true
    } else {
        sink_exits(q2.drop_first())
    }
}

proof fn lemma_ingest_accumulate(recs: Seq<RecordView>, buf: Seq<RecordView>, tail: Seq<
    RecordView,
>)
    requires
        forall|i: int| 0 <= i < recs.len() ==> recs[i].command == Command::CommandRecord,
    ensures
        ingest_run(recs + tail, buf) == ingest_run(tail, buf + recs),
    decreases recs.len(),
{
    if recs.len() == 0 {
        assert(recs + tail =~= tail);
        assert(buf + recs =~= buf);
    } else {
        let r = recs[0];
        assert((recs + tail)[0] == r);
        assert((recs + tail).drop_first() =~= recs.drop_first() + tail);
        assert(buf.push(r) + recs.drop_first() =~= buf + recs);
        lemma_ingest_accumulate(recs.drop_first(), buf.push(r), tail);
    }
}

/// Flush drains, in order: a batch of log events followed by `Flush` and
/// `Exit` reaches the sink queue as exactly that batch, in submission order,
/// then the flush record, then the exit record.
pub proof fn lemma_flush_drains(recs: Seq<RecordView>, fl: RecordView, ex: RecordView)
    requires
        forall|i: int| 0 <= i < recs.len() ==> recs[i].command == Command::CommandRecord,
        fl.command == Command::CommandFlush,
        ex.command == Command::CommandExit,
    ensures
        ingest_run(recs + seq![fl, ex], Seq::empty()) == recs + seq![fl, ex],
{
    lemma_ingest_accumulate(recs, Seq::empty(), seq![fl, ex]);
    assert(Seq::<RecordView>::empty() + recs =~= recs);
    assert(seq![fl, ex].drop_first() =~= seq![ex]);
    assert(ingest_run(seq![ex], Seq::empty()) == seq![ex]);
    assert(recs + seq![fl] + ingest_run(seq![ex], Seq::empty()) =~= recs + seq![fl, ex]);
}

proof fn lemma_sink_deliveries_prefix(recs: Seq<RecordView>, tail: Seq<RecordView>)
    requires
        forall|i: int| 0 <= i < recs.len() ==> recs[i].command != Command::CommandExit,
    ensures
        sink_deliveries(recs + tail) == recs.map_values(|r: RecordView| formatted_view(r))
            + sink_deliveries(tail),
        sink_exits(recs + tail) == sink_exits(tail),
    decreases recs.len(),
{
    if recs.len() == 0 {
        assert(recs + tail =~= tail);
        assert(recs.map_values(|r: RecordView| formatted_view(r)) + sink_deliveries(tail)
            =~= sink_deliveries(tail));
    } else {
        let r = recs[0];
        assert((recs + tail)[0] == r);
        assert((recs + tail).drop_first() =~= recs.drop_first() + tail);
        lemma_sink_deliveries_prefix(recs.drop_first(), tail);
        assert(recs.drop_first().map_values(|x: RecordView| formatted_view(x))
            =~= recs.map_values(|x: RecordView| formatted_view(x)).drop_first());
        assert(seq![formatted_view(r)] + (recs.map_values(
            |x: RecordView| formatted_view(x),
        ).drop_first() + sink_deliveries(tail)) =~= recs.map_values(
            |x: RecordView| formatted_view(x),
        ) + sink_deliveries(tail));
    }
}

proof fn lemma_ingest_exits_suffix(recs: Seq<RecordView>, ex: RecordView)
    requires
        forall|i: int| 0 <= i < recs.len() ==> recs[i].command != Command::CommandExit,
        ex.command == Command::CommandExit,
    ensures
        ingest_exits(recs + seq![ex]),
    decreases recs.len(),
{
    if recs.len() == 0 {
        assert((recs + seq![ex])[0] == ex);
    } else {
        assert((recs + seq![ex]).drop_first() =~= recs.drop_first() + seq![ex]);
        lemma_ingest_exits_suffix(recs.drop_first(), ex);
    }
}

/// The end-to-end drain and shutdown law. For any batch of log events
/// followed by one `flush` and one `exit`:
/// every event submitted before the flush is delivered to the appenders,
/// formatted, in submission order, with the flush record behind them
/// (ordering within a producer and flush-drains); and both stages terminate
/// (exit terminates).
pub proof fn lemma_pipeline_run(recs: Seq<RecordView>, fl: RecordView, ex: RecordView)
    requires
        forall|i: int| 0 <= i < recs.len() ==> recs[i].command == Command::CommandRecord,
        fl.command == Command::CommandFlush,
        ex.command == Command::CommandExit,
    ensures
        sink_deliveries(ingest_run(recs + seq![fl, ex], Seq::empty())) == (recs + seq![
            fl,
        ]).map_values(|r: RecordView| formatted_view(r)),
        ingest_exits(recs + seq![fl, ex]),
        sink_exits(ingest_run(recs + seq![fl, ex], Seq::empty())),
{
    lemma_flush_drains(recs, fl, ex);
    let pre = recs + seq![fl];
    assert(pre + seq![ex] =~= recs + seq![fl, ex]);
    lemma_sink_deliveries_prefix(pre, seq![ex]);
    assert(pre.map_values(|r: RecordView| formatted_view(r)) + sink_deliveries(seq![ex])
        =~= pre.map_values(|r: RecordView| formatted_view(r)));
    lemma_ingest_exits_suffix(pre, ex);
}

/// Filter veto: when the producer path drops every log event (a filter that
/// rejects everything, or the blacklist), only the control records enter the
/// pipeline — and the flush record still reaches the appenders while no
/// `CommandRecord` delivery happens at all.
pub proof fn lemma_filter_veto(fl: RecordView, ex: RecordView)
    requires
        fl.command == Command::CommandFlush,
        ex.command == Command::CommandExit,
    ensures
        sink_deliveries(ingest_run(seq![fl, ex], Seq::empty())) == seq![formatted_view(fl)],
        forall|r: RecordView|
            sink_deliveries(ingest_run(seq![fl, ex], Seq::empty())).contains(r) ==> r.command
                != Command::CommandRecord,
{
    let recs = Seq::<RecordView>::empty();
    lemma_pipeline_run(recs, fl, ex);
    assert(recs + seq![fl, ex] =~= seq![fl, ex]);
    assert(recs + seq![fl] =~= seq![fl]);
    assert(seq![fl].map_values(|r: RecordView| formatted_view(r)) =~= seq![formatted_view(fl)]);
    assert forall|r: RecordView|
        sink_deliveries(ingest_run(seq![fl, ex], Seq::empty())).contains(r) implies r.command
        != Command::CommandRecord by {
        assert(sink_deliveries(ingest_run(seq![fl, ex], Seq::empty()))[0] == formatted_view(fl));
    }
}

/// A pipeline ready to run: both stage states, the queues between them, and
/// the wait group the embedding program blocks on. The embedding program
/// drives `ingest_step` from `main_recv`, forwards through `back_sender`,
/// and drives `sink_step` from `back_recv`.
pub struct LogPipeline<F: Filter> {
    pub wait_group: FastLogWaitGroup,
    pub logger: Logger,
    pub sender: LoggerSender<F>,
    pub main_recv: may::sync::mpsc::Receiver<FastLogRecord>,
    pub back_sender: may::sync::mpsc::Sender<FastLogRecord>,
    pub back_recv: may::sync::mpsc::Receiver<FastLogRecord>,
    pub ingest: IngestState,
    pub sink: SinkState,
    pub pack_sender: Option<may::sync::mpsc::Sender<LogPack>>,
    pub pack_recv: Option<may::sync::mpsc::Receiver<LogPack>>,
}

/// Builds the two-stage pipeline over the given appenders. With no appender
/// to deliver to, `EmptyAppenders` comes back and nothing is constructed.
pub fn init_custom_log<F: Filter>(
    appenders: Vec<Appender>,
    level: Level,
    filter: F,
    format: FastLogFormatRecord,
) -> (r: Result<LogPipeline<F>, LogError>)
    ensures
        appenders@.len() == 0 <==> r is Err,
        r matches Err(e) ==> e matches LogError::EmptyAppenders,
        r matches Ok(p) ==> p.wait_group.count == 2 && p.logger.wf() && p.logger.level
            == level.ordinal() && p.sender.filter == filter && p.ingest.log_stack@.len() == 0
            && p.sink.appenders@ == appenders@ && p.pack_sender is None && p.pack_recv is None,
{
    if appenders.len() == 0 {
        return Err(LogError::EmptyAppenders);
    }
    let wait_group = FastLogWaitGroup::new();
    let mut logger = Logger::new();
    logger.set_level(level);
    let (sender, main_recv) = LoggerSender::new(filter);
    let (back_sender, back_recv) = new_channel();
    Ok(
        LogPipeline {
            wait_group,
            logger,
            sender,
            main_recv,
            back_sender,
            back_recv,
            ingest: IngestState::new(),
            sink: SinkState { appenders, format },
            pack_sender: None,
            pack_recv: None,
        },
    )
}

/// A pipeline over one plain log file, plus the console when `debug_mode`
/// asks for it.
pub fn init_log<F: Filter>(
    log_file_path: &str,
    level: Level,
    filter: Option<F>,
    debug_mode: bool,
) -> (r: Result<LogPipeline<Option<F>>, LogError>)
    ensures
        r matches Ok(p) ==> {
            &&& p.wait_group.count == 2
            &&& p.logger.wf() && p.logger.level == level.ordinal()
            &&& p.sender.filter == filter
            &&& p.ingest.log_stack@.len() == 0
            &&& p.sink.appenders@.len() == (if debug_mode {
                2int
            } else {
                1int
            })
            &&& (p.sink.appenders@[0] matches Appender::File(f) && f.path@ == log_file_path@)
            &&& debug_mode ==> (p.sink.appenders@[1] matches Appender::Console(_))
        },
        r is Err ==> false,
{
    let mut appenders: Vec<Appender> = Vec::new();
    appenders.push(Appender::File(crate::appender::FileAppender::new(log_file_path)));
    if debug_mode {
        appenders.push(Appender::Console(crate::appender::ConsoleAppender {  }));
    }
    init_custom_log(appenders, level, filter, FastLogFormatRecord::new())
}

/// A pipeline over a size-splitting appender in `log_dir_path`, plus the
/// console when asked for. `initial_temp_bytes` is the current length of the
/// directory's live `temp.log` (0 when it does not exist yet); the embedding
/// program reads it before calling here, runs the saver loop from the pack
/// queue this sets up, and gives `packer` to that loop.
pub fn init_split_log<F: Filter>(
    log_dir_path: &str,
    max_temp_size: LogSize,
    rolling_type: RollingType,
    level: Level,
    filter: Option<F>,
    allow_console_log: bool,
    initial_temp_bytes: u64,
) -> (r: Result<LogPipeline<Option<F>>, LogError>)
    requires
        log_dir_path@.len() > 0,
        log_dir_path@.last() == '/',
        0 < max_temp_size.len_spec() <= u64::MAX,
    ensures
        r matches Ok(p) ==> {
            &&& p.wait_group.count == 2
            &&& p.logger.wf() && p.logger.level == level.ordinal()
            &&& p.sender.filter == filter
            &&& p.ingest.log_stack@.len() == 0
            &&& p.sink.appenders@.len() == (if allow_console_log {
                2int
            } else {
                1int
            })
            &&& (p.sink.appenders@[0] matches Appender::Split(sp) && sp.wf() && sp.dir_path@
                == log_dir_path@ && sp.max_split_bytes == max_temp_size.len_spec()
                && sp.rolling_type == rolling_type && sp.temp_bytes == initial_temp_bytes)
            &&& allow_console_log ==> (p.sink.appenders@[1] matches Appender::Console(_))
            &&& p.pack_sender is Some && p.pack_recv is Some
        },
        r is Err ==> false,
{
    let split = FileSplitAppender::new(
        log_dir_path.to_owned(),
        max_temp_size.get_len(),
        rolling_type,
        initial_temp_bytes,
    );
    let mut appenders: Vec<Appender> = Vec::new();
    appenders.push(Appender::Split(split));
    if allow_console_log {
        appenders.push(Appender::Console(crate::appender::ConsoleAppender {  }));
    }
    let r = init_custom_log(appenders, level, filter, FastLogFormatRecord::new());
    match r {
        Ok(mut p) => {
            let (ps, pr) = new_channel();
            p.pack_sender = Some(ps);
            p.pack_recv = Some(pr);
            Ok(p)
        },
        Err(e) => Err(e),
    }
}

/// Submits the `Flush` control record, which makes the ingest stage drain
/// its buffer towards the appenders. It does not block; the wait group does.
/// Before any `init_*` installed a sender this is `NotInitialized`.
pub fn flush<F: Filter>(sender: &Option<LoggerSender<F>>) -> (r: Result<(), LogError>)
    ensures
        sender is None <==> r == Result::<(), LogError>::Err(LogError::NotInitialized),
        sender is Some ==> r is Ok || r == Result::<(), LogError>::Err(LogError::SendFailed),
{
    match sender {
        None => Err(LogError::NotInitialized),
        Some(s) => s.send(FastLogRecord::flush_record(Timestamp::now())),
    }
}

/// Submits the `Exit` control record, which makes both stages terminate and
/// the wait group reach zero. Same error rules as `flush`.
pub fn exit<F: Filter>(sender: &Option<LoggerSender<F>>) -> (r: Result<(), LogError>)
    ensures
        sender is None <==> r == Result::<(), LogError>::Err(LogError::NotInitialized),
        sender is Some ==> r is Ok || r == Result::<(), LogError>::Err(LogError::SendFailed),
{
    match sender {
        None => Err(LogError::NotInitialized),
        Some(s) => s.send(FastLogRecord::exit_record(Timestamp::now())),
    }
}

} // verus!
