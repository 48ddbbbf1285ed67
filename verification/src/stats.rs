//! Request statistics: the record of one request, its form in the database, and the bounded
//! queue between the request path and the database writer.
use std::collections::VecDeque;
use vstd::prelude::*;
use vstd::string::*;

verus! {

/// The statistics of one request.
#[derive(Debug)]
pub struct RequestRecord {
    /// When the request began, in Unix milliseconds.
    pub ts_ms: i64,
    /// The protocol that it came in by.
    pub surface: String,
    /// The model that the client named.
    pub model: String,
    /// The model that served it.
    pub resolved_model: String,
    /// The kind of conversation (`t2t`, `t2i`, `t2v`, ...).
    pub chat_type: String,
    pub stream: bool,
    pub success: bool,
    pub error: Option<String>,
    pub prompt_tokens: i64,
    pub completion_tokens: i64,
    pub reasoning_tokens: i64,
    pub total_tokens: i64,
    /// Milliseconds to the first token; nothing where there was none.
    pub ttft_ms: Option<i64>,
    /// Milliseconds to the end.
    pub duration_ms: i64,
    /// A truncated prefix of the caller's key, for grouping.
    pub caller: Option<String>,
}

/// A copy of an optional text.
pub fn copy_text(text: &Option<String>) -> (copy: Option<String>)
    ensures
        copy == *text,
{
    match text {
        Some(t) => Some(t.clone()),
        None => None,
    }
}

impl Clone for RequestRecord {
    fn clone(&self) -> (copy: Self)
        ensures
            copy == *self,
    {
        RequestRecord {
            ts_ms: self.ts_ms,
            surface: self.surface.clone(),
            model: self.model.clone(),
            resolved_model: self.resolved_model.clone(),
            chat_type: self.chat_type.clone(),
            stream: self.stream,
            success: self.success,
            error: copy_text(&self.error),
            prompt_tokens: self.prompt_tokens,
            completion_tokens: self.completion_tokens,
            reasoning_tokens: self.reasoning_tokens,
            total_tokens: self.total_tokens,
            ttft_ms: self.ttft_ms,
            duration_ms: self.duration_ms,
            caller: copy_text(&self.caller),
        }
    }
}

/// A row of the table `request_logs`: a record with its flags as numbers.
#[derive(Debug)]
pub struct LogRow {
    pub ts_ms: i64,
    pub surface: String,
    pub model: String,
    pub resolved_model: String,
    pub chat_type: String,
    pub stream: i64,
    pub success: i64,
    pub error: Option<String>,
    pub prompt_tokens: i64,
    pub completion_tokens: i64,
    pub reasoning_tokens: i64,
    pub total_tokens: i64,
    pub ttft_ms: Option<i64>,
    pub duration_ms: i64,
    pub caller: Option<String>,
}

/// A flag as a number.
pub open spec fn flag_number(flag: bool) -> i64 {
    if flag {
        1
    } else {
        0
    }
}

/// The row that a record is written as.
pub open spec fn row_of(rec: RequestRecord) -> LogRow {
    LogRow {
        ts_ms: rec.ts_ms,
        surface: rec.surface,
        model: rec.model,
        resolved_model: rec.resolved_model,
        chat_type: rec.chat_type,
        stream: flag_number(rec.stream),
        success: flag_number(rec.success),
        error: rec.error,
        prompt_tokens: rec.prompt_tokens,
        completion_tokens: rec.completion_tokens,
        reasoning_tokens: rec.reasoning_tokens,
        total_tokens: rec.total_tokens,
        ttft_ms: rec.ttft_ms,
        duration_ms: rec.duration_ms,
        caller: rec.caller,
    }
}

/// The record that a row is read as: any number but 0 is a set flag.
pub open spec fn record_of(row: LogRow) -> RequestRecord {
    RequestRecord {
        ts_ms: row.ts_ms,
        surface: row.surface,
        model: row.model,
        resolved_model: row.resolved_model,
        chat_type: row.chat_type,
        stream: row.stream != 0,
        success: row.success != 0,
        error: row.error,
        prompt_tokens: row.prompt_tokens,
        completion_tokens: row.completion_tokens,
        reasoning_tokens: row.reasoning_tokens,
        total_tokens: row.total_tokens,
        ttft_ms: row.ttft_ms,
        duration_ms: row.duration_ms,
        caller: row.caller,
    }
}

/// A record that was written is read back unchanged.
pub proof fn row_round_trip(rec: RequestRecord)
    ensures
        record_of(row_of(rec)) == rec,
{
}

/// The row to write for a record.
pub fn encode_row(rec: &RequestRecord) -> (row: LogRow)
    ensures
        row == row_of(*rec),
        row.ts_ms == rec.ts_ms,
        row.surface == rec.surface,
        row.model == rec.model,
        row.resolved_model == rec.resolved_model,
        row.chat_type == rec.chat_type,
        row.stream == if rec.stream { 1i64 } else { 0 },
        row.success == if rec.success { 1i64 } else { 0 },
        row.error == rec.error,
        row.prompt_tokens == rec.prompt_tokens,
        row.completion_tokens == rec.completion_tokens,
        row.reasoning_tokens == rec.reasoning_tokens,
        row.total_tokens == rec.total_tokens,
        row.ttft_ms == rec.ttft_ms,
        row.duration_ms == rec.duration_ms,
        row.caller == rec.caller,
{
    let copy = rec.clone();
    LogRow {
        ts_ms: copy.ts_ms,
        surface: copy.surface,
        model: copy.model,
        resolved_model: copy.resolved_model,
        chat_type: copy.chat_type,
        stream: if copy.stream {
            1
        } else {
            0
        },
        success: if copy.success {
            1
        } else {
            0
        },
        error: copy.error,
        prompt_tokens: copy.prompt_tokens,
        completion_tokens: copy.completion_tokens,
        reasoning_tokens: copy.reasoning_tokens,
        total_tokens: copy.total_tokens,
        ttft_ms: copy.ttft_ms,
        duration_ms: copy.duration_ms,
        caller: copy.caller,
    }
}

/// The record that a row holds.
pub fn decode_row(row: LogRow) -> (rec: RequestRecord)
    ensures
        rec == record_of(row),
        rec.ts_ms == row.ts_ms,
        rec.surface == row.surface,
        rec.model == row.model,
        rec.resolved_model == row.resolved_model,
        rec.chat_type == row.chat_type,
        rec.stream == (row.stream != 0),
        rec.success == (row.success != 0),
        rec.error == row.error,
        rec.prompt_tokens == row.prompt_tokens,
        rec.completion_tokens == row.completion_tokens,
        rec.reasoning_tokens == row.reasoning_tokens,
        rec.total_tokens == row.total_tokens,
        rec.ttft_ms == row.ttft_ms,
        rec.duration_ms == row.duration_ms,
        rec.caller == row.caller,
{
    RequestRecord {
        ts_ms: row.ts_ms,
        surface: row.surface,
        model: row.model,
        resolved_model: row.resolved_model,
        chat_type: row.chat_type,
        stream: row.stream != 0,
        success: row.success != 0,
        error: row.error,
        prompt_tokens: row.prompt_tokens,
        completion_tokens: row.completion_tokens,
        reasoning_tokens: row.reasoning_tokens,
        total_tokens: row.total_tokens,
        ttft_ms: row.ttft_ms,
        duration_ms: row.duration_ms,
        caller: row.caller,
    }
}

/// How many records wait at most; a record that finds the queue full is dropped, so that a
/// request never waits for the database.
pub const CHANNEL_CAP: usize = 4096;

/// How many records one transaction writes at most.
pub const BATCH_MAX: usize = 512;

/// The state of the statistics.
#[verifier::ext_equal]
pub struct StatsView {
    /// The waiting records, oldest first.
    pub queue: Seq<RequestRecord>,
    pub db_path: Seq<char>,
    /// How many records found the queue full.
    pub dropped: u64,
    /// Whether the writer still takes records.
    pub connected: bool,
}

/// The records on their way to the database, and the count of those that were dropped.
pub struct Stats {
    queue: VecDeque<RequestRecord>,
    db_path: String,
    dropped: u64,
    connected: bool,
}

impl View for Stats {
    type V = StatsView;

    closed spec fn view(&self) -> StatsView {
        StatsView {
            queue: self.queue@,
            db_path: self.db_path@,
            dropped: self.dropped,
            connected: self.connected,
        }
    }
}

/// The state after a record has come in: waiting where there is room; dropped and counted
/// where the queue is full; gone without a count where no writer is left.
pub open spec fn recorded(s: StatsView, rec: RequestRecord) -> StatsView {
    if !s.connected {
        s
    } else if s.queue.len() < CHANNEL_CAP {
        StatsView { queue: s.queue.push(rec), ..s }
    } else {
        StatsView { dropped: s.dropped.wrapping_add(1), ..s }
    }
}

/// How many records the next batch takes.
pub open spec fn batch_len(s: StatsView) -> int {
    if s.queue.len() < BATCH_MAX {
        s.queue.len() as int
    } else {
        BATCH_MAX as int
    }
}

/// The state after a batch has been taken: the oldest records are gone.
pub open spec fn batch_taken(s: StatsView) -> StatsView {
    StatsView { queue: s.queue.skip(batch_len(s)), ..s }
}

/// What the writer does next.
pub enum WriterStep {
    /// Write these records in one transaction.
    Write(Vec<RequestRecord>),
    /// Wait for a record.
    Wait,
    /// Nothing waits, and nobody is left to record anything.
    Stop,
}

impl Stats {
    /// The queue never holds more than its capacity.
    pub open spec fn wf(self) -> bool {
        self@.queue.len() <= CHANNEL_CAP
    }

    /// Empty statistics for the database at `db_path`.
    pub fn new(db_path: String) -> (stats: Stats)
        ensures
            stats.wf(),
            stats@ == (StatsView {
                queue: Seq::empty(),
                db_path: db_path@,
                dropped: 0,
                connected: true,
            }),
    {
        Stats { queue: VecDeque::new(), db_path, dropped: 0, connected: true }
    }

    /// Takes a record in. Returns the count of dropped records where it is worth a warning: on
    /// the first drop, and then on every hundredth.
    pub fn record(&mut self, rec: RequestRecord) -> (warn: Option<u64>)
        requires
            old(self).wf(),
        ensures
            final(self).wf(),
            final(self)@ == recorded(old(self)@, rec),
            final(self)@.db_path == old(self)@.db_path,
            final(self)@.connected == old(self)@.connected,
            final(self)@.queue == (if old(self)@.connected && old(self)@.queue.len() < 4096 {
                old(self)@.queue.push(rec)
            } else {
                old(self)@.queue
            }),
            old(self)@.connected && old(self)@.queue.len() >= 4096 && old(self)@.dropped < u64::MAX
                ==> final(self)@.dropped == old(self)@.dropped + 1,
            !old(self)@.connected || old(self)@.queue.len() < 4096 ==> final(self)@.dropped == old(self)@.dropped,
            warn == (if final(self)@.dropped != old(self)@.dropped && final(self)@.dropped % 100
                == 1 {
                Some(final(self)@.dropped)
            } else {
                None
            }),
    {
        if !self.connected {
            return None;
        }
        if self.queue.len() < CHANNEL_CAP {
            self.queue.push_back(rec);
            return None;
        }
        let n: u64 = self.dropped.wrapping_add(1);
        self.dropped = n;
        if n % 100 == 1 {
            Some(n)
        } else {
            None
        }
    }

    /// Where the database stands.
    pub fn db_path(&self) -> (path: String)
        ensures
            path@ == self@.db_path,
    {
        self.db_path.clone()
    }

    /// How many records found the queue full.
    pub fn dropped_count(&self) -> (n: u64)
        ensures
            n == self@.dropped,
    {
        self.dropped
    }

    /// Takes the oldest records out, as many as one transaction may hold.
    pub fn next_batch(&mut self) -> (batch: Vec<RequestRecord>)
        requires
            old(self).wf(),
        ensures
            final(self).wf(),
            batch@ == old(self)@.queue.take(batch_len(old(self)@)),
            final(self)@ == batch_taken(old(self)@),
            batch@ + final(self)@.queue == old(self)@.queue,
            batch@.len() <= 512,
            batch@.len() < 512 ==> final(self)@.queue.len() == 0,
            final(self)@.dropped == old(self)@.dropped,
            final(self)@.connected == old(self)@.connected,
            final(self)@.db_path == old(self)@.db_path,
    {
        let mut batch: Vec<RequestRecord> = Vec::new();
        assert(self@.queue.skip(0) =~= self@.queue);
        while batch.len() < BATCH_MAX
            invariant
                batch@.len() <= batch_len(old(self)@),
                batch@ == old(self)@.queue.take(batch@.len() as int),
                self@ == (StatsView {
                    queue: old(self)@.queue.skip(batch@.len() as int),
                    ..old(self)@
                }),
            ensures
                batch@.len() == batch_len(old(self)@),
            decreases BATCH_MAX - batch@.len(),
        {
            let ghost taken = batch@.len() as int;
            match self.queue.pop_front() {
                Some(rec) => {
                    batch.push(rec);
                    assert(self@.queue =~= old(self)@.queue.skip(taken + 1));
                    assert(batch@ =~= old(self)@.queue.take(taken + 1));
                },
                None => {
                    break;
                },
            }
        }
        assert(batch@ + self@.queue =~= old(self)@.queue);
        batch
    }

    /// What the writer does next: write a batch as long as records wait, then stop where
    /// `senders_gone`, else wait.
    pub fn writer_step(&mut self, senders_gone: bool) -> (step: WriterStep)
        requires
            old(self).wf(),
        ensures
            final(self).wf(),
            final(self)@ == batch_taken(old(self)@),
            match step {
                WriterStep::Write(batch) => old(self)@.queue.len() > 0 && batch@
                    == old(self)@.queue.take(batch_len(old(self)@)),
                WriterStep::Wait => old(self)@.queue.len() == 0 && !senders_gone,
                WriterStep::Stop => old(self)@.queue.len() == 0 && senders_gone,
            },
            step matches WriterStep::Write(batch) ==> {
                &&& batch@ + final(self)@.queue == old(self)@.queue
                &&& 1 <= batch@.len() <= 512
                &&& batch@.len() < 512 ==> final(self)@.queue.len() == 0
            },
            final(self)@.dropped == old(self)@.dropped,
            final(self)@.connected == old(self)@.connected,
    {
        if self.queue.len() > 0 {
            return WriterStep::Write(self.next_batch());
        }
        assert(self@ =~= batch_taken(self@));
        if senders_gone {
            WriterStep::Stop
        } else {
            WriterStep::Wait
        }
    }

    /// The writer is gone: what waits is lost, and later records are not taken.
    pub fn disconnect(&mut self)
        ensures
            final(self).wf(),
            final(self)@ == (StatsView { queue: Seq::empty(), connected: false, ..old(self)@ }),
    {
        self.queue.clear();
        self.connected = false;
    }
}

/// Something that happens to the queue while the writer lives.
pub enum QueueOp {
    Record(RequestRecord),
    TakeBatch,
}

/// What has happened to the records so far.
#[verifier::ext_equal]
pub struct History {
    pub stats: StatsView,
    /// The records that found room, in the order in which they came.
    pub accepted: Seq<RequestRecord>,
    /// The records that the writer has taken, in the order in which it took them.
    pub written: Seq<RequestRecord>,
    /// How many records found no room.
    pub refused: nat,
}

/// The history of a sequence of events on fresh statistics.
pub open spec fn history(db_path: Seq<char>, ops: Seq<QueueOp>) -> History
    decreases ops.len(),
{
    if ops.len() == 0 {
        History {
            stats: StatsView { queue: Seq::empty(), db_path, dropped: 0, connected: true },
            accepted: Seq::empty(),
            written: Seq::empty(),
            refused: 0,
        }
    } else {
        let h = history(db_path, ops.drop_last());
        match ops.last() {
            QueueOp::Record(rec) => {
                let stats = recorded(h.stats, rec);
                if h.stats.queue.len() < CHANNEL_CAP {
                    History { stats, accepted: h.accepted.push(rec), ..h }
                } else {
                    History { stats, refused: h.refused + 1, ..h }
                }
            },
            QueueOp::TakeBatch => History {
                stats: batch_taken(h.stats),
                written: h.written + h.stats.queue.take(batch_len(h.stats)),
                ..h
            },
        }
    }
}

/// No record is lost, doubled or moved: what the writer has taken, followed by what waits, is
/// what found room, in order; the queue stays within its capacity; and the dropped count is the
/// number of records that found no room.
pub proof fn no_record_is_lost(db_path: Seq<char>, ops: Seq<QueueOp>)
    requires
        ops.len() <= u64::MAX,
    ensures
        ({
            let h = history(db_path, ops);
            &&& h.written + h.stats.queue == h.accepted
            &&& h.stats.queue.len() <= CHANNEL_CAP
            &&& h.stats.dropped == h.refused
            &&& h.stats.connected
            &&& h.refused <= ops.len()
        }),
    decreases ops.len(),
{
    let h = history(db_path, ops);
    if ops.len() > 0 {
        no_record_is_lost(db_path, ops.drop_last());
        let before = history(db_path, ops.drop_last());
        match ops.last() {
            QueueOp::Record(rec) => {
                assert(h.written + h.stats.queue =~= h.accepted);
            },
            QueueOp::TakeBatch => {
                assert(h.written + h.stats.queue =~= before.written + before.stats.queue);
            },
        }
    } else {
        assert(h.written + h.stats.queue =~= h.accepted);
    }
}

} // verus!
