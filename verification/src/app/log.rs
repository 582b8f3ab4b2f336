//! What a session log receives as a session grows: nothing before the first
//! assistant message; then, when the log is created, the title and the whole
//! message backlog; afterwards one record per message. A turn-closing
//! message carries its stop reason and error in its record's envelope.
//! Serializing the records and writing the file is done around this module.
use vstd::prelude::*;
use crate::agent::session::{Message, Role, Session};
use crate::ai::message::{MessageStopReason, copy_opt_string, copy_string, opt_view};
use crate::app::replay::{MsgView, RecordView, lemma_written_history_replays_to_itself, message_records, msg_view, msg_views,
    no_system, replayed, well_paired};
use crate::text::push_str;

verus! {

broadcast use vstd::seq_lib::group_seq_properties;

/// One record line after the log's header.
#[derive(Debug)]
pub enum LogRecord {
    /// A message, with the envelope of a turn-closing message (both `None`
    /// on an ordinary one).
    Message { message: Message, stop_reason: Option<MessageStopReason>, error: Option<String> },
    /// The session's title.
    Title(String),
}

pub ghost enum LogRecordView {
    Message(MsgView, Option<MessageStopReason>, Option<Seq<char>>),
    Title(Seq<char>),
}

pub open spec fn log_record_view(r: LogRecord) -> LogRecordView {
    match r {
        LogRecord::Message { message, stop_reason, error } => LogRecordView::Message(
            msg_view(message),
            stop_reason,
            opt_view(error),
        ),
        LogRecord::Title(t) => LogRecordView::Title(t@),
    }
}

pub open spec fn log_record_views(rs: Seq<LogRecord>) -> Seq<LogRecordView> {
    rs.map_values(|r: LogRecord| log_record_view(r))
}

/// What appending a message does to the log.
#[derive(Debug)]
pub enum AppendPlan {
    /// Nothing is written: there is no log yet and the message is not an
    /// assistant message.
    Skip,
    /// The log is created: the header, then these records.
    Create(Vec<LogRecord>),
    /// One record is appended to the existing log.
    AppendOne(LogRecord),
}

pub ghost enum AppendPlanView {
    Skip,
    Create(Seq<LogRecordView>),
    AppendOne(LogRecordView),
}

pub open spec fn append_plan_view(p: AppendPlan) -> AppendPlanView {
    match p {
        AppendPlan::Skip => AppendPlanView::Skip,
        AppendPlan::Create(rs) => AppendPlanView::Create(log_record_views(rs@)),
        AppendPlan::AppendOne(r) => AppendPlanView::AppendOne(log_record_view(r)),
    }
}

/// The envelope of a record: the closing reason and error, if any.
pub open spec fn envelope(closing: Option<(MessageStopReason, Option<Seq<char>>)>) -> (
    Option<MessageStopReason>,
    Option<Seq<char>>,
) {
    match closing {
        Some((r, e)) => (Some(r), e),
        None => (None, None),
    }
}

pub open spec fn message_record(m: MsgView, closing: Option<(MessageStopReason, Option<Seq<char>>)>) -> LogRecordView {
    LogRecordView::Message(m, envelope(closing).0, envelope(closing).1)
}

/// The backlog's records: every message in order, the closing envelope on
/// the last one.
pub open spec fn backlog_records(
    backlog: Seq<MsgView>,
    closing: Option<(MessageStopReason, Option<Seq<char>>)>,
) -> Seq<LogRecordView> {
    Seq::new(
        backlog.len(),
        |i: int|
            if i == backlog.len() - 1 {
                message_record(backlog[i], closing)
            } else {
                message_record(backlog[i], None)
            },
    )
}

/// The records a new log starts with: the title (if any), then the backlog.
pub open spec fn creation_records(
    title: Option<Seq<char>>,
    backlog: Seq<MsgView>,
    closing: Option<(MessageStopReason, Option<Seq<char>>)>,
) -> Seq<LogRecordView> {
    (match title {
        Some(t) => seq![LogRecordView::Title(t)],
        None => Seq::empty(),
    }) + backlog_records(backlog, closing)
}

pub open spec fn spec_append_plan(
    log_exists: bool,
    title: Option<Seq<char>>,
    backlog: Seq<MsgView>,
    m: MsgView,
    closing: Option<(MessageStopReason, Option<Seq<char>>)>,
) -> AppendPlanView {
    if log_exists {
        AppendPlanView::AppendOne(message_record(m, closing))
    } else if m.role != Role::Assistant {
        AppendPlanView::Skip
    } else {
        AppendPlanView::Create(creation_records(title, backlog, closing))
    }
}

pub open spec fn closing_view(c: Option<(MessageStopReason, Option<String>)>) -> Option<(MessageStopReason, Option<Seq<char>>)> {
    match c {
        Some((r, e)) => Some((r, opt_view(e))),
        None => None,
    }
}

fn copy_closing(c: &Option<(MessageStopReason, Option<String>)>) -> (r: Option<(MessageStopReason, Option<String>)>)
    ensures
        closing_view(r) == closing_view(*c),
{
    match c {
        Some((reason, error)) => Some((*reason, copy_opt_string(error))),
        None => None,
    }
}

fn record_of(m: &Message, closing: &Option<(MessageStopReason, Option<String>)>) -> (r: LogRecord)
    ensures
        log_record_view(r) == message_record(msg_view(*m), closing_view(*closing)),
{
    let message = m.copy();
    match closing {
        Some((reason, error)) => LogRecord::Message {
            message,
            stop_reason: Some(*reason),
            error: copy_opt_string(error),
        },
        None => LogRecord::Message { message, stop_reason: None, error: None },
    }
}

/// What appending `message` to `session`'s log writes. `session` already
/// holds `message` (the caller pushes it into memory first). With a log on
/// disk, one record for the message; without one, nothing unless the
/// message is an assistant message, which creates the log with the title
/// and the session's whole backlog. `closing` is the envelope of a
/// turn-closing message; on creation it rides the backlog's last record.
pub fn append_plan(
    log_exists: bool,
    session: &Session,
    message: &Message,
    closing: Option<(MessageStopReason, Option<String>)>,
) -> (p: AppendPlan)
    ensures
        append_plan_view(p) == spec_append_plan(
            log_exists,
            opt_view(session.title),
            msg_views(session.messages@),
            msg_view(*message),
            closing_view(closing),
        ),
{
    if log_exists {
        return AppendPlan::AppendOne(record_of(message, &closing));
    }
    if message.role != Role::Assistant {
        return AppendPlan::Skip;
    }
    let ghost c = closing_view(closing);
    let ghost backlog = msg_views(session.messages@);
    let mut records: Vec<LogRecord> = Vec::new();
    match &session.title {
        Some(t) => records.push(LogRecord::Title(copy_string(t))),
        None => {},
    }
    let ghost head = log_record_views(records@);
    assert(head == (match opt_view(session.title) {
        Some(t) => seq![LogRecordView::Title(t)],
        None => Seq::<LogRecordView>::empty(),
    }));
    let n = session.messages.len();
    let none: Option<(MessageStopReason, Option<String>)> = None;
    let mut i: usize = 0;
    while i < n
        invariant
            n == session.messages@.len(),
            i <= n,
            backlog == msg_views(session.messages@),
            c == closing_view(closing),
            log_record_views(records@) == head + backlog_records(backlog, c).subrange(0, i as int),
            none is None,
        decreases n - i,
    {
        let r = if i + 1 == n {
            record_of(&session.messages[i], &closing)
        } else {
            record_of(&session.messages[i], &none)
        };
        let ghost before = records@;
        records.push(r);
        assert(log_record_views(records@) == log_record_views(before).push(log_record_view(r)));
        assert(backlog_records(backlog, c).subrange(0, i + 1) == backlog_records(backlog, c).subrange(
            0,
            i as int,
        ).push(backlog_records(backlog, c)[i as int]));
        i = i + 1;
    }
    assert(backlog_records(backlog, c).subrange(0, n as int) == backlog_records(backlog, c));
    AppendPlan::Create(records)
}

/// What appending a title writes: a title record, or an error when the log
/// (at `path`) does not exist yet, since a title never precedes the header.
pub fn append_title_plan(log_exists: bool, path: &str, title: &str) -> (r: Result<LogRecord, String>)
    ensures
        log_exists ==> (r matches Ok(rec) && log_record_view(rec) == LogRecordView::Title(title@)),
        !log_exists ==> (r matches Err(e) && e@ == path@ + ": no session log to append a title to"@),
{
    if log_exists {
        Ok(LogRecord::Title(title.to_owned()))
    } else {
        let mut e = path.to_owned();
        push_str(&mut e, ": no session log to append a title to");
        Err(e)
    }
}

/// What reading a record line back gives: a message record's envelope is
/// log-only and is not part of the message read back.
pub open spec fn read_back(r: LogRecordView) -> RecordView {
    match r {
        LogRecordView::Message(m, _, _) => RecordView::Message(m),
        LogRecordView::Title(t) => RecordView::Title(t),
    }
}

pub open spec fn read_back_all(rs: Seq<LogRecordView>) -> Seq<RecordView> {
    rs.map_values(|r: LogRecordView| read_back(r))
}

/// A log created for a session replays to that session: when the backlog
/// has no system message and its tool calls and results pair up, reading
/// back the records the log is created with (title, then the backlog, the
/// closing envelope on the last one) gives back the backlog and the title,
/// with nothing skipped or repaired.
pub proof fn lemma_created_log_replays_to_session(
    title: Option<Seq<char>>,
    backlog: Seq<MsgView>,
    closing: Option<(MessageStopReason, Option<Seq<char>>)>,
)
    requires
        well_paired(backlog),
        no_system(backlog),
    ensures
        ({
            let r = replayed(read_back_all(creation_records(title, backlog, closing)));
            &&& r.messages == backlog
            &&& r.title == title
            &&& r.skipped == 0
            &&& r.repaired == 0
        }),
{
    let head = match title {
        Some(t) => seq![RecordView::Title(t)],
        None => Seq::<RecordView>::empty(),
    };
    assert(read_back_all(creation_records(title, backlog, closing)) =~= head + message_records(backlog));
    lemma_written_history_replays_to_itself(backlog, title);
}

/// The records appended one by one after the log was created with the
/// first `c` messages: one per later message, each with its envelope.
pub open spec fn later_records(
    ms: Seq<MsgView>,
    c: int,
    envelopes: Seq<Option<(MessageStopReason, Option<Seq<char>>)>>,
) -> Seq<LogRecordView> {
    Seq::new((ms.len() - c) as nat, |i: int| message_record(ms[c + i], envelopes[i]))
}

/// A log that grew with the session replays to the session: created when
/// the session held its first `c` messages, then given one record per later
/// message (whatever their envelopes), it reads back to the whole history
/// and the title, with nothing skipped or repaired, provided the history has
/// no system message and its tool calls and results pair up.
pub proof fn lemma_grown_log_replays_to_session(
    title: Option<Seq<char>>,
    ms: Seq<MsgView>,
    c: int,
    closing: Option<(MessageStopReason, Option<Seq<char>>)>,
    envelopes: Seq<Option<(MessageStopReason, Option<Seq<char>>)>>,
)
    requires
        well_paired(ms),
        no_system(ms),
        0 <= c <= ms.len(),
    ensures
        ({
            let log = creation_records(title, ms.subrange(0, c), closing) + later_records(ms, c, envelopes);
            let r = replayed(read_back_all(log));
            &&& r.messages == ms
            &&& r.title == title
            &&& r.skipped == 0
            &&& r.repaired == 0
        }),
{
    let head = match title {
        Some(t) => seq![RecordView::Title(t)],
        None => Seq::<RecordView>::empty(),
    };
    let log = creation_records(title, ms.subrange(0, c), closing) + later_records(ms, c, envelopes);
    assert(read_back_all(log) =~= head + message_records(ms));
    lemma_written_history_replays_to_itself(ms, title);
}

} // verus!
