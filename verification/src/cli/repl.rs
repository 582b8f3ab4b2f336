//! The line-based REPL's pure parts: classifying an input line, seeding a
//! fresh prompt's history, multi-line prompts (a trailing `\` continues the
//! line), input-history replay (`/!!`, `/!N`) and the `/history` listing.
//! The loop reads lines and runs turns; what each line asks for is decided
//! here (`repl_step`).
use vstd::prelude::*;
use crate::agent::session::{Message, Role, Session, is_text_message};
use crate::app::session::{SessionStore, id_text, spec_rfc3339};
use crate::commands::{Command, CommandSpec, commands, cviews, matching, registry, suggest};
use crate::cli::tui::{help_line_of, help_line_with, lines_view, max_usage, usage_width};
use crate::app::context::DEFAULT_SYSTEM_PROMPT;
use crate::text::{chars_of, eq_str, is_ws, spec_is_ws, debug_quoted, debug_str, fmt_usize, dec, lines, parse_usize, prefix_of, push_char,
    push_str, spec_parse_usize, string_of, sub_chars, trim, trim_chars, trim_end, trim_end_chars, split_chars,
    split_on, views, strip_cr};

verus! {

broadcast use vstd::seq_lib::group_seq_properties;

/// The system prompt seeded into a fresh session.
pub const SYSTEM_PROMPT: &'static str = DEFAULT_SYSTEM_PROMPT;

/// What a line of REPL input means.
#[derive(Clone, Debug, PartialEq, Eq)]
pub enum Input {
    Empty,
    /// A command like `/help` (unknown commands carry their raw text).
    Command(String),
    /// A normal prompt to run.
    Prompt(String),
}

/// The meaning of a line: nothing when blank; a command when its trimmed
/// text starts with `/`; a prompt otherwise (both trimmed).
pub ghost enum InputView {
    Empty,
    Command(Seq<char>),
    Prompt(Seq<char>),
}

pub open spec fn input_view(i: Input) -> InputView {
    match i {
        Input::Empty => InputView::Empty,
        Input::Command(s) => InputView::Command(s@),
        Input::Prompt(s) => InputView::Prompt(s@),
    }
}

pub open spec fn spec_classify(line: Seq<char>) -> InputView {
    let t = trim(line);
    if t.len() == 0 {
        InputView::Empty
    } else if t[0] == '/' {
        InputView::Command(t)
    } else {
        InputView::Prompt(t)
    }
}

/// Classify a raw input line.
pub fn classify(line: &str) -> (i: Input)
    ensures
        input_view(i) == spec_classify(line@),
{
    let t = trim_chars(&chars_of(line));
    if t.len() == 0 {
        return Input::Empty;
    }
    if t[0] == '/' {
        return Input::Command(string_of(&t));
    }
    Input::Prompt(string_of(&t))
}

/// Build the message history for a new prompt: seed the system prompt on a
/// fresh session, then append the user message.
pub fn messages_for_prompt(messages: Vec<Message>, prompt: &str) -> (r: Vec<Message>)
    ensures
        messages@.len() == 0 ==> {
            &&& r@.len() == 2
            &&& is_text_message(r@[0], Role::System, SYSTEM_PROMPT@)
            &&& r@[0].content() == SYSTEM_PROMPT@
        },
        messages@.len() > 0 ==> r@.len() == messages@.len() + 1 && r@.subrange(0, messages@.len() as int)
            == messages@,
        is_text_message(r@.last(), Role::User, prompt@),
        r@.last().content() == prompt@,
{
    let mut messages = messages;
    if messages.len() == 0 {
        messages.push(Message::text(Role::System, SYSTEM_PROMPT));
    }
    messages.push(Message::text(Role::User, prompt));
    messages
}

/// A line continues a multi-line prompt when its last non-whitespace char is
/// `\`.
pub open spec fn spec_is_continuation(line: Seq<char>) -> bool {
    trim_end(line).len() > 0 && trim_end(line).last() == '\\'
}

pub fn is_continuation(line: &str) -> (b: bool)
    ensures
        b == spec_is_continuation(line@),
{
    let t = trim_end_chars(&chars_of(line));
    t.len() > 0 && t[t.len() - 1] == '\\'
}

/// A continuation line's content: the marker dropped, then trailing
/// whitespace.
pub open spec fn spec_strip_continuation(line: Seq<char>) -> Seq<char> {
    trim_end(trim_end(line).drop_last())
}

/// Remove the trailing continuation marker (the `\`), trimming trailing
/// whitespace from the remaining content.
pub fn strip_continuation(line: &str) -> (s: String)
    requires
        spec_is_continuation(line@),
    ensures
        s@ == spec_strip_continuation(line@),
{
    let t = trim_end_chars(&chars_of(line));
    let head = sub_chars(&t, 0, t.len() - 1);
    string_of(&trim_end_chars(&head))
}

/// `pending` with `content` added as a new line (no separator before the
/// first line); an empty `content` adds nothing.
pub open spec fn add_line(pending: Seq<char>, content: Seq<char>) -> Seq<char> {
    if content.len() == 0 {
        pending
    } else if pending.len() == 0 {
        content
    } else {
        pending + seq!['\n'] + content
    }
}

fn append_line(pending: &mut String, content: &str)
    ensures
        final(pending)@ == add_line(old(pending)@, content@),
{
    if !content.is_empty() {
        if !pending.as_str().is_empty() {
            push_char(pending, '\n');
        }
        push_str(pending, content);
    }
}

/// Accumulate a line into a multi-line prompt. Returns `Some(prompt)` when
/// `line` commits the prompt (it does not end in a continuation marker), and
/// `None` while the prompt is still being continued. A single-line prompt
/// commits at once.
pub fn accumulate(pending: &mut String, line: &str) -> (r: Option<String>)
    ensures
        spec_is_continuation(line@) ==> r is None && final(pending)@ == add_line(
            old(pending)@,
            spec_strip_continuation(line@),
        ),
        !spec_is_continuation(line@) ==> (r matches Some(p) && p@ == add_line(old(pending)@, trim_end(line@))
            && final(pending)@.len() == 0),
{
    if is_continuation(line) {
        let content = strip_continuation(line);
        append_line(pending, content.as_str());
        None
    } else {
        let content = string_of(&trim_end_chars(&chars_of(line)));
        append_line(pending, content.as_str());
        let out = pending.clone();
        *pending = String::new();
        Some(out)
    }
}

/// The view of a parse result.
pub open spec fn parsed_view(r: Result<usize, String>) -> Result<usize, Seq<char>> {
    match r {
        Ok(n) => Ok(n),
        Err(e) => Err(e@),
    }
}

/// A replay argument: `!!` is 1 (the most recent); `!N` is N; anything
/// else is an error quoting the argument.
pub open spec fn spec_parse_replay(arg: Seq<char>) -> Result<usize, Seq<char>> {
    let s = trim(arg);
    if s == seq!['!', '!'] {
        Ok(1)
    } else if !(s.len() > 0 && s[0] == '!') {
        Err("unknown replay: "@ + debug_str(arg))
    } else {
        match spec_parse_usize(s.drop_first()) {
            Some(n) => Ok(n),
            None => Err("bad replay index: "@ + debug_str(arg)),
        }
    }
}

/// Parse a replay arg: `!!` (most recent) or `!N` (the N-th most recent).
pub fn parse_replay(arg: &str) -> (r: Result<usize, String>)
    ensures
        parsed_view(r) == spec_parse_replay(arg@),
{
    let s = trim_chars(&chars_of(arg));
    if s.len() == 2 && s[0] == '!' && s[1] == '!' {
        assert(s@ =~= seq!['!', '!']);
        return Ok(1);
    }
    if !(s.len() > 0 && s[0] == '!') {
        let mut msg = String::from_str("unknown replay: ");
        push_str(&mut msg, debug_quoted(arg).as_str());
        return Err(msg);
    }
    let rest = sub_chars(&s, 1, s.len());
    assert(rest@ == s@.drop_first());
    match parse_usize(&rest) {
        Some(n) => Ok(n),
        None => {
            let mut msg = String::from_str("bad replay index: ");
            push_str(&mut msg, debug_quoted(arg).as_str());
            Err(msg)
        },
    }
}

/// Map a replay number (1 = newest) to the entry, if it exists.
pub fn resolve_replay_index(entries: &[String], n: usize) -> (r: Option<&str>)
    ensures
        n == 0 || n > entries@.len() ==> r is None,
        0 < n <= entries@.len() ==> (r matches Some(s) && s@ == entries@[entries@.len() - n]@),
{
    if n == 0 || n > entries.len() {
        return None;
    }
    Some(entries[entries.len() - n].as_str())
}

/// The display cap of a history line.
pub const SUMMARY_MAX: usize = 48;

/// An entry collapsed to one display line: its first line, trailing
/// whitespace dropped, cut to 48 chars; an ellipsis marks a cut, an empty
/// first line, or more lines following.
pub open spec fn spec_summarize(entry: Seq<char>) -> Seq<char> {
    let ls = lines(entry);
    let first = trim_end(if ls.len() > 0 {
        ls[0]
    } else {
        Seq::empty()
    });
    let kept = if first.len() > SUMMARY_MAX {
        first.subrange(0, SUMMARY_MAX as int)
    } else {
        first
    };
    if kept.len() < first.len() || first.len() == 0 || ls.len() > 1 {
        kept + seq!['\u{2026}']
    } else {
        kept
    }
}

/// Collapse an entry to a single display line (first line, truncated).
pub fn summarize_entry(entry: &str) -> (s: String)
    ensures
        s@ == spec_summarize(entry@),
{
    let cs = chars_of(entry);
    let parts = split_chars(&cs, '\n');
    let n = parts.len();
    let count: usize = if parts[n - 1].len() == 0 {
        n - 1
    } else {
        n
    };
    let ghost ls = lines(entry@);
    proof {
        assert(views(parts@).last() == parts@[n - 1]@);
        assert(ls.len() == count);
    }
    let first_raw: Vec<char> = if count == 0 {
        Vec::new()
    } else if n > 1 {
        let p = &parts[0];
        if p.len() > 0 && p[p.len() - 1] == '\r' {
            sub_chars(p, 0, p.len() - 1)
        } else {
            sub_chars(p, 0, p.len())
        }
    } else {
        sub_chars(&parts[0], 0, parts[0].len())
    };
    proof {
        if count > 0 {
            assert(views(parts@)[0] == parts@[0]@);
            if n > 1 {
                assert(split_on(entry@, '\n').drop_last()[0] == parts@[0]@);
            }
            assert(first_raw@ == ls[0]);
        }
    }
    let first = trim_end_chars(&first_raw);
    let kept = if first.len() > SUMMARY_MAX {
        sub_chars(&first, 0, SUMMARY_MAX)
    } else {
        sub_chars(&first, 0, first.len())
    };
    let mut out = string_of(&kept);
    if kept.len() < first.len() || first.len() == 0 || count > 1 {
        push_char(&mut out, '\u{2026}');
    }
    out
}

/// The `/history` lines: the newest `limit` entries, oldest of them first,
/// each numbered with its distance from the newest (1 = newest).
pub open spec fn spec_render_history(entries: Seq<Seq<char>>, limit: nat) -> Seq<Seq<char>> {
    let total = entries.len();
    let start: nat = if total > limit {
        (total - limit) as nat
    } else {
        0
    };
    Seq::new(
        (total - start) as nat,
        |k: int| dec((total - (start + k)) as nat) + ": "@ + spec_summarize(entries[start + k]),
    )
}

pub open spec fn strings_view(v: Seq<String>) -> Seq<Seq<char>> {
    v.map_values(|s: String| s@)
}

/// Render history entries for `/history`, numbered 1 = newest, limited to
/// `limit` entries. Multi-line / over-long entries collapse to a single
/// truncated line.
pub fn render_history(entries: &[String], limit: usize) -> (out: Vec<String>)
    ensures
        strings_view(out@) == spec_render_history(strings_view(entries@), limit as nat),
{
    let total = entries.len();
    let start: usize = if total > limit {
        total - limit
    } else {
        0
    };
    let ghost want = spec_render_history(strings_view(entries@), limit as nat);
    let mut out: Vec<String> = Vec::new();
    let mut i: usize = start;
    while i < total
        invariant
            start <= i <= total,
            total == entries@.len(),
            start == (if total > limit {
                (total - limit) as nat
            } else {
                0nat
            }),
            want == spec_render_history(strings_view(entries@), limit as nat),
            want.len() == total - start,
            strings_view(out@) == want.subrange(0, (i - start) as int),
        decreases total - i,
    {
        let mut line = fmt_usize(total - i);
        push_str(&mut line, ": ");
        let summary = summarize_entry(entries[i].as_str());
        push_str(&mut line, summary.as_str());
        let ghost before = out@;
        assert(line@ == want[(i - start) as int]);
        out.push(line);
        assert(strings_view(out@) == strings_view(before).push(line@));
        assert(want.subrange(0, (i + 1 - start) as int) == want.subrange(0, (i - start) as int).push(line@));
        i = i + 1;
    }
    assert(want.subrange(0, (total - start) as int) == want);
    out
}


/// The REPL's `/help` listing: a heading, one line per registered command,
/// then the multi-line note.
pub open spec fn spec_repl_help_lines() -> Seq<Seq<char>> {
    seq!["commands:"@] + registry().map_values(
        |c: CommandSpec| help_line_with(c, max_usage(registry()), " (alias: "@),
    ) + seq!["multi-line: end a line with \\ to continue; a blank line submits"@]
}

/// The REPL's `/help` listing.
pub fn repl_help_lines() -> (lines: Vec<String>)
    ensures
        lines_view(lines@) == spec_repl_help_lines(),
{
    let cs = commands();
    let width = usage_width(&cs);
    let mut lines: Vec<String> = Vec::new();
    lines.push(String::from_str("commands:"));
    let mut k: usize = 0;
    while k < cs.len()
        invariant
            k <= cs@.len(),
            cviews(cs@) == registry(),
            width == max_usage(registry()),
            lines_view(lines@) == seq!["commands:"@] + registry().map_values(
                |c: CommandSpec| help_line_with(c, max_usage(registry()), " (alias: "@),
            ).subrange(0, k as int),
        decreases cs.len() - k,
    {
        let line = help_line_of(&cs[k], width, " (alias: ");
        let ghost before = lines@;
        lines.push(line);
        assert(lines_view(lines@) == lines_view(before).push(line@));
        k = k + 1;
    }
    lines.push(String::from_str("multi-line: end a line with \\ to continue; a blank line submits"));
    assert(registry().map_values(|c: CommandSpec| help_line_with(c, max_usage(registry()), " (alias: "@)).subrange(
        0,
        cs@.len() as int,
    ) == registry().map_values(|c: CommandSpec| help_line_with(c, max_usage(registry()), " (alias: "@)));
    lines
}

/// What a line asks the REPL to do.
#[derive(Debug)]
pub enum ReplAction {
    /// Nothing to do yet: a blank line, or a continued prompt line.
    Wait,
    /// Run this prompt as a turn (recording it in the input history).
    Submit(String),
    Help,
    Exit,
    NewSession,
    ListSessions,
    Usage,
    Save,
    /// Load the session with this id.
    Load(String),
    /// End the REPL with this error.
    Fail(String),
    History,
    /// Re-run input-history entry N (1 = newest).
    Replay(usize),
    /// Print this line and go on.
    Report(String),
    /// An unknown command and the commands its prefix predicts.
    Unknown { name: String, suggestions: Vec<Command> },
}

pub ghost enum ReplActionView {
    Wait,
    Submit(Seq<char>),
    Help,
    Exit,
    NewSession,
    ListSessions,
    Usage,
    Save,
    Load(Seq<char>),
    Fail(Seq<char>),
    History,
    Replay(usize),
    Report(Seq<char>),
    Unknown { name: Seq<char>, suggestions: Seq<CommandSpec> },
}

pub open spec fn repl_action_view(a: ReplAction) -> ReplActionView {
    match a {
        ReplAction::Wait => ReplActionView::Wait,
        ReplAction::Submit(p) => ReplActionView::Submit(p@),
        ReplAction::Help => ReplActionView::Help,
        ReplAction::Exit => ReplActionView::Exit,
        ReplAction::NewSession => ReplActionView::NewSession,
        ReplAction::ListSessions => ReplActionView::ListSessions,
        ReplAction::Usage => ReplActionView::Usage,
        ReplAction::Save => ReplActionView::Save,
        ReplAction::Load(id) => ReplActionView::Load(id@),
        ReplAction::Fail(e) => ReplActionView::Fail(e@),
        ReplAction::History => ReplActionView::History,
        ReplAction::Replay(n) => ReplActionView::Replay(n),
        ReplAction::Report(m) => ReplActionView::Report(m@),
        ReplAction::Unknown { name, suggestions } => ReplActionView::Unknown {
            name: name@,
            suggestions: cviews(suggestions@),
        },
    }
}

/// The first whitespace position of `s` at or after `i`.
pub open spec fn first_ws_from(s: Seq<char>, i: nat) -> Option<nat>
    decreases s.len() - i,
{
    if i >= s.len() {
        None
    } else if spec_is_ws(s[i as int]) {
        Some(i)
    } else {
        first_ws_from(s, i + 1)
    }
}

/// A command line as name and argument: split at the first whitespace
/// char, the argument trimmed.
pub open spec fn split_command(cmd: Seq<char>) -> (Seq<char>, Option<Seq<char>>) {
    match first_ws_from(cmd, 0) {
        Some(i) => (cmd.subrange(0, i as int), Some(trim(cmd.subrange(i as int + 1, cmd.len() as int)))),
        None => (cmd, None),
    }
}

/// What a command name and argument ask for.
pub open spec fn command_action(name: Seq<char>, arg: Option<Seq<char>>) -> ReplActionView {
    if name == "/help"@ {
        ReplActionView::Help
    } else if name == "/exit"@ || name == "/quit"@ {
        ReplActionView::Exit
    } else if name == "/new"@ {
        ReplActionView::NewSession
    } else if name == "/sessions"@ {
        ReplActionView::ListSessions
    } else if name == "/usage"@ {
        ReplActionView::Usage
    } else if name == "/save"@ {
        ReplActionView::Save
    } else if name == "/load"@ || name == "/resume"@ {
        match arg {
            Some(a) => if a.len() > 0 {
                ReplActionView::Load(a)
            } else {
                ReplActionView::Fail(name + " needs a session id"@)
            },
            None => ReplActionView::Fail(name + " needs a session id"@),
        }
    } else if name == "/history"@ {
        ReplActionView::History
    } else if name == "/!!"@ {
        ReplActionView::Replay(1)
    } else if prefix_of("/!"@, name) {
        match spec_parse_replay(name.drop_first()) {
            Ok(n) => ReplActionView::Replay(n),
            Err(e) => ReplActionView::Report(e),
        }
    } else {
        ReplActionView::Unknown {
            name,
            suggestions: if prefix_of(seq!['/'], trim(name)) {
                matching(registry(), trim(name))
            } else {
                Seq::empty()
            },
        }
    }
}

/// The REPL rule for one input line, given the pending multi-line prompt:
/// while a prompt is being continued (or the line continues one), the line
/// is prompt content (even one starting with `/`) and the prompt is
/// submitted at its first non-continued line; otherwise a blank line does
/// nothing, a `/` line is a command and anything else is a prompt.
pub open spec fn spec_repl_step(pending: Seq<char>, line: Seq<char>) -> (Seq<char>, ReplActionView) {
    if spec_is_continuation(line) {
        (add_line(pending, spec_strip_continuation(line)), ReplActionView::Wait)
    } else if pending.len() > 0 {
        (Seq::empty(), ReplActionView::Submit(add_line(pending, trim_end(line))))
    } else {
        match spec_classify(line) {
            InputView::Empty => (pending, ReplActionView::Wait),
            InputView::Prompt(p) => (pending, ReplActionView::Submit(p)),
            InputView::Command(c) => (pending, command_action(split_command(c).0, split_command(c).1)),
        }
    }
}

/// While a multi-line prompt is pending, every line is prompt content, even
/// one that starts with `/`: the line either continues the prompt or submits
/// it, and a blank line submits the prompt as it stands.
pub proof fn lemma_pending_prompt_takes_every_line(pending: Seq<char>, line: Seq<char>)
    requires
        pending.len() > 0,
    ensures
        spec_repl_step(pending, line).1 is Wait || spec_repl_step(pending, line).1 is Submit,
        trim_end(line).len() == 0 ==> spec_repl_step(pending, line) == (
            Seq::<char>::empty(),
            ReplActionView::Submit(pending),
        ),
{
}

fn split_command_exec(cmd: &str) -> (r: (String, Option<String>))
    ensures
        r.0@ == split_command(cmd@).0,
        match r.1 {
            Some(a) => split_command(cmd@).1 == Some(a@),
            None => split_command(cmd@).1 is None,
        },
{
    let cs = chars_of(cmd);
    let mut i: usize = 0;
    while i < cs.len() && !is_ws(cs[i])
        invariant
            i <= cs@.len(),
            cs@ == cmd@,
            first_ws_from(cs@, 0) == first_ws_from(cs@, i as nat),
        decreases cs.len() - i,
    {
        i = i + 1;
    }
    if i == cs.len() {
        assert(cs@.subrange(0, i as int) == cs@);
        return (string_of(&cs), None);
    }
    let name = string_of(&sub_chars(&cs, 0, i));
    let arg = string_of(&trim_chars(&sub_chars(&cs, i + 1, cs.len())));
    (name, Some(arg))
}

fn command_action_exec(name: String, arg: Option<String>) -> (a: ReplAction)
    ensures
        repl_action_view(a) == command_action(
            name@,
            match arg {
                Some(s) => Some(s@),
                None => None,
            },
        ),
{
    let n = name.as_str();
    if eq_str(n, "/help") {
        ReplAction::Help
    } else if eq_str(n, "/exit") || eq_str(n, "/quit") {
        ReplAction::Exit
    } else if eq_str(n, "/new") {
        ReplAction::NewSession
    } else if eq_str(n, "/sessions") {
        ReplAction::ListSessions
    } else if eq_str(n, "/usage") {
        ReplAction::Usage
    } else if eq_str(n, "/save") {
        ReplAction::Save
    } else if eq_str(n, "/load") || eq_str(n, "/resume") {
        match arg {
            Some(a) => if a.as_str().is_empty() {
                let mut e = name.clone();
                push_str(&mut e, " needs a session id");
                ReplAction::Fail(e)
            } else {
                ReplAction::Load(a)
            },
            None => {
                let mut e = name.clone();
                push_str(&mut e, " needs a session id");
                ReplAction::Fail(e)
            },
        }
    } else if eq_str(n, "/history") {
        ReplAction::History
    } else if eq_str(n, "/!!") {
        ReplAction::Replay(1)
    } else {
        let cs = chars_of(n);
        if cs.len() >= 2 && cs[0] == '/' && cs[1] == '!' {
            assert(cs@.subrange(0, 2) =~= "/!"@) by {
                reveal_strlit("/!");
            }
            let rest = string_of(&sub_chars(&cs, 1, cs.len()));
            assert(rest@ == cs@.drop_first());
            match parse_replay(rest.as_str()) {
                Ok(k) => ReplAction::Replay(k),
                Err(e) => ReplAction::Report(e),
            }
        } else {
            assert(!prefix_of("/!"@, name@)) by {
                reveal_strlit("/!");
                if prefix_of("/!"@, name@) {
                    assert(name@.subrange(0, 2)[0] == cs@[0]);
                    assert(name@.subrange(0, 2)[1] == cs@[1]);
                }
            }
            let suggestions = suggest(n);
            ReplAction::Unknown { name, suggestions }
        }
    }
}

/// Decide what one input line asks for, updating the pending multi-line
/// prompt.
pub fn repl_step(pending: &mut String, line: &str) -> (a: ReplAction)
    ensures
        final(pending)@ == spec_repl_step(old(pending)@, line@).0,
        repl_action_view(a) == spec_repl_step(old(pending)@, line@).1,
{
    if is_continuation(line) || !pending.as_str().is_empty() {
        let r = accumulate(pending, line);
        return match r {
            Some(p) => ReplAction::Submit(p),
            None => ReplAction::Wait,
        };
    }
    match classify(line) {
        Input::Empty => ReplAction::Wait,
        Input::Prompt(p) => ReplAction::Submit(p),
        Input::Command(c) => {
            let (name, arg) = split_command_exec(c.as_str());
            command_action_exec(name, arg)
        },
    }
}


/// A fresh session in `store`, created at `unix` (seconds) by process
/// `pid`.
pub fn new_session(store: &SessionStore, unix: u64, pid: u32) -> (s: Session)
    ensures
        exists|n: usize| s.id@ == id_text(unix, pid, n),
        s.created_at@ == spec_rfc3339((unix as i64) as int),
        s.messages@.len() == 0,
        s.title is None,
{
    store.new_session(unix, pid)
}

} // verus!
