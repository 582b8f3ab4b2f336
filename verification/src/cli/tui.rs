//! The terminal UI's pure parts: routing a `/` command to what it does,
//! numbered-replay parsing, the `/help` listing and the session picker's
//! message count. Drawing and the event loop live with the program.
use vstd::prelude::*;
use crate::commands::{Command, CommandSpec, cview, cviews, commands, find, first_spelled, registry, spec_spellings};
use crate::text::{all_digits, chars_of, dec, eq_str, fmt_usize, join, join_chars, parse_usize, prefix_of, push_char,
    push_str, spec_parse_usize, string_of, strs, sub_chars, trim, views};

use crate::agent::session::{Message, Role, is_text_message};
use crate::ai::message::{MessageStopReason, copy_string, opt_view};

verus! {

broadcast use vstd::seq_lib::group_seq_properties;

/// `"1 msg"`, or `"N msgs"`.
pub open spec fn spec_message_count(n: nat) -> Seq<char> {
    if n == 1 {
        "1 msg"@
    } else {
        dec(n) + " msgs"@
    }
}

/// How many messages a session has, for the session picker.
pub fn message_count(n: usize) -> (s: String)
    ensures
        s@ == spec_message_count(n as nat),
{
    if n == 1 {
        String::from_str("1 msg")
    } else {
        let mut s = fmt_usize(n);
        push_str(&mut s, " msgs");
        s
    }
}

/// `/!N` with N a run of ASCII digits, parsed, and at least 1.
pub open spec fn spec_replay_index(text: Seq<char>) -> Option<usize> {
    if !prefix_of("/!"@, text) {
        None
    } else {
        let digits = text.subrange("/!"@.len() as int, text.len() as int);
        if digits.len() == 0 || !all_digits(digits) {
            None
        } else {
            match spec_parse_usize(digits) {
                Some(n) => if n >= 1 {
                    Some(n)
                } else {
                    None
                },
                None => None,
            }
        }
    }
}

/// Parse a numbered replay `/!N` (N >= 1).
pub fn parse_replay_index(text: &str) -> (r: Option<usize>)
    ensures
        r == spec_replay_index(text@),
{
    let cs = chars_of(text);
    let pre = chars_of("/!");
    if !crate::text::starts_with_chars(&cs, &pre) {
        return None;
    }
    let digits = sub_chars(&cs, pre.len(), cs.len());
    if digits.len() == 0 {
        return None;
    }
    let mut i: usize = 0;
    while i < digits.len()
        invariant
            i <= digits@.len(),
            cs@ == text@,
            pre@ == "/!"@,
            prefix_of(pre@, cs@),
            digits@ == cs@.subrange(pre@.len() as int, cs@.len() as int),
            digits@.len() > 0,
            forall|j: int| 0 <= j < i ==> '0' <= #[trigger] digits@[j] <= '9',
        decreases digits.len() - i,
    {
        if !('0' <= digits[i] && digits[i] <= '9') {
            assert(!all_digits(digits@));
            return None;
        }
        i = i + 1;
    }
    match parse_usize(&digits) {
        Some(n) => if n >= 1 {
            Some(n)
        } else {
            None
        },
        None => None,
    }
}

/// What a `/` command does.
#[derive(Clone, Copy, Debug, PartialEq, Eq, Structural)]
pub enum CommandRoute {
    Help,
    NewSession,
    SessionPicker,
    Usage,
    History,
    Skills,
    InstallSkill,
    Quit,
    /// Replay input-history entry N (1 = newest).
    Replay(usize),
    /// `/!` without a valid number.
    ReplayNeedsNumber,
    /// Not a built-in: a skill trigger or an unknown command.
    Other,
}

/// The route of a built-in command's canonical name, if it has one of its
/// own (`/!` is decided by its argument).
pub open spec fn builtin_route(name: Seq<char>) -> Option<CommandRoute> {
    if name == "/help"@ {
        Some(CommandRoute::Help)
    } else if name == "/new"@ {
        Some(CommandRoute::NewSession)
    } else if name == "/session"@ {
        Some(CommandRoute::SessionPicker)
    } else if name == "/usage"@ {
        Some(CommandRoute::Usage)
    } else if name == "/history"@ {
        Some(CommandRoute::History)
    } else if name == "/skills"@ {
        Some(CommandRoute::Skills)
    } else if name == "/install-skill"@ {
        Some(CommandRoute::InstallSkill)
    } else if name == "/exit"@ {
        Some(CommandRoute::Quit)
    } else if name == "/!!"@ {
        Some(CommandRoute::Replay(1))
    } else {
        None
    }
}

/// The routing rule: a built-in resolved by spelling answers for itself
/// (`/!` takes its number from the argument); otherwise a numbered replay
/// `/!N`; otherwise the command is a skill trigger or unknown.
pub open spec fn spec_route(name: Seq<char>, arg: Option<Seq<char>>) -> CommandRoute {
    let found = first_spelled(registry(), trim(name), 0);
    let direct: Option<CommandRoute> = match found {
        Some(c) => if c.name == "/!"@ {
            Some(
                match arg {
                    Some(a) => match spec_replay_index(a) {
                        Some(n) => CommandRoute::Replay(n),
                        None => CommandRoute::ReplayNeedsNumber,
                    },
                    None => CommandRoute::ReplayNeedsNumber,
                },
            )
        } else {
            builtin_route(c.name)
        },
        None => None,
    };
    match direct {
        Some(r) => r,
        None => match spec_replay_index(name) {
            Some(n) => CommandRoute::Replay(n),
            None => CommandRoute::Other,
        },
    }
}

fn builtin_route_of(name: &str) -> (r: Option<CommandRoute>)
    ensures
        r == builtin_route(name@),
{
    if eq_str(name, "/help") {
        Some(CommandRoute::Help)
    } else if eq_str(name, "/new") {
        Some(CommandRoute::NewSession)
    } else if eq_str(name, "/session") {
        Some(CommandRoute::SessionPicker)
    } else if eq_str(name, "/usage") {
        Some(CommandRoute::Usage)
    } else if eq_str(name, "/history") {
        Some(CommandRoute::History)
    } else if eq_str(name, "/skills") {
        Some(CommandRoute::Skills)
    } else if eq_str(name, "/install-skill") {
        Some(CommandRoute::InstallSkill)
    } else if eq_str(name, "/exit") {
        Some(CommandRoute::Quit)
    } else if eq_str(name, "/!!") {
        Some(CommandRoute::Replay(1))
    } else {
        None
    }
}

/// Route one `/` command with its optional argument.
pub fn route_command(name: &str, arg: Option<&str>) -> (r: CommandRoute)
    ensures
        r == spec_route(
            name@,
            match arg {
                Some(a) => Some(a@),
                None => None,
            },
        ),
{
    let direct: Option<CommandRoute> = match find(name) {
        Some(c) => {
            if eq_str(c.name, "/!") {
                Some(
                    match arg {
                        Some(a) => match parse_replay_index(a) {
                            Some(n) => CommandRoute::Replay(n),
                            None => CommandRoute::ReplayNeedsNumber,
                        },
                        None => CommandRoute::ReplayNeedsNumber,
                    },
                )
            } else {
                builtin_route_of(c.name)
            }
        },
        None => None,
    };
    match direct {
        Some(r) => r,
        None => match parse_replay_index(name) {
            Some(n) => CommandRoute::Replay(n),
            None => CommandRoute::Other,
        },
    }
}

/// `s` padded on the right with spaces to at least `w` chars
/// (`format!("{:<w$}", s)`).
pub open spec fn pad_right(s: Seq<char>, w: nat) -> Seq<char> {
    if s.len() >= w {
        s
    } else {
        s + Seq::new((w - s.len()) as nat, |i: int| ' ')
    }
}

/// One help line: the usage padded to `width`, the description, and the
/// aliases when there are any, introduced by `alias_intro`.
pub open spec fn help_line_with(c: CommandSpec, width: nat, alias_intro: Seq<char>) -> Seq<char> {
    "  "@ + pad_right(c.usage, width) + "  "@ + c.description + if c.aliases.len() > 0 {
        alias_intro + join(c.aliases, ", "@) + ")"@
    } else {
        Seq::empty()
    }
}

/// One `/help` line of the terminal UI.
pub open spec fn help_line(c: CommandSpec, width: nat) -> Seq<char> {
    help_line_with(c, width, "  (alias: "@)
}

/// The widest usage of a list of commands, in chars.
pub open spec fn max_usage(cs: Seq<CommandSpec>) -> nat
    decreases cs.len(),
{
    if cs.len() == 0 {
        0
    } else {
        let m = max_usage(cs.drop_last());
        if cs.last().usage.len() > m {
            cs.last().usage.len()
        } else {
            m
        }
    }
}

/// The `/help` listing: a heading, one line per registered command, then the
/// two usage notes.
pub open spec fn spec_help_lines() -> Seq<Seq<char>> {
    seq!["commands:"@] + registry().map_values(|c: CommandSpec| help_line(c, max_usage(registry()))) + seq![
        "multi-line: Shift+Enter inserts a newline; Enter submits"@,
        "skills: /skills lists installed skills; /skill:<name> runs one"@,
    ]
}

pub open spec fn lines_view(v: Seq<String>) -> Seq<Seq<char>> {
    v.map_values(|s: String| s@)
}

pub(crate) fn help_line_of(c: &Command, width: usize, alias_intro: &str) -> (s: String)
    ensures
        s@ == help_line_with(cview(*c), width as nat, alias_intro@),
{
    let mut s = String::from_str("  ");
    push_str(&mut s, c.usage);
    let len = chars_of(c.usage).len();
    let mut k = len;
    let ghost padded_start = s@;
    while k < width
        invariant
            len == c.usage@.len(),
            k >= len,
            len < width ==> k <= width,
            len >= width ==> k == len,
            padded_start == "  "@ + c.usage@,
            s@ == padded_start + Seq::new((k - len) as nat, |i: int| ' '),
        decreases width - k,
    {
        push_char(&mut s, ' ');
        assert(Seq::new((k + 1 - len) as nat, |i: int| ' ') == Seq::new((k - len) as nat, |i: int| ' ').push(' '));
        k = k + 1;
    }
    proof {
        if len >= width {
            assert(Seq::new(0nat, |i: int| ' ') == Seq::<char>::empty());
        }
        assert(s@ == "  "@ + pad_right(c.usage@, width as nat));
    }
    push_str(&mut s, "  ");
    push_str(&mut s, c.description);
    if c.aliases.len() > 0 {
        push_str(&mut s, alias_intro);
        let mut parts: Vec<Vec<char>> = Vec::new();
        let mut i: usize = 0;
        while i < c.aliases.len()
            invariant
                i <= c.aliases@.len(),
                views(parts@) == strs(c.aliases@).subrange(0, i as int),
            decreases c.aliases.len() - i,
        {
            let ghost before = parts@;
            parts.push(chars_of(c.aliases[i]));
            assert(views(parts@) == views(before).push(c.aliases@[i as int]@));
            i = i + 1;
        }
        assert(strs(c.aliases@).subrange(0, c.aliases@.len() as int) == strs(c.aliases@));
        let joined = string_of(&join_chars(&parts, &chars_of(", ")));
        push_str(&mut s, joined.as_str());
        push_str(&mut s, ")");
    }
    s
}

/// The widest usage of the commands, in chars.
pub(crate) fn usage_width(cs: &Vec<Command>) -> (width: usize)
    ensures
        width == max_usage(cviews(cs@)),
{
    let mut width: usize = 0;
    let mut i: usize = 0;
    while i < cs.len()
        invariant
            i <= cs@.len(),
            width == max_usage(cviews(cs@).subrange(0, i as int)),
        decreases cs.len() - i,
    {
        assert(cviews(cs@).subrange(0, i + 1).drop_last() == cviews(cs@).subrange(0, i as int));
        let len = chars_of(cs[i].usage).len();
        if len > width {
            width = len;
        }
        i = i + 1;
    }
    assert(cviews(cs@).subrange(0, cs@.len() as int) == cviews(cs@));
    width
}

/// The built-in command list for `/help`.
pub fn help_lines() -> (lines: Vec<String>)
    ensures
        lines_view(lines@) == spec_help_lines(),
{
    let cs = commands();
    let width = usage_width(&cs);
    let mut lines: Vec<String> = Vec::new();
    lines.push(String::from_str("commands:"));
    let mut k: usize = 0;
    while k < cs.len()
        invariant
            k <= cs@.len(),
            cviews(cs@) == registry(),
            width == max_usage(registry()),
            lines_view(lines@) == seq!["commands:"@] + registry().map_values(
                |c: CommandSpec| help_line(c, max_usage(registry())),
            ).subrange(0, k as int),
        decreases cs.len() - k,
    {
        let line = help_line_of(&cs[k], width, "  (alias: ");
        let ghost before = lines@;
        lines.push(line);
        assert(lines_view(lines@) == lines_view(before).push(line@));
        k = k + 1;
    }
    lines.push(String::from_str("multi-line: Shift+Enter inserts a newline; Enter submits"));
    lines.push(String::from_str("skills: /skills lists installed skills; /skill:<name> runs one"));
    assert(registry().map_values(|c: CommandSpec| help_line(c, max_usage(registry()))).subrange(
        0,
        cs@.len() as int,
    ) == registry().map_values(|c: CommandSpec| help_line(c, max_usage(registry()))));
    lines
}

/// How a turn of the session ended.
#[derive(Clone, Debug, PartialEq, Eq)]
pub enum TurnOutcome {
    /// The agent loop finished normally.
    Completed,
    /// The turn failed with this error.
    Failed(String),
    /// The user cancelled the turn.
    Cancelled,
}

/// The assistant message that closes the session log after a failed or
/// cancelled turn, with the reason its log record carries.
#[derive(Clone, Debug)]
pub struct Closing {
    pub message: Message,
    pub stop_reason: MessageStopReason,
    pub error: Option<String>,
}

/// The closing message's text for a turn that did not complete.
pub open spec fn closing_text(o: TurnOutcome) -> Seq<char> {
    match o {
        TurnOutcome::Failed(e) => "The turn ended with an error: "@ + e@,
        _ => "The turn was cancelled."@,
    }
}

/// A turn that did not complete closes the log on an assistant boundary:
/// when it appended messages, or when a log already exists. A first turn
/// that dies before producing anything leaves no log.
pub open spec fn closes_log(o: TurnOutcome, appended: nat, log_exists: bool) -> bool {
    !(o is Completed) && (appended > 0 || log_exists)
}

/// What closes the log after a turn: nothing after a completed turn or a
/// turn that left nothing to close; otherwise an assistant text message
/// saying the turn failed (with the error) or was cancelled, whose record
/// carries `error` or `aborted` and the error text.
pub fn turn_close(outcome: &TurnOutcome, appended: usize, log_exists: bool) -> (c: Option<Closing>)
    ensures
        c is Some <==> closes_log(*outcome, appended as nat, log_exists),
        c matches Some(k) ==> {
            &&& is_text_message(k.message, Role::Assistant, closing_text(*outcome))
            &&& k.stop_reason == (if outcome is Failed {
                MessageStopReason::Error
            } else {
                MessageStopReason::Aborted
            })
            &&& opt_view(k.error) == (match *outcome {
                TurnOutcome::Failed(e) => Some(e@),
                _ => None,
            })
        },
{
    if appended == 0 && !log_exists {
        return None;
    }
    match outcome {
        TurnOutcome::Completed => None,
        TurnOutcome::Failed(e) => {
            let mut text = String::from_str("The turn ended with an error: ");
            push_str(&mut text, e.as_str());
            Some(Closing {
                message: Message::text(Role::Assistant, text.as_str()),
                stop_reason: MessageStopReason::Error,
                error: Some(copy_string(e)),
            })
        },
        TurnOutcome::Cancelled => Some(Closing {
            message: Message::text(Role::Assistant, "The turn was cancelled."),
            stop_reason: MessageStopReason::Aborted,
            error: None,
        }),
    }
}

proof fn lemma_first_spelled_in(cs: Seq<CommandSpec>, input: Seq<char>, k: nat)
    ensures
        first_spelled(cs, input, k) matches Some(c) ==> exists|j: int| k <= j < cs.len() && cs[j] == c,
    decreases cs.len() - k,
{
    if k < cs.len() && !spec_spellings(cs[k as int]).contains(input) {
        lemma_first_spelled_in(cs, input, k + 1);
    }
}

/// Every registry command with an action of its own in the terminal UI is
/// routed to that action, under any of its spellings and whatever argument
/// follows: `/help`, `/new`, `/usage`, `/history`, `/skills`,
/// `/install-skill`, `/exit` and `/!!` to help, a new session, usage,
/// input history, the skill list, skill installation, quitting and a replay
/// of the newest prompt; `/!` to a replay or the note that it needs a
/// number. So a name the registry resolves is never treated as a skill
/// trigger or an unknown command, except `/load` and `/sessions`, which the
/// terminal UI leaves to its session picker.
pub proof fn lemma_registry_commands_route_to_their_actions(name: Seq<char>, arg: Option<Seq<char>>)
    ensures
        first_spelled(registry(), trim(name), 0) matches Some(c) ==> ({
            let r = spec_route(name, arg);
            &&& c.name == "/help"@ ==> r == CommandRoute::Help
            &&& c.name == "/new"@ ==> r == CommandRoute::NewSession
            &&& c.name == "/usage"@ ==> r == CommandRoute::Usage
            &&& c.name == "/history"@ ==> r == CommandRoute::History
            &&& c.name == "/skills"@ ==> r == CommandRoute::Skills
            &&& c.name == "/install-skill"@ ==> r == CommandRoute::InstallSkill
            &&& c.name == "/exit"@ ==> r == CommandRoute::Quit
            &&& c.name == "/!!"@ ==> r == CommandRoute::Replay(1)
            &&& c.name == "/!"@ ==> (r is Replay || r is ReplayNeedsNumber)
            &&& !(c.name == "/load"@ || c.name == "/sessions"@) ==> r != CommandRoute::Other
        }),
{
    lemma_first_spelled_in(registry(), trim(name), 0);
    reveal_strlit("/help");
    reveal_strlit("/new");
    reveal_strlit("/session");
    reveal_strlit("/sessions");
    reveal_strlit("/load");
    reveal_strlit("/usage");
    reveal_strlit("/history");
    reveal_strlit("/skills");
    reveal_strlit("/install-skill");
    reveal_strlit("/exit");
    reveal_strlit("/!!");
    reveal_strlit("/!");
    assert("/new"@[1] != "/help"@[1]);
    assert("/session"@[1] != "/help"@[1]);
    assert("/session"@[1] != "/new"@[1]);
    assert("/usage"@[1] != "/help"@[1]);
    assert("/usage"@[1] != "/new"@[1]);
    assert("/usage"@[1] != "/session"@[1]);
    assert("/history"@[2] != "/help"@[2]);
    assert("/history"@[1] != "/new"@[1]);
    assert("/history"@[1] != "/session"@[1]);
    assert("/history"@[1] != "/usage"@[1]);
    assert("/skills"@[1] != "/help"@[1]);
    assert("/skills"@[1] != "/new"@[1]);
    assert("/skills"@[2] != "/session"@[2]);
    assert("/skills"@[1] != "/usage"@[1]);
    assert("/skills"@[1] != "/history"@[1]);
    assert("/install-skill"@[1] != "/help"@[1]);
    assert("/install-skill"@[1] != "/new"@[1]);
    assert("/install-skill"@[1] != "/session"@[1]);
    assert("/install-skill"@[1] != "/usage"@[1]);
    assert("/install-skill"@[1] != "/history"@[1]);
    assert("/install-skill"@[1] != "/skills"@[1]);
    assert("/exit"@[1] != "/help"@[1]);
    assert("/exit"@[1] != "/new"@[1]);
    assert("/exit"@[1] != "/session"@[1]);
    assert("/exit"@[1] != "/usage"@[1]);
    assert("/exit"@[1] != "/history"@[1]);
    assert("/exit"@[1] != "/skills"@[1]);
    assert("/exit"@[1] != "/install-skill"@[1]);
    assert("/!!"@[1] != "/help"@[1]);
    assert("/!!"@[1] != "/new"@[1]);
    assert("/!!"@[1] != "/session"@[1]);
    assert("/!!"@[1] != "/usage"@[1]);
    assert("/!!"@[1] != "/history"@[1]);
    assert("/!!"@[1] != "/skills"@[1]);
    assert("/!!"@[1] != "/install-skill"@[1]);
    assert("/!!"@[1] != "/exit"@[1]);
    assert("/!"@[1] != "/help"@[1]);
    assert("/!"@[1] != "/new"@[1]);
    assert("/!"@[1] != "/session"@[1]);
    assert("/!"@[1] != "/usage"@[1]);
    assert("/!"@[1] != "/history"@[1]);
    assert("/!"@[1] != "/skills"@[1]);
    assert("/!"@[1] != "/install-skill"@[1]);
    assert("/!"@[1] != "/exit"@[1]);
    assert("/!"@.len() != "/!!"@.len());
    assert("/load"@[1] != "/help"@[1]);
    assert("/load"@[1] != "/new"@[1]);
    assert("/load"@[1] != "/session"@[1]);
    assert("/load"@[1] != "/usage"@[1]);
    assert("/load"@[1] != "/history"@[1]);
    assert("/load"@[1] != "/skills"@[1]);
    assert("/load"@[1] != "/install-skill"@[1]);
    assert("/load"@[1] != "/exit"@[1]);
    assert("/load"@[1] != "/!!"@[1]);
    assert("/load"@[1] != "/!"@[1]);
    assert("/sessions"@[1] != "/help"@[1]);
    assert("/sessions"@[1] != "/new"@[1]);
    assert("/sessions"@.len() != "/session"@.len());
    assert("/sessions"@[1] != "/usage"@[1]);
    assert("/sessions"@[1] != "/history"@[1]);
    assert("/sessions"@[2] != "/skills"@[2]);
    assert("/sessions"@[1] != "/install-skill"@[1]);
    assert("/sessions"@[1] != "/exit"@[1]);
    assert("/sessions"@[1] != "/!!"@[1]);
    assert("/sessions"@[1] != "/!"@[1]);
    assert("/sessions"@[1] != "/load"@[1]);
    if let Some(c) = first_spelled(registry(), trim(name), 0) {
        let j = choose|j: int| 0 <= j < registry().len() && registry()[j] == c;
        let r = spec_route(name, arg);
        if j == 0 {
            assert(c.name == "/help"@);
            assert(builtin_route(c.name) == Some(CommandRoute::Help));
        } else if j == 1 {
            assert(c.name == "/new"@);
            assert(builtin_route(c.name) == Some(CommandRoute::NewSession));
        } else if j == 2 {
            assert(c.name == "/load"@);
        } else if j == 3 {
            assert(c.name == "/sessions"@);
        } else if j == 4 {
            assert(c.name == "/usage"@);
            assert(builtin_route(c.name) == Some(CommandRoute::Usage));
        } else if j == 5 {
            assert(c.name == "/history"@);
            assert(builtin_route(c.name) == Some(CommandRoute::History));
        } else if j == 6 {
            assert(c.name == "/skills"@);
            assert(builtin_route(c.name) == Some(CommandRoute::Skills));
        } else if j == 7 {
            assert(c.name == "/install-skill"@);
            assert(builtin_route(c.name) == Some(CommandRoute::InstallSkill));
        } else if j == 8 {
            assert(c.name == "/!!"@);
            assert(builtin_route(c.name) == Some(CommandRoute::Replay(1)));
        } else if j == 9 {
            assert(c.name == "/!"@);
        } else {
            assert(j == 10);
            assert(c.name == "/exit"@);
            assert(builtin_route(c.name) == Some(CommandRoute::Quit));
        }
    }
}

} // verus!
