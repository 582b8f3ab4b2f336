//! The command line: flag parsing, the launch decision (help, the `config`
//! subcommand, a one-shot prompt, or the interactive UI), the usage text and
//! the plaintext-key permission hint.
use vstd::prelude::*;
use crate::ai::config::{DEFAULT_BASE_URL, DEFAULT_MODEL};
use crate::app::config::ApiKeySource;
use crate::text::{eq_str, push_char, push_str};

verus! {

broadcast use vstd::seq_lib::group_seq_properties;

/// Parsed command-line arguments (before config resolution).
#[derive(Clone, Debug, PartialEq, Eq)]
pub struct CliArgs {
    /// `--cwd <dir>`
    pub cwd: Option<String>,
    /// The first positional argument.
    pub prompt: Option<String>,
    pub base_url: Option<String>,
    pub model: Option<String>,
    /// `--cache` / `--no-cache`; `None` when not given.
    pub cache: Option<bool>,
    /// `--api-key <key>`; `None` when not given.
    pub api_key: Option<String>,
    /// The argument right after the prompt, which is ignored (the caller
    /// warns about it).
    pub ignored: Option<String>,
}

/// The mathematical value of parsed arguments.
pub ghost struct ArgsView {
    pub cwd: Option<Seq<char>>,
    pub prompt: Option<Seq<char>>,
    pub base_url: Option<Seq<char>>,
    pub model: Option<Seq<char>>,
    pub cache: Option<bool>,
    pub api_key: Option<Seq<char>>,
    pub ignored: Option<Seq<char>>,
}

pub open spec fn os(o: Option<String>) -> Option<Seq<char>> {
    match o {
        Some(s) => Some(s@),
        None => None,
    }
}

pub open spec fn args_view(a: CliArgs) -> ArgsView {
    ArgsView {
        cwd: os(a.cwd),
        prompt: os(a.prompt),
        base_url: os(a.base_url),
        model: os(a.model),
        cache: a.cache,
        api_key: os(a.api_key),
        ignored: os(a.ignored),
    }
}

pub open spec fn empty_args() -> ArgsView {
    ArgsView {
        cwd: None,
        prompt: None,
        base_url: None,
        model: None,
        cache: None,
        api_key: None,
        ignored: None,
    }
}

/// The flag parser from position `i`: `--cwd`, `--model`, `--base-url` and
/// `--api-key` take the next argument (an error when there is none); the
/// cache flags set the flag (the last one wins); the first other argument is
/// the prompt and ends parsing, the one after it being ignored.
pub open spec fn parse_from(args: Seq<Seq<char>>, i: nat, acc: ArgsView) -> Result<ArgsView, Seq<char>>
    decreases args.len() - i,
{
    if i >= args.len() {
        Ok(acc)
    } else {
        let a = args[i as int];
        if a == "--cwd"@ {
            if i + 1 < args.len() {
                parse_from(args, i + 2, ArgsView { cwd: Some(args[i as int + 1]), ..acc })
            } else {
                Err("--cwd needs a directory"@)
            }
        } else if a == "--model"@ {
            if i + 1 < args.len() {
                parse_from(args, i + 2, ArgsView { model: Some(args[i as int + 1]), ..acc })
            } else {
                Err("--model needs a value"@)
            }
        } else if a == "--base-url"@ {
            if i + 1 < args.len() {
                parse_from(args, i + 2, ArgsView { base_url: Some(args[i as int + 1]), ..acc })
            } else {
                Err("--base-url needs a value"@)
            }
        } else if a == "--api-key"@ {
            if i + 1 < args.len() {
                parse_from(args, i + 2, ArgsView { api_key: Some(args[i as int + 1]), ..acc })
            } else {
                Err("--api-key needs a value"@)
            }
        } else if a == "--cache"@ {
            parse_from(args, i + 1, ArgsView { cache: Some(true), ..acc })
        } else if a == "--no-cache"@ {
            parse_from(args, i + 1, ArgsView { cache: Some(false), ..acc })
        } else {
            Ok(
                ArgsView {
                    prompt: Some(a),
                    ignored: if i + 1 < args.len() {
                        Some(args[i as int + 1])
                    } else {
                        None
                    },
                    ..acc
                },
            )
        }
    }
}

pub open spec fn arg_views(args: Seq<String>) -> Seq<Seq<char>> {
    args.map_values(|s: String| s@)
}

pub open spec fn parse_view(r: Result<CliArgs, String>) -> Result<ArgsView, Seq<char>> {
    match r {
        Ok(a) => Ok(args_view(a)),
        Err(e) => Err(e@),
    }
}

/// Pure flag/positional parsing. The first non-flag argument is the prompt;
/// the argument after it is reported as ignored and the rest are not looked
/// at.
pub fn parse_args(args: &[String]) -> (r: Result<CliArgs, String>)
    ensures
        parse_view(r) == parse_from(arg_views(args@), 0, empty_args()),
{
    let mut acc = CliArgs {
        cwd: None,
        prompt: None,
        base_url: None,
        model: None,
        cache: None,
        api_key: None,
        ignored: None,
    };
    let ghost av = arg_views(args@);
    let mut i: usize = 0;
    while i < args.len()
        invariant
            i <= args@.len(),
            av == arg_views(args@),
            parse_from(av, 0, empty_args()) == parse_from(av, i as nat, args_view(acc)),
        decreases args.len() - i,
    {
        let a = args[i].as_str();
        assert(av[i as int] == a@);
        if eq_str(a, "--cwd") {
            if i + 1 < args.len() {
                acc.cwd = Some(args[i + 1].clone());
                i = i + 2;
            } else {
                return Err(String::from_str("--cwd needs a directory"));
            }
        } else if eq_str(a, "--model") {
            if i + 1 < args.len() {
                acc.model = Some(args[i + 1].clone());
                i = i + 2;
            } else {
                return Err(String::from_str("--model needs a value"));
            }
        } else if eq_str(a, "--base-url") {
            if i + 1 < args.len() {
                acc.base_url = Some(args[i + 1].clone());
                i = i + 2;
            } else {
                return Err(String::from_str("--base-url needs a value"));
            }
        } else if eq_str(a, "--api-key") {
            if i + 1 < args.len() {
                acc.api_key = Some(args[i + 1].clone());
                i = i + 2;
            } else {
                return Err(String::from_str("--api-key needs a value"));
            }
        } else if eq_str(a, "--cache") {
            acc.cache = Some(true);
            i = i + 1;
        } else if eq_str(a, "--no-cache") {
            acc.cache = Some(false);
            i = i + 1;
        } else {
            acc.prompt = Some(args[i].clone());
            acc.ignored = if i + 1 < args.len() {
                Some(args[i + 1].clone())
            } else {
                None
            };
            return Ok(acc);
        }
    }
    Ok(acc)
}

/// What the program does with its arguments.
#[derive(Clone, Debug, PartialEq, Eq)]
pub enum Launch {
    /// Print the usage text.
    Help,
    /// The interactive `config` subcommand.
    Config,
    /// Run one prompt and exit.
    OneShot(CliArgs),
    /// Start the interactive UI.
    Interactive(CliArgs),
}

/// The error when there is neither a prompt nor a terminal.
pub open spec fn no_tty_error() -> Seq<char> {
    "no prompt and no TTY: pass a prompt (slimcode \"<prompt>\") or run on a terminal"@
}

pub ghost enum LaunchView {
    Help,
    Config,
    OneShot(ArgsView),
    Interactive(ArgsView),
    Failed(Seq<char>),
}

pub open spec fn launch_view(r: Result<Launch, String>) -> LaunchView {
    match r {
        Ok(Launch::Help) => LaunchView::Help,
        Ok(Launch::Config) => LaunchView::Config,
        Ok(Launch::OneShot(a)) => LaunchView::OneShot(args_view(a)),
        Ok(Launch::Interactive(a)) => LaunchView::Interactive(args_view(a)),
        Err(e) => LaunchView::Failed(e@),
    }
}

/// The launch rule: `--help` / `-h` anywhere prints the usage; `config` as
/// the first argument is the subcommand; otherwise the flags are parsed, and
/// a prompt runs once while no prompt starts the UI, which needs a terminal.
pub open spec fn spec_launch(args: Seq<Seq<char>>, tty: bool) -> LaunchView {
    if exists|i: int| 0 <= i < args.len() && (args[i] == "--help"@ || args[i] == "-h"@) {
        LaunchView::Help
    } else if args.len() > 0 && args[0] == "config"@ {
        LaunchView::Config
    } else {
        match parse_from(args, 0, empty_args()) {
            Err(e) => LaunchView::Failed(e),
            Ok(a) => if a.prompt is Some {
                LaunchView::OneShot(a)
            } else if !tty {
                LaunchView::Failed(no_tty_error())
            } else {
                LaunchView::Interactive(a)
            },
        }
    }
}

/// Decide the program's mode from its arguments and whether stdout is a
/// terminal.
pub fn launch(args: &[String], tty: bool) -> (r: Result<Launch, String>)
    ensures
        launch_view(r) == spec_launch(arg_views(args@), tty),
{
    let ghost av = arg_views(args@);
    let mut i: usize = 0;
    while i < args.len()
        invariant
            i <= args@.len(),
            av == arg_views(args@),
            forall|j: int| 0 <= j < i ==> !(av[j] == "--help"@ || av[j] == "-h"@),
        decreases args.len() - i,
    {
        let a = args[i].as_str();
        assert(av[i as int] == a@);
        if eq_str(a, "--help") || eq_str(a, "-h") {
            return Ok(Launch::Help);
        }
        i = i + 1;
    }
    if args.len() > 0 && eq_str(args[0].as_str(), "config") {
        assert(av[0] == args@[0]@);
        return Ok(Launch::Config);
    }
    match parse_args(args) {
        Err(e) => Err(e),
        Ok(parsed) => {
            if parsed.prompt.is_some() {
                Ok(Launch::OneShot(parsed))
            } else if !tty {
                let e = String::from_str(
                    "no prompt and no TTY: pass a prompt (slimcode \"<prompt>\") or run on a terminal",
                );
                Err(e)
            } else {
                Ok(Launch::Interactive(parsed))
            }
        },
    }
}

/// The usage text, with the endpoint defaults.
pub open spec fn spec_usage() -> Seq<char> {
    "slimcode \u{2014} Rust coding agent (v1)\n\nUSAGE:\n  slimcode \"<prompt>\"             run one prompt, then exit\n  slimcode --cwd <dir> \"<prompt>\"  run one prompt in <dir>\n  slimcode                       start the interactive TUI (on a TTY)\n  slimcode config                interactively edit ~/.slimcode/config.toml\n  slimcode --help                show this help\n\nOPTIONS:\n  --cwd <dir>         working directory for the agent\n  --model <model>     override model id (default: "@
        + DEFAULT_MODEL@ + ")\n  --base-url <url>    override endpoint (default: "@ + DEFAULT_BASE_URL@
        + ")\n  --api-key <key>     override API key for this run\n  --cache             enable explicit context caching (default: on)\n  --no-cache          disable explicit context caching\n\nENV:\n  DASHSCOPE_API_KEY       API key (precedence: --api-key > env > config.toml)\n  SLIMCODE_AI_BASE_URL    override endpoint\n  SLIMCODE_AI_MODEL       override model\n  SLIMCODE_AI_CACHE       override context caching (true/false/1/0/yes/no/on/off)\n  SLIMCODE_HOME           override ~/.slimcode\n"@
}

/// The `--help` text.
pub fn usage() -> (s: String)
    ensures
        s@ == spec_usage(),
{
    let mut s = String::from_str(
        "slimcode \u{2014} Rust coding agent (v1)\n\nUSAGE:\n  slimcode \"<prompt>\"             run one prompt, then exit\n  slimcode --cwd <dir> \"<prompt>\"  run one prompt in <dir>\n  slimcode                       start the interactive TUI (on a TTY)\n  slimcode config                interactively edit ~/.slimcode/config.toml\n  slimcode --help                show this help\n\nOPTIONS:\n  --cwd <dir>         working directory for the agent\n  --model <model>     override model id (default: ",
    );
    push_str(&mut s, DEFAULT_MODEL);
    push_str(&mut s, ")\n  --base-url <url>    override endpoint (default: ");
    push_str(&mut s, DEFAULT_BASE_URL);
    push_str(
        &mut s,
        ")\n  --api-key <key>     override API key for this run\n  --cache             enable explicit context caching (default: on)\n  --no-cache          disable explicit context caching\n\nENV:\n  DASHSCOPE_API_KEY       API key (precedence: --api-key > env > config.toml)\n  SLIMCODE_AI_BASE_URL    override endpoint\n  SLIMCODE_AI_MODEL       override model\n  SLIMCODE_AI_CACHE       override context caching (true/false/1/0/yes/no/on/off)\n  SLIMCODE_HOME           override ~/.slimcode\n",
    );
    s
}

/// The octal digit of a value below eight.
pub open spec fn oct_digit(d: nat) -> char {
    (('0' as u32) + d) as char
}

/// Octal rendering of `n` without leading zeros.
pub open spec fn oct(n: nat) -> Seq<char>
    decreases n,
{
    if n < 8 {
        seq![oct_digit(n)]
    } else {
        oct(n / 8).push(oct_digit(n % 8))
    }
}

fn fmt_oct(n: u32) -> (s: String)
    ensures
        s@ == oct(n as nat),
    decreases n,
{
    let d: u8 = (n % 8) as u8;
    let c = (d + 48) as char;
    if n < 8 {
        let mut s = String::new();
        push_char(&mut s, c);
        s
    } else {
        let mut s = fmt_oct(n / 8);
        push_char(&mut s, c);
        s
    }
}

/// The permission hint: only for a key read from the config file, and only
/// when the file's mode lets group or others read it; names the file, its
/// permission bits (`0o…`) and the fix.
pub open spec fn spec_chmod_warning(path: Seq<char>, source: ApiKeySource, mode: Option<u32>) -> Option<Seq<char>> {
    if source != ApiKeySource::File {
        None
    } else {
        match mode {
            None => None,
            Some(m) => if m & 0o077u32 != 0 {
                Some(
                    "API key read from "@ + path + " (mode 0o"@ + oct((m & 0o777u32) as nat) + ") \u{2014} run `chmod 600 "@
                        + path + "` to keep it private"@,
                )
            } else {
                None
            },
        }
    }
}

/// The `chmod 600` hint for a plaintext key in a loose config file; `mode`
/// is the file's mode, or `None` when it could not be read.
pub fn chmod_warning(path: &str, source: ApiKeySource, mode: Option<u32>) -> (w: Option<String>)
    ensures
        match w {
            Some(s) => spec_chmod_warning(path@, source, mode) == Some(s@),
            None => spec_chmod_warning(path@, source, mode) is None,
        },
{
    if source != ApiKeySource::File {
        return None;
    }
    match mode {
        None => None,
        Some(m) => {
            if m & 0o077u32 != 0 {
                let mut s = String::from_str("API key read from ");
                push_str(&mut s, path);
                push_str(&mut s, " (mode 0o");
                push_str(&mut s, fmt_oct(m & 0o777u32).as_str());
                push_str(&mut s, ") \u{2014} run `chmod 600 ");
                push_str(&mut s, path);
                push_str(&mut s, "` to keep it private");
                Some(s)
            } else {
                None
            }
        },
    }
}

/// A prompt on the command line runs once, whether or not stdout is a
/// terminal: when there is no help flag and no `config` subcommand and the
/// arguments parse to a prompt, the launch is that one-shot run, the same
/// for both values of `tty`. The interactive UI starts only when the
/// arguments parse without a prompt, on a terminal.
pub proof fn lemma_prompt_runs_once(args: Seq<Seq<char>>, tty: bool)
    ensures
        ({
            let parsed = parse_from(args, 0, empty_args());
            let plain = !(exists|i: int| 0 <= i < args.len() && (args[i] == "--help"@ || args[i] == "-h"@)) && !(
            args.len() > 0 && args[0] == "config"@);
            (plain && parsed is Ok && parsed->Ok_0.prompt is Some) ==> (spec_launch(args, tty) == LaunchView::OneShot(
                parsed->Ok_0,
            ) && spec_launch(args, true) == spec_launch(args, false))
        }),
        ({
            let parsed = parse_from(args, 0, empty_args());
            spec_launch(args, tty) is Interactive ==> (tty && parsed is Ok && parsed->Ok_0.prompt is None
                && spec_launch(args, tty) == LaunchView::Interactive(parsed->Ok_0))
        }),
{
}

/// `--help` or `-h` anywhere on the command line prints the usage, whatever
/// else is there; otherwise `config` as the first argument is the
/// configuration subcommand, on a terminal or not.
pub proof fn lemma_help_and_config_come_first(args: Seq<Seq<char>>, tty: bool)
    ensures
        (exists|i: int| 0 <= i < args.len() && (args[i] == "--help"@ || args[i] == "-h"@)) ==> spec_launch(args, tty)
            == LaunchView::Help,
        (!(exists|i: int| 0 <= i < args.len() && (args[i] == "--help"@ || args[i] == "-h"@)) && args.len() > 0
            && args[0] == "config"@) ==> spec_launch(args, tty) == LaunchView::Config,
{
}

} // verus!
