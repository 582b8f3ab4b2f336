use slimcode::app::config::ApiKeySource;
use slimcode::cli::args::{chmod_warning, launch, parse_args, usage, Launch};

fn strs(v: &[&str]) -> Vec<String> {
    v.iter().map(|s| s.to_string()).collect()
}

#[test]
fn parse_args_reads_model_and_base_url_flags() {
    let args = strs(&["--model", "cli-model", "--base-url", "https://cli.example.com/v1", "hello"]);
    let parsed = parse_args(&args).unwrap();
    assert_eq!(parsed.model.as_deref(), Some("cli-model"));
    assert_eq!(parsed.base_url.as_deref(), Some("https://cli.example.com/v1"));
    assert_eq!(parsed.prompt.as_deref(), Some("hello"));
    assert_eq!(parsed.cwd, None);
    assert_eq!(parsed.cache, None, "no --cache/--no-cache passed");
}

#[test]
fn parse_args_reads_cache_flags() {
    let parsed = parse_args(&strs(&["--cache", "hello"])).unwrap();
    assert_eq!(parsed.cache, Some(true));
    assert_eq!(parsed.prompt.as_deref(), Some("hello"));
    let parsed = parse_args(&strs(&["--cwd", "/tmp", "--cache"])).unwrap();
    assert_eq!(parsed.cache, Some(true));
    assert_eq!(parsed.cwd.as_deref(), Some("/tmp"));
    assert_eq!(parsed.prompt, None);
    let parsed = parse_args(&strs(&["--no-cache", "hi"])).unwrap();
    assert_eq!(parsed.cache, Some(false));
    let parsed = parse_args(&strs(&["--cache", "--no-cache", "x"])).unwrap();
    assert_eq!(parsed.cache, Some(false));
}

#[test]
fn parse_args_reads_api_key_flag() {
    let parsed = parse_args(&strs(&["--api-key", "sk-cli", "hello"])).unwrap();
    assert_eq!(parsed.api_key.as_deref(), Some("sk-cli"));
    assert_eq!(parsed.prompt.as_deref(), Some("hello"));
    let parsed = parse_args(&strs(&["--model", "m", "--api-key", "sk-2"])).unwrap();
    assert_eq!(parsed.api_key.as_deref(), Some("sk-2"));
    assert_eq!(parsed.prompt, None);
}

#[test]
fn parse_args_missing_api_key_value_errors() {
    let err = parse_args(&strs(&["--api-key"])).unwrap_err();
    assert!(err.contains("--api-key"), "err: {err}");
}

#[test]
fn parse_args_cwd_flag_reads_directory() {
    let parsed = parse_args(&strs(&["--cwd", "/tmp/repo"])).unwrap();
    assert_eq!(parsed.cwd.as_deref(), Some("/tmp/repo"));
    assert_eq!(parsed.prompt, None);
}

#[test]
fn parse_args_missing_model_value_errors() {
    let err = parse_args(&strs(&["--model"])).unwrap_err();
    assert!(err.contains("--model"), "err: {err}");
}

#[test]
fn parse_args_missing_base_url_value_errors() {
    let err = parse_args(&strs(&["--base-url"])).unwrap_err();
    assert!(err.contains("--base-url"), "err: {err}");
}

#[test]
fn config_as_prompt_when_not_first_argument() {
    let parsed = parse_args(&strs(&["hello", "config"])).unwrap();
    assert_eq!(parsed.prompt.as_deref(), Some("hello"));
    assert_eq!(parsed.ignored.as_deref(), Some("config"));
}

#[test]
fn help_prints_usage() {
    assert_eq!(launch(&strs(&["--help"]), false), Ok(Launch::Help));
    let s = usage();
    assert!(s.contains("USAGE"));
    assert!(s.contains("interactive TUI"));
}

#[test]
fn help_lists_api_key_flag_and_env_precedence() {
    let s = usage();
    assert!(s.contains("--api-key"), "help must list --api-key");
    assert!(s.contains("config"), "help must list slimcode config");
    assert!(s.contains("--api-key > env > config.toml"), "help must state api key precedence");
}

#[test]
fn help_lists_cache_flags() {
    let s = usage();
    assert!(s.contains("--cache"));
    assert!(s.contains("--no-cache"));
    assert!(s.contains("SLIMCODE_AI_CACHE"));
    assert!(s.contains("(default: qwen-plus)"));
}

#[test]
fn launch_rule_dispatches_each_mode() {
    assert_eq!(launch(&strs(&["x", "-h"]), true), Ok(Launch::Help));
    assert_eq!(launch(&strs(&["config", "extra"]), false), Ok(Launch::Config));
    assert!(matches!(launch(&strs(&["hello"]), false), Ok(Launch::OneShot(a)) if a.prompt.as_deref() == Some("hello")));
    assert!(matches!(launch(&strs(&[]), true), Ok(Launch::Interactive(_))));
    let err = launch(&strs(&[]), false).unwrap_err();
    assert!(err.contains("no TTY"), "err: {err}");
    assert_eq!(launch(&strs(&["--model"]), true), Err("--model needs a value".to_string()));
}

#[test]
fn chmod_warning_fires_for_loose_file_with_file_key() {
    let w = chmod_warning("/h/config.toml", ApiKeySource::File, Some(0o100644)).unwrap();
    assert!(w.contains("chmod 600"), "warning: {w}");
    assert!(w.contains("config.toml"), "warning: {w}");
    assert_eq!(w, "API key read from /h/config.toml (mode 0o644) \u{2014} run `chmod 600 /h/config.toml` to keep it private");
}

#[test]
fn chmod_warning_silent_for_tight_file() {
    assert_eq!(chmod_warning("/h/config.toml", ApiKeySource::File, Some(0o100600)), None);
}

#[test]
fn chmod_warning_silent_when_key_not_from_file() {
    assert_eq!(chmod_warning("/h/config.toml", ApiKeySource::Env, Some(0o100644)), None);
    assert_eq!(chmod_warning("/h/config.toml", ApiKeySource::Cli, Some(0o100644)), None);
}

#[test]
fn chmod_warning_silent_when_config_missing() {
    assert_eq!(chmod_warning("/h/config.toml", ApiKeySource::File, None), None);
}

#[test]
fn no_args_no_tty_errors_clearly() {
    let err = launch(&strs(&[]), false).unwrap_err();
    assert!(err.contains("no TTY"), "err: {err}");
}
