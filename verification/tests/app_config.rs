use slimcode::ai::config::{DEFAULT_BASE_URL, DEFAULT_MODEL};
use slimcode::app::config::{
    config_edits, config_text, max_mb_to_bytes, parse_env_bool, pick_value, read_ai_fields, resolve, resolve_max_mb,
    ApiKeySource, ConfigAnswers, EnvValues, FileAi, FileConfig, FileSessions, Overrides, DEFAULT_MAX_MB,
    ENV_API_KEY, ENV_CACHE,
};
use slimcode::app::session::DEFAULT_MAX_BYTES;

fn env(api_key: Option<&str>, base_url: Option<&str>, model: Option<&str>, cache: Option<&str>) -> EnvValues {
    EnvValues {
        api_key: api_key.map(|s| s.to_string()),
        base_url: base_url.map(|s| s.to_string()),
        model: model.map(|s| s.to_string()),
        cache: cache.map(|s| s.to_string()),
    }
}

fn file_ai(base_url: Option<&str>, model: Option<&str>, cache: Option<bool>, api_key: Option<&str>) -> Option<Result<FileConfig, String>> {
    Some(Ok(FileConfig {
        ai: FileAi {
            base_url: base_url.map(|s| s.to_string()),
            model: model.map(|s| s.to_string()),
            cache,
            api_key: api_key.map(|s| s.to_string()),
        },
        sessions: FileSessions { max_mb: None },
    }))
}

fn overrides(api_key: Option<&str>) -> Overrides {
    Overrides { base_url: None, model: None, cache: None, api_key: api_key.map(|s| s.to_string()) }
}

#[test]
fn malformed_toml_errors() {
    let e = env(Some("sk-test"), None, None, None);
    let err = resolve(Some(Err("expected `]`".to_string())), &e, &Overrides::default()).unwrap_err();
    assert!(err.contains("config.toml"), "err: {err}");
}

#[test]
fn missing_api_key_errors_naming_both_sources() {
    let e = env(None, None, None, None);
    let err = resolve(None, &e, &Overrides::default()).unwrap_err();
    assert!(err.contains(ENV_API_KEY), "err: {err}");
    assert!(err.contains("config.toml"), "err: {err}");
    assert!(err.contains("api_key"), "err: {err}");
}

#[test]
fn api_key_from_file_is_used_with_file_source() {
    let e = env(None, None, None, None);
    let (cfg, source) = resolve(file_ai(None, None, None, Some("sk-file")), &e, &Overrides::default()).unwrap();
    assert_eq!(cfg.api_key, "sk-file");
    assert_eq!(source, ApiKeySource::File);
}

#[test]
fn api_key_env_beats_file() {
    let e = env(Some("sk-env"), None, None, None);
    let (cfg, source) = resolve(file_ai(None, None, None, Some("sk-file")), &e, &Overrides::default()).unwrap();
    assert_eq!(cfg.api_key, "sk-env");
    assert_eq!(source, ApiKeySource::Env);
}

#[test]
fn api_key_override_beats_env_and_file() {
    let e = env(Some("sk-env"), None, None, None);
    let (cfg, source) = resolve(file_ai(None, None, None, Some("sk-file")), &e, &overrides(Some("sk-cli"))).unwrap();
    assert_eq!(cfg.api_key, "sk-cli");
    assert_eq!(source, ApiKeySource::Cli);
}

#[test]
fn file_api_key_beats_missing_env_when_others_present() {
    let e = env(None, Some("https://env.example.com/v1"), Some("env-model"), None);
    let (cfg, source) = resolve(file_ai(None, None, None, Some("sk-file")), &e, &Overrides::default()).unwrap();
    assert_eq!(cfg.api_key, "sk-file");
    assert_eq!(source, ApiKeySource::File);
    assert_eq!(cfg.base_url, "https://env.example.com/v1");
    assert_eq!(cfg.model, "env-model");
}

#[test]
fn api_key_empty_values_treated_as_missing() {
    let e = env(None, None, None, None);
    let err = resolve(None, &e, &overrides(Some(""))).unwrap_err();
    assert!(err.contains(ENV_API_KEY), "err: {err}");
    assert!(err.contains("config.toml"), "err: {err}");
    let err = resolve(file_ai(None, None, None, Some("")), &e, &Overrides::default()).unwrap_err();
    assert!(err.contains(ENV_API_KEY), "err: {err}");
}

#[test]
fn api_key_whitespace_env_treated_as_missing() {
    let e = env(Some("   "), None, None, None);
    let err = resolve(None, &e, &Overrides::default()).unwrap_err();
    assert!(err.contains(ENV_API_KEY), "err: {err}");
}

#[test]
fn cache_invalid_env_errors_naming_variable() {
    let e = env(Some("sk-test"), None, None, Some("banana"));
    let err = resolve(None, &e, &Overrides::default()).unwrap_err();
    assert!(err.contains(ENV_CACHE), "error must name the variable: {err}");
    assert!(err.contains("\"banana\""), "error must quote the value: {err}");
}

#[test]
fn max_mb_converts_to_bytes() {
    assert_eq!(max_mb_to_bytes(500), 500 * 1024 * 1024);
    assert_eq!(max_mb_to_bytes(0), 0);
}

#[test]
fn default_quota_matches_session_store_default() {
    assert_eq!(max_mb_to_bytes(DEFAULT_MAX_MB), DEFAULT_MAX_BYTES);
}

#[test]
fn defaults_apply_when_nothing_else_is_given() {
    let e = env(Some("sk-test"), None, None, None);
    let (cfg, _) = resolve(None, &e, &Overrides::default()).unwrap();
    assert_eq!(cfg.api_key, "sk-test");
    assert_eq!(cfg.base_url, DEFAULT_BASE_URL);
    assert_eq!(cfg.model, DEFAULT_MODEL);
    assert!(cfg.cache);
    assert_eq!(cfg.max_tokens, None);
}

#[test]
fn each_layer_overrides_the_next_per_field() {
    let e = env(Some("  sk-test  "), Some("https://env.example.com/v1"), None, Some("OFF"));
    let o = Overrides { base_url: None, model: Some("cli-model".to_string()), cache: None, api_key: None };
    let (cfg, source) = resolve(file_ai(Some("https://file/v1"), Some("file-model"), Some(true), None), &e, &o).unwrap();
    assert_eq!(cfg.api_key, "sk-test");
    assert_eq!(source, ApiKeySource::Env);
    assert_eq!(cfg.base_url, "https://env.example.com/v1");
    assert_eq!(cfg.model, "cli-model");
    assert!(!cfg.cache);
    let o2 = Overrides { cache: Some(true), ..Overrides::default() };
    let (cfg2, _) = resolve(file_ai(None, None, Some(false), None), &e, &o2).unwrap();
    assert!(cfg2.cache);
}

#[test]
fn parse_env_bool_accepts_every_spelling() {
    for (raw, expect) in [
        ("true", true), ("TRUE", true), ("1", true), ("yes", true), ("On", true),
        ("false", false), ("FALSE", false), ("0", false), ("no", false), ("off", false),
    ] {
        assert_eq!(parse_env_bool("V", raw), Ok(expect), "{raw}");
    }
    assert_eq!(
        parse_env_bool("V", "maybe"),
        Err("V must be one of true/false/1/0/yes/no/on/off, got \"maybe\"".to_string())
    );
}

#[test]
fn pick_value_prefers_override_then_env_then_file() {
    assert_eq!(pick_value(Some("o"), Some("e".to_string()), Some("f"), "d"), "o");
    assert_eq!(pick_value(None, Some("e".to_string()), Some("f"), "d"), "e");
    assert_eq!(pick_value(None, None, Some("f"), "d"), "f");
    assert_eq!(pick_value(None, None, None, "d"), "d");
}

#[test]
fn max_mb_and_ai_fields_are_tolerant() {
    assert_eq!(resolve_max_mb(&None), 500);
    assert_eq!(resolve_max_mb(&Some(Err("bad".to_string()))), 500);
    let mut f = file_ai(None, Some("m"), None, Some("k"));
    if let Some(Ok(c)) = &mut f {
        c.sessions.max_mb = Some(42);
    }
    assert_eq!(resolve_max_mb(&f), 42);
    let fields = read_ai_fields(&f);
    assert_eq!(fields.model.as_deref(), Some("m"));
    assert_eq!(fields.api_key.as_deref(), Some("k"));
    assert_eq!(fields.base_url, None);
    assert_eq!(read_ai_fields(&Some(Err("bad".to_string()))), ConfigAnswers::default());
}

#[test]
fn config_edits_keep_only_filled_answers_trimmed() {
    let answers = ConfigAnswers {
        base_url: Some("   ".to_string()),
        model: Some("  qwen-turbo  ".to_string()),
        api_key: Some("sk-x".to_string()),
    };
    let edits = config_edits(&answers);
    assert_eq!(edits, vec![("model", "qwen-turbo".to_string()), ("api_key", "sk-x".to_string())]);
    assert!(config_edits(&ConfigAnswers::default()).is_empty());
}

#[test]
fn sessions_max_mb_defaults_to_500() {
    assert_eq!(resolve_max_mb(&None), 500);
    // Blank text is no file at all.
    assert_eq!(config_text(Some("\n  \n")), None);
    assert_eq!(resolve_max_mb(&file_ai(None, Some("m"), None, None)), 500);
}

#[test]
fn sessions_max_mb_reads_file_value() {
    let mut f = file_ai(None, None, None, None);
    if let Some(Ok(c)) = &mut f {
        c.sessions.max_mb = Some(42);
    }
    assert_eq!(resolve_max_mb(&f), 42);
}

#[test]
fn sessions_max_mb_ignores_non_numeric_value() {
    assert_eq!(resolve_max_mb(&Some(Err("invalid type: string \"abc\", expected u64".to_string()))), 500);
}

#[test]
fn read_ai_fields_returns_present_values_only() {
    let fields = read_ai_fields(&file_ai(None, Some("m"), None, Some("k")));
    assert_eq!(fields.model.as_deref(), Some("m"));
    assert_eq!(fields.api_key.as_deref(), Some("k"));
    assert_eq!(fields.base_url, None);
}

#[test]
fn read_ai_fields_treats_empty_as_absent() {
    assert_eq!(config_text(Some("\n  \n")), None);
    assert_eq!(read_ai_fields(&None), ConfigAnswers::default());
}

#[test]
fn read_ai_fields_tolerates_malformed_input() {
    assert_eq!(read_ai_fields(&Some(Err("expected `]`".to_string()))), ConfigAnswers::default());
}
