use slimcode::ai::config::{ProviderConfig, DEFAULT_BASE_URL, DEFAULT_MODEL};
use slimcode::app::config::{
    resolve, ApiKeySource, EnvValues, FileAi, FileConfig, FileSessions, Overrides, ENV_API_KEY, ENV_BASE_URL,
    ENV_CACHE, ENV_MODEL,
};

/// `config.toml` text as the program reads it: blank text is no file.
fn parse_file(text: Option<&str>) -> Option<Result<FileConfig, String>> {
    let s = text?;
    if s.trim().is_empty() {
        return None;
    }
    let v: toml::Value = match toml::from_str(s) {
        Ok(v) => v,
        Err(e) => return Some(Err(e.to_string())),
    };
    let table = |key: &str| v.get(key).and_then(toml::Value::as_table).cloned();
    let ai = table("ai").unwrap_or_default();
    let sessions = table("sessions").unwrap_or_default();
    let text_of = |k: &str| ai.get(k).and_then(toml::Value::as_str).map(|s| s.to_string());
    Some(Ok(FileConfig {
        ai: FileAi {
            base_url: text_of("base_url"),
            model: text_of("model"),
            cache: ai.get("cache").and_then(toml::Value::as_bool),
            api_key: text_of("api_key"),
        },
        sessions: FileSessions {
            max_mb: sessions.get("max_mb").and_then(toml::Value::as_integer).and_then(|n| u64::try_from(n).ok()),
        },
    }))
}

fn env_of(pairs: &[(&str, &str)]) -> EnvValues {
    let get = |k: &str| pairs.iter().find(|(pk, _)| *pk == k).map(|(_, v)| v.to_string());
    EnvValues { api_key: get(ENV_API_KEY), base_url: get(ENV_BASE_URL), model: get(ENV_MODEL), cache: get(ENV_CACHE) }
}

fn no_overrides() -> Overrides {
    Overrides { base_url: None, model: None, cache: None, api_key: None }
}

fn resolve_cfg(file: Option<&str>, env: &EnvValues, overrides: &Overrides) -> ProviderConfig {
    resolve(parse_file(file), env, overrides).unwrap().0
}

#[test]
fn defaults_apply_when_no_file_or_env_overrides() {
    let env = env_of(&[(ENV_API_KEY, "sk-test")]);
    let cfg = resolve_cfg(None, &env, &no_overrides());
    assert_eq!(cfg.api_key, "sk-test");
    assert_eq!(cfg.base_url, DEFAULT_BASE_URL);
    assert_eq!(cfg.model, DEFAULT_MODEL);
}

#[test]
fn file_overrides_defaults() {
    let env = env_of(&[(ENV_API_KEY, "sk-test")]);
    let file = "[ai]\nbase_url = \"https://file.example.com/v1\"\nmodel = \"file-model\"\n";
    let cfg = resolve_cfg(Some(file), &env, &no_overrides());
    assert_eq!(cfg.base_url, "https://file.example.com/v1");
    assert_eq!(cfg.model, "file-model");
}

#[test]
fn env_overrides_file() {
    let env = env_of(&[(ENV_API_KEY, "sk-test"), (ENV_BASE_URL, "https://env.example.com/v1"), (ENV_MODEL, "env-model")]);
    let file = "[ai]\nbase_url = \"https://file.example.com/v1\"\nmodel = \"file-model\"\n";
    let cfg = resolve_cfg(Some(file), &env, &no_overrides());
    assert_eq!(cfg.base_url, "https://env.example.com/v1");
    assert_eq!(cfg.model, "env-model");
}

#[test]
fn partial_file_falls_back_per_field() {
    let env = env_of(&[(ENV_API_KEY, "sk-test")]);
    let file = "[ai]\nmodel = \"file-model\"\n";
    let cfg = resolve_cfg(Some(file), &env, &no_overrides());
    assert_eq!(cfg.base_url, DEFAULT_BASE_URL);
    assert_eq!(cfg.model, "file-model");
}

#[test]
fn empty_file_is_treated_as_absent() {
    let env = env_of(&[(ENV_API_KEY, "sk-test")]);
    let cfg = resolve_cfg(Some("\n  \n"), &env, &no_overrides());
    assert_eq!(cfg.base_url, DEFAULT_BASE_URL);
    assert_eq!(cfg.model, DEFAULT_MODEL);
}

#[test]
fn overrides_env_and_file() {
    let env = env_of(&[(ENV_API_KEY, "sk-test"), (ENV_BASE_URL, "https://env.example.com/v1"), (ENV_MODEL, "env-model")]);
    let file = "[ai]\nbase_url = \"https://file.example.com/v1\"\nmodel = \"file-model\"\n";
    let overrides = Overrides {
        base_url: Some("https://cli.example.com/v1".to_string()),
        model: Some("cli-model".to_string()),
        cache: None,
        api_key: None,
    };
    let cfg = resolve_cfg(Some(file), &env, &overrides);
    assert_eq!(cfg.base_url, "https://cli.example.com/v1");
    assert_eq!(cfg.model, "cli-model");
}

#[test]
fn overrides_each_field_independently() {
    let env = env_of(&[(ENV_API_KEY, "sk-test")]);
    let overrides = Overrides { base_url: None, model: Some("cli-model".to_string()), cache: None, api_key: None };
    let cfg = resolve_cfg(None, &env, &overrides);
    assert_eq!(cfg.model, "cli-model");
    assert_eq!(cfg.base_url, DEFAULT_BASE_URL);
}

#[test]
fn api_key_resolves_independently_of_other_fields() {
    let env = env_of(&[]);
    let file = "[ai]\napi_key = \"sk-file\"\n";
    let (cfg, source) = resolve(parse_file(Some(file)), &env, &no_overrides()).unwrap();
    assert_eq!(cfg.api_key, "sk-file");
    assert_eq!(source, ApiKeySource::File);
    assert_eq!(cfg.base_url, DEFAULT_BASE_URL);
    assert_eq!(cfg.model, DEFAULT_MODEL);
    assert!(cfg.cache);
}

#[test]
fn cache_defaults_on() {
    let env = env_of(&[(ENV_API_KEY, "sk-test")]);
    let cfg = resolve_cfg(None, &env, &no_overrides());
    assert!(cfg.cache, "cache must default to on");
}

#[test]
fn cache_file_true_enables() {
    let env = env_of(&[(ENV_API_KEY, "sk-test")]);
    let cfg = resolve_cfg(Some("[ai]\ncache = true\n"), &env, &no_overrides());
    assert!(cfg.cache);
}

#[test]
fn cache_env_overrides_file() {
    let env = env_of(&[(ENV_API_KEY, "sk-test"), (ENV_CACHE, "true")]);
    let cfg = resolve_cfg(Some("[ai]\ncache = false\n"), &env, &no_overrides());
    assert!(cfg.cache, "env true must beat file false");
}

#[test]
fn cache_env_false_overrides_file_true() {
    let env = env_of(&[(ENV_API_KEY, "sk-test"), (ENV_CACHE, "false")]);
    let cfg = resolve_cfg(Some("[ai]\ncache = true\n"), &env, &no_overrides());
    assert!(!cfg.cache, "env false must beat file true");
}

#[test]
fn cache_override_beats_env() {
    let env = env_of(&[(ENV_API_KEY, "sk-test"), (ENV_CACHE, "false")]);
    let overrides = Overrides { base_url: None, model: None, cache: Some(true), api_key: None };
    let cfg = resolve_cfg(None, &env, &overrides);
    assert!(cfg.cache, "CLI --cache must beat env false");
}

#[test]
fn cache_resolves_independently_of_other_fields() {
    let env = env_of(&[(ENV_API_KEY, "sk-test")]);
    let cfg = resolve_cfg(Some("[ai]\ncache = true\n"), &env, &no_overrides());
    assert!(cfg.cache);
    assert_eq!(cfg.base_url, DEFAULT_BASE_URL);
    assert_eq!(cfg.model, DEFAULT_MODEL);
}

#[test]
fn cache_override_false_beats_env_true() {
    let env = env_of(&[(ENV_API_KEY, "sk-test"), (ENV_CACHE, "true")]);
    let overrides = Overrides { base_url: None, model: None, cache: Some(false), api_key: None };
    let cfg = resolve_cfg(None, &env, &overrides);
    assert!(!cfg.cache, "CLI --no-cache must beat env true");
}

#[test]
fn cache_env_accepts_all_boolean_spellings() {
    for (raw, expect) in [
        ("true", true),
        ("TRUE", true),
        ("1", true),
        ("yes", true),
        ("on", true),
        ("false", false),
        ("FALSE", false),
        ("0", false),
        ("no", false),
        ("off", false),
    ] {
        let env = env_of(&[(ENV_API_KEY, "sk-test"), (ENV_CACHE, raw)]);
        let cfg = resolve_cfg(None, &env, &no_overrides());
        assert_eq!(cfg.cache, expect, "SLIMCODE_AI_CACHE={raw:?}");
    }
}

#[test]
fn sessions_table_survives_ai_parse() {
    let env = env_of(&[(ENV_API_KEY, "sk-test")]);
    let cfg = resolve_cfg(Some("[sessions]\nmax_mb = 7\n"), &env, &no_overrides());
    assert_eq!(cfg.model, DEFAULT_MODEL);
}
