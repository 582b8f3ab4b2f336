//! Application configuration resolution.
//!
//! `config.toml` holds overrides (`[ai] base_url` / `model` / `cache` /
//! `api_key`, plus `[sessions] max_mb` for the session storage quota).
//! Precedence is frontend overrides (`--base-url` / `--model` / `--api-key` /
//! `--cache`) > environment (`SLIMCODE_AI_BASE_URL` / `SLIMCODE_AI_MODEL` /
//! `DASHSCOPE_API_KEY` / `SLIMCODE_AI_CACHE`) > `config.toml` > defaults. The
//! API key has three sources and no default; empty or whitespace-only keys
//! count as absent. The session quota is file > default only.
//!
//! Resolution here is pure: it takes the parsed file (or the parse error),
//! the values of the environment variables it reads, and the overrides.
use vstd::prelude::*;
use crate::ai::config::{DEFAULT_BASE_URL, DEFAULT_MODEL, ProviderConfig};
use crate::text::{push_str, trim, trim_str, to_ascii_lower, ascii_lower_seq, eq_str, debug_quoted, debug_str};

verus! {

/// Default session quota in MiB.
pub const DEFAULT_MAX_MB: u64 = 500;
/// Environment variable holding the API key.
pub const ENV_API_KEY: &'static str = "DASHSCOPE_API_KEY";
/// Environment variable overriding the endpoint base URL.
pub const ENV_BASE_URL: &'static str = "SLIMCODE_AI_BASE_URL";
/// Environment variable overriding the model.
pub const ENV_MODEL: &'static str = "SLIMCODE_AI_MODEL";
/// Environment variable overriding explicit context caching.
pub const ENV_CACHE: &'static str = "SLIMCODE_AI_CACHE";
/// Environment variable overriding the slimcode home directory.
pub const ENV_HOME: &'static str = "SLIMCODE_HOME";

/// Where the resolved API key came from (drives the `chmod 600` hint when
/// the key was read from the plaintext config file).
#[derive(Clone, Copy, Debug, PartialEq, Eq, Structural)]
pub enum ApiKeySource {
    /// `--api-key` on the command line.
    Cli,
    /// The `DASHSCOPE_API_KEY` environment variable.
    Env,
    /// `config.toml` `[ai] api_key`.
    File,
}

/// Frontend-supplied overrides; `None` means "not given", so resolution
/// falls through to environment / file / default.
#[derive(Clone, Debug, PartialEq, Eq)]
pub struct Overrides {
    pub base_url: Option<String>,
    pub model: Option<String>,
    pub cache: Option<bool>,
    pub api_key: Option<String>,
}

impl Default for Overrides {
    fn default() -> (o: Overrides)
        ensures
            o.base_url is None,
            o.model is None,
            o.cache is None,
            o.api_key is None,
    {
        Overrides { base_url: None, model: None, cache: None, api_key: None }
    }
}

/// The editable `[ai]` fields. As current values `None` means absent; as
/// answers `None` (or all-whitespace) means "keep the existing value".
#[derive(Clone, Debug, PartialEq, Eq)]
pub struct ConfigAnswers {
    pub base_url: Option<String>,
    pub model: Option<String>,
    pub api_key: Option<String>,
}

impl Default for ConfigAnswers {
    fn default() -> (a: ConfigAnswers)
        ensures
            a.base_url is None,
            a.model is None,
            a.api_key is None,
    {
        ConfigAnswers { base_url: None, model: None, api_key: None }
    }
}

/// The `config.toml` file shape; absent tables and keys are `None`.
#[derive(Clone, Debug, PartialEq, Eq)]
pub struct FileConfig {
    pub ai: FileAi,
    pub sessions: FileSessions,
}

/// The `[ai]` table.
#[derive(Clone, Debug, PartialEq, Eq)]
pub struct FileAi {
    pub base_url: Option<String>,
    pub model: Option<String>,
    pub cache: Option<bool>,
    pub api_key: Option<String>,
}

/// The `[sessions]` table.
#[derive(Clone, Debug, PartialEq, Eq)]
pub struct FileSessions {
    pub max_mb: Option<u64>,
}

/// The values of the environment variables resolution reads (`None` when
/// unset).
#[derive(Clone, Debug, PartialEq, Eq)]
pub struct EnvValues {
    /// `DASHSCOPE_API_KEY`
    pub api_key: Option<String>,
    /// `SLIMCODE_AI_BASE_URL`
    pub base_url: Option<String>,
    /// `SLIMCODE_AI_MODEL`
    pub model: Option<String>,
    /// `SLIMCODE_AI_CACHE`
    pub cache: Option<String>,
}

/// The resolved, non-secret application settings handed to frontends.
#[derive(Clone, Debug, PartialEq, Eq)]
pub struct AppConfig {
    pub provider: ProviderConfig,
    pub api_key_source: ApiKeySource,
    pub sessions_max_bytes: u64,
}

pub open spec fn ostr(o: Option<String>) -> Option<Seq<char>> {
    match o {
        Some(s) => Some(s@),
        None => None,
    }
}

pub open spec fn ostr_ref(o: Option<&str>) -> Option<Seq<char>> {
    match o {
        Some(s) => Some(s@),
        None => None,
    }
}

/// One config value: override > environment > file > default.
pub open spec fn spec_pick(
    override_: Option<Seq<char>>,
    env: Option<Seq<char>>,
    file: Option<Seq<char>>,
    default: Seq<char>,
) -> Seq<char> {
    match override_ {
        Some(v) => v,
        None => match env {
            Some(v) => v,
            None => match file {
                Some(v) => v,
                None => default,
            },
        },
    }
}

/// Resolve one config value: overrides > env > file > default.
pub fn pick_value(override_: Option<&str>, env: Option<String>, file: Option<&str>, default: &str) -> (r: String)
    ensures
        r@ == spec_pick(ostr_ref(override_), ostr(env), ostr_ref(file), default@),
{
    match override_ {
        Some(v) => v.to_owned(),
        None => match env {
            Some(v) => v,
            None => match file {
                Some(v) => v.to_owned(),
                None => default.to_owned(),
            },
        },
    }
}

/// The spellings accepted as true.
pub open spec fn spec_bool_true(v: Seq<char>) -> bool {
    v == "true"@ || v == "1"@ || v == "yes"@ || v == "on"@
}

/// The spellings accepted as false.
pub open spec fn spec_bool_false(v: Seq<char>) -> bool {
    v == "false"@ || v == "0"@ || v == "no"@ || v == "off"@
}

/// The error for a value that is no boolean spelling.
pub open spec fn bool_error(var: Seq<char>, value: Seq<char>) -> Seq<char> {
    var + " must be one of true/false/1/0/yes/no/on/off, got "@ + debug_str(value)
}

/// A boolean environment value, ASCII case-insensitively.
pub open spec fn spec_parse_env_bool(var: Seq<char>, value: Seq<char>) -> Result<bool, Seq<char>> {
    let l = ascii_lower_seq(value);
    if spec_bool_true(l) {
        Ok(true)
    } else if spec_bool_false(l) {
        Ok(false)
    } else {
        Err(bool_error(var, value))
    }
}

pub open spec fn res_view(r: Result<bool, String>) -> Result<bool, Seq<char>> {
    match r {
        Ok(b) => Ok(b),
        Err(e) => Err(e@),
    }
}

/// Parse a boolean env value (`true`/`false`/`1`/`0`/`yes`/`no`/`on`/`off`,
/// case-insensitive). Any other value is an error naming the variable.
pub fn parse_env_bool(var: &str, value: &str) -> (r: Result<bool, String>)
    ensures
        res_view(r) == spec_parse_env_bool(var@, value@),
{
    let lower = to_ascii_lower(value);
    let l = lower.as_str();
    if eq_str(l, "true") || eq_str(l, "1") || eq_str(l, "yes") || eq_str(l, "on") {
        Ok(true)
    } else if eq_str(l, "false") || eq_str(l, "0") || eq_str(l, "no") || eq_str(l, "off") {
        Ok(false)
    } else {
        let mut msg = var.to_owned();
        push_str(&mut msg, " must be one of true/false/1/0/yes/no/on/off, got ");
        let shown = debug_quoted(value);
        push_str(&mut msg, shown.as_str());
        Err(msg)
    }
}

/// A key value that counts: trimmed, and absent when empty.
pub open spec fn key_of(o: Option<Seq<char>>) -> Option<Seq<char>> {
    match o {
        Some(k) => if trim(k).len() > 0 {
            Some(trim(k))
        } else {
            None
        },
        None => None,
    }
}

fn key_value(o: &Option<String>) -> (r: Option<String>)
    ensures
        ostr(r) == key_of(ostr(*o)),
{
    match o {
        Some(k) => {
            let t = trim_str(k.as_str());
            if t.as_str().is_empty() {
                None
            } else {
                Some(t)
            }
        },
        None => None,
    }
}

/// The error when no API key is configured.
pub open spec fn missing_key_error() -> Seq<char> {
    "no API key configured. Set DASHSCOPE_API_KEY (e.g. export DASHSCOPE_API_KEY=sk-...) or add `[ai] api_key = \"sk-...\"` to config.toml"@
}

/// The parsed file, when there is one.
pub open spec fn parsed(file: Option<Result<FileConfig, String>>) -> Option<FileConfig> {
    match file {
        Some(Ok(f)) => Some(f),
        _ => None,
    }
}

/// The resolved API key and its source: `--api-key` > environment > file.
pub open spec fn spec_api_key(
    file: Option<FileConfig>,
    env: EnvValues,
    overrides: Overrides,
) -> Option<(Seq<char>, ApiKeySource)> {
    let file_key = match file {
        Some(f) => key_of(ostr(f.ai.api_key)),
        None => None,
    };
    match key_of(ostr(overrides.api_key)) {
        Some(k) => Some((k, ApiKeySource::Cli)),
        None => match key_of(ostr(env.api_key)) {
            Some(k) => Some((k, ApiKeySource::Env)),
            None => match file_key {
                Some(k) => Some((k, ApiKeySource::File)),
                None => None,
            },
        },
    }
}

/// The resolved cache flag: override > environment (strictly parsed) >
/// file > on.
pub open spec fn spec_cache(file: Option<FileConfig>, env: EnvValues, overrides: Overrides) -> Result<bool, Seq<char>> {
    match overrides.cache {
        Some(v) => Ok(v),
        None => match env.cache {
            Some(raw) => spec_parse_env_bool("SLIMCODE_AI_CACHE"@, raw@),
            None => Ok(
                match file {
                    Some(f) => match f.ai.cache {
                        Some(c) => c,
                        None => true,
                    },
                    None => true,
                },
            ),
        },
    }
}

/// What resolution gives: the provider config's strings and flag and the
/// key's source, or the error text.
pub ghost enum Resolved {
    Config { api_key: Seq<char>, base_url: Seq<char>, model: Seq<char>, cache: bool, source: ApiKeySource },
    Failed(Seq<char>),
}

/// The resolution rule. A file that failed to parse is an error first; then
/// a missing API key; then an invalid cache variable.
pub open spec fn spec_resolve(file: Option<Result<FileConfig, String>>, env: EnvValues, overrides: Overrides) -> Resolved {
    match file {
        Some(Err(e)) => Resolved::Failed("config.toml: "@ + e@),
        _ => {
            let f = parsed(file);
            match spec_api_key(f, env, overrides) {
                None => Resolved::Failed(missing_key_error()),
                Some((key, source)) => match spec_cache(f, env, overrides) {
                    Err(e) => Resolved::Failed(e),
                    Ok(cache) => Resolved::Config {
                        api_key: key,
                        base_url: spec_pick(
                            ostr(overrides.base_url),
                            ostr(env.base_url),
                            match f {
                                Some(c) => ostr(c.ai.base_url),
                                None => None,
                            },
                            DEFAULT_BASE_URL@,
                        ),
                        model: spec_pick(
                            ostr(overrides.model),
                            ostr(env.model),
                            match f {
                                Some(c) => ostr(c.ai.model),
                                None => None,
                            },
                            DEFAULT_MODEL@,
                        ),
                        cache,
                        source,
                    },
                },
            }
        },
    }
}

pub open spec fn resolved_view(r: Result<(ProviderConfig, ApiKeySource), String>) -> Resolved {
    match r {
        Ok((c, s)) => Resolved::Config {
            api_key: c.api_key@,
            base_url: c.base_url@,
            model: c.model@,
            cache: c.cache,
            source: s,
        },
        Err(e) => Resolved::Failed(e@),
    }
}

fn opt_as_str(o: &Option<String>) -> (r: Option<&str>)
    ensures
        ostr_ref(r) == ostr(*o),
{
    match o {
        Some(s) => Some(s.as_str()),
        None => None,
    }
}

/// Pure resolution core: given the config file (absent, parsed, or the parse
/// error text), the environment values and the overrides, the provider
/// config plus where the API key came from.
pub fn resolve(
    file: Option<Result<FileConfig, String>>,
    env: &EnvValues,
    overrides: &Overrides,
) -> (r: Result<(ProviderConfig, ApiKeySource), String>)
    ensures
        resolved_view(r) == spec_resolve(file, *env, *overrides),
        r matches Ok((c, _)) ==> c.max_tokens is None,
{
    let f: Option<FileConfig> = match file {
        Some(Err(e)) => {
            let mut msg = String::from_str("config.toml: ");
            push_str(&mut msg, e.as_str());
            return Err(msg);
        },
        Some(Ok(c)) => Some(c),
        None => None,
    };
    let cli_key = key_value(&overrides.api_key);
    let env_key = key_value(&env.api_key);
    let file_key = match &f {
        Some(c) => key_value(&c.ai.api_key),
        None => None,
    };
    let (api_key, source) = match cli_key {
        Some(k) => (k, ApiKeySource::Cli),
        None => match env_key {
            Some(k) => (k, ApiKeySource::Env),
            None => match file_key {
                Some(k) => (k, ApiKeySource::File),
                None => {
                    let mut msg = String::from_str("no API key configured. Set ");
                    push_str(&mut msg, ENV_API_KEY);
                    push_str(&mut msg, " (e.g. export ");
                    push_str(&mut msg, ENV_API_KEY);
                    push_str(&mut msg, "=sk-...) or add `[ai] api_key = \"sk-...\"` to config.toml");
                    proof {
                        reveal_strlit("no API key configured. Set ");
                        reveal_strlit("DASHSCOPE_API_KEY");
                        reveal_strlit(" (e.g. export ");
                        reveal_strlit("=sk-...) or add `[ai] api_key = \"sk-...\"` to config.toml");
                        reveal_strlit("no API key configured. Set DASHSCOPE_API_KEY (e.g. export DASHSCOPE_API_KEY=sk-...) or add `[ai] api_key = \"sk-...\"` to config.toml");
                        assert(msg@ == missing_key_error());
                    }
                    return Err(msg);
                },
            },
        },
    };
    let (file_base_url, file_model): (Option<&str>, Option<&str>) = match &f {
        Some(c) => (opt_as_str(&c.ai.base_url), opt_as_str(&c.ai.model)),
        None => (None, None),
    };
    let base_url = pick_value(opt_as_str(&overrides.base_url), env.base_url.clone(), file_base_url, DEFAULT_BASE_URL);
    let model = pick_value(opt_as_str(&overrides.model), env.model.clone(), file_model, DEFAULT_MODEL);
    let cache: bool = match overrides.cache {
        Some(v) => v,
        None => match &env.cache {
            Some(raw) => match parse_env_bool(ENV_CACHE, raw.as_str()) {
                Ok(b) => b,
                Err(e) => {
                    return Err(e);
                },
            },
            None => match &f {
                Some(c) => match c.ai.cache {
                    Some(v) => v,
                    None => true,
                },
                None => true,
            },
        },
    };
    proof {
        reveal_strlit("SLIMCODE_AI_CACHE");
    }
    let cfg = ProviderConfig::new(api_key.as_str(), base_url.as_str(), model.as_str()).with_cache(cache);
    Ok((cfg, source))
}

/// Convert a MiB value to bytes (1024² per MiB).
pub fn max_mb_to_bytes(max_mb: u64) -> (b: u64)
    requires
        max_mb * 1024 * 1024 <= u64::MAX,
    ensures
        b == max_mb * 1024 * 1024,
{
    max_mb * 1024 * 1024
}

/// The session quota in MiB: the file's `[sessions] max_mb`, or the default
/// when there is no file, the file failed to parse, or the key is absent.
pub open spec fn spec_max_mb(file: Option<Result<FileConfig, String>>) -> u64 {
    match file {
        Some(Ok(f)) => match f.sessions.max_mb {
            Some(m) => m,
            None => DEFAULT_MAX_MB,
        },
        _ => DEFAULT_MAX_MB,
    }
}

/// Resolve `[sessions] max_mb`: the file value or the default (500),
/// tolerant of an unparseable file.
pub fn resolve_max_mb(file: &Option<Result<FileConfig, String>>) -> (m: u64)
    ensures
        m == spec_max_mb(*file),
{
    match file {
        Some(Ok(f)) => match f.sessions.max_mb {
            Some(m) => m,
            None => DEFAULT_MAX_MB,
        },
        _ => DEFAULT_MAX_MB,
    }
}

/// The current editable `[ai]` values of a config file; all absent when
/// there is no file or it failed to parse.
pub fn read_ai_fields(file: &Option<Result<FileConfig, String>>) -> (a: ConfigAnswers)
    ensures
        match parsed(*file) {
            Some(f) => ostr(a.base_url) == ostr(f.ai.base_url) && ostr(a.model) == ostr(f.ai.model)
                && ostr(a.api_key) == ostr(f.ai.api_key),
            None => a.base_url is None && a.model is None && a.api_key is None,
        },
{
    match file {
        Some(Ok(f)) => ConfigAnswers {
            base_url: f.ai.base_url.clone(),
            model: f.ai.model.clone(),
            api_key: f.ai.api_key.clone(),
        },
        _ => ConfigAnswers::default(),
    }
}

/// The `[ai]` edits a `config` run makes: each non-empty answer, trimmed,
/// under its key, in the order `base_url`, `model`, `api_key`.
pub open spec fn spec_edits(answers: ConfigAnswers) -> Seq<(Seq<char>, Seq<char>)> {
    (match key_of(ostr(answers.base_url)) {
        Some(v) => seq![("base_url"@, v)],
        None => Seq::empty(),
    }) + (match key_of(ostr(answers.model)) {
        Some(v) => seq![("model"@, v)],
        None => Seq::empty(),
    }) + (match key_of(ostr(answers.api_key)) {
        Some(v) => seq![("api_key"@, v)],
        None => Seq::empty(),
    })
}

pub open spec fn edits_view(v: Seq<(&'static str, String)>) -> Seq<(Seq<char>, Seq<char>)> {
    v.map_values(|e: (&'static str, String)| (e.0@, e.1@))
}

/// The `[ai]` edits a `config` run makes: non-empty answers only, trimmed;
/// an empty or absent answer leaves its field untouched.
pub fn config_edits(answers: &ConfigAnswers) -> (edits: Vec<(&'static str, String)>)
    ensures
        edits_view(edits@) == spec_edits(*answers),
{
    let mut edits: Vec<(&'static str, String)> = Vec::new();
    match key_value(&answers.base_url) {
        Some(v) => edits.push(("base_url", v)),
        None => {},
    }
    let ghost e1 = edits@;
    match key_value(&answers.model) {
        Some(v) => edits.push(("model", v)),
        None => {},
    }
    let ghost e2 = edits@;
    match key_value(&answers.api_key) {
        Some(v) => edits.push(("api_key", v)),
        None => {},
    }
    assert(edits_view(edits@) == spec_edits(*answers));
    edits
}

/// Precedence: whenever every layer gives a base URL, the override wins;
/// without an override the environment beats the file; the default only
/// fills in when no layer gives one.
pub proof fn lemma_pick_precedence(o: Option<Seq<char>>, e: Option<Seq<char>>, f: Option<Seq<char>>, d: Seq<char>)
    ensures
        o matches Some(v) ==> spec_pick(o, e, f, d) == v,
        o is None ==> (e matches Some(v) ==> spec_pick(o, e, f, d) == v),
        o is None && e is None ==> (f matches Some(v) ==> spec_pick(o, e, f, d) == v),
        o is None && e is None && f is None ==> spec_pick(o, e, f, d) == d,
{
}

/// The `config.toml` text worth parsing: absent or blank text counts as no
/// file at all.
pub fn config_text(text: Option<&str>) -> (r: Option<&str>)
    ensures
        r == (match text {
            Some(s) => if trim(s@).len() > 0 {
                Some(s)
            } else {
                None
            },
            None => None,
        }),
{
    match text {
        Some(s) => {
            let t = trim_str(s);
            if t.as_str().is_empty() {
                None
            } else {
                Some(s)
            }
        },
        None => None,
    }
}

} // verus!
