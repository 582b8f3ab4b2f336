use slimcode::app::config::ConfigAnswers;
use slimcode::app::config_file::{TomlItem, merge_config_toml, merge_document};

fn answers(base_url: Option<&str>, model: Option<&str>, api_key: Option<&str>) -> ConfigAnswers {
    ConfigAnswers {
        base_url: base_url.map(str::to_string),
        model: model.map(str::to_string),
        api_key: api_key.map(str::to_string),
    }
}

#[test]
fn merge_from_empty_sets_only_answered_fields() {
    let out = merge_config_toml(None, &answers(None, Some("qwen-max"), Some("sk-new"))).unwrap();
    assert!(out.contains("model = \"qwen-max\""), "out: {out}");
    assert!(out.contains("api_key = \"sk-new\""), "out: {out}");
    assert!(!out.contains("base_url"), "out: {out}");
    assert!(!out.contains("cache"), "cache must not be touched: {out}");
}

#[test]
fn merge_keeps_existing_values_for_empty_answers() {
    let existing = "[ai]\nbase_url = \"https://existing.example.com/v1\"\nmodel = \"m1\"\ncache = false\napi_key = \"sk-old\"\n";
    let out = merge_config_toml(Some(existing), &ConfigAnswers::default()).unwrap();
    assert!(out.contains("base_url = \"https://existing.example.com/v1\""), "out: {out}");
    assert!(out.contains("model = \"m1\""), "out: {out}");
    assert!(out.contains("api_key = \"sk-old\""), "out: {out}");
    assert!(out.contains("cache = false"), "cache must be preserved: {out}");
}

#[test]
fn merge_overrides_only_filled_fields_and_preserves_others() {
    let existing = "[ai]\nbase_url = \"https://existing.example.com/v1\"\nmodel = \"m1\"\ncache = false\n";
    let out = merge_config_toml(Some(existing), &answers(None, Some("m2"), Some("sk-new"))).unwrap();
    assert!(out.contains("base_url = \"https://existing.example.com/v1\""), "out: {out}");
    assert!(out.contains("model = \"m2\""), "out: {out}");
    assert!(out.contains("api_key = \"sk-new\""), "out: {out}");
    assert!(out.contains("cache = false"), "cache must be preserved: {out}");
}

#[test]
fn merge_does_not_touch_cache_when_absent_from_file() {
    let existing = "[ai]\nmodel = \"m1\"\n";
    let out = merge_config_toml(Some(existing), &answers(Some("https://new.example.com/v1"), None, None)).unwrap();
    assert!(!out.contains("cache"), "cache must not appear: {out}");
}

#[test]
fn merge_whitespace_answer_keeps_existing() {
    let existing = "[ai]\nmodel = \"m1\"\n";
    let out = merge_config_toml(Some(existing), &answers(None, Some("   "), None)).unwrap();
    assert!(out.contains("model = \"m1\""), "out: {out}");
}

#[test]
fn merge_trims_answers() {
    let out = merge_config_toml(None, &answers(None, Some("  qwen-turbo  "), Some("  sk-x  "))).unwrap();
    assert!(out.contains("model = \"qwen-turbo\""), "out: {out}");
    assert!(out.contains("api_key = \"sk-x\""), "out: {out}");
}

#[test]
fn merge_malformed_existing_errors() {
    let err = merge_config_toml(Some("[ai\n base_url = bad"), &ConfigAnswers::default()).unwrap_err();
    assert!(err.contains("config.toml"), "err: {err}");
    assert!(err.starts_with("config.toml: "), "err: {err}");
}

#[test]
fn merge_preserves_unknown_tables_and_keys() {
    let existing = "[ai]\nmodel = \"m1\"\nfuture_opt = 42\n\n[other]\nkeep = \"yes\"\n";
    let out = merge_config_toml(Some(existing), &answers(None, Some("m2"), None)).unwrap();
    assert!(out.contains("model = \"m2\""), "out: {out}");
    assert!(out.contains("future_opt = 42"), "unknown [ai] key lost: {out}");
    assert!(out.contains("[other]"), "non-[ai] table lost: {out}");
    assert!(out.contains("keep = \"yes\""), "other-table key lost: {out}");
}

#[test]
fn merge_empty_document_stays_empty() {
    let out = merge_config_toml(None, &ConfigAnswers::default()).unwrap();
    assert!(out.trim().is_empty(), "expected empty output, got: {out:?}");
}

#[test]
fn merge_document_refuses_a_non_table_ai_entry() {
    let doc = TomlItem::Table(vec![("ai".to_string(), TomlItem::Str("x".to_string()))]);
    let err = merge_document(doc, &answers(None, Some("m"), None)).unwrap_err();
    assert_eq!(err, "config.toml: `[ai]` must be a table");
    let err = merge_document(TomlItem::Str("x".to_string()), &answers(None, Some("m"), None)).unwrap_err();
    assert_eq!(err, "config.toml: top level must be a table");
}

#[test]
fn merge_document_sets_the_edits_and_keeps_the_rest() {
    let doc = TomlItem::Table(vec![
        ("other".to_string(), TomlItem::Other(toml::Value::Integer(7))),
        (
            "ai".to_string(),
            TomlItem::Table(vec![
                ("model".to_string(), TomlItem::Str("old".to_string())),
                ("cache".to_string(), TomlItem::Other(toml::Value::Boolean(false))),
            ]),
        ),
    ]);
    let merged = merge_document(doc, &answers(None, Some(" new "), None)).unwrap();
    let TomlItem::Table(es) = merged else { panic!("expected a table") };
    assert_eq!(es.len(), 2);
    assert!(matches!(&es[0], (k, TomlItem::Other(toml::Value::Integer(7))) if k == "other"));
    let TomlItem::Table(ai) = &es[1].1 else { panic!("expected the [ai] table") };
    assert!(matches!(&ai[0], (k, TomlItem::Str(v)) if k == "model" && v == "new"));
    assert!(matches!(&ai[1], (k, TomlItem::Other(toml::Value::Boolean(false))) if k == "cache"));
    // With no answer the document comes back as it was.
    let same = merge_document(TomlItem::Str("x".to_string()), &ConfigAnswers::default()).unwrap();
    assert!(matches!(same, TomlItem::Str(s) if s == "x"));
}

#[test]
fn merge_treats_blank_text_as_an_empty_document() {
    let out = merge_config_toml(Some("\n  \n"), &ConfigAnswers::default()).unwrap();
    assert!(out.trim().is_empty(), "expected empty output, got: {out:?}");
    let out = merge_config_toml(Some("  "), &answers(None, Some("m"), None)).unwrap();
    assert!(out.contains("model = \"m\""), "out: {out}");
}
