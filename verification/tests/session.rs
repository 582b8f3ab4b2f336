use slimcode::agent::session::{Message, Role};
use slimcode::app::session::{
    civil_from_days, fnv1a, infer_title, now_rfc3339, project_key, unix_to_rfc3339, SessionStore, DEFAULT_MAX_BYTES,
};

#[test]
fn unix_epoch_formats_rfc3339() {
    assert_eq!(unix_to_rfc3339(0), "1970-01-01T00:00:00Z");
}

#[test]
fn known_timestamp_formats_rfc3339() {
    let days = 56 * 365 + 14 + (31 + 28 + 31 + 30 + 31 + 30 + 31 + 28);
    let secs = days as i64 * 86_400 + 12 * 3600 + 34 * 60 + 56;
    assert_eq!(unix_to_rfc3339(secs), "2026-08-29T12:34:56Z");
}

#[test]
fn civil_from_days_known_dates() {
    assert_eq!(civil_from_days(0), (1970, 1, 1));
    let days_to_2000_03_01 = 30 * 365 + 7 + (31 + 29);
    assert_eq!(civil_from_days(days_to_2000_03_01), (2000, 3, 1));
}

#[test]
fn negative_and_far_timestamps_format() {
    assert_eq!(unix_to_rfc3339(-1), "1969-12-31T23:59:59Z");
    assert_eq!(civil_from_days(-719_468), (0, 3, 1));
    assert_eq!(unix_to_rfc3339(253_402_300_800), "10000-01-01T00:00:00Z");
}

#[test]
fn project_key_is_deterministic() {
    let p = "/home/u/work/repo";
    assert_eq!(project_key(p), project_key(p));
}

#[test]
fn project_key_disambiguates_same_basename() {
    let a = "/home/u/a/repo";
    let b = "/home/u/b/repo";
    assert_ne!(project_key(a), project_key(b));
    assert!(project_key(a).starts_with("repo-"));
    assert!(project_key(b).starts_with("repo-"));
    for key in [project_key(a), project_key(b)] {
        let digits = &key["repo-".len()..];
        assert_eq!(digits.len(), 12, "{key}");
        assert!(digits.chars().all(|c| c.is_ascii_digit() || ('a'..='f').contains(&c)), "{key}");
    }
}

#[test]
fn project_key_hashes_path_not_just_basename() {
    let a = "/home/u/repo";
    let b = "/home/v/repo";
    assert_ne!(project_key(a), project_key(b));
}

#[test]
fn project_key_uses_the_hash_of_the_path() {
    let hash = fnv1a("/home/u/repo".as_bytes());
    assert_eq!(project_key("/home/u/repo"), format!("repo-{:012x}", hash >> 16));
    assert!(project_key("/").starts_with("root-"));
    assert!(project_key("/a/b/./").starts_with("b-"));
    assert_eq!(fnv1a(b""), 0xcbf2_9ce4_8422_2325);
    assert_eq!(fnv1a(b"a"), 0xaf63_dc4c_8601_ec8c);
}

#[test]
fn title_from_first_user_message_truncated() {
    let msgs = vec![
        Message::text(Role::System, "be helpful"),
        Message::text(Role::User, "short prompt"),
        Message::text(Role::User, "second"),
    ];
    assert_eq!(infer_title(&msgs).unwrap(), "short prompt");
    let long = "x".repeat(60);
    let t = infer_title(&[Message::text(Role::User, &long)]).unwrap();
    assert_eq!(t, format!("{}\u{2026}", "x".repeat(48)));
    assert_eq!(infer_title(&[Message::text(Role::Assistant, "hi")]), None);
    assert_eq!(infer_title(&[Message::text(Role::User, "   ")]), None);
}

#[test]
fn session_path_validates_the_id() {
    let store = SessionStore::new("/tmp/sessions", "repo-abc", "/home/u/repo");
    assert_eq!(store.max_bytes, DEFAULT_MAX_BYTES);
    assert_eq!(store.session_path("s-1.x_y").unwrap(), "/tmp/sessions/repo-abc/s-1.x_y.jsonl");
    assert_eq!(store.session_path("../evil").unwrap_err(), "invalid session id: \"../evil\"");
    assert!(store.session_path("").is_err());
    assert!(store.session_path(&"a".repeat(129)).is_err());
    assert!(store.session_path(&"a".repeat(128)).is_ok());
    let small = SessionStore::new("", "p", "/h").with_max_bytes(10);
    assert_eq!(small.max_bytes, 10);
    assert_eq!(small.session_path("id").unwrap(), "p/id.jsonl");
}

#[test]
fn title_truncates_long_prompts() {
    let long = "x".repeat(100);
    let msgs = vec![Message::text(Role::User, &long)];
    let t = infer_title(&msgs).unwrap();
    assert!(t.chars().count() <= 48 + 1);
    assert!(t.ends_with('\u{2026}'));
}

#[test]
fn title_none_without_user_message() {
    let msgs = vec![Message::text(Role::System, "sys")];
    assert!(infer_title(&msgs).is_none());
}

#[test]
fn now_is_an_rfc3339_utc_timestamp_after_the_epoch() {
    let t = now_rfc3339();
    assert_eq!(t.len(), 20, "{t}");
    assert!(t.ends_with('Z'));
    assert_eq!(&t[4..5], "-");
    assert_eq!(&t[10..11], "T");
    assert!(t.as_str() > "2020-01-01T00:00:00Z", "{t}");
}
