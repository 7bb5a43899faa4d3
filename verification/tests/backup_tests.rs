use zad_al_muslim::backup::{backup_document, backup_now, restore_backup, RestoreError};
use zad_al_muslim::config::{AppMode, ConfigStore, Theme};
use zad_al_muslim::json::{JsonNumber, JsonValue};

fn num(n: i64) -> JsonValue {
    JsonValue::Number(JsonNumber::Int(n))
}

fn text(t: &str) -> JsonValue {
    JsonValue::Str(t.to_string())
}

fn obj(members: Vec<(&str, JsonValue)>) -> JsonValue {
    JsonValue::Object(members.into_iter().map(|(k, v)| (k.to_string(), v)).collect())
}

#[test]
fn backup_document_holds_both_stores() {
    let mut s = ConfigStore::new();
    s.cfg.index = 12;
    s.quran_set("dailyGoal", num(4));
    let doc = backup_document(&s, "2024-01-01T00:00:00+00:00".to_string());
    assert_eq!(doc.get("version").unwrap().as_i64().unwrap(), 2);
    assert_eq!(doc.get("date").unwrap().as_str().unwrap(), "2024-01-01T00:00:00+00:00");
    assert_eq!(doc.get("cfg").unwrap().get("index").unwrap().as_i64().unwrap(), 12);
    assert_eq!(doc.get("quran").unwrap().get("dailyGoal").unwrap().as_i64().unwrap(), 4);
}

#[test]
fn backup_now_is_stamped() {
    let s = ConfigStore::new();
    let doc = backup_now(&s);
    let date = doc.get("date").unwrap().as_str().unwrap();
    assert!(date.len() >= 20, "{}", date);
    assert!(date.starts_with("20"), "{}", date);
}

#[test]
fn restore_brings_back_what_was_backed_up() {
    let mut s = ConfigStore::new();
    s.cfg.index = 9;
    s.cfg.theme = Theme::Dark;
    s.cfg.app_mode = AppMode::QuranOnly;
    s.cfg.first_run = false;
    s.cfg.h_reviews.push(("3".to_string(), 1234));
    s.quran_set("currentQuranPage", num(77));
    let doc = backup_document(&s, "d".to_string());

    let mut other = ConfigStore::new();
    other.cfg.interval = 5;
    let out = restore_backup(&mut other, &doc).ok().unwrap();
    assert!(out.quran_restored);
    assert_eq!(out.auto_launch, other.cfg.auto_launch);
    assert_eq!(other.cfg.index, 9);
    assert_eq!(other.cfg.interval, 30);
    assert_eq!(other.cfg.theme, Theme::Dark);
    assert_eq!(other.cfg.app_mode, AppMode::QuranOnly);
    assert!(!other.cfg.first_run);
    assert_eq!(other.cfg.h_reviews, vec![("3".to_string(), 1234)]);
    assert_eq!(other.quran_get().get("currentQuranPage").unwrap().as_i64().unwrap(), 77);
}

#[test]
fn restore_accepts_bare_settings() {
    let mut s = ConfigStore::new();
    s.cfg.font_size = 40;
    let out = restore_backup(&mut s, &obj(vec![("index", num(2)), ("theme", text("dark"))])).ok().unwrap();
    assert!(!out.quran_restored);
    assert_eq!(s.cfg.index, 2);
    assert_eq!(s.cfg.theme, Theme::Dark);
    assert_eq!(s.cfg.font_size, 22);
}

#[test]
fn restore_refuses_a_document_without_index() {
    let mut s = ConfigStore::new();
    s.cfg.index = 6;
    let r = restore_backup(&mut s, &obj(vec![("cfg", obj(vec![("index", text("x"))]))]));
    assert_eq!(r.err(), Some(RestoreError::InvalidFileFormat));
    assert_eq!(s.cfg.index, 6);
    let r2 = restore_backup(&mut s, &JsonValue::Array(vec![]));
    assert_eq!(r2.err(), Some(RestoreError::InvalidFileFormat));
}

#[test]
fn backup_clear_restore_gives_back_the_quran_store() {
    let mut s = ConfigStore::new();
    s.quran_set("dailyGoal", num(3));
    s.quran_set("recentReadings", JsonValue::Array(vec![obj(vec![("date", text("2024-02-02")), ("page", num(5))])]));
    s.quran_set("hideHeader", JsonValue::Bool(true));
    let before = s.quran_get();
    let doc = backup_document(&s, "d".to_string());
    s.quran_clear();
    restore_backup(&mut s, &doc).ok().unwrap();
    assert!(s.quran_get().same_as(&before));
}

#[test]
fn restore_replaces_the_quran_store() {
    let mut s = ConfigStore::new();
    s.quran_set("dailyGoal", num(2));
    let doc = backup_document(&s, "d".to_string());
    s.quran_set("pausedUntil", num(5));
    s.quran_set("dailyGoal", num(9));
    restore_backup(&mut s, &doc).ok().unwrap();
    let q = s.quran_get();
    assert!(q.get("pausedUntil").is_none());
    assert_eq!(q.get("dailyGoal").unwrap().as_i64().unwrap(), 2);
}
