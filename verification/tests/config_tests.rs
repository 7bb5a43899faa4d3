use zad_al_muslim::config::{defaults, AppMode, ConfigStore, Theme};
use zad_al_muslim::json::{JsonNumber, JsonValue};

fn num(n: i64) -> JsonValue {
    JsonValue::Number(JsonNumber::Int(n))
}

fn text(t: &str) -> JsonValue {
    JsonValue::Str(t.to_string())
}

fn obj(members: Vec<(&str, JsonValue)>) -> JsonValue {
    JsonValue::Object(members.into_iter().map(|(k, v)| (k.to_string(), v)).collect())
}

#[test]
fn defaults_have_expected_keys() {
    let d = defaults();
    assert_eq!(d.get("interval").unwrap().as_i64().unwrap(), 30);
    assert_eq!(d.get("fontSize").unwrap().as_i64().unwrap(), 22);
    assert_eq!(d.get("appMode").unwrap().as_str().unwrap(), "sequential");
    assert!(d.get("firstRun").unwrap().as_bool().unwrap());
    assert_eq!(d.get("hReviewDays").unwrap().as_i64().unwrap(), 7);
}

#[test]
fn cfg_set_and_update() {
    let mut s = ConfigStore::new();
    s.cfg_set("index", num(42));
    assert_eq!(s.cfg_value("index").unwrap().as_i64().unwrap(), 42);
    s.cfg_update(&obj(vec![("index", num(7)), ("theme", text("dark"))]));
    assert_eq!(s.cfg_value("index").unwrap().as_i64().unwrap(), 7);
    assert_eq!(s.cfg_value("theme").unwrap().as_str().unwrap(), "dark");
}

#[test]
fn quran_remove_and_clear() {
    let mut s = ConfigStore::new();
    s.quran_update(&obj(vec![("a", num(1)), ("b", num(2))]));
    assert!(s.quran_remove("a"));
    assert!(!s.quran_remove("a"));
    let cleared = s.quran_clear();
    assert!(cleared.contains(&"b".to_string()));
    assert!(s.quran_get().as_object().unwrap().is_empty());
}

#[test]
fn mode_and_theme_names_round_trip() {
    for m in [AppMode::Sequential, AppMode::Alternating, AppMode::HadithOnly, AppMode::QuranOnly, AppMode::Both] {
        assert_eq!(AppMode::from_str(m.as_str()), m);
    }
    assert_eq!(AppMode::from_str("quranOnly"), AppMode::QuranOnly);
    assert_eq!(AppMode::from_str("nonsense"), AppMode::Sequential);
    assert_eq!(Theme::from_str("dark"), Theme::Dark);
    assert_eq!(Theme::from_str("DARK"), Theme::Light);
    assert_eq!(Theme::Dark.as_str(), "dark");
}

#[test]
fn cfg_write_of_wrong_type_keeps_setting() {
    let mut s = ConfigStore::new();
    s.cfg_set("interval", text("soon"));
    assert_eq!(s.cfg_value("interval").unwrap().as_i64().unwrap(), 30);
    s.cfg_set("unknownKey", num(5));
    assert!(s.cfg_value("unknownKey").is_none());
    s.cfg_set("widgetX", num(120));
    assert_eq!(s.cfg_value("widgetX").unwrap().as_i64().unwrap(), 120);
    s.cfg_set("widgetX", JsonValue::Null);
    assert!(s.cfg_value("widgetX").is_none());
}

#[test]
fn cfg_json_lists_every_setting() {
    let s = ConfigStore::new();
    let j = s.cfg_get();
    let o = j.as_object().unwrap();
    assert_eq!(o.len(), 19);
    assert_eq!(o[0].0, "interval");
    assert_eq!(o[18].0, "hReviews");
    assert!(j.get("widgetX").unwrap().is_null());
    assert_eq!(j.get("theme").unwrap().as_str().unwrap(), "light");
}

#[test]
fn quran_store_coerces_known_keys() {
    let mut s = ConfigStore::new();
    s.quran_set("dailyGoal", num(3));
    assert_eq!(s.quran_get().get("dailyGoal").unwrap().as_i64().unwrap(), 3);
    s.quran_set("dailyGoal", text("three"));
    assert!(s.quran_get().get("dailyGoal").is_none());
    s.quran_set("anything", text("kept"));
    assert_eq!(s.quran_get().get("anything").unwrap().as_str().unwrap(), "kept");
    assert!(s.quran_remove("dailyGoal"));
}

#[test]
fn load_cfg_merges_the_file_on_the_defaults() {
    let mut s = ConfigStore::new();
    s.cfg_set("index", num(9));
    s.cfg_set("widgetY", num(50));
    s.load_cfg(&obj(vec![("widgetY", JsonValue::Null), ("fontSize", num(30)), ("interval", num(12))]));
    assert_eq!(s.cfg_value("index").unwrap().as_i64().unwrap(), 0);
    assert!(s.cfg_value("widgetY").is_none());
    assert_eq!(s.cfg_value("fontSize").unwrap().as_i64().unwrap(), 30);
    assert_eq!(s.cfg_value("interval").unwrap().as_i64().unwrap(), 12);
    s.cfg_set("index", num(4));
    s.load_cfg(&JsonValue::Array(vec![]));
    assert_eq!(s.cfg_value("index").unwrap().as_i64().unwrap(), 4);
}

#[test]
fn typed_snapshots_copy_the_stores() {
    let mut s = ConfigStore::new();
    s.cfg_set("fontSize", num(40));
    s.quran_set("dailyGoal", num(6));
    let c = s.get_app_config();
    assert_eq!(c.font_size, 40);
    assert_eq!(c.theme, Theme::Light);
    let q = s.get_quran_config();
    assert_eq!(q.entries.len(), 1);
    assert_eq!(q.entries[0].0, "dailyGoal");
}

#[test]
fn saved_settings_load_back_unchanged() {
    let mut s = ConfigStore::new();
    s.cfg_set("index", num(17));
    s.cfg_set("theme", text("dark"));
    s.cfg_set("appMode", text("alternating"));
    s.cfg_set("widgetX", num(-40));
    s.cfg_set("hReviews", obj(vec![("3", num(99))]));
    let saved = s.cfg_get();
    let mut other = ConfigStore::new();
    other.cfg_set("interval", num(1));
    other.load_cfg(&saved);
    assert!(other.cfg_get().same_as(&saved));
}
