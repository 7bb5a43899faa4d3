use zad_al_muslim::config::{AppMode, ConfigStore, Theme};
use zad_al_muslim::data_loader::DataLoader;
use zad_al_muslim::ipc::{
    silences_at, silences_now,
    advance, is_allowed_quran_key, m_get_fonts, q_bg_message, q_set_pages_per_session, q_store_clear,
    q_store_get, q_store_remove, q_store_set, ready_payload, s_get, s_jump, s_reset, s_save, w_forgot,
    w_forgot_now, w_memorized, w_memorized_now, w_next, w_prev, welcome_done, QBgMessage, QBgResponse,
};
use zad_al_muslim::json::{JsonNumber, JsonValue};

fn num(n: i64) -> JsonValue {
    JsonValue::Number(JsonNumber::Int(n))
}

fn text(t: &str) -> JsonValue {
    JsonValue::Str(t.to_string())
}

fn obj(members: Vec<(&str, JsonValue)>) -> JsonValue {
    JsonValue::Object(members.into_iter().map(|(k, v)| (k.to_string(), v)).collect())
}

fn review_of(s: &ConfigStore, key: &str) -> Option<i64> {
    s.cfg.h_reviews.iter().find(|(k, _)| k == key).map(|(_, t)| *t)
}

#[test]
fn quran_whitelist() {
    assert!(is_allowed_quran_key("dailyGoal"));
    assert!(is_allowed_quran_key("recentReadings"));
    assert!(!is_allowed_quran_key("preloadedPages"));
    assert!(!is_allowed_quran_key("widgetSize"));
    assert!(!is_allowed_quran_key("__proto__"));
    assert!(!is_allowed_quran_key("interval"));
    assert!(!is_allowed_quran_key("DailyGoal"));
}

#[test]
fn store_set_writes_allowed_changes_only() {
    let mut s = ConfigStore::new();
    s.quran_set("reviewDays", num(4));
    let out = q_store_set(
        &mut s,
        &obj(vec![("reviewDays", num(4)), ("currentQuranPage", num(12)), ("secret", num(1)), ("pausedUntil", num(99))]),
    );
    assert!(out.had_progress);
    assert!(out.pause_changed);
    let changed = out.changed.as_object().unwrap();
    assert_eq!(changed.len(), 2);
    assert_eq!(changed[0].0, "currentQuranPage");
    assert_eq!(changed[0].1.get("newValue").unwrap().as_i64().unwrap(), 12);
    let q = s.quran_get();
    assert!(q.get("secret").is_none());
    assert_eq!(q.get("currentQuranPage").unwrap().as_i64().unwrap(), 12);
    let quiet = q_store_set(&mut s, &obj(vec![("currentQuranPage", num(12))]));
    assert!(!quiet.had_progress);
    assert!(quiet.changed.as_object().unwrap().is_empty());
}

#[test]
fn store_get_reads_listed_keys() {
    let mut s = ConfigStore::new();
    s.quran_set("dailyGoal", num(5));
    let got = q_store_get(&s, &JsonValue::Array(vec![text("dailyGoal"), text("reviewIndex")]));
    assert_eq!(got.get("dailyGoal").unwrap().as_i64().unwrap(), 5);
    assert!(got.get("reviewIndex").unwrap().is_null());
}

#[test]
fn store_remove_and_clear_report_changes() {
    let mut s = ConfigStore::new();
    s.quran_set("dailyGoal", num(5));
    s.quran_set("custom", text("x"));
    let removed = q_store_remove(&mut s, &text("dailyGoal"));
    assert!(removed.get("dailyGoal").is_some());
    assert!(s.quran_get().get("dailyGoal").is_none());
    let cleared = q_store_clear(&mut s);
    assert!(cleared.get("custom").is_some());
    assert!(cleared.get("recentReadings").is_some());
    assert!(s.quran_get().as_object().unwrap().is_empty());
}

#[test]
fn pages_per_session_is_stored() {
    let mut s = ConfigStore::new();
    q_set_pages_per_session(&mut s, 3);
    assert_eq!(s.quran_get().get("reviewPagesPerSession").unwrap().as_i64().unwrap(), 3);
}

#[test]
fn settings_form_is_bounded() {
    let mut s = ConfigStore::new();
    let auto = s_save(
        &mut s,
        &obj(vec![
            ("interval", num(0)),
            ("fontSize", text("99")),
            ("theme", text("dark")),
            ("appMode", text("both")),
            ("autoLaunch", JsonValue::Bool(true)),
            ("hReviewDays", num(-3)),
            ("cMatn", text("#000000")),
        ]),
    );
    assert!(auto);
    assert_eq!(s.cfg.interval, 1);
    assert_eq!(s.cfg.font_size, 72);
    assert_eq!(s.cfg.theme, Theme::Dark);
    assert_eq!(s.cfg.app_mode, AppMode::Both);
    assert_eq!(s.cfg.h_review_days, 1);
    assert_eq!(s.cfg.c_matn, "#000000");
    assert_eq!(s.cfg.c_sanad, "#5d7a69");
    assert!(!s.cfg.h_review_enabled);
    let auto2 = s_save(&mut s, &obj(vec![("fontSize", num(5))]));
    assert!(!auto2);
    assert_eq!(s.cfg.font_size, 12);
    assert_eq!(s.cfg.interval, 30);
    assert_eq!(s.cfg.theme, Theme::Light);
}

#[test]
fn settings_view_adds_total() {
    let s = ConfigStore::new();
    let dl = DataLoader::new();
    let v = s_get(&s, &dl);
    assert_eq!(v.get("total").unwrap().as_i64().unwrap(), 0);
    assert_eq!(v.get("interval").unwrap().as_i64().unwrap(), 30);
}

#[test]
fn jump_reset_next_prev() {
    let mut s = ConfigStore::new();
    assert!(s_jump(&mut s, 10, 4));
    assert_eq!(s.cfg.index, 4);
    assert!(!s_jump(&mut s, 10, 10));
    assert!(!s_jump(&mut s, 10, -1));
    assert_eq!(s.cfg.index, 4);
    assert_eq!(w_next(&mut s, 4, 10), 5);
    assert_eq!(w_next(&mut s, 9, 10), 9);
    assert_eq!(w_next(&mut s, 3, 0), 0);
    assert_eq!(w_prev(&mut s, 0), 0);
    assert_eq!(w_prev(&mut s, 7), 6);
    assert_eq!(s.cfg.index, 6);
    s_reset(&mut s);
    assert_eq!(s.cfg.index, 0);
}

#[test]
fn advance_stays_within_the_hadiths() {
    let mut s = ConfigStore::new();
    assert_eq!(advance(&mut s, 5, -1), 0);
    assert_eq!(advance(&mut s, 5, 1), 1);
    s.cfg.index = 4;
    assert_eq!(advance(&mut s, 5, 1), 4);
    assert_eq!(advance(&mut s, 0, 1), 0);
}

#[test]
fn memorized_schedules_review_and_moves_on() {
    let mut s = ConfigStore::new();
    s.cfg.h_review_enabled = true;
    s.cfg.h_review_days = 2;
    s.cfg.index = 3;
    w_memorized(&mut s, 3, 4, 1000);
    assert_eq!(review_of(&s, "3"), Some(1000 + 2 * 86_400_000));
    assert_eq!(s.cfg.index, 0);
    w_memorized(&mut s, 1, 4, 5000);
    assert_eq!(review_of(&s, "1"), Some(5000 + 2 * 86_400_000));
    assert_eq!(s.cfg.index, 0);
    s.cfg.h_review_enabled = false;
    w_memorized(&mut s, 0, 4, 7000);
    assert_eq!(s.cfg.index, 1);
    assert_eq!(s.cfg.h_reviews.len(), 2);
}

#[test]
fn forgot_is_due_a_day_later() {
    let mut s = ConfigStore::new();
    w_forgot(&mut s, 8, 10);
    assert_eq!(review_of(&s, "8"), Some(10 + 86_400_000));
    w_forgot(&mut s, 8, 20);
    assert_eq!(review_of(&s, "8"), Some(20 + 86_400_000));
    assert_eq!(s.cfg.h_reviews.len(), 1);
}

#[test]
fn now_variants_use_the_clock() {
    let mut s = ConfigStore::new();
    assert!(w_forgot_now(&mut s, 2));
    let due = review_of(&s, "2").unwrap();
    assert!(due > 1_600_000_000_000);
    s.cfg.index = 2;
    assert!(w_memorized_now(&mut s, 2, 10));
    assert_eq!(s.cfg.index, 3);
    s.cfg.h_review_enabled = true;
    s.cfg.h_review_days = i64::MAX;
    assert!(!w_memorized_now(&mut s, 3, 10));
    assert_eq!(s.cfg.index, 3);
}

#[test]
fn welcome_and_fonts() {
    let mut s = ConfigStore::new();
    welcome_done(&mut s, false);
    assert!(!s.cfg.first_run);
    assert!(!s.cfg.auto_launch);
    let fonts = m_get_fonts();
    assert_eq!(fonts[0], "Segoe UI");
    assert!(fonts.contains(&"Cairo".to_string()));
}

#[test]
fn background_page_requests() {
    let mut dl = DataLoader::new();
    let ayah = |page: i64, t: &str| obj(vec![("page", num(page)), ("sura_name_ar", text("الفاتحة")), ("aya_text", text(t))]);
    dl.load_quran_data(&JsonValue::Array(vec![ayah(1, "a"), ayah(2, "b")]));
    match q_bg_message(&dl, &QBgMessage::GetPageAyahs { page: 2 }) {
        QBgResponse::Page(Some(p)) => assert_eq!(p.ayah_text_html, "b"),
        _ => panic!("expected a page"),
    }
    match q_bg_message(&dl, &QBgMessage::GetPageAyahs { page: 3 }) {
        QBgResponse::Page(None) => {}
        _ => panic!("expected no page"),
    }
    match q_bg_message(&dl, &QBgMessage::GetMultiplePages { pages: vec![1, 3, 2] }) {
        QBgResponse::MultiplePages(v) => assert_eq!(v.len(), 2),
        _ => panic!("expected pages"),
    }
}

#[test]
fn ready_payload_prefers_the_prepared_one() {
    let s = ConfigStore::new();
    let mut dl = DataLoader::new();
    assert!(ready_payload(Some(num(1)), &s, &dl).is_some());
    assert!(ready_payload(None, &s, &dl).is_none());
    dl.load_hadith_data(&JsonValue::Array(vec![obj(vec![("arabic", text("h"))])]));
    let p = ready_payload(None, &s, &dl).unwrap();
    assert_eq!(p.get("text").unwrap().as_str().unwrap(), "h");
}

#[test]
fn a_new_pause_silences_the_reminders() {
    let mut s = ConfigStore::new();
    let out = q_store_set(&mut s, &obj(vec![("pausedUntil", num(1000))]));
    assert!(out.pause_changed);
    assert!(silences_at(&out, &s, 999));
    assert!(!silences_at(&out, &s, 1000));
    assert!(!silences_now(&out, &s));
    let other = q_store_set(&mut s, &obj(vec![("dailyGoal", num(3))]));
    assert!(!silences_at(&other, &s, 0));
}
