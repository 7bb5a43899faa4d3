use zad_al_muslim::config::ConfigStore;
use zad_al_muslim::data_loader::DataLoader;
use zad_al_muslim::json::{JsonNumber, JsonValue};
use zad_al_muslim::windows::{
    plan_show_widget, plan_show_widget_at, reset_quran_geometry, reset_widget_geometry, review_pick_at,
    widget_choice_at, widget_choice_now, WidgetGuard,
};
use zad_al_muslim::tray::{build_menu, hadith_label_text, menu_action, tray_position, TrayAction, TrayEntry};
use zad_al_muslim::logfile::{rotation_plan, should_rotate, MAX_LOG_BYTES, MAX_LOG_FILES};

fn num(n: i64) -> JsonValue {
    JsonValue::Number(JsonNumber::Int(n))
}

fn text(t: &str) -> JsonValue {
    JsonValue::Str(t.to_string())
}

fn obj(members: Vec<(&str, JsonValue)>) -> JsonValue {
    JsonValue::Object(members.into_iter().map(|(k, v)| (k.to_string(), v)).collect())
}

fn loader(n: usize) -> DataLoader {
    let mut dl = DataLoader::new();
    let hs: Vec<JsonValue> = (0..n).map(|i| obj(vec![("arabic", text(&format!("h{}", i)))])).collect();
    dl.load_hadith_data(&JsonValue::Array(hs));
    dl
}

#[test]
fn guard_admits_one_request_at_a_time() {
    let mut g = WidgetGuard::new();
    assert!(g.try_acquire());
    assert!(!g.try_acquire());
    g.release();
    assert!(g.try_acquire());
}

#[test]
fn review_pick_takes_the_first_due_key_in_text_order() {
    let reviews = obj(vec![("5", num(50)), ("3", num(100)), ("12", num(10)), ("x", num(0)), ("7", num(900))]);
    let cfg = obj(vec![("hReviewEnabled", JsonValue::Bool(true)), ("hReviews", reviews)]);
    assert_eq!(review_pick_at(&cfg, 200), Some(12));
    assert_eq!(review_pick_at(&cfg, 5), None);
    let off = obj(vec![("hReviewEnabled", JsonValue::Bool(false)), ("hReviews", obj(vec![("1", num(0))]))]);
    assert_eq!(review_pick_at(&off, 200), None);
}

#[test]
fn widget_choice_prefers_request_then_review_then_current() {
    let cfg = obj(vec![
        ("index", num(4)),
        ("hReviewEnabled", JsonValue::Bool(true)),
        ("hReviews", obj(vec![("2", num(100))])),
    ]);
    assert_eq!(widget_choice_at(&cfg, 50, Some(9), false), (9, false));
    assert_eq!(widget_choice_at(&cfg, 150, None, false), (2, true));
    assert_eq!(widget_choice_at(&cfg, 50, None, false), (4, false));
}

#[test]
fn show_plan_claims_the_guard() {
    let dl = loader(3);
    let mut s = ConfigStore::new();
    s.cfg.index = 1;
    let mut g = WidgetGuard::new();
    let p = plan_show_widget_at(&dl, &s, &mut g, 0, None, false).unwrap();
    assert_eq!(p.index, 1);
    assert!(!p.is_review);
    assert_eq!(p.payload.get("text").unwrap().as_str().unwrap(), "h1");
    assert!(g.busy);
    assert!(plan_show_widget_at(&dl, &s, &mut g, 0, None, false).is_none());
    g.release();
    let empty = DataLoader::new();
    assert!(plan_show_widget(&empty, &s, &mut g, None, false).is_none());
    assert!(!g.busy);
    assert!(plan_show_widget(&dl, &s, &mut g, Some(2), true).is_some());
}

#[test]
fn geometry_resets_forget_positions() {
    let mut s = ConfigStore::new();
    s.cfg_set("widgetX", num(10));
    s.cfg_set("widgetW", num(600));
    reset_widget_geometry(&mut s);
    assert!(s.cfg_value("widgetX").is_none());
    assert_eq!(s.cfg_value("widgetW").unwrap().as_i64().unwrap(), 430);
    s.quran_set("widgetCustomWidth", num(500));
    s.quran_set("dailyGoal", num(2));
    reset_quran_geometry(&mut s);
    assert!(s.quran_get().get("widgetCustomWidth").is_none());
    assert_eq!(s.quran_get().get("dailyGoal").unwrap().as_i64().unwrap(), 2);
}

#[test]
fn tray_names_the_current_hadith() {
    let mut s = ConfigStore::new();
    s.cfg.index = 4;
    assert_eq!(tray_position(&s, 10), (5, 10));
    assert_eq!(tray_position(&s, 3), (3, 3));
    assert_eq!(tray_position(&s, 0), (1, 1));
    s.cfg.index = -2;
    assert_eq!(tray_position(&s, 10), (1, 10));
    assert_eq!(hadith_label_text(5, 10), "الأحاديث - الحديث 5 / 10");
    let menu = build_menu(&s, 10);
    assert_eq!(menu.len(), 14);
    match &menu[6] {
        TrayEntry::Item { id, label, enabled } => {
            assert_eq!(id, "tray.h_label");
            assert_eq!(label, "الأحاديث - الحديث 1 / 10");
            assert!(!enabled);
        }
        TrayEntry::Separator => panic!("expected the hadith label"),
    }
    assert!(matches!(menu[1], TrayEntry::Separator));
}

#[test]
fn tray_items_map_to_actions() {
    assert_eq!(menu_action("tray.quit"), Some(TrayAction::Quit));
    assert_eq!(menu_action("tray.next_hadith"), Some(TrayAction::NextHadith));
    assert_eq!(menu_action("tray.header"), None);
}

#[test]
fn log_rotation_keeps_a_bounded_number_of_files() {
    assert!(should_rotate(Some(MAX_LOG_BYTES), MAX_LOG_BYTES));
    assert!(!should_rotate(Some(MAX_LOG_BYTES - 1), MAX_LOG_BYTES));
    assert!(!should_rotate(None, MAX_LOG_BYTES));
    let plan = rotation_plan("app.log", MAX_LOG_FILES);
    assert_eq!(plan.remove, "app.log.4");
    let expected: Vec<(String, String)> = vec![
        ("app.log.3".to_string(), "app.log.4".to_string()),
        ("app.log.2".to_string(), "app.log.3".to_string()),
        ("app.log.1".to_string(), "app.log.2".to_string()),
        ("app.log".to_string(), "app.log.1".to_string()),
    ];
    assert_eq!(plan.renames, expected);
    let single = rotation_plan("x", 1);
    assert_eq!(single.remove, "x.0");
    assert!(single.renames.is_empty());
}

#[test]
fn widget_choice_now_honours_a_request() {
    let cfg = obj(vec![("index", num(4))]);
    assert_eq!(widget_choice_now(&cfg, Some(7), true), (7, true));
    assert_eq!(widget_choice_now(&cfg, None, true), (4, false));
}
