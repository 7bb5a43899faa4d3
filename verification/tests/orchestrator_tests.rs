use zad_al_muslim::clock::{day_stamp_at, day_stamp_of, format_date, today_string_with_offset, LocalTime};
use zad_al_muslim::json::{JsonNumber, JsonValue};
use zad_al_muslim::orchestrator::{
    get_active_interval_ms, goal_met_on_day, intervals_fit_check, is_paused_at, is_quran_goal_met, minutes_to_ms, next_sleep_ms,
    tick_wait_ms, timer_step, AppMode, Orchestrator, TickAction, TimerStep,
};
use zad_al_muslim::startup::{startup_plan, tick_effects, QuranStep, StartupPlan};
use zad_al_muslim::config::ConfigStore;

fn num(n: i64) -> JsonValue {
    JsonValue::Number(JsonNumber::Int(n))
}

fn text(t: &str) -> JsonValue {
    JsonValue::Str(t.to_string())
}

fn obj(members: Vec<(&str, JsonValue)>) -> JsonValue {
    JsonValue::Object(members.into_iter().map(|(k, v)| (k.to_string(), v)).collect())
}

fn reading(date: &str) -> JsonValue {
    obj(vec![("date", text(date))])
}

#[test]
fn quran_goal_met_when_recent_readings_today_meets_goal() {
    let q = obj(vec![
        ("dailyGoal", num(2)),
        (
            "recentReadings",
            JsonValue::Array(vec![
                reading(&today_string_with_offset(0)),
                reading(&today_string_with_offset(0)),
                reading("1970-01-01"),
            ]),
        ),
    ]);
    assert!(is_quran_goal_met(&q));
}

#[test]
fn quran_goal_not_met_when_recent_below_goal() {
    let q = obj(vec![
        ("dailyGoal", num(3)),
        ("recentReadings", JsonValue::Array(vec![reading(&today_string_with_offset(0))])),
    ]);
    assert!(!is_quran_goal_met(&q));
}

#[test]
fn quran_only_uses_memorization_interval() {
    let cfg = obj(vec![("appMode", text("quranOnly")), ("interval", num(33))]);
    let q = obj(vec![("memorizationInterval", num(11))]);
    assert_eq!(get_active_interval_ms(&cfg, &q), 11 * 60 * 1000);
}

#[test]
fn hadith_only_uses_hadith_interval() {
    let cfg = obj(vec![("appMode", text("hadithOnly")), ("interval", num(17))]);
    let q = obj(vec![]);
    assert_eq!(get_active_interval_ms(&cfg, &q), 17 * 60 * 1000);
}

#[test]
fn sequential_uses_quran_interval_until_goal_met() {
    let cfg = obj(vec![("appMode", text("sequential")), ("interval", num(30))]);
    let q = obj(vec![
        ("memorizationInterval", num(10)),
        ("dailyGoal", num(1)),
        ("recentReadings", JsonValue::Array(vec![])),
    ]);
    assert_eq!(get_active_interval_ms(&cfg, &q), 10 * 60 * 1000);

    let q2 = obj(vec![
        ("memorizationInterval", num(10)),
        ("dailyGoal", num(1)),
        ("recentReadings", JsonValue::Array(vec![reading(&today_string_with_offset(0))])),
    ]);
    assert_eq!(get_active_interval_ms(&cfg, &q2), 30 * 60 * 1000);
}

#[test]
fn alternating_alternates_between_quran_and_hadith() {
    let mut o = Orchestrator::new();
    let cfg = obj(vec![("appMode", text("alternating"))]);
    let q = obj(vec![]);
    assert_eq!(o.decide_tick_action(&cfg, &q), TickAction::ShowQuran);
    assert_eq!(o.decide_tick_action(&cfg, &q), TickAction::ShowHadith);
    assert_eq!(o.decide_tick_action(&cfg, &q), TickAction::ShowQuran);
}

#[test]
fn sequential_shows_hadith_after_goal_met() {
    let mut o = Orchestrator::new();
    let cfg = obj(vec![("appMode", text("sequential"))]);
    let q = obj(vec![("dailyGoal", num(1)), ("recentReadings", JsonValue::Array(vec![reading(&today_string_with_offset(0))]))]);
    assert_eq!(o.decide_tick_action(&cfg, &q), TickAction::HideQuranShowHadith);
}

#[test]
fn sequential_shows_quran_before_goal_met() {
    let mut o = Orchestrator::new();
    let cfg = obj(vec![]);
    let q = obj(vec![("dailyGoal", num(2)), ("recentReadings", JsonValue::Array(vec![reading("2000-01-01")]))]);
    assert_eq!(o.decide_tick_action(&cfg, &q), TickAction::ShowQuran);
    let both = obj(vec![("appMode", text("both"))]);
    assert_eq!(o.tick_once(&both, &q), TickAction::ShowBoth);
}

#[test]
fn goal_counts_only_readings_of_the_day() {
    let q = obj(vec![
        ("dailyGoal", num(2)),
        (
            "recentReadings",
            JsonValue::Array(vec![reading("2024-05-01"), reading("2024-05-02"), reading("2024-05-01"), num(7)]),
        ),
    ]);
    assert!(goal_met_on_day(&q, "2024-05-01"));
    assert!(!goal_met_on_day(&q, "2024-05-02"));
    let no_goal = obj(vec![("dailyGoal", num(-4))]);
    assert!(!goal_met_on_day(&no_goal, "2024-05-01"));
}

#[test]
fn interval_arithmetic() {
    assert_eq!(minutes_to_ms(2), 120000);
    assert_eq!(minutes_to_ms(-1), -60000);
    assert_eq!(tick_wait_ms(10), 1000);
    assert_eq!(tick_wait_ms(-5), 1000);
    assert_eq!(tick_wait_ms(90000), 90000);
    assert_eq!(next_sleep_ms(2000, 100), 500);
    assert_eq!(next_sleep_ms(2000, 1800), 200);
    let cfg = obj(vec![("appMode", text("quranOnly"))]);
    let q = obj(vec![("memorizationInterval", num(0))]);
    assert_eq!(get_active_interval_ms(&cfg, &q), 10 * 60 * 1000);
}

#[test]
fn mode_names_parse() {
    assert_eq!(AppMode::parse("both"), AppMode::Both);
    assert_eq!(AppMode::parse("hadithOnly"), AppMode::HadithOnly);
    assert_eq!(AppMode::parse(""), AppMode::Sequential);
}

#[test]
fn stopping_invalidates_the_running_timer() {
    let mut o = Orchestrator::new();
    let g = o.start();
    assert!(o.is_current(g));
    o.stop();
    assert!(!o.is_current(g));
    let g2 = o.restart();
    assert!(o.is_current(g2));
    assert_ne!(g, g2);
}

#[test]
fn pause_until_a_later_instant() {
    let q = obj(vec![("pausedUntil", num(5000))]);
    assert!(is_paused_at(&q, 4999));
    assert!(!is_paused_at(&q, 5000));
    assert!(!is_paused_at(&obj(vec![("pausedUntil", num(0))]), -10));
    assert!(!is_paused_at(&obj(vec![]), 0));
}

#[test]
fn dates_are_zero_padded() {
    assert_eq!(format_date(2024, 3, 5), "2024-03-05");
    assert_eq!(format_date(999, 12, 31), "0999-12-31");
    let today = today_string_with_offset(0);
    assert_eq!(today.len(), 10);
    assert_eq!(&today[4..5], "-");
    assert_eq!(&today[7..8], "-");
}

#[test]
fn day_stamp_of_an_instant_uses_the_local_calendar() {
    // One day after the epoch is 1970-01-01 or 1970-01-02 in every time zone.
    let d = day_stamp_at(86_400_000, 0).unwrap();
    assert!(d == "1970-01-01" || d == "1970-01-02", "{}", d);
    // With the day starting at hour 24 every instant counts for the day before.
    let e = day_stamp_at(86_400_000 * 3, 24).unwrap();
    assert!(e == "1970-01-02" || e == "1970-01-03", "{}", e);
}

#[test]
fn tick_actions_map_to_window_operations() {
    let e = tick_effects(TickAction::HideQuranShowHadith);
    assert!(e.show_hadith);
    assert_eq!(e.quran, QuranStep::Hide);
    let q = tick_effects(TickAction::ShowQuran);
    assert!(!q.show_hadith);
    assert_eq!(q.quran, QuranStep::Show);
    assert_eq!(tick_effects(TickAction::ShowHadith).quran, QuranStep::Keep);
}

#[test]
fn startup_follows_the_settings() {
    let mut s = ConfigStore::new();
    assert_eq!(startup_plan(&s, false), StartupPlan::MissingData);
    assert_eq!(startup_plan(&s, true), StartupPlan::Run { auto_launch: true, welcome: true });
    s.cfg.first_run = false;
    s.cfg.auto_launch = false;
    assert_eq!(startup_plan(&s, true), StartupPlan::Run { auto_launch: false, welcome: false });
}

#[test]
fn day_begins_at_the_configured_hour() {
    let t = LocalTime { year: 2024, month: 3, day: 1, hour: 2 };
    let before = LocalTime { year: 2024, month: 2, day: 29, hour: 2 };
    assert_eq!(day_stamp_of(t, Some(before), 4), "2024-02-29");
    assert_eq!(day_stamp_of(t, Some(before), 2), "2024-03-01");
    assert_eq!(day_stamp_of(t, None, 4), "2024-03-01");
}

#[test]
fn timer_steps_sleep_in_chunks_then_fire() {
    assert_eq!(timer_step(true, 1200, 0), TimerStep::Sleep(500));
    assert_eq!(timer_step(true, 1200, 1000), TimerStep::Sleep(200));
    assert_eq!(timer_step(true, 1200, 1200), TimerStep::Fire);
    assert_eq!(timer_step(false, 1200, 0), TimerStep::Quit);
}

#[test]
fn paused_ticks_do_nothing() {
    let mut o = Orchestrator::new();
    let cfg = obj(vec![("appMode", text("alternating"))]);
    let paused = obj(vec![("pausedUntil", num(1000))]);
    assert_eq!(o.fire_at(&cfg, &paused, 999), None);
    assert!(!o.last_was_quran);
    assert_eq!(o.fire_at(&cfg, &paused, 1000), Some(TickAction::ShowQuran));
    assert!(o.last_was_quran);
    assert_eq!(o.fire(&cfg, &obj(vec![])), Some(TickAction::ShowHadith));
}

#[test]
fn interval_range_is_checked() {
    let q = obj(vec![]);
    assert!(intervals_fit_check(&obj(vec![("interval", num(30))]), &q));
    assert!(!intervals_fit_check(&obj(vec![("interval", num(i64::MAX / 1000))]), &q));
    let quran_only = obj(vec![("appMode", text("quranOnly")), ("interval", num(i64::MAX))]);
    assert!(intervals_fit_check(&quran_only, &q));
    assert!(!intervals_fit_check(&obj(vec![]), &obj(vec![("memorizationInterval", num(i64::MAX))])));
}

#[test]
fn sequential_without_readings_keeps_the_quran() {
    let mut o = Orchestrator::new();
    let cfg = obj(vec![("appMode", text("sequential")), ("interval", num(30))]);
    let q = obj(vec![("memorizationInterval", num(7))]);
    assert!(!is_quran_goal_met(&q));
    assert_eq!(get_active_interval_ms(&cfg, &q), 7 * 60 * 1000);
    assert_eq!(o.decide_tick_action(&cfg, &q), TickAction::ShowQuran);
}

#[test]
fn reading_day_follows_the_configured_hour() {
    let t = LocalTime { year: 2024, month: 3, day: 1, hour: 3 };
    let before = LocalTime { year: 2024, month: 2, day: 29, hour: 3 };
    let late_start = obj(vec![("dayStartHour", num(4))]);
    assert_eq!(zad_al_muslim::orchestrator::reading_day_of(&late_start, t, before), "2024-02-29");
    assert_eq!(zad_al_muslim::orchestrator::reading_day_of(&obj(vec![]), t, before), "2024-03-01");
}
