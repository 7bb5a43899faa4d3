//! The reminder orchestrator: which window a tick shows, how long to wait
//! between ticks, and when reminders are paused.
use vstd::prelude::*;
use crate::json::{JsonNumber, JsonValue, JsonView, lemma_view_values, view_values};
use crate::text::text_eq;
use crate::clock::{
    LocalTime, NOW_MS_MAX, day_stamp_of, is_day_stamp, local_now, local_ok, reading_day_for, utc_now_millis,
};

verus! {

/// The reminder modes, as the orchestrator reads them from the settings.
#[derive(Clone, Copy, Debug, PartialEq, Eq, Structural)]
pub enum AppMode {
    Sequential,
    Alternating,
    Both,
    QuranOnly,
    HadithOnly,
}

/// The mode a name selects; unknown names select `Sequential`.
pub open spec fn parse_mode(s: Seq<char>) -> AppMode {
    if s == "alternating"@ {
        AppMode::Alternating
    } else if s == "both"@ {
        AppMode::Both
    } else if s == "quranOnly"@ {
        AppMode::QuranOnly
    } else if s == "hadithOnly"@ {
        AppMode::HadithOnly
    } else {
        AppMode::Sequential
    }
}

impl AppMode {
    pub fn parse(s: &str) -> (r: AppMode)
        ensures
            r == parse_mode(s@),
    {
        if text_eq(s, "alternating") {
            AppMode::Alternating
        } else if text_eq(s, "both") {
            AppMode::Both
        } else if text_eq(s, "quranOnly") {
            AppMode::QuranOnly
        } else if text_eq(s, "hadithOnly") {
            AppMode::HadithOnly
        } else {
            AppMode::Sequential
        }
    }
}

/// Whether `m` minutes can be expressed in milliseconds within `i64`.
pub open spec fn minutes_fit(m: int) -> bool {
    i64::MIN <= m * 60000 <= i64::MAX
}

/// Minutes to milliseconds.
pub fn minutes_to_ms(m: i64) -> (r: i64)
    requires
        minutes_fit(m as int),
    ensures
        r == m * 60000,
{
    m * 60 * 1000
}

/// The mode the settings select (`"sequential"` when none is given).
pub open spec fn mode_of(cfg: JsonView) -> AppMode {
    match cfg.get("appMode"@) {
        Some(v) => match v.as_str() {
            Some(s) => parse_mode(s),
            None => parse_mode("sequential"@),
        },
        None => parse_mode("sequential"@),
    }
}

/// The hadith interval in minutes (30 when none is given).
pub open spec fn hadith_minutes(cfg: JsonView) -> int {
    match cfg.get("interval"@) {
        Some(v) => match v.as_i64() {
            Some(n) => n as int,
            None => 30,
        },
        None => 30,
    }
}

/// The Quran interval in minutes (10 unless a positive one is given).
pub open spec fn quran_minutes(q: JsonView) -> int {
    match q.get("memorizationInterval"@) {
        Some(v) => match v.as_i64() {
            Some(n) => if n > 0 {
                n as int
            } else {
                10
            },
            None => 10,
        },
        None => 10,
    }
}

/// The daily goal in readings (1 unless a positive one is given).
pub open spec fn daily_goal(q: JsonView) -> int {
    match q.get("dailyGoal"@) {
        Some(v) => match v.as_i64() {
            Some(n) => if n > 0 {
                n as int
            } else {
                1
            },
            None => 1,
        },
        None => 1,
    }
}

/// The hour at which a day of reading begins (0 when none is given); the
/// stored number is cut to 32 bits as the settings code does.
pub open spec fn day_start_hour(q: JsonView) -> u32 {
    match q.get("dayStartHour"@) {
        Some(v) => match v.as_u64() {
            Some(h) => h as u32,
            None => 0,
        },
        None => 0,
    }
}

/// How many of the readings in a list are dated `day`.
pub open spec fn count_dated(readings: Seq<JsonView>, day: Seq<char>) -> nat
    decreases readings.len(),
{
    if readings.len() == 0 {
        0
    } else {
        count_dated(readings.drop_last(), day) + if readings.last().get("date"@) == Some(
            JsonView::Str(day),
        ) {
            1nat
        } else {
            0nat
        }
    }
}

/// The readings logged on `day`.
pub open spec fn completed_on(q: JsonView, day: Seq<char>) -> nat {
    match q.get("recentReadings"@) {
        Some(v) => match v.as_array() {
            Some(a) => count_dated(a, day),
            None => 0,
        },
        None => 0,
    }
}

/// Whether the daily Quran goal is met on `day`.
pub open spec fn goal_met_on(q: JsonView, day: Seq<char>) -> bool {
    completed_on(q, day) >= daily_goal(q)
}

fn positive_or(v: Option<&JsonValue>, fallback: i64) -> (r: i64)
    ensures
        r == match v {
            Some(x) => match x@.as_i64() {
                Some(n) => if n > 0 {
                    n
                } else {
                    fallback
                },
                None => fallback,
            },
            None => fallback,
        },
{
    match v {
        Some(x) => match x.as_i64() {
            Some(n) => if n > 0 {
                n
            } else {
                fallback
            },
            None => fallback,
        },
        None => fallback,
    }
}

/// Whether the daily goal is met on the day with stamp `day`.
pub fn goal_met_on_day(quran_cfg: &JsonValue, day: &str) -> (r: bool)
    ensures
        r == goal_met_on(quran_cfg@, day@),
{
    let goal = positive_or(quran_cfg.get("dailyGoal"), 1);
    let mut count: u64 = 0;
    if let Some(v) = quran_cfg.get("recentReadings") {
        if let Some(items) = v.as_array() {
            proof {
                lemma_view_values(items@);
            }
            let ghost vi = view_values(items@);
            let mut i: usize = 0;
            while i < items.len()
                invariant
                    i <= items.len(),
                    vi == view_values(items@),
                    vi.len() == items@.len(),
                    forall|j: int| 0 <= j < items@.len() ==> #[trigger] vi[j] == items@[j]@,
                    count == count_dated(vi.take(i as int), day@),
                    count <= i,
                decreases items.len() - i,
            {
                assert(vi.take(i + 1).drop_last() =~= vi.take(i as int));
                let dated = match items[i].get("date") {
                    Some(d) => match d.as_str() {
                        Some(t) => text_eq(t, day),
                        None => false,
                    },
                    None => false,
                };
                if dated {
                    count = count + 1;
                }
                i = i + 1;
            }
            assert(vi.take(items.len() as int) =~= vi);
        }
    }
    if goal <= 0 {
        true
    } else {
        count >= goal as u64
    }
}

/// Whether the Quran settings log no reading at all.
pub open spec fn has_no_readings(q: JsonView) -> bool {
    match q.get("recentReadings"@) {
        Some(JsonView::Array(a)) => a.len() == 0,
        _ => true,
    }
}

/// With no reading logged, the daily goal (at least one reading) is met on no day.
pub proof fn lemma_no_readings_no_goal(q: JsonView, day: Seq<char>)
    requires
        has_no_readings(q),
    ensures
        !goal_met_on(q, day),
{
}

/// The day of reading for the Quran settings `q`, for the local time `t` and
/// the local time a day earlier: the day begins at the configured hour.
pub open spec fn reading_day(q: JsonView, t: LocalTime, day_before: LocalTime) -> Seq<char> {
    reading_day_for(day_start_hour(q), t, day_before)
}

/// The day of reading for the Quran settings, given the local time and the
/// local time a day earlier: the date of the earlier time when the hour is
/// before the configured `dayStartHour`, else the date of the local time.
pub fn reading_day_of(quran_cfg: &JsonValue, t: LocalTime, day_before: LocalTime) -> (r: String)
    ensures
        r@ == reading_day(quran_cfg@, t, day_before),
{
    let hour: u32 = match quran_cfg.get("dayStartHour") {
        Some(v) => match v.as_u64() {
            Some(h) => h as u32,
            None => 0,
        },
        None => 0,
    };
    day_stamp_of(t, Some(day_before), hour)
}

/// A local time in the ranges chrono keeps, which the modes other than the
/// sequential one may take for the day: they ignore the goal.
pub open spec fn epoch_time() -> LocalTime {
    LocalTime { year: 1970, month: 1, day: 1, hour: 0 }
}

/// Whether the daily Quran goal is met today (local time, the day beginning
/// at the configured hour).
pub fn is_quran_goal_met(quran_cfg: &JsonValue) -> (r: bool)
    ensures
        exists|t: LocalTime, b: LocalTime|
            local_ok(t) && local_ok(b) && r == goal_met_on(quran_cfg@, #[trigger] reading_day(quran_cfg@, t, b)),
        has_no_readings(quran_cfg@) ==> !r,
{
    let (t, b) = local_now();
    let today = reading_day_of(quran_cfg, t, b);
    let r = goal_met_on_day(quran_cfg, today.as_str());
    assert(r == goal_met_on(quran_cfg@, reading_day(quran_cfg@, t, b)));
    proof {
        if has_no_readings(quran_cfg@) {
            lemma_no_readings_no_goal(quran_cfg@, today@);
        }
    }
    r
}

/// The interval, in minutes, between ticks in the given mode.
pub open spec fn active_minutes(cfg: JsonView, q: JsonView, goal_met: bool) -> int {
    match mode_of(cfg) {
        AppMode::QuranOnly => quran_minutes(q),
        AppMode::HadithOnly => hadith_minutes(cfg),
        AppMode::Sequential => if !goal_met {
            quran_minutes(q)
        } else {
            hadith_minutes(cfg)
        },
        _ => hadith_minutes(cfg),
    }
}

/// Every interval the settings may select can be expressed in milliseconds.
pub open spec fn intervals_fit(cfg: JsonView, q: JsonView) -> bool {
    minutes_fit(active_minutes(cfg, q, true)) && minutes_fit(active_minutes(cfg, q, false))
}

fn mode_from_cfg(cfg: &JsonValue) -> (m: AppMode)
    ensures
        m == mode_of(cfg@),
{
    match cfg.get("appMode") {
        Some(v) => match v.as_str() {
            Some(s) => AppMode::parse(s),
            None => AppMode::parse("sequential"),
        },
        None => AppMode::parse("sequential"),
    }
}

fn hadith_minutes_of(cfg: &JsonValue) -> (r: i64)
    ensures
        r == hadith_minutes(cfg@),
{
    match cfg.get("interval") {
        Some(v) => match v.as_i64() {
            Some(n) => n,
            None => 30,
        },
        None => 30,
    }
}

/// The interval in milliseconds, given whether today's goal is met.
pub fn active_interval_ms_given(cfg: &JsonValue, quran_cfg: &JsonValue, goal_met: bool) -> (r: i64)
    requires
        minutes_fit(active_minutes(cfg@, quran_cfg@, goal_met)),
    ensures
        r == active_minutes(cfg@, quran_cfg@, goal_met) * 60000,
{
    let quran_iv = positive_or(quran_cfg.get("memorizationInterval"), 10);
    let hadith_iv = hadith_minutes_of(cfg);
    match mode_from_cfg(cfg) {
        AppMode::QuranOnly => minutes_to_ms(quran_iv),
        AppMode::HadithOnly => minutes_to_ms(hadith_iv),
        AppMode::Sequential => if !goal_met {
            minutes_to_ms(quran_iv)
        } else {
            minutes_to_ms(hadith_iv)
        },
        _ => minutes_to_ms(hadith_iv),
    }
}

/// The interval in milliseconds for the current settings; the daily goal is
/// consulted in the sequential mode only.
pub fn get_active_interval_ms(cfg: &JsonValue, quran_cfg: &JsonValue) -> (r: i64)
    requires
        intervals_fit(cfg@, quran_cfg@),
    ensures
        exists|t: LocalTime, b: LocalTime|
            local_ok(t) && local_ok(b) && r == active_minutes(
                cfg@,
                quran_cfg@,
                goal_met_on(quran_cfg@, #[trigger] reading_day(quran_cfg@, t, b)),
            ) * 60000,
        mode_of(cfg@) != AppMode::Sequential ==> r == active_minutes(cfg@, quran_cfg@, true) * 60000,
        mode_of(cfg@) == AppMode::Sequential && has_no_readings(quran_cfg@) ==> r == quran_minutes(quran_cfg@)
            * 60000,
{
    let goal_met = match mode_from_cfg(cfg) {
        AppMode::Sequential => is_quran_goal_met(quran_cfg),
        _ => true,
    };
    proof {
        if mode_of(cfg@) != AppMode::Sequential {
            assert(local_ok(epoch_time()));
            assert(active_minutes(
                cfg@,
                quran_cfg@,
                goal_met_on(quran_cfg@, reading_day(quran_cfg@, epoch_time(), epoch_time())),
            ) == active_minutes(
                cfg@,
                quran_cfg@,
                true,
            ));
        }
    }
    active_interval_ms_given(cfg, quran_cfg, goal_met)
}

/// Whether every interval the settings may select can be expressed in
/// milliseconds (the condition of `get_active_interval_ms`).
pub fn intervals_fit_check(cfg: &JsonValue, quran_cfg: &JsonValue) -> (r: bool)
    ensures
        r == intervals_fit(cfg@, quran_cfg@),
{
    let q_fits = positive_or(quran_cfg.get("memorizationInterval"), 10).checked_mul(60000).is_some();
    let h_fits = hadith_minutes_of(cfg).checked_mul(60000).is_some();
    match mode_from_cfg(cfg) {
        AppMode::QuranOnly => q_fits,
        AppMode::HadithOnly => h_fits,
        AppMode::Sequential => q_fits && h_fits,
        _ => h_fits,
    }
}

/// What a tick asks the windows to do.
#[derive(Clone, Copy, Debug, PartialEq, Eq, Structural)]
pub enum TickAction {
    ShowHadith,
    ShowQuran,
    ShowBoth,
    HideQuranShowHadith,
}

/// The action of a tick and the new "last shown was the Quran" flag.
pub open spec fn tick(mode: AppMode, last_was_quran: bool, goal_met: bool) -> (TickAction, bool) {
    match mode {
        AppMode::HadithOnly => (TickAction::ShowHadith, last_was_quran),
        AppMode::QuranOnly => (TickAction::ShowQuran, last_was_quran),
        AppMode::Both => (TickAction::ShowBoth, last_was_quran),
        AppMode::Alternating => if !last_was_quran {
            (TickAction::ShowQuran, true)
        } else {
            (TickAction::ShowHadith, false)
        },
        AppMode::Sequential => if goal_met {
            (TickAction::HideQuranShowHadith, last_was_quran)
        } else {
            (TickAction::ShowQuran, last_was_quran)
        },
    }
}

/// The tick for the settings when `today` is the day of reading: the daily
/// goal is whether the Quran settings log enough readings on that day.
pub open spec fn tick_on(cfg: JsonView, q: JsonView, last_was_quran: bool, today: Seq<char>) -> (TickAction, bool) {
    tick(mode_of(cfg), last_was_quran, goal_met_on(q, today))
}

/// The orchestrator's state: which kind of reminder the alternating mode
/// showed last, and the generation of the running timer.
pub struct Orchestrator {
    pub last_was_quran: bool,
    pub generation: u64,
}

impl Orchestrator {
    pub fn new() -> (r: Orchestrator)
        ensures
            !r.last_was_quran,
            r.generation == 0,
    {
        Orchestrator { last_was_quran: false, generation: 0 }
    }

    /// The action of a tick, given whether today's goal is met.
    pub fn decide_given(&mut self, cfg: &JsonValue, goal_met: bool) -> (r: TickAction)
        ensures
            (r, final(self).last_was_quran) == tick(mode_of(cfg@), old(self).last_was_quran, goal_met),
            final(self).generation == old(self).generation,
    {
        match mode_from_cfg(cfg) {
            AppMode::HadithOnly => TickAction::ShowHadith,
            AppMode::QuranOnly => TickAction::ShowQuran,
            AppMode::Both => TickAction::ShowBoth,
            AppMode::Alternating => {
                if !self.last_was_quran {
                    self.last_was_quran = true;
                    TickAction::ShowQuran
                } else {
                    self.last_was_quran = false;
                    TickAction::ShowHadith
                }
            },
            AppMode::Sequential => {
                if goal_met {
                    TickAction::HideQuranShowHadith
                } else {
                    TickAction::ShowQuran
                }
            },
        }
    }

    /// The action of a tick for the current settings, updating the
    /// alternation; the daily goal is consulted in the sequential mode only,
    /// for today's day stamp.
    pub fn decide_tick_action(&mut self, cfg: &JsonValue, quran_cfg: &JsonValue) -> (r: TickAction)
        ensures
            exists|t: LocalTime, b: LocalTime|
                local_ok(t) && local_ok(b) && (r, final(self).last_was_quran) == tick_on(
                    cfg@,
                    quran_cfg@,
                    old(self).last_was_quran,
                    #[trigger] reading_day(quran_cfg@, t, b),
                ),
            mode_of(cfg@) != AppMode::Sequential ==> (r, final(self).last_was_quran) == tick(
                mode_of(cfg@),
                old(self).last_was_quran,
                true,
            ),
            mode_of(cfg@) == AppMode::Sequential && has_no_readings(quran_cfg@) ==> r == TickAction::ShowQuran,
            final(self).generation == old(self).generation,
    {
        let goal_met = match mode_from_cfg(cfg) {
            AppMode::Sequential => is_quran_goal_met(quran_cfg),
            _ => true,
        };
        let ghost last = self.last_was_quran;
        let ghost (t, b) = if mode_of(cfg@) == AppMode::Sequential {
            choose|t: LocalTime, b: LocalTime|
                local_ok(t) && local_ok(b) && goal_met == goal_met_on(quran_cfg@, reading_day(quran_cfg@, t, b))
        } else {
            (epoch_time(), epoch_time())
        };
        proof {
            assert(local_ok(epoch_time()));
            assert(local_ok(t) && local_ok(b));
            assert(tick_on(cfg@, quran_cfg@, last, reading_day(quran_cfg@, t, b)) == tick(mode_of(cfg@), last, goal_met));
        }
        let r = self.decide_given(cfg, goal_met);
        assert(tick_on(cfg@, quran_cfg@, last, reading_day(quran_cfg@, t, b)) == (r, self.last_was_quran));
        r
    }

    /// A single tick on demand.
    pub fn tick_once(&mut self, cfg: &JsonValue, quran_cfg: &JsonValue) -> (r: TickAction)
        ensures
            exists|t: LocalTime, b: LocalTime|
                local_ok(t) && local_ok(b) && (r, final(self).last_was_quran) == tick_on(
                    cfg@,
                    quran_cfg@,
                    old(self).last_was_quran,
                    #[trigger] reading_day(quran_cfg@, t, b),
                ),
            mode_of(cfg@) != AppMode::Sequential ==> (r, final(self).last_was_quran) == tick(
                mode_of(cfg@),
                old(self).last_was_quran,
                true,
            ),
            mode_of(cfg@) == AppMode::Sequential && has_no_readings(quran_cfg@) ==> r == TickAction::ShowQuran,
            final(self).generation == old(self).generation,
    {
        self.decide_tick_action(cfg, quran_cfg)
    }

    /// Invalidate the running timer: its generation is no longer current.
    pub fn stop(&mut self)
        ensures
            final(self).generation == old(self).generation.wrapping_add(1),
            final(self).last_was_quran == old(self).last_was_quran,
    {
        self.generation = self.generation.wrapping_add(1);
    }

    /// Begin a new timer run (stopping the previous one); returns the new
    /// run's generation, which is current until the next `stop` or `start`.
    pub fn start(&mut self) -> (g: u64)
        ensures
            g == old(self).generation.wrapping_add(1).wrapping_add(1),
            final(self).generation == g,
            final(self).last_was_quran == old(self).last_was_quran,
    {
        self.stop();
        self.generation = self.generation.wrapping_add(1);
        self.generation
    }

    /// `start` again.
    pub fn restart(&mut self) -> (g: u64)
        ensures
            g == old(self).generation.wrapping_add(1).wrapping_add(1),
            final(self).generation == g,
            final(self).last_was_quran == old(self).last_was_quran,
    {
        self.start()
    }

    /// Whether a timer run of generation `g` may still act.
    pub fn is_current(&self, g: u64) -> (r: bool)
        ensures
            r == (g == self.generation),
    {
        g == self.generation
    }
}

impl Default for Orchestrator {
    fn default() -> (r: Orchestrator)
        ensures
            !r.last_was_quran,
            r.generation == 0,
    {
        Orchestrator::new()
    }
}

/// The shortest wait between ticks, in milliseconds.
pub const MIN_TICK_MS: i64 = 1000i64;

/// The longest single sleep of the timer, in milliseconds.
pub const SLEEP_CHUNK_MS: u64 = 500u64;

/// The wait before the next tick: the interval, but at least a second.
pub fn tick_wait_ms(interval_ms: i64) -> (r: u64)
    ensures
        r as int == if interval_ms < MIN_TICK_MS {
            MIN_TICK_MS as int
        } else {
            interval_ms as int
        },
{
    if interval_ms < MIN_TICK_MS {
        MIN_TICK_MS as u64
    } else {
        interval_ms as u64
    }
}

/// The next sleep of the timer: half a second, or what is left of the wait.
pub fn next_sleep_ms(wait_ms: u64, elapsed_ms: u64) -> (r: u64)
    requires
        elapsed_ms < wait_ms,
    ensures
        r == if SLEEP_CHUNK_MS < wait_ms - elapsed_ms {
            SLEEP_CHUNK_MS as int
        } else {
            wait_ms - elapsed_ms
        },
{
    let left = wait_ms - elapsed_ms;
    if SLEEP_CHUNK_MS < left {
        SLEEP_CHUNK_MS
    } else {
        left
    }
}

/// The instant (ms since the epoch) until which reminders are paused, 0 for none.
pub open spec fn paused_until(q: JsonView) -> i64 {
    match q.get("pausedUntil"@) {
        Some(v) => match v.as_i64() {
            Some(n) => n,
            None => 0,
        },
        None => 0,
    }
}

/// Whether reminders are paused at the instant `now_ms`.
pub open spec fn paused_at(q: JsonView, now_ms: i64) -> bool {
    paused_until(q) > 0 && now_ms < paused_until(q)
}

/// Whether reminders are paused at the instant `now_ms`.
pub fn is_paused_at(quran_cfg: &JsonValue, now_ms: i64) -> (r: bool)
    ensures
        r == paused_at(quran_cfg@, now_ms),
{
    let until = match quran_cfg.get("pausedUntil") {
        Some(v) => match v.as_i64() {
            Some(n) => n,
            None => 0,
        },
        None => 0,
    };
    if until <= 0 {
        return false;
    }
    now_ms < until
}

/// Whether reminders are paused now.
pub fn is_paused(quran_cfg: &JsonValue) -> (r: bool)
    ensures
        exists|now_ms: i64| 0 <= now_ms <= NOW_MS_MAX && r == #[trigger] paused_at(quran_cfg@, now_ms),
        paused_until(quran_cfg@) <= 0 ==> !r,
{
    let now = utc_now_millis();
    is_paused_at(quran_cfg, now)
}


/// The next step of a running timer.
#[derive(Clone, Copy, Debug, PartialEq, Eq, Structural)]
pub enum TimerStep {
    /// Sleep this many milliseconds, then ask again.
    Sleep(u64),
    /// The wait is over: tick.
    Fire,
    /// The run was stopped or replaced: end it.
    Quit,
}

pub open spec fn step_of(current: bool, wait_ms: u64, elapsed_ms: u64) -> TimerStep {
    if !current {
        TimerStep::Quit
    } else if elapsed_ms >= wait_ms {
        TimerStep::Fire
    } else if SLEEP_CHUNK_MS < wait_ms - elapsed_ms {
        TimerStep::Sleep(SLEEP_CHUNK_MS)
    } else {
        TimerStep::Sleep((wait_ms - elapsed_ms) as u64)
    }
}

/// What a timer run does after sleeping `elapsed_ms` of a `wait_ms` wait,
/// `current` telling whether its generation is still the current one.
pub fn timer_step(current: bool, wait_ms: u64, elapsed_ms: u64) -> (r: TimerStep)
    ensures
        r == step_of(current, wait_ms, elapsed_ms),
{
    if !current {
        TimerStep::Quit
    } else if elapsed_ms >= wait_ms {
        TimerStep::Fire
    } else {
        TimerStep::Sleep(next_sleep_ms(wait_ms, elapsed_ms))
    }
}

/// What a tick at the instant `now_ms` does, from orchestrator `o` to `o2`
/// with result `r`: nothing while reminders are paused, else the tick for
/// the day of reading of some local time (that of the instant).
pub open spec fn fired(o: Orchestrator, o2: Orchestrator, cfg: JsonView, q: JsonView, now_ms: i64, r: Option<TickAction>) -> bool {
    &&& paused_at(q, now_ms) ==> r is None && o2 == o
    &&& !paused_at(q, now_ms) ==> (r matches Some(a) && o2.generation == o.generation && exists|t: LocalTime, b: LocalTime|
        local_ok(t) && local_ok(b) && (a, o2.last_was_quran) == tick_on(
            cfg,
            q,
            o.last_was_quran,
            #[trigger] reading_day(q, t, b),
        ))
}

impl Orchestrator {
    /// The tick at the instant `now_ms`: none while reminders are paused (the
    /// alternation is left as it was), else the action of the tick.
    pub fn fire_at(&mut self, cfg: &JsonValue, quran_cfg: &JsonValue, now_ms: i64) -> (r: Option<TickAction>)
        ensures
            fired(*old(self), *final(self), cfg@, quran_cfg@, now_ms, r),
            !paused_at(quran_cfg@, now_ms) && mode_of(cfg@) != AppMode::Sequential ==> r == Some(
                tick(mode_of(cfg@), old(self).last_was_quran, true).0,
            ),
            final(self).generation == old(self).generation,
    {
        if is_paused_at(quran_cfg, now_ms) {
            None
        } else {
            Some(self.decide_tick_action(cfg, quran_cfg))
        }
    }

    /// The tick now: that of `fire_at` at the instant the clock reports.
    pub fn fire(&mut self, cfg: &JsonValue, quran_cfg: &JsonValue) -> (r: Option<TickAction>)
        ensures
            exists|now_ms: i64|
                0 <= now_ms <= NOW_MS_MAX && #[trigger] fired(*old(self), *final(self), cfg@, quran_cfg@, now_ms, r),
            paused_until(quran_cfg@) <= 0 ==> r is Some,
            final(self).generation == old(self).generation,
    {
        let now = utc_now_millis();
        self.fire_at(cfg, quran_cfg, now)
    }
}

/// In the alternating mode the ticks take turns: each tick flips the flag,
/// so two ticks in a row show one Quran and one hadith reminder and leave the
/// flag as it was; a fresh orchestrator starts with the Quran.
pub proof fn law_alternating_takes_turns(last: bool, g1: bool, g2: bool)
    ensures
        tick(AppMode::Alternating, last, g1).1 == !last,
        tick(AppMode::Alternating, tick(AppMode::Alternating, last, g1).1, g2).1 == last,
        tick(AppMode::Alternating, last, g1).0 != tick(
            AppMode::Alternating,
            tick(AppMode::Alternating, last, g1).1,
            g2,
        ).0,
        tick(AppMode::Alternating, false, g1).0 == TickAction::ShowQuran,
{
}

/// In the sequential mode the Quran is shown until the daily goal is met,
/// after which the hadith replaces it; the other modes ignore the goal.
pub proof fn law_sequential_follows_goal(last: bool, mode: AppMode, g1: bool, g2: bool)
    ensures
        tick(AppMode::Sequential, last, false).0 == TickAction::ShowQuran,
        tick(AppMode::Sequential, last, true).0 == TickAction::HideQuranShowHadith,
        mode != AppMode::Sequential ==> tick(mode, last, g1) == tick(mode, last, g2),
{
}

/// Logging one more reading never lowers the count of readings on a day,
/// so a goal once met stays met for the rest of that day.
pub proof fn law_goal_stays_met(readings: Seq<JsonView>, extra: JsonView, day: Seq<char>)
    ensures
        count_dated(readings.push(extra), day) >= count_dated(readings, day),
        extra.get("date"@) == Some(JsonView::Str(day)) ==> count_dated(readings.push(extra), day)
            == count_dated(readings, day) + 1,
{
    assert(readings.push(extra).drop_last() =~= readings);
}

/// Stopping the timer makes the generation it was running under stale.
pub proof fn law_stop_invalidates(g: u64)
    ensures
        g.wrapping_add(1) != g,
        g.wrapping_add(1).wrapping_add(1) != g.wrapping_add(1),
{
}

/// Every sleep of the timer makes progress and never runs past the wait.
pub proof fn law_sleep_never_overshoots(wait_ms: u64, elapsed_ms: u64)
    requires
        elapsed_ms < wait_ms,
    ensures
        ({
            let s = if SLEEP_CHUNK_MS < wait_ms - elapsed_ms {
                SLEEP_CHUNK_MS as int
            } else {
                wait_ms - elapsed_ms
            };
            &&& 0 < s <= SLEEP_CHUNK_MS
            &&& elapsed_ms + s <= wait_ms
        }),
{
}

/// The wait between ticks is at least a second.
pub proof fn law_tick_wait_at_least_a_second(interval_ms: i64)
    ensures
        (if interval_ms < MIN_TICK_MS {
            MIN_TICK_MS as int
        } else {
            interval_ms as int
        }) >= 1000,
{
}

/// What each reminder mode shows on a tick, read straight from the
/// settings' `appMode`: the hadith-only mode always the hadith, the
/// Quran-only mode always the Quran, `both` both windows (each of these
/// leaving the alternation flag alone); the alternating mode the Quran after
/// a hadith and the hadith after the Quran, flipping the flag; the sequential
/// mode (also when `appMode` is missing) the Quran until the goal is met,
/// then the hadith with the Quran hidden.
pub proof fn law_tick_by_mode(cfg: JsonView, last: bool, goal_met: bool)
    ensures
        cfg.get("appMode"@) == Some(JsonView::Str("hadithOnly"@)) ==> tick(mode_of(cfg), last, goal_met) == (
            TickAction::ShowHadith,
            last,
        ),
        cfg.get("appMode"@) == Some(JsonView::Str("quranOnly"@)) ==> tick(mode_of(cfg), last, goal_met) == (
            TickAction::ShowQuran,
            last,
        ),
        cfg.get("appMode"@) == Some(JsonView::Str("both"@)) ==> tick(mode_of(cfg), last, goal_met) == (
            TickAction::ShowBoth,
            last,
        ),
        cfg.get("appMode"@) == Some(JsonView::Str("alternating"@)) ==> tick(mode_of(cfg), last, goal_met) == (
            if last {
                TickAction::ShowHadith
            } else {
                TickAction::ShowQuran
            },
            !last,
        ),
        cfg.get("appMode"@) is None ==> tick(mode_of(cfg), last, goal_met) == (
            if goal_met {
                TickAction::HideQuranShowHadith
            } else {
                TickAction::ShowQuran
            },
            last,
        ),
{
    reveal_strlit("hadithOnly");
    reveal_strlit("quranOnly");
    reveal_strlit("both");
    reveal_strlit("alternating");
    reveal_strlit("sequential");
    assert("sequential"@.len() != "alternating"@.len());
    assert("sequential"@.len() != "both"@.len());
    assert("sequential"@.len() != "quranOnly"@.len());
    assert("sequential"@[0] != "hadithOnly"@[0]);
    assert("hadithOnly"@.len() != "alternating"@.len());
    assert("hadithOnly"@.len() != "both"@.len());
    assert("hadithOnly"@.len() != "quranOnly"@.len());
    assert("quranOnly"@.len() != "alternating"@.len());
    assert("quranOnly"@.len() != "both"@.len());
    assert("both"@.len() != "alternating"@.len());
}

/// The wait between reminders, in minutes, read straight from the settings:
/// in the hadith-only, `both` and alternating modes it is the settings'
/// `interval` (30 when missing) whatever the Quran settings hold; in the
/// Quran-only mode it is the Quran settings' positive `memorizationInterval`
/// (10 when missing or not positive); in the sequential mode (also when
/// `appMode` is missing) it is the Quran interval until the goal is met, then
/// the hadith interval.
pub proof fn law_interval_by_mode(cfg: JsonView, q: JsonView, goal_met: bool, n: i64, m: i64)
    ensures
        ({
            let hadith_mode = cfg.get("appMode"@) == Some(JsonView::Str("hadithOnly"@)) || cfg.get("appMode"@)
                == Some(JsonView::Str("both"@)) || cfg.get("appMode"@) == Some(JsonView::Str("alternating"@));
            &&& hadith_mode && cfg.get("interval"@) == Some(JsonView::Number(JsonNumber::Int(n))) ==> active_minutes(
                cfg,
                q,
                goal_met,
            ) == n
            &&& hadith_mode && cfg.get("interval"@) is None ==> active_minutes(cfg, q, goal_met) == 30
        }),
        cfg.get("appMode"@) == Some(JsonView::Str("quranOnly"@)) && q.get("memorizationInterval"@) == Some(
            JsonView::Number(JsonNumber::Int(m)),
        ) && m > 0 ==> active_minutes(cfg, q, goal_met) == m,
        cfg.get("appMode"@) == Some(JsonView::Str("quranOnly"@)) && q.get("memorizationInterval"@) is None
            ==> active_minutes(cfg, q, goal_met) == 10,
        cfg.get("appMode"@) is None && q.get("memorizationInterval"@) == Some(JsonView::Number(JsonNumber::Int(m)))
            && m > 0 && !goal_met ==> active_minutes(cfg, q, goal_met) == m,
        cfg.get("appMode"@) is None && cfg.get("interval"@) == Some(JsonView::Number(JsonNumber::Int(n))) && goal_met
            ==> active_minutes(cfg, q, goal_met) == n,
{
    law_tick_by_mode(cfg, false, goal_met);
}

} // verus!
