//! The two configuration stores: the typed hadith settings and the free-form
//! Quran key/value store, with the operations the user interface drives.
use vstd::prelude::*;
use crate::json::{
    JsonNumber, JsonValue, JsonView, find_key, first_key_index, lemma_first_key_index, lemma_view_entries,
    lemma_view_values, lookup, view_entries, view_values,
};
use crate::text::text_eq;

verus! {

/// How the reminders of the Quran and of the hadith collection interleave.
#[derive(Clone, Copy, Debug, PartialEq, Eq, Structural)]
pub enum AppMode {
    Sequential,
    Alternating,
    Both,
    QuranOnly,
    HadithOnly,
}

/// The wire name of a mode.
pub open spec fn mode_name(m: AppMode) -> Seq<char> {
    match m {
        AppMode::Sequential => "sequential"@,
        AppMode::Alternating => "alternating"@,
        AppMode::Both => "both"@,
        AppMode::QuranOnly => "quranOnly"@,
        AppMode::HadithOnly => "hadithOnly"@,
    }
}

/// The mode a name selects; any unknown name selects `Sequential`.
pub open spec fn mode_from_name(s: Seq<char>) -> AppMode {
    if s == "alternating"@ {
        AppMode::Alternating
    } else if s == "both"@ {
        AppMode::Both
    } else if s == "quranOnly"@ {
        AppMode::QuranOnly
    } else if s == "hadithOnly"@ {
        AppMode::HadithOnly
    } else {
        AppMode::Sequential
    }
}

impl AppMode {
    pub fn as_str(&self) -> (r: &'static str)
        ensures
            r@ == mode_name(*self),
    {
        match self {
            AppMode::Sequential => "sequential",
            AppMode::Alternating => "alternating",
            AppMode::Both => "both",
            AppMode::QuranOnly => "quranOnly",
            AppMode::HadithOnly => "hadithOnly",
        }
    }

    pub fn from_str(s: &str) -> (r: AppMode)
        ensures
            r == mode_from_name(s@),
    {
        if text_eq(s, "alternating") {
            AppMode::Alternating
        } else if text_eq(s, "both") {
            AppMode::Both
        } else if text_eq(s, "quranOnly") {
            AppMode::QuranOnly
        } else if text_eq(s, "hadithOnly") {
            AppMode::HadithOnly
        } else {
            AppMode::Sequential
        }
    }
}

impl Default for AppMode {
    fn default() -> (r: AppMode)
        ensures
            r == AppMode::Sequential,
    {
        AppMode::Sequential
    }
}

/// Reading a mode back from its name gives the mode.
pub proof fn lemma_mode_name_round_trip(m: AppMode)
    ensures
        mode_from_name(mode_name(m)) == m,
{
    reveal_strlit("sequential");
    reveal_strlit("alternating");
    reveal_strlit("both");
    reveal_strlit("quranOnly");
    reveal_strlit("hadithOnly");
    assert("sequential"@ != "alternating"@ && "sequential"@ != "both"@) by {
        assert("sequential"@[0] != "alternating"@[0]);
        assert("sequential"@[0] != "both"@[0]);
    }
    assert("sequential"@ != "quranOnly"@ && "sequential"@ != "hadithOnly"@) by {
        assert("sequential"@[0] != "quranOnly"@[0]);
        assert("sequential"@[0] != "hadithOnly"@[0]);
    }
    assert("alternating"@ != "both"@) by {
        assert("alternating"@[0] != "both"@[0]);
    }
    assert("both"@ != "alternating"@);
    assert("quranOnly"@ != "alternating"@ && "quranOnly"@ != "both"@) by {
        assert("quranOnly"@[0] != "alternating"@[0]);
        assert("quranOnly"@[0] != "both"@[0]);
    }
    assert("hadithOnly"@ != "alternating"@ && "hadithOnly"@ != "both"@
        && "hadithOnly"@ != "quranOnly"@) by {
        assert("hadithOnly"@[0] != "alternating"@[0]);
        assert("hadithOnly"@[0] != "both"@[0]);
        assert("hadithOnly"@[0] != "quranOnly"@[0]);
    }
}

/// Colour scheme of the windows.
#[derive(Clone, Copy, Debug, PartialEq, Eq, Structural)]
pub enum Theme {
    Light,
    Dark,
}

pub open spec fn theme_name(t: Theme) -> Seq<char> {
    match t {
        Theme::Light => "light"@,
        Theme::Dark => "dark"@,
    }
}

/// `"dark"` selects the dark theme; every other name the light one.
pub open spec fn theme_from_name(s: Seq<char>) -> Theme {
    if s == "dark"@ {
        Theme::Dark
    } else {
        Theme::Light
    }
}

impl Theme {
    pub fn as_str(&self) -> (r: &'static str)
        ensures
            r@ == theme_name(*self),
    {
        match self {
            Theme::Light => "light",
            Theme::Dark => "dark",
        }
    }

    pub fn from_str(s: &str) -> (r: Theme)
        ensures
            r == theme_from_name(s@),
    {
        if text_eq(s, "dark") {
            Theme::Dark
        } else {
            Theme::Light
        }
    }
}

impl Default for Theme {
    fn default() -> (r: Theme)
        ensures
            r == Theme::Light,
    {
        Theme::Light
    }
}

/// Reading a theme back from its name gives the theme.
pub proof fn lemma_theme_name_round_trip(t: Theme)
    ensures
        theme_from_name(theme_name(t)) == t,
{
    reveal_strlit("light");
    reveal_strlit("dark");
    assert("light"@ != "dark"@) by {
        assert("light"@[0] != "dark"@[0]);
    }
}


/// The hadith reminder settings.  Window geometry is carried as JSON numbers.
pub struct AppConfig {
    pub interval: i64,
    pub font_size: i64,
    pub font_family: String,
    pub c_sanad: String,
    pub c_matn: String,
    pub c_takhrij: String,
    pub c_sharh: String,
    pub theme: Theme,
    pub index: i64,
    pub first_run: bool,
    pub auto_launch: bool,
    pub app_mode: AppMode,
    pub widget_w: JsonNumber,
    pub widget_h: JsonNumber,
    pub widget_x: Option<JsonNumber>,
    pub widget_y: Option<JsonNumber>,
    pub h_review_enabled: bool,
    pub h_review_days: i64,
    /// Review due times (ms since the epoch) by hadith index, as text keys.
    pub h_reviews: Vec<(String, i64)>,
}

/// The model of the hadith settings.
pub struct CfgView {
    pub interval: i64,
    pub font_size: i64,
    pub font_family: Seq<char>,
    pub c_sanad: Seq<char>,
    pub c_matn: Seq<char>,
    pub c_takhrij: Seq<char>,
    pub c_sharh: Seq<char>,
    pub theme: Theme,
    pub index: i64,
    pub first_run: bool,
    pub auto_launch: bool,
    pub app_mode: AppMode,
    pub widget_w: JsonNumber,
    pub widget_h: JsonNumber,
    pub widget_x: Option<JsonNumber>,
    pub widget_y: Option<JsonNumber>,
    pub h_review_enabled: bool,
    pub h_review_days: i64,
    pub h_reviews: Seq<(Seq<char>, i64)>,
}

pub open spec fn view_reviews(s: Seq<(String, i64)>) -> Seq<(Seq<char>, i64)> {
    Seq::new(s.len(), |i: int| (s[i].0@, s[i].1))
}

impl View for AppConfig {
    type V = CfgView;

    open spec fn view(&self) -> CfgView {
        CfgView {
            interval: self.interval,
            font_size: self.font_size,
            font_family: self.font_family@,
            c_sanad: self.c_sanad@,
            c_matn: self.c_matn@,
            c_takhrij: self.c_takhrij@,
            c_sharh: self.c_sharh@,
            theme: self.theme,
            index: self.index,
            first_run: self.first_run,
            auto_launch: self.auto_launch,
            app_mode: self.app_mode,
            widget_w: self.widget_w,
            widget_h: self.widget_h,
            widget_x: self.widget_x,
            widget_y: self.widget_y,
            h_review_enabled: self.h_review_enabled,
            h_review_days: self.h_review_days,
            h_reviews: view_reviews(self.h_reviews@),
        }
    }
}

/// Bit pattern of the floating-point number 430.0.
pub const WIDGET_DEFAULT_W_BITS: u64 = 4646272256190709760u64;

/// Bit pattern of the floating-point number 420.0.
pub const WIDGET_DEFAULT_H_BITS: u64 = 4646096334330265600u64;

/// The settings a fresh installation starts from.
pub open spec fn default_cfg() -> CfgView {
    CfgView {
        interval: 30,
        font_size: 22,
        font_family: "'QuranFont', 'Traditional Arabic'"@,
        c_sanad: "#5d7a69"@,
        c_matn: "#182820"@,
        c_takhrij: "#1a9850"@,
        c_sharh: "#b35900"@,
        theme: Theme::Light,
        index: 0,
        first_run: true,
        auto_launch: true,
        app_mode: AppMode::Sequential,
        widget_w: JsonNumber::Float(WIDGET_DEFAULT_W_BITS),
        widget_h: JsonNumber::Float(WIDGET_DEFAULT_H_BITS),
        widget_x: None,
        widget_y: None,
        h_review_enabled: false,
        h_review_days: 7,
        h_reviews: Seq::empty(),
    }
}

impl Default for AppConfig {
    fn default() -> (r: AppConfig)
        ensures
            r@ == default_cfg(),
    {
        let r = AppConfig {
            interval: 30,
            font_size: 22,
            font_family: String::from_str("'QuranFont', 'Traditional Arabic'"),
            c_sanad: String::from_str("#5d7a69"),
            c_matn: String::from_str("#182820"),
            c_takhrij: String::from_str("#1a9850"),
            c_sharh: String::from_str("#b35900"),
            theme: Theme::Light,
            index: 0,
            first_run: true,
            auto_launch: true,
            app_mode: AppMode::Sequential,
            widget_w: JsonNumber::Float(WIDGET_DEFAULT_W_BITS),
            widget_h: JsonNumber::Float(WIDGET_DEFAULT_H_BITS),
            widget_x: None,
            widget_y: None,
            h_review_enabled: false,
            h_review_days: 7,
            h_reviews: Vec::new(),
        };
        assert(r@.h_reviews =~= Seq::empty());
        r
    }
}


/// The members of an object whose value is an integer within `i64`.
pub open spec fn int_members(o: Seq<(Seq<char>, JsonView)>) -> Seq<(Seq<char>, i64)>
    decreases o.len(),
{
    if o.len() == 0 {
        Seq::empty()
    } else {
        let rest = int_members(o.drop_last());
        match o.last().1.as_i64() {
            Some(n) => rest.push((o.last().0, n)),
            None => rest,
        }
    }
}

/// The hadith settings, one name per field.
#[derive(Clone, Copy, Debug, PartialEq, Eq, Structural)]
pub enum CfgKey {
    Interval,
    FontSize,
    FontFamily,
    CSanad,
    CMatn,
    CTakhrij,
    CSharh,
    Theme,
    Index,
    FirstRun,
    AutoLaunch,
    AppMode,
    WidgetW,
    WidgetH,
    WidgetX,
    WidgetY,
    HReviewEnabled,
    HReviewDays,
    HReviews,
}

/// The setting a key names, if any.
pub open spec fn cfg_key(k: Seq<char>) -> Option<CfgKey> {
    if k == "interval"@ {
        Some(CfgKey::Interval)
    } else if k == "fontSize"@ {
        Some(CfgKey::FontSize)
    } else if k == "fontFamily"@ {
        Some(CfgKey::FontFamily)
    } else if k == "cSanad"@ {
        Some(CfgKey::CSanad)
    } else if k == "cMatn"@ {
        Some(CfgKey::CMatn)
    } else if k == "cTakhrij"@ {
        Some(CfgKey::CTakhrij)
    } else if k == "cSharh"@ {
        Some(CfgKey::CSharh)
    } else if k == "theme"@ {
        Some(CfgKey::Theme)
    } else if k == "index"@ {
        Some(CfgKey::Index)
    } else if k == "firstRun"@ {
        Some(CfgKey::FirstRun)
    } else if k == "autoLaunch"@ {
        Some(CfgKey::AutoLaunch)
    } else if k == "appMode"@ {
        Some(CfgKey::AppMode)
    } else if k == "widgetW"@ {
        Some(CfgKey::WidgetW)
    } else if k == "widgetH"@ {
        Some(CfgKey::WidgetH)
    } else if k == "widgetX"@ {
        Some(CfgKey::WidgetX)
    } else if k == "widgetY"@ {
        Some(CfgKey::WidgetY)
    } else if k == "hReviewEnabled"@ {
        Some(CfgKey::HReviewEnabled)
    } else if k == "hReviewDays"@ {
        Some(CfgKey::HReviewDays)
    } else if k == "hReviews"@ {
        Some(CfgKey::HReviews)
    } else {
        None
    }
}

pub fn cfg_key_of(k: &str) -> (r: Option<CfgKey>)
    ensures
        r == cfg_key(k@),
{
    if text_eq(k, "interval") {
        Some(CfgKey::Interval)
    } else if text_eq(k, "fontSize") {
        Some(CfgKey::FontSize)
    } else if text_eq(k, "fontFamily") {
        Some(CfgKey::FontFamily)
    } else if text_eq(k, "cSanad") {
        Some(CfgKey::CSanad)
    } else if text_eq(k, "cMatn") {
        Some(CfgKey::CMatn)
    } else if text_eq(k, "cTakhrij") {
        Some(CfgKey::CTakhrij)
    } else if text_eq(k, "cSharh") {
        Some(CfgKey::CSharh)
    } else if text_eq(k, "theme") {
        Some(CfgKey::Theme)
    } else if text_eq(k, "index") {
        Some(CfgKey::Index)
    } else if text_eq(k, "firstRun") {
        Some(CfgKey::FirstRun)
    } else if text_eq(k, "autoLaunch") {
        Some(CfgKey::AutoLaunch)
    } else if text_eq(k, "appMode") {
        Some(CfgKey::AppMode)
    } else if text_eq(k, "widgetW") {
        Some(CfgKey::WidgetW)
    } else if text_eq(k, "widgetH") {
        Some(CfgKey::WidgetH)
    } else if text_eq(k, "widgetX") {
        Some(CfgKey::WidgetX)
    } else if text_eq(k, "widgetY") {
        Some(CfgKey::WidgetY)
    } else if text_eq(k, "hReviewEnabled") {
        Some(CfgKey::HReviewEnabled)
    } else if text_eq(k, "hReviewDays") {
        Some(CfgKey::HReviewDays)
    } else if text_eq(k, "hReviews") {
        Some(CfgKey::HReviews)
    } else {
        None
    }
}

/// The effect of writing `v` under `key` into the hadith settings: each
/// field keeps its value when `v` has the wrong type (the two optional
/// positions are cleared instead), and unknown keys change nothing.
pub open spec fn cfg_with(c: CfgView, key: Seq<char>, v: JsonView) -> CfgView {
    match cfg_key(key) {
        Some(CfgKey::Interval) => CfgView { interval: match v.as_i64() { Some(n) => n, None => c.interval }, ..c },
        Some(CfgKey::FontSize) => CfgView { font_size: match v.as_i64() { Some(n) => n, None => c.font_size }, ..c },
        Some(CfgKey::FontFamily) => CfgView { font_family: match v.as_str() { Some(t) => t, None => c.font_family }, ..c },
        Some(CfgKey::CSanad) => CfgView { c_sanad: match v.as_str() { Some(t) => t, None => c.c_sanad }, ..c },
        Some(CfgKey::CMatn) => CfgView { c_matn: match v.as_str() { Some(t) => t, None => c.c_matn }, ..c },
        Some(CfgKey::CTakhrij) => CfgView { c_takhrij: match v.as_str() { Some(t) => t, None => c.c_takhrij }, ..c },
        Some(CfgKey::CSharh) => CfgView { c_sharh: match v.as_str() { Some(t) => t, None => c.c_sharh }, ..c },
        Some(CfgKey::Theme) => CfgView { theme: match v.as_str() { Some(t) => theme_from_name(t), None => c.theme }, ..c },
        Some(CfgKey::Index) => CfgView { index: match v.as_i64() { Some(n) => n, None => c.index }, ..c },
        Some(CfgKey::FirstRun) => CfgView { first_run: match v.as_bool() { Some(b) => b, None => c.first_run }, ..c },
        Some(CfgKey::AutoLaunch) => CfgView { auto_launch: match v.as_bool() { Some(b) => b, None => c.auto_launch }, ..c },
        Some(CfgKey::AppMode) => CfgView { app_mode: match v.as_str() { Some(t) => mode_from_name(t), None => c.app_mode }, ..c },
        Some(CfgKey::WidgetW) => CfgView { widget_w: match v.as_number() { Some(n) => n, None => c.widget_w }, ..c },
        Some(CfgKey::WidgetH) => CfgView { widget_h: match v.as_number() { Some(n) => n, None => c.widget_h }, ..c },
        Some(CfgKey::WidgetX) => CfgView { widget_x: v.as_number(), ..c },
        Some(CfgKey::WidgetY) => CfgView { widget_y: v.as_number(), ..c },
        Some(CfgKey::HReviewEnabled) => CfgView { h_review_enabled: match v.as_bool() { Some(b) => b, None => c.h_review_enabled }, ..c },
        Some(CfgKey::HReviewDays) => CfgView { h_review_days: match v.as_i64() { Some(n) => n, None => c.h_review_days }, ..c },
        Some(CfgKey::HReviews) => match v.as_object() {
            Some(o) => CfgView { h_reviews: int_members(o), ..c },
            None => c,
        },
        None => c,
    }
}

/// Writing every member of an object in turn.
pub open spec fn cfg_with_all(c: CfgView, entries: Seq<(Seq<char>, JsonView)>) -> CfgView
    decreases entries.len(),
{
    if entries.len() == 0 {
        c
    } else {
        let e = entries.last();
        cfg_with(cfg_with_all(c, entries.drop_last()), e.0, e.1)
    }
}

/// Merging a member read from the settings file: as `cfg_with`, except that
/// a member that is not a number leaves the saved window position alone.
pub open spec fn cfg_merged(c: CfgView, key: Seq<char>, v: JsonView) -> CfgView {
    if (cfg_key(key) == Some(CfgKey::WidgetX) || cfg_key(key) == Some(CfgKey::WidgetY))
        && v.as_number() is None {
        c
    } else {
        cfg_with(c, key, v)
    }
}

pub open spec fn cfg_merged_all(c: CfgView, entries: Seq<(Seq<char>, JsonView)>) -> CfgView
    decreases entries.len(),
{
    if entries.len() == 0 {
        c
    } else {
        let e = entries.last();
        cfg_merged(cfg_merged_all(c, entries.drop_last()), e.0, e.1)
    }
}

pub open spec fn reviews_json(r: Seq<(Seq<char>, i64)>) -> JsonView {
    JsonView::Object(Seq::new(r.len(), |i: int| (r[i].0, JsonView::Number(JsonNumber::Int(r[i].1)))))
}

pub open spec fn opt_number_json(n: Option<JsonNumber>) -> JsonView {
    match n {
        Some(x) => JsonView::Number(x),
        None => JsonView::Null,
    }
}

/// The JSON value of one setting, `None` for an unknown key or an unset position.
pub open spec fn cfg_value_of(c: CfgView, key: Seq<char>) -> Option<JsonView> {
    match cfg_key(key) {
        Some(CfgKey::Interval) => Some(JsonView::Number(JsonNumber::Int(c.interval))),
        Some(CfgKey::FontSize) => Some(JsonView::Number(JsonNumber::Int(c.font_size))),
        Some(CfgKey::FontFamily) => Some(JsonView::Str(c.font_family)),
        Some(CfgKey::CSanad) => Some(JsonView::Str(c.c_sanad)),
        Some(CfgKey::CMatn) => Some(JsonView::Str(c.c_matn)),
        Some(CfgKey::CTakhrij) => Some(JsonView::Str(c.c_takhrij)),
        Some(CfgKey::CSharh) => Some(JsonView::Str(c.c_sharh)),
        Some(CfgKey::Theme) => Some(JsonView::Str(theme_name(c.theme))),
        Some(CfgKey::Index) => Some(JsonView::Number(JsonNumber::Int(c.index))),
        Some(CfgKey::FirstRun) => Some(JsonView::Bool(c.first_run)),
        Some(CfgKey::AutoLaunch) => Some(JsonView::Bool(c.auto_launch)),
        Some(CfgKey::AppMode) => Some(JsonView::Str(mode_name(c.app_mode))),
        Some(CfgKey::WidgetW) => Some(JsonView::Number(c.widget_w)),
        Some(CfgKey::WidgetH) => Some(JsonView::Number(c.widget_h)),
        Some(CfgKey::WidgetX) => match c.widget_x {
            Some(n) => Some(JsonView::Number(n)),
            None => None,
        },
        Some(CfgKey::WidgetY) => match c.widget_y {
            Some(n) => Some(JsonView::Number(n)),
            None => None,
        },
        Some(CfgKey::HReviewEnabled) => Some(JsonView::Bool(c.h_review_enabled)),
        Some(CfgKey::HReviewDays) => Some(JsonView::Number(JsonNumber::Int(c.h_review_days))),
        Some(CfgKey::HReviews) => Some(reviews_json(c.h_reviews)),
        None => None,
    }
}

/// The settings as one JSON object, members in declaration order.
pub open spec fn cfg_json(c: CfgView) -> JsonView {
    JsonView::Object(
        seq![
            ("interval"@, JsonView::Number(JsonNumber::Int(c.interval))),
            ("fontSize"@, JsonView::Number(JsonNumber::Int(c.font_size))),
            ("fontFamily"@, JsonView::Str(c.font_family)),
            ("cSanad"@, JsonView::Str(c.c_sanad)),
            ("cMatn"@, JsonView::Str(c.c_matn)),
            ("cTakhrij"@, JsonView::Str(c.c_takhrij)),
            ("cSharh"@, JsonView::Str(c.c_sharh)),
            ("theme"@, JsonView::Str(theme_name(c.theme))),
            ("index"@, JsonView::Number(JsonNumber::Int(c.index))),
            ("firstRun"@, JsonView::Bool(c.first_run)),
            ("autoLaunch"@, JsonView::Bool(c.auto_launch)),
            ("appMode"@, JsonView::Str(mode_name(c.app_mode))),
            ("widgetW"@, JsonView::Number(c.widget_w)),
            ("widgetH"@, JsonView::Number(c.widget_h)),
            ("widgetX"@, opt_number_json(c.widget_x)),
            ("widgetY"@, opt_number_json(c.widget_y)),
            ("hReviewEnabled"@, JsonView::Bool(c.h_review_enabled)),
            ("hReviewDays"@, JsonView::Number(JsonNumber::Int(c.h_review_days))),
            ("hReviews"@, reviews_json(c.h_reviews)),
        ],
    )
}

/// The integer members of an object, in order.
pub fn collect_int_members(entries: &Vec<(String, JsonValue)>) -> (r: Vec<(String, i64)>)
    ensures
        view_reviews(r@) == int_members(view_entries(entries@)),
{
    proof {
        lemma_view_entries(entries@);
    }
    let ghost ve = view_entries(entries@);
    let mut out: Vec<(String, i64)> = Vec::new();
    let mut i: usize = 0;
    while i < entries.len()
        invariant
            i <= entries.len(),
            ve == view_entries(entries@),
            ve.len() == entries@.len(),
            forall|j: int| 0 <= j < entries@.len() ==> #[trigger] ve[j] == (entries@[j].0@, entries@[j].1@),
            view_reviews(out@) =~= int_members(ve.take(i as int)),
        decreases entries.len() - i,
    {
        assert(ve.take(i + 1).drop_last() =~= ve.take(i as int));
        assert(ve.take(i + 1).last() == ve[i as int]);
        match entries[i].1.as_i64() {
            Some(n) => {
                out.push((entries[i].0.clone(), n));
            },
            None => {},
        }
        i = i + 1;
    }
    assert(ve.take(entries.len() as int) =~= ve);
    out
}

impl AppConfig {
    /// Write `value` under `key` (see `cfg_with`).
    pub fn write_key(&mut self, key: &str, value: &JsonValue)
        ensures
            final(self)@ == cfg_with(old(self)@, key@, value@),
    {
        match cfg_key_of(key) {
            Some(CfgKey::Interval) => if let Some(n) = value.as_i64() { self.interval = n; },
            Some(CfgKey::FontSize) => if let Some(n) = value.as_i64() { self.font_size = n; },
            Some(CfgKey::FontFamily) => if let Some(t) = value.as_str() { self.font_family = String::from_str(t); },
            Some(CfgKey::CSanad) => if let Some(t) = value.as_str() { self.c_sanad = String::from_str(t); },
            Some(CfgKey::CMatn) => if let Some(t) = value.as_str() { self.c_matn = String::from_str(t); },
            Some(CfgKey::CTakhrij) => if let Some(t) = value.as_str() { self.c_takhrij = String::from_str(t); },
            Some(CfgKey::CSharh) => if let Some(t) = value.as_str() { self.c_sharh = String::from_str(t); },
            Some(CfgKey::Theme) => if let Some(t) = value.as_str() { self.theme = Theme::from_str(t); },
            Some(CfgKey::Index) => if let Some(n) = value.as_i64() { self.index = n; },
            Some(CfgKey::FirstRun) => if let Some(b) = value.as_bool() { self.first_run = b; },
            Some(CfgKey::AutoLaunch) => if let Some(b) = value.as_bool() { self.auto_launch = b; },
            Some(CfgKey::AppMode) => if let Some(t) = value.as_str() { self.app_mode = AppMode::from_str(t); },
            Some(CfgKey::WidgetW) => if let Some(n) = value.as_number() { self.widget_w = n; },
            Some(CfgKey::WidgetH) => if let Some(n) = value.as_number() { self.widget_h = n; },
            Some(CfgKey::WidgetX) => { self.widget_x = value.as_number(); },
            Some(CfgKey::WidgetY) => { self.widget_y = value.as_number(); },
            Some(CfgKey::HReviewEnabled) => if let Some(b) = value.as_bool() { self.h_review_enabled = b; },
            Some(CfgKey::HReviewDays) => if let Some(n) = value.as_i64() { self.h_review_days = n; },
            Some(CfgKey::HReviews) => if let Some(o) = value.as_object() { self.h_reviews = collect_int_members(o); },
            None => {},
        }
    }
}


/// An entry of a JSON object.
pub fn member(key: &str, v: JsonValue) -> (r: (String, JsonValue))
    ensures
        r.0@ == key@,
        r.1@ == v@,
{
    (String::from_str(key), v)
}

pub fn int_json(n: i64) -> (r: JsonValue)
    ensures
        r@ == JsonView::Number(JsonNumber::Int(n)),
{
    JsonValue::Number(JsonNumber::Int(n))
}

pub fn text_json(t: &str) -> (r: JsonValue)
    ensures
        r@ == JsonView::Str(t@),
{
    JsonValue::Str(String::from_str(t))
}

pub fn reviews_to_json(r: &Vec<(String, i64)>) -> (j: JsonValue)
    ensures
        j@ == reviews_json(view_reviews(r@)),
{
    let mut out: Vec<(String, JsonValue)> = Vec::new();
    let mut i: usize = 0;
    while i < r.len()
        invariant
            i <= r.len(),
            out@.len() == i,
            forall|k: int|
                0 <= k < i ==> #[trigger] out@[k].0@ == r@[k].0@ && out@[k].1@ == JsonView::Number(
                    JsonNumber::Int(r@[k].1),
                ),
        decreases r.len() - i,
    {
        out.push((r[i].0.clone(), int_json(r[i].1)));
        i = i + 1;
    }
    proof {
        lemma_view_entries(out@);
        let rv = view_reviews(r@);
        assert(view_entries(out@) =~= Seq::new(
            rv.len(),
            |k: int| (rv[k].0, JsonView::Number(JsonNumber::Int(rv[k].1))),
        ));
    }
    JsonValue::Object(out)
}

pub fn opt_number_to_json(n: Option<JsonNumber>) -> (j: JsonValue)
    ensures
        j@ == opt_number_json(n),
{
    match n {
        Some(x) => JsonValue::Number(x),
        None => JsonValue::Null,
    }
}

impl AppConfig {
    /// The JSON value of one setting (see `cfg_value_of`).
    pub fn value_of(&self, key: &str) -> (r: Option<JsonValue>)
        ensures
            r matches Some(v) ==> cfg_value_of(self@, key@) == Some(v@),
            r is None ==> cfg_value_of(self@, key@) is None,
    {
        match cfg_key_of(key) {
            Some(CfgKey::Interval) => Some(int_json(self.interval)),
            Some(CfgKey::FontSize) => Some(int_json(self.font_size)),
            Some(CfgKey::FontFamily) => Some(text_json(self.font_family.as_str())),
            Some(CfgKey::CSanad) => Some(text_json(self.c_sanad.as_str())),
            Some(CfgKey::CMatn) => Some(text_json(self.c_matn.as_str())),
            Some(CfgKey::CTakhrij) => Some(text_json(self.c_takhrij.as_str())),
            Some(CfgKey::CSharh) => Some(text_json(self.c_sharh.as_str())),
            Some(CfgKey::Theme) => Some(text_json(self.theme.as_str())),
            Some(CfgKey::Index) => Some(int_json(self.index)),
            Some(CfgKey::FirstRun) => Some(JsonValue::Bool(self.first_run)),
            Some(CfgKey::AutoLaunch) => Some(JsonValue::Bool(self.auto_launch)),
            Some(CfgKey::AppMode) => Some(text_json(self.app_mode.as_str())),
            Some(CfgKey::WidgetW) => Some(JsonValue::Number(self.widget_w)),
            Some(CfgKey::WidgetH) => Some(JsonValue::Number(self.widget_h)),
            Some(CfgKey::WidgetX) => match self.widget_x {
                Some(n) => Some(JsonValue::Number(n)),
                None => None,
            },
            Some(CfgKey::WidgetY) => match self.widget_y {
                Some(n) => Some(JsonValue::Number(n)),
                None => None,
            },
            Some(CfgKey::HReviewEnabled) => Some(JsonValue::Bool(self.h_review_enabled)),
            Some(CfgKey::HReviewDays) => Some(int_json(self.h_review_days)),
            Some(CfgKey::HReviews) => Some(reviews_to_json(&self.h_reviews)),
            None => None,
        }
    }

    /// All settings as one JSON object.
    pub fn to_json(&self) -> (r: JsonValue)
        ensures
            r@ == cfg_json(self@),
    {
        let mut v: Vec<(String, JsonValue)> = Vec::new();
        v.push(member("interval", int_json(self.interval)));
        v.push(member("fontSize", int_json(self.font_size)));
        v.push(member("fontFamily", text_json(self.font_family.as_str())));
        v.push(member("cSanad", text_json(self.c_sanad.as_str())));
        v.push(member("cMatn", text_json(self.c_matn.as_str())));
        v.push(member("cTakhrij", text_json(self.c_takhrij.as_str())));
        v.push(member("cSharh", text_json(self.c_sharh.as_str())));
        v.push(member("theme", text_json(self.theme.as_str())));
        v.push(member("index", int_json(self.index)));
        v.push(member("firstRun", JsonValue::Bool(self.first_run)));
        v.push(member("autoLaunch", JsonValue::Bool(self.auto_launch)));
        v.push(member("appMode", text_json(self.app_mode.as_str())));
        v.push(member("widgetW", JsonValue::Number(self.widget_w)));
        v.push(member("widgetH", JsonValue::Number(self.widget_h)));
        v.push(member("widgetX", opt_number_to_json(self.widget_x)));
        v.push(member("widgetY", opt_number_to_json(self.widget_y)));
        v.push(member("hReviewEnabled", JsonValue::Bool(self.h_review_enabled)));
        v.push(member("hReviewDays", int_json(self.h_review_days)));
        v.push(member("hReviews", reviews_to_json(&self.h_reviews)));
        proof {
            lemma_view_entries(v@);
            assert(view_entries(v@) =~= cfg_json(self@)->Object_0);
        }
        JsonValue::Object(v)
    }

    /// Write every member of `entries` in order.
    pub fn write_all(&mut self, entries: &Vec<(String, JsonValue)>)
        ensures
            final(self)@ == cfg_with_all(old(self)@, view_entries(entries@)),
    {
        proof {
            lemma_view_entries(entries@);
        }
        let ghost ve = view_entries(entries@);
        let mut i: usize = 0;
        while i < entries.len()
            invariant
                i <= entries.len(),
                ve == view_entries(entries@),
                ve.len() == entries@.len(),
                forall|j: int| 0 <= j < entries@.len() ==> #[trigger] ve[j] == (entries@[j].0@, entries@[j].1@),
                self@ == cfg_with_all(old(self)@, ve.take(i as int)),
            decreases entries.len() - i,
        {
            assert(ve.take(i + 1).drop_last() =~= ve.take(i as int));
            self.write_key(entries[i].0.as_str(), &entries[i].1);
            i = i + 1;
        }
        assert(ve.take(entries.len() as int) =~= ve);
    }

    /// Merge every member of `entries` read from a settings file.
    pub fn merge_all(&mut self, entries: &Vec<(String, JsonValue)>)
        ensures
            final(self)@ == cfg_merged_all(old(self)@, view_entries(entries@)),
    {
        proof {
            lemma_view_entries(entries@);
        }
        let ghost ve = view_entries(entries@);
        let mut i: usize = 0;
        while i < entries.len()
            invariant
                i <= entries.len(),
                ve == view_entries(entries@),
                ve.len() == entries@.len(),
                forall|j: int| 0 <= j < entries@.len() ==> #[trigger] ve[j] == (entries@[j].0@, entries@[j].1@),
                self@ == cfg_merged_all(old(self)@, ve.take(i as int)),
            decreases entries.len() - i,
        {
            assert(ve.take(i + 1).drop_last() =~= ve.take(i as int));
            let key = entries[i].0.as_str();
            let which = cfg_key_of(key);
            let keep_position = (which == Some(CfgKey::WidgetX) || which == Some(CfgKey::WidgetY))
                && entries[i].1.as_number().is_none();
            if !keep_position {
                self.write_key(key, &entries[i].1);
            }
            i = i + 1;
        }
        assert(ve.take(entries.len() as int) =~= ve);
    }
}


impl Clone for AppConfig {
    fn clone(&self) -> (r: AppConfig)
        ensures
            r@ == self@,
    {
        let mut reviews: Vec<(String, i64)> = Vec::new();
        let mut i: usize = 0;
        while i < self.h_reviews.len()
            invariant
                i <= self.h_reviews.len(),
                reviews@.len() == i,
                forall|k: int|
                    0 <= k < i ==> #[trigger] reviews@[k].0@ == self.h_reviews@[k].0@ && reviews@[k].1
                        == self.h_reviews@[k].1,
            decreases self.h_reviews.len() - i,
        {
            reviews.push((self.h_reviews[i].0.clone(), self.h_reviews[i].1));
            i = i + 1;
        }
        let r = AppConfig {
            interval: self.interval,
            font_size: self.font_size,
            font_family: self.font_family.clone(),
            c_sanad: self.c_sanad.clone(),
            c_matn: self.c_matn.clone(),
            c_takhrij: self.c_takhrij.clone(),
            c_sharh: self.c_sharh.clone(),
            theme: self.theme,
            index: self.index,
            first_run: self.first_run,
            auto_launch: self.auto_launch,
            app_mode: self.app_mode,
            widget_w: self.widget_w,
            widget_h: self.widget_h,
            widget_x: self.widget_x,
            widget_y: self.widget_y,
            h_review_enabled: self.h_review_enabled,
            h_review_days: self.h_review_days,
            h_reviews: reviews,
        };
        assert(r@.h_reviews =~= self@.h_reviews);
        r
    }
}

/// One entry of the reading log: the day it was read and, optionally, the page.
pub struct ReadingEntry {
    pub date: String,
    pub page: Option<i64>,
}

impl Default for ReadingEntry {
    fn default() -> (r: ReadingEntry)
        ensures
            r.date@ == Seq::<char>::empty(),
            r.page is None,
    {
        ReadingEntry { date: String::new(), page: None }
    }
}

/// The reading a JSON value describes: an object with a text `date` and a
/// `page` that is absent, `null` or an integer; anything else is no reading.
pub open spec fn reading_of(v: JsonView) -> Option<(Seq<char>, Option<i64>)> {
    match v.get("date"@) {
        Some(JsonView::Str(d)) => match v.get("page"@) {
            None => Some((d, None)),
            Some(JsonView::Null) => Some((d, None)),
            Some(p) => match p.as_i64() {
                Some(n) => Some((d, Some(n))),
                None => None,
            },
        },
        _ => None,
    }
}

/// The JSON form of a reading.
pub open spec fn reading_json(d: Seq<char>, p: Option<i64>) -> JsonView {
    JsonView::Object(
        seq![
            ("date"@, JsonView::Str(d)),
            ("page"@, match p {
                Some(n) => JsonView::Number(JsonNumber::Int(n)),
                None => JsonView::Null,
            }),
        ],
    )
}

/// The readings of a list, each in its JSON form, skipping what is no reading.
pub open spec fn readings_of(a: Seq<JsonView>) -> Seq<JsonView>
    decreases a.len(),
{
    if a.len() == 0 {
        Seq::empty()
    } else {
        let rest = readings_of(a.drop_last());
        match reading_of(a.last()) {
            Some((d, p)) => rest.push(reading_json(d, p)),
            None => rest,
        }
    }
}

impl ReadingEntry {
    pub fn from_json(v: &JsonValue) -> (r: Option<ReadingEntry>)
        ensures
            r matches Some(e) ==> reading_of(v@) == Some((e.date@, e.page)),
            r is None ==> reading_of(v@) is None,
    {
        let date = match v.get("date") {
            Some(JsonValue::Str(d)) => d.clone(),
            _ => return None,
        };
        match v.get("page") {
            None => Some(ReadingEntry { date, page: None }),
            Some(JsonValue::Null) => Some(ReadingEntry { date, page: None }),
            Some(p) => match p.as_i64() {
                Some(n) => Some(ReadingEntry { date, page: Some(n) }),
                None => None,
            },
        }
    }

    pub fn to_json(&self) -> (r: JsonValue)
        ensures
            r@ == reading_json(self.date@, self.page),
    {
        let page = match self.page {
            Some(n) => int_json(n),
            None => JsonValue::Null,
        };
        let mut v: Vec<(String, JsonValue)> = Vec::new();
        v.push(member("date", JsonValue::Str(self.date.clone())));
        v.push(member("page", page));
        proof {
            lemma_view_entries(v@);
            assert(view_entries(v@) =~= reading_json(self.date@, self.page)->Object_0);
        }
        JsonValue::Object(v)
    }
}

/// The readings of a list of values, in their JSON form.
pub fn collect_readings(items: &Vec<JsonValue>) -> (r: Vec<JsonValue>)
    ensures
        view_values(r@) == readings_of(view_values(items@)),
{
    proof {
        lemma_view_values(items@);
    }
    let ghost vi = view_values(items@);
    let mut out: Vec<JsonValue> = Vec::new();
    let mut i: usize = 0;
    while i < items.len()
        invariant
            i <= items.len(),
            vi == view_values(items@),
            vi.len() == items@.len(),
            forall|j: int| 0 <= j < items@.len() ==> #[trigger] vi[j] == items@[j]@,
            view_values(out@) == readings_of(vi.take(i as int)),
        decreases items.len() - i,
    {
        assert(vi.take(i + 1).drop_last() =~= vi.take(i as int));
        match ReadingEntry::from_json(&items[i]) {
            Some(e) => {
                let j = e.to_json();
                let ghost before = out@;
                out.push(j);
                proof {
                    lemma_view_values(before);
                    lemma_view_values(out@);
                    assert(out@.drop_last() =~= before);
                }
            },
            None => {},
        }
        i = i + 1;
    }
    assert(vi.take(items.len() as int) =~= vi);
    out
}


/// Keys of the Quran store whose values are integers.
pub open spec fn is_quran_int_key(k: Seq<char>) -> bool {
    ||| k == "currentQuranPage"@
    ||| k == "dailyGoal"@
    ||| k == "memorizationInterval"@
    ||| k == "reviewIndex"@
    ||| k == "recentReviewIndex"@
    ||| k == "pausedUntil"@
}

/// Keys of the Quran store whose values are numbers (window geometry).
pub open spec fn is_quran_number_key(k: Seq<char>) -> bool {
    ||| k == "widgetX"@
    ||| k == "widgetY"@
    ||| k == "widgetCustomWidth"@
    ||| k == "widgetCustomHeight"@
}

/// Keys of the Quran store with a fixed meaning.
pub open spec fn is_quran_known_key(k: Seq<char>) -> bool {
    is_quran_int_key(k) || is_quran_number_key(k) || k == "recentReadings"@
}

/// The entries with `value` stored under `key`: the first entry with that key
/// is replaced in place, or a new entry is appended.
pub open spec fn entries_put(
    e: Seq<(Seq<char>, JsonView)>,
    key: Seq<char>,
    value: JsonView,
) -> Seq<(Seq<char>, JsonView)> {
    match first_key_index(e, key) {
        Some(i) => e.update(i, (key, value)),
        None => e.push((key, value)),
    }
}

/// The entries without any entry for `key`.
pub open spec fn entries_without(e: Seq<(Seq<char>, JsonView)>, key: Seq<char>) -> Seq<
    (Seq<char>, JsonView),
>
    decreases e.len(),
{
    if e.len() == 0 {
        e
    } else {
        let rest = entries_without(e.drop_last(), key);
        if e.last().0 == key {
            rest
        } else {
            rest.push(e.last())
        }
    }
}

/// Writing `v` under `key` into the Quran store.  Known integer keys keep an
/// integer or are cleared, geometry keys keep a number or are cleared, the
/// reading log keeps the readings of a list (and ignores anything else);
/// every other key stores the value as given.
pub open spec fn quran_with(e: Seq<(Seq<char>, JsonView)>, key: Seq<char>, v: JsonView) -> Seq<
    (Seq<char>, JsonView),
> {
    if is_quran_int_key(key) {
        match v.as_i64() {
            Some(n) => entries_put(e, key, JsonView::Number(JsonNumber::Int(n))),
            None => entries_without(e, key),
        }
    } else if is_quran_number_key(key) {
        match v.as_number() {
            Some(n) => entries_put(e, key, JsonView::Number(n)),
            None => entries_without(e, key),
        }
    } else if key == "recentReadings"@ {
        match v.as_array() {
            Some(a) => entries_put(e, key, JsonView::Array(readings_of(a))),
            None => e,
        }
    } else {
        entries_put(e, key, v)
    }
}

pub open spec fn quran_with_all(
    e: Seq<(Seq<char>, JsonView)>,
    members: Seq<(Seq<char>, JsonView)>,
) -> Seq<(Seq<char>, JsonView)>
    decreases members.len(),
{
    if members.len() == 0 {
        e
    } else {
        let m = members.last();
        quran_with(quran_with_all(e, members.drop_last()), m.0, m.1)
    }
}

/// The known keys of the Quran store, in their fixed order.
pub open spec fn quran_known_keys() -> Seq<Seq<char>> {
    seq![
        "currentQuranPage"@,
        "dailyGoal"@,
        "memorizationInterval"@,
        "reviewIndex"@,
        "recentReviewIndex"@,
        "pausedUntil"@,
        "widgetX"@,
        "widgetY"@,
        "widgetCustomWidth"@,
        "widgetCustomHeight"@,
        "recentReadings"@,
    ]
}

/// The keys of the entries that are not known keys, in order.
pub open spec fn other_keys(e: Seq<(Seq<char>, JsonView)>) -> Seq<Seq<char>>
    decreases e.len(),
{
    if e.len() == 0 {
        Seq::empty()
    } else {
        let rest = other_keys(e.drop_last());
        if is_quran_known_key(e.last().0) {
            rest
        } else {
            rest.push(e.last().0)
        }
    }
}

/// The Quran memorisation settings: a key/value store, as the user interface
/// keeps them.
pub struct QuranConfig {
    pub entries: Vec<(String, JsonValue)>,
}

impl View for QuranConfig {
    type V = Seq<(Seq<char>, JsonView)>;

    open spec fn view(&self) -> Seq<(Seq<char>, JsonView)> {
        view_entries(self.entries@)
    }
}

impl Default for QuranConfig {
    fn default() -> (r: QuranConfig)
        ensures
            r@ == Seq::<(Seq<char>, JsonView)>::empty(),
    {
        QuranConfig { entries: Vec::new() }
    }
}

pub fn is_quran_int_key_exec(k: &str) -> (r: bool)
    ensures
        r == is_quran_int_key(k@),
{
    text_eq(k, "currentQuranPage") || text_eq(k, "dailyGoal") || text_eq(k, "memorizationInterval")
        || text_eq(k, "reviewIndex") || text_eq(k, "recentReviewIndex") || text_eq(k, "pausedUntil")
}

pub fn is_quran_number_key_exec(k: &str) -> (r: bool)
    ensures
        r == is_quran_number_key(k@),
{
    text_eq(k, "widgetX") || text_eq(k, "widgetY") || text_eq(k, "widgetCustomWidth") || text_eq(
        k,
        "widgetCustomHeight",
    )
}

pub fn is_quran_known_key_exec(k: &str) -> (r: bool)
    ensures
        r == is_quran_known_key(k@),
{
    is_quran_int_key_exec(k) || is_quran_number_key_exec(k) || text_eq(k, "recentReadings")
}

impl QuranConfig {
    /// Store `value` under `key` as it is given.
    pub fn put(&mut self, key: &str, value: JsonValue)
        ensures
            final(self)@ == entries_put(old(self)@, key@, value@),
    {
        proof {
            lemma_view_entries(self.entries@);
        }
        match find_key(&self.entries, key) {
            Some(i) => {
                let ghost before = self.entries@;
                self.entries.set(i, (String::from_str(key), value));
                proof {
                    lemma_view_entries(self.entries@);
                    assert(view_entries(self.entries@) =~= view_entries(before).update(
                        i as int,
                        (key@, value@),
                    ));
                }
            },
            None => {
                let ghost before = self.entries@;
                self.entries.push((String::from_str(key), value));
                proof {
                    lemma_view_entries(self.entries@);
                    assert(self.entries@.drop_last() =~= before);
                }
            },
        }
    }

    /// Drop every entry for `key`; tells whether there was one.
    pub fn drop_key(&mut self, key: &str) -> (r: bool)
        ensures
            final(self)@ == entries_without(old(self)@, key@),
            r == lookup(old(self)@, key@) is Some,
    {
        let ghost old_e = self@;
        proof {
            lemma_view_entries(self.entries@);
            lemma_first_key_index(old_e, key@);
        }
        let mut kept: Vec<(String, JsonValue)> = Vec::new();
        let mut found = false;
        let mut i: usize = 0;
        while i < self.entries.len()
            invariant
                i <= self.entries.len(),
                old_e == view_entries(self.entries@),
                old_e.len() == self.entries@.len(),
                forall|j: int|
                    0 <= j < self.entries@.len() ==> #[trigger] old_e[j] == (
                    self.entries@[j].0@, self.entries@[j].1@),
                view_entries(kept@) == entries_without(old_e.take(i as int), key@),
                found == exists|j: int| 0 <= j < i && #[trigger] old_e[j].0 == key@,
            decreases self.entries.len() - i,
        {
            assert(old_e.take(i + 1).drop_last() =~= old_e.take(i as int));
            if text_eq(self.entries[i].0.as_str(), key) {
                assert(old_e[i as int].0 == key@);
                found = true;
            } else {
                let ghost before = kept@;
                let e = (self.entries[i].0.clone(), self.entries[i].1.deep_clone());
                kept.push(e);
                proof {
                    lemma_view_entries(kept@);
                    assert(kept@.drop_last() =~= before);
                }
            }
            i = i + 1;
        }
        assert(old_e.take(self.entries.len() as int) =~= old_e);
        self.entries = kept;
        found
    }

    /// Write `value` under `key` (see `quran_with`).
    pub fn write_key(&mut self, key: &str, value: &JsonValue)
        ensures
            final(self)@ == quran_with(old(self)@, key@, value@),
    {
        if is_quran_int_key_exec(key) {
            match value.as_i64() {
                Some(n) => self.put(key, int_json(n)),
                None => {
                    self.drop_key(key);
                },
            }
        } else if is_quran_number_key_exec(key) {
            match value.as_number() {
                Some(n) => self.put(key, JsonValue::Number(n)),
                None => {
                    self.drop_key(key);
                },
            }
        } else if text_eq(key, "recentReadings") {
            match value.as_array() {
                Some(a) => {
                    let readings = collect_readings(a);
                    self.put(key, JsonValue::Array(readings));
                },
                None => {},
            }
        } else {
            self.put(key, value.deep_clone());
        }
    }

    /// The whole store as one JSON object.
    pub fn to_json(&self) -> (r: JsonValue)
        ensures
            r@ == JsonView::Object(self@),
    {
        let mut out: Vec<(String, JsonValue)> = Vec::new();
        let mut i: usize = 0;
        proof {
            lemma_view_entries(self.entries@);
        }
        while i < self.entries.len()
            invariant
                i <= self.entries.len(),
                out@.len() == i,
                view_entries(self.entries@).len() == self.entries@.len(),
                forall|j: int|
                    0 <= j < self.entries@.len() ==> #[trigger] view_entries(self.entries@)[j] == (
                    self.entries@[j].0@, self.entries@[j].1@),
                forall|j: int|
                    0 <= j < i ==> #[trigger] out@[j].0@ == self.entries@[j].0@ && out@[j].1@
                        == self.entries@[j].1@,
            decreases self.entries.len() - i,
        {
            out.push((self.entries[i].0.clone(), self.entries[i].1.deep_clone()));
            i = i + 1;
        }
        proof {
            lemma_view_entries(out@);
            assert(view_entries(out@) =~= view_entries(self.entries@));
        }
        JsonValue::Object(out)
    }
}


impl Clone for QuranConfig {
    fn clone(&self) -> (r: QuranConfig)
        ensures
            r@ == self@,
    {
        let mut out: Vec<(String, JsonValue)> = Vec::new();
        let mut i: usize = 0;
        proof {
            lemma_view_entries(self.entries@);
        }
        while i < self.entries.len()
            invariant
                i <= self.entries.len(),
                out@.len() == i,
                view_entries(self.entries@).len() == self.entries@.len(),
                forall|j: int|
                    0 <= j < self.entries@.len() ==> #[trigger] view_entries(self.entries@)[j] == (
                    self.entries@[j].0@, self.entries@[j].1@),
                forall|j: int|
                    0 <= j < i ==> #[trigger] out@[j].0@ == self.entries@[j].0@ && out@[j].1@
                        == self.entries@[j].1@,
            decreases self.entries.len() - i,
        {
            out.push((self.entries[i].0.clone(), self.entries[i].1.deep_clone()));
            i = i + 1;
        }
        proof {
            lemma_view_entries(out@);
            assert(view_entries(out@) =~= view_entries(self.entries@));
        }
        QuranConfig { entries: out }
    }
}

/// The default settings as the user interface sees them.
pub open spec fn defaults_json() -> JsonView {
    JsonView::Object(
        seq![
            ("interval"@, JsonView::Number(JsonNumber::Int(30))),
            ("fontSize"@, JsonView::Number(JsonNumber::Int(22))),
            ("fontFamily"@, JsonView::Str("'QuranFont', 'Traditional Arabic'"@)),
            ("cSanad"@, JsonView::Str("#5d7a69"@)),
            ("cMatn"@, JsonView::Str("#182820"@)),
            ("cTakhrij"@, JsonView::Str("#1a9850"@)),
            ("cSharh"@, JsonView::Str("#b35900"@)),
            ("theme"@, JsonView::Str("light"@)),
            ("index"@, JsonView::Number(JsonNumber::Int(0))),
            ("firstRun"@, JsonView::Bool(true)),
            ("autoLaunch"@, JsonView::Bool(true)),
            ("appMode"@, JsonView::Str("sequential"@)),
            ("widgetW"@, JsonView::Number(JsonNumber::Int(430))),
            ("widgetH"@, JsonView::Number(JsonNumber::Int(420))),
            ("widgetX"@, JsonView::Null),
            ("widgetY"@, JsonView::Null),
            ("hReviewEnabled"@, JsonView::Bool(false)),
            ("hReviewDays"@, JsonView::Number(JsonNumber::Int(7))),
            ("hReviews"@, JsonView::Object(Seq::empty())),
        ],
    )
}

/// The default settings as one JSON object.
pub fn defaults() -> (r: JsonValue)
    ensures
        r@ == defaults_json(),
{
    let mut v: Vec<(String, JsonValue)> = Vec::new();
    v.push(member("interval", int_json(30)));
    v.push(member("fontSize", int_json(22)));
    v.push(member("fontFamily", text_json("'QuranFont', 'Traditional Arabic'")));
    v.push(member("cSanad", text_json("#5d7a69")));
    v.push(member("cMatn", text_json("#182820")));
    v.push(member("cTakhrij", text_json("#1a9850")));
    v.push(member("cSharh", text_json("#b35900")));
    v.push(member("theme", text_json("light")));
    v.push(member("index", int_json(0)));
    v.push(member("firstRun", JsonValue::Bool(true)));
    v.push(member("autoLaunch", JsonValue::Bool(true)));
    v.push(member("appMode", text_json("sequential")));
    v.push(member("widgetW", int_json(430)));
    v.push(member("widgetH", int_json(420)));
    v.push(member("widgetX", JsonValue::Null));
    v.push(member("widgetY", JsonValue::Null));
    v.push(member("hReviewEnabled", JsonValue::Bool(false)));
    v.push(member("hReviewDays", int_json(7)));
    let empty: Vec<(String, JsonValue)> = Vec::new();
    proof {
        lemma_view_entries(empty@);
    }
    v.push(member("hReviews", JsonValue::Object(empty)));
    proof {
        lemma_view_entries(v@);
        assert(view_entries(v@) =~= defaults_json()->Object_0);
    }
    JsonValue::Object(v)
}

/// Both configuration stores of the application.
pub struct ConfigStore {
    pub cfg: AppConfig,
    pub quran: QuranConfig,
}

pub open spec fn string_views(s: Seq<String>) -> Seq<Seq<char>> {
    s.map_values(|t: String| t@)
}

impl ConfigStore {
    pub fn new() -> (r: ConfigStore)
        ensures
            r.cfg@ == default_cfg(),
            r.quran@ == Seq::<(Seq<char>, JsonView)>::empty(),
            quran_normal(r.quran@),
    {
        ConfigStore { cfg: AppConfig::default(), quran: QuranConfig::default() }
    }

    /// Load the hadith settings from a parsed settings file: its members merged
    /// on top of the defaults; a document that is not an object changes nothing.
    pub fn load_cfg(&mut self, doc: &JsonValue)
        ensures
            final(self).quran@ == old(self).quran@,
            final(self).cfg@ == match doc@ {
                JsonView::Object(o) => cfg_merged_all(default_cfg(), o),
                _ => old(self).cfg@,
            },
    {
        if let Some(o) = doc.as_object() {
            let mut merged = AppConfig::default();
            merged.merge_all(o);
            self.cfg = merged;
        }
    }

    /// Write the members of a parsed Quran store file into the Quran store;
    /// a document that is not an object changes nothing.
    pub fn load_quran_cfg(&mut self, doc: &JsonValue)
        ensures
            final(self).cfg@ == old(self).cfg@,
            final(self).quran@ == match doc@ {
                JsonView::Object(o) => quran_with_all(old(self).quran@, o),
                _ => old(self).quran@,
            },
            quran_normal(old(self).quran@) ==> quran_normal(final(self).quran@),
    {
        self.quran_update(doc);
    }

    /// The hadith settings as one JSON object.
    pub fn cfg_get(&self) -> (r: JsonValue)
        ensures
            r@ == cfg_json(self.cfg@),
    {
        self.cfg.to_json()
    }

    pub fn cfg_set(&mut self, key: &str, value: JsonValue)
        ensures
            final(self).cfg@ == cfg_with(old(self).cfg@, key@, value@),
            final(self).quran@ == old(self).quran@,
    {
        self.cfg.write_key(key, &value);
    }

    pub fn cfg_update(&mut self, partial: &JsonValue)
        ensures
            final(self).cfg@ == match partial@ {
                JsonView::Object(o) => cfg_with_all(old(self).cfg@, o),
                _ => old(self).cfg@,
            },
            final(self).quran@ == old(self).quran@,
    {
        if let Some(o) = partial.as_object() {
            self.cfg.write_all(o);
        }
    }

    pub fn cfg_value(&self, key: &str) -> (r: Option<JsonValue>)
        ensures
            r matches Some(v) ==> cfg_value_of(self.cfg@, key@) == Some(v@),
            r is None ==> cfg_value_of(self.cfg@, key@) is None,
    {
        self.cfg.value_of(key)
    }

    pub fn get_app_config(&self) -> (r: AppConfig)
        ensures
            r@ == self.cfg@,
    {
        self.cfg.clone()
    }

    pub fn get_quran_config(&self) -> (r: QuranConfig)
        ensures
            r@ == self.quran@,
    {
        self.quran.clone()
    }

    /// The Quran store as one JSON object.
    pub fn quran_get(&self) -> (r: JsonValue)
        ensures
            r@ == JsonView::Object(self.quran@),
    {
        self.quran.to_json()
    }

    pub fn quran_set(&mut self, key: &str, value: JsonValue)
        ensures
            final(self).quran@ == quran_with(old(self).quran@, key@, value@),
            final(self).cfg@ == old(self).cfg@,
            quran_normal(old(self).quran@) ==> quran_normal(final(self).quran@),
    {
        proof {
            if quran_normal(self.quran@) {
                law_quran_writes_keep_shape(self.quran@, key@, value@);
            }
        }
        self.quran.write_key(key, &value);
    }

    pub fn quran_update(&mut self, partial: &JsonValue)
        ensures
            final(self).quran@ == match partial@ {
                JsonView::Object(o) => quran_with_all(old(self).quran@, o),
                _ => old(self).quran@,
            },
            final(self).cfg@ == old(self).cfg@,
            quran_normal(old(self).quran@) ==> quran_normal(final(self).quran@),
    {
        proof {
            if quran_normal(self.quran@) {
                if let JsonView::Object(o) = partial@ {
                    lemma_with_all_keeps_shape(self.quran@, o);
                }
            }
        }
        if let Some(o) = partial.as_object() {
            proof {
                lemma_view_entries(o@);
            }
            let ghost ve = view_entries(o@);
            let mut i: usize = 0;
            while i < o.len()
                invariant
                    i <= o.len(),
                    ve == view_entries(o@),
                    ve.len() == o@.len(),
                    forall|j: int| 0 <= j < o@.len() ==> #[trigger] ve[j] == (o@[j].0@, o@[j].1@),
                    self.quran@ == quran_with_all(old(self).quran@, ve.take(i as int)),
                    self.cfg@ == old(self).cfg@,
                decreases o.len() - i,
            {
                assert(ve.take(i + 1).drop_last() =~= ve.take(i as int));
                self.quran.write_key(o[i].0.as_str(), &o[i].1);
                i = i + 1;
            }
            assert(ve.take(o.len() as int) =~= ve);
        }
    }

    /// Remove `key` from the Quran store.  A known key always reports
    /// success; another key reports whether it was stored.
    pub fn quran_remove(&mut self, key: &str) -> (r: bool)
        ensures
            final(self).quran@ == entries_without(old(self).quran@, key@),
            final(self).cfg@ == old(self).cfg@,
            r == (is_quran_known_key(key@) || lookup(old(self).quran@, key@) is Some),
            quran_normal(old(self).quran@) ==> quran_normal(final(self).quran@),
    {
        proof {
            if quran_normal(self.quran@) {
                lemma_without_normal(self.quran@, key@);
            }
        }
        let was_stored = self.quran.drop_key(key);
        is_quran_known_key_exec(key) || was_stored
    }

    /// Empty the Quran store; returns the known keys followed by the other
    /// keys that were stored.
    pub fn quran_clear(&mut self) -> (r: Vec<String>)
        ensures
            final(self).quran@ == Seq::<(Seq<char>, JsonView)>::empty(),
            final(self).cfg@ == old(self).cfg@,
            string_views(r@) == quran_known_keys() + other_keys(old(self).quran@),
            quran_normal(final(self).quran@),
    {
        let mut keys: Vec<String> = Vec::new();
        keys.push(String::from_str("currentQuranPage"));
        keys.push(String::from_str("dailyGoal"));
        keys.push(String::from_str("memorizationInterval"));
        keys.push(String::from_str("reviewIndex"));
        keys.push(String::from_str("recentReviewIndex"));
        keys.push(String::from_str("pausedUntil"));
        keys.push(String::from_str("widgetX"));
        keys.push(String::from_str("widgetY"));
        keys.push(String::from_str("widgetCustomWidth"));
        keys.push(String::from_str("widgetCustomHeight"));
        keys.push(String::from_str("recentReadings"));
        assert(string_views(keys@) =~= quran_known_keys());
        let ghost e = self.quran@;
        proof {
            lemma_view_entries(self.quran.entries@);
        }
        let mut i: usize = 0;
        while i < self.quran.entries.len()
            invariant
                i <= self.quran.entries.len(),
                e == view_entries(self.quran.entries@),
                e.len() == self.quran.entries@.len(),
                forall|j: int|
                    0 <= j < self.quran.entries@.len() ==> #[trigger] e[j] == (
                    self.quran.entries@[j].0@, self.quran.entries@[j].1@),
                string_views(keys@) == quran_known_keys() + other_keys(e.take(i as int)),
            decreases self.quran.entries.len() - i,
        {
            assert(e.take(i + 1).drop_last() =~= e.take(i as int));
            if !is_quran_known_key_exec(self.quran.entries[i].0.as_str()) {
                let ghost before = keys@;
                keys.push(self.quran.entries[i].0.clone());
                assert(string_views(keys@) =~= string_views(before).push(e[i as int].0));
            }
            i = i + 1;
        }
        assert(e.take(self.quran.entries.len() as int) =~= e);
        self.quran = QuranConfig::default();
        keys
    }
}

impl Default for ConfigStore {
    fn default() -> (r: ConfigStore)
        ensures
            r.cfg@ == default_cfg(),
            r.quran@ == Seq::<(Seq<char>, JsonView)>::empty(),
            quran_normal(r.quran@),
    {
        ConfigStore::new()
    }
}


/// Whether a setting holds an integer, a text or a boolean.
pub open spec fn is_int_setting(k: CfgKey) -> bool {
    k == CfgKey::Interval || k == CfgKey::FontSize || k == CfgKey::Index || k == CfgKey::HReviewDays
}

pub open spec fn is_text_setting(k: CfgKey) -> bool {
    k == CfgKey::FontFamily || k == CfgKey::CSanad || k == CfgKey::CMatn || k == CfgKey::CTakhrij
        || k == CfgKey::CSharh
}

pub open spec fn is_bool_setting(k: CfgKey) -> bool {
    k == CfgKey::FirstRun || k == CfgKey::AutoLaunch || k == CfgKey::HReviewEnabled
}

/// Reading an integer setting back after writing an integer to it gives that integer.
pub proof fn law_cfg_int_read_after_write(c: CfgView, key: Seq<char>, n: i64)
    requires
        cfg_key(key) matches Some(k) && is_int_setting(k),
    ensures
        cfg_value_of(cfg_with(c, key, JsonView::Number(JsonNumber::Int(n))), key) == Some(
            JsonView::Number(JsonNumber::Int(n)),
        ),
{
}

/// Reading a text setting back after writing a text to it gives that text.
pub proof fn law_cfg_text_read_after_write(c: CfgView, key: Seq<char>, t: Seq<char>)
    requires
        cfg_key(key) matches Some(k) && is_text_setting(k),
    ensures
        cfg_value_of(cfg_with(c, key, JsonView::Str(t)), key) == Some(JsonView::Str(t)),
{
}

/// Reading a switch back after writing a boolean to it gives that boolean.
pub proof fn law_cfg_bool_read_after_write(c: CfgView, key: Seq<char>, b: bool)
    requires
        cfg_key(key) matches Some(k) && is_bool_setting(k),
    ensures
        cfg_value_of(cfg_with(c, key, JsonView::Bool(b)), key) == Some(JsonView::Bool(b)),
{
}

/// Writing a theme or a mode by its name reads back the same name.
pub proof fn law_cfg_named_read_after_write(c: CfgView, key: Seq<char>, t: Theme, m: AppMode)
    ensures
        cfg_key(key) == Some(CfgKey::Theme) ==> cfg_value_of(
            cfg_with(c, key, JsonView::Str(theme_name(t))),
            key,
        ) == Some(JsonView::Str(theme_name(t))),
        cfg_key(key) == Some(CfgKey::AppMode) ==> cfg_value_of(
            cfg_with(c, key, JsonView::Str(mode_name(m))),
            key,
        ) == Some(JsonView::Str(mode_name(m))),
{
    lemma_theme_name_round_trip(t);
    lemma_mode_name_round_trip(m);
}

/// Writing a window position that is a number reads back that number.
pub proof fn law_cfg_position_read_after_write(c: CfgView, key: Seq<char>, n: JsonNumber)
    requires
        cfg_key(key) matches Some(k) && (k == CfgKey::WidgetX || k == CfgKey::WidgetY || k
            == CfgKey::WidgetW || k == CfgKey::WidgetH),
    ensures
        cfg_value_of(cfg_with(c, key, JsonView::Number(n)), key) == Some(JsonView::Number(n)),
{
}

/// Writing one setting leaves every other setting as it was.
pub proof fn law_cfg_write_frame(c: CfgView, key: Seq<char>, v: JsonView, other: Seq<char>)
    requires
        key != other,
    ensures
        cfg_value_of(cfg_with(c, key, v), other) == cfg_value_of(c, other),
{
}

/// A value of the wrong type leaves a setting unchanged, and unknown keys
/// change nothing at all.
pub proof fn law_cfg_write_unknown_key(c: CfgView, key: Seq<char>, v: JsonView)
    requires
        cfg_key(key) is None,
    ensures
        cfg_with(c, key, v) == c,
{
}

/// Updating with a one-member object is writing that member.
pub proof fn law_cfg_update_single(c: CfgView, key: Seq<char>, v: JsonView)
    ensures
        cfg_with_all(c, seq![(key, v)]) == cfg_with(c, key, v),
{
    let one = seq![(key, v)];
    assert(one.drop_last() =~= Seq::<(Seq<char>, JsonView)>::empty());
    assert(cfg_with_all(c, one.drop_last()) == c);
    assert(one.last() == (key, v));
}


/// After storing `v` under `key`, looking `key` up gives `v`; other keys are
/// looked up as before.
pub proof fn lemma_entries_put_lookup(
    e: Seq<(Seq<char>, JsonView)>,
    key: Seq<char>,
    v: JsonView,
    other: Seq<char>,
)
    ensures
        lookup(entries_put(e, key, v), key) == Some(v),
        other != key ==> lookup(entries_put(e, key, v), other) == lookup(e, other),
{
    let p = entries_put(e, key, v);
    lemma_first_key_index(e, key);
    lemma_first_key_index(e, other);
    lemma_first_key_index(p, key);
    lemma_first_key_index(p, other);
    match first_key_index(e, key) {
        Some(i) => {
            assert(p[i].0 == key);
            assert forall|j: int| 0 <= j < i implies #[trigger] p[j].0 != key by {
                assert(p[j] == e[j]);
            }
            crate::json::lemma_first_key_at(p, key, i);
            if other != key {
                assert forall|j: int| 0 <= j < p.len() implies #[trigger] p[j].0 == e[j].0 by {
                    if j != i {
                        assert(p[j] == e[j]);
                    }
                }
                match first_key_index(e, other) {
                    Some(m) => {
                        assert forall|j: int| 0 <= j < m implies #[trigger] p[j].0 != other by {
                            assert(p[j].0 == e[j].0);
                        }
                        assert(p[m].0 == e[m].0);
                        crate::json::lemma_first_key_at(p, other, m);
                        assert(p[m] == e[m]);
                    },
                    None => {
                        if first_key_index(p, other) is Some {
                            let m = first_key_index(p, other)->0;
                            assert(p[m].0 == e[m].0);
                        }
                    },
                }
            }
        },
        None => {
            assert(p[e.len() as int].0 == key);
            assert forall|j: int| 0 <= j < e.len() implies #[trigger] p[j].0 != key by {
                assert(p[j] == e[j]);
            }
            crate::json::lemma_first_key_at(p, key, e.len() as int);
            if other != key {
                match first_key_index(e, other) {
                    Some(m) => {
                        assert forall|j: int| 0 <= j < m implies #[trigger] p[j].0 != other by {
                            assert(p[j] == e[j]);
                        }
                        assert(p[m] == e[m]);
                        crate::json::lemma_first_key_at(p, other, m);
                    },
                    None => {
                        if first_key_index(p, other) is Some {
                            let m = first_key_index(p, other)->0;
                            if m < e.len() {
                                assert(p[m] == e[m]);
                            }
                        }
                    },
                }
            }
        },
    }
}

/// Without the entries of `key`, `key` is not found; other keys are looked
/// up as before.
pub proof fn lemma_entries_without_lookup(
    e: Seq<(Seq<char>, JsonView)>,
    key: Seq<char>,
    other: Seq<char>,
)
    ensures
        lookup(entries_without(e, key), key) is None,
        other != key ==> lookup(entries_without(e, key), other) == lookup(e, other),
    decreases e.len(),
{
    let w = entries_without(e, key);
    lemma_first_key_index(w, key);
    lemma_first_key_index(w, other);
    lemma_first_key_index(e, other);
    if e.len() > 0 {
        let d = e.drop_last();
        let wd = entries_without(d, key);
        lemma_entries_without_lookup(d, key, other);
        lemma_first_key_index(wd, key);
        lemma_first_key_index(wd, other);
        lemma_first_key_index(d, other);
        if e.last().0 == key {
            assert(w == wd);
            if other != key {
                assert(lookup(e, other) == lookup(d, other)) by {
                    match first_key_index(d, other) {
                        Some(m) => {
                            assert forall|j: int| 0 <= j < m implies #[trigger] e[j].0 != other by {
                                assert(d[j] == e[j]);
                            }
                            assert(d[m] == e[m]);
                            crate::json::lemma_first_key_at(e, other, m);
                        },
                        None => {
                            assert forall|j: int| 0 <= j < e.len() implies #[trigger] e[j].0 != other by {
                                if j < d.len() {
                                    assert(d[j] == e[j]);
                                }
                            }
                        },
                    }
                }
            }
        } else {
            assert(w == wd.push(e.last()));
            assert forall|j: int| 0 <= j < wd.len() implies #[trigger] w[j] == wd[j] by {}
            assert(w[wd.len() as int] == e.last());
            if first_key_index(w, key) is Some {
                let m = first_key_index(w, key)->0;
                if m < wd.len() {
                    assert(w[m] == wd[m]);
                }
            }
            if other != key {
                match first_key_index(d, other) {
                    Some(m) => {
                        assert forall|j: int| 0 <= j < m implies #[trigger] e[j].0 != other by {
                            assert(d[j] == e[j]);
                        }
                        assert(d[m] == e[m]);
                        crate::json::lemma_first_key_at(e, other, m);
                        let mw = first_key_index(wd, other)->0;
                        assert forall|j: int| 0 <= j < mw implies #[trigger] w[j].0 != other by {
                            assert(w[j] == wd[j]);
                        }
                        assert(w[mw] == wd[mw]);
                        crate::json::lemma_first_key_at(w, other, mw);
                    },
                    None => {
                        if e.last().0 == other {
                            assert forall|j: int| 0 <= j < d.len() implies #[trigger] e[j].0 != other by {
                                assert(d[j] == e[j]);
                            }
                            crate::json::lemma_first_key_at(e, other, d.len() as int);
                            assert forall|j: int| 0 <= j < wd.len() implies #[trigger] w[j].0 != other by {
                                assert(w[j] == wd[j]);
                            }
                            crate::json::lemma_first_key_at(w, other, wd.len() as int);
                        } else {
                            assert forall|j: int| 0 <= j < e.len() implies #[trigger] e[j].0 != other by {
                                if j < d.len() {
                                    assert(d[j] == e[j]);
                                }
                            }
                            if first_key_index(w, other) is Some {
                                let m = first_key_index(w, other)->0;
                                if m < wd.len() {
                                    assert(w[m] == wd[m]);
                                }
                            }
                        }
                    },
                }
            }
        }
    }
}

/// A key the Quran store gives no fixed meaning reads back exactly what was
/// written under it; every other key is unaffected.
pub proof fn law_quran_read_after_write(
    e: Seq<(Seq<char>, JsonView)>,
    key: Seq<char>,
    v: JsonView,
    other: Seq<char>,
)
    requires
        !is_quran_known_key(key),
    ensures
        lookup(quran_with(e, key, v), key) == Some(v),
        other != key ==> lookup(quran_with(e, key, v), other) == lookup(e, other),
{
    lemma_entries_put_lookup(e, key, v, other);
}

/// An integer written under an integer key of the Quran store reads back.
pub proof fn law_quran_int_read_after_write(e: Seq<(Seq<char>, JsonView)>, key: Seq<char>, n: i64)
    requires
        is_quran_int_key(key),
    ensures
        lookup(quran_with(e, key, JsonView::Number(JsonNumber::Int(n))), key) == Some(
            JsonView::Number(JsonNumber::Int(n)),
        ),
{
    lemma_entries_put_lookup(e, key, JsonView::Number(JsonNumber::Int(n)), key);
}

/// Once removed, a key is no longer stored, so removing a key without a fixed
/// meaning a second time reports failure; other keys are unaffected.
pub proof fn law_quran_remove(e: Seq<(Seq<char>, JsonView)>, key: Seq<char>, other: Seq<char>)
    ensures
        lookup(entries_without(e, key), key) is None,
        !(is_quran_known_key(key) || lookup(entries_without(e, key), key) is Some)
            <== !is_quran_known_key(key),
        other != key ==> lookup(entries_without(e, key), other) == lookup(e, other),
{
    lemma_entries_without_lookup(e, key, other);
}


/// Each key at most once.
pub open spec fn keys_distinct(e: Seq<(Seq<char>, JsonView)>) -> bool {
    forall|a: int, b: int| 0 <= a < b < e.len() ==> #[trigger] e[a].0 != #[trigger] e[b].0
}

/// Whether the Quran store keeps `v` under `k` exactly as given: writing it
/// into an empty store stores just that entry.
pub open spec fn quran_value_kept(k: Seq<char>, v: JsonView) -> bool {
    quran_with(Seq::empty(), k, v) == seq![(k, v)]
}

/// A Quran store in the shape the store's own writes leave it: each key once,
/// each value in the form the store keeps for its key.
pub open spec fn quran_normal(e: Seq<(Seq<char>, JsonView)>) -> bool {
    &&& keys_distinct(e)
    &&& forall|i: int| 0 <= i < e.len() ==> quran_value_kept(#[trigger] e[i].0, e[i].1)
}

/// Writing a value the store keeps as given is storing it.
proof fn lemma_kept_write(e: Seq<(Seq<char>, JsonView)>, k: Seq<char>, v: JsonView)
    requires
        quran_value_kept(k, v),
    ensures
        quran_with(e, k, v) == entries_put(e, k, v),
{
    let z = Seq::<(Seq<char>, JsonView)>::empty();
    assert(first_key_index(z, k) is None);
    assert(entries_without(z, k) == z);
    assert forall|x: JsonView| #[trigger] entries_put(z, k, x) == seq![(k, x)] by {
        assert(z.push((k, x)) =~= seq![(k, x)]);
    }
    assert(seq![(k, v)].len() == 1);
    assert(seq![(k, v)][0] == (k, v));
}

/// Writing the entries of a store in the shape its writes leave into an empty
/// store rebuilds it, prefix by prefix.
proof fn lemma_rebuild_prefix(e: Seq<(Seq<char>, JsonView)>, j: int)
    requires
        quran_normal(e),
        0 <= j <= e.len(),
    ensures
        quran_with_all(Seq::empty(), e.take(j)) == e.take(j),
    decreases j,
{
    if j == 0 {
        assert(e.take(0) =~= Seq::<(Seq<char>, JsonView)>::empty());
    } else {
        lemma_rebuild_prefix(e, j - 1);
        let p = e.take(j - 1);
        assert(e.take(j).drop_last() =~= p);
        let k = e[j - 1].0;
        let v = e[j - 1].1;
        assert(e.take(j).last() == e[j - 1]);
        assert(quran_value_kept(e[j - 1].0, e[j - 1].1));
        lemma_kept_write(p, k, v);
        lemma_first_key_index(p, k);
        assert forall|i: int| 0 <= i < p.len() implies #[trigger] p[i].0 != k by {
            assert(p[i] == e[i]);
        }
        assert(first_key_index(p, k) is None);
        assert(p.push((k, v)) =~= e.take(j));
    }
}

/// Writing every entry of a store in the shape its writes leave into an empty
/// store gives that store back.
pub proof fn lemma_rebuild_quran(e: Seq<(Seq<char>, JsonView)>)
    requires
        quran_normal(e),
    ensures
        quran_with_all(Seq::empty(), e) == e,
{
    lemma_rebuild_prefix(e, e.len() as int);
    assert(e.take(e.len() as int) =~= e);
}

/// A reading written in its JSON form reads back as the same reading.
proof fn lemma_reading_round_trip(d: Seq<char>, p: Option<i64>)
    ensures
        reading_of(reading_json(d, p)) == Some((d, p)),
{
    reveal_strlit("date");
    reveal_strlit("page");
    assert("page"@[0] != "date"@[0]);
    let o = reading_json(d, p)->Object_0;
    crate::json::lemma_first_key_at(o, "date"@, 0);
    crate::json::lemma_first_key_at(o, "page"@, 1);
}

/// Keeping the readings of a list of readings changes nothing.
proof fn lemma_readings_idempotent(a: Seq<JsonView>)
    ensures
        readings_of(readings_of(a)) == readings_of(a),
    decreases a.len(),
{
    if a.len() > 0 {
        lemma_readings_idempotent(a.drop_last());
        let r = readings_of(a.drop_last());
        if let Some((d, p)) = reading_of(a.last()) {
            lemma_reading_round_trip(d, p);
            assert(r.push(reading_json(d, p)).drop_last() =~= r);
        }
    }
}

/// The entries left after removing a key all come from the store.
proof fn lemma_without_from(e: Seq<(Seq<char>, JsonView)>, k: Seq<char>)
    ensures
        forall|i: int|
            0 <= i < entries_without(e, k).len() ==> exists|j: int|
                0 <= j < e.len() && e[j] == #[trigger] entries_without(e, k)[i],
    decreases e.len(),
{
    if e.len() > 0 {
        let d = e.drop_last();
        lemma_without_from(d, k);
        let wd = entries_without(d, k);
        let w = entries_without(e, k);
        assert forall|i: int| 0 <= i < w.len() implies exists|j: int| 0 <= j < e.len() && e[j] == #[trigger] w[i] by {
            if i < wd.len() {
                assert(w[i] == wd[i]);
                let j = choose|j: int| 0 <= j < d.len() && d[j] == wd[i];
                assert(e[j] == d[j]);
            } else {
                assert(w[i] == e[e.len() - 1]);
            }
        }
    }
}

/// Removing a key keeps a store in the shape its writes leave it.
proof fn lemma_without_normal(e: Seq<(Seq<char>, JsonView)>, k: Seq<char>)
    requires
        quran_normal(e),
    ensures
        quran_normal(entries_without(e, k)),
    decreases e.len(),
{
    if e.len() > 0 {
        let d = e.drop_last();
        assert forall|i: int| 0 <= i < d.len() implies quran_value_kept(#[trigger] d[i].0, d[i].1) by {
            assert(d[i] == e[i]);
        }
        assert forall|a: int, b: int| 0 <= a < b < d.len() implies #[trigger] d[a].0 != #[trigger] d[b].0 by {
            assert(d[a] == e[a] && d[b] == e[b]);
        }
        lemma_without_normal(d, k);
        lemma_without_from(d, k);
        let wd = entries_without(d, k);
        let w = entries_without(e, k);
        let last = e[e.len() - 1];
        if last.0 != k {
            assert(w == wd.push(last));
            assert forall|a: int, b: int| 0 <= a < b < w.len() implies #[trigger] w[a].0 != #[trigger] w[b].0 by {
                if b < wd.len() {
                    assert(w[a] == wd[a] && w[b] == wd[b]);
                } else {
                    assert(w[a] == wd[a]);
                    let j = choose|j: int| 0 <= j < d.len() && d[j] == wd[a];
                    assert(e[j] == d[j]);
                    assert(w[b] == e[e.len() - 1]);
                }
            }
            assert forall|i: int| 0 <= i < w.len() implies quran_value_kept(#[trigger] w[i].0, w[i].1) by {
                if i < wd.len() {
                    assert(w[i] == wd[i]);
                } else {
                    assert(w[i] == e[e.len() - 1]);
                }
            }
        }
    }
}

/// Storing a value the store keeps as given keeps the store in its shape.
proof fn lemma_put_normal(e: Seq<(Seq<char>, JsonView)>, k: Seq<char>, v: JsonView)
    requires
        quran_normal(e),
        quran_value_kept(k, v),
    ensures
        quran_normal(entries_put(e, k, v)),
{
    lemma_first_key_index(e, k);
    let p = entries_put(e, k, v);
    match first_key_index(e, k) {
        Some(i) => {
            assert forall|a: int, b: int| 0 <= a < b < p.len() implies #[trigger] p[a].0 != #[trigger] p[b].0 by {
                assert(p[a].0 == e[a].0 && p[b].0 == e[b].0);
            }
            assert forall|j: int| 0 <= j < p.len() implies quran_value_kept(#[trigger] p[j].0, p[j].1) by {
                if j != i {
                    assert(p[j] == e[j]);
                }
            }
        },
        None => {
            assert forall|a: int, b: int| 0 <= a < b < p.len() implies #[trigger] p[a].0 != #[trigger] p[b].0 by {
                assert(p[a] == e[a]);
                if b < e.len() {
                    assert(p[b] == e[b]);
                }
            }
            assert forall|j: int| 0 <= j < p.len() implies quran_value_kept(#[trigger] p[j].0, p[j].1) by {
                if j < e.len() {
                    assert(p[j] == e[j]);
                }
            }
        },
    }
}

/// Every write keeps the Quran store in the shape its writes leave it, so
/// every store built by writes from an empty one (which has that shape) has it.
pub proof fn law_quran_writes_keep_shape(e: Seq<(Seq<char>, JsonView)>, k: Seq<char>, v: JsonView)
    requires
        quran_normal(e),
    ensures
        quran_normal(quran_with(e, k, v)),
        quran_normal(Seq::<(Seq<char>, JsonView)>::empty()),
{
    let z = Seq::<(Seq<char>, JsonView)>::empty();
    assert(first_key_index(z, k) is None);
    assert(entries_without(z, k) == z);
    assert forall|x: JsonView| #[trigger] entries_put(z, k, x) == seq![(k, x)] by {
        assert(z.push((k, x)) =~= seq![(k, x)]);
    }
    if is_quran_int_key(k) {
        match v.as_i64() {
            Some(n) => lemma_put_normal(e, k, JsonView::Number(JsonNumber::Int(n))),
            None => lemma_without_normal(e, k),
        }
    } else if is_quran_number_key(k) {
        match v.as_number() {
            Some(n) => lemma_put_normal(e, k, JsonView::Number(n)),
            None => lemma_without_normal(e, k),
        }
    } else if k == "recentReadings"@ {
        match v.as_array() {
            Some(a) => {
                lemma_readings_idempotent(a);
                lemma_put_normal(e, k, JsonView::Array(readings_of(a)));
            },
            None => {},
        }
    } else {
        lemma_put_normal(e, k, v);
    }
}

/// Writing every member of an object keeps a Quran store in its shape.
pub proof fn lemma_with_all_keeps_shape(e: Seq<(Seq<char>, JsonView)>, members: Seq<(Seq<char>, JsonView)>)
    requires
        quran_normal(e),
    ensures
        quran_normal(quran_with_all(e, members)),
    decreases members.len(),
{
    if members.len() > 0 {
        lemma_with_all_keeps_shape(e, members.drop_last());
        let m = members.last();
        law_quran_writes_keep_shape(quran_with_all(e, members.drop_last()), m.0, m.1);
    }
}

/// Each setting's name selects that setting.
pub proof fn lemma_cfg_key_names()
    ensures
        cfg_key("interval"@) == Some(CfgKey::Interval),
        cfg_key("fontSize"@) == Some(CfgKey::FontSize),
        cfg_key("fontFamily"@) == Some(CfgKey::FontFamily),
        cfg_key("cSanad"@) == Some(CfgKey::CSanad),
        cfg_key("cMatn"@) == Some(CfgKey::CMatn),
        cfg_key("cTakhrij"@) == Some(CfgKey::CTakhrij),
        cfg_key("cSharh"@) == Some(CfgKey::CSharh),
        cfg_key("theme"@) == Some(CfgKey::Theme),
        cfg_key("index"@) == Some(CfgKey::Index),
        cfg_key("firstRun"@) == Some(CfgKey::FirstRun),
        cfg_key("autoLaunch"@) == Some(CfgKey::AutoLaunch),
        cfg_key("appMode"@) == Some(CfgKey::AppMode),
        cfg_key("widgetW"@) == Some(CfgKey::WidgetW),
        cfg_key("widgetH"@) == Some(CfgKey::WidgetH),
        cfg_key("widgetX"@) == Some(CfgKey::WidgetX),
        cfg_key("widgetY"@) == Some(CfgKey::WidgetY),
        cfg_key("hReviewEnabled"@) == Some(CfgKey::HReviewEnabled),
        cfg_key("hReviewDays"@) == Some(CfgKey::HReviewDays),
        cfg_key("hReviews"@) == Some(CfgKey::HReviews),
{
    reveal_strlit("interval");
    reveal_strlit("fontSize");
    reveal_strlit("fontFamily");
    reveal_strlit("cSanad");
    reveal_strlit("cMatn");
    reveal_strlit("cTakhrij");
    reveal_strlit("cSharh");
    reveal_strlit("theme");
    reveal_strlit("index");
    reveal_strlit("firstRun");
    reveal_strlit("autoLaunch");
    reveal_strlit("appMode");
    reveal_strlit("widgetW");
    reveal_strlit("widgetH");
    reveal_strlit("widgetX");
    reveal_strlit("widgetY");
    reveal_strlit("hReviewEnabled");
    reveal_strlit("hReviewDays");
    reveal_strlit("hReviews");
    assert("fontSize"@[0] != "interval"@[0]);
    assert("cTakhrij"@[0] != "interval"@[0]);
    assert("cTakhrij"@[0] != "fontSize"@[0]);
    assert("cSharh"@[2] != "cSanad"@[2]);
    assert("theme"@[0] != "cMatn"@[0]);
    assert("index"@[0] != "cMatn"@[0]);
    assert("index"@[0] != "theme"@[0]);
    assert("firstRun"@[0] != "interval"@[0]);
    assert("firstRun"@[1] != "fontSize"@[1]);
    assert("firstRun"@[0] != "cTakhrij"@[0]);
    assert("autoLaunch"@[0] != "fontFamily"@[0]);
    assert("widgetW"@[0] != "appMode"@[0]);
    assert("widgetH"@[0] != "appMode"@[0]);
    assert("widgetH"@[6] != "widgetW"@[6]);
    assert("widgetX"@[0] != "appMode"@[0]);
    assert("widgetX"@[6] != "widgetW"@[6]);
    assert("widgetX"@[6] != "widgetH"@[6]);
    assert("widgetY"@[0] != "appMode"@[0]);
    assert("widgetY"@[6] != "widgetW"@[6]);
    assert("widgetY"@[6] != "widgetH"@[6]);
    assert("widgetY"@[6] != "widgetX"@[6]);
    assert("hReviews"@[0] != "interval"@[0]);
    assert("hReviews"@[0] != "fontSize"@[0]);
    assert("hReviews"@[0] != "cTakhrij"@[0]);
    assert("hReviews"@[0] != "firstRun"@[0]);
    assert("fontFamily"@.len() != "interval"@.len());
    assert("fontFamily"@.len() != "fontSize"@.len());
    assert("cSanad"@.len() != "interval"@.len());
    assert("cSanad"@.len() != "fontSize"@.len());
    assert("cSanad"@.len() != "fontFamily"@.len());
    assert("cMatn"@.len() != "interval"@.len());
    assert("cMatn"@.len() != "fontSize"@.len());
    assert("cMatn"@.len() != "fontFamily"@.len());
    assert("cMatn"@.len() != "cSanad"@.len());
    assert("cTakhrij"@.len() != "fontFamily"@.len());
    assert("cTakhrij"@.len() != "cSanad"@.len());
    assert("cTakhrij"@.len() != "cMatn"@.len());
    assert("cSharh"@.len() != "interval"@.len());
    assert("cSharh"@.len() != "fontSize"@.len());
    assert("cSharh"@.len() != "fontFamily"@.len());
    assert("cSharh"@.len() != "cMatn"@.len());
    assert("cSharh"@.len() != "cTakhrij"@.len());
    assert("theme"@.len() != "interval"@.len());
    assert("theme"@.len() != "fontSize"@.len());
    assert("theme"@.len() != "fontFamily"@.len());
    assert("theme"@.len() != "cSanad"@.len());
    assert("theme"@.len() != "cTakhrij"@.len());
    assert("theme"@.len() != "cSharh"@.len());
    assert("index"@.len() != "interval"@.len());
    assert("index"@.len() != "fontSize"@.len());
    assert("index"@.len() != "fontFamily"@.len());
    assert("index"@.len() != "cSanad"@.len());
    assert("index"@.len() != "cTakhrij"@.len());
    assert("index"@.len() != "cSharh"@.len());
    assert("firstRun"@.len() != "fontFamily"@.len());
    assert("firstRun"@.len() != "cSanad"@.len());
    assert("firstRun"@.len() != "cMatn"@.len());
    assert("firstRun"@.len() != "cSharh"@.len());
    assert("firstRun"@.len() != "theme"@.len());
    assert("firstRun"@.len() != "index"@.len());
    assert("autoLaunch"@.len() != "interval"@.len());
    assert("autoLaunch"@.len() != "fontSize"@.len());
    assert("autoLaunch"@.len() != "cSanad"@.len());
    assert("autoLaunch"@.len() != "cMatn"@.len());
    assert("autoLaunch"@.len() != "cTakhrij"@.len());
    assert("autoLaunch"@.len() != "cSharh"@.len());
    assert("autoLaunch"@.len() != "theme"@.len());
    assert("autoLaunch"@.len() != "index"@.len());
    assert("autoLaunch"@.len() != "firstRun"@.len());
    assert("appMode"@.len() != "interval"@.len());
    assert("appMode"@.len() != "fontSize"@.len());
    assert("appMode"@.len() != "fontFamily"@.len());
    assert("appMode"@.len() != "cSanad"@.len());
    assert("appMode"@.len() != "cMatn"@.len());
    assert("appMode"@.len() != "cTakhrij"@.len());
    assert("appMode"@.len() != "cSharh"@.len());
    assert("appMode"@.len() != "theme"@.len());
    assert("appMode"@.len() != "index"@.len());
    assert("appMode"@.len() != "firstRun"@.len());
    assert("appMode"@.len() != "autoLaunch"@.len());
    assert("widgetW"@.len() != "interval"@.len());
    assert("widgetW"@.len() != "fontSize"@.len());
    assert("widgetW"@.len() != "fontFamily"@.len());
    assert("widgetW"@.len() != "cSanad"@.len());
    assert("widgetW"@.len() != "cMatn"@.len());
    assert("widgetW"@.len() != "cTakhrij"@.len());
    assert("widgetW"@.len() != "cSharh"@.len());
    assert("widgetW"@.len() != "theme"@.len());
    assert("widgetW"@.len() != "index"@.len());
    assert("widgetW"@.len() != "firstRun"@.len());
    assert("widgetW"@.len() != "autoLaunch"@.len());
    assert("widgetH"@.len() != "interval"@.len());
    assert("widgetH"@.len() != "fontSize"@.len());
    assert("widgetH"@.len() != "fontFamily"@.len());
    assert("widgetH"@.len() != "cSanad"@.len());
    assert("widgetH"@.len() != "cMatn"@.len());
    assert("widgetH"@.len() != "cTakhrij"@.len());
    assert("widgetH"@.len() != "cSharh"@.len());
    assert("widgetH"@.len() != "theme"@.len());
    assert("widgetH"@.len() != "index"@.len());
    assert("widgetH"@.len() != "firstRun"@.len());
    assert("widgetH"@.len() != "autoLaunch"@.len());
    assert("widgetX"@.len() != "interval"@.len());
    assert("widgetX"@.len() != "fontSize"@.len());
    assert("widgetX"@.len() != "fontFamily"@.len());
    assert("widgetX"@.len() != "cSanad"@.len());
    assert("widgetX"@.len() != "cMatn"@.len());
    assert("widgetX"@.len() != "cTakhrij"@.len());
    assert("widgetX"@.len() != "cSharh"@.len());
    assert("widgetX"@.len() != "theme"@.len());
    assert("widgetX"@.len() != "index"@.len());
    assert("widgetX"@.len() != "firstRun"@.len());
    assert("widgetX"@.len() != "autoLaunch"@.len());
    assert("widgetY"@.len() != "interval"@.len());
    assert("widgetY"@.len() != "fontSize"@.len());
    assert("widgetY"@.len() != "fontFamily"@.len());
    assert("widgetY"@.len() != "cSanad"@.len());
    assert("widgetY"@.len() != "cMatn"@.len());
    assert("widgetY"@.len() != "cTakhrij"@.len());
    assert("widgetY"@.len() != "cSharh"@.len());
    assert("widgetY"@.len() != "theme"@.len());
    assert("widgetY"@.len() != "index"@.len());
    assert("widgetY"@.len() != "firstRun"@.len());
    assert("widgetY"@.len() != "autoLaunch"@.len());
    assert("hReviewEnabled"@.len() != "interval"@.len());
    assert("hReviewEnabled"@.len() != "fontSize"@.len());
    assert("hReviewEnabled"@.len() != "fontFamily"@.len());
    assert("hReviewEnabled"@.len() != "cSanad"@.len());
    assert("hReviewEnabled"@.len() != "cMatn"@.len());
    assert("hReviewEnabled"@.len() != "cTakhrij"@.len());
    assert("hReviewEnabled"@.len() != "cSharh"@.len());
    assert("hReviewEnabled"@.len() != "theme"@.len());
    assert("hReviewEnabled"@.len() != "index"@.len());
    assert("hReviewEnabled"@.len() != "firstRun"@.len());
    assert("hReviewEnabled"@.len() != "autoLaunch"@.len());
    assert("hReviewEnabled"@.len() != "appMode"@.len());
    assert("hReviewEnabled"@.len() != "widgetW"@.len());
    assert("hReviewEnabled"@.len() != "widgetH"@.len());
    assert("hReviewEnabled"@.len() != "widgetX"@.len());
    assert("hReviewEnabled"@.len() != "widgetY"@.len());
    assert("hReviewDays"@.len() != "interval"@.len());
    assert("hReviewDays"@.len() != "fontSize"@.len());
    assert("hReviewDays"@.len() != "fontFamily"@.len());
    assert("hReviewDays"@.len() != "cSanad"@.len());
    assert("hReviewDays"@.len() != "cMatn"@.len());
    assert("hReviewDays"@.len() != "cTakhrij"@.len());
    assert("hReviewDays"@.len() != "cSharh"@.len());
    assert("hReviewDays"@.len() != "theme"@.len());
    assert("hReviewDays"@.len() != "index"@.len());
    assert("hReviewDays"@.len() != "firstRun"@.len());
    assert("hReviewDays"@.len() != "autoLaunch"@.len());
    assert("hReviewDays"@.len() != "appMode"@.len());
    assert("hReviewDays"@.len() != "widgetW"@.len());
    assert("hReviewDays"@.len() != "widgetH"@.len());
    assert("hReviewDays"@.len() != "widgetX"@.len());
    assert("hReviewDays"@.len() != "widgetY"@.len());
    assert("hReviewDays"@.len() != "hReviewEnabled"@.len());
    assert("hReviews"@.len() != "fontFamily"@.len());
    assert("hReviews"@.len() != "cSanad"@.len());
    assert("hReviews"@.len() != "cMatn"@.len());
    assert("hReviews"@.len() != "cSharh"@.len());
    assert("hReviews"@.len() != "theme"@.len());
    assert("hReviews"@.len() != "index"@.len());
    assert("hReviews"@.len() != "autoLaunch"@.len());
    assert("hReviews"@.len() != "appMode"@.len());
    assert("hReviews"@.len() != "widgetW"@.len());
    assert("hReviews"@.len() != "widgetH"@.len());
    assert("hReviews"@.len() != "widgetX"@.len());
    assert("hReviews"@.len() != "widgetY"@.len());
    assert("hReviews"@.len() != "hReviewEnabled"@.len());
    assert("hReviews"@.len() != "hReviewDays"@.len());
}


/// Where a setting stands in the settings object.
pub open spec fn cfg_position(k: CfgKey) -> int {
    match k {
        CfgKey::Interval => 0,
        CfgKey::FontSize => 1,
        CfgKey::FontFamily => 2,
        CfgKey::CSanad => 3,
        CfgKey::CMatn => 4,
        CfgKey::CTakhrij => 5,
        CfgKey::CSharh => 6,
        CfgKey::Theme => 7,
        CfgKey::Index => 8,
        CfgKey::FirstRun => 9,
        CfgKey::AutoLaunch => 10,
        CfgKey::AppMode => 11,
        CfgKey::WidgetW => 12,
        CfgKey::WidgetH => 13,
        CfgKey::WidgetX => 14,
        CfgKey::WidgetY => 15,
        CfgKey::HReviewEnabled => 16,
        CfgKey::HReviewDays => 17,
        CfgKey::HReviews => 18,
    }
}

/// The settings object holds, under each setting's name, what `cfg_value`
/// reports (an unset window position appears as `null`).
pub proof fn law_cfg_json_agrees_with_values(c: CfgView, key: Seq<char>)
    requires
        cfg_key(key) is Some,
    ensures
        cfg_json(c).get(key) == Some(
            match cfg_value_of(c, key) {
                Some(v) => v,
                None => JsonView::Null,
            },
        ),
{
    lemma_cfg_key_names();
    let e = cfg_json(c)->Object_0;
    let k = cfg_key(key)->0;
    let p = cfg_position(k);
    assert(0 <= p < e.len());
    assert(cfg_key(e[p].0) == Some(k));
    assert forall|j: int| 0 <= j < e.len() implies cfg_key(#[trigger] e[j].0) is Some && (cfg_key(e[j].0)
        == Some(k) <==> j == p) by {}
    assert(e[p].0 == key);
    assert forall|j: int| 0 <= j < p implies #[trigger] e[j].0 != key by {
        assert(cfg_key(e[j].0) != Some(k));
    }
    crate::json::lemma_first_key_at(e, key, p);
}

/// The members of an object with the given key, in order.
pub open spec fn members_named(o: Seq<(Seq<char>, JsonView)>, k: Seq<char>) -> Seq<(Seq<char>, JsonView)>
    decreases o.len(),
{
    if o.len() == 0 {
        Seq::empty()
    } else {
        let rest = members_named(o.drop_last(), k);
        if o.last().0 == k {
            rest.push(o.last())
        } else {
            rest
        }
    }
}

/// Merging a member of a file into two settings that agree on `k` leaves
/// them agreeing on `k`: a member either sets the setting from its own value
/// or leaves it as it was.
#[verifier::rlimit(60)]
proof fn lemma_merge_agrees(c1: CfgView, c2: CfgView, key: Seq<char>, v: JsonView, k: Seq<char>)
    requires
        cfg_value_of(c1, k) == cfg_value_of(c2, k),
    ensures
        cfg_value_of(cfg_merged(c1, key, v), k) == cfg_value_of(cfg_merged(c2, key, v), k),
{
    if key != k {
        law_cfg_write_frame(c1, key, v, k);
        law_cfg_write_frame(c2, key, v, k);
    } else {
        match cfg_key(k) {
            Some(CfgKey::Interval) => {},
            Some(CfgKey::FontSize) => {},
            Some(CfgKey::FontFamily) => {},
            Some(CfgKey::CSanad) => {},
            Some(CfgKey::CMatn) => {},
            Some(CfgKey::CTakhrij) => {},
            Some(CfgKey::CSharh) => {},
            Some(CfgKey::Theme) => {},
            Some(CfgKey::Index) => {},
            Some(CfgKey::FirstRun) => {},
            Some(CfgKey::AutoLaunch) => {},
            Some(CfgKey::AppMode) => {},
            Some(CfgKey::WidgetW) => {},
            Some(CfgKey::WidgetH) => {},
            Some(CfgKey::WidgetX) => {},
            Some(CfgKey::WidgetY) => {},
            Some(CfgKey::HReviewEnabled) => {},
            Some(CfgKey::HReviewDays) => {},
            Some(CfgKey::HReviews) => {},
            None => {},
        }
    }
}

proof fn lemma_load_key(c0: CfgView, o: Seq<(Seq<char>, JsonView)>, k: Seq<char>)
    ensures
        cfg_value_of(cfg_merged_all(c0, o), k) == cfg_value_of(cfg_merged_all(c0, members_named(o, k)), k),
    decreases o.len(),
{
    if o.len() > 0 {
        let d = o.drop_last();
        let m = o.last();
        lemma_load_key(c0, d, k);
        let n = members_named(d, k);
        if m.0 == k {
            assert(n.push(m).drop_last() =~= n);
            lemma_merge_agrees(cfg_merged_all(c0, d), cfg_merged_all(c0, n), m.0, m.1, k);
        } else {
            law_cfg_write_frame(cfg_merged_all(c0, d), m.0, m.1, k);
        }
    }
}

/// Loading a settings file sets each setting from the file's members with
/// that setting's name alone, merged in order on top of the default (so the
/// last usable one wins, and the read-after-write laws say what it reads
/// back as); a setting the file does not name keeps its default.
pub proof fn law_load_per_key(o: Seq<(Seq<char>, JsonView)>, k: Seq<char>)
    ensures
        cfg_value_of(cfg_merged_all(default_cfg(), o), k) == cfg_value_of(
            cfg_merged_all(default_cfg(), members_named(o, k)),
            k,
        ),
        members_named(o, k).len() == 0 ==> cfg_value_of(cfg_merged_all(default_cfg(), o), k) == cfg_value_of(
            default_cfg(),
            k,
        ),
{
    lemma_load_key(default_cfg(), o, k);
    if members_named(o, k).len() == 0 {
        assert(members_named(o, k) =~= Seq::<(Seq<char>, JsonView)>::empty());
    }
}

} // verus!
