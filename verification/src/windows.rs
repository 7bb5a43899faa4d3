//! Decisions behind the reminder windows: the re-entrancy guard of the hadith
//! window, which hadith it shows, and the geometry resets.
use vstd::prelude::*;
use crate::json::{JsonValue, JsonView, lemma_view_entries, view_entries};
use crate::text::{chars_of, parse_usize, parse_usize_text, text_less, text_less_exec};
use crate::config::{ConfigStore, cfg_with, quran_with};
use crate::data_loader::{DataLoader, widget_payload};
use crate::clock::utc_now_millis;

verus! {

pub const WIDGET_LABEL: &'static str = "widget";

pub const QURAN_LABEL: &'static str = "qwindow";

pub const SETTINGS_LABEL: &'static str = "settings";

pub const WELCOME_LABEL: &'static str = "welcome";

/// Keeps two requests from building the hadith window at once.
pub struct WidgetGuard {
    pub busy: bool,
}

impl WidgetGuard {
    pub fn new() -> (r: WidgetGuard)
        ensures
            !r.busy,
    {
        WidgetGuard { busy: false }
    }

    /// Claim the guard; succeeds exactly when it was free, and it is held afterwards.
    pub fn try_acquire(&mut self) -> (r: bool)
        ensures
            (r, final(self).busy) == claim(old(self).busy),
    {
        let was_busy = self.busy;
        self.busy = true;
        !was_busy
    }

    pub fn release(&mut self)
        ensures
            !final(self).busy,
    {
        self.busy = false;
    }
}

impl Default for WidgetGuard {
    fn default() -> (r: WidgetGuard)
        ensures
            !r.busy,
    {
        WidgetGuard::new()
    }
}

/// Claiming a guard that is held (`true`) or free: whether the claim
/// succeeds, and whether the guard is held afterwards.
pub open spec fn claim(busy: bool) -> (bool, bool) {
    (!busy, true)
}

/// The guard admits one holder at a time: a claim on a free guard succeeds,
/// a second claim before a release fails, and after a release a claim
/// succeeds again.
pub proof fn law_guard_admits_one(busy: bool)
    ensures
        claim(false).0,
        !claim(claim(busy).1).0,
        claim(claim(busy).1).1,
{
}

/// The hadith a review entry asks for, when it is due at `now_ms`: its key is
/// a hadith position and its value a due time not after `now_ms`.
pub open spec fn due_review(e: (Seq<char>, JsonView), now_ms: i64) -> Option<usize> {
    match parse_usize(e.0) {
        Some(i) => match e.1.as_i64() {
            Some(t) => if now_ms >= t {
                Some(i)
            } else {
                None
            },
            None => None,
        },
        None => None,
    }
}

/// Position of the due review whose key comes first in text order (the
/// earliest of equal keys).
pub open spec fn earliest_due(entries: Seq<(Seq<char>, JsonView)>, now_ms: i64) -> Option<int>
    decreases entries.len(),
{
    if entries.len() == 0 {
        None
    } else {
        let best = earliest_due(entries.drop_last(), now_ms);
        let l = entries.len() - 1;
        if due_review(entries[l], now_ms) is Some && (best is None || text_less(
            entries[l].0,
            entries[best->0].0,
        )) {
            Some(l)
        } else {
            best
        }
    }
}

/// The review the hadith window shows at `now_ms`, when reviews are enabled.
pub open spec fn review_pick(cfg: JsonView, now_ms: i64) -> Option<usize> {
    if cfg.get("hReviewEnabled"@) matches Some(v) && v.as_bool() == Some(true) {
        match cfg.get("hReviews"@) {
            Some(JsonView::Object(o)) => match earliest_due(o, now_ms) {
                Some(p) => due_review(o[p], now_ms),
                None => None,
            },
            _ => None,
        }
    } else {
        None
    }
}

/// The current hadith position of the settings (0 when unset).
pub open spec fn cfg_index(cfg: JsonView) -> usize {
    match cfg.get("index"@) {
        Some(v) => match v.as_u64() {
            Some(n) => n as usize,
            None => 0,
        },
        None => 0,
    }
}

/// Which hadith the window shows and whether as a review: the requested one,
/// else a due review, else the current one.
pub open spec fn widget_choice(cfg: JsonView, now_ms: i64, requested: Option<usize>, is_review: bool) -> (usize, bool) {
    match requested {
        Some(i) => (i, is_review),
        None => match review_pick(cfg, now_ms) {
            Some(i) => (i, true),
            None => (cfg_index(cfg), false),
        },
    }
}

pub proof fn lemma_earliest_due(entries: Seq<(Seq<char>, JsonView)>, now_ms: i64)
    ensures
        earliest_due(entries, now_ms) matches Some(p) ==> 0 <= p < entries.len() && due_review(
            entries[p],
            now_ms,
        ) is Some,
        earliest_due(entries, now_ms) is None ==> forall|j: int|
            0 <= j < entries.len() ==> due_review(#[trigger] entries[j], now_ms) is None,
    decreases entries.len(),
{
    if entries.len() > 0 {
        let d = entries.drop_last();
        lemma_earliest_due(d, now_ms);
        assert forall|j: int| 0 <= j < d.len() implies #[trigger] d[j] == entries[j] by {}
        if earliest_due(entries, now_ms) is None {
            assert forall|j: int| 0 <= j < entries.len() implies due_review(#[trigger] entries[j], now_ms) is None by {
                if j < d.len() {
                    assert(d[j] == entries[j]);
                }
            }
        }
    }
}

pub fn cfg_index_of(cfg: &JsonValue) -> (r: usize)
    ensures
        r == cfg_index(cfg@),
{
    match cfg.get("index") {
        Some(v) => match v.as_u64() {
            Some(n) => n as usize,
            None => 0,
        },
        None => 0,
    }
}

fn due_review_of(key: &str, value: &JsonValue, now_ms: i64) -> (r: Option<usize>)
    ensures
        r == due_review((key@, value@), now_ms),
{
    match parse_usize_text(key) {
        Some(i) => match value.as_i64() {
            Some(t) => if now_ms >= t {
                Some(i)
            } else {
                None
            },
            None => None,
        },
        None => None,
    }
}

/// The review the hadith window shows at `now_ms`.
pub fn review_pick_at(cfg: &JsonValue, now_ms: i64) -> (r: Option<usize>)
    ensures
        r == review_pick(cfg@, now_ms),
{
    let enabled = match cfg.get("hReviewEnabled") {
        Some(v) => v.as_bool() == Some(true),
        None => false,
    };
    if !enabled {
        return None;
    }
    let o = match cfg.get("hReviews") {
        Some(JsonValue::Object(o)) => o,
        _ => return None,
    };
    proof {
        lemma_view_entries(o@);
    }
    let ghost e = view_entries(o@);
    let mut best: Option<usize> = None;
    let mut best_key: Vec<char> = Vec::new();
    let mut i: usize = 0;
    while i < o.len()
        invariant
            i <= o.len(),
            e == view_entries(o@),
            e.len() == o@.len(),
            forall|j: int| 0 <= j < o@.len() ==> #[trigger] e[j] == (o@[j].0@, o@[j].1@),
            best == match earliest_due(e.take(i as int), now_ms) {
                Some(p) => Some(p as usize),
                None => None::<usize>,
            },
            best matches Some(p) ==> p < i && best_key@ == e[p as int].0,
        decreases o.len() - i,
    {
        let ghost t = e.take(i + 1);
        assert(t.drop_last() =~= e.take(i as int));
        assert(t[i as int] == e[i as int]);
        proof {
            lemma_earliest_due(e.take(i as int), now_ms);
            if let Some(p) = earliest_due(e.take(i as int), now_ms) {
                assert(t[p] == e[p]);
            }
        }
        let key = o[i].0.as_str();
        if due_review_of(key, &o[i].1, now_ms).is_some() {
            let k = chars_of(key);
            let better = match best {
                None => true,
                Some(_) => text_less_exec(&k, &best_key),
            };
            if better {
                best = Some(i);
                best_key = k;
            }
        }
        i = i + 1;
    }
    assert(e.take(o.len() as int) =~= e);
    proof {
        lemma_earliest_due(e, now_ms);
    }
    match best {
        Some(p) => due_review_of(o[p].0.as_str(), &o[p].1, now_ms),
        None => None,
    }
}

/// Which hadith the window shows, and whether as a review, at `now_ms`.
pub fn widget_choice_at(cfg: &JsonValue, now_ms: i64, requested: Option<usize>, is_review: bool) -> (r: (usize, bool))
    ensures
        r == widget_choice(cfg@, now_ms, requested, is_review),
{
    match requested {
        Some(i) => (i, is_review),
        None => match review_pick_at(cfg, now_ms) {
            Some(i) => (i, true),
            None => (cfg_index_of(cfg), false),
        },
    }
}

/// A review that is shown is due, and no due review has a key before its key.
pub proof fn law_review_pick_is_earliest_due(entries: Seq<(Seq<char>, JsonView)>, now_ms: i64)
    ensures
        earliest_due(entries, now_ms) matches Some(p) ==> {
            &&& due_review(entries[p], now_ms) is Some
            &&& forall|j: int|
                0 <= j < entries.len() && due_review(#[trigger] entries[j], now_ms) is Some ==> !text_less(
                    entries[j].0,
                    entries[p].0,
                )
        },
    decreases entries.len(),
{
    lemma_earliest_due(entries, now_ms);
    if entries.len() > 0 {
        let d = entries.drop_last();
        let l = entries.len() - 1;
        law_review_pick_is_earliest_due(d, now_ms);
        lemma_earliest_due(d, now_ms);
        assert forall|j: int| 0 <= j < d.len() implies #[trigger] d[j] == entries[j] by {}
        if let Some(p) = earliest_due(entries, now_ms) {
            assert forall|j: int|
                0 <= j < entries.len() && due_review(#[trigger] entries[j], now_ms) is Some implies !text_less(
                entries[j].0,
                entries[p].0,
            ) by {
                lemma_text_less_order(entries[j].0, entries[j].0, entries[j].0);
                if j < l {
                    assert(d[j] == entries[j]);
                    assert(due_review(d[j], now_ms) is Some);
                    let b = earliest_due(d, now_ms)->0;
                    assert(d[b] == entries[b]);
                    assert(!text_less(d[j].0, d[b].0));
                    if p == l {
                        lemma_text_less_order(entries[j].0, entries[l].0, entries[b].0);
                    }
                }
            }
        }
    }
}

/// `text_less` is a strict order: irreflexive, asymmetric and transitive.
pub proof fn lemma_text_less_order(a: Seq<char>, b: Seq<char>, c: Seq<char>)
    ensures
        !text_less(a, a),
        text_less(a, b) && text_less(b, c) ==> text_less(a, c),
        text_less(a, b) ==> !text_less(b, a),
    decreases a.len(),
{
    if a.len() > 0 && b.len() > 0 && c.len() > 0 {
        lemma_text_less_order(a.drop_first(), b.drop_first(), c.drop_first());
    } else if a.len() > 0 && b.len() > 0 {
        lemma_text_less_order(a.drop_first(), b.drop_first(), b.drop_first());
    } else if a.len() > 0 {
        lemma_text_less_order(a.drop_first(), a.drop_first(), a.drop_first());
    }
}

/// Which hadith the window shows, and whether as a review, now.
pub fn widget_choice_now(cfg: &JsonValue, requested: Option<usize>, is_review: bool) -> (r: (usize, bool))
    ensures
        exists|now_ms: i64|
            0 <= now_ms <= crate::clock::NOW_MS_MAX && r == #[trigger] widget_choice(cfg@, now_ms, requested, is_review),
        requested matches Some(i) ==> r == (i, is_review),
{
    let now = utc_now_millis();
    widget_choice_at(cfg, now, requested, is_review)
}

/// What showing the hadith window needs: the hadith chosen, whether as a
/// review, and the payload for it.
pub struct WidgetPlan {
    pub index: usize,
    pub is_review: bool,
    pub payload: JsonValue,
}

/// Prepare showing the hadith window at `now_ms`: nothing while no hadith is
/// loaded or while the guard is held by another request; otherwise the guard
/// is claimed and the chosen hadith's payload is returned (the caller
/// releases the guard once the window is built).
pub fn plan_show_widget_at(
    data: &DataLoader,
    store: &ConfigStore,
    guard: &mut WidgetGuard,
    now_ms: i64,
    requested: Option<usize>,
    is_review: bool,
) -> (r: Option<WidgetPlan>)
    ensures
        data@.hadiths.len() == 0 ==> r is None && final(guard).busy == old(guard).busy,
        data@.hadiths.len() > 0 && old(guard).busy ==> r is None && final(guard).busy,
        data@.hadiths.len() > 0 && !old(guard).busy ==> {
            let choice = widget_choice(crate::config::cfg_json(store.cfg@), now_ms, requested, is_review);
            &&& r matches Some(p)
            &&& p.index == choice.0
            &&& p.is_review == choice.1
            &&& widget_payload(data@, choice.0, choice.1, crate::config::cfg_json(store.cfg@)) == Some(p.payload@)
            &&& final(guard).busy
        },
{
    if data.hadiths_len() == 0 {
        return None;
    }
    if !guard.try_acquire() {
        return None;
    }
    let cfg = store.cfg_get();
    let (idx, review) = widget_choice_at(&cfg, now_ms, requested, is_review);
    match data.build_widget_payload(idx, review, &cfg) {
        Some(payload) => Some(WidgetPlan { index: idx, is_review: review, payload }),
        None => {
            guard.release();
            None
        },
    }
}

/// Prepare showing the hadith window now (see `plan_show_widget_at`).
pub fn plan_show_widget(
    data: &DataLoader,
    store: &ConfigStore,
    guard: &mut WidgetGuard,
    requested: Option<usize>,
    is_review: bool,
) -> (r: Option<WidgetPlan>)
    ensures
        data@.hadiths.len() == 0 ==> r is None && final(guard).busy == old(guard).busy,
        data@.hadiths.len() > 0 && old(guard).busy ==> r is None && final(guard).busy,
        data@.hadiths.len() > 0 && !old(guard).busy ==> r is Some && final(guard).busy,
        r matches Some(p) ==> exists|now_ms: i64| {
            let choice = #[trigger] widget_choice(crate::config::cfg_json(store.cfg@), now_ms, requested, is_review);
            &&& 0 <= now_ms <= crate::clock::NOW_MS_MAX
            &&& p.index == choice.0
            &&& p.is_review == choice.1
            &&& widget_payload(data@, choice.0, choice.1, crate::config::cfg_json(store.cfg@)) == Some(p.payload@)
        },
{
    let now = utc_now_millis();
    plan_show_widget_at(data, store, guard, now, requested, is_review)
}

/// Forget the saved hadith window geometry: no position, the default size.
pub fn reset_widget_geometry(store: &mut ConfigStore)
    ensures
        final(store).cfg@ == cfg_with(
            cfg_with(
                cfg_with(cfg_with(old(store).cfg@, "widgetX"@, JsonView::Null), "widgetY"@, JsonView::Null),
                "widgetW"@,
                JsonView::Number(crate::json::JsonNumber::Int(430)),
            ),
            "widgetH"@,
            JsonView::Number(crate::json::JsonNumber::Int(420)),
        ),
        final(store).quran@ == old(store).quran@,
{
    store.cfg_set("widgetX", JsonValue::Null);
    store.cfg_set("widgetY", JsonValue::Null);
    store.cfg_set("widgetW", crate::config::int_json(430));
    store.cfg_set("widgetH", crate::config::int_json(420));
}

/// Forget the saved Quran window geometry.
pub fn reset_quran_geometry(store: &mut ConfigStore)
    ensures
        final(store).quran@ == quran_with(
            quran_with(
                quran_with(quran_with(old(store).quran@, "widgetX"@, JsonView::Null), "widgetY"@, JsonView::Null),
                "widgetCustomWidth"@,
                JsonView::Null,
            ),
            "widgetCustomHeight"@,
            JsonView::Null,
        ),
        final(store).cfg@ == old(store).cfg@,
        crate::config::quran_normal(old(store).quran@) ==> crate::config::quran_normal(final(store).quran@),
{
    store.quran_set("widgetX", JsonValue::Null);
    store.quran_set("widgetY", JsonValue::Null);
    store.quran_set("widgetCustomWidth", JsonValue::Null);
    store.quran_set("widgetCustomHeight", JsonValue::Null);
}


} // verus!
