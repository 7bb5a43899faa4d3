//! The decisions behind the commands of the user interface: what each
//! command changes in the stores and what it reports back.
use vstd::prelude::*;
use crate::json::{
    JsonNumber, JsonValue, JsonView, lemma_view_entries, lemma_view_values, lookup, view_entries,
    view_values,
};
use crate::text::{decimal, parse_i64, parse_i64_text, text_eq, texts, usize_text};
use crate::config::{
    AppMode, CfgView, ConfigStore, Theme, cfg_json, entries_put, entries_without, int_json,
    is_quran_known_key, member, mode_from_name, quran_known_keys, quran_with, other_keys, string_views,
    text_json, view_reviews,
};
use crate::data_loader::{DataLoader, PageAyahs, page_of, usize_json, usize_to_json, widget_payload};
use crate::windows::{cfg_index, cfg_index_of};

verus! {

/// The keys the Quran window may store: the eleven keys of the Quran store
/// with a fixed meaning (page, daily goal, interval, review positions, pause,
/// window geometry and the reading log).
pub open spec fn is_allowed_key(k: Seq<char>) -> bool {
    is_quran_known_key(k)
}

/// Whether the Quran window may store `key`.
pub fn is_allowed_quran_key(key: &str) -> (r: bool)
    ensures
        r == is_allowed_key(key@),
{
    crate::config::is_quran_known_key_exec(key)
}

/// A member of the store, or `null`.
pub open spec fn member_or_null(q: JsonView, k: Seq<char>) -> JsonView {
    match q.get(k) {
        Some(v) => v,
        None => JsonView::Null,
    }
}

/// The members named by a list of keys (non-text keys are skipped).
pub open spec fn select_listed(q: JsonView, keys: Seq<JsonView>) -> Seq<(Seq<char>, JsonView)>
    decreases keys.len(),
{
    if keys.len() == 0 {
        Seq::empty()
    } else {
        let rest = select_listed(q, keys.drop_last());
        match keys.last() {
            JsonView::Str(k) => entries_put(rest, k, member_or_null(q, k)),
            _ => rest,
        }
    }
}

/// The members named by the keys of an object, its values standing in for
/// missing members.
pub open spec fn select_with_defaults(q: JsonView, defaults: Seq<(Seq<char>, JsonView)>) -> Seq<(Seq<char>, JsonView)>
    decreases defaults.len(),
{
    if defaults.len() == 0 {
        Seq::empty()
    } else {
        let rest = select_with_defaults(q, defaults.drop_last());
        let d = defaults.last();
        entries_put(rest, d.0, match q.get(d.0) {
            Some(v) => v,
            None => d.1,
        })
    }
}

/// What a read of the Quran store returns for `keys`: everything for `null`;
/// the named members for a list of keys, an object of keys with defaults, or
/// a single key; everything for any other request.
pub open spec fn store_get(q: JsonView, keys: JsonView) -> JsonView {
    match keys {
        JsonView::Null => q,
        JsonView::Array(a) => JsonView::Object(select_listed(q, a)),
        JsonView::Object(o) => JsonView::Object(select_with_defaults(q, o)),
        JsonView::Str(k) => JsonView::Object(seq![(k, member_or_null(q, k))]),
        _ => q,
    }
}

/// Store `v` under `k` in a list of entries.
pub fn put_entry(e: &mut Vec<(String, JsonValue)>, k: &str, v: JsonValue)
    ensures
        view_entries(final(e)@) == entries_put(view_entries(old(e)@), k@, v@),
{
    proof {
        lemma_view_entries(e@);
    }
    match crate::json::find_key(e, k) {
        Some(i) => {
            let ghost before = e@;
            e.set(i, (String::from_str(k), v));
            proof {
                lemma_view_entries(e@);
                lemma_view_entries(before);
                assert(view_entries(e@) =~= view_entries(before).update(i as int, (k@, v@)));
            }
        },
        None => {
            let ghost before = e@;
            e.push((String::from_str(k), v));
            proof {
                lemma_view_entries(e@);
                assert(e@.drop_last() =~= before);
            }
        },
    }
}

fn member_or_null_of(q: &JsonValue, k: &str) -> (r: JsonValue)
    ensures
        r@ == member_or_null(q@, k@),
{
    match q.get(k) {
        Some(v) => v.deep_clone(),
        None => JsonValue::Null,
    }
}

/// Read members of the Quran store (see `store_get`).
pub fn q_store_get(store: &ConfigStore, keys: &JsonValue) -> (r: JsonValue)
    ensures
        r@ == store_get(JsonView::Object(store.quran@), keys@),
{
    let q = store.quran_get();
    match keys {
        JsonValue::Null => q,
        JsonValue::Array(a) => {
            proof {
                lemma_view_values(a@);
            }
            let ghost va = view_values(a@);
            let mut out: Vec<(String, JsonValue)> = Vec::new();
            let mut i: usize = 0;
            while i < a.len()
                invariant
                    i <= a.len(),
                    va == view_values(a@),
                    va.len() == a@.len(),
                    forall|j: int| 0 <= j < a@.len() ==> #[trigger] va[j] == a@[j]@,
                    view_entries(out@) == select_listed(q@, va.take(i as int)),
                decreases a.len() - i,
            {
                assert(va.take(i + 1).drop_last() =~= va.take(i as int));
                if let JsonValue::Str(k) = &a[i] {
                    let v = member_or_null_of(&q, k.as_str());
                    put_entry(&mut out, k.as_str(), v);
                }
                i = i + 1;
            }
            assert(va.take(a.len() as int) =~= va);
            JsonValue::Object(out)
        },
        JsonValue::Object(o) => {
            proof {
                lemma_view_entries(o@);
            }
            let ghost vo = view_entries(o@);
            let mut out: Vec<(String, JsonValue)> = Vec::new();
            let mut i: usize = 0;
            while i < o.len()
                invariant
                    i <= o.len(),
                    vo == view_entries(o@),
                    vo.len() == o@.len(),
                    forall|j: int| 0 <= j < o@.len() ==> #[trigger] vo[j] == (o@[j].0@, o@[j].1@),
                    view_entries(out@) == select_with_defaults(q@, vo.take(i as int)),
                decreases o.len() - i,
            {
                assert(vo.take(i + 1).drop_last() =~= vo.take(i as int));
                let k = o[i].0.as_str();
                let v = match q.get(k) {
                    Some(x) => x.deep_clone(),
                    None => o[i].1.deep_clone(),
                };
                put_entry(&mut out, k, v);
                i = i + 1;
            }
            assert(vo.take(o.len() as int) =~= vo);
            JsonValue::Object(out)
        },
        JsonValue::Str(k) => {
            let mut out: Vec<(String, JsonValue)> = Vec::new();
            let v = member_or_null_of(&q, k.as_str());
            out.push((k.clone(), v));
            proof {
                lemma_view_entries(out@);
                assert(view_entries(out@) =~= seq![(k@, member_or_null(q@, k@))]);
            }
            JsonValue::Object(out)
        },
        _ => q,
    }
}

/// The change notice of one member: `{"newValue": v}`.
pub open spec fn new_value(v: JsonView) -> JsonView {
    JsonView::Object(seq![("newValue"@, v)])
}

pub fn new_value_json(v: JsonValue) -> (r: JsonValue)
    ensures
        r@ == new_value(v@),
{
    let mut e: Vec<(String, JsonValue)> = Vec::new();
    e.push(member("newValue", v));
    proof {
        lemma_view_entries(e@);
        assert(view_entries(e@) =~= seq![("newValue"@, v@)]);
    }
    JsonValue::Object(e)
}

/// Keys that record reading progress.
pub open spec fn is_progress_key(k: Seq<char>) -> bool {
    k == "currentQuranPage"@ || k == "reviewIndex"@ || k == "recentReviewIndex"@
}

/// The running state of a write to the Quran store.
pub struct QuranWrite {
    pub quran: Seq<(Seq<char>, JsonView)>,
    pub changed: Seq<(Seq<char>, JsonView)>,
    pub progress: bool,
    pub pause: bool,
}

/// One member of a write: an allowed key whose value differs from the one
/// read before the write is stored and noted as changed.
pub open spec fn write_step(st: QuranWrite, before: JsonView, k: Seq<char>, v: JsonView) -> QuranWrite {
    if is_allowed_key(k) && before.get(k) != Some(v) {
        QuranWrite {
            quran: quran_with(st.quran, k, v),
            changed: entries_put(st.changed, k, new_value(v)),
            progress: st.progress || is_progress_key(k),
            pause: st.pause || k == "pausedUntil"@,
        }
    } else {
        st
    }
}

pub open spec fn write_all(st: QuranWrite, before: JsonView, members: Seq<(Seq<char>, JsonView)>) -> QuranWrite
    decreases members.len(),
{
    if members.len() == 0 {
        st
    } else {
        let m = members.last();
        write_step(write_all(st, before, members.drop_last()), before, m.0, m.1)
    }
}

/// The outcome of a write to the Quran store: the change notices, whether
/// reading progress changed, and whether the pause changed.
pub struct QuranWriteOutcome {
    pub changed: JsonValue,
    pub had_progress: bool,
    pub pause_changed: bool,
}

/// The effect of a write of `data` to the Quran store.
pub open spec fn store_write(q: Seq<(Seq<char>, JsonView)>, data: JsonView) -> QuranWrite {
    let start = QuranWrite { quran: q, changed: Seq::empty(), progress: false, pause: false };
    match data {
        JsonView::Object(o) => write_all(start, JsonView::Object(q), o),
        _ => start,
    }
}

fn is_progress_key_exec(k: &str) -> (r: bool)
    ensures
        r == is_progress_key(k@),
{
    text_eq(k, "currentQuranPage") || text_eq(k, "reviewIndex") || text_eq(k, "recentReviewIndex")
}

/// Write the allowed members of `data` that differ from what is stored.
pub fn q_store_set(store: &mut ConfigStore, data: &JsonValue) -> (r: QuranWriteOutcome)
    ensures
        ({
            let w = store_write(old(store).quran@, data@);
            &&& final(store).quran@ == w.quran
            &&& r.changed@ == JsonView::Object(w.changed)
            &&& r.had_progress == w.progress
            &&& r.pause_changed == w.pause
        }),
        final(store).cfg@ == old(store).cfg@,
        crate::config::quran_normal(old(store).quran@) ==> crate::config::quran_normal(final(store).quran@),
{
    let before = store.quran_get();
    let mut changed: Vec<(String, JsonValue)> = Vec::new();
    let mut progress = false;
    let mut pause = false;
    proof {
        lemma_view_entries(changed@);
    }
    if let Some(o) = data.as_object() {
        proof {
            lemma_view_entries(o@);
        }
        let ghost vo = view_entries(o@);
        let ghost start = QuranWrite { quran: old(store).quran@, changed: Seq::empty(), progress: false, pause: false };
        let mut i: usize = 0;
        while i < o.len()
            invariant
                i <= o.len(),
                vo == view_entries(o@),
                vo.len() == o@.len(),
                forall|j: int| 0 <= j < o@.len() ==> #[trigger] vo[j] == (o@[j].0@, o@[j].1@),
                before@ == JsonView::Object(old(store).quran@),
                start == (QuranWrite { quran: old(store).quran@, changed: Seq::empty(), progress: false, pause: false }),
                ({
                    let w = write_all(start, before@, vo.take(i as int));
                    &&& store.quran@ == w.quran
                    &&& view_entries(changed@) == w.changed
                    &&& progress == w.progress
                    &&& pause == w.pause
                }),
                store.cfg@ == old(store).cfg@,
                crate::config::quran_normal(old(store).quran@) ==> crate::config::quran_normal(store.quran@),
            decreases o.len() - i,
        {
            assert(vo.take(i + 1).drop_last() =~= vo.take(i as int));
            let k = o[i].0.as_str();
            let v = &o[i].1;
            if is_allowed_quran_key(k) {
                let differs = match before.get(k) {
                    Some(old_v) => !old_v.same_as(v),
                    None => true,
                };
                if differs {
                    store.quran_set(k, v.deep_clone());
                    put_entry(&mut changed, k, new_value_json(v.deep_clone()));
                    if is_progress_key_exec(k) {
                        progress = true;
                    }
                    if text_eq(k, "pausedUntil") {
                        pause = true;
                    }
                }
            }
            i = i + 1;
        }
        assert(vo.take(o.len() as int) =~= vo);
    }
    QuranWriteOutcome { changed: JsonValue::Object(changed), had_progress: progress, pause_changed: pause }
}


/// The keys a removal request names that the Quran window may store: the
/// text members of a list, or a single key.
pub open spec fn removal_keys(keys: JsonView) -> Seq<Seq<char>> {
    match keys {
        JsonView::Array(a) => allowed_texts(a),
        JsonView::Str(k) => if is_allowed_key(k) {
            seq![k]
        } else {
            Seq::empty()
        },
        _ => Seq::empty(),
    }
}

pub open spec fn allowed_texts(a: Seq<JsonView>) -> Seq<Seq<char>>
    decreases a.len(),
{
    if a.len() == 0 {
        Seq::empty()
    } else {
        let rest = allowed_texts(a.drop_last());
        match a.last() {
            JsonView::Str(k) => if is_allowed_key(k) {
                rest.push(k)
            } else {
                rest
            },
            _ => rest,
        }
    }
}

/// The running state of a removal: the store and the change notices.
pub open spec fn remove_all(
    q: Seq<(Seq<char>, JsonView)>,
    changed: Seq<(Seq<char>, JsonView)>,
    keys: Seq<Seq<char>>,
) -> (Seq<(Seq<char>, JsonView)>, Seq<(Seq<char>, JsonView)>)
    decreases keys.len(),
{
    if keys.len() == 0 {
        (q, changed)
    } else {
        let (q1, c1) = remove_all(q, changed, keys.drop_last());
        let k = keys.last();
        let removed = is_quran_known_key(k) || lookup(q1, k) is Some;
        (entries_without(q1, k), if removed {
            entries_put(c1, k, new_value(JsonView::Null))
        } else {
            c1
        })
    }
}

/// Whether a write that did (or did not) change the pause silences the
/// reminders at once, at the instant `now_ms`, for the Quran store `q` after
/// the write: the pause changed, and the reminders are paused at that instant.
pub open spec fn silences(pause_changed: bool, q: Seq<(Seq<char>, JsonView)>, now_ms: i64) -> bool {
    pause_changed && crate::orchestrator::paused_at(JsonView::Object(q), now_ms)
}

/// Whether a write to the Quran store silences the reminders at the instant `now_ms`.
pub fn silences_at(outcome: &QuranWriteOutcome, store: &ConfigStore, now_ms: i64) -> (r: bool)
    ensures
        r == silences(outcome.pause_changed, store.quran@, now_ms),
{
    outcome.pause_changed && crate::orchestrator::is_paused_at(&store.quran_get(), now_ms)
}

/// Whether a write to the Quran store silences the reminders now (see `silences_at`).
pub fn silences_now(outcome: &QuranWriteOutcome, store: &ConfigStore) -> (r: bool)
    ensures
        exists|now_ms: i64|
            0 <= now_ms <= crate::clock::NOW_MS_MAX && r == #[trigger] silences(
                outcome.pause_changed,
                store.quran@,
                now_ms,
            ),
        !outcome.pause_changed ==> !r,
{
    let now = crate::clock::utc_now_millis();
    silences_at(outcome, store, now)
}

/// Remove the allowed keys a request names; returns the change notices of
/// the keys removed.
pub fn q_store_remove(store: &mut ConfigStore, keys: &JsonValue) -> (r: JsonValue)
    ensures
        ({
            let (q, c) = remove_all(old(store).quran@, Seq::empty(), removal_keys(keys@));
            &&& final(store).quran@ == q
            &&& r@ == JsonView::Object(c)
        }),
        final(store).cfg@ == old(store).cfg@,
        crate::config::quran_normal(old(store).quran@) ==> crate::config::quran_normal(final(store).quran@),
{
    let mut to_remove: Vec<String> = Vec::new();
    match keys {
        JsonValue::Array(a) => {
            proof {
                lemma_view_values(a@);
            }
            let ghost va = view_values(a@);
            let mut i: usize = 0;
            while i < a.len()
                invariant
                    i <= a.len(),
                    va == view_values(a@),
                    va.len() == a@.len(),
                    forall|j: int| 0 <= j < a@.len() ==> #[trigger] va[j] == a@[j]@,
                    texts(to_remove@) == allowed_texts(va.take(i as int)),
                decreases a.len() - i,
            {
                assert(va.take(i + 1).drop_last() =~= va.take(i as int));
                if let JsonValue::Str(k) = &a[i] {
                    if is_allowed_quran_key(k.as_str()) {
                        let ghost before = to_remove@;
                        to_remove.push(k.clone());
                        assert(texts(to_remove@) =~= texts(before).push(k@));
                    }
                }
                i = i + 1;
            }
            assert(va.take(a.len() as int) =~= va);
        },
        JsonValue::Str(k) => {
            if is_allowed_quran_key(k.as_str()) {
                to_remove.push(k.clone());
                assert(texts(to_remove@) =~= seq![k@]);
            } else {
                assert(texts(to_remove@) =~= Seq::<Seq<char>>::empty());
            }
        },
        _ => {
            assert(texts(to_remove@) =~= Seq::<Seq<char>>::empty());
        },
    }
    let ghost tk = texts(to_remove@);
    assert(tk == removal_keys(keys@));
    let mut changed: Vec<(String, JsonValue)> = Vec::new();
    proof {
        lemma_view_entries(changed@);
    }
    let mut i: usize = 0;
    while i < to_remove.len()
        invariant
            i <= to_remove.len(),
            tk == texts(to_remove@),
            ({
                let (q, c) = remove_all(old(store).quran@, Seq::empty(), tk.take(i as int));
                &&& store.quran@ == q
                &&& view_entries(changed@) == c
            }),
            store.cfg@ == old(store).cfg@,
            crate::config::quran_normal(old(store).quran@) ==> crate::config::quran_normal(store.quran@),
        decreases to_remove.len() - i,
    {
        assert(tk.take(i + 1).drop_last() =~= tk.take(i as int));
        let k = to_remove[i].as_str();
        if store.quran_remove(k) {
            put_entry(&mut changed, k, new_value_json(JsonValue::Null));
        }
        i = i + 1;
    }
    assert(tk.take(to_remove.len() as int) =~= tk);
    JsonValue::Object(changed)
}

/// Change notices of `null` for each key.
pub open spec fn cleared_notices(keys: Seq<Seq<char>>) -> Seq<(Seq<char>, JsonView)>
    decreases keys.len(),
{
    if keys.len() == 0 {
        Seq::empty()
    } else {
        entries_put(cleared_notices(keys.drop_last()), keys.last(), new_value(JsonView::Null))
    }
}

/// Empty the Quran store; returns a `null` change notice for the known keys
/// and for every other key that was stored.
#[verifier::rlimit(40)]
pub fn q_store_clear(store: &mut ConfigStore) -> (r: JsonValue)
    ensures
        final(store).quran@ == Seq::<(Seq<char>, JsonView)>::empty(),
        final(store).cfg@ == old(store).cfg@,
        r@ == JsonView::Object(cleared_notices(quran_known_keys() + other_keys(old(store).quran@))),
        crate::config::quran_normal(final(store).quran@),
{
    let removed = store.quran_clear();
    let ghost keys = string_views(removed@);
    let mut changed: Vec<(String, JsonValue)> = Vec::new();
    proof {
        lemma_view_entries(changed@);
    }
    let mut i: usize = 0;
    while i < removed.len()
        invariant
            i <= removed.len(),
            keys == string_views(removed@),
            view_entries(changed@) == cleared_notices(keys.take(i as int)),
        decreases removed.len() - i,
    {
        assert(keys.take(i + 1).drop_last() =~= keys.take(i as int));
        assert(keys[i as int] == removed@[i as int]@);
        put_entry(&mut changed, removed[i].as_str(), new_value_json(JsonValue::Null));
        i = i + 1;
    }
    assert(keys.take(removed.len() as int) =~= keys);
    JsonValue::Object(changed)
}

/// The number of review pages per session, kept within 1..=50.
pub open spec fn pages_per_session(pages: i64) -> i64 {
    if pages < 1 {
        1
    } else if pages > 50 {
        50
    } else {
        pages
    }
}

/// Store the number of review pages per session (kept within 1..=50);
/// returns the change notice `{"reviewPagesPerSession": n}`.
pub fn q_set_pages_per_session(store: &mut ConfigStore, pages: i64) -> (r: JsonValue)
    ensures
        final(store).quran@ == quran_with(
            old(store).quran@,
            "reviewPagesPerSession"@,
            JsonView::Number(JsonNumber::Int(pages_per_session(pages))),
        ),
        final(store).cfg@ == old(store).cfg@,
        r@ == JsonView::Object(
            seq![("reviewPagesPerSession"@, JsonView::Number(JsonNumber::Int(pages_per_session(pages))))],
        ),
        crate::config::quran_normal(old(store).quran@) ==> crate::config::quran_normal(final(store).quran@),
{
    let safe = if pages < 1 {
        1
    } else if pages > 50 {
        50
    } else {
        pages
    };
    store.quran_set("reviewPagesPerSession", int_json(safe));
    let mut e: Vec<(String, JsonValue)> = Vec::new();
    e.push(member("reviewPagesPerSession", int_json(safe)));
    proof {
        lemma_view_entries(e@);
        assert(view_entries(e@) =~= seq![("reviewPagesPerSession"@, JsonView::Number(JsonNumber::Int(safe)))]);
    }
    JsonValue::Object(e)
}

/// A request of the Quran window for page text.
pub enum QBgMessage {
    GetPageAyahs { page: i64 },
    GetMultiplePages { pages: Vec<i64> },
}

/// The answer to a `QBgMessage`.
pub enum QBgResponse {
    Page(Option<PageAyahs>),
    MultiplePages(Vec<JsonValue>),
}

/// A page as the Quran window receives it.
pub open spec fn page_json(p: (Seq<char>, Seq<char>, Seq<char>)) -> JsonView {
    JsonView::Object(
        seq![
            ("surahTitle"@, JsonView::Str(p.0)),
            ("ayahTextHtml"@, JsonView::Str(p.1)),
            ("firstAyahHtml"@, JsonView::Str(p.2)),
        ],
    )
}

impl PageAyahs {
    pub fn to_json(&self) -> (r: JsonValue)
        ensures
            r@ == page_json((self.surah_title@, self.ayah_text_html@, self.first_ayah_html@)),
    {
        let mut e: Vec<(String, JsonValue)> = Vec::new();
        e.push(member("surahTitle", text_json(self.surah_title.as_str())));
        e.push(member("ayahTextHtml", text_json(self.ayah_text_html.as_str())));
        e.push(member("firstAyahHtml", text_json(self.first_ayah_html.as_str())));
        proof {
            lemma_view_entries(e@);
            assert(view_entries(e@) =~= page_json((self.surah_title@, self.ayah_text_html@, self.first_ayah_html@))->Object_0);
        }
        JsonValue::Object(e)
    }
}

/// The pages of a list that have ayahs, each as `{"pageNum", "pageData"}`.
pub open spec fn pages_json(quran: Seq<JsonView>, pages: Seq<i64>) -> Seq<JsonView>
    decreases pages.len(),
{
    if pages.len() == 0 {
        Seq::empty()
    } else {
        let rest = pages_json(quran, pages.drop_last());
        let p = pages.last();
        match page_of(quran, p) {
            Some(pd) => rest.push(
                JsonView::Object(
                    seq![("pageNum"@, JsonView::Number(JsonNumber::Int(p))), ("pageData"@, page_json(pd))],
                ),
            ),
            None => rest,
        }
    }
}

/// Answer a request of the Quran window.
pub fn q_bg_message(data: &DataLoader, req: &QBgMessage) -> (r: QBgResponse)
    ensures
        match req {
            QBgMessage::GetPageAyahs { page } => match r {
                QBgResponse::Page(Some(p)) => page_of(data@.quran, *page) == Some(
                    (p.surah_title@, p.ayah_text_html@, p.first_ayah_html@),
                ),
                QBgResponse::Page(None) => page_of(data@.quran, *page) is None,
                _ => false,
            },
            QBgMessage::GetMultiplePages { pages } => match r {
                QBgResponse::MultiplePages(v) => view_values(v@) == pages_json(data@.quran, pages@),
                _ => false,
            },
        },
{
    match req {
        QBgMessage::GetPageAyahs { page } => QBgResponse::Page(data.get_page_ayahs(*page)),
        QBgMessage::GetMultiplePages { pages } => {
            let mut out: Vec<JsonValue> = Vec::new();
            proof {
                lemma_view_values(out@);
            }
            let mut i: usize = 0;
            while i < pages.len()
                invariant
                    i <= pages.len(),
                    view_values(out@) == pages_json(data@.quran, pages@.take(i as int)),
                decreases pages.len() - i,
            {
                assert(pages@.take(i + 1).drop_last() =~= pages@.take(i as int));
                assert(pages@.take(i + 1).last() == pages@[i as int]);
                let p = pages[i];
                if let Some(pd) = data.get_page_ayahs(p) {
                    let mut e: Vec<(String, JsonValue)> = Vec::new();
                    e.push(member("pageNum", int_json(p)));
                    e.push(member("pageData", pd.to_json()));
                    proof {
                        lemma_view_entries(e@);
                        assert(view_entries(e@) =~= seq![
                            ("pageNum"@, JsonView::Number(JsonNumber::Int(p))),
                            ("pageData"@, page_json((pd.surah_title@, pd.ayah_text_html@, pd.first_ayah_html@))),
                        ]);
                    }
                    let ghost before = out@;
                    let obj = JsonValue::Object(e);
                    assert(obj@ == JsonView::Object(view_entries(e@)));
                    out.push(obj);
                    proof {
                        assert(out@.drop_last() =~= before);
                        assert(view_values(out@) == view_values(before).push(out@.last()@));
                    }
                }
                i = i + 1;
            }
            assert(pages@.take(pages.len() as int) =~= pages@);
            QBgResponse::MultiplePages(out)
        },
    }
}

/// The settings as the settings window receives them, with the number of hadiths.
pub fn s_get(store: &ConfigStore, data: &DataLoader) -> (r: JsonValue)
    ensures
        r@ == JsonView::Object(cfg_json(store.cfg@)->Object_0.push(("total"@, usize_json(data@.hadiths.len() as usize)))),
{
    let cfg = store.cfg_get();
    match cfg {
        JsonValue::Object(mut e) => {
            let ghost before = e@;
            e.push(member("total", usize_to_json(data.hadiths_len())));
            proof {
                lemma_view_entries(e@);
                lemma_view_entries(before);
                assert(view_entries(e@) =~= view_entries(before).push(("total"@, usize_json(data@.hadiths.len() as usize))));
            }
            JsonValue::Object(e)
        },
        _ => {
            assert(false);
            JsonValue::Null
        },
    }
}


/// An integer field of the settings form: a number, or a text holding one,
/// else `fallback`.
pub open spec fn form_int(p: JsonView, k: Seq<char>, fallback: i64) -> i64 {
    match p.get(k) {
        Some(v) => match v.as_i64() {
            Some(n) => n,
            None => match v.as_str() {
                Some(t) => match parse_i64(t) {
                    Some(n) => n,
                    None => fallback,
                },
                None => fallback,
            },
        },
        None => fallback,
    }
}

/// A text field of the settings form, else `fallback`.
pub open spec fn form_text(p: JsonView, k: Seq<char>, fallback: Seq<char>) -> Seq<char> {
    match p.get(k) {
        Some(v) => match v.as_str() {
            Some(t) => t,
            None => fallback,
        },
        None => fallback,
    }
}

/// A switch of the settings form, else `fallback`.
pub open spec fn form_bool(p: JsonView, k: Seq<char>, fallback: bool) -> bool {
    match p.get(k) {
        Some(v) => match v.as_bool() {
            Some(b) => b,
            None => fallback,
        },
        None => fallback,
    }
}

pub open spec fn at_least_one(n: i64) -> i64 {
    if n < 1 {
        1
    } else {
        n
    }
}

pub open spec fn font_size_within(n: i64) -> i64 {
    if n < 12 {
        12
    } else if n > 72 {
        72
    } else {
        n
    }
}

/// The settings after the settings form `p` is saved: the interval and the
/// review days are at least 1, the font size within 12..=72, texts fall back
/// to the current ones, the theme is dark only when asked for by name, an
/// unknown mode is the sequential one, and missing switches are off.
pub open spec fn saved_cfg(c: CfgView, p: JsonView) -> CfgView {
    CfgView {
        interval: at_least_one(form_int(p, "interval"@, 30)),
        font_size: font_size_within(form_int(p, "fontSize"@, 17)),
        font_family: form_text(p, "fontFamily"@, c.font_family),
        c_sanad: form_text(p, "cSanad"@, c.c_sanad),
        c_matn: form_text(p, "cMatn"@, c.c_matn),
        c_takhrij: form_text(p, "cTakhrij"@, c.c_takhrij),
        c_sharh: form_text(p, "cSharh"@, c.c_sharh),
        theme: if form_text(p, "theme"@, "light"@) == "dark"@ {
            Theme::Dark
        } else {
            Theme::Light
        },
        auto_launch: form_bool(p, "autoLaunch"@, false),
        app_mode: mode_from_name(form_text(p, "appMode"@, "sequential"@)),
        h_review_enabled: form_bool(p, "hReviewEnabled"@, false),
        h_review_days: at_least_one(form_int(p, "hReviewDays"@, 7)),
        ..c
    }
}

fn form_int_of(p: &JsonValue, k: &str, fallback: i64) -> (r: i64)
    ensures
        r == form_int(p@, k@, fallback),
{
    match p.get(k) {
        Some(v) => match v.as_i64() {
            Some(n) => n,
            None => match v.as_str() {
                Some(t) => match parse_i64_text(t) {
                    Some(n) => n,
                    None => fallback,
                },
                None => fallback,
            },
        },
        None => fallback,
    }
}

fn form_text_of(p: &JsonValue, k: &str, fallback: &String) -> (r: String)
    ensures
        r@ == form_text(p@, k@, fallback@),
{
    match p.get(k) {
        Some(v) => match v.as_str() {
            Some(t) => String::from_str(t),
            None => fallback.clone(),
        },
        None => fallback.clone(),
    }
}

fn form_bool_of(p: &JsonValue, k: &str, fallback: bool) -> (r: bool)
    ensures
        r == form_bool(p@, k@, fallback),
{
    match p.get(k) {
        Some(v) => match v.as_bool() {
            Some(b) => b,
            None => fallback,
        },
        None => fallback,
    }
}

/// Save the settings form; returns whether the application should start
/// with the session.
pub fn s_save(store: &mut ConfigStore, payload: &JsonValue) -> (auto_launch: bool)
    ensures
        final(store).cfg@ == saved_cfg(old(store).cfg@, payload@),
        final(store).quran@ == old(store).quran@,
        auto_launch == final(store).cfg@.auto_launch,
{
    let interval = form_int_of(payload, "interval", 30);
    let interval = if interval < 1 {
        1
    } else {
        interval
    };
    let font_size = form_int_of(payload, "fontSize", 17);
    let font_size = if font_size < 12 {
        12
    } else if font_size > 72 {
        72
    } else {
        font_size
    };
    let font_family = form_text_of(payload, "fontFamily", &store.cfg.font_family);
    let c_sanad = form_text_of(payload, "cSanad", &store.cfg.c_sanad);
    let c_matn = form_text_of(payload, "cMatn", &store.cfg.c_matn);
    let c_takhrij = form_text_of(payload, "cTakhrij", &store.cfg.c_takhrij);
    let c_sharh = form_text_of(payload, "cSharh", &store.cfg.c_sharh);
    let light = String::from_str("light");
    let theme_name = form_text_of(payload, "theme", &light);
    let theme = if text_eq(theme_name.as_str(), "dark") {
        Theme::Dark
    } else {
        Theme::Light
    };
    let sequential = String::from_str("sequential");
    let mode_name = form_text_of(payload, "appMode", &sequential);
    let app_mode = AppMode::from_str(mode_name.as_str());
    let auto_launch = form_bool_of(payload, "autoLaunch", false);
    let review_enabled = form_bool_of(payload, "hReviewEnabled", false);
    let days = form_int_of(payload, "hReviewDays", 7);
    let days = if days < 1 {
        1
    } else {
        days
    };
    store.cfg.interval = interval;
    store.cfg.font_size = font_size;
    store.cfg.font_family = font_family;
    store.cfg.c_sanad = c_sanad;
    store.cfg.c_matn = c_matn;
    store.cfg.c_takhrij = c_takhrij;
    store.cfg.c_sharh = c_sharh;
    store.cfg.theme = theme;
    store.cfg.auto_launch = auto_launch;
    store.cfg.app_mode = app_mode;
    store.cfg.h_review_enabled = review_enabled;
    store.cfg.h_review_days = days;
    auto_launch
}

/// Saving the settings form always leaves a usable configuration: an
/// interval and review period of at least one, a font size within 12..=72.
pub proof fn law_saved_settings_are_bounded(c: CfgView, p: JsonView)
    ensures
        saved_cfg(c, p).interval >= 1,
        12 <= saved_cfg(c, p).font_size <= 72,
        saved_cfg(c, p).h_review_days >= 1,
        saved_cfg(c, p).index == c.index,
        saved_cfg(c, p).h_reviews == c.h_reviews,
{
}

/// The hadith position after storing the count `n`: JSON keeps it when it
/// fits in `i64`.
pub open spec fn index_from_count(current: i64, n: usize) -> i64 {
    if n <= i64::MAX {
        n as i64
    } else {
        current
    }
}

fn set_index_from_count(store: &mut ConfigStore, n: usize)
    ensures
        final(store).cfg@ == (CfgView { index: index_from_count(old(store).cfg@.index, n), ..old(store).cfg@ }),
        final(store).quran@ == old(store).quran@,
{
    if (n as u64) <= 9223372036854775807u64 {
        store.cfg.index = n as i64;
    }
}

/// Back to the first hadith.
pub fn s_reset(store: &mut ConfigStore)
    ensures
        final(store).cfg@ == (CfgView { index: 0, ..old(store).cfg@ }),
        final(store).quran@ == old(store).quran@,
{
    store.cfg.index = 0;
}

/// Jump to hadith `index` of `total`; refused (and nothing changes) when it
/// is out of range.
pub fn s_jump(store: &mut ConfigStore, total: usize, index: i64) -> (ok: bool)
    ensures
        ok == (0 <= index < total as i64),
        ok ==> final(store).cfg@ == (CfgView { index: index, ..old(store).cfg@ }),
        !ok ==> final(store).cfg@ == old(store).cfg@,
        final(store).quran@ == old(store).quran@,
{
    let total_i = total as i64;
    if index < 0 || index >= total_i {
        return false;
    }
    store.cfg.index = index;
    true
}

/// The font list offered when the system's fonts cannot be listed.
pub open spec fn fallback_fonts() -> Seq<Seq<char>> {
    seq![
        "Segoe UI"@,
        "Tahoma"@,
        "Arial"@,
        "Traditional Arabic"@,
        "Simplified Arabic"@,
        "Sakkal Majalla"@,
        "Microsoft Sans Serif"@,
        "Times New Roman"@,
        "Courier New"@,
        "Droid Arabic Naskh"@,
        "Cairo"@,
        "Amiri"@,
        "QuranFont"@,
    ]
}

pub fn m_get_fonts() -> (r: Vec<String>)
    ensures
        texts(r@) == fallback_fonts(),
{
    let mut v: Vec<String> = Vec::new();
    v.push(String::from_str("Segoe UI"));
    v.push(String::from_str("Tahoma"));
    v.push(String::from_str("Arial"));
    v.push(String::from_str("Traditional Arabic"));
    v.push(String::from_str("Simplified Arabic"));
    v.push(String::from_str("Sakkal Majalla"));
    v.push(String::from_str("Microsoft Sans Serif"));
    v.push(String::from_str("Times New Roman"));
    v.push(String::from_str("Courier New"));
    v.push(String::from_str("Droid Arabic Naskh"));
    v.push(String::from_str("Cairo"));
    v.push(String::from_str("Amiri"));
    v.push(String::from_str("QuranFont"));
    assert(texts(v@) =~= fallback_fonts());
    v
}

/// The welcome screen is done: no longer the first run, and the chosen
/// start-with-session preference.
pub fn welcome_done(store: &mut ConfigStore, auto_launch: bool)
    ensures
        final(store).cfg@ == (CfgView { first_run: false, auto_launch: auto_launch, ..old(store).cfg@ }),
        final(store).quran@ == old(store).quran@,
{
    store.cfg.first_run = false;
    store.cfg.auto_launch = auto_launch;
}

/// The review times with `t` recorded for `k`: the entry of `k` is replaced
/// in place, or a new entry is appended.
pub open spec fn reviews_put(r: Seq<(Seq<char>, i64)>, k: Seq<char>, t: i64) -> Seq<(Seq<char>, i64)> {
    match review_index(r, k) {
        Some(i) => r.update(i, (k, t)),
        None => r.push((k, t)),
    }
}

pub open spec fn review_index(r: Seq<(Seq<char>, i64)>, k: Seq<char>) -> Option<int>
    decreases r.len(),
{
    if r.len() == 0 {
        None
    } else {
        match review_index(r.drop_last(), k) {
            Some(i) => Some(i),
            None => if r.last().0 == k {
                Some(r.len() - 1)
            } else {
                None
            },
        }
    }
}

proof fn lemma_review_index_prefix(r: Seq<(Seq<char>, i64)>, n: int, k: Seq<char>)
    requires
        0 <= n <= r.len(),
        review_index(r.take(n), k) is Some,
    ensures
        review_index(r, k) == review_index(r.take(n), k),
    decreases r.len() - n,
{
    if n < r.len() {
        assert(r.take(n + 1).drop_last() =~= r.take(n));
        lemma_review_index_prefix(r, n + 1, k);
    } else {
        assert(r.take(n) =~= r);
    }
}

fn put_review(store: &mut ConfigStore, k: String, t: i64)
    ensures
        final(store).cfg@ == (CfgView { h_reviews: reviews_put(old(store).cfg@.h_reviews, k@, t), ..old(store).cfg@ }),
        final(store).quran@ == old(store).quran@,
{
    let ghost rv = view_reviews(store.cfg.h_reviews@);
    let mut i: usize = 0;
    while i < store.cfg.h_reviews.len()
        invariant
            i <= store.cfg.h_reviews.len(),
            rv == view_reviews(store.cfg.h_reviews@),
            rv == old(store).cfg@.h_reviews,
            store.cfg@ == old(store).cfg@,
            store.quran@ == old(store).quran@,
            review_index(rv.take(i as int), k@) is None,
        decreases store.cfg.h_reviews.len() - i,
    {
        assert(rv.take(i + 1).drop_last() =~= rv.take(i as int));
        if text_eq(store.cfg.h_reviews[i].0.as_str(), k.as_str()) {
            proof {
                assert(review_index(rv.take(i + 1), k@) == Some(i as int));
                lemma_review_index_prefix(rv, i + 1, k@);
            }
            store.cfg.h_reviews.set(i, (k, t));
            assert(view_reviews(store.cfg.h_reviews@) =~= rv.update(i as int, (k@, t)));
            return;
        }
        i = i + 1;
    }
    assert(rv.take(store.cfg.h_reviews.len() as int) =~= rv);
    let ghost kv = k@;
    let ghost before = store.cfg@;
    store.cfg.h_reviews.push((k, t));
    assert(view_reviews(store.cfg.h_reviews@) =~= rv.push((kv, t)));
    assert(review_index(rv, kv) is None);
    assert(store.cfg@ == (CfgView { h_reviews: rv.push((kv, t)), ..before }));
}

/// Milliseconds in a day.
pub const DAY_MS: i64 = 86400000i64;

/// The next hadith position: the following one, or the first after the last.
pub open spec fn next_after_memorized(index: usize, total: usize) -> usize {
    let total1: int = if total < 1 {
        1
    } else {
        total as int
    };
    if index + 1 >= total1 {
        0
    } else {
        (index + 1) as usize
    }
}

/// The settings after hadith `index` (of `total`) is marked memorized at
/// `now_ms`: with reviews enabled it is due for review after the review
/// period; when it is the current hadith, the current one moves on.
pub open spec fn memorized_cfg(c: CfgView, index: usize, total: usize, now_ms: i64) -> CfgView {
    let c1 = if c.h_review_enabled {
        CfgView { h_reviews: reviews_put(c.h_reviews, decimal(index as nat), (now_ms + c.h_review_days * DAY_MS) as i64), ..c }
    } else {
        c
    };
    if current_index(c1) == index {
        CfgView { index: index_from_count(c1.index, next_after_memorized(index, total)), ..c1 }
    } else {
        c1
    }
}

/// The arithmetic of marking hadith `index` memorized stays within range.
pub open spec fn memorized_fits(c: CfgView, index: usize, now_ms: i64) -> bool {
    &&& c.h_review_enabled ==> i64::MIN <= c.h_review_days * DAY_MS <= i64::MAX
        && i64::MIN <= now_ms + c.h_review_days * DAY_MS <= i64::MAX
    &&& current_index(c) == index ==> index < usize::MAX
}

/// The current hadith position of the settings (0 when negative).
pub open spec fn current_index(c: CfgView) -> usize {
    if c.index >= 0 {
        (c.index as u64) as usize
    } else {
        0
    }
}

/// Mark hadith `index` (of `total`) memorized at `now_ms`.
pub fn w_memorized(store: &mut ConfigStore, index: usize, total: usize, now_ms: i64)
    requires
        memorized_fits(old(store).cfg@, index, now_ms),
    ensures
        final(store).cfg@ == memorized_cfg(old(store).cfg@, index, total, now_ms),
        final(store).quran@ == old(store).quran@,
{
    if store.cfg.h_review_enabled {
        let next_ms = now_ms + store.cfg.h_review_days * DAY_MS;
        put_review(store, usize_text(index), next_ms);
    }
    let current: usize = if store.cfg.index >= 0 {
        (store.cfg.index as u64) as usize
    } else {
        0
    };
    if current == index {
        let total1 = if total < 1 {
            1
        } else {
            total
        };
        let next = if index + 1 >= total1 {
            0
        } else {
            index + 1
        };
        set_index_from_count(store, next);
    }
}

/// The settings after hadith `index` is marked forgotten at `now_ms`: it is
/// due for review a day later.
pub open spec fn forgot_cfg(c: CfgView, index: usize, now_ms: i64) -> CfgView {
    CfgView { h_reviews: reviews_put(c.h_reviews, decimal(index as nat), (now_ms + DAY_MS) as i64), ..c }
}

/// Mark hadith `index` forgotten at `now_ms`: it is due for review a day later.
pub fn w_forgot(store: &mut ConfigStore, index: usize, now_ms: i64)
    requires
        now_ms + DAY_MS <= i64::MAX,
    ensures
        final(store).cfg@ == forgot_cfg(old(store).cfg@, index, now_ms),
        final(store).quran@ == old(store).quran@,
{
    put_review(store, usize_text(index), now_ms + DAY_MS);
}

/// Whether the arithmetic of marking hadith `index` memorized at `now_ms` stays within range.
pub fn memorized_fits_exec(store: &ConfigStore, index: usize, now_ms: i64) -> (r: bool)
    ensures
        r == memorized_fits(store.cfg@, index, now_ms),
{
    let reviews_fit = if store.cfg.h_review_enabled {
        match store.cfg.h_review_days.checked_mul(DAY_MS) {
            Some(span) => now_ms.checked_add(span).is_some(),
            None => false,
        }
    } else {
        true
    };
    let current: usize = if store.cfg.index >= 0 {
        (store.cfg.index as u64) as usize
    } else {
        0
    };
    reviews_fit && (current != index || index < usize::MAX)
}

/// Whether marking hadith `index` memorized stays within range at every
/// instant the clock can report.
pub open spec fn memorized_fits_whenever(c: CfgView, index: usize) -> bool {
    &&& c.h_review_enabled ==> i64::MIN <= c.h_review_days * DAY_MS <= i64::MAX - crate::clock::NOW_MS_MAX
    &&& current_index(c) == index ==> index < usize::MAX
}

/// Mark hadith `index` (of `total`) memorized now.  Returns whether it was
/// done; it is not when the review time would leave the range of
/// milliseconds, and then nothing changes.  It is done whenever that cannot
/// happen at any instant the clock reports.
pub fn w_memorized_now(store: &mut ConfigStore, index: usize, total: usize) -> (done: bool)
    ensures
        done ==> exists|now_ms: i64|
            0 <= now_ms <= crate::clock::NOW_MS_MAX
            && memorized_fits(old(store).cfg@, index, now_ms)
            && final(store).cfg@ == #[trigger] memorized_cfg(old(store).cfg@, index, total, now_ms),
        !done ==> final(store).cfg@ == old(store).cfg@,
        memorized_fits_whenever(old(store).cfg@, index) ==> done,
        final(store).quran@ == old(store).quran@,
{
    let now_ms = crate::clock::utc_now_millis();
    if memorized_fits_exec(store, index, now_ms) {
        w_memorized(store, index, total, now_ms);
        true
    } else {
        false
    }
}

/// Mark hadith `index` forgotten now: it is due for review a day after the
/// instant the clock reports.  Always done (a day after any such instant is
/// in range); returns `true`.
pub fn w_forgot_now(store: &mut ConfigStore, index: usize) -> (done: bool)
    ensures
        done,
        exists|now_ms: i64|
            0 <= now_ms <= crate::clock::NOW_MS_MAX && final(store).cfg@ == #[trigger] forgot_cfg(
                old(store).cfg@,
                index,
                now_ms,
            ),
        final(store).quran@ == old(store).quran@,
{
    let now_ms = crate::clock::utc_now_millis();
    if now_ms <= i64::MAX - DAY_MS {
        w_forgot(store, index, now_ms);
        true
    } else {
        false
    }
}

/// The position after "next": one further, but not past the last hadith.
pub open spec fn next_index(index: usize, total: usize) -> usize {
    let last: int = if total < 1 {
        0
    } else {
        total - 1
    };
    if index + 1 < last {
        (index + 1) as usize
    } else {
        last as usize
    }
}

/// Move to the hadith after `index` (of `total`).
pub fn w_next(store: &mut ConfigStore, index: usize, total: usize) -> (new_index: usize)
    requires
        index < usize::MAX,
    ensures
        new_index == next_index(index, total),
        final(store).cfg@ == (CfgView { index: index_from_count(old(store).cfg@.index, new_index), ..old(store).cfg@ }),
        final(store).quran@ == old(store).quran@,
{
    let total1 = if total < 1 {
        1
    } else {
        total
    };
    let last = total1 - 1;
    let new_idx = if index + 1 < last {
        index + 1
    } else {
        last
    };
    set_index_from_count(store, new_idx);
    new_idx
}

/// Move to the hadith before `index` (staying at the first).
pub fn w_prev(store: &mut ConfigStore, index: usize) -> (new_index: usize)
    ensures
        new_index == if index == 0 {
            0
        } else {
            index - 1
        },
        final(store).cfg@ == (CfgView { index: index_from_count(old(store).cfg@.index, new_index), ..old(store).cfg@ }),
        final(store).quran@ == old(store).quran@,
{
    let new_idx = if index == 0 {
        0
    } else {
        index - 1
    };
    set_index_from_count(store, new_idx);
    new_idx
}

/// The position after moving by `delta` from `current` among `total` hadiths,
/// kept within the hadiths.
pub open spec fn advanced_index(current: i64, delta: i64, total: usize) -> int {
    let t = total as i64;
    let last: int = if t - 1 < 0 {
        0
    } else {
        t - 1
    };
    let target = current + delta;
    if target < 0 {
        0
    } else if target > last {
        last
    } else {
        target
    }
}

/// Move the current hadith by `delta`, kept within the hadiths.
pub fn advance(store: &mut ConfigStore, total: usize, delta: i64) -> (new_index: i64)
    requires
        i64::MIN <= old(store).cfg@.index + delta <= i64::MAX,
    ensures
        new_index == advanced_index(old(store).cfg@.index, delta, total),
        final(store).cfg@ == (CfgView { index: new_index, ..old(store).cfg@ }),
        final(store).quran@ == old(store).quran@,
{
    let cur = store.cfg.index;
    let t = total as i64;
    let last = if t < 1 {
        0
    } else {
        t - 1
    };
    let target = cur + delta;
    let new_idx = if target < 0 {
        0
    } else if target > last {
        last
    } else {
        target
    };
    store.cfg.index = new_idx;
    new_idx
}

/// The payload the hadith window receives once it is ready: the one prepared
/// for it, else that of the current hadith.
pub fn ready_payload(pending: Option<JsonValue>, store: &ConfigStore, data: &DataLoader) -> (r: Option<JsonValue>)
    ensures
        pending matches Some(p) ==> r == Some(p),
        pending is None ==> match r {
            Some(p) => widget_payload(data@, cfg_index(cfg_json(store.cfg@)), false, cfg_json(store.cfg@)) == Some(p@),
            None => widget_payload(data@, cfg_index(cfg_json(store.cfg@)), false, cfg_json(store.cfg@)) is None,
        },
{
    match pending {
        Some(p) => Some(p),
        None => {
            let cfg = store.cfg_get();
            let idx = cfg_index_of(&cfg);
            data.build_widget_payload(idx, false, &cfg)
        },
    }
}

/// Writing one key of the Quran store leaves every other key as it was.
pub proof fn lemma_quran_with_frame(e: Seq<(Seq<char>, JsonView)>, key: Seq<char>, v: JsonView, other: Seq<char>)
    requires
        other != key,
    ensures
        lookup(quran_with(e, key, v), other) == lookup(e, other),
{
    if crate::config::is_quran_int_key(key) {
        match v.as_i64() {
            Some(n) => crate::config::lemma_entries_put_lookup(e, key, JsonView::Number(JsonNumber::Int(n)), other),
            None => crate::config::lemma_entries_without_lookup(e, key, other),
        }
    } else if crate::config::is_quran_number_key(key) {
        match v.as_number() {
            Some(n) => crate::config::lemma_entries_put_lookup(e, key, JsonView::Number(n), other),
            None => crate::config::lemma_entries_without_lookup(e, key, other),
        }
    } else if key == "recentReadings"@ {
        match v.as_array() {
            Some(a) => crate::config::lemma_entries_put_lookup(
                e,
                key,
                JsonView::Array(crate::config::readings_of(a)),
                other,
            ),
            None => {},
        }
    } else {
        crate::config::lemma_entries_put_lookup(e, key, v, other);
    }
}

proof fn lemma_write_all_keeps(st: QuranWrite, before: JsonView, members: Seq<(Seq<char>, JsonView)>, k: Seq<char>)
    requires
        !is_allowed_key(k),
    ensures
        lookup(write_all(st, before, members).quran, k) == lookup(st.quran, k),
    decreases members.len(),
{
    if members.len() > 0 {
        lemma_write_all_keeps(st, before, members.drop_last(), k);
        let m = members.last();
        let prev = write_all(st, before, members.drop_last());
        if is_allowed_key(m.0) && before.get(m.0) != Some(m.1) {
            lemma_quran_with_frame(prev.quran, m.0, m.1, k);
        }
    }
}

/// The Quran window can only change the keys it is allowed to store: every
/// other key of the Quran store keeps its value through a write.
pub proof fn law_quran_write_keeps_other_keys(q: Seq<(Seq<char>, JsonView)>, data: JsonView, k: Seq<char>)
    requires
        !is_allowed_key(k),
    ensures
        lookup(store_write(q, data).quran, k) == lookup(q, k),
{
    let start = QuranWrite { quran: q, changed: Seq::empty(), progress: false, pause: false };
    if let JsonView::Object(o) = data {
        lemma_write_all_keeps(start, JsonView::Object(q), o, k);
    }
}

/// The hadith the windows and the tray take as current is the one the
/// memorize command compares with: the settings' index, 0 when negative.
pub proof fn law_shown_index_is_current(c: CfgView)
    ensures
        cfg_index(cfg_json(c)) == current_index(c),
{
    crate::config::lemma_cfg_key_names();
    crate::config::law_cfg_json_agrees_with_values(c, "index"@);
}

proof fn lemma_allowed_texts_allowed(a: Seq<JsonView>)
    ensures
        forall|i: int| 0 <= i < allowed_texts(a).len() ==> is_allowed_key(#[trigger] allowed_texts(a)[i]),
    decreases a.len(),
{
    if a.len() > 0 {
        lemma_allowed_texts_allowed(a.drop_last());
        let rest = allowed_texts(a.drop_last());
        let r = allowed_texts(a);
        assert forall|i: int| 0 <= i < r.len() implies is_allowed_key(#[trigger] r[i]) by {
            if i < rest.len() {
                assert(r[i] == rest[i]);
            }
        }
    }
}

proof fn lemma_remove_all_keeps(
    q: Seq<(Seq<char>, JsonView)>,
    changed: Seq<(Seq<char>, JsonView)>,
    keys: Seq<Seq<char>>,
    k: Seq<char>,
)
    requires
        forall|i: int| 0 <= i < keys.len() ==> #[trigger] keys[i] != k,
    ensures
        lookup(remove_all(q, changed, keys).0, k) == lookup(q, k),
    decreases keys.len(),
{
    if keys.len() > 0 {
        let d = keys.drop_last();
        assert forall|i: int| 0 <= i < d.len() implies #[trigger] d[i] != k by {
            assert(d[i] == keys[i]);
        }
        lemma_remove_all_keeps(q, changed, d, k);
        let q1 = remove_all(q, changed, d).0;
        assert(keys[keys.len() - 1] != k);
        crate::config::lemma_entries_without_lookup(q1, keys.last(), k);
    }
}

/// A removal request can only remove the keys the Quran window is allowed to
/// store: every other key keeps its value.
pub proof fn law_quran_remove_keeps_other_keys(q: Seq<(Seq<char>, JsonView)>, keys: JsonView, k: Seq<char>)
    requires
        !is_allowed_key(k),
    ensures
        lookup(remove_all(q, Seq::empty(), removal_keys(keys)).0, k) == lookup(q, k),
{
    let r = removal_keys(keys);
    if let JsonView::Array(a) = keys {
        lemma_allowed_texts_allowed(a);
    }
    assert forall|i: int| 0 <= i < r.len() implies #[trigger] r[i] != k by {
        assert(is_allowed_key(r[i]));
    }
    lemma_remove_all_keeps(q, Seq::empty(), r, k);
}

/// Every key of the notices is allowed.
pub open spec fn notices_allowed(c: Seq<(Seq<char>, JsonView)>) -> bool {
    forall|i: int| 0 <= i < c.len() ==> is_allowed_key(#[trigger] c[i].0)
}

proof fn lemma_write_all_notices(st: QuranWrite, before: JsonView, members: Seq<(Seq<char>, JsonView)>)
    requires
        notices_allowed(st.changed),
    ensures
        notices_allowed(write_all(st, before, members).changed),
    decreases members.len(),
{
    if members.len() > 0 {
        lemma_write_all_notices(st, before, members.drop_last());
        let prev = write_all(st, before, members.drop_last());
        let m = members.last();
        if is_allowed_key(m.0) && before.get(m.0) != Some(m.1) {
            let c = prev.changed;
            let p = entries_put(c, m.0, new_value(m.1));
            crate::json::lemma_first_key_index(c, m.0);
            assert forall|i: int| 0 <= i < p.len() implies is_allowed_key(#[trigger] p[i].0) by {
                if i < c.len() {
                    if p[i] != c[i] {
                        assert(p[i].0 == m.0);
                    }
                } else {
                    assert(p[i].0 == m.0);
                }
            }
        }
    }
}

/// A write to the Quran store gives change notices for allowed keys only:
/// a key outside the whitelist is neither written nor announced; data that
/// is not an object writes and announces nothing.
pub proof fn law_quran_notices_only_allowed(q: Seq<(Seq<char>, JsonView)>, data: JsonView)
    ensures
        notices_allowed(store_write(q, data).changed),
        !(data is Object) ==> store_write(q, data).quran == q && store_write(q, data).changed.len() == 0
            && !store_write(q, data).progress && !store_write(q, data).pause,
{
    let start = QuranWrite { quran: q, changed: Seq::empty(), progress: false, pause: false };
    if let JsonView::Object(o) = data {
        lemma_write_all_notices(start, JsonView::Object(q), o);
    }
}

/// Saving the settings form stores what the form carries, read straight from
/// its members: each switch (`hReviewEnabled`, `autoLaunch`) as given, off
/// when missing; each text (font and colours) as given, else the current one;
/// the interval (at least 1, 30 when missing), the font size (within 12..=72,
/// 17 when missing) and the review days (at least 1, 7 when missing) from
/// their numbers; the dark theme only when `theme` is `"dark"`; the mode by
/// its name (sequential when missing); the position, the first-run flag and
/// the reviews stay as they were.
pub proof fn law_saved_form(c: CfgView, p: JsonView, b: bool, n: i64, t: Seq<char>)
    ensures
        p.get("hReviewEnabled"@) == Some(JsonView::Bool(b)) ==> saved_cfg(c, p).h_review_enabled == b,
        p.get("hReviewEnabled"@) is None ==> !saved_cfg(c, p).h_review_enabled,
        p.get("autoLaunch"@) == Some(JsonView::Bool(b)) ==> saved_cfg(c, p).auto_launch == b,
        p.get("autoLaunch"@) is None ==> !saved_cfg(c, p).auto_launch,
        p.get("interval"@) == Some(JsonView::Number(JsonNumber::Int(n))) ==> saved_cfg(c, p).interval == (if n < 1 {
            1
        } else {
            n
        }),
        p.get("interval"@) is None ==> saved_cfg(c, p).interval == 30,
        p.get("fontSize"@) == Some(JsonView::Number(JsonNumber::Int(n))) ==> saved_cfg(c, p).font_size == (if n < 12 {
            12
        } else if n > 72 {
            72
        } else {
            n
        }),
        p.get("fontSize"@) is None ==> saved_cfg(c, p).font_size == 17,
        p.get("hReviewDays"@) == Some(JsonView::Number(JsonNumber::Int(n))) ==> saved_cfg(c, p).h_review_days == (
        if n < 1 {
            1
        } else {
            n
        }),
        p.get("hReviewDays"@) is None ==> saved_cfg(c, p).h_review_days == 7,
        p.get("fontFamily"@) == Some(JsonView::Str(t)) ==> saved_cfg(c, p).font_family == t,
        p.get("fontFamily"@) is None ==> saved_cfg(c, p).font_family == c.font_family,
        p.get("cSanad"@) == Some(JsonView::Str(t)) ==> saved_cfg(c, p).c_sanad == t,
        p.get("cSanad"@) is None ==> saved_cfg(c, p).c_sanad == c.c_sanad,
        p.get("cMatn"@) == Some(JsonView::Str(t)) ==> saved_cfg(c, p).c_matn == t,
        p.get("cMatn"@) is None ==> saved_cfg(c, p).c_matn == c.c_matn,
        p.get("cTakhrij"@) == Some(JsonView::Str(t)) ==> saved_cfg(c, p).c_takhrij == t,
        p.get("cTakhrij"@) is None ==> saved_cfg(c, p).c_takhrij == c.c_takhrij,
        p.get("cSharh"@) == Some(JsonView::Str(t)) ==> saved_cfg(c, p).c_sharh == t,
        p.get("cSharh"@) is None ==> saved_cfg(c, p).c_sharh == c.c_sharh,
        p.get("theme"@) == Some(JsonView::Str("dark"@)) ==> saved_cfg(c, p).theme == Theme::Dark,
        p.get("theme"@) == Some(JsonView::Str(t)) && t != "dark"@ ==> saved_cfg(c, p).theme == Theme::Light,
        p.get("theme"@) is None ==> saved_cfg(c, p).theme == Theme::Light,
        p.get("appMode"@) == Some(JsonView::Str("both"@)) ==> saved_cfg(c, p).app_mode == AppMode::Both,
        p.get("appMode"@) == Some(JsonView::Str("quranOnly"@)) ==> saved_cfg(c, p).app_mode == AppMode::QuranOnly,
        p.get("appMode"@) == Some(JsonView::Str("hadithOnly"@)) ==> saved_cfg(c, p).app_mode == AppMode::HadithOnly,
        p.get("appMode"@) == Some(JsonView::Str("alternating"@)) ==> saved_cfg(c, p).app_mode == AppMode::Alternating,
        p.get("appMode"@) is None ==> saved_cfg(c, p).app_mode == AppMode::Sequential,
        saved_cfg(c, p).index == c.index,
        saved_cfg(c, p).first_run == c.first_run,
        saved_cfg(c, p).h_reviews == c.h_reviews,
        saved_cfg(c, p).widget_x == c.widget_x && saved_cfg(c, p).widget_y == c.widget_y,
        saved_cfg(c, p).widget_w == c.widget_w && saved_cfg(c, p).widget_h == c.widget_h,
{
    reveal_strlit("hadithOnly");
    reveal_strlit("quranOnly");
    reveal_strlit("both");
    reveal_strlit("alternating");
    reveal_strlit("sequential");
    reveal_strlit("dark");
    reveal_strlit("light");
    assert("sequential"@[0] != "hadithOnly"@[0]);
    assert("light"@.len() != "dark"@.len());
    assert("both"@.len() != "alternating"@.len());
    assert("quranOnly"@.len() != "alternating"@.len());
    assert("quranOnly"@.len() != "both"@.len());
    assert(mode_from_name("both"@) == AppMode::Both);
    assert(mode_from_name("quranOnly"@) == AppMode::QuranOnly);
}

/// Whether an object has a member with key `k`.
pub open spec fn has_member(o: Seq<(Seq<char>, JsonView)>, k: Seq<char>) -> bool {
    exists|j: int| 0 <= j < o.len() && #[trigger] o[j].0 == k
}

proof fn lemma_defaults_read(q: Seq<(Seq<char>, JsonView)>, o: Seq<(Seq<char>, JsonView)>, k: Seq<char>)
    ensures
        has_member(o, k) && lookup(q, k) is Some ==> lookup(select_with_defaults(JsonView::Object(q), o), k) == lookup(q, k),
        has_member(o, k) && lookup(q, k) is None ==> exists|j: int|
            0 <= j < o.len() && #[trigger] o[j].0 == k && lookup(select_with_defaults(JsonView::Object(q), o), k)
                == Some(o[j].1),
        !has_member(o, k) ==> lookup(select_with_defaults(JsonView::Object(q), o), k) is None,
    decreases o.len(),
{
    let r = select_with_defaults(JsonView::Object(q), o);
    if o.len() == 0 {
        crate::json::lemma_first_key_index(r, k);
    } else {
        let d = o.drop_last();
        let last = o.last();
        lemma_defaults_read(q, d, k);
        let rest = select_with_defaults(JsonView::Object(q), d);
        let val = match JsonView::Object(q).get(last.0) {
            Some(v) => v,
            None => last.1,
        };
        crate::config::lemma_entries_put_lookup(rest, last.0, val, k);
        assert(o[o.len() - 1] == last);
        if last.0 != k {
            if has_member(o, k) {
                let j = choose|j: int| 0 <= j < o.len() && #[trigger] o[j].0 == k;
                assert(d[j] == o[j]);
                assert(has_member(d, k));
            }
            if has_member(d, k) {
                let j = choose|j: int| 0 <= j < d.len() && #[trigger] d[j].0 == k;
                assert(o[j] == d[j]);
            }
            if has_member(d, k) && lookup(q, k) is None {
                let j = choose|j: int|
                    0 <= j < d.len() && #[trigger] d[j].0 == k && lookup(rest, k) == Some(d[j].1);
                assert(o[j] == d[j]);
            }
        }
    }
}

/// A read with an object of defaults answers, for each key of the object,
/// the stored member when the Quran store has that key, and one of the
/// object's values for it only when the store lacks it; keys the object does
/// not name are not answered.
pub proof fn law_read_with_defaults(q: Seq<(Seq<char>, JsonView)>, o: Seq<(Seq<char>, JsonView)>, k: Seq<char>)
    ensures
        has_member(o, k) && lookup(q, k) is Some ==> store_get(JsonView::Object(q), JsonView::Object(o)).get(k)
            == lookup(q, k),
        has_member(o, k) && lookup(q, k) is None ==> exists|j: int|
            0 <= j < o.len() && #[trigger] o[j].0 == k && store_get(JsonView::Object(q), JsonView::Object(o)).get(k)
                == Some(o[j].1),
        !has_member(o, k) ==> store_get(JsonView::Object(q), JsonView::Object(o)).get(k) is None,
{
    lemma_defaults_read(q, o, k);
}

} // verus!
