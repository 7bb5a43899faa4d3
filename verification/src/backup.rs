//! Backing the settings up into one document and restoring them from one.
use vstd::prelude::*;
use crate::json::{JsonNumber, JsonValue, JsonView, first_key_index, lemma_first_key_index, lemma_view_entries, view_entries};
use crate::config::{
    CfgView, ConfigStore, cfg_json, cfg_with, cfg_with_all, defaults, defaults_json, entries_put, int_members,
    member, int_json, quran_with_all, reviews_json,
};

use crate::clock::{SECS_LIMIT, system_time_since_epoch};

verus! {

/// What `DateTime::to_rfc3339` gives for the UTC instant of the given
/// seconds and nanoseconds since the epoch.
pub uninterp spec fn rfc3339_text(secs: i64, nanos: u32) -> Seq<char>;

/// `chrono::DateTime::from_timestamp` (UTC) rendered by
/// `DateTime::to_rfc3339`: the RFC 3339 text of the instant.  chrono returns
/// `None` only outside the dates it represents, so every instant from the
/// epoch to `SECS_LIMIT` seconds is rendered.
#[verifier::external_body]
fn rfc3339_of(secs: i64, nanos: u32) -> (r: Option<String>)
    requires
        nanos < 1000000000,
    ensures
        r matches Some(t) ==> t@ == rfc3339_text(secs, nanos),
        0 <= secs <= SECS_LIMIT ==> r is Some,
{
    match chrono::DateTime::from_timestamp(secs, nanos) {
        Some(t) => Some(t.to_rfc3339()),
        None => None,
    }
}

/// Whether `t` is the RFC 3339 text of an instant the clock can report.
pub open spec fn is_clock_text(t: Seq<char>) -> bool {
    exists|secs: i64, nanos: u32|
        0 <= secs <= SECS_LIMIT && nanos < 1000000000 && t == #[trigger] rfc3339_text(secs, nanos)
}

/// The current time as RFC 3339 text; a system clock set before the epoch,
/// or past `SECS_LIMIT` seconds, reads as the epoch.
fn utc_now_rfc3339() -> (r: String)
    ensures
        is_clock_text(r@),
{
    let (secs, nanos): (i64, u32) = match system_time_since_epoch() {
        Some((s, n)) => if s <= SECS_LIMIT {
            (s as i64, n)
        } else {
            (0, 0)
        },
        None => (0, 0),
    };
    match rfc3339_of(secs, nanos) {
        Some(t) => t,
        None => {
            assert(false);
            String::new()
        },
    }
}

/// The backup document of the settings, stamped with `date`.
pub open spec fn backup_json(c: CfgView, q: Seq<(Seq<char>, JsonView)>, date: Seq<char>) -> JsonView {
    JsonView::Object(
        seq![
            ("version"@, JsonView::Number(JsonNumber::Int(2))),
            ("date"@, JsonView::Str(date)),
            ("cfg"@, cfg_json(c)),
            ("quran"@, JsonView::Object(q)),
        ],
    )
}

/// The backup document of both stores, stamped with `date`.
pub fn backup_document(store: &ConfigStore, date: String) -> (r: JsonValue)
    ensures
        r@ == backup_json(store.cfg@, store.quran@, date@),
{
    let mut e: Vec<(String, JsonValue)> = Vec::new();
    e.push(member("version", int_json(2)));
    e.push(member("date", JsonValue::Str(date)));
    e.push(member("cfg", store.cfg_get()));
    e.push(member("quran", store.quran_get()));
    proof {
        lemma_view_entries(e@);
        assert(view_entries(e@) =~= backup_json(store.cfg@, store.quran@, date@)->Object_0);
    }
    JsonValue::Object(e)
}

/// The backup document of both stores, stamped with the current time.
pub fn backup_now(store: &ConfigStore) -> (r: JsonValue)
    ensures
        exists|date: Seq<char>| is_clock_text(date) && r@ == backup_json(store.cfg@, store.quran@, date),
{
    let date = utc_now_rfc3339();
    backup_document(store, date)
}

/// Why a restore was refused.
#[derive(Clone, Copy, Debug, PartialEq, Eq, Structural)]
pub enum RestoreError {
    /// The settings of the document have no numeric `index`.
    InvalidFileFormat,
}

/// What a successful restore leaves to do: apply the start-with-session
/// preference, and whether Quran settings were restored.
pub struct RestoreOutcome {
    pub auto_launch: bool,
    pub quran_restored: bool,
}

/// The settings part of a document: its `cfg` member, else the whole document.
pub open spec fn restore_payload(parsed: JsonView) -> JsonView {
    match parsed.get("cfg"@) {
        Some(v) => v,
        None => parsed,
    }
}

/// Whether a document can be restored: its settings hold a numeric `index`.
pub open spec fn restore_valid(parsed: JsonView) -> bool {
    restore_payload(parsed).get("index"@) matches Some(JsonView::Number(_))
}

/// Each member stored in turn.
pub open spec fn put_all(base: Seq<(Seq<char>, JsonView)>, members: Seq<(Seq<char>, JsonView)>) -> Seq<(Seq<char>, JsonView)>
    decreases members.len(),
{
    if members.len() == 0 {
        base
    } else {
        let m = members.last();
        entries_put(put_all(base, members.drop_last()), m.0, m.1)
    }
}

/// The defaults overlaid with the members of the settings part.
pub open spec fn restored_members(payload: JsonView) -> Seq<(Seq<char>, JsonView)> {
    match payload {
        JsonView::Object(o) => put_all(defaults_json()->Object_0, o),
        _ => defaults_json()->Object_0,
    }
}

/// The settings after a restore: the defaults overlaid with the document's
/// settings, written member by member.
pub open spec fn restored_cfg(c: CfgView, parsed: JsonView) -> CfgView {
    cfg_with_all(c, restored_members(restore_payload(parsed)))
}

/// The Quran store after a restore: when the document holds Quran settings,
/// the store is emptied and the document's Quran members are written in;
/// otherwise it is left as it was.
pub open spec fn restored_quran(q: Seq<(Seq<char>, JsonView)>, parsed: JsonView) -> Seq<(Seq<char>, JsonView)> {
    match parsed.get("quran"@) {
        Some(JsonView::Object(o)) => quran_with_all(Seq::empty(), o),
        _ => q,
    }
}

/// Restore both stores from a parsed backup document.  Refused, changing
/// nothing, when the settings part has no numeric `index`.
pub fn restore_backup(store: &mut ConfigStore, parsed: &JsonValue) -> (r: Result<RestoreOutcome, RestoreError>)
    ensures
        !restore_valid(parsed@) ==> r == Err::<RestoreOutcome, RestoreError>(RestoreError::InvalidFileFormat)
            && final(store).cfg@ == old(store).cfg@ && final(store).quran@ == old(store).quran@,
        restore_valid(parsed@) ==> (r matches Ok(o) && {
            &&& final(store).cfg@ == restored_cfg(old(store).cfg@, parsed@)
            &&& final(store).quran@ == restored_quran(old(store).quran@, parsed@)
            &&& o.auto_launch == final(store).cfg@.auto_launch
            &&& o.quran_restored == (parsed@.get("quran"@) matches Some(JsonView::Object(_)))
        }),
        crate::config::quran_normal(old(store).quran@) ==> crate::config::quran_normal(final(store).quran@),
{
    let payload = match parsed.get("cfg") {
        Some(v) => v,
        None => parsed,
    };
    let valid = match payload.get("index") {
        Some(v) => v.is_number(),
        None => false,
    };
    if !valid {
        return Err(RestoreError::InvalidFileFormat);
    }
    let merged = defaults();
    let mut entries = match merged {
        JsonValue::Object(e) => e,
        _ => {
            assert(false);
            Vec::new()
        },
    };
    if let Some(o) = payload.as_object() {
        proof {
            lemma_view_entries(o@);
        }
        let ghost vo = view_entries(o@);
        let ghost base = defaults_json()->Object_0;
        let mut i: usize = 0;
        while i < o.len()
            invariant
                i <= o.len(),
                vo == view_entries(o@),
                vo.len() == o@.len(),
                forall|j: int| 0 <= j < o@.len() ==> #[trigger] vo[j] == (o@[j].0@, o@[j].1@),
                base == defaults_json()->Object_0,
                view_entries(entries@) == put_all(base, vo.take(i as int)),
            decreases o.len() - i,
        {
            assert(vo.take(i + 1).drop_last() =~= vo.take(i as int));
            crate::ipc::put_entry(&mut entries, o[i].0.as_str(), o[i].1.deep_clone());
            i = i + 1;
        }
        assert(vo.take(o.len() as int) =~= vo);
    }
    let merged = JsonValue::Object(entries);
    store.cfg_update(&merged);
    let auto_launch = store.cfg.auto_launch;
    let mut quran_restored = false;
    if let Some(JsonValue::Object(_)) = parsed.get("quran") {
        if let Some(q) = parsed.get("quran") {
            store.quran_clear();
            store.quran_update(q);
            quran_restored = true;
        }
    }
    Ok(RestoreOutcome { auto_launch, quran_restored })
}


/// Storing, in order, members whose keys are those of `base` (each once)
/// yields exactly those members.
pub proof fn lemma_put_all_same_keys(base: Seq<(Seq<char>, JsonView)>, src: Seq<(Seq<char>, JsonView)>, j: int)
    requires
        base.len() == src.len(),
        forall|i: int| 0 <= i < src.len() ==> #[trigger] base[i].0 == src[i].0,
        forall|a: int, b: int| 0 <= a < b < src.len() ==> #[trigger] src[a].0 != #[trigger] src[b].0,
        0 <= j <= src.len(),
    ensures
        put_all(base, src.take(j)) == src.take(j) + base.skip(j),
    decreases j,
{
    if j == 0 {
        assert(src.take(0) =~= Seq::<(Seq<char>, JsonView)>::empty());
        assert(base.skip(0) =~= base);
        assert(Seq::<(Seq<char>, JsonView)>::empty() + base =~= base);
    } else {
        lemma_put_all_same_keys(base, src, j - 1);
        assert(src.take(j).drop_last() =~= src.take(j - 1));
        let cur = src.take(j - 1) + base.skip(j - 1);
        let k = src[j - 1].0;
        assert(cur[j - 1] == base[j - 1]);
        assert forall|i: int| 0 <= i < j - 1 implies #[trigger] cur[i].0 != k by {
            assert(cur[i] == src[i]);
        }
        crate::json::lemma_first_key_at(cur, k, j - 1);
        assert(cur.update(j - 1, (k, src[j - 1].1)) =~= src.take(j) + base.skip(j));
    }
}

/// Reading back the review times from their JSON form gives them unchanged.
pub proof fn lemma_reviews_round_trip(r: Seq<(Seq<char>, i64)>)
    ensures
        int_members(reviews_json(r)->Object_0) == r,
    decreases r.len(),
{
    if r.len() > 0 {
        lemma_reviews_round_trip(r.drop_last());
        assert(reviews_json(r)->Object_0.drop_last() =~= reviews_json(r.drop_last())->Object_0);
        assert(r.drop_last().push(r.last()) =~= r);
    } else {
        assert(reviews_json(r)->Object_0 =~= Seq::<(Seq<char>, JsonView)>::empty());
    }
}

/// Writing one more member extends the writes of the members before it.
proof fn lemma_write_one_more(c0: CfgView, e: Seq<(Seq<char>, JsonView)>, k: int)
    requires
        0 < k <= e.len(),
    ensures
        cfg_with_all(c0, e.take(k)) == cfg_with(cfg_with_all(c0, e.take(k - 1)), e[k - 1].0, e[k - 1].1),
{
    assert(e.take(k).drop_last() =~= e.take(k - 1));
}

/// Writing the settings object of `c` member by member over any settings gives `c`.
#[verifier::rlimit(80)]
pub proof fn lemma_write_back_settings(c0: CfgView, c: CfgView)
    ensures
        cfg_with_all(c0, cfg_json(c)->Object_0) == c,
{
    crate::config::lemma_cfg_key_names();
    crate::config::lemma_theme_name_round_trip(c.theme);
    crate::config::lemma_mode_name_round_trip(c.app_mode);
    lemma_reviews_round_trip(c.h_reviews);
    let e = cfg_json(c)->Object_0;
    assert(e.take(0) =~= Seq::<(Seq<char>, JsonView)>::empty());
    lemma_write_one_more(c0, e, 1);
    lemma_write_one_more(c0, e, 2);
    lemma_write_one_more(c0, e, 3);
    lemma_write_one_more(c0, e, 4);
    lemma_write_one_more(c0, e, 5);
    lemma_write_one_more(c0, e, 6);
    lemma_write_one_more(c0, e, 7);
    lemma_write_one_more(c0, e, 8);
    lemma_write_one_more(c0, e, 9);
    lemma_write_one_more(c0, e, 10);
    lemma_write_one_more(c0, e, 11);
    lemma_write_one_more(c0, e, 12);
    lemma_write_one_more(c0, e, 13);
    lemma_write_one_more(c0, e, 14);
    lemma_write_one_more(c0, e, 15);
    lemma_write_one_more(c0, e, 16);
    lemma_write_one_more(c0, e, 17);
    lemma_write_one_more(c0, e, 18);
    lemma_write_one_more(c0, e, 19);
    assert(e.take(19) =~= e);
    let r = cfg_with_all(c0, e);
    assert(r.h_reviews == c.h_reviews);
    assert(r =~= c);
}

/// Restoring a backup brings back exactly the settings that were backed up,
/// whatever the settings were before: the hadith settings always, and the
/// Quran store whenever it is in the shape the store's own writes leave it
/// (which every store built by those writes is).
pub proof fn law_restore_undoes_backup(
    c0: CfgView,
    q0: Seq<(Seq<char>, JsonView)>,
    c: CfgView,
    q: Seq<(Seq<char>, JsonView)>,
    date: Seq<char>,
)
    ensures
        restore_valid(backup_json(c, q, date)),
        restored_cfg(c0, backup_json(c, q, date)) == c,
        crate::config::quran_normal(q) ==> restored_quran(q0, backup_json(c, q, date)) == q,
{
    reveal_strlit("version");
    reveal_strlit("date");
    reveal_strlit("cfg");
    reveal_strlit("quran");
    let doc = backup_json(c, q, date);
    let top = doc->Object_0;
    assert("cfg"@[0] != "version"@[0]);
    assert("cfg"@[0] != "date"@[0]);
    crate::json::lemma_first_key_at(top, "cfg"@, 2);
    assert("quran"@[0] != "version"@[0]);
    assert("quran"@[0] != "date"@[0]);
    assert("quran"@[0] != "cfg"@[0]);
    crate::json::lemma_first_key_at(top, "quran"@, 3);
    assert(restore_payload(doc) == cfg_json(c));
    crate::config::lemma_cfg_key_names();
    crate::config::law_cfg_json_agrees_with_values(c, "index"@);
    let e = cfg_json(c)->Object_0;
    let base = defaults_json()->Object_0;
    assert forall|a: int, b: int| 0 <= a < b < e.len() implies #[trigger] e[a].0 != #[trigger] e[b].0 by {
        assert(crate::config::cfg_key(e[a].0) != crate::config::cfg_key(e[b].0));
    }
    lemma_put_all_same_keys(base, e, 19);
    assert(e.take(19) =~= e);
    assert(e + base.skip(19) =~= e);
    lemma_write_back_settings(c0, c);
    if crate::config::quran_normal(q) {
        crate::config::lemma_rebuild_quran(q);
    }
}

/// Merging one more member extends the merge of the members before it.
proof fn lemma_merge_one_more(c0: CfgView, e: Seq<(Seq<char>, JsonView)>, k: int)
    requires
        0 < k <= e.len(),
    ensures
        crate::config::cfg_merged_all(c0, e.take(k)) == crate::config::cfg_merged(
            crate::config::cfg_merged_all(c0, e.take(k - 1)),
            e[k - 1].0,
            e[k - 1].1,
        ),
{
    assert(e.take(k).drop_last() =~= e.take(k - 1));
}

/// Saved settings load back unchanged: merging the settings object of `c`
/// (what is saved) on top of the defaults (what loading does) gives `c`.
#[verifier::rlimit(80)]
pub proof fn law_saved_settings_load_back(c: CfgView)
    ensures
        crate::config::cfg_merged_all(crate::config::default_cfg(), cfg_json(c)->Object_0) == c,
{
    crate::config::lemma_cfg_key_names();
    crate::config::lemma_theme_name_round_trip(c.theme);
    crate::config::lemma_mode_name_round_trip(c.app_mode);
    lemma_reviews_round_trip(c.h_reviews);
    let d = crate::config::default_cfg();
    let e = cfg_json(c)->Object_0;
    assert(e.take(0) =~= Seq::<(Seq<char>, JsonView)>::empty());
    lemma_merge_one_more(d, e, 1);
    lemma_merge_one_more(d, e, 2);
    lemma_merge_one_more(d, e, 3);
    lemma_merge_one_more(d, e, 4);
    lemma_merge_one_more(d, e, 5);
    lemma_merge_one_more(d, e, 6);
    lemma_merge_one_more(d, e, 7);
    lemma_merge_one_more(d, e, 8);
    lemma_merge_one_more(d, e, 9);
    lemma_merge_one_more(d, e, 10);
    lemma_merge_one_more(d, e, 11);
    lemma_merge_one_more(d, e, 12);
    lemma_merge_one_more(d, e, 13);
    lemma_merge_one_more(d, e, 14);
    lemma_merge_one_more(d, e, 15);
    lemma_merge_one_more(d, e, 16);
    lemma_merge_one_more(d, e, 17);
    lemma_merge_one_more(d, e, 18);
    lemma_merge_one_more(d, e, 19);
    assert(e.take(19) =~= e);
    let r = crate::config::cfg_merged_all(d, e);
    assert(r.h_reviews == c.h_reviews);
    assert(r =~= c);
}

} // verus!
