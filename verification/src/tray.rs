//! The tray menu: its entries, the hadith position it names, and what each
//! of its items asks for.
use vstd::prelude::*;
use crate::config::ConfigStore;
use crate::text::{decimal, text_eq, usize_text};
use crate::windows::{cfg_index, cfg_index_of};
use crate::config::cfg_json;

verus! {

pub const ID_SHOW_QURAN: &'static str = "tray.show_quran";
pub const ID_HIDE_QURAN: &'static str = "tray.hide_quran";
pub const ID_SHOW_HADITH: &'static str = "tray.show_hadith";
pub const ID_NEXT_HADITH: &'static str = "tray.next_hadith";
pub const ID_PREV_HADITH: &'static str = "tray.prev_hadith";
pub const ID_OPEN_SETTINGS: &'static str = "tray.open_settings";
pub const ID_QUIT: &'static str = "tray.quit";

/// What a tray menu item asks the application to do.
#[derive(Clone, Copy, Debug, PartialEq, Eq, Structural)]
pub enum TrayAction {
    ShowQuran,
    HideQuran,
    ShowHadith,
    NextHadith,
    PrevHadith,
    OpenSettings,
    Quit,
}

/// The action of the menu item with the given id; other ids do nothing.
pub open spec fn action_of(id: Seq<char>) -> Option<TrayAction> {
    if id == ID_SHOW_QURAN@ {
        Some(TrayAction::ShowQuran)
    } else if id == ID_HIDE_QURAN@ {
        Some(TrayAction::HideQuran)
    } else if id == ID_SHOW_HADITH@ {
        Some(TrayAction::ShowHadith)
    } else if id == ID_NEXT_HADITH@ {
        Some(TrayAction::NextHadith)
    } else if id == ID_PREV_HADITH@ {
        Some(TrayAction::PrevHadith)
    } else if id == ID_OPEN_SETTINGS@ {
        Some(TrayAction::OpenSettings)
    } else if id == ID_QUIT@ {
        Some(TrayAction::Quit)
    } else {
        None
    }
}

/// The action of a menu event.
pub fn menu_action(id: &str) -> (r: Option<TrayAction>)
    ensures
        r == action_of(id@),
{
    if text_eq(id, ID_SHOW_QURAN) {
        Some(TrayAction::ShowQuran)
    } else if text_eq(id, ID_HIDE_QURAN) {
        Some(TrayAction::HideQuran)
    } else if text_eq(id, ID_SHOW_HADITH) {
        Some(TrayAction::ShowHadith)
    } else if text_eq(id, ID_NEXT_HADITH) {
        Some(TrayAction::NextHadith)
    } else if text_eq(id, ID_PREV_HADITH) {
        Some(TrayAction::PrevHadith)
    } else if text_eq(id, ID_OPEN_SETTINGS) {
        Some(TrayAction::OpenSettings)
    } else if text_eq(id, ID_QUIT) {
        Some(TrayAction::Quit)
    } else {
        None
    }
}

/// The number of hadiths the menu counts: at least one.
pub open spec fn menu_total(hadith_count: nat) -> nat {
    if hadith_count == 0 {
        1
    } else {
        hadith_count
    }
}

/// The one-based position the menu shows for the current index, capped at the total.
pub open spec fn menu_position(index: nat, total: nat) -> nat {
    if index + 1 <= total {
        index + 1
    } else {
        total
    }
}

/// The position (one-based) and the total the tray menu shows for the
/// current hadith of the settings.
pub fn tray_position(store: &ConfigStore, hadith_count: usize) -> (r: (usize, usize))
    ensures
        r.1 == menu_total(hadith_count as nat),
        r.0 == menu_position(cfg_index(cfg_json(store.cfg@)) as nat, r.1 as nat),
        1 <= r.0 <= r.1,
{
    let total: usize = if hadith_count == 0 {
        1
    } else {
        hadith_count
    };
    let idx = cfg_index_of(&store.cfg_get());
    let shown = if idx < total {
        idx + 1
    } else {
        total
    };
    (shown, total)
}

/// The label of the hadith section of the menu.
pub open spec fn hadith_label(position: nat, total: nat) -> Seq<char> {
    "الأحاديث - الحديث "@ + decimal(position) + " / "@ + decimal(total)
}

pub fn hadith_label_text(position: usize, total: usize) -> (r: String)
    ensures
        r@ == hadith_label(position as nat, total as nat),
{
    let mut out = String::from_str("الأحاديث - الحديث ");
    let p = usize_text(position);
    out.append(p.as_str());
    out.append(" / ");
    let t = usize_text(total);
    out.append(t.as_str());
    out
}

/// One entry of the tray menu.
pub enum TrayEntry {
    Item { id: String, label: String, enabled: bool },
    Separator,
}

pub enum TrayEntryView {
    Item { id: Seq<char>, label: Seq<char>, enabled: bool },
    Separator,
}

impl View for TrayEntry {
    type V = TrayEntryView;

    open spec fn view(&self) -> TrayEntryView {
        match self {
            TrayEntry::Item { id, label, enabled } => TrayEntryView::Item {
                id: id@,
                label: label@,
                enabled: *enabled,
            },
            TrayEntry::Separator => TrayEntryView::Separator,
        }
    }
}

pub open spec fn entry_views(s: Seq<TrayEntry>) -> Seq<TrayEntryView> {
    Seq::new(s.len(), |i: int| s[i]@)
}

pub open spec fn item(id: Seq<char>, label: Seq<char>, enabled: bool) -> TrayEntryView {
    TrayEntryView::Item { id, label, enabled }
}

/// The tray menu for a hadith position and total, top to bottom.
pub open spec fn tray_menu(position: nat, total: nat) -> Seq<TrayEntryView> {
    seq![
        item("tray.header"@, "زاد المسلم - رفيقك اليومي"@, false),
        TrayEntryView::Separator,
        item("tray.q_label"@, "القرآن الكريم"@, false),
        item(ID_SHOW_QURAN@, "عرض نافذة القرآن"@, true),
        item(ID_HIDE_QURAN@, "إخفاء نافذة القرآن"@, true),
        TrayEntryView::Separator,
        item("tray.h_label"@, hadith_label(position, total), false),
        item(ID_SHOW_HADITH@, "عرض الحديث الآن"@, true),
        item(ID_NEXT_HADITH@, "الحديث التالي"@, true),
        item(ID_PREV_HADITH@, "الحديث السابق"@, true),
        TrayEntryView::Separator,
        item(ID_OPEN_SETTINGS@, "الإعدادات"@, true),
        TrayEntryView::Separator,
        item(ID_QUIT@, "إغلاق"@, true),
    ]
}

fn menu_item(id: &str, label: &str, enabled: bool) -> (r: TrayEntry)
    ensures
        r@ == item(id@, label@, enabled),
{
    TrayEntry::Item { id: String::from_str(id), label: String::from_str(label), enabled }
}

/// The entries of the tray menu for the current settings and the number of
/// hadiths loaded.
pub fn build_menu(store: &ConfigStore, hadith_count: usize) -> (r: Vec<TrayEntry>)
    ensures
        entry_views(r@) == tray_menu(
            menu_position(cfg_index(cfg_json(store.cfg@)) as nat, menu_total(hadith_count as nat)),
            menu_total(hadith_count as nat),
        ),
{
    let (position, total) = tray_position(store, hadith_count);
    let mut v: Vec<TrayEntry> = Vec::new();
    v.push(menu_item("tray.header", "زاد المسلم - رفيقك اليومي", false));
    v.push(TrayEntry::Separator);
    v.push(menu_item("tray.q_label", "القرآن الكريم", false));
    v.push(menu_item(ID_SHOW_QURAN, "عرض نافذة القرآن", true));
    v.push(menu_item(ID_HIDE_QURAN, "إخفاء نافذة القرآن", true));
    v.push(TrayEntry::Separator);
    let label = hadith_label_text(position, total);
    v.push(TrayEntry::Item { id: String::from_str("tray.h_label"), label, enabled: false });
    v.push(menu_item(ID_SHOW_HADITH, "عرض الحديث الآن", true));
    v.push(menu_item(ID_NEXT_HADITH, "الحديث التالي", true));
    v.push(menu_item(ID_PREV_HADITH, "الحديث السابق", true));
    v.push(TrayEntry::Separator);
    v.push(menu_item(ID_OPEN_SETTINGS, "الإعدادات", true));
    v.push(TrayEntry::Separator);
    v.push(menu_item(ID_QUIT, "إغلاق", true));
    assert(entry_views(v@) =~= tray_menu(position as nat, total as nat));
    v
}

} // verus!
