//! The catalogue of hadiths and Quran pages: loading the parsed data files,
//! searching the hadiths and assembling what the windows display.
use vstd::prelude::*;
use crate::json::{
    JsonNumber, JsonValue, JsonView, lemma_view_entries, lemma_view_values, view_entries, view_value,
    view_values,
};
use crate::text::{
    chars_of, contains_chars, has_infix, join_texts, joined, lowercase, prefix_text, text_eq, texts,
    to_lowercase, trim_text, trimmed,
};

verus! {

/// A search result.
pub struct SearchHit {
    pub index: usize,
    pub preview: String,
    pub narrator: String,
    pub chapter: String,
}

/// The text of one Quran page.
pub struct PageAyahs {
    pub surah_title: String,
    pub ayah_text_html: String,
    pub first_ayah_html: String,
}

impl Default for PageAyahs {
    fn default() -> (r: PageAyahs)
        ensures
            r.surah_title@ == Seq::<char>::empty(),
            r.ayah_text_html@ == Seq::<char>::empty(),
            r.first_ayah_html@ == Seq::<char>::empty(),
    {
        PageAyahs { surah_title: String::new(), ayah_text_html: String::new(), first_ayah_html: String::new() }
    }
}

/// The sort key of a hadith: its chapter, then its number within the book
/// (0 when missing).
pub open spec fn int_member_or_zero(h: JsonView, key: Seq<char>) -> i64 {
    match h.get(key) {
        Some(v) => match v.as_i64() {
            Some(n) => n,
            None => 0,
        },
        None => 0,
    }
}

pub open spec fn sort_key(h: JsonView) -> (i64, i64) {
    (int_member_or_zero(h, "chapterId"@), int_member_or_zero(h, "idInBook"@))
}

/// Whether the hadith at position `i` of the file comes before the one at `j`:
/// by key, and by file position among equal keys.
pub open spec fn comes_before(a: (i64, i64), i: int, b: (i64, i64), j: int) -> bool {
    a.0 < b.0 || (a.0 == b.0 && (a.1 < b.1 || (a.1 == b.1 && i < j)))
}

/// `out` is `src` sorted by key, equal keys keeping their order in `src`,
/// with `order[p]` the position in `src` of `out[p]`.
pub open spec fn stable_sorted_by(src: Seq<JsonView>, out: Seq<JsonView>, order: Seq<int>) -> bool {
    &&& order.len() == src.len()
    &&& out.len() == src.len()
    &&& forall|p: int| 0 <= p < order.len() ==> 0 <= #[trigger] order[p] < src.len()
    &&& forall|p: int, q: int| 0 <= p < q < order.len() ==> #[trigger] order[p] != #[trigger] order[q]
    &&& forall|p: int| 0 <= p < out.len() ==> #[trigger] out[p] == src[order[p]]
    &&& forall|p: int, q: int|
        0 <= p < q < order.len() ==> comes_before(
            sort_key(src[#[trigger] order[p]]),
            order[p],
            sort_key(src[#[trigger] order[q]]),
            order[q],
        )
}

fn int_member_or_zero_of(h: &JsonValue, key: &str) -> (r: i64)
    ensures
        r == int_member_or_zero(h@, key@),
{
    match h.get(key) {
        Some(v) => match v.as_i64() {
            Some(n) => n,
            None => 0,
        },
        None => 0,
    }
}

fn before3(a: (i64, i64, usize), b: (i64, i64, usize)) -> (r: bool)
    ensures
        r == comes_before((a.0, a.1), a.2 as int, (b.0, b.1), b.2 as int),
{
    a.0 < b.0 || (a.0 == b.0 && (a.1 < b.1 || (a.1 == b.1 && a.2 < b.2)))
}

/// The hadiths sorted by chapter and number, equal keys keeping their order.
pub fn sort_hadiths(src: &Vec<JsonValue>) -> (out: Vec<JsonValue>)
    ensures
        exists|order: Seq<int>| stable_sorted_by(view_values(src@), view_values(out@), order),
{
    proof {
        lemma_view_values(src@);
    }
    let ghost vs = view_values(src@);
    let n = src.len();
    let mut sorted: Vec<(i64, i64, usize)> = Vec::new();
    let mut i: usize = 0;
    while i < n
        invariant
            i <= n,
            n == src@.len(),
            vs == view_values(src@),
            vs.len() == n,
            forall|j: int| 0 <= j < n ==> #[trigger] vs[j] == src@[j]@,
            sorted@.len() == i,
            forall|p: int|
                0 <= p < sorted@.len() ==> (#[trigger] sorted@[p]).2 < i && (sorted@[p].0, sorted@[p].1)
                    == sort_key(vs[sorted@[p].2 as int]),
            forall|p: int, q: int|
                0 <= p < q < sorted@.len() ==> comes_before(
                    (#[trigger] sorted@[p].0, sorted@[p].1),
                    sorted@[p].2 as int,
                    (#[trigger] sorted@[q].0, sorted@[q].1),
                    sorted@[q].2 as int,
                ),
        decreases n - i,
    {
        let t = (int_member_or_zero_of(&src[i], "chapterId"), int_member_or_zero_of(&src[i], "idInBook"), i);
        let mut p: usize = sorted.len();
        while p > 0 && before3(t, sorted[p - 1])
            invariant
                p <= sorted@.len(),
                forall|q: int| p <= q < sorted@.len() ==> comes_before(
                    (t.0, t.1),
                    t.2 as int,
                    (#[trigger] sorted@[q].0, sorted@[q].1),
                    sorted@[q].2 as int,
                ),
            decreases p,
        {
            p = p - 1;
        }
        let ghost before = sorted@;
        sorted.insert(p, t);
        proof {
            assert forall|q: int| 0 <= q < p implies comes_before(
                (#[trigger] before[q].0, before[q].1),
                before[q].2 as int,
                (t.0, t.1),
                t.2 as int,
            ) by {
                let last = before[p - 1];
                assert(!comes_before((t.0, t.1), t.2 as int, (last.0, last.1), last.2 as int));
                assert(last.2 < i);
                if q < p - 1 {
                    assert(comes_before((before[q].0, before[q].1), before[q].2 as int, (last.0, last.1), last.2 as int));
                }
            }
            assert forall|a: int, b: int| 0 <= a < b < sorted@.len() implies comes_before(
                (#[trigger] sorted@[a].0, sorted@[a].1),
                sorted@[a].2 as int,
                (#[trigger] sorted@[b].0, sorted@[b].1),
                sorted@[b].2 as int,
            ) by {
                if a < p && b < p {
                    assert(sorted@[a] == before[a] && sorted@[b] == before[b]);
                } else if a < p && b == p {
                    assert(sorted@[a] == before[a]);
                } else if a < p {
                    assert(sorted@[a] == before[a] && sorted@[b] == before[b - 1]);
                    assert(comes_before((before[a].0, before[a].1), before[a].2 as int, (t.0, t.1), t.2 as int));
                } else if a == p {
                    assert(sorted@[b] == before[b - 1]);
                } else {
                    assert(sorted@[a] == before[a - 1] && sorted@[b] == before[b - 1]);
                }
            }
            assert forall|q: int| 0 <= q < sorted@.len() implies (#[trigger] sorted@[q]).2 < i + 1
                && (sorted@[q].0, sorted@[q].1) == sort_key(vs[sorted@[q].2 as int]) by {
                if q < p {
                    assert(sorted@[q] == before[q]);
                } else if q > p {
                    assert(sorted@[q] == before[q - 1]);
                }
            }
        }
        i = i + 1;
    }
    let mut out: Vec<JsonValue> = Vec::new();
    let mut k: usize = 0;
    while k < n
        invariant
            k <= n,
            n == src@.len(),
            sorted@.len() == n,
            vs == view_values(src@),
            vs.len() == n,
            forall|j: int| 0 <= j < n ==> #[trigger] vs[j] == src@[j]@,
            forall|p: int| 0 <= p < n ==> (#[trigger] sorted@[p]).2 < n,
            out@.len() == k,
            forall|p: int| 0 <= p < k ==> #[trigger] out@[p]@ == vs[sorted@[p].2 as int],
        decreases n - k,
    {
        let c = src[sorted[k].2].deep_clone();
        out.push(c);
        k = k + 1;
    }
    proof {
        lemma_view_values(out@);
        let order = Seq::new(n as nat, |p: int| sorted@[p].2 as int);
        assert forall|p: int, q: int| 0 <= p < q < order.len() implies #[trigger] order[p]
            != #[trigger] order[q] by {
            assert(comes_before((sorted@[p].0, sorted@[p].1), sorted@[p].2 as int, (sorted@[q].0, sorted@[q].1), sorted@[q].2 as int));
        }
        assert forall|p: int, q: int| 0 <= p < q < order.len() implies comes_before(
            sort_key(vs[#[trigger] order[p]]),
            order[p],
            sort_key(vs[#[trigger] order[q]]),
            order[q],
        ) by {
            assert(comes_before((sorted@[p].0, sorted@[p].1), sorted@[p].2 as int, (sorted@[q].0, sorted@[q].1), sorted@[q].2 as int));
        }
        let vo = view_values(out@);
        assert(order.len() == vs.len());
        assert(vo.len() == vs.len());
        assert(forall|p: int| 0 <= p < order.len() ==> 0 <= #[trigger] order[p] < vs.len());
        assert forall|p: int| 0 <= p < vo.len() implies #[trigger] vo[p] == vs[order[p]] by {
            assert(vo[p] == out@[p]@);
        }
        assert(stable_sorted_by(vs, vo, order));
    }
    out
}


/// One prepared search entry: the hadith's position, the lowercased text it
/// is searched in, and what a hit shows.
pub struct SearchEntry {
    pub index: usize,
    pub haystack: Vec<char>,
    pub preview: String,
    pub narrator: String,
    pub chapter: String,
}

pub struct EntryView {
    pub index: int,
    pub haystack: Seq<char>,
    pub preview: Seq<char>,
    pub narrator: Seq<char>,
    pub chapter: Seq<char>,
}

pub open spec fn entry_view(e: SearchEntry) -> EntryView {
    EntryView {
        index: e.index as int,
        haystack: e.haystack@,
        preview: e.preview@,
        narrator: e.narrator@,
        chapter: e.chapter@,
    }
}

pub open spec fn entry_views(s: Seq<SearchEntry>) -> Seq<EntryView> {
    Seq::new(s.len(), |i: int| entry_view(s[i]))
}

pub open spec fn chapter_views(s: Seq<(i64, String)>) -> Seq<(i64, Seq<char>)> {
    Seq::new(s.len(), |i: int| (s[i].0, s[i].1@))
}

/// The model of the catalogue.
pub struct DataView {
    pub hadiths: Seq<JsonView>,
    pub chapters: Seq<(i64, Seq<char>)>,
    pub entries: Seq<EntryView>,
    pub quran: Seq<JsonView>,
}

/// The hadiths, the chapter names by id, the search index and the Quran ayahs.
pub struct DataLoader {
    hadiths: Vec<JsonValue>,
    chapter_map: Vec<(i64, String)>,
    search_index: Vec<SearchEntry>,
    quran: Vec<JsonValue>,
}

impl View for DataLoader {
    type V = DataView;

    closed spec fn view(&self) -> DataView {
        DataView {
            hadiths: view_values(self.hadiths@),
            chapters: chapter_views(self.chapter_map@),
            entries: entry_views(self.search_index@),
            quran: view_values(self.quran@),
        }
    }
}

/// Position of the first chapter with the given id.
pub open spec fn chapter_index(m: Seq<(i64, Seq<char>)>, id: i64) -> Option<int>
    decreases m.len(),
{
    if m.len() == 0 {
        None
    } else {
        match chapter_index(m.drop_last(), id) {
            Some(i) => Some(i),
            None => if m.last().0 == id {
                Some(m.len() - 1)
            } else {
                None
            },
        }
    }
}

pub open spec fn chapter_name(m: Seq<(i64, Seq<char>)>, id: i64) -> Option<Seq<char>> {
    match chapter_index(m, id) {
        Some(i) => Some(m[i].1),
        None => None,
    }
}

/// The chapters with `name` recorded for `id`, replacing an earlier name.
pub open spec fn chapters_put(m: Seq<(i64, Seq<char>)>, id: i64, name: Seq<char>) -> Seq<(i64, Seq<char>)> {
    match chapter_index(m, id) {
        Some(i) => m.update(i, (id, name)),
        None => m.push((id, name)),
    }
}

/// A member that is text, as text.
pub open spec fn text_member(v: JsonView, key: Seq<char>) -> Option<Seq<char>> {
    match v.get(key) {
        Some(x) => x.as_str(),
        None => None,
    }
}

/// The name of a chapter: its Arabic name, else its `chapter`, else its
/// `name`, else empty.
pub open spec fn chapter_title(ch: JsonView) -> Seq<char> {
    match text_member(ch, "arabic"@) {
        Some(t) => t,
        None => match text_member(ch, "chapter"@) {
            Some(t) => t,
            None => match text_member(ch, "name"@) {
                Some(t) => t,
                None => Seq::empty(),
            },
        },
    }
}

/// The chapter names of a list of chapter records, in order.
pub open spec fn chapters_from(chs: Seq<JsonView>) -> Seq<(i64, Seq<char>)>
    decreases chs.len(),
{
    if chs.len() == 0 {
        Seq::empty()
    } else {
        let m = chapters_from(chs.drop_last());
        let ch = chs.last();
        match ch.get("id"@) {
            Some(v) => match v.as_i64() {
                Some(id) => chapters_put(m, id, chapter_title(ch)),
                None => m,
            },
            None => m,
        }
    }
}

/// The chapter list of a hadith file.
pub open spec fn chapter_list(parsed: JsonView) -> Seq<JsonView> {
    match parsed.get("chapters"@) {
        Some(v) => match v.as_array() {
            Some(a) => a,
            None => Seq::empty(),
        },
        None => Seq::empty(),
    }
}

/// The hadith list of a hadith file in object form: its `hadiths`, or when
/// there is none its `hadithsData`.
pub open spec fn hadith_list(parsed: JsonView) -> Seq<JsonView> {
    match parsed.get("hadiths"@) {
        Some(v) => match v.as_array() {
            Some(a) => a,
            None => Seq::empty(),
        },
        None => match parsed.get("hadithsData"@) {
            Some(v) => match v.as_array() {
                Some(a) => a,
                None => Seq::empty(),
            },
            None => Seq::empty(),
        },
    }
}

fn find_chapter(m: &Vec<(i64, String)>, id: i64) -> (r: Option<usize>)
    ensures
        r matches Some(i) ==> i < m@.len() && chapter_index(chapter_views(m@), id) == Some(i as int),
        r is None ==> chapter_index(chapter_views(m@), id) is None,
{
    let ghost cv = chapter_views(m@);
    let mut i: usize = 0;
    while i < m.len()
        invariant
            i <= m.len(),
            cv == chapter_views(m@),
            forall|j: int| 0 <= j < i ==> (#[trigger] cv[j]).0 != id,
            chapter_index(cv.take(i as int), id) is None,
        decreases m.len() - i,
    {
        assert(cv.take(i + 1).drop_last() =~= cv.take(i as int));
        if m[i].0 == id {
            assert(chapter_index(cv.take(i + 1), id) == Some(i as int));
            proof {
                lemma_chapter_index_prefix(cv, i as int + 1, id);
            }
            return Some(i);
        }
        i = i + 1;
    }
    assert(cv.take(m.len() as int) =~= cv);
    None
}

/// A match found in a prefix is the first match of the whole list.
proof fn lemma_chapter_index_prefix(m: Seq<(i64, Seq<char>)>, k: int, id: i64)
    requires
        0 <= k <= m.len(),
        chapter_index(m.take(k), id) is Some,
    ensures
        chapter_index(m, id) == chapter_index(m.take(k), id),
    decreases m.len() - k,
{
    if k < m.len() {
        assert(m.take(k + 1).drop_last() =~= m.take(k));
        lemma_chapter_index_prefix(m, k + 1, id);
    } else {
        assert(m.take(k) =~= m);
    }
}

fn chapter_title_of(ch: &JsonValue) -> (r: String)
    ensures
        r@ == chapter_title(ch@),
{
    if let Some(v) = ch.get("arabic") {
        if let Some(t) = v.as_str() {
            return String::from_str(t);
        }
    }
    if let Some(v) = ch.get("chapter") {
        if let Some(t) = v.as_str() {
            return String::from_str(t);
        }
    }
    if let Some(v) = ch.get("name") {
        if let Some(t) = v.as_str() {
            return String::from_str(t);
        }
    }
    String::new()
}

fn copy_values(items: &Vec<JsonValue>) -> (r: Vec<JsonValue>)
    ensures
        view_values(r@) == view_values(items@),
{
    proof {
        lemma_view_values(items@);
    }
    let mut out: Vec<JsonValue> = Vec::new();
    let mut i: usize = 0;
    while i < items.len()
        invariant
            i <= items.len(),
            out@.len() == i,
            forall|j: int| 0 <= j < i ==> view_value(#[trigger] out@[j]) == view_value(items@[j]),
        decreases items.len() - i,
    {
        out.push(items[i].deep_clone());
        i = i + 1;
    }
    proof {
        lemma_view_values(out@);
        lemma_view_values(items@);
        assert(view_values(out@) =~= view_values(items@));
    }
    out
}

impl DataLoader {
    pub fn new() -> (r: DataLoader)
        ensures
            r@.hadiths.len() == 0,
            r@.chapters.len() == 0,
            r@.entries.len() == 0,
            r@.quran.len() == 0,
    {
        DataLoader { hadiths: Vec::new(), chapter_map: Vec::new(), search_index: Vec::new(), quran: Vec::new() }
    }

    fn put_chapter(&mut self, id: i64, name: String)
        ensures
            final(self)@ == (DataView { chapters: chapters_put(old(self)@.chapters, id, name@), ..old(self)@ }),
    {
        let ghost before = chapter_views(self.chapter_map@);
        match find_chapter(&self.chapter_map, id) {
            Some(i) => {
                self.chapter_map.set(i, (id, name));
                assert(chapter_views(self.chapter_map@) =~= before.update(i as int, (id, name@)));
            },
            None => {
                self.chapter_map.push((id, name));
                assert(chapter_views(self.chapter_map@) =~= before.push((id, name@)));
            },
        }
    }

    /// Replace the catalogue's hadiths with those of a parsed hadith file: a
    /// list is taken as it stands; an object gives the chapter names and its
    /// hadith list sorted by chapter and number (equal keys keep their file
    /// order).  The search index is emptied.  Returns whether any hadith was
    /// loaded.
    pub fn load_hadith_data(&mut self, parsed: &JsonValue) -> (r: bool)
        ensures
            final(self)@.entries.len() == 0,
            final(self)@.quran == old(self)@.quran,
            parsed@ is Array ==> final(self)@.hadiths == parsed@->Array_0 && final(self)@.chapters.len() == 0,
            !(parsed@ is Array) ==> final(self)@.chapters == chapters_from(chapter_list(parsed@))
                && exists|order: Seq<int>| stable_sorted_by(hadith_list(parsed@), final(self)@.hadiths, order),
            r == (final(self)@.hadiths.len() > 0),
    {
        self.chapter_map = Vec::new();
        self.hadiths = Vec::new();
        self.search_index = Vec::new();
        assert(chapter_views(self.chapter_map@) =~= Seq::empty());
        assert(entry_views(self.search_index@) =~= Seq::empty());
        if let Some(items) = parsed.as_array() {
            self.hadiths = copy_values(items);
        } else {
            let empty: Vec<JsonValue> = Vec::new();
            let chapters = match parsed.get("chapters") {
                Some(v) => match v.as_array() {
                    Some(a) => a,
                    None => &empty,
                },
                None => &empty,
            };
            proof {
                lemma_view_values(empty@);
                lemma_view_values(chapters@);
            }
            let ghost vc = view_values(chapters@);
            assert(vc == chapter_list(parsed@));
            let mut i: usize = 0;
            while i < chapters.len()
                invariant
                    i <= chapters.len(),
                    vc == view_values(chapters@),
                    vc.len() == chapters@.len(),
                    forall|j: int| 0 <= j < chapters@.len() ==> #[trigger] vc[j] == chapters@[j]@,
                    self@.chapters == chapters_from(vc.take(i as int)),
                    self@.entries.len() == 0,
                    self@.hadiths.len() == 0,
                    self@.quran == old(self)@.quran,
                decreases chapters.len() - i,
            {
                assert(vc.take(i + 1).drop_last() =~= vc.take(i as int));
                let ch = &chapters[i];
                if let Some(v) = ch.get("id") {
                    if let Some(id) = v.as_i64() {
                        let name = chapter_title_of(ch);
                        self.put_chapter(id, name);
                    }
                }
                i = i + 1;
            }
            assert(vc.take(chapters.len() as int) =~= vc);
            let list = match parsed.get("hadiths") {
                Some(v) => match v.as_array() {
                    Some(a) => a,
                    None => &empty,
                },
                None => match parsed.get("hadithsData") {
                    Some(v) => match v.as_array() {
                        Some(a) => a,
                        None => &empty,
                    },
                    None => &empty,
                },
            };
            assert(view_values(list@) == hadith_list(parsed@));
            assert(self@.chapters == chapters_from(chapter_list(parsed@)));
            self.hadiths = sort_hadiths(list);
            proof {
                let order = choose|order: Seq<int>| stable_sorted_by(view_values(list@), view_values(self.hadiths@), order);
                assert(stable_sorted_by(hadith_list(parsed@), self@.hadiths, order));
            }
        }
        self.hadiths.len() > 0
    }

    /// Replace the Quran ayahs with a parsed Quran file when it is a list;
    /// anything else leaves them as they were.
    pub fn load_quran_data(&mut self, parsed: &JsonValue)
        ensures
            final(self)@.quran == match parsed@ {
                JsonView::Array(a) => a,
                _ => old(self)@.quran,
            },
            final(self)@.hadiths == old(self)@.hadiths,
            final(self)@.chapters == old(self)@.chapters,
            final(self)@.entries == old(self)@.entries,
    {
        if let Some(items) = parsed.as_array() {
            self.quran = copy_values(items);
        }
    }

    pub fn hadiths_len(&self) -> (r: usize)
        ensures
            r == self@.hadiths.len(),
    {
        proof {
            lemma_view_values(self.hadiths@);
        }
        self.hadiths.len()
    }

    /// A copy of the hadith at `index`.
    pub fn get_hadith(&self, index: usize) -> (r: Option<JsonValue>)
        ensures
            r matches Some(h) ==> index < self@.hadiths.len() && h@ == self@.hadiths[index as int],
            r is None ==> index >= self@.hadiths.len(),
    {
        proof {
            lemma_view_values(self.hadiths@);
        }
        if index < self.hadiths.len() {
            Some(self.hadiths[index].deep_clone())
        } else {
            None
        }
    }

    /// The name of the chapter with the given id.
    pub fn chapter_for(&self, chapter_id: i64) -> (r: Option<String>)
        ensures
            r matches Some(t) ==> chapter_name(self@.chapters, chapter_id) == Some(t@),
            r is None ==> chapter_name(self@.chapters, chapter_id) is None,
    {
        match find_chapter(&self.chapter_map, chapter_id) {
            Some(i) => Some(self.chapter_map[i].1.clone()),
            None => None,
        }
    }
}

impl Default for DataLoader {
    fn default() -> (r: DataLoader)
        ensures
            r@.hadiths.len() == 0,
            r@.chapters.len() == 0,
            r@.entries.len() == 0,
            r@.quran.len() == 0,
    {
        DataLoader::new()
    }
}


/// The text of a hadith: its `arabic` member when present, else its `text`
/// member; empty when the member found is not text.
pub open spec fn hadith_text(h: JsonView) -> Seq<char> {
    match h.get("arabic"@) {
        Some(v) => match v.as_str() {
            Some(t) => t,
            None => Seq::empty(),
        },
        None => match h.get("text"@) {
            Some(v) => match v.as_str() {
                Some(t) => t,
                None => Seq::empty(),
            },
            None => Seq::empty(),
        },
    }
}

/// A text member, empty when absent or not text.
pub open spec fn text_or_empty(v: JsonView, key: Seq<char>) -> Seq<char> {
    match text_member(v, key) {
        Some(t) => t,
        None => Seq::empty(),
    }
}

/// The chapter name of a hadith from the chapter table, empty when unknown.
pub open spec fn indexed_chapter(h: JsonView, chapters: Seq<(i64, Seq<char>)>) -> Seq<char> {
    match h.get("chapterId"@) {
        Some(v) => match v.as_i64() {
            Some(id) => match chapter_name(chapters, id) {
                Some(t) => t,
                None => Seq::empty(),
            },
            None => Seq::empty(),
        },
        None => Seq::empty(),
    }
}

/// The number of characters a preview keeps.
pub const PREVIEW_CHARS: usize = 100usize;

/// The search entry of the hadith at position `i`: it is searched in its
/// text and narrator, lowercased, and previews the first 100 characters.
pub open spec fn entry_for(i: int, h: JsonView, chapters: Seq<(i64, Seq<char>)>) -> EntryView {
    let text = hadith_text(h);
    EntryView {
        index: i,
        haystack: lowercase(text + " "@ + text_or_empty(h, "narrator"@)),
        preview: text.take(if PREVIEW_CHARS < text.len() {
            PREVIEW_CHARS as int
        } else {
            text.len() as int
        }),
        narrator: text_or_empty(h, "narrator"@),
        chapter: indexed_chapter(h, chapters),
    }
}

/// The search index of a catalogue.
pub open spec fn index_of(d: DataView) -> Seq<EntryView> {
    Seq::new(d.hadiths.len(), |i: int| entry_for(i, d.hadiths[i], d.chapters))
}

/// The entries whose text contains `q`, in order.
pub open spec fn matches_of(entries: Seq<EntryView>, q: Seq<char>) -> Seq<EntryView>
    decreases entries.len(),
{
    if entries.len() == 0 {
        Seq::empty()
    } else {
        let rest = matches_of(entries.drop_last(), q);
        if has_infix(entries.last().haystack, q) {
            rest.push(entries.last())
        } else {
            rest
        }
    }
}

/// The most hits a search returns.
pub const MAX_HITS: usize = 30usize;

/// The entries a search for `query` finds: none for a blank query, else the
/// first 30 whose text contains the lowercased query.
pub open spec fn search_result(entries: Seq<EntryView>, query: Seq<char>) -> Seq<EntryView> {
    if trimmed(query).len() == 0 {
        Seq::empty()
    } else {
        first_hits(entries, lowercase(query))
    }
}

/// The first 30 entries whose text contains `q`, in order.
pub open spec fn first_hits(entries: Seq<EntryView>, q: Seq<char>) -> Seq<EntryView> {
    let all = matches_of(entries, q);
    all.take(if MAX_HITS < all.len() {
        MAX_HITS as int
    } else {
        all.len() as int
    })
}

/// Matching distributes over concatenation.
pub proof fn lemma_matches_append(a: Seq<EntryView>, b: Seq<EntryView>, q: Seq<char>)
    ensures
        matches_of(a + b, q) == matches_of(a, q) + matches_of(b, q),
    decreases b.len(),
{
    if b.len() == 0 {
        assert(a + b =~= a);
        assert(matches_of(a, q) + matches_of(b, q) =~= matches_of(a, q));
    } else {
        lemma_matches_append(a, b.drop_last(), q);
        assert((a + b).drop_last() =~= a + b.drop_last());
        assert((a + b).last() == b.last());
        if has_infix(b.last().haystack, q) {
            assert(matches_of(a, q) + matches_of(b, q) =~= (matches_of(a, q) + matches_of(
                b.drop_last(),
                q,
            )).push(b.last()));
        }
    }
}

/// Every match contains the query.
pub proof fn lemma_matches_contain(entries: Seq<EntryView>, q: Seq<char>)
    ensures
        forall|k: int|
            0 <= k < matches_of(entries, q).len() ==> has_infix(
                #[trigger] matches_of(entries, q)[k].haystack,
                q,
            ),
        matches_of(entries, q).len() <= entries.len(),
    decreases entries.len(),
{
    if entries.len() > 0 {
        lemma_matches_contain(entries.drop_last(), q);
    }
}

fn hadith_text_of(h: &JsonValue) -> (r: &str)
    ensures
        r@ == hadith_text(h@),
{
    proof {
        reveal_strlit("");
    }
    match h.get("arabic") {
        Some(v) => match v.as_str() {
            Some(t) => t,
            None => "",
        },
        None => match h.get("text") {
            Some(v) => match v.as_str() {
                Some(t) => t,
                None => "",
            },
            None => "",
        },
    }
}

fn text_or_empty_of<'a>(v: &'a JsonValue, key: &str) -> (r: &'a str)
    ensures
        r@ == text_or_empty(v@, key@),
{
    proof {
        reveal_strlit("");
    }
    match v.get(key) {
        Some(x) => match x.as_str() {
            Some(t) => t,
            None => "",
        },
        None => "",
    }
}

/// The search entry of the hadith at `index`, given its lowercased searchable
/// text, its text, narrator and chapter name.
pub fn search_entry(index: usize, lowered: &str, text: &str, narrator: &str, chapter: String) -> (r: SearchEntry)
    ensures
        entry_view(r) == (EntryView {
            index: index as int,
            haystack: lowered@,
            preview: text@.take(if PREVIEW_CHARS < text@.len() {
                PREVIEW_CHARS as int
            } else {
                text@.len() as int
            }),
            narrator: narrator@,
            chapter: chapter@,
        }),
{
    let haystack = chars_of(lowered);
    let preview = prefix_text(text, PREVIEW_CHARS);
    SearchEntry { index, haystack, preview, narrator: String::from_str(narrator), chapter }
}

impl DataLoader {
    fn indexed_chapter_of(&self, h: &JsonValue) -> (r: String)
        ensures
            r@ == indexed_chapter(h@, self@.chapters),
    {
        match h.get("chapterId") {
            Some(v) => match v.as_i64() {
                Some(id) => match self.chapter_for(id) {
                    Some(t) => t,
                    None => String::new(),
                },
                None => String::new(),
            },
            None => String::new(),
        }
    }

    /// Prepare the search entry of every hadith.
    pub fn build_search_index(&mut self)
        ensures
            final(self)@.entries == index_of(old(self)@),
            final(self)@.hadiths == old(self)@.hadiths,
            final(self)@.chapters == old(self)@.chapters,
            final(self)@.quran == old(self)@.quran,
    {
        proof {
            lemma_view_values(self.hadiths@);
        }
        let mut entries: Vec<SearchEntry> = Vec::new();
        let mut i: usize = 0;
        while i < self.hadiths.len()
            invariant
                i <= self.hadiths.len(),
                view_values(self.hadiths@).len() == self.hadiths@.len(),
                forall|j: int|
                    0 <= j < self.hadiths@.len() ==> #[trigger] view_values(self.hadiths@)[j]
                        == view_value(self.hadiths@[j]),
                entries@.len() == i,
                forall|j: int|
                    0 <= j < i ==> #[trigger] entry_view(entries@[j]) == entry_for(
                        j,
                        view_values(self.hadiths@)[j],
                        self@.chapters,
                    ),
            decreases self.hadiths.len() - i,
        {
            let h = &self.hadiths[i];
            let text = hadith_text_of(h);
            let narrator = text_or_empty_of(h, "narrator");
            let mut joined = String::from_str(text);
            joined.append(" ");
            joined.append(narrator);
            let lowered = to_lowercase(joined.as_str());
            let chapter = self.indexed_chapter_of(h);
            entries.push(search_entry(i, lowered.as_str(), text, narrator, chapter));
            i = i + 1;
        }
        self.search_index = entries;
        assert(entry_views(self.search_index@) =~= index_of(old(self)@));
    }

    /// The hits of a search: for a blank query none, else the first 30
    /// entries whose lowercased text contains the lowercased query, in order.
    pub fn search_hadiths(&self, query: &str) -> (r: Vec<SearchHit>)
        ensures
            r@.len() == search_result(self@.entries, query@).len(),
            forall|k: int|
                0 <= k < r@.len() ==> {
                    let e = #[trigger] search_result(self@.entries, query@)[k];
                    &&& r@[k].index == e.index
                    &&& r@[k].preview@ == e.preview
                    &&& r@[k].narrator@ == e.narrator
                    &&& r@[k].chapter@ == e.chapter
                },
    {
        let t = trim_text(query);
        if t.unicode_len() == 0 {
            return Vec::new();
        }
        let lowered = to_lowercase(query);
        self.search_lowered(lowered.as_str())
    }

    /// The hits for an already lowercased query: the first 30 entries whose
    /// text contains it, in order.
    pub fn search_lowered(&self, lowered: &str) -> (r: Vec<SearchHit>)
        ensures
            r@.len() == first_hits(self@.entries, lowered@).len(),
            forall|k: int|
                0 <= k < r@.len() ==> {
                    let e = #[trigger] first_hits(self@.entries, lowered@)[k];
                    &&& r@[k].index == e.index
                    &&& r@[k].preview@ == e.preview
                    &&& r@[k].narrator@ == e.narrator
                    &&& r@[k].chapter@ == e.chapter
                },
    {
        let ghost ev = entry_views(self.search_index@);
        let q = chars_of(lowered);
        let mut hits: Vec<SearchHit> = Vec::new();
        let ghost found: Seq<EntryView> = Seq::empty();
        let mut i: usize = 0;
        while i < self.search_index.len() && hits.len() < MAX_HITS
            invariant
                i <= self.search_index.len(),
                ev == entry_views(self.search_index@),
                ev == self@.entries,
                q@ == lowered@,
                found == matches_of(ev.take(i as int), q@),
                hits@.len() == found.len(),
                hits@.len() <= MAX_HITS,
                forall|k: int|
                    0 <= k < hits@.len() ==> {
                        let e = #[trigger] found[k];
                        &&& hits@[k].index == e.index
                        &&& hits@[k].preview@ == e.preview
                        &&& hits@[k].narrator@ == e.narrator
                        &&& hits@[k].chapter@ == e.chapter
                    },
            decreases self.search_index.len() - i,
        {
            assert(ev.take(i + 1).drop_last() =~= ev.take(i as int));
            let e = &self.search_index[i];
            assert(ev[i as int] == entry_view(*e));
            if contains_chars(&e.haystack, &q) {
                hits.push(
                    SearchHit {
                        index: e.index,
                        preview: e.preview.clone(),
                        narrator: e.narrator.clone(),
                        chapter: e.chapter.clone(),
                    },
                );
                proof {
                    found = found.push(ev[i as int]);
                }
            }
            i = i + 1;
        }
        proof {
            let all = matches_of(ev, q@);
            assert(ev =~= ev.take(i as int) + ev.skip(i as int));
            lemma_matches_append(ev.take(i as int), ev.skip(i as int), q@);
            if hits@.len() < MAX_HITS {
                assert(ev.take(i as int) =~= ev);
                assert(found == all);
                assert(all.take(all.len() as int) =~= all);
            } else {
                assert(all.take(MAX_HITS as int) =~= found);
            }
        }
        hits
    }
}


/// A search never returns more than 30 hits, every hit contains the
/// lowercased query, a blank query finds nothing, and when fewer than 30 hits
/// come back they are all the entries that match, in index order.
pub proof fn law_search_bounded_and_sound(entries: Seq<EntryView>, query: Seq<char>)
    ensures
        search_result(entries, query).len() <= MAX_HITS,
        forall|k: int|
            0 <= k < search_result(entries, query).len() ==> has_infix(
                #[trigger] search_result(entries, query)[k].haystack,
                lowercase(query),
            ),
        trimmed(query).len() == 0 ==> search_result(entries, query).len() == 0,
        trimmed(query).len() > 0 && search_result(entries, query).len() < MAX_HITS ==> search_result(
            entries,
            query,
        ) == matches_of(entries, lowercase(query)),
{
    let all = matches_of(entries, lowercase(query));
    lemma_matches_contain(entries, lowercase(query));
    if trimmed(query).len() > 0 {
        let r = search_result(entries, query);
        assert forall|k: int| 0 <= k < r.len() implies has_infix(#[trigger] r[k].haystack, lowercase(query)) by {
            assert(r[k] == all[k]);
        }
        if r.len() < MAX_HITS {
            assert(all.take(all.len() as int) =~= all);
        }
    }
}

/// The text of a member, or empty when the member is absent or not text;
/// the second key is consulted only when the first is absent.
pub open spec fn first_text(v: JsonView, k1: Seq<char>, k2: Seq<char>) -> Seq<char> {
    match v.get(k1) {
        Some(x) => match x.as_str() {
            Some(t) => t,
            None => Seq::empty(),
        },
        None => match v.get(k2) {
            Some(x) => match x.as_str() {
                Some(t) => t,
                None => Seq::empty(),
            },
            None => Seq::empty(),
        },
    }
}

/// Whether an ayah is on the given page.
pub open spec fn on_page(a: JsonView, page: i64) -> bool {
    match a.get("page"@) {
        Some(v) => v.as_i64() == Some(page),
        None => false,
    }
}

/// The ayahs of a page, in order.
pub open spec fn ayahs_on(quran: Seq<JsonView>, page: i64) -> Seq<JsonView>
    decreases quran.len(),
{
    if quran.len() == 0 {
        Seq::empty()
    } else {
        let rest = ayahs_on(quran.drop_last(), page);
        if on_page(quran.last(), page) {
            rest.push(quran.last())
        } else {
            rest
        }
    }
}

pub open spec fn surah_name(a: JsonView) -> Seq<char> {
    first_text(a, "sura_name_ar"@, "surah_name_ar"@)
}

/// The surah names of the ayahs, each once, in order of first appearance.
pub open spec fn surah_names(ayahs: Seq<JsonView>) -> Seq<Seq<char>>
    decreases ayahs.len(),
{
    if ayahs.len() == 0 {
        Seq::empty()
    } else {
        let names = surah_names(ayahs.drop_last());
        let n = surah_name(ayahs.last());
        if n.len() > 0 && !names.contains(n) {
            names.push(n)
        } else {
            names
        }
    }
}

/// The text of an ayah without surrounding white space.
pub open spec fn ayah_text(a: JsonView) -> Seq<char> {
    trimmed(first_text(a, "aya_text"@, "text"@))
}

pub open spec fn ayah_texts(ayahs: Seq<JsonView>) -> Seq<Seq<char>> {
    Seq::new(ayahs.len(), |i: int| ayah_text(ayahs[i]))
}

/// A page: its surah names joined by " - ", its ayahs joined by a space, and
/// its first ayah; `None` for a page without ayahs.
pub open spec fn page_of(quran: Seq<JsonView>, page: i64) -> Option<(Seq<char>, Seq<char>, Seq<char>)> {
    let ayahs = ayahs_on(quran, page);
    if ayahs.len() == 0 {
        None
    } else {
        Some((joined(surah_names(ayahs), " - "@), joined(ayah_texts(ayahs), " "@), ayah_text(ayahs[0])))
    }
}

fn first_text_of<'a>(v: &'a JsonValue, k1: &str, k2: &str) -> (r: &'a str)
    ensures
        r@ == first_text(v@, k1@, k2@),
{
    proof {
        reveal_strlit("");
    }
    match v.get(k1) {
        Some(x) => match x.as_str() {
            Some(t) => t,
            None => "",
        },
        None => match v.get(k2) {
            Some(x) => match x.as_str() {
                Some(t) => t,
                None => "",
            },
            None => "",
        },
    }
}

fn contains_text(names: &Vec<String>, n: &str) -> (r: bool)
    ensures
        r == texts(names@).contains(n@),
{
    let ghost t = texts(names@);
    let mut i: usize = 0;
    while i < names.len()
        invariant
            i <= names.len(),
            t == texts(names@),
            forall|j: int| 0 <= j < i ==> t[j] != n@,
        decreases names.len() - i,
    {
        if text_eq(names[i].as_str(), n) {
            assert(t[i as int] == n@);
            return true;
        }
        i = i + 1;
    }
    false
}

/// The JSON number of a count or position.
pub open spec fn usize_json(n: usize) -> JsonView {
    if n <= i64::MAX {
        JsonView::Number(JsonNumber::Int(n as i64))
    } else {
        JsonView::Number(JsonNumber::Big(n as u64))
    }
}

pub fn usize_to_json(n: usize) -> (r: JsonValue)
    ensures
        r@ == usize_json(n),
{
    if (n as u64) <= 9223372036854775807u64 {
        JsonValue::Number(JsonNumber::Int(n as i64))
    } else {
        JsonValue::Number(JsonNumber::Big(n as u64))
    }
}

/// A member of the settings, or the given default when absent.
pub open spec fn member_or(cfg: JsonView, key: Seq<char>, default: JsonView) -> JsonView {
    match cfg.get(key) {
        Some(v) => v,
        None => default,
    }
}

/// The chapter shown with a hadith: the name of its chapter id in the table,
/// else its own `chapter` text, else empty.
pub open spec fn shown_chapter(h: JsonView, chapters: Seq<(i64, Seq<char>)>) -> Seq<char> {
    let by_id = match h.get("chapterId"@) {
        Some(v) => match v.as_i64() {
            Some(id) => chapter_name(chapters, id),
            None => None,
        },
        None => None,
    };
    match by_id {
        Some(t) => t,
        None => text_or_empty(h, "chapter"@),
    }
}

/// What the hadith window is sent for position `index` (clamped to the last
/// hadith); `None` while no hadith is loaded.
pub open spec fn widget_payload(d: DataView, index: usize, is_review: bool, cfg: JsonView) -> Option<JsonView> {
    if d.hadiths.len() == 0 {
        None
    } else {
        let total = d.hadiths.len();
        let idx: int = if index < total - 1 {
            index as int
        } else {
            total - 1
        };
        let h = d.hadiths[idx];
        Some(
            JsonView::Object(
                seq![
                    ("index"@, usize_json(idx as usize)),
                    ("isReview"@, JsonView::Bool(is_review)),
                    ("total"@, usize_json(total as usize)),
                    ("text"@, JsonView::Str(hadith_text(h))),
                    ("sanad"@, JsonView::Str(text_or_empty(h, "sanad"@))),
                    ("matn"@, JsonView::Str(text_or_empty(h, "matn"@))),
                    ("takhrij"@, JsonView::Str(text_or_empty(h, "takhrij"@))),
                    ("sharh"@, JsonView::Str(text_or_empty(h, "sharh"@))),
                    ("narrator"@, JsonView::Str(text_or_empty(h, "narrator"@))),
                    ("chapter"@, JsonView::Str(shown_chapter(h, d.chapters))),
                    ("fontSize"@, member_or(cfg, "fontSize"@, JsonView::Number(JsonNumber::Int(22)))),
                    ("fontFamily"@, member_or(cfg, "fontFamily"@, JsonView::Str("'QuranFont', 'Traditional Arabic'"@))),
                    ("cSanad"@, member_or(cfg, "cSanad"@, JsonView::Str("#5d7a69"@))),
                    ("cMatn"@, member_or(cfg, "cMatn"@, JsonView::Str("#182820"@))),
                    ("cTakhrij"@, member_or(cfg, "cTakhrij"@, JsonView::Str("#1a9850"@))),
                    ("cSharh"@, member_or(cfg, "cSharh"@, JsonView::Str("#b35900"@))),
                    ("theme"@, member_or(cfg, "theme"@, JsonView::Str("light"@))),
                ],
            ),
        )
    }
}

fn member_or_of(cfg: &JsonValue, key: &str, default: JsonValue) -> (r: JsonValue)
    ensures
        r@ == member_or(cfg@, key@, default@),
{
    match cfg.get(key) {
        Some(v) => v.deep_clone(),
        None => default,
    }
}

fn text_value(t: &str) -> (r: JsonValue)
    ensures
        r@ == JsonView::Str(t@),
{
    JsonValue::Str(String::from_str(t))
}

fn entry(key: &str, v: JsonValue) -> (r: (String, JsonValue))
    ensures
        r.0@ == key@,
        r.1@ == v@,
{
    (String::from_str(key), v)
}

impl DataLoader {
    /// The text of a Quran page.
    pub fn get_page_ayahs(&self, page_number: i64) -> (r: Option<PageAyahs>)
        ensures
            r matches Some(p) ==> page_of(self@.quran, page_number) == Some(
                (p.surah_title@, p.ayah_text_html@, p.first_ayah_html@),
            ),
            r is None ==> page_of(self@.quran, page_number) is None,
    {
        proof {
            lemma_view_values(self.quran@);
        }
        let ghost vq = view_values(self.quran@);
        let mut names: Vec<String> = Vec::new();
        let mut texts_v: Vec<String> = Vec::new();
        let mut first: Option<String> = None;
        let mut i: usize = 0;
        while i < self.quran.len()
            invariant
                i <= self.quran.len(),
                vq == view_values(self.quran@),
                vq.len() == self.quran@.len(),
                forall|j: int| 0 <= j < self.quran@.len() ==> #[trigger] vq[j] == view_value(self.quran@[j]),
                texts(names@) == surah_names(ayahs_on(vq.take(i as int), page_number)),
                texts(texts_v@) == ayah_texts(ayahs_on(vq.take(i as int), page_number)),
                first is None <==> ayahs_on(vq.take(i as int), page_number).len() == 0,
                first matches Some(f) ==> f@ == ayah_text(ayahs_on(vq.take(i as int), page_number)[0]),
            decreases self.quran.len() - i,
        {
            let ghost prev = ayahs_on(vq.take(i as int), page_number);
            assert(vq.take(i + 1).drop_last() =~= vq.take(i as int));
            assert(vq.take(i + 1).last() == vq[i as int]);
            let a = &self.quran[i];
            let here = match a.get("page") {
                Some(v) => v.as_i64() == Some(page_number),
                None => false,
            };
            if here {
                let ghost cur = prev.push(vq[i as int]);
                assert(cur.drop_last() =~= prev);
                let n = first_text_of(a, "sura_name_ar", "surah_name_ar");
                if n.unicode_len() > 0 && !contains_text(&names, n) {
                    let ghost before = names@;
                    names.push(String::from_str(n));
                    assert(texts(names@) =~= texts(before).push(n@));
                }
                let t = trim_text(first_text_of(a, "aya_text", "text"));
                if first.is_none() {
                    first = Some(t.clone());
                }
                let ghost before_t = texts_v@;
                assert(t@ == ayah_text(vq[i as int]));
                texts_v.push(t);
                assert forall|k: int| 0 <= k < cur.len() implies #[trigger] texts(texts_v@)[k]
                    == ayah_texts(cur)[k] by {
                    assert(texts_v@.len() == before_t.len() + 1);
                    assert(before_t.len() == texts(before_t).len());
                    if k < prev.len() {
                        assert(texts(before_t)[k] == ayah_texts(prev)[k]);
                        assert(cur[k] == prev[k]);
                        assert(texts_v@[k] == before_t[k]);
                    } else {
                        assert(cur[k] == vq[i as int]);
                        assert(texts_v@[k] == t);
                    }
                }
                assert(ayah_texts(prev).len() == prev.len());
                assert(texts(before_t).len() == before_t.len());
                assert(texts(texts_v@).len() == cur.len());
                assert(texts(texts_v@) =~= ayah_texts(cur));
            }
            i = i + 1;
        }
        assert(vq.take(self.quran.len() as int) =~= vq);
        match first {
            None => None,
            Some(f) => Some(
                PageAyahs {
                    surah_title: join_texts(&names, " - "),
                    ayah_text_html: join_texts(&texts_v, " "),
                    first_ayah_html: f,
                },
            ),
        }
    }

    /// What the hadith window is sent for position `index`.
    pub fn build_widget_payload(&self, index: usize, is_review: bool, cfg: &JsonValue) -> (r: Option<JsonValue>)
        ensures
            r matches Some(p) ==> widget_payload(self@, index, is_review, cfg@) == Some(p@),
            r is None ==> widget_payload(self@, index, is_review, cfg@) is None,
    {
        proof {
            lemma_view_values(self.hadiths@);
        }
        if self.hadiths.len() == 0 {
            return None;
        }
        let total = self.hadiths.len();
        let idx = if index < total - 1 {
            index
        } else {
            total - 1
        };
        let h = &self.hadiths[idx];
        let chapter = match h.get("chapterId") {
            Some(v) => match v.as_i64() {
                Some(id) => self.chapter_for(id),
                None => None,
            },
            None => None,
        };
        let chapter = match chapter {
            Some(t) => t,
            None => String::from_str(text_or_empty_of(h, "chapter")),
        };
        let mut m: Vec<(String, JsonValue)> = Vec::new();
        m.push(entry("index", usize_to_json(idx)));
        m.push(entry("isReview", JsonValue::Bool(is_review)));
        m.push(entry("total", usize_to_json(total)));
        m.push(entry("text", text_value(hadith_text_of(h))));
        m.push(entry("sanad", text_value(text_or_empty_of(h, "sanad"))));
        m.push(entry("matn", text_value(text_or_empty_of(h, "matn"))));
        m.push(entry("takhrij", text_value(text_or_empty_of(h, "takhrij"))));
        m.push(entry("sharh", text_value(text_or_empty_of(h, "sharh"))));
        m.push(entry("narrator", text_value(text_or_empty_of(h, "narrator"))));
        m.push(entry("chapter", JsonValue::Str(chapter)));
        m.push(entry("fontSize", member_or_of(cfg, "fontSize", JsonValue::Number(JsonNumber::Int(22)))));
        m.push(entry("fontFamily", member_or_of(cfg, "fontFamily", text_value("'QuranFont', 'Traditional Arabic'"))));
        m.push(entry("cSanad", member_or_of(cfg, "cSanad", text_value("#5d7a69"))));
        m.push(entry("cMatn", member_or_of(cfg, "cMatn", text_value("#182820"))));
        m.push(entry("cTakhrij", member_or_of(cfg, "cTakhrij", text_value("#1a9850"))));
        m.push(entry("cSharh", member_or_of(cfg, "cSharh", text_value("#b35900"))));
        m.push(entry("theme", member_or_of(cfg, "theme", text_value("light"))));
        proof {
            lemma_view_entries(m@);
            assert(view_entries(m@) =~= widget_payload(self@, index, is_review, cfg@)->0->Object_0);
        }
        Some(JsonValue::Object(m))
    }
}

/// The surah names listed for a page are non-empty and each appears once.
pub proof fn law_surah_names_distinct(ayahs: Seq<JsonView>)
    ensures
        forall|i: int| 0 <= i < surah_names(ayahs).len() ==> #[trigger] surah_names(ayahs)[i].len() > 0,
        forall|i: int, j: int|
            0 <= i < j < surah_names(ayahs).len() ==> #[trigger] surah_names(ayahs)[i] != #[trigger] surah_names(
                ayahs,
            )[j],
    decreases ayahs.len(),
{
    if ayahs.len() > 0 {
        law_surah_names_distinct(ayahs.drop_last());
        let names = surah_names(ayahs.drop_last());
        let n = surah_name(ayahs.last());
        if n.len() > 0 && !names.contains(n) {
            let r = names.push(n);
            assert forall|i: int, j: int| 0 <= i < j < r.len() implies #[trigger] r[i] != #[trigger] r[j] by {
                if j == names.len() {
                    assert(names[i] == r[i]);
                    if r[i] == n {
                        assert(names.contains(n));
                    }
                } else {
                    assert(names[i] == r[i] && names[j] == r[j]);
                }
            }
            assert forall|i: int| 0 <= i < r.len() implies #[trigger] r[i].len() > 0 by {
                if i < names.len() {
                    assert(names[i] == r[i]);
                }
            }
        }
    }
}

/// The hadith window's payload carries the chosen hadith as it stands: there
/// is a payload exactly when a hadith is loaded; the position is the
/// requested one, or the last hadith past the end; `total` is the number of
/// hadiths; `isReview` is as asked;
/// `text` is the hadith's `arabic` text; and each of `sanad`, `matn`,
/// `takhrij`, `sharh` and `narrator` is the hadith's text member of the same
/// name, empty when the hadith has none.
pub proof fn law_payload_carries_the_hadith(d: DataView, index: usize, is_review: bool, cfg: JsonView, t: Seq<char>)
    ensures
        (widget_payload(d, index, is_review, cfg) is Some) == (d.hadiths.len() > 0),
        d.hadiths.len() > 0 ==> ({
            let n = d.hadiths.len();
            let i: int = if index < n - 1 {
                index as int
            } else {
                n - 1
            };
            let h = d.hadiths[i];
            let p = widget_payload(d, index, is_review, cfg)->0;
            &&& i <= index
            &&& p.get("index"@) == Some(usize_json(i as usize))
            &&& p.get("isReview"@) == Some(JsonView::Bool(is_review))
            &&& p.get("total"@) == Some(usize_json(n as usize))
            &&& h.get("arabic"@) == Some(JsonView::Str(t)) ==> p.get("text"@) == Some(JsonView::Str(t))
            &&& h.get("sanad"@) == Some(JsonView::Str(t)) ==> p.get("sanad"@) == Some(JsonView::Str(t))
            &&& h.get("sanad"@) is None ==> p.get("sanad"@) == Some(JsonView::Str(Seq::empty()))
            &&& h.get("matn"@) == Some(JsonView::Str(t)) ==> p.get("matn"@) == Some(JsonView::Str(t))
            &&& h.get("matn"@) is None ==> p.get("matn"@) == Some(JsonView::Str(Seq::empty()))
            &&& h.get("takhrij"@) == Some(JsonView::Str(t)) ==> p.get("takhrij"@) == Some(JsonView::Str(t))
            &&& h.get("takhrij"@) is None ==> p.get("takhrij"@) == Some(JsonView::Str(Seq::empty()))
            &&& h.get("sharh"@) == Some(JsonView::Str(t)) ==> p.get("sharh"@) == Some(JsonView::Str(t))
            &&& h.get("sharh"@) is None ==> p.get("sharh"@) == Some(JsonView::Str(Seq::empty()))
            &&& h.get("narrator"@) == Some(JsonView::Str(t)) ==> p.get("narrator"@) == Some(JsonView::Str(t))
            &&& h.get("narrator"@) is None ==> p.get("narrator"@) == Some(JsonView::Str(Seq::empty()))
        }),
{
    if d.hadiths.len() > 0 {
        reveal_strlit("index");
        reveal_strlit("isReview");
        reveal_strlit("total");
        reveal_strlit("text");
        reveal_strlit("sanad");
        reveal_strlit("matn");
        reveal_strlit("takhrij");
        reveal_strlit("sharh");
        reveal_strlit("narrator");
        let e = widget_payload(d, index, is_review, cfg)->0->Object_0;
        assert("total"@[0] != "index"@[0]);
        assert("isReview"@.len() != "index"@.len());
        assert("isReview"@.len() != "total"@.len());
        assert("text"@.len() != "index"@.len());
        assert("text"@.len() != "isReview"@.len());
        assert("text"@.len() != "total"@.len());
        assert("sanad"@[0] != "index"@[0]);
        assert("sanad"@[0] != "total"@[0]);
        assert("text"@[0] != "matn"@[0]);
        assert("sharh"@[0] != "index"@[0]);
        assert("sharh"@[0] != "total"@[0]);
        assert("sharh"@[1] != "sanad"@[1]);
        assert("narrator"@[0] != "isReview"@[0]);
        crate::json::lemma_first_key_at(e, "index"@, 0);
        crate::json::lemma_first_key_at(e, "isReview"@, 1);
        crate::json::lemma_first_key_at(e, "total"@, 2);
        crate::json::lemma_first_key_at(e, "text"@, 3);
        crate::json::lemma_first_key_at(e, "sanad"@, 4);
        crate::json::lemma_first_key_at(e, "matn"@, 5);
        crate::json::lemma_first_key_at(e, "takhrij"@, 6);
        crate::json::lemma_first_key_at(e, "sharh"@, 7);
        crate::json::lemma_first_key_at(e, "narrator"@, 8);
    }
}

} // verus!
