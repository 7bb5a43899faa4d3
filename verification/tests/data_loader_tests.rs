use zad_al_muslim::data_loader::{sort_hadiths, DataLoader};
use zad_al_muslim::json::{JsonNumber, JsonValue};

fn num(n: i64) -> JsonValue {
    JsonValue::Number(JsonNumber::Int(n))
}

fn text(t: &str) -> JsonValue {
    JsonValue::Str(t.to_string())
}

fn obj(members: Vec<(&str, JsonValue)>) -> JsonValue {
    JsonValue::Object(members.into_iter().map(|(k, v)| (k.to_string(), v)).collect())
}

fn hadith(arabic: &str, narrator: &str, chapter: i64, id: i64) -> JsonValue {
    obj(vec![("arabic", text(arabic)), ("narrator", text(narrator)), ("chapterId", num(chapter)), ("idInBook", num(id))])
}

fn ayah(page: i64, surah: &str, t: &str) -> JsonValue {
    obj(vec![("page", num(page)), ("sura_name_ar", text(surah)), ("aya_text", text(t))])
}

#[test]
fn loads_object_form_with_chapters() {
    let parsed = obj(vec![
        ("chapters", JsonValue::Array(vec![obj(vec![("id", num(1)), ("arabic", text("باب"))])])),
        ("hadiths", JsonValue::Array(vec![hadith("abc", "n1", 1, 2), hadith("xyz", "n2", 1, 1)])),
    ]);
    let mut dl = DataLoader::new();
    assert!(dl.load_hadith_data(&parsed));
    assert_eq!(dl.hadiths_len(), 2);
    // Sorted by idInBook within chapter
    assert_eq!(dl.get_hadith(0).unwrap().get("arabic").unwrap().as_str().unwrap(), "xyz");
    assert_eq!(dl.chapter_for(1).unwrap(), "باب");
}

#[test]
fn search_caps_at_30_and_filters_case_insensitive() {
    let hadiths: Vec<JsonValue> = (0..40)
        .map(|i| obj(vec![("arabic", text(&format!("test hadith {}", i))), ("narrator", text("n"))]))
        .collect();
    let parsed = obj(vec![("chapters", JsonValue::Array(vec![])), ("hadiths", JsonValue::Array(hadiths))]);
    let mut dl = DataLoader::new();
    assert!(dl.load_hadith_data(&parsed));
    dl.build_search_index();
    let hits = dl.search_hadiths("TEST");
    assert_eq!(hits.len(), 30);
}

#[test]
fn page_ayahs_concat_text_and_dedup_surah_names() {
    let parsed = JsonValue::Array(vec![
        ayah(1, "الفاتحة", "ayah1 "),
        ayah(1, "الفاتحة", " ayah2"),
        ayah(2, "البقرة", "ayah3"),
    ]);
    let mut dl = DataLoader::new();
    dl.load_quran_data(&parsed);
    let p = dl.get_page_ayahs(1).unwrap();
    assert_eq!(p.surah_title, "الفاتحة");
    assert_eq!(p.ayah_text_html, "ayah1 ayah2");
    assert_eq!(p.first_ayah_html, "ayah1");
    assert!(dl.get_page_ayahs(99).is_none());
}

#[test]
fn page_spanning_two_surahs_names_both() {
    let parsed = JsonValue::Array(vec![
        ayah(5, "الفاتحة", "a"),
        ayah(5, "البقرة", "b"),
        ayah(5, "الفاتحة", "c"),
    ]);
    let mut dl = DataLoader::new();
    dl.load_quran_data(&parsed);
    let p = dl.get_page_ayahs(5).unwrap();
    assert_eq!(p.surah_title, "الفاتحة - البقرة");
    assert_eq!(p.ayah_text_html, "a b c");
}

#[test]
fn sort_keeps_file_order_among_equal_keys() {
    let src = vec![hadith("c", "", 2, 1), hadith("a", "", 1, 5), hadith("b", "", 1, 5), hadith("d", "", 1, 3)];
    let out = sort_hadiths(&src);
    let names: Vec<&str> = out.iter().map(|h| h.get("arabic").unwrap().as_str().unwrap()).collect();
    assert_eq!(names, vec!["d", "a", "b", "c"]);
}

#[test]
fn list_form_is_taken_as_it_stands() {
    let parsed = JsonValue::Array(vec![hadith("second", "", 9, 9), hadith("first", "", 1, 1)]);
    let mut dl = DataLoader::new();
    assert!(dl.load_hadith_data(&parsed));
    assert_eq!(dl.get_hadith(0).unwrap().get("arabic").unwrap().as_str().unwrap(), "second");
    assert!(dl.get_hadith(2).is_none());
    let mut empty = DataLoader::new();
    assert!(!empty.load_hadith_data(&JsonValue::Array(vec![])));
}

#[test]
fn search_finds_narrator_and_reports_chapter() {
    let parsed = obj(vec![
        ("chapters", JsonValue::Array(vec![obj(vec![("id", num(4)), ("arabic", text("باب الصبر"))])])),
        ("hadiths", JsonValue::Array(vec![hadith("one", "Abu Hurairah", 4, 1), hadith("two", "Anas", 4, 2)])),
    ]);
    let mut dl = DataLoader::new();
    dl.load_hadith_data(&parsed);
    dl.build_search_index();
    let hits = dl.search_hadiths("hurairah");
    assert_eq!(hits.len(), 1);
    assert_eq!(hits[0].index, 0);
    assert_eq!(hits[0].preview, "one");
    assert_eq!(hits[0].narrator, "Abu Hurairah");
    assert_eq!(hits[0].chapter, "باب الصبر");
    assert!(dl.search_hadiths("   ").is_empty());
    assert_eq!(dl.search_lowered("anas").len(), 1);
    assert_eq!(dl.search_lowered("ANAS").len(), 0);
}

#[test]
fn widget_payload_carries_hadith_and_position() {
    let parsed = obj(vec![
        ("chapters", JsonValue::Array(vec![])),
        ("hadiths", JsonValue::Array(vec![hadith("one", "n", 1, 1), hadith("two", "n", 1, 2)])),
    ]);
    let mut dl = DataLoader::new();
    dl.load_hadith_data(&parsed);
    let cfg = obj(vec![("fontSize", num(20))]);
    let p = dl.build_widget_payload(1, true, &cfg).unwrap();
    assert_eq!(p.get("index").unwrap().as_i64().unwrap(), 1);
    assert_eq!(p.get("total").unwrap().as_i64().unwrap(), 2);
    assert!(p.get("isReview").unwrap().as_bool().unwrap());
    assert_eq!(p.get("fontSize").unwrap().as_i64().unwrap(), 20);
    assert_eq!(p.get("theme").unwrap().as_str().unwrap(), "light");
    let past_end = dl.build_widget_payload(7, false, &cfg).unwrap();
    assert_eq!(past_end.get("index").unwrap().as_i64().unwrap(), 1);
    assert_eq!(past_end.get("text").unwrap().as_str().unwrap(), "two");
    assert!(DataLoader::new().build_widget_payload(0, false, &cfg).is_none());
}
