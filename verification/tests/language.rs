use subtitle_renamer::language::{
    accept_code, detect_subtitle_language, extract_language_from_filename, is_language_code_text,
    pick_tag, resolve, resolve_with,
};

fn tag(text: &str) -> Option<String> {
    Some(text.to_string())
}

fn never(path: &String) -> Option<String> {
    panic!("the content of {} was asked for", path)
}

#[test]
fn a_code_between_dots_is_the_tag() {
    assert_eq!(extract_language_from_filename("film.en.srt"), tag("en"));
    assert_eq!(extract_language_from_filename("film.zh-cn.ass"), tag("zh-cn"));
    assert_eq!(extract_language_from_filename("film.zh-hans.srt"), tag("zh-hans"));
    assert_eq!(extract_language_from_filename("film.zh-hant.srt"), tag("zh-hant"));
    assert_eq!(extract_language_from_filename("film.eng.srt"), tag("eng"));
}

#[test]
fn every_code_is_read() {
    for code in [
        "zh", "zh-cn", "zh-hans", "zh-hant", "en", "eng", "ja", "jp", "ko", "kr", "fr", "de", "es",
        "it", "ru",
    ] {
        assert!(is_language_code_text(code));
        assert_eq!(extract_language_from_filename(&format!("film.{}.srt", code)), tag(code));
        assert_eq!(extract_language_from_filename(&format!("film_{}.srt", code)), tag(code));
        assert_eq!(extract_language_from_filename(&format!("film.{}", code)), tag(code));
    }
}

#[test]
fn a_code_behind_an_underscore_is_the_tag() {
    assert_eq!(extract_language_from_filename("film_ja.srt"), tag("ja"));
    assert_eq!(extract_language_from_filename("my_film_ko.vtt"), tag("ko"));
}

#[test]
fn a_code_at_the_end_is_the_tag() {
    assert_eq!(extract_language_from_filename("film.ru"), tag("ru"));
}

#[test]
fn a_name_without_a_code_has_no_tag() {
    assert_eq!(extract_language_from_filename("film.srt"), None);
    assert_eq!(extract_language_from_filename("film.english.srt"), None);
    assert_eq!(extract_language_from_filename("film-en.srt"), None);
    assert_eq!(extract_language_from_filename("film.EN.srt"), None);
    assert_eq!(extract_language_from_filename("en.srt"), None);
    assert_eq!(extract_language_from_filename(""), None);
}

#[test]
fn dots_come_before_underscores() {
    // An underscore tag stands first in the name, but the tag between dots
    // is looked for first.
    assert_eq!(extract_language_from_filename("film_en.v2.zh.srt"), tag("zh"));
    assert_eq!(extract_language_from_filename("film_en.fr"), tag("fr"));
}

#[test]
fn the_first_of_two_tags_between_dots_wins() {
    assert_eq!(extract_language_from_filename("film.ja.en.srt"), tag("ja"));
}

#[test]
fn only_language_codes_are_accepted() {
    assert_eq!(accept_code(tag("fr")), tag("fr"));
    assert_eq!(accept_code(tag("film.fr.srt")), None);
    assert_eq!(accept_code(tag("xx")), None);
    assert_eq!(accept_code(tag("")), None);
    assert_eq!(accept_code(None), None);
    assert!(!is_language_code_text("EN"));
    assert!(!is_language_code_text("zh-"));
}

#[test]
fn a_tag_in_the_name_is_returned_without_loading() {
    assert_eq!(resolve(&"film.en.srt".to_string(), &never), tag("en"));
    assert_eq!(resolve(&"/media/film_zh.srt".to_string(), &never), tag("zh"));
    assert_eq!(resolve_with(tag("de"), &"film.srt".to_string(), &never), tag("de"));
}

#[test]
fn only_the_file_name_is_searched_for_a_tag() {
    let load = |_: &String| -> Option<String> { None };
    assert_eq!(resolve(&"/media/shows.en.d/film.srt".to_string(), &load), None);
}

#[test]
fn without_a_tag_in_the_name_the_content_decides() {
    let chinese = |_: &String| -> Option<String> { Some("你好，世界".to_string()) };
    let english = |_: &String| -> Option<String> { Some("Hello, world".to_string()) };
    let numbers = |_: &String| -> Option<String> { Some("1\n2\n3\n".to_string()) };
    let path = "film.srt".to_string();
    assert_eq!(resolve(&path, &chinese), tag("zh"));
    assert_eq!(resolve(&path, &english), tag("en"));
    assert_eq!(resolve(&path, &numbers), None);
    assert_eq!(resolve_with(None, &path, &english), tag("en"));
    assert_eq!(detect_subtitle_language(&path, &chinese), tag("zh"));
}

#[test]
fn content_that_cannot_be_loaded_gives_no_tag() {
    let load = |_: &String| -> Option<String> { None };
    assert_eq!(resolve(&"film.srt".to_string(), &load), None);
    assert_eq!(detect_subtitle_language(&"film.srt".to_string(), &load), None);
}

#[test]
fn the_loader_is_asked_for_the_path_of_the_subtitle() {
    let load = |path: &String| -> Option<String> {
        assert_eq!(path, "/media/film.srt");
        Some("plain words".to_string())
    };
    assert_eq!(resolve(&"/media/film.srt".to_string(), &load), tag("en"));
}

#[test]
fn the_first_capture_that_is_a_code_is_picked() {
    assert_eq!(pick_tag(tag("ja"), tag("en"), tag("fr")), tag("ja"));
    assert_eq!(pick_tag(None, tag("en"), tag("fr")), tag("en"));
    assert_eq!(pick_tag(None, None, tag("fr")), tag("fr"));
    assert_eq!(pick_tag(None, None, None), None);
}

#[test]
fn a_capture_that_is_no_code_is_passed_over() {
    assert_eq!(pick_tag(tag("english"), tag("en"), tag("fr")), tag("en"));
    assert_eq!(pick_tag(tag("english"), tag(""), tag("fr")), tag("fr"));
    assert_eq!(pick_tag(tag("english"), None, tag("FR")), None);
}
