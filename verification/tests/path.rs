use subtitle_renamer::path::{base_name_of, directory_of, extension_of, file_name_of};

#[test]
fn a_path_splits_into_directory_and_file_name() {
    assert_eq!(directory_of("/srv/media/film.mkv"), "/srv/media/");
    assert_eq!(file_name_of("/srv/media/film.mkv"), "film.mkv");
    assert_eq!(directory_of("film.mkv"), "");
    assert_eq!(file_name_of("film.mkv"), "film.mkv");
    assert_eq!(directory_of("a/b/"), "a/b/");
    assert_eq!(file_name_of("a/b/"), "");
}

#[test]
fn a_file_name_splits_at_its_last_dot() {
    assert_eq!(base_name_of("film.en.srt"), "film.en");
    assert_eq!(extension_of("film.en.srt"), Some("srt"));
    assert_eq!(base_name_of("dir.d/film"), "film");
    assert_eq!(extension_of("dir.d/film"), None);
    assert_eq!(base_name_of("film."), "film");
    assert_eq!(extension_of("film."), Some(""));
}

#[test]
fn a_hidden_file_has_no_extension() {
    assert_eq!(base_name_of(".profile"), ".profile");
    assert_eq!(extension_of(".profile"), None);
    assert_eq!(base_name_of(".profile.bak"), ".profile");
    assert_eq!(extension_of(".profile.bak"), Some("bak"));
}

#[test]
fn the_extension_keeps_its_case() {
    assert_eq!(extension_of("Film.SRT"), Some("SRT"));
}

#[test]
fn names_beyond_ascii_are_split_by_character() {
    assert_eq!(base_name_of("影片/第一集.中文.srt"), "第一集.中文");
    assert_eq!(extension_of("影片/第一集.中文.srt"), Some("srt"));
    assert_eq!(directory_of("影片/第一集.srt"), "影片/");
}
