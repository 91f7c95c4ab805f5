use subtitle_renamer::classify::{classify, is_subtitle, is_video, FileCategory};

#[test]
fn every_video_extension_is_a_video() {
    for ext in ["mp4", "mkv", "avi", "mov", "wmv", "flv", "webm", "3gp", "m4v", "hevc"] {
        let name = format!("episode.{}", ext);
        assert_eq!(classify(&name), FileCategory::Video, "{}", name);
        assert!(is_video(&name));
        assert!(!is_subtitle(&name));
    }
}

#[test]
fn every_subtitle_extension_is_a_subtitle() {
    for ext in [
        "srt", "ass", "ssa", "vtt", "sub", "idx", "dfxp", "ttml", "eia-608", "smi", "cpt", "mks",
    ] {
        let name = format!("episode.{}", ext);
        assert_eq!(classify(&name), FileCategory::Subtitle, "{}", name);
        assert!(is_subtitle(&name));
        assert!(!is_video(&name));
    }
}

#[test]
fn the_case_of_the_extension_does_not_matter() {
    assert_eq!(classify("Movie.MKV"), FileCategory::Video);
    assert_eq!(classify("Movie.Mp4"), FileCategory::Video);
    assert_eq!(classify("Movie.SRT"), FileCategory::Subtitle);
    assert_eq!(classify("Movie.eIa-608"), FileCategory::Subtitle);
}

#[test]
fn other_files_are_unclassified() {
    assert_eq!(classify("notes.txt"), FileCategory::Unclassified);
    assert_eq!(classify("README"), FileCategory::Unclassified);
    assert_eq!(classify(""), FileCategory::Unclassified);
    assert_eq!(classify("movie."), FileCategory::Unclassified);
    assert_eq!(classify("movie.mp4.part"), FileCategory::Unclassified);
    assert_eq!(classify("movie.mp4x"), FileCategory::Unclassified);
    assert_eq!(classify("movie.mp"), FileCategory::Unclassified);
}

#[test]
fn a_leading_dot_is_no_extension() {
    assert_eq!(classify(".srt"), FileCategory::Unclassified);
    assert_eq!(classify("dir/.mp4"), FileCategory::Unclassified);
    assert_eq!(classify(".hidden.srt"), FileCategory::Subtitle);
}

#[test]
fn only_the_file_name_counts() {
    assert_eq!(classify("shows.mkv/readme"), FileCategory::Unclassified);
    assert_eq!(classify("shows.d/one.mkv"), FileCategory::Video);
    assert_eq!(classify("/srv/media/one.en.srt"), FileCategory::Subtitle);
}

#[test]
fn classify_gives_the_same_answer_each_time() {
    for name in ["a.mp4", "b.srt", "c", "d.tar.gz", "E.ASS"] {
        assert_eq!(classify(name), classify(name));
        assert!(!(is_video(name) && is_subtitle(name)));
    }
}
