use subtitle_renamer::scan::scan_directory;

fn list(names: &[&str]) -> Vec<String> {
    names.iter().map(|name| name.to_string()).collect()
}

#[test]
fn a_listing_is_split_into_subtitles_and_videos() {
    let (subtitles, videos) = scan_directory(list(&[
        "b.mkv", "x.srt", "readme.md", "a.MP4", "folder", "c.Ass", ".srt", "z.hevc",
    ]));
    assert_eq!(subtitles, list(&["c.Ass", "x.srt"]));
    assert_eq!(videos, list(&["a.MP4", "b.mkv", "z.hevc"]));
}

#[test]
fn an_empty_listing_has_neither() {
    let (subtitles, videos) = scan_directory(Vec::new());
    assert!(subtitles.is_empty());
    assert!(videos.is_empty());
}

#[test]
fn entries_keep_their_paths() {
    let (subtitles, videos) = scan_directory(list(&["/r/2.srt", "/r/1.srt", "/r/v.mkv"]));
    assert_eq!(subtitles, list(&["/r/1.srt", "/r/2.srt"]));
    assert_eq!(videos, list(&["/r/v.mkv"]));
}
