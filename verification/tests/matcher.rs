use subtitle_renamer::matcher::{
    find_collision, generate_new_name, match_files, match_files_strict, name_with_tag, sort_files,
    CountMismatch,
};

fn list(names: &[&str]) -> Vec<String> {
    names.iter().map(|name| name.to_string()).collect()
}

fn entry(source: &str, target: &str) -> (String, String) {
    (source.to_string(), target.to_string())
}

fn nothing(_: &String) -> Option<String> {
    None
}

#[test]
fn files_are_sorted_by_code_point() {
    let mut files = list(&["b.mkv", "a.mkv", "B.mkv", "10.mkv", "9.mkv", "ab.mkv", "a"]);
    sort_files(&mut files);
    assert_eq!(files, list(&["10.mkv", "9.mkv", "B.mkv", "a", "a.mkv", "ab.mkv", "b.mkv"]));
}

#[test]
fn files_are_sorted_by_name_not_by_directory() {
    let mut files = list(&["z/a.srt", "a/z.srt", "m.srt"]);
    sort_files(&mut files);
    assert_eq!(files, list(&["z/a.srt", "m.srt", "a/z.srt"]));
}

#[test]
fn files_of_one_name_stay_in_their_order() {
    let mut files = list(&["two/a.srt", "one/a.srt", "three/a.srt", "0.srt"]);
    sort_files(&mut files);
    assert_eq!(files, list(&["0.srt", "two/a.srt", "one/a.srt", "three/a.srt"]));
}

#[test]
fn names_beyond_ascii_sort_behind_ascii() {
    let mut files = list(&["é.srt", "z.srt", "字.srt", "~.srt"]);
    sort_files(&mut files);
    assert_eq!(files, list(&["z.srt", "~.srt", "é.srt", "字.srt"]));
}

#[test]
fn sorting_nothing_gives_nothing() {
    let mut files: Vec<String> = Vec::new();
    sort_files(&mut files);
    assert!(files.is_empty());
}

#[test]
fn matching_pairs_the_sorted_lists() {
    let plan = match_files(list(&["b.mp4", "a.mkv"]), list(&["y.srt", "x.ass"]), &nothing);
    assert_eq!(plan, vec![entry("x.ass", "a.ass"), entry("y.srt", "b.srt")]);
}

#[test]
fn matching_does_not_depend_on_the_order_of_the_input() {
    let one = match_files(list(&["b.mp4", "a.mkv", "c.avi"]), list(&["y.srt", "x.ass", "z.vtt"]), &nothing);
    let other = match_files(list(&["c.avi", "a.mkv", "b.mp4"]), list(&["z.vtt", "y.srt", "x.ass"]), &nothing);
    assert_eq!(one, other);
    assert_eq!(one, vec![entry("x.ass", "a.ass"), entry("y.srt", "b.srt"), entry("z.vtt", "c.vtt")]);
}

#[test]
fn a_video_in_excess_is_left_alone() {
    let plan = match_files(list(&["a.mkv", "b.mkv", "c.mkv"]), list(&["2.srt", "1.srt"]), &nothing);
    assert_eq!(plan, vec![entry("1.srt", "a.srt"), entry("2.srt", "b.srt")]);
}

#[test]
fn a_subtitle_in_excess_is_left_alone() {
    let plan = match_files(list(&["a.mkv"]), list(&["2.srt", "1.srt", "3.srt"]), &nothing);
    assert_eq!(plan, vec![entry("1.srt", "a.srt")]);
}

#[test]
fn an_empty_list_gives_an_empty_plan() {
    assert!(match_files(Vec::new(), list(&["1.srt"]), &nothing).is_empty());
    assert!(match_files(list(&["a.mkv"]), Vec::new(), &nothing).is_empty());
    assert!(match_files(Vec::new(), Vec::new(), &nothing).is_empty());
}

#[test]
fn the_subtitle_stays_in_its_directory() {
    let plan = match_files(list(&["/videos/film.mkv"]), list(&["/subs/download.srt"]), &nothing);
    assert_eq!(plan, vec![entry("/subs/download.srt", "/subs/film.srt")]);
}

#[test]
fn a_tag_in_the_name_is_kept() {
    let never = |path: &String| -> Option<String> { panic!("{} was loaded", path) };
    let plan = match_files(
        list(&["s01e02.mkv", "s01e01.mkv"]),
        list(&["ep1.zh-cn.srt", "ep2_en.ass"]),
        &never,
    );
    assert_eq!(
        plan,
        vec![entry("ep1.zh-cn.srt", "s01e01.zh-cn.srt"), entry("ep2_en.ass", "s01e02.en.ass")]
    );
}

#[test]
fn a_tag_is_taken_from_the_content() {
    let load = |path: &String| -> Option<String> {
        if path == "1.srt" {
            Some("1\n00:00:01,000 --> 00:00:02,000\n早上好\n".to_string())
        } else {
            Some("1\n00:00:01,000 --> 00:00:02,000\nGood morning\n".to_string())
        }
    };
    let plan = match_files(list(&["a.mkv", "b.mkv"]), list(&["2.srt", "1.srt"]), &load);
    assert_eq!(plan, vec![entry("1.srt", "a.zh.srt"), entry("2.srt", "b.en.srt")]);
}

#[test]
fn only_paired_subtitles_are_loaded() {
    let load = |path: &String| -> Option<String> {
        assert_eq!(path, "1.srt");
        None
    };
    let plan = match_files(list(&["a.mkv"]), list(&["2.srt", "1.srt"]), &load);
    assert_eq!(plan, vec![entry("1.srt", "a.srt")]);
}

#[test]
fn a_directory_that_is_named_already_gives_renames_to_self() {
    let plan = match_files(
        list(&["show.e02.mkv", "show.e01.mkv"]),
        list(&["show.e01.srt", "show.e02.ass"]),
        &nothing,
    );
    assert_eq!(
        plan,
        vec![entry("show.e01.srt", "show.e01.srt"), entry("show.e02.ass", "show.e02.ass")]
    );
}

#[test]
fn a_second_run_changes_nothing() {
    let load = |_: &String| -> Option<String> { Some("Good morning".to_string()) };
    let videos = list(&["a.mkv", "b.mkv"]);
    let first = match_files(videos.clone(), list(&["x.srt", "y.zh.srt"]), &load);
    assert_eq!(first, vec![entry("x.srt", "a.en.srt"), entry("y.zh.srt", "b.zh.srt")]);
    let renamed: Vec<String> = first.iter().map(|(_, target)| target.clone()).collect();
    let second = match_files(videos, renamed, &load);
    assert_eq!(second, vec![entry("a.en.srt", "a.en.srt"), entry("b.zh.srt", "b.zh.srt")]);
}

#[test]
fn two_subtitles_may_get_one_target() {
    let plan = match_files(list(&["film.mkv", "film.mp4"]), list(&["one.srt", "two.srt"]), &nothing);
    assert_eq!(plan, vec![entry("one.srt", "film.srt"), entry("two.srt", "film.srt")]);
    assert_eq!(find_collision(&plan), Some((0, 1)));
}

#[test]
fn the_first_collision_is_found() {
    let plan = vec![
        entry("a", "x"),
        entry("b", "y"),
        entry("c", "z"),
        entry("d", "y"),
        entry("e", "x"),
        entry("f", "x"),
    ];
    assert_eq!(find_collision(&plan), Some((1, 3)));
}

#[test]
fn a_plan_with_different_targets_has_no_collision() {
    let plan = vec![entry("a", "x"), entry("b", "y"), entry("c", "a")];
    assert_eq!(find_collision(&plan), None);
    assert_eq!(find_collision(&Vec::new()), None);
}

#[test]
fn a_subtitle_without_extension_gets_none() {
    let plan = match_files(list(&["film.mkv"]), list(&["subtitle"]), &nothing);
    assert_eq!(plan, vec![entry("subtitle", "film.")]);
}

#[test]
fn the_extension_keeps_its_letters() {
    let plan = match_files(list(&["Film.MKV"]), list(&["x.SRT"]), &nothing);
    assert_eq!(plan, vec![entry("x.SRT", "Film.SRT")]);
}

#[test]
fn the_new_name_is_stem_tag_and_extension() {
    assert_eq!(name_with_tag("dir/film.2019.mkv", "x.srt", &None), "film.2019.srt");
    assert_eq!(name_with_tag("film.mkv", "sub/x.ass", &Some("ja".to_string())), "film.ja.ass");
    assert_eq!(name_with_tag("film", "x.srt", &None), "film.srt");
}

#[test]
fn the_new_name_carries_the_language() {
    let load = |_: &String| -> Option<String> { Some("你好".to_string()) };
    let video = "film.mkv".to_string();
    assert_eq!(generate_new_name(&video, &"x.srt".to_string(), &load), "film.zh.srt");
    assert_eq!(generate_new_name(&video, &"x.fr.srt".to_string(), &load), "film.fr.srt");
    assert_eq!(generate_new_name(&video, &"x.srt".to_string(), &nothing), "film.srt");
}

#[test]
fn strict_matching_wants_equal_counts() {
    let planned = match_files_strict(list(&["a.mkv", "b.mkv", "c.mkv"]), list(&["1.srt", "2.srt"]), &nothing);
    assert_eq!(planned, Err(CountMismatch { subtitles: 2, videos: 3 }));
    let planned = match_files_strict(list(&["a.mkv"]), list(&["1.srt", "2.srt"]), &nothing);
    assert_eq!(planned, Err(CountMismatch { subtitles: 2, videos: 1 }));
}

#[test]
fn strict_matching_of_equal_counts_gives_the_plan() {
    let planned = match_files_strict(list(&["b.mkv", "a.mkv"]), list(&["1.srt", "2.srt"]), &nothing);
    assert_eq!(planned, Ok(vec![entry("1.srt", "a.srt"), entry("2.srt", "b.srt")]));
    let planned = match_files_strict(Vec::new(), Vec::new(), &nothing);
    assert_eq!(planned, Ok(Vec::new()));
}
