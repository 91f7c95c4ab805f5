//! Telling videos, subtitles and other files apart by their extension.

use vstd::prelude::*;
use crate::path::{extension, file_name, name_bounds};
use crate::text::{chars_of, lowered, range_reads_lowered};

verus! {

/// What kind of file a name stands for.
#[derive(Clone, Copy, Debug, PartialEq, Eq, Structural)]
pub enum FileCategory {
    Video,
    Subtitle,
    /// Neither: such a file is left alone.
    Unclassified,
}

/// The extensions of video files, in lower case.
pub open spec fn is_video_extension(ext: Seq<char>) -> bool {
    ext == "mp4"@ || ext == "mkv"@ || ext == "avi"@ || ext == "mov"@ || ext == "wmv"@
        || ext == "flv"@ || ext == "webm"@ || ext == "3gp"@ || ext == "m4v"@ || ext == "hevc"@
}

/// The extensions of subtitle files, in lower case.
pub open spec fn is_subtitle_extension(ext: Seq<char>) -> bool {
    ext == "srt"@ || ext == "ass"@ || ext == "ssa"@ || ext == "vtt"@ || ext == "sub"@
        || ext == "idx"@ || ext == "dfxp"@ || ext == "ttml"@ || ext == "eia-608"@
        || ext == "smi"@ || ext == "cpt"@ || ext == "mks"@
}

/// The category of a path: that of its extension, whatever the case of its
/// letters; a path without an extension has none.
pub open spec fn category(path: Seq<char>) -> FileCategory {
    match extension(path) {
        Some(ext) => if is_video_extension(lowered(ext)) {
            FileCategory::Video
        } else if is_subtitle_extension(lowered(ext)) {
            FileCategory::Subtitle
        } else {
            FileCategory::Unclassified
        },
        None => FileCategory::Unclassified,
    }
}

/// No extension is both a video's and a subtitle's.
pub proof fn lemma_extension_sets_disjoint(ext: Seq<char>)
    ensures
        !(is_video_extension(ext) && is_subtitle_extension(ext)),
{
    reveal_strlit("mp4");
    reveal_strlit("mkv");
    reveal_strlit("avi");
    reveal_strlit("mov");
    reveal_strlit("wmv");
    reveal_strlit("flv");
    reveal_strlit("webm");
    reveal_strlit("3gp");
    reveal_strlit("m4v");
    reveal_strlit("hevc");
    reveal_strlit("srt");
    reveal_strlit("ass");
    reveal_strlit("ssa");
    reveal_strlit("vtt");
    reveal_strlit("sub");
    reveal_strlit("idx");
    reveal_strlit("dfxp");
    reveal_strlit("ttml");
    reveal_strlit("eia-608");
    reveal_strlit("smi");
    reveal_strlit("cpt");
    reveal_strlit("mks");
    if is_video_extension(ext) && is_subtitle_extension(ext) {
        // The extensions differ in one of their first three characters.
        assert(ext.len() >= 3);
        let first = ext[0];
        let second = ext[1];
        let third = ext[2];
        assert(false);
    }
}

/// A path is a video exactly where its extension is a video's, and a
/// subtitle exactly where its extension is a subtitle's: never both.
pub proof fn lemma_category_by_extension(path: Seq<char>)
    ensures
        category(path) == FileCategory::Video <==> extension(path) is Some && is_video_extension(
            lowered(extension(path).unwrap()),
        ),
        category(path) == FileCategory::Subtitle <==> extension(path) is Some
            && is_subtitle_extension(lowered(extension(path).unwrap())),
{
    if extension(path) is Some {
        lemma_extension_sets_disjoint(lowered(extension(path).unwrap()));
    }
}

/// Whether `chars[from..to]` is the extension of a video, whatever the case
/// of its letters.
fn reads_video_extension(chars: &Vec<char>, from: usize, to: usize) -> (yes: bool)
    requires
        from <= to <= chars.len(),
    ensures
        yes == is_video_extension(lowered(chars@.subrange(from as int, to as int))),
{
    range_reads_lowered(chars, from, to, "mp4")
        || range_reads_lowered(chars, from, to, "mkv")
        || range_reads_lowered(chars, from, to, "avi")
        || range_reads_lowered(chars, from, to, "mov")
        || range_reads_lowered(chars, from, to, "wmv")
        || range_reads_lowered(chars, from, to, "flv")
        || range_reads_lowered(chars, from, to, "webm")
        || range_reads_lowered(chars, from, to, "3gp")
        || range_reads_lowered(chars, from, to, "m4v")
        || range_reads_lowered(chars, from, to, "hevc")
}

/// Whether `chars[from..to]` is the extension of a subtitle, whatever the
/// case of its letters.
fn reads_subtitle_extension(chars: &Vec<char>, from: usize, to: usize) -> (yes: bool)
    requires
        from <= to <= chars.len(),
    ensures
        yes == is_subtitle_extension(lowered(chars@.subrange(from as int, to as int))),
{
    range_reads_lowered(chars, from, to, "srt")
        || range_reads_lowered(chars, from, to, "ass")
        || range_reads_lowered(chars, from, to, "ssa")
        || range_reads_lowered(chars, from, to, "vtt")
        || range_reads_lowered(chars, from, to, "sub")
        || range_reads_lowered(chars, from, to, "idx")
        || range_reads_lowered(chars, from, to, "dfxp")
        || range_reads_lowered(chars, from, to, "ttml")
        || range_reads_lowered(chars, from, to, "eia-608")
        || range_reads_lowered(chars, from, to, "smi")
        || range_reads_lowered(chars, from, to, "cpt")
        || range_reads_lowered(chars, from, to, "mks")
}

/// Says what kind of file `path` names, by its extension.
pub fn classify(path: &str) -> (kind: FileCategory)
    ensures
        kind == category(path@),
{
    let chars = chars_of(path);
    let (start, dot) = name_bounds(&chars);
    let len = chars.len();
    match dot {
        Some(dot) => {
            let from: usize = dot + 1;
            proof {
                let name = file_name(path@);
                assert(name == path@.subrange(start as int, len as int));
                assert(chars@.subrange(from as int, len as int) =~= name.skip(dot - start + 1));
            }
            if reads_video_extension(&chars, from, len) {
                FileCategory::Video
            } else if reads_subtitle_extension(&chars, from, len) {
                FileCategory::Subtitle
            } else {
                FileCategory::Unclassified
            }
        },
        None => FileCategory::Unclassified,
    }
}

/// Whether `file` is a video.
pub fn is_video(file: &str) -> (yes: bool)
    ensures
        yes == (category(file@) == FileCategory::Video),
{
    match classify(file) {
        FileCategory::Video => true,
        _ => false,
    }
}

/// Whether `file` is a subtitle.
pub fn is_subtitle(file: &str) -> (yes: bool)
    ensures
        yes == (category(file@) == FileCategory::Subtitle),
{
    match classify(file) {
        FileCategory::Subtitle => true,
        _ => false,
    }
}

} // verus!
