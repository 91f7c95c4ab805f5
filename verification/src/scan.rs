//! Reading a directory listing: which of its entries are subtitles and which
//! are videos.

use vstd::prelude::*;
use crate::classify::{category, classify, FileCategory};
use crate::matcher::{lemma_sort_by_name, sort_by_name, sort_files, texts};

verus! {

/// Those of `paths` that are of the category `kind`, in the order in which
/// they stand.
pub open spec fn those_of(paths: Seq<Seq<char>>, kind: FileCategory) -> Seq<Seq<char>> {
    paths.filter(|path: Seq<char>| category(path) == kind)
}

/// Each of `those_of(paths, kind)` is of the category `kind`.
pub proof fn lemma_those_of(paths: Seq<Seq<char>>, kind: FileCategory)
    ensures
        forall|i: int|
            0 <= i < those_of(paths, kind).len() ==> category(#[trigger] those_of(paths, kind)[i])
                == kind,
{
    let is_kind = |path: Seq<char>| category(path) == kind;
    assert forall|i: int| 0 <= i < those_of(paths, kind).len() implies category(
        #[trigger] those_of(paths, kind)[i],
    ) == kind by {
        paths.lemma_filter_pred(is_kind, i);
    }
}

/// Sorting those of a category keeps them of that category.
proof fn lemma_sorted_are_of(paths: Seq<Seq<char>>, kind: FileCategory)
    ensures
        forall|i: int|
            0 <= i < sort_by_name(those_of(paths, kind)).len() ==> category(
                #[trigger] sort_by_name(those_of(paths, kind))[i],
            ) == kind,
{
    broadcast use vstd::seq_lib::to_multiset_contains;

    let chosen = those_of(paths, kind);
    let sorted = sort_by_name(chosen);
    lemma_those_of(paths, kind);
    lemma_sort_by_name(chosen);
    assert forall|i: int| 0 <= i < sorted.len() implies category(#[trigger] sorted[i])
        == kind by {
        assert(sorted.contains(sorted[i]));
        assert(chosen.to_multiset().count(sorted[i]) > 0);
        assert(chosen.contains(sorted[i]));
    }
}

/// Takes the entries of a directory and hands out its subtitles and its
/// videos, each list in the order of the file names. Entries that are
/// neither are left out.
pub fn scan_directory(entries: Vec<String>) -> (found: (Vec<String>, Vec<String>))
    ensures
        texts(found.0@) == sort_by_name(those_of(texts(entries@), FileCategory::Subtitle)),
        texts(found.1@) == sort_by_name(those_of(texts(entries@), FileCategory::Video)),
        forall|i: int|
            0 <= i < found.0.len() ==> category((#[trigger] found.0[i])@)
                == FileCategory::Subtitle,
        forall|i: int|
            0 <= i < found.1.len() ==> category((#[trigger] found.1[i])@) == FileCategory::Video,
        forall|i: int| 0 <= i < found.0.len() ==> entries@.contains(#[trigger] found.0[i]),
        forall|i: int| 0 <= i < found.1.len() ==> entries@.contains(#[trigger] found.1[i]),
{
    let mut subtitles: Vec<String> = Vec::new();
    let mut videos: Vec<String> = Vec::new();
    let mut i: usize = 0;
    assert(texts(entries@).take(0) =~= Seq::<Seq<char>>::empty());
    while i < entries.len()
        invariant
            i <= entries.len(),
            forall|k: int|
                0 <= k < subtitles.len() ==> entries@.contains(#[trigger] subtitles[k]),
            forall|k: int| 0 <= k < videos.len() ==> entries@.contains(#[trigger] videos[k]),
            texts(subtitles@) == those_of(texts(entries@).take(i as int), FileCategory::Subtitle),
            texts(videos@) == those_of(texts(entries@).take(i as int), FileCategory::Video),
        decreases entries.len() - i,
    {
        let entry = &entries[i];
        let ghost seen = texts(entries@).take(i as int);
        proof {
            assert(texts(entries@).take(i + 1) == seen.push(entry@));
            seen.lemma_filter_push(
                entry@,
                |path: Seq<char>| category(path) == FileCategory::Subtitle,
            );
            seen.lemma_filter_push(
                entry@,
                |path: Seq<char>| category(path) == FileCategory::Video,
            );
        }
        match classify(entry.as_str()) {
            FileCategory::Subtitle => {
                let ghost before = texts(subtitles@);
                subtitles.push(entry.clone());
                assert(texts(subtitles@) =~= before.push(entry@));
                assert(subtitles[subtitles.len() - 1] == entries@[i as int]);
            },
            FileCategory::Video => {
                let ghost before = texts(videos@);
                videos.push(entry.clone());
                assert(texts(videos@) =~= before.push(entry@));
                assert(videos[videos.len() - 1] == entries@[i as int]);
            },
            FileCategory::Unclassified => {},
        }
        i = i + 1;
    }
    assert(texts(entries@).take(i as int) == texts(entries@));
    let ghost unsorted_subtitles = subtitles@;
    let ghost unsorted_videos = videos@;
    sort_files(&mut subtitles);
    sort_files(&mut videos);
    proof {
        assert forall|k: int| 0 <= k < subtitles.len() implies entries@.contains(
            #[trigger] subtitles[k],
        ) by {
            assert(unsorted_subtitles.contains(subtitles[k]));
        }
        assert forall|k: int| 0 <= k < videos.len() implies entries@.contains(
            #[trigger] videos[k],
        ) by {
            assert(unsorted_videos.contains(videos[k]));
        }
        lemma_sorted_are_of(texts(entries@), FileCategory::Subtitle);
        lemma_sorted_are_of(texts(entries@), FileCategory::Video);
        assert forall|i: int| 0 <= i < subtitles.len() implies category(
            (#[trigger] subtitles[i])@,
        ) == FileCategory::Subtitle by {
            assert(texts(subtitles@)[i] == subtitles[i]@);
        }
        assert forall|i: int| 0 <= i < videos.len() implies category((#[trigger] videos[i])@)
            == FileCategory::Video by {
            assert(texts(videos@)[i] == videos[i]@);
        }
    }
    (subtitles, videos)
}

} // verus!
