//! Pairing subtitles with videos: both lists are put in the order of their
//! file names and paired position by position, and each subtitle gets the
//! name of its video.

use vstd::prelude::*;
use crate::classify::{category, FileCategory};
use crate::language::{
    is_language_code, lemma_language_code_letters, lemma_resolved_tag_is_code, resolve,
    resolves_to,
};
use crate::path::{
    base_name_of, directory, directory_of, extension, extension_of, file_name, file_name_of,
    has_extension, lemma_name_parts, lemma_path_parts, stem,
};
use crate::text::{
    chars_of, last_index_of, lemma_last_index_of, lemma_last_index_of_absent,
    lemma_last_index_of_concat, lemma_text_le_antisymmetric, lemma_text_le_total,
    lemma_text_le_transitive, stands_before, text_le, text_of,
};

verus! {

/// What each of `files` reads.
pub open spec fn texts(files: Seq<String>) -> Seq<Seq<char>> {
    Seq::new(files.len(), |i: int| files[i]@)
}

/// Whether the path `a` may stand before the path `b`: its file name stands
/// before that of `b`, or is the same.
pub open spec fn name_le(a: Seq<char>, b: Seq<char>) -> bool {
    text_le(file_name(a), file_name(b))
}

/// Whether `paths` are in the order of their file names.
pub open spec fn is_sorted_by_name(paths: Seq<Seq<char>>) -> bool {
    forall|i: int, j: int| 0 <= i <= j < paths.len() ==> name_le(paths[i], paths[j])
}

/// Where `path` goes into `sorted`: behind the last path that may stand
/// before it, so behind those of the same file name.
pub open spec fn insert_position(sorted: Seq<Seq<char>>, path: Seq<char>) -> int
    decreases sorted.len(),
{
    if sorted.len() == 0 || name_le(sorted.last(), path) {
        sorted.len() as int
    } else {
        insert_position(sorted.drop_last(), path)
    }
}

/// `paths` in the order of their file names; paths of the same file name
/// stay in the order in which they came.
pub open spec fn sort_by_name(paths: Seq<Seq<char>>) -> Seq<Seq<char>>
    decreases paths.len(),
{
    if paths.len() == 0 {
        Seq::empty()
    } else {
        let before = sort_by_name(paths.drop_last());
        before.insert(insert_position(before, paths.last()), paths.last())
    }
}

/// The place where a path goes in lies within the list; what stands at or
/// behind it may not stand before the path, and what stands just before it
/// may.
pub proof fn lemma_insert_position(sorted: Seq<Seq<char>>, path: Seq<char>)
    ensures
        0 <= insert_position(sorted, path) <= sorted.len(),
        forall|i: int|
            insert_position(sorted, path) <= i < sorted.len() ==> !name_le(
                #[trigger] sorted[i],
                path,
            ),
        insert_position(sorted, path) > 0 ==> name_le(
            sorted[insert_position(sorted, path) - 1],
            path,
        ),
    decreases sorted.len(),
{
    if sorted.len() > 0 && !name_le(sorted.last(), path) {
        let rest = sorted.drop_last();
        lemma_insert_position(rest, path);
        assert forall|i: int| insert_position(sorted, path) <= i < sorted.len() implies !name_le(
            #[trigger] sorted[i],
            path,
        ) by {
            if i < sorted.len() - 1 {
                assert(rest[i] == sorted[i]);
            }
        }
        if insert_position(sorted, path) > 0 {
            assert(rest[insert_position(rest, path) - 1] == sorted[insert_position(sorted, path)
                - 1]);
        }
    }
}

/// Sorting keeps every path, as often as it came, and puts the paths in the
/// order of their file names.
pub proof fn lemma_sort_by_name(paths: Seq<Seq<char>>)
    ensures
        sort_by_name(paths).len() == paths.len(),
        sort_by_name(paths).to_multiset() == paths.to_multiset(),
        is_sorted_by_name(sort_by_name(paths)),
    decreases paths.len(),
{
    broadcast use vstd::seq_lib::to_multiset_build, vstd::seq_lib::to_multiset_insert;

    if paths.len() == 0 {
        assert(paths =~= Seq::<Seq<char>>::empty());
    } else {
        let before = sort_by_name(paths.drop_last());
        let path = paths.last();
        let at = insert_position(before, path);
        let after = before.insert(at, path);
        lemma_sort_by_name(paths.drop_last());
        lemma_insert_position(before, path);
        assert(paths =~= paths.drop_last().push(path));
        assert(after.to_multiset() == paths.to_multiset());
        assert forall|i: int, j: int| 0 <= i <= j < after.len() implies name_le(
            after[i],
            after[j],
        ) by {
            lemma_inserted_in_order(before, path, i, j);
        }
    }
}

/// In a sorted list with `path` put in at its place, what stands at `i` may
/// stand before what stands at `j`, for `i` before `j`.
proof fn lemma_inserted_in_order(before: Seq<Seq<char>>, path: Seq<char>, i: int, j: int)
    requires
        is_sorted_by_name(before),
        0 <= i <= j < before.len() + 1,
    ensures
        name_le(
            before.insert(insert_position(before, path), path)[i],
            before.insert(insert_position(before, path), path)[j],
        ),
{
    let at = insert_position(before, path);
    let after = before.insert(at, path);
    lemma_insert_position(before, path);
    before.insert_ensures(at, path);
    crate::text::lemma_text_le_reflexive(file_name(path));
    if i == j {
        crate::text::lemma_text_le_reflexive(file_name(after[i]));
    } else if j < at {
        assert(after[i] == before[i] && after[j] == before[j]);
    } else if j == at {
        assert(after[i] == before[i]);
        assert(name_le(before[i], before[at - 1]));
        lemma_text_le_transitive(file_name(before[i]), file_name(before[at - 1]), file_name(path));
    } else if i < at {
        assert(after[i] == before[i] && after[j] == before[j - 1]);
    } else if i == at {
        assert(after[j] == before[j - 1]);
        lemma_text_le_total(file_name(before[j - 1]), file_name(path));
    } else {
        assert(after[i] == before[i - 1] && after[j] == before[j - 1]);
    }
}

/// Two sorted lists that hold the same paths are one list, where no two
/// different paths among them share a file name.
pub proof fn lemma_sorted_lists_agree(a: Seq<Seq<char>>, b: Seq<Seq<char>>)
    requires
        is_sorted_by_name(a),
        is_sorted_by_name(b),
        a.to_multiset() == b.to_multiset(),
        forall|i: int, j: int|
            0 <= i < a.len() && 0 <= j < a.len() && file_name(a[i]) == file_name(a[j]) ==> a[i]
                == a[j],
    ensures
        a == b,
    decreases a.len(),
{
    broadcast use vstd::seq_lib::to_multiset_len, vstd::seq_lib::to_multiset_contains;
    broadcast use vstd::seq_lib::to_multiset_remove;

    assert(a.len() == b.len()) by {
        vstd::seq_lib::to_multiset_len(a);
        vstd::seq_lib::to_multiset_len(b);
    }
    if a.len() == 0 {
        assert(a =~= b);
    } else {
        let last_a = a.last();
        let last_b = b.last();
        assert(a.contains(last_a));
        assert(b.contains(last_b));
        assert(b.to_multiset().count(last_a) > 0);
        assert(a.to_multiset().count(last_b) > 0);
        assert(b.contains(last_a));
        assert(a.contains(last_b));
        let in_b = choose|k: int| 0 <= k < b.len() && b[k] == last_a;
        let in_a = choose|k: int| 0 <= k < a.len() && a[k] == last_b;
        assert(name_le(b[in_b], last_b));
        assert(name_le(a[in_a], last_a));
        lemma_text_le_antisymmetric(file_name(last_a), file_name(last_b));
        assert(last_a == last_b);
        let rest_a = a.remove(a.len() - 1);
        let rest_b = b.remove(b.len() - 1);
        assert(rest_a =~= a.drop_last());
        assert(rest_b =~= b.drop_last());
        assert(rest_a.to_multiset() == rest_b.to_multiset());
        assert forall|i: int, j: int|
            0 <= i < rest_a.len() && 0 <= j < rest_a.len() && file_name(rest_a[i]) == file_name(
                rest_a[j],
            ) implies rest_a[i] == rest_a[j] by {
            assert(rest_a[i] == a[i] && rest_a[j] == a[j]);
        }
        assert(is_sorted_by_name(rest_a)) by {
            assert forall|i: int, j: int| 0 <= i <= j < rest_a.len() implies name_le(
                rest_a[i],
                rest_a[j],
            ) by {
                assert(rest_a[i] == a[i] && rest_a[j] == a[j]);
            }
        }
        assert(is_sorted_by_name(rest_b)) by {
            assert forall|i: int, j: int| 0 <= i <= j < rest_b.len() implies name_le(
                rest_b[i],
                rest_b[j],
            ) by {
                assert(rest_b[i] == b[i] && rest_b[j] == b[j]);
            }
        }
        lemma_sorted_lists_agree(rest_a, rest_b);
        assert(a =~= rest_a.push(last_a));
        assert(b =~= rest_b.push(last_b));
    }
}

/// Sorting does not depend on the order in which the paths came, where no
/// two different paths among them share a file name.
pub proof fn lemma_sort_ignores_input_order(a: Seq<Seq<char>>, b: Seq<Seq<char>>)
    requires
        a.to_multiset() == b.to_multiset(),
        forall|i: int, j: int|
            0 <= i < a.len() && 0 <= j < a.len() && file_name(a[i]) == file_name(a[j]) ==> a[i]
                == a[j],
    ensures
        sort_by_name(a) == sort_by_name(b),
{
    broadcast use vstd::seq_lib::to_multiset_contains;

    lemma_sort_by_name(a);
    lemma_sort_by_name(b);
    let sorted = sort_by_name(a);
    assert forall|i: int, j: int|
        0 <= i < sorted.len() && 0 <= j < sorted.len() && file_name(sorted[i]) == file_name(
            sorted[j],
        ) implies sorted[i] == sorted[j] by {
        assert(sorted.contains(sorted[i]));
        assert(sorted.contains(sorted[j]));
        assert(a.to_multiset().count(sorted[i]) > 0);
        assert(a.to_multiset().count(sorted[j]) > 0);
        assert(a.contains(sorted[i]));
        assert(a.contains(sorted[j]));
    }
    lemma_sorted_lists_agree(sorted, sort_by_name(b));
}

/// Those of `paths` whose file name is `name`, in the order in which they
/// stand.
pub open spec fn named(paths: Seq<Seq<char>>, name: Seq<char>) -> Seq<Seq<char>> {
    paths.filter(|path: Seq<char>| file_name(path) == name)
}

/// Sorting keeps the paths of one file name in the order in which they came.
pub proof fn lemma_sort_keeps_order_of_equal_names(paths: Seq<Seq<char>>, name: Seq<char>)
    ensures
        named(sort_by_name(paths), name) == named(paths, name),
    decreases paths.len(),
{
    let same = |path: Seq<char>| file_name(path) == name;
    if paths.len() == 0 {
        assert(paths =~= sort_by_name(paths));
    } else {
        let rest = paths.drop_last();
        let path = paths.last();
        let before = sort_by_name(rest);
        let at = insert_position(before, path);
        lemma_sort_keeps_order_of_equal_names(rest, name);
        lemma_insert_position(before, path);
        let head = before.take(at);
        let tail = before.skip(at);
        assert(before =~= head + tail);
        assert(before.insert(at, path) =~= head.push(path) + tail);
        Seq::filter_distributes_over_add(head, tail, same);
        Seq::filter_distributes_over_add(head.push(path), tail, same);
        head.lemma_filter_push(path, same);
        rest.lemma_filter_push(path, same);
        assert(paths =~= rest.push(path));
        if same(path) {
            // What stands behind the place of `path` may not stand before
            // it, so it has another name.
            assert forall|i: int| 0 <= i < tail.len() implies !same(#[trigger] tail[i]) by {
                assert(tail[i] == before[at + i]);
                crate::text::lemma_text_le_reflexive(name);
            }
            tail.lemma_all_neg_filter_empty(same);
            assert(tail.filter(same) =~= Seq::<Seq<char>>::empty());
            assert(head.filter(same) + tail.filter(same) =~= head.filter(same));
            assert(head.filter(same).push(path) + tail.filter(same) =~= head.filter(same).push(
                path,
            ));
        }
    }
}

/// Sorting a list that is in order leaves it as it is.
pub proof fn lemma_sorted_stays(paths: Seq<Seq<char>>)
    requires
        is_sorted_by_name(paths),
    ensures
        sort_by_name(paths) == paths,
    decreases paths.len(),
{
    if paths.len() == 0 {
        assert(paths =~= Seq::<Seq<char>>::empty());
    } else {
        let rest = paths.drop_last();
        assert forall|i: int, j: int| 0 <= i <= j < rest.len() implies name_le(
            rest[i],
            rest[j],
        ) by {
            assert(rest[i] == paths[i] && rest[j] == paths[j]);
        }
        lemma_sorted_stays(rest);
        if rest.len() > 0 {
            assert(rest.last() == paths[paths.len() - 2]);
            assert(name_le(paths[paths.len() - 2], paths[paths.len() - 1]));
        }
        assert(insert_position(rest, paths.last()) == rest.len());
        assert(rest.insert(rest.len() as int, paths.last()) =~= paths);
    }
}

/// Puts `files` in the order of their file names, compared character by
/// character by code point. Files of the same name stay in the order in
/// which they came.
pub fn sort_files(files: &mut Vec<String>)
    ensures
        texts(final(files)@) == sort_by_name(texts(old(files)@)),
        is_sorted_by_name(texts(final(files)@)),
        texts(final(files)@).to_multiset() == texts(old(files)@).to_multiset(),
        forall|name: Seq<char>|
            #[trigger] named(texts(final(files)@), name) == named(texts(old(files)@), name),
        forall|i: int|
            0 <= i < final(files)@.len() ==> old(files)@.contains(#[trigger] final(files)@[i]),
{
    let mut sorted: Vec<String> = Vec::new();
    let mut names: Vec<Vec<char>> = Vec::new();
    let mut done: usize = 0;
    assert(texts(files@).take(0) =~= Seq::<Seq<char>>::empty());
    while done < files.len()
        invariant
            done <= files.len(),
            files@ == old(files)@,
            names.len() == sorted.len(),
            forall|k: int|
                0 <= k < names.len() ==> (#[trigger] names[k])@ == file_name(sorted[k]@),
            forall|k: int| 0 <= k < sorted.len() ==> files@.contains(#[trigger] sorted@[k]),
            texts(sorted@) == sort_by_name(texts(files@).take(done as int)),
        decreases files.len() - done,
    {
        let file = files[done].clone();
        let name = chars_of(file_name_of(file.as_str()));
        let ghost before = texts(sorted@);
        let mut at: usize = sorted.len();
        assert(before.take(at as int) == before);
        while at > 0 && !stands_before(&names[at - 1], &name)
            invariant
                at <= sorted.len(),
                names.len() == sorted.len(),
                before == texts(sorted@),
                name@ == file_name(file@),
                forall|k: int|
                    0 <= k < names.len() ==> (#[trigger] names[k])@ == file_name(sorted[k]@),
                insert_position(before, file@) == insert_position(before.take(at as int), file@),
            decreases at,
        {
            assert(before.take(at as int).drop_last() == before.take(at - 1));
            assert(before.take(at as int).last() == sorted[at - 1]@);
            at = at - 1;
        }
        proof {
            if at > 0 {
                assert(before.take(at as int).last() == sorted[at - 1]@);
            }
            assert(insert_position(before, file@) == at);
            let grown = texts(files@).take(done + 1);
            assert(grown.drop_last() == texts(files@).take(done as int));
            assert(grown.last() == file@);
        }
        let ghost placed = sorted@;
        sorted.insert(at, file);
        names.insert(at, name);
        proof {
            assert(texts(sorted@) =~= before.insert(at as int, file@));
            assert forall|k: int| 0 <= k < sorted.len() implies files@.contains(
                #[trigger] sorted@[k],
            ) by {
                if k < at {
                    assert(sorted@[k] == placed[k]);
                } else if k == at {
                    assert(sorted@[k] == files@[done as int]);
                } else {
                    assert(sorted@[k] == placed[k - 1]);
                }
            }
        }
        done = done + 1;
    }
    proof {
        assert(texts(files@).take(done as int) == texts(files@));
        lemma_sort_by_name(texts(files@));
        assert forall|name: Seq<char>| #[trigger]
            named(texts(sorted@), name) == named(texts(files@), name) by {
            lemma_sort_keeps_order_of_equal_names(texts(files@), name);
        }
    }
    *files = sorted;
}

/// The extension that a renamed subtitle keeps: its own, as it is written,
/// or none.
pub open spec fn kept_extension(subtitle: Seq<char>) -> Seq<char> {
    match extension(subtitle) {
        Some(ext) => ext,
        None => Seq::empty(),
    }
}

/// The file name that `subtitle` gets when it is paired with `video`: the
/// stem of the video, the tag if there is one, and the extension of the
/// subtitle, with a `.` between them.
pub open spec fn target_name(video: Seq<char>, subtitle: Seq<char>, tag: Option<Seq<char>>) -> Seq<
    char,
> {
    match tag {
        Some(code) => stem(video) + seq!['.'] + code + seq!['.'] + kept_extension(subtitle),
        None => stem(video) + seq!['.'] + kept_extension(subtitle),
    }
}

/// The path that `subtitle` gets: its new file name in its own directory.
pub open spec fn target_path(video: Seq<char>, subtitle: Seq<char>, tag: Option<Seq<char>>) -> Seq<
    char,
> {
    directory(subtitle) + target_name(video, subtitle, tag)
}

/// What the entries of a plan read: each a source path and a target path.
pub open spec fn readings(plan: Seq<(String, String)>) -> Seq<(Seq<char>, Seq<char>)> {
    Seq::new(plan.len(), |i: int| (plan[i].0@, plan[i].1@))
}

/// How many pairs two lists give: as many as the shorter one has files.
pub open spec fn pair_count(videos: Seq<Seq<char>>, subtitles: Seq<Seq<char>>) -> nat {
    if videos.len() <= subtitles.len() {
        videos.len()
    } else {
        subtitles.len()
    }
}

/// Whether `entry` renames `subtitle` to the name of `video`, with a tag that
/// the subtitle may get.
pub open spec fn entry_pairs<L: Fn(&String) -> Option<String>>(
    entry: (Seq<char>, Seq<char>),
    video: Seq<char>,
    subtitle: Seq<char>,
    load: L,
) -> bool {
    entry.0 == subtitle && exists|tag: Option<Seq<char>>|
        resolves_to(load, subtitle, tag) && entry.1 == target_path(video, subtitle, tag)
}

/// Whether `plan` is a rename plan for `videos` and `subtitles`: with both
/// lists sorted, its entry at each position renames the subtitle at that
/// position to the name of the video at that position. Files beyond the
/// length of the shorter list have no entry.
pub open spec fn is_plan_of<L: Fn(&String) -> Option<String>>(
    plan: Seq<(Seq<char>, Seq<char>)>,
    videos: Seq<Seq<char>>,
    subtitles: Seq<Seq<char>>,
    load: L,
) -> bool {
    plan.len() == pair_count(videos, subtitles) && forall|i: int|
        0 <= i < plan.len() ==> entry_pairs(
            #[trigger] plan[i],
            sort_by_name(videos)[i],
            sort_by_name(subtitles)[i],
            load,
        )
}

/// What a target path is made of: the subtitle keeps its directory and its
/// extension, and its stem becomes that of the video, followed by the tag
/// where there is one.
pub proof fn lemma_target_parts(video: Seq<char>, subtitle: Seq<char>, tag: Option<Seq<char>>)
    requires
        has_extension(subtitle),
        file_name(video).len() > 0,
        tag matches Some(code) ==> is_language_code(code),
    ensures
        directory(target_path(video, subtitle, tag)) == directory(subtitle),
        file_name(target_path(video, subtitle, tag)) == target_name(video, subtitle, tag),
        extension(target_path(video, subtitle, tag)) == extension(subtitle),
        stem(target_path(video, subtitle, tag)) == match tag {
            Some(code) => stem(video) + seq!['.'] + code,
            None => stem(video),
        },
{
    let dir = directory(subtitle);
    let ext = extension(subtitle).unwrap();
    let name = target_name(video, subtitle, tag);
    let front = match tag {
        Some(code) => stem(video) + seq!['.'] + code,
        None => stem(video),
    };
    let back = seq!['.'] + ext;
    lemma_path_parts(video);
    lemma_path_parts(subtitle);
    lemma_name_parts(subtitle);
    lemma_last_index_of(file_name(video), '.');
    lemma_last_index_of(subtitle, '/');
    if tag is Some {
        lemma_language_code_letters(tag.unwrap());
    }
    assert(name =~= front + back);
    assert(front.len() > 0);
    // The new name holds no separator, so the directory stays what it was.
    assert forall|i: int| 0 <= i < name.len() implies name[i] != '/' by {
        if i < stem(video).len() {
            assert(name[i] == file_name(video)[i]);
        } else if i >= front.len() + 1 {
            assert(name[i] == ext[i - front.len() - 1]);
            assert(ext[i - front.len() - 1] == file_name(subtitle)[i - front.len() + stem(
                subtitle,
            ).len()]);
        } else if tag is Some && i > stem(video).len() && i < front.len() {
            assert(name[i] == tag.unwrap()[i - stem(video).len() - 1]);
        }
    }
    lemma_last_index_of_absent(name, '/');
    lemma_last_index_of_concat(dir, name, '/');
    assert(last_index_of(dir, '/') == dir.len() - 1) by {
        if dir.len() > 0 {
            assert(dir.last() == '/');
        }
    }
    assert((dir + name).skip(dir.len() as int) =~= name);
    assert((dir + name).take(dir.len() as int) =~= dir);
    // Its last dot is the one before the extension.
    lemma_last_index_of_absent(ext, '.');
    lemma_last_index_of_concat(seq!['.'], ext, '.');
    assert(last_index_of(seq!['.'], '.') == 0);
    lemma_last_index_of_concat(front, back, '.');
    assert(last_index_of(name, '.') == front.len());
    assert(name.skip(front.len() as int + 1) =~= ext);
    assert(name.take(front.len() as int) =~= front);
}

/// A subtitle that has the stem of its video already, and gets no tag, keeps
/// its path.
pub proof fn lemma_aligned_subtitle_keeps_path(video: Seq<char>, subtitle: Seq<char>)
    requires
        has_extension(subtitle),
        stem(subtitle) == stem(video),
    ensures
        target_path(video, subtitle, None) == subtitle,
{
    lemma_path_parts(subtitle);
    lemma_name_parts(subtitle);
}

/// A subtitle whose stem is the stem of its video followed by its tag keeps
/// its path.
pub proof fn lemma_tagged_subtitle_keeps_path(
    video: Seq<char>,
    subtitle: Seq<char>,
    code: Seq<char>,
)
    requires
        has_extension(subtitle),
        stem(subtitle) == stem(video) + seq!['.'] + code,
    ensures
        target_path(video, subtitle, Some(code)) == subtitle,
{
    lemma_path_parts(subtitle);
    lemma_name_parts(subtitle);
}

/// Two subtitles of one directory and one extension that are paired with
/// videos of one stem, and get the same tag or none, get one and the same
/// path.
pub proof fn lemma_same_stem_same_target(
    first_video: Seq<char>,
    first_subtitle: Seq<char>,
    second_video: Seq<char>,
    second_subtitle: Seq<char>,
    tag: Option<Seq<char>>,
)
    requires
        stem(first_video) == stem(second_video),
        directory(first_subtitle) == directory(second_subtitle),
        extension(first_subtitle) == extension(second_subtitle),
    ensures
        target_path(first_video, first_subtitle, tag) == target_path(
            second_video,
            second_subtitle,
            tag,
        ),
{
}

/// Makes the file name that `subtitle` gets when it is paired with `video`
/// and tagged with `tag`.
pub fn name_with_tag(video: &str, subtitle: &str, tag: &Option<String>) -> (name: String)
    ensures
        name@ == target_name(video@, subtitle@, text_of(*tag)),
{
    let mut name = String::from_str(base_name_of(video));
    name.append(".");
    match tag {
        Some(code) => {
            name.append(code.as_str());
            name.append(".");
        },
        None => {},
    }
    match extension_of(subtitle) {
        Some(ext) => {
            name.append(ext);
        },
        None => {},
    }
    proof {
        reveal_strlit(".");
        assert("."@ =~= seq!['.']);
        assert(name@ =~= target_name(video@, subtitle@, text_of(*tag)));
    }
    name
}

/// Makes the file name that `subtitle` gets when it is paired with `video`:
/// the stem of the video, the language tag of the subtitle where it has one,
/// and the extension of the subtitle.
pub fn generate_new_name<L: Fn(&String) -> Option<String>>(
    video: &String,
    subtitle: &String,
    load: &L,
) -> (name: String)
    requires
        call_requires(*load, (subtitle,)),
    ensures
        exists|tag: Option<Seq<char>>|
            resolves_to(*load, subtitle@, tag) && name@ == target_name(video@, subtitle@, tag),
{
    let tag = resolve(subtitle, load);
    name_with_tag(video.as_str(), subtitle.as_str(), &tag)
}

/// Pairs the subtitles with the videos and plans the renames. Both lists are
/// sorted by file name and paired position by position; what the longer list
/// has in excess is left out. Each entry holds the path of a subtitle and the
/// path that it gets: the name of its video, in its own directory.
pub fn match_files<L: Fn(&String) -> Option<String>>(
    videos: Vec<String>,
    subtitles: Vec<String>,
    load: &L,
) -> (plan: Vec<(String, String)>)
    requires
        forall|i: int|
            0 <= i < subtitles.len() ==> call_requires(*load, (&#[trigger] subtitles[i],)),
    ensures
        is_plan_of(readings(plan@), texts(videos@), texts(subtitles@), *load),
{
    let mut sorted_videos = videos;
    let mut sorted_subtitles = subtitles;
    sort_files(&mut sorted_videos);
    sort_files(&mut sorted_subtitles);
    proof {
        lemma_sort_by_name(texts(videos@));
        lemma_sort_by_name(texts(subtitles@));
        assert forall|k: int| 0 <= k < sorted_subtitles.len() implies call_requires(
            *load,
            (&#[trigger] sorted_subtitles[k],),
        ) by {
            let from = choose|from: int|
                0 <= from < subtitles.len() && subtitles[from] == sorted_subtitles[k];
            assert(call_requires(*load, (&subtitles[from],)));
        }
    }
    let count: usize = if sorted_videos.len() <= sorted_subtitles.len() {
        sorted_videos.len()
    } else {
        sorted_subtitles.len()
    };
    let mut plan: Vec<(String, String)> = Vec::new();
    let mut i: usize = 0;
    while i < count
        invariant
            i <= count,
            count == pair_count(texts(videos@), texts(subtitles@)),
            count <= sorted_videos.len(),
            count <= sorted_subtitles.len(),
            texts(sorted_videos@) == sort_by_name(texts(videos@)),
            texts(sorted_subtitles@) == sort_by_name(texts(subtitles@)),
            forall|k: int|
                0 <= k < sorted_subtitles.len() ==> call_requires(
                    *load,
                    (&#[trigger] sorted_subtitles[k],),
                ),
            plan.len() == i,
            forall|k: int|
                0 <= k < i ==> entry_pairs(
                    #[trigger] readings(plan@)[k],
                    sort_by_name(texts(videos@))[k],
                    sort_by_name(texts(subtitles@))[k],
                    *load,
                ),
        decreases count - i,
    {
        let video = &sorted_videos[i];
        let subtitle = &sorted_subtitles[i];
        let tag = resolve(subtitle, load);
        let name = name_with_tag(video.as_str(), subtitle.as_str(), &tag);
        let mut target = String::from_str(directory_of(subtitle.as_str()));
        target.append(name.as_str());
        let ghost before = readings(plan@);
        plan.push((subtitle.clone(), target));
        proof {
            assert(texts(sorted_videos@)[i as int] == video@);
            assert(texts(sorted_subtitles@)[i as int] == subtitle@);
            let entry = readings(plan@)[i as int];
            assert(entry.1 == target_path(video@, subtitle@, text_of(tag)));
            assert(entry_pairs(entry, video@, subtitle@, *load));
            assert forall|k: int| 0 <= k < i + 1 implies entry_pairs(
                #[trigger] readings(plan@)[k],
                sort_by_name(texts(videos@))[k],
                sort_by_name(texts(subtitles@))[k],
                *load,
            ) by {
                if k < i {
                    assert(readings(plan@)[k] == before[k]);
                }
            }
        }
        i = i + 1;
    }
    plan
}

/// A plan has an entry for each pair and no other: as many as the shorter
/// list has files. Each entry renames one of the subtitles; no video is
/// renamed.
pub proof fn lemma_plan_covers_pairs<L: Fn(&String) -> Option<String>>(
    plan: Seq<(Seq<char>, Seq<char>)>,
    videos: Seq<Seq<char>>,
    subtitles: Seq<Seq<char>>,
    load: L,
)
    requires
        is_plan_of(plan, videos, subtitles, load),
    ensures
        plan.len() <= videos.len(),
        plan.len() <= subtitles.len(),
        plan.len() == videos.len() || plan.len() == subtitles.len(),
        forall|i: int| 0 <= i < plan.len() ==> subtitles.contains(#[trigger] plan[i].0),
{
    broadcast use vstd::seq_lib::to_multiset_contains;

    lemma_sort_by_name(subtitles);
    let sorted = sort_by_name(subtitles);
    assert forall|i: int| 0 <= i < plan.len() implies subtitles.contains(#[trigger] plan[i].0) by {
        assert(entry_pairs(plan[i], sort_by_name(videos)[i], sorted[i], load));
        assert(sorted.contains(sorted[i]));
        assert(subtitles.to_multiset().count(sorted[i]) > 0);
    }
}

/// A plan does not depend on the order in which the files came: what is a
/// plan for one listing is a plan for every other listing of the same videos
/// and the same subtitles, where no two different paths of a list share a
/// file name.
pub proof fn lemma_plan_ignores_input_order<L: Fn(&String) -> Option<String>>(
    plan: Seq<(Seq<char>, Seq<char>)>,
    videos: Seq<Seq<char>>,
    subtitles: Seq<Seq<char>>,
    other_videos: Seq<Seq<char>>,
    other_subtitles: Seq<Seq<char>>,
    load: L,
)
    requires
        videos.to_multiset() == other_videos.to_multiset(),
        subtitles.to_multiset() == other_subtitles.to_multiset(),
        forall|i: int, j: int|
            0 <= i < videos.len() && 0 <= j < videos.len() && file_name(videos[i]) == file_name(
                videos[j],
            ) ==> videos[i] == videos[j],
        forall|i: int, j: int|
            0 <= i < subtitles.len() && 0 <= j < subtitles.len() && file_name(subtitles[i])
                == file_name(subtitles[j]) ==> subtitles[i] == subtitles[j],
    ensures
        sort_by_name(videos) == sort_by_name(other_videos),
        sort_by_name(subtitles) == sort_by_name(other_subtitles),
        is_plan_of(plan, videos, subtitles, load) == is_plan_of(
            plan,
            other_videos,
            other_subtitles,
            load,
        ),
{
    lemma_sort_ignores_input_order(videos, other_videos);
    lemma_sort_ignores_input_order(subtitles, other_subtitles);
    lemma_sort_by_name(videos);
    lemma_sort_by_name(other_videos);
    lemma_sort_by_name(subtitles);
    lemma_sort_by_name(other_subtitles);
}

/// In a plan for videos and subtitles, each subtitle keeps its directory and
/// its extension, and gets the stem of its video, followed by a language
/// code where it is tagged.
pub proof fn lemma_plan_keeps_directory_and_extension<L: Fn(&String) -> Option<String>>(
    plan: Seq<(Seq<char>, Seq<char>)>,
    videos: Seq<Seq<char>>,
    subtitles: Seq<Seq<char>>,
    load: L,
)
    requires
        is_plan_of(plan, videos, subtitles, load),
        forall|i: int| 0 <= i < videos.len() ==> category(videos[i]) == FileCategory::Video,
        forall|i: int|
            0 <= i < subtitles.len() ==> category(subtitles[i]) == FileCategory::Subtitle,
    ensures
        forall|i: int|
            0 <= i < plan.len() ==> {
                &&& directory((#[trigger] plan[i]).1) == directory(plan[i].0)
                &&& extension(plan[i].1) == extension(plan[i].0)
                &&& stem(plan[i].1) == stem(sort_by_name(videos)[i]) || exists|code: Seq<char>|
                    is_language_code(code) && stem(plan[i].1) == stem(sort_by_name(videos)[i])
                        + seq!['.'] + code
            },
{
    broadcast use vstd::seq_lib::to_multiset_contains;

    lemma_sort_by_name(videos);
    lemma_sort_by_name(subtitles);
    let sorted_videos = sort_by_name(videos);
    let sorted_subtitles = sort_by_name(subtitles);
    assert forall|i: int| 0 <= i < plan.len() implies {
        &&& directory((#[trigger] plan[i]).1) == directory(plan[i].0)
        &&& extension(plan[i].1) == extension(plan[i].0)
        &&& stem(plan[i].1) == stem(sorted_videos[i]) || exists|code: Seq<char>|
            is_language_code(code) && stem(plan[i].1) == stem(sorted_videos[i]) + seq!['.'] + code
    } by {
        let video = sorted_videos[i];
        let subtitle = sorted_subtitles[i];
        assert(entry_pairs(plan[i], video, subtitle, load));
        let tag = choose|tag: Option<Seq<char>>|
            resolves_to(load, subtitle, tag) && plan[i].1 == target_path(video, subtitle, tag);
        lemma_resolved_tag_is_code(load, subtitle, tag);
        // Both are among the files that came, so both have an extension.
        assert(sorted_videos.contains(video));
        assert(videos.to_multiset().count(video) > 0);
        assert(videos.contains(video));
        assert(sorted_subtitles.contains(subtitle));
        assert(subtitles.to_multiset().count(subtitle) > 0);
        assert(subtitles.contains(subtitle));
        assert(category(video) == FileCategory::Video);
        assert(category(subtitle) == FileCategory::Subtitle);
        lemma_last_index_of(file_name(video), '.');
        lemma_target_parts(video, subtitle, tag);
        if tag is Some {
            assert(is_language_code(tag.unwrap()));
        }
    }
}

/// In a directory whose subtitles have the stems of their videos already,
/// and where no subtitle gets a tag, every entry of the plan renames a path
/// to itself.
pub proof fn lemma_aligned_plan_changes_nothing<L: Fn(&String) -> Option<String>>(
    plan: Seq<(Seq<char>, Seq<char>)>,
    videos: Seq<Seq<char>>,
    subtitles: Seq<Seq<char>>,
    load: L,
)
    requires
        is_plan_of(plan, videos, subtitles, load),
        forall|i: int|
            0 <= i < pair_count(videos, subtitles) ==> has_extension(
                #[trigger] sort_by_name(subtitles)[i],
            ) && stem(sort_by_name(subtitles)[i]) == stem(sort_by_name(videos)[i]),
        forall|i: int, tag: Option<Seq<char>>|
            0 <= i < pair_count(videos, subtitles) && #[trigger] resolves_to(
                load,
                sort_by_name(subtitles)[i],
                tag,
            ) ==> tag is None,
    ensures
        forall|i: int| 0 <= i < plan.len() ==> (#[trigger] plan[i]).1 == plan[i].0,
{
    assert forall|i: int| 0 <= i < plan.len() implies (#[trigger] plan[i]).1 == plan[i].0 by {
        let video = sort_by_name(videos)[i];
        let subtitle = sort_by_name(subtitles)[i];
        assert(entry_pairs(plan[i], video, subtitle, load));
        let tag = choose|tag: Option<Seq<char>>|
            resolves_to(load, subtitle, tag) && plan[i].1 == target_path(video, subtitle, tag);
        assert(tag is None);
        lemma_aligned_subtitle_keeps_path(video, subtitle);
    }
}

/// Two lists that had to be of one length and were not.
#[derive(Clone, Copy, Debug, PartialEq, Eq, Structural)]
pub struct CountMismatch {
    /// How many subtitles there were.
    pub subtitles: usize,
    /// How many videos there were.
    pub videos: usize,
}

/// Plans the renames as `match_files` does, but only where there are as many
/// subtitles as videos. Where there are not, no plan is made and both counts
/// are handed back.
pub fn match_files_strict<L: Fn(&String) -> Option<String>>(
    videos: Vec<String>,
    subtitles: Vec<String>,
    load: &L,
) -> (planned: Result<Vec<(String, String)>, CountMismatch>)
    requires
        forall|i: int|
            0 <= i < subtitles.len() ==> call_requires(*load, (&#[trigger] subtitles[i],)),
    ensures
        match planned {
            Ok(plan) => videos.len() == subtitles.len() && is_plan_of(
                readings(plan@),
                texts(videos@),
                texts(subtitles@),
                *load,
            ),
            Err(mismatch) => videos.len() != subtitles.len() && mismatch == (CountMismatch {
                subtitles: subtitles.len(),
                videos: videos.len(),
            }),
        },
{
    if subtitles.len() != videos.len() {
        return Err(CountMismatch { subtitles: subtitles.len(), videos: videos.len() });
    }
    Ok(match_files(videos, subtitles, load))
}

/// Whether two entries of `plan` give their subtitles one and the same path.
pub open spec fn has_collision(plan: Seq<(Seq<char>, Seq<char>)>) -> bool {
    exists|i: int, j: int| 0 <= i < j < plan.len() && plan[i].1 == plan[j].1
}

/// Looks for two entries of `plan` with one and the same target. The plan is
/// not changed: carried out as it is, the later of the two renames would
/// overwrite what the earlier one put there.
pub fn find_collision(plan: &Vec<(String, String)>) -> (found: Option<(usize, usize)>)
    ensures
        match found {
            Some((first, second)) => {
                &&& first < second < plan.len()
                &&& plan[first as int].1@ == plan[second as int].1@
                &&& !has_collision(readings(plan@).take(second as int))
                &&& forall|i: int|
                    0 <= i < first ==> (#[trigger] readings(plan@)[i]).1 != plan[second as int].1@
            },
            None => !has_collision(readings(plan@)),
        },
{
    let mut second: usize = 0;
    while second < plan.len()
        invariant
            second <= plan.len(),
            forall|i: int, j: int|
                0 <= i < j < second ==> readings(plan@)[i].1 != readings(plan@)[j].1,
        decreases plan.len() - second,
    {
        let mut first: usize = 0;
        while first < second
            invariant
                first <= second < plan.len(),
                forall|i: int, j: int|
                    0 <= i < j < second ==> readings(plan@)[i].1 != readings(plan@)[j].1,
                forall|i: int|
                    0 <= i < first ==> readings(plan@)[i].1 != readings(plan@)[second as int].1,
            decreases second - first,
        {
            if plan[first].1 == plan[second].1 {
                assert forall|i: int, j: int| 0 <= i < j < second implies readings(plan@).take(
                    second as int,
                )[i].1 != readings(plan@).take(second as int)[j].1 by {
                    assert(readings(plan@)[i].1 != readings(plan@)[j].1);
                }
                return Some((first, second));
            }
            first = first + 1;
        }
        second = second + 1;
    }
    None
}

} // verus!
