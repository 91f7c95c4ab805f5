//! Paths as text: the directory, the file name, the stem and the extension of
//! a path whose parts are separated by `/`.

use vstd::prelude::*;
use crate::text::{chars_of, find_last, last_index_of, lemma_last_index_of};

verus! {

/// The last part of `path`: what follows its last `/`, or all of it.
pub open spec fn file_name(path: Seq<char>) -> Seq<char> {
    path.skip(last_index_of(path, '/') + 1)
}

/// What stands before the file name of `path`, its last `/` included.
pub open spec fn directory(path: Seq<char>) -> Seq<char> {
    path.take(last_index_of(path, '/') + 1)
}

/// Whether the file name of `path` has an extension: a `.` that is not its
/// first character. A name such as `.profile` has none.
pub open spec fn has_extension(path: Seq<char>) -> bool {
    last_index_of(file_name(path), '.') > 0
}

/// What follows the last `.` of the file name, where it has an extension.
pub open spec fn extension(path: Seq<char>) -> Option<Seq<char>> {
    if has_extension(path) {
        Some(file_name(path).skip(last_index_of(file_name(path), '.') + 1))
    } else {
        None
    }
}

/// The file name without its extension and the `.` before it.
pub open spec fn stem(path: Seq<char>) -> Seq<char> {
    if has_extension(path) {
        file_name(path).take(last_index_of(file_name(path), '.'))
    } else {
        file_name(path)
    }
}

/// A path is its directory followed by its file name, and the file name
/// holds no `/`.
pub proof fn lemma_path_parts(path: Seq<char>)
    ensures
        path == directory(path) + file_name(path),
        forall|i: int| 0 <= i < file_name(path).len() ==> file_name(path)[i] != '/',
{
    lemma_last_index_of(path, '/');
    assert(path =~= directory(path) + file_name(path));
}

/// A file name with an extension is its stem, a `.` and the extension; the
/// stem is not empty and the extension holds no `.`.
pub proof fn lemma_name_parts(path: Seq<char>)
    requires
        has_extension(path),
    ensures
        file_name(path) == stem(path) + seq!['.'] + extension(path).unwrap(),
        stem(path).len() > 0,
        forall|i: int|
            0 <= i < extension(path).unwrap().len() ==> extension(path).unwrap()[i] != '.',
{
    lemma_last_index_of(file_name(path), '.');
    assert(file_name(path) =~= stem(path) + seq!['.'] + extension(path).unwrap());
}

/// Where the file name of `chars` starts, and where its extension starts if
/// it has one.
pub fn name_bounds(chars: &Vec<char>) -> (bounds: (usize, Option<usize>))
    ensures
        bounds.0 == last_index_of(chars@, '/') + 1,
        bounds.0 <= chars.len(),
        match bounds.1 {
            Some(dot) => has_extension(chars@) && bounds.0 < dot < chars.len() && dot - bounds.0
                == last_index_of(file_name(chars@), '.'),
            None => !has_extension(chars@),
        },
{
    let len = chars.len();
    assert(chars@.subrange(0, len as int) == chars@);
    let start: usize = match find_last(chars, 0, len, '/') {
        Some(slash) => slash + 1,
        None => 0,
    };
    assert(chars@.subrange(start as int, len as int) == file_name(chars@));
    match find_last(chars, start, len, '.') {
        Some(dot) => if dot > start {
            (start, Some(dot))
        } else {
            (start, None)
        },
        None => (start, None),
    }
}

/// The file name of `path`.
pub fn file_name_of<'a>(path: &'a str) -> (name: &'a str)
    ensures
        name@ == file_name(path@),
{
    let chars = chars_of(path);
    let (start, _) = name_bounds(&chars);
    path.substring_char(start, chars.len())
}

/// The directory of `path`, with the `/` that ends it.
pub fn directory_of<'a>(path: &'a str) -> (dir: &'a str)
    ensures
        dir@ == directory(path@),
{
    let chars = chars_of(path);
    let (start, _) = name_bounds(&chars);
    path.substring_char(0, start)
}

/// The stem of `path`: its file name without the extension.
pub fn base_name_of<'a>(path: &'a str) -> (base: &'a str)
    ensures
        base@ == stem(path@),
{
    let chars = chars_of(path);
    let (start, dot) = name_bounds(&chars);
    let end: usize = match dot {
        Some(dot) => dot,
        None => chars.len(),
    };
    proof {
        let name = file_name(path@);
        assert(name == path@.subrange(start as int, chars.len() as int));
        assert(path@.subrange(start as int, end as int) =~= name.take(end - start));
        assert(name.take(name.len() as int) == name);
    }
    path.substring_char(start, end)
}

/// The extension of `path`, as it is written, where it has one.
pub fn extension_of<'a>(path: &'a str) -> (ext: Option<&'a str>)
    ensures
        match ext {
            Some(text) => extension(path@) == Some(text@),
            None => extension(path@) is None,
        },
{
    let chars = chars_of(path);
    let (start, dot) = name_bounds(&chars);
    match dot {
        Some(dot) => {
            proof {
                let name = file_name(path@);
                assert(name == path@.subrange(start as int, chars.len() as int));
                assert(path@.subrange(dot + 1, chars.len() as int) =~= name.skip(dot - start + 1));
            }
            Some(path.substring_char(dot + 1, chars.len()))
        },
        None => None,
    }
}

} // verus!
