//! The language tag of a subtitle: read off its file name where the name
//! carries one, and guessed from its content where it does not.

use vstd::prelude::*;
use crate::content::{content_language, detect_language_from_content};
use crate::path::{file_name, file_name_of};
use crate::text::{chars_of, range_reads, text_of};

verus! {

/// A language code between two dots, as in `film.en.srt`.
pub const DOT_INFIX_PATTERN: &'static str =
    "\\.(zh|zh-cn|zh-hans|zh-hant|en|eng|ja|jp|ko|kr|fr|de|es|it|ru)\\.";

/// A language code behind a dot at the very end of the name, as in `film.en`.
pub const DOT_SUFFIX_PATTERN: &'static str =
    "\\.(zh|zh-cn|zh-hans|zh-hant|en|eng|ja|jp|ko|kr|fr|de|es|it|ru)$";

/// A language code between an underscore and a dot, as in `film_en.srt`.
pub const UNDERSCORE_INFIX_PATTERN: &'static str =
    "_(zh|zh-cn|zh-hans|zh-hant|en|eng|ja|jp|ko|kr|fr|de|es|it|ru)\\.";

/// What the first capture group of the regular expression `pattern` holds in
/// its leftmost match in `text`; `None` where `pattern` is no regular
/// expression, where it does not match, and where the group took no part in
/// the match.
pub uninterp spec fn captured_group(pattern: Seq<char>, text: Seq<char>) -> Option<Seq<char>>;

/// Compiles `pattern` with `regex::Regex::new`, searches `text` with
/// `Regex::captures` and hands out the text of group 1 (`Captures::get`,
/// `Match::as_str`). Nothing is claimed of the result but that it is the
/// value that `captured_group` stands for: a pattern and a text decide it.
#[verifier::external_body]
fn capture_group(pattern: &str, text: &str) -> (found: Option<String>)
    ensures
        text_of(found) == captured_group(pattern@, text@),
{
    let expression = match regex::Regex::new(pattern) {
        Ok(expression) => expression,
        Err(_) => return None,
    };
    let captures = expression.captures(text)?;
    Some(captures.get(1)?.as_str().to_string())
}

/// The language codes that a file name may carry.
pub open spec fn is_language_code(code: Seq<char>) -> bool {
    code == "zh"@ || code == "zh-cn"@ || code == "zh-hans"@ || code == "zh-hant"@
        || code == "en"@ || code == "eng"@ || code == "ja"@ || code == "jp"@ || code == "ko"@
        || code == "kr"@ || code == "fr"@ || code == "de"@ || code == "es"@ || code == "it"@
        || code == "ru"@
}

/// What a capture is worth as a tag: itself where it is a language code,
/// nothing otherwise.
pub open spec fn accepted_code(capture: Option<Seq<char>>) -> Option<Seq<char>> {
    match capture {
        Some(code) => if is_language_code(code) {
            Some(code)
        } else {
            None
        },
        None => None,
    }
}

/// The first of three findings that is a tag.
pub open spec fn first_tag(
    between_dots: Option<Seq<char>>,
    at_end: Option<Seq<char>>,
    after_underscore: Option<Seq<char>>,
) -> Option<Seq<char>> {
    if accepted_code(between_dots) is Some {
        accepted_code(between_dots)
    } else if accepted_code(at_end) is Some {
        accepted_code(at_end)
    } else {
        accepted_code(after_underscore)
    }
}

/// The language tag that a file name carries. The three patterns are tried
/// in this order: a code between dots, a code behind a dot at the end, a code
/// between an underscore and a dot.
pub open spec fn filename_language(name: Seq<char>) -> Option<Seq<char>> {
    first_tag(
        captured_group(DOT_INFIX_PATTERN@, name),
        captured_group(DOT_SUFFIX_PATTERN@, name),
        captured_group(UNDERSCORE_INFIX_PATTERN@, name),
    )
}

/// Every tag read off a file name is one of the language codes.
pub proof fn lemma_filename_language_is_code(name: Seq<char>)
    ensures
        filename_language(name) matches Some(code) ==> is_language_code(code),
{
}

/// A language code is made of small letters and hyphens.
pub proof fn lemma_language_code_letters(code: Seq<char>)
    requires
        is_language_code(code),
    ensures
        forall|i: int|
            0 <= i < code.len() ==> ('a' <= #[trigger] code[i] && code[i] <= 'z') || code[i]
                == '-',
{
    reveal_strlit("zh");
    reveal_strlit("zh-cn");
    reveal_strlit("zh-hans");
    reveal_strlit("zh-hant");
    reveal_strlit("en");
    reveal_strlit("eng");
    reveal_strlit("ja");
    reveal_strlit("jp");
    reveal_strlit("ko");
    reveal_strlit("kr");
    reveal_strlit("fr");
    reveal_strlit("de");
    reveal_strlit("es");
    reveal_strlit("it");
    reveal_strlit("ru");
}

/// Whether `code` is one of the language codes.
pub fn is_language_code_text(code: &str) -> (yes: bool)
    ensures
        yes == is_language_code(code@),
{
    let chars = chars_of(code);
    let len = chars.len();
    assert(chars@.subrange(0, len as int) == code@);
    range_reads(&chars, 0, len, "zh")
        || range_reads(&chars, 0, len, "zh-cn")
        || range_reads(&chars, 0, len, "zh-hans")
        || range_reads(&chars, 0, len, "zh-hant")
        || range_reads(&chars, 0, len, "en")
        || range_reads(&chars, 0, len, "eng")
        || range_reads(&chars, 0, len, "ja")
        || range_reads(&chars, 0, len, "jp")
        || range_reads(&chars, 0, len, "ko")
        || range_reads(&chars, 0, len, "kr")
        || range_reads(&chars, 0, len, "fr")
        || range_reads(&chars, 0, len, "de")
        || range_reads(&chars, 0, len, "es")
        || range_reads(&chars, 0, len, "it")
        || range_reads(&chars, 0, len, "ru")
}

/// Keeps a capture that is a language code and drops any other.
pub fn accept_code(capture: Option<String>) -> (tag: Option<String>)
    ensures
        text_of(tag) == accepted_code(text_of(capture)),
{
    match capture {
        Some(code) => if is_language_code_text(code.as_str()) {
            Some(code)
        } else {
            None
        },
        None => None,
    }
}

/// Picks the tag among what the three patterns captured: the first capture,
/// in the order of the patterns, that is a language code.
pub fn pick_tag(
    between_dots: Option<String>,
    at_end: Option<String>,
    after_underscore: Option<String>,
) -> (tag: Option<String>)
    ensures
        text_of(tag) == first_tag(
            text_of(between_dots),
            text_of(at_end),
            text_of(after_underscore),
        ),
{
    let first = accept_code(between_dots);
    if first.is_some() {
        return first;
    }
    let second = accept_code(at_end);
    if second.is_some() {
        return second;
    }
    accept_code(after_underscore)
}

/// Reads the language tag off a file name, if it carries one.
pub fn extract_language_from_filename(filename: &str) -> (tag: Option<String>)
    ensures
        text_of(tag) == filename_language(filename@),
{
    let between_dots = capture_group(DOT_INFIX_PATTERN, filename);
    let at_end = capture_group(DOT_SUFFIX_PATTERN, filename);
    let after_underscore = capture_group(UNDERSCORE_INFIX_PATTERN, filename);
    pick_tag(between_dots, at_end, after_underscore)
}

/// The language that loaded content speaks for; content that could not be
/// loaded speaks for none.
pub open spec fn loaded_language(content: Option<Seq<char>>) -> Option<Seq<char>> {
    match content {
        Some(text) => content_language(text),
        None => None,
    }
}

/// Whether `load` may hand out `content` when asked for the file at `path`.
pub open spec fn may_load<L: Fn(&String) -> Option<String>>(
    load: L,
    path: Seq<char>,
    content: Option<Seq<char>>,
) -> bool {
    exists|asked: String, given: Option<String>|
        asked@ == path && text_of(given) == content && call_ensures(load, (&asked,), given)
}

/// Whether `tag` is a tag that the subtitle at `path` may get, given the tag
/// that its name carries: that tag where there is one, else the language of a
/// content that `load` may hand out for it.
pub open spec fn resolves_from<L: Fn(&String) -> Option<String>>(
    named: Option<Seq<char>>,
    load: L,
    path: Seq<char>,
    tag: Option<Seq<char>>,
) -> bool {
    match named {
        Some(code) => tag == Some(code),
        None => exists|content: Option<Seq<char>>|
            may_load(load, path, content) && tag == loaded_language(content),
    }
}

/// Whether `tag` is a tag that the subtitle at `path` may get.
pub open spec fn resolves_to<L: Fn(&String) -> Option<String>>(
    load: L,
    path: Seq<char>,
    tag: Option<Seq<char>>,
) -> bool {
    resolves_from(filename_language(file_name(path)), load, path, tag)
}

/// Every tag that a subtitle may get is one of the language codes.
pub proof fn lemma_resolved_tag_is_code<L: Fn(&String) -> Option<String>>(
    load: L,
    path: Seq<char>,
    tag: Option<Seq<char>>,
)
    requires
        resolves_to(load, path, tag),
    ensures
        tag matches Some(code) ==> is_language_code(code),
{
}

/// Guesses the language of the subtitle at `path` from the content that
/// `load` hands out for it.
pub fn detect_subtitle_language<L: Fn(&String) -> Option<String>>(path: &String, load: &L) -> (tag:
    Option<String>)
    requires
        call_requires(*load, (path,)),
    ensures
        resolves_from(None, *load, path@, text_of(tag)),
{
    let content = load(path);
    let tag = match &content {
        Some(text) => detect_language_from_content(text.as_str()),
        None => None,
    };
    proof {
        assert(may_load(*load, path@, text_of(content)));
        assert(text_of(tag) == loaded_language(text_of(content)));
    }
    tag
}

/// Settles the tag of the subtitle at `path`, given the tag that its name
/// carries. Where the name carries one, `load` is not called: it need not
/// even accept the call.
pub fn resolve_with<L: Fn(&String) -> Option<String>>(
    named: Option<String>,
    path: &String,
    load: &L,
) -> (tag: Option<String>)
    requires
        named is None ==> call_requires(*load, (path,)),
    ensures
        resolves_from(text_of(named), *load, path@, text_of(tag)),
        named is Some ==> tag == named,
{
    match named {
        Some(code) => Some(code),
        None => detect_subtitle_language(path, load),
    }
}

/// Settles the tag of the subtitle at `path`: the tag that its file name
/// carries, else the language that its content speaks for. `load` is called
/// only where the name carries no tag, and need not accept the call
/// otherwise.
pub fn resolve<L: Fn(&String) -> Option<String>>(path: &String, load: &L) -> (tag: Option<
    String,
>)
    requires
        filename_language(file_name(path@)) is None ==> call_requires(*load, (path,)),
    ensures
        resolves_to(*load, path@, text_of(tag)),
        filename_language(file_name(path@)) is Some ==> text_of(tag) == filename_language(
            file_name(path@),
        ),
{
    let named = extract_language_from_filename(file_name_of(path.as_str()));
    resolve_with(named, path, load)
}

} // verus!
