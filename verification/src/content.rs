//! Guessing the language of a subtitle from what it says: the share of CJK
//! ideographs and of Latin letters among the letters of its spoken lines.

use vstd::prelude::*;
use crate::text::{
    chars_of, is_cjk_ideograph, is_cjk_ideograph_char, is_digit, is_digit_char, is_latin_letter,
    is_latin_letter_char, text_of, trim_bounds, trimmed,
};

verus! {

/// How many characters the first line of `text` has: those before its first
/// line feed, or all of them where it has none.
pub open spec fn line_end(text: Seq<char>) -> int
    decreases text.len(),
{
    if text.len() == 0 || text.first() == '\n' {
        0
    } else {
        1 + line_end(text.drop_first())
    }
}

/// The first line ends within `text`, at its first line feed where it has
/// one.
pub proof fn lemma_line_end(text: Seq<char>)
    ensures
        0 <= line_end(text) <= text.len(),
        line_end(text) < text.len() ==> text[line_end(text)] == '\n',
        forall|i: int| 0 <= i < line_end(text) ==> text[i] != '\n',
    decreases text.len(),
{
    if text.len() > 0 && text.first() != '\n' {
        let rest = text.drop_first();
        lemma_line_end(rest);
        assert forall|i: int| 0 <= i < line_end(text) implies text[i] != '\n' by {
            if i > 0 {
                assert(rest[i - 1] == text[i]);
            }
        }
        if line_end(text) < text.len() {
            assert(rest[line_end(rest)] == text[line_end(text)]);
        }
    }
}

/// The first line of `text`, without its line feed.
pub open spec fn first_line(text: Seq<char>) -> Seq<char> {
    text.take(line_end(text))
}

/// What follows the first line of `text` and its line feed.
pub open spec fn after_first_line(text: Seq<char>) -> Seq<char> {
    if line_end(text) < text.len() {
        text.skip(line_end(text) + 1)
    } else {
        Seq::empty()
    }
}

/// Whether the time-range separator `-->` starts at position `at` of `line`.
pub open spec fn arrow_at(line: Seq<char>, at: int) -> bool {
    0 <= at && at + 3 <= line.len() && line[at] == '-' && line[at + 1] == '-' && line[at + 2]
        == '>'
}

/// Whether `line` gives a time range.
pub open spec fn is_timing(line: Seq<char>) -> bool {
    exists|at: int| arrow_at(line, at)
}

/// Whether `line` holds nothing but white space.
pub open spec fn is_blank(line: Seq<char>) -> bool {
    trimmed(line).len() == 0
}

/// Whether `line`, white space around it set aside, is made of digits only,
/// as the running number of a cue is.
pub open spec fn is_counter(line: Seq<char>) -> bool {
    forall|i: int| 0 <= i < trimmed(line).len() ==> is_digit(#[trigger] trimmed(line)[i])
}

/// Whether `line` is part of what is said: neither blank, nor a time range,
/// nor a running number.
pub open spec fn is_spoken(line: Seq<char>) -> bool {
    !is_blank(line) && !is_timing(line) && !is_counter(line)
}

/// The spoken lines of `text`, one after the other.
pub open spec fn spoken_text(text: Seq<char>) -> Seq<char>
    decreases text.len(),
    via spoken_text_shortens
{
    if text.len() == 0 {
        Seq::empty()
    } else if is_spoken(first_line(text)) {
        first_line(text) + spoken_text(after_first_line(text))
    } else {
        spoken_text(after_first_line(text))
    }
}

#[via_fn]
proof fn spoken_text_shortens(text: Seq<char>) {
    lemma_line_end(text);
}

/// How many Latin letters `text` holds.
pub open spec fn latin_count(text: Seq<char>) -> nat
    decreases text.len(),
{
    if text.len() == 0 {
        0
    } else {
        latin_count(text.drop_last()) + if is_latin_letter(text.last()) {
            1nat
        } else {
            0nat
        }
    }
}

/// How many CJK ideographs `text` holds.
pub open spec fn cjk_count(text: Seq<char>) -> nat
    decreases text.len(),
{
    if text.len() == 0 {
        0
    } else {
        cjk_count(text.drop_last()) + if is_cjk_ideograph(text.last()) {
            1nat
        } else {
            0nat
        }
    }
}

/// The language that `latin` Latin letters and `cjk` ideographs speak for:
/// Chinese where more than a tenth of them are ideographs, else English where
/// more than three tenths are Latin letters, and none where there is no
/// letter at all.
pub open spec fn language_of_counts(latin: nat, cjk: nat) -> Option<Seq<char>> {
    let total = latin + cjk;
    if total == 0 {
        None
    } else if 10 * cjk > total {
        Some("zh"@)
    } else if 10 * latin > 3 * total {
        Some("en"@)
    } else {
        None
    }
}

/// The language that the content of a subtitle speaks for.
pub open spec fn content_language(text: Seq<char>) -> Option<Seq<char>> {
    language_of_counts(latin_count(spoken_text(text)), cjk_count(spoken_text(text)))
}

/// The letters of two texts put together are the letters of each.
pub proof fn lemma_counts_add(head: Seq<char>, tail: Seq<char>)
    ensures
        latin_count(head + tail) == latin_count(head) + latin_count(tail),
        cjk_count(head + tail) == cjk_count(head) + cjk_count(tail),
    decreases tail.len(),
{
    if tail.len() == 0 {
        assert(head + tail == head);
    } else {
        lemma_counts_add(head, tail.drop_last());
        assert((head + tail).drop_last() == head + tail.drop_last());
    }
}

/// As soon as a text has one letter, its letters speak for a language: the
/// two shares add up to one, so where the ideographs are a tenth or less, the
/// Latin letters are nine tenths or more.
pub proof fn lemma_letters_decide(latin: nat, cjk: nat)
    ensures
        language_of_counts(latin, cjk) is None <==> latin + cjk == 0,
{
}

/// Where the first line of `chars[from..]` ends.
fn find_line_end(chars: &Vec<char>, from: usize) -> (end: usize)
    requires
        from <= chars.len(),
    ensures
        from <= end <= chars.len(),
        end - from == line_end(chars@.skip(from as int)),
{
    let mut end: usize = from;
    while end < chars.len() && chars[end] != '\n'
        invariant
            from <= end <= chars.len(),
            line_end(chars@.skip(from as int)) == (end - from) + line_end(chars@.skip(end as int)),
        decreases chars.len() - end,
    {
        assert(chars@.skip(end as int).drop_first() == chars@.skip(end + 1));
        end = end + 1;
    }
    end
}

/// Whether `chars[from..to]` gives a time range.
fn has_arrow(chars: &Vec<char>, from: usize, to: usize) -> (found: bool)
    requires
        from <= to <= chars.len(),
    ensures
        found == is_timing(chars@.subrange(from as int, to as int)),
{
    let ghost line = chars@.subrange(from as int, to as int);
    let mut at: usize = from;
    while to - at >= 3
        invariant
            from <= at <= to <= chars.len(),
            line == chars@.subrange(from as int, to as int),
            forall|k: int| 0 <= k < at - from ==> !arrow_at(line, k),
        decreases to - at,
    {
        if chars[at] == '-' && chars[at + 1] == '-' && chars[at + 2] == '>' {
            assert(arrow_at(line, at - from));
            return true;
        }
        at = at + 1;
    }
    false
}

/// Whether `chars[from..to]` is made of digits only.
fn all_digits(chars: &Vec<char>, from: usize, to: usize) -> (yes: bool)
    requires
        from <= to <= chars.len(),
    ensures
        yes == (forall|i: int| from <= i < to ==> is_digit(#[trigger] chars@[i])),
{
    let mut at: usize = from;
    while at < to
        invariant
            from <= at <= to <= chars.len(),
            forall|i: int| from <= i < at ==> is_digit(#[trigger] chars@[i]),
        decreases to - at,
    {
        if !is_digit_char(chars[at]) {
            return false;
        }
        at = at + 1;
    }
    true
}

/// Whether the line `chars[from..to]` is part of what is said.
fn is_spoken_line(chars: &Vec<char>, from: usize, to: usize) -> (yes: bool)
    requires
        from <= to <= chars.len(),
    ensures
        yes == is_spoken(chars@.subrange(from as int, to as int)),
{
    let ghost line = chars@.subrange(from as int, to as int);
    let (start, end) = trim_bounds(chars, from, to);
    if start == end {
        return false;
    }
    if has_arrow(chars, from, to) {
        return false;
    }
    let digits = all_digits(chars, start, end);
    proof {
        let kept = trimmed(line);
        assert(kept == chars@.subrange(start as int, end as int));
        if digits {
            assert forall|i: int| 0 <= i < kept.len() implies is_digit(#[trigger] kept[i]) by {
                assert(kept[i] == chars@[start + i]);
            }
        } else {
            let i = choose|i: int| start <= i < end && !is_digit(#[trigger] chars@[i]);
            assert(kept[i - start] == chars@[i]);
        }
    }
    !digits
}

/// Counts the Latin letters and the ideographs of `chars[from..to]`.
fn count_letters(chars: &Vec<char>, from: usize, to: usize) -> (counts: (usize, usize))
    requires
        from <= to <= chars.len(),
    ensures
        counts.0 == latin_count(chars@.subrange(from as int, to as int)),
        counts.1 == cjk_count(chars@.subrange(from as int, to as int)),
        counts.0 + counts.1 <= to - from,
{
    let mut latin: usize = 0;
    let mut cjk: usize = 0;
    let mut at: usize = from;
    while at < to
        invariant
            from <= at <= to <= chars.len(),
            latin == latin_count(chars@.subrange(from as int, at as int)),
            cjk == cjk_count(chars@.subrange(from as int, at as int)),
            latin + cjk <= at - from,
        decreases to - at,
    {
        assert(chars@.subrange(from as int, at + 1).drop_last() == chars@.subrange(
            from as int,
            at as int,
        ));
        let c = chars[at];
        if is_latin_letter_char(c) {
            latin = latin + 1;
        } else if is_cjk_ideograph_char(c) {
            cjk = cjk + 1;
        }
        at = at + 1;
    }
    (latin, cjk)
}

/// Names the language that `latin` Latin letters and `cjk` ideographs speak
/// for. The shares are compared exactly, in whole numbers.
pub fn language_from_counts(latin: usize, cjk: usize) -> (tag: Option<String>)
    ensures
        text_of(tag) == language_of_counts(latin as nat, cjk as nat),
{
    let latin_wide: u128 = latin as u128;
    let cjk_wide: u128 = cjk as u128;
    let total: u128 = latin_wide + cjk_wide;
    if total == 0 {
        None
    } else if 10 * cjk_wide > total {
        Some(String::from_str("zh"))
    } else if 10 * latin_wide > 3 * total {
        Some(String::from_str("en"))
    } else {
        None
    }
}

/// Guesses the language of a subtitle from its content. Blank lines, time
/// ranges and running numbers are left out; of what remains only Latin
/// letters and CJK ideographs count.
pub fn detect_language_from_content(content: &str) -> (tag: Option<String>)
    ensures
        text_of(tag) == content_language(content@),
{
    let chars = chars_of(content);
    let mut latin: usize = 0;
    let mut cjk: usize = 0;
    let mut pos: usize = 0;
    assert(chars@.skip(0) == chars@);
    while pos < chars.len()
        invariant
            pos <= chars.len(),
            latin + cjk <= pos,
            latin_count(spoken_text(chars@)) == latin + latin_count(
                spoken_text(chars@.skip(pos as int)),
            ),
            cjk_count(spoken_text(chars@)) == cjk + cjk_count(spoken_text(chars@.skip(pos as int))),
        decreases chars.len() - pos,
    {
        let end = find_line_end(&chars, pos);
        let next: usize = if end < chars.len() {
            end + 1
        } else {
            end
        };
        let ghost rest = chars@.skip(pos as int);
        let ghost line = chars@.subrange(pos as int, end as int);
        proof {
            assert(first_line(rest) == line);
            assert(after_first_line(rest) == chars@.skip(next as int));
            lemma_counts_add(line, spoken_text(chars@.skip(next as int)));
        }
        if is_spoken_line(&chars, pos, end) {
            let (line_latin, line_cjk) = count_letters(&chars, pos, end);
            latin = latin + line_latin;
            cjk = cjk + line_cjk;
        }
        pos = next;
    }
    assert(chars@.skip(pos as int).len() == 0);
    language_from_counts(latin, cjk)
}

} // verus!
