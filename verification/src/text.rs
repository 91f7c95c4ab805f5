//! Characters and character sequences: the classes of characters that the
//! library tells apart, searching, and the order in which names are sorted.

use vstd::prelude::*;

verus! {

/// What an optional string reads.
pub open spec fn text_of(value: Option<String>) -> Option<Seq<char>> {
    match value {
        Some(text) => Some(text@),
        None => None,
    }
}

/// The lower-case form of an ASCII capital letter; any other character itself.
pub open spec fn ascii_lower(c: char) -> char {
    if 'A' <= c && c <= 'Z' {
        ((c as u8) + 32) as char
    } else {
        c
    }
}

/// `text` with every ASCII capital letter replaced by its lower-case form.
pub open spec fn lowered(text: Seq<char>) -> Seq<char> {
    Seq::new(text.len(), |i: int| ascii_lower(text[i]))
}

/// The digits `0` to `9`.
pub open spec fn is_digit(c: char) -> bool {
    '0' <= c && c <= '9'
}

/// The letters `a` to `z` and `A` to `Z`.
pub open spec fn is_latin_letter(c: char) -> bool {
    ('a' <= c && c <= 'z') || ('A' <= c && c <= 'Z')
}

/// The ideographs of the CJK Unified block and of its extensions A and B.
pub open spec fn is_cjk_ideograph(c: char) -> bool {
    ('\u{4e00}' <= c && c <= '\u{9fff}') || ('\u{3400}' <= c && c <= '\u{4dbf}') || ('\u{20000}'
        <= c && c <= '\u{2a6df}')
}

/// The characters that Unicode gives the property `White_Space`.
pub open spec fn is_space(c: char) -> bool {
    ('\u{9}' <= c && c <= '\u{d}') || c == ' ' || c == '\u{85}' || c == '\u{a0}' || c
        == '\u{1680}' || ('\u{2000}' <= c && c <= '\u{200a}') || c == '\u{2028}' || c
        == '\u{2029}' || c == '\u{202f}' || c == '\u{205f}' || c == '\u{3000}'
}

/// The position of the last `wanted` in `text`, or -1 where there is none.
pub open spec fn last_index_of(text: Seq<char>, wanted: char) -> int
    decreases text.len(),
{
    if text.len() == 0 {
        -1
    } else if text.last() == wanted {
        text.len() - 1
    } else {
        last_index_of(text.drop_last(), wanted)
    }
}

/// `last_index_of` names a position that holds `wanted` and has no `wanted`
/// behind it, and is -1 exactly where `text` holds none.
pub proof fn lemma_last_index_of(text: Seq<char>, wanted: char)
    ensures
        -1 <= last_index_of(text, wanted) < text.len(),
        last_index_of(text, wanted) >= 0 ==> text[last_index_of(text, wanted)] == wanted,
        forall|i: int| last_index_of(text, wanted) < i < text.len() ==> text[i] != wanted,
    decreases text.len(),
{
    if text.len() > 0 && text.last() != wanted {
        lemma_last_index_of(text.drop_last(), wanted);
        assert forall|i: int| last_index_of(text, wanted) < i < text.len() implies text[i]
            != wanted by {
            if i < text.len() - 1 {
                assert(text.drop_last()[i] == text[i]);
            }
        }
    }
}

/// A text without `wanted` has no last one, and the other way round.
pub proof fn lemma_last_index_of_absent(text: Seq<char>, wanted: char)
    ensures
        last_index_of(text, wanted) == -1 <==> forall|i: int|
            0 <= i < text.len() ==> text[i] != wanted,
{
    lemma_last_index_of(text, wanted);
}

/// The last `wanted` of two texts put together is that of the second where
/// it has one, else that of the first.
pub proof fn lemma_last_index_of_concat(head: Seq<char>, tail: Seq<char>, wanted: char)
    ensures
        last_index_of(head + tail, wanted) == if last_index_of(tail, wanted) >= 0 {
            head.len() + last_index_of(tail, wanted)
        } else {
            last_index_of(head, wanted)
        },
    decreases tail.len(),
{
    if tail.len() == 0 {
        assert(head + tail == head);
    } else {
        assert((head + tail).drop_last() == head + tail.drop_last());
        if tail.last() != wanted {
            lemma_last_index_of_concat(head, tail.drop_last(), wanted);
        }
    }
}

/// Makes an ASCII capital letter lower case.
pub fn to_ascii_lower(c: char) -> (lower: char)
    ensures
        lower == ascii_lower(c),
{
    if 'A' <= c && c <= 'Z' {
        ((c as u8) + 32) as char
    } else {
        c
    }
}

/// Whether `c` is a digit.
pub fn is_digit_char(c: char) -> (yes: bool)
    ensures
        yes == is_digit(c),
{
    '0' <= c && c <= '9'
}

/// Whether `c` is a Latin letter.
pub fn is_latin_letter_char(c: char) -> (yes: bool)
    ensures
        yes == is_latin_letter(c),
{
    ('a' <= c && c <= 'z') || ('A' <= c && c <= 'Z')
}

/// Whether `c` is a CJK ideograph.
pub fn is_cjk_ideograph_char(c: char) -> (yes: bool)
    ensures
        yes == is_cjk_ideograph(c),
{
    ('\u{4e00}' <= c && c <= '\u{9fff}') || ('\u{3400}' <= c && c <= '\u{4dbf}') || ('\u{20000}'
        <= c && c <= '\u{2a6df}')
}

/// Whether `c` is white space.
pub fn is_space_char(c: char) -> (yes: bool)
    ensures
        yes == is_space(c),
{
    ('\u{9}' <= c && c <= '\u{d}') || c == ' ' || c == '\u{85}' || c == '\u{a0}' || c
        == '\u{1680}' || ('\u{2000}' <= c && c <= '\u{200a}') || c == '\u{2028}' || c
        == '\u{2029}' || c == '\u{202f}' || c == '\u{205f}' || c == '\u{3000}'
}

/// Collects the characters of `text`, in order.
pub fn chars_of(text: &str) -> (chars: Vec<char>)
    ensures
        chars@ == text@,
{
    let mut chars: Vec<char> = Vec::new();
    for c in it: text.chars()
        invariant
            chars@ == it.seq().take(it.index() as int),
            it.seq() == text@,
    {
        chars.push(c);
    }
    chars
}

/// Finds the last `wanted` in `chars[from..to]`.
pub fn find_last(chars: &Vec<char>, from: usize, to: usize, wanted: char) -> (found: Option<usize>)
    requires
        from <= to <= chars.len(),
    ensures
        match found {
            Some(at) => from <= at < to && at - from == last_index_of(
                chars@.subrange(from as int, to as int),
                wanted,
            ),
            None => last_index_of(chars@.subrange(from as int, to as int), wanted) == -1,
        },
{
    let mut end: usize = to;
    while end > from
        invariant
            from <= end <= to <= chars.len(),
            last_index_of(chars@.subrange(from as int, to as int), wanted) == last_index_of(
                chars@.subrange(from as int, end as int),
                wanted,
            ),
        decreases end,
    {
        if chars[end - 1] == wanted {
            return Some(end - 1);
        }
        assert(chars@.subrange(from as int, end as int).drop_last() == chars@.subrange(
            from as int,
            end - 1,
        ));
        end = end - 1;
    }
    None
}

/// How many characters at the start of `text` are white space.
pub open spec fn leading_spaces(text: Seq<char>) -> nat
    decreases text.len(),
{
    if text.len() > 0 && is_space(text.first()) {
        1 + leading_spaces(text.drop_first())
    } else {
        0
    }
}

/// How many characters at the end of `text` are white space.
pub open spec fn trailing_spaces(text: Seq<char>) -> nat
    decreases text.len(),
{
    if text.len() > 0 && is_space(text.last()) {
        1 + trailing_spaces(text.drop_last())
    } else {
        0
    }
}

/// `text` without the white space at its start and at its end.
pub open spec fn trimmed(text: Seq<char>) -> Seq<char> {
    if leading_spaces(text) == text.len() {
        Seq::empty()
    } else {
        text.subrange(leading_spaces(text) as int, text.len() - trailing_spaces(text))
    }
}

/// Where what is left of `chars[from..to]` after trimming starts and ends.
pub fn trim_bounds(chars: &Vec<char>, from: usize, to: usize) -> (bounds: (usize, usize))
    requires
        from <= to <= chars.len(),
    ensures
        from <= bounds.0 <= bounds.1 <= to,
        chars@.subrange(bounds.0 as int, bounds.1 as int) == trimmed(
            chars@.subrange(from as int, to as int),
        ),
{
    let ghost line = chars@.subrange(from as int, to as int);
    let mut start: usize = from;
    while start < to && is_space_char(chars[start])
        invariant
            from <= start <= to <= chars.len(),
            line == chars@.subrange(from as int, to as int),
            leading_spaces(line) == (start - from) + leading_spaces(
                chars@.subrange(start as int, to as int),
            ),
        decreases to - start,
    {
        assert(chars@.subrange(start as int, to as int).drop_first() == chars@.subrange(
            start + 1,
            to as int,
        ));
        start = start + 1;
    }
    if start == to {
        assert(chars@.subrange(start as int, to as int).len() == 0);
        assert(chars@.subrange(start as int, start as int) == Seq::<char>::empty());
        return (start, start);
    }
    let mut end: usize = to;
    while end > start && is_space_char(chars[end - 1])
        invariant
            from <= start < end <= to <= chars.len(),
            line == chars@.subrange(from as int, to as int),
            !is_space(chars@[start as int]),
            trailing_spaces(line) == (to - end) + trailing_spaces(
                chars@.subrange(from as int, end as int),
            ),
        decreases end,
    {
        assert(chars@.subrange(from as int, end as int).drop_last() == chars@.subrange(
            from as int,
            end - 1,
        ));
        end = end - 1;
    }
    proof {
        assert(leading_spaces(line) == start - from);
        assert(trailing_spaces(line) == to - end);
        assert(line.subrange(start - from, line.len() - (to - end)) == chars@.subrange(
            start as int,
            end as int,
        ));
    }
    (start, end)
}

/// Whether `chars[from..to]` reads `wanted`.
pub fn range_reads(chars: &Vec<char>, from: usize, to: usize, wanted: &str) -> (same: bool)
    requires
        from <= to <= chars.len(),
    ensures
        same == (chars@.subrange(from as int, to as int) == wanted@),
{
    let wanted_chars = chars_of(wanted);
    if wanted_chars.len() != to - from {
        return false;
    }
    let mut i: usize = 0;
    while i < wanted_chars.len()
        invariant
            from <= to <= chars.len(),
            wanted_chars.len() == to - from,
            wanted_chars@ == wanted@,
            i <= wanted_chars.len(),
            forall|j: int| 0 <= j < i ==> chars@[from + j] == wanted_chars@[j],
        decreases wanted_chars.len() - i,
    {
        if chars[from + i] != wanted_chars[i] {
            assert(chars@.subrange(from as int, to as int)[i as int] != wanted@[i as int]);
            return false;
        }
        i = i + 1;
    }
    assert(chars@.subrange(from as int, to as int) =~= wanted@);
    true
}

/// Whether `chars[from..to]` reads `wanted` once its ASCII capital letters
/// are made lower case.
pub fn range_reads_lowered(chars: &Vec<char>, from: usize, to: usize, wanted: &str) -> (same: bool)
    requires
        from <= to <= chars.len(),
    ensures
        same == (lowered(chars@.subrange(from as int, to as int)) == wanted@),
{
    let wanted_chars = chars_of(wanted);
    if wanted_chars.len() != to - from {
        return false;
    }
    let mut i: usize = 0;
    while i < wanted_chars.len()
        invariant
            from <= to <= chars.len(),
            wanted_chars.len() == to - from,
            wanted_chars@ == wanted@,
            i <= wanted_chars.len(),
            forall|j: int| 0 <= j < i ==> ascii_lower(chars@[from + j]) == wanted_chars@[j],
        decreases wanted_chars.len() - i,
    {
        if to_ascii_lower(chars[from + i]) != wanted_chars[i] {
            assert(lowered(chars@.subrange(from as int, to as int))[i as int] != wanted@[i as int]);
            return false;
        }
        i = i + 1;
    }
    assert(lowered(chars@.subrange(from as int, to as int)) =~= wanted@);
    true
}

/// Whether `a` stands before `b`, or is `b`, in the order of a dictionary
/// whose alphabet is the code points: the first character that differs
/// decides, and a text stands before those that continue it.
pub open spec fn text_le(a: Seq<char>, b: Seq<char>) -> bool
    decreases a.len(),
{
    if a.len() == 0 {
        true
    } else if b.len() == 0 {
        false
    } else if a.first() != b.first() {
        a.first() < b.first()
    } else {
        text_le(a.drop_first(), b.drop_first())
    }
}

/// Every text stands where it stands.
pub proof fn lemma_text_le_reflexive(a: Seq<char>)
    ensures
        text_le(a, a),
    decreases a.len(),
{
    if a.len() > 0 {
        lemma_text_le_reflexive(a.drop_first());
    }
}

/// Of two texts one stands before the other, or is it.
pub proof fn lemma_text_le_total(a: Seq<char>, b: Seq<char>)
    ensures
        text_le(a, b) || text_le(b, a),
    decreases a.len(),
{
    if a.len() > 0 && b.len() > 0 && a.first() == b.first() {
        lemma_text_le_total(a.drop_first(), b.drop_first());
    }
}

/// What stands before a text stands before all that the text stands before.
pub proof fn lemma_text_le_transitive(a: Seq<char>, b: Seq<char>, c: Seq<char>)
    requires
        text_le(a, b),
        text_le(b, c),
    ensures
        text_le(a, c),
    decreases a.len(),
{
    if a.len() > 0 && b.len() > 0 && c.len() > 0 && a.first() == b.first() && b.first()
        == c.first() {
        lemma_text_le_transitive(a.drop_first(), b.drop_first(), c.drop_first());
    }
}

/// Two texts that stand before each other are one text.
pub proof fn lemma_text_le_antisymmetric(a: Seq<char>, b: Seq<char>)
    requires
        text_le(a, b),
        text_le(b, a),
    ensures
        a == b,
    decreases a.len(),
{
    if a.len() > 0 && b.len() > 0 {
        lemma_text_le_antisymmetric(a.drop_first(), b.drop_first());
        assert(a =~= seq![a.first()] + a.drop_first());
        assert(b =~= seq![b.first()] + b.drop_first());
    } else {
        assert(a =~= b);
    }
}

/// Whether `a` stands before `b`, or is `b`.
pub fn stands_before(a: &Vec<char>, b: &Vec<char>) -> (yes: bool)
    ensures
        yes == text_le(a@, b@),
{
    let mut i: usize = 0;
    assert(a@.skip(0) == a@ && b@.skip(0) == b@);
    while i < a.len() && i < b.len()
        invariant
            i <= a.len(),
            i <= b.len(),
            text_le(a@, b@) == text_le(a@.skip(i as int), b@.skip(i as int)),
        decreases a.len() - i,
    {
        if a[i] != b[i] {
            return a[i] < b[i];
        }
        assert(a@.skip(i as int).drop_first() == a@.skip(i + 1));
        assert(b@.skip(i as int).drop_first() == b@.skip(i + 1));
        i = i + 1;
    }
    i == a.len()
}

} // verus!
