//! Character sequences: the classes of characters the scanner tells apart,
//! maximal runs of a class, line numbers, and the conversions between
//! `str`, `String` and `Vec<char>`.

use vstd::prelude::*;

verus! {

/// The answer of `char::is_alphabetic` for `c`.
pub uninterp spec fn unicode_alphabetic(c: char) -> bool;

/// The answer of `char::is_alphanumeric` for `c`.
pub uninterp spec fn unicode_alphanumeric(c: char) -> bool;

/// `char::is_alphabetic` decides by the Unicode `Alphabetic` property, a table
/// of the standard library. Assumed: the answer depends on the character alone;
/// it is called `unicode_alphabetic(c)`.
pub assume_specification[ char::is_alphabetic ](c: char) -> (b: bool)
    ensures
        b == unicode_alphabetic(c),
;

/// `char::is_alphanumeric` decides by the Unicode `Alphabetic` property and the
/// numeric general categories. Assumed: the answer depends on the character
/// alone; it is called `unicode_alphanumeric(c)`.
pub assume_specification[ char::is_alphanumeric ](c: char) -> (b: bool)
    ensures
        b == unicode_alphanumeric(c),
;

/// `String::push` appends one character. Assumed: afterwards the string holds
/// the characters it held before, followed by `ch`.
pub assume_specification[ std::string::String::push ](s: &mut std::string::String, ch: char)
    ensures
        final(s)@ == old(s)@.push(ch),
;

/// An ASCII decimal digit.
pub open spec fn is_digit(c: char) -> bool {
    '0' <= c <= '9'
}

/// A character that may begin an identifier or keyword.
pub open spec fn starts_word(c: char) -> bool {
    unicode_alphabetic(c) || c == '_'
}

/// A character that may continue an identifier or keyword.
pub open spec fn continues_word(c: char) -> bool {
    unicode_alphanumeric(c) || c == '_'
}

/// Space, carriage return or tab: skipped between tokens.
pub open spec fn is_blank(c: char) -> bool {
    c == ' ' || c == '\r' || c == '\t'
}

/// The end of the longest run of characters of `class` that begins at `from`:
/// the first index at or after `from` whose character is not in `class`, or
/// the length of `s` if there is none.
pub open spec fn run_end(s: Seq<char>, from: int, class: spec_fn(char) -> bool) -> int
    decreases s.len() - from,
{
    if 0 <= from < s.len() && class(s[from]) {
        run_end(s, from + 1, class)
    } else {
        from
    }
}

/// The class of the decimal digits.
pub open spec fn digits() -> spec_fn(char) -> bool {
    |c: char| is_digit(c)
}

/// The class of the characters that continue an identifier or keyword.
pub open spec fn word_chars() -> spec_fn(char) -> bool {
    |c: char| continues_word(c)
}

/// The class of all characters but `target`.
pub open spec fn other_than(target: char) -> spec_fn(char) -> bool {
    |c: char| c != target
}

/// The end of the run of digits that begins at `from`.
pub open spec fn digits_end(s: Seq<char>, from: int) -> int {
    run_end(s, from, digits())
}

/// The end of the run of identifier characters that begins at `from`.
pub open spec fn word_end(s: Seq<char>, from: int) -> int {
    run_end(s, from, word_chars())
}

/// The first index at or after `from` that holds `target`, or the length of
/// `s` if `target` does not occur there.
pub open spec fn find(s: Seq<char>, from: int, target: char) -> int {
    run_end(s, from, other_than(target))
}

/// A run ends inside the sequence, every character before its end belongs to
/// the class, and the character at its end, if there is one, does not.
pub proof fn lemma_run_end(s: Seq<char>, from: int, class: spec_fn(char) -> bool)
    requires
        0 <= from <= s.len(),
    ensures
        from <= run_end(s, from, class) <= s.len(),
        forall|k: int| from <= k < run_end(s, from, class) ==> class(#[trigger] s[k]),
        run_end(s, from, class) < s.len() ==> !class(s[run_end(s, from, class)]),
    decreases s.len() - from,
{
    if from < s.len() && class(s[from]) {
        lemma_run_end(s, from + 1, class);
    }
}

/// The end of a run is the only index with the three properties of
/// `lemma_run_end`.
pub proof fn lemma_run_end_unique(s: Seq<char>, from: int, class: spec_fn(char) -> bool, end: int)
    requires
        0 <= from <= end <= s.len(),
        forall|k: int| from <= k < end ==> class(#[trigger] s[k]),
        end < s.len() ==> !class(s[end]),
    ensures
        run_end(s, from, class) == end,
    decreases end - from,
{
    if from < end {
        assert(class(s[from]));
        lemma_run_end_unique(s, from + 1, class, end);
    }
}

/// The number of newline characters among the first `pos` characters of `s`.
pub open spec fn newlines_before(s: Seq<char>, pos: int) -> nat
    decreases pos,
{
    if pos <= 0 {
        0
    } else {
        newlines_before(s, pos - 1) + if s[pos - 1] == '\n' {
            1nat
        } else {
            0nat
        }
    }
}

/// The 1-based number of the line on which position `pos` of `s` lies.
pub open spec fn line_at(s: Seq<char>, pos: int) -> nat {
    1 + newlines_before(s, pos)
}

/// There are no more newlines before a position than characters.
pub proof fn lemma_newlines_bounded(s: Seq<char>, pos: int)
    requires
        0 <= pos,
    ensures
        newlines_before(s, pos) <= pos,
    decreases pos,
{
    if pos > 0 {
        lemma_newlines_bounded(s, pos - 1);
    }
}

/// Line numbers do not fall along a text.
pub proof fn lemma_line_grows(s: Seq<char>, from: int, to: int)
    requires
        from <= to,
    ensures
        line_at(s, from) <= line_at(s, to),
    decreases to - from,
{
    if from < to {
        lemma_line_grows(s, from, to - 1);
    }
}

/// The characters of `s`, in order.
pub fn chars_of(s: &str) -> (chars: Vec<char>)
    ensures
        chars@ == s@,
{
    let mut chars: Vec<char> = Vec::new();
    for c in it: s.chars()
        invariant
            chars@ == it.seq().take(it.index() as int),
    {
        chars.push(c);
    }
    chars
}

/// The string made of `chars[from..to]`.
pub fn string_of(chars: &Vec<char>, from: usize, to: usize) -> (s: String)
    requires
        from <= to <= chars.len(),
    ensures
        s@ == chars@.subrange(from as int, to as int),
{
    let mut s = String::new();
    let mut i: usize = from;
    while i < to
        invariant
            from <= i <= to <= chars.len(),
            s@ == chars@.subrange(from as int, i as int),
        decreases to - i,
    {
        s.push(chars[i]);
        i += 1;
    }
    s
}

/// The first index at or after `from` at which `chars` holds `target`, or the
/// length of `chars`.
pub fn find_char(chars: &Vec<char>, from: usize, target: char) -> (at: usize)
    requires
        from <= chars.len(),
    ensures
        at == find(chars@, from as int, target),
        from <= at <= chars.len(),
{
    let mut at: usize = from;
    while at < chars.len() && chars[at] != target
        invariant
            from <= at <= chars.len(),
            find(chars@, at as int, target) == find(chars@, from as int, target),
        decreases chars.len() - at,
    {
        at += 1;
    }
    at
}

/// Whether `chars` spells `word`.
pub fn spells(chars: &Vec<char>, word: &str) -> (b: bool)
    ensures
        b == (chars@ == word@),
{
    let letters = chars_of(word);
    if letters.len() != chars.len() {
        return false;
    }
    let mut i: usize = 0;
    while i < chars.len()
        invariant
            i <= chars.len() == letters.len(),
            letters@ == word@,
            chars@.take(i as int) == letters@.take(i as int),
        decreases chars.len() - i,
    {
        if chars[i] != letters[i] {
            return false;
        }
        proof {
            assert(chars@.take(i + 1) =~= chars@.take(i as int).push(chars@[i as int]));
            assert(letters@.take(i + 1) =~= letters@.take(i as int).push(letters@[i as int]));
        }
        i += 1;
    }
    proof {
        assert(chars@.take(i as int) =~= chars@);
        assert(letters@.take(i as int) =~= letters@);
    }
    true
}

/// Whether `c` is an ASCII decimal digit.
pub fn digit(c: char) -> (b: bool)
    ensures
        b == is_digit(c),
{
    '0' <= c && c <= '9'
}

/// Whether `c` may begin an identifier or keyword.
pub fn word_start(c: char) -> (b: bool)
    ensures
        b == starts_word(c),
{
    c.is_alphabetic() || c == '_'
}

/// Whether `c` may continue an identifier or keyword.
pub fn word_part(c: char) -> (b: bool)
    ensures
        b == continues_word(c),
{
    c.is_alphanumeric() || c == '_'
}

} // verus!
