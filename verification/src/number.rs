//! Number literals: the text a number token keeps, and the canonical form in
//! which its value is displayed.

use vstd::prelude::*;
use crate::text::{
    find, find_char, is_digit, lemma_run_end, lemma_run_end_unique, other_than, string_of,
};

verus! {

/// `s` without the zeros at its end.
pub open spec fn without_trailing_zeros(s: Seq<char>) -> Seq<char>
    decreases s.len(),
{
    if s.len() > 0 && s.last() == '0' {
        without_trailing_zeros(s.drop_last())
    } else {
        s
    }
}

/// `s` without its trailing zeros, or one zero if nothing else is left.
pub open spec fn shortest_fraction(s: Seq<char>) -> Seq<char> {
    if without_trailing_zeros(s).len() == 0 {
        seq!['0']
    } else {
        without_trailing_zeros(s)
    }
}

/// `s` with the zeros at the end of its fraction removed, and one zero left
/// where the fraction held nothing else. The fraction is what stands between
/// the first `.` and the next `.` or the end; a text without `.` stays as it
/// is.
pub open spec fn truncated(s: Seq<char>) -> Seq<char> {
    let dot = find(s, 0, '.');
    if dot >= s.len() {
        s
    } else {
        let stop = find(s, dot + 1, '.');
        s.take(dot + 1) + shortest_fraction(s.subrange(dot + 1, stop)) + s.skip(stop)
    }
}

/// Whether `text` ends in a `.`.
pub open spec fn ends_with_dot(text: Seq<char>) -> bool {
    text.len() > 0 && text.last() == '.'
}

/// The lexeme of a number literal: its text, without the `.` at its end if
/// there is one.
pub open spec fn lexeme_of(text: Seq<char>) -> Seq<char> {
    if ends_with_dot(text) {
        text.drop_last()
    } else {
        text
    }
}

/// The text of a number literal, completed to have a fraction.
pub open spec fn with_fraction(text: Seq<char>) -> Seq<char> {
    if ends_with_dot(text) {
        text.push('0')
    } else if find(text, 0, '.') >= text.len() {
        text.push('.').push('0')
    } else {
        text
    }
}

/// The canonical display form of a number literal: always with a fraction,
/// whose trailing zeros are removed down to one digit.
pub open spec fn display_of(text: Seq<char>) -> Seq<char> {
    truncated(with_fraction(text))
}

/// The text of a number literal: digits and at most one `.`, with a digit
/// first.
pub open spec fn is_number_literal(text: Seq<char>) -> bool {
    &&& text.len() > 0
    &&& is_digit(text[0])
    &&& forall|i: int| 0 <= i < text.len() ==> is_digit(#[trigger] text[i]) || text[i] == '.'
    &&& forall|i: int, j: int|
        0 <= i < j < text.len() && #[trigger] text[i] == '.' ==> #[trigger] text[j] != '.'
}

/// The text that a number token keeps: a number literal that does not end
/// in a `.`.
pub open spec fn is_number_lexeme(text: Seq<char>) -> bool {
    is_number_literal(text) && !ends_with_dot(text)
}

/// What stands before the first `.` of `text`.
pub open spec fn whole_of(text: Seq<char>) -> Seq<char> {
    text.take(find(text, 0, '.'))
}

/// What stands behind the first `.` of `text`; nothing, if it has no `.`.
pub open spec fn fraction_of(text: Seq<char>) -> Seq<char> {
    let dot = find(text, 0, '.');
    if dot < text.len() {
        text.skip(dot + 1)
    } else {
        seq![]
    }
}

/// The value of the decimal digit `c`.
pub open spec fn digit_value(c: char) -> nat
    recommends
        is_digit(c),
{
    (c as nat - '0' as nat) as nat
}

/// The number that the decimal digits `s` write; 0 for no digits.
pub open spec fn digits_value(s: Seq<char>) -> nat
    decreases s.len(),
{
    if s.len() == 0 {
        0
    } else {
        10 * digits_value(s.drop_last()) + digit_value(s.last())
    }
}

/// Ten to the power of `n`.
pub open spec fn pow10(n: nat) -> nat
    decreases n,
{
    if n == 0 {
        1
    } else {
        10 * pow10((n - 1) as nat)
    }
}

/// A decimal number: `digits` divided by ten to the power of `scale`.
pub struct Decimal {
    pub digits: nat,
    pub scale: nat,
}

/// The number that `text` writes: its digits, and as scale the count of the
/// digits behind the `.`.
pub open spec fn value_of(text: Seq<char>) -> Decimal {
    Decimal {
        digits: digits_value(whole_of(text) + fraction_of(text)),
        scale: fraction_of(text).len(),
    }
}

/// Whether `a` and `b` are the same number.
pub open spec fn same_number(a: Decimal, b: Decimal) -> bool {
    a.digits * pow10(b.scale) == b.digits * pow10(a.scale)
}

/// A number literal is one or more digits, then at most a `.` and digits.
pub proof fn lemma_literal_shape(text: Seq<char>)
    requires
        is_number_literal(text),
    ensures
        1 <= find(text, 0, '.') <= text.len(),
        forall|i: int| 0 <= i < find(text, 0, '.') ==> is_digit(#[trigger] text[i]),
        find(text, 0, '.') < text.len() ==> text[find(text, 0, '.')] == '.',
        forall|i: int| find(text, 0, '.') < i < text.len() ==> is_digit(#[trigger] text[i]),
        find(text, 0, '.') < text.len() ==> find(text, find(text, 0, '.') + 1, '.') == text.len(),
{
    let dot = find(text, 0, '.');
    lemma_run_end(text, 0, other_than('.'));
    assert(other_than('.')(text[0]));
    assert forall|i: int| 0 <= i < dot implies is_digit(#[trigger] text[i]) by {
        assert(other_than('.')(text[i]));
    }
    if dot < text.len() {
        assert forall|i: int| dot < i < text.len() implies other_than('.')(#[trigger] text[i]) by {
            assert(text[dot] == '.');
        }
        lemma_run_end_unique(text, dot + 1, other_than('.'), text.len() as int);
    }
}

/// The trailing zeros of `s` are zeros, and what stands before them is `s`
/// without them, which does not end in a zero.
pub proof fn lemma_without_trailing_zeros(s: Seq<char>)
    ensures
        without_trailing_zeros(s).len() <= s.len(),
        without_trailing_zeros(s) == s.take(without_trailing_zeros(s).len() as int),
        forall|i: int| without_trailing_zeros(s).len() <= i < s.len() ==> #[trigger] s[i] == '0',
        without_trailing_zeros(s).len() > 0 ==> without_trailing_zeros(s).last() != '0',
    decreases s.len(),
{
    if s.len() > 0 && s.last() == '0' {
        lemma_without_trailing_zeros(s.drop_last());
        let kept = without_trailing_zeros(s);
        assert(kept =~= s.take(kept.len() as int));
        assert forall|i: int| kept.len() <= i < s.len() implies #[trigger] s[i] == '0' by {
            if i < s.len() - 1 {
                assert(s.drop_last()[i] == '0');
            }
        }
    } else {
        assert(s =~= s.take(s.len() as int));
    }
}

/// The lexeme of a number literal has the characters of the literal, and its
/// first `.`, if it has one, where the literal has it.
proof fn lemma_lexeme_shape(text: Seq<char>)
    requires
        is_number_literal(text),
    ensures
        lexeme_of(text).len() == if ends_with_dot(text) {
            text.len() - 1
        } else {
            text.len() as int
        },
        forall|i: int| 0 <= i < lexeme_of(text).len() ==> #[trigger] lexeme_of(text)[i] == text[i],
        ends_with_dot(text) <==> find(text, 0, '.') == text.len() - 1,
        find(lexeme_of(text), 0, '.') == if ends_with_dot(text) {
            text.len() - 1
        } else {
            find(text, 0, '.')
        },
{
    lemma_literal_shape(text);
    let lexeme = lexeme_of(text);
    let dot = find(text, 0, '.');
    if dot < text.len() - 1 {
        assert(text[dot] == '.');
        assert(is_digit(text[text.len() - 1]));
    }
    if ends_with_dot(text) {
        assert forall|k: int| 0 <= k < dot implies other_than('.')(#[trigger] lexeme[k]) by {
            assert(is_digit(text[k]));
        }
        lemma_run_end_unique(lexeme, 0, other_than('.'), dot);
    }
}

/// The display form of a number literal is the whole part of its lexeme, a
/// `.`, and the fraction of its lexeme without trailing zeros, or one zero
/// where that leaves no digit.
pub proof fn lemma_display_form(text: Seq<char>)
    requires
        is_number_literal(text),
    ensures
        whole_of(display_of(text)) == whole_of(lexeme_of(text)),
        fraction_of(display_of(text)) == shortest_fraction(fraction_of(lexeme_of(text))),
        display_of(text) == whole_of(display_of(text)) + seq!['.'] + fraction_of(display_of(text)),
{
    lemma_literal_shape(text);
    lemma_lexeme_shape(text);
    let n = text.len() as int;
    let dot = find(text, 0, '.');
    let lexeme = lexeme_of(text);
    let padded = with_fraction(text);
    let display = display_of(text);
    let class = other_than('.');
    let shown = shortest_fraction(fraction_of(lexeme));
    assert(find(padded, 0, '.') == dot) by {
        assert forall|k: int| 0 <= k < dot implies class(#[trigger] padded[k]) by {
            assert(is_digit(text[k]));
        }
        lemma_run_end_unique(padded, 0, class, dot);
    }
    assert(whole_of(lexeme) =~= text.take(dot));
    assert(padded.take(dot + 1) =~= text.take(dot) + seq!['.']);
    if dot + 1 < n {
        assert(text.subrange(dot + 1, n) =~= text.skip(dot + 1));
        assert(text.skip(n) =~= Seq::<char>::empty());
    } else {
        assert(fraction_of(lexeme) =~= Seq::<char>::empty());
        assert(padded =~= text.take(dot) + seq!['.', '0']);
        assert(class(padded[dot + 1]));
        lemma_run_end_unique(padded, dot + 1, class, dot + 2);
        let zero = padded.subrange(dot + 1, dot + 2);
        assert(zero =~= seq!['0']);
        assert(zero.drop_last() =~= Seq::<char>::empty());
        assert(without_trailing_zeros(zero) == without_trailing_zeros(zero.drop_last()));
        assert(padded.skip(dot + 2) =~= Seq::<char>::empty());
    }
    assert(display =~= text.take(dot) + seq!['.'] + shown);
    assert(find(display, 0, '.') == dot) by {
        assert forall|k: int| 0 <= k < dot implies class(#[trigger] display[k]) by {
            assert(display[k] == text[k]);
            assert(is_digit(text[k]));
        }
        assert(display[dot] == '.');
        lemma_run_end_unique(display, 0, class, dot);
    }
    assert(whole_of(display) =~= text.take(dot));
    assert(fraction_of(display) =~= shown);
}

/// The lexeme and the display form of a number literal are texts that a
/// number token may keep, and the display form has a fraction, which is one
/// digit or does not end in a zero.
pub proof fn lemma_display_is_number(text: Seq<char>)
    requires
        is_number_literal(text),
    ensures
        is_number_lexeme(lexeme_of(text)),
        is_number_lexeme(display_of(text)),
        fraction_of(display_of(text)).len() >= 1,
        fraction_of(display_of(text)).len() == 1 || fraction_of(display_of(text)).last() != '0',
{
    lemma_literal_shape(text);
    lemma_lexeme_shape(text);
    lemma_display_form(text);
    let lexeme = lexeme_of(text);
    let display = display_of(text);
    let dot = find(text, 0, '.');
    let fraction = fraction_of(lexeme);
    let shown = fraction_of(display);
    lemma_without_trailing_zeros(fraction);
    assert(is_number_lexeme(lexeme)) by {
        assert(is_digit(text[dot - 1]));
    }
    assert(whole_of(lexeme) =~= text.take(dot));
    assert forall|i: int| 0 <= i < shown.len() implies is_digit(#[trigger] shown[i]) by {
        if without_trailing_zeros(fraction).len() > 0 {
            assert(shown[i] == fraction[i]);
            assert(fraction[i] == text[dot + 1 + i]);
        }
    }
    assert forall|i: int| 0 <= i < display.len() implies is_digit(#[trigger] display[i])
        || display[i] == '.' by {
        if i < dot {
            assert(display[i] == text[i]);
        } else if i > dot {
            assert(display[i] == shown[i - dot - 1]);
        }
    }
    assert forall|i: int, j: int|
        0 <= i < j < display.len() && #[trigger] display[i] == '.' implies #[trigger] display[j]
        != '.' by {
        if i < dot {
            assert(display[i] == text[i]);
            assert(is_digit(text[i]));
        }
        assert(display[j] == shown[j - dot - 1]);
    }
    assert(display[0] == text[0]);
    assert(display.last() == shown.last());
}

/// Zeros at the end of the digits multiply the number by a power of ten.
proof fn lemma_digits_value_zeros(prefix: Seq<char>, s: Seq<char>)
    ensures
        digits_value(prefix + s) == digits_value(prefix + without_trailing_zeros(s)) * pow10(
            (s.len() - without_trailing_zeros(s).len()) as nat,
        ),
    decreases s.len(),
{
    lemma_without_trailing_zeros(s);
    if s.len() > 0 && s.last() == '0' {
        lemma_digits_value_zeros(prefix, s.drop_last());
        lemma_without_trailing_zeros(s.drop_last());
        assert((prefix + s).drop_last() =~= prefix + s.drop_last());
        let kept = digits_value(prefix + without_trailing_zeros(s));
        let zeros = (s.len() - 1 - without_trailing_zeros(s).len()) as nat;
        assert(digits_value(prefix + s) == 10 * (kept * pow10(zeros)));
        assert(10 * (kept * pow10(zeros)) == kept * (10 * pow10(zeros))) by (nonlinear_arith);
    } else {
        assert(digits_value(prefix + s) * 1 == digits_value(prefix + s));
    }
}

/// Powers of ten multiply as their exponents add.
proof fn lemma_pow10_sum(a: nat, b: nat)
    ensures
        pow10(a) * pow10(b) == pow10(a + b),
    decreases a,
{
    if a == 0 {
        assert(pow10(a) == 1);
        assert(1 * pow10(b) == pow10(b));
    } else {
        let less = (a - 1) as nat;
        lemma_pow10_sum(less, b);
        assert(pow10(a) == 10 * pow10(less));
        assert(pow10(a + b) == 10 * pow10(less + b));
        assert((10 * pow10(less)) * pow10(b) == 10 * (pow10(less) * pow10(b)))
            by (nonlinear_arith);
    }
}

/// The lexeme of a number literal and its display form write the same number.
pub proof fn lemma_display_keeps_value(text: Seq<char>)
    requires
        is_number_literal(text),
    ensures
        same_number(value_of(lexeme_of(text)), value_of(display_of(text))),
{
    lemma_display_form(text);
    let whole = whole_of(lexeme_of(text));
    let fraction = fraction_of(lexeme_of(text));
    let kept = without_trailing_zeros(fraction);
    let shown = shortest_fraction(fraction);
    let zeros = (fraction.len() - kept.len()) as nat;
    let base = digits_value(whole + kept);
    lemma_without_trailing_zeros(fraction);
    lemma_digits_value_zeros(whole, fraction);
    lemma_pow10_sum(zeros, kept.len());
    if kept.len() == 0 {
        assert((whole + shown).drop_last() =~= whole);
        assert(whole + kept =~= whole);
        assert(digits_value(whole + shown) == 10 * base);
        assert(pow10(1) == 10) by {
            reveal_with_fuel(pow10, 2);
        }
        assert((base * pow10(zeros)) * 10 == (10 * base) * pow10(zeros)) by (nonlinear_arith);
    } else {
        assert((base * pow10(zeros)) * pow10(kept.len()) == base * (pow10(zeros) * pow10(
            kept.len(),
        ))) by (nonlinear_arith);
    }
}

/// The characters of `chars` with the trailing zeros of the fraction removed.
pub fn truncate(chars: &Vec<char>) -> (s: String)
    ensures
        s@ == truncated(chars@),
{
    let n = chars.len();
    let dot = find_char(chars, 0, '.');
    if dot >= n {
        proof {
            assert(chars@.subrange(0, n as int) =~= chars@);
        }
        return string_of(chars, 0, n);
    }
    let stop = find_char(chars, dot + 1, '.');
    let mut end: usize = stop;
    while end > dot + 1 && chars[end - 1] == '0'
        invariant
            dot + 1 <= end <= stop <= n,
            n == chars.len(),
            without_trailing_zeros(chars@.subrange(dot + 1, end as int))
                == without_trailing_zeros(chars@.subrange(dot + 1, stop as int)),
        decreases end,
    {
        proof {
            assert(chars@.subrange(dot + 1, end as int).drop_last() =~= chars@.subrange(
                dot + 1,
                end - 1,
            ));
        }
        end -= 1;
    }
    let mut s = string_of(chars, 0, dot + 1);
    if end == dot + 1 {
        s.push('0');
    } else {
        let kept = string_of(chars, dot + 1, end);
        s.append(kept.as_str());
    }
    let rest = string_of(chars, stop, n);
    s.append(rest.as_str());
    s
}

/// The lexeme of the number literal `text`.
pub fn lexeme(text: &Vec<char>) -> (s: String)
    ensures
        s@ == lexeme_of(text@),
{
    let n = text.len();
    if n > 0 && text[n - 1] == '.' {
        string_of(text, 0, n - 1)
    } else {
        proof {
            assert(text@.subrange(0, n as int) =~= text@);
        }
        string_of(text, 0, n)
    }
}

/// The display form of the number literal `text`.
pub fn display(text: &Vec<char>) -> (s: String)
    ensures
        s@ == display_of(text@),
{
    let n = text.len();
    let mut padded = text.clone();
    assert(padded@ =~= text@);
    if n > 0 && text[n - 1] == '.' {
        padded.push('0');
    } else if find_char(text, 0, '.') >= n {
        padded.push('.');
        padded.push('0');
    }
    truncate(&padded)
}

} // verus!
