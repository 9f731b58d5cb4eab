//! The scanner: what the tokens and diagnostics of a source text are, and the
//! single pass that produces them.

use vstd::prelude::*;
use crate::cursor::Cursor;
use crate::diagnostic::{Diagnostic, DiagnosticView, LexError};
use crate::number::{ends_with_dot, is_number_lexeme, lexeme_of};
use crate::text::{
    continues_word, digit, digits, digits_end, find, is_blank, is_digit, lemma_line_grows,
    lemma_run_end, line_at, other_than, starts_word, word_chars, word_end, word_start,
};
use crate::token::{
    keyword, lemma_operator_lexeme, lemma_punctuation_lexeme, lemma_word_lexeme, operator,
    punctuation, word_token, Token, TokenList, TokenView,
};

verus! {

/// What the scanner makes of the text at one position: where it goes on, the
/// tokens it found there and the error, if the text there is malformed.
pub struct Step {
    pub next: int,
    pub tokens: Seq<TokenView>,
    pub error: Option<LexError>,
}

/// A step over one character that has no more to it.
pub open spec fn single(pos: int, tokens: Seq<TokenView>) -> Step {
    Step { next: pos + 1, tokens, error: None }
}

/// Whether the character at `pos` is `c`.
pub open spec fn holds(s: Seq<char>, pos: int, c: char) -> bool {
    0 <= pos < s.len() && s[pos] == c
}

/// The end of the number literal that begins at `pos`: its digits, and behind
/// them a `.` with the digits that follow it, if there is a `.`.
pub open spec fn number_end(s: Seq<char>, pos: int) -> int {
    let whole = digits_end(s, pos);
    if holds(s, whole, '.') {
        digits_end(s, whole + 1)
    } else {
        whole
    }
}

/// A number literal. The token keeps the text of the literal; a `.` at the end
/// of the literal is left out of it and makes a token of its own.
pub open spec fn number_step(s: Seq<char>, pos: int) -> Step {
    let end = number_end(s, pos);
    let literal = s.subrange(pos, end);
    Step {
        next: end,
        tokens: if ends_with_dot(literal) {
            seq![TokenView::Number(lexeme_of(literal)), TokenView::Dot]
        } else {
            seq![TokenView::Number(literal)]
        },
        error: None,
    }
}

/// A string literal, whose opening quote is at `pos`. The token keeps what
/// stands between the quotes, as it is. Without a closing quote the rest of
/// the text is given up and makes no token.
pub open spec fn string_step(s: Seq<char>, pos: int) -> Step {
    let close = find(s, pos + 1, '"');
    if close < s.len() {
        Step {
            next: close + 1,
            tokens: seq![TokenView::String(s.subrange(pos + 1, close))],
            error: None,
        }
    } else {
        Step { next: s.len() as int, tokens: seq![], error: Some(LexError::UnterminatedString) }
    }
}

/// An identifier or keyword: the longest run of identifier characters.
pub open spec fn word_step(s: Seq<char>, pos: int) -> Step {
    let end = word_end(s, pos + 1);
    Step { next: end, tokens: seq![word_token(s.subrange(pos, end))], error: None }
}

/// A `/`: a comment, which runs up to the next newline and leaves it, if
/// another `/` follows, and the token `SLASH` if not.
pub open spec fn slash_step(s: Seq<char>, pos: int) -> Step {
    if holds(s, pos + 1, '/') {
        Step { next: find(s, pos + 2, '\n'), tokens: seq![], error: None }
    } else {
        single(pos, seq![TokenView::Slash])
    }
}

/// The step of the scanner at position `pos` of `s`.
pub open spec fn step(s: Seq<char>, pos: int) -> Step
    recommends
        0 <= pos < s.len(),
{
    let c = s[pos];
    let doubled = holds(s, pos + 1, '=');
    if punctuation(c) is Some {
        single(pos, seq![punctuation(c)->0])
    } else if operator(c, doubled) is Some {
        Step {
            next: if doubled {
                pos + 2
            } else {
                pos + 1
            },
            tokens: seq![operator(c, doubled)->0],
            error: None,
        }
    } else if c == '/' {
        slash_step(s, pos)
    } else if is_blank(c) || c == '\n' {
        single(pos, seq![])
    } else if c == '"' {
        string_step(s, pos)
    } else if is_digit(c) {
        number_step(s, pos)
    } else if starts_word(c) {
        word_step(s, pos)
    } else {
        Step { next: pos + 1, tokens: seq![], error: Some(LexError::UnexpectedCharacter(c)) }
    }
}

/// The diagnostics of a step at `pos`: its error, if it has one, with the
/// line on which `pos` lies.
pub open spec fn step_diagnostics(s: Seq<char>, pos: int) -> Seq<DiagnosticView> {
    match step(s, pos).error {
        Some(error) => seq![DiagnosticView { line: line_at(s, pos), error }],
        None => seq![],
    }
}

/// Every step consumes at least one character and stays inside the text.
pub proof fn lemma_step_advances(s: Seq<char>, pos: int)
    requires
        0 <= pos < s.len(),
    ensures
        pos < step(s, pos).next <= s.len(),
{
    let c = s[pos];
    if punctuation(c) is Some {
    } else if operator(c, holds(s, pos + 1, '=')) is Some {
    } else if c == '/' {
        if holds(s, pos + 1, '/') {
            lemma_run_end(s, pos + 2, other_than('\n'));
        }
    } else if is_blank(c) || c == '\n' {
    } else if c == '"' {
        lemma_run_end(s, pos + 1, other_than('"'));
    } else if is_digit(c) {
        let whole = digits_end(s, pos);
        lemma_run_end(s, pos, digits());
        if holds(s, whole, '.') {
            lemma_run_end(s, whole + 1, digits());
        }
    } else if starts_word(c) {
        lemma_run_end(s, pos + 1, word_chars());
    }
}

/// What a scan yields: the tokens, and the diagnostics, each in the order of
/// the source text.
pub struct Scanned {
    pub tokens: Seq<TokenView>,
    pub diagnostics: Seq<DiagnosticView>,
}

/// The tokens and diagnostics of `s` from position `pos` on: those of the
/// step at `pos`, then those of the rest; at the end of the text, the token
/// that marks the end of input.
pub open spec fn scan_from(s: Seq<char>, pos: int) -> Scanned
    decreases s.len() - pos,
    via scan_from_terminates
{
    if 0 <= pos < s.len() {
        let rest = scan_from(s, step(s, pos).next);
        Scanned {
            tokens: step(s, pos).tokens + rest.tokens,
            diagnostics: step_diagnostics(s, pos) + rest.diagnostics,
        }
    } else {
        Scanned { tokens: seq![TokenView::EOF], diagnostics: seq![] }
    }
}

#[via_fn]
proof fn scan_from_terminates(s: Seq<char>, pos: int) {
    if 0 <= pos < s.len() {
        lemma_step_advances(s, pos);
    }
}

/// The tokens and diagnostics of the source text `s`.
pub open spec fn scanned(s: Seq<char>) -> Scanned {
    scan_from(s, 0)
}

/// The lexemes of `tokens`, one behind the other.
pub open spec fn lexemes(tokens: Seq<TokenView>) -> Seq<char>
    decreases tokens.len(),
{
    if tokens.len() == 0 {
        seq![]
    } else {
        lexemes(tokens.drop_last()) + tokens.last().lexeme()
    }
}

/// What holds of the text that a token of a scan carries: a number is
/// digits with at most one `.`, which is not its last character; a string
/// holds no quote; an identifier begins as an identifier may begin, goes on
/// in identifier characters, and is no reserved word.
pub open spec fn well_formed(token: TokenView) -> bool {
    match token {
        TokenView::Number(text) => is_number_lexeme(text),
        TokenView::String(text) => !text.contains('"'),
        TokenView::Identifier(name) => {
            &&& name.len() > 0
            &&& starts_word(name[0])
            &&& forall|i: int| 1 <= i < name.len() ==> continues_word(#[trigger] name[i])
            &&& keyword(name) is None
        },
        _ => true,
    }
}

/// The views of a sequence of diagnostics.
pub open spec fn diagnostic_views(diagnostics: Seq<Diagnostic>) -> Seq<DiagnosticView> {
    diagnostics.map_values(|d: Diagnostic| d@)
}

/// The outcome of a scan.
pub struct ScanResult {
    /// The tokens of the text; the last one marks the end of input.
    pub tokens: TokenList,
    /// What was reported of the text, in the order of the text.
    pub diagnostics: Vec<Diagnostic>,
}

impl View for ScanResult {
    type V = Scanned;

    open spec fn view(&self) -> Scanned {
        Scanned { tokens: self.tokens@, diagnostics: diagnostic_views(self.diagnostics@) }
    }
}

impl ScanResult {
    /// The number of diagnostics.
    pub fn error_count(&self) -> (n: usize)
        ensures
            n == self@.diagnostics.len(),
    {
        self.diagnostics.len()
    }

    /// Whether the text was scanned without a diagnostic.
    pub fn is_clean(&self) -> (clean: bool)
        ensures
            clean == (self@.diagnostics.len() == 0),
    {
        self.diagnostics.len() == 0
    }
}

/// Whether the character at the cursor is `c`.
fn at(cursor: &Cursor, c: char) -> (b: bool)
    requires
        cursor.wf(),
    ensures
        b == holds(cursor.source(), cursor.position(), c),
{
    match cursor.peek() {
        Some(next) => next == c,
        None => false,
    }
}

/// Scans the number literal that begins at `start`, whose first digit is
/// consumed.
fn scan_number(cursor: &mut Cursor, tokens: &mut TokenList, start: usize)
    requires
        old(cursor).wf(),
        old(cursor).position() == start + 1,
        is_digit(old(cursor).source()[start as int]),
    ensures
        final(cursor).wf(),
        final(cursor).source() == old(cursor).source(),
        final(cursor).position() == number_step(old(cursor).source(), start as int).next,
        final(tokens)@ == old(tokens)@ + number_step(old(cursor).source(), start as int).tokens,
{
    let ghost s = cursor.source();
    cursor.advance_digits();
    let whole = cursor.offset();
    proof {
        lemma_run_end(s, start + 1, digits());
    }
    if at(cursor, '.') {
        cursor.advance();
        cursor.advance_digits();
        let end = cursor.offset();
        proof {
            lemma_run_end(s, whole + 1, digits());
        }
        if end == whole + 1 {
            proof {
                assert(s.subrange(start as int, end as int).drop_last() =~= s.subrange(
                    start as int,
                    whole as int,
                ));
            }
            tokens.add(Token::Number(cursor.text(start, whole)));
            tokens.add(Token::Dot);
        } else {
            tokens.add(Token::Number(cursor.text(start, end)));
        }
    } else {
        tokens.add(Token::Number(cursor.text(start, whole)));
    }
}

/// Scans one step: consumes the characters of the step at the cursor, and
/// adds its tokens and diagnostics.
fn scan_token(cursor: &mut Cursor, tokens: &mut TokenList, diagnostics: &mut Vec<Diagnostic>)
    requires
        old(cursor).wf(),
        old(cursor).position() < old(cursor).source().len(),
    ensures
        final(cursor).wf(),
        final(cursor).source() == old(cursor).source(),
        final(cursor).position() == step(old(cursor).source(), old(cursor).position()).next,
        final(tokens)@ == old(tokens)@ + step(old(cursor).source(), old(cursor).position()).tokens,
        diagnostic_views(final(diagnostics)@) == diagnostic_views(old(diagnostics)@)
            + step_diagnostics(old(cursor).source(), old(cursor).position()),
{
    let ghost s = cursor.source();
    let start = cursor.offset();
    let line = cursor.line();
    let c = cursor.advance();
    let doubled = at(cursor, '=');
    proof {
        lemma_step_advances(s, start as int);
    }
    if let Some(token) = Token::punctuation(c) {
        tokens.add(token);
    } else if let Some(token) = Token::operator(c, doubled) {
        if doubled {
            cursor.advance();
        }
        tokens.add(token);
    } else if c == '/' {
        if at(cursor, '/') {
            cursor.advance();
            cursor.advance_to('\n');
        } else {
            tokens.add(Token::Slash);
        }
    } else if c == ' ' || c == '\r' || c == '\t' || c == '\n' {
    } else if c == '"' {
        cursor.advance_to('"');
        let close = cursor.offset();
        if at(cursor, '"') {
            let text = cursor.text(start + 1, close);
            cursor.advance();
            tokens.add(Token::String(text));
        } else {
            proof {
                lemma_run_end(s, start + 1, other_than('"'));
            }
            diagnostics.push(Diagnostic { line, error: LexError::UnterminatedString });
        }
    } else if digit(c) {
        scan_number(cursor, tokens, start);
    } else if word_start(c) {
        cursor.advance_word();
        let text = cursor.text(start, cursor.offset());
        tokens.add(Token::match_reserved(text.as_str()));
    } else {
        diagnostics.push(Diagnostic { line, error: LexError::UnexpectedCharacter(c) });
    }
}

/// Scans `source`: its tokens, the last of which marks the end of input, and
/// the diagnostics of what is malformed in it. Malformed text makes no token
/// and does not stop the scan.
pub fn scan(source: &str) -> (result: ScanResult)
    ensures
        result@.tokens == scanned(source@).tokens,
        result@.diagnostics == scanned(source@).diagnostics,
        result@.tokens.len() >= 1,
        result@.tokens.last() == TokenView::EOF,
        forall|i: int| 0 <= i < result@.tokens.len() - 1 ==> !(#[trigger] result@.tokens[i] is EOF),
        forall|i: int| 0 <= i < result@.tokens.len() ==> well_formed(#[trigger] result@.tokens[i]),
{
    proof {
        lemma_scan_tokens(source@, 0);
    }
    let mut cursor = Cursor::new(source);
    let mut tokens = TokenList::new();
    let mut diagnostics: Vec<Diagnostic> = Vec::new();
    while cursor.peek().is_some()
        invariant
            cursor.wf(),
            cursor.source() == source@,
            tokens@ + scan_from(source@, cursor.position()).tokens == scanned(source@).tokens,
            diagnostic_views(diagnostics@) + scan_from(source@, cursor.position()).diagnostics
                == scanned(source@).diagnostics,
        decreases cursor.source().len() - cursor.position(),
    {
        proof {
            lemma_step_advances(source@, cursor.position());
        }
        scan_token(&mut cursor, &mut tokens, &mut diagnostics);
    }
    tokens.add(Token::EOF);
    ScanResult { tokens, diagnostics }
}

/// No step yields the token that marks the end of input, and the tokens it
/// yields are well formed.
pub proof fn lemma_step_tokens(s: Seq<char>, pos: int)
    requires
        0 <= pos < s.len(),
    ensures
        forall|i: int|
            0 <= i < step(s, pos).tokens.len() ==> !((#[trigger] step(s, pos).tokens[i]) is EOF)
                && well_formed(step(s, pos).tokens[i]),
{
    let c = s[pos];
    if punctuation(c) is Some {
    } else if operator(c, holds(s, pos + 1, '=')) is Some {
    } else if c == '/' {
    } else if is_blank(c) || c == '\n' {
    } else if c == '"' {
        let close = find(s, pos + 1, '"');
        lemma_run_end(s, pos + 1, other_than('"'));
        if close < s.len() {
            let text = s.subrange(pos + 1, close);
            assert forall|i: int| 0 <= i < text.len() implies text[i] != '"' by {
                assert(other_than('"')(s[pos + 1 + i]));
            }
        }
    } else if is_digit(c) {
        let whole = digits_end(s, pos);
        lemma_run_end(s, pos, digits());
        assert forall|k: int| pos <= k < whole implies is_digit(#[trigger] s[k]) by {
            assert(digits()(s[k]));
        }
        if holds(s, whole, '.') {
            let end = digits_end(s, whole + 1);
            lemma_run_end(s, whole + 1, digits());
            assert forall|k: int| whole < k < end implies is_digit(#[trigger] s[k]) by {
                assert(digits()(s[k]));
            }
            let literal = s.subrange(pos, end);
            if end == whole + 1 {
                assert(literal.drop_last() =~= s.subrange(pos, whole));
            }
            let text = lexeme_of(literal);
            assert forall|i: int| 0 <= i < text.len() implies is_digit(#[trigger] text[i])
                || text[i] == '.' by {
                assert(text[i] == s[pos + i]);
            }
            assert forall|i: int, j: int|
                0 <= i < j < text.len() && #[trigger] text[i] == '.' implies #[trigger] text[j]
                != '.' by {
                assert(text[i] == s[pos + i]);
                assert(text[j] == s[pos + j]);
            }
            assert(text[0] == s[pos]);
            assert(text.last() == s[pos + text.len() - 1]);
        } else {
            let text = s.subrange(pos, whole);
            assert forall|i: int| 0 <= i < text.len() implies is_digit(#[trigger] text[i]) by {
                assert(text[i] == s[pos + i]);
            }
        }
    } else if starts_word(c) {
        let end = word_end(s, pos + 1);
        lemma_run_end(s, pos + 1, word_chars());
        let name = s.subrange(pos, end);
        assert forall|i: int| 1 <= i < name.len() implies continues_word(#[trigger] name[i]) by {
            assert(word_chars()(s[pos + i]));
        }
    }
}

/// The token that marks the end of input is the last token of a text, and
/// no other token of the text is one; every token of the text is well
/// formed.
pub proof fn lemma_scan_tokens(s: Seq<char>, pos: int)
    ensures
        scan_from(s, pos).tokens.len() >= 1,
        scan_from(s, pos).tokens.last() == TokenView::EOF,
        forall|i: int|
            0 <= i < scan_from(s, pos).tokens.len() - 1 ==> !((#[trigger] scan_from(
                s,
                pos,
            ).tokens[i]) is EOF),
        forall|i: int|
            0 <= i < scan_from(s, pos).tokens.len() ==> well_formed(
                #[trigger] scan_from(s, pos).tokens[i],
            ),
    decreases s.len() - pos,
{
    if 0 <= pos < s.len() {
        lemma_step_advances(s, pos);
        lemma_step_tokens(s, pos);
        lemma_scan_tokens(s, step(s, pos).next);
        let first = step(s, pos).tokens;
        let rest = scan_from(s, step(s, pos).next).tokens;
        let all = scan_from(s, pos).tokens;
        assert(all == first + rest);
        assert forall|i: int| 0 <= i < all.len() implies well_formed(#[trigger] all[i]) && (i
            < all.len() - 1 ==> !(all[i] is EOF)) by {
            if i < first.len() {
                assert(all[i] == first[i]);
            } else {
                assert(all[i] == rest[i - first.len()]);
            }
        }
    }
}

/// Every diagnostic of a text lies on a line of the text: the first line is
/// 1, and as many lines follow as the text has newlines.
pub proof fn lemma_scan_lines(s: Seq<char>, pos: int)
    ensures
        forall|i: int|
            0 <= i < scan_from(s, pos).diagnostics.len() ==> 1 <= (#[trigger] scan_from(
                s,
                pos,
            ).diagnostics[i]).line <= line_at(s, s.len() as int),
    decreases s.len() - pos,
{
    if 0 <= pos < s.len() {
        lemma_step_advances(s, pos);
        lemma_scan_lines(s, step(s, pos).next);
        lemma_line_grows(s, pos, s.len() as int);
        let first = step_diagnostics(s, pos);
        let rest = scan_from(s, step(s, pos).next).diagnostics;
        let all = scan_from(s, pos).diagnostics;
        assert(all == first + rest);
        assert forall|i: int| 0 <= i < all.len() implies 1 <= (#[trigger] all[i]).line <= line_at(
            s,
            s.len() as int,
        ) by {
            if i < first.len() {
                assert(all[i] == first[i]);
            } else {
                assert(all[i] == rest[i - first.len()]);
            }
        }
    }
}

/// The tokens of a step are written as the text that the step consumes: a
/// lexeme is the part of the source text that its token was made from.
pub proof fn lemma_step_lexemes(s: Seq<char>, pos: int)
    requires
        0 <= pos < s.len(),
        step(s, pos).tokens.len() > 0,
    ensures
        lexemes(step(s, pos).tokens) == s.subrange(pos, step(s, pos).next),
{
    let c = s[pos];
    let doubled = holds(s, pos + 1, '=');
    let tokens = step(s, pos).tokens;
    lemma_step_advances(s, pos);
    let consumed = s.subrange(pos, step(s, pos).next);
    reveal_with_fuel(lexemes, 3);
    if tokens.len() == 1 {
        assert(tokens.drop_last() =~= Seq::<TokenView>::empty());
        assert(lexemes(tokens) =~= tokens[0].lexeme());
    }
    if punctuation(c) is Some {
        lemma_punctuation_lexeme(c);
        assert(consumed =~= seq![c]);
    } else if operator(c, doubled) is Some {
        lemma_operator_lexeme(c, doubled);
        if doubled {
            assert(consumed =~= seq![c, '=']);
        } else {
            assert(consumed =~= seq![c]);
        }
    } else if c == '/' {
        reveal_strlit("/");
        assert(consumed =~= seq!['/']);
        assert("/"@ =~= seq!['/']);
    } else if is_blank(c) || c == '\n' {
    } else if c == '"' {
        let close = find(s, pos + 1, '"');
        lemma_run_end(s, pos + 1, other_than('"'));
        assert(consumed =~= seq!['"'] + s.subrange(pos + 1, close) + seq!['"']);
    } else if is_digit(c) {
        let literal = s.subrange(pos, number_end(s, pos));
        if ends_with_dot(literal) {
            reveal_strlit(".");
            lemma_step_tokens(s, pos);
            assert(well_formed(tokens[0]));
            assert(tokens.drop_last() =~= seq![TokenView::Number(lexeme_of(literal))]);
            assert(tokens.drop_last().drop_last() =~= Seq::<TokenView>::empty());
            assert(lexemes(tokens) =~= lexeme_of(literal) + "."@);
            assert(lexeme_of(literal) + "."@ =~= literal);
        }
    } else if starts_word(c) {
        lemma_word_lexeme(consumed);
    }
}

} // verus!
