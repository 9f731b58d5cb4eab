//! Diagnostics: what a scan reports of the text it could not read, and the
//! line of text that shows a report.

use vstd::prelude::*;

verus! {

/// What went wrong in a source text.
#[derive(Debug, Clone, Copy, PartialEq, Eq, Structural)]
pub enum LexError {
    /// A character that begins no token.
    UnexpectedCharacter(char),
    /// A string literal whose closing quote is missing.
    UnterminatedString,
}

/// A lexical error, with the number of the line on which it lies.
#[derive(Debug, Clone, Copy, PartialEq, Eq, Structural)]
pub struct Diagnostic {
    pub line: usize,
    pub error: LexError,
}

/// A diagnostic whose line number is a natural number.
pub struct DiagnosticView {
    pub line: nat,
    pub error: LexError,
}

impl View for Diagnostic {
    type V = DiagnosticView;

    open spec fn view(&self) -> DiagnosticView {
        DiagnosticView { line: self.line as nat, error: self.error }
    }
}

/// The decimal digit of value `d`.
pub open spec fn digit_char(d: nat) -> char
    recommends
        d < 10,
{
    ('0' as nat + d) as char
}

/// `n` written in decimal, without leading zeros.
pub open spec fn numeral(n: nat) -> Seq<char>
    decreases n,
{
    if n < 10 {
        seq![digit_char(n)]
    } else {
        numeral(n / 10).push(digit_char(n % 10))
    }
}

impl LexError {
    /// The words that name the error.
    pub open spec fn describe(self) -> Seq<char> {
        match self {
            LexError::UnexpectedCharacter(c) => "Unexpected character: "@.push(c),
            LexError::UnterminatedString => "Unterminated string"@,
        }
    }

    /// The words that name the error.
    pub fn message(&self) -> (s: String)
        ensures
            s@ == self.describe(),
    {
        match self {
            LexError::UnexpectedCharacter(c) => {
                let mut s = String::from_str("Unexpected character: ");
                s.push(*c);
                s
            },
            LexError::UnterminatedString => String::from_str("Unterminated string"),
        }
    }
}

impl DiagnosticView {
    /// The line that reports the diagnostic.
    pub open spec fn render(self) -> Seq<char> {
        "[line "@ + numeral(self.line) + "] Error: "@ + self.error.describe() + seq!['.']
    }
}

/// Appends `n`, written in decimal, to `s`.
pub fn push_numeral(s: &mut String, n: usize)
    ensures
        final(s)@ == old(s)@ + numeral(n as nat),
    decreases n,
{
    if n >= 10 {
        push_numeral(s, n / 10);
    }
    let d: u8 = (n % 10) as u8;
    s.push((48u8 + d) as char);
}

impl Diagnostic {
    /// The line that reports the diagnostic.
    pub fn to_string(&self) -> (s: String)
        ensures
            s@ == self@.render(),
    {
        let mut s = String::from_str("[line ");
        push_numeral(&mut s, self.line);
        s.append("] Error: ");
        s.append(self.error.message().as_str());
        s.push('.');
        s
    }
}

} // verus!
