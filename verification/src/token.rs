//! Tokens: the vocabulary of the language, the line of text that shows a
//! token, and the list a scan collects them in.

use vstd::prelude::*;
use crate::number::{
    display, display_of, is_number_literal, lemma_display_keeps_value, lexeme, lexeme_of,
    same_number, truncate, truncated, value_of,
};
use crate::text::{chars_of, spells};

verus! {

/// One lexical unit of a source text. A number keeps the text of its literal,
/// a string what stood between its quotes, an identifier its name.
#[derive(Debug, Clone, PartialEq, Eq)]
pub enum Token {
    LeftParen,
    RightParen,
    LeftBrace,
    RightBrace,
    Star,
    Plus,
    Minus,
    Dot,
    Comma,
    SemiColon,
    Equal,
    EqualEqual,
    Bang,
    BangEqual,
    Greater,
    GreaterEqual,
    Less,
    LessEqual,
    Slash,
    And,
    Class,
    Else,
    EOF,
    False,
    For,
    Fun,
    If,
    Nil,
    Number(String),
    Or,
    Print,
    Return,
    String(String),
    Super,
    This,
    True,
    Var,
    While,
    Identifier(String),
}

/// What a token is, with the text it carries as a sequence of characters.
pub enum TokenView {
    LeftParen,
    RightParen,
    LeftBrace,
    RightBrace,
    Star,
    Plus,
    Minus,
    Dot,
    Comma,
    SemiColon,
    Equal,
    EqualEqual,
    Bang,
    BangEqual,
    Greater,
    GreaterEqual,
    Less,
    LessEqual,
    Slash,
    And,
    Class,
    Else,
    EOF,
    False,
    For,
    Fun,
    If,
    Nil,
    Number(Seq<char>),
    Or,
    Print,
    Return,
    String(Seq<char>),
    Super,
    This,
    True,
    Var,
    While,
    Identifier(Seq<char>),
}

impl View for Token {
    type V = TokenView;

    open spec fn view(&self) -> TokenView {
        match *self {
            Token::LeftParen => TokenView::LeftParen,
            Token::RightParen => TokenView::RightParen,
            Token::LeftBrace => TokenView::LeftBrace,
            Token::RightBrace => TokenView::RightBrace,
            Token::Star => TokenView::Star,
            Token::Plus => TokenView::Plus,
            Token::Minus => TokenView::Minus,
            Token::Dot => TokenView::Dot,
            Token::Comma => TokenView::Comma,
            Token::SemiColon => TokenView::SemiColon,
            Token::Equal => TokenView::Equal,
            Token::EqualEqual => TokenView::EqualEqual,
            Token::Bang => TokenView::Bang,
            Token::BangEqual => TokenView::BangEqual,
            Token::Greater => TokenView::Greater,
            Token::GreaterEqual => TokenView::GreaterEqual,
            Token::Less => TokenView::Less,
            Token::LessEqual => TokenView::LessEqual,
            Token::Slash => TokenView::Slash,
            Token::And => TokenView::And,
            Token::Class => TokenView::Class,
            Token::Else => TokenView::Else,
            Token::EOF => TokenView::EOF,
            Token::False => TokenView::False,
            Token::For => TokenView::For,
            Token::Fun => TokenView::Fun,
            Token::If => TokenView::If,
            Token::Nil => TokenView::Nil,
            Token::Number(text) => TokenView::Number(text@),
            Token::Or => TokenView::Or,
            Token::Print => TokenView::Print,
            Token::Return => TokenView::Return,
            Token::String(text) => TokenView::String(text@),
            Token::Super => TokenView::Super,
            Token::This => TokenView::This,
            Token::True => TokenView::True,
            Token::Var => TokenView::Var,
            Token::While => TokenView::While,
            Token::Identifier(text) => TokenView::Identifier(text@),
        }
    }
}

impl TokenView {
    /// The name of the token's category, in upper case.
    pub open spec fn tag(self) -> Seq<char> {
        match self {
            TokenView::LeftParen => "LEFT_PAREN"@,
            TokenView::RightParen => "RIGHT_PAREN"@,
            TokenView::LeftBrace => "LEFT_BRACE"@,
            TokenView::RightBrace => "RIGHT_BRACE"@,
            TokenView::Star => "STAR"@,
            TokenView::Plus => "PLUS"@,
            TokenView::Minus => "MINUS"@,
            TokenView::Dot => "DOT"@,
            TokenView::Comma => "COMMA"@,
            TokenView::SemiColon => "SEMICOLON"@,
            TokenView::Equal => "EQUAL"@,
            TokenView::EqualEqual => "EQUAL_EQUAL"@,
            TokenView::Bang => "BANG"@,
            TokenView::BangEqual => "BANG_EQUAL"@,
            TokenView::Greater => "GREATER"@,
            TokenView::GreaterEqual => "GREATER_EQUAL"@,
            TokenView::Less => "LESS"@,
            TokenView::LessEqual => "LESS_EQUAL"@,
            TokenView::Slash => "SLASH"@,
            TokenView::And => "AND"@,
            TokenView::Class => "CLASS"@,
            TokenView::Else => "ELSE"@,
            TokenView::EOF => "EOF"@,
            TokenView::False => "FALSE"@,
            TokenView::For => "FOR"@,
            TokenView::Fun => "FUN"@,
            TokenView::If => "IF"@,
            TokenView::Nil => "NIL"@,
            TokenView::Number(_) => "NUMBER"@,
            TokenView::Or => "OR"@,
            TokenView::Print => "PRINT"@,
            TokenView::Return => "RETURN"@,
            TokenView::String(_) => "STRING"@,
            TokenView::Super => "SUPER"@,
            TokenView::This => "THIS"@,
            TokenView::True => "TRUE"@,
            TokenView::Var => "VAR"@,
            TokenView::While => "WHILE"@,
            TokenView::Identifier(_) => "IDENTIFIER"@,
        }
    }

    /// The token as it is written in a source text. The end of input is
    /// written as nothing.
    pub open spec fn lexeme(self) -> Seq<char> {
        match self {
            TokenView::LeftParen => "("@,
            TokenView::RightParen => ")"@,
            TokenView::LeftBrace => "{"@,
            TokenView::RightBrace => "}"@,
            TokenView::Star => "*"@,
            TokenView::Plus => "+"@,
            TokenView::Minus => "-"@,
            TokenView::Dot => "."@,
            TokenView::Comma => ","@,
            TokenView::SemiColon => ";"@,
            TokenView::Equal => "="@,
            TokenView::EqualEqual => "=="@,
            TokenView::Bang => "!"@,
            TokenView::BangEqual => "!="@,
            TokenView::Greater => ">"@,
            TokenView::GreaterEqual => ">="@,
            TokenView::Less => "<"@,
            TokenView::LessEqual => "<="@,
            TokenView::Slash => "/"@,
            TokenView::And => "and"@,
            TokenView::Class => "class"@,
            TokenView::Else => "else"@,
            TokenView::EOF => ""@,
            TokenView::False => "false"@,
            TokenView::For => "for"@,
            TokenView::Fun => "fun"@,
            TokenView::If => "if"@,
            TokenView::Nil => "nil"@,
            TokenView::Number(text) => lexeme_of(text),
            TokenView::Or => "or"@,
            TokenView::Print => "print"@,
            TokenView::Return => "return"@,
            TokenView::String(text) => seq!['"'] + text + seq!['"'],
            TokenView::Super => "super"@,
            TokenView::This => "this"@,
            TokenView::True => "true"@,
            TokenView::Var => "var"@,
            TokenView::While => "while"@,
            TokenView::Identifier(name) => name,
        }
    }

    /// The value of a literal: the display form of a number, the contents of
    /// a string, and `null` for every other token.
    pub open spec fn literal(self) -> Seq<char> {
        match self {
            TokenView::Number(text) => display_of(text),
            TokenView::String(text) => text,
            _ => "null"@,
        }
    }

    /// The line that shows the token: its tag, its lexeme and its literal
    /// value, with one space between them.
    pub open spec fn render(self) -> Seq<char> {
        self.tag() + seq![' '] + self.lexeme() + seq![' '] + self.literal()
    }
}

/// The token that the single character `c` makes by itself, if it makes one.
pub open spec fn punctuation(c: char) -> Option<TokenView> {
    if c == '(' {
        Some(TokenView::LeftParen)
    } else if c == ')' {
        Some(TokenView::RightParen)
    } else if c == '{' {
        Some(TokenView::LeftBrace)
    } else if c == '}' {
        Some(TokenView::RightBrace)
    } else if c == '*' {
        Some(TokenView::Star)
    } else if c == '+' {
        Some(TokenView::Plus)
    } else if c == '-' {
        Some(TokenView::Minus)
    } else if c == '.' {
        Some(TokenView::Dot)
    } else if c == ',' {
        Some(TokenView::Comma)
    } else if c == ';' {
        Some(TokenView::SemiColon)
    } else {
        None
    }
}

/// The token that the operator character `c` makes, alone or (`doubled`)
/// with a `=` behind it; `None` if `c` is no such operator.
pub open spec fn operator(c: char, doubled: bool) -> Option<TokenView> {
    if c == '=' {
        Some(if doubled {
            TokenView::EqualEqual
        } else {
            TokenView::Equal
        })
    } else if c == '!' {
        Some(if doubled {
            TokenView::BangEqual
        } else {
            TokenView::Bang
        })
    } else if c == '>' {
        Some(if doubled {
            TokenView::GreaterEqual
        } else {
            TokenView::Greater
        })
    } else if c == '<' {
        Some(if doubled {
            TokenView::LessEqual
        } else {
            TokenView::Less
        })
    } else {
        None
    }
}

/// The keyword that `word` spells, if it spells one. The comparison is exact
/// and of the whole word.
pub open spec fn keyword(word: Seq<char>) -> Option<TokenView> {
    if word == "and"@ {
        Some(TokenView::And)
    } else if word == "class"@ {
        Some(TokenView::Class)
    } else if word == "else"@ {
        Some(TokenView::Else)
    } else if word == "false"@ {
        Some(TokenView::False)
    } else if word == "for"@ {
        Some(TokenView::For)
    } else if word == "fun"@ {
        Some(TokenView::Fun)
    } else if word == "if"@ {
        Some(TokenView::If)
    } else if word == "nil"@ {
        Some(TokenView::Nil)
    } else if word == "or"@ {
        Some(TokenView::Or)
    } else if word == "print"@ {
        Some(TokenView::Print)
    } else if word == "return"@ {
        Some(TokenView::Return)
    } else if word == "super"@ {
        Some(TokenView::Super)
    } else if word == "this"@ {
        Some(TokenView::This)
    } else if word == "true"@ {
        Some(TokenView::True)
    } else if word == "var"@ {
        Some(TokenView::Var)
    } else if word == "while"@ {
        Some(TokenView::While)
    } else {
        None
    }
}

/// The token for a word: its keyword if it is reserved, an identifier of
/// that name if not.
pub open spec fn word_token(word: Seq<char>) -> TokenView {
    match keyword(word) {
        Some(token) => token,
        None => TokenView::Identifier(word),
    }
}

/// A token that one character makes is written as that character.
pub proof fn lemma_punctuation_lexeme(c: char)
    requires
        punctuation(c) is Some,
    ensures
        punctuation(c)->0.lexeme() == seq![c],
{
    reveal_strlit("(");
    reveal_strlit(")");
    reveal_strlit("{");
    reveal_strlit("}");
    reveal_strlit("*");
    reveal_strlit("+");
    reveal_strlit("-");
    reveal_strlit(".");
    reveal_strlit(",");
    reveal_strlit(";");
    assert(punctuation(c)->0.lexeme() =~= seq![c]);
}

/// An operator is written as its character, with a `=` behind it where it is
/// doubled.
pub proof fn lemma_operator_lexeme(c: char, doubled: bool)
    requires
        operator(c, doubled) is Some,
    ensures
        operator(c, doubled)->0.lexeme() == if doubled {
            seq![c, '=']
        } else {
            seq![c]
        },
{
    reveal_strlit("=");
    reveal_strlit("==");
    reveal_strlit("!");
    reveal_strlit("!=");
    reveal_strlit(">");
    reveal_strlit(">=");
    reveal_strlit("<");
    reveal_strlit("<=");
    if doubled {
        assert(operator(c, doubled)->0.lexeme() =~= seq![c, '=']);
    } else {
        assert(operator(c, doubled)->0.lexeme() =~= seq![c]);
    }
}

/// The token of a word is written as that word.
pub proof fn lemma_word_lexeme(word: Seq<char>)
    ensures
        word_token(word).lexeme() == word,
{
}

/// The line that shows a number token holds its lexeme and its display
/// form, and the two write the same number.
pub proof fn lemma_number_line(text: Seq<char>)
    requires
        is_number_literal(text),
    ensures
        TokenView::Number(text).render() == "NUMBER"@ + seq![' '] + lexeme_of(text) + seq![' ']
            + display_of(text),
        same_number(
            value_of(TokenView::Number(text).lexeme()),
            value_of(TokenView::Number(text).literal()),
        ),
{
    lemma_display_keeps_value(text);
}

impl Token {
    /// The name of the token's category.
    pub fn tag(&self) -> (s: &'static str)
        ensures
            s@ == self@.tag(),
    {
        match self {
            Token::LeftParen => "LEFT_PAREN",
            Token::RightParen => "RIGHT_PAREN",
            Token::LeftBrace => "LEFT_BRACE",
            Token::RightBrace => "RIGHT_BRACE",
            Token::Star => "STAR",
            Token::Plus => "PLUS",
            Token::Minus => "MINUS",
            Token::Dot => "DOT",
            Token::Comma => "COMMA",
            Token::SemiColon => "SEMICOLON",
            Token::Equal => "EQUAL",
            Token::EqualEqual => "EQUAL_EQUAL",
            Token::Bang => "BANG",
            Token::BangEqual => "BANG_EQUAL",
            Token::Greater => "GREATER",
            Token::GreaterEqual => "GREATER_EQUAL",
            Token::Less => "LESS",
            Token::LessEqual => "LESS_EQUAL",
            Token::Slash => "SLASH",
            Token::And => "AND",
            Token::Class => "CLASS",
            Token::Else => "ELSE",
            Token::EOF => "EOF",
            Token::False => "FALSE",
            Token::For => "FOR",
            Token::Fun => "FUN",
            Token::If => "IF",
            Token::Nil => "NIL",
            Token::Number(_) => "NUMBER",
            Token::Or => "OR",
            Token::Print => "PRINT",
            Token::Return => "RETURN",
            Token::String(_) => "STRING",
            Token::Super => "SUPER",
            Token::This => "THIS",
            Token::True => "TRUE",
            Token::Var => "VAR",
            Token::While => "WHILE",
            Token::Identifier(_) => "IDENTIFIER",
        }
    }

    /// The token as it is written in a source text.
    pub fn lexeme(&self) -> (s: String)
        ensures
            s@ == self@.lexeme(),
    {
        match self {
            Token::LeftParen => String::from_str("("),
            Token::RightParen => String::from_str(")"),
            Token::LeftBrace => String::from_str("{"),
            Token::RightBrace => String::from_str("}"),
            Token::Star => String::from_str("*"),
            Token::Plus => String::from_str("+"),
            Token::Minus => String::from_str("-"),
            Token::Dot => String::from_str("."),
            Token::Comma => String::from_str(","),
            Token::SemiColon => String::from_str(";"),
            Token::Equal => String::from_str("="),
            Token::EqualEqual => String::from_str("=="),
            Token::Bang => String::from_str("!"),
            Token::BangEqual => String::from_str("!="),
            Token::Greater => String::from_str(">"),
            Token::GreaterEqual => String::from_str(">="),
            Token::Less => String::from_str("<"),
            Token::LessEqual => String::from_str("<="),
            Token::Slash => String::from_str("/"),
            Token::And => String::from_str("and"),
            Token::Class => String::from_str("class"),
            Token::Else => String::from_str("else"),
            Token::EOF => String::from_str(""),
            Token::False => String::from_str("false"),
            Token::For => String::from_str("for"),
            Token::Fun => String::from_str("fun"),
            Token::If => String::from_str("if"),
            Token::Nil => String::from_str("nil"),
            Token::Number(text) => lexeme(&chars_of(text.as_str())),
            Token::Or => String::from_str("or"),
            Token::Print => String::from_str("print"),
            Token::Return => String::from_str("return"),
            Token::String(text) => {
                let mut s = String::new();
                s.push('"');
                s.append(text.as_str());
                s.push('"');
                s
            },
            Token::Super => String::from_str("super"),
            Token::This => String::from_str("this"),
            Token::True => String::from_str("true"),
            Token::Var => String::from_str("var"),
            Token::While => String::from_str("while"),
            Token::Identifier(name) => name.clone(),
        }
    }

    /// The value of a literal, `null` for a token that is none.
    pub fn literal(&self) -> (s: String)
        ensures
            s@ == self@.literal(),
    {
        match self {
            Token::Number(text) => display(&chars_of(text.as_str())),
            Token::String(text) => text.clone(),
            _ => String::from_str("null"),
        }
    }

    /// The line that shows the token.
    pub fn to_string(&self) -> (s: String)
        ensures
            s@ == self@.render(),
    {
        let mut s = String::from_str(self.tag());
        s.push(' ');
        s.append(self.lexeme().as_str());
        s.push(' ');
        s.append(self.literal().as_str());
        s
    }

    /// The keyword that `identifier` spells, or the identifier of that name.
    pub fn match_reserved(identifier: &str) -> (token: Token)
        ensures
            token@ == word_token(identifier@),
    {
        let word = chars_of(identifier);
        if spells(&word, "and") {
            Token::And
        } else if spells(&word, "class") {
            Token::Class
        } else if spells(&word, "else") {
            Token::Else
        } else if spells(&word, "false") {
            Token::False
        } else if spells(&word, "for") {
            Token::For
        } else if spells(&word, "fun") {
            Token::Fun
        } else if spells(&word, "if") {
            Token::If
        } else if spells(&word, "nil") {
            Token::Nil
        } else if spells(&word, "or") {
            Token::Or
        } else if spells(&word, "print") {
            Token::Print
        } else if spells(&word, "return") {
            Token::Return
        } else if spells(&word, "super") {
            Token::Super
        } else if spells(&word, "this") {
            Token::This
        } else if spells(&word, "true") {
            Token::True
        } else if spells(&word, "var") {
            Token::Var
        } else if spells(&word, "while") {
            Token::While
        } else {
            Token::Identifier(String::from_str(identifier))
        }
    }

    /// `s` with the trailing zeros of its fraction removed.
    pub fn truncate_zeros(s: &str) -> (r: String)
        ensures
            r@ == truncated(s@),
    {
        truncate(&chars_of(s))
    }

    /// The token that the single character `c` makes by itself.
    pub fn punctuation(c: char) -> (token: Option<Token>)
        ensures
            match token {
                Some(t) => punctuation(c) == Some(t@),
                None => punctuation(c) is None,
            },
    {
        match c {
            '(' => Some(Token::LeftParen),
            ')' => Some(Token::RightParen),
            '{' => Some(Token::LeftBrace),
            '}' => Some(Token::RightBrace),
            '*' => Some(Token::Star),
            '+' => Some(Token::Plus),
            '-' => Some(Token::Minus),
            '.' => Some(Token::Dot),
            ',' => Some(Token::Comma),
            ';' => Some(Token::SemiColon),
            _ => None,
        }
    }

    /// The token that the operator character `c` makes, alone or with a `=`
    /// behind it.
    pub fn operator(c: char, doubled: bool) -> (token: Option<Token>)
        ensures
            match token {
                Some(t) => operator(c, doubled) == Some(t@),
                None => operator(c, doubled) is None,
            },
    {
        match c {
            '=' => Some(if doubled {
                Token::EqualEqual
            } else {
                Token::Equal
            }),
            '!' => Some(if doubled {
                Token::BangEqual
            } else {
                Token::Bang
            }),
            '>' => Some(if doubled {
                Token::GreaterEqual
            } else {
                Token::Greater
            }),
            '<' => Some(if doubled {
                Token::LessEqual
            } else {
                Token::Less
            }),
            _ => None,
        }
    }
}

/// The tokens of a scan, in the order of the source text.
pub struct TokenList {
    tokens: Vec<Token>,
}

impl View for TokenList {
    type V = Seq<TokenView>;

    closed spec fn view(&self) -> Seq<TokenView> {
        self.tokens@.map_values(|t: Token| t@)
    }
}

impl TokenList {
    /// A list without tokens.
    pub fn new() -> (list: TokenList)
        ensures
            list@ == Seq::<TokenView>::empty(),
    {
        TokenList { tokens: Vec::new() }
    }

    /// Puts `token` at the end of the list.
    pub fn add(&mut self, token: Token)
        ensures
            final(self)@ == old(self)@.push(token@),
    {
        self.tokens.push(token);
        assert(self.tokens@.map_values(|t: Token| t@) =~= old(self).tokens@.map_values(
            |t: Token| t@,
        ).push(token@));
    }

    /// The number of tokens in the list.
    pub fn len(&self) -> (n: usize)
        ensures
            n == self@.len(),
    {
        self.tokens.len()
    }

    /// The token at `index`.
    pub fn get(&self, index: usize) -> (token: &Token)
        requires
            index < self@.len(),
        ensures
            token@ == self@[index as int],
    {
        &self.tokens[index]
    }

    /// The lines that show the tokens, one for each, in order.
    pub fn render_all(&self) -> (lines: Vec<String>)
        ensures
            lines@.len() == self@.len(),
            forall|i: int| 0 <= i < lines@.len() ==> (#[trigger] lines@[i])@ == self@[i].render(),
    {
        let mut lines: Vec<String> = Vec::new();
        let mut i: usize = 0;
        while i < self.tokens.len()
            invariant
                i <= self.tokens.len(),
                lines@.len() == i,
                forall|k: int| 0 <= k < i ==> (#[trigger] lines@[k])@ == self@[k].render(),
            decreases self.tokens.len() - i,
        {
            lines.push(self.tokens[i].to_string());
            i += 1;
        }
        lines
    }
}

} // verus!
