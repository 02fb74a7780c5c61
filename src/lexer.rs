use crate::token::{Token, TokenKind};
use vstd::prelude::*;

verus! {

/// Characters that separate tokens and are never emitted.
pub open spec fn is_whitespace(c: char) -> bool {
    c == ' ' || c == '\t' || c == '\n' || c == '\r'
}

/// Characters that make up identifiers and keywords.
pub open spec fn is_letter(c: char) -> bool {
    'a' <= c && c <= 'z'
}

/// Characters that make up integer literals.
pub open spec fn is_digit(c: char) -> bool {
    '0' <= c && c <= '9'
}

/// Membership in a multi-character run: digits when `digits`, letters otherwise.
pub open spec fn in_run(c: char, digits: bool) -> bool {
    if digits {
        is_digit(c)
    } else {
        is_letter(c)
    }
}

/// The first position at or after `i` that does not hold whitespace.
pub open spec fn skip_whitespace(s: Seq<char>, i: int) -> int
    decreases s.len() - i,
{
    if 0 <= i < s.len() && is_whitespace(s[i]) {
        skip_whitespace(s, i + 1)
    } else {
        i
    }
}

/// The end of the longest run of `in_run` characters that starts at `i`.
pub open spec fn run_end(s: Seq<char>, i: int, digits: bool) -> int
    decreases s.len() - i,
{
    if 0 <= i < s.len() && in_run(s[i], digits) {
        run_end(s, i + 1, digits)
    } else {
        i
    }
}

/// The keyword table: `fn` and `let` are keywords, every other word an identifier.
pub open spec fn keyword_kind(word: Seq<char>) -> TokenKind {
    if word == seq!['f', 'n'] {
        TokenKind::Function
    } else if word == seq!['l', 'e', 't'] {
        TokenKind::Let
    } else {
        TokenKind::Identifier
    }
}

/// The kind of a token made of the single character `c`.
pub open spec fn char_kind(c: char) -> TokenKind {
    if c == '=' {
        TokenKind::Assign
    } else if c == ';' {
        TokenKind::Semicolon
    } else if c == '(' {
        TokenKind::LParen
    } else if c == ')' {
        TokenKind::RParen
    } else if c == ',' {
        TokenKind::Comma
    } else if c == '+' {
        TokenKind::Plus
    } else if c == '{' {
        TokenKind::LBrace
    } else if c == '}' {
        TokenKind::RBrace
    } else {
        TokenKind::Illegal
    }
}

/// The literal that the end-of-input token carries.
pub open spec fn eof_literal() -> Seq<char> {
    seq!['\\']
}

/// What one scan from cursor position `i` yields: a kind, a literal, and the
/// position at which the cursor stops.
pub struct Scan {
    pub kind: TokenKind,
    pub literal: Seq<char>,
    pub end: int,
}

/// The token that starts at or after position `i` of `s`, once whitespace is
/// skipped.
pub open spec fn scan(s: Seq<char>, i: int) -> Scan {
    let j = skip_whitespace(s, i);
    if j >= s.len() {
        Scan { kind: TokenKind::EndOfInput, literal: eof_literal(), end: s.len() as int }
    } else if is_letter(s[j]) {
        let word = s.subrange(j, run_end(s, j, false));
        Scan { kind: keyword_kind(word), literal: word, end: run_end(s, j, false) }
    } else if is_digit(s[j]) {
        Scan {
            kind: TokenKind::Integer,
            literal: s.subrange(j, run_end(s, j, true)),
            end: run_end(s, j, true),
        }
    } else {
        Scan { kind: char_kind(s[j]), literal: seq![s[j]], end: j + 1 }
    }
}

/// A cursor over source text, handing out one token per call of `next_token`.
///
/// Positions count characters (Unicode scalar values), not bytes, so text
/// outside ASCII keeps the cursor on character boundaries: each such
/// character becomes one `Illegal` token.
pub struct Lexer {
    input: Vec<char>,
    /// Position of the character under the cursor.
    position: usize,
    /// Position of the character that the next advance loads.
    read_position: usize,
    /// The character under the cursor; `None` once the input is used up.
    ch: Option<char>,
}

impl Lexer {
    /// The source text, as characters.
    pub closed spec fn text(&self) -> Seq<char> {
        self.input@
    }

    /// The position of the character under the cursor; the text's length once
    /// the input is used up.
    pub closed spec fn cursor(&self) -> int {
        self.position as int
    }

    /// The cursor lies within the text, one step behind the read position,
    /// with the character at it (or `None`, at the end) loaded.
    pub closed spec fn wf(&self) -> bool {
        &&& self.input@.len() < usize::MAX
        &&& self.position <= self.input@.len()
        &&& self.read_position == self.position + 1
        &&& self.ch == if self.position < self.input@.len() {
            Some(self.input@[self.position as int])
        } else {
            None::<char>
        }
    }

    /// A lexer over `input`, with the cursor on its first character.
    pub fn new(input: &str) -> (r: Lexer)
        requires
            input@.len() < usize::MAX,
        ensures
            r.wf(),
            r.text() == input@,
            r.cursor() == 0,
    {
        let mut chars: Vec<char> = Vec::new();
        for c in it: input.chars()
            invariant
                chars@ == it.seq().take(it.index() as int),
        {
            chars.push(c);
        }
        assert(chars@ == input@);
        let mut lexer = Lexer { input: chars, position: 0, read_position: 0, ch: None };
        lexer.read_char();
        lexer
    }

    /// Moves the cursor one character on; past the end it stays at the end.
    fn read_char(&mut self)
        requires
            old(self).input@.len() < usize::MAX,
            old(self).read_position <= old(self).input@.len() + 1,
        ensures
            final(self).input == old(self).input,
            final(self).read_position == final(self).position + 1,
            old(self).read_position >= old(self).input@.len() ==> {
                &&& final(self).position == old(self).input@.len()
                &&& final(self).ch == None::<char>
            },
            old(self).read_position < old(self).input@.len() ==> {
                &&& final(self).position == old(self).read_position
                &&& final(self).ch == Some(old(self).input@[old(self).read_position as int])
            },
    {
        if self.read_position >= self.input.len() {
            self.ch = None;
            self.position = self.input.len();
        } else {
            self.ch = Some(self.input[self.read_position]);
            self.position = self.read_position;
        }
        self.read_position = self.position + 1;
    }

    /// Advances the cursor past whitespace.
    fn skip_whitespaces(&mut self)
        requires
            old(self).wf(),
        ensures
            final(self).wf(),
            final(self).input == old(self).input,
            final(self).position == skip_whitespace(old(self).input@, old(self).position as int),
    {
        while self.ch.is_some() && is_space(self.ch.unwrap())
            invariant
                self.wf(),
                self.input == old(self).input,
                skip_whitespace(self.input@, self.position as int) == skip_whitespace(
                    old(self).input@,
                    old(self).position as int,
                ),
            decreases self.input@.len() - self.position,
        {
            self.read_char();
        }
    }

    /// Consumes the longest run of letters (or of digits, when `digits`) that
    /// starts under the cursor, and returns its text.
    fn read_run(&mut self, digits: bool) -> (r: String)
        requires
            old(self).wf(),
        ensures
            final(self).wf(),
            final(self).input == old(self).input,
            old(self).position <= final(self).position,
            final(self).position == run_end(old(self).input@, old(self).position as int, digits),
            r@ == old(self).input@.subrange(
                old(self).position as int,
                run_end(old(self).input@, old(self).position as int, digits),
            ),
    {
        let start = self.position;
        let mut word = String::new();
        while self.ch.is_some() && in_run_char(self.ch.unwrap(), digits)
            invariant
                self.wf(),
                self.input == old(self).input,
                start == old(self).position,
                start <= self.position,
                run_end(self.input@, self.position as int, digits) == run_end(
                    self.input@,
                    start as int,
                    digits,
                ),
                word@ == self.input@.subrange(start as int, self.position as int),
            decreases self.input@.len() - self.position,
        {
            push_char(&mut word, self.ch.unwrap());
            self.read_char();
        }
        word
    }

    /// Consumes an identifier or keyword that starts under the cursor.
    fn read_identifier(&mut self) -> (r: String)
        requires
            old(self).wf(),
        ensures
            final(self).wf(),
            final(self).input == old(self).input,
            old(self).position <= final(self).position,
            final(self).position == run_end(old(self).input@, old(self).position as int, false),
            r@ == old(self).input@.subrange(
                old(self).position as int,
                run_end(old(self).input@, old(self).position as int, false),
            ),
    {
        self.read_run(false)
    }

    /// Consumes an integer literal that starts under the cursor.
    fn read_number(&mut self) -> (r: String)
        requires
            old(self).wf(),
        ensures
            final(self).wf(),
            final(self).input == old(self).input,
            final(self).position == run_end(old(self).input@, old(self).position as int, true),
            r@ == old(self).input@.subrange(
                old(self).position as int,
                run_end(old(self).input@, old(self).position as int, true),
            ),
    {
        self.read_run(true)
    }

    /// Scans and returns the next token. Once the input is used up it returns
    /// an `EndOfInput` token on every call.
    pub fn next_token(&mut self) -> (r: Option<Token>)
        requires
            old(self).wf(),
        ensures
            final(self).wf(),
            final(self).text() == old(self).text(),
            final(self).cursor() == scan(old(self).text(), old(self).cursor()).end,
            r is Some,
            r->0.token_type == scan(old(self).text(), old(self).cursor()).kind,
            r->0.literal@ == scan(old(self).text(), old(self).cursor()).literal,
    {
        self.skip_whitespaces();
        let tok = match self.ch {
            None => Token::new(TokenKind::EndOfInput, single_char_string('\\')),
            Some(c) => {
                if is_letter_char(c) {
                    let start = self.position;
                    let word = self.read_identifier();
                    let kind = lookup_identifier(&self.input, start, self.position);
                    return Some(Token::new(kind, word));
                } else if is_digit_char(c) {
                    return Some(Token::new(TokenKind::Integer, self.read_number()));
                }
                Token::new(single_char_kind(c), single_char_string(c))
            },
        };
        self.read_char();
        Some(tok)
    }
}

/// Relies on `String::push`: appends one character to the end of the string.
#[verifier::external_body]
fn push_char(s: &mut String, c: char)
    ensures
        final(s)@ == old(s)@.push(c),
{
    s.push(c)
}

/// A string of the one character `c`.
fn single_char_string(c: char) -> (r: String)
    ensures
        r@ == seq![c],
{
    let mut s = String::new();
    push_char(&mut s, c);
    s
}

fn is_space(c: char) -> (r: bool)
    ensures
        r == is_whitespace(c),
{
    c == ' ' || c == '\t' || c == '\n' || c == '\r'
}

fn is_letter_char(c: char) -> (r: bool)
    ensures
        r == is_letter(c),
{
    'a' <= c && c <= 'z'
}

fn is_digit_char(c: char) -> (r: bool)
    ensures
        r == is_digit(c),
{
    '0' <= c && c <= '9'
}

fn in_run_char(c: char, digits: bool) -> (r: bool)
    ensures
        r == in_run(c, digits),
{
    if digits {
        is_digit_char(c)
    } else {
        is_letter_char(c)
    }
}

/// Looks the word `text[start..end]` up in the keyword table.
fn lookup_identifier(text: &Vec<char>, start: usize, end: usize) -> (r: TokenKind)
    requires
        start <= end <= text@.len(),
    ensures
        r == keyword_kind(text@.subrange(start as int, end as int)),
{
    let ghost word = text@.subrange(start as int, end as int);
    if end - start == 2 && text[start] == 'f' && text[start + 1] == 'n' {
        assert(word == seq!['f', 'n']);
        TokenKind::Function
    } else if end - start == 3 && text[start] == 'l' && text[start + 1] == 'e' && text[start
        + 2] == 't' {
        assert(word == seq!['l', 'e', 't']);
        TokenKind::Let
    } else {
        proof {
            let fn_word = seq!['f', 'n'];
            let let_word = seq!['l', 'e', 't'];
            assert(fn_word.len() == 2 && fn_word[0] == 'f' && fn_word[1] == 'n');
            assert(let_word.len() == 3 && let_word[0] == 'l' && let_word[1] == 'e' && let_word[2]
                == 't');
            assert(word.len() == end - start);
            if word.len() == 2 {
                assert(word[0] == text@[start as int] && word[1] == text@[start + 1]);
            }
            if word.len() == 3 {
                assert(word[0] == text@[start as int] && word[1] == text@[start + 1] && word[2]
                    == text@[start + 2]);
            }
        }
        TokenKind::Identifier
    }
}

/// The kind of a single-character token.
fn single_char_kind(c: char) -> (r: TokenKind)
    ensures
        r == char_kind(c),
{
    match c {
        '=' => TokenKind::Assign,
        ';' => TokenKind::Semicolon,
        '(' => TokenKind::LParen,
        ')' => TokenKind::RParen,
        ',' => TokenKind::Comma,
        '+' => TokenKind::Plus,
        '{' => TokenKind::LBrace,
        '}' => TokenKind::RBrace,
        _ => TokenKind::Illegal,
    }
}

} // verus!
