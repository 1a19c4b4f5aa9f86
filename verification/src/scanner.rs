//! The scanner: source text in, one token per call out.

use vstd::prelude::*;
use vstd::utf8::{encode_utf8, is_ascii_chars, is_ascii_chars_encode_utf8};

verus! {

/// What a token is.
#[derive(Clone, Copy, Debug, PartialEq, Eq, Structural)]
pub enum TokenType {
    // Single-character tokens.
    LeftParen,
    RightParen,
    LeftBrace,
    RightBrace,
    Comma,
    Dot,
    Minus,
    Plus,
    Semicolon,
    Slash,
    Star,
    // One or two character tokens.
    Bang,
    BangEqual,
    Equal,
    EqualEqual,
    Greater,
    GreaterEqual,
    Less,
    LessEqual,
    // Literals.
    Identifier,
    String,
    Number,
    // Keywords.
    And,
    Class,
    Else,
    False,
    For,
    Fun,
    If,
    Nil,
    Or,
    Print,
    Return,
    Super,
    This,
    True,
    Var,
    While,
    Error,
    Eof,
}

/// A token: its kind, the bytes of the source that it covers, the line on
/// which it ends, and for an error what went wrong.
#[derive(Debug, PartialEq, Eq)]
pub struct Token {
    pub message: String,
    pub ttype: TokenType,
    pub start: usize,
    pub length: usize,
    pub line: i32,
}

impl Token {
    /// Whether this is the token that a scanner finds in `src` when it
    /// stands at `pos` and has counted up to `line`: the token begins where
    /// the blanks and comments end, is the longest that begins there, and is
    /// on the line that the newlines up to its end make.
    pub open spec fn scanned_from(&self, src: Seq<u8>, pos: int, line: i32) -> bool {
        let start = blank_end(src, pos);
        let end = lexeme_end(src, start);
        &&& self.ttype == lexeme_kind(src, start)
        &&& self.message@ == lexeme_message(src, start)
        &&& self.start == start
        &&& self.length == end - start
        &&& self.line == line_after(line, newlines(src, pos, end))
    }
}

/// The scanner: the source, where the token being scanned begins, the next
/// byte to read, and the line that this byte is on.
pub struct Scanner {
    pub source: String,
    pub start: usize,
    pub current: usize,
    pub line: i32,
}

/// Whether a byte is an ASCII letter.
#[verifier::allow_in_spec]
pub fn is_alpha(b: u8) -> bool
    returns
        ('a' as u8 <= b && b <= 'z' as u8) || ('A' as u8 <= b && b <= 'Z' as u8),
{
    ('a' as u8 <= b && b <= 'z' as u8) || ('A' as u8 <= b && b <= 'Z' as u8)
}

/// Whether a byte is an ASCII decimal digit.
#[verifier::allow_in_spec]
pub fn is_digit(b: u8) -> bool
    returns
        '0' as u8 <= b && b <= '9' as u8,
{
    '0' as u8 <= b && b <= '9' as u8
}

/// Whether a byte is a space, a tab, a carriage return or a newline.
pub open spec fn is_blank(b: u8) -> bool {
    b == ' ' as u8 || b == '\t' as u8 || b == '\r' as u8 || b == '\n' as u8
}

/// The kinds of bytes that a token takes as many of as it can.
pub enum Run {
    /// Letters and digits, which continue a word.
    Alphanumeric,
    /// Digits, which continue a number.
    Digits,
    /// Anything but a double quote, inside a string.
    StringBody,
    /// The second and later bytes of a character that takes several.
    Continuation,
}

impl Run {
    pub open spec fn holds(self, b: u8) -> bool {
        match self {
            Run::Alphanumeric => is_alpha(b) || is_digit(b),
            Run::Digits => is_digit(b),
            Run::StringBody => b != '"' as u8,
            Run::Continuation => 0x80 <= b && b <= 0xbf,
        }
    }
}

/// The end of the longest stretch of bytes of one kind that begins at `pos`.
pub open spec fn run_end(src: Seq<u8>, pos: int, run: Run) -> int
    decreases src.len() - pos,
{
    if 0 <= pos < src.len() && run.holds(src[pos]) {
        run_end(src, pos + 1, run)
    } else {
        pos
    }
}

/// Where the blanks and line comments that begin at `pos` end. Inside a
/// comment everything up to the end of the line is passed over.
pub open spec fn skip_end(src: Seq<u8>, pos: int, in_comment: bool) -> int
    decreases src.len() - pos,
{
    if pos < 0 || pos >= src.len() {
        pos
    } else if in_comment {
        skip_end(src, pos + 1, src[pos] != '\n' as u8)
    } else if is_blank(src[pos]) {
        skip_end(src, pos + 1, false)
    } else if src[pos] == '/' as u8 && pos + 1 < src.len() && src[pos + 1] == '/' as u8 {
        skip_end(src, pos + 2, true)
    } else {
        pos
    }
}

/// Where the next token begins when the scanner stands at `pos`.
pub open spec fn blank_end(src: Seq<u8>, pos: int) -> int {
    skip_end(src, pos, false)
}

/// The number of newlines among the bytes from `from` up to `to`.
pub open spec fn newlines(src: Seq<u8>, from: int, to: int) -> nat
    decreases to - from,
{
    if 0 <= from < to <= src.len() {
        newlines(src, from, to - 1) + if src[to - 1] == '\n' as u8 {
            1nat
        } else {
            0nat
        }
    } else {
        0
    }
}

/// The line counter after `count` more newlines: it stops at the largest
/// number that it can hold.
pub open spec fn line_after(line: i32, count: nat) -> i32 {
    if line + count <= i32::MAX {
        (line + count) as i32
    } else {
        i32::MAX
    }
}

/// Whether the bytes of `word` are the characters of `text`.
pub open spec fn spells(word: Seq<u8>, text: Seq<char>) -> bool {
    &&& word.len() == text.len()
    &&& forall|i: int| 0 <= i < text.len() ==> word[i] == (#[trigger] text[i]) as u8
}

/// The kind of a word: that of the reserved word that it spells, or an
/// identifier.
pub open spec fn word_kind(word: Seq<u8>) -> TokenType {
    if spells(word, "and"@) {
        TokenType::And
    } else if spells(word, "class"@) {
        TokenType::Class
    } else if spells(word, "else"@) {
        TokenType::Else
    } else if spells(word, "false"@) {
        TokenType::False
    } else if spells(word, "for"@) {
        TokenType::For
    } else if spells(word, "fun"@) {
        TokenType::Fun
    } else if spells(word, "if"@) {
        TokenType::If
    } else if spells(word, "nil"@) {
        TokenType::Nil
    } else if spells(word, "or"@) {
        TokenType::Or
    } else if spells(word, "print"@) {
        TokenType::Print
    } else if spells(word, "return"@) {
        TokenType::Return
    } else if spells(word, "super"@) {
        TokenType::Super
    } else if spells(word, "this"@) {
        TokenType::This
    } else if spells(word, "true"@) {
        TokenType::True
    } else if spells(word, "var"@) {
        TokenType::Var
    } else if spells(word, "while"@) {
        TokenType::While
    } else {
        TokenType::Identifier
    }
}

/// Whether `=` directly after this byte makes a token of two bytes.
pub open spec fn takes_equal(b: u8) -> bool {
    b == '!' as u8 || b == '=' as u8 || b == '<' as u8 || b == '>' as u8
}

/// The kind of a token that begins with a byte that is no letter, digit or
/// double quote. `paired` says whether `=` follows.
pub open spec fn symbol_kind(b: u8, paired: bool) -> TokenType {
    if b == '(' as u8 {
        TokenType::LeftParen
    } else if b == ')' as u8 {
        TokenType::RightParen
    } else if b == '{' as u8 {
        TokenType::LeftBrace
    } else if b == '}' as u8 {
        TokenType::RightBrace
    } else if b == ';' as u8 {
        TokenType::Semicolon
    } else if b == ',' as u8 {
        TokenType::Comma
    } else if b == '.' as u8 {
        TokenType::Dot
    } else if b == '-' as u8 {
        TokenType::Minus
    } else if b == '+' as u8 {
        TokenType::Plus
    } else if b == '/' as u8 {
        TokenType::Slash
    } else if b == '*' as u8 {
        TokenType::Star
    } else if b == '!' as u8 {
        if paired { TokenType::BangEqual } else { TokenType::Bang }
    } else if b == '=' as u8 {
        if paired { TokenType::EqualEqual } else { TokenType::Equal }
    } else if b == '<' as u8 {
        if paired { TokenType::LessEqual } else { TokenType::Less }
    } else if b == '>' as u8 {
        if paired { TokenType::GreaterEqual } else { TokenType::Greater }
    } else {
        TokenType::Error
    }
}

/// Where a number ends whose first digit stands just before `pos`: after
/// the digits that follow, and after a dot and more digits if the dot has a
/// digit behind it.
pub open spec fn number_end(src: Seq<u8>, pos: int) -> int {
    let whole = run_end(src, pos, Run::Digits);
    if 0 <= whole && whole + 1 < src.len() && src[whole] == '.' as u8 && is_digit(src[whole + 1]) {
        run_end(src, whole + 2, Run::Digits)
    } else {
        whole
    }
}

/// Whether `=` stands at `pos`.
pub open spec fn equal_at(src: Seq<u8>, pos: int) -> bool {
    0 <= pos < src.len() && src[pos] == '=' as u8
}

/// Where the token that begins at `start` ends.
pub open spec fn lexeme_end(src: Seq<u8>, start: int) -> int {
    if start < 0 || start >= src.len() {
        start
    } else if is_alpha(src[start]) {
        run_end(src, start + 1, Run::Alphanumeric)
    } else if is_digit(src[start]) {
        number_end(src, start + 1)
    } else if src[start] == '"' as u8 {
        let close = run_end(src, start + 1, Run::StringBody);
        if close < src.len() {
            close + 1
        } else {
            close
        }
    } else if takes_equal(src[start]) && equal_at(src, start + 1) {
        start + 2
    } else if src[start] >= 0x80 {
        run_end(src, start + 1, Run::Continuation)
    } else {
        start + 1
    }
}

/// The kind of the token that begins at `start`.
pub open spec fn lexeme_kind(src: Seq<u8>, start: int) -> TokenType {
    if start < 0 || start >= src.len() {
        TokenType::Eof
    } else if is_alpha(src[start]) {
        word_kind(src.subrange(start, lexeme_end(src, start)))
    } else if is_digit(src[start]) {
        TokenType::Number
    } else if src[start] == '"' as u8 {
        if run_end(src, start + 1, Run::StringBody) < src.len() {
            TokenType::String
        } else {
            TokenType::Error
        }
    } else {
        symbol_kind(src[start], equal_at(src, start + 1))
    }
}

/// What the token that begins at `start` says of itself: nothing, unless it
/// is an error.
pub open spec fn lexeme_message(src: Seq<u8>, start: int) -> Seq<char> {
    if lexeme_kind(src, start) != TokenType::Error {
        Seq::<char>::empty()
    } else if src[start] == '"' as u8 {
        "Unterminated string."@
    } else {
        "Unexpected character."@
    }
}

/// A word whose first `k` bytes are the first `k` characters of `full`
/// spells `full` exactly if its other bytes spell the rest of `full`.
proof fn lemma_spells_rest(src: Seq<u8>, start: int, end: int, k: int, full: Seq<char>, rest: Seq<char>)
    requires
        0 <= start,
        0 <= k,
        start + k <= end <= src.len(),
        full.len() == k + rest.len(),
        forall|i: int| 0 <= i < k ==> src[start + i] == (#[trigger] full[i]) as u8,
        forall|i: int| 0 <= i < rest.len() ==> #[trigger] rest[i] == full[k + i],
    ensures
        spells(src.subrange(start, end), full) == spells(src.subrange(start + k, end), rest),
{
    let word = src.subrange(start, end);
    let tail = src.subrange(start + k, end);
    if spells(word, full) {
        assert forall|i: int| 0 <= i < rest.len() implies tail[i] == (#[trigger] rest[i]) as u8 by {
            assert(word[k + i] == full[k + i] as u8);
        }
    }
    if spells(tail, rest) {
        assert forall|i: int| 0 <= i < full.len() implies word[i] == (#[trigger] full[i]) as u8 by {
            if i >= k {
                assert(tail[i - k] == rest[i - k] as u8);
            }
        }
    }
}

/// Each reserved word begins with its own letter, or with `f` or `t` and its
/// own second letter.
proof fn lemma_initials(word: Seq<u8>)
    ensures
        spells(word, "and"@) ==> word[0] == 'a' as u8,
        spells(word, "class"@) ==> word[0] == 'c' as u8,
        spells(word, "else"@) ==> word[0] == 'e' as u8,
        spells(word, "false"@) ==> word.len() > 1 && word[0] == 'f' as u8 && word[1] == 'a' as u8,
        spells(word, "for"@) ==> word.len() > 1 && word[0] == 'f' as u8 && word[1] == 'o' as u8,
        spells(word, "fun"@) ==> word.len() > 1 && word[0] == 'f' as u8 && word[1] == 'u' as u8,
        spells(word, "if"@) ==> word[0] == 'i' as u8,
        spells(word, "nil"@) ==> word[0] == 'n' as u8,
        spells(word, "or"@) ==> word[0] == 'o' as u8,
        spells(word, "print"@) ==> word[0] == 'p' as u8,
        spells(word, "return"@) ==> word[0] == 'r' as u8,
        spells(word, "super"@) ==> word[0] == 's' as u8,
        spells(word, "this"@) ==> word.len() > 1 && word[0] == 't' as u8 && word[1] == 'h' as u8,
        spells(word, "true"@) ==> word.len() > 1 && word[0] == 't' as u8 && word[1] == 'r' as u8,
        spells(word, "var"@) ==> word[0] == 'v' as u8,
        spells(word, "while"@) ==> word[0] == 'w' as u8,
{
    reveal_strlit("and");
    assert("and"@[0] == 'a');
    reveal_strlit("class");
    assert("class"@[0] == 'c');
    reveal_strlit("else");
    assert("else"@[0] == 'e');
    reveal_strlit("false");
    assert("false"@[0] == 'f' && "false"@[1] == 'a');
    reveal_strlit("for");
    assert("for"@[0] == 'f' && "for"@[1] == 'o');
    reveal_strlit("fun");
    assert("fun"@[0] == 'f' && "fun"@[1] == 'u');
    reveal_strlit("if");
    assert("if"@[0] == 'i');
    reveal_strlit("nil");
    assert("nil"@[0] == 'n');
    reveal_strlit("or");
    assert("or"@[0] == 'o');
    reveal_strlit("print");
    assert("print"@[0] == 'p');
    reveal_strlit("return");
    assert("return"@[0] == 'r');
    reveal_strlit("super");
    assert("super"@[0] == 's');
    reveal_strlit("this");
    assert("this"@[0] == 't' && "this"@[1] == 'h');
    reveal_strlit("true");
    assert("true"@[0] == 't' && "true"@[1] == 'r');
    reveal_strlit("var");
    assert("var"@[0] == 'v');
    reveal_strlit("while");
    assert("while"@[0] == 'w');
}

/// The newlines of a stretch are those of its two parts.
proof fn lemma_newlines_split(src: Seq<u8>, from: int, mid: int, to: int)
    requires
        0 <= from <= mid <= to <= src.len(),
    ensures
        newlines(src, from, to) == newlines(src, from, mid) + newlines(src, mid, to),
    decreases to - mid,
{
    if mid < to {
        lemma_newlines_split(src, from, mid, to - 1);
    }
}

impl Scanner {
    /// The source as bytes.
    pub open spec fn bytes(&self) -> Seq<u8> {
        encode_utf8(self.source@)
    }

    /// A scanner at the first byte of `source`, on line 1.
    pub fn new(source: String) -> (scanner: Self)
        ensures
            scanner.source == source,
            scanner.start == 0,
            scanner.current == 0,
            scanner.line == 1,
    {
        Self { source: source, start: 0, current: 0, line: 1 }
    }

    /// The byte at `idx`, or 0 beyond the last one.
    fn get_char(&self, idx: usize) -> (b: u8)
        ensures
            b == if idx < self.bytes().len() { self.bytes()[idx as int] } else { 0u8 },
            self.bytes().len() <= usize::MAX,
    {
        let bytes = self.source.as_str().as_bytes();
        if idx < bytes.len() {
            bytes[idx]
        } else {
            0
        }
    }

    fn is_at_end(&self) -> (b: bool)
        ensures
            b == (self.current >= self.bytes().len()),
            self.bytes().len() <= usize::MAX,
    {
        self.current >= self.source.as_str().as_bytes().len()
    }

    fn make_token(&self, ttype: TokenType) -> (token: Token)
        requires
            self.start <= self.current,
        ensures
            token.message@ == Seq::<char>::empty(),
            token.ttype == ttype,
            token.start == self.start,
            token.length == self.current - self.start,
            token.line == self.line,
    {
        Token {
            message: String::new(),
            ttype: ttype,
            start: self.start,
            length: self.current - self.start,
            line: self.line,
        }
    }

    fn error_token(&self, message: String) -> (token: Token)
        requires
            self.start <= self.current,
        ensures
            token.message == message,
            token.ttype == TokenType::Error,
            token.start == self.start,
            token.length == self.current - self.start,
            token.line == self.line,
    {
        Token {
            message: message,
            ttype: TokenType::Error,
            start: self.start,
            length: self.current - self.start,
            line: self.line,
        }
    }

    fn advance(&mut self) -> (b: u8)
        requires
            old(self).current < old(self).bytes().len(),
        ensures
            b == old(self).bytes()[old(self).current as int],
            final(self).current == old(self).current + 1,
            final(self).source == old(self).source,
            final(self).start == old(self).start,
            final(self).line == old(self).line,
    {
        let b = self.get_char(self.current);
        self.current += 1;
        b
    }

    fn match_char(&mut self, expected: u8) -> (matched: bool)
        ensures
            matched == (old(self).current < old(self).bytes().len() && old(self).bytes()[old(
                self,
            ).current as int] == expected),
            final(self).current == if matched { old(self).current + 1 } else { old(self).current as int },
            final(self).source == old(self).source,
            final(self).start == old(self).start,
            final(self).line == old(self).line,
    {
        if self.is_at_end() {
            return false;
        }
        if self.get_char(self.current) != expected {
            return false;
        }
        self.current += 1;
        true
    }

    /// The next byte, or 0 at the end.
    fn peek(&self) -> (b: u8)
        ensures
            b == if self.current < self.bytes().len() { self.bytes()[self.current as int] } else { 0u8 },
            self.bytes().len() <= usize::MAX,
    {
        self.get_char(self.current)
    }

    /// The byte after the next one, or 0 where there is none.
    fn peek_next(&self) -> (b: u8)
        ensures
            b == if self.current + 1 < self.bytes().len() { self.bytes()[self.current + 1] } else { 0u8 },
    {
        if self.is_at_end() {
            return 0;
        }
        self.get_char(self.current + 1)
    }

    /// One more newline was passed.
    fn next_line(&mut self)
        ensures
            final(self).line == line_after(old(self).line, 1),
            final(self).source == old(self).source,
            final(self).start == old(self).start,
            final(self).current == old(self).current,
    {
        if self.line < i32::MAX {
            self.line += 1;
        }
    }

    /// Passes over blanks and line comments, counting the lines.
    fn skip_whitespace(&mut self)
        ensures
            final(self).source == old(self).source,
            final(self).start == old(self).start,
            final(self).current == blank_end(old(self).bytes(), old(self).current as int),
            final(self).current >= old(self).current,
            old(self).current <= old(self).bytes().len() ==> final(self).current <= old(
                self,
            ).bytes().len(),
            final(self).line == line_after(
                old(self).line,
                newlines(old(self).bytes(), old(self).current as int, final(self).current as int),
            ),
            final(self).current < old(self).bytes().len() ==> !is_blank(
                old(self).bytes()[final(self).current as int],
            ),
    {
        let ghost src = self.bytes();
        let ghost origin = self.current as int;
        let ghost first_line = self.line;
        loop
            invariant
                self.source == old(self).source,
                self.start == old(self).start,
                src == self.bytes(),
                origin == old(self).current,
                first_line == old(self).line,
                origin <= self.current,
                origin <= src.len() ==> self.current <= src.len(),
                blank_end(src, origin) == skip_end(src, self.current as int, false),
                self.line == line_after(first_line, newlines(src, origin, self.current as int)),
            decreases src.len() - self.current,
        {
            let c = self.peek();
            if c == ' ' as u8 || c == '\r' as u8 || c == '\t' as u8 {
                self.advance();
            } else if c == '\n' as u8 {
                self.next_line();
                self.advance();
            } else if c == '/' as u8 && self.peek_next() == '/' as u8 {
                let ghost slash = self.current as int;
                self.advance();
                assert(newlines(src, origin, slash + 1) == newlines(src, origin, slash));
                self.advance();
                while self.peek() != '\n' as u8 && !self.is_at_end()
                    invariant
                        self.source == old(self).source,
                        self.start == old(self).start,
                        src == self.bytes(),
                        origin <= slash < self.current <= src.len(),
                        blank_end(src, origin) == skip_end(src, self.current as int, true),
                        self.line == line_after(
                            first_line,
                            newlines(src, origin, self.current as int),
                        ),
                    decreases src.len() - self.current,
                {
                    self.advance();
                }
                if !self.is_at_end() {
                    self.next_line();
                    self.advance();
                }
            } else {
                return ;
            }
        }
    }

    /// The rest of a string whose opening quote was just passed.
    fn string(&mut self) -> (token: Token)
        requires
            old(self).start < old(self).current <= old(self).bytes().len(),
        ensures
            final(self).source == old(self).source,
            final(self).start == old(self).start,
            final(self).current == ({
                let close = run_end(old(self).bytes(), old(self).current as int, Run::StringBody);
                if close < old(self).bytes().len() {
                    close + 1
                } else {
                    close
                }
            }),
            old(self).current <= final(self).current <= old(self).bytes().len(),
            final(self).line == line_after(
                old(self).line,
                newlines(old(self).bytes(), old(self).current as int, final(self).current as int),
            ),
            token.ttype == if run_end(old(self).bytes(), old(self).current as int, Run::StringBody)
                < old(self).bytes().len() {
                TokenType::String
            } else {
                TokenType::Error
            },
            token.message@ == if token.ttype == TokenType::Error {
                "Unterminated string."@
            } else {
                Seq::<char>::empty()
            },
            token.start == final(self).start,
            token.length == final(self).current - final(self).start,
            token.line == final(self).line,
    {
        let ghost src = self.bytes();
        let ghost origin = self.current as int;
        let ghost first_line = self.line;
        while self.peek() != '"' as u8 && !self.is_at_end()
            invariant
                self.source == old(self).source,
                self.start == old(self).start,
                src == self.bytes(),
                self.start < origin <= self.current <= src.len(),
                run_end(src, origin, Run::StringBody) == run_end(
                    src,
                    self.current as int,
                    Run::StringBody,
                ),
                self.line == line_after(first_line, newlines(src, origin, self.current as int)),
            decreases src.len() - self.current,
        {
            if self.peek() == '\n' as u8 {
                self.next_line();
            }
            self.advance();
        }
        if self.is_at_end() {
            return self.error_token("Unterminated string.".to_owned());
        }
        self.advance();
        self.make_token(TokenType::String)
    }

    /// The rest of a number whose first digit was just passed.
    fn number(&mut self) -> (token: Token)
        requires
            old(self).start < old(self).current <= old(self).bytes().len(),
        ensures
            final(self).source == old(self).source,
            final(self).start == old(self).start,
            final(self).line == old(self).line,
            final(self).current == number_end(old(self).bytes(), old(self).current as int),
            old(self).current <= final(self).current <= old(self).bytes().len(),
            newlines(old(self).bytes(), old(self).current as int, final(self).current as int) == 0,
            token.ttype == TokenType::Number,
            token.message@ == Seq::<char>::empty(),
            token.start == final(self).start,
            token.length == final(self).current - final(self).start,
            token.line == final(self).line,
    {
        let ghost src = self.bytes();
        let ghost origin = self.current as int;
        while is_digit(self.peek())
            invariant
                self.source == old(self).source,
                self.start == old(self).start,
                self.line == old(self).line,
                src == self.bytes(),
                self.start < origin <= self.current <= src.len(),
                run_end(src, origin, Run::Digits) == run_end(src, self.current as int, Run::Digits),
                newlines(src, origin, self.current as int) == 0,
            decreases src.len() - self.current,
        {
            self.advance();
        }
        if self.peek() == '.' as u8 && is_digit(self.peek_next()) {
            self.advance();
            assert(newlines(src, origin, self.current as int) == 0);
            self.advance();
            let ghost fraction = self.current as int;
            while is_digit(self.peek())
                invariant
                    self.source == old(self).source,
                    self.start == old(self).start,
                    self.line == old(self).line,
                    src == self.bytes(),
                    self.start < origin <= fraction <= self.current <= src.len(),
                    run_end(src, fraction, Run::Digits) == run_end(
                        src,
                        self.current as int,
                        Run::Digits,
                    ),
                    newlines(src, origin, self.current as int) == 0,
                decreases src.len() - self.current,
            {
                self.advance();
            }
        }
        self.make_token(TokenType::Number)
    }

    /// `token_type` if the word being scanned is `start + length` bytes long
    /// and `rest` is what follows its first `start` bytes, else an identifier.
    fn check_keyword(&self, start: usize, length: usize, rest: &str, token_type: TokenType) -> (kind:
        TokenType)
        requires
            self.start <= self.current <= self.bytes().len(),
            is_ascii_chars(rest@),
        ensures
            kind == if self.current - self.start == start + length && spells(
                self.bytes().subrange(self.start + start, self.current as int),
                rest@,
            ) {
                token_type
            } else {
                TokenType::Identifier
            },
    {
        proof {
            is_ascii_chars_encode_utf8(rest@);
        }
        let size = self.current - self.start;
        let text = rest.as_bytes();
        if start > size || size - start != length || text.len() != length {
            return TokenType::Identifier;
        }
        let base = self.start + start;
        let ghost tail = self.bytes().subrange(base as int, self.current as int);
        let mut i: usize = 0;
        while i < length
            invariant
                i <= length,
                length == rest@.len(),
                length == text@.len(),
                is_ascii_chars(rest@),
                text@ == encode_utf8(rest@),
                base + length == self.current,
                self.current <= self.bytes().len(),
                tail == self.bytes().subrange(base as int, self.current as int),
                forall|j: int| 0 <= j < i ==> tail[j] == (#[trigger] rest@[j]) as u8,
            decreases length - i,
        {
            proof {
                is_ascii_chars_encode_utf8(rest@);
            }
            assert(text@[i as int] == rest@[i as int] as u8);
            if self.get_char(base + i) != text[i] {
                assert(tail[i as int] != rest@[i as int] as u8);
                return TokenType::Identifier;
            }
            i += 1;
        }
        token_type
    }

    /// The kind of the word that was just passed: the first letter picks the
    /// reserved words that it may be, and the rest is compared.
    fn identifier_type(&self) -> (kind: TokenType)
        requires
            self.start < self.current <= self.bytes().len(),
        ensures
            kind == word_kind(self.bytes().subrange(self.start as int, self.current as int)),
    {
        let ghost src = self.bytes();
        let ghost word = src.subrange(self.start as int, self.current as int);
        proof {
            lemma_initials(word);
            assert(word[0] == src[self.start as int]);
            assert(word.len() > 1 ==> word[1] == src[self.start + 1]);
        }
        let c = self.get_char(self.start);
        if c == 'a' as u8 {
            proof {
                reveal_strlit("and");
                reveal_strlit("nd");
                lemma_spells_rest(src, self.start as int, self.current as int, 1, "and"@, "nd"@);
            }
            self.check_keyword(1, 2, "nd", TokenType::And)
        } else if c == 'c' as u8 {
            proof {
                reveal_strlit("class");
                reveal_strlit("lass");
                lemma_spells_rest(src, self.start as int, self.current as int, 1, "class"@, "lass"@);
            }
            self.check_keyword(1, 4, "lass", TokenType::Class)
        } else if c == 'e' as u8 {
            proof {
                reveal_strlit("else");
                reveal_strlit("lse");
                lemma_spells_rest(src, self.start as int, self.current as int, 1, "else"@, "lse"@);
            }
            self.check_keyword(1, 3, "lse", TokenType::Else)
        } else if c == 'i' as u8 {
            proof {
                reveal_strlit("if");
                reveal_strlit("f");
                lemma_spells_rest(src, self.start as int, self.current as int, 1, "if"@, "f"@);
            }
            self.check_keyword(1, 1, "f", TokenType::If)
        } else if c == 'n' as u8 {
            proof {
                reveal_strlit("nil");
                reveal_strlit("il");
                lemma_spells_rest(src, self.start as int, self.current as int, 1, "nil"@, "il"@);
            }
            self.check_keyword(1, 2, "il", TokenType::Nil)
        } else if c == 'o' as u8 {
            proof {
                reveal_strlit("or");
                reveal_strlit("r");
                lemma_spells_rest(src, self.start as int, self.current as int, 1, "or"@, "r"@);
            }
            self.check_keyword(1, 1, "r", TokenType::Or)
        } else if c == 'p' as u8 {
            proof {
                reveal_strlit("print");
                reveal_strlit("rint");
                lemma_spells_rest(src, self.start as int, self.current as int, 1, "print"@, "rint"@);
            }
            self.check_keyword(1, 4, "rint", TokenType::Print)
        } else if c == 'r' as u8 {
            proof {
                reveal_strlit("return");
                reveal_strlit("eturn");
                lemma_spells_rest(src, self.start as int, self.current as int, 1, "return"@, "eturn"@);
            }
            self.check_keyword(1, 5, "eturn", TokenType::Return)
        } else if c == 's' as u8 {
            proof {
                reveal_strlit("super");
                reveal_strlit("uper");
                lemma_spells_rest(src, self.start as int, self.current as int, 1, "super"@, "uper"@);
            }
            self.check_keyword(1, 4, "uper", TokenType::Super)
        } else if c == 'v' as u8 {
            proof {
                reveal_strlit("var");
                reveal_strlit("ar");
                lemma_spells_rest(src, self.start as int, self.current as int, 1, "var"@, "ar"@);
            }
            self.check_keyword(1, 2, "ar", TokenType::Var)
        } else if c == 'w' as u8 {
            proof {
                reveal_strlit("while");
                reveal_strlit("hile");
                lemma_spells_rest(src, self.start as int, self.current as int, 1, "while"@, "hile"@);
            }
            self.check_keyword(1, 4, "hile", TokenType::While)
        } else if c == 'f' as u8 {
            if self.current - self.start > 1 {
                let d = self.get_char(self.start + 1);
                if d == 'a' as u8 {
                    proof {
                        reveal_strlit("false");
                        reveal_strlit("lse");
                        lemma_spells_rest(src, self.start as int, self.current as int, 2, "false"@, "lse"@);
                    }
                    self.check_keyword(2, 3, "lse", TokenType::False)
                } else if d == 'o' as u8 {
                    proof {
                        reveal_strlit("for");
                        reveal_strlit("r");
                        lemma_spells_rest(src, self.start as int, self.current as int, 2, "for"@, "r"@);
                    }
                    self.check_keyword(2, 1, "r", TokenType::For)
                } else if d == 'u' as u8 {
                    proof {
                        reveal_strlit("fun");
                        reveal_strlit("n");
                        lemma_spells_rest(src, self.start as int, self.current as int, 2, "fun"@, "n"@);
                    }
                    self.check_keyword(2, 1, "n", TokenType::Fun)
                } else {
                    TokenType::Identifier
                }
            } else {
                TokenType::Identifier
            }
        } else if c == 't' as u8 {
            if self.current - self.start > 1 {
                let d = self.get_char(self.start + 1);
                if d == 'h' as u8 {
                    proof {
                        reveal_strlit("this");
                        reveal_strlit("is");
                        lemma_spells_rest(src, self.start as int, self.current as int, 2, "this"@, "is"@);
                    }
                    self.check_keyword(2, 2, "is", TokenType::This)
                } else if d == 'r' as u8 {
                    proof {
                        reveal_strlit("true");
                        reveal_strlit("ue");
                        lemma_spells_rest(src, self.start as int, self.current as int, 2, "true"@, "ue"@);
                    }
                    self.check_keyword(2, 2, "ue", TokenType::True)
                } else {
                    TokenType::Identifier
                }
            } else {
                TokenType::Identifier
            }
        } else {
            TokenType::Identifier
        }
    }

    /// The rest of a word whose first letter was just passed.
    fn identifier(&mut self) -> (token: Token)
        requires
            old(self).start < old(self).current <= old(self).bytes().len(),
        ensures
            final(self).source == old(self).source,
            final(self).start == old(self).start,
            final(self).line == old(self).line,
            final(self).current == run_end(
                old(self).bytes(),
                old(self).current as int,
                Run::Alphanumeric,
            ),
            old(self).current <= final(self).current <= old(self).bytes().len(),
            newlines(old(self).bytes(), old(self).current as int, final(self).current as int) == 0,
            token.ttype == word_kind(
                old(self).bytes().subrange(final(self).start as int, final(self).current as int),
            ),
            token.message@ == Seq::<char>::empty(),
            token.start == final(self).start,
            token.length == final(self).current - final(self).start,
            token.line == final(self).line,
    {
        let ghost src = self.bytes();
        let ghost origin = self.current as int;
        while is_alpha(self.peek()) || is_digit(self.peek())
            invariant
                self.source == old(self).source,
                self.start == old(self).start,
                self.line == old(self).line,
                src == self.bytes(),
                self.start < origin <= self.current <= src.len(),
                run_end(src, origin, Run::Alphanumeric) == run_end(
                    src,
                    self.current as int,
                    Run::Alphanumeric,
                ),
                newlines(src, origin, self.current as int) == 0,
            decreases src.len() - self.current,
        {
            self.advance();
        }
        self.make_token(self.identifier_type())
    }

    /// Scans the next token: passes over blanks and comments, then takes
    /// the longest token that begins there. At the end of the source the
    /// token is `Eof`; what cannot begin a token, and a string that is not
    /// closed, come back as `Error` tokens, and scanning goes on after them.
    pub fn scan_token(&mut self) -> (token: Token)
        ensures
            token.scanned_from(old(self).bytes(), old(self).current as int, old(self).line),
            final(self).source == old(self).source,
            final(self).start == token.start,
            final(self).current == token.start + token.length,
            final(self).line == token.line,
            old(self).current <= token.start,
            old(self).current <= old(self).bytes().len() ==> token.start + token.length <= old(
                self,
            ).bytes().len(),
            token.ttype == TokenType::Eof <==> token.start >= old(self).bytes().len(),
            token.ttype != TokenType::Eof ==> token.length > 0,
    {
        let ghost src = self.bytes();
        let ghost origin = self.current as int;
        self.skip_whitespace();
        self.start = self.current;
        if self.is_at_end() {
            return self.make_token(TokenType::Eof);
        }
        let ghost begin = self.current as int;
        let c = self.advance();
        assert(newlines(src, begin, begin + 1) == 0) by {
            assert(newlines(src, begin, begin) == 0);
        }
        let token = if is_alpha(c) {
            self.identifier()
        } else if is_digit(c) {
            self.number()
        } else if c == '"' as u8 {
            self.string()
        } else if c == '(' as u8 {
            self.make_token(TokenType::LeftParen)
        } else if c == ')' as u8 {
            self.make_token(TokenType::RightParen)
        } else if c == '{' as u8 {
            self.make_token(TokenType::LeftBrace)
        } else if c == '}' as u8 {
            self.make_token(TokenType::RightBrace)
        } else if c == ';' as u8 {
            self.make_token(TokenType::Semicolon)
        } else if c == ',' as u8 {
            self.make_token(TokenType::Comma)
        } else if c == '.' as u8 {
            self.make_token(TokenType::Dot)
        } else if c == '-' as u8 {
            self.make_token(TokenType::Minus)
        } else if c == '+' as u8 {
            self.make_token(TokenType::Plus)
        } else if c == '/' as u8 {
            self.make_token(TokenType::Slash)
        } else if c == '*' as u8 {
            self.make_token(TokenType::Star)
        } else if c == '!' as u8 {
            let kind = if self.match_char('=' as u8) {
                TokenType::BangEqual
            } else {
                TokenType::Bang
            };
            self.make_token(kind)
        } else if c == '=' as u8 {
            let kind = if self.match_char('=' as u8) {
                TokenType::EqualEqual
            } else {
                TokenType::Equal
            };
            self.make_token(kind)
        } else if c == '<' as u8 {
            let kind = if self.match_char('=' as u8) {
                TokenType::LessEqual
            } else {
                TokenType::Less
            };
            self.make_token(kind)
        } else if c == '>' as u8 {
            let kind = if self.match_char('=' as u8) {
                TokenType::GreaterEqual
            } else {
                TokenType::Greater
            };
            self.make_token(kind)
        } else {
            if c >= 0x80 {
                while self.peek() >= 0x80 && self.peek() <= 0xbf
                    invariant
                        self.source == old(self).source,
                        self.start == begin,
                        src == self.bytes(),
                        begin < self.current <= src.len(),
                        run_end(src, begin + 1, Run::Continuation) == run_end(
                            src,
                            self.current as int,
                            Run::Continuation,
                        ),
                        newlines(src, begin + 1, self.current as int) == 0,
                        self.line == line_after(old(self).line, newlines(src, origin, begin)),
                    decreases src.len() - self.current,
                {
                    self.advance();
                }
            }
            self.error_token("Unexpected character.".to_owned())
        };
        proof {
            lemma_newlines_split(src, begin, begin + 1, self.current as int);
            lemma_newlines_split(src, origin, begin, self.current as int);
        }
        token
    }
}

} // verus!
