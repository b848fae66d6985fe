//! The lexer: what the next token of a byte sequence is, and a cursor over a
//! source text that hands the tokens out one at a time.

use vstd::prelude::*;
use vstd::utf8::encode_utf8;

use crate::text::{ascii_part, text_between};
use crate::token::{lookup_identifier, resolve_identifier, Token, TokenKind, TokenView};

verus! {

/// The classes of bytes that the lexer consumes in runs.
#[derive(Clone, Copy, Debug, PartialEq, Eq, Structural)]
pub enum ByteClass {
    /// Space, tab, line feed and carriage return.
    Whitespace,
    /// The ASCII letters and the underscore.
    Letter,
    /// The decimal digits.
    Digit,
}

impl ByteClass {
    /// Whether the byte belongs to the class.
    pub open spec fn has(self, byte: u8) -> bool {
        match self {
            ByteClass::Whitespace => {
                byte == ' ' as u8 || byte == '\t' as u8 || byte == '\n' as u8 || byte == '\r' as u8
            },
            ByteClass::Letter => {
                ('a' as u8 <= byte <= 'z' as u8) || ('A' as u8 <= byte <= 'Z' as u8) || byte
                    == '_' as u8
            },
            ByteClass::Digit => '0' as u8 <= byte <= '9' as u8,
        }
    }

    /// Whether the byte belongs to the class.
    pub fn contains(self, byte: u8) -> (found: bool)
        ensures
            found == self.has(byte),
    {
        match self {
            ByteClass::Whitespace => {
                byte == ' ' as u8 || byte == '\t' as u8 || byte == '\n' as u8 || byte == '\r' as u8
            },
            ByteClass::Letter => {
                ('a' as u8 <= byte && byte <= 'z' as u8) || ('A' as u8 <= byte && byte
                    <= 'Z' as u8) || byte == '_' as u8
            },
            ByteClass::Digit => '0' as u8 <= byte && byte <= '9' as u8,
        }
    }
}

/// Where the longest run of bytes of the class that begins at `start` ends:
/// the first position from `start` on that holds no byte of the class.
pub open spec fn run_end(bytes: Seq<u8>, start: int, class: ByteClass) -> int
    decreases bytes.len() - start,
{
    if 0 <= start < bytes.len() && class.has(bytes[start]) {
        run_end(bytes, start + 1, class)
    } else {
        start
    }
}

/// The kind of the token that a byte stands for by itself. A byte that stands
/// for none is illegal.
pub open spec fn symbol_kind(byte: u8) -> TokenKind {
    if byte == '=' as u8 {
        TokenKind::Assign
    } else if byte == '!' as u8 {
        TokenKind::Bang
    } else if byte == '+' as u8 {
        TokenKind::Plus
    } else if byte == '-' as u8 {
        TokenKind::Minus
    } else if byte == '/' as u8 {
        TokenKind::Slash
    } else if byte == '*' as u8 {
        TokenKind::Asterisk
    } else if byte == '<' as u8 {
        TokenKind::LessThan
    } else if byte == '>' as u8 {
        TokenKind::GreaterThan
    } else if byte == '(' as u8 {
        TokenKind::LParen
    } else if byte == ')' as u8 {
        TokenKind::RParen
    } else if byte == '{' as u8 {
        TokenKind::LBrace
    } else if byte == '}' as u8 {
        TokenKind::RBrace
    } else if byte == ',' as u8 {
        TokenKind::Comma
    } else if byte == ';' as u8 {
        TokenKind::Semicolon
    } else {
        TokenKind::Illegal
    }
}

/// The token that a byte stands for by itself.
pub fn symbol(byte: u8) -> (token: Token)
    ensures
        token@ == TokenView::bare(symbol_kind(byte)),
{
    if byte == '=' as u8 {
        Token::ASSIGN
    } else if byte == '!' as u8 {
        Token::BANG
    } else if byte == '+' as u8 {
        Token::PLUS
    } else if byte == '-' as u8 {
        Token::MINUS
    } else if byte == '/' as u8 {
        Token::SLASH
    } else if byte == '*' as u8 {
        Token::ASTERISK
    } else if byte == '<' as u8 {
        Token::LT
    } else if byte == '>' as u8 {
        Token::GT
    } else if byte == '(' as u8 {
        Token::LPAREN
    } else if byte == ')' as u8 {
        Token::RPAREN
    } else if byte == '{' as u8 {
        Token::LBRACE
    } else if byte == '}' as u8 {
        Token::RBRACE
    } else if byte == ',' as u8 {
        Token::COMMA
    } else if byte == ';' as u8 {
        Token::SEMICOLON
    } else {
        Token::ILLEGAL
    }
}

/// A token together with the position at which the text after it begins.
pub struct Scan {
    pub token: TokenView,
    pub next: int,
}

/// The token that begins at `start`, a position that holds a byte which is
/// not whitespace.
pub open spec fn token_at(bytes: Seq<u8>, start: int) -> Scan {
    let byte = bytes[start];
    if ByteClass::Letter.has(byte) {
        let end = run_end(bytes, start, ByteClass::Letter);
        Scan { token: resolve_identifier(text_between(bytes, start, end)), next: end }
    } else if ByteClass::Digit.has(byte) {
        let end = run_end(bytes, start, ByteClass::Digit);
        Scan {
            token: TokenView {
                kind: TokenKind::IntegerLiteral,
                text: text_between(bytes, start, end),
            },
            next: end,
        }
    } else if byte == '=' as u8 && start + 1 < bytes.len() && bytes[start + 1] == '=' as u8 {
        Scan { token: TokenView::bare(TokenKind::Equal), next: start + 2 }
    } else if byte == '!' as u8 && start + 1 < bytes.len() && bytes[start + 1] == '=' as u8 {
        Scan { token: TokenView::bare(TokenKind::NotEqual), next: start + 2 }
    } else {
        Scan { token: TokenView::bare(symbol_kind(byte)), next: start + 1 }
    }
}

/// The next token of the text from `pos` on: whitespace is skipped, and where
/// nothing but whitespace is left the token is the end of the input.
pub open spec fn next_token_from(bytes: Seq<u8>, pos: int) -> Scan {
    let start = run_end(bytes, pos, ByteClass::Whitespace);
    if 0 <= start < bytes.len() {
        token_at(bytes, start)
    } else {
        Scan { token: TokenView::end(), next: start }
    }
}

/// A run ends between its start and the end of the text, holds only bytes of
/// its class, and is followed by no further byte of the class.
pub proof fn lemma_run_end(bytes: Seq<u8>, start: int, class: ByteClass)
    requires
        0 <= start <= bytes.len(),
    ensures
        start <= run_end(bytes, start, class) <= bytes.len(),
        forall|i: int| start <= i < run_end(bytes, start, class) ==> class.has(#[trigger] bytes[i]),
        run_end(bytes, start, class) < bytes.len() ==> !class.has(
            bytes[run_end(bytes, start, class)],
        ),
    decreases bytes.len() - start,
{
    if start < bytes.len() && class.has(bytes[start]) {
        lemma_run_end(bytes, start + 1, class);
    }
}

/// A run that is entered at any of its positions ends where the whole run ends.
pub proof fn lemma_run_end_from_inside(bytes: Seq<u8>, start: int, mid: int, class: ByteClass)
    requires
        0 <= start <= mid <= bytes.len(),
        forall|i: int| start <= i < mid ==> class.has(#[trigger] bytes[i]),
    ensures
        run_end(bytes, start, class) == run_end(bytes, mid, class),
    decreases mid - start,
{
    if start < mid {
        lemma_run_end_from_inside(bytes, start + 1, mid, class);
    }
}

/// The next token lies within the text, and any token but the end of the
/// input takes up at least one byte.
pub proof fn lemma_next_token_advances(bytes: Seq<u8>, pos: int)
    requires
        0 <= pos <= bytes.len(),
    ensures
        pos <= next_token_from(bytes, pos).next <= bytes.len(),
        next_token_from(bytes, pos).token.kind != TokenKind::EndOfInput ==> pos < next_token_from(
            bytes,
            pos,
        ).next,
        next_token_from(bytes, pos).token.kind == TokenKind::EndOfInput ==> next_token_from(
            bytes,
            pos,
        ) == (Scan { token: TokenView::end(), next: bytes.len() as int }),
{
    let start = run_end(bytes, pos, ByteClass::Whitespace);
    lemma_run_end(bytes, pos, ByteClass::Whitespace);
    if start < bytes.len() {
        lemma_run_end(bytes, start, ByteClass::Letter);
        lemma_run_end(bytes, start, ByteClass::Digit);
    }
}

/// The tokens of the text from `pos` on, in order, up to the end of the input.
pub open spec fn tokens_from(bytes: Seq<u8>, pos: int) -> Seq<TokenView>
    decreases bytes.len() - pos,
{
    let scan = next_token_from(bytes, pos);
    if 0 <= pos <= bytes.len() && scan.token.kind != TokenKind::EndOfInput {
        proof {
            lemma_next_token_advances(bytes, pos);
        }
        seq![scan.token] + tokens_from(bytes, scan.next)
    } else {
        Seq::empty()
    }
}

/// The token stream and the next token agree: the stream is empty exactly
/// where the next token is the end of the input, which then stays; otherwise
/// the stream begins with the next token and goes on behind it.
pub proof fn lemma_remaining_tokens(bytes: Seq<u8>, pos: int)
    requires
        0 <= pos <= bytes.len(),
    ensures
        ({
            let scan = next_token_from(bytes, pos);
            let rest = tokens_from(bytes, pos);
            if scan.token.kind == TokenKind::EndOfInput {
                &&& rest.len() == 0
                &&& scan.token == TokenView::end()
                &&& tokens_from(bytes, scan.next).len() == 0
            } else {
                &&& rest.len() > 0
                &&& rest[0] == scan.token
                &&& rest.skip(1) == tokens_from(bytes, scan.next)
            }
        }),
{
    let scan = next_token_from(bytes, pos);
    lemma_next_token_advances(bytes, pos);
    if scan.token.kind == TokenKind::EndOfInput {
        lemma_run_end(bytes, bytes.len() as int, ByteClass::Whitespace);
    } else {
        assert(tokens_from(bytes, pos).skip(1) =~= tokens_from(bytes, scan.next));
    }
}

/// The tokens of a whole text.
pub open spec fn tokens_of(bytes: Seq<u8>) -> Seq<TokenView> {
    tokens_from(bytes, 0)
}

/// No token of the stream is the end of the input.
pub proof fn lemma_tokens_exclude_end(bytes: Seq<u8>, pos: int, index: int)
    requires
        0 <= index < tokens_from(bytes, pos).len(),
    ensures
        tokens_from(bytes, pos)[index].kind != TokenKind::EndOfInput,
    decreases index,
{
    if index > 0 {
        lemma_next_token_advances(bytes, pos);
        lemma_tokens_exclude_end(bytes, next_token_from(bytes, pos).next, index - 1);
    }
}

/// A byte that stands for a token by itself yields that token, and the text
/// goes on directly behind it. The one exception is `=` or `!` before `=`,
/// which begins a token of two bytes.
pub proof fn lemma_symbol_token(bytes: Seq<u8>, pos: int)
    requires
        0 <= pos < bytes.len(),
        symbol_kind(bytes[pos]) != TokenKind::Illegal,
        !((bytes[pos] == '=' as u8 || bytes[pos] == '!' as u8) && pos + 1 < bytes.len() && bytes[pos
            + 1] == '=' as u8),
    ensures
        next_token_from(bytes, pos) == (Scan {
            token: TokenView::bare(symbol_kind(bytes[pos])),
            next: pos + 1,
        }),
{
}

/// `==` and `!=` are one token each: `=` or `!` directly before `=` is never a
/// token by itself.
pub proof fn lemma_two_byte_operator(bytes: Seq<u8>, pos: int)
    requires
        0 <= pos,
        pos + 1 < bytes.len(),
        bytes[pos] == '=' as u8 || bytes[pos] == '!' as u8,
        bytes[pos + 1] == '=' as u8,
    ensures
        next_token_from(bytes, pos) == (Scan {
            token: TokenView::bare(
                if bytes[pos] == '=' as u8 {
                    TokenKind::Equal
                } else {
                    TokenKind::NotEqual
                },
            ),
            next: pos + 2,
        }),
{
}

/// Where the cursor stands once `count` tokens have been produced from `pos`.
pub open spec fn cursor_after(bytes: Seq<u8>, pos: int, count: nat) -> int
    decreases count,
{
    if count == 0 {
        pos
    } else {
        next_token_from(bytes, cursor_after(bytes, pos, (count - 1) as nat)).next
    }
}

/// The token that is produced after `count` others have been produced from
/// `pos`.
pub open spec fn token_after(bytes: Seq<u8>, pos: int, count: nat) -> TokenView {
    next_token_from(bytes, cursor_after(bytes, pos, count)).token
}

/// Once the end of the input has been produced, it is all that is ever
/// produced again.
pub proof fn lemma_end_of_input_persists(bytes: Seq<u8>, pos: int, first: nat, later: nat)
    requires
        0 <= pos <= bytes.len(),
        first <= later,
        token_after(bytes, pos, first).kind == TokenKind::EndOfInput,
    ensures
        token_after(bytes, pos, later) == TokenView::end(),
    decreases later - first,
{
    lemma_cursor_after_in_text(bytes, pos, first);
    lemma_next_token_advances(bytes, cursor_after(bytes, pos, first));
    if first < later {
        assert(cursor_after(bytes, pos, first + 1) == bytes.len());
        lemma_run_end(bytes, bytes.len() as int, ByteClass::Whitespace);
        lemma_end_of_input_persists(bytes, pos, first + 1, later);
    }
}

/// The cursor never leaves the text.
pub proof fn lemma_cursor_after_in_text(bytes: Seq<u8>, pos: int, count: nat)
    requires
        0 <= pos <= bytes.len(),
    ensures
        pos <= cursor_after(bytes, pos, count) <= bytes.len(),
    decreases count,
{
    if count > 0 {
        lemma_cursor_after_in_text(bytes, pos, (count - 1) as nat);
        lemma_next_token_advances(bytes, cursor_after(bytes, pos, (count - 1) as nat));
    }
}

/// A cursor over a source text that produces its tokens one at a time.
pub struct Lexer {
    input: String,
    position: usize,
    read_position: usize,
    ch: u8,
}

impl Lexer {
    /// The bytes of the source text.
    pub closed spec fn bytes(&self) -> Seq<u8> {
        encode_utf8(self.input@)
    }

    /// The position of the byte under the cursor; the length of the text once
    /// the text is used up.
    pub closed spec fn cursor(&self) -> int {
        self.position as int
    }

    /// The cursor lies within the text or at its end, the read position is one
    /// ahead of it while there is text left, and the current byte is the byte
    /// under the cursor, or zero at the end of the text.
    pub closed spec fn wf(&self) -> bool {
        let bytes = self.bytes();
        &&& self.position <= bytes.len()
        &&& self.read_position == if self.position < bytes.len() {
            self.position + 1
        } else {
            bytes.len() as int
        }
        &&& self.ch == if self.position < bytes.len() {
            bytes[self.position as int]
        } else {
            0u8
        }
    }

    /// The tokens that are still to come, in order, without the end of the
    /// input.
    pub open spec fn remaining(&self) -> Seq<TokenView> {
        tokens_from(self.bytes(), self.cursor())
    }

    /// The cursor of a well-formed lexer lies within the text or at its end.
    pub proof fn lemma_cursor_in_text(&self)
        requires
            self.wf(),
        ensures
            0 <= self.cursor() <= self.bytes().len(),
    {
    }

    /// A lexer at the start of the given text.
    pub fn new(input: String) -> (lexer: Lexer)
        ensures
            lexer.wf(),
            lexer.bytes() == encode_utf8(input@),
            lexer.cursor() == 0,
    {
        let bytes = input.as_str().as_bytes();
        let first: u8 = if bytes.len() > 0 {
            bytes[0]
        } else {
            0
        };
        let read_position: usize = if bytes.len() > 0 {
            1
        } else {
            0
        };
        Lexer { input, position: 0, read_position, ch: first }
    }

    /// The position of the cursor, counted in bytes from the start of the text.
    pub fn position(&self) -> (position: usize)
        ensures
            position == self.cursor(),
    {
        self.position
    }

    /// Moves the cursor one byte on. At the end of the text it stays.
    fn read_char(&mut self)
        requires
            old(self).wf(),
        ensures
            final(self).wf(),
            final(self).bytes() == old(self).bytes(),
            final(self).cursor() == if old(self).cursor() < old(self).bytes().len() {
                old(self).cursor() + 1
            } else {
                old(self).cursor()
            },
    {
        let bytes = self.input.as_str().as_bytes();
        if self.read_position >= bytes.len() {
            self.ch = 0;
            self.position = bytes.len();
        } else {
            self.ch = bytes[self.read_position];
            self.position = self.read_position;
            self.read_position = self.read_position + 1;
        }
    }

    /// The byte after the one under the cursor, if there is one.
    fn peek_char(&self) -> (next: Option<u8>)
        requires
            self.wf(),
        ensures
            next == if self.cursor() + 1 < self.bytes().len() {
                Some(self.bytes()[self.cursor() + 1])
            } else {
                None
            },
    {
        let bytes = self.input.as_str().as_bytes();
        if self.read_position >= bytes.len() {
            None
        } else {
            Some(bytes[self.read_position])
        }
    }

    /// Consumes the run of bytes of the class that starts under the cursor and
    /// returns it as text.
    fn read_run(&mut self, class: ByteClass) -> (literal: String)
        requires
            old(self).wf(),
        ensures
            final(self).wf(),
            final(self).bytes() == old(self).bytes(),
            final(self).cursor() == run_end(old(self).bytes(), old(self).cursor(), class),
            literal@ == text_between(old(self).bytes(), old(self).cursor(), final(self).cursor()),
    {
        let start: usize = self.position;
        let ghost bytes = self.bytes();
        while class.contains(self.ch)
            invariant
                self.wf(),
                self.bytes() == bytes,
                start <= self.cursor() <= bytes.len(),
                forall|i: int| start <= i < self.cursor() ==> class.has(#[trigger] bytes[i]),
            decreases bytes.len() - self.cursor(),
        {
            self.read_char();
        }
        proof {
            lemma_run_end_from_inside(bytes, start as int, self.cursor(), class);
        }
        ascii_part(self.input.as_str(), start, self.position)
    }

    /// Consumes the identifier or keyword under the cursor and returns its text.
    fn read_identifier(&mut self) -> (literal: String)
        requires
            old(self).wf(),
        ensures
            final(self).wf(),
            final(self).bytes() == old(self).bytes(),
            final(self).cursor() == run_end(
                old(self).bytes(),
                old(self).cursor(),
                ByteClass::Letter,
            ),
            literal@ == text_between(old(self).bytes(), old(self).cursor(), final(self).cursor()),
    {
        self.read_run(ByteClass::Letter)
    }

    /// Consumes the integer literal under the cursor and returns its token.
    fn read_int(&mut self) -> (token: Token)
        requires
            old(self).wf(),
        ensures
            final(self).wf(),
            final(self).bytes() == old(self).bytes(),
            final(self).cursor() == run_end(
                old(self).bytes(),
                old(self).cursor(),
                ByteClass::Digit,
            ),
            token@ == (TokenView {
                kind: TokenKind::IntegerLiteral,
                text: text_between(old(self).bytes(), old(self).cursor(), final(self).cursor()),
            }),
    {
        Token::INT(self.read_run(ByteClass::Digit))
    }

    /// Moves the cursor past the whitespace under it.
    fn skip_whitespace(&mut self)
        requires
            old(self).wf(),
        ensures
            final(self).wf(),
            final(self).bytes() == old(self).bytes(),
            final(self).cursor() == run_end(
                old(self).bytes(),
                old(self).cursor(),
                ByteClass::Whitespace,
            ),
    {
        let ghost bytes = self.bytes();
        let ghost start = self.cursor();
        while ByteClass::Whitespace.contains(self.ch)
            invariant
                self.wf(),
                self.bytes() == bytes,
                0 <= start <= self.cursor() <= bytes.len(),
                forall|i: int|
                    start <= i < self.cursor() ==> ByteClass::Whitespace.has(#[trigger] bytes[i]),
            decreases bytes.len() - self.cursor(),
        {
            self.read_char();
        }
        proof {
            lemma_run_end_from_inside(bytes, start, self.cursor(), ByteClass::Whitespace);
        }
    }

    /// Produces the next token and moves the cursor past it. At the end of the
    /// text the token is `EOF` and the cursor stays.
    pub fn next_token(&mut self) -> (token: Token)
        requires
            old(self).wf(),
        ensures
            final(self).wf(),
            final(self).bytes() == old(self).bytes(),
            token@ == next_token_from(old(self).bytes(), old(self).cursor()).token,
            final(self).cursor() == next_token_from(old(self).bytes(), old(self).cursor()).next,
            token@.kind == TokenKind::EndOfInput <==> old(self).remaining().len() == 0,
            old(self).remaining().len() == 0 ==> {
                &&& token@ == TokenView::end()
                &&& final(self).remaining().len() == 0
            },
            old(self).remaining().len() > 0 ==> {
                &&& token@ == old(self).remaining()[0]
                &&& final(self).remaining() == old(self).remaining().skip(1)
            },
    {
        proof {
            lemma_remaining_tokens(old(self).bytes(), old(self).cursor());
            old(self).lemma_cursor_in_text();
        }
        self.skip_whitespace();
        proof {
            lemma_run_end(old(self).bytes(), old(self).cursor(), ByteClass::Whitespace);
        }
        if self.position >= self.input.as_str().as_bytes().len() {
            return Token::EOF;
        }
        let byte: u8 = self.ch;
        if ByteClass::Letter.contains(byte) {
            return lookup_identifier(self.read_identifier());
        }
        if ByteClass::Digit.contains(byte) {
            return self.read_int();
        }
        let before_equals = match self.peek_char() {
            Some(next) => next == '=' as u8,
            None => false,
        };
        let token = if byte == '=' as u8 && before_equals {
            self.read_char();
            Token::EQ
        } else if byte == '!' as u8 && before_equals {
            self.read_char();
            Token::NotEq
        } else {
            symbol(byte)
        };
        self.read_char();
        token
    }
}

} // verus!
