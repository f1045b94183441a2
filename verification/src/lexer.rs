//! Scanning source text into tokens.
//!
//! The scanner looks at one byte at a time and keeps one bit of state:
//! whether the token before was a backslash. Its tokens carry a kind and a
//! length and nothing else, and they cover the text without gaps, white
//! space and comments included.

use vstd::prelude::*;
use vstd::slice::slice_subrange;
use vstd::string::StringSliceAdditionalSpecFns;

use crate::kind::Kind;

verus! {

/// The byte that stands for the end of the text. A byte of this value in the
/// text ends it.
pub const EOF: u8 = 0x0;

/// A token: its kind and the number of bytes that it covers.
#[derive(Debug, Clone, Copy, PartialEq, Eq, Structural)]
pub struct Token {
    pub len: usize,
    pub kind: Kind,
}

/// The scanner: the text, the position of the next byte, and whether the
/// token before was a backslash.
pub struct Lexer<'a> {
    input: &'a str,
    pos: usize,
    after_backslash: bool,
}

/// The kinds of runs of bytes that the scanner takes in one go.
#[derive(Debug, Clone, Copy, PartialEq, Eq, Structural)]
pub enum Run {
    /// White space.
    Whitespace,
    /// The rest of a line.
    Comment,
    /// The inside of a string.
    StringBody,
    /// Hexadecimal digits.
    Hex,
    /// Decimal digits.
    Decimal,
    /// The body of an identifier.
    Ident,
    /// Anything but the byte that ends the text.
    Text,
}

/// Whether the byte is white space: the space and the bytes from tabulator
/// to carriage return.
pub open spec fn spec_is_ascii_whitespace(byte: u8) -> bool {
    byte == 0x20 || (0x9 <= byte <= 0xD)
}

/// Whether the byte is punctuation that ends an identifier, the hyphen
/// included: one of `' ( ) * + , - ; < = > ? @ [ \ ] { }`.
pub open spec fn spec_is_special(byte: u8) -> bool {
    (39 <= byte <= 45) || (59 <= byte <= 64) || (91 <= byte <= 93) || byte == 123 || byte == 125
}

/// Whether the byte is a decimal digit.
pub open spec fn is_decimal_digit(byte: u8) -> bool {
    0x30 <= byte <= 0x39
}

/// Whether the byte is a hexadecimal digit, in either case.
pub open spec fn is_hex_digit(byte: u8) -> bool {
    is_decimal_digit(byte) || (0x41 <= byte <= 0x46) || (0x61 <= byte <= 0x66)
}

impl Run {
    /// Whether the byte belongs to a run of this kind. The byte that ends
    /// the text belongs to no run.
    pub open spec fn admits(self, byte: u8) -> bool {
        match self {
            Run::Whitespace => spec_is_ascii_whitespace(byte),
            Run::Comment => byte != 0x0A && byte != EOF,
            Run::StringBody => byte != 0x22 && byte != EOF,
            Run::Hex => is_hex_digit(byte),
            Run::Decimal => is_decimal_digit(byte),
            Run::Ident => byte != EOF && !spec_is_ascii_whitespace(byte) && (byte == 0x2D
                || !spec_is_special(byte)),
            Run::Text => byte != EOF,
        }
    }

    /// Whether the byte belongs to a run of this kind.
    #[verifier::when_used_as_spec(admits)]
    pub fn accepts(self, byte: u8) -> (r: bool)
        ensures
            r == self.admits(byte),
    {
        match self {
            Run::Whitespace => is_ascii_whitespace(byte),
            Run::Comment => byte != 0x0A && byte != EOF,
            Run::StringBody => byte != 0x22 && byte != EOF,
            Run::Hex => (0x30 <= byte && byte <= 0x39) || (0x41 <= byte && byte <= 0x46) || (0x61
                <= byte && byte <= 0x66),
            Run::Decimal => 0x30 <= byte && byte <= 0x39,
            Run::Ident => byte != EOF && !is_ascii_whitespace(byte) && (byte == 0x2D
                || !is_special(byte)),
            Run::Text => byte != EOF,
        }
    }
}

/// The byte at the position, or the byte that ends the text where the text
/// has ended.
pub open spec fn byte_at(input: Seq<u8>, i: int) -> u8 {
    if 0 <= i < input.len() {
        input[i]
    } else {
        EOF
    }
}

/// The end of the longest run of the given kind that begins at `from`.
pub open spec fn run_end(input: Seq<u8>, from: int, run: Run) -> int
    decreases input.len() - from,
{
    if 0 <= from < input.len() && run.admits(input[from]) {
        run_end(input, from + 1, run)
    } else {
        from
    }
}

/// What the scanner makes of a string whose opening quote ends at `pos`: it
/// runs to the closing quote, which is part of it, or to the end of the
/// text, where it is unterminated.
pub open spec fn string_at(input: Seq<u8>, pos: int) -> (Kind, int) {
    let end = run_end(input, pos, Run::StringBody);
    if byte_at(input, end) == 0x22 {
        (Kind::String, end + 1)
    } else {
        (Kind::StringUnterminated, end)
    }
}

/// What the scanner makes of a number whose first digit ends at `pos`.
///
/// After a leading zero an `x` in either case begins a hexadecimal number,
/// which is empty if no hexadecimal digit follows. Any other number is
/// decimal digits, and a float if a dot follows them, with the decimal
/// digits after the dot.
pub open spec fn number_at(input: Seq<u8>, pos: int, leading_zero: bool) -> (Kind, int) {
    if leading_zero && (byte_at(input, pos) == 0x78 || byte_at(input, pos) == 0x58) {
        if is_hex_digit(byte_at(input, pos + 1)) {
            (Kind::NumberHex, run_end(input, pos + 1, Run::Hex))
        } else {
            (Kind::NumberHexEmpty, pos + 1)
        }
    } else {
        let end = run_end(input, pos, Run::Decimal);
        if byte_at(input, end) == 0x2E {
            (Kind::NumberFloat, run_end(input, end + 1, Run::Decimal))
        } else {
            (Kind::NumberDec, end)
        }
    }
}

/// What the scanner makes of an identifier whose first byte ends at `pos`.
///
/// The body runs to the end of the text, to white space or to punctuation
/// other than a hyphen. After a backslash it is an identifier whatever it
/// spells; otherwise it is the keyword that it spells, or an identifier if
/// it spells none.
pub open spec fn ident_at(input: Seq<u8>, pos: int, after_backslash: bool) -> (Kind, int) {
    let start = if pos > 0 {
        pos - 1
    } else {
        0
    };
    let end = run_end(input, pos, Run::Ident);
    if after_backslash {
        (Kind::Ident, end)
    } else {
        match Kind::keyword(input.subrange(start, end)) {
            Some(kind) => (kind, end),
            None => (Kind::Ident, end),
        }
    }
}

/// The kind of the token that begins at `pos`, and the position at which it
/// ends. At the end of the text, and at a byte that ends the text, the
/// token is of the kind that stands for the end.
pub open spec fn token_at(input: Seq<u8>, pos: int, after_backslash: bool) -> (Kind, int) {
    if pos < 0 || pos >= input.len() {
        (Kind::Eof, pos)
    } else {
        let first = input[pos];
        let next = pos + 1;
        if first == EOF {
            (Kind::Eof, next)
        } else if spec_is_ascii_whitespace(first) {
            (Kind::Whitespace, run_end(input, next, Run::Whitespace))
        } else if first == 0x23 {
            (Kind::Comment, run_end(input, next, Run::Comment))
        } else if first == 0x22 {
            string_at(input, next)
        } else if first == 0x30 {
            number_at(input, next, true)
        } else if 0x31 <= first <= 0x39 {
            number_at(input, next, false)
        } else if first == 0x3B {
            (Kind::Semi, next)
        } else if first == 0x2C {
            (Kind::Comma, next)
        } else if first == 0x40 {
            (Kind::NamedGlyphClass, run_end(input, next, Run::Ident))
        } else if first == 0x5C {
            (Kind::Backslash, next)
        } else if first == 0x2D {
            (Kind::Hyphen, next)
        } else if first == 0x3D {
            (Kind::Eq, next)
        } else if first == 0x7B {
            (Kind::LBrace, next)
        } else if first == 0x7D {
            (Kind::RBrace, next)
        } else if first == 0x5B {
            (Kind::LSquare, next)
        } else if first == 0x5D {
            (Kind::RSquare, next)
        } else if first == 0x28 {
            (Kind::LParen, next)
        } else if first == 0x29 {
            (Kind::RParen, next)
        } else if first == 0x3C {
            (Kind::LAngle, next)
        } else if first == 0x3E {
            (Kind::RAngle, next)
        } else if first == 0x27 {
            (Kind::SingleQuote, next)
        } else {
            ident_at(input, next, after_backslash)
        }
    }
}

/// The tokens of the text from `pos` on, up to the end of the text or to
/// the first byte that ends it.
pub open spec fn tokens_from(input: Seq<u8>, pos: int, after_backslash: bool) -> Seq<Token>
    decreases input.len() - pos,
{
    let (kind, end) = token_at(input, pos, after_backslash);
    if kind == Kind::Eof || end <= pos || pos < 0 || end > input.len() {
        Seq::empty()
    } else {
        seq![Token { len: (end - pos) as usize, kind }] + tokens_from(
            input,
            end,
            kind == Kind::Backslash,
        )
    }
}

/// The number of bytes that the tokens cover.
pub open spec fn total_len(tokens: Seq<Token>) -> int
    decreases tokens.len(),
{
    if tokens.len() == 0 {
        0
    } else {
        tokens[0].len + total_len(tokens.subrange(1, tokens.len() as int))
    }
}

/// A run ends within the text, holds only bytes of its kind, and ends where
/// the next byte is not of its kind.
pub proof fn lemma_run_end(input: Seq<u8>, from: int, run: Run)
    requires
        0 <= from <= input.len(),
    ensures
        from <= run_end(input, from, run) <= input.len(),
        forall|i: int| from <= i < run_end(input, from, run) ==> run.admits(#[trigger] input[i]),
        !run.admits(byte_at(input, run_end(input, from, run))),
    decreases input.len() - from,
{
    if from < input.len() && run.admits(input[from]) {
        lemma_run_end(input, from + 1, run);
    }
}

/// A token other than the end covers at least one byte, ends within the
/// text, and covers no byte that ends the text.
#[verifier::rlimit(40)]
pub proof fn lemma_token_at(input: Seq<u8>, pos: int, after_backslash: bool)
    requires
        0 <= pos <= input.len(),
    ensures
        pos <= token_at(input, pos, after_backslash).1 <= input.len(),
        token_at(input, pos, after_backslash).0 == Kind::Eof ==> pos == input.len() || input[pos]
            == EOF,
        token_at(input, pos, after_backslash).0 != Kind::Eof ==> pos < token_at(
            input,
            pos,
            after_backslash,
        ).1 && forall|i: int|
            pos <= i < token_at(input, pos, after_backslash).1 ==> #[trigger] input[i] != EOF,
{
    if pos < input.len() {
        let next = pos + 1;
        lemma_run_end(input, next, Run::Whitespace);
        lemma_run_end(input, next, Run::Comment);
        lemma_run_end(input, next, Run::StringBody);
        lemma_run_end(input, next, Run::Decimal);
        lemma_run_end(input, next, Run::Ident);
        if next < input.len() {
            lemma_run_end(input, next + 1, Run::Hex);
        }
        let digits = run_end(input, next, Run::Decimal);
        if digits < input.len() {
            lemma_run_end(input, digits + 1, Run::Decimal);
        }
        lemma_keyword_is_keyword(
            input.subrange(
                if next > 0 {
                    next - 1
                } else {
                    0
                },
                run_end(input, next, Run::Ident),
            ),
        );
    }
}

/// The keyword table gives keyword kinds only: never the kind that stands
/// for the end of the text.
pub proof fn lemma_keyword_is_keyword(word: Seq<u8>)
    ensures
        Kind::keyword(word) != Some(Kind::Eof),
{
    reveal(Kind::keyword);
}

/// The scanner gives lexical kinds and keywords only: never the kind of a
/// name that may be a range of glyphs, which is given later, to identifiers
/// where a glyph is expected.
pub proof fn lemma_lexer_kinds(input: Seq<u8>, pos: int, after_backslash: bool)
    ensures
        token_at(input, pos, after_backslash).0 != Kind::GlyphNameOrRange,
{
    reveal(Kind::keyword);
}

/// The tokens of a text cover it without gaps from its beginning to its
/// end, or to the first byte that ends the text: their lengths add up to
/// the length of that stretch.
pub proof fn lemma_tokens_cover(input: Seq<u8>, pos: int, after_backslash: bool)
    requires
        0 <= pos <= input.len() <= usize::MAX,
    ensures
        pos + total_len(tokens_from(input, pos, after_backslash)) == run_end(input, pos, Run::Text),
    decreases input.len() - pos,
{
    let (kind, end) = token_at(input, pos, after_backslash);
    lemma_token_at(input, pos, after_backslash);
    lemma_run_end(input, pos, Run::Text);
    if kind == Kind::Eof {
        assert(tokens_from(input, pos, after_backslash) =~= Seq::empty());
        assert(total_len(tokens_from(input, pos, after_backslash)) == 0);
    } else {
        let rest = tokens_from(input, end, kind == Kind::Backslash);
        let all = tokens_from(input, pos, after_backslash);
        assert(all =~= seq![Token { len: (end - pos) as usize, kind }] + rest);
        assert(all[0].len == end - pos);
        assert(all.subrange(1, all.len() as int) =~= rest);
        lemma_tokens_cover(input, end, kind == Kind::Backslash);
        lemma_text_run(input, pos, end);
    }
}

/// A stretch without a byte that ends the text does not end the run of
/// text: the run that begins before it ends where the run that begins
/// after it ends.
pub proof fn lemma_text_run(input: Seq<u8>, from: int, to: int)
    requires
        0 <= from <= to <= input.len(),
        forall|i: int| from <= i < to ==> #[trigger] input[i] != EOF,
    ensures
        run_end(input, from, Run::Text) == run_end(input, to, Run::Text),
    decreases to - from,
{
    if from < to {
        lemma_text_run(input, from + 1, to);
    }
}

/// Whether the byte is punctuation that ends an identifier.
#[verifier::when_used_as_spec(spec_is_special)]
pub fn is_special(byte: u8) -> (r: bool)
    ensures
        r == spec_is_special(byte),
{
    (39 <= byte && byte <= 45) || (59 <= byte && byte <= 64) || (91 <= byte && byte <= 93) || byte
        == 123 || byte == 125
}

/// Whether the byte is white space.
#[verifier::when_used_as_spec(spec_is_ascii_whitespace)]
pub fn is_ascii_whitespace(byte: u8) -> (r: bool)
    ensures
        r == spec_is_ascii_whitespace(byte),
{
    byte == 0x20 || (0x9 <= byte && byte <= 0xD)
}

impl<'a> Lexer<'a> {
    /// The bytes of the text.
    pub closed spec fn input(&self) -> Seq<u8> {
        self.input.spec_bytes()
    }

    /// The position of the next byte.
    pub closed spec fn pos(&self) -> int {
        self.pos as int
    }

    /// Whether the token before was a backslash.
    pub closed spec fn after_backslash(&self) -> bool {
        self.after_backslash
    }

    /// Whether the position lies within the text or at its end.
    pub open spec fn wf(&self) -> bool {
        0 <= self.pos() <= self.input().len()
    }

    /// Whether the scanner is `before` moved on to the position `pos`.
    pub open spec fn is_at(&self, before: &Lexer<'a>, pos: int) -> bool {
        &&& self.input() == before.input()
        &&& self.after_backslash() == before.after_backslash()
        &&& self.pos() == pos
    }

    /// A scanner at the beginning of the text.
    pub fn new(input: &'a str) -> (r: Self)
        ensures
            r.input() == input.spec_bytes(),
            r.pos() == 0,
            !r.after_backslash(),
            r.wf(),
    {
        Lexer { input, pos: 0, after_backslash: false }
    }

    /// The position of the next byte.
    pub fn position(&self) -> (r: usize)
        ensures
            r == self.pos(),
    {
        self.pos
    }

    /// The byte `index` places after the next byte, or the byte that ends
    /// the text where the text has ended.
    pub fn nth(&self, index: usize) -> (r: u8)
        requires
            self.pos() + index <= usize::MAX,
        ensures
            r == byte_at(self.input(), self.pos() + index),
    {
        let bytes = self.input.as_bytes();
        let at = self.pos + index;
        if at < bytes.len() {
            bytes[at]
        } else {
            EOF
        }
    }

    /// Takes the next byte, if the text has not ended.
    pub fn bump(&mut self) -> (r: Option<u8>)
        requires
            old(self).wf(),
        ensures
            final(self).wf(),
            old(self).pos() < old(self).input().len() ==> r == Some(
                old(self).input()[old(self).pos()],
            ) && final(self).is_at(old(self), old(self).pos() + 1),
            old(self).pos() >= old(self).input().len() ==> r is None && final(self).is_at(
                old(self),
                old(self).pos(),
            ),
    {
        let bytes = self.input.as_bytes();
        if self.pos < bytes.len() {
            let byte = bytes[self.pos];
            self.pos += 1;
            Some(byte)
        } else {
            None
        }
    }

    /// Takes the longest run of the given kind.
    fn eat_while(&mut self, run: Run)
        requires
            old(self).wf(),
        ensures
            final(self).wf(),
            final(self).is_at(old(self), run_end(old(self).input(), old(self).pos(), run)),
    {
        let bytes = self.input.as_bytes();
        while self.pos < bytes.len() && run.accepts(bytes[self.pos])
            invariant
                bytes@ == self.input(),
                self.wf(),
                self.input() == old(self).input(),
                self.after_backslash() == old(self).after_backslash(),
                run_end(self.input(), self.pos(), run) == run_end(
                    old(self).input(),
                    old(self).pos(),
                    run,
                ),
            decreases self.input().len() - self.pos(),
        {
            self.pos += 1;
        }
    }

    /// The token that begins at the next byte. At the end of the text, and
    /// at a byte that ends the text, it is of the kind that stands for the
    /// end.
    #[verifier::rlimit(40)]
    pub fn next_token(&mut self) -> (r: Token)
        requires
            old(self).wf(),
        ensures
            final(self).wf(),
            final(self).input() == old(self).input(),
            final(self).pos() == old(self).pos() + r.len,
            final(self).after_backslash() == (r.kind == Kind::Backslash),
            (r.kind, final(self).pos()) == token_at(
                old(self).input(),
                old(self).pos(),
                old(self).after_backslash(),
            ),
    {
        let start_pos = self.pos;
        let first = match self.bump() {
            Some(byte) => byte,
            None => {
                self.after_backslash = false;
                return Token { len: 0, kind: Kind::Eof };
            },
        };
        proof {
            lemma_token_at(old(self).input(), old(self).pos(), old(self).after_backslash());
        }
        let kind = if first == EOF {
            Kind::Eof
        } else if is_ascii_whitespace(first) {
            self.whitespace()
        } else if first == 0x23 {
            self.comment()
        } else if first == 0x22 {
            self.string()
        } else if first == 0x30 {
            self.number(true)
        } else if 0x31 <= first && first <= 0x39 {
            self.number(false)
        } else if first == 0x3B {
            Kind::Semi
        } else if first == 0x2C {
            Kind::Comma
        } else if first == 0x40 {
            self.glyph_class_name()
        } else if first == 0x5C {
            Kind::Backslash
        } else if first == 0x2D {
            Kind::Hyphen
        } else if first == 0x3D {
            Kind::Eq
        } else if first == 0x7B {
            Kind::LBrace
        } else if first == 0x7D {
            Kind::RBrace
        } else if first == 0x5B {
            Kind::LSquare
        } else if first == 0x5D {
            Kind::RSquare
        } else if first == 0x28 {
            Kind::LParen
        } else if first == 0x29 {
            Kind::RParen
        } else if first == 0x3C {
            Kind::LAngle
        } else if first == 0x3E {
            Kind::RAngle
        } else if first == 0x27 {
            Kind::SingleQuote
        } else {
            self.ident()
        };
        self.after_backslash = kind == Kind::Backslash;
        let len = self.pos - start_pos;
        Token { len, kind }
    }

    /// Takes white space.
    pub fn whitespace(&mut self) -> (r: Kind)
        requires
            old(self).wf(),
        ensures
            final(self).wf(),
            r == Kind::Whitespace,
            final(self).is_at(old(self), run_end(old(self).input(), old(self).pos(), Run::Whitespace)),
    {
        self.eat_while(Run::Whitespace);
        Kind::Whitespace
    }

    /// Takes the rest of the line, without the byte that ends the line.
    pub fn comment(&mut self) -> (r: Kind)
        requires
            old(self).wf(),
        ensures
            final(self).wf(),
            r == Kind::Comment,
            final(self).is_at(old(self), run_end(old(self).input(), old(self).pos(), Run::Comment)),
    {
        self.eat_while(Run::Comment);
        Kind::Comment
    }

    /// Takes a string up to and with its closing quote, or up to the end of
    /// the text.
    pub fn string(&mut self) -> (r: Kind)
        requires
            old(self).wf(),
        ensures
            final(self).wf(),
            r == string_at(old(self).input(), old(self).pos()).0,
            final(self).is_at(old(self), string_at(old(self).input(), old(self).pos()).1),
    {
        self.eat_while(Run::StringBody);
        if self.nth(0) == 0x22 {
            self.bump();
            Kind::String
        } else {
            Kind::StringUnterminated
        }
    }

    /// Takes a number after its first digit.
    pub fn number(&mut self, leading_zero: bool) -> (r: Kind)
        requires
            old(self).wf(),
        ensures
            final(self).wf(),
            r == number_at(old(self).input(), old(self).pos(), leading_zero).0,
            final(self).is_at(
                old(self),
                number_at(old(self).input(), old(self).pos(), leading_zero).1,
            ),
    {
        let next = self.nth(0);
        if leading_zero && (next == 0x78 || next == 0x58) {
            self.bump();
            if Run::Hex.accepts(self.nth(0)) {
                self.eat_hex_digits();
                Kind::NumberHex
            } else {
                Kind::NumberHexEmpty
            }
        } else {
            self.eat_decimal_digits();
            if self.nth(0) == 0x2E {
                self.bump();
                self.eat_decimal_digits();
                Kind::NumberFloat
            } else {
                Kind::NumberDec
            }
        }
    }

    /// Takes hexadecimal digits.
    pub fn eat_hex_digits(&mut self)
        requires
            old(self).wf(),
        ensures
            final(self).wf(),
            final(self).is_at(old(self), run_end(old(self).input(), old(self).pos(), Run::Hex)),
    {
        self.eat_while(Run::Hex);
    }

    /// Takes decimal digits.
    pub fn eat_decimal_digits(&mut self)
        requires
            old(self).wf(),
        ensures
            final(self).wf(),
            final(self).is_at(old(self), run_end(old(self).input(), old(self).pos(), Run::Decimal)),
    {
        self.eat_while(Run::Decimal);
    }

    /// Takes the name of a glyph class after its `@`.
    pub fn glyph_class_name(&mut self) -> (r: Kind)
        requires
            old(self).wf(),
        ensures
            final(self).wf(),
            r == Kind::NamedGlyphClass,
            final(self).is_at(old(self), run_end(old(self).input(), old(self).pos(), Run::Ident)),
    {
        self.eat_ident();
        Kind::NamedGlyphClass
    }

    /// Takes the body of an identifier: everything up to the end of the
    /// text, to white space or to punctuation other than a hyphen.
    pub fn eat_ident(&mut self)
        requires
            old(self).wf(),
        ensures
            final(self).wf(),
            final(self).is_at(old(self), run_end(old(self).input(), old(self).pos(), Run::Ident)),
    {
        self.eat_while(Run::Ident);
    }

    /// Takes an identifier after its first byte, and tells whether it is a
    /// keyword.
    pub fn ident(&mut self) -> (r: Kind)
        requires
            old(self).wf(),
        ensures
            final(self).wf(),
            r == ident_at(old(self).input(), old(self).pos(), old(self).after_backslash()).0,
            final(self).is_at(
                old(self),
                ident_at(old(self).input(), old(self).pos(), old(self).after_backslash()).1,
            ),
    {
        let start_pos = if self.pos > 0 {
            self.pos - 1
        } else {
            0
        };
        self.eat_ident();
        proof {
            lemma_run_end(old(self).input(), old(self).pos(), Run::Ident);
        }
        if self.after_backslash {
            return Kind::Ident;
        }
        let bytes = self.input.as_bytes();
        let raw_token = slice_subrange(bytes, start_pos, self.pos);
        match Kind::from_keyword(raw_token) {
            Some(kind) => kind,
            None => Kind::Ident,
        }
    }
}

/// The tokens of the text, up to its end or to the first byte that ends it.
#[verifier::rlimit(40)]
pub fn tokenize(text: &str) -> (r: Vec<Token>)
    ensures
        r@ == tokens_from(text.spec_bytes(), 0, false),
{
    let mut lexer = Lexer::new(text);
    let mut tokens: Vec<Token> = Vec::new();
    let ghost input = text.spec_bytes();
    let size = text.as_bytes().len();
    assert(tokens@ + tokens_from(input, 0, false) =~= tokens_from(input, 0, false));
    loop
        invariant
            lexer.wf(),
            lexer.input() == input,
            input == text.spec_bytes(),
            input.len() == size,
            tokens_from(input, 0, false) == tokens@ + tokens_from(
                input,
                lexer.pos(),
                lexer.after_backslash(),
            ),
        decreases input.len() - lexer.pos(),
    {
        let ghost before = lexer.pos();
        let ghost flag = lexer.after_backslash();
        proof {
            lemma_token_at(input, before, flag);
        }
        let ghost found = tokens@;
        let next = lexer.next_token();
        if next.kind == Kind::Eof {
            assert(tokens_from(input, before, flag) =~= Seq::empty());
            assert(tokens@ + Seq::<Token>::empty() =~= tokens@);
            return tokens;
        }
        tokens.push(next);
        proof {
            let rest = tokens_from(input, lexer.pos(), lexer.after_backslash());
            assert(tokens_from(input, before, flag) =~= seq![next] + rest);
            assert(found + (seq![next] + rest) =~= tokens@ + rest);
        }
    }
}

} // verus!
