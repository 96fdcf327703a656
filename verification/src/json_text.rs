//! The tokens of JSON text: punctuation, strings, and the scalars (numbers,
//! `true`, `false`, `null`), with white space between them.
//!
//! Strings are byte strings. A byte of `0x80` or more stands for itself, so
//! text in any encoding passes through; an escape `\uXXXX` stands for the
//! UTF-8 form of its code point.

use vstd::prelude::*;

verus! {

/// The byte of `s` at `pos`, or -1 where `pos` lies outside `s`.
pub open spec fn byte_at(s: Seq<u8>, pos: int) -> int {
    if 0 <= pos < s.len() {
        s[pos] as int
    } else {
        -1
    }
}

/// Space, tab, line feed and carriage return.
pub open spec fn is_space(b: int) -> bool {
    b == 0x20 || b == 0x09 || b == 0x0a || b == 0x0d
}

/// The decimal digits.
pub open spec fn is_digit(b: int) -> bool {
    0x30 <= b <= 0x39
}

/// The number of white-space bytes that stand at `pos`.
pub open spec fn space_run(s: Seq<u8>, pos: int) -> nat
    decreases s.len() - pos,
{
    if is_space(byte_at(s, pos)) {
        1 + space_run(s, pos + 1)
    } else {
        0
    }
}

/// The number of digits that stand at `pos`.
pub open spec fn digit_run(s: Seq<u8>, pos: int) -> nat
    decreases s.len() - pos,
{
    if is_digit(byte_at(s, pos)) {
        1 + digit_run(s, pos + 1)
    } else {
        0
    }
}

/// The position behind the digits of a number's integer part, which starts at
/// `pos`: a single zero, or a digit from 1 to 9 and any digits after it.
pub open spec fn integer_end(s: Seq<u8>, pos: int) -> Option<int> {
    if byte_at(s, pos) == 0x30 {
        Some(pos + 1)
    } else if is_digit(byte_at(s, pos)) {
        Some(pos + digit_run(s, pos))
    } else {
        None
    }
}

/// The position behind a number's fraction, where one starts at `pos`: a
/// point and one digit or more. Without a point the fraction is empty.
pub open spec fn fraction_end(s: Seq<u8>, pos: int) -> Option<int> {
    if byte_at(s, pos) != 0x2e {
        Some(pos)
    } else if digit_run(s, pos + 1) == 0 {
        None
    } else {
        Some(pos + 1 + digit_run(s, pos + 1))
    }
}

/// The position behind a number's exponent, where one starts at `pos`: `e` or
/// `E`, a sign or none, and one digit or more.
pub open spec fn exponent_end(s: Seq<u8>, pos: int) -> Option<int> {
    if byte_at(s, pos) != 0x65 && byte_at(s, pos) != 0x45 {
        Some(pos)
    } else {
        let digits = if byte_at(s, pos + 1) == 0x2b || byte_at(s, pos + 1) == 0x2d {
            pos + 2
        } else {
            pos + 1
        };
        if digit_run(s, digits) == 0 {
            None
        } else {
            Some(digits + digit_run(s, digits))
        }
    }
}

/// The position behind the number that starts at `pos`, or `None` where none
/// does: a minus sign or none, an integer part, a fraction or none, an
/// exponent or none.
pub open spec fn number_end(s: Seq<u8>, pos: int) -> Option<int> {
    let start = if byte_at(s, pos) == 0x2d {
        pos + 1
    } else {
        pos
    };
    match integer_end(s, start) {
        None => None,
        Some(pos1) => match fraction_end(s, pos1) {
            None => None,
            Some(pos2) => exponent_end(s, pos2),
        },
    }
}

/// The value of a hexadecimal digit, or -1 for any other byte.
pub open spec fn hex_value(b: int) -> int {
    if 0x30 <= b <= 0x39 {
        b - 0x30
    } else if 0x41 <= b <= 0x46 {
        b - 0x41 + 10
    } else if 0x61 <= b <= 0x66 {
        b - 0x61 + 10
    } else {
        -1
    }
}

/// The value of the four hexadecimal digits at `pos`, or `None` where four
/// such digits do not stand there.
pub open spec fn hex4(s: Seq<u8>, pos: int) -> Option<int> {
    let a = hex_value(byte_at(s, pos));
    let b = hex_value(byte_at(s, pos + 1));
    let c = hex_value(byte_at(s, pos + 2));
    let d = hex_value(byte_at(s, pos + 3));
    if a < 0 || b < 0 || c < 0 || d < 0 {
        None
    } else {
        Some(a * 0x1000 + b * 0x100 + c * 0x10 + d)
    }
}

/// The UTF-8 form of a code point.
pub open spec fn utf8(cp: int) -> Seq<u8> {
    if cp < 0x80 {
        seq![cp as u8]
    } else if cp < 0x800 {
        seq![(0xc0 + cp / 0x40) as u8, (0x80 + cp % 0x40) as u8]
    } else if cp < 0x1_0000 {
        seq![(0xe0 + cp / 0x1000) as u8, (0x80 + cp / 0x40 % 0x40) as u8, (0x80 + cp % 0x40) as u8]
    } else {
        seq![
            (0xf0 + cp / 0x4_0000) as u8,
            (0x80 + cp / 0x1000 % 0x40) as u8,
            (0x80 + cp / 0x40 % 0x40) as u8,
            (0x80 + cp % 0x40) as u8,
        ]
    }
}

/// What the escape `\uXXXX` at `pos` stands for, and the position behind it.
/// A high surrogate takes the low surrogate that must follow it, and the two
/// stand for one code point; a surrogate alone is an error.
pub open spec fn unicode_escape(s: Seq<u8>, pos: int) -> Option<(Seq<u8>, int)> {
    match hex4(s, pos + 2) {
        None => None,
        Some(first) => if 0xd800 <= first < 0xdc00 {
            if byte_at(s, pos + 6) == 0x5c && byte_at(s, pos + 7) == 0x75 {
                match hex4(s, pos + 8) {
                    None => None,
                    Some(second) => if 0xdc00 <= second < 0xe000 {
                        Some(
                            (
                                utf8(0x1_0000 + (first - 0xd800) * 0x400 + (second - 0xdc00)),
                                pos + 12,
                            ),
                        )
                    } else {
                        None
                    },
                }
            } else {
                None
            }
        } else if 0xdc00 <= first < 0xe000 {
            None
        } else {
            Some((utf8(first), pos + 6))
        },
    }
}

/// What the byte or escape at `pos` inside a string stands for, and the
/// position behind it. Control bytes must be escaped.
pub open spec fn string_unit(s: Seq<u8>, pos: int) -> Option<(Seq<u8>, int)> {
    let b = byte_at(s, pos);
    if b < 0x20 {
        None
    } else if b != 0x5c {
        Some((seq![b as u8], pos + 1))
    } else {
        let e = byte_at(s, pos + 1);
        if e == 0x22 || e == 0x5c || e == 0x2f {
            Some((seq![e as u8], pos + 2))
        } else if e == 0x62 {
            Some((seq![0x08u8], pos + 2))
        } else if e == 0x66 {
            Some((seq![0x0cu8], pos + 2))
        } else if e == 0x6e {
            Some((seq![0x0au8], pos + 2))
        } else if e == 0x72 {
            Some((seq![0x0du8], pos + 2))
        } else if e == 0x74 {
            Some((seq![0x09u8], pos + 2))
        } else if e == 0x75 {
            unicode_escape(s, pos)
        } else {
            None
        }
    }
}

/// The text of the string whose first byte behind the opening quote stands at
/// `pos`, and the position behind the closing quote.
pub open spec fn string_body(s: Seq<u8>, pos: int) -> Option<(Seq<u8>, int)>
    decreases s.len() - pos,
{
    if byte_at(s, pos) == 0x22 {
        Some((Seq::empty(), pos + 1))
    } else {
        match string_unit(s, pos) {
            None => None,
            Some((unit, next)) => match string_body(s, next) {
                None => None,
                Some((rest, end)) => Some((unit + rest, end)),
            },
        }
    }
}

/// A token, as a mathematical value.
pub enum TokenView {
    /// `{` where the flag is true, `[` where it is false.
    Open(bool),
    /// `}` where the flag is true, `]` where it is false.
    Close(bool),
    Colon,
    Comma,
    /// A string, with what it stands for.
    Text(Seq<u8>),
    /// A number, `true`, `false` or `null`.
    Scalar,
}

/// What stands at a position of JSON text.
pub enum Lexed {
    /// A token, and the position behind it.
    Token(TokenView, int),
    /// Nothing but white space up to the end.
    End,
    /// No token.
    Bad,
}

/// Whether the word `a b c d` stands at `pos`.
pub open spec fn word4(s: Seq<u8>, pos: int, a: u8, b: u8, c: u8, d: u8) -> bool {
    byte_at(s, pos) == a && byte_at(s, pos + 1) == b && byte_at(s, pos + 2) == c && byte_at(
        s,
        pos + 3,
    ) == d
}

/// The token that starts at `pos`, which holds no white space.
pub open spec fn token_at(s: Seq<u8>, pos: int) -> Lexed {
    let b = byte_at(s, pos);
    if b < 0 {
        Lexed::End
    } else if b == 0x7b {
        Lexed::Token(TokenView::Open(true), pos + 1)
    } else if b == 0x7d {
        Lexed::Token(TokenView::Close(true), pos + 1)
    } else if b == 0x5b {
        Lexed::Token(TokenView::Open(false), pos + 1)
    } else if b == 0x5d {
        Lexed::Token(TokenView::Close(false), pos + 1)
    } else if b == 0x3a {
        Lexed::Token(TokenView::Colon, pos + 1)
    } else if b == 0x2c {
        Lexed::Token(TokenView::Comma, pos + 1)
    } else if b == 0x22 {
        match string_body(s, pos + 1) {
            None => Lexed::Bad,
            Some((text, end)) => Lexed::Token(TokenView::Text(text), end),
        }
    } else if b == 0x2d || is_digit(b) {
        match number_end(s, pos) {
            None => Lexed::Bad,
            Some(end) => Lexed::Token(TokenView::Scalar, end),
        }
    } else if word4(s, pos, 0x74, 0x72, 0x75, 0x65) || word4(s, pos, 0x6e, 0x75, 0x6c, 0x6c) {
        Lexed::Token(TokenView::Scalar, pos + 4)
    } else if word4(s, pos, 0x66, 0x61, 0x6c, 0x73) && byte_at(s, pos + 4) == 0x65 {
        Lexed::Token(TokenView::Scalar, pos + 5)
    } else {
        Lexed::Bad
    }
}

/// The token at or behind `pos`, white space skipped.
pub open spec fn lex(s: Seq<u8>, pos: int) -> Lexed {
    token_at(s, pos + space_run(s, pos))
}

/// A token.
#[derive(Debug)]
pub enum Token {
    Open(bool),
    Close(bool),
    Colon,
    Comma,
    Text(Vec<u8>),
    Scalar,
}

impl View for Token {
    type V = TokenView;

    open spec fn view(&self) -> TokenView {
        match self {
            Token::Open(object) => TokenView::Open(*object),
            Token::Close(object) => TokenView::Close(*object),
            Token::Colon => TokenView::Colon,
            Token::Comma => TokenView::Comma,
            Token::Text(text) => TokenView::Text(text@),
            Token::Scalar => TokenView::Scalar,
        }
    }
}

/// What the lexer found.
#[derive(Debug)]
pub enum Scan {
    Token(Token, usize),
    End,
    Bad,
}

impl View for Scan {
    type V = Lexed;

    open spec fn view(&self) -> Lexed {
        match self {
            Scan::Token(token, next) => Lexed::Token(token@, *next as int),
            Scan::End => Lexed::End,
            Scan::Bad => Lexed::Bad,
        }
    }
}

/// A run of white space ends inside `s` or at its end.
pub proof fn lemma_space_run(s: Seq<u8>, pos: int)
    requires
        0 <= pos <= s.len(),
    ensures
        pos + space_run(s, pos) <= s.len(),
        !is_space(byte_at(s, pos + space_run(s, pos))),
    decreases s.len() - pos,
{
    if is_space(byte_at(s, pos)) {
        lemma_space_run(s, pos + 1);
    }
}

/// A run of digits ends inside `s` or at its end.
pub proof fn lemma_digit_run(s: Seq<u8>, pos: int)
    requires
        0 <= pos <= s.len(),
    ensures
        pos + digit_run(s, pos) <= s.len(),
        !is_digit(byte_at(s, pos + digit_run(s, pos))),
    decreases s.len() - pos,
{
    if is_digit(byte_at(s, pos)) {
        lemma_digit_run(s, pos + 1);
    }
}

/// Skips white space.
pub(crate) fn skip_spaces(s: &[u8], pos: usize) -> (r: usize)
    requires
        pos <= s.len(),
    ensures
        r == pos + space_run(s@, pos as int),
        r <= s.len(),
{
    let mut i: usize = pos;
    while i < s.len() && (s[i] == 0x20 || s[i] == 0x09 || s[i] == 0x0a || s[i] == 0x0d)
        invariant
            pos <= i <= s.len(),
            pos + space_run(s@, pos as int) == i + space_run(s@, i as int),
        decreases s.len() - i,
    {
        i = i + 1;
    }
    i
}

/// Skips digits.
pub(crate) fn skip_digits(s: &[u8], pos: usize) -> (r: usize)
    requires
        pos <= s.len(),
    ensures
        r == pos + digit_run(s@, pos as int),
        r <= s.len(),
{
    let mut i: usize = pos;
    while i < s.len() && 0x30 <= s[i] && s[i] <= 0x39
        invariant
            pos <= i <= s.len(),
            pos + digit_run(s@, pos as int) == i + digit_run(s@, i as int),
        decreases s.len() - i,
    {
        i = i + 1;
    }
    i
}

/// Tells whether the byte `b` stands at `pos`.
pub(crate) fn byte_is(s: &[u8], pos: usize, b: u8) -> (r: bool)
    ensures
        r == (byte_at(s@, pos as int) == b),
{
    pos < s.len() && s[pos] == b
}

/// Finds the end of the number that starts at `pos`.
pub(crate) fn scan_number(s: &[u8], pos: usize) -> (r: Option<usize>)
    requires
        pos < s.len(),
    ensures
        match r {
            Some(end) => number_end(s@, pos as int) == Some(end as int) && pos < end <= s.len(),
            None => number_end(s@, pos as int).is_none(),
        },
{
    let start = if s[pos] == 0x2d {
        pos + 1
    } else {
        pos
    };
    if start >= s.len() || !(0x30 <= s[start] && s[start] <= 0x39) {
        return None;
    }
    let pos1 = if s[start] == 0x30 {
        start + 1
    } else {
        skip_digits(s, start)
    };
    let pos2 = if byte_is(s, pos1, 0x2e) {
        let end = skip_digits(s, pos1 + 1);
        if end == pos1 + 1 {
            return None;
        }
        end
    } else {
        pos1
    };
    if byte_is(s, pos2, 0x65) || byte_is(s, pos2, 0x45) {
        let digits = if byte_is(s, pos2 + 1, 0x2b) || byte_is(s, pos2 + 1, 0x2d) {
            pos2 + 2
        } else {
            pos2 + 1
        };
        if digits > s.len() {
            return None;
        }
        let end = skip_digits(s, digits);
        if end == digits {
            return None;
        }
        Some(end)
    } else {
        Some(pos2)
    }
}

/// Reads the value of a hexadecimal digit.
pub(crate) fn hex_digit(s: &[u8], pos: usize) -> (r: Option<u32>)
    ensures
        match r {
            Some(v) => v == hex_value(byte_at(s@, pos as int)) && v < 16,
            None => hex_value(byte_at(s@, pos as int)) < 0,
        },
{
    if pos >= s.len() {
        return None;
    }
    let b = s[pos];
    if 0x30 <= b && b <= 0x39 {
        Some((b - 0x30) as u32)
    } else if 0x41 <= b && b <= 0x46 {
        Some((b - 0x41 + 10) as u32)
    } else if 0x61 <= b && b <= 0x66 {
        Some((b - 0x61 + 10) as u32)
    } else {
        None
    }
}

/// Reads four hexadecimal digits.
pub(crate) fn scan_hex4(s: &[u8], pos: usize) -> (r: Option<u32>)
    requires
        pos <= s.len(),
    ensures
        match r {
            Some(v) => hex4(s@, pos as int) == Some(v as int) && v < 0x1_0000 && pos + 4
                <= s.len(),
            None => hex4(s@, pos as int).is_none(),
        },
{
    if s.len() - pos < 4 {
        return None;
    }
    match hex_digit(s, pos) {
        None => None,
        Some(a) => match hex_digit(s, pos + 1) {
            None => None,
            Some(b) => match hex_digit(s, pos + 2) {
                None => None,
                Some(c) => match hex_digit(s, pos + 3) {
                    None => None,
                    Some(d) => Some(a * 0x1000 + b * 0x100 + c * 0x10 + d),
                },
            },
        },
    }
}

/// Appends the UTF-8 form of a code point.
pub(crate) fn push_utf8(out: &mut Vec<u8>, cp: u32)
    requires
        cp < 0x11_0000,
    ensures
        final(out)@ == old(out)@ + utf8(cp as int),
{
    let ghost before = out@;
    if cp < 0x80 {
        out.push(cp as u8);
    } else if cp < 0x800 {
        out.push((0xc0 + cp / 0x40) as u8);
        out.push((0x80 + cp % 0x40) as u8);
    } else if cp < 0x1_0000 {
        out.push((0xe0 + cp / 0x1000) as u8);
        out.push((0x80 + cp / 0x40 % 0x40) as u8);
        out.push((0x80 + cp % 0x40) as u8);
    } else {
        out.push((0xf0 + cp / 0x4_0000) as u8);
        out.push((0x80 + cp / 0x1000 % 0x40) as u8);
        out.push((0x80 + cp / 0x40 % 0x40) as u8);
        out.push((0x80 + cp % 0x40) as u8);
    }
    assert(out@ =~= before + utf8(cp as int));
}

/// Reads the escape `\uXXXX` at `pos` and appends what it stands for.
pub(crate) fn scan_unicode_escape(s: &[u8], pos: usize, out: &mut Vec<u8>) -> (r: Option<usize>)
    requires
        pos + 2 <= s.len(),
    ensures
        match r {
            Some(next) => match unicode_escape(s@, pos as int) {
                Some((unit, end)) => final(out)@ == old(out)@ + unit && end == next && pos < next
                    <= s.len(),
                None => false,
            },
            None => unicode_escape(s@, pos as int).is_none(),
        },
{
    match scan_hex4(s, pos + 2) {
        None => None,
        Some(first) => {
            if 0xd800 <= first && first < 0xdc00 {
                if byte_is(s, pos + 6, 0x5c) && byte_is(s, pos + 7, 0x75) {
                    match scan_hex4(s, pos + 8) {
                        None => None,
                        Some(second) => {
                            if 0xdc00 <= second && second < 0xe000 {
                                push_utf8(
                                    out,
                                    0x1_0000 + (first - 0xd800) * 0x400 + (second - 0xdc00),
                                );
                                Some(pos + 12)
                            } else {
                                None
                            }
                        },
                    }
                } else {
                    None
                }
            } else if 0xdc00 <= first && first < 0xe000 {
                None
            } else {
                push_utf8(out, first);
                Some(pos + 6)
            }
        },
    }
}

/// Reads the byte or escape at `pos` inside a string and appends what it
/// stands for.
pub(crate) fn scan_unit(s: &[u8], pos: usize, out: &mut Vec<u8>) -> (r: Option<usize>)
    requires
        pos < s.len(),
    ensures
        match r {
            Some(next) => match string_unit(s@, pos as int) {
                Some((unit, end)) => final(out)@ == old(out)@ + unit && end == next && pos < next
                    <= s.len(),
                None => false,
            },
            None => string_unit(s@, pos as int).is_none(),
        },
{
    let ghost before = out@;
    let b = s[pos];
    if b < 0x20 {
        return None;
    }
    if b != 0x5c {
        out.push(b);
        assert(out@ =~= before + seq![b]);
        return Some(pos + 1);
    }
    if pos + 1 >= s.len() {
        return None;
    }
    let e = s[pos + 1];
    let plain: u8 = if e == 0x22 || e == 0x5c || e == 0x2f {
        e
    } else if e == 0x62 {
        0x08
    } else if e == 0x66 {
        0x0c
    } else if e == 0x6e {
        0x0a
    } else if e == 0x72 {
        0x0d
    } else if e == 0x74 {
        0x09
    } else if e == 0x75 {
        return scan_unicode_escape(s, pos, out);
    } else {
        return None;
    };
    out.push(plain);
    assert(out@ =~= before + seq![plain]);
    Some(pos + 2)
}

/// Reads a string from behind its opening quote.
pub(crate) fn scan_string(s: &[u8], pos: usize) -> (r: Option<(Vec<u8>, usize)>)
    requires
        pos <= s.len(),
    ensures
        match r {
            Some((text, end)) => string_body(s@, pos as int) == Some((text@, end as int)) && pos
                < end <= s.len(),
            None => string_body(s@, pos as int).is_none(),
        },
{
    let mut text: Vec<u8> = Vec::new();
    let mut i: usize = pos;
    while i < s.len() && s[i] != 0x22
        invariant
            pos <= i <= s.len(),
            string_body(s@, pos as int) == match string_body(s@, i as int) {
                None => None::<(Seq<u8>, int)>,
                Some((rest, end)) => Some((text@ + rest, end)),
            },
        decreases s.len() - i,
    {
        let ghost before = text@;
        match scan_unit(s, i, &mut text) {
            None => {
                return None;
            },
            Some(next) => {
                proof {
                    let unit = string_unit(s@, i as int).unwrap().0;
                    match string_body(s@, next as int) {
                        None => {},
                        Some((rest, end)) => {
                            assert(before + (unit + rest) =~= (before + unit) + rest);
                        },
                    }
                }
                i = next;
            },
        }
    }
    if i < s.len() {
        assert(text@ + Seq::<u8>::empty() =~= text@);
        Some((text, i + 1))
    } else {
        None
    }
}

/// Reads the token at or behind `pos`.
pub fn next_token(s: &[u8], pos: usize) -> (r: Scan)
    ensures
        r@ == lex(s@, pos as int),
        r matches Scan::Token(_, next) ==> pos < next <= s.len(),
{
    if pos > s.len() {
        return Scan::End;
    }
    let p = skip_spaces(s, pos);
    if p >= s.len() {
        return Scan::End;
    }
    let b = s[p];
    if b == 0x7b {
        Scan::Token(Token::Open(true), p + 1)
    } else if b == 0x7d {
        Scan::Token(Token::Close(true), p + 1)
    } else if b == 0x5b {
        Scan::Token(Token::Open(false), p + 1)
    } else if b == 0x5d {
        Scan::Token(Token::Close(false), p + 1)
    } else if b == 0x3a {
        Scan::Token(Token::Colon, p + 1)
    } else if b == 0x2c {
        Scan::Token(Token::Comma, p + 1)
    } else if b == 0x22 {
        match scan_string(s, p + 1) {
            None => Scan::Bad,
            Some((text, end)) => Scan::Token(Token::Text(text), end),
        }
    } else if b == 0x2d || (0x30 <= b && b <= 0x39) {
        match scan_number(s, p) {
            None => Scan::Bad,
            Some(end) => Scan::Token(Token::Scalar, end),
        }
    } else if (b == 0x74 && byte_is(s, p + 1, 0x72) && byte_is(s, p + 2, 0x75) && byte_is(
        s,
        p + 3,
        0x65,
    )) || (b == 0x6e && byte_is(s, p + 1, 0x75) && byte_is(s, p + 2, 0x6c) && byte_is(
        s,
        p + 3,
        0x6c,
    )) {
        Scan::Token(Token::Scalar, p + 4)
    } else if b == 0x66 && byte_is(s, p + 1, 0x61) && byte_is(s, p + 2, 0x6c) && byte_is(
        s,
        p + 3,
        0x73,
    ) && byte_is(s, p + 4, 0x65) {
        Scan::Token(Token::Scalar, p + 5)
    } else {
        Scan::Bad
    }
}

} // verus!
