//! The lexical rules of the language, over the bytes of the source text.
//!
//! The rules are stated as functions of the source and a position in it.
//! Lengths are counted in bytes. Positions outside the source hold nothing.
use vstd::prelude::*;
use vstd::utf8::{
    decode_utf8,
    encode_utf8,
    encode_utf8_decode_utf8,
    encode_utf8_valid_utf8,
    is_ascii_chars,
    is_ascii_chars_encode_utf8,
    valid_utf8,
};
use crate::text::str_eq;
use crate::tokens::{Token, TokenView};

verus! {

pub const TAB: u8 = 9;

pub const LINE_FEED: u8 = 10;

pub const FORM_FEED: u8 = 12;

pub const CARRIAGE_RETURN: u8 = 13;

pub const SPACE: u8 = 32;

pub const QUOTE: u8 = 34;

pub const HASH: u8 = 35;

pub const SEMICOLON: u8 = 59;

pub const BACKSLASH: u8 = 92;

/// The byte at a position, or `None` outside the source.
pub open spec fn byte_at(src: Seq<u8>, pos: int) -> Option<u8> {
    if 0 <= pos < src.len() {
        Some(src[pos])
    } else {
        None
    }
}

/// The number of bytes from a position to the end of the source.
pub open spec fn bytes_left(src: Seq<u8>, pos: int) -> nat {
    if pos < src.len() {
        (src.len() - pos) as nat
    } else {
        0
    }
}

/// Horizontal whitespace: space, tab and form feed.
pub open spec fn is_space(b: u8) -> bool {
    b == SPACE || b == TAB || b == FORM_FEED
}

/// A decimal digit.
pub open spec fn is_digit(b: u8) -> bool {
    48 <= b <= 57
}

/// A byte with which an identifier may start: a letter or an underscore.
pub open spec fn is_word_start(b: u8) -> bool {
    (65 <= b <= 90) || (97 <= b <= 122) || b == 95
}

/// A byte of which an identifier may be made: a letter, a digit or an
/// underscore.
pub open spec fn is_word_byte(b: u8) -> bool {
    is_word_start(b) || is_digit(b)
}

/// Whether a statement end starts at the position: a line feed, a
/// semicolon, or a carriage return with a line feed after it.
pub open spec fn is_break(src: Seq<u8>, pos: int) -> bool {
    match byte_at(src, pos) {
        Some(b) => b == LINE_FEED || b == SEMICOLON || (b == CARRIAGE_RETURN && byte_at(
            src,
            pos + 1,
        ) == Some(LINE_FEED)),
        None => false,
    }
}

/// The number of bytes from the position that are skipped before the next
/// token: horizontal whitespace, carriage returns that no line feed
/// follows, and comments, which run from `#` to the end of the line.
/// `in_comment` says that the position is inside a comment.
pub open spec fn trivia_len(src: Seq<u8>, pos: int, in_comment: bool) -> nat
    decreases src.len() - pos, if in_comment { 1nat } else { 0nat },
{
    match byte_at(src, pos) {
        None => 0,
        Some(b) => if in_comment {
            if b == LINE_FEED || b == CARRIAGE_RETURN {
                trivia_len(src, pos, false)
            } else {
                1 + trivia_len(src, pos + 1, true)
            }
        } else if is_space(b) || (b == CARRIAGE_RETURN && !is_break(src, pos)) {
            1 + trivia_len(src, pos + 1, false)
        } else if b == HASH {
            1 + trivia_len(src, pos + 1, true)
        } else {
            0
        },
    }
}

/// The number of bytes from the position that belong to one run of
/// statement ends.
pub open spec fn break_len(src: Seq<u8>, pos: int) -> nat
    decreases src.len() - pos,
{
    match byte_at(src, pos) {
        None => 0,
        Some(b) => if b == LINE_FEED || b == SEMICOLON {
            1 + break_len(src, pos + 1)
        } else if b == CARRIAGE_RETURN && byte_at(src, pos + 1) == Some(LINE_FEED) {
            2 + break_len(src, pos + 2)
        } else {
            0
        },
    }
}

/// The number of bytes from the position of which an identifier may be
/// made.
pub open spec fn word_len(src: Seq<u8>, pos: int) -> nat
    decreases src.len() - pos,
{
    match byte_at(src, pos) {
        Some(b) => if is_word_byte(b) {
            1 + word_len(src, pos + 1)
        } else {
            0
        },
        None => 0,
    }
}

/// The number of digits from the position.
pub open spec fn digits_len(src: Seq<u8>, pos: int) -> nat
    decreases src.len() - pos,
{
    match byte_at(src, pos) {
        Some(b) => if is_digit(b) {
            1 + digits_len(src, pos + 1)
        } else {
            0
        },
        None => 0,
    }
}

/// The number that `n` digits from the position write in decimal.
pub open spec fn digits_value(src: Seq<u8>, pos: int, n: nat) -> nat
    decreases n,
{
    if n == 0 {
        0
    } else {
        digits_value(src, pos, (n - 1) as nat) * 10 + (src[pos + n - 1] - 48) as nat
    }
}

/// The byte that an escape stands for: the byte after the backslash, with
/// `n`, `t`, `r` and `0` standing for line feed, tab, carriage return and
/// the zero byte. Every other byte stands for itself.
pub open spec fn unescaped(b: u8) -> u8 {
    if b == 110 {
        LINE_FEED
    } else if b == 116 {
        TAB
    } else if b == 114 {
        CARRIAGE_RETURN
    } else if b == 48 {
        0
    } else {
        b
    }
}

/// The rest of a string literal from a position inside it: the bytes that
/// the literal holds, with escapes resolved, and the number of bytes of
/// source that the literal takes, its closing quote included. `None`
/// where the source ends before the literal does. `held` are the bytes
/// that the literal holds before the position, `taken` the bytes of source
/// that it takes before the position.
pub open spec fn string_rest(src: Seq<u8>, pos: int, held: Seq<u8>, taken: nat) -> Option<
    (Seq<u8>, nat),
>
    decreases src.len() - pos,
{
    match byte_at(src, pos) {
        None => None,
        Some(b) => if b == QUOTE {
            Some((held, taken + 1))
        } else if b == BACKSLASH {
            match byte_at(src, pos + 1) {
                None => None,
                Some(e) => string_rest(src, pos + 2, held.push(unescaped(e)), taken + 2),
            }
        } else {
            string_rest(src, pos + 1, held.push(b), taken + 1)
        },
    }
}

/// The text that bytes spell.
pub open spec fn text_of(bytes: Seq<u8>) -> Seq<char> {
    decode_utf8(bytes)
}

/// The text that bytes below 128 spell: each byte is one character.
pub open spec fn ascii_text(bytes: Seq<u8>) -> Seq<char> {
    Seq::new(bytes.len(), |i: int| bytes[i] as char)
}

/// Whether a byte below 128 stands at the position.
pub open spec fn ascii_at(src: Seq<u8>, pos: int) -> bool {
    0 <= pos < src.len() && src[pos] < 128
}

/// Whether every byte from `from` up to `to` is below 128.
pub open spec fn is_ascii_between(src: Seq<u8>, from: int, to: int) -> bool {
    forall|i: int| from <= i < to ==> #[trigger] ascii_at(src, i)
}

/// Bytes below 128 are valid UTF-8, and spell one character each.
pub proof fn lemma_ascii_text(bytes: Seq<u8>)
    requires
        forall|i: int| 0 <= i < bytes.len() ==> #[trigger] bytes[i] < 128,
    ensures
        valid_utf8(bytes),
        text_of(bytes) == ascii_text(bytes),
{
    let chars = ascii_text(bytes);
    assert(is_ascii_chars(chars)) by {
        assert forall|i: int| 0 <= i < chars.len() implies '\0' <= #[trigger] chars[i]
            <= '\u{7f}' by {
            assert(bytes[i] < 128);
        }
    }
    is_ascii_chars_encode_utf8(chars);
    assert(encode_utf8(chars) =~= bytes) by {
        assert forall|i: int| 0 <= i < bytes.len() implies encode_utf8(chars)[i] == bytes[i] by {
            assert(bytes[i] < 128);
            assert(chars[i] as u8 == encode_utf8(chars)[i]);
        }
    }
    encode_utf8_valid_utf8(chars);
    encode_utf8_decode_utf8(chars);
}

proof fn lemma_word_is_ascii(src: Seq<u8>, pos: int)
    requires
        0 <= pos,
    ensures
        is_ascii_between(src, pos, pos + word_len(src, pos)),
    decreases src.len() - pos,
{
    if pos < src.len() && is_word_byte(src[pos]) {
        lemma_word_is_ascii(src, pos + 1);
        assert(ascii_at(src, pos));
    }
}

proof fn lemma_digits_are_ascii(src: Seq<u8>, pos: int)
    requires
        0 <= pos,
    ensures
        is_ascii_between(src, pos, pos + digits_len(src, pos)),
    decreases src.len() - pos,
{
    if pos < src.len() && is_digit(src[pos]) {
        lemma_digits_are_ascii(src, pos + 1);
        assert(ascii_at(src, pos));
    }
}

/// The token that a word is: a keyword, a logical operator, a truth value
/// or an identifier.
pub open spec fn word_token(text: Seq<char>) -> TokenView {
    if text == "var"@ {
        TokenView::Var
    } else if text == "const"@ {
        TokenView::Const
    } else if text == "if"@ {
        TokenView::If
    } else if text == "else"@ {
        TokenView::Else
    } else if text == "func"@ {
        TokenView::Func
    } else if text == "struct"@ {
        TokenView::Struct
    } else if text == "type"@ {
        TokenView::Type
    } else if text == "import"@ {
        TokenView::Import
    } else if text == "as"@ {
        TokenView::As
    } else if text == "from"@ {
        TokenView::From
    } else if text == "return"@ {
        TokenView::Return
    } else if text == "and"@ {
        TokenView::And
    } else if text == "or"@ {
        TokenView::Or
    } else if text == "not"@ {
        TokenView::Not
    } else if text == "true"@ {
        TokenView::Boolean(true)
    } else if text == "false"@ {
        TokenView::Boolean(false)
    } else {
        TokenView::Word(text)
    }
}

/// The token made of punctuation that starts with byte `b`, where `next`
/// is the byte after it, and whether the token takes both bytes. Of two
/// tokens that start alike the longer one is taken.
pub open spec fn symbol_token(b: u8, next: Option<u8>) -> Option<(TokenView, bool)> {
    if b == 123 {
        Some((TokenView::OpenBrace, false))
    } else if b == 125 {
        Some((TokenView::CloseBrace, false))
    } else if b == 40 {
        Some((TokenView::OpenParen, false))
    } else if b == 41 {
        Some((TokenView::CloseParen, false))
    } else if b == 91 {
        Some((TokenView::OpenBracket, false))
    } else if b == 93 {
        Some((TokenView::CloseBracket, false))
    } else if b == 44 {
        Some((TokenView::Comma, false))
    } else if b == 43 {
        Some((TokenView::Plus, false))
    } else if b == 42 {
        Some((TokenView::Multiply, false))
    } else if b == 47 {
        Some((TokenView::Divide, false))
    } else if b == 37 {
        Some((TokenView::Modulus, false))
    } else if b == 94 {
        Some((TokenView::BitwiseXor, false))
    } else if b == 126 {
        Some((TokenView::BitwiseNot, false))
    } else if b == 58 {
        if next == Some(58u8) {
            Some((TokenView::DoubleColon, true))
        } else {
            Some((TokenView::Colon, false))
        }
    } else if b == 45 {
        if next == Some(62u8) {
            Some((TokenView::Arrow, true))
        } else {
            Some((TokenView::Minus, false))
        }
    } else if b == 61 {
        if next == Some(61u8) {
            Some((TokenView::EqualEqual, true))
        } else {
            Some((TokenView::Equal, false))
        }
    } else if b == 62 {
        if next == Some(61u8) {
            Some((TokenView::GreaterThanEqual, true))
        } else if next == Some(62u8) {
            Some((TokenView::RightShift, true))
        } else {
            Some((TokenView::GreaterThan, false))
        }
    } else if b == 60 {
        if next == Some(61u8) {
            Some((TokenView::LessThanEqual, true))
        } else if next == Some(60u8) {
            Some((TokenView::LeftShift, true))
        } else {
            Some((TokenView::LessThan, false))
        }
    } else if b == 33 {
        if next == Some(61u8) {
            Some((TokenView::NotEqual, true))
        } else {
            Some((TokenView::Not, false))
        }
    } else if b == 38 {
        if next == Some(38u8) {
            Some((TokenView::And, true))
        } else {
            Some((TokenView::BitwiseAnd, false))
        }
    } else if b == 124 {
        if next == Some(124u8) {
            Some((TokenView::Or, true))
        } else {
            Some((TokenView::BitwiseOr, false))
        }
    } else {
        None
    }
}

/// The token that starts at a position at which no trivia stands, and the
/// number of bytes that it takes after its first. `None` where no token
/// starts: at a byte that starts none, at a string literal that does not
/// end or whose bytes spell no text, and at an integer too large for 64
/// bits.
pub open spec fn lexeme_at(src: Seq<u8>, pos: int) -> Option<(TokenView, nat)> {
    match byte_at(src, pos) {
        None => None,
        Some(b) => if is_break(src, pos) {
            Some(
                (
                    TokenView::NewLine,
                    if b == CARRIAGE_RETURN {
                        1 + break_len(src, pos + 2)
                    } else {
                        break_len(src, pos + 1)
                    },
                ),
            )
        } else if is_word_start(b) {
            let more = word_len(src, pos + 1);
            Some((word_token(ascii_text(src.subrange(pos, pos + 1 + more))), more))
        } else if is_digit(b) {
            let whole = digits_len(src, pos + 1);
            if byte_at(src, pos + 1 + whole) == Some(46u8) && digits_len(src, pos + 2 + whole)
                > 0 {
                let more = whole + 1 + digits_len(src, pos + 2 + whole);
                Some((TokenView::Float(ascii_text(src.subrange(pos, pos + 1 + more))), more))
            } else {
                let value = digits_value(src, pos, 1 + whole);
                if value <= i64::MAX {
                    Some((TokenView::Integer(value as i64), whole))
                } else {
                    None
                }
            }
        } else if b == QUOTE {
            match string_rest(src, pos + 1, Seq::empty(), 0) {
                Some((held, taken)) => if valid_utf8(held) {
                    Some((TokenView::String(text_of(held)), taken))
                } else {
                    None
                },
                None => None,
            }
        } else if b == 64 {
            match byte_at(src, pos + 1) {
                Some(n) => if is_word_start(n) {
                    let more = 1 + word_len(src, pos + 2);
                    Some(
                        (
                            TokenView::Annotation(
                                ascii_text(src.subrange(pos + 1, pos + 1 + more)),
                            ),
                            more,
                        ),
                    )
                } else {
                    Some((TokenView::At, 0))
                },
                None => Some((TokenView::At, 0)),
            }
        } else {
            match symbol_token(b, byte_at(src, pos + 1)) {
                Some((t, double)) => Some((t, if double { 1nat } else { 0nat })),
                None => None,
            }
        },
    }
}

/// `String::from_utf8` of the standard library: the string whose UTF-8
/// encoding the bytes are. The result is `None` exactly where the bytes
/// are no valid UTF-8.
#[verifier::external_body]
fn string_from_utf8(bytes: Vec<u8>) -> (r: Option<String>)
    ensures
        r is Some <==> valid_utf8(bytes@),
        r matches Some(s) ==> encode_utf8(s@) == bytes@,
{
    String::from_utf8(bytes).ok()
}

/// The text that the bytes from `from` up to `to` spell; `None` where they
/// are no valid UTF-8.
pub fn text_between(bytes: &[u8], from: usize, to: usize) -> (r: Option<String>)
    requires
        from <= to <= bytes.len(),
    ensures
        r is Some <==> valid_utf8(bytes@.subrange(from as int, to as int)),
        r matches Some(s) ==> s@ == text_of(bytes@.subrange(from as int, to as int)),
{
    let mut part: Vec<u8> = Vec::new();
    let mut i: usize = from;
    while i < to
        invariant
            from <= i <= to <= bytes.len(),
            part@ == bytes@.subrange(from as int, i as int),
        decreases to - i,
    {
        part.push(bytes[i]);
        assert(part@ =~= bytes@.subrange(from as int, i as int + 1));
        i = i + 1;
    }
    text_of_bytes(part)
}

/// The text that the bytes from `from` up to `to` spell, which are all
/// below 128.
pub fn ascii_between(bytes: &[u8], from: usize, to: usize) -> (r: String)
    requires
        from <= to <= bytes.len(),
        is_ascii_between(bytes@, from as int, to as int),
    ensures
        r@ == ascii_text(bytes@.subrange(from as int, to as int)),
{
    proof {
        let part = bytes@.subrange(from as int, to as int);
        assert forall|i: int| 0 <= i < part.len() implies #[trigger] part[i] < 128 by {
            assert(ascii_at(bytes@, from + i));
        }
        lemma_ascii_text(part);
    }
    match text_between(bytes, from, to) {
        Some(text) => text,
        None => String::new(),
    }
}

/// The text that bytes spell; `None` where they are no valid UTF-8.
pub fn text_of_bytes(bytes: Vec<u8>) -> (r: Option<String>)
    ensures
        r is Some <==> valid_utf8(bytes@),
        r matches Some(s) ==> s@ == text_of(bytes@),
{
    let r = string_from_utf8(bytes);
    proof {
        if r is Some {
            encode_utf8_decode_utf8(r->Some_0@);
        }
    }
    r
}

/// The number of bytes from a position that are skipped before the next
/// token.
pub fn skip_trivia(bytes: &[u8], pos: usize) -> (r: usize)
    requires
        pos <= bytes.len(),
    ensures
        r == pos + trivia_len(bytes@, pos as int, false),
        r <= bytes.len(),
{
    let mut i: usize = pos;
    let mut in_comment = false;
    loop
        invariant
            pos <= i <= bytes.len(),
            trivia_len(bytes@, pos as int, false) == (i - pos) + trivia_len(
                bytes@,
                i as int,
                in_comment,
            ),
        decreases bytes.len() - i, if in_comment { 1nat } else { 0nat },
    {
        if i >= bytes.len() {
            return i;
        }
        let b = bytes[i];
        if in_comment {
            if b == LINE_FEED || b == CARRIAGE_RETURN {
                in_comment = false;
            } else {
                i = i + 1;
            }
        } else if b == SPACE || b == TAB || b == FORM_FEED {
            i = i + 1;
        } else if b == CARRIAGE_RETURN && !(i + 1 < bytes.len() && bytes[i + 1] == LINE_FEED) {
            i = i + 1;
        } else if b == HASH {
            i = i + 1;
            in_comment = true;
        } else {
            return i;
        }
    }
}

fn break_end(bytes: &[u8], pos: usize) -> (r: usize)
    requires
        pos <= bytes.len(),
    ensures
        r == pos + break_len(bytes@, pos as int),
        r <= bytes.len(),
{
    let mut i: usize = pos;
    loop
        invariant
            pos <= i <= bytes.len(),
            break_len(bytes@, pos as int) == (i - pos) + break_len(bytes@, i as int),
        decreases bytes.len() - i,
    {
        if i >= bytes.len() {
            return i;
        }
        let b = bytes[i];
        if b == LINE_FEED || b == SEMICOLON {
            i = i + 1;
        } else if b == CARRIAGE_RETURN && i + 1 < bytes.len() && bytes[i + 1] == LINE_FEED {
            i = i + 2;
        } else {
            return i;
        }
    }
}

/// Whether a byte can start an identifier.
pub fn word_start(b: u8) -> (r: bool)
    ensures
        r == is_word_start(b),
{
    (65 <= b && b <= 90) || (97 <= b && b <= 122) || b == 95
}

fn word_end(bytes: &[u8], pos: usize) -> (r: usize)
    requires
        pos <= bytes.len(),
    ensures
        r == pos + word_len(bytes@, pos as int),
        r <= bytes.len(),
{
    let mut i: usize = pos;
    loop
        invariant
            pos <= i <= bytes.len(),
            word_len(bytes@, pos as int) == (i - pos) + word_len(bytes@, i as int),
        decreases bytes.len() - i,
    {
        if i >= bytes.len() {
            return i;
        }
        let b = bytes[i];
        if word_start(b) || (48 <= b && b <= 57) {
            i = i + 1;
        } else {
            return i;
        }
    }
}

fn digits_end(bytes: &[u8], pos: usize) -> (r: usize)
    requires
        pos <= bytes.len(),
    ensures
        r == pos + digits_len(bytes@, pos as int),
        r <= bytes.len(),
{
    let mut i: usize = pos;
    loop
        invariant
            pos <= i <= bytes.len(),
            digits_len(bytes@, pos as int) == (i - pos) + digits_len(bytes@, i as int),
        decreases bytes.len() - i,
    {
        if i >= bytes.len() {
            return i;
        }
        let b = bytes[i];
        if 48 <= b && b <= 57 {
            i = i + 1;
        } else {
            return i;
        }
    }
}

/// Whether a digit stands at the position.
pub open spec fn digit_at(src: Seq<u8>, pos: int) -> bool {
    0 <= pos < src.len() && is_digit(src[pos])
}

proof fn lemma_digits_value_grows(src: Seq<u8>, pos: int, n: nat, m: nat)
    requires
        n <= m,
        forall|i: int| pos <= i < pos + m ==> #[trigger] digit_at(src, i),
    ensures
        digits_value(src, pos, n) <= digits_value(src, pos, m),
    decreases m,
{
    if n < m {
        lemma_digits_value_grows(src, pos, n, (m - 1) as nat);
        assert(digit_at(src, pos + m - 1));
    }
}

proof fn lemma_digits_are_digits(src: Seq<u8>, pos: int, n: nat)
    requires
        0 <= pos,
        n <= digits_len(src, pos),
    ensures
        forall|i: int| pos <= i < pos + n ==> #[trigger] digit_at(src, i),
    decreases n,
{
    if n > 0 {
        lemma_digits_are_digits(src, pos + 1, (n - 1) as nat);
        assert(digit_at(src, pos));
    }
}

/// The value of the digits from `from` up to `to`; `None` where it does
/// not fit into 64 bits with a sign.
fn integer_value(bytes: &[u8], from: usize, to: usize) -> (r: Option<i64>)
    requires
        from <= to <= bytes.len(),
        to - from <= digits_len(bytes@, from as int),
    ensures
        match r {
            Some(v) => v == digits_value(bytes@, from as int, (to - from) as nat),
            None => digits_value(bytes@, from as int, (to - from) as nat) > i64::MAX,
        },
{
    let mut value: i64 = 0;
    let mut i: usize = from;
    proof {
        lemma_digits_are_digits(bytes@, from as int, (to - from) as nat);
    }
    while i < to
        invariant
            from <= i <= to <= bytes.len(),
            0 <= value,
            value == digits_value(bytes@, from as int, (i - from) as nat),
            forall|k: int| from <= k < to ==> #[trigger] digit_at(bytes@, k),
        decreases to - i,
    {
        assert(digit_at(bytes@, i as int));
        let d: i64 = (bytes[i] - 48) as i64;
        if value > (i64::MAX - d) / 10 {
            proof {
                let here = digits_value(bytes@, from as int, (i + 1 - from) as nat);
                assert(here == value * 10 + d);
                assert(here > i64::MAX);
                lemma_digits_value_grows(
                    bytes@,
                    from as int,
                    (i + 1 - from) as nat,
                    (to - from) as nat,
                );
            }
            return None;
        }
        value = value * 10 + d;
        i = i + 1;
    }
    Some(value)
}

fn unescape(b: u8) -> (r: u8)
    ensures
        r == unescaped(b),
{
    if b == 110 {
        LINE_FEED
    } else if b == 116 {
        TAB
    } else if b == 114 {
        CARRIAGE_RETURN
    } else if b == 48 {
        0
    } else {
        b
    }
}

/// The bytes that a string literal holds and the position after its
/// closing quote, for a literal whose first byte after the opening quote
/// stands at `pos`.
fn string_literal(bytes: &[u8], pos: usize) -> (r: Option<(Vec<u8>, usize)>)
    requires
        pos <= bytes.len(),
    ensures
        match r {
            Some((held, end)) => string_rest(bytes@, pos as int, Seq::empty(), 0) == Some(
                (held@, (end - pos) as nat),
            ) && pos < end <= bytes.len(),
            None => string_rest(bytes@, pos as int, Seq::empty(), 0) is None,
        },
{
    let mut held: Vec<u8> = Vec::new();
    let mut i: usize = pos;
    loop
        invariant
            pos <= i <= bytes.len(),
            string_rest(bytes@, pos as int, Seq::empty(), 0) == string_rest(
                bytes@,
                i as int,
                held@,
                (i - pos) as nat,
            ),
        decreases bytes.len() - i,
    {
        if i >= bytes.len() {
            return None;
        }
        let b = bytes[i];
        if b == QUOTE {
            return Some((held, i + 1));
        } else if b == BACKSLASH {
            if i + 1 >= bytes.len() {
                return None;
            }
            held.push(unescape(bytes[i + 1]));
            i = i + 2;
        } else {
            held.push(b);
            i = i + 1;
        }
    }
}

fn word_of(text: String) -> (r: Token)
    ensures
        r@ == word_token(text@),
{
    let s = text.as_str();
    if str_eq(s, "var") {
        Token::Var
    } else if str_eq(s, "const") {
        Token::Const
    } else if str_eq(s, "if") {
        Token::If
    } else if str_eq(s, "else") {
        Token::Else
    } else if str_eq(s, "func") {
        Token::Func
    } else if str_eq(s, "struct") {
        Token::Struct
    } else if str_eq(s, "type") {
        Token::Type
    } else if str_eq(s, "import") {
        Token::Import
    } else if str_eq(s, "as") {
        Token::As
    } else if str_eq(s, "from") {
        Token::From
    } else if str_eq(s, "return") {
        Token::Return
    } else if str_eq(s, "and") {
        Token::And
    } else if str_eq(s, "or") {
        Token::Or
    } else if str_eq(s, "not") {
        Token::Not
    } else if str_eq(s, "true") {
        Token::Boolean(true)
    } else if str_eq(s, "false") {
        Token::Boolean(false)
    } else {
        Token::Word(text)
    }
}

fn symbol_of(b: u8, next: Option<u8>) -> (r: Option<(Token, bool)>)
    ensures
        match r {
            Some((t, double)) => symbol_token(b, next) == Some((t@, double)),
            None => symbol_token(b, next) is None,
        },
{
    let n: u8 = match next {
        Some(n) => n,
        None => 0,
    };
    let has = next.is_some();
    if b == 123 {
        Some((Token::OpenBrace, false))
    } else if b == 125 {
        Some((Token::CloseBrace, false))
    } else if b == 40 {
        Some((Token::OpenParen, false))
    } else if b == 41 {
        Some((Token::CloseParen, false))
    } else if b == 91 {
        Some((Token::OpenBracket, false))
    } else if b == 93 {
        Some((Token::CloseBracket, false))
    } else if b == 44 {
        Some((Token::Comma, false))
    } else if b == 43 {
        Some((Token::Plus, false))
    } else if b == 42 {
        Some((Token::Multiply, false))
    } else if b == 47 {
        Some((Token::Divide, false))
    } else if b == 37 {
        Some((Token::Modulus, false))
    } else if b == 94 {
        Some((Token::BitwiseXor, false))
    } else if b == 126 {
        Some((Token::BitwiseNot, false))
    } else if b == 58 {
        if has && n == 58 {
            Some((Token::DoubleColon, true))
        } else {
            Some((Token::Colon, false))
        }
    } else if b == 45 {
        if has && n == 62 {
            Some((Token::Arrow, true))
        } else {
            Some((Token::Minus, false))
        }
    } else if b == 61 {
        if has && n == 61 {
            Some((Token::EqualEqual, true))
        } else {
            Some((Token::Equal, false))
        }
    } else if b == 62 {
        if has && n == 61 {
            Some((Token::GreaterThanEqual, true))
        } else if has && n == 62 {
            Some((Token::RightShift, true))
        } else {
            Some((Token::GreaterThan, false))
        }
    } else if b == 60 {
        if has && n == 61 {
            Some((Token::LessThanEqual, true))
        } else if has && n == 60 {
            Some((Token::LeftShift, true))
        } else {
            Some((Token::LessThan, false))
        }
    } else if b == 33 {
        if has && n == 61 {
            Some((Token::NotEqual, true))
        } else {
            Some((Token::Not, false))
        }
    } else if b == 38 {
        if has && n == 38 {
            Some((Token::And, true))
        } else {
            Some((Token::BitwiseAnd, false))
        }
    } else if b == 124 {
        if has && n == 124 {
            Some((Token::Or, true))
        } else {
            Some((Token::BitwiseOr, false))
        }
    } else {
        None
    }
}

/// The token that starts at a position and the position after it; `None`
/// where no token starts.
pub fn next_lexeme(bytes: &[u8], pos: usize) -> (r: Option<(Token, usize)>)
    requires
        pos < bytes.len(),
    ensures
        match r {
            Some((t, end)) => lexeme_at(bytes@, pos as int) == Some(
                (t@, (end - pos - 1) as nat),
            ) && pos < end <= bytes.len(),
            None => lexeme_at(bytes@, pos as int) is None,
        },
{
    let b = bytes[pos];
    let next: Option<u8> = if pos + 1 < bytes.len() {
        Some(bytes[pos + 1])
    } else {
        None
    };
    if b == LINE_FEED || b == SEMICOLON {
        let end = break_end(bytes, pos + 1);
        Some((Token::NewLine, end))
    } else if b == CARRIAGE_RETURN && pos + 1 < bytes.len() && bytes[pos + 1] == LINE_FEED {
        let end = break_end(bytes, pos + 2);
        Some((Token::NewLine, end))
    } else if word_start(b) {
        let end = word_end(bytes, pos + 1);
        proof {
            lemma_word_is_ascii(bytes@, pos as int + 1);
            assert(ascii_at(bytes@, pos as int));
        }
        Some((word_of(ascii_between(bytes, pos, end)), end))
    } else if 48 <= b && b <= 57 {
        let whole_end = digits_end(bytes, pos + 1);
        if whole_end < bytes.len() && bytes[whole_end] == 46 {
            let end = digits_end(bytes, whole_end + 1);
            if end > whole_end + 1 {
                proof {
                    lemma_digits_are_ascii(bytes@, pos as int + 1);
                    lemma_digits_are_ascii(bytes@, whole_end as int + 1);
                    assert(ascii_at(bytes@, pos as int));
                    assert(ascii_at(bytes@, whole_end as int));
                }
                return Some((Token::Float(ascii_between(bytes, pos, end)), end));
            }
        }
        match integer_value(bytes, pos, whole_end) {
            Some(v) => Some((Token::Integer(v), whole_end)),
            None => None,
        }
    } else if b == QUOTE {
        match string_literal(bytes, pos + 1) {
            Some((held, end)) => match text_of_bytes(held) {
                Some(text) => Some((Token::String(text), end)),
                None => None,
            },
            None => None,
        }
    } else if b == 64 {
        let named = match next {
            Some(n) => word_start(n),
            None => false,
        };
        if named {
            let end = word_end(bytes, pos + 2);
            proof {
                lemma_word_is_ascii(bytes@, pos as int + 2);
            }
            Some((Token::Annotation(ascii_between(bytes, pos + 1, end)), end))
        } else {
            Some((Token::At, pos + 1))
        }
    } else {
        match symbol_of(b, next) {
            Some((t, double)) => if double {
                Some((t, pos + 2))
            } else {
                Some((t, pos + 1))
            },
            None => None,
        }
    }
}

} // verus!
