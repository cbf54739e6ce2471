//! The lexer: source text to tokens.
//!
//! The whole source is scanned before a token is handed out, so that a
//! caller gets either every token of a valid source or one error and no
//! token. In this mode blocks stand between braces, and statements end at a
//! line break or a semicolon. The module [`indent`] scans the other layout
//! of the language, in which indentation makes the blocks.
use vstd::prelude::*;
use vstd::string::StringExecFns;
use vstd::utf8::{encode_utf8, valid_utf8};
use crate::lexer::rules::{
    byte_at,
    bytes_left,
    lexeme_at,
    next_lexeme,
    skip_trivia,
    text_between,
    text_of,
    trivia_len,
    LINE_FEED,
    CARRIAGE_RETURN,
};
use crate::lexer::laws::{lemma_tokens_cover_source, tiles};
use crate::text::{decimal, decimal_string};
use crate::tokens::{Scanner, Span, Spanned, Token, TokenView};

pub mod indent;
pub mod laws;
pub mod rules;

verus! {

/// A token with the bytes of the source that it takes, from `start` up to
/// `end`.
pub ghost struct Lexeme {
    pub token: TokenView,
    pub start: int,
    pub end: int,
}

/// The lexemes that a list of tokens with their spans stands for.
pub open spec fn lexemes_of(v: Seq<(Token, Span)>) -> Seq<Lexeme> {
    Seq::new(
        v.len(),
        |i: int| Lexeme { token: v[i].0@, start: v[i].1.start as int, end: v[i].1.end as int },
    )
}

/// The lexemes that a list of tokens with their spans stands for.
pub open spec fn lexemes_in(v: Seq<Spanned>) -> Seq<Lexeme> {
    Seq::new(
        v.len(),
        |i: int| Lexeme { token: v[i].0, start: v[i].1.start as int, end: v[i].1.end as int },
    )
}

/// The lexemes of the source from a position to its end, after those that
/// were `found` before the position, or the position of the first byte at
/// which no token starts.
pub open spec fn scan_from(src: Seq<u8>, pos: int, found: Seq<Lexeme>) -> Result<Seq<Lexeme>, int>
    decreases bytes_left(src, pos),
{
    let at = pos + trivia_len(src, pos, false);
    match byte_at(src, at) {
        None => Ok(found),
        Some(_) => match lexeme_at(src, at) {
            None => Err(at),
            Some((token, more)) => scan_from(
                src,
                at + 1 + more,
                found.push(Lexeme { token, start: at, end: at + 1 + more }),
            ),
        },
    }
}

/// The lexemes of a source, or the position of the first byte at which no
/// token starts.
pub open spec fn scan(src: Seq<u8>) -> Result<Seq<Lexeme>, int> {
    scan_from(src, 0, Seq::empty())
}

/// The number of bytes between the start of the line in which a position
/// stands and the position.
pub open spec fn column_of(src: Seq<u8>, pos: int) -> nat
    decreases pos,
{
    if pos <= 0 || byte_at(src, pos - 1) == Some(LINE_FEED) {
        0
    } else {
        1 + column_of(src, pos - 1)
    }
}

/// The number of line feeds before a position.
pub open spec fn line_of(src: Seq<u8>, pos: int) -> nat
    decreases pos,
{
    if pos <= 0 {
        0
    } else if byte_at(src, pos - 1) == Some(LINE_FEED) {
        1 + line_of(src, pos - 1)
    } else {
        line_of(src, pos - 1)
    }
}

/// The number of bytes from a position to the end of its line, the line
/// break left out.
pub open spec fn rest_of_line(src: Seq<u8>, pos: int) -> nat
    decreases src.len() - pos,
{
    match byte_at(src, pos) {
        None => 0,
        Some(b) => if b == LINE_FEED || b == CARRIAGE_RETURN {
            0
        } else {
            1 + rest_of_line(src, pos + 1)
        },
    }
}

/// The number of bytes that the character takes whose first byte is `b`.
pub open spec fn char_width(b: u8) -> nat {
    if b < 0x80 {
        1
    } else if b < 0xE0 {
        2
    } else if b < 0xF0 {
        3
    } else {
        4
    }
}

/// The text that bytes spell, or `otherwise` where they spell none.
pub open spec fn text_or(bytes: Seq<u8>, otherwise: Seq<char>) -> Seq<char> {
    if valid_utf8(bytes) {
        text_of(bytes)
    } else {
        otherwise
    }
}

/// So many spaces.
pub open spec fn spaces(n: nat) -> Seq<char> {
    Seq::new(n, |i: int| ' ')
}

/// The end of the character that starts at a position, which is never
/// past the end of the source.
pub open spec fn char_end(src: Seq<u8>, pos: int) -> int {
    if pos + char_width(src[pos]) <= src.len() {
        pos + char_width(src[pos])
    } else {
        src.len() as int
    }
}

/// The message for a byte at which no token starts: the line and column of
/// the byte counted from one, the line of source in which it stands, a
/// caret under the byte, and the character that starts with it.
pub open spec fn error_text(src: Seq<u8>, pos: int) -> Seq<char> {
    let column = column_of(src, pos);
    "Lexing error at line "@ + decimal(line_of(src, pos) + 1) + ", column "@ + decimal(
        column + 1,
    ) + ":\n"@ + text_or(src.subrange(pos - column, pos + rest_of_line(src, pos)), Seq::empty())
        + "\n"@ + spaces(column) + "^\nUnexpected character: '"@ + text_or(
        src.subrange(pos, char_end(src, pos)),
        "?"@,
    ) + "'"@
}

/// Scans the bytes of a source text into tokens with their spans. The
/// error is the position of the first byte at which no token starts.
pub fn scan_bytes(bytes: &[u8]) -> (r: Result<Vec<(Token, Span)>, usize>)
    ensures
        match scan(bytes@) {
            Ok(lexemes) => r is Ok && lexemes_of(r->Ok_0@) == lexemes,
            Err(at) => r is Err && r->Err_0 == at && at < bytes.len(),
        },
{
    let mut found: Vec<(Token, Span)> = Vec::new();
    let mut pos: usize = 0;
    assert(lexemes_of(found@) =~= Seq::<Lexeme>::empty());
    loop
        invariant
            pos <= bytes.len(),
            scan(bytes@) == scan_from(bytes@, pos as int, lexemes_of(found@)),
        decreases bytes.len() - pos,
    {
        let at = skip_trivia(bytes, pos);
        if at >= bytes.len() {
            return Ok(found);
        }
        match next_lexeme(bytes, at) {
            None => {
                return Err(at);
            },
            Some((token, end)) => {
                let ghost before = lexemes_of(found@);
                let ghost lexeme = Lexeme { token: token@, start: at as int, end: end as int };
                found.push((token, at..end));
                assert(lexemes_of(found@) =~= before.push(lexeme));
                pos = end;
            },
        }
    }
}

fn spaces_string(n: usize) -> (r: String)
    ensures
        r@ == spaces(n as nat),
{
    let mut s = String::new();
    let mut i: usize = 0;
    proof {
        reveal_strlit(" ");
    }
    while i < n
        invariant
            i <= n,
            s@ =~= spaces(i as nat),
            " "@ == seq![' '],
        decreases n - i,
    {
        s.append(" ");
        i = i + 1;
    }
    s
}

fn text_or_default(bytes: &[u8], from: usize, to: usize, otherwise: &str) -> (r: String)
    requires
        from <= to <= bytes.len(),
    ensures
        r@ == text_or(bytes@.subrange(from as int, to as int), otherwise@),
{
    match text_between(bytes, from, to) {
        Some(s) => s,
        None => otherwise.to_owned(),
    }
}

/// Describes the byte of a source at which scanning failed.
pub fn format_lexing_error(source: &str, span: Span) -> (r: String)
    requires
        span.start < encode_utf8(source@).len(),
    ensures
        r@ == error_text(encode_utf8(source@), span.start as int),
{
    let bytes = source.as_bytes();
    let pos = span.start;
    let ghost src = bytes@;
    let mut line: usize = 0;
    let mut i: usize = 0;
    while i < pos
        invariant
            i <= pos < bytes.len(),
            line <= i,
            src == bytes@,
            line == line_of(src, i as int),
        decreases pos - i,
    {
        if bytes[i] == LINE_FEED {
            line = line + 1;
        }
        i = i + 1;
    }
    let mut start: usize = pos;
    while start > 0 && bytes[start - 1] != LINE_FEED
        invariant
            start <= pos < bytes.len(),
            src == bytes@,
            column_of(src, pos as int) == (pos - start) + column_of(src, start as int),
        decreases start,
    {
        start = start - 1;
    }
    let mut end: usize = pos;
    while end < bytes.len() && bytes[end] != LINE_FEED && bytes[end] != CARRIAGE_RETURN
        invariant
            pos <= end <= bytes.len(),
            src == bytes@,
            rest_of_line(src, pos as int) == (end - pos) + rest_of_line(src, end as int),
        decreases bytes.len() - end,
    {
        end = end + 1;
    }
    let b = bytes[pos];
    let width: usize = if b < 0x80 {
        1
    } else if b < 0xE0 {
        2
    } else if b < 0xF0 {
        3
    } else {
        4
    };
    let char_end: usize = if width <= bytes.len() - pos {
        pos + width
    } else {
        bytes.len()
    };
    let column = pos - start;
    let mut s = "Lexing error at line ".to_owned();
    s.append(decimal_string(line + 1).as_str());
    s.append(", column ");
    s.append(decimal_string(column + 1).as_str());
    s.append(":\n");
    s.append(text_or_default(bytes, start, end, "").as_str());
    s.append("\n");
    s.append(spaces_string(column).as_str());
    s.append("^\nUnexpected character: '");
    s.append(text_or_default(bytes, pos, char_end, "?").as_str());
    s.append("'");
    proof {
        reveal_strlit("");
        assert(""@ =~= Seq::<char>::empty());
    }
    s
}

/// What scanning a source text gives: a stream of all its tokens, none of
/// them read, or the message for the first byte at which no token starts.
pub open spec fn lexed(r: Result<Scanner, String>, outcome: Result<Seq<Lexeme>, int>, src: Seq<u8>) -> bool {
    match outcome {
        Ok(lexemes) => {
            &&& r is Ok
            &&& lexemes_in(r->Ok_0.all()) == lexemes
            &&& r->Ok_0.position() == 0
        },
        Err(at) => r is Err && r->Err_0@ == error_text(src, at),
    }
}

/// Makes a stream of the tokens that were scanned, or the message for the
/// position at which scanning failed.
pub(crate) fn finish(source: &str, scanned: Result<Vec<(Token, Span)>, usize>) -> (r: Result<
    Scanner,
    String,
>)
    requires
        scanned matches Err(at) ==> at < encode_utf8(source@).len(),
    ensures
        match scanned {
            Ok(v) => lexed(r, Ok(lexemes_of(v@)), encode_utf8(source@)),
            Err(at) => lexed(r, Err(at as int), encode_utf8(source@)),
        },
{
    match scanned {
        Ok(tokens) => {
            let ghost lexemes = lexemes_of(tokens@);
            let scanner = Scanner::from_tokens(tokens);
            assert(lexemes_in(scanner.all()) =~= lexemes);
            Ok(scanner)
        },
        Err(at) => Err(format_lexing_error(source, at..at)),
    }
}

impl Scanner {
    /// Scans a source text. The whole text is scanned at once: the result
    /// is a stream of all its tokens or the first error.
    pub fn new(input: &str) -> (r: Result<Scanner, String>)
        ensures
            lexed(r, scan(encode_utf8(input@)), encode_utf8(input@)),
            r is Ok ==> tiles(encode_utf8(input@), lexemes_in(r->Ok_0.all())),
    {
        proof {
            if scan(encode_utf8(input@)) is Ok {
                lemma_tokens_cover_source(encode_utf8(input@));
            }
        }
        finish(input, scan_bytes(input.as_bytes()))
    }
}

/// Scans a source text into a stream of tokens. The tokens lie in the
/// source in order, and what lies between them is whitespace and comments
/// and nothing else.
pub fn lex(input: &str) -> (r: Result<Scanner, String>)
    ensures
        lexed(r, scan(encode_utf8(input@)), encode_utf8(input@)),
        r is Ok ==> tiles(encode_utf8(input@), lexemes_in(r->Ok_0.all())),
{
    Scanner::new(input)
}

} // verus!
