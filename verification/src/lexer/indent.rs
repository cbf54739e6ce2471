//! The lexer for the layout in which indentation makes the blocks.
//!
//! A line that is indented more deeply than the line before it starts with
//! an `Indent`, one that is indented less deeply with one `Dedent` for each
//! level that it closes, and one that is indented alike with a `NewLine`.
//! The first indentation of a source sets the width of a level. Lines that
//! hold nothing but whitespace and comments do not count. At the end of
//! the source every level that is still open is closed.
use vstd::prelude::*;
use vstd::utf8::encode_utf8;
use crate::lexer::rules::{
    byte_at,
    bytes_left,
    lexeme_at,
    next_lexeme,
    skip_trivia,
    trivia_len,
    CARRIAGE_RETURN,
    LINE_FEED,
    SPACE,
    TAB,
};
use crate::lexer::{finish, lexed, lexemes_of, Lexeme};
use crate::tokens::{Scanner, Span, Token, TokenView};

verus! {

/// The number of bytes that the line break at a position takes: one for a
/// line feed, two for a carriage return with a line feed, zero where no
/// line break stands.
pub open spec fn line_break_len(src: Seq<u8>, pos: int) -> nat {
    if byte_at(src, pos) == Some(LINE_FEED) {
        1
    } else if byte_at(src, pos) == Some(CARRIAGE_RETURN) && byte_at(src, pos + 1) == Some(
        LINE_FEED,
    ) {
        2
    } else {
        0
    }
}

/// The number of spaces and tabs from a position.
pub open spec fn indent_len(src: Seq<u8>, pos: int) -> nat
    decreases src.len() - pos,
{
    match byte_at(src, pos) {
        Some(b) => if b == SPACE || b == TAB {
            1 + indent_len(src, pos + 1)
        } else {
            0
        },
        None => 0,
    }
}

/// Whether nothing but whitespace and a comment stands between a position
/// and the end of its line.
pub open spec fn is_blank_from(src: Seq<u8>, pos: int) -> bool {
    let at = pos + trivia_len(src, pos, false);
    byte_at(src, at) is None || line_break_len(src, at) > 0
}

/// So many lexemes of one token, each at the same place.
pub open spec fn repeated(token: TokenView, n: nat, start: int, end: int) -> Seq<Lexeme> {
    Seq::new(n, |i: int| Lexeme { token, start, end })
}

/// The number of levels between two widths of indentation, where a level
/// is `size` wide.
pub open spec fn levels(from: nat, to: nat, size: nat) -> nat {
    if size == 0 || from <= to {
        0
    } else {
        ((from - to) / size as int) as nat
    }
}

/// The tokens that start a line of the given width of indentation after a
/// line of width `previous`.
pub open spec fn layout(width: nat, previous: nat, size: nat, start: int, end: int) -> Seq<Lexeme> {
    if width > previous {
        repeated(TokenView::Indent, 1, start, end)
    } else if width < previous {
        repeated(TokenView::Dedent, levels(previous, width, size), start, end)
    } else {
        repeated(TokenView::NewLine, 1, start, end)
    }
}

/// The lexemes of an indented source from a position to its end, after
/// those that were `found` before, or the position of the first byte at
/// which no token starts. `size` is the width of a level of indentation,
/// zero as long as no line was indented, and `previous` the width of the
/// indentation of the line in which the position stands.
pub open spec fn scan_indented_from(
    src: Seq<u8>,
    pos: int,
    size: nat,
    previous: nat,
    found: Seq<Lexeme>,
) -> Result<Seq<Lexeme>, int>
    decreases bytes_left(src, pos),
{
    let at = pos + trivia_len(src, pos, false);
    match byte_at(src, at) {
        None => Ok(
            found + repeated(
                TokenView::Dedent,
                levels(previous, 0, size),
                src.len() as int,
                src.len() as int,
            ),
        ),
        Some(_) => if line_break_len(src, at) > 0 {
            let width = indent_len(src, at + line_break_len(src, at));
            let content = at + line_break_len(src, at) + width;
            if is_blank_from(src, content) {
                scan_indented_from(src, content, size, previous, found)
            } else {
                scan_indented_from(
                    src,
                    content,
                    if size == 0 {
                        width
                    } else {
                        size
                    },
                    width,
                    found + layout(width, previous, size, at, content),
                )
            }
        } else {
            match lexeme_at(src, at) {
                None => Err(at),
                Some((token, more)) => scan_indented_from(
                    src,
                    at + 1 + more,
                    size,
                    previous,
                    found.push(Lexeme { token, start: at, end: at + 1 + more }),
                ),
            }
        },
    }
}

/// The lexemes of an indented source.
pub open spec fn scan_indented(src: Seq<u8>) -> Result<Seq<Lexeme>, int> {
    scan_indented_from(src, 0, 0, 0, Seq::empty())
}

fn indent_end(bytes: &[u8], pos: usize) -> (r: usize)
    requires
        pos <= bytes.len(),
    ensures
        r == pos + indent_len(bytes@, pos as int),
        r <= bytes.len(),
{
    let mut i: usize = pos;
    loop
        invariant
            pos <= i <= bytes.len(),
            indent_len(bytes@, pos as int) == (i - pos) + indent_len(bytes@, i as int),
        decreases bytes.len() - i,
    {
        if i >= bytes.len() {
            return i;
        }
        let b = bytes[i];
        if b == SPACE || b == TAB {
            i = i + 1;
        } else {
            return i;
        }
    }
}

fn line_break(bytes: &[u8], pos: usize) -> (r: usize)
    requires
        pos <= bytes.len(),
    ensures
        r == line_break_len(bytes@, pos as int),
        pos + r <= bytes.len(),
{
    if pos < bytes.len() && bytes[pos] == LINE_FEED {
        1
    } else if pos < bytes.len() && bytes[pos] == CARRIAGE_RETURN && pos + 1 < bytes.len()
        && bytes[pos + 1] == LINE_FEED {
        2
    } else {
        0
    }
}

fn push_repeated(found: &mut Vec<(Token, Span)>, token: &Token, n: usize, start: usize, end: usize)
    ensures
        lexemes_of(final(found)@) == lexemes_of(old(found)@) + repeated(
            token@,
            n as nat,
            start as int,
            end as int,
        ),
{
    let ghost before = lexemes_of(found@);
    let mut i: usize = 0;
    assert(lexemes_of(found@) =~= before + repeated(token@, 0, start as int, end as int));
    while i < n
        invariant
            i <= n,
            before == lexemes_of(old(found)@),
            lexemes_of(found@) == before + repeated(token@, i as nat, start as int, end as int),
        decreases n - i,
    {
        let ghost so_far = lexemes_of(found@);
        let t = token.clone();
        found.push((t, start..end));
        assert(lexemes_of(found@) =~= so_far.push(
            Lexeme { token: token@, start: start as int, end: end as int },
        ));
        assert(lexemes_of(found@) =~= before + repeated(
            token@,
            (i + 1) as nat,
            start as int,
            end as int,
        ));
        i = i + 1;
    }
}

fn level_count(from: usize, to: usize, size: usize) -> (r: usize)
    ensures
        r == levels(from as nat, to as nat, size as nat),
{
    if size == 0 || from <= to {
        0
    } else {
        (from - to) / size
    }
}

/// Scans the bytes of an indented source text into tokens with their
/// spans. The error is the position of the first byte at which no token
/// starts.
pub fn scan_indented_bytes(bytes: &[u8]) -> (r: Result<Vec<(Token, Span)>, usize>)
    ensures
        match scan_indented(bytes@) {
            Ok(lexemes) => r is Ok && lexemes_of(r->Ok_0@) == lexemes,
            Err(at) => r is Err && r->Err_0 == at && at < bytes.len(),
        },
{
    let mut found: Vec<(Token, Span)> = Vec::new();
    let mut pos: usize = 0;
    let mut size: usize = 0;
    let mut previous: usize = 0;
    assert(lexemes_of(found@) =~= Seq::<Lexeme>::empty());
    loop
        invariant
            pos <= bytes.len(),
            scan_indented(bytes@) == scan_indented_from(
                bytes@,
                pos as int,
                size as nat,
                previous as nat,
                lexemes_of(found@),
            ),
        decreases bytes.len() - pos,
    {
        let at = skip_trivia(bytes, pos);
        if at >= bytes.len() {
            push_repeated(
                &mut found,
                &Token::Dedent,
                level_count(previous, 0, size),
                bytes.len(),
                bytes.len(),
            );
            return Ok(found);
        }
        let broken = line_break(bytes, at);
        if broken > 0 {
            let content = indent_end(bytes, at + broken);
            let width = content - (at + broken);
            let after = skip_trivia(bytes, content);
            let blank = after >= bytes.len() || line_break(bytes, after) > 0;
            if !blank {
                if width > previous {
                    push_repeated(&mut found, &Token::Indent, 1, at, content);
                } else if width < previous {
                    push_repeated(
                        &mut found,
                        &Token::Dedent,
                        level_count(previous, width, size),
                        at,
                        content,
                    );
                } else {
                    push_repeated(&mut found, &Token::NewLine, 1, at, content);
                }
                if size == 0 {
                    size = width;
                }
                previous = width;
            }
            pos = content;
        } else {
            match next_lexeme(bytes, at) {
                None => {
                    return Err(at);
                },
                Some((token, end)) => {
                    let ghost before = lexemes_of(found@);
                    let ghost lexeme = Lexeme { token: token@, start: at as int, end: end as int };
                    found.push((token, at..end));
                    assert(lexemes_of(found@) =~= before.push(lexeme));
                    pos = end;
                },
            }
        }
    }
}

/// Scans an indented source text into a stream of tokens.
pub fn lex(input: &str) -> (r: Result<Scanner, String>)
    ensures
        lexed(r, scan_indented(encode_utf8(input@)), encode_utf8(input@)),
{
    finish(input, scan_indented_bytes(input.as_bytes()))
}

} // verus!
