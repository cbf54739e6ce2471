//! What holds of the tokens of every source.
use vstd::prelude::*;
use crate::lexer::rules::{break_len, byte_at, bytes_left, digits_len, is_break, is_digit, is_space, is_word_byte, lexeme_at, string_rest, trivia_len, unescaped, word_len, BACKSLASH, CARRIAGE_RETURN, HASH, LINE_FEED, QUOTE, SEMICOLON};
use crate::lexer::{scan, scan_from, Lexeme};

verus! {

/// The position at which the gap in front of lexeme `i` starts: the end of
/// the lexeme before it, or the start of the source. For `i` the number of
/// lexemes it is the start of the gap after the last one.
pub open spec fn gap_start(lexemes: Seq<Lexeme>, i: int) -> int {
    if i <= 0 {
        0
    } else {
        lexemes[i - 1].end
    }
}

/// Whether lexemes lie in the source one after the other, each one byte
/// long or longer and inside the source, with nothing between them but
/// whitespace and comments.
pub open spec fn tiles(src: Seq<u8>, lexemes: Seq<Lexeme>) -> bool {
    forall|i: int| 0 <= i < lexemes.len() ==> #[trigger] placed(src, lexemes, i)
}

/// Whether lexeme `i` starts where the whitespace and comments after the
/// lexeme before it end, is one byte long or longer, and ends inside the
/// source.
pub open spec fn placed(src: Seq<u8>, lexemes: Seq<Lexeme>, i: int) -> bool {
    &&& 0 <= gap_start(lexemes, i)
    &&& lexemes[i].start == gap_start(lexemes, i) + trivia_len(src, gap_start(lexemes, i), false)
    &&& lexemes[i].start < lexemes[i].end <= src.len()
}

proof fn lemma_scan_tiles(src: Seq<u8>, pos: int, found: Seq<Lexeme>)
    requires
        tiles(src, found),
        pos == gap_start(found, found.len() as int),
        0 <= pos <= src.len(),
        scan_from(src, pos, found) is Ok,
    ensures
        tiles(src, scan_from(src, pos, found)->Ok_0),
        ({
            let all = scan_from(src, pos, found)->Ok_0;
            let last = gap_start(all, all.len() as int);
            0 <= last && last + trivia_len(src, last, false) == src.len()
        }),
    decreases bytes_left(src, pos),
{
    let at = pos + trivia_len(src, pos, false);
    lemma_trivia_in_source(src, pos, false);
    match byte_at(src, at) {
        None => {},
        Some(_) => {
            let (token, more) = lexeme_at(src, at)->Some_0;
            lemma_lexeme_in_source(src, at);
            let next = found.push(Lexeme { token, start: at, end: at + 1 + more });
            if found.len() > 0 {
                assert(placed(src, found, found.len() - 1));
            }
            assert forall|i: int| 0 <= i < next.len() implies #[trigger] placed(src, next, i) by {
                if i < found.len() {
                    assert(placed(src, found, i));
                    assert(next[i] == found[i]);
                    assert(gap_start(next, i) == gap_start(found, i));
                }
            }
            lemma_scan_tiles(src, at + 1 + more, next);
        },
    }
}

/// Trivia ends inside the source.
pub proof fn lemma_trivia_in_source(src: Seq<u8>, pos: int, in_comment: bool)
    requires
        0 <= pos <= src.len(),
    ensures
        pos + trivia_len(src, pos, in_comment) <= src.len(),
    decreases src.len() - pos, if in_comment { 1nat } else { 0nat },
{
    match byte_at(src, pos) {
        None => {},
        Some(b) => {
            if in_comment {
                if b == LINE_FEED || b == CARRIAGE_RETURN {
                    lemma_trivia_in_source(src, pos, false);
                } else {
                    lemma_trivia_in_source(src, pos + 1, true);
                }
            } else if is_space(b) || (b == CARRIAGE_RETURN
                && !is_break(src, pos)) {
                lemma_trivia_in_source(src, pos + 1, false);
            } else if b == HASH {
                lemma_trivia_in_source(src, pos + 1, true);
            }
        },
    }
}

proof fn lemma_break_in_source(src: Seq<u8>, pos: int)
    requires
        0 <= pos <= src.len(),
    ensures
        pos + break_len(src, pos) <= src.len(),
    decreases src.len() - pos,
{
    match byte_at(src, pos) {
        None => {},
        Some(b) => {
            if b == LINE_FEED || b == SEMICOLON {
                lemma_break_in_source(src, pos + 1);
            } else if b == CARRIAGE_RETURN && byte_at(src, pos + 1) == Some(
                LINE_FEED,
            ) {
                lemma_break_in_source(src, pos + 2);
            }
        },
    }
}

proof fn lemma_word_in_source(src: Seq<u8>, pos: int)
    requires
        0 <= pos <= src.len(),
    ensures
        pos + word_len(src, pos) <= src.len(),
    decreases src.len() - pos,
{
    if pos < src.len() && is_word_byte(src[pos]) {
        lemma_word_in_source(src, pos + 1);
    }
}

proof fn lemma_digits_in_source(src: Seq<u8>, pos: int)
    requires
        0 <= pos <= src.len(),
    ensures
        pos + digits_len(src, pos) <= src.len(),
    decreases src.len() - pos,
{
    if pos < src.len() && is_digit(src[pos]) {
        lemma_digits_in_source(src, pos + 1);
    }
}

proof fn lemma_string_in_source(src: Seq<u8>, start: int, pos: int, held: Seq<u8>, taken: nat)
    requires
        0 <= start <= pos <= src.len(),
        taken == pos - start,
    ensures
        string_rest(src, pos, held, taken) matches Some((_, n)) ==> start + n
            <= src.len(),
    decreases src.len() - pos,
{
    match byte_at(src, pos) {
        None => {},
        Some(b) => {
            if b == QUOTE {
            } else if b == BACKSLASH {
                match byte_at(src, pos + 1) {
                    None => {},
                    Some(e) => {
                        lemma_string_in_source(
                            src,
                            start,
                            pos + 2,
                            held.push(unescaped(e)),
                            taken + 2,
                        );
                    },
                }
            } else {
                lemma_string_in_source(src, start, pos + 1, held.push(b), taken + 1);
            }
        },
    }
}

/// A token ends inside the source.
pub proof fn lemma_lexeme_in_source(src: Seq<u8>, pos: int)
    requires
        0 <= pos < src.len(),
    ensures
        lexeme_at(src, pos) matches Some((_, more)) ==> pos + 1 + more <= src.len(),
{
    lemma_break_in_source(src, pos + 1);
    if pos + 2 <= src.len() {
        lemma_break_in_source(src, pos + 2);
        lemma_word_in_source(src, pos + 2);
    }
    lemma_word_in_source(src, pos + 1);
    lemma_digits_in_source(src, pos + 1);
    let whole = digits_len(src, pos + 1);
    if pos + 2 + whole <= src.len() {
        lemma_digits_in_source(src, pos + 2 + whole);
    }
    lemma_string_in_source(src, pos + 1, pos + 1, Seq::empty(), 0);
}

proof fn lemma_tiles_ordered(src: Seq<u8>, lexemes: Seq<Lexeme>, i: int, j: int)
    requires
        tiles(src, lexemes),
        0 <= i < j < lexemes.len(),
    ensures
        lexemes[i].end <= lexemes[j].start,
    decreases j - i,
{
    assert(placed(src, lexemes, j));
    if i + 1 < j {
        lemma_tiles_ordered(src, lexemes, i, j - 1);
        assert(placed(src, lexemes, j - 1));
    }
}

/// Lexer completeness. The tokens of a source that scans lie in it in
/// order and do not overlap, each is at least one byte long, and the
/// bytes that no token takes are exactly the whitespace and the comments:
/// each token starts where the whitespace and comments after the token
/// before it end, and nothing but whitespace and comments follows the last
/// token.
pub proof fn lemma_tokens_cover_source(src: Seq<u8>)
    requires
        scan(src) is Ok,
    ensures
        ({
            let lexemes = scan(src)->Ok_0;
            let last = gap_start(lexemes, lexemes.len() as int);
            &&& tiles(src, lexemes)
            &&& forall|i: int, j: int|
                0 <= i < j < lexemes.len() ==> (#[trigger] lexemes[i]).end <= (
                #[trigger] lexemes[j]).start
            &&& last + trivia_len(src, last, false) == src.len()
        }),
{
    lemma_scan_tiles(src, 0, Seq::empty());
    let lexemes = scan(src)->Ok_0;
    assert forall|i: int, j: int| 0 <= i < j < lexemes.len() implies (#[trigger] lexemes[i]).end
        <= (#[trigger] lexemes[j]).start by {
        lemma_tiles_ordered(src, lexemes, i, j);
    }
}

} // verus!
