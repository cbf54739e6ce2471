//! The tokens of the language and the stream that the parser reads them from.
use vstd::prelude::*;

verus! {

/// A half-open range of bytes of the source text.
pub type Span = core::ops::Range<usize>;

/// A token of the language.
#[derive(Debug, PartialEq, Eq, Hash)]
pub enum Token {
    /// The end of a statement: a run of line breaks and semicolons.
    NewLine,
    /// The start of a more deeply indented run of lines.
    Indent,
    /// The end of an indented run of lines.
    Dedent,
    OpenBrace,
    CloseBrace,
    OpenParen,
    CloseParen,
    OpenBracket,
    CloseBracket,
    DoubleColon,
    Arrow,
    Equal,
    Colon,
    Comma,
    At,
    Plus,
    Minus,
    Multiply,
    Divide,
    Modulus,
    BitwiseOr,
    BitwiseAnd,
    BitwiseXor,
    LeftShift,
    RightShift,
    BitwiseNot,
    GreaterThan,
    LessThan,
    GreaterThanEqual,
    LessThanEqual,
    EqualEqual,
    NotEqual,
    And,
    Or,
    Not,
    Var,
    Const,
    If,
    Else,
    Func,
    Struct,
    Type,
    Import,
    As,
    From,
    Return,
    /// An identifier.
    Word(String),
    /// An integer literal.
    Integer(i64),
    /// A floating literal, as the digits that were written.
    Float(String),
    /// `true` or `false`.
    Boolean(bool),
    /// A string literal, without its quotes and with its escapes resolved.
    String(String),
    /// An annotation, without its `@`.
    Annotation(String),
}

/// The mathematical value of a [`Token`].
pub ghost enum TokenView {
    NewLine,
    Indent,
    Dedent,
    OpenBrace,
    CloseBrace,
    OpenParen,
    CloseParen,
    OpenBracket,
    CloseBracket,
    DoubleColon,
    Arrow,
    Equal,
    Colon,
    Comma,
    At,
    Plus,
    Minus,
    Multiply,
    Divide,
    Modulus,
    BitwiseOr,
    BitwiseAnd,
    BitwiseXor,
    LeftShift,
    RightShift,
    BitwiseNot,
    GreaterThan,
    LessThan,
    GreaterThanEqual,
    LessThanEqual,
    EqualEqual,
    NotEqual,
    And,
    Or,
    Not,
    Var,
    Const,
    If,
    Else,
    Func,
    Struct,
    Type,
    Import,
    As,
    From,
    Return,
    Word(Seq<char>),
    Integer(i64),
    Float(Seq<char>),
    Boolean(bool),
    String(Seq<char>),
    Annotation(Seq<char>),
}

impl View for Token {
    type V = TokenView;

    open spec fn view(&self) -> TokenView {
        match self {
            Token::NewLine => TokenView::NewLine,
            Token::Indent => TokenView::Indent,
            Token::Dedent => TokenView::Dedent,
            Token::OpenBrace => TokenView::OpenBrace,
            Token::CloseBrace => TokenView::CloseBrace,
            Token::OpenParen => TokenView::OpenParen,
            Token::CloseParen => TokenView::CloseParen,
            Token::OpenBracket => TokenView::OpenBracket,
            Token::CloseBracket => TokenView::CloseBracket,
            Token::DoubleColon => TokenView::DoubleColon,
            Token::Arrow => TokenView::Arrow,
            Token::Equal => TokenView::Equal,
            Token::Colon => TokenView::Colon,
            Token::Comma => TokenView::Comma,
            Token::At => TokenView::At,
            Token::Plus => TokenView::Plus,
            Token::Minus => TokenView::Minus,
            Token::Multiply => TokenView::Multiply,
            Token::Divide => TokenView::Divide,
            Token::Modulus => TokenView::Modulus,
            Token::BitwiseOr => TokenView::BitwiseOr,
            Token::BitwiseAnd => TokenView::BitwiseAnd,
            Token::BitwiseXor => TokenView::BitwiseXor,
            Token::LeftShift => TokenView::LeftShift,
            Token::RightShift => TokenView::RightShift,
            Token::BitwiseNot => TokenView::BitwiseNot,
            Token::GreaterThan => TokenView::GreaterThan,
            Token::LessThan => TokenView::LessThan,
            Token::GreaterThanEqual => TokenView::GreaterThanEqual,
            Token::LessThanEqual => TokenView::LessThanEqual,
            Token::EqualEqual => TokenView::EqualEqual,
            Token::NotEqual => TokenView::NotEqual,
            Token::And => TokenView::And,
            Token::Or => TokenView::Or,
            Token::Not => TokenView::Not,
            Token::Var => TokenView::Var,
            Token::Const => TokenView::Const,
            Token::If => TokenView::If,
            Token::Else => TokenView::Else,
            Token::Func => TokenView::Func,
            Token::Struct => TokenView::Struct,
            Token::Type => TokenView::Type,
            Token::Import => TokenView::Import,
            Token::As => TokenView::As,
            Token::From => TokenView::From,
            Token::Return => TokenView::Return,
            Token::Word(s) => TokenView::Word(s@),
            Token::Integer(v) => TokenView::Integer(*v),
            Token::Float(s) => TokenView::Float(s@),
            Token::Boolean(b) => TokenView::Boolean(*b),
            Token::String(s) => TokenView::String(s@),
            Token::Annotation(s) => TokenView::Annotation(s@),
        }
    }
}

impl Clone for Token {
    fn clone(&self) -> (r: Self)
        ensures
            r == *self,
    {
        match self {
            Token::NewLine => Token::NewLine,
            Token::Indent => Token::Indent,
            Token::Dedent => Token::Dedent,
            Token::OpenBrace => Token::OpenBrace,
            Token::CloseBrace => Token::CloseBrace,
            Token::OpenParen => Token::OpenParen,
            Token::CloseParen => Token::CloseParen,
            Token::OpenBracket => Token::OpenBracket,
            Token::CloseBracket => Token::CloseBracket,
            Token::DoubleColon => Token::DoubleColon,
            Token::Arrow => Token::Arrow,
            Token::Equal => Token::Equal,
            Token::Colon => Token::Colon,
            Token::Comma => Token::Comma,
            Token::At => Token::At,
            Token::Plus => Token::Plus,
            Token::Minus => Token::Minus,
            Token::Multiply => Token::Multiply,
            Token::Divide => Token::Divide,
            Token::Modulus => Token::Modulus,
            Token::BitwiseOr => Token::BitwiseOr,
            Token::BitwiseAnd => Token::BitwiseAnd,
            Token::BitwiseXor => Token::BitwiseXor,
            Token::LeftShift => Token::LeftShift,
            Token::RightShift => Token::RightShift,
            Token::BitwiseNot => Token::BitwiseNot,
            Token::GreaterThan => Token::GreaterThan,
            Token::LessThan => Token::LessThan,
            Token::GreaterThanEqual => Token::GreaterThanEqual,
            Token::LessThanEqual => Token::LessThanEqual,
            Token::EqualEqual => Token::EqualEqual,
            Token::NotEqual => Token::NotEqual,
            Token::And => Token::And,
            Token::Or => Token::Or,
            Token::Not => Token::Not,
            Token::Var => Token::Var,
            Token::Const => Token::Const,
            Token::If => Token::If,
            Token::Else => Token::Else,
            Token::Func => Token::Func,
            Token::Struct => Token::Struct,
            Token::Type => Token::Type,
            Token::Import => Token::Import,
            Token::As => Token::As,
            Token::From => Token::From,
            Token::Return => Token::Return,
            Token::Word(s) => Token::Word(s.clone()),
            Token::Integer(v) => Token::Integer(*v),
            Token::Float(s) => Token::Float(s.clone()),
            Token::Boolean(b) => Token::Boolean(*b),
            Token::String(s) => Token::String(s.clone()),
            Token::Annotation(s) => Token::Annotation(s.clone()),
        }
    }
}

/// The value of a token with its span.
pub type Spanned = (TokenView, Span);

/// The values of the tokens of a list, with their spans.
pub open spec fn spanned(v: Seq<(Token, Span)>) -> Seq<Spanned> {
    Seq::new(v.len(), |i: int| (v[i].0@, v[i].1))
}

/// The values of the tokens of a list, without their spans.
pub open spec fn kinds(v: Seq<Spanned>) -> Seq<TokenView> {
    Seq::new(v.len(), |i: int| v[i].0)
}

/// A stream of tokens with their spans, read from front to back with one
/// token of lookahead.
#[derive(Debug)]
pub struct Scanner {
    tokens: Vec<(Token, Span)>,
    position: usize,
}

impl Scanner {
    #[verifier::type_invariant]
    spec fn in_bounds(&self) -> bool {
        self.position <= self.tokens.len()
    }

    /// All tokens of the stream with their spans, read or not.
    pub closed spec fn all(&self) -> Seq<Spanned> {
        spanned(self.tokens@)
    }

    /// The number of tokens that were read.
    pub closed spec fn consumed(&self) -> nat {
        self.position as nat
    }

    /// The position of the next token in the list of all tokens.
    pub open spec fn position(&self) -> int {
        self.consumed() as int
    }

    /// The tokens that are still to be read.
    pub open spec fn remaining(&self) -> Seq<TokenView> {
        kinds(self.all().skip(self.position()))
    }

    /// A stream of the given tokens, none of them read.
    pub fn from_tokens(tokens: Vec<(Token, Span)>) -> (r: Scanner)
        ensures
            r.all() == spanned(tokens@),
            r.position() == 0,
    {
        Scanner { tokens, position: 0 }
    }

    /// The next token, which stays unread.
    pub fn peek(&self) -> (r: Option<&Token>)
        ensures
            self.position() <= self.all().len(),
            match r {
                Some(t) => self.position() < self.all().len() && t@ == self.all()[
                    self.position()
                ].0,
                None => self.position() == self.all().len(),
            },
    {
        proof {
            use_type_invariant(self);
        }
        if self.position < self.tokens.len() {
            Some(&self.tokens[self.position].0)
        } else {
            None
        }
    }

    /// The span of the next token; an empty span at the end of the stream.
    pub fn peek_span(&self) -> (r: Span)
        ensures
            self.position() < self.all().len() ==> r == self.all()[self.position()].1,
    {
        proof {
            use_type_invariant(self);
        }
        if self.position < self.tokens.len() {
            self.tokens[self.position].1.start..self.tokens[self.position].1.end
        } else {
            0..0
        }
    }

    /// The token after the next one, which stays unread.
    pub fn peek_second(&self) -> (r: Option<&Token>)
        ensures
            match r {
                Some(t) => self.position() + 1 < self.all().len() && t@ == self.all()[
                    self.position() + 1
                ].0,
                None => self.position() + 1 >= self.all().len(),
            },
    {
        proof {
            use_type_invariant(self);
        }
        if self.position < self.tokens.len() && self.position + 1 < self.tokens.len() {
            Some(&self.tokens[self.position + 1].0)
        } else {
            None
        }
    }

    /// Reads the next token, if there is one, and drops it.
    pub fn advance(&mut self)
        ensures
            final(self).all() == old(self).all(),
            final(self).position() == if old(self).position() < old(self).all().len() {
                old(self).position() + 1
            } else {
                old(self).position()
            },
    {
        proof {
            use_type_invariant(&*self);
        }
        if self.position < self.tokens.len() {
            self.position = self.position + 1;
        }
    }

    /// Reads the next token with its span; `None` at the end of the stream.
    pub fn next(&mut self) -> (r: Option<(Token, Span)>)
        ensures
            final(self).all() == old(self).all(),
            match r {
                Some(item) => {
                    &&& old(self).position() < old(self).all().len()
                    &&& (item.0@, item.1) == old(self).all()[old(self).position()]
                    &&& final(self).position() == old(self).position() + 1
                },
                None => old(self).position() == old(self).all().len() && final(self).position()
                    == old(self).position(),
            },
    {
        proof {
            use_type_invariant(&*self);
        }
        if self.position < self.tokens.len() {
            let token = self.tokens[self.position].0.clone();
            let span = self.tokens[self.position].1.start..self.tokens[self.position].1.end;
            self.position = self.position + 1;
            Some((token, span))
        } else {
            None
        }
    }

    /// The tokens that are still to be read, without their spans.
    pub fn tokens(&self) -> (r: Vec<Token>)
        ensures
            Seq::new(r@.len(), |i: int| r@[i]@) == self.remaining(),
    {
        proof {
            use_type_invariant(self);
        }
        let mut out: Vec<Token> = Vec::new();
        let mut i: usize = self.position;
        while i < self.tokens.len()
            invariant
                self.position <= i <= self.tokens.len(),
                out.len() == i - self.position,
                forall|j: int| 0 <= j < out.len() ==> out[j]@ == self.tokens[self.position + j].0@,
            decreases self.tokens.len() - i,
        {
            out.push(self.tokens[i].0.clone());
            i = i + 1;
        }
        assert(Seq::new(out@.len(), |i: int| out@[i]@) =~= self.remaining());
        out
    }
}

impl Clone for Scanner {
    fn clone(&self) -> (r: Self)
        ensures
            r.all() == self.all(),
            r.position() == self.position(),
    {
        proof {
            use_type_invariant(self);
        }
        let mut tokens: Vec<(Token, Span)> = Vec::new();
        let mut i: usize = 0;
        while i < self.tokens.len()
            invariant
                i <= self.tokens.len(),
                tokens.len() == i,
                forall|j: int| 0 <= j < i ==> tokens[j].0 == self.tokens[j].0 && tokens[j].1
                    == self.tokens[j].1,
            decreases self.tokens.len() - i,
        {
            tokens.push(
                (self.tokens[i].0.clone(), self.tokens[i].1.start..self.tokens[i].1.end),
            );
            i = i + 1;
        }
        assert(spanned(tokens@) =~= spanned(self.tokens@));
        Scanner { tokens, position: self.position }
    }
}

} // verus!
