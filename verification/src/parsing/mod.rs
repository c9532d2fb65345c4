//! Parsing state, parse errors and the token matchers every parser uses.
use vstd::prelude::*;

use crate::lexer::Lexer;
use crate::location::{Located, LocationRange, point_range, default_range};
use crate::token::{Delimiter, Keyword, Operator, Token, TokenKind, TokenKindView, TokenView};

pub mod pratt_parser;
pub mod lookup_parser;
pub mod ty;
pub mod expr;
pub mod items;

verus! {

#[derive(Debug, Clone)]
pub enum ParseError {
    MissingKeyword(Keyword),
    MissingDelimiter(Delimiter),
    MissingIdentifier(String),
    MissingOperator(Operator),
    ItemParseError(ItemParseError),
    TypeParseError(TypeParseError),
    StmtParseError(StmtParseError),
    ExprParseError(ExprParseError),
    FuncParseError(FunctionParseError),
}

#[derive(Debug, Clone)]
pub enum ItemParseError {
    UnexpectedToken(TokenKind),
}

#[derive(Debug, Clone)]
pub enum TypeParseError {
    UnexpectedToken(TokenKind),
    UnexpectedInfixOperator(TokenKind),
    IntegerSizeOutOfRange(u16),
    ExpectedArrayLength,
    InvalidArrayLength(i64),
}

#[derive(Debug, Clone)]
pub enum StmtParseError {
    UnexpectedToken(TokenKind),
}

#[derive(Debug, Clone)]
pub enum ExprParseError {
    UnexpectedToken(TokenKind),
    UnexpectedInfixOperator(TokenKind),
}

#[derive(Debug, Clone)]
pub enum FunctionParseError {
    MissingFunctionBody { func_name: String },
}

/// The parser's state: the lexer and the errors recorded so far.
pub struct ParseContext {
    errors: Vec<Located<ParseError>>,
    lexer: Lexer,
}

/// The range of the position just after the last token taken, where a missing token is
/// reported.
pub open spec fn missing_loc(prev: LocationRange) -> LocationRange {
    point_range(crate::location::Location { line: prev.end.line, col: (prev.end.col + 1) as u32 })
}

/// What every parsing step keeps: the context stays well formed, the source stays the
/// same, tokens are only taken (never put back), and errors are only appended.
pub open spec fn advanced(old: ParseContext, new: ParseContext) -> bool {
    &&& new.wf()
    &&& new.lex().src() == old.lex().src()
    &&& new.lex().remaining() <= old.lex().remaining()
    &&& new.lex().pos() >= old.lex().pos()
    &&& old.errors().len() <= new.errors().len()
    &&& new.errors().subrange(0, old.errors().len() as int) == old.errors()
}

/// The new context took exactly the next token from the old one.
pub open spec fn took_one(old: ParseContext, new: ParseContext) -> bool {
    &&& new.lex().src() == old.lex().src()
    &&& forall|n: nat| #[trigger] new.lex().upcoming(n) == old.lex().upcoming(n + 1)
    &&& new.lex().remaining() == (if old.lex().upcoming(0).kind is EndOfFile {
        old.lex().remaining()
    } else {
        (old.lex().remaining() - 1) as nat
    })
    &&& new.lex().prev() == old.lex().upcoming(0).loc
    &&& (!(old.lex().upcoming(0).kind is EndOfFile) ==> old.lex().remaining() > 0)
    &&& new.lex().start_settled()
}

/// The new context took exactly the next `n` tokens of the old one.
pub open spec fn took_n(old: ParseContext, new: ParseContext, n: nat) -> bool {
    forall|k: nat| #[trigger] new.lex().upcoming(k) == old.lex().upcoming(k + n)
}

pub proof fn lemma_took_n_one(a: ParseContext, b: ParseContext, c: ParseContext, n: nat)
    requires
        took_n(a, b, n),
        took_one(b, c),
    ensures
        took_n(a, c, n + 1),
{
    assert forall|k: nat| #[trigger] c.lex().upcoming(k) == a.lex().upcoming(k + (n + 1)) by {
        assert(c.lex().upcoming(k) == b.lex().upcoming(k + 1));
        assert(b.lex().upcoming(k + 1) == a.lex().upcoming(k + 1 + n));
    }
}

pub proof fn lemma_took_n_same(a: ParseContext, b: ParseContext, c: ParseContext, n: nat)
    requires
        took_n(a, b, n),
        untouched(b, c),
    ensures
        took_n(a, c, n),
{
    assert forall|k: nat| #[trigger] c.lex().upcoming(k) == a.lex().upcoming(k + n) by {
        assert(c.lex().upcoming(k) == b.lex().upcoming(k));
    }
}

pub proof fn lemma_took_n_trans(a: ParseContext, b: ParseContext, c: ParseContext, n: nat, m: nat)
    requires
        took_n(a, b, n),
        took_n(b, c, m),
    ensures
        took_n(a, c, n + m),
{
    assert forall|k: nat| #[trigger] c.lex().upcoming(k) == a.lex().upcoming(k + (n + m)) by {
        assert(c.lex().upcoming(k) == b.lex().upcoming(k + m));
        assert(b.lex().upcoming(k + m) == a.lex().upcoming(k + m + n));
    }
}

pub proof fn lemma_took_n_first(a: ParseContext, b: ParseContext)
    requires
        took_one(a, b),
    ensures
        took_n(a, b, 1),
{
    assert forall|k: nat| #[trigger] b.lex().upcoming(k) == a.lex().upcoming(k + 1) by {
    }
}

/// Looking at tokens without taking any (as `peek_kind` and `peek_token` do) leaves the
/// range of the last token taken, and so where a missing token is reported, unchanged;
/// only taking a token (`next_token`) moves it, to that token's range.
pub proof fn lemma_prev_moves_only_on_take(a: ParseContext, b: ParseContext, c: ParseContext)
    requires
        untouched(a, b),
        took_one(b, c),
    ensures
        b.lex().prev() == a.lex().prev(),
        c.lex().prev() == a.lex().upcoming(0).loc,
{
}

/// The new context hands out the same tokens as the old one.
pub open spec fn untouched(old: ParseContext, new: ParseContext) -> bool {
    new.lex().same_stream(old.lex())
}

pub open spec fn peek_is(ctx: ParseContext, k: TokenKindView) -> bool {
    ctx.lex().upcoming(0).kind == k
}

/// The next token the context hands out.
pub open spec fn next_of(ctx: ParseContext) -> TokenView {
    ctx.lex().upcoming(0)
}

/// What follows an element of a list, from `m` to `b`: nothing when the closing delimiter
/// `delim` is next; otherwise the separator `sep` is taken, or reported missing just after
/// the element, and the list goes on.
pub open spec fn sep_step(m: ParseContext, b: ParseContext, sep: Delimiter, delim: Delimiter) -> bool {
    &&& advanced(m, b)
    &&& if peek_is(m, TokenKindView::Delimiter(delim)) {
        untouched(m, b) && b.errors() == m.errors()
    } else if peek_is(m, TokenKindView::Delimiter(sep)) {
        took_one(m, b) && b.errors() == m.errors()
    } else {
        untouched(m, b) && b.errors() == m.errors().push(
            Located(ParseError::MissingDelimiter(sep), missing_loc(m.lex().prev())),
        )
    }
}

/// What every parser of this crate promises: it only moves forward; a result took at
/// least one token; a failure recorded at least one error.
pub open spec fn parsed<T>(old: ParseContext, new: ParseContext, r: Option<T>) -> bool {
    &&& advanced(old, new)
    &&& r is Some ==> new.lex().remaining() < old.lex().remaining()
    &&& r is None ==> old.errors().len() < new.errors().len()
}

/// A syntax node that parses itself from a context, recording errors when the tokens do
/// not match its rules.
pub trait Parse: Sized {
    fn parse(ctx: &mut ParseContext) -> (r: Option<Self>)
        requires
            old(ctx).wf(),
        ensures
            parsed(*old(ctx), *final(ctx), r),
    ;
}

/// A syntax node that tries to parse itself from a context, recording no error when the
/// tokens do not match its rules.
pub trait TryParse: Sized {
    fn try_parse(ctx: &mut ParseContext) -> (r: Option<Self>)
        requires
            old(ctx).wf(),
        ensures
            advanced(*old(ctx), *final(ctx)),
            final(ctx).errors() == old(ctx).errors(),
            r is Some ==> final(ctx).lex().remaining() < old(ctx).lex().remaining(),
    ;
}

pub proof fn lemma_advanced_trans(a: ParseContext, b: ParseContext, c: ParseContext)
    requires
        advanced(a, b),
        advanced(b, c),
    ensures
        advanced(a, c),
{
    assert(c.errors().subrange(0, a.errors().len() as int) =~= c.errors().subrange(
        0,
        b.errors().len() as int,
    ).subrange(0, a.errors().len() as int));
}

pub proof fn lemma_advanced_refl(a: ParseContext)
    requires
        a.wf(),
    ensures
        advanced(a, a),
{
    assert(a.errors().subrange(0, a.errors().len() as int) =~= a.errors());
}

impl ParseContext {
    pub closed spec fn errors(&self) -> Seq<Located<ParseError>> {
        self.errors@
    }

    pub open spec fn wf(&self) -> bool {
        &&& self.lex().wf()
        &&& self.lex().queued() <= 1
    }

    /// The context's lexer.
    pub closed spec fn lex(&self) -> Lexer {
        self.lexer
    }

    /// Whether the lexer has read the whole source.
    pub fn is_eof(&self) -> (r: bool)
        requires
            self.wf(),
        ensures
            r == self.lex().at_end(),
    {
        self.lexer.is_eof()
    }

    pub fn new(lexer: Lexer) -> (r: Self)
        ensures
            r.lex() == lexer,
            r.errors().len() == 0,
    {
        ParseContext { errors: Vec::new(), lexer }
    }

    /// Records an error.
    pub fn push_error(&mut self, e: Located<ParseError>)
        ensures
            final(self).lex() == old(self).lex(),
            final(self).errors() == old(self).errors().push(e),
    {
        self.errors.push(e);
    }

    /// Drops the errors recorded after the first `n`.
    pub fn truncate_errors(&mut self, n: usize)
        requires
            n <= old(self).errors().len(),
        ensures
            final(self).lex() == old(self).lex(),
            final(self).errors() == old(self).errors().subrange(0, n as int),
    {
        self.errors.truncate(n);
    }

    pub fn error_count(&self) -> (r: usize)
        ensures
            r == self.errors().len(),
    {
        self.errors.len()
    }

    /// `Ok` when no error was recorded, the recorded errors otherwise.
    pub fn finalize(self) -> (r: Result<(), Vec<Located<ParseError>>>)
        ensures
            r is Ok <==> self.errors().len() == 0,
            r matches Err(v) ==> v@ == self.errors(),
    {
        if self.errors.len() == 0 {
            Ok(())
        } else {
            Err(self.errors)
        }
    }

    /// The kind of the next token.
    pub fn peek_kind(&mut self) -> (r: &TokenKind)
        requires
            old(self).wf(),
        ensures
            final(self).wf(),
            r@ == old(self).lex().upcoming(0).kind,
            untouched(*old(self), *final(self)),
            final(self).errors() == old(self).errors(),
            advanced(*old(self), *final(self)),
    {
        let r = self.lexer.peek_token_kind(0);
        proof {
            lemma_advanced_refl(*old(self));
        }
        r
    }

    /// A copy of the next token.
    pub fn peek_token(&mut self) -> (r: Token)
        requires
            old(self).wf(),
        ensures
            final(self).wf(),
            r@ == old(self).lex().upcoming(0),
            untouched(*old(self), *final(self)),
            final(self).errors() == old(self).errors(),
            advanced(*old(self), *final(self)),
    {
        let r = self.lexer.peek_token(0).duplicate();
        proof {
            lemma_advanced_refl(*old(self));
        }
        r
    }

    /// Takes the next token.
    pub fn next_token(&mut self) -> (r: Token)
        requires
            old(self).wf(),
        ensures
            r@ == old(self).lex().upcoming(0),
            took_one(*old(self), *final(self)),
            final(self).errors() == old(self).errors(),
            advanced(*old(self), *final(self)),
            r@.kind is EndOfFile ==> final(self).lex().at_end(),
    {
        let r = self.lexer.next_token();
        proof {
            assert(self.errors().subrange(0, old(self).errors().len() as int) =~= old(self).errors());
        }
        r
    }

    /// Where a missing token is reported: just after the last token taken.
    pub fn missing_here(&self) -> (r: LocationRange)
        requires
            self.wf(),
        ensures
            r == missing_loc(self.lex().prev()),
    {
        proof {
            self.lexer.lemma_prev_bounded();
        }
        self.lexer.get_prev_loc().next().into_range()
    }

    /// Takes the next token when it is the delimiter `d`; otherwise reports where it is
    /// missing, taking nothing.
    pub fn match_delimiter(&mut self, d: Delimiter) -> (r: Result<
        Located<Delimiter>,
        Located<ParseError>,
    >)
        requires
            old(self).wf(),
        ensures
            advanced(*old(self), *final(self)),
            final(self).errors() == old(self).errors(),
            peek_is(*old(self), TokenKindView::Delimiter(d)) ==> (r matches Ok(v) && v.0 == d
                && v.1 == old(self).lex().upcoming(0).loc && took_one(*old(self), *final(self))),
            !peek_is(*old(self), TokenKindView::Delimiter(d)) ==> (r matches Err(e) && e.1
                == missing_loc(old(self).lex().prev()) && e.0 == ParseError::MissingDelimiter(
                d,
            ) && untouched(*old(self), *final(self))),
    {
        let is = match self.peek_kind() {
            TokenKind::Delimiter(v) => *v == d,
            _ => false,
        };
        if is {
            let t = self.next_token();
            Ok(Located(d, t.loc))
        } else {
            Err(Located(ParseError::MissingDelimiter(d), self.missing_here()))
        }
    }

    /// Takes the next token when it is the delimiter `d`; otherwise records that it is
    /// missing and stands in a delimiter without a location.
    pub fn expect_delimiter(&mut self, d: Delimiter) -> (r: Located<Delimiter>)
        requires
            old(self).wf(),
        ensures
            advanced(*old(self), *final(self)),
            r.0 == d,
            peek_is(*old(self), TokenKindView::Delimiter(d)) ==> r.1 == old(self).lex().upcoming(
                0,
            ).loc && took_one(*old(self), *final(self)) && final(self).errors() == old(self).errors(),
            !peek_is(*old(self), TokenKindView::Delimiter(d)) ==> r.1 == default_range()
                && untouched(*old(self), *final(self)) && final(self).errors() == old(self).errors().push(Located(ParseError::MissingDelimiter(d), missing_loc(old(self).lex().prev()))),
    {
        match self.match_delimiter(d) {
            Ok(v) => v,
            Err(e) => {
                self.push_error(e);
                proof {
                    assert(self.errors().subrange(0, old(self).errors().len() as int) =~= old(self).errors());
                }
                Located::new_temporary(d)
            },
        }
    }

    /// Takes the next token when it is the keyword `k`; otherwise reports where it is
    /// missing, taking nothing.
    pub fn match_keyword(&mut self, k: Keyword) -> (r: Result<Located<Keyword>, Located<ParseError>>)
        requires
            old(self).wf(),
        ensures
            advanced(*old(self), *final(self)),
            final(self).errors() == old(self).errors(),
            peek_is(*old(self), TokenKindView::Keyword(k)) ==> (r matches Ok(v) && v.0 == k && v.1
                == old(self).lex().upcoming(0).loc && took_one(*old(self), *final(self))),
            !peek_is(*old(self), TokenKindView::Keyword(k)) ==> (r matches Err(e) && e.1
                == missing_loc(old(self).lex().prev()) && e.0 == ParseError::MissingKeyword(k)
                && untouched(*old(self), *final(self))),
    {
        let is = match self.peek_kind() {
            TokenKind::Keyword(v) => *v == k,
            _ => false,
        };
        if is {
            let t = self.next_token();
            Ok(Located(k, t.loc))
        } else {
            Err(Located(ParseError::MissingKeyword(k), self.missing_here()))
        }
    }

    /// Takes the next token when it is the keyword `k`; otherwise records that it is
    /// missing and stands in a keyword without a location.
    pub fn expect_keyword(&mut self, k: Keyword) -> (r: Located<Keyword>)
        requires
            old(self).wf(),
        ensures
            advanced(*old(self), *final(self)),
            r.0 == k,
            peek_is(*old(self), TokenKindView::Keyword(k)) ==> r.1 == old(self).lex().upcoming(
                0,
            ).loc && took_one(*old(self), *final(self)) && final(self).errors() == old(self).errors(),
            !peek_is(*old(self), TokenKindView::Keyword(k)) ==> r.1 == default_range()
                && untouched(*old(self), *final(self)) && final(self).errors() == old(self).errors().push(Located(ParseError::MissingKeyword(k), missing_loc(old(self).lex().prev()))),
    {
        match self.match_keyword(k) {
            Ok(v) => v,
            Err(e) => {
                self.push_error(e);
                proof {
                    assert(self.errors().subrange(0, old(self).errors().len() as int) =~= old(self).errors());
                }
                Located::new_temporary(k)
            },
        }
    }

    /// Takes the next token when it is the operator `op`; otherwise reports where it is
    /// missing, taking nothing.
    pub fn match_operator(&mut self, op: Operator) -> (r: Result<
        Located<Operator>,
        Located<ParseError>,
    >)
        requires
            old(self).wf(),
        ensures
            advanced(*old(self), *final(self)),
            final(self).errors() == old(self).errors(),
            peek_is(*old(self), TokenKindView::Operator(op)) ==> (r matches Ok(v) && v.0 == op
                && v.1 == old(self).lex().upcoming(0).loc && took_one(*old(self), *final(self))),
            !peek_is(*old(self), TokenKindView::Operator(op)) ==> (r matches Err(e) && e.1
                == missing_loc(old(self).lex().prev()) && e.0 == ParseError::MissingOperator(op)
                && untouched(*old(self), *final(self))),
    {
        let is = match self.peek_kind() {
            TokenKind::Operator(v) => *v == op,
            _ => false,
        };
        if is {
            let t = self.next_token();
            Ok(Located(op, t.loc))
        } else {
            Err(Located(ParseError::MissingOperator(op), self.missing_here()))
        }
    }

    /// Takes the next token when it is the operator `op`; otherwise records that it is
    /// missing and stands in an operator without a location.
    pub fn expect_operator(&mut self, op: Operator) -> (r: Located<Operator>)
        requires
            old(self).wf(),
        ensures
            advanced(*old(self), *final(self)),
            r.0 == op,
            peek_is(*old(self), TokenKindView::Operator(op)) ==> r.1 == old(self).lex().upcoming(
                0,
            ).loc && took_one(*old(self), *final(self)) && final(self).errors() == old(self).errors(),
            !peek_is(*old(self), TokenKindView::Operator(op)) ==> r.1 == default_range()
                && untouched(*old(self), *final(self)) && final(self).errors() == old(self).errors().push(Located(ParseError::MissingOperator(op), missing_loc(old(self).lex().prev()))),
    {
        match self.match_operator(op) {
            Ok(v) => v,
            Err(e) => {
                self.push_error(e);
                proof {
                    assert(self.errors().subrange(0, old(self).errors().len() as int) =~= old(self).errors());
                }
                Located::new_temporary(op)
            },
        }
    }

    /// Takes the next token when it is an identifier, giving its name and range.
    pub fn match_identifier(&mut self) -> (r: Option<Located<String>>)
        requires
            old(self).wf(),
        ensures
            advanced(*old(self), *final(self)),
            final(self).errors() == old(self).errors(),
            old(self).lex().upcoming(0).kind is Identifier ==> (r matches Some(v) && v.0@ == old(self).lex().upcoming(0).kind->Identifier_0 && v.1 == old(self).lex().upcoming(0).loc
                && took_one(*old(self), *final(self))),
            !(old(self).lex().upcoming(0).kind is Identifier) ==> r is None && untouched(
                *old(self),
                *final(self),
            ),
    {
        let is = match self.peek_kind() {
            TokenKind::Identifier(_) => true,
            _ => false,
        };
        if is {
            let t = self.next_token();
            match t.kind {
                TokenKind::Identifier(id) => Some(Located(id.0, t.loc)),
                _ => {
                    assert(false);
                    None
                },
            }
        } else {
            None
        }
    }

    /// Takes the next token when it is an identifier; otherwise records that an
    /// identifier (described by `what`) is missing.
    pub fn expect_identifier(&mut self, what: String) -> (r: Option<Located<String>>)
        requires
            old(self).wf(),
        ensures
            advanced(*old(self), *final(self)),
            old(self).lex().upcoming(0).kind is Identifier ==> (r matches Some(v) && v.0@ == old(self).lex().upcoming(0).kind->Identifier_0 && v.1 == old(self).lex().upcoming(0).loc
                && took_one(*old(self), *final(self)) && final(self).errors() == old(self).errors()),
            !(old(self).lex().upcoming(0).kind is Identifier) ==> r is None && untouched(
                *old(self),
                *final(self),
            ) && final(self).errors() == old(self).errors().push(
                Located(ParseError::MissingIdentifier(what), missing_loc(old(self).lex().prev())),
            ),
    {
        match self.match_identifier() {
            Some(v) => Some(v),
            None => {
                let loc = self.missing_here();
                self.push_error(Located(ParseError::MissingIdentifier(what), loc));
                proof {
                    assert(self.errors().subrange(0, old(self).errors().len() as int) =~= old(self).errors());
                }
                None
            },
        }
    }
}

} // verus!
