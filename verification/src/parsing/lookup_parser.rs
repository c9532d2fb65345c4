//! A table from the class of the next token to the handler that parses what it starts.
use vstd::prelude::*;

use crate::parsing::pratt_parser::{find, table_get, table_view};
use crate::parsing::{ParseContext, untouched, advanced};
use crate::token::{Token, TokenKind, TokenKindView};

verus! {

/// The handlers of a grammar, in the order they are registered.
pub trait Handlers<H> {
    /// The registrations: a token class and its handler, in order.
    spec fn table(&self) -> Seq<(TokenKindView, H)>;

    fn handlers(&self) -> (r: Vec<(TokenKind, H)>)
        ensures
            table_view(r@) == self.table(),
    ;
}

pub struct LookUpParser<H> {
    lookup: Vec<(TokenKind, H)>,
}

#[derive(Debug, Clone)]
pub enum LookUpParseError {
    NoHandlerFound(Token),
    ParseError,
}

/// What parsing through a handler gives: its result, or `ParseError` when it failed.
pub fn handler_result<R>(r: Option<R>) -> (res: Result<R, LookUpParseError>)
    ensures
        r matches Some(v) ==> res == Ok::<R, LookUpParseError>(v),
        r is None ==> res == Err::<R, LookUpParseError>(LookUpParseError::ParseError),
{
    match r {
        Some(v) => Ok(v),
        None => Err(LookUpParseError::ParseError),
    }
}

impl<H: Copy> LookUpParser<H> {
    pub closed spec fn handler_of(&self, k: TokenKindView) -> Option<H> {
        find(table_view(self.lookup@), k)
    }

    /// A parser whose table holds the given registrations, in order.
    pub fn from_table(lookup: Vec<(TokenKind, H)>) -> (r: Self)
        ensures
            forall|k: TokenKindView| #[trigger] r.handler_of(k) == find(table_view(lookup@), k),
    {
        LookUpParser { lookup }
    }

    pub fn new<T: Handlers<H>>(handlers: &T) -> (r: Self)
        ensures
            forall|k: TokenKindView| #[trigger] r.handler_of(k) == find(handlers.table(), k),
    {
        LookUpParser::from_table(handlers.handlers())
    }

    /// The handler registered for the class of the next token; `NoHandlerFound` with that
    /// token when there is none. Takes no token.
    pub fn parse(&self, ctx: &mut ParseContext) -> (r: Result<H, LookUpParseError>)
        requires
            old(ctx).wf(),
        ensures
            advanced(*old(ctx), *final(ctx)),
            untouched(*old(ctx), *final(ctx)),
            final(ctx).errors() == old(ctx).errors(),
            r matches Ok(h) ==> self.handler_of(old(ctx).lex().upcoming(0).kind) == Some(h),
            r matches Err(e) ==> self.handler_of(old(ctx).lex().upcoming(0).kind) is None && (
            e matches LookUpParseError::NoHandlerFound(t) && t@ == old(ctx).lex().upcoming(0)),
    {
        let kind = ctx.peek_kind();
        match table_get(&self.lookup, kind) {
            Some(h) => Ok(h),
            None => Err(LookUpParseError::NoHandlerFound(ctx.peek_token())),
        }
    }
}

} // verus!
