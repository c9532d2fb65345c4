//! Parsing of type names: `int`, `bool`, `()` and named types.
use vstd::prelude::*;

use crate::ast::{PrimType, Type};
use crate::location::{Located, spec_combine};
use crate::parsing::pratt_parser::{
    BindingPower, Handlers, PrattParseError, PrattParser, bp_part, find, led_part, table_view,
};
use crate::parsing::{
    Parse, ParseContext, ParseError, TryParse, TypeParseError, advanced, untouched, peek_is, took_one,
};
use crate::token::{
    Delimiter, Identifier, Token, TokenKind, TokenKindView, TypeKeyword,
};

verus! {

/// Binding strength in the type grammar.
#[derive(Debug, Clone, Copy, PartialEq, Eq, Structural)]
pub enum TypeBindingPower {
    Zero,
    Primary,
}

impl TypeBindingPower {
    pub open spec fn spec_rank(self) -> nat {
        match self {
            TypeBindingPower::Zero => 0,
            TypeBindingPower::Primary => 1,
        }
    }

    pub fn rank(&self) -> (r: u8)
        ensures
            r == self.spec_rank(),
    {
        match self {
            TypeBindingPower::Zero => 0,
            TypeBindingPower::Primary => 1,
        }
    }
}

impl BindingPower for TypeBindingPower {
    fn primary() -> (r: Self)
        ensures
            r == TypeBindingPower::Primary,
    {
        TypeBindingPower::Primary
    }

    fn zero() -> (r: Self)
        ensures
            r == TypeBindingPower::Zero,
    {
        TypeBindingPower::Zero
    }
}

/// What starts a type.
#[derive(Debug, Clone, Copy, PartialEq, Eq, Structural)]
pub enum TypeNud {
    Ident,
    Keyword,
    Unit,
}

pub struct TypeHandlers;

pub open spec fn type_nud_table() -> Seq<(TokenKindView, TypeNud)> {
    seq![
        (TokenKindView::Identifier(Seq::empty()), TypeNud::Ident),
        (TokenKindView::TypeKeyword(TypeKeyword::Bool), TypeNud::Keyword),
        (TokenKindView::TypeKeyword(TypeKeyword::Int), TypeNud::Keyword),
        (TokenKindView::Delimiter(Delimiter::ParenOpen), TypeNud::Unit),
    ]
}

/// The handler that starts a type at a token of kind `k`.
pub open spec fn type_nud_of(k: TokenKindView) -> Option<TypeNud> {
    match k {
        TokenKindView::Identifier(_) => Some(TypeNud::Ident),
        TokenKindView::TypeKeyword(_) => Some(TypeNud::Keyword),
        TokenKindView::Delimiter(Delimiter::ParenOpen) => Some(TypeNud::Unit),
        _ => None,
    }
}

pub proof fn lemma_type_nud_table(k: TokenKindView)
    ensures
        find(type_nud_table(), k) == type_nud_of(k),
{
    reveal_with_fuel(find, 5);
    let t = type_nud_table();
    assert(t.drop_last() =~= seq![
        (TokenKindView::Identifier(Seq::empty()), TypeNud::Ident),
        (TokenKindView::TypeKeyword(TypeKeyword::Bool), TypeNud::Keyword),
        (TokenKindView::TypeKeyword(TypeKeyword::Int), TypeNud::Keyword),
    ]);
    assert(t.drop_last().drop_last() =~= seq![
        (TokenKindView::Identifier(Seq::empty()), TypeNud::Ident),
        (TokenKindView::TypeKeyword(TypeKeyword::Bool), TypeNud::Keyword),
    ]);
    assert(t.drop_last().drop_last().drop_last() =~= seq![
        (TokenKindView::Identifier(Seq::empty()), TypeNud::Ident),
    ]);
    assert(t.drop_last().drop_last().drop_last().drop_last() =~= Seq::<
        (TokenKindView, TypeNud),
    >::empty());
}

/// The nud registrations of the type grammar.
pub fn type_nuds() -> (r: Vec<(TokenKind, TypeNud)>)
    ensures
        table_view(r@) == type_nud_table(),
{
    let mut v: Vec<(TokenKind, TypeNud)> = Vec::new();
    v.push((TokenKind::Identifier(Identifier(String::new())), TypeNud::Ident));
    v.push((TokenKind::TypeKeyword(TypeKeyword::Bool), TypeNud::Keyword));
    v.push((TokenKind::TypeKeyword(TypeKeyword::Int), TypeNud::Keyword));
    v.push((TokenKind::Delimiter(Delimiter::ParenOpen), TypeNud::Unit));
    assert(table_view(v@) =~= type_nud_table());
    v
}

impl Handlers<TypeNud, (), TypeBindingPower> for TypeHandlers {
    open spec fn nud_table(&self) -> Seq<(TokenKindView, TypeNud)> {
        type_nud_table()
    }

    open spec fn led_table(&self) -> Seq<(TokenKindView, ())> {
        Seq::empty()
    }

    open spec fn bp_table(&self) -> Seq<(TokenKindView, TypeBindingPower)> {
        Seq::empty()
    }

    fn nuds(&self) -> (r: Vec<(TokenKind, TypeNud)>) {
        type_nuds()
    }

    fn leds(&self) -> (r: Vec<(TokenKind, TypeBindingPower, ())>) {
        let r = Vec::new();
        assert(table_view(led_part(r@)) =~= Seq::<(TokenKindView, ())>::empty());
        assert(table_view(bp_part(r@)) =~= Seq::<(TokenKindView, TypeBindingPower)>::empty());
        r
    }
}

/// The primitive type a type keyword names.
pub open spec fn keyword_prim(k: TypeKeyword) -> PrimType {
    match k {
        TypeKeyword::Bool => PrimType::Bool,
        TypeKeyword::Int => PrimType::Int,
    }
}

/// What parsing a type from the next token gives: a named type, a primitive type, or
/// nothing.
pub open spec fn type_parse_result(ctx: ParseContext, r: Option<Type>) -> bool {
    let t = ctx.lex().upcoming(0);
    match t.kind {
        TokenKindView::Identifier(n) => r matches Some(Type::Ident(l)) && l.0@ == n && l.1 == t.loc,
        TokenKindView::TypeKeyword(k) => r matches Some(Type::Primitive(l)) && l.0 == keyword_prim(
            k,
        ) && l.1 == t.loc,
        TokenKindView::Delimiter(Delimiter::ParenOpen) => r matches Some(Type::Primitive(l))
            && l.0 == PrimType::Unit,
        _ => r is None,
    }
}

/// The error recorded when the next token cannot start a type.
pub open spec fn unexpected_type_token(e: Located<ParseError>, ctx: ParseContext) -> bool {
    &&& e.0 matches ParseError::TypeParseError(TypeParseError::UnexpectedToken(k))
    &&& k@ == ctx.lex().upcoming(0).kind
    &&& e.1 == ctx.lex().upcoming(0).loc
}

/// The type grammar's parser: the nud table of `type_nuds` and no infix handlers.
pub open spec fn is_type_parser(p: PrattParser<TypeNud, (), TypeBindingPower>) -> bool {
    &&& forall|k: TokenKindView| #[trigger] p.nud_of(k) == type_nud_of(k)
    &&& forall|k: TokenKindView| #[trigger] p.bp_of(k) is None
    &&& forall|k: TokenKindView| #[trigger] p.led_of(k) is None
}

pub fn type_parser() -> (r: PrattParser<TypeNud, (), TypeBindingPower>)
    ensures
        is_type_parser(r),
{
    let r = PrattParser::from_tables(type_nuds(), Vec::new());
    assert forall|k: TokenKindView| #[trigger] r.nud_of(k) == type_nud_of(k) by {
        lemma_type_nud_table(k);
    }
    r
}

fn parse_unit_type(ctx: &mut ParseContext) -> (r: Type)
    requires
        old(ctx).wf(),
        peek_is(*old(ctx), TokenKindView::Delimiter(Delimiter::ParenOpen)),
    ensures
        advanced(*old(ctx), *final(ctx)),
        final(ctx).lex().remaining() < old(ctx).lex().remaining(),
        r matches Type::Primitive(l) && l.0 == PrimType::Unit,
{
    let paren_open_tok = ctx.expect_delimiter(Delimiter::ParenOpen);
    let ghost mid = *ctx;
    let paren_close_tok = ctx.expect_delimiter(Delimiter::ParenClose);
    proof {
        crate::parsing::lemma_advanced_trans(*old(ctx), mid, *ctx);
    }
    Type::Primitive(
        Located(PrimType::Unit, crate::location::LocationRange::combine(paren_open_tok.1, paren_close_tok.1)),
    )
}

fn parse_keyword_type(ctx: &mut ParseContext) -> (r: Type)
    requires
        old(ctx).wf(),
        old(ctx).lex().upcoming(0).kind is TypeKeyword,
    ensures
        advanced(*old(ctx), *final(ctx)),
        final(ctx).lex().remaining() < old(ctx).lex().remaining(),
        r matches Type::Primitive(l) && l.0 == keyword_prim(
            old(ctx).lex().upcoming(0).kind->TypeKeyword_0,
        ) && l.1 == old(ctx).lex().upcoming(0).loc,
        took_one(*old(ctx), *final(ctx)),
        final(ctx).errors() == old(ctx).errors(),
{
    let t = ctx.next_token();
    match t.kind {
        TokenKind::TypeKeyword(kw) => {
            let prim_ty = match kw {
                TypeKeyword::Bool => PrimType::Bool,
                TypeKeyword::Int => PrimType::Int,
            };
            Type::Primitive(Located(prim_ty, t.loc))
        },
        _ => {
            assert(false);
            Type::Primitive(Located(PrimType::Unit, t.loc))
        },
    }
}

fn parse_ident_type(ctx: &mut ParseContext) -> (r: Type)
    requires
        old(ctx).wf(),
        old(ctx).lex().upcoming(0).kind is Identifier,
    ensures
        advanced(*old(ctx), *final(ctx)),
        final(ctx).lex().remaining() < old(ctx).lex().remaining(),
        r matches Type::Ident(l) && l.0@ == old(ctx).lex().upcoming(0).kind->Identifier_0 && l.1
            == old(ctx).lex().upcoming(0).loc,
{
    let t = ctx.next_token();
    match t.kind {
        TokenKind::Identifier(Identifier(ident)) => Type::Ident(Located(ident, t.loc)),
        _ => {
            assert(false);
            Type::Primitive(Located(PrimType::Unit, t.loc))
        },
    }
}

impl PrattParser<TypeNud, (), TypeBindingPower> {
    /// Parses a type: runs the nud handler of the next token, then infix handlers while
    /// the next token binds more strongly than `bp` (the type grammar has none).
    pub fn parse(&self, ctx: &mut ParseContext, bp: TypeBindingPower) -> (r: Result<
        Type,
        PrattParseError,
    >)
        requires
            old(ctx).wf(),
            is_type_parser(*self),
        ensures
            advanced(*old(ctx), *final(ctx)),
            r is Ok ==> final(ctx).lex().remaining() < old(ctx).lex().remaining(),
            r is Ok ==> type_parse_result(*old(ctx), Some(r->Ok_0)),
            r is Err ==> type_parse_result(*old(ctx), None),
            r is Err ==> (r->Err_0 matches PrattParseError::NoNudHandlerFound(t) && t@ == old(ctx).lex().upcoming(0)) && untouched(*old(ctx), *final(ctx)) && final(ctx).errors()
                == old(ctx).errors(),
            old(ctx).lex().upcoming(0).kind is TypeKeyword ==> r is Ok && took_one(*old(ctx), *final(ctx))
                && final(ctx).errors() == old(ctx).errors(),
    {
        let kind = ctx.peek_kind();
        let nud = match self.get_nud(kind) {
            Some(n) => n,
            None => {
                return Err(PrattParseError::NoNudHandlerFound(ctx.peek_token()));
            },
        };
        let ghost mid = *ctx;
        let left = match nud {
            TypeNud::Ident => parse_ident_type(ctx),
            TypeNud::Keyword => parse_keyword_type(ctx),
            TypeNud::Unit => parse_unit_type(ctx),
        };
        proof {
            crate::parsing::lemma_advanced_trans(*old(ctx), mid, *ctx);
        }
        let kind = ctx.peek_kind();
        let cur_bp = match self.get_bp(kind) {
            Some(b) => b,
            None => TypeBindingPower::zero_power(),
        };
        if cur_bp.rank() > bp.rank() {
            assert(false);
            return Err(PrattParseError::NoLedHandlerFound(ctx.peek_token()));
        }
        Ok(left)
    }
}

impl TypeBindingPower {
    pub fn zero_power() -> (r: TypeBindingPower)
        ensures
            r == TypeBindingPower::Zero,
    {
        TypeBindingPower::Zero
    }
}

impl Type {
    /// Parses a type, recording an error when the next token cannot start one.
    pub fn parse(ctx: &mut ParseContext) -> (r: Option<Type>)
        requires
            old(ctx).wf(),
        ensures
            advanced(*old(ctx), *final(ctx)),
            type_parse_result(*old(ctx), r),
            r is Some ==> final(ctx).lex().remaining() < old(ctx).lex().remaining(),
            r is None ==> final(ctx).errors().len() == old(ctx).errors().len() + 1,
            r is None ==> unexpected_type_token(final(ctx).errors().last(), *old(ctx)),
            old(ctx).lex().upcoming(0).kind is TypeKeyword ==> r is Some && took_one(*old(ctx), *final(ctx))
                && final(ctx).errors() == old(ctx).errors(),
    {
        let parser = type_parser();
        match parser.parse(ctx, TypeBindingPower::Zero) {
            Ok(v) => Some(v),
            Err(e) => {
                match e {
                    PrattParseError::NoNudHandlerFound(t) => {
                        ctx.push_error(
                            Located(
                                ParseError::TypeParseError(TypeParseError::UnexpectedToken(t.kind)),
                                t.loc,
                            ),
                        );
                    },
                    PrattParseError::NoLedHandlerFound(t) => {
                        ctx.push_error(
                            Located(
                                ParseError::TypeParseError(
                                    TypeParseError::UnexpectedInfixOperator(t.kind),
                                ),
                                t.loc,
                            ),
                        );
                    },
                    PrattParseError::ParseError => {},
                }
                proof {
                    assert(ctx.errors().subrange(0, old(ctx).errors().len() as int) =~= old(ctx).errors());
                }
                None
            },
        }
    }

    /// Parses a type if the next token starts one; records no error and takes nothing
    /// when it does not.
    pub fn try_parse(ctx: &mut ParseContext) -> (r: Option<Type>)
        requires
            old(ctx).wf(),
        ensures
            advanced(*old(ctx), *final(ctx)),
            type_parse_result(*old(ctx), r),
            r is Some ==> final(ctx).lex().remaining() < old(ctx).lex().remaining(),
            r is None ==> untouched(*old(ctx), *final(ctx)),
            final(ctx).errors() == old(ctx).errors(),
    {
        let n = ctx.error_count();
        let parser = type_parser();
        let r = match parser.parse(ctx, TypeBindingPower::Zero) {
            Ok(v) => Some(v),
            Err(_) => None,
        };
        ctx.truncate_errors(n);
        proof {
            assert(ctx.errors() =~= old(ctx).errors());
            assert(ctx.errors().subrange(0, old(ctx).errors().len() as int) =~= old(ctx).errors());
        }
        r
    }
}

impl Parse for Type {
    fn parse(ctx: &mut ParseContext) -> (r: Option<Type>) {
        Type::parse(ctx)
    }
}

impl TryParse for Type {
    /// Parses a type, recording no error when the next token cannot start one.
    fn try_parse(ctx: &mut ParseContext) -> (r: Option<Type>)
        ensures
            type_parse_result(*old(ctx), r),
    {
        Type::try_parse(ctx)
    }
}

} // verus!
