//! Parsing of items (functions and extern functions) and of whole source files.
use vstd::prelude::*;

use crate::ast::{
    AST, Attributes, Expr, ExternFunction, Function, FunctionSig, Item, Param, PrimType,
    Punctuated, Type,
};
use crate::parsing::ty::keyword_prim;
use crate::lexer::{Lexer, MAX_SOURCE_LEN};
use crate::location::Located;
use crate::parsing::{
    FunctionParseError, ItemParseError, Parse, ParseContext, ParseError, advanced, lemma_advanced_refl,
    lemma_advanced_trans, lemma_took_n_first, lemma_took_n_one, lemma_took_n_same, lemma_took_n_trans, next_of, parsed,
    peek_is, sep_step, took_n, untouched,
};
use crate::scan::{is_ascii, lex_ok, nth_token};
use crate::token::{Delimiter, Keyword, TokenKind, TokenKindView, TokenView};

verus! {

/// The `pub` keywords a parse of attributes takes: `n` of them, at the next `n` tokens.
pub open spec fn pub_prefix(ctx: ParseContext, attribs: Seq<Located<Keyword>>) -> bool {
    &&& forall|j: int|
        0 <= j < attribs.len() ==> #[trigger] attribs[j] == Located(
            Keyword::Pub,
            ctx.lex().upcoming(j as nat).loc,
        ) && ctx.lex().upcoming(j as nat).kind == TokenKindView::Keyword(Keyword::Pub)
    &&& ctx.lex().upcoming(attribs.len()).kind != TokenKindView::Keyword(Keyword::Pub)
}

impl Attributes {
    /// Takes the `pub` keywords written before an item.
    pub fn parse(ctx: &mut ParseContext) -> (r: Option<Attributes>)
        requires
            old(ctx).wf(),
        ensures
            advanced(*old(ctx), *final(ctx)),
            final(ctx).errors() == old(ctx).errors(),
            r matches Some(a) && pub_prefix(*old(ctx), a.attribs@) && forall|n: nat| #[trigger]
                final(ctx).lex().upcoming(n) == old(ctx).lex().upcoming(n + a.attribs@.len()),
    {
        let mut attribs: Vec<Located<Keyword>> = Vec::new();
        proof {
            lemma_advanced_refl(*ctx);
        }
        loop
            invariant
                ctx.wf(),
                advanced(*old(ctx), *ctx),
                ctx.errors() == old(ctx).errors(),
                forall|j: int|
                    0 <= j < attribs@.len() ==> #[trigger] attribs@[j] == Located(
                        Keyword::Pub,
                        old(ctx).lex().upcoming(j as nat).loc,
                    ) && old(ctx).lex().upcoming(j as nat).kind == TokenKindView::Keyword(
                        Keyword::Pub,
                    ),
                forall|n: nat| #[trigger]
                    ctx.lex().upcoming(n) == old(ctx).lex().upcoming(n + attribs@.len()),
            ensures
                !peek_is(*ctx, TokenKindView::Keyword(Keyword::Pub)),
            decreases ctx.lex().remaining(),
        {
            let ghost cs = *ctx;
            let is_pub = match ctx.peek_kind() {
                TokenKind::Keyword(k) => *k == Keyword::Pub,
                _ => false,
            };
            proof {
                lemma_advanced_trans(*old(ctx), cs, *ctx);
            }
            if !is_pub {
                break ;
            }
            let ghost c1 = *ctx;
            let t = ctx.next_token();
            proof {
                lemma_advanced_trans(*old(ctx), c1, *ctx);
                assert(ctx.lex().upcoming(0) == c1.lex().upcoming(1));
                assert forall|n: nat| #[trigger]
                    ctx.lex().upcoming(n) == old(ctx).lex().upcoming(n + attribs@.len() + 1) by {
                    assert(ctx.lex().upcoming(n) == c1.lex().upcoming(n + 1));
                    assert(c1.lex().upcoming(n + 1) == old(ctx).lex().upcoming(
                        (n + 1) + attribs@.len(),
                    ));
                }
                assert(c1.lex().upcoming(0) == old(ctx).lex().upcoming(0 + attribs@.len()));
            }
            attribs.push(Located(Keyword::Pub, t.loc));
        }
        proof {
            assert(ctx.lex().upcoming(0) == old(ctx).lex().upcoming(0 + attribs@.len()));
        }
        Some(Attributes { attribs })
    }
}

/// `ty` is the type that a type starting with the token `t` parses to, as far as one
/// token decides it (see `type_parse_result`).
pub open spec fn type_token_result(t: TokenView, ty: Type) -> bool {
    match t.kind {
        TokenKindView::Identifier(n) => ty matches Type::Ident(l) && l.0@ == n && l.1 == t.loc,
        TokenKindView::TypeKeyword(k) => ty matches Type::Primitive(l) && l.0 == keyword_prim(k)
            && l.1 == t.loc,
        TokenKindView::Delimiter(Delimiter::ParenOpen) => ty matches Type::Primitive(l) && l.0
            == PrimType::Unit,
        _ => false,
    }
}

/// Parses one parameter: a name and a type.
fn parse_param(ctx: &mut ParseContext) -> (r: Option<Param>)
    requires
        old(ctx).wf(),
    ensures
        parsed(*old(ctx), *final(ctx), r),
        r matches Some(p) ==> next_of(*old(ctx)).kind == TokenKindView::Identifier(p.0.0@) && p.0.1
            == next_of(*old(ctx)).loc,
        r matches Some(p) ==> type_token_result(old(ctx).lex().upcoming(1), p.1),
        !(next_of(*old(ctx)).kind is Identifier) ==> r is None,
{
    let name = ctx.expect_identifier("parameter name".to_owned());
    let name = match name {
        Some(n) => n,
        None => {
            return None;
        },
    };
    let ghost c1 = *ctx;
    let ty = Type::parse(ctx);
    proof {
        lemma_advanced_trans(*old(ctx), c1, *ctx);
        assert(c1.lex().upcoming(0) == old(ctx).lex().upcoming(0 + 1));
    }
    match ty {
        Some(t) => Some(Param(name, t)),
        None => None,
    }
}

/// One element of a list and what follows it: the parameter `p` is parsed from `a`, where
/// the closing delimiter `delim` is not next and `p`'s name is the next token, to `m`.
/// Then, unless `delim` is next, the separator `sep` is taken, or reported missing just
/// after the parameter, and the list goes on from `b`.
pub open spec fn list_step(
    a: ParseContext,
    m: ParseContext,
    b: ParseContext,
    p: Param,
    sep: Delimiter,
    delim: Delimiter,
) -> bool {
    &&& !peek_is(a, TokenKindView::Delimiter(delim))
    &&& next_of(a).kind == TokenKindView::Identifier(p.0.0@)
    &&& p.0.1 == next_of(a).loc
    &&& type_token_result(a.lex().upcoming(1), p.1)
    &&& parsed(a, m, Some(p))
    &&& sep_step(m, b, sep, delim)
}

/// The contexts `cs` (one more than the elements) and `ms` a list of the elements `ps`
/// went through, element by element.
pub open spec fn list_trace(
    cs: Seq<ParseContext>,
    ms: Seq<ParseContext>,
    ps: Seq<Param>,
    sep: Delimiter,
    delim: Delimiter,
) -> bool {
    &&& cs.len() == ps.len() + 1
    &&& ms.len() == ps.len()
    &&& forall|i: int|
        0 <= i < ps.len() ==> list_step(#[trigger] cs[i], ms[i], cs[i + 1], ps[i], sep, delim)
}

impl Punctuated<Param> {
    /// Parses parameters separated by `sep` up to (not including) the delimiter `delim`.
    pub fn parse(ctx: &mut ParseContext, sep: Delimiter, delim: Delimiter) -> (r: Option<
        Punctuated<Param>,
    >)
        requires
            old(ctx).wf(),
        ensures
            advanced(*old(ctx), *final(ctx)),
            r is None ==> final(ctx).errors().len() > old(ctx).errors().len(),
            r matches Some(v) ==> v.sep == sep && peek_is(*final(ctx), TokenKindView::Delimiter(delim)),
            peek_is(*old(ctx), TokenKindView::Delimiter(delim)) ==> (r matches Some(v)
                && v.items@.len() == 0),
            peek_is(*old(ctx), TokenKindView::Delimiter(delim)) ==> untouched(*old(ctx), *final(ctx))
                && final(ctx).errors() == old(ctx).errors(),
            r matches Some(v) ==> exists|cs: Seq<ParseContext>, ms: Seq<ParseContext>|
                #[trigger] list_trace(cs, ms, v.items@, sep, delim) && cs[0] == *old(ctx)
                    && untouched(cs.last(), *final(ctx)) && final(ctx).errors() == cs.last().errors(),
            r is None ==> exists|cs: Seq<ParseContext>, ms: Seq<ParseContext>, ps: Seq<Param>|
                #[trigger] list_trace(cs, ms, ps, sep, delim) && cs[0] == *old(ctx) && !peek_is(
                    cs.last(),
                    TokenKindView::Delimiter(delim),
                ) && parsed(cs.last(), *final(ctx), None::<Param>),
    {
        let mut items: Vec<Param> = Vec::new();
        let ghost mut cs: Seq<ParseContext> = seq![*ctx];
        let ghost mut ms: Seq<ParseContext> = Seq::empty();
        proof {
            lemma_advanced_refl(*ctx);
        }
        loop
            invariant_except_break
                cs.last() == *ctx,
            invariant
                ctx.wf(),
                advanced(*old(ctx), *ctx),
                peek_is(*old(ctx), TokenKindView::Delimiter(delim)) ==> items@.len() == 0
                    && untouched(*old(ctx), *ctx),
                list_trace(cs, ms, items@, sep, delim),
                cs[0] == *old(ctx),
            ensures
                peek_is(*ctx, TokenKindView::Delimiter(delim)),
                list_trace(cs, ms, items@, sep, delim),
                cs[0] == *old(ctx),
                untouched(cs.last(), *ctx),
                ctx.errors() == cs.last().errors(),
            decreases ctx.lex().remaining(),
        {
            let ghost c0 = *ctx;
            let at_delim = match ctx.peek_kind() {
                TokenKind::Delimiter(d) => *d == delim,
                _ => false,
            };
            proof {
                lemma_advanced_trans(*old(ctx), c0, *ctx);
            }
            if at_delim {
                break ;
            }
            let ghost c1 = *ctx;
            let item = parse_param(ctx);
            proof {
                lemma_advanced_trans(*old(ctx), c1, *ctx);
                lemma_advanced_trans(c0, c1, *ctx);
            }
            let ghost m = *ctx;
            let ghost gi = item;
            match item {
                Some(e) => items.push(e),
                None => {
                    proof {
                        assert(list_trace(cs, ms, items@, sep, delim));
                    }
                    return None;
                },
            }
            let ghost c2 = *ctx;
            let at_delim2 = match ctx.peek_kind() {
                TokenKind::Delimiter(d) => *d == delim,
                _ => false,
            };
            let ghost c3 = *ctx;
            if !at_delim2 {
                ctx.expect_delimiter(sep);
            }
            proof {
                lemma_advanced_trans(*old(ctx), c2, *ctx);
                lemma_advanced_trans(c2, c3, *ctx);
                let p = gi->Some_0;
                assert(list_step(c0, m, *ctx, p, sep, delim));
                let cs2 = cs.push(*ctx);
                let ms2 = ms.push(m);
                assert forall|i: int| 0 <= i < items@.len() implies list_step(
                    #[trigger] cs2[i],
                    ms2[i],
                    cs2[i + 1],
                    items@[i],
                    sep,
                    delim,
                ) by {
                    if i < items@.len() - 1 {
                        assert(cs2[i] == cs[i] && cs2[i + 1] == cs[i + 1] && ms2[i] == ms[i]);
                        assert(items@[i] == items@.drop_last()[i]);
                    }
                }
                cs = cs2;
                ms = ms2;
            }
        }
        let r = Punctuated { items, sep };
        proof {
            assert(list_trace(cs, ms, r.items@, sep, delim));
            assert(cs[0] == *old(ctx));
            assert(untouched(cs.last(), *ctx));
            assert(ctx.errors() == cs.last().errors());
        }
        Some(r)
    }
}

/// The tokens of `ctx` from the `k`-th on start with `func name() type`.
pub open spec fn plain_sig_at(ctx: ParseContext, k: nat) -> bool {
    &&& ctx.lex().upcoming(k).kind == TokenKindView::Keyword(Keyword::Func)
    &&& ctx.lex().upcoming(k + 1).kind is Identifier
    &&& ctx.lex().upcoming(k + 2).kind == TokenKindView::Delimiter(Delimiter::ParenOpen)
    &&& ctx.lex().upcoming(k + 3).kind == TokenKindView::Delimiter(Delimiter::ParenClose)
    &&& ctx.lex().upcoming(k + 4).kind is TypeKeyword
}

/// The next tokens of `ctx` are `extern func name() type;`.
pub open spec fn plain_extern_next(ctx: ParseContext) -> bool {
    &&& ctx.lex().upcoming(0).kind == TokenKindView::Keyword(Keyword::Extern)
    &&& plain_sig_at(ctx, 1)
    &&& ctx.lex().upcoming(6).kind == TokenKindView::Delimiter(Delimiter::Semicolon)
}

impl FunctionSig {
    /// Parses `func name(params) [type]`; the return type is `()` when the body's `{`
    /// follows the parameters.
    pub fn parse(ctx: &mut ParseContext) -> (r: Option<FunctionSig>)
        requires
            old(ctx).wf(),
        ensures
            parsed(*old(ctx), *final(ctx), r),
            r matches Some(s) ==> s.attributes.attribs@.len() == 0 && s.func_tok.0 == Keyword::Func,
            peek_is(*old(ctx), TokenKindView::Keyword(Keyword::Func)) ==> (r matches Some(s)
                ==> s.func_tok.1 == next_of(*old(ctx)).loc && old(ctx).lex().upcoming(1).kind
                == TokenKindView::Identifier(s.name.0@) && s.name.1 == old(ctx).lex().upcoming(
                1,
            ).loc),
            peek_is(*old(ctx), TokenKindView::Keyword(Keyword::Func)) && !(old(ctx).lex().upcoming(
                1,
            ).kind is Identifier) ==> r is None,
            plain_sig_at(*old(ctx), 0) ==> (r matches Some(s) && s.params.items@.len() == 0
                && s.name.0@ == old(ctx).lex().upcoming(1).kind->Identifier_0 && final(ctx).errors()
                == old(ctx).errors() && took_n(*old(ctx), *final(ctx), 5) && final(ctx).lex().start_settled()),
    {
        let func_tok = ctx.expect_keyword(Keyword::Func);
        let ghost c1 = *ctx;
        let name = ctx.expect_identifier("function name".to_owned());
        proof {
            lemma_advanced_trans(*old(ctx), c1, *ctx);
        }
        let name = match name {
            Some(n) => n,
            None => {
                return None;
            },
        };
        let ghost c2 = *ctx;
        let paren_open_tok = ctx.expect_delimiter(Delimiter::ParenOpen);
        let ghost c3 = *ctx;
        let params = Punctuated::<Param>::parse(ctx, Delimiter::Comma, Delimiter::ParenClose);
        proof {
            lemma_advanced_trans(*old(ctx), c2, c3);
            lemma_advanced_trans(*old(ctx), c3, *ctx);
        }
        let params = match params {
            Some(p) => p,
            None => {
                return None;
            },
        };
        let ghost c4 = *ctx;
        let paren_close_tok = ctx.expect_delimiter(Delimiter::ParenClose);
        let ghost c5 = *ctx;
        let body_next = match ctx.peek_kind() {
            TokenKind::Delimiter(d) => *d == Delimiter::BraceOpen,
            _ => false,
        };
        let ghost c5b = *ctx;
        proof {
            lemma_advanced_trans(*old(ctx), c4, c5);
            lemma_advanced_trans(*old(ctx), c5, *ctx);
        }
        let ret_ty = if body_next {
            Type::Primitive(Located::new_temporary(PrimType::Unit))
        } else {
            let ghost c6 = *ctx;
            let t = Type::parse(ctx);
            proof {
                lemma_advanced_trans(*old(ctx), c6, *ctx);
            }
            match t {
                Some(t) => t,
                None => {
                    return None;
                },
            }
        };
        proof {
            if plain_sig_at(*old(ctx), 0) {
                lemma_took_n_first(*old(ctx), c1);
                lemma_took_n_one(*old(ctx), c1, c2, 1);
                lemma_took_n_one(*old(ctx), c2, c3, 2);
                lemma_took_n_same(*old(ctx), c3, c4, 3);
                lemma_took_n_one(*old(ctx), c4, c5, 3);
                lemma_took_n_same(*old(ctx), c5, c5b, 4);
                lemma_took_n_one(*old(ctx), c5b, *ctx, 4);
            }
        }
        Some(
            FunctionSig {
                attributes: Attributes::empty(),
                func_tok,
                name,
                paren_open_tok,
                params,
                paren_close_tok,
                ret_ty,
            },
        )
    }
}

impl Function {
    /// Parses a function: its signature, then a block as its body. A body that is not a
    /// block is reported as missing, at the function's name.
    pub fn parse(ctx: &mut ParseContext) -> (r: Option<Function>)
        requires
            old(ctx).wf(),
        ensures
            parsed(*old(ctx), *final(ctx), r),
            r matches Some(f) ==> f.sig.attributes.attribs@.len() == 0 && f.sig.func_tok.0
                == Keyword::Func,
    {
        let sig = FunctionSig::parse(ctx);
        let sig = match sig {
            Some(s) => s,
            None => {
                return None;
            },
        };
        let ghost c1 = *ctx;
        let body = Expr::parse(ctx);
        proof {
            lemma_advanced_trans(*old(ctx), c1, *ctx);
        }
        match body {
            Some(Expr::Block(b)) => Some(Function { sig, body: b }),
            Some(_) => {
                let ghost c2 = *ctx;
                ctx.push_error(
                    Located(
                        ParseError::FuncParseError(
                            FunctionParseError::MissingFunctionBody { func_name: sig.name.0.clone() },
                        ),
                        sig.name.1,
                    ),
                );
                proof {
                    assert(ctx.errors().subrange(0, c2.errors().len() as int) =~= c2.errors());
                    lemma_advanced_trans(*old(ctx), c2, *ctx);
                }
                None
            },
            None => None,
        }
    }
}

impl ExternFunction {
    /// Parses `extern` followed by a function signature and `;`.
    pub fn parse(ctx: &mut ParseContext) -> (r: Option<ExternFunction>)
        requires
            old(ctx).wf(),
        ensures
            parsed(*old(ctx), *final(ctx), r),
            r matches Some(f) ==> f.sig.attributes.attribs@.len() == 0 && f.extern_tok.0
                == Keyword::Extern,
            peek_is(*old(ctx), TokenKindView::Keyword(Keyword::Extern)) ==> (r matches Some(f)
                ==> f.extern_tok.1 == next_of(*old(ctx)).loc),
            plain_extern_next(*old(ctx)) ==> (r matches Some(f) && f.sig.params.items@.len() == 0
                && f.sig.name.0@ == old(ctx).lex().upcoming(2).kind->Identifier_0 && final(ctx).errors()
                == old(ctx).errors() && took_n(*old(ctx), *final(ctx), 7)
                && final(ctx).lex().start_settled()),
    {
        let extern_tok = ctx.expect_keyword(Keyword::Extern);
        let ghost c1 = *ctx;
        proof {
            if plain_extern_next(*old(ctx)) {
                assert(c1.lex().upcoming(0) == old(ctx).lex().upcoming(0 + 1));
                assert(c1.lex().upcoming(1) == old(ctx).lex().upcoming(1 + 1));
                assert(c1.lex().upcoming(2) == old(ctx).lex().upcoming(2 + 1));
                assert(c1.lex().upcoming(3) == old(ctx).lex().upcoming(3 + 1));
                assert(c1.lex().upcoming(4) == old(ctx).lex().upcoming(4 + 1));
                assert(plain_sig_at(c1, 0));
            }
        }
        let sig = FunctionSig::parse(ctx);
        let ghost c2x = *ctx;
        proof {
            lemma_advanced_trans(*old(ctx), c1, *ctx);
            if plain_extern_next(*old(ctx)) {
                lemma_took_n_first(*old(ctx), c1);
                lemma_took_n_trans(*old(ctx), c1, c2x, 1, 5);
                assert(c2x.lex().upcoming(0) == old(ctx).lex().upcoming(0 + 6));
            }
        }
        let sig = match sig {
            Some(s) => s,
            None => {
                return None;
            },
        };
        let ghost c2 = *ctx;
        let semi_tok = ctx.expect_delimiter(Delimiter::Semicolon);
        proof {
            lemma_advanced_trans(*old(ctx), c2, *ctx);
            if plain_extern_next(*old(ctx)) {
                lemma_took_n_one(*old(ctx), c2, *ctx, 6);
            }
        }
        Some(ExternFunction { extern_tok, sig, semi_tok })
    }
}

/// The error recorded when no item starts at a token.
pub open spec fn unexpected_item_token(e: Located<ParseError>, t: TokenView) -> bool {
    &&& e.0 matches ParseError::ItemParseError(ItemParseError::UnexpectedToken(k))
    &&& k@ == t.kind
    &&& e.1 == t.loc
}

impl Item {
    /// Parses an item: `pub` keywords, then an extern function or a function. Any other
    /// token after the `pub` keywords is reported as unexpected.
    pub fn parse(ctx: &mut ParseContext) -> (r: Option<Item>)
        requires
            old(ctx).wf(),
        ensures
            parsed(*old(ctx), *final(ctx), r),
            r matches Some(Item::Function(f)) ==> pub_prefix(*old(ctx), f.sig.attributes.attribs@),
            r matches Some(Item::ExternFunction(f)) ==> pub_prefix(
                *old(ctx),
                f.sig.attributes.attribs@,
            ),
            !(r matches Some(Item::TypeDecl(_))),
            !peek_is(*old(ctx), TokenKindView::Keyword(Keyword::Pub)) && !peek_is(
                *old(ctx),
                TokenKindView::Keyword(Keyword::Func),
            ) && !peek_is(*old(ctx), TokenKindView::Keyword(Keyword::Extern)) ==> r is None
                && final(ctx).errors().len() == old(ctx).errors().len() + 1 && unexpected_item_token(
                final(ctx).errors().last(),
                next_of(*old(ctx)),
            ),
            plain_extern_next(*old(ctx)) ==> (r matches Some(Item::ExternFunction(f))
                && f.sig.name.0@ == old(ctx).lex().upcoming(2).kind->Identifier_0 && final(ctx).errors()
                == old(ctx).errors() && took_n(*old(ctx), *final(ctx), 7)
                && final(ctx).lex().start_settled()),
    {
        let attributes = match Attributes::parse(ctx) {
            Some(a) => a,
            None => Attributes::empty(),
        };
        let ghost c1 = *ctx;
        proof {
            if !peek_is(*old(ctx), TokenKindView::Keyword(Keyword::Pub)) {
                if attributes.attribs@.len() > 0 {
                    assert(attributes.attribs@[0] == Located(Keyword::Pub, old(ctx).lex().upcoming(0).loc));
                }
                assert(c1.lex().upcoming(0) == old(ctx).lex().upcoming(0));
            }
        }
        let (is_extern, is_func) = match ctx.peek_kind() {
            TokenKind::Keyword(kw) => (*kw == Keyword::Extern, *kw == Keyword::Func),
            _ => (false, false),
        };
        proof {
            lemma_advanced_trans(*old(ctx), c1, *ctx);
        }
        let ghost c2 = *ctx;
        proof {
            if plain_extern_next(*old(ctx)) {
                assert(attributes.attribs@.len() == 0) by {
                    if attributes.attribs@.len() > 0 {
                        assert(old(ctx).lex().upcoming(0 as nat).kind == TokenKindView::Keyword(Keyword::Pub));
                    }
                }
                assert forall|k: nat| #[trigger] c2.lex().upcoming(k) == old(ctx).lex().upcoming(k) by {
                    assert(c1.lex().upcoming(k) == old(ctx).lex().upcoming(k + 0));
                }
                assert(took_n(*old(ctx), c2, 0));
                assert(plain_extern_next(c2)) by {
                    assert(c2.lex().upcoming(0) == old(ctx).lex().upcoming(0));
                    assert(c2.lex().upcoming(1) == old(ctx).lex().upcoming(1));
                    assert(c2.lex().upcoming(2) == old(ctx).lex().upcoming(2));
                    assert(c2.lex().upcoming(3) == old(ctx).lex().upcoming(3));
                    assert(c2.lex().upcoming(4) == old(ctx).lex().upcoming(4));
                    assert(c2.lex().upcoming(5) == old(ctx).lex().upcoming(5));
                    assert(c2.lex().upcoming(6) == old(ctx).lex().upcoming(6));
                }
            }
        }
        if is_extern {
            let f = ExternFunction::parse(ctx);
            proof {
                lemma_advanced_trans(*old(ctx), c2, *ctx);
                if plain_extern_next(*old(ctx)) {
                    lemma_took_n_trans(*old(ctx), c2, *ctx, 0, 7);
                }
            }
            return match f {
                Some(mut f) => {
                    f.sig.attributes = attributes;
                    Some(Item::ExternFunction(f))
                },
                None => None,
            };
        }
        if is_func {
            let f = Function::parse(ctx);
            proof {
                lemma_advanced_trans(*old(ctx), c2, *ctx);
            }
            return match f {
                Some(mut f) => {
                    f.sig.attributes = attributes;
                    Some(Item::Function(f))
                },
                None => None,
            };
        }
        let tok = ctx.peek_token();
        let ghost c3 = *ctx;
        ctx.push_error(
            Located(ParseError::ItemParseError(ItemParseError::UnexpectedToken(tok.kind)), tok.loc),
        );
        proof {
            assert(ctx.errors().subrange(0, c3.errors().len() as int) =~= c3.errors());
            lemma_advanced_trans(*old(ctx), c2, c3);
            lemma_advanced_trans(*old(ctx), c3, *ctx);
        }
        None
    }
}

/// Whether an item can start with a token of this kind: `pub`, `func` or `extern`.
pub open spec fn starts_item(k: TokenKindView) -> bool {
    k == TokenKindView::Keyword(Keyword::Pub) || k == TokenKindView::Keyword(Keyword::Func) || k
        == TokenKindView::Keyword(Keyword::Extern)
}

/// The tokens of `s` in the `g`-th group of seven are `extern func name() type;`.
pub open spec fn plain_extern_group(s: Seq<char>, g: nat) -> bool {
    &&& nth_token(s, 0, 7 * g).kind == TokenKindView::Keyword(Keyword::Extern)
    &&& nth_token(s, 0, 7 * g + 1).kind == TokenKindView::Keyword(Keyword::Func)
    &&& nth_token(s, 0, 7 * g + 2).kind is Identifier
    &&& nth_token(s, 0, 7 * g + 3).kind == TokenKindView::Delimiter(Delimiter::ParenOpen)
    &&& nth_token(s, 0, 7 * g + 4).kind == TokenKindView::Delimiter(Delimiter::ParenClose)
    &&& nth_token(s, 0, 7 * g + 5).kind is TypeKeyword
    &&& nth_token(s, 0, 7 * g + 6).kind == TokenKindView::Delimiter(Delimiter::Semicolon)
}

/// The source `s` is `n` (at least one) declarations `extern func name() type;`, and
/// nothing else.
pub open spec fn plain_externs(s: Seq<char>, n: nat) -> bool {
    &&& n > 0
    &&& forall|g: nat| g < n ==> #[trigger] plain_extern_group(s, g)
    &&& nth_token(s, 0, 7 * n).kind is EndOfFile
}

/// The name declared by the `g`-th such declaration.
pub open spec fn plain_extern_name(s: Seq<char>, g: nat) -> Seq<char> {
    nth_token(s, 0, 7 * g + 2).kind->Identifier_0
}

/// A source is such a list of declarations for at most one count.
proof fn lemma_plain_externs_unique(s: Seq<char>, n: nat, m: nat)
    requires
        plain_externs(s, n),
        plain_externs(s, m),
    ensures
        n == m,
{
    if n < m {
        assert(plain_extern_group(s, n));
    } else if m < n {
        assert(plain_extern_group(s, m));
    }
}

/// Parses a source file into its items. An item that fails is skipped by one token, and
/// parsing goes on to the end; the result is `Err` with every error recorded if there was
/// any, the first of them for the first item that failed. The source is ASCII and lexes
/// to the end (see `lexes_completely`).
pub fn parse(source: &[char]) -> (r: Result<AST, Vec<Located<ParseError>>>)
    requires
        is_ascii(source@),
        source@.len() <= MAX_SOURCE_LEN,
        lex_ok(source@, 0),
    ensures
        r matches Err(v) ==> v@.len() > 0,
        source@.len() == 0 ==> (r matches Ok(a) && a.items@.len() == 0),
        source@.len() > 0 ==> (r matches Ok(a) ==> a.items@.len() > 0),
        source@.len() > 0 && !starts_item(nth_token(source@, 0, 0).kind) ==> (r matches Err(v)
            && unexpected_item_token(v@[0], nth_token(source@, 0, 0))),
        r matches Ok(a) ==> forall|i: int|
            0 <= i < a.items@.len() ==> !(#[trigger] a.items@[i] is TypeDecl),
        forall|n: nat|
            #[trigger] plain_externs(source@, n) ==> (r matches Ok(a) && a.items@.len() == n
                && forall|g: int|
                0 <= g < n ==> (#[trigger] a.items@[g] matches Item::ExternFunction(f)
                    && f.sig.name.0@ == plain_extern_name(source@, g as nat))),
{
    let lexer = Lexer::new(source);
    proof {
        lexer.lemma_at_end_iff();
    }
    let ghost lex0 = lexer;
    let ghost t0 = nth_token(source@, 0, 0);
    let ghost bad = source@.len() > 0 && !starts_item(t0.kind);
    let mut ctx = ParseContext::new(lexer);
    let mut items: Vec<Item> = Vec::new();
    let ghost c0 = ctx;
    let ghost pn: nat = choose|n: nat| plain_externs(source@, n);
    let ghost plain = plain_externs(source@, pn);
    proof {
        assert(took_n(c0, ctx, 0)) by {
            assert forall|k: nat| #[trigger] ctx.lex().upcoming(k) == c0.lex().upcoming(k + 0) by {}
        }
    }
    while !ctx.is_eof()
        invariant
            plain == plain_externs(source@, pn),
            forall|k: nat| #[trigger] c0.lex().upcoming(k) == nth_token(source@, 0, k),
            plain ==> items@.len() <= pn && ctx.errors().len() == 0 && took_n(
                c0,
                ctx,
                (7 * items@.len()) as nat,
            ) && (items@.len() > 0 ==> ctx.lex().start_settled()) && forall|g: int|
                0 <= g < items@.len() ==> (#[trigger] items@[g] matches Item::ExternFunction(f)
                    && f.sig.name.0@ == plain_extern_name(source@, g as nat)),
            ctx.wf(),
            lex0.upcoming(0) == t0,
            t0 == nth_token(source@, 0, 0),
            bad == (source@.len() > 0 && !starts_item(t0.kind)),
            source@.len() > 0 ==> !lex0.at_end(),
            source@.len() == 0 ==> ctx.lex().at_end() && ctx.errors().len() == 0 && items@.len()
                == 0,
            forall|i: int| 0 <= i < items@.len() ==> !(#[trigger] items@[i] is TypeDecl),
            (ctx.errors().len() == 0 && items@.len() == 0 && ctx.lex() == lex0) || (!bad
                && items@.len() > 0) || (ctx.errors().len() > 0 && (bad
                ==> unexpected_item_token(ctx.errors()[0], t0))),
        decreases ctx.lex().remaining(), (if ctx.lex().at_end() {
            0nat
        } else {
            1nat
        }),
    {
        let ghost cb = ctx;
        proof {
            if plain {
                let m = items@.len();
                if m == pn {
                    assert(ctx.lex().upcoming(0) == c0.lex().upcoming(0 + 7 * m));
                    ctx.lex().lemma_eof_settled_at_end();
                    assert(false);
                }
                assert(plain_extern_group(source@, m as nat));
                assert(plain_extern_next(ctx)) by {
                    assert(ctx.lex().upcoming(0) == c0.lex().upcoming(0 + 7 * m));
                    assert(ctx.lex().upcoming(1) == c0.lex().upcoming(1 + 7 * m));
                    assert(ctx.lex().upcoming(2) == c0.lex().upcoming(2 + 7 * m));
                    assert(ctx.lex().upcoming(3) == c0.lex().upcoming(3 + 7 * m));
                    assert(ctx.lex().upcoming(4) == c0.lex().upcoming(4 + 7 * m));
                    assert(ctx.lex().upcoming(5) == c0.lex().upcoming(5 + 7 * m));
                    assert(ctx.lex().upcoming(6) == c0.lex().upcoming(6 + 7 * m));
                }
            }
        }
        let item = Item::parse(&mut ctx);
        let ghost c1 = ctx;
        proof {
            if plain {
                lemma_took_n_trans(c0, cb, c1, (7 * items@.len()) as nat, 7);
                assert(cb.lex().upcoming(2) == c0.lex().upcoming(2 + 7 * items@.len()));
            }
        }
        let ghost items0 = items@;
        proof {
            if cb.errors().len() > 0 {
                assert(c1.errors()[0] == c1.errors().subrange(0, cb.errors().len() as int)[0]);
            } else if bad && cb.lex() == lex0 {
                assert(next_of(cb) == t0);
                assert(c1.errors().len() == 1);
                assert(c1.errors()[0] == c1.errors().last());
            }
        }
        match item {
            Some(item) => items.push(item),
            None => {
                let t = ctx.next_token();
                proof {
                    if t@.kind is EndOfFile {
                        assert(ctx.lex().at_end());
                    }
                }
            },
        }
        proof {
            if plain {
                assert((7 * items0.len() + 7) as nat == (7 * items@.len()) as nat);
                assert forall|g: int| 0 <= g < items@.len() implies (#[trigger] items@[g] matches Item::ExternFunction(f)
                    && f.sig.name.0@ == plain_extern_name(source@, g as nat)) by {
                    if g < items0.len() {
                        assert(items@[g] == items0[g]);
                    }
                }
            }
        }
    }
    proof {
        if plain {
            let m = items@.len();
            if m < pn {
                assert(plain_extern_group(source@, m as nat));
                assert(ctx.lex().upcoming(0) == c0.lex().upcoming(0 + 7 * m));
                assert(ctx.lex().upcoming(1) == c0.lex().upcoming(1 + 7 * m));
                ctx.lex().lemma_not_at_end();
                assert(false);
            }
        }
        assert forall|n: nat| #[trigger] plain_externs(source@, n) implies n == pn && plain by {
            lemma_plain_externs_unique(source@, n, pn);
        }
    }
    match ctx.finalize() {
        Ok(()) => Ok(AST { items }),
        Err(errors) => Err(errors),
    }
}

impl Parse for FunctionSig {
    fn parse(ctx: &mut ParseContext) -> (r: Option<FunctionSig>) {
        FunctionSig::parse(ctx)
    }
}

impl Parse for Function {
    fn parse(ctx: &mut ParseContext) -> (r: Option<Function>) {
        Function::parse(ctx)
    }
}

impl Parse for ExternFunction {
    fn parse(ctx: &mut ParseContext) -> (r: Option<ExternFunction>) {
        ExternFunction::parse(ctx)
    }
}

impl Parse for Item {
    fn parse(ctx: &mut ParseContext) -> (r: Option<Item>) {
        Item::parse(ctx)
    }
}

} // verus!
