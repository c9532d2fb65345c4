//! Parsing of expressions (by Pratt parsing) and of the statements of a block.
use vstd::prelude::*;

use crate::ast::{
    BinaryExpr, BlockExpr, CallExpr, ElseExpr, Expr, ExprStmt, GroupedExpr, IfExpr, LetStmt,
    LoopExpr, Punctuated, ReturnExpr, Stmt, Type, UnaryExpr,
};
use crate::location::{Located, LocationRange, spec_combine};
use crate::parsing::lookup_parser::{LookUpParseError, LookUpParser, handler_result};
use crate::parsing::pratt_parser::{
    BindingPower, Handlers, PrattParseError, PrattParser, bp_part, find, led_part,
    lemma_find_push, table_view,
};
use crate::parsing::{
    ExprParseError, Parse, ParseContext, ParseError, advanced, lemma_advanced_refl, lemma_advanced_trans,
    next_of, parsed, peek_is, sep_step, took_one, untouched,
};
use crate::token::{
    Delimiter, Identifier, Keyword, Literal, LiteralKeyword, Operator, Token, TokenKind,
    TokenKindView, TokenView,
};

verus! {

/// Binding strength in the expression grammar, weakest first.
#[derive(Debug, Clone, Copy, PartialEq, Eq, Structural)]
pub enum ExprBindingPower {
    Zero,
    Assign,
    LogicalAdditive,
    LogicalMultiplicative,
    Comparative,
    Additive,
    Cast,
    Unary,
    Call,
    ArrayIndex,
    Primary,
}

impl ExprBindingPower {
    pub open spec fn spec_rank(self) -> nat {
        match self {
            ExprBindingPower::Zero => 0,
            ExprBindingPower::Assign => 1,
            ExprBindingPower::LogicalAdditive => 2,
            ExprBindingPower::LogicalMultiplicative => 3,
            ExprBindingPower::Comparative => 4,
            ExprBindingPower::Additive => 5,
            ExprBindingPower::Cast => 6,
            ExprBindingPower::Unary => 7,
            ExprBindingPower::Call => 8,
            ExprBindingPower::ArrayIndex => 9,
            ExprBindingPower::Primary => 10,
        }
    }

    pub fn rank(&self) -> (r: u8)
        ensures
            r == self.spec_rank(),
    {
        match self {
            ExprBindingPower::Zero => 0,
            ExprBindingPower::Assign => 1,
            ExprBindingPower::LogicalAdditive => 2,
            ExprBindingPower::LogicalMultiplicative => 3,
            ExprBindingPower::Comparative => 4,
            ExprBindingPower::Additive => 5,
            ExprBindingPower::Cast => 6,
            ExprBindingPower::Unary => 7,
            ExprBindingPower::Call => 8,
            ExprBindingPower::ArrayIndex => 9,
            ExprBindingPower::Primary => 10,
        }
    }
}

impl BindingPower for ExprBindingPower {
    fn primary() -> (r: Self)
        ensures
            r == ExprBindingPower::Primary,
    {
        ExprBindingPower::Primary
    }

    fn zero() -> (r: Self)
        ensures
            r == ExprBindingPower::Zero,
    {
        ExprBindingPower::Zero
    }
}

/// What starts an expression.
#[derive(Debug, Clone, Copy, PartialEq, Eq, Structural)]
pub enum ExprNud {
    Primary,
    PrefixUnary,
    UnitOrGroup,
    Block,
    Return,
    If,
    Loop,
}

/// What continues an expression after its left operand.
#[derive(Debug, Clone, Copy, PartialEq, Eq, Structural)]
pub enum ExprLed {
    Binary,
    Call,
}

pub struct ExprHandlers;

/// The handler that starts an expression at a token of kind `k`.
pub open spec fn expr_nud_of(k: TokenKindView) -> Option<ExprNud> {
    match k {
        TokenKindView::Literal(_) => Some(ExprNud::Primary),
        TokenKindView::LiteralKeyword(_) => Some(ExprNud::Primary),
        TokenKindView::Identifier(_) => Some(ExprNud::Primary),
        TokenKindView::Operator(Operator::Sub) => Some(ExprNud::PrefixUnary),
        TokenKindView::Operator(Operator::Not) => Some(ExprNud::PrefixUnary),
        TokenKindView::Delimiter(Delimiter::ParenOpen) => Some(ExprNud::UnitOrGroup),
        TokenKindView::Delimiter(Delimiter::BraceOpen) => Some(ExprNud::Block),
        TokenKindView::Keyword(Keyword::Return) => Some(ExprNud::Return),
        TokenKindView::Keyword(Keyword::If) => Some(ExprNud::If),
        TokenKindView::Keyword(Keyword::Loop) => Some(ExprNud::Loop),
        _ => None,
    }
}

/// How strongly a token of kind `k` binds as an infix token.
pub open spec fn expr_bp_of(k: TokenKindView) -> Option<ExprBindingPower> {
    match k {
        TokenKindView::Operator(op) => match op {
            Operator::Add => Some(ExprBindingPower::Additive),
            Operator::Sub => Some(ExprBindingPower::Additive),
            Operator::And => Some(ExprBindingPower::LogicalMultiplicative),
            Operator::Or => Some(ExprBindingPower::LogicalAdditive),
            Operator::Assign => Some(ExprBindingPower::Assign),
            Operator::Not => None,
            _ => Some(ExprBindingPower::Comparative),
        },
        TokenKindView::Delimiter(Delimiter::ParenOpen) => Some(ExprBindingPower::Call),
        _ => None,
    }
}

/// The handler that continues an expression at an infix token of kind `k`.
pub open spec fn expr_led_of(k: TokenKindView) -> Option<ExprLed> {
    match k {
        TokenKindView::Operator(Operator::Not) => None,
        TokenKindView::Operator(_) => Some(ExprLed::Binary),
        TokenKindView::Delimiter(Delimiter::ParenOpen) => Some(ExprLed::Call),
        _ => None,
    }
}

/// Binding powers rank in the order they are declared, from the weakest to the strongest.
pub proof fn lemma_binding_powers_ordered()
    ensures
        ExprBindingPower::Zero.spec_rank() < ExprBindingPower::Assign.spec_rank(),
        ExprBindingPower::Assign.spec_rank() < ExprBindingPower::LogicalAdditive.spec_rank(),
        ExprBindingPower::LogicalAdditive.spec_rank() < ExprBindingPower::LogicalMultiplicative.spec_rank(),
        ExprBindingPower::LogicalMultiplicative.spec_rank() < ExprBindingPower::Comparative.spec_rank(),
        ExprBindingPower::Comparative.spec_rank() < ExprBindingPower::Additive.spec_rank(),
        ExprBindingPower::Additive.spec_rank() < ExprBindingPower::Cast.spec_rank(),
        ExprBindingPower::Cast.spec_rank() < ExprBindingPower::Unary.spec_rank(),
        ExprBindingPower::Unary.spec_rank() < ExprBindingPower::Call.spec_rank(),
        ExprBindingPower::Call.spec_rank() < ExprBindingPower::ArrayIndex.spec_rank(),
        ExprBindingPower::ArrayIndex.spec_rank() < ExprBindingPower::Primary.spec_rank(),
{
}

/// A call binds more tightly than a prefix operator, whose operand is parsed at the
/// prefix's power: the `(` of a call continues that operand, so `-f(1)` negates the
/// call. Every binary operator binds more loosely than a prefix operator.
pub proof fn lemma_call_binds_inside_prefix()
    ensures
        expr_bp_rank(TokenKindView::Delimiter(Delimiter::ParenOpen)) > ExprBindingPower::Unary.spec_rank(),
        forall|op: Operator| #[trigger] op_rank(op) < ExprBindingPower::Unary.spec_rank(),
{
}

/// The rank of the binding power of a token; tokens that do not bind rank as `Zero`.
pub open spec fn expr_bp_rank(k: TokenKindView) -> nat {
    match expr_bp_of(k) {
        Some(b) => b.spec_rank(),
        None => 0,
    }
}

/// The rank of a binary operator.
pub open spec fn op_rank(op: Operator) -> int {
    expr_bp_rank(TokenKindView::Operator(op)) as int
}

/// A parsed expression binds more tightly than `bp`: a binary operation at its top has an
/// operator of higher rank than `bp`; its left operand binds at least as tightly as the
/// operator, so that operators of one rank group to the left, and its right operand binds
/// more tightly. The operand of a prefix operator binds more tightly than the prefix.
pub open spec fn binds_above(e: Expr, bp: int) -> bool
    decreases e,
{
    match e {
        Expr::Binary(b) => op_rank(b.op.0) > bp && binds_above(*b.left, op_rank(b.op.0) - 1)
            && binds_above(*b.right, op_rank(b.op.0)),
        Expr::Unary(u) => binds_above(*u.expr, ExprBindingPower::Unary.spec_rank() as int),
        _ => true,
    }
}

/// The token of an operator written at `loc`.
pub open spec fn op_token(op: Located<Operator>) -> TokenView {
    TokenView { kind: TokenKindView::Operator(op.0), loc: op.1 }
}

/// The tokens an expression made of literals, names and unary and binary operations reads
/// from, in order; `None` for any other expression.
pub open spec fn op_tokens(e: Expr) -> Option<Seq<TokenView>>
    decreases e,
{
    match e {
        Expr::Integer(l) => Some(
            seq![TokenView { kind: TokenKindView::Literal(Literal::Int(l.0)), loc: l.1 }],
        ),
        Expr::Bool(l) => Some(
            seq![
                TokenView {
                    kind: TokenKindView::LiteralKeyword(
                        if l.0 {
                            LiteralKeyword::True
                        } else {
                            LiteralKeyword::False
                        },
                    ),
                    loc: l.1,
                },
            ],
        ),
        Expr::Identifier(l) => Some(seq![TokenView { kind: TokenKindView::Identifier(l.0@), loc: l.1 }]),
        Expr::Unary(u) => match op_tokens(*u.expr) {
            Some(t) => Some(seq![op_token(u.op)] + t),
            None => None,
        },
        Expr::Binary(b) => match (op_tokens(*b.left), op_tokens(*b.right)) {
            (Some(l), Some(r)) => Some(l + seq![op_token(b.op)] + r),
            _ => None,
        },
        _ => None,
    }
}

/// A token that stands for a whole operand: a literal or a name.
pub open spec fn is_leaf_token(t: TokenView) -> bool {
    t.kind is Literal || t.kind is LiteralKeyword || t.kind is Identifier
}

/// Two operator trees are the same up to the text of their names, which is compared by
/// its characters.
pub open spec fn same_op_tree(e1: Expr, e2: Expr) -> bool
    decreases e1,
{
    match (e1, e2) {
        (Expr::Binary(a), Expr::Binary(b)) => a.op == b.op && same_op_tree(*a.left, *b.left)
            && same_op_tree(*a.right, *b.right),
        (Expr::Unary(a), Expr::Unary(b)) => a.op == b.op && same_op_tree(*a.expr, *b.expr),
        (Expr::Identifier(a), Expr::Identifier(b)) => a.0@ == b.0@ && a.1 == b.1,
        _ => e1 == e2,
    }
}

proof fn lemma_op_rank_bound(op: Operator)
    ensures
        op_rank(op) < ExprBindingPower::Unary.spec_rank(),
{
}

/// The tokens of an operator tree are not empty and end with an operand.
proof fn lemma_op_tokens_end(e: Expr)
    requires
        op_tokens(e) is Some,
    ensures
        op_tokens(e)->Some_0.len() > 0,
        is_leaf_token(op_tokens(e)->Some_0.last()),
    decreases e,
{
    match e {
        Expr::Unary(u) => {
            lemma_op_tokens_end(*u.expr);
        },
        Expr::Binary(b) => {
            lemma_op_tokens_end(*b.right);
        },
        _ => {},
    }
}

/// In the tokens of a tree that binds above `bp`, an operator right after an operand is a
/// binary operator of higher rank than `bp`; a tree that is no binary operation has none.
proof fn lemma_infix_positions(e: Expr, bp: int, q: int)
    requires
        binds_above(e, bp),
        op_tokens(e) is Some,
        1 <= q < op_tokens(e)->Some_0.len(),
        is_leaf_token(op_tokens(e)->Some_0[q - 1]),
    ensures
        e is Binary,
        op_tokens(e)->Some_0[q].kind is Operator,
        op_rank(op_tokens(e)->Some_0[q].kind->Operator_0) > bp,
    decreases e,
{
    let ts = op_tokens(e)->Some_0;
    match e {
        Expr::Unary(u) => {
            let t = op_tokens(*u.expr)->Some_0;
            assert(ts == seq![op_token(u.op)] + t);
            assert(q >= 2) by {
                if q == 1 {
                    assert(ts[0] == op_token(u.op));
                }
            }
            assert(t[q - 2] == ts[q - 1]);
            assert(t[q - 1] == ts[q]);
            lemma_infix_positions(*u.expr, ExprBindingPower::Unary.spec_rank() as int, q - 1);
            lemma_op_rank_bound(ts[q].kind->Operator_0);
        },
        Expr::Binary(b) => {
            let tl = op_tokens(*b.left)->Some_0;
            let tr = op_tokens(*b.right)->Some_0;
            assert(ts == tl + seq![op_token(b.op)] + tr);
            if q < tl.len() {
                assert(tl[q - 1] == ts[q - 1] && tl[q] == ts[q]);
                lemma_infix_positions(*b.left, op_rank(b.op.0) - 1, q);
            } else if q == tl.len() {
                assert(ts[q] == op_token(b.op));
            } else {
                let q2 = q - tl.len() - 1;
                assert(q2 >= 1) by {
                    if q2 == 0 {
                        assert(ts[q - 1] == op_token(b.op));
                    }
                }
                assert(tr[q2 - 1] == ts[q - 1] && tr[q2] == ts[q]);
                lemma_infix_positions(*b.right, op_rank(b.op.0), q2);
            }
        },
        _ => {},
    }
}

/// Precedence and left grouping fix the tree: two operator trees that bind above the same
/// level and read from the same tokens are the same tree.
pub proof fn lemma_op_parse_unique(e1: Expr, e2: Expr, bp: int)
    requires
        binds_above(e1, bp),
        binds_above(e2, bp),
        op_tokens(e1) is Some,
        op_tokens(e1) == op_tokens(e2),
    ensures
        same_op_tree(e1, e2),
    decreases e1,
{
    let ts = op_tokens(e1)->Some_0;
    match (e1, e2) {
        (Expr::Binary(a), Expr::Binary(b)) => {
            let l1 = op_tokens(*a.left)->Some_0;
            let r1 = op_tokens(*a.right)->Some_0;
            let l2 = op_tokens(*b.left)->Some_0;
            let r2 = op_tokens(*b.right)->Some_0;
            assert(ts == l1 + seq![op_token(a.op)] + r1);
            assert(ts == l2 + seq![op_token(b.op)] + r2);
            lemma_op_tokens_end(*a.left);
            lemma_op_tokens_end(*b.left);
            let p1 = l1.len() as int;
            let p2 = l2.len() as int;
            if p1 < p2 {
                assert(l2[p1 - 1] == ts[p1 - 1] && ts[p1 - 1] == l1.last());
                assert(l2[p1] == ts[p1] && ts[p1] == op_token(a.op));
                lemma_infix_positions(*b.left, op_rank(b.op.0) - 1, p1);
                let q = p2 - p1 - 1;
                assert(q >= 1) by {
                    if q == 0 {
                        assert(ts[p2 - 1] == op_token(a.op));
                        assert(ts[p2 - 1] == l2.last());
                    }
                }
                assert(r1[q - 1] == ts[p2 - 1] && ts[p2 - 1] == l2.last());
                assert(r1[q] == ts[p2] && ts[p2] == op_token(b.op));
                lemma_infix_positions(*a.right, op_rank(a.op.0), q);
                assert(false);
            } else if p2 < p1 {
                assert(l1[p2 - 1] == ts[p2 - 1] && ts[p2 - 1] == l2.last());
                assert(l1[p2] == ts[p2] && ts[p2] == op_token(b.op));
                lemma_infix_positions(*a.left, op_rank(a.op.0) - 1, p2);
                let q = p1 - p2 - 1;
                assert(q >= 1) by {
                    if q == 0 {
                        assert(ts[p1 - 1] == op_token(b.op));
                        assert(ts[p1 - 1] == l1.last());
                    }
                }
                assert(r2[q - 1] == ts[p1 - 1] && ts[p1 - 1] == l1.last());
                assert(r2[q] == ts[p1] && ts[p1] == op_token(a.op));
                lemma_infix_positions(*b.right, op_rank(b.op.0), q);
                assert(false);
            } else {
                assert(l1 =~= ts.subrange(0, p1));
                assert(l2 =~= ts.subrange(0, p1));
                assert(r1 =~= ts.subrange(p1 + 1, ts.len() as int));
                assert(r2 =~= ts.subrange(p1 + 1, ts.len() as int));
                assert(op_token(a.op) == ts[p1] && op_token(b.op) == ts[p1]);
                lemma_op_parse_unique(*a.left, *b.left, op_rank(a.op.0) - 1);
                lemma_op_parse_unique(*a.right, *b.right, op_rank(a.op.0));
            }
        },
        (Expr::Binary(a), _) => {
            let l1 = op_tokens(*a.left)->Some_0;
            assert(ts == l1 + seq![op_token(a.op)] + op_tokens(*a.right)->Some_0);
            lemma_op_tokens_end(*a.left);
            let p = l1.len() as int;
            assert(ts[p - 1] == l1.last());
            assert(ts[p] == op_token(a.op));
            lemma_infix_positions(e2, bp, p);
        },
        (_, Expr::Binary(b)) => {
            let l2 = op_tokens(*b.left)->Some_0;
            assert(ts == l2 + seq![op_token(b.op)] + op_tokens(*b.right)->Some_0);
            lemma_op_tokens_end(*b.left);
            let p = l2.len() as int;
            assert(ts[p - 1] == l2.last());
            assert(ts[p] == op_token(b.op));
            lemma_infix_positions(e1, bp, p);
        },
        (Expr::Unary(a), Expr::Unary(b)) => {
            let t1 = op_tokens(*a.expr)->Some_0;
            let t2 = op_tokens(*b.expr)->Some_0;
            assert(ts == seq![op_token(a.op)] + t1);
            assert(ts == seq![op_token(b.op)] + t2);
            assert(ts[0] == op_token(a.op) && ts[0] == op_token(b.op));
            assert(t1 =~= ts.subrange(1, ts.len() as int));
            assert(t2 =~= ts.subrange(1, ts.len() as int));
            lemma_op_parse_unique(*a.expr, *b.expr, ExprBindingPower::Unary.spec_rank() as int);
        },
        _ => {
            assert(ts[0] == op_tokens(e2)->Some_0[0]);
        },
    }
}

/// `new` took the tokens `ts` from `old`: they were `old`'s next tokens, and `new` hands
/// out what follows them.
pub open spec fn took_tokens(old: ParseContext, new: ParseContext, ts: Seq<TokenView>) -> bool {
    &&& forall|k: nat| #[trigger] new.lex().upcoming(k) == old.lex().upcoming(k + ts.len())
    &&& forall|k: int| 0 <= k < ts.len() ==> old.lex().upcoming(k as nat) == #[trigger] ts[k]
}

proof fn lemma_took_trans(
    a: ParseContext,
    b: ParseContext,
    c: ParseContext,
    t1: Seq<TokenView>,
    t2: Seq<TokenView>,
)
    requires
        took_tokens(a, b, t1),
        took_tokens(b, c, t2),
    ensures
        took_tokens(a, c, t1 + t2),
{
    assert forall|k: nat| #[trigger] c.lex().upcoming(k) == a.lex().upcoming(k + (t1 + t2).len()) by {
        assert(c.lex().upcoming(k) == b.lex().upcoming(k + t2.len()));
        assert(b.lex().upcoming((k + t2.len()) as nat) == a.lex().upcoming((k + t2.len() + t1.len()) as nat));
    }
    assert forall|k: int| 0 <= k < (t1 + t2).len() implies a.lex().upcoming(k as nat) == #[trigger] (t1
        + t2)[k] by {
        if k < t1.len() {
            assert(a.lex().upcoming(k as nat) == t1[k]);
        } else {
            assert(b.lex().upcoming((k - t1.len()) as nat) == t2[k - t1.len()]);
            assert(b.lex().upcoming((k - t1.len()) as nat) == a.lex().upcoming(((k - t1.len()) + t1.len()) as nat));
        }
    }
}

proof fn lemma_took_one_token(a: ParseContext, b: ParseContext)
    requires
        took_one(a, b),
    ensures
        took_tokens(a, b, seq![a.lex().upcoming(0)]),
{
    assert forall|k: nat| #[trigger] b.lex().upcoming(k) == a.lex().upcoming(k + seq![a.lex().upcoming(0)].len()) by {
        assert(b.lex().upcoming(k) == a.lex().upcoming(k + 1));
    }
}

proof fn lemma_took_none(a: ParseContext, b: ParseContext)
    requires
        forall|k: nat| #[trigger] b.lex().upcoming(k) == a.lex().upcoming(k),
    ensures
        took_tokens(a, b, Seq::<TokenView>::empty()),
{
    assert forall|k: nat| #[trigger] b.lex().upcoming(k) == a.lex().upcoming(k + Seq::<TokenView>::empty().len()) by {
        assert(k + Seq::<TokenView>::empty().len() == k);
    }
}

/// Joining a left operand to a right one under an operator that binds no more tightly
/// than the left operand's keeps the order of binding.
proof fn lemma_binds_join(e: Expr, bp: int)
    requires
        e matches Expr::Binary(b) && op_rank(b.op.0) > bp && binds_above(*b.left, bp) && (
        *b.left matches Expr::Binary(l) ==> op_rank(l.op.0) >= op_rank(b.op.0)) && binds_above(
            *b.right,
            op_rank(b.op.0),
        ),
    ensures
        binds_above(e, bp),
{
    let b = e->Binary_0;
    let r = op_rank(b.op.0);
    match *b.left {
        Expr::Binary(l) => {
            assert(binds_above(*l.left, op_rank(l.op.0) - 1));
            assert(binds_above(*l.right, op_rank(l.op.0)));
            assert(binds_above(*b.left, r - 1));
        },
        _ => {
            assert(binds_above(*b.left, r - 1));
        },
    }
}

pub open spec fn lit_kw(k: LiteralKeyword) -> TokenKindView {
    TokenKindView::LiteralKeyword(k)
}

pub open spec fn op_kind(o: Operator) -> TokenKindView {
    TokenKindView::Operator(o)
}

pub open spec fn delim_kind(d: Delimiter) -> TokenKindView {
    TokenKindView::Delimiter(d)
}

pub open spec fn kw_kind(k: Keyword) -> TokenKindView {
    TokenKindView::Keyword(k)
}

/// The nud registrations of the expression grammar, in order.
pub open spec fn expr_nud_table() -> Seq<(TokenKindView, ExprNud)> {
    Seq::empty().push((lit_kw(LiteralKeyword::True), ExprNud::Primary)).push(
        (lit_kw(LiteralKeyword::False), ExprNud::Primary),
    ).push((TokenKindView::Literal(Literal::Int(0)), ExprNud::Primary)).push(
        (TokenKindView::Identifier(Seq::empty()), ExprNud::Primary),
    ).push((op_kind(Operator::Sub), ExprNud::PrefixUnary)).push(
        (op_kind(Operator::Not), ExprNud::PrefixUnary),
    ).push((delim_kind(Delimiter::ParenOpen), ExprNud::UnitOrGroup)).push(
        (delim_kind(Delimiter::BraceOpen), ExprNud::Block),
    ).push((kw_kind(Keyword::Return), ExprNud::Return)).push(
        (kw_kind(Keyword::If), ExprNud::If),
    ).push((kw_kind(Keyword::Loop), ExprNud::Loop))
}

/// The infix handlers of the expression grammar, in registration order.
pub open spec fn expr_led_table() -> Seq<(TokenKindView, ExprLed)> {
    Seq::empty()
        .push((op_kind(Operator::Add), ExprLed::Binary))
        .push((op_kind(Operator::Sub), ExprLed::Binary))
        .push((op_kind(Operator::And), ExprLed::Binary))
        .push((op_kind(Operator::Or), ExprLed::Binary))
        .push((op_kind(Operator::Equal), ExprLed::Binary))
        .push((op_kind(Operator::NotEqual), ExprLed::Binary))
        .push((op_kind(Operator::Less), ExprLed::Binary))
        .push((op_kind(Operator::LessEqual), ExprLed::Binary))
        .push((op_kind(Operator::Greater), ExprLed::Binary))
        .push((op_kind(Operator::GreaterEqual), ExprLed::Binary))
        .push((op_kind(Operator::Assign), ExprLed::Binary))
        .push((delim_kind(Delimiter::ParenOpen), ExprLed::Call))
}

/// The binding powers of the expression grammar's infix tokens, in registration order.
pub open spec fn expr_bp_table() -> Seq<(TokenKindView, ExprBindingPower)> {
    Seq::empty()
        .push((op_kind(Operator::Add), ExprBindingPower::Additive))
        .push((op_kind(Operator::Sub), ExprBindingPower::Additive))
        .push((op_kind(Operator::And), ExprBindingPower::LogicalMultiplicative))
        .push((op_kind(Operator::Or), ExprBindingPower::LogicalAdditive))
        .push((op_kind(Operator::Equal), ExprBindingPower::Comparative))
        .push((op_kind(Operator::NotEqual), ExprBindingPower::Comparative))
        .push((op_kind(Operator::Less), ExprBindingPower::Comparative))
        .push((op_kind(Operator::LessEqual), ExprBindingPower::Comparative))
        .push((op_kind(Operator::Greater), ExprBindingPower::Comparative))
        .push((op_kind(Operator::GreaterEqual), ExprBindingPower::Comparative))
        .push((op_kind(Operator::Assign), ExprBindingPower::Assign))
        .push((delim_kind(Delimiter::ParenOpen), ExprBindingPower::Call))
}

pub proof fn lemma_expr_nud_table(k: TokenKindView)
    ensures
        find(expr_nud_table(), k) == expr_nud_of(k),
{
    let t0 = Seq::<(TokenKindView, ExprNud)>::empty();
    let t1 = t0.push((lit_kw(LiteralKeyword::True), ExprNud::Primary));
    let t2 = t1.push((lit_kw(LiteralKeyword::False), ExprNud::Primary));
    let t3 = t2.push((TokenKindView::Literal(Literal::Int(0)), ExprNud::Primary));
    let t4 = t3.push((TokenKindView::Identifier(Seq::empty()), ExprNud::Primary));
    let t5 = t4.push((op_kind(Operator::Sub), ExprNud::PrefixUnary));
    let t6 = t5.push((op_kind(Operator::Not), ExprNud::PrefixUnary));
    let t7 = t6.push((delim_kind(Delimiter::ParenOpen), ExprNud::UnitOrGroup));
    let t8 = t7.push((delim_kind(Delimiter::BraceOpen), ExprNud::Block));
    let t9 = t8.push((kw_kind(Keyword::Return), ExprNud::Return));
    let t10 = t9.push((kw_kind(Keyword::If), ExprNud::If));
    let t11 = t10.push((kw_kind(Keyword::Loop), ExprNud::Loop));
    lemma_find_push(t0, (lit_kw(LiteralKeyword::True), ExprNud::Primary), k);
    lemma_find_push(t1, (lit_kw(LiteralKeyword::False), ExprNud::Primary), k);
    lemma_find_push(t2, (TokenKindView::Literal(Literal::Int(0)), ExprNud::Primary), k);
    lemma_find_push(t3, (TokenKindView::Identifier(Seq::empty()), ExprNud::Primary), k);
    lemma_find_push(t4, (op_kind(Operator::Sub), ExprNud::PrefixUnary), k);
    lemma_find_push(t5, (op_kind(Operator::Not), ExprNud::PrefixUnary), k);
    lemma_find_push(t6, (delim_kind(Delimiter::ParenOpen), ExprNud::UnitOrGroup), k);
    lemma_find_push(t7, (delim_kind(Delimiter::BraceOpen), ExprNud::Block), k);
    lemma_find_push(t8, (kw_kind(Keyword::Return), ExprNud::Return), k);
    lemma_find_push(t9, (kw_kind(Keyword::If), ExprNud::If), k);
    lemma_find_push(t10, (kw_kind(Keyword::Loop), ExprNud::Loop), k);
    assert(find(t0, k) is None);
    assert(t11 == expr_nud_table());
}

pub proof fn lemma_expr_led_table(k: TokenKindView)
    ensures
        find(expr_led_table(), k) == expr_led_of(k),
{
    let t0 = Seq::<(TokenKindView, ExprLed)>::empty();
    let t1 = t0.push((op_kind(Operator::Add), ExprLed::Binary));
    let t2 = t1.push((op_kind(Operator::Sub), ExprLed::Binary));
    let t3 = t2.push((op_kind(Operator::And), ExprLed::Binary));
    let t4 = t3.push((op_kind(Operator::Or), ExprLed::Binary));
    let t5 = t4.push((op_kind(Operator::Equal), ExprLed::Binary));
    let t6 = t5.push((op_kind(Operator::NotEqual), ExprLed::Binary));
    let t7 = t6.push((op_kind(Operator::Less), ExprLed::Binary));
    let t8 = t7.push((op_kind(Operator::LessEqual), ExprLed::Binary));
    let t9 = t8.push((op_kind(Operator::Greater), ExprLed::Binary));
    let t10 = t9.push((op_kind(Operator::GreaterEqual), ExprLed::Binary));
    let t11 = t10.push((op_kind(Operator::Assign), ExprLed::Binary));
    let t12 = t11.push((delim_kind(Delimiter::ParenOpen), ExprLed::Call));
    lemma_find_push(t0, (op_kind(Operator::Add), ExprLed::Binary), k);
    lemma_find_push(t1, (op_kind(Operator::Sub), ExprLed::Binary), k);
    lemma_find_push(t2, (op_kind(Operator::And), ExprLed::Binary), k);
    lemma_find_push(t3, (op_kind(Operator::Or), ExprLed::Binary), k);
    lemma_find_push(t4, (op_kind(Operator::Equal), ExprLed::Binary), k);
    lemma_find_push(t5, (op_kind(Operator::NotEqual), ExprLed::Binary), k);
    lemma_find_push(t6, (op_kind(Operator::Less), ExprLed::Binary), k);
    lemma_find_push(t7, (op_kind(Operator::LessEqual), ExprLed::Binary), k);
    lemma_find_push(t8, (op_kind(Operator::Greater), ExprLed::Binary), k);
    lemma_find_push(t9, (op_kind(Operator::GreaterEqual), ExprLed::Binary), k);
    lemma_find_push(t10, (op_kind(Operator::Assign), ExprLed::Binary), k);
    lemma_find_push(t11, (delim_kind(Delimiter::ParenOpen), ExprLed::Call), k);
    assert(find(t0, k) is None);
    assert(t12 == expr_led_table());
}

pub proof fn lemma_expr_bp_table(k: TokenKindView)
    ensures
        find(expr_bp_table(), k) == expr_bp_of(k),
{
    let t0 = Seq::<(TokenKindView, ExprBindingPower)>::empty();
    let t1 = t0.push((op_kind(Operator::Add), ExprBindingPower::Additive));
    let t2 = t1.push((op_kind(Operator::Sub), ExprBindingPower::Additive));
    let t3 = t2.push((op_kind(Operator::And), ExprBindingPower::LogicalMultiplicative));
    let t4 = t3.push((op_kind(Operator::Or), ExprBindingPower::LogicalAdditive));
    let t5 = t4.push((op_kind(Operator::Equal), ExprBindingPower::Comparative));
    let t6 = t5.push((op_kind(Operator::NotEqual), ExprBindingPower::Comparative));
    let t7 = t6.push((op_kind(Operator::Less), ExprBindingPower::Comparative));
    let t8 = t7.push((op_kind(Operator::LessEqual), ExprBindingPower::Comparative));
    let t9 = t8.push((op_kind(Operator::Greater), ExprBindingPower::Comparative));
    let t10 = t9.push((op_kind(Operator::GreaterEqual), ExprBindingPower::Comparative));
    let t11 = t10.push((op_kind(Operator::Assign), ExprBindingPower::Assign));
    let t12 = t11.push((delim_kind(Delimiter::ParenOpen), ExprBindingPower::Call));
    lemma_find_push(t0, (op_kind(Operator::Add), ExprBindingPower::Additive), k);
    lemma_find_push(t1, (op_kind(Operator::Sub), ExprBindingPower::Additive), k);
    lemma_find_push(t2, (op_kind(Operator::And), ExprBindingPower::LogicalMultiplicative), k);
    lemma_find_push(t3, (op_kind(Operator::Or), ExprBindingPower::LogicalAdditive), k);
    lemma_find_push(t4, (op_kind(Operator::Equal), ExprBindingPower::Comparative), k);
    lemma_find_push(t5, (op_kind(Operator::NotEqual), ExprBindingPower::Comparative), k);
    lemma_find_push(t6, (op_kind(Operator::Less), ExprBindingPower::Comparative), k);
    lemma_find_push(t7, (op_kind(Operator::LessEqual), ExprBindingPower::Comparative), k);
    lemma_find_push(t8, (op_kind(Operator::Greater), ExprBindingPower::Comparative), k);
    lemma_find_push(t9, (op_kind(Operator::GreaterEqual), ExprBindingPower::Comparative), k);
    lemma_find_push(t10, (op_kind(Operator::Assign), ExprBindingPower::Assign), k);
    lemma_find_push(t11, (delim_kind(Delimiter::ParenOpen), ExprBindingPower::Call), k);
    assert(find(t0, k) is None);
    assert(t12 == expr_bp_table());
}


/// The nud registrations of the expression grammar.
pub fn expr_nuds() -> (r: Vec<(TokenKind, ExprNud)>)
    ensures
        table_view(r@) == expr_nud_table(),
{
    let mut v: Vec<(TokenKind, ExprNud)> = Vec::new();
    v.push((TokenKind::LiteralKeyword(LiteralKeyword::True), ExprNud::Primary));
    v.push((TokenKind::LiteralKeyword(LiteralKeyword::False), ExprNud::Primary));
    v.push((TokenKind::Literal(Literal::Int(0)), ExprNud::Primary));
    v.push((TokenKind::Identifier(Identifier(String::new())), ExprNud::Primary));
    v.push((TokenKind::Operator(Operator::Sub), ExprNud::PrefixUnary));
    v.push((TokenKind::Operator(Operator::Not), ExprNud::PrefixUnary));
    v.push((TokenKind::Delimiter(Delimiter::ParenOpen), ExprNud::UnitOrGroup));
    v.push((TokenKind::Delimiter(Delimiter::BraceOpen), ExprNud::Block));
    v.push((TokenKind::Keyword(Keyword::Return), ExprNud::Return));
    v.push((TokenKind::Keyword(Keyword::If), ExprNud::If));
    v.push((TokenKind::Keyword(Keyword::Loop), ExprNud::Loop));
    assert(table_view(v@) =~= expr_nud_table());
    v
}

/// The infix registrations of the expression grammar: token, binding power, handler.
pub fn expr_leds() -> (r: Vec<(TokenKind, ExprBindingPower, ExprLed)>)
    ensures
        table_view(led_part(r@)) == expr_led_table(),
        table_view(bp_part(r@)) == expr_bp_table(),
{
    let mut v: Vec<(TokenKind, ExprBindingPower, ExprLed)> = Vec::new();
    v.push((TokenKind::Operator(Operator::Add), ExprBindingPower::Additive, ExprLed::Binary));
    v.push((TokenKind::Operator(Operator::Sub), ExprBindingPower::Additive, ExprLed::Binary));
    v.push((TokenKind::Operator(Operator::And), ExprBindingPower::LogicalMultiplicative, ExprLed::Binary));
    v.push((TokenKind::Operator(Operator::Or), ExprBindingPower::LogicalAdditive, ExprLed::Binary));
    v.push((TokenKind::Operator(Operator::Equal), ExprBindingPower::Comparative, ExprLed::Binary));
    v.push((TokenKind::Operator(Operator::NotEqual), ExprBindingPower::Comparative, ExprLed::Binary));
    v.push((TokenKind::Operator(Operator::Less), ExprBindingPower::Comparative, ExprLed::Binary));
    v.push((TokenKind::Operator(Operator::LessEqual), ExprBindingPower::Comparative, ExprLed::Binary));
    v.push((TokenKind::Operator(Operator::Greater), ExprBindingPower::Comparative, ExprLed::Binary));
    v.push((TokenKind::Operator(Operator::GreaterEqual), ExprBindingPower::Comparative, ExprLed::Binary));
    v.push((TokenKind::Operator(Operator::Assign), ExprBindingPower::Assign, ExprLed::Binary));
    v.push((TokenKind::Delimiter(Delimiter::ParenOpen), ExprBindingPower::Call, ExprLed::Call));
    assert(table_view(led_part(v@)) =~= expr_led_table());
    assert(table_view(bp_part(v@)) =~= expr_bp_table());
    v
}

impl Handlers<ExprNud, ExprLed, ExprBindingPower> for ExprHandlers {
    open spec fn nud_table(&self) -> Seq<(TokenKindView, ExprNud)> {
        expr_nud_table()
    }

    open spec fn led_table(&self) -> Seq<(TokenKindView, ExprLed)> {
        expr_led_table()
    }

    open spec fn bp_table(&self) -> Seq<(TokenKindView, ExprBindingPower)> {
        expr_bp_table()
    }

    fn nuds(&self) -> (r: Vec<(TokenKind, ExprNud)>) {
        expr_nuds()
    }

    fn leds(&self) -> (r: Vec<(TokenKind, ExprBindingPower, ExprLed)>) {
        expr_leds()
    }
}

/// The expression grammar's parser.
pub open spec fn is_expr_parser(p: PrattParser<ExprNud, ExprLed, ExprBindingPower>) -> bool {
    &&& forall|k: TokenKindView| #[trigger] p.nud_of(k) == expr_nud_of(k)
    &&& forall|k: TokenKindView| #[trigger] p.bp_of(k) == expr_bp_of(k)
    &&& forall|k: TokenKindView| #[trigger] p.led_of(k) == expr_led_of(k)
}

pub fn expr_parser() -> (r: PrattParser<ExprNud, ExprLed, ExprBindingPower>)
    ensures
        is_expr_parser(r),
{
    let r = PrattParser::from_tables(expr_nuds(), expr_leds());
    assert forall|k: TokenKindView| #[trigger] r.nud_of(k) == expr_nud_of(k) by {
        lemma_expr_nud_table(k);
    }
    assert forall|k: TokenKindView| #[trigger] r.bp_of(k) == expr_bp_of(k) by {
        lemma_expr_bp_table(k);
    }
    assert forall|k: TokenKindView| #[trigger] r.led_of(k) == expr_led_of(k) by {
        lemma_expr_led_table(k);
    }
    r
}


/// What a primary expression token stands for.
pub open spec fn primary_expr(t: TokenView, e: Expr) -> bool {
    match t.kind {
        TokenKindView::Literal(Literal::Int(v)) => e == Expr::Integer(Located(v, t.loc)),
        TokenKindView::LiteralKeyword(LiteralKeyword::True) => e == Expr::Bool(Located(true, t.loc)),
        TokenKindView::LiteralKeyword(LiteralKeyword::False) => e == Expr::Bool(
            Located(false, t.loc),
        ),
        TokenKindView::Identifier(s) => e matches Expr::Identifier(l) && l.0@ == s && l.1 == t.loc,
        _ => false,
    }
}

/// Tokens after `return` that leave it without a value.
pub open spec fn ends_return(k: TokenKindView) -> bool {
    ||| k == TokenKindView::Delimiter(Delimiter::Semicolon)
    ||| k == TokenKindView::Delimiter(Delimiter::ParenClose)
    ||| k == TokenKindView::Delimiter(Delimiter::BraceClose)
    ||| k == TokenKindView::Delimiter(Delimiter::BracketClose)
    ||| k == TokenKindView::Delimiter(Delimiter::Comma)
}

/// The next token closes a block, or there is none.
pub open spec fn at_block_end(ctx: ParseContext) -> bool {
    next_of(ctx).kind == TokenKindView::Delimiter(Delimiter::BraceClose) || next_of(
        ctx,
    ).kind is EndOfFile
}

/// Where a statement that failed to parse is skipped to.
pub open spec fn at_stmt_end(ctx: ParseContext) -> bool {
    at_block_end(ctx) || next_of(ctx).kind == TokenKindView::Delimiter(Delimiter::Semicolon)
}

/// The error recorded when the next token cannot start an expression.
pub open spec fn unexpected_expr_token(e: Located<ParseError>, t: TokenView) -> bool {
    &&& e.0 matches ParseError::ExprParseError(ExprParseError::UnexpectedToken(k))
    &&& k@ == t.kind
    &&& e.1 == t.loc
}

fn handle_err(e: Result<Expr, PrattParseError>, ctx: &mut ParseContext) -> (r: Option<Expr>)
    requires
        old(ctx).wf(),
    ensures
        advanced(*old(ctx), *final(ctx)),
        final(ctx).lex() == old(ctx).lex(),
        e is Ok ==> r == Some(e->Ok_0) && final(ctx).errors() == old(ctx).errors(),
        e is Err ==> r is None,
        e matches Err(PrattParseError::NoNudHandlerFound(t)) ==> final(ctx).errors().len()
            == old(ctx).errors().len() + 1 && unexpected_expr_token(
            final(ctx).errors().last(),
            t@,
        ),
        e matches Err(PrattParseError::ParseError) ==> final(ctx).errors() == old(ctx).errors(),
{
    let r = match e {
        Ok(v) => Some(v),
        Err(err) => {
            match err {
                PrattParseError::NoNudHandlerFound(t) => {
                    ctx.push_error(
                        Located(
                            ParseError::ExprParseError(ExprParseError::UnexpectedToken(t.kind)),
                            t.loc,
                        ),
                    );
                },
                PrattParseError::NoLedHandlerFound(t) => {
                    ctx.push_error(
                        Located(
                            ParseError::ExprParseError(
                                ExprParseError::UnexpectedInfixOperator(t.kind),
                            ),
                            t.loc,
                        ),
                    );
                },
                PrattParseError::ParseError => {},
            }
            None
        },
    };
    proof {
        assert(ctx.errors().subrange(0, old(ctx).errors().len() as int) =~= old(ctx).errors());
    }
    r
}

impl PrattParser<ExprNud, ExprLed, ExprBindingPower> {
    /// Parses an expression: runs the nud handler of the next token, then the led handler
    /// of each following token that binds more strongly than `bp`.
    pub fn parse(&self, ctx: &mut ParseContext, bp: ExprBindingPower) -> (r: Result<
        Expr,
        PrattParseError,
    >)
        requires
            old(ctx).wf(),
            is_expr_parser(*self),
        ensures
            advanced(*old(ctx), *final(ctx)),
            r is Ok ==> final(ctx).lex().remaining() < old(ctx).lex().remaining(),
            r is Ok ==> expr_bp_rank(next_of(*final(ctx)).kind) <= bp.spec_rank(),
            expr_nud_of(next_of(*old(ctx)).kind) is None <==> r matches Err(
                PrattParseError::NoNudHandlerFound(_),
            ),
            r matches Err(PrattParseError::NoNudHandlerFound(t)) ==> t@ == next_of(*old(ctx))
                && untouched(*old(ctx), *final(ctx)) && final(ctx).errors() == old(ctx).errors(),
            !(r matches Err(PrattParseError::NoLedHandlerFound(_))),
            r matches Err(PrattParseError::ParseError) ==> final(ctx).errors().len() > old(ctx).errors().len(),
            r matches Ok(e) ==> binds_above(e, bp.spec_rank() as int),
            r matches Ok(e) ==> (op_tokens(e) matches Some(ts) ==> took_tokens(
                *old(ctx),
                *final(ctx),
                ts,
            )),
        decreases old(ctx).lex().remaining(), 3nat,
    {
        let kind = ctx.peek_kind();
        let nud = match self.get_nud(kind) {
            Some(n) => n,
            None => {
                let ghost c1 = *ctx;
                let t = ctx.peek_token();
                proof {
                    lemma_advanced_trans(*old(ctx), c1, *ctx);
                }
                return Err(PrattParseError::NoNudHandlerFound(t));
            },
        };
        let ghost c1 = *ctx;
        let first = run_nud(self, ctx, nud);
        proof {
            lemma_advanced_trans(*old(ctx), c1, *ctx);
            lemma_took_none(*old(ctx), c1);
            if first is Some {
                let e = first->Some_0;
                if op_tokens(e) is Some {
                    let te = op_tokens(e)->Some_0;
                    lemma_took_trans(*old(ctx), c1, *ctx, Seq::<TokenView>::empty(), te);
                    assert(Seq::<TokenView>::empty() + te =~= te);
                }
            }
        }
        let mut left = match first {
            Some(e) => e,
            None => {
                return Err(PrattParseError::ParseError);
            },
        };
        loop
            invariant
                ctx.wf(),
                is_expr_parser(*self),
                advanced(*old(ctx), *ctx),
                ctx.lex().remaining() < old(ctx).lex().remaining(),
                expr_nud_of(next_of(*old(ctx)).kind) is Some,
                binds_above(left, bp.spec_rank() as int),
                left matches Expr::Binary(lb) ==> expr_bp_rank(next_of(*ctx).kind) <= op_rank(
                    lb.op.0,
                ),
                op_tokens(left) matches Some(ts) ==> took_tokens(*old(ctx), *ctx, ts),
            ensures
                expr_bp_rank(next_of(*ctx).kind) <= bp.spec_rank(),
                binds_above(left, bp.spec_rank() as int),
                op_tokens(left) matches Some(ts) ==> took_tokens(*old(ctx), *ctx, ts),
            decreases ctx.lex().remaining(),
        {
            let ghost cs = *ctx;
            let kind = ctx.peek_kind();
            let cur_bp = match self.get_bp(kind) {
                Some(b) => b,
                None => ExprBindingPower::Zero,
            };
            if cur_bp.rank() <= bp.rank() {
                proof {
                    lemma_advanced_trans(*old(ctx), cs, *ctx);
                    lemma_took_none(cs, *ctx);
                    if op_tokens(left) is Some {
                        let tl = op_tokens(left)->Some_0;
                        lemma_took_trans(*old(ctx), cs, *ctx, tl, Seq::<TokenView>::empty());
                        assert(tl + Seq::<TokenView>::empty() =~= tl);
                    }
                }
                break ;
            }
            let led = match self.get_led(kind) {
                Some(l) => l,
                None => {
                    assert(false);
                    let t = ctx.peek_token();
                    return Err(PrattParseError::NoLedHandlerFound(t));
                },
            };
            let ghost c2 = *ctx;
            let ghost gl = left;
            let res = run_led(self, ctx, led, left, cur_bp);
            proof {
                lemma_advanced_trans(*old(ctx), cs, c2);
                lemma_advanced_trans(*old(ctx), c2, *ctx);
            }
            match res {
                Some(e) => {
                    proof {
                        if e is Binary {
                            let b = e->Binary_0;
                            if op_tokens(e) is Some {
                                let tl = op_tokens(gl)->Some_0;
                                let tr = op_tokens(*b.right)->Some_0;
                                lemma_took_none(cs, c2);
                                lemma_took_trans(*old(ctx), cs, c2, tl, Seq::<TokenView>::empty());
                                assert(tl + Seq::<TokenView>::empty() =~= tl);
                                assert(*b.left == gl);
                                assert(op_tokens(e) == Some(tl + seq![op_token(b.op)] + tr));
                                lemma_took_trans(*old(ctx), c2, *ctx, tl, seq![op_token(b.op)] + tr);
                                assert(tl + (seq![op_token(b.op)] + tr) =~= tl + seq![op_token(b.op)] + tr);
                                assert(took_tokens(*old(ctx), *ctx, tl + seq![op_token(b.op)] + tr));
                            }
                        }
                        if e is Binary {
                            assert(expr_bp_rank(next_of(cs).kind) == cur_bp.spec_rank());
                            lemma_binds_join(e, bp.spec_rank() as int);
                        }
                    }
                    left = e;
                },
                None => {
                    return Err(PrattParseError::ParseError);
                },
            }
        }
        Ok(left)
    }
}

fn run_nud(
    p: &PrattParser<ExprNud, ExprLed, ExprBindingPower>,
    ctx: &mut ParseContext,
    nud: ExprNud,
) -> (r: Option<Expr>)
    requires
        old(ctx).wf(),
        is_expr_parser(*p),
        expr_nud_of(next_of(*old(ctx)).kind) == Some(nud),
    ensures
        parsed(*old(ctx), *final(ctx), r),
        r matches Some(e) ==> !(e is Binary),
        r matches Some(e) ==> binds_above(e, 0),
        r matches Some(e) ==> (op_tokens(e) matches Some(ts) ==> took_tokens(
            *old(ctx),
            *final(ctx),
            ts,
        )),
    decreases old(ctx).lex().remaining(), 2nat,
{
    match nud {
        ExprNud::Primary => Some(parse_primary_expr(ctx)),
        ExprNud::PrefixUnary => parse_prefix_unary_expr(p, ctx),
        ExprNud::UnitOrGroup => parse_unit_or_group_expr(p, ctx),
        ExprNud::Block => Some(Expr::Block(parse_block_expr(p, ctx))),
        ExprNud::Return => parse_return_expr(p, ctx),
        ExprNud::If => parse_if_expr(p, ctx),
        ExprNud::Loop => parse_loop_expr(p, ctx),
    }
}

fn run_led(
    p: &PrattParser<ExprNud, ExprLed, ExprBindingPower>,
    ctx: &mut ParseContext,
    led: ExprLed,
    left: Expr,
    bp: ExprBindingPower,
) -> (r: Option<Expr>)
    requires
        old(ctx).wf(),
        is_expr_parser(*p),
        expr_led_of(next_of(*old(ctx)).kind) == Some(led),
        expr_bp_of(next_of(*old(ctx)).kind) == Some(bp),
    ensures
        parsed(*old(ctx), *final(ctx), r),
        r matches Some(e) ==> (e matches Expr::Binary(b) ==> *b.left == left && op_rank(b.op.0)
            == bp.spec_rank() && binds_above(*b.right, bp.spec_rank() as int) && expr_bp_rank(
            next_of(*final(ctx)).kind,
        ) <= bp.spec_rank()),
        r matches Some(Expr::Binary(b)) ==> (op_tokens(*b.right) matches Some(rt) ==> took_tokens(
            *old(ctx),
            *final(ctx),
            seq![op_token(b.op)] + rt,
        )),
        r matches Some(e) ==> (e is Binary || e is Call),
    decreases old(ctx).lex().remaining(), 1nat,
{
    match led {
        ExprLed::Binary => parse_binary_expr(p, ctx, left, bp),
        ExprLed::Call => parse_call_expr(p, ctx, left, bp),
    }
}

/// Parses an expression with the given parser, recording an error when it fails at its
/// first token.
fn parse_expr_in(p: &PrattParser<ExprNud, ExprLed, ExprBindingPower>, ctx: &mut ParseContext) -> (r:
    Option<Expr>)
    requires
        old(ctx).wf(),
        is_expr_parser(*p),
    ensures
        parsed(*old(ctx), *final(ctx), r),
        r is Some ==> expr_bp_rank(next_of(*final(ctx)).kind) == 0,
        r matches Some(e) ==> binds_above(e, 0),
        r matches Some(e) ==> (op_tokens(e) matches Some(ts) ==> took_tokens(
            *old(ctx),
            *final(ctx),
            ts,
        )),
        expr_nud_of(next_of(*old(ctx)).kind) is None ==> r is None && untouched(
            *old(ctx),
            *final(ctx),
        ) && final(ctx).errors().len() == old(ctx).errors().len() + 1 && unexpected_expr_token(
            final(ctx).errors().last(),
            next_of(*old(ctx)),
        ),
    decreases old(ctx).lex().remaining(), 4nat,
{
    let res = p.parse(ctx, ExprBindingPower::Zero);
    let ghost c1 = *ctx;
    let ghost gres = res;
    let r = handle_err(res, ctx);
    proof {
        lemma_advanced_trans(*old(ctx), c1, *ctx);
        lemma_took_none(c1, *ctx);
        if gres is Ok {
            let e = gres->Ok_0;
            if op_tokens(e) is Some {
                let te = op_tokens(e)->Some_0;
                lemma_took_trans(*old(ctx), c1, *ctx, te, Seq::<TokenView>::empty());
                assert(te + Seq::<TokenView>::empty() =~= te);
            }
        }
    }
    r
}

fn parse_primary_expr(ctx: &mut ParseContext) -> (r: Expr)
    requires
        old(ctx).wf(),
        expr_nud_of(next_of(*old(ctx)).kind) == Some(ExprNud::Primary),
    ensures
        advanced(*old(ctx), *final(ctx)),
        took_one(*old(ctx), *final(ctx)),
        final(ctx).lex().remaining() < old(ctx).lex().remaining(),
        primary_expr(next_of(*old(ctx)), r),
        op_tokens(r) == Some(seq![next_of(*old(ctx))]),
        took_tokens(*old(ctx), *final(ctx), seq![next_of(*old(ctx))]),
{
    let t = ctx.next_token();
    proof {
        lemma_took_one_token(*old(ctx), *ctx);
    }
    match t.kind {
        TokenKind::Literal(Literal::Int(v)) => Expr::Integer(Located(v, t.loc)),
        TokenKind::LiteralKeyword(LiteralKeyword::True) => Expr::Bool(Located(true, t.loc)),
        TokenKind::LiteralKeyword(LiteralKeyword::False) => Expr::Bool(Located(false, t.loc)),
        TokenKind::Identifier(Identifier(ident)) => Expr::Identifier(Located(ident, t.loc)),
        _ => {
            assert(false);
            Expr::Unit(t.loc)
        },
    }
}

fn parse_prefix_unary_expr(
    p: &PrattParser<ExprNud, ExprLed, ExprBindingPower>,
    ctx: &mut ParseContext,
) -> (r: Option<Expr>)
    requires
        old(ctx).wf(),
        is_expr_parser(*p),
        expr_nud_of(next_of(*old(ctx)).kind) == Some(ExprNud::PrefixUnary),
    ensures
        parsed(*old(ctx), *final(ctx), r),
        r matches Some(e) ==> (e matches Expr::Unary(u) && u.op.1 == next_of(*old(ctx)).loc
            && TokenKindView::Operator(u.op.0) == next_of(*old(ctx)).kind),
        r matches Some(Expr::Unary(u)) ==> binds_above(
            *u.expr,
            ExprBindingPower::Unary.spec_rank() as int,
        ),
        r matches Some(e) ==> (op_tokens(e) matches Some(ts) ==> took_tokens(
            *old(ctx),
            *final(ctx),
            ts,
        )),
    decreases old(ctx).lex().remaining(), 0nat,
{
    let t = ctx.next_token();
    let op = match t.kind {
        TokenKind::Operator(op) => op,
        _ => {
            assert(false);
            Operator::Sub
        },
    };
    let ghost c1 = *ctx;
    proof {
        lemma_took_one_token(*old(ctx), c1);
    }
    let res = p.parse(ctx, ExprBindingPower::Unary);
    let ghost c2 = *ctx;
    let ghost gres = res;
    let operand = handle_err(res, ctx);
    proof {
        lemma_advanced_trans(*old(ctx), c1, c2);
        lemma_advanced_trans(*old(ctx), c2, *ctx);
        lemma_took_none(c2, *ctx);
        if let Ok(e) = gres {
            if op_tokens(e) is Some {
                let t0 = seq![next_of(*old(ctx))];
                let te = op_tokens(e)->Some_0;
                lemma_took_trans(*old(ctx), c1, c2, t0, te);
                lemma_took_trans(*old(ctx), c2, *ctx, t0 + te, Seq::<TokenView>::empty());
                assert(t0 + te + Seq::<TokenView>::empty() =~= t0 + te);
            }
        }
    }
    match operand {
        Some(e) => Some(Expr::Unary(UnaryExpr { op: Located(op, t.loc), expr: Box::new(e) })),
        None => None,
    }
}

fn parse_binary_expr(
    p: &PrattParser<ExprNud, ExprLed, ExprBindingPower>,
    ctx: &mut ParseContext,
    left: Expr,
    bp: ExprBindingPower,
) -> (r: Option<Expr>)
    requires
        old(ctx).wf(),
        is_expr_parser(*p),
        expr_led_of(next_of(*old(ctx)).kind) == Some(ExprLed::Binary),
    ensures
        parsed(*old(ctx), *final(ctx), r),
        r matches Some(e) ==> (e matches Expr::Binary(b) && *b.left == left && b.op.1 == next_of(
            *old(ctx),
        ).loc && TokenKindView::Operator(b.op.0) == next_of(*old(ctx)).kind),
        r matches Some(e) ==> (e matches Expr::Binary(b) && binds_above(
            *b.right,
            bp.spec_rank() as int,
        ) && expr_bp_rank(next_of(*final(ctx)).kind) <= bp.spec_rank()),
        r matches Some(Expr::Binary(b)) ==> (op_tokens(*b.right) matches Some(rt) ==> took_tokens(
            *old(ctx),
            *final(ctx),
            seq![op_token(b.op)] + rt,
        )),
    decreases old(ctx).lex().remaining(), 0nat,
{
    let t = ctx.next_token();
    let op = match t.kind {
        TokenKind::Operator(op) => op,
        _ => {
            assert(false);
            Operator::Add
        },
    };
    let ghost c1 = *ctx;
    proof {
        lemma_took_one_token(*old(ctx), c1);
    }
    let res = p.parse(ctx, bp);
    let ghost c2 = *ctx;
    let ghost gres = res;
    let right = handle_err(res, ctx);
    proof {
        lemma_advanced_trans(*old(ctx), c1, c2);
        lemma_advanced_trans(*old(ctx), c2, *ctx);
        lemma_took_none(c2, *ctx);
        if let Ok(e) = gres {
            if op_tokens(e) is Some {
                let t0 = seq![next_of(*old(ctx))];
                let te = op_tokens(e)->Some_0;
                lemma_took_trans(*old(ctx), c1, c2, t0, te);
                lemma_took_trans(*old(ctx), c2, *ctx, t0 + te, Seq::<TokenView>::empty());
                assert(t0 + te + Seq::<TokenView>::empty() =~= t0 + te);
            }
        }
    }
    match right {
        Some(e) => Some(
            Expr::Binary(
                BinaryExpr { op: Located(op, t.loc), left: Box::new(left), right: Box::new(e) },
            ),
        ),
        None => None,
    }
}

fn parse_call_expr(
    p: &PrattParser<ExprNud, ExprLed, ExprBindingPower>,
    ctx: &mut ParseContext,
    left: Expr,
    bp: ExprBindingPower,
) -> (r: Option<Expr>)
    requires
        old(ctx).wf(),
        is_expr_parser(*p),
        expr_led_of(next_of(*old(ctx)).kind) == Some(ExprLed::Call),
    ensures
        parsed(*old(ctx), *final(ctx), r),
        r matches Some(e) ==> (e matches Expr::Call(c) && *c.callee == left && c.paren_open_tok
            == Located(Delimiter::ParenOpen, next_of(*old(ctx)).loc)),
    decreases old(ctx).lex().remaining(), 0nat,
{
    let paren_open_tok = ctx.expect_delimiter(Delimiter::ParenOpen);
    let ghost c1 = *ctx;
    let args = parse_args_in(p, ctx, Delimiter::Comma, Delimiter::ParenClose);
    proof {
        lemma_advanced_trans(*old(ctx), c1, *ctx);
    }
    let args = match args {
        Some(a) => a,
        None => {
            return None;
        },
    };
    let ghost c2 = *ctx;
    let paren_close_tok = ctx.expect_delimiter(Delimiter::ParenClose);
    proof {
        lemma_advanced_trans(*old(ctx), c2, *ctx);
    }
    Some(Expr::Call(CallExpr { callee: Box::new(left), paren_open_tok, args, paren_close_tok }))
}

/// One argument of a list and what follows it: the expression `e` is parsed from `a`,
/// where the closing delimiter `delim` is not next, to `m`, stopping before an infix
/// operator; then comes what `sep_step` says.
pub open spec fn arg_step(
    a: ParseContext,
    m: ParseContext,
    b: ParseContext,
    e: Expr,
    sep: Delimiter,
    delim: Delimiter,
) -> bool {
    &&& !peek_is(a, TokenKindView::Delimiter(delim))
    &&& parsed(a, m, Some(e))
    &&& binds_above(e, 0)
    &&& (op_tokens(e) matches Some(ts) ==> took_tokens(a, m, ts))
    &&& sep_step(m, b, sep, delim)
}

/// The contexts `cs` (one more than the arguments) and `ms` a list of the arguments `es`
/// went through, argument by argument.
pub open spec fn arg_trace(
    cs: Seq<ParseContext>,
    ms: Seq<ParseContext>,
    es: Seq<Expr>,
    sep: Delimiter,
    delim: Delimiter,
) -> bool {
    &&& cs.len() == es.len() + 1
    &&& ms.len() == es.len()
    &&& forall|i: int|
        0 <= i < es.len() ==> arg_step(#[trigger] cs[i], ms[i], cs[i + 1], es[i], sep, delim)
}

/// Parses expressions separated by `sep` up to (not including) the delimiter `delim`.
fn parse_args_in(
    p: &PrattParser<ExprNud, ExprLed, ExprBindingPower>,
    ctx: &mut ParseContext,
    sep: Delimiter,
    delim: Delimiter,
) -> (r: Option<Punctuated<Expr>>)
    requires
        old(ctx).wf(),
        is_expr_parser(*p),
    ensures
        advanced(*old(ctx), *final(ctx)),
        r is None ==> final(ctx).errors().len() > old(ctx).errors().len(),
        r matches Some(v) ==> v.sep == sep && peek_is(*final(ctx), TokenKindView::Delimiter(delim)),
        peek_is(*old(ctx), TokenKindView::Delimiter(delim)) ==> (r matches Some(v) && v.items@.len()
            == 0),
        r matches Some(v) ==> exists|cs: Seq<ParseContext>, ms: Seq<ParseContext>|
            #[trigger] arg_trace(cs, ms, v.items@, sep, delim) && cs[0] == *old(ctx) && untouched(
                cs.last(),
                *final(ctx),
            ) && final(ctx).errors() == cs.last().errors(),
        r is None ==> exists|cs: Seq<ParseContext>, ms: Seq<ParseContext>, es: Seq<Expr>|
            #[trigger] arg_trace(cs, ms, es, sep, delim) && cs[0] == *old(ctx) && !peek_is(
                cs.last(),
                TokenKindView::Delimiter(delim),
            ) && parsed(cs.last(), *final(ctx), None::<Expr>),
    decreases old(ctx).lex().remaining(), 5nat,
{
    let mut items: Vec<Expr> = Vec::new();
    let ghost mut cs: Seq<ParseContext> = seq![*ctx];
    let ghost mut ms: Seq<ParseContext> = Seq::empty();
    proof {
        lemma_advanced_refl(*ctx);
    }
    loop
        invariant_except_break
            cs.last() == *ctx,
        invariant
            arg_trace(cs, ms, items@, sep, delim),
            cs[0] == *old(ctx),
            ctx.wf(),
            is_expr_parser(*p),
            advanced(*old(ctx), *ctx),
            peek_is(*old(ctx), TokenKindView::Delimiter(delim)) ==> items@.len() == 0 && untouched(
                *old(ctx),
                *ctx,
            ),
        ensures
            peek_is(*ctx, TokenKindView::Delimiter(delim)),
            arg_trace(cs, ms, items@, sep, delim),
            cs[0] == *old(ctx),
            untouched(cs.last(), *ctx),
            ctx.errors() == cs.last().errors(),
        decreases ctx.lex().remaining(),
    {
        let ghost c0 = *ctx;
        let at_delim = match ctx.peek_kind() {
            TokenKind::Delimiter(d) => *d == delim,
            _ => false,
        };
        proof {
            lemma_advanced_trans(*old(ctx), c0, *ctx);
        }
        if at_delim {
            break ;
        }
        let ghost c1 = *ctx;
        let item = parse_expr_in(p, ctx);
        proof {
            lemma_advanced_trans(*old(ctx), c1, *ctx);
            lemma_advanced_trans(c0, c1, *ctx);
        }
        let ghost m = *ctx;
        let ghost gi = item;
        match item {
            Some(e) => items.push(e),
            None => {
                proof {
                    assert(arg_trace(cs, ms, items@, sep, delim));
                }
                return None;
            },
        }
        let ghost c2 = *ctx;
        let at_delim2 = match ctx.peek_kind() {
            TokenKind::Delimiter(d) => *d == delim,
            _ => false,
        };
        let ghost c3 = *ctx;
        if !at_delim2 {
            ctx.expect_delimiter(sep);
        }
        proof {
            lemma_advanced_trans(*old(ctx), c2, *ctx);
            lemma_advanced_trans(c2, c3, *ctx);
            let e = gi->Some_0;
            assert(arg_step(c0, m, *ctx, e, sep, delim));
            let cs2 = cs.push(*ctx);
            let ms2 = ms.push(m);
            assert forall|i: int| 0 <= i < items@.len() implies arg_step(
                #[trigger] cs2[i],
                ms2[i],
                cs2[i + 1],
                items@[i],
                sep,
                delim,
            ) by {
                if i < items@.len() - 1 {
                    assert(cs2[i] == cs[i] && cs2[i + 1] == cs[i + 1] && ms2[i] == ms[i]);
                    assert(items@[i] == items@.drop_last()[i]);
                }
            }
            cs = cs2;
            ms = ms2;
        }
    }
    let r = Punctuated { items, sep };
    proof {
        assert(arg_trace(cs, ms, r.items@, sep, delim));
    }
    Some(r)
}

fn parse_unit_or_group_expr(
    p: &PrattParser<ExprNud, ExprLed, ExprBindingPower>,
    ctx: &mut ParseContext,
) -> (r: Option<Expr>)
    requires
        old(ctx).wf(),
        is_expr_parser(*p),
        expr_nud_of(next_of(*old(ctx)).kind) == Some(ExprNud::UnitOrGroup),
    ensures
        parsed(*old(ctx), *final(ctx), r),
        old(ctx).lex().upcoming(1).kind == TokenKindView::Delimiter(Delimiter::ParenClose) ==> r
            == Some(
            Expr::Unit(spec_combine(next_of(*old(ctx)).loc, old(ctx).lex().upcoming(1).loc)),
        ),
        old(ctx).lex().upcoming(1).kind != TokenKindView::Delimiter(Delimiter::ParenClose) ==> (
        r matches Some(e) ==> (e matches Expr::Grouped(g) && g.paren_open_tok == Located(
            Delimiter::ParenOpen,
            next_of(*old(ctx)).loc,
        ))),
    decreases old(ctx).lex().remaining(), 0nat,
{
    let paren_open_tok = ctx.expect_delimiter(Delimiter::ParenOpen);
    let ghost c1 = *ctx;
    match ctx.match_delimiter(Delimiter::ParenClose) {
        Ok(close) => {
            proof {
                lemma_advanced_trans(*old(ctx), c1, *ctx);
            }
            Some(Expr::Unit(LocationRange::combine(paren_open_tok.1, close.1)))
        },
        Err(_) => {
            let ghost c2 = *ctx;
            let inner = parse_expr_in(p, ctx);
            proof {
                lemma_advanced_trans(*old(ctx), c1, c2);
                lemma_advanced_trans(*old(ctx), c2, *ctx);
            }
            match inner {
                Some(expr) => {
                    let ghost c3 = *ctx;
                    let paren_close_tok = ctx.expect_delimiter(Delimiter::ParenClose);
                    proof {
                        lemma_advanced_trans(*old(ctx), c3, *ctx);
                    }
                    Some(
                        Expr::Grouped(
                            GroupedExpr { paren_open_tok, expr: Box::new(expr), paren_close_tok },
                        ),
                    )
                },
                None => None,
            }
        },
    }
}

fn parse_return_expr(
    p: &PrattParser<ExprNud, ExprLed, ExprBindingPower>,
    ctx: &mut ParseContext,
) -> (r: Option<Expr>)
    requires
        old(ctx).wf(),
        is_expr_parser(*p),
        expr_nud_of(next_of(*old(ctx)).kind) == Some(ExprNud::Return),
    ensures
        parsed(*old(ctx), *final(ctx), r),
        r matches Some(e) ==> (e matches Expr::Return(x) && x.return_tok == Located(
            Keyword::Return,
            next_of(*old(ctx)).loc,
        ) && (x.expr is None <==> ends_return(old(ctx).lex().upcoming(1).kind))),
        ends_return(old(ctx).lex().upcoming(1).kind) ==> r is Some,
    decreases old(ctx).lex().remaining(), 0nat,
{
    let return_tok = ctx.expect_keyword(Keyword::Return);
    let ghost c1 = *ctx;
    let ends = match ctx.peek_kind() {
        TokenKind::Delimiter(d) => match d {
            Delimiter::Semicolon => true,
            Delimiter::ParenClose => true,
            Delimiter::BraceClose => true,
            Delimiter::BracketClose => true,
            Delimiter::Comma => true,
            _ => false,
        },
        _ => false,
    };
    proof {
        lemma_advanced_trans(*old(ctx), c1, *ctx);
    }
    if ends {
        Some(Expr::Return(ReturnExpr { return_tok, expr: None }))
    } else {
        let ghost c2 = *ctx;
        let value = parse_expr_in(p, ctx);
        proof {
            lemma_advanced_trans(*old(ctx), c2, *ctx);
        }
        match value {
            Some(e) => Some(Expr::Return(ReturnExpr { return_tok, expr: Some(Box::new(e)) })),
            None => None,
        }
    }
}

fn parse_if_expr(p: &PrattParser<ExprNud, ExprLed, ExprBindingPower>, ctx: &mut ParseContext) -> (r:
    Option<Expr>)
    requires
        old(ctx).wf(),
        is_expr_parser(*p),
        expr_nud_of(next_of(*old(ctx)).kind) == Some(ExprNud::If),
    ensures
        parsed(*old(ctx), *final(ctx), r),
        r matches Some(e) ==> (e matches Expr::If(i) && i.if_tok == Located(
            Keyword::If,
            next_of(*old(ctx)).loc,
        )),
    decreases old(ctx).lex().remaining(), 0nat,
{
    let if_tok = ctx.expect_keyword(Keyword::If);
    let ghost c1 = *ctx;
    let cond = parse_expr_in(p, ctx);
    proof {
        lemma_advanced_trans(*old(ctx), c1, *ctx);
    }
    let cond = match cond {
        Some(c) => c,
        None => {
            return None;
        },
    };
    let ghost c2 = *ctx;
    let then_body = parse_block_expr(p, ctx);
    let ghost c3 = *ctx;
    let has_else = match ctx.peek_kind() {
        TokenKind::Keyword(k) => *k == Keyword::Else,
        _ => false,
    };
    proof {
        lemma_advanced_trans(*old(ctx), c2, c3);
        lemma_advanced_trans(*old(ctx), c3, *ctx);
    }
    let else_expr = if has_else {
        let ghost c4 = *ctx;
        let e = parse_else_expr(p, ctx);
        proof {
            lemma_advanced_trans(*old(ctx), c4, *ctx);
        }
        Some(e)
    } else {
        None
    };
    Some(Expr::If(IfExpr { if_tok, cond: Box::new(cond), then_body, else_expr }))
}

fn parse_else_expr(p: &PrattParser<ExprNud, ExprLed, ExprBindingPower>, ctx: &mut ParseContext) -> (r:
    ElseExpr)
    requires
        old(ctx).wf(),
        is_expr_parser(*p),
        peek_is(*old(ctx), TokenKindView::Keyword(Keyword::Else)),
    ensures
        advanced(*old(ctx), *final(ctx)),
        final(ctx).lex().remaining() < old(ctx).lex().remaining(),
        r.else_tok == Located(Keyword::Else, next_of(*old(ctx)).loc),
    decreases old(ctx).lex().remaining(), 0nat,
{
    let else_tok = ctx.expect_keyword(Keyword::Else);
    let ghost c1 = *ctx;
    let body = parse_block_expr(p, ctx);
    proof {
        lemma_advanced_trans(*old(ctx), c1, *ctx);
    }
    ElseExpr { else_tok, body }
}

fn parse_loop_expr(p: &PrattParser<ExprNud, ExprLed, ExprBindingPower>, ctx: &mut ParseContext) -> (r:
    Option<Expr>)
    requires
        old(ctx).wf(),
        is_expr_parser(*p),
        expr_nud_of(next_of(*old(ctx)).kind) == Some(ExprNud::Loop),
    ensures
        parsed(*old(ctx), *final(ctx), r),
        r matches Some(e) ==> (e matches Expr::Loop(l) && l.loop_tok == Located(
            Keyword::Loop,
            next_of(*old(ctx)).loc,
        )),
        r is Some,
    decreases old(ctx).lex().remaining(), 0nat,
{
    let loop_tok = ctx.expect_keyword(Keyword::Loop);
    let ghost c1 = *ctx;
    let body = parse_block_expr(p, ctx);
    proof {
        lemma_advanced_trans(*old(ctx), c1, *ctx);
    }
    Some(Expr::Loop(LoopExpr { loop_tok, body }))
}

/// Parses a block: `{`, statements, an optional final expression without a semicolon,
/// and `}`.
fn parse_block_expr(p: &PrattParser<ExprNud, ExprLed, ExprBindingPower>, ctx: &mut ParseContext) -> (r:
    BlockExpr)
    requires
        old(ctx).wf(),
        is_expr_parser(*p),
    ensures
        advanced(*old(ctx), *final(ctx)),
        peek_is(*old(ctx), TokenKindView::Delimiter(Delimiter::BraceOpen)) ==> final(ctx).lex().remaining() < old(ctx).lex().remaining() && r.brace_open_tok == Located(
            Delimiter::BraceOpen,
            next_of(*old(ctx)).loc,
        ),
        peek_is(*old(ctx), TokenKindView::Delimiter(Delimiter::BraceOpen)) && old(ctx).lex().upcoming(
            1,
        ).kind == TokenKindView::Delimiter(Delimiter::BraceClose) ==> r.stmts@.len() == 0
            && r.eval_expr is None && r.brace_close_tok == Located(
            Delimiter::BraceClose,
            old(ctx).lex().upcoming(1).loc,
        ) && final(ctx).errors() == old(ctx).errors(),
        peek_is(*old(ctx), TokenKindView::Delimiter(Delimiter::BraceOpen)) ==> exists|
            cs: Seq<ParseContext>,
            ms: Seq<ParseContext>,
            ss: Seq<Option<Stmt>>,
        |
            #[trigger] block_trace(cs, ms, ss) && took_one(*old(ctx), cs[0]) && cs[0].errors()
                == old(ctx).errors() && r.stmts@ == parsed_stmts(ss) && block_end(
                cs.last(),
                *final(ctx),
                r,
            ),
    decreases old(ctx).lex().remaining(),
        (if peek_is(*old(ctx), TokenKindView::Delimiter(Delimiter::BraceOpen)) {
            1nat
        } else {
            8nat
        }),
{
    let brace_open_tok = ctx.expect_delimiter(Delimiter::BraceOpen);
    let ghost c1 = *ctx;
    let r = parse_block_rest(p, ctx, brace_open_tok);
    proof {
        lemma_advanced_trans(*old(ctx), c1, *ctx);
    }
    r
}

/// Skips what is left of a statement that failed to parse: up to the next `;` (which is
/// taken), `}` or the end of the file.
fn skip_to_stmt_end(ctx: &mut ParseContext)
    requires
        old(ctx).wf(),
    ensures
        advanced(*old(ctx), *final(ctx)),
        final(ctx).errors() == old(ctx).errors(),
        final(ctx).lex().remaining() == old(ctx).lex().remaining() ==> at_block_end(*final(ctx)),
{
    proof {
        lemma_advanced_refl(*ctx);
    }
    loop
        invariant
            ctx.wf(),
            advanced(*old(ctx), *ctx),
            ctx.errors() == old(ctx).errors(),
            ctx.lex().remaining() == old(ctx).lex().remaining() ==> untouched(*old(ctx), *ctx),
        ensures
            at_stmt_end(*ctx),
        decreases ctx.lex().remaining(),
    {
        let ghost cs = *ctx;
        let stop = match ctx.peek_kind() {
            TokenKind::EndOfFile => true,
            TokenKind::Delimiter(d) => match d {
                Delimiter::Semicolon => true,
                Delimiter::BraceClose => true,
                _ => false,
            },
            _ => false,
        };
        proof {
            lemma_advanced_trans(*old(ctx), cs, *ctx);
        }
        if stop {
            break ;
        }
        let ghost c1 = *ctx;
        ctx.next_token();
        proof {
            lemma_advanced_trans(*old(ctx), c1, *ctx);
        }
    }
    let ghost c2 = *ctx;
    let semi = match ctx.peek_kind() {
        TokenKind::Delimiter(d) => *d == Delimiter::Semicolon,
        _ => false,
    };
    proof {
        lemma_advanced_trans(*old(ctx), c2, *ctx);
    }
    if semi {
        let ghost c3 = *ctx;
        ctx.next_token();
        proof {
            lemma_advanced_trans(*old(ctx), c3, *ctx);
        }
    }
}

/// One statement of a block: from `a`, where neither `}` nor the end of the file is next,
/// a statement parses to `m` with result `s` (a let statement where `let` is next, else an
/// expression statement ended by `;`); a statement that fails is skipped (see
/// `skip_to_stmt_end`) from `m` to `b`, and after one that parses `b` is `m`.
pub open spec fn block_step(a: ParseContext, m: ParseContext, b: ParseContext, s: Option<Stmt>) -> bool {
    &&& !at_block_end(a)
    &&& parsed(a, m, s)
    &&& (peek_is(a, TokenKindView::Keyword(Keyword::Let)) ==> (s is None || s matches Some(
        Stmt::Let(_),
    )))
    &&& (!peek_is(a, TokenKindView::Keyword(Keyword::Let)) ==> (s is None || (s matches Some(
        Stmt::Expr(es),
    ) && es.semi_tok is Some)))
    &&& match s {
        None => advanced(m, b) && b.errors() == m.errors() && (b.lex().remaining()
            == m.lex().remaining() ==> at_block_end(b)),
        Some(_) => b == m,
    }
}

/// The statements among the results `ss` that parsed, in order.
pub open spec fn parsed_stmts(ss: Seq<Option<Stmt>>) -> Seq<Stmt>
    decreases ss.len(),
{
    if ss.len() == 0 {
        Seq::empty()
    } else {
        match ss.last() {
            Some(x) => parsed_stmts(ss.drop_last()).push(x),
            None => parsed_stmts(ss.drop_last()),
        }
    }
}

/// The contexts `cs` (one more than the statements) and `ms` the statements of a block,
/// with results `ss`, went through, statement by statement.
pub open spec fn block_trace(cs: Seq<ParseContext>, ms: Seq<ParseContext>, ss: Seq<Option<Stmt>>) -> bool {
    &&& cs.len() == ss.len() + 1
    &&& ms.len() == ss.len()
    &&& forall|i: int| 0 <= i < ss.len() ==> #[trigger] block_step(cs[i], ms[i], cs[i + 1], ss[i])
}

/// How a block ends from `a` (after its statements) at `f`: at `}`, which is taken; at the
/// end of the file, where the missing `}` is reported; or with an expression statement
/// without `;`, which becomes the block's value, followed by `}` (reported when
/// missing).
pub open spec fn block_end(a: ParseContext, f: ParseContext, r: BlockExpr) -> bool {
    if peek_is(a, TokenKindView::Delimiter(Delimiter::BraceClose)) {
        &&& r.eval_expr is None
        &&& r.brace_close_tok == Located(Delimiter::BraceClose, next_of(a).loc)
        &&& took_one(a, f)
        &&& f.errors() == a.errors()
    } else if next_of(a).kind is EndOfFile {
        &&& r.eval_expr is None
        &&& advanced(a, f)
        &&& f.errors().len() == a.errors().len() + 1
    } else {
        exists|m: ParseContext, e: Expr|
            #[trigger] parsed(a, m, Some(e)) && r.eval_expr == Some(Box::new(e)) && !peek_is(
                a,
                TokenKindView::Keyword(Keyword::Let),
            ) && advanced(m, f) && (peek_is(m, TokenKindView::Delimiter(Delimiter::BraceClose))
                ==> took_one(m, f) && f.errors() == m.errors())
    }
}

/// Parses the statements of a block after its `{`, and its `}`. A statement that fails
/// is skipped (see `skip_to_stmt_end`); an expression statement without `;` ends the
/// block as its value.
fn parse_block_rest(
    p: &PrattParser<ExprNud, ExprLed, ExprBindingPower>,
    ctx: &mut ParseContext,
    brace_open_tok: Located<Delimiter>,
) -> (r: BlockExpr)
    requires
        old(ctx).wf(),
        is_expr_parser(*p),
    ensures
        advanced(*old(ctx), *final(ctx)),
        r.brace_open_tok == brace_open_tok,
        peek_is(*old(ctx), TokenKindView::Delimiter(Delimiter::BraceClose)) ==> r.stmts@.len() == 0
            && r.eval_expr is None && r.brace_close_tok == Located(
            Delimiter::BraceClose,
            next_of(*old(ctx)).loc,
        ) && took_one(*old(ctx), *final(ctx)) && final(ctx).errors() == old(ctx).errors(),
        exists|cs: Seq<ParseContext>, ms: Seq<ParseContext>, ss: Seq<Option<Stmt>>|
            #[trigger] block_trace(cs, ms, ss) && cs[0] == *old(ctx) && r.stmts@ == parsed_stmts(ss)
                && block_end(cs.last(), *final(ctx), r),
    decreases old(ctx).lex().remaining(), 7nat,
{
    let mut stmts: Vec<Stmt> = Vec::new();
    let mut eval_expr: Option<Box<Expr>> = None;
    let mut brace_close_tok = Located::new_temporary(Delimiter::BraceClose);
    let ghost mut tcs: Seq<ParseContext> = seq![*ctx];
    let ghost mut tms: Seq<ParseContext> = Seq::empty();
    let ghost mut tss: Seq<Option<Stmt>> = Seq::empty();
    let ghost mut last: ParseContext = *ctx;
    proof {
        lemma_advanced_refl(*ctx);
    }
    loop
        invariant_except_break
            peek_is(*old(ctx), TokenKindView::Delimiter(Delimiter::BraceClose)) ==> *ctx == *old(
                ctx,
            ) && stmts@.len() == 0 && eval_expr is None,
            tcs.last() == *ctx,
            eval_expr is None,
        invariant
            ctx.wf(),
            is_expr_parser(*p),
            advanced(*old(ctx), *ctx),
            block_trace(tcs, tms, tss),
            tcs[0] == *old(ctx),
            stmts@ == parsed_stmts(tss),
        ensures
            peek_is(*old(ctx), TokenKindView::Delimiter(Delimiter::BraceClose)) ==> stmts@.len()
                == 0 && eval_expr is None && brace_close_tok == Located(
                Delimiter::BraceClose,
                next_of(*old(ctx)).loc,
            ) && took_one(*old(ctx), *ctx) && ctx.errors() == old(ctx).errors(),
            block_end(tcs.last(), *ctx, BlockExpr { brace_open_tok, stmts, eval_expr, brace_close_tok }),
        decreases ctx.lex().remaining(), (if at_block_end(*ctx) {
            0nat
        } else {
            1nat
        }),
    {
        let ghost cs = *ctx;
        match ctx.match_delimiter(Delimiter::BraceClose) {
            Ok(b) => {
                proof {
                    lemma_advanced_trans(*old(ctx), cs, *ctx);
                }
                brace_close_tok = b;
                proof {
                    assert(block_end(tcs.last(), *ctx, BlockExpr { brace_open_tok, stmts, eval_expr, brace_close_tok }));
                }
                break ;
            },
            Err(_) => {},
        }
        let ghost c1 = *ctx;
        let eof = ctx.peek_kind().is_end_of_file();
        proof {
            lemma_advanced_trans(*old(ctx), cs, c1);
            lemma_advanced_trans(*old(ctx), c1, *ctx);
        }
        if eof {
            let ghost c2 = *ctx;
            ctx.next_token();
            let ghost c3 = *ctx;
            brace_close_tok = ctx.expect_delimiter(Delimiter::BraceClose);
            proof {
                lemma_advanced_trans(*old(ctx), c2, c3);
                lemma_advanced_trans(*old(ctx), c3, *ctx);
                lemma_advanced_trans(cs, c1, c2);
                lemma_advanced_trans(cs, c2, c3);
                lemma_advanced_trans(cs, c3, *ctx);
                c2.lex().lemma_eof_repeats(0);
                assert(c3.lex().upcoming(0) == c2.lex().upcoming(0 + 1));
                assert(block_end(tcs.last(), *ctx, BlockExpr { brace_open_tok, stmts, eval_expr, brace_close_tok }));
            }
            break ;
        }
        let ghost c4 = *ctx;
        let stmt = parse_stmt_in(p, ctx);
        let ghost gst = stmt;
        let ghost m4 = *ctx;
        proof {
            lemma_advanced_trans(*old(ctx), c4, *ctx);
            lemma_advanced_trans(cs, c4, m4);
            assert(parsed(cs, m4, gst));
            assert(!at_block_end(cs));
        }
        match stmt {
            Some(Stmt::Expr(ExprStmt { expr, semi_tok: None })) => {
                let ghost ge = expr;
                eval_expr = Some(Box::new(expr));
                let ghost c5 = *ctx;
                brace_close_tok = ctx.expect_delimiter(Delimiter::BraceClose);
                proof {
                    lemma_advanced_trans(*old(ctx), c5, *ctx);
                    assert(parsed(cs, m4, Some(ge)));
                    assert(block_end(tcs.last(), *ctx, BlockExpr { brace_open_tok, stmts, eval_expr, brace_close_tok }));
                }
                break ;
            },
            Some(s) => {
                stmts.push(s);
                proof {
                    let tcs2 = tcs.push(*ctx);
                    let tms2 = tms.push(m4);
                    let tss2 = tss.push(gst);
                    assert(block_step(cs, m4, *ctx, gst));
                    assert forall|i: int| 0 <= i < tss2.len() implies #[trigger] block_step(tcs2[i], tms2[i], tcs2[i + 1], tss2[i]) by {
                        if i < tss.len() {
                            assert(tcs2[i] == tcs[i] && tcs2[i + 1] == tcs[i + 1] && tms2[i] == tms[i] && tss2[i] == tss[i]);
                        }
                    }
                    assert(tss2.drop_last() =~= tss);
                    tcs = tcs2;
                    tms = tms2;
                    tss = tss2;
                }
            },
            None => {
                let ghost c6 = *ctx;
                skip_to_stmt_end(ctx);
                proof {
                    lemma_advanced_trans(*old(ctx), c6, *ctx);
                    let tcs2 = tcs.push(*ctx);
                    let tms2 = tms.push(m4);
                    let tss2 = tss.push(gst);
                    assert(block_step(cs, m4, *ctx, gst));
                    assert forall|i: int| 0 <= i < tss2.len() implies #[trigger] block_step(tcs2[i], tms2[i], tcs2[i + 1], tss2[i]) by {
                        if i < tss.len() {
                            assert(tcs2[i] == tcs[i] && tcs2[i + 1] == tcs[i + 1] && tms2[i] == tms[i] && tss2[i] == tss[i]);
                        }
                    }
                    assert(tss2.drop_last() =~= tss);
                    tcs = tcs2;
                    tms = tms2;
                    tss = tss2;
                }
            },
        }
    }
    BlockExpr { brace_open_tok, stmts, eval_expr, brace_close_tok }
}

/// What starts a statement other than an expression statement.
#[derive(Debug, Clone, Copy, PartialEq, Eq, Structural)]
pub enum StmtNud {
    Let,
}

pub struct StmtHandlers;

pub open spec fn stmt_nud_of(k: TokenKindView) -> Option<StmtNud> {
    if k == TokenKindView::Keyword(Keyword::Let) {
        Some(StmtNud::Let)
    } else {
        None
    }
}

/// The statement registrations, in order.
pub open spec fn stmt_nud_table() -> Seq<(TokenKindView, StmtNud)> {
    seq![(TokenKindView::Keyword(Keyword::Let), StmtNud::Let)]
}

/// The statement registrations: `let` starts a let statement.
pub fn stmt_nuds() -> (r: Vec<(TokenKind, StmtNud)>)
    ensures
        table_view(r@) == stmt_nud_table(),
        forall|k: TokenKindView| #[trigger] find(table_view(r@), k) == stmt_nud_of(k),
{
    let mut v: Vec<(TokenKind, StmtNud)> = Vec::new();
    v.push((TokenKind::Keyword(Keyword::Let), StmtNud::Let));
    assert forall|k: TokenKindView| #[trigger] find(table_view(v@), k) == stmt_nud_of(k) by {
        lemma_find_push(Seq::empty(), (TokenKindView::Keyword(Keyword::Let), StmtNud::Let), k);
        assert(table_view(v@) =~= Seq::empty().push(
            (TokenKindView::Keyword(Keyword::Let), StmtNud::Let),
        ));
    }
    assert(table_view(v@) =~= stmt_nud_table());
    v
}

impl crate::parsing::lookup_parser::Handlers<StmtNud> for StmtHandlers {
    open spec fn table(&self) -> Seq<(TokenKindView, StmtNud)> {
        stmt_nud_table()
    }

    fn handlers(&self) -> (r: Vec<(TokenKind, StmtNud)>) {
        stmt_nuds()
    }
}

fn parse_stmt_in(p: &PrattParser<ExprNud, ExprLed, ExprBindingPower>, ctx: &mut ParseContext) -> (r:
    Option<Stmt>)
    requires
        old(ctx).wf(),
        is_expr_parser(*p),
    ensures
        parsed(*old(ctx), *final(ctx), r),
        peek_is(*old(ctx), TokenKindView::Keyword(Keyword::Let)) ==> (r is None || r matches Some(
            Stmt::Let(_),
        )),
        !peek_is(*old(ctx), TokenKindView::Keyword(Keyword::Let)) ==> (r is None || r matches Some(
            Stmt::Expr(_),
        )),
    decreases old(ctx).lex().remaining(), 6nat,
{
    let lookup = LookUpParser::from_table(stmt_nuds());
    let ghost c1 = *ctx;
    let h = lookup.parse(ctx);
    let ghost c2 = *ctx;
    let r = match h {
        Ok(StmtNud::Let) => match handler_result(parse_let_in(p, ctx)) {
            Ok(l) => Some(Stmt::Let(l)),
            Err(_) => None,
        },
        Err(_) => parse_expr_stmt_in(p, ctx),
    };
    proof {
        lemma_advanced_trans(*old(ctx), c2, *ctx);
    }
    r
}

fn parse_expr_stmt_in(
    p: &PrattParser<ExprNud, ExprLed, ExprBindingPower>,
    ctx: &mut ParseContext,
) -> (r: Option<Stmt>)
    requires
        old(ctx).wf(),
        is_expr_parser(*p),
    ensures
        parsed(*old(ctx), *final(ctx), r),
        r is None || r matches Some(Stmt::Expr(_)),
    decreases old(ctx).lex().remaining(), 5nat,
{
    let expr = parse_expr_in(p, ctx);
    match expr {
        Some(e) => {
            let ghost c1 = *ctx;
            let semi = ctx.match_delimiter(Delimiter::Semicolon);
            proof {
                lemma_advanced_trans(*old(ctx), c1, *ctx);
            }
            let semi_tok = match semi {
                Ok(s) => Some(s),
                Err(_) => None,
            };
            Some(Stmt::Expr(ExprStmt { expr: e, semi_tok }))
        },
        None => None,
    }
}

fn parse_let_in(p: &PrattParser<ExprNud, ExprLed, ExprBindingPower>, ctx: &mut ParseContext) -> (r:
    Option<LetStmt>)
    requires
        old(ctx).wf(),
        is_expr_parser(*p),
        peek_is(*old(ctx), TokenKindView::Keyword(Keyword::Let)),
    ensures
        parsed(*old(ctx), *final(ctx), r),
        r matches Some(l) ==> l.let_tok == Located(Keyword::Let, next_of(*old(ctx)).loc)
            && old(ctx).lex().upcoming(1).kind == TokenKindView::Identifier(l.name.0@) && l.name.1
            == old(ctx).lex().upcoming(1).loc,
        !(old(ctx).lex().upcoming(1).kind is Identifier) ==> r is None,
    decreases old(ctx).lex().remaining(), 0nat,
{
    let let_tok = ctx.expect_keyword(Keyword::Let);
    let ghost c1 = *ctx;
    let name = ctx.expect_identifier("let declaration's name".to_owned());
    proof {
        lemma_advanced_trans(*old(ctx), c1, *ctx);
    }
    let name = match name {
        Some(n) => n,
        None => {
            return None;
        },
    };
    let ghost c2 = *ctx;
    let ty = Type::try_parse(ctx);
    let ghost c3 = *ctx;
    let assign_tok = ctx.expect_operator(Operator::Assign);
    let ghost c4 = *ctx;
    let value = parse_expr_in(p, ctx);
    proof {
        lemma_advanced_trans(*old(ctx), c2, c3);
        lemma_advanced_trans(*old(ctx), c3, c4);
        lemma_advanced_trans(*old(ctx), c4, *ctx);
    }
    let value = match value {
        Some(v) => v,
        None => {
            return None;
        },
    };
    let ghost c5 = *ctx;
    let semi_tok = ctx.expect_delimiter(Delimiter::Semicolon);
    proof {
        lemma_advanced_trans(*old(ctx), c5, *ctx);
    }
    Some(LetStmt { let_tok, name, ty, assign_tok, value, semi_tok })
}

impl Expr {
    /// Parses an expression, recording an error when the next token cannot start one.
    pub fn parse(ctx: &mut ParseContext) -> (r: Option<Expr>)
        requires
            old(ctx).wf(),
        ensures
            parsed(*old(ctx), *final(ctx), r),
            r is Some ==> expr_bp_rank(next_of(*final(ctx)).kind) == 0,
            r matches Some(e) ==> binds_above(e, 0),
            r matches Some(e) ==> (op_tokens(e) matches Some(ts) ==> took_tokens(
                *old(ctx),
                *final(ctx),
                ts,
            )),
            expr_nud_of(next_of(*old(ctx)).kind) is None ==> r is None && untouched(
                *old(ctx),
                *final(ctx),
            ) && final(ctx).errors().len() == old(ctx).errors().len() + 1
                && unexpected_expr_token(final(ctx).errors().last(), next_of(*old(ctx))),
    {
        let p = expr_parser();
        parse_expr_in(&p, ctx)
    }
}

impl Punctuated<Expr> {
    /// Parses expressions separated by `sep` up to (not including) the delimiter `delim`.
    pub fn parse(ctx: &mut ParseContext, sep: Delimiter, delim: Delimiter) -> (r: Option<
        Punctuated<Expr>,
    >)
        requires
            old(ctx).wf(),
        ensures
            advanced(*old(ctx), *final(ctx)),
            r is None ==> final(ctx).errors().len() > old(ctx).errors().len(),
            r matches Some(v) ==> v.sep == sep && peek_is(
                *final(ctx),
                TokenKindView::Delimiter(delim),
            ),
            peek_is(*old(ctx), TokenKindView::Delimiter(delim)) ==> (r matches Some(v)
                && v.items@.len() == 0),
            r matches Some(v) ==> exists|cs: Seq<ParseContext>, ms: Seq<ParseContext>|
                #[trigger] arg_trace(cs, ms, v.items@, sep, delim) && cs[0] == *old(ctx)
                    && untouched(cs.last(), *final(ctx)) && final(ctx).errors() == cs.last().errors(),
            r is None ==> exists|cs: Seq<ParseContext>, ms: Seq<ParseContext>, es: Seq<Expr>|
                #[trigger] arg_trace(cs, ms, es, sep, delim) && cs[0] == *old(ctx) && !peek_is(
                    cs.last(),
                    TokenKindView::Delimiter(delim),
                ) && parsed(cs.last(), *final(ctx), None::<Expr>),
    {
        let p = expr_parser();
        parse_args_in(&p, ctx, sep, delim)
    }
}

impl Stmt {
    /// Parses a statement: a let statement when the next token is `let`, an expression
    /// statement (with an optional `;`) otherwise.
    pub fn parse(ctx: &mut ParseContext) -> (r: Option<Stmt>)
        requires
            old(ctx).wf(),
        ensures
            parsed(*old(ctx), *final(ctx), r),
            peek_is(*old(ctx), TokenKindView::Keyword(Keyword::Let)) ==> (r is None
                || r matches Some(Stmt::Let(_))),
            !peek_is(*old(ctx), TokenKindView::Keyword(Keyword::Let)) ==> (r is None
                || r matches Some(Stmt::Expr(_))),
    {
        let p = expr_parser();
        parse_stmt_in(&p, ctx)
    }
}

impl LetStmt {
    /// Parses `let name [type] = value;`.
    pub fn parse(ctx: &mut ParseContext) -> (r: Option<LetStmt>)
        requires
            old(ctx).wf(),
            peek_is(*old(ctx), TokenKindView::Keyword(Keyword::Let)),
        ensures
            parsed(*old(ctx), *final(ctx), r),
            r matches Some(l) ==> l.let_tok == Located(Keyword::Let, next_of(*old(ctx)).loc)
                && old(ctx).lex().upcoming(1).kind == TokenKindView::Identifier(l.name.0@)
                && l.name.1 == old(ctx).lex().upcoming(1).loc,
            !(old(ctx).lex().upcoming(1).kind is Identifier) ==> r is None,
    {
        let p = expr_parser();
        parse_let_in(&p, ctx)
    }
}

impl BlockExpr {
    /// Parses a block.
    pub fn parse(ctx: &mut ParseContext) -> (r: BlockExpr)
        requires
            old(ctx).wf(),
        ensures
            advanced(*old(ctx), *final(ctx)),
            peek_is(*old(ctx), TokenKindView::Delimiter(Delimiter::BraceOpen)) ==> final(ctx).lex().remaining() < old(ctx).lex().remaining() && r.brace_open_tok == Located(
                Delimiter::BraceOpen,
                next_of(*old(ctx)).loc,
            ),
            peek_is(*old(ctx), TokenKindView::Delimiter(Delimiter::BraceOpen)) && old(ctx).lex().upcoming(
                1,
            ).kind == TokenKindView::Delimiter(Delimiter::BraceClose) ==> r.stmts@.len() == 0
                && r.eval_expr is None && r.brace_close_tok == Located(
                Delimiter::BraceClose,
                old(ctx).lex().upcoming(1).loc,
            ) && final(ctx).errors() == old(ctx).errors(),
            peek_is(*old(ctx), TokenKindView::Delimiter(Delimiter::BraceOpen)) ==> exists|
                cs: Seq<ParseContext>,
                ms: Seq<ParseContext>,
                ss: Seq<Option<Stmt>>,
            |
                #[trigger] block_trace(cs, ms, ss) && took_one(*old(ctx), cs[0]) && cs[0].errors()
                    == old(ctx).errors() && r.stmts@ == parsed_stmts(ss) && block_end(
                    cs.last(),
                    *final(ctx),
                    r,
                ),
    {
        let p = expr_parser();
        parse_block_expr(&p, ctx)
    }
}
impl Parse for Expr {
    fn parse(ctx: &mut ParseContext) -> (r: Option<Expr>) {
        Expr::parse(ctx)
    }
}

impl Parse for Stmt {
    fn parse(ctx: &mut ParseContext) -> (r: Option<Stmt>) {
        Stmt::parse(ctx)
    }
}

} // verus!
