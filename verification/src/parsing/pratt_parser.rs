//! Tables for Pratt parsing: which handler starts an expression at a token (a "nud"),
//! which handler continues one (a "led"), and how strongly an infix token binds.
use vstd::prelude::*;

use crate::token::{Token, TokenKind, TokenKindView, same_class};

verus! {

/// A registration table: the last entry registered for a token class wins, as with
/// inserting into a map keyed by token class.
pub open spec fn find<V>(t: Seq<(TokenKindView, V)>, k: TokenKindView) -> Option<V>
    decreases t.len(),
{
    if t.len() == 0 {
        None
    } else if same_class(t.last().0, k) {
        Some(t.last().1)
    } else {
        find(t.drop_last(), k)
    }
}

pub open spec fn table_view<V>(t: Seq<(TokenKind, V)>) -> Seq<(TokenKindView, V)> {
    t.map_values(|e: (TokenKind, V)| (e.0@, e.1))
}

/// The led handlers of infix registrations.
pub open spec fn led_part<BP, L>(leds: Seq<(TokenKind, BP, L)>) -> Seq<(TokenKind, L)> {
    leds.map_values(|e: (TokenKind, BP, L)| (e.0, e.2))
}

/// The binding powers of infix registrations.
pub open spec fn bp_part<BP, L>(leds: Seq<(TokenKind, BP, L)>) -> Seq<(TokenKind, BP)> {
    leds.map_values(|e: (TokenKind, BP, L)| (e.0, e.1))
}

/// Registering one more entry: it wins for its own class, the rest is looked up as before.
pub proof fn lemma_find_push<V>(t: Seq<(TokenKindView, V)>, e: (TokenKindView, V), k: TokenKindView)
    ensures
        find(t.push(e), k) == (if same_class(e.0, k) {
            Some(e.1)
        } else {
            find(t, k)
        }),
{
    assert(t.push(e).drop_last() =~= t);
}

/// Looks a token class up in a registration table.
pub fn table_get<V: Copy>(t: &Vec<(TokenKind, V)>, k: &TokenKind) -> (r: Option<V>)
    ensures
        r == find(table_view(t@), k@),
{
    let mut i = t.len();
    assert(table_view(t@).subrange(0, t@.len() as int) =~= table_view(t@));
    while i > 0
        invariant
            i <= t@.len(),
            find(table_view(t@), k@) == find(table_view(t@).subrange(0, i as int), k@),
        decreases i,
    {
        let ghost sub = table_view(t@).subrange(0, i as int);
        assert(sub.last() == (t@[i - 1].0@, t@[i - 1].1));
        assert(sub.drop_last() =~= table_view(t@).subrange(0, i - 1));
        if t[i - 1].0.same_class_as(k) {
            return Some(t[i - 1].1);
        }
        i = i - 1;
    }
    None
}

/// Binding strength of infix tokens, ordered by `rank`.
pub trait BindingPower: Sized + Copy {
    fn primary() -> Self;

    fn zero() -> Self;
}

/// The nud and led handlers of a grammar, in the order they are registered.
pub trait Handlers<N, L, BP> {
    /// The prefix registrations: a token class and its nud handler, in order.
    spec fn nud_table(&self) -> Seq<(TokenKindView, N)>;

    /// The infix registrations' led handlers, in order.
    spec fn led_table(&self) -> Seq<(TokenKindView, L)>;

    /// The infix registrations' binding powers, in order.
    spec fn bp_table(&self) -> Seq<(TokenKindView, BP)>;

    fn nuds(&self) -> (r: Vec<(TokenKind, N)>)
        ensures
            table_view(r@) == self.nud_table(),
    ;

    fn leds(&self) -> (r: Vec<(TokenKind, BP, L)>)
        ensures
            table_view(led_part(r@)) == self.led_table(),
            table_view(bp_part(r@)) == self.bp_table(),
    ;
}

pub struct PrattParser<N, L, BP> {
    nud_lookup: Vec<(TokenKind, N)>,
    led_lookup: Vec<(TokenKind, L)>,
    bp_lookup: Vec<(TokenKind, BP)>,
}

#[derive(Debug, Clone)]
pub enum PrattParseError {
    NoNudHandlerFound(Token),
    NoLedHandlerFound(Token),
    ParseError,
}

impl<N: Copy, L: Copy, BP: Copy> PrattParser<N, L, BP> {
    /// The nud handler registered for the class of `k`.
    pub closed spec fn nud_of(&self, k: TokenKindView) -> Option<N> {
        find(table_view(self.nud_lookup@), k)
    }

    /// The led handler registered for the class of `k`.
    pub closed spec fn led_of(&self, k: TokenKindView) -> Option<L> {
        find(table_view(self.led_lookup@), k)
    }

    /// The binding power registered for the class of `k`.
    pub closed spec fn bp_of(&self, k: TokenKindView) -> Option<BP> {
        find(table_view(self.bp_lookup@), k)
    }

    /// A parser whose tables hold the given registrations, in order.
    pub fn from_tables(nuds: Vec<(TokenKind, N)>, leds: Vec<(TokenKind, BP, L)>) -> (r: Self)
        ensures
            forall|k: TokenKindView| #[trigger] r.nud_of(k) == find(table_view(nuds@), k),
            forall|k: TokenKindView| #[trigger] r.led_of(k) == find(table_view(led_part(leds@)), k),
            forall|k: TokenKindView| #[trigger] r.bp_of(k) == find(table_view(bp_part(leds@)), k),
    {
        let mut led_lookup: Vec<(TokenKind, L)> = Vec::new();
        let mut bp_lookup: Vec<(TokenKind, BP)> = Vec::new();
        let mut i: usize = 0;
        while i < leds.len()
            invariant
                i <= leds@.len(),
                led_lookup@.len() == i,
                bp_lookup@.len() == i,
                forall|j: int|
                    0 <= j < i ==> (#[trigger] led_lookup@[j]).0@ == leds@[j].0@
                        && led_lookup@[j].1 == leds@[j].2,
                forall|j: int|
                    0 <= j < i ==> (#[trigger] bp_lookup@[j]).0@ == leds@[j].0@
                        && bp_lookup@[j].1 == leds@[j].1,
            decreases leds.len() - i,
        {
            let e = &leds[i];
            led_lookup.push((e.0.duplicate(), e.2));
            bp_lookup.push((e.0.duplicate(), e.1));
            i = i + 1;
        }
        assert(table_view(led_lookup@) =~= table_view(led_part(leds@)));
        assert(table_view(bp_lookup@) =~= table_view(bp_part(leds@)));
        PrattParser { nud_lookup: nuds, led_lookup, bp_lookup }
    }

    /// A parser built from a grammar's handlers.
    pub fn new<H: Handlers<N, L, BP>>(handlers: &H) -> (r: Self)
        ensures
            forall|k: TokenKindView| #[trigger] r.nud_of(k) == find(handlers.nud_table(), k),
            forall|k: TokenKindView| #[trigger] r.led_of(k) == find(handlers.led_table(), k),
            forall|k: TokenKindView| #[trigger] r.bp_of(k) == find(handlers.bp_table(), k),
    {
        PrattParser::from_tables(handlers.nuds(), handlers.leds())
    }

    pub fn get_nud(&self, k: &TokenKind) -> (r: Option<N>)
        ensures
            r == self.nud_of(k@),
    {
        table_get(&self.nud_lookup, k)
    }

    pub fn get_led(&self, k: &TokenKind) -> (r: Option<L>)
        ensures
            r == self.led_of(k@),
    {
        table_get(&self.led_lookup, k)
    }

    pub fn get_bp(&self, k: &TokenKind) -> (r: Option<BP>)
        ensures
            r == self.bp_of(k@),
    {
        table_get(&self.bp_lookup, k)
    }
}

} // verus!
