//! The lexical grammar, stated over the source's characters: where trivia ends,
//! which token starts at a position, and the stream of tokens a source yields.
use vstd::prelude::*;

use crate::location::{Location, LocationRange, loc_le, loc_lt, point_range, spec_front};
use crate::token::{
    Delimiter, Keyword, Literal, LiteralKeyword, Operator, OperatorChar, TokenKindView, TokenView,
    TypeKeyword,
};

verus! {

/// The character classes the lexer scans by.
#[derive(Debug, Clone, Copy, PartialEq, Eq, Structural)]
pub enum CharClass {
    Whitespace,
    Digit,
    IdentStart,
    IdentChar,
    OpChar,
    NotNewline,
}

pub open spec fn is_digit(c: char) -> bool {
    '0' <= c && c <= '9'
}

pub open spec fn is_alpha(c: char) -> bool {
    ('a' <= c && c <= 'z') || ('A' <= c && c <= 'Z')
}

/// White space among ASCII characters: tab, line feed, vertical tab, form feed,
/// carriage return and space.
pub open spec fn is_space(c: char) -> bool {
    c == ' ' || ('\t' <= c && c <= '\r')
}

pub open spec fn class_holds(cls: CharClass, c: char) -> bool {
    match cls {
        CharClass::Whitespace => is_space(c),
        CharClass::Digit => is_digit(c),
        CharClass::IdentStart => is_alpha(c) || c == '_',
        CharClass::IdentChar => is_alpha(c) || is_digit(c) || c == '_',
        CharClass::OpChar => OperatorChar::spec_from_char(c) is Some,
        CharClass::NotNewline => c != '\n',
    }
}

pub open spec fn is_ascii(s: Seq<char>) -> bool {
    forall|i: int| 0 <= i < s.len() ==> (s[i] as u32) < 128
}

/// The line of the position before character `i`: one more than the number of line
/// feeds before it.
pub open spec fn line_at(s: Seq<char>, i: int) -> nat
    decreases i,
{
    if i <= 0 {
        1
    } else if s[i - 1] == '\n' {
        line_at(s, i - 1) + 1
    } else {
        line_at(s, i - 1)
    }
}

/// The column of the position before character `i`.
pub open spec fn col_at(s: Seq<char>, i: int) -> nat
    decreases i,
{
    if i <= 0 {
        1
    } else if s[i - 1] == '\n' {
        1
    } else {
        col_at(s, i - 1) + 1
    }
}

pub open spec fn loc_at(s: Seq<char>, i: int) -> Location {
    Location { line: line_at(s, i) as u32, col: col_at(s, i) as u32 }
}

/// The end of the run of characters of class `cls` that starts at `i`.
pub open spec fn run_end(s: Seq<char>, i: int, cls: CharClass) -> int
    decreases s.len() - i,
{
    if 0 <= i < s.len() && class_holds(cls, s[i]) {
        run_end(s, i + 1, cls)
    } else {
        i
    }
}

pub open spec fn starts_with(s: Seq<char>, i: int, pat: Seq<char>) -> bool {
    0 <= i && i + pat.len() <= s.len() && s.subrange(i, i + pat.len()) == pat
}

/// The position after the first `*/` at or after `i`, if there is one.
pub open spec fn block_end(s: Seq<char>, i: int) -> Option<int>
    decreases s.len() - i,
{
    if i < 0 || i + 2 > s.len() {
        None
    } else if s[i] == '*' && s[i + 1] == '/' {
        Some(i + 2)
    } else {
        block_end(s, i + 1)
    }
}

/// Where white space, line comments and block comments that start at `i` end;
/// `None` when a block comment is never closed (the lexer would not stop).
pub open spec fn skip_trivia(s: Seq<char>, i: int) -> Option<int>
    decreases s.len() - i,
{
    let a = run_end(s, i, CharClass::Whitespace);
    let b = if starts_with(s, a, seq!['/', '/']) {
        run_end(s, a + 2, CharClass::NotNewline)
    } else {
        a
    };
    let c = if starts_with(s, b, seq!['/', '*']) {
        block_end(s, b + 2)
    } else {
        Some(b)
    };
    match c {
        None => None,
        Some(c) => if c == i {
            Some(i)
        } else if c < i || c > s.len() {
            None
        } else {
            skip_trivia(s, c)
        },
    }
}

/// The value of a run of decimal digits.
pub open spec fn digits_value(d: Seq<char>) -> int
    decreases d.len(),
{
    if d.len() == 0 {
        0
    } else {
        10 * digits_value(d.drop_last()) + (d.last() as int - '0' as int)
    }
}

/// The longest operator that the characters `s[i..k']` spell, for `k'` from `k` down.
pub open spec fn longest_op(s: Seq<char>, i: int, k: int) -> Option<(Operator, int)>
    decreases k - i,
{
    if k <= i {
        None
    } else {
        match Operator::spec_from_text(s.subrange(i, k)) {
            Some(op) => Some((op, k)),
            None => longest_op(s, i, k - 1),
        }
    }
}

/// What a word of identifier characters reads as.
pub open spec fn word_kind(w: Seq<char>) -> TokenKindView {
    match Keyword::spec_from_text(w) {
        Some(k) => TokenKindView::Keyword(k),
        None => match TypeKeyword::spec_from_text(w) {
            Some(k) => TokenKindView::TypeKeyword(k),
            None => match LiteralKeyword::spec_from_text(w) {
                Some(k) => TokenKindView::LiteralKeyword(k),
                None => TokenKindView::Identifier(w),
            },
        },
    }
}

/// One scanned token: its kind, its range and the position after it.
pub struct Scan {
    pub kind: TokenKindView,
    pub loc: LocationRange,
    pub next: int,
}

pub open spec fn span(s: Seq<char>, i: int, e: int) -> LocationRange {
    LocationRange { start: loc_at(s, i), end: spec_front(loc_at(s, e)) }
}

/// The token that starts at `j`, where `j` is past any trivia.
pub open spec fn scan_at(s: Seq<char>, j: int) -> Scan {
    if j >= s.len() {
        Scan { kind: TokenKindView::EndOfFile, loc: point_range(loc_at(s, j)), next: j }
    } else if is_digit(s[j]) {
        let e = run_end(s, j, CharClass::Digit);
        Scan {
            kind: TokenKindView::Literal(Literal::Int(digits_value(s.subrange(j, e)) as i64)),
            loc: span(s, j, e),
            next: e,
        }
    } else if OperatorChar::spec_from_char(s[j]) is Some {
        match longest_op(s, j, run_end(s, j, CharClass::OpChar)) {
            Some((op, k)) => Scan { kind: TokenKindView::Operator(op), loc: span(s, j, k), next: k },
            None => Scan { kind: TokenKindView::Unknown, loc: point_range(loc_at(s, j)), next: j },
        }
    } else if Delimiter::spec_from_char(s[j]) is Some {
        Scan {
            kind: TokenKindView::Delimiter(Delimiter::spec_from_char(s[j]).unwrap()),
            loc: point_range(loc_at(s, j)),
            next: j + 1,
        }
    } else if is_alpha(s[j]) || s[j] == '_' {
        let e = run_end(s, j, CharClass::IdentChar);
        Scan { kind: word_kind(s.subrange(j, e)), loc: span(s, j, e), next: e }
    } else {
        Scan { kind: TokenKindView::Unknown, loc: point_range(loc_at(s, j)), next: j + 1 }
    }
}

/// Whether the numeral (if any) that starts at `j` fits in an `i64`.
pub open spec fn numeral_fits(s: Seq<char>, j: int) -> bool {
    0 <= j < s.len() && is_digit(s[j]) ==> digits_value(
        s.subrange(j, run_end(s, j, CharClass::Digit)),
    ) <= i64::MAX
}

/// One lexer step from position `i`: skip trivia, scan a token, skip trivia again.
/// `None` where the lexer would not return (a block comment never closed) or would
/// stop on an integer literal that does not fit in an `i64`.
pub open spec fn step(s: Seq<char>, i: int) -> Option<(Scan, int)> {
    match skip_trivia(s, i) {
        None => None,
        Some(j) => {
            let sc = scan_at(s, j);
            if !numeral_fits(s, j) {
                None
            } else {
                match skip_trivia(s, sc.next) {
                    None => None,
                    Some(k) => Some((sc, k)),
                }
            }
        },
    }
}

/// Whether lexing from `i` reaches the end of the source: every step is defined and
/// moves forward until the end-of-file token.
pub open spec fn lex_ok(s: Seq<char>, i: int) -> bool
    decreases s.len() - i,
{
    match step(s, i) {
        None => false,
        Some((sc, k)) => if sc.kind is EndOfFile {
            true
        } else if k <= i || k > s.len() {
            false
        } else {
            lex_ok(s, k)
        },
    }
}

/// The number of tokens before the end-of-file token, lexing from `i`.
pub open spec fn count(s: Seq<char>, i: int) -> nat
    decreases s.len() - i,
{
    match step(s, i) {
        None => 0,
        Some((sc, k)) => if sc.kind is EndOfFile || k <= i || k > s.len() {
            0
        } else {
            1 + count(s, k)
        },
    }
}

pub open spec fn scan_view(sc: Scan) -> TokenView {
    TokenView { kind: sc.kind, loc: sc.loc }
}

pub open spec fn unknown_token() -> TokenView {
    TokenView { kind: TokenKindView::Unknown, loc: point_range(Location { line: 0, col: 0 }) }
}

/// The `n`-th token lexed from position `i`.
pub open spec fn nth_token(s: Seq<char>, i: int, n: nat) -> TokenView
    decreases n,
{
    match step(s, i) {
        None => unknown_token(),
        Some((sc, k)) => if n == 0 {
            scan_view(sc)
        } else {
            nth_token(s, k, (n - 1) as nat)
        },
    }
}

/// The position after lexing `n` tokens from `i`.
pub open spec fn pos_after(s: Seq<char>, i: int, n: nat) -> int
    decreases n,
{
    if n == 0 {
        i
    } else {
        match step(s, i) {
            None => i,
            Some((_, k)) => pos_after(s, k, (n - 1) as nat),
        }
    }
}

/// The tokens of the whole source, in order, up to and including the end-of-file token.
pub open spec fn tokens_from(s: Seq<char>, i: int) -> Seq<TokenView>
    decreases s.len() - i,
{
    match step(s, i) {
        None => seq![],
        Some((sc, k)) => if sc.kind is EndOfFile || k <= i || k > s.len() {
            seq![scan_view(sc)]
        } else {
            seq![scan_view(sc)] + tokens_from(s, k)
        },
    }
}

// ----- lemmas -----

pub proof fn lemma_run_end_bounds(s: Seq<char>, i: int, cls: CharClass)
    requires
        0 <= i <= s.len(),
    ensures
        i <= run_end(s, i, cls) <= s.len(),
        forall|m: int| i <= m < run_end(s, i, cls) ==> class_holds(cls, #[trigger] s[m]),
        run_end(s, i, cls) < s.len() ==> !class_holds(cls, s[run_end(s, i, cls)]),
    decreases s.len() - i,
{
    if i < s.len() && class_holds(cls, s[i]) {
        lemma_run_end_bounds(s, i + 1, cls);
    }
}

pub proof fn lemma_block_end_bounds(s: Seq<char>, i: int)
    requires
        0 <= i,
    ensures
        block_end(s, i) matches Some(e) ==> i + 2 <= e <= s.len() && s[e - 2] == '*' && s[e
            - 1] == '/',
    decreases s.len() - i,
{
    if i + 2 <= s.len() && !(s[i] == '*' && s[i + 1] == '/') {
        lemma_block_end_bounds(s, i + 1);
    }
}

pub proof fn lemma_skip_trivia_bounds(s: Seq<char>, i: int)
    requires
        0 <= i <= s.len(),
    ensures
        skip_trivia(s, i) matches Some(j) ==> i <= j <= s.len(),
    decreases s.len() - i,
{
    let a = run_end(s, i, CharClass::Whitespace);
    lemma_run_end_bounds(s, i, CharClass::Whitespace);
    let b = if starts_with(s, a, seq!['/', '/']) {
        run_end(s, a + 2, CharClass::NotNewline)
    } else {
        a
    };
    if starts_with(s, a, seq!['/', '/']) {
        lemma_run_end_bounds(s, a + 2, CharClass::NotNewline);
    }
    if starts_with(s, b, seq!['/', '*']) {
        lemma_block_end_bounds(s, b + 2);
    }
    let c = if starts_with(s, b, seq!['/', '*']) {
        block_end(s, b + 2)
    } else {
        Some(b)
    };
    if let Some(c) = c {
        if c != i && i <= c <= s.len() {
            lemma_skip_trivia_bounds(s, c);
        }
    }
}

/// Skipping trivia again where it already ended changes nothing.
pub proof fn lemma_skip_trivia_idem(s: Seq<char>, i: int)
    requires
        0 <= i <= s.len(),
        skip_trivia(s, i) is Some,
    ensures
        skip_trivia(s, skip_trivia(s, i).unwrap()) == skip_trivia(s, i),
    decreases s.len() - i,
{
    lemma_skip_trivia_bounds(s, i);
    let a = run_end(s, i, CharClass::Whitespace);
    lemma_run_end_bounds(s, i, CharClass::Whitespace);
    let b = if starts_with(s, a, seq!['/', '/']) {
        run_end(s, a + 2, CharClass::NotNewline)
    } else {
        a
    };
    if starts_with(s, a, seq!['/', '/']) {
        lemma_run_end_bounds(s, a + 2, CharClass::NotNewline);
    }
    if starts_with(s, b, seq!['/', '*']) {
        lemma_block_end_bounds(s, b + 2);
    }
    let c = if starts_with(s, b, seq!['/', '*']) {
        block_end(s, b + 2)
    } else {
        Some(b)
    };
    let c = c.unwrap();
    if c != i {
        lemma_skip_trivia_idem(s, c);
    }
}

pub proof fn lemma_scan_next_bounds(s: Seq<char>, j: int)
    requires
        0 <= j <= s.len(),
    ensures
        j <= scan_at(s, j).next <= s.len(),
        scan_at(s, j).next == j ==> (scan_at(s, j).kind is EndOfFile || scan_at(s, j).kind is Unknown),
        scan_at(s, j).kind is EndOfFile <==> j == s.len(),
{
    if j < s.len() {
        if is_digit(s[j]) {
            lemma_run_end_bounds(s, j, CharClass::Digit);
        } else if OperatorChar::spec_from_char(s[j]) is Some {
            let r = run_end(s, j, CharClass::OpChar);
            lemma_run_end_bounds(s, j, CharClass::OpChar);
            lemma_longest_op_bounds(s, j, r);
        } else if Delimiter::spec_from_char(s[j]) is Some {
        } else if is_alpha(s[j]) || s[j] == '_' {
            lemma_run_end_bounds(s, j, CharClass::IdentChar);
            let w = s.subrange(j, run_end(s, j, CharClass::IdentChar));
            assert(word_kind(w) !is EndOfFile);
            assert(word_kind(w) !is Unknown);
        }
    }
}

pub proof fn lemma_longest_op_bounds(s: Seq<char>, i: int, k: int)
    ensures
        longest_op(s, i, k) matches Some((_, e)) ==> i < e <= k,
    decreases k - i,
{
    if k > i {
        if Operator::spec_from_text(s.subrange(i, k)) is None {
            lemma_longest_op_bounds(s, i, k - 1);
        }
    }
}

pub proof fn lemma_step_bounds(s: Seq<char>, i: int)
    requires
        0 <= i <= s.len(),
    ensures
        step(s, i) matches Some((sc, k)) ==> {
            &&& i <= sc.next <= k <= s.len()
            &&& (sc.kind is EndOfFile ==> k == s.len())
        },
{
    lemma_skip_trivia_bounds(s, i);
    if let Some(j) = skip_trivia(s, i) {
        lemma_scan_next_bounds(s, j);
        let sc = scan_at(s, j);
        lemma_skip_trivia_bounds(s, sc.next);
    }
}

/// Lexing succeeds at the end of the source, and the end-of-file token repeats there.
pub proof fn lemma_step_at_end(s: Seq<char>)
    ensures
        step(s, s.len() as int) == Some(
            (
                Scan {
                    kind: TokenKindView::EndOfFile,
                    loc: point_range(loc_at(s, s.len() as int)),
                    next: s.len() as int,
                },
                s.len() as int,
            ),
        ),
        lex_ok(s, s.len() as int),
        count(s, s.len() as int) == 0,
{
    let n = s.len() as int;
    assert(run_end(s, n, CharClass::Whitespace) == n);
    assert(!starts_with(s, n, seq!['/', '/']));
    assert(!starts_with(s, n, seq!['/', '*']));
    assert(skip_trivia(s, n) == Some(n));
}

/// A successful lexer step from a position where lexing succeeds leads to a position
/// where lexing succeeds.
pub proof fn lemma_step_keeps_ok(s: Seq<char>, i: int)
    requires
        0 <= i <= s.len(),
        lex_ok(s, i),
    ensures
        step(s, i) is Some,
        lex_ok(s, step(s, i).unwrap().1),
        count(s, i) == (if step(s, i).unwrap().0.kind is EndOfFile {
            0
        } else {
            1 + count(s, step(s, i).unwrap().1)
        }),
        !(step(s, i).unwrap().0.kind is EndOfFile) ==> i < step(s, i).unwrap().1,
{
    lemma_step_bounds(s, i);
    let (sc, k) = step(s, i).unwrap();
    if sc.kind is EndOfFile {
        lemma_step_at_end(s);
    }
}

pub proof fn lemma_nth_shift(s: Seq<char>, i: int, a: nat, b: nat)
    requires
        0 <= i <= s.len(),
        lex_ok(s, i),
    ensures
        nth_token(s, i, a + b) == nth_token(s, pos_after(s, i, a), b),
        lex_ok(s, pos_after(s, i, a)),
        0 <= pos_after(s, i, a) <= s.len(),
        pos_after(s, i, a + b) == pos_after(s, pos_after(s, i, a), b),
    decreases a,
{
    if a > 0 {
        lemma_step_keeps_ok(s, i);
        lemma_step_bounds(s, i);
        let k = step(s, i).unwrap().1;
        lemma_nth_shift(s, k, (a - 1) as nat, b);
        assert((a + b - 1) as nat == (a - 1) as nat + b);
    }
}

pub proof fn lemma_pos_after_one(s: Seq<char>, i: int)
    requires
        step(s, i) is Some,
    ensures
        pos_after(s, i, 1) == step(s, i).unwrap().1,
        nth_token(s, i, 0) == scan_view(step(s, i).unwrap().0),
{
    assert(pos_after(s, step(s, i).unwrap().1, 0) == step(s, i).unwrap().1);
}

/// Characters with codes below 128 that the classes admit.
pub proof fn lemma_loc_bounds(s: Seq<char>, i: int)
    requires
        0 <= i <= s.len(),
    ensures
        1 <= line_at(s, i) <= i + 1,
        1 <= col_at(s, i) <= i + 1,
    decreases i,
{
    if i > 0 {
        lemma_loc_bounds(s, i - 1);
    }
}

/// Digit runs have non-decreasing values as they grow.
pub proof fn lemma_digits_value_prefix(d: Seq<char>, k: int)
    requires
        0 <= k <= d.len(),
        forall|m: int| 0 <= m < d.len() ==> is_digit(#[trigger] d[m]),
    ensures
        0 <= digits_value(d.subrange(0, k)) <= digits_value(d),
    decreases d.len(),
{
    if d.len() > 0 {
        if k == d.len() {
            assert(d.subrange(0, k) =~= d);
            lemma_digits_value_prefix(d.drop_last(), d.len() - 1);
            assert(d.drop_last().subrange(0, d.len() - 1) =~= d.drop_last());
        } else {
            lemma_digits_value_prefix(d.drop_last(), k);
            assert(d.drop_last().subrange(0, k) =~= d.subrange(0, k));
            lemma_digits_value_prefix(d.drop_last(), d.len() - 1);
            assert(d.drop_last().subrange(0, d.len() - 1) =~= d.drop_last());
        }
    }
}

/// Each character moves the position forward: the next line, or the next column.
proof fn lemma_loc_step(s: Seq<char>, j: int)
    requires
        1 <= j <= s.len(),
        s.len() < 0xFFFF_FFFF,
    ensures
        loc_lt(loc_at(s, j - 1), loc_at(s, j)),
{
    lemma_loc_bounds(s, j);
    lemma_loc_bounds(s, j - 1);
}

/// Positions further into the source have later locations.
pub proof fn lemma_loc_mono(s: Seq<char>, i: int, j: int)
    requires
        0 <= i < j <= s.len(),
        s.len() < 0xFFFF_FFFF,
    ensures
        loc_lt(loc_at(s, i), loc_at(s, j)),
    decreases j - i,
{
    lemma_loc_step(s, j);
    if i < j - 1 {
        lemma_loc_mono(s, i, j - 1);
    }
}

/// Along characters other than line feeds, the position stays on its line and moves one
/// column per character.
proof fn lemma_same_line(s: Seq<char>, j: int, e: int)
    requires
        0 <= j <= e <= s.len(),
        forall|m: int| j <= m < e ==> #[trigger] s[m] != '\n',
    ensures
        line_at(s, e) == line_at(s, j),
        col_at(s, e) == col_at(s, j) + (e - j),
    decreases e - j,
{
    if e > j {
        lemma_same_line(s, j, e - 1);
        assert(s[e - 1] != '\n');
    }
}

/// A token's range does not start after it ends.
pub proof fn lemma_scan_start_le_end(s: Seq<char>, j: int)
    requires
        0 <= j <= s.len(),
        s.len() < 0xFFFF_FFFF,
    ensures
        loc_le(scan_at(s, j).loc.start, scan_at(s, j).loc.end),
{
    if j < s.len() {
        lemma_loc_bounds(s, j);
        if is_digit(s[j]) {
            let e = run_end(s, j, CharClass::Digit);
            lemma_run_end_bounds(s, j, CharClass::Digit);
            assert forall|m: int| j <= m < e implies #[trigger] s[m] != '\n' by {
                assert(class_holds(CharClass::Digit, s[m]));
            }
            lemma_same_line(s, j, e);
            lemma_loc_bounds(s, e);
        } else if OperatorChar::spec_from_char(s[j]) is Some {
            let r = run_end(s, j, CharClass::OpChar);
            lemma_run_end_bounds(s, j, CharClass::OpChar);
            lemma_longest_op_bounds(s, j, r);
            if let Some((_, k)) = longest_op(s, j, r) {
                assert forall|m: int| j <= m < k implies #[trigger] s[m] != '\n' by {
                    assert(class_holds(CharClass::OpChar, s[m]));
                }
                lemma_same_line(s, j, k);
                lemma_loc_bounds(s, k);
            }
        } else if Delimiter::spec_from_char(s[j]) is Some {
        } else if is_alpha(s[j]) || s[j] == '_' {
            let e = run_end(s, j, CharClass::IdentChar);
            lemma_run_end_bounds(s, j, CharClass::IdentChar);
            assert forall|m: int| j <= m < e implies #[trigger] s[m] != '\n' by {
                assert(class_holds(CharClass::IdentChar, s[m]));
            }
            lemma_same_line(s, j, e);
            lemma_loc_bounds(s, e);
        }
    }
}


/// A token starts where it is scanned, and one that takes characters ends before the
/// position after them.
pub proof fn lemma_scan_end_before(s: Seq<char>, j: int)
    requires
        0 <= j < s.len(),
        s.len() < 0xFFFF_FFFF,
        scan_at(s, j).next > j,
    ensures
        scan_at(s, j).loc.start == loc_at(s, j),
        loc_lt(scan_at(s, j).loc.end, loc_at(s, scan_at(s, j).next)),
{
    lemma_scan_next_bounds(s, j);
    let e = scan_at(s, j).next;
    lemma_loc_bounds(s, e);
    if scan_at(s, j).loc.end != spec_front(loc_at(s, e)) {
        assert(e == j + 1);
        lemma_loc_step(s, j + 1);
    }
}


} // verus!

verus! {

/// Every scanned token's range ends at a column no greater than one past the source length.
pub proof fn lemma_scan_loc_bound(s: Seq<char>, j: int)
    requires
        0 <= j <= s.len(),
    ensures
        scan_at(s, j).loc.end.col <= s.len() + 1,
{
    lemma_loc_bounds(s, j);
    if j < s.len() {
        if is_digit(s[j]) {
            lemma_run_end_bounds(s, j, CharClass::Digit);
            lemma_loc_bounds(s, run_end(s, j, CharClass::Digit));
        } else if OperatorChar::spec_from_char(s[j]) is Some {
            let r = run_end(s, j, CharClass::OpChar);
            lemma_run_end_bounds(s, j, CharClass::OpChar);
            lemma_longest_op_bounds(s, j, r);
            if let Some((_, k)) = longest_op(s, j, r) {
                lemma_loc_bounds(s, k);
            }
        } else if Delimiter::spec_from_char(s[j]) is Some {
        } else if is_alpha(s[j]) || s[j] == '_' {
            lemma_run_end_bounds(s, j, CharClass::IdentChar);
            lemma_loc_bounds(s, run_end(s, j, CharClass::IdentChar));
        }
    }
}

/// The first token lexed from `i` ends at a column no greater than one past the source
/// length.
pub proof fn lemma_first_token_loc_bound(s: Seq<char>, i: int)
    requires
        0 <= i <= s.len(),
    ensures
        nth_token(s, i, 0).loc.end.col <= s.len() + 1,
{
    lemma_skip_trivia_bounds(s, i);
    if let Some(j) = skip_trivia(s, i) {
        lemma_scan_loc_bound(s, j);
    }
}

} // verus!
