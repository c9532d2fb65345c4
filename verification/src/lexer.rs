use vstd::prelude::*;

use crate::location::{Location, LocationRange, loc_le, loc_lt, point_range, spec_front, default_range};
use crate::text::push_char;
use crate::scan::{
    CharClass, class_holds, loc_at, line_at, col_at, run_end, starts_with, block_end, skip_trivia,
    scan_at, numeral_fits, step, lex_ok, count, nth_token, pos_after, scan_view, digits_value,
    longest_op, word_kind, span, is_digit, is_alpha, is_ascii, lemma_run_end_bounds,
    lemma_block_end_bounds, lemma_skip_trivia_bounds, lemma_skip_trivia_idem,
    lemma_scan_next_bounds, lemma_longest_op_bounds, lemma_step_bounds, lemma_step_at_end,
    lemma_step_keeps_ok, lemma_nth_shift, lemma_pos_after_one, lemma_loc_bounds,
    lemma_digits_value_prefix, lemma_first_token_loc_bound, lemma_loc_mono, lemma_scan_end_before, lemma_scan_start_le_end,
};
use crate::token::{
    Delimiter, Identifier, Keyword, Literal, LiteralKeyword, Operator, OperatorChar, Token,
    TokenKind, TokenKindView, TokenView, TypeKeyword,
};

verus! {

/// The longest source the lexer takes: every line and column number fits in a `u32`.
pub const MAX_SOURCE_LEN: usize = 0xFFFF_0000;

/// A string holding the given characters.
pub fn string_from_chars(v: &[char]) -> (r: String)
    ensures
        r@ == v@,
{
    let mut s = String::new();
    let mut i: usize = 0;
    while i < v.len()
        invariant
            i <= v@.len(),
            s@ == v@.subrange(0, i as int),
        decreases v.len() - i,
    {
        push_char(&mut s, v[i]);
        assert(v@.subrange(0, i + 1) =~= v@.subrange(0, i as int).push(v@[i as int]));
        i = i + 1;
    }
    assert(v@.subrange(0, v@.len() as int) =~= v@);
    s
}

/// A source turned into tokens on demand, with a queue of tokens looked at but not yet
/// taken.
pub struct Lexer {
    source: Vec<char>,
    index: usize,
    tokens: Vec<Token>,
    current_loc: Location,
    prev_loc: LocationRange,
    queue_start: Ghost<int>,
}

impl Lexer {
    pub closed spec fn src(&self) -> Seq<char> {
        self.source@
    }

    pub closed spec fn pos(&self) -> int {
        self.index as int
    }

    /// The `n`-th token the lexer will hand out from now on.
    pub closed spec fn upcoming(&self, n: nat) -> TokenView {
        nth_token(self.source@, self.queue_start@, n)
    }

    /// The number of tokens before the end-of-file token.
    pub closed spec fn remaining(&self) -> nat {
        count(self.source@, self.queue_start@)
    }

    pub closed spec fn prev(&self) -> LocationRange {
        self.prev_loc
    }

    /// The range of the last token taken ends at a column that can still be stepped past.
    pub proof fn lemma_prev_bounded(&self)
        requires
            self.wf(),
        ensures
            self.prev().end.col < u32::MAX,
    {
    }

    /// The lexer has read the whole source exactly when its cursor is past the last
    /// character.
    pub proof fn lemma_at_end_iff(&self)
        ensures
            self.at_end() <==> self.pos() >= self.src().len(),
    {
    }

    /// Once the whole source is read, it stays read.
    pub proof fn lemma_at_end_stays(&self, later: Lexer)
        requires
            self.at_end(),
            later.src() == self.src(),
            later.pos() >= self.pos(),
        ensures
            later.at_end(),
    {
    }

    /// The number of tokens looked at but not yet taken.
    pub closed spec fn queued(&self) -> nat {
        self.tokens@.len()
    }

    /// The position after the tokens taken is past any trivia (so the next token starts
    /// there).
    pub closed spec fn start_settled(&self) -> bool {
        skip_trivia(self.source@, self.queue_start@) == Some(self.queue_start@)
    }

    /// With the position after the tokens taken past any trivia, an end-of-file token
    /// next means that the whole source is read.
    pub proof fn lemma_eof_settled_at_end(&self)
        requires
            self.wf(),
            self.start_settled(),
            self.upcoming(0).kind is EndOfFile,
        ensures
            self.at_end(),
    {
        let s = self.source@;
        let qs = self.queue_start@;
        lemma_step_keeps_ok(s, qs);
        lemma_pos_after_ge(s, qs, self.queued());
        if qs < s.len() {
            lemma_scan_next_bounds(s, qs);
            assert(scan_at(s, qs).kind != TokenKindView::EndOfFile);
        }
    }

    /// Unless the token after the ones looked at is the end-of-file token, the source is
    /// not read to the end.
    pub proof fn lemma_not_at_end(&self)
        requires
            self.wf(),
            !(self.upcoming(self.queued()).kind is EndOfFile),
        ensures
            !self.at_end(),
    {
        let s = self.source@;
        let qs = self.queue_start@;
        lemma_nth_shift(s, qs, self.queued(), 0);
        if self.index as int >= s.len() {
            assert(self.index as int == s.len());
            lemma_step_at_end(s);
        }
    }

    /// Once the whole source is read, the token after the ones looked at is the
    /// end-of-file token; with none looked at, the next token is.
    pub proof fn lemma_at_end_gives_eof(&self)
        requires
            self.wf(),
            self.at_end(),
        ensures
            self.upcoming(self.queued()).kind is EndOfFile,
            self.queued() == 0 ==> self.upcoming(0).kind is EndOfFile,
    {
        let s = self.source@;
        lemma_nth_shift(s, self.queue_start@, self.queued(), 0);
        assert(self.index as int == s.len());
        lemma_step_at_end(s);
        lemma_pos_after_one(s, s.len() as int);
    }

    /// The end-of-file token repeats: once it comes, every later token is one too.
    pub proof fn lemma_eof_repeats(&self, n: nat)
        requires
            self.wf(),
            self.upcoming(n).kind is EndOfFile,
        ensures
            self.upcoming(n + 1).kind is EndOfFile,
            self.upcoming(n + 1) == self.upcoming(n),
    {
        let s = self.source@;
        let i = self.queue_start@;
        lemma_nth_shift(s, i, n, 0);
        lemma_nth_shift(s, i, n, 1);
        let p = pos_after(s, i, n);
        lemma_step_keeps_ok(s, p);
        lemma_step_bounds(s, p);
        lemma_pos_after_one(s, p);
        let k = step(s, p).unwrap().1;
        assert(k == s.len());
        lemma_step_at_end(s);
        assert(nth_token(s, p, 1) == nth_token(s, k, 0));
        lemma_pos_after_one(s, k);
    }

    /// Tokens come in source order without overlap: each token before the end of the file
    /// ends before the next one starts.
    pub proof fn lemma_tokens_in_order(&self, n: nat)
        requires
            self.wf(),
            !(self.upcoming(n).kind is EndOfFile),
        ensures
            loc_le(self.upcoming(n).loc.start, self.upcoming(n).loc.end),
            loc_lt(self.upcoming(n).loc.end, self.upcoming(n + 1).loc.start),
    {
        let s = self.source@;
        let i = self.queue_start@;
        lemma_nth_shift(s, i, n, 0);
        lemma_nth_shift(s, i, n, 1);
        let p = pos_after(s, i, n);
        lemma_step_keeps_ok(s, p);
        lemma_step_bounds(s, p);
        lemma_pos_after_one(s, p);
        lemma_skip_trivia_bounds(s, p);
        let j = skip_trivia(s, p).unwrap();
        let sc = scan_at(s, j);
        let k = step(s, p).unwrap().1;
        lemma_scan_next_bounds(s, j);
        lemma_skip_trivia_idem(s, p);
        lemma_skip_trivia_idem(s, sc.next);
        lemma_skip_trivia_bounds(s, sc.next);
        lemma_step_keeps_ok(s, k);
        lemma_step_bounds(s, k);
        lemma_pos_after_one(s, k);
        assert(nth_token(s, p, 1) == nth_token(s, k, 0));
        if sc.next == j {
            assert(k == j);
            assert(step(s, j) == step(s, p));
            assert(false);
        }
        lemma_scan_end_before(s, j);
        lemma_scan_start_le_end(s, j);
        lemma_scan_next_bounds(s, k);
        if sc.next < k {
            lemma_loc_mono(s, sc.next, k);
        }
    }

    /// The lexer has read the whole source (only trivia, if anything, was left).
    pub closed spec fn at_end(&self) -> bool {
        self.index >= self.source@.len()
    }

    pub closed spec fn cursor_ok(&self) -> bool {
        &&& self.source@.len() <= MAX_SOURCE_LEN
        &&& self.index <= self.source@.len()
        &&& self.current_loc == loc_at(self.source@, self.index as int)
    }

    pub closed spec fn wf(&self) -> bool {
        &&& self.cursor_ok()
        &&& 0 <= self.queue_start@ <= self.index
        &&& lex_ok(self.source@, self.queue_start@)
        &&& pos_after(self.source@, self.queue_start@, self.tokens@.len()) == self.index
        &&& forall|n: int|
            0 <= n < self.tokens@.len() ==> (#[trigger] self.tokens@[n])@ == nth_token(
                self.source@,
                self.queue_start@,
                n as nat,
            )
        &&& self.tokens@.len() < usize::MAX
        &&& self.prev_loc.end.col <= self.source@.len() + 1
    }

    /// A lexer over the given source. The source is ASCII, and lexing it reaches the end
    /// (see `lexes_completely`).
    pub fn new(source: &[char]) -> (r: Lexer)
        requires
            is_ascii(source@),
            source@.len() <= MAX_SOURCE_LEN,
            lex_ok(source@, 0),
        ensures
            r.wf(),
            r.src() == source@,
            forall|n: nat| r.upcoming(n) == nth_token(source@, 0, n),
            r.remaining() == count(source@, 0),
            r.prev() == default_range(),
            r.pos() == 0,
            r.queued() == 0,
    {
        let mut v: Vec<char> = Vec::new();
        let mut i: usize = 0;
        while i < source.len()
            invariant
                i <= source@.len(),
                v@ == source@.subrange(0, i as int),
            decreases source.len() - i,
        {
            v.push(source[i]);
            assert(source@.subrange(0, i + 1) =~= source@.subrange(0, i as int).push(
                source@[i as int],
            ));
            i = i + 1;
        }
        assert(source@.subrange(0, source@.len() as int) =~= source@);
        let l = Lexer {
            source: v,
            index: 0,
            tokens: Vec::new(),
            current_loc: Location { line: 1, col: 1 },
            prev_loc: LocationRange::default(),
            queue_start: Ghost(0),
        };
        assert(loc_at(l.source@, 0) == Location { line: 1, col: 1 });
        l
    }

    pub fn is_eof(&self) -> (r: bool)
        requires
            self.wf(),
        ensures
            r == self.at_end(),
    {
        self.is_at_buffer_end(0)
    }

    fn is_at_cursor_end(&self) -> (r: bool)
        requires
            self.cursor_ok(),
        ensures
            r == (self.index >= self.source@.len()),
    {
        self.index >= self.source.len()
    }

    pub fn is_at_buffer_end(&self, ahead: usize) -> (r: bool)
        requires
            self.wf(),
        ensures
            r == (self.pos() + ahead >= self.src().len()),
    {
        ahead >= self.source.len() - self.index
    }

    /// The kind of the first token in the queue, after filling the queue up to `ahead`.
    pub fn peek_token_kind(&mut self, ahead: usize) -> (r: &TokenKind)
        requires
            old(self).wf(),
            ahead < usize::MAX - 1,
        ensures
            final(self).wf(),
            r@ == old(self).upcoming(0).kind,
            final(self).same_stream(*old(self)),
            old(self).upcoming(0).kind is EndOfFile ==> final(self).at_end(),
            final(self).queued() == (if old(self).queued() > ahead {
                old(self).queued()
            } else {
                (ahead + 1) as nat
            }),
            final(self).start_settled() == old(self).start_settled(),
    {
        &self.peek_token(ahead).kind
    }

    /// The range of the first token in the queue, after filling the queue up to `ahead`.
    pub fn peek_loc(&mut self, ahead: usize) -> (r: &LocationRange)
        requires
            old(self).wf(),
            ahead < usize::MAX - 1,
        ensures
            final(self).wf(),
            *r == old(self).upcoming(0).loc,
            final(self).same_stream(*old(self)),
    {
        &self.peek_token(ahead).loc
    }

    /// The range of the last token taken.
    pub fn get_prev_loc(&self) -> (r: &LocationRange)
        ensures
            *r == self.prev(),
    {
        &self.prev_loc
    }

    /// The lexer hands out the same tokens from now on as `other` does.
    pub open spec fn same_stream(&self, other: Lexer) -> bool {
        &&& self.src() == other.src()
        &&& forall|n: nat| #[trigger] self.upcoming(n) == other.upcoming(n)
        &&& self.remaining() == other.remaining()
        &&& self.prev() == other.prev()
        &&& self.pos() >= other.pos()
        &&& self.start_settled() == other.start_settled()
    }

    /// Fills the token queue up to position `ahead` and returns the first queued token
    /// (which is the next token whatever `ahead` is).
    pub fn peek_token(&mut self, ahead: usize) -> (r: &Token)
        requires
            old(self).wf(),
            ahead < usize::MAX - 1,
        ensures
            final(self).wf(),
            r@ == old(self).upcoming(0),
            final(self).same_stream(*old(self)),
            old(self).upcoming(0).kind is EndOfFile ==> final(self).at_end(),
            final(self).queued() == (if old(self).queued() > ahead {
                old(self).queued()
            } else {
                (ahead + 1) as nat
            }),
            final(self).start_settled() == old(self).start_settled(),
    {
        while self.tokens.len() <= ahead
            invariant
                self.wf(),
                self.same_stream(*old(self)),
                ahead < usize::MAX - 1,
                old(self).tokens@.len() > ahead ==> self.tokens@.len() == old(self).tokens@.len(),
                old(self).tokens@.len() <= ahead ==> self.tokens@.len() <= ahead + 1,
                self.queue_start@ == old(self).queue_start@,
                self.source@ == old(self).source@,
            decreases ahead + 1 - self.tokens.len(),
        {
            self.push_next_token();
        }
        if self.tokens.len() == 0 {
            assert(false);
        }
        proof {
            if self.upcoming(0).kind is EndOfFile {
                self.lemma_queued_eof_at_end(0);
            }
        }
        &self.tokens[0]
    }

    proof fn lemma_queued_eof_at_end(&self, n: int)
        requires
            self.wf(),
            0 <= n < self.tokens@.len(),
            self.tokens@[n]@.kind is EndOfFile,
        ensures
            self.at_end(),
    {
        let s = self.source@;
        let qs = self.queue_start@;
        lemma_loc_bounds(s, 0);
        lemma_nth_shift(s, qs, n as nat, 0);
        let p = pos_after(s, qs, n as nat);
        lemma_step_keeps_ok(s, p);
        lemma_step_bounds(s, p);
        let (sc, k) = step(s, p).unwrap();
        assert(nth_token(s, p, 0) == scan_view(sc));
        lemma_nth_shift(s, qs, n as nat, 0);
        assert(nth_token(s, qs, n as nat) == nth_token(s, p, 0)) by {
            assert(n as nat + 0 == n as nat);
        }
        assert(k == s.len());
        lemma_nth_shift(s, p, 1, (self.tokens@.len() - n - 1) as nat);
        lemma_pos_after_one(s, p);
        lemma_eof_fixed(s, (self.tokens@.len() - n - 1) as nat);
        lemma_nth_shift(s, qs, (n + 1) as nat, (self.tokens@.len() - n - 1) as nat);
        lemma_nth_shift(s, qs, n as nat, 1);
        assert((n + 1) as nat + (self.tokens@.len() - n - 1) as nat == self.tokens@.len());
    }

    /// Makes one more token and appends it to the queue.
    fn push_next_token(&mut self)
        requires
            old(self).wf(),
            old(self).tokens@.len() < usize::MAX - 1,
        ensures
            final(self).wf(),
            final(self).tokens@.len() == old(self).tokens@.len() + 1,
            final(self).same_stream(*old(self)),
            final(self).queue_start@ == old(self).queue_start@,
            final(self).source@ == old(self).source@,
    {
        let ghost s = self.source@;
        let ghost qs = self.queue_start@;
        let ghost n = self.tokens@.len();
        proof {
            lemma_nth_shift(s, qs, n, 0);
            lemma_step_keeps_ok(s, self.index as int);
        }
        let token = self.make_token();
        self.skip_comment_and_whitespace();
        self.tokens.push(token);
        proof {
            let i = pos_after(s, qs, n);
            lemma_pos_after_one(s, i);
            lemma_nth_shift(s, qs, n, 1);
            assert forall|m: int| 0 <= m < self.tokens@.len() implies (
            #[trigger] self.tokens@[m])@ == nth_token(s, qs, m as nat) by {
                if m == n {
                    assert(nth_token(s, qs, n + 0) == nth_token(s, i, 0));
                }
            }
        }
    }

    /// Takes the next token: the first queued one, or a newly made one.
    pub fn next_token(&mut self) -> (r: Token)
        requires
            old(self).wf(),
        ensures
            final(self).wf(),
            r@ == old(self).upcoming(0),
            final(self).src() == old(self).src(),
            forall|n: nat| #[trigger] final(self).upcoming(n) == old(self).upcoming(n + 1),
            final(self).prev() == r.loc,
            final(self).prev().end.col < u32::MAX,
            final(self).remaining() == (if r@.kind is EndOfFile {
                old(self).remaining()
            } else {
                (old(self).remaining() - 1) as nat
            }),
            r@.kind is EndOfFile ==> old(self).remaining() == 0,
            !(r@.kind is EndOfFile) ==> old(self).remaining() > 0,
            r@.kind is EndOfFile ==> final(self).at_end(),
            final(self).pos() >= old(self).pos(),
            final(self).queued() == (if old(self).queued() > 0 {
                (old(self).queued() - 1) as nat
            } else {
                0
            }),
            final(self).start_settled(),
    {
        let ghost s = self.source@;
        let ghost qs = self.queue_start@;
        proof {
            lemma_step_keeps_ok(s, qs);
            lemma_step_bounds(s, qs);
            lemma_pos_after_one(s, qs);
        }
        let token = if self.tokens.len() == 0 {
            let t = self.make_token();
            self.skip_comment_and_whitespace();
            t
        } else {
            proof {
                if self.tokens@[0]@.kind is EndOfFile {
                    self.lemma_queued_eof_at_end(0);
                }
            }
            self.tokens.remove(0)
        };
        let ghost k = step(s, qs).unwrap().1;
        proof {
            lemma_first_token_loc_bound(s, qs);
        }
        self.queue_start = Ghost(k);
        self.prev_loc = token.loc;
        proof {
            assert forall|n: nat| #[trigger] self.upcoming(n) == old(self).upcoming(n + 1) by {
                assert(nth_token(s, qs, n + 1) == nth_token(s, k, n));
            }
            assert forall|m: int| 0 <= m < self.tokens@.len() implies (
            #[trigger] self.tokens@[m])@ == nth_token(s, k, m as nat) by {
                assert(old(self).tokens@[m + 1] == self.tokens@[m]);
                assert(nth_token(s, qs, (m + 1) as nat) == nth_token(s, k, m as nat));
            }
            if old(self).tokens@.len() > 0 {
                lemma_nth_shift(s, qs, 1, self.tokens@.len());
                assert(1 + self.tokens@.len() == old(self).tokens@.len());
                lemma_step_keeps_ok(s, qs);
                lemma_pos_after_ge(s, k, self.tokens@.len());
            }
            if step(s, qs).unwrap().0.kind is EndOfFile {
                lemma_step_at_end(s);
            }
            let j = skip_trivia(s, qs).unwrap();
            lemma_skip_trivia_bounds(s, qs);
            lemma_scan_next_bounds(s, j);
            lemma_skip_trivia_idem(s, scan_at(s, j).next);
        }
        token
    }

    /// The character `ahead` positions after the cursor, if any.
    fn peek_char(&self, ahead: usize) -> (r: Option<char>)
        requires
            self.cursor_ok(),
        ensures
            r == (if self.pos() + ahead < self.src().len() {
                Some(self.src()[self.pos() + ahead])
            } else {
                None
            }),
    {
        if ahead < self.source.len() - self.index {
            Some(self.source[self.index + ahead])
        } else {
            None
        }
    }

    fn is_peek_char(&self, ahead: usize, c: char) -> (r: bool)
        requires
            self.cursor_ok(),
        ensures
            r == (self.pos() + ahead < self.src().len() && self.src()[self.pos() + ahead] == c),
    {
        match self.peek_char(ahead) {
            Some(ch) => ch == c,
            None => false,
        }
    }

    fn is_peek_char_f(&self, ahead: usize, cls: CharClass) -> (r: bool)
        requires
            self.cursor_ok(),
        ensures
            r == (self.pos() + ahead < self.src().len() && class_holds(
                cls,
                self.src()[self.pos() + ahead],
            )),
    {
        match self.peek_char(ahead) {
            Some(ch) => char_in_class(ch, cls),
            None => false,
        }
    }

    /// Moves the cursor over one character, keeping the line and column up to date.
    fn next_char(&mut self) -> (r: Option<char>)
        requires
            old(self).cursor_ok(),
        ensures
            final(self).cursor_ok(),
            final(self).source == old(self).source,
            final(self).tokens == old(self).tokens,
            final(self).prev_loc == old(self).prev_loc,
            final(self).queue_start == old(self).queue_start,
            old(self).index < old(self).source@.len() ==> final(self).index == old(self).index + 1
                && r == Some(old(self).source@[old(self).index as int]),
            old(self).index >= old(self).source@.len() ==> final(self).index == old(self).index
                && r is None,
    {
        let c = self.peek_char(0)?;
        proof {
            lemma_loc_bounds(self.source@, self.index + 1);
        }
        if c == '\n' {
            self.current_loc.line = self.current_loc.line + 1;
            self.current_loc.col = 0;
        }
        self.current_loc.col = self.current_loc.col + 1;
        self.index = self.index + 1;
        Some(c)
    }

    /// Moves the cursor over the run of characters of class `cls`.
    fn skip_while(&mut self, cls: CharClass)
        requires
            old(self).cursor_ok(),
        ensures
            final(self).cursor_ok(),
            final(self).source == old(self).source,
            final(self).tokens == old(self).tokens,
            final(self).prev_loc == old(self).prev_loc,
            final(self).queue_start == old(self).queue_start,
            final(self).index == run_end(old(self).source@, old(self).index as int, cls),
    {
        proof {
            lemma_run_end_bounds(self.source@, self.index as int, cls);
        }
        while self.is_peek_char_f(0, cls)
            invariant
                self.cursor_ok(),
                self.source == old(self).source,
                self.tokens == old(self).tokens,
                self.prev_loc == old(self).prev_loc,
                self.queue_start == old(self).queue_start,
                run_end(self.source@, self.index as int, cls) == run_end(
                    old(self).source@,
                    old(self).index as int,
                    cls,
                ),
            decreases self.source@.len() - self.index,
        {
            self.next_char();
        }
    }

    /// The run of characters of class `cls` at the cursor, without moving the cursor;
    /// `None` when the run is empty.
    fn peek_str_while(&self, cls: CharClass) -> (r: Option<Vec<char>>)
        requires
            self.cursor_ok(),
        ensures
            r is None <==> run_end(self.src(), self.pos(), cls) == self.pos(),
            r matches Some(v) ==> v@ == self.src().subrange(
                self.pos(),
                run_end(self.src(), self.pos(), cls),
            ),
    {
        proof {
            lemma_run_end_bounds(self.source@, self.index as int, cls);
        }
        if !self.is_peek_char_f(0, cls) {
            return None;
        }
        let mut value: Vec<char> = Vec::new();
        let ghost s = self.source@;
        let ghost i = self.index as int;
        loop
            invariant
                self.cursor_ok(),
                s == self.source@,
                i == self.index,
                i + value@.len() <= run_end(s, i, cls),
                value@ == s.subrange(i, i + value@.len()),
                run_end(s, i, cls) <= s.len(),
                forall|m: int| i <= m < run_end(s, i, cls) ==> class_holds(cls, #[trigger] s[m]),
                run_end(s, i, cls) < s.len() ==> !class_holds(cls, s[run_end(s, i, cls)]),
            ensures
                value@ == s.subrange(i, run_end(s, i, cls)),
            decreases s.len() - value@.len(),
        {
            match self.peek_char(value.len()) {
                Some(c) => {
                    if char_in_class(c, cls) {
                        value.push(c);
                        assert(s.subrange(i, i + value@.len()) =~= s.subrange(
                            i,
                            i + value@.len() - 1,
                        ).push(c));
                    } else {
                        break;
                    }
                },
                None => {
                    break;
                },
            }
        }
        Some(value)
    }

    /// Takes the run of characters of class `cls` at the cursor; `None` when it is empty.
    fn get_str_while(&mut self, cls: CharClass) -> (r: Option<Vec<char>>)
        requires
            old(self).cursor_ok(),
        ensures
            final(self).cursor_ok(),
            final(self).source == old(self).source,
            final(self).tokens == old(self).tokens,
            final(self).prev_loc == old(self).prev_loc,
            final(self).queue_start == old(self).queue_start,
            final(self).index == run_end(old(self).source@, old(self).index as int, cls),
            r is None <==> run_end(old(self).source@, old(self).index as int, cls)
                == old(self).index,
            r matches Some(v) ==> v@ == old(self).source@.subrange(
                old(self).index as int,
                final(self).index as int,
            ),
    {
        proof {
            lemma_run_end_bounds(self.source@, self.index as int, cls);
        }
        if !self.is_peek_char_f(0, cls) {
            return None;
        }
        let mut value: Vec<char> = Vec::new();
        let ghost s = self.source@;
        let ghost i = self.index as int;
        while self.is_peek_char_f(0, cls)
            invariant
                self.cursor_ok(),
                self.source == old(self).source,
                self.tokens == old(self).tokens,
                self.prev_loc == old(self).prev_loc,
                self.queue_start == old(self).queue_start,
                s == self.source@,
                0 <= i <= self.index <= s.len(),
                run_end(s, self.index as int, cls) == run_end(s, i, cls),
                value@ == s.subrange(i, self.index as int),
            decreases s.len() - self.index,
        {
            let ghost before = self.index as int;
            let c = self.next_char().unwrap();
            assert(self.index == before + 1);
            assert(c == s[before]);
            assert(i <= before);
            assert(before + 1 <= s.len());
            value.push(c);
            assert(s.subrange(i, before + 1) =~= s.subrange(i, before).push(c));
        }
        Some(value)
    }

    /// Moves the cursor over the next `k` characters.
    fn advance(&mut self, k: usize)
        requires
            old(self).cursor_ok(),
            old(self).index + k <= old(self).source@.len(),
        ensures
            final(self).cursor_ok(),
            final(self).source == old(self).source,
            final(self).tokens == old(self).tokens,
            final(self).prev_loc == old(self).prev_loc,
            final(self).queue_start == old(self).queue_start,
            final(self).index == old(self).index + k,
    {
        let mut m: usize = 0;
        while m < k
            invariant
                self.cursor_ok(),
                self.source == old(self).source,
                self.tokens == old(self).tokens,
                self.prev_loc == old(self).prev_loc,
                self.queue_start == old(self).queue_start,
                old(self).index + k <= self.source@.len(),
                m <= k,
                self.index == old(self).index + m,
            decreases k - m,
        {
            self.next_char();
            m = m + 1;
        }
    }

    /// Moves the cursor over `s` when the source continues with it; otherwise leaves
    /// the cursor where it is.
    fn match_str(&mut self, s: &str) -> (r: bool)
        requires
            old(self).cursor_ok(),
        ensures
            final(self).cursor_ok(),
            final(self).source == old(self).source,
            final(self).tokens == old(self).tokens,
            final(self).prev_loc == old(self).prev_loc,
            final(self).queue_start == old(self).queue_start,
            r == starts_with(old(self).source@, old(self).index as int, s@),
            r ==> final(self).index == old(self).index + s@.len(),
            !r ==> final(self).index == old(self).index,
    {
        let n = s.unicode_len();
        let mut i: usize = 0;
        while i < n
            invariant
                self.cursor_ok(),
                n == s@.len(),
                i <= n,
                self.index == old(self).index,
                self.source == old(self).source,
                self.index + i <= self.source@.len(),
                self.source@.subrange(self.index as int, self.index + i) == s@.subrange(
                    0,
                    i as int,
                ),
            decreases n - i,
        {
            let c = s.get_char(i);
            if !self.is_peek_char(i, c) {
                proof {
                    if self.index + i < self.source@.len() && self.source@.subrange(
                        self.index as int,
                        self.index + n,
                    ) == s@ {
                        assert(self.source@.subrange(self.index as int, self.index + n)[i as int]
                            == s@[i as int]);
                    }
                }
                return false;
            }
            assert(self.source@.subrange(self.index as int, self.index + i + 1) =~= self.source@.subrange(
                self.index as int,
                self.index + i,
            ).push(c));
            assert(s@.subrange(0, i + 1) =~= s@.subrange(0, i as int).push(c));
            i = i + 1;
        }
        assert(s@.subrange(0, n as int) =~= s@);
        self.advance(n);
        true
    }

    /// Moves the cursor over white space, line comments and block comments.
    fn skip_comment_and_whitespace(&mut self)
        requires
            old(self).cursor_ok(),
            skip_trivia(old(self).source@, old(self).index as int) is Some,
        ensures
            final(self).cursor_ok(),
            final(self).source == old(self).source,
            final(self).tokens == old(self).tokens,
            final(self).prev_loc == old(self).prev_loc,
            final(self).queue_start == old(self).queue_start,
            final(self).index == skip_trivia(old(self).source@, old(self).index as int).unwrap(),
    {
        let ghost s = self.source@;
        let ghost target = skip_trivia(s, self.index as int).unwrap();
        proof {
            lemma_skip_trivia_bounds(s, self.index as int);
        }
        loop
            invariant_except_break
                self.cursor_ok(),
                self.source == old(self).source,
                self.tokens == old(self).tokens,
                self.prev_loc == old(self).prev_loc,
                self.queue_start == old(self).queue_start,
                s == self.source@,
                skip_trivia(s, self.index as int) == Some(target),
                self.index <= target,
            ensures
                self.cursor_ok(),
                self.source == old(self).source,
                self.tokens == old(self).tokens,
                self.prev_loc == old(self).prev_loc,
                self.queue_start == old(self).queue_start,
                self.index == target,
            decreases target - self.index,
        {
            proof {
                reveal_strlit("//");
                reveal_strlit("/*");
                reveal_strlit("*/");
                assert("//"@ =~= seq!['/', '/']);
                assert("/*"@ =~= seq!['/', '*']);
                assert("*/"@ =~= seq!['*', '/']);
            }
            let start = self.index;
            self.skip_while(CharClass::Whitespace);
            let ghost a = self.index as int;
            proof {
                lemma_run_end_bounds(s, start as int, CharClass::Whitespace);
            }
            if self.match_str("//") {
                self.skip_while(CharClass::NotNewline);
                proof {
                    lemma_run_end_bounds(s, a + 2, CharClass::NotNewline);
                }
            }
            let ghost b = self.index as int;
            assert(b == if starts_with(s, a, seq!['/', '/']) {
                run_end(s, a + 2, CharClass::NotNewline)
            } else {
                a
            });
            if self.match_str("/*") {
                proof {
                    lemma_block_end_bounds(s, b + 2);
                }
                assert(block_end(s, b + 2) is Some);
                while !self.match_str("*/")
                    invariant
                        self.cursor_ok(),
                        self.source == old(self).source,
                        self.tokens == old(self).tokens,
                        self.prev_loc == old(self).prev_loc,
                        self.queue_start == old(self).queue_start,
                        s == self.source@,
                        block_end(s, b + 2) is Some,
                        block_end(s, self.index as int) == block_end(s, b + 2),
                        b + 2 <= self.index,
                    decreases s.len() - self.index,
                {
                    proof {
                        reveal_strlit("*/");
                        assert("*/"@ =~= seq!['*', '/']);
                        lemma_block_end_bounds(s, self.index as int);
                        let x = self.index as int;
                        if s[x] == '*' && s[x + 1] == '/' {
                            assert(s.subrange(x, x + 2) =~= seq!['*', '/']);
                        }
                    }
                    self.next_char();
                }
                proof {
                    reveal_strlit("*/");
                    assert("*/"@ =~= seq!['*', '/']);
                }
                assert(Some(self.index as int) == block_end(s, b + 2));
            }
            let ghost c = self.index as int;
            assert(Some(c) == if starts_with(s, b, seq!['/', '*']) {
                block_end(s, b + 2)
            } else {
                Some(b)
            });
            if self.index == start {
                break;
            }
            proof {
                lemma_skip_trivia_bounds(s, self.index as int);
            }
        }
    }

    /// Makes the token at the cursor (after any trivia), moving the cursor past it.
    fn make_token(&mut self) -> (r: Token)
        requires
            old(self).cursor_ok(),
            step(old(self).source@, old(self).index as int) is Some,
        ensures
            final(self).cursor_ok(),
            final(self).source == old(self).source,
            final(self).tokens == old(self).tokens,
            final(self).prev_loc == old(self).prev_loc,
            final(self).queue_start == old(self).queue_start,
            r@ == scan_view(step(old(self).source@, old(self).index as int).unwrap().0),
            final(self).index == step(old(self).source@, old(self).index as int).unwrap().0.next,
    {
        let ghost s = self.source@;
        let ghost i0 = self.index as int;
        self.skip_comment_and_whitespace();
        let ghost j = self.index as int;
        proof {
            lemma_skip_trivia_bounds(s, i0);
            lemma_loc_bounds(s, j);
            assert(skip_trivia(s, i0) == Some(j));
            assert(step(s, i0).unwrap().0 == scan_at(s, j));
            if j < s.len() {
                lemma_run_end_bounds(s, j + 1, CharClass::OpChar);
                lemma_run_end_bounds(s, j + 1, CharClass::IdentChar);
                lemma_run_end_bounds(s, j, CharClass::OpChar);
                lemma_run_end_bounds(s, j, CharClass::IdentChar);
                lemma_run_end_bounds(s, j, CharClass::Digit);
            }
        }
        let start: Location = self.current_loc;
        if self.is_at_cursor_end() {
            Token { kind: TokenKind::EndOfFile, loc: start.into_range() }
        } else if self.is_peek_char_f(0, CharClass::Digit) {
            let value = self.get_str_while(CharClass::Digit).unwrap();
            let v = digits_to_i64(&value);
            proof {
                lemma_loc_bounds(s, self.index as int);
            }
            Token {
                kind: TokenKind::Literal(Literal::Int(v)),
                loc: LocationRange { start, end: self.current_loc.front() },
            }
        } else if self.is_peek_char_f(0, CharClass::OpChar) {
            let run = self.peek_str_while(CharClass::OpChar).unwrap();
            proof {
                lemma_run_end_bounds(s, j, CharClass::OpChar);
            }
            let mut k = run.len();
            while k > 0
                invariant
                    self.cursor_ok(),
                    self.source == old(self).source,
                    self.tokens == old(self).tokens,
                    self.prev_loc == old(self).prev_loc,
                    self.queue_start == old(self).queue_start,
                    s == self.source@,
                    self.index == j,
                    start == loc_at(s, j),
                    run_end(s, j, CharClass::OpChar) == j + run@.len(),
                    run@ == s.subrange(j, j + run@.len()),
                    k <= run@.len(),
                    j + run@.len() <= s.len(),
                    longest_op(s, j, j + run@.len()) == longest_op(s, j, j + k),
                    step(old(self).source@, old(self).index as int).unwrap().0 == scan_at(s, j),
                    j < s.len(),
                    !is_digit(s[j]),
                    OperatorChar::spec_from_char(s[j]) is Some,
                decreases k,
            {
                assert(run@.subrange(0, k as int) =~= s.subrange(j, j + k));
                if let Some(op) = Operator::from_chars(&run, 0, k) {
                    assert(longest_op(s, j, j + k as int) == Some((op, j + k as int)));
                    self.advance(k);
                    proof {
                        lemma_loc_bounds(s, self.index as int);
                    }
                    return Token {
                        kind: TokenKind::Operator(op),
                        loc: LocationRange { start, end: self.current_loc.front() },
                    };
                }
                k = k - 1;
            }
            Token { kind: TokenKind::Unknown, loc: start.into_range() }
        } else if let Some(delim) = {
            match self.peek_char(0) {
                Some(c) => Delimiter::from_char(c),
                None => None,
            }
        } {
            self.next_char();
            Token { kind: TokenKind::Delimiter(delim), loc: start.into_range() }
        } else if self.is_peek_char_f(0, CharClass::IdentStart) {
            let ident = self.get_str_while(CharClass::IdentChar).unwrap();
            proof {
                lemma_loc_bounds(s, self.index as int);
            }
            let loc = LocationRange { start, end: self.current_loc.front() };
            let kind = if let Some(kw) = Keyword::from_chars(&ident) {
                TokenKind::Keyword(kw)
            } else if let Some(kw) = TypeKeyword::from_chars(&ident) {
                TokenKind::TypeKeyword(kw)
            } else if let Some(kw) = LiteralKeyword::from_chars(&ident) {
                TokenKind::LiteralKeyword(kw)
            } else {
                TokenKind::Identifier(Identifier(string_from_chars(&ident)))
            };
            Token { kind, loc }
        } else {
            self.next_char();
            Token { kind: TokenKind::Unknown, loc: start.into_range() }
        }
    }
}

/// Whether `c` is of class `cls`.
pub fn char_in_class(c: char, cls: CharClass) -> (r: bool)
    ensures
        r == class_holds(cls, c),
{
    match cls {
        CharClass::Whitespace => c == ' ' || ('\t' <= c && c <= '\r'),
        CharClass::Digit => '0' <= c && c <= '9',
        CharClass::IdentStart => ('a' <= c && c <= 'z') || ('A' <= c && c <= 'Z') || c == '_',
        CharClass::IdentChar => ('a' <= c && c <= 'z') || ('A' <= c && c <= 'Z') || ('0' <= c
            && c <= '9') || c == '_',
        CharClass::OpChar => OperatorChar::from_char(c).is_some(),
        CharClass::NotNewline => c != '\n',
    }
}

/// The value of a run of decimal digits that fits in an `i64`.
fn digits_to_i64(d: &Vec<char>) -> (r: i64)
    requires
        forall|m: int| 0 <= m < d@.len() ==> is_digit(#[trigger] d@[m]),
        digits_value(d@) <= i64::MAX,
    ensures
        r == digits_value(d@),
{
    let mut v: i64 = 0;
    let mut i: usize = 0;
    while i < d.len()
        invariant
            i <= d@.len(),
            forall|m: int| 0 <= m < d@.len() ==> is_digit(#[trigger] d@[m]),
            digits_value(d@) <= i64::MAX,
            v == digits_value(d@.subrange(0, i as int)),
        decreases d.len() - i,
    {
        proof {
            lemma_digits_value_prefix(d@, i + 1);
            assert(d@.subrange(0, i + 1).drop_last() =~= d@.subrange(0, i as int));
        }
        let digit = (d[i] as u32 - '0' as u32) as i64;
        v = v * 10 + digit;
        i = i + 1;
    }
    assert(d@.subrange(0, d@.len() as int) =~= d@);
    v
}

proof fn lemma_pos_after_ge(s: Seq<char>, i: int, n: nat)
    requires
        0 <= i <= s.len(),
        lex_ok(s, i),
    ensures
        i <= pos_after(s, i, n) <= s.len(),
    decreases n,
{
    if n > 0 {
        lemma_step_keeps_ok(s, i);
        lemma_step_bounds(s, i);
        lemma_pos_after_ge(s, step(s, i).unwrap().1, (n - 1) as nat);
    }
}

proof fn lemma_eof_fixed(s: Seq<char>, n: nat)
    ensures
        nth_token(s, s.len() as int, n) == scan_view(step(s, s.len() as int).unwrap().0),
        pos_after(s, s.len() as int, n) == s.len(),
    decreases n,
{
    lemma_step_at_end(s);
    if n > 0 {
        lemma_eof_fixed(s, (n - 1) as nat);
    }
}

} // verus!

verus! {

/// The end of the run of characters of class `cls` that starts at `i`.
fn run_end_at(s: &[char], i: usize, cls: CharClass) -> (r: usize)
    requires
        i <= s@.len(),
    ensures
        r == run_end(s@, i as int, cls),
{
    proof {
        lemma_run_end_bounds(s@, i as int, cls);
    }
    let mut k = i;
    while k < s.len() && char_in_class(s[k], cls)
        invariant
            i <= k <= s@.len(),
            run_end(s@, k as int, cls) == run_end(s@, i as int, cls),
        decreases s@.len() - k,
    {
        k = k + 1;
    }
    k
}

fn starts_with_at(s: &[char], i: usize, a: char, b: char) -> (r: bool)
    ensures
        r == starts_with(s@, i as int, seq![a, b]),
{
    if i < s.len() && s.len() - i >= 2 && s[i] == a && s[i + 1] == b {
        assert(s@.subrange(i as int, i + 2) =~= seq![a, b]);
        true
    } else {
        proof {
            if i + 2 <= s@.len() && s@.subrange(i as int, i + 2) == seq![a, b] {
                assert(s@.subrange(i as int, i + 2)[0] == a);
                assert(s@.subrange(i as int, i + 2)[1] == b);
            }
        }
        false
    }
}

fn block_end_at(s: &[char], i: usize) -> (r: Option<usize>)
    requires
        i <= s@.len() + 2,
    ensures
        r matches Some(e) ==> block_end(s@, i as int) == Some(e as int),
        r is None ==> block_end(s@, i as int) is None,
{
    let mut k = i;
    while k < s.len() && s.len() - k >= 2
        invariant
            i <= k,
            block_end(s@, k as int) == block_end(s@, i as int),
        decreases s@.len() - k,
    {
        if s[k] == '*' && s[k + 1] == '/' {
            return Some(k + 2);
        }
        k = k + 1;
    }
    None
}

/// Where the trivia that starts at `i` ends; `None` for a block comment never closed.
fn trivia_end_at(s: &[char], i: usize) -> (r: Option<usize>)
    requires
        i <= s@.len(),
    ensures
        r matches Some(e) ==> skip_trivia(s@, i as int) == Some(e as int),
        r is None ==> skip_trivia(s@, i as int) is None,
{
    let n = s.len();
    let mut k = i;
    loop
        invariant
            i <= k <= s@.len(),
            n == s@.len(),
            skip_trivia(s@, k as int) == skip_trivia(s@, i as int),
        decreases s@.len() - k,
    {
        let a = run_end_at(s, k, CharClass::Whitespace);
        proof {
            lemma_run_end_bounds(s@, k as int, CharClass::Whitespace);
        }
        let b = if starts_with_at(s, a, '/', '/') {
            assert(a + 2 <= n);
            proof {
                lemma_run_end_bounds(s@, a + 2, CharClass::NotNewline);
            }
            run_end_at(s, a + 2, CharClass::NotNewline)
        } else {
            a
        };
        let c = if starts_with_at(s, b, '/', '*') {
            assert(b + 2 <= n);
            match block_end_at(s, b + 2) {
                Some(e) => e,
                None => {
                    return None;
                },
            }
        } else {
            b
        };
        proof {
            if starts_with(s@, b as int, seq!['/', '*']) {
                lemma_block_end_bounds(s@, b + 2);
            }
        }
        if c == k {
            return Some(k);
        }
        k = c;
    }
}

/// Whether the digits at `j` (if `j` starts a numeral) have a value that fits in an `i64`.
fn numeral_fits_at(s: &[char], j: usize) -> (r: bool)
    requires
        j <= s@.len(),
    ensures
        r == numeral_fits(s@, j as int),
{
    if j >= s.len() || !char_in_class(s[j], CharClass::Digit) {
        return true;
    }
    let e = run_end_at(s, j, CharClass::Digit);
    proof {
        lemma_run_end_bounds(s@, j as int, CharClass::Digit);
    }
    let ghost d = s@.subrange(j as int, e as int);
    let mut v: i64 = 0;
    let mut m = j;
    while m < e
        invariant
            j <= m <= e <= s@.len(),
            j < s@.len(),
            is_digit(s@[j as int]),
            e == run_end(s@, j as int, CharClass::Digit),
            d == s@.subrange(j as int, e as int),
            forall|x: int| 0 <= x < d.len() ==> is_digit(#[trigger] d[x]),
            0 <= v,
            v == digits_value(d.subrange(0, m - j)),
        decreases e - m,
    {
        proof {
            assert(d[m - j] == s@[m as int]);
            assert(d.subrange(0, m - j + 1).drop_last() =~= d.subrange(0, m - j));
        }
        let digit = (s[m] as u32 - '0' as u32) as i64;
        if v > (i64::MAX - digit) / 10 {
            proof {
                lemma_digits_value_prefix(d, m - j + 1);
                let vi = v as int;
                let di = digit as int;
                assert(10 * vi + di > i64::MAX) by (nonlinear_arith)
                    requires
                        vi > (i64::MAX - di) / 10,
                        0 <= di <= 9,
                ;
                let sub = d.subrange(0, m - j + 1);
                assert(sub.last() == s@[m as int]);
                assert(di == s@[m as int] as int - '0' as int);
                assert(sub.drop_last() =~= d.subrange(0, m - j));
                assert(digits_value(sub) == 10 * vi + di);
            }
            return false;
        }
        v = v * 10 + digit;
        m = m + 1;
    }
    assert(d.subrange(0, e - j) =~= d);
    true
}

/// The position after the token that starts at `j`, and whether it is the end-of-file token.
fn scan_extent_at(s: &[char], j: usize) -> (r: (usize, bool))
    requires
        j <= s@.len(),
    ensures
        r.0 == scan_at(s@, j as int).next,
        r.1 == (scan_at(s@, j as int).kind is EndOfFile),
{
    proof {
        lemma_scan_next_bounds(s@, j as int);
    }
    if j >= s.len() {
        return (j, true);
    }
    let c = s[j];
    if char_in_class(c, CharClass::Digit) {
        (run_end_at(s, j, CharClass::Digit), false)
    } else if char_in_class(c, CharClass::OpChar) {
        let r = run_end_at(s, j, CharClass::OpChar);
        proof {
            lemma_run_end_bounds(s@, j as int, CharClass::OpChar);
        }
        let mut k = r;
        while k > j
            invariant
                j <= k <= r <= s@.len(),
                r == run_end(s@, j as int, CharClass::OpChar),
                longest_op(s@, j as int, r as int) == longest_op(s@, j as int, k as int),
            decreases k - j,
        {
            if Operator::from_chars(s, j, k).is_some() {
                return (k, false);
            }
            k = k - 1;
        }
        (j, false)
    } else if Delimiter::from_char(c).is_some() {
        (j + 1, false)
    } else if char_in_class(c, CharClass::IdentStart) {
        (run_end_at(s, j, CharClass::IdentChar), false)
    } else {
        (j + 1, false)
    }
}

/// Whether lexing the whole source reaches its end: no block comment is left open,
/// every integer literal fits in an `i64`, and no operator characters are left that
/// spell no operator (the lexer would stop moving there).
pub fn lexes_completely(source: &[char]) -> (r: bool)
    ensures
        r == lex_ok(source@, 0),
{
    let mut i: usize = 0;
    loop
        invariant
            i <= source@.len(),
            lex_ok(source@, i as int) == lex_ok(source@, 0),
        decreases source@.len() - i,
    {
        let j = match trivia_end_at(source, i) {
            Some(j) => j,
            None => {
                return false;
            },
        };
        proof {
            lemma_skip_trivia_bounds(source@, i as int);
            lemma_scan_next_bounds(source@, j as int);
        }
        if !numeral_fits_at(source, j) {
            return false;
        }
        let (next, eof) = scan_extent_at(source, j);
        let k = match trivia_end_at(source, next) {
            Some(k) => k,
            None => {
                return false;
            },
        };
        proof {
            lemma_skip_trivia_bounds(source@, next as int);
        }
        if eof {
            return true;
        }
        if k <= i {
            return false;
        }
        i = k;
    }
}

} // verus!
