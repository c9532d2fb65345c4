use vstd::prelude::*;
use core::cmp::Ordering;

use crate::text::{nat_text, push_nat, push_str};

verus! {

/// A position in a source file: 1-based line and column. Line or column 0 stands for
/// "no position" (a temporary location).
#[derive(Clone, Copy, PartialEq, Eq, Structural, Debug)]
pub struct Location {
    pub line: u32,
    pub col: u32,
}

/// A range of positions, both ends inclusive.
#[derive(Clone, Copy, PartialEq, Eq, Structural, Debug)]
pub struct LocationRange {
    pub start: Location,
    pub end: Location,
}

/// A value tagged with the source range it came from.
#[derive(Clone, Copy, Debug)]
pub struct Located<T>(pub T, pub LocationRange);

/// Anything that knows the source range it spans.
pub trait Locatable {
    fn get_location(&self) -> LocationRange;
}

/// Lexicographic order on positions: by line, then by column.
pub open spec fn loc_lt(a: Location, b: Location) -> bool {
    a.line < b.line || (a.line == b.line && a.col < b.col)
}

pub open spec fn loc_le(a: Location, b: Location) -> bool {
    loc_lt(a, b) || a == b
}

pub open spec fn loc_min(a: Location, b: Location) -> Location {
    if loc_le(a, b) { a } else { b }
}

pub open spec fn loc_max(a: Location, b: Location) -> Location {
    if loc_le(a, b) { b } else { a }
}

pub open spec fn loc_cmp(a: Location, b: Location) -> Ordering {
    if loc_lt(a, b) {
        Ordering::Less
    } else if loc_lt(b, a) {
        Ordering::Greater
    } else {
        Ordering::Equal
    }
}

/// The interval order on ranges: a range is before another when it ends before the other
/// starts; ranges that overlap without being equal are unordered.
pub open spec fn range_cmp(a: LocationRange, b: LocationRange) -> Option<Ordering> {
    if loc_lt(a.end, b.start) {
        Some(Ordering::Less)
    } else if loc_lt(b.end, a.start) {
        Some(Ordering::Greater)
    } else if a.start == b.start && a.end == b.end {
        Some(Ordering::Equal)
    } else {
        None
    }
}

pub open spec fn spec_front(l: Location) -> Location {
    Location { line: l.line, col: if l.col >= 1 { (l.col - 1) as u32 } else { 0 } }
}

pub open spec fn spec_combine(a: LocationRange, b: LocationRange) -> LocationRange {
    LocationRange { start: loc_min(a.start, b.start), end: loc_max(a.end, b.end) }
}

pub open spec fn point_range(l: Location) -> LocationRange {
    LocationRange { start: l, end: l }
}

pub open spec fn default_range() -> LocationRange {
    LocationRange { start: Location { line: 0, col: 0 }, end: Location { line: 0, col: 0 } }
}

impl<T> Located<T> {
    /// A value with the default (empty) location.
    pub fn new_temporary(v: T) -> (r: Self)
        ensures
            r.0 == v,
            r.1 == default_range(),
    {
        Located(v, LocationRange::default())
    }
}

impl Default for Location {
    fn default() -> (r: Self)
        ensures
            r == (Location { line: 0, col: 0 }),
    {
        Location { line: 0, col: 0 }
    }
}

impl Default for LocationRange {
    fn default() -> (r: Self)
        ensures
            r == default_range(),
    {
        LocationRange { start: Location::default(), end: Location::default() }
    }
}

impl Location {
    /// The position one column to the left, stopping at column 0.
    pub fn front(&self) -> (r: Self)
        ensures
            r == spec_front(*self),
    {
        Location { line: self.line, col: if self.col >= 1 { self.col - 1 } else { 0 } }
    }

    /// The position one column to the right.
    pub fn next(&self) -> (r: Self)
        requires
            self.col < u32::MAX,
        ensures
            r == (Location { line: self.line, col: (self.col + 1) as u32 }),
    {
        Location { line: self.line, col: self.col + 1 }
    }

    /// The range that starts and ends at this position.
    pub fn into_range(self) -> (r: LocationRange)
        ensures
            r == point_range(self),
    {
        LocationRange { start: self, end: self }
    }

    pub fn lt(&self, other: &Location) -> (r: bool)
        ensures
            r == loc_lt(*self, *other),
    {
        self.line < other.line || (self.line == other.line && self.col < other.col)
    }

    /// Lexicographic comparison by line, then column.
    pub fn compare(&self, other: &Location) -> (r: Ordering)
        ensures
            r == loc_cmp(*self, *other),
    {
        if self.lt(other) {
            Ordering::Less
        } else if other.lt(self) {
            Ordering::Greater
        } else {
            Ordering::Equal
        }
    }
}

impl LocationRange {
    /// The position just after the end of the range.
    pub fn next(&self) -> (r: Location)
        requires
            self.end.col < u32::MAX,
        ensures
            r == (Location { line: self.end.line, col: (self.end.col + 1) as u32 }),
    {
        self.end.next()
    }

    /// The smallest range that covers both ranges' starts and ends.
    pub fn combine(left: Self, right: Self) -> (r: Self)
        ensures
            r == spec_combine(left, right),
    {
        let start = if left.start.lt(&right.start) || left.start == right.start {
            left.start
        } else {
            right.start
        };
        let end = if left.end.lt(&right.end) || left.end == right.end {
            right.end
        } else {
            left.end
        };
        LocationRange { start, end }
    }

    /// The interval order: `Less` when this range ends before the other starts,
    /// `Greater` in the opposite case, `Equal` for equal ranges, `None` otherwise.
    pub fn partial_compare(&self, other: &LocationRange) -> (r: Option<Ordering>)
        ensures
            r == range_cmp(*self, *other),
    {
        if self.end.lt(&other.start) {
            Some(Ordering::Less)
        } else if other.end.lt(&self.start) {
            Some(Ordering::Greater)
        } else if self.start == other.start && self.end == other.end {
            Some(Ordering::Equal)
        } else {
            None
        }
    }
}

impl<T> Located<T> {
    /// Tags a value with a range.
    pub fn from_pair(value: (T, LocationRange)) -> (r: Self)
        ensures
            r.0 == value.0,
            r.1 == value.1,
    {
        Located(value.0, value.1)
    }
}

/// Position order is a strict total order.
pub proof fn lemma_loc_order_total(a: Location, b: Location, c: Location)
    ensures
        !loc_lt(a, a),
        loc_lt(a, b) ==> !loc_lt(b, a),
        loc_lt(a, b) || loc_lt(b, a) || a == b,
        loc_lt(a, b) && loc_lt(b, c) ==> loc_lt(a, c),
{
}

/// Combining ranges is commutative, associative and idempotent, and the result covers
/// the ends of both arguments.
pub proof fn lemma_combine_laws(a: LocationRange, b: LocationRange, c: LocationRange)
    ensures
        spec_combine(a, b) == spec_combine(b, a),
        spec_combine(spec_combine(a, b), c) == spec_combine(a, spec_combine(b, c)),
        spec_combine(a, a) == a,
        loc_le(spec_combine(a, b).start, a.start),
        loc_le(spec_combine(a, b).start, b.start),
        loc_le(a.end, spec_combine(a, b).end),
        loc_le(b.end, spec_combine(a, b).end),
{
}

/// Stepping one column back and then forward again returns to the same position,
/// for every position with a column of at least 1.
pub proof fn lemma_front_next(l: Location)
    requires
        l.col >= 1,
    ensures
        spec_front(l).col + 1 == l.col,
        spec_front(l).line == l.line,
{
}

/// The interval order is antisymmetric: swapping the arguments swaps `Less` and `Greater`.
pub proof fn lemma_range_cmp_flip(a: LocationRange, b: LocationRange)
    requires
        loc_le(a.start, a.end),
        loc_le(b.start, b.end),
    ensures
        range_cmp(a, b) == Some(Ordering::Less) <==> range_cmp(b, a) == Some(
            Ordering::Greater,
        ),
        range_cmp(a, b) == Some(Ordering::Equal) <==> a == b,
{
}

/// A position as error reports show it: `line:col`, or `-` for a position that is not in
/// the source (line or column 0).
pub open spec fn loc_text(l: Location) -> Seq<char> {
    if l.line == 0 || l.col == 0 {
        "-"@
    } else {
        nat_text(l.line as nat) + ":"@ + nat_text(l.col as nat)
    }
}

/// A range as error reports show it: `[start]` when it is one position, `[start-end]`
/// otherwise.
pub open spec fn range_text(r: LocationRange) -> Seq<char> {
    if r.start == r.end {
        "["@ + loc_text(r.start) + "]"@
    } else {
        "["@ + loc_text(r.start) + "-"@ + loc_text(r.end) + "]"@
    }
}

fn push_loc(s: &mut String, l: Location)
    ensures
        final(s)@ == old(s)@ + loc_text(l),
{
    if l.line == 0 || l.col == 0 {
        push_str(s, "-");
    } else {
        push_nat(s, l.line as u64);
        push_str(s, ":");
        push_nat(s, l.col as u64);
    }
    assert(s@ =~= old(s)@ + loc_text(l));
}

impl Location {
    /// The position as error reports show it (see `loc_text`).
    pub fn to_text(&self) -> (r: String)
        ensures
            r@ == loc_text(*self),
    {
        let mut s = String::new();
        push_loc(&mut s, *self);
        assert(s@ =~= loc_text(*self));
        s
    }
}

impl LocationRange {
    /// The range as error reports show it (see `range_text`).
    pub fn to_text(&self) -> (r: String)
        ensures
            r@ == range_text(*self),
    {
        let mut s = String::new();
        push_str(&mut s, "[");
        push_loc(&mut s, self.start);
        if self.start != self.end {
            push_str(&mut s, "-");
            push_loc(&mut s, self.end);
        }
        push_str(&mut s, "]");
        assert(s@ =~= range_text(*self));
        s
    }
}

} // verus!
