//! Tile coordinates.

use vstd::prelude::*;

use crate::decimal::{i16_value, parse_i16};
use crate::errors::CommandlineParsingErrors;
use crate::global_constants::{MAX_POINT_DIM, MIN_POINT_DIM};

verus! {

/// A tile of the grid, named by its column and row.
#[derive(Clone, Copy, PartialEq, Eq, Structural, PartialOrd, Ord, Debug, Hash)]
pub struct Point(pub i16, pub i16);

/// Whether the cell `(x, y)` names a tile of the grid.
pub open spec fn in_grid(x: int, y: int) -> bool {
    &&& MIN_POINT_DIM <= x < MAX_POINT_DIM
    &&& MIN_POINT_DIM <= y < MAX_POINT_DIM
}

impl Point {
    /// Whether this point names a tile of the grid.
    pub open spec fn is_tile(self) -> bool {
        in_grid(self.0 as int, self.1 as int)
    }

    /// Tests whether this point names a tile of the grid.
    pub fn in_range(&self) -> (inside: bool)
        ensures
            inside == self.is_tile(),
    {
        self.0 >= MIN_POINT_DIM && self.1 >= MIN_POINT_DIM && self.0 < MAX_POINT_DIM
            && self.1 < MAX_POINT_DIM
    }
}

/// Whether `c` is one of the characters that may surround a coordinate:
/// a bracket or a blank.
pub open spec fn is_padding(c: char) -> bool {
    c == '(' || c == ' ' || c == ')'
}

/// The index of the first comma of `s` at or after `from`; the length of
/// `s` if there is none.
pub open spec fn field_end(s: Seq<char>, from: int) -> int
    decreases s.len() - from,
{
    if from >= s.len() {
        s.len() as int
    } else if s[from] == ',' {
        from
    } else {
        field_end(s, from + 1)
    }
}

/// `s` without the padding at its start.
pub open spec fn trim_start(s: Seq<char>) -> Seq<char>
    decreases s.len(),
{
    if s.len() > 0 && is_padding(s[0]) {
        trim_start(s.drop_first())
    } else {
        s
    }
}

/// `s` without the padding at its end.
pub open spec fn trim_end(s: Seq<char>) -> Seq<char>
    decreases s.len(),
{
    if s.len() > 0 && is_padding(s.last()) {
        trim_end(s.drop_last())
    } else {
        s
    }
}

/// `s` without the padding at either end.
pub open spec fn trimmed(s: Seq<char>) -> Seq<char> {
    trim_end(trim_start(s))
}

/// The text before the first comma of `s`.
pub open spec fn first_field(s: Seq<char>) -> Seq<char> {
    s.subrange(0, field_end(s, 0))
}

/// The text between the first comma of `s` and the second, or the end;
/// `None` if `s` has no comma.
pub open spec fn second_field(s: Seq<char>) -> Option<Seq<char>> {
    let comma = field_end(s, 0);
    if comma >= s.len() {
        None
    } else {
        Some(s.subrange(comma + 1, field_end(s, comma + 1)))
    }
}

/// The point that `s` is read as: two numbers with a comma between them,
/// each with any brackets and blanks around it, as in `(3, -4)`. What
/// follows a second comma is not looked at.
pub open spec fn point_of_text(s: Seq<char>) -> Result<Point, CommandlineParsingErrors> {
    match second_field(s) {
        None => Err(
            CommandlineParsingErrors::IncorrectArgumentStructure(
                "Second number is not correctly structured. Structure should be '(x, y)'",
            ),
        ),
        Some(second) => match (i16_value(trimmed(first_field(s))), i16_value(trimmed(second))) {
            (Some(x), Some(y)) => Ok(Point(x, y)),
            _ => Err(
                CommandlineParsingErrors::IntegerParsing(
                    "First argument could not be converted to u16",
                ),
            ),
        },
    }
}

impl Point {
    /// Reads a point written as `(x, y)`.
    ///
    /// The text is cut at its commas. The first two pieces, stripped of the
    /// brackets and blanks around them, must each be an `i16` in decimal. A
    /// text without a comma is an `IncorrectArgumentStructure`; a piece
    /// that is no such number is an `IntegerParsing`.
    pub fn from_str(s: &str) -> (point: Result<Point, CommandlineParsingErrors>)
        ensures
            point == point_of_text(s@),
    {
        let n: usize = s.unicode_len();
        let comma: usize = find_comma(s, 0);
        if comma >= n {
            return Err(
                CommandlineParsingErrors::IncorrectArgumentStructure(
                    "Second number is not correctly structured. Structure should be '(x, y)'",
                ),
            );
        }
        let end: usize = find_comma(s, comma + 1);
        let first: (usize, usize) = trim_field(s, 0, comma);
        let second: (usize, usize) = trim_field(s, comma + 1, end);
        let x: Option<i16> = parse_i16(s.substring_char(first.0, first.1));
        let y: Option<i16> = parse_i16(s.substring_char(second.0, second.1));
        match (x, y) {
            (Some(x), Some(y)) => Ok(Point(x, y)),
            _ => Err(
                CommandlineParsingErrors::IntegerParsing(
                    "First argument could not be converted to u16",
                ),
            ),
        }
    }
}

/// Finds the first comma of `s` at or after `from`.
fn find_comma(s: &str, from: usize) -> (end: usize)
    requires
        from <= s@.len(),
    ensures
        end == field_end(s@, from as int),
        from <= end <= s@.len(),
{
    let n: usize = s.unicode_len();
    let mut i: usize = from;
    while i < n
        invariant
            n == s@.len(),
            from <= i <= n,
            field_end(s@, from as int) == field_end(s@, i as int),
        decreases n - i,
    {
        if s.get_char(i) == ',' {
            return i;
        }
        i = i + 1;
    }
    i
}

/// Finds where the text of `s` between `from` and `to` begins and ends once
/// the padding around it is left out.
fn trim_field(s: &str, from: usize, to: usize) -> (bounds: (usize, usize))
    requires
        from <= to <= s@.len(),
    ensures
        from <= bounds.0 <= bounds.1 <= to,
        s@.subrange(bounds.0 as int, bounds.1 as int) == trimmed(
            s@.subrange(from as int, to as int),
        ),
{
    let mut start: usize = from;
    while start < to && is_padding_char(s.get_char(start))
        invariant
            from <= start <= to <= s@.len(),
            trim_start(s@.subrange(from as int, to as int)) == trim_start(
                s@.subrange(start as int, to as int),
            ),
        decreases to - start,
    {
        proof {
            assert(s@.subrange(start as int, to as int).drop_first() =~= s@.subrange(
                start + 1,
                to as int,
            ));
        }
        start = start + 1;
    }
    let mut end: usize = to;
    while end > start && is_padding_char(s.get_char(end - 1))
        invariant
            start <= end <= to <= s@.len(),
            trim_end(s@.subrange(start as int, to as int)) == trim_end(
                s@.subrange(start as int, end as int),
            ),
        decreases end - start,
    {
        proof {
            assert(s@.subrange(start as int, end as int).drop_last() =~= s@.subrange(
                start as int,
                end - 1,
            ));
        }
        end = end - 1;
    }
    (start, end)
}

/// Tests whether `c` is a bracket or a blank.
fn is_padding_char(c: char) -> (padding: bool)
    ensures
        padding == is_padding(c),
{
    c == '(' || c == ' ' || c == ')'
}

} // verus!
