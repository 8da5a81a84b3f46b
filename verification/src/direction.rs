//! Movement intent and its lossy numeric wire encoding.

use vstd::prelude::*;

verus! {

/// Current movement intent: four independent flags.  On the wire a direction
/// travels as a single number (`0.0` up, `1.0` down, `2.0` left, `3.0` right,
/// held here in thousandths), and decoding collapses any number into one of
/// the four pure directions by a tolerance band of one unit around each code,
/// with `right` absorbing everything else.
#[derive(Clone, Copy, Debug, PartialEq, Eq, Structural)]
pub struct Direction {
    pub up: bool,
    pub down: bool,
    pub left: bool,
    pub right: bool,
}

/// The numeric code a direction is transmitted as, in thousandths.  The first
/// set flag in the order up, down, left wins; with none of the three set the
/// code is `right`'s.
pub open spec fn spec_dir_code(d: Direction) -> i64 {
    if d.up {
        0
    } else if d.down {
        1000
    } else if d.left {
        2000
    } else {
        3000
    }
}

/// The direction a received code collapses to.  Exactly zero is `up`; within
/// one unit of `1.0` is `down`; within one unit of `2.0` is `left`; everything
/// else, negative and out-of-range codes included, is `right`.
pub open spec fn spec_dir_of_code(c: int) -> Direction {
    if c == 0 {
        Direction { up: true, down: false, left: false, right: false }
    } else if -1000 < c - 1000 < 1000 {
        Direction { up: false, down: true, left: false, right: false }
    } else if -1000 < c - 2000 < 1000 {
        Direction { up: false, down: false, left: true, right: false }
    } else {
        Direction { up: false, down: false, left: false, right: true }
    }
}

/// A direction with exactly one flag set.
pub open spec fn is_cardinal(d: Direction) -> bool {
    match (d.up, d.down, d.left, d.right) {
        (true, false, false, false) => true,
        (false, true, false, false) => true,
        (false, false, true, false) => true,
        (false, false, false, true) => true,
        _ => false,
    }
}

impl Direction {
    /// Encodes this direction for transmission.
    pub fn to_code_milli(self) -> (c: i64)
        ensures
            c == spec_dir_code(self),
    {
        if self.up {
            0
        } else if self.down {
            1000
        } else if self.left {
            2000
        } else {
            3000
        }
    }

    /// Decodes a received code, collapsing it into one of the four pure
    /// directions.
    pub fn from_code_milli(c: i64) -> (d: Direction)
        ensures
            d == spec_dir_of_code(c as int),
    {
        if c == 0 {
            Direction { up: true, down: false, left: false, right: false }
        } else if 0 < c && c < 2000 {
            Direction { up: false, down: true, left: false, right: false }
        } else if 1000 < c && c < 3000 {
            Direction { up: false, down: false, left: true, right: false }
        } else {
            Direction { up: false, down: false, left: false, right: true }
        }
    }
}

impl Default for Direction {
    /// A direction with no flag set: standing still.
    fn default() -> (d: Direction)
        ensures
            d == (Direction { up: false, down: false, left: false, right: false }),
    {
        Direction { up: false, down: false, left: false, right: false }
    }
}

/// Decoding any code, however malformed, yields a pure direction: exactly one
/// flag is set.
pub proof fn lemma_decode_is_cardinal(c: int)
    ensures
        is_cardinal(spec_dir_of_code(c)),
{
}

/// Re-encoding the direction a whole-unit code decodes to reproduces that
/// code: the four codes actually transmitted survive the tolerance bands.
pub proof fn lemma_dir_code_round_trip(c: int)
    requires
        c == 0 || c == 1000 || c == 2000 || c == 3000,
    ensures
        spec_dir_code(spec_dir_of_code(c)) == c,
{
}

/// Encoding any direction and decoding the result lands on a pure direction
/// that keeps the flag the encoding chose.
pub proof fn lemma_encode_decode(d: Direction)
    ensures
        is_cardinal(spec_dir_of_code(spec_dir_code(d) as int)),
        spec_dir_code(spec_dir_of_code(spec_dir_code(d) as int)) == spec_dir_code(d),
{
}

} // verus!
