//! Primary codes: the cells of about 80 km.

use vstd::prelude::*;
use vstd::string::*;
use crate::Error;
use crate::gridsquare::arith::{
    div_floor,
    floor_div,
    lemma_floor_div_bounds,
    lemma_floor_div_unique,
};
use crate::gridsquare::code::{
    cell,
    cell_box,
    lemma_cell_holds,
    two_digit_value,
    two_digits,
    CodeText,
    GridSquareCode,
    Subdivide,
    LNG_ORIGIN,
    PRIMARY_LAT,
    PRIMARY_LNG,
};
use crate::gridsquare::lnglat::{LngLat, LngLatBox};
use crate::gridsquare::secondary::{lemma_secondaries, SecondaryCode};
use crate::gridsquare::text::{
    all_digits,
    digit_str,
    digit_value_at,
    has_digits,
    is_digit,
    lemma_text_value_step,
    text_value,
};

verus! {

/// A primary code: row `y` and column `x` of the grid of 80 km cells.
#[derive(Debug, Clone, Copy, PartialEq, Eq, Structural)]
pub struct PrimaryCode {
    /// "YY__"
    y: u8,
    /// "__XX"
    x: u8,
}

impl PrimaryCode {
    /// The row, 0 to 99.
    pub closed spec fn y1_spec(&self) -> u8 {
        self.y
    }

    /// The column, 0 to 99.
    pub closed spec fn x1_spec(&self) -> u8 {
        self.x
    }

    /// The row and the column are at most 99.
    #[verifier::type_invariant]
    spec fn inv(self) -> bool {
        self.y <= 99 && self.x <= 99
    }

    /// The primary code of row `y` and column `x`.
    pub closed spec fn of(y: int, x: int) -> PrimaryCode {
        PrimaryCode { y: y as u8, x: x as u8 }
    }

    /// The row and the column of `of(y, x)` are `y` and `x`.
    pub proof fn lemma_of(y: int, x: int)
        requires
            0 <= y <= 255,
            0 <= x <= 255,
        ensures
            Self::of(y, x).y1() == y,
            Self::of(y, x).x1() == x,
    {
    }

    /// A primary code is the code of its row and its column.
    pub proof fn lemma_by_digits(self)
        ensures
            self == Self::of(self.y1() as int, self.x1() as int),
    {
    }

    /// The primary code of row `y` and column `x`.
    pub(crate) fn at(y: u8, x: u8) -> (r: Self)
        requires
            y <= 99,
            x <= 99,
        ensures
            r == Self::of(y as int, x as int),
    {
        PrimaryCode { y, x }
    }

    /// What `from_int` returns: the upper two digits are the row, the lower
    /// two the column; a shorter number reads as if zeros stood before it.
    pub open spec fn from_int_spec(code: int) -> Result<PrimaryCode, Error> {
        if 0 <= code <= 9999 {
            Ok(Self::of(code / 100, code % 100))
        } else {
            Err(Error::InvalidCode)
        }
    }

    /// Reads a primary code from its number.
    pub fn from_int(code: u16) -> (r: Result<Self, Error>)
        ensures
            r == Self::from_int_spec(code as int),
    {
        if code > 9999 {
            return Err(Error::InvalidCode);
        }
        Ok(PrimaryCode { y: (code / 100) as u8, x: (code % 100) as u8 })
    }

    /// What `from_str` returns: a code for exactly four digits.
    pub open spec fn parse_spec(s: Seq<char>) -> Result<PrimaryCode, Error> {
        if s.len() == 4 && all_digits(s) {
            Ok(Self::of(two_digit_value(s, 0), two_digit_value(s, 2)))
        } else {
            Err(Error::InvalidCode)
        }
    }

    /// Reads a primary code from its four digits.
    pub fn from_str(s: &str) -> (r: Result<Self, Error>)
        ensures
            r == Self::parse_spec(s@),
    {
        if !has_digits(s, 4) {
            return Err(Error::InvalidCode);
        }
        let y: u8 = digit_value_at(s, 0) * 10 + digit_value_at(s, 1);
        let x: u8 = digit_value_at(s, 2) * 10 + digit_value_at(s, 3);
        Ok(PrimaryCode { y, x })
    }

    /// What `from_lnglat` returns: the cell that holds the point, where the
    /// grid has one.
    pub open spec fn from_lnglat_spec(lnglat: LngLat) -> Result<PrimaryCode, Error> {
        let y = floor_div(lnglat.vlat as int, PRIMARY_LAT as int);
        let x = floor_div(lnglat.vlng as int, PRIMARY_LNG as int) - LNG_ORIGIN;
        if 0 <= y < 100 && 0 <= x < 100 {
            Ok(Self::of(y, x))
        } else {
            Err(Error::OutOfBounds)
        }
    }

    /// Finds the primary cell that holds a point.
    pub fn from_lnglat(lnglat: LngLat) -> (r: Result<Self, Error>)
        ensures
            r == Self::from_lnglat_spec(lnglat),
    {
        let y: i64 = div_floor(lnglat.vlat, PRIMARY_LAT);
        let x: i64 = div_floor(lnglat.vlng, PRIMARY_LNG);
        if y < 0 || y >= 100 || x < LNG_ORIGIN || x >= LNG_ORIGIN + 100 {
            return Err(Error::OutOfBounds);
        }
        Ok(PrimaryCode { y: y as u8, x: (x - LNG_ORIGIN) as u8 })
    }

    /// The row, 0 to 99.
    #[verifier::when_used_as_spec(y1_spec)]
    pub fn y1(&self) -> (r: u8)
        ensures
            r == self.y1_spec(),
            r <= 99,
    {
        proof {
            use_type_invariant(self);
        }
        self.y
    }

    /// The column, 0 to 99.
    #[verifier::when_used_as_spec(x1_spec)]
    pub fn x1(&self) -> (r: u8)
        ensures
            r == self.x1_spec(),
            r <= 99,
    {
        proof {
            use_type_invariant(self);
        }
        self.x
    }

    /// The 64 secondary codes below this one, row by row.
    pub open spec fn secondaries(&self) -> Seq<SecondaryCode> {
        Seq::new(64, |i: int| SecondaryCode::of(*self, i / 8, i % 8))
    }

    /// Lists the 64 secondary codes below this one, row by row.
    pub fn iter_secondary(&self) -> (r: Vec<SecondaryCode>)
        ensures
            r@ == self.secondaries(),
    {
        let mut v: Vec<SecondaryCode> = Vec::new();
        let mut y2: u8 = 0;
        while y2 < 8
            invariant
                y2 <= 8,
                v@.len() == y2 * 8,
                forall|i: int|
                    0 <= i < v@.len() ==> v@[i] == SecondaryCode::of(*self, i / 8, i % 8),
            decreases 8 - y2,
        {
            let mut x2: u8 = 0;
            while x2 < 8
                invariant
                    y2 < 8,
                    x2 <= 8,
                    v@.len() == y2 * 8 + x2,
                    forall|i: int|
                        0 <= i < v@.len() ==> v@[i] == SecondaryCode::of(*self, i / 8, i % 8),
                decreases 8 - x2,
            {
                v.push(SecondaryCode::at(*self, y2, x2));
                x2 = x2 + 1;
            }
            y2 = y2 + 1;
        }
        assert(v@ =~= self.secondaries());
        v
    }

    /// The column of the cell in the grid of primary cells that starts at
    /// longitude zero.
    pub open spec fn column(&self) -> int {
        self.x1() + LNG_ORIGIN
    }

    /// The row of the cell in the grid of primary cells that starts at
    /// latitude zero.
    pub open spec fn row(&self) -> int {
        self.y1() as int
    }
}

impl GridSquareCode for PrimaryCode {
    open spec fn wf(&self) -> bool {
        self.y1() <= 99 && self.x1() <= 99
    }

    open spec fn patch_spec(&self) -> LngLatBox {
        cell(
            self.column() * PRIMARY_LNG,
            self.row() * PRIMARY_LAT,
            PRIMARY_LNG as int,
            PRIMARY_LAT as int,
        )
    }

    proof fn lemma_patch_wf(&self) {
        broadcast use LngLatBox::lemma_corners;
    }

    fn patch(&self) -> (r: LngLatBox) {
        proof {
            use_type_invariant(self);
        }
        cell_box(
            (self.x as i64 + LNG_ORIGIN) * PRIMARY_LNG,
            self.y as i64 * PRIMARY_LAT,
            PRIMARY_LNG,
            PRIMARY_LAT,
        )
    }
}

impl CodeText for PrimaryCode {
    open spec fn digits(&self) -> Seq<char> {
        two_digits(self.y1() as int) + two_digits(self.x1() as int)
    }

    fn to_string(&self) -> (s: String) {
        proof {
            use_type_invariant(self);
        }
        let mut s = String::new();
        s.append(digit_str(self.y / 10));
        s.append(digit_str(self.y % 10));
        s.append(digit_str(self.x / 10));
        s.append(digit_str(self.x % 10));
        assert(s@ =~= self.digits());
        s
    }
}

/// A point for which the primary grid has a cell has no negative coordinate.
pub proof fn lemma_in_grid_nonnegative(lnglat: LngLat)
    requires
        PrimaryCode::from_lnglat_spec(lnglat) is Ok,
    ensures
        0 <= lnglat.vlat,
        0 <= lnglat.vlng,
        0 <= floor_div(lnglat.vlat as int, PRIMARY_LAT as int) < 100,
        0 <= floor_div(lnglat.vlng as int, PRIMARY_LNG as int) - LNG_ORIGIN < 100,
{
    lemma_floor_div_bounds(lnglat.vlat as int, PRIMARY_LAT as int);
    lemma_floor_div_bounds(lnglat.vlng as int, PRIMARY_LNG as int);
}

/// A text is a primary code exactly when it is four digits.
pub proof fn lemma_parse_primary(s: Seq<char>)
    ensures
        PrimaryCode::parse_spec(s) is Ok <==> s.len() == 4 && all_digits(s),
        PrimaryCode::parse_spec(s) is Err ==> PrimaryCode::parse_spec(s) == Err::<
            PrimaryCode,
            Error,
        >(Error::InvalidCode),
{
}

/// The column and the row of a well-formed primary code lie in the grid.
pub proof fn lemma_primary_position(c: PrimaryCode)
    requires
        c.wf(),
    ensures
        0 <= c.row() < 100,
        100 <= c.column() < 200,
{
}

/// The primary code found for a point is well formed and its cell holds the
/// point; and a well-formed primary code whose cell holds a point is the one
/// found for it.
pub proof fn lemma_primary_of_point(c: PrimaryCode, lnglat: LngLat)
    requires
        c.wf(),
    ensures
        PrimaryCode::from_lnglat_spec(lnglat) == Ok::<PrimaryCode, Error>(c)
            <==> c.patch_spec().contains_point(lnglat),
        PrimaryCode::from_lnglat_spec(lnglat) matches Ok(found) ==> found.wf(),
{
    lemma_floor_div_bounds(lnglat.vlat as int, PRIMARY_LAT as int);
    lemma_floor_div_bounds(lnglat.vlng as int, PRIMARY_LNG as int);
    c.lemma_by_digits();
    lemma_cell_holds(
        c.column() * PRIMARY_LNG,
        c.row() * PRIMARY_LAT,
        PRIMARY_LNG as int,
        PRIMARY_LAT as int,
        lnglat,
    );
    if c.patch_spec().contains_point(lnglat) {
        lemma_floor_div_unique(lnglat.vlat as int, PRIMARY_LAT as int, c.row());
        lemma_floor_div_unique(lnglat.vlng as int, PRIMARY_LNG as int, c.column());
    }
}

/// Reading the digits that a primary code is written as gives the code back.
pub proof fn lemma_primary_text(c: PrimaryCode)
    requires
        c.wf(),
    ensures
        c.digits().len() == 4,
        PrimaryCode::parse_spec(c.digits()) == Ok::<PrimaryCode, Error>(c),
{
    c.lemma_by_digits();
}

/// Writing out the primary code that was read from a text gives the text back.
pub proof fn lemma_primary_parse(s: Seq<char>)
    requires
        PrimaryCode::parse_spec(s) is Ok,
    ensures
        PrimaryCode::parse_spec(s)->Ok_0.wf(),
        PrimaryCode::parse_spec(s)->Ok_0.digits() == s,
{
    let c = PrimaryCode::parse_spec(s)->Ok_0;
    assert(is_digit(s[0]) && is_digit(s[1]) && is_digit(s[2]) && is_digit(s[3]));
    PrimaryCode::lemma_of(two_digit_value(s, 0), two_digit_value(s, 2));
    assert(c.digits() =~= s);
}

impl Subdivide for PrimaryCode {
    type Child = SecondaryCode;

    open spec fn children_spec(&self) -> Seq<SecondaryCode> {
        self.secondaries()
    }

    proof fn lemma_child_within(&self, i: int) {
        lemma_secondaries(*self, i);
    }

    fn children(&self) -> (r: Vec<SecondaryCode>) {
        self.iter_secondary()
    }
}

/// The number of a primary code is what its four digits stand for: reading
/// the number gives what reading the digits gives.
pub proof fn lemma_primary_number(s: Seq<char>)
    requires
        PrimaryCode::parse_spec(s) is Ok,
    ensures
        PrimaryCode::from_int_spec(text_value(s)) == PrimaryCode::parse_spec(s),
        text_value(s) == two_digit_value(s, 0) * 100 + two_digit_value(s, 2),
{
    lemma_text_value_step(s, 1);
    lemma_text_value_step(s, 2);
    lemma_text_value_step(s, 3);
    lemma_text_value_step(s, 4);
    assert(is_digit(s[0]) && is_digit(s[1]) && is_digit(s[2]) && is_digit(s[3]));
}

impl core::str::FromStr for PrimaryCode {
    type Err = Error;

    /// Reads the code as `PrimaryCode::from_str` does.
    fn from_str(s: &str) -> (r: Result<Self, Error>)
        ensures
            r == PrimaryCode::parse_spec(s@),
    {
        PrimaryCode::from_str(s)
    }
}

} // verus!
