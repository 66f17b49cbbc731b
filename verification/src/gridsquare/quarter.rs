//! Quarter codes: the quadrants, of about 250 m, of a half cell.

use vstd::prelude::*;
use vstd::string::*;
use crate::Error;
use crate::gridsquare::code::{
    cell,
    lemma_cell_holds,
    lemma_prefix_digits,
    lemma_steps_of_point,
    CodeText,
    GridSquareCode,
    HALF_LAT,
    HALF_LNG,
    QUARTER_LAT,
    QUARTER_LNG,
};
use crate::gridsquare::half::{
    lemma_half_number,
    lemma_half_of_point,
    lemma_half_parse,
    lemma_half_position,
    lemma_half_text,
    lemma_parse_half,
};
use crate::gridsquare::lnglat::LngLat;
use crate::gridsquare::primary::lemma_in_grid_nonnegative;
use crate::gridsquare::quad::{
    lemma_quadrant_of_cell,
    quadrant,
    quadrant_at,
    HalfCode,
    Quad,
    QuarterCode,
};
use crate::gridsquare::text::{
    all_digits,
    digit_value,
    digit_value_at,
    has_digits,
    is_digit,
    lemma_text_value_step,
    text_value,
};

verus! {

impl QuarterCode {
    /// The column of the cell in the grid of quarter cells that starts at
    /// longitude zero.
    pub open spec fn column(&self) -> int {
        self.parent_spec().column() * 2 + (self.quad() - 1) % 2
    }

    /// The row of the cell in the grid of quarter cells that starts at latitude
    /// zero.
    pub open spec fn row(&self) -> int {
        self.parent_spec().row() * 2 + (self.quad() - 1) / 2
    }

    /// What `from_int` returns: the last digit is the quadrant, 1 to 4, the
    /// digits before it a half code.
    pub open spec fn from_int_spec(code: int) -> Result<QuarterCode, Error> {
        if 1 <= code % 10 <= 4 {
            match HalfCode::from_int_spec(code / 10) {
                Ok(parent) => Ok(Quad::of(parent, code % 10)),
                Err(e) => Err(e),
            }
        } else {
            Err(Error::InvalidCode)
        }
    }

    /// Reads a quarter code from its number.
    pub fn from_int(code: u64) -> (r: Result<Self, Error>)
        ensures
            r == Self::from_int_spec(code as int),
    {
        let quad: u8 = (code % 10) as u8;
        if quad < 1 || quad > 4 {
            return Err(Error::InvalidCode);
        }
        if code / 10 > 0xffff_ffff {
            return Err(Error::InvalidCode);
        }
        match HalfCode::from_int((code / 10) as u32) {
            Ok(parent) => Ok(Quad::new(parent, quad)),
            Err(e) => Err(e),
        }
    }

    /// What `from_str` returns: a code for exactly ten digits of which the
    /// last is a quadrant, 1 to 4, and the others a half code.
    pub open spec fn parse_spec(s: Seq<char>) -> Result<QuarterCode, Error> {
        if s.len() == 10 && is_digit(s[9]) && 1 <= digit_value(s[9]) <= 4 {
            match HalfCode::parse_spec(s.subrange(0, 9)) {
                Ok(parent) => Ok(Quad::of(parent, digit_value(s[9]))),
                Err(e) => Err(e),
            }
        } else {
            Err(Error::InvalidCode)
        }
    }

    /// Reads a quarter code from its ten digits.
    pub fn from_str(s: &str) -> (r: Result<Self, Error>)
        ensures
            r == Self::parse_spec(s@),
    {
        if !has_digits(s, 10) {
            proof {
                lemma_parse_quarter(s@);
            }
            return Err(Error::InvalidCode);
        }
        let quad: u8 = digit_value_at(s, 9);
        if quad < 1 || quad > 4 {
            return Err(Error::InvalidCode);
        }
        match HalfCode::from_str(s.substring_ascii(0, 9)) {
            Ok(parent) => Ok(Quad::new(parent, quad)),
            Err(e) => Err(e),
        }
    }

    /// What `from_lnglat` returns: the cell that holds the point, where the
    /// primary grid has one.
    pub open spec fn from_lnglat_spec(lnglat: LngLat) -> Result<QuarterCode, Error> {
        match HalfCode::from_lnglat_spec(lnglat) {
            Ok(parent) => Ok(
                Quad::of(parent, quadrant_at(lnglat, QUARTER_LNG as int, QUARTER_LAT as int)),
            ),
            Err(e) => Err(e),
        }
    }

    /// Finds the quarter cell that holds a point.
    pub fn from_lnglat(lnglat: LngLat) -> (r: Result<Self, Error>)
        ensures
            r == Self::from_lnglat_spec(lnglat),
    {
        match HalfCode::from_lnglat(lnglat) {
            Ok(parent) => {
                proof {
                    lemma_in_grid_nonnegative(lnglat);
                }
                let quad: u8 = quadrant(lnglat, QUARTER_LNG, QUARTER_LAT);
                Ok(Quad::new(parent, quad))
            },
            Err(e) => Err(e),
        }
    }

    /// The row of the primary cell, 0 to 99.
    pub fn y1(&self) -> (r: u8)
        ensures
            r == self.parent_spec().parent_spec().y1(),
    {
        self.parent().y1()
    }

    /// The column of the primary cell, 0 to 99.
    pub fn x1(&self) -> (r: u8)
        ensures
            r == self.parent_spec().parent_spec().x1(),
    {
        self.parent().x1()
    }

    /// The row within the primary cell, 0 to 7.
    pub fn y2(&self) -> (r: u8)
        ensures
            r == self.parent_spec().parent_spec().y2(),
    {
        self.parent().y2()
    }

    /// The column within the primary cell, 0 to 7.
    pub fn x2(&self) -> (r: u8)
        ensures
            r == self.parent_spec().parent_spec().x2(),
    {
        self.parent().x2()
    }

    /// The row within the secondary cell, 0 to 9.
    pub fn y3(&self) -> (r: u8)
        ensures
            r == self.parent_spec().parent_spec().y3(),
    {
        self.parent().y3()
    }

    /// The column within the secondary cell, 0 to 9.
    pub fn x3(&self) -> (r: u8)
        ensures
            r == self.parent_spec().parent_spec().x3(),
    {
        self.parent().x3()
    }

    /// The quadrant of the standard cell, 1 to 4.
    pub fn quad1(&self) -> (r: u8)
        ensures
            r == self.parent_spec().quad(),
    {
        self.parent().quad1()
    }

    /// The quadrant of the half cell, 1 to 4.
    pub fn quad2(&self) -> (r: u8)
        ensures
            r == self.quad(),
    {
        self.quad()
    }
}

/// A text is a quarter code exactly when it is ten digits of which the
/// fifth and the sixth are at most 6 and the last two are 1 to 4.
pub proof fn lemma_parse_quarter(s: Seq<char>)
    ensures
        QuarterCode::parse_spec(s) is Ok <==> s.len() == 10 && all_digits(s) && digit_value(s[4])
            < 7 && digit_value(s[5]) < 7 && 1 <= digit_value(s[8]) <= 4 && 1 <= digit_value(s[9])
            <= 4,
        QuarterCode::parse_spec(s) is Err ==> QuarterCode::parse_spec(s) == Err::<
            QuarterCode,
            Error,
        >(Error::InvalidCode),
{
    let t = s.subrange(0, 9);
    lemma_parse_half(t);
    lemma_prefix_digits(s, 9);
}

/// The bounding box of a quarter code is the cell at its column and its row
/// in the grid of quarter cells.
pub proof fn lemma_quarter_position(c: QuarterCode)
    requires
        c.wf(),
    ensures
        0 <= c.row() < 32000,
        32000 <= c.column() < 64000,
        c.patch_spec() == cell(
            c.column() * QUARTER_LNG,
            c.row() * QUARTER_LAT,
            QUARTER_LNG as int,
            QUARTER_LAT as int,
        ),
{
    let p = c.parent_spec();
    lemma_half_position(p);
    lemma_quadrant_of_cell(
        p.column() * HALF_LNG,
        p.row() * HALF_LAT,
        HALF_LNG as int,
        HALF_LAT as int,
        c.quad() as int,
    );
}

/// The quarter code found for a point is well formed and its cell holds the
/// point; and a well-formed quarter code whose cell holds a point is the one
/// found for it.
pub proof fn lemma_quarter_of_point(c: QuarterCode, lnglat: LngLat)
    requires
        c.wf(),
    ensures
        QuarterCode::from_lnglat_spec(lnglat) == Ok::<QuarterCode, Error>(c)
            <==> c.patch_spec().contains_point(lnglat),
        QuarterCode::from_lnglat_spec(lnglat) matches Ok(found) ==> found.wf(),
{
    let p = c.parent_spec();
    c.lemma_by_digits();
    lemma_half_of_point(p, lnglat);
    lemma_quarter_position(c);
    lemma_half_position(p);
    lemma_cell_holds(
        c.column() * QUARTER_LNG,
        c.row() * QUARTER_LAT,
        QUARTER_LNG as int,
        QUARTER_LAT as int,
        lnglat,
    );
    lemma_cell_holds(
        p.column() * HALF_LNG,
        p.row() * HALF_LAT,
        HALF_LNG as int,
        HALF_LAT as int,
        lnglat,
    );
    if let Ok(h) = HalfCode::from_lnglat_spec(lnglat) {
        lemma_half_of_point(h, lnglat);
        lemma_half_position(h);
        lemma_cell_holds(
            h.column() * HALF_LNG,
            h.row() * HALF_LAT,
            HALF_LNG as int,
            HALF_LAT as int,
            lnglat,
        );
        lemma_steps_of_point(
            lnglat,
            h.column(),
            h.row(),
            QUARTER_LNG as int,
            QUARTER_LAT as int,
            2,
            (c.quad() - 1) % 2,
            (c.quad() - 1) / 2,
        );
        Quad::<HalfCode>::lemma_of(h, quadrant_at(lnglat, QUARTER_LNG as int, QUARTER_LAT as int));
    }
}

/// Reading the digits that a quarter code is written as gives the code back,
/// unless the row or the column of its secondary code is 7.
pub proof fn lemma_quarter_text(c: QuarterCode)
    requires
        c.wf(),
    ensures
        c.digits().len() == 10,
        c.parent_spec().parent_spec().y2() <= 6 && c.parent_spec().parent_spec().x2() <= 6
            ==> QuarterCode::parse_spec(c.digits()) == Ok::<QuarterCode, Error>(c),
        c.parent_spec().parent_spec().y2() == 7 || c.parent_spec().parent_spec().x2() == 7
            ==> QuarterCode::parse_spec(c.digits()) == Err::<QuarterCode, Error>(
            Error::InvalidCode,
        ),
{
    c.lemma_by_digits();
    lemma_half_text(c.parent_spec());
    assert(c.digits().subrange(0, 9) =~= c.parent_spec().digits());
}

/// Writing out the quarter code that was read from a text gives the text back.
pub proof fn lemma_quarter_parse(s: Seq<char>)
    requires
        QuarterCode::parse_spec(s) is Ok,
    ensures
        QuarterCode::parse_spec(s)->Ok_0.wf(),
        QuarterCode::parse_spec(s)->Ok_0.digits() == s,
{
    let c = QuarterCode::parse_spec(s)->Ok_0;
    let t = s.subrange(0, 9);
    lemma_half_parse(t);
    Quad::<HalfCode>::lemma_of(HalfCode::parse_spec(t)->Ok_0, digit_value(s[9]));
    assert(c.digits() =~= s);
}

/// The number of a quarter code is what its ten digits stand for: reading
/// the number gives what reading the digits gives.
pub proof fn lemma_quarter_number(s: Seq<char>)
    requires
        QuarterCode::parse_spec(s) is Ok,
    ensures
        QuarterCode::from_int_spec(text_value(s)) == QuarterCode::parse_spec(s),
        0 <= text_value(s) <= 9_999_999_999,
{
    lemma_half_number(s.subrange(0, 9));
    lemma_text_value_step(s, 10);
}

/// The quarter cells of a half cell cover it: the quarter code found for a
/// point of the cell of a half code is one of the codes that
/// `iter_quad` lists for that code.
pub proof fn lemma_quarters_cover(p: HalfCode, lnglat: LngLat)
    requires
        p.wf(),
        p.patch_spec().contains_point(lnglat),
    ensures
        QuarterCode::from_lnglat_spec(lnglat) is Ok,
        p.quads().contains(QuarterCode::from_lnglat_spec(lnglat)->Ok_0),
{
    lemma_half_of_point(p, lnglat);
    lemma_half_position(p);
    lemma_cell_holds(
        p.column() * HALF_LNG,
        p.row() * HALF_LAT,
        HALF_LNG as int,
        HALF_LAT as int,
        lnglat,
    );
    lemma_steps_of_point(lnglat, p.column(), p.row(), QUARTER_LNG as int, QUARTER_LAT as int, 2, 0, 0);
    let quad = quadrant_at(lnglat, QUARTER_LNG as int, QUARTER_LAT as int);
    assert(p.quads()[quad - 1] == Quad::of(p, quad));
}

impl core::str::FromStr for QuarterCode {
    type Err = Error;

    /// Reads the code as `QuarterCode::from_str` does.
    fn from_str(s: &str) -> (r: Result<Self, Error>)
        ensures
            r == QuarterCode::parse_spec(s@),
    {
        QuarterCode::from_str(s)
    }
}

} // verus!
