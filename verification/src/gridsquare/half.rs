//! Half codes: the quadrants, of about 500 m, of a standard cell.

use vstd::prelude::*;
use vstd::string::*;
use crate::Error;
use crate::gridsquare::code::{
    cell,
    lemma_cell_holds,
    lemma_prefix_digits,
    lemma_steps_of_point,
    CodeText,
    GridSquareCode,
    HALF_LAT,
    HALF_LNG,
    STANDARD_LAT,
    STANDARD_LNG,
};
use crate::gridsquare::lnglat::LngLat;
use crate::gridsquare::primary::lemma_in_grid_nonnegative;
use crate::gridsquare::quad::{
    lemma_quad_within_parent,
    lemma_quadrant_of_cell,
    quadrant,
    quadrant_at,
    HalfCode,
    Quad,
};
use crate::gridsquare::standard::{
    lemma_parse_standard,
    lemma_standard_number,
    lemma_standard_of_point,
    lemma_standard_parse,
    lemma_standard_position,
    lemma_standard_text,
    StandardCode,
};
use crate::gridsquare::text::{
    all_digits,
    digit_value,
    digit_value_at,
    has_digits,
    is_digit,
    lemma_text_value_step,
    text_value,
};

verus! {

impl HalfCode {
    /// The column of the cell in the grid of half cells that starts at
    /// longitude zero.
    pub open spec fn column(&self) -> int {
        self.parent_spec().column() * 2 + (self.quad() - 1) % 2
    }

    /// The row of the cell in the grid of half cells that starts at latitude
    /// zero.
    pub open spec fn row(&self) -> int {
        self.parent_spec().row() * 2 + (self.quad() - 1) / 2
    }

    /// What `from_int` returns: the last digit is the quadrant, 1 to 4, the
    /// digits before it a standard code.
    pub open spec fn from_int_spec(code: int) -> Result<HalfCode, Error> {
        if 1 <= code % 10 <= 4 {
            match StandardCode::from_int_spec(code / 10) {
                Ok(parent) => Ok(Quad::of(parent, code % 10)),
                Err(e) => Err(e),
            }
        } else {
            Err(Error::InvalidCode)
        }
    }

    /// Reads a half code from its number.
    pub fn from_int(code: u32) -> (r: Result<Self, Error>)
        ensures
            r == Self::from_int_spec(code as int),
    {
        let quad: u8 = (code % 10) as u8;
        if quad < 1 || quad > 4 {
            return Err(Error::InvalidCode);
        }
        match StandardCode::from_int(code / 10) {
            Ok(parent) => Ok(Quad::new(parent, quad)),
            Err(e) => Err(e),
        }
    }

    /// What `from_str` returns: a code for exactly nine digits of which the
    /// last is a quadrant, 1 to 4, and the others a standard code.
    pub open spec fn parse_spec(s: Seq<char>) -> Result<HalfCode, Error> {
        if s.len() == 9 && is_digit(s[8]) && 1 <= digit_value(s[8]) <= 4 {
            match StandardCode::parse_spec(s.subrange(0, 8)) {
                Ok(parent) => Ok(Quad::of(parent, digit_value(s[8]))),
                Err(e) => Err(e),
            }
        } else {
            Err(Error::InvalidCode)
        }
    }

    /// Reads a half code from its nine digits.
    pub fn from_str(s: &str) -> (r: Result<Self, Error>)
        ensures
            r == Self::parse_spec(s@),
    {
        if !has_digits(s, 9) {
            proof {
                lemma_parse_half(s@);
            }
            return Err(Error::InvalidCode);
        }
        let quad: u8 = digit_value_at(s, 8);
        if quad < 1 || quad > 4 {
            return Err(Error::InvalidCode);
        }
        match StandardCode::from_str(s.substring_ascii(0, 8)) {
            Ok(parent) => Ok(Quad::new(parent, quad)),
            Err(e) => Err(e),
        }
    }

    /// What `from_lnglat` returns: the cell that holds the point, where the
    /// primary grid has one.
    pub open spec fn from_lnglat_spec(lnglat: LngLat) -> Result<HalfCode, Error> {
        match StandardCode::from_lnglat_spec(lnglat) {
            Ok(parent) => Ok(
                Quad::of(parent, quadrant_at(lnglat, HALF_LNG as int, HALF_LAT as int)),
            ),
            Err(e) => Err(e),
        }
    }

    /// Finds the half cell that holds a point.
    pub fn from_lnglat(lnglat: LngLat) -> (r: Result<Self, Error>)
        ensures
            r == Self::from_lnglat_spec(lnglat),
    {
        match StandardCode::from_lnglat(lnglat) {
            Ok(parent) => {
                proof {
                    lemma_in_grid_nonnegative(lnglat);
                }
                let quad: u8 = quadrant(lnglat, HALF_LNG, HALF_LAT);
                Ok(Quad::new(parent, quad))
            },
            Err(e) => Err(e),
        }
    }

    /// The row of the primary cell, 0 to 99.
    pub fn y1(&self) -> (r: u8)
        ensures
            r == self.parent_spec().y1(),
    {
        self.parent().y1()
    }

    /// The column of the primary cell, 0 to 99.
    pub fn x1(&self) -> (r: u8)
        ensures
            r == self.parent_spec().x1(),
    {
        self.parent().x1()
    }

    /// The row within the primary cell, 0 to 7.
    pub fn y2(&self) -> (r: u8)
        ensures
            r == self.parent_spec().y2(),
    {
        self.parent().y2()
    }

    /// The column within the primary cell, 0 to 7.
    pub fn x2(&self) -> (r: u8)
        ensures
            r == self.parent_spec().x2(),
    {
        self.parent().x2()
    }

    /// The row within the secondary cell, 0 to 9.
    pub fn y3(&self) -> (r: u8)
        ensures
            r == self.parent_spec().y3(),
    {
        self.parent().y3()
    }

    /// The column within the secondary cell, 0 to 9.
    pub fn x3(&self) -> (r: u8)
        ensures
            r == self.parent_spec().x3(),
    {
        self.parent().x3()
    }

    /// The quadrant of the standard cell, 1 to 4.
    pub fn quad1(&self) -> (r: u8)
        ensures
            r == self.quad(),
    {
        self.quad()
    }
}

/// A text is a half code exactly when it is nine digits of which the fifth
/// and the sixth are at most 6 and the last is 1 to 4.
pub proof fn lemma_parse_half(s: Seq<char>)
    ensures
        HalfCode::parse_spec(s) is Ok <==> s.len() == 9 && all_digits(s) && digit_value(s[4]) < 7
            && digit_value(s[5]) < 7 && 1 <= digit_value(s[8]) <= 4,
        HalfCode::parse_spec(s) is Err ==> HalfCode::parse_spec(s) == Err::<HalfCode, Error>(
            Error::InvalidCode,
        ),
{
    let t = s.subrange(0, 8);
    lemma_parse_standard(t);
    lemma_prefix_digits(s, 8);
}

/// The bounding box of a half code is the cell at its column and its row in
/// the grid of half cells.
pub proof fn lemma_half_position(c: HalfCode)
    requires
        c.wf(),
    ensures
        0 <= c.row() < 16000,
        16000 <= c.column() < 32000,
        c.patch_spec() == cell(
            c.column() * HALF_LNG,
            c.row() * HALF_LAT,
            HALF_LNG as int,
            HALF_LAT as int,
        ),
{
    let p = c.parent_spec();
    lemma_standard_position(p);
    lemma_quadrant_of_cell(
        p.column() * STANDARD_LNG,
        p.row() * STANDARD_LAT,
        STANDARD_LNG as int,
        STANDARD_LAT as int,
        c.quad() as int,
    );
}

/// Each of the codes that `iter_half` lists is well formed, has this code
/// above it, and its cell lies inside the cell of this code.
pub proof fn lemma_halves(p: StandardCode, i: int)
    requires
        p.wf(),
        0 <= i < 4,
    ensures
        p.halves()[i].wf(),
        p.halves()[i].parent_spec() == p,
        p.patch_spec().contains_box(&p.halves()[i].patch_spec()),
{
    Quad::<StandardCode>::lemma_of(p, i + 1);
    lemma_quad_within_parent(p.halves()[i]);
}

/// The half code found for a point is well formed and its cell holds the
/// point; and a well-formed half code whose cell holds a point is the one
/// found for it.
pub proof fn lemma_half_of_point(c: HalfCode, lnglat: LngLat)
    requires
        c.wf(),
    ensures
        HalfCode::from_lnglat_spec(lnglat) == Ok::<HalfCode, Error>(c)
            <==> c.patch_spec().contains_point(lnglat),
        HalfCode::from_lnglat_spec(lnglat) matches Ok(found) ==> found.wf(),
{
    let p = c.parent_spec();
    c.lemma_by_digits();
    lemma_standard_of_point(p, lnglat);
    lemma_half_position(c);
    lemma_standard_position(p);
    lemma_cell_holds(
        c.column() * HALF_LNG,
        c.row() * HALF_LAT,
        HALF_LNG as int,
        HALF_LAT as int,
        lnglat,
    );
    lemma_cell_holds(
        p.column() * STANDARD_LNG,
        p.row() * STANDARD_LAT,
        STANDARD_LNG as int,
        STANDARD_LAT as int,
        lnglat,
    );
    if let Ok(h) = StandardCode::from_lnglat_spec(lnglat) {
        lemma_standard_of_point(h, lnglat);
        lemma_standard_position(h);
        lemma_cell_holds(
            h.column() * STANDARD_LNG,
            h.row() * STANDARD_LAT,
            STANDARD_LNG as int,
            STANDARD_LAT as int,
            lnglat,
        );
        lemma_steps_of_point(
            lnglat,
            h.column(),
            h.row(),
            HALF_LNG as int,
            HALF_LAT as int,
            2,
            (c.quad() - 1) % 2,
            (c.quad() - 1) / 2,
        );
        Quad::<StandardCode>::lemma_of(h, quadrant_at(lnglat, HALF_LNG as int, HALF_LAT as int));
    }
}

/// Reading the digits that a half code is written as gives the code back,
/// unless the row or the column of its secondary code is 7.
pub proof fn lemma_half_text(c: HalfCode)
    requires
        c.wf(),
    ensures
        c.digits().len() == 9,
        c.parent_spec().y2() <= 6 && c.parent_spec().x2() <= 6 ==> HalfCode::parse_spec(
            c.digits(),
        ) == Ok::<HalfCode, Error>(c),
        c.parent_spec().y2() == 7 || c.parent_spec().x2() == 7 ==> HalfCode::parse_spec(
            c.digits(),
        ) == Err::<HalfCode, Error>(Error::InvalidCode),
{
    c.lemma_by_digits();
    lemma_standard_text(c.parent_spec());
    assert(c.digits().subrange(0, 8) =~= c.parent_spec().digits());
}

/// Writing out the half code that was read from a text gives the text back.
pub proof fn lemma_half_parse(s: Seq<char>)
    requires
        HalfCode::parse_spec(s) is Ok,
    ensures
        HalfCode::parse_spec(s)->Ok_0.wf(),
        HalfCode::parse_spec(s)->Ok_0.digits() == s,
{
    let c = HalfCode::parse_spec(s)->Ok_0;
    let t = s.subrange(0, 8);
    lemma_standard_parse(t);
    Quad::<StandardCode>::lemma_of(StandardCode::parse_spec(t)->Ok_0, digit_value(s[8]));
    assert(c.digits() =~= s);
}

/// The number of a half code is what its nine digits stand for: reading the
/// number gives what reading the digits gives.
pub proof fn lemma_half_number(s: Seq<char>)
    requires
        HalfCode::parse_spec(s) is Ok,
    ensures
        HalfCode::from_int_spec(text_value(s)) == HalfCode::parse_spec(s),
        0 <= text_value(s) <= 999_999_999,
{
    lemma_standard_number(s.subrange(0, 8));
    lemma_text_value_step(s, 9);
}

/// The half cells of a standard cell cover it: the half code found for a
/// point of the cell of a standard code is one of the codes that
/// `iter_half` lists for that code.
pub proof fn lemma_halves_cover(p: StandardCode, lnglat: LngLat)
    requires
        p.wf(),
        p.patch_spec().contains_point(lnglat),
    ensures
        HalfCode::from_lnglat_spec(lnglat) is Ok,
        p.halves().contains(HalfCode::from_lnglat_spec(lnglat)->Ok_0),
{
    lemma_standard_of_point(p, lnglat);
    lemma_standard_position(p);
    lemma_cell_holds(
        p.column() * STANDARD_LNG,
        p.row() * STANDARD_LAT,
        STANDARD_LNG as int,
        STANDARD_LAT as int,
        lnglat,
    );
    lemma_steps_of_point(lnglat, p.column(), p.row(), HALF_LNG as int, HALF_LAT as int, 2, 0, 0);
    let quad = quadrant_at(lnglat, HALF_LNG as int, HALF_LAT as int);
    assert(p.halves()[quad - 1] == Quad::of(p, quad));
}

impl core::str::FromStr for HalfCode {
    type Err = Error;

    /// Reads the code as `HalfCode::from_str` does.
    fn from_str(s: &str) -> (r: Result<Self, Error>)
        ensures
            r == HalfCode::parse_spec(s@),
    {
        HalfCode::from_str(s)
    }
}

} // verus!
