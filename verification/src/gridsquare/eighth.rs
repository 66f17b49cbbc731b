//! Eighth codes: the quadrants, of about 125 m, of a quarter cell.

use vstd::prelude::*;
use vstd::string::*;
use crate::Error;
use crate::gridsquare::code::{
    cell,
    lemma_cell_holds,
    lemma_prefix_digits,
    lemma_steps_of_point,
    CodeText,
    GridSquareCode,
    EIGHTH_LAT,
    EIGHTH_LNG,
    QUARTER_LAT,
    QUARTER_LNG,
};
use crate::gridsquare::lnglat::LngLat;
use crate::gridsquare::primary::lemma_in_grid_nonnegative;
use crate::gridsquare::quad::{
    lemma_quadrant_of_cell,
    quadrant,
    quadrant_at,
    EighthCode,
    Quad,
    QuarterCode,
};
use crate::gridsquare::quarter::{
    lemma_parse_quarter,
    lemma_quarter_number,
    lemma_quarter_of_point,
    lemma_quarter_parse,
    lemma_quarter_position,
    lemma_quarter_text,
};
use crate::gridsquare::text::{
    all_digits,
    digit_value,
    digit_value_at,
    has_digits,
    is_digit,
    lemma_text_value_step,
    text_value,
};

verus! {

impl EighthCode {
    /// The column of the cell in the grid of eighth cells that starts at
    /// longitude zero.
    pub open spec fn column(&self) -> int {
        self.parent_spec().column() * 2 + (self.quad() - 1) % 2
    }

    /// The row of the cell in the grid of eighth cells that starts at latitude
    /// zero.
    pub open spec fn row(&self) -> int {
        self.parent_spec().row() * 2 + (self.quad() - 1) / 2
    }

    /// What `from_int` returns: the last digit is the quadrant, 1 to 4, the
    /// digits before it a quarter code.
    pub open spec fn from_int_spec(code: int) -> Result<EighthCode, Error> {
        if 1 <= code % 10 <= 4 {
            match QuarterCode::from_int_spec(code / 10) {
                Ok(parent) => Ok(Quad::of(parent, code % 10)),
                Err(e) => Err(e),
            }
        } else {
            Err(Error::InvalidCode)
        }
    }

    /// Reads an eighth code from its number.
    pub fn from_int(code: u64) -> (r: Result<Self, Error>)
        ensures
            r == Self::from_int_spec(code as int),
    {
        let quad: u8 = (code % 10) as u8;
        if quad < 1 || quad > 4 {
            return Err(Error::InvalidCode);
        }
        match QuarterCode::from_int(code / 10) {
            Ok(parent) => Ok(Quad::new(parent, quad)),
            Err(e) => Err(e),
        }
    }

    /// What `from_str` returns: a code for exactly eleven digits of which
    /// the last is a quadrant, 1 to 4, and the others a quarter code.
    pub open spec fn parse_spec(s: Seq<char>) -> Result<EighthCode, Error> {
        if s.len() == 11 && is_digit(s[10]) && 1 <= digit_value(s[10]) <= 4 {
            match QuarterCode::parse_spec(s.subrange(0, 10)) {
                Ok(parent) => Ok(Quad::of(parent, digit_value(s[10]))),
                Err(e) => Err(e),
            }
        } else {
            Err(Error::InvalidCode)
        }
    }

    /// Reads an eighth code from its eleven digits.
    pub fn from_str(s: &str) -> (r: Result<Self, Error>)
        ensures
            r == Self::parse_spec(s@),
    {
        if !has_digits(s, 11) {
            proof {
                lemma_parse_eighth(s@);
            }
            return Err(Error::InvalidCode);
        }
        let quad: u8 = digit_value_at(s, 10);
        if quad < 1 || quad > 4 {
            return Err(Error::InvalidCode);
        }
        match QuarterCode::from_str(s.substring_ascii(0, 10)) {
            Ok(parent) => Ok(Quad::new(parent, quad)),
            Err(e) => Err(e),
        }
    }

    /// What `from_lnglat` returns: the cell that holds the point, where the
    /// primary grid has one.
    pub open spec fn from_lnglat_spec(lnglat: LngLat) -> Result<EighthCode, Error> {
        match QuarterCode::from_lnglat_spec(lnglat) {
            Ok(parent) => Ok(
                Quad::of(parent, quadrant_at(lnglat, EIGHTH_LNG as int, EIGHTH_LAT as int)),
            ),
            Err(e) => Err(e),
        }
    }

    /// Finds the eighth cell that holds a point.
    pub fn from_lnglat(lnglat: LngLat) -> (r: Result<Self, Error>)
        ensures
            r == Self::from_lnglat_spec(lnglat),
    {
        match QuarterCode::from_lnglat(lnglat) {
            Ok(parent) => {
                proof {
                    lemma_in_grid_nonnegative(lnglat);
                }
                let quad: u8 = quadrant(lnglat, EIGHTH_LNG, EIGHTH_LAT);
                Ok(Quad::new(parent, quad))
            },
            Err(e) => Err(e),
        }
    }

    /// The row of the primary cell, 0 to 99.
    pub fn y1(&self) -> (r: u8)
        ensures
            r == self.parent_spec().parent_spec().parent_spec().y1(),
    {
        self.parent().y1()
    }

    /// The column of the primary cell, 0 to 99.
    pub fn x1(&self) -> (r: u8)
        ensures
            r == self.parent_spec().parent_spec().parent_spec().x1(),
    {
        self.parent().x1()
    }

    /// The row within the primary cell, 0 to 7.
    pub fn y2(&self) -> (r: u8)
        ensures
            r == self.parent_spec().parent_spec().parent_spec().y2(),
    {
        self.parent().y2()
    }

    /// The column within the primary cell, 0 to 7.
    pub fn x2(&self) -> (r: u8)
        ensures
            r == self.parent_spec().parent_spec().parent_spec().x2(),
    {
        self.parent().x2()
    }

    /// The row within the secondary cell, 0 to 9.
    pub fn y3(&self) -> (r: u8)
        ensures
            r == self.parent_spec().parent_spec().parent_spec().y3(),
    {
        self.parent().y3()
    }

    /// The column within the secondary cell, 0 to 9.
    pub fn x3(&self) -> (r: u8)
        ensures
            r == self.parent_spec().parent_spec().parent_spec().x3(),
    {
        self.parent().x3()
    }

    /// The quadrant of the standard cell, 1 to 4.
    pub fn quad1(&self) -> (r: u8)
        ensures
            r == self.parent_spec().parent_spec().quad(),
    {
        self.parent().quad1()
    }

    /// The quadrant of the half cell, 1 to 4.
    pub fn quad2(&self) -> (r: u8)
        ensures
            r == self.parent_spec().quad(),
    {
        self.parent().quad2()
    }

    /// The quadrant of the quarter cell, 1 to 4.
    pub fn quad3(&self) -> (r: u8)
        ensures
            r == self.quad(),
    {
        self.quad()
    }
}

/// A text is an eighth code exactly when it is eleven digits of which the
/// fifth and the sixth are at most 6 and the last three are 1 to 4.
pub proof fn lemma_parse_eighth(s: Seq<char>)
    ensures
        EighthCode::parse_spec(s) is Ok <==> s.len() == 11 && all_digits(s) && digit_value(s[4])
            < 7 && digit_value(s[5]) < 7 && 1 <= digit_value(s[8]) <= 4 && 1 <= digit_value(s[9])
            <= 4 && 1 <= digit_value(s[10]) <= 4,
        EighthCode::parse_spec(s) is Err ==> EighthCode::parse_spec(s) == Err::<
            EighthCode,
            Error,
        >(Error::InvalidCode),
{
    let t = s.subrange(0, 10);
    lemma_parse_quarter(t);
    lemma_prefix_digits(s, 10);
}

/// The bounding box of an eighth code is the cell at its column and its row
/// in the grid of eighth cells.
pub proof fn lemma_eighth_position(c: EighthCode)
    requires
        c.wf(),
    ensures
        0 <= c.row() < 64000,
        64000 <= c.column() < 128000,
        c.patch_spec() == cell(
            c.column() * EIGHTH_LNG,
            c.row() * EIGHTH_LAT,
            EIGHTH_LNG as int,
            EIGHTH_LAT as int,
        ),
{
    let p = c.parent_spec();
    lemma_quarter_position(p);
    lemma_quadrant_of_cell(
        p.column() * QUARTER_LNG,
        p.row() * QUARTER_LAT,
        QUARTER_LNG as int,
        QUARTER_LAT as int,
        c.quad() as int,
    );
}

/// The eighth code found for a point is well formed and its cell holds the
/// point; and a well-formed eighth code whose cell holds a point is the one
/// found for it.
pub proof fn lemma_eighth_of_point(c: EighthCode, lnglat: LngLat)
    requires
        c.wf(),
    ensures
        EighthCode::from_lnglat_spec(lnglat) == Ok::<EighthCode, Error>(c)
            <==> c.patch_spec().contains_point(lnglat),
        EighthCode::from_lnglat_spec(lnglat) matches Ok(found) ==> found.wf(),
{
    let p = c.parent_spec();
    c.lemma_by_digits();
    lemma_quarter_of_point(p, lnglat);
    lemma_eighth_position(c);
    lemma_quarter_position(p);
    lemma_cell_holds(
        c.column() * EIGHTH_LNG,
        c.row() * EIGHTH_LAT,
        EIGHTH_LNG as int,
        EIGHTH_LAT as int,
        lnglat,
    );
    lemma_cell_holds(
        p.column() * QUARTER_LNG,
        p.row() * QUARTER_LAT,
        QUARTER_LNG as int,
        QUARTER_LAT as int,
        lnglat,
    );
    if let Ok(h) = QuarterCode::from_lnglat_spec(lnglat) {
        lemma_quarter_of_point(h, lnglat);
        lemma_quarter_position(h);
        lemma_cell_holds(
            h.column() * QUARTER_LNG,
            h.row() * QUARTER_LAT,
            QUARTER_LNG as int,
            QUARTER_LAT as int,
            lnglat,
        );
        lemma_steps_of_point(
            lnglat,
            h.column(),
            h.row(),
            EIGHTH_LNG as int,
            EIGHTH_LAT as int,
            2,
            (c.quad() - 1) % 2,
            (c.quad() - 1) / 2,
        );
        Quad::<QuarterCode>::lemma_of(h, quadrant_at(lnglat, EIGHTH_LNG as int, EIGHTH_LAT as int));
    }
}

/// Reading the digits that an eighth code is written as gives the code back,
/// unless the row or the column of its secondary code is 7.
pub proof fn lemma_eighth_text(c: EighthCode)
    requires
        c.wf(),
    ensures
        c.digits().len() == 11,
        c.parent_spec().parent_spec().parent_spec().y2() <= 6
            && c.parent_spec().parent_spec().parent_spec().x2() <= 6 ==> EighthCode::parse_spec(
            c.digits(),
        ) == Ok::<EighthCode, Error>(c),
        c.parent_spec().parent_spec().parent_spec().y2() == 7
            || c.parent_spec().parent_spec().parent_spec().x2() == 7 ==> EighthCode::parse_spec(
            c.digits(),
        ) == Err::<EighthCode, Error>(Error::InvalidCode),
{
    c.lemma_by_digits();
    lemma_quarter_text(c.parent_spec());
    assert(c.digits().subrange(0, 10) =~= c.parent_spec().digits());
}

/// Writing out the eighth code that was read from a text gives the text back.
pub proof fn lemma_eighth_parse(s: Seq<char>)
    requires
        EighthCode::parse_spec(s) is Ok,
    ensures
        EighthCode::parse_spec(s)->Ok_0.wf(),
        EighthCode::parse_spec(s)->Ok_0.digits() == s,
{
    let c = EighthCode::parse_spec(s)->Ok_0;
    let t = s.subrange(0, 10);
    lemma_quarter_parse(t);
    Quad::<QuarterCode>::lemma_of(QuarterCode::parse_spec(t)->Ok_0, digit_value(s[10]));
    assert(c.digits() =~= s);
}

/// The number of an eighth code is what its eleven digits stand for: reading
/// the number gives what reading the digits gives.
pub proof fn lemma_eighth_number(s: Seq<char>)
    requires
        EighthCode::parse_spec(s) is Ok,
    ensures
        EighthCode::from_int_spec(text_value(s)) == EighthCode::parse_spec(s),
        0 <= text_value(s) <= 99_999_999_999,
{
    lemma_quarter_number(s.subrange(0, 10));
    lemma_text_value_step(s, 11);
}

/// The eighth cells of a quarter cell cover it: the eighth code found for a
/// point of the cell of a quarter code is one of the codes that
/// `iter_quad` lists for that code.
pub proof fn lemma_eighths_cover(p: QuarterCode, lnglat: LngLat)
    requires
        p.wf(),
        p.patch_spec().contains_point(lnglat),
    ensures
        EighthCode::from_lnglat_spec(lnglat) is Ok,
        p.quads().contains(EighthCode::from_lnglat_spec(lnglat)->Ok_0),
{
    lemma_quarter_of_point(p, lnglat);
    lemma_quarter_position(p);
    lemma_cell_holds(
        p.column() * QUARTER_LNG,
        p.row() * QUARTER_LAT,
        QUARTER_LNG as int,
        QUARTER_LAT as int,
        lnglat,
    );
    lemma_steps_of_point(lnglat, p.column(), p.row(), EIGHTH_LNG as int, EIGHTH_LAT as int, 2, 0, 0);
    let quad = quadrant_at(lnglat, EIGHTH_LNG as int, EIGHTH_LAT as int);
    assert(p.quads()[quad - 1] == Quad::of(p, quad));
}

impl core::str::FromStr for EighthCode {
    type Err = Error;

    /// Reads the code as `EighthCode::from_str` does.
    fn from_str(s: &str) -> (r: Result<Self, Error>)
        ensures
            r == EighthCode::parse_spec(s@),
    {
        EighthCode::from_str(s)
    }
}

} // verus!
