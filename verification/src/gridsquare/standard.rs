//! Standard codes: the 10 by 10 cells, of about 1 km, of a secondary cell.

use vstd::prelude::*;
use vstd::string::*;
use crate::Error;
use crate::gridsquare::arith::{step, step_index};
use crate::gridsquare::code::{
    cell,
    cell_box,
    lemma_cell_holds,
    lemma_steps_of_point,
    CodeText,
    GridSquareCode,
    Subdivide,
    LNG_ORIGIN,
    PRIMARY_LAT,
    PRIMARY_LNG,
    SECONDARY_LAT,
    SECONDARY_LNG,
    STANDARD_LAT,
    STANDARD_LNG,
};
use crate::gridsquare::half::lemma_halves;
use crate::gridsquare::lnglat::{LngLat, LngLatBox};
use crate::gridsquare::primary::{lemma_in_grid_nonnegative, PrimaryCode};
use crate::gridsquare::quad::{HalfCode, Quad};
use crate::gridsquare::secondary::{
    lemma_parse_secondary,
    lemma_secondary_number,
    lemma_secondary_of_point,
    lemma_secondary_parse,
    lemma_secondary_position,
    lemma_secondary_text,
    SecondaryCode,
};
use crate::gridsquare::text::{
    all_digits,
    digit_char,
    digit_str,
    digit_value,
    digit_value_at,
    has_digits,
    is_digit,
    lemma_text_value_step,
    text_value,
};

verus! {

/// A standard code: a secondary code and a cell of its 10 by 10 grid.
#[derive(Debug, Clone, Copy, PartialEq, Eq, Structural)]
pub struct StandardCode {
    secondary: SecondaryCode,
    /// "------Y-"
    y3: u8,
    /// "-------X"
    x3: u8,
}

impl StandardCode {
    /// The secondary code above this one.
    pub closed spec fn secondary_spec(&self) -> SecondaryCode {
        self.secondary
    }

    /// The row within the secondary cell, 0 to 9.
    pub closed spec fn y3_spec(&self) -> u8 {
        self.y3
    }

    /// The column within the secondary cell, 0 to 9.
    pub closed spec fn x3_spec(&self) -> u8 {
        self.x3
    }

    /// The row and the column within the secondary cell are at most 9.
    #[verifier::type_invariant]
    spec fn inv(self) -> bool {
        self.y3 <= 9 && self.x3 <= 9
    }

    /// The standard code in row `y3`, column `x3` of `secondary`.
    pub closed spec fn of(secondary: SecondaryCode, y3: int, x3: int) -> StandardCode {
        StandardCode { secondary, y3: y3 as u8, x3: x3 as u8 }
    }

    /// The parts of `of(secondary, y3, x3)` are its arguments.
    pub proof fn lemma_of(secondary: SecondaryCode, y3: int, x3: int)
        requires
            0 <= y3 <= 255,
            0 <= x3 <= 255,
        ensures
            Self::of(secondary, y3, x3).secondary() == secondary,
            Self::of(secondary, y3, x3).y3() == y3,
            Self::of(secondary, y3, x3).x3() == x3,
    {
    }

    /// A standard code is the code of its parts.
    pub proof fn lemma_by_digits(self)
        ensures
            self == Self::of(self.secondary(), self.y3() as int, self.x3() as int),
    {
    }

    /// The standard code in row `y3`, column `x3` of `secondary`.
    pub(crate) fn at(secondary: SecondaryCode, y3: u8, x3: u8) -> (r: Self)
        requires
            y3 <= 9,
            x3 <= 9,
        ensures
            r == Self::of(secondary, y3 as int, x3 as int),
    {
        StandardCode { secondary, y3, x3 }
    }

    /// What `from_int` returns: the last two digits are the row and the
    /// column, the digits before them a secondary code.
    pub open spec fn from_int_spec(code: int) -> Result<StandardCode, Error> {
        if 0 <= code <= 99999999 {
            match SecondaryCode::from_int_spec(code / 100) {
                Ok(secondary) => Ok(Self::of(secondary, (code % 100) / 10, code % 10)),
                Err(e) => Err(e),
            }
        } else {
            Err(Error::InvalidCode)
        }
    }

    /// Reads a standard code from its number.
    pub fn from_int(code: u32) -> (r: Result<Self, Error>)
        ensures
            r == Self::from_int_spec(code as int),
    {
        if code > 99999999 {
            return Err(Error::InvalidCode);
        }
        match SecondaryCode::from_int(code / 100) {
            Ok(secondary) => {
                let y3: u8 = ((code % 100) / 10) as u8;
                let x3: u8 = (code % 10) as u8;
                Ok(StandardCode { secondary, y3, x3 })
            },
            Err(e) => Err(e),
        }
    }

    /// What `from_str` returns: a code for exactly eight digits of which the
    /// first six are a secondary code.
    pub open spec fn parse_spec(s: Seq<char>) -> Result<StandardCode, Error> {
        if s.len() == 8 && is_digit(s[6]) && is_digit(s[7]) {
            match SecondaryCode::parse_spec(s.subrange(0, 6)) {
                Ok(secondary) => Ok(Self::of(secondary, digit_value(s[6]), digit_value(s[7]))),
                Err(e) => Err(e),
            }
        } else {
            Err(Error::InvalidCode)
        }
    }

    /// Reads a standard code from its eight digits.
    pub fn from_str(s: &str) -> (r: Result<Self, Error>)
        ensures
            r == Self::parse_spec(s@),
    {
        if !has_digits(s, 8) {
            proof {
                lemma_parse_standard(s@);
            }
            return Err(Error::InvalidCode);
        }
        let y3: u8 = digit_value_at(s, 6);
        let x3: u8 = digit_value_at(s, 7);
        match SecondaryCode::from_str(s.substring_ascii(0, 6)) {
            Ok(secondary) => Ok(StandardCode { secondary, y3, x3 }),
            Err(e) => Err(e),
        }
    }

    /// What `from_lnglat` returns: the cell that holds the point, where the
    /// primary grid has one.
    pub open spec fn from_lnglat_spec(lnglat: LngLat) -> Result<StandardCode, Error> {
        match SecondaryCode::from_lnglat_spec(lnglat) {
            Ok(secondary) => Ok(
                Self::of(
                    secondary,
                    step_index(lnglat.vlat as int, STANDARD_LAT as int, 10),
                    step_index(lnglat.vlng as int, STANDARD_LNG as int, 10),
                ),
            ),
            Err(e) => Err(e),
        }
    }

    /// Finds the standard cell that holds a point.
    pub fn from_lnglat(lnglat: LngLat) -> (r: Result<Self, Error>)
        ensures
            r == Self::from_lnglat_spec(lnglat),
    {
        match SecondaryCode::from_lnglat(lnglat) {
            Ok(secondary) => {
                proof {
                    lemma_in_grid_nonnegative(lnglat);
                }
                let y3: i64 = step(lnglat.vlat, STANDARD_LAT, 10);
                let x3: i64 = step(lnglat.vlng, STANDARD_LNG, 10);
                Ok(StandardCode { secondary, y3: y3 as u8, x3: x3 as u8 })
            },
            Err(e) => Err(e),
        }
    }

    /// The row of the primary cell, 0 to 99.
    pub open spec fn y1_spec(&self) -> u8 {
        self.secondary().y1()
    }

    /// The column of the primary cell, 0 to 99.
    pub open spec fn x1_spec(&self) -> u8 {
        self.secondary().x1()
    }

    /// The row within the primary cell, 0 to 7.
    pub open spec fn y2_spec(&self) -> u8 {
        self.secondary().y2()
    }

    /// The column within the primary cell, 0 to 7.
    pub open spec fn x2_spec(&self) -> u8 {
        self.secondary().x2()
    }

    /// The primary code above this one.
    pub open spec fn primary_spec(&self) -> PrimaryCode {
        self.secondary().primary()
    }

    /// The row of the primary cell, 0 to 99.
    #[verifier::when_used_as_spec(y1_spec)]
    pub fn y1(&self) -> (r: u8)
        ensures
            r == self.y1_spec(),
    {
        self.secondary.y1()
    }

    /// The column of the primary cell, 0 to 99.
    #[verifier::when_used_as_spec(x1_spec)]
    pub fn x1(&self) -> (r: u8)
        ensures
            r == self.x1_spec(),
    {
        self.secondary.x1()
    }

    /// The row within the primary cell, 0 to 7.
    #[verifier::when_used_as_spec(y2_spec)]
    pub fn y2(&self) -> (r: u8)
        ensures
            r == self.y2_spec(),
    {
        self.secondary.y2()
    }

    /// The column within the primary cell, 0 to 7.
    #[verifier::when_used_as_spec(x2_spec)]
    pub fn x2(&self) -> (r: u8)
        ensures
            r == self.x2_spec(),
    {
        self.secondary.x2()
    }

    /// The row within the secondary cell, 0 to 9.
    #[verifier::when_used_as_spec(y3_spec)]
    pub fn y3(&self) -> (r: u8)
        ensures
            r == self.y3_spec(),
            r <= 9,
    {
        proof {
            use_type_invariant(self);
        }
        self.y3
    }

    /// The column within the secondary cell, 0 to 9.
    #[verifier::when_used_as_spec(x3_spec)]
    pub fn x3(&self) -> (r: u8)
        ensures
            r == self.x3_spec(),
            r <= 9,
    {
        proof {
            use_type_invariant(self);
        }
        self.x3
    }

    /// The primary code above this one.
    #[verifier::when_used_as_spec(primary_spec)]
    pub fn primary(&self) -> (r: PrimaryCode)
        ensures
            r == self.primary_spec(),
    {
        self.secondary.primary()
    }

    /// The secondary code above this one.
    #[verifier::when_used_as_spec(secondary_spec)]
    pub fn secondary(&self) -> (r: SecondaryCode)
        ensures
            r == self.secondary_spec(),
    {
        self.secondary
    }

    /// The four half codes below this one, in the order of their quadrants.
    pub open spec fn halves(&self) -> Seq<HalfCode> {
        Seq::new(4, |i: int| Quad::of(*self, i + 1))
    }

    /// Lists the four half codes below this one, in the order of their
    /// quadrants.
    pub fn iter_half(&self) -> (r: Vec<HalfCode>)
        ensures
            r@ == self.halves(),
    {
        let mut v: Vec<HalfCode> = Vec::new();
        let mut quad: u8 = 1;
        while quad <= 4
            invariant
                1 <= quad <= 5,
                v@.len() == quad - 1,
                forall|i: int| 0 <= i < v@.len() ==> v@[i] == Quad::of(*self, i + 1),
            decreases 5 - quad,
        {
            v.push(Quad::new(*self, quad));
            quad = quad + 1;
        }
        assert(v@ =~= self.halves());
        v
    }

    /// The column of the cell in the grid of standard cells that starts at
    /// longitude zero.
    pub open spec fn column(&self) -> int {
        self.secondary().column() * 10 + self.x3()
    }

    /// The row of the cell in the grid of standard cells that starts at
    /// latitude zero.
    pub open spec fn row(&self) -> int {
        self.secondary().row() * 10 + self.y3()
    }
}

impl GridSquareCode for StandardCode {
    open spec fn wf(&self) -> bool {
        self.secondary().wf() && self.y3() <= 9 && self.x3() <= 9
    }

    open spec fn patch_spec(&self) -> LngLatBox {
        cell(
            self.column() * STANDARD_LNG,
            self.row() * STANDARD_LAT,
            STANDARD_LNG as int,
            STANDARD_LAT as int,
        )
    }

    proof fn lemma_patch_wf(&self) {
        broadcast use LngLatBox::lemma_corners;
    }

    fn patch(&self) -> (r: LngLatBox) {
        proof {
            use_type_invariant(self);
        }
        cell_box(
            (self.secondary.x1() as i64 + LNG_ORIGIN) * PRIMARY_LNG + self.secondary.x2() as i64
                * SECONDARY_LNG + self.x3 as i64 * STANDARD_LNG,
            self.secondary.y1() as i64 * PRIMARY_LAT + self.secondary.y2() as i64
                * SECONDARY_LAT + self.y3 as i64 * STANDARD_LAT,
            STANDARD_LNG,
            STANDARD_LAT,
        )
    }
}

impl CodeText for StandardCode {
    open spec fn digits(&self) -> Seq<char> {
        self.secondary().digits() + seq![
            digit_char(self.y3() as int),
            digit_char(self.x3() as int),
        ]
    }

    fn to_string(&self) -> (s: String) {
        proof {
            use_type_invariant(self);
        }
        let mut s = self.secondary.to_string();
        s.append(digit_str(self.y3));
        s.append(digit_str(self.x3));
        assert(s@ =~= self.digits());
        s
    }
}

/// A text is a standard code exactly when it is eight digits of which the
/// fifth and the sixth are at most 6.
pub proof fn lemma_parse_standard(s: Seq<char>)
    ensures
        StandardCode::parse_spec(s) is Ok <==> s.len() == 8 && all_digits(s) && digit_value(s[4])
            < 7 && digit_value(s[5]) < 7,
        StandardCode::parse_spec(s) is Err ==> StandardCode::parse_spec(s) == Err::<
            StandardCode,
            Error,
        >(Error::InvalidCode),
{
    let t = s.subrange(0, 6);
    lemma_parse_secondary(t);
    if s.len() == 8 {
        assert forall|i: int| 0 <= i < 6 implies #[trigger] t[i] == s[i] by {}
        if all_digits(s) {
            assert forall|i: int| 0 <= i < t.len() implies is_digit(#[trigger] t[i]) by {
                assert(t[i] == s[i]);
            }
        }
        if all_digits(t) && is_digit(s[6]) && is_digit(s[7]) {
            assert forall|i: int| 0 <= i < s.len() implies is_digit(#[trigger] s[i]) by {
                if i < 6 {
                    assert(t[i] == s[i]);
                }
            }
        }
    }
}

/// The column and the row of a well-formed standard code lie in the grid.
pub proof fn lemma_standard_position(c: StandardCode)
    requires
        c.wf(),
    ensures
        0 <= c.row() < 8000,
        8000 <= c.column() < 16000,
{
}

/// The cell of a standard code lies inside the cell of its secondary code.
pub proof fn lemma_standard_within_secondary(c: StandardCode)
    requires
        c.wf(),
    ensures
        c.secondary().patch_spec().contains_box(&c.patch_spec()),
{
    broadcast use LngLatBox::lemma_corners;
}

/// Each of the codes that `iter_standard` lists is well formed, has this
/// code above it, and its cell lies inside the cell of this code.
pub proof fn lemma_standards(p: SecondaryCode, i: int)
    requires
        p.wf(),
        0 <= i < 100,
    ensures
        p.standards()[i].wf(),
        p.standards()[i].secondary() == p,
        p.patch_spec().contains_box(&p.standards()[i].patch_spec()),
{
    lemma_standard_within_secondary(p.standards()[i]);
}

/// The standard code found for a point is well formed and its cell holds
/// the point; and a well-formed standard code whose cell holds a point is the
/// one found for it.
pub proof fn lemma_standard_of_point(c: StandardCode, lnglat: LngLat)
    requires
        c.wf(),
    ensures
        StandardCode::from_lnglat_spec(lnglat) == Ok::<StandardCode, Error>(c)
            <==> c.patch_spec().contains_point(lnglat),
        StandardCode::from_lnglat_spec(lnglat) matches Ok(found) ==> found.wf(),
{
    let p = c.secondary();
    c.lemma_by_digits();
    lemma_secondary_of_point(p, lnglat);
    lemma_cell_holds(
        c.column() * STANDARD_LNG,
        c.row() * STANDARD_LAT,
        STANDARD_LNG as int,
        STANDARD_LAT as int,
        lnglat,
    );
    lemma_cell_holds(
        p.column() * SECONDARY_LNG,
        p.row() * SECONDARY_LAT,
        SECONDARY_LNG as int,
        SECONDARY_LAT as int,
        lnglat,
    );
    if let Ok(h) = SecondaryCode::from_lnglat_spec(lnglat) {
        lemma_secondary_of_point(h, lnglat);
        lemma_secondary_position(h);
        lemma_cell_holds(
            h.column() * SECONDARY_LNG,
            h.row() * SECONDARY_LAT,
            SECONDARY_LNG as int,
            SECONDARY_LAT as int,
            lnglat,
        );
        lemma_steps_of_point(
            lnglat,
            h.column(),
            h.row(),
            STANDARD_LNG as int,
            STANDARD_LAT as int,
            10,
            c.x3() as int,
            c.y3() as int,
        );
        StandardCode::lemma_of(
            h,
            step_index(lnglat.vlat as int, STANDARD_LAT as int, 10),
            step_index(lnglat.vlng as int, STANDARD_LNG as int, 10),
        );
    }
}

/// Reading the digits that a standard code is written as gives the code
/// back, unless the row or the column of its secondary code is 7.
pub proof fn lemma_standard_text(c: StandardCode)
    requires
        c.wf(),
    ensures
        c.digits().len() == 8,
        c.y2() <= 6 && c.x2() <= 6 ==> StandardCode::parse_spec(c.digits()) == Ok::<
            StandardCode,
            Error,
        >(c),
        c.y2() == 7 || c.x2() == 7 ==> StandardCode::parse_spec(c.digits()) == Err::<
            StandardCode,
            Error,
        >(Error::InvalidCode),
{
    c.lemma_by_digits();
    lemma_secondary_text(c.secondary());
    assert(c.digits().subrange(0, 6) =~= c.secondary().digits());
}

/// Writing out the standard code that was read from a text gives the text
/// back.
pub proof fn lemma_standard_parse(s: Seq<char>)
    requires
        StandardCode::parse_spec(s) is Ok,
    ensures
        StandardCode::parse_spec(s)->Ok_0.wf(),
        StandardCode::parse_spec(s)->Ok_0.digits() == s,
{
    let c = StandardCode::parse_spec(s)->Ok_0;
    let t = s.subrange(0, 6);
    lemma_secondary_parse(t);
    StandardCode::lemma_of(
        SecondaryCode::parse_spec(t)->Ok_0,
        digit_value(s[6]),
        digit_value(s[7]),
    );
    assert(c.digits() =~= s);
}

impl Subdivide for StandardCode {
    type Child = HalfCode;

    open spec fn children_spec(&self) -> Seq<HalfCode> {
        self.halves()
    }

    proof fn lemma_child_within(&self, i: int) {
        lemma_halves(*self, i);
    }

    fn children(&self) -> (r: Vec<HalfCode>) {
        self.iter_half()
    }
}

/// The number of a standard code is what its eight digits stand for: reading
/// the number gives what reading the digits gives.
pub proof fn lemma_standard_number(s: Seq<char>)
    requires
        StandardCode::parse_spec(s) is Ok,
    ensures
        StandardCode::from_int_spec(text_value(s)) == StandardCode::parse_spec(s),
        0 <= text_value(s) <= 99_999_999,
{
    lemma_secondary_number(s.subrange(0, 6));
    lemma_text_value_step(s, 7);
    lemma_text_value_step(s, 8);
}

/// The standard cells of a secondary cell cover it: the standard code found
/// for a point of the cell of a secondary code is one of the codes that
/// `iter_standard` lists for that code.
pub proof fn lemma_standards_cover(p: SecondaryCode, lnglat: LngLat)
    requires
        p.wf(),
        p.patch_spec().contains_point(lnglat),
    ensures
        StandardCode::from_lnglat_spec(lnglat) is Ok,
        p.standards().contains(StandardCode::from_lnglat_spec(lnglat)->Ok_0),
{
    lemma_secondary_of_point(p, lnglat);
    lemma_secondary_position(p);
    lemma_cell_holds(
        p.column() * SECONDARY_LNG,
        p.row() * SECONDARY_LAT,
        SECONDARY_LNG as int,
        SECONDARY_LAT as int,
        lnglat,
    );
    lemma_steps_of_point(
        lnglat,
        p.column(),
        p.row(),
        STANDARD_LNG as int,
        STANDARD_LAT as int,
        10,
        0,
        0,
    );
    let y = step_index(lnglat.vlat as int, STANDARD_LAT as int, 10);
    let x = step_index(lnglat.vlng as int, STANDARD_LNG as int, 10);
    assert(p.standards()[y * 10 + x] == StandardCode::of(p, y, x));
}

impl core::str::FromStr for StandardCode {
    type Err = Error;

    /// Reads the code as `StandardCode::from_str` does.
    fn from_str(s: &str) -> (r: Result<Self, Error>)
        ensures
            r == StandardCode::parse_spec(s@),
    {
        StandardCode::from_str(s)
    }
}

} // verus!
