//! Secondary codes: the 8 by 8 cells, of about 10 km, of a primary cell.

use vstd::prelude::*;
use vstd::string::*;
use crate::Error;
use crate::gridsquare::arith::{step, step_index};
use crate::gridsquare::code::{
    cell,
    cell_box,
    lemma_cell_holds,
    lemma_steps_of_point,
    CodeText,
    GridSquareCode,
    Subdivide,
    LNG_ORIGIN,
    PRIMARY_LAT,
    PRIMARY_LNG,
    SECONDARY_LAT,
    SECONDARY_LNG,
};
use crate::gridsquare::lnglat::{LngLat, LngLatBox};
use crate::gridsquare::primary::{
    lemma_in_grid_nonnegative,
    lemma_parse_primary,
    lemma_primary_number,
    lemma_primary_of_point,
    lemma_primary_parse,
    lemma_primary_text,
    PrimaryCode,
};
use crate::gridsquare::standard::{lemma_standards, StandardCode};
use crate::gridsquare::text::{
    all_digits,
    digit_char,
    digit_str,
    digit_value,
    digit_value_at,
    has_digits,
    is_digit,
    lemma_text_value_step,
    text_value,
};

verus! {

/// A secondary code: a primary code and a cell of its 8 by 8 grid.
#[derive(Debug, Clone, Copy, PartialEq, Eq, Structural)]
pub struct SecondaryCode {
    primary: PrimaryCode,
    /// "----Y-"
    y2: u8,
    /// "-----X"
    x2: u8,
}

impl SecondaryCode {
    /// The primary code above this one.
    pub closed spec fn primary_spec(&self) -> PrimaryCode {
        self.primary
    }

    /// The row within the primary cell, 0 to 7.
    pub closed spec fn y2_spec(&self) -> u8 {
        self.y2
    }

    /// The column within the primary cell, 0 to 7.
    pub closed spec fn x2_spec(&self) -> u8 {
        self.x2
    }

    /// The row and the column within the primary cell are at most 7.
    #[verifier::type_invariant]
    spec fn inv(self) -> bool {
        self.y2 <= 7 && self.x2 <= 7
    }

    /// The secondary code in row `y2`, column `x2` of `primary`.
    pub closed spec fn of(primary: PrimaryCode, y2: int, x2: int) -> SecondaryCode {
        SecondaryCode { primary, y2: y2 as u8, x2: x2 as u8 }
    }

    /// The parts of `of(primary, y2, x2)` are its arguments.
    pub proof fn lemma_of(primary: PrimaryCode, y2: int, x2: int)
        requires
            0 <= y2 <= 255,
            0 <= x2 <= 255,
        ensures
            Self::of(primary, y2, x2).primary() == primary,
            Self::of(primary, y2, x2).y2() == y2,
            Self::of(primary, y2, x2).x2() == x2,
    {
    }

    /// A secondary code is the code of its parts.
    pub proof fn lemma_by_digits(self)
        ensures
            self == Self::of(self.primary(), self.y2() as int, self.x2() as int),
    {
    }

    /// The secondary code in row `y2`, column `x2` of `primary`.
    pub(crate) fn at(primary: PrimaryCode, y2: u8, x2: u8) -> (r: Self)
        requires
            y2 <= 7,
            x2 <= 7,
        ensures
            r == Self::of(primary, y2 as int, x2 as int),
    {
        SecondaryCode { primary, y2, x2 }
    }

    /// What `from_int` returns. The last two digits are the row and the
    /// column; either of them above 6 is refused.
    pub open spec fn from_int_spec(code: int) -> Result<SecondaryCode, Error> {
        if 0 <= code <= 999999 && (code % 100) / 10 < 7 && code % 10 < 7 {
            match PrimaryCode::from_int_spec(code / 100) {
                Ok(primary) => Ok(Self::of(primary, (code % 100) / 10, code % 10)),
                Err(e) => Err(e),
            }
        } else {
            Err(Error::InvalidCode)
        }
    }

    /// Reads a secondary code from its number. A row or a column of 7 or more
    /// is refused.
    pub fn from_int(code: u32) -> (r: Result<Self, Error>)
        ensures
            r == Self::from_int_spec(code as int),
            (code % 100) / 10 >= 7 || code % 10 >= 7 ==> r == Err::<Self, Error>(
                Error::InvalidCode,
            ),
    {
        if code > 999999 {
            return Err(Error::InvalidCode);
        }
        let y2: u8 = ((code % 100) / 10) as u8;
        let x2: u8 = (code % 10) as u8;
        if y2 >= 7 || x2 >= 7 {
            return Err(Error::InvalidCode);
        }
        match PrimaryCode::from_int((code / 100) as u16) {
            Ok(primary) => Ok(SecondaryCode { primary, y2, x2 }),
            Err(e) => Err(e),
        }
    }

    /// What `from_str` returns: a code for exactly six digits of which the
    /// last two are at most 6.
    pub open spec fn parse_spec(s: Seq<char>) -> Result<SecondaryCode, Error> {
        if s.len() == 6 && is_digit(s[4]) && is_digit(s[5]) && digit_value(s[4]) < 7
            && digit_value(s[5]) < 7 {
            match PrimaryCode::parse_spec(s.subrange(0, 4)) {
                Ok(primary) => Ok(Self::of(primary, digit_value(s[4]), digit_value(s[5]))),
                Err(e) => Err(e),
            }
        } else {
            Err(Error::InvalidCode)
        }
    }

    /// Reads a secondary code from its six digits. A row or a column of 7 or
    /// more is refused.
    pub fn from_str(s: &str) -> (r: Result<Self, Error>)
        ensures
            r == Self::parse_spec(s@),
            s@.len() == 6 && (digit_value(s@[4]) >= 7 || digit_value(s@[5]) >= 7) ==> r == Err::<
                Self,
                Error,
            >(Error::InvalidCode),
    {
        if !has_digits(s, 6) {
            proof {
                lemma_parse_secondary(s@);
            }
            return Err(Error::InvalidCode);
        }
        let y2: u8 = digit_value_at(s, 4);
        let x2: u8 = digit_value_at(s, 5);
        if y2 >= 7 || x2 >= 7 {
            return Err(Error::InvalidCode);
        }
        match PrimaryCode::from_str(s.substring_ascii(0, 4)) {
            Ok(primary) => Ok(SecondaryCode { primary, y2, x2 }),
            Err(e) => Err(e),
        }
    }

    /// What `from_lnglat` returns: the cell that holds the point, where the
    /// primary grid has one.
    pub open spec fn from_lnglat_spec(lnglat: LngLat) -> Result<SecondaryCode, Error> {
        match PrimaryCode::from_lnglat_spec(lnglat) {
            Ok(primary) => Ok(
                Self::of(
                    primary,
                    step_index(lnglat.vlat as int, SECONDARY_LAT as int, 8),
                    step_index(lnglat.vlng as int, SECONDARY_LNG as int, 8),
                ),
            ),
            Err(e) => Err(e),
        }
    }

    /// Finds the secondary cell that holds a point.
    pub fn from_lnglat(lnglat: LngLat) -> (r: Result<Self, Error>)
        ensures
            r == Self::from_lnglat_spec(lnglat),
    {
        match PrimaryCode::from_lnglat(lnglat) {
            Ok(primary) => {
                proof {
                    lemma_in_grid_nonnegative(lnglat);
                }
                let y2: i64 = step(lnglat.vlat, SECONDARY_LAT, 8);
                let x2: i64 = step(lnglat.vlng, SECONDARY_LNG, 8);
                Ok(SecondaryCode { primary, y2: y2 as u8, x2: x2 as u8 })
            },
            Err(e) => Err(e),
        }
    }

    /// The row of the primary cell, 0 to 99.
    pub open spec fn y1_spec(&self) -> u8 {
        self.primary().y1()
    }

    /// The column of the primary cell, 0 to 99.
    pub open spec fn x1_spec(&self) -> u8 {
        self.primary().x1()
    }

    /// The row of the primary cell, 0 to 99.
    #[verifier::when_used_as_spec(y1_spec)]
    pub fn y1(&self) -> (r: u8)
        ensures
            r == self.y1_spec(),
    {
        self.primary.y1()
    }

    /// The column of the primary cell, 0 to 99.
    #[verifier::when_used_as_spec(x1_spec)]
    pub fn x1(&self) -> (r: u8)
        ensures
            r == self.x1_spec(),
    {
        self.primary.x1()
    }

    /// The row within the primary cell, 0 to 7.
    #[verifier::when_used_as_spec(y2_spec)]
    pub fn y2(&self) -> (r: u8)
        ensures
            r == self.y2_spec(),
            r <= 7,
    {
        proof {
            use_type_invariant(self);
        }
        self.y2
    }

    /// The column within the primary cell, 0 to 7.
    #[verifier::when_used_as_spec(x2_spec)]
    pub fn x2(&self) -> (r: u8)
        ensures
            r == self.x2_spec(),
            r <= 7,
    {
        proof {
            use_type_invariant(self);
        }
        self.x2
    }

    /// The primary code above this one.
    #[verifier::when_used_as_spec(primary_spec)]
    pub fn primary(&self) -> (r: PrimaryCode)
        ensures
            r == self.primary_spec(),
    {
        self.primary
    }

    /// The 100 standard codes below this one, row by row.
    pub open spec fn standards(&self) -> Seq<StandardCode> {
        Seq::new(100, |i: int| StandardCode::of(*self, i / 10, i % 10))
    }

    /// Lists the 100 standard codes below this one, row by row.
    pub fn iter_standard(&self) -> (r: Vec<StandardCode>)
        ensures
            r@ == self.standards(),
    {
        let mut v: Vec<StandardCode> = Vec::new();
        let mut y3: u8 = 0;
        while y3 < 10
            invariant
                y3 <= 10,
                v@.len() == y3 * 10,
                forall|i: int|
                    0 <= i < v@.len() ==> v@[i] == StandardCode::of(*self, i / 10, i % 10),
            decreases 10 - y3,
        {
            let mut x3: u8 = 0;
            while x3 < 10
                invariant
                    y3 < 10,
                    x3 <= 10,
                    v@.len() == y3 * 10 + x3,
                    forall|i: int|
                        0 <= i < v@.len() ==> v@[i] == StandardCode::of(*self, i / 10, i % 10),
                decreases 10 - x3,
            {
                v.push(StandardCode::at(*self, y3, x3));
                x3 = x3 + 1;
            }
            y3 = y3 + 1;
        }
        assert(v@ =~= self.standards());
        v
    }

    /// The column of the cell in the grid of secondary cells that starts at
    /// longitude zero.
    pub open spec fn column(&self) -> int {
        self.primary().column() * 8 + self.x2()
    }

    /// The row of the cell in the grid of secondary cells that starts at
    /// latitude zero.
    pub open spec fn row(&self) -> int {
        self.primary().row() * 8 + self.y2()
    }
}

impl GridSquareCode for SecondaryCode {
    open spec fn wf(&self) -> bool {
        self.primary().wf() && self.y2() <= 7 && self.x2() <= 7
    }

    open spec fn patch_spec(&self) -> LngLatBox {
        cell(
            self.column() * SECONDARY_LNG,
            self.row() * SECONDARY_LAT,
            SECONDARY_LNG as int,
            SECONDARY_LAT as int,
        )
    }

    proof fn lemma_patch_wf(&self) {
        broadcast use LngLatBox::lemma_corners;
    }

    fn patch(&self) -> (r: LngLatBox) {
        proof {
            use_type_invariant(self);
        }
        cell_box(
            (self.primary.x1() as i64 + LNG_ORIGIN) * PRIMARY_LNG + self.x2 as i64 * SECONDARY_LNG,
            self.primary.y1() as i64 * PRIMARY_LAT + self.y2 as i64 * SECONDARY_LAT,
            SECONDARY_LNG,
            SECONDARY_LAT,
        )
    }
}

impl CodeText for SecondaryCode {
    open spec fn digits(&self) -> Seq<char> {
        self.primary().digits() + seq![
            digit_char(self.y2() as int),
            digit_char(self.x2() as int),
        ]
    }

    fn to_string(&self) -> (s: String) {
        proof {
            use_type_invariant(self);
        }
        let mut s = self.primary.to_string();
        s.append(digit_str(self.y2));
        s.append(digit_str(self.x2));
        assert(s@ =~= self.digits());
        s
    }
}

/// A text is a secondary code exactly when it is six digits of which the
/// last two are at most 6.
pub proof fn lemma_parse_secondary(s: Seq<char>)
    ensures
        SecondaryCode::parse_spec(s) is Ok <==> s.len() == 6 && all_digits(s) && digit_value(s[4])
            < 7 && digit_value(s[5]) < 7,
        SecondaryCode::parse_spec(s) is Err ==> SecondaryCode::parse_spec(s) == Err::<
            SecondaryCode,
            Error,
        >(Error::InvalidCode),
{
    let t = s.subrange(0, 4);
    lemma_parse_primary(t);
    if s.len() == 6 {
        assert forall|i: int| 0 <= i < 4 implies #[trigger] t[i] == s[i] by {}
        if all_digits(s) {
            assert forall|i: int| 0 <= i < t.len() implies is_digit(#[trigger] t[i]) by {
                assert(t[i] == s[i]);
            }
        }
        if all_digits(t) && is_digit(s[4]) && is_digit(s[5]) {
            assert forall|i: int| 0 <= i < s.len() implies is_digit(#[trigger] s[i]) by {
                if i < 4 {
                    assert(t[i] == s[i]);
                }
            }
        }
    }
}

/// The column and the row of a well-formed secondary code lie in the grid,
/// within those of its primary code.
pub proof fn lemma_secondary_position(c: SecondaryCode)
    requires
        c.wf(),
    ensures
        0 <= c.row() < 800,
        800 <= c.column() < 1600,
{
}

/// The cell of a secondary code lies inside the cell of its primary code.
pub proof fn lemma_secondary_within_primary(c: SecondaryCode)
    requires
        c.wf(),
    ensures
        c.primary().patch_spec().contains_box(&c.patch_spec()),
{
    broadcast use LngLatBox::lemma_corners;
}

/// Each of the codes that `iter_secondary` lists is well formed, has this
/// code above it, and its cell lies inside the cell of this code.
pub proof fn lemma_secondaries(p: PrimaryCode, i: int)
    requires
        p.wf(),
        0 <= i < 64,
    ensures
        p.secondaries()[i].wf(),
        p.secondaries()[i].primary() == p,
        p.patch_spec().contains_box(&p.secondaries()[i].patch_spec()),
{
    lemma_secondary_within_primary(p.secondaries()[i]);
}

/// The secondary code found for a point is well formed and its cell holds
/// the point; and a well-formed secondary code whose cell holds a point is
/// the one found for it.
pub proof fn lemma_secondary_of_point(c: SecondaryCode, lnglat: LngLat)
    requires
        c.wf(),
    ensures
        SecondaryCode::from_lnglat_spec(lnglat) == Ok::<SecondaryCode, Error>(c)
            <==> c.patch_spec().contains_point(lnglat),
        SecondaryCode::from_lnglat_spec(lnglat) matches Ok(found) ==> found.wf(),
{
    let p = c.primary();
    c.lemma_by_digits();
    lemma_primary_of_point(p, lnglat);
    lemma_cell_holds(
        c.column() * SECONDARY_LNG,
        c.row() * SECONDARY_LAT,
        SECONDARY_LNG as int,
        SECONDARY_LAT as int,
        lnglat,
    );
    lemma_cell_holds(
        p.column() * PRIMARY_LNG,
        p.row() * PRIMARY_LAT,
        PRIMARY_LNG as int,
        PRIMARY_LAT as int,
        lnglat,
    );
    if let Ok(h) = PrimaryCode::from_lnglat_spec(lnglat) {
        lemma_primary_of_point(h, lnglat);
        lemma_cell_holds(
            h.column() * PRIMARY_LNG,
            h.row() * PRIMARY_LAT,
            PRIMARY_LNG as int,
            PRIMARY_LAT as int,
            lnglat,
        );
        lemma_steps_of_point(
            lnglat,
            h.column(),
            h.row(),
            SECONDARY_LNG as int,
            SECONDARY_LAT as int,
            8,
            c.x2() as int,
            c.y2() as int,
        );
        SecondaryCode::lemma_of(
            h,
            step_index(lnglat.vlat as int, SECONDARY_LAT as int, 8),
            step_index(lnglat.vlng as int, SECONDARY_LNG as int, 8),
        );
    }
}

/// Reading the digits that a secondary code is written as gives the code
/// back, unless its row or its column is 7: such digits are refused.
pub proof fn lemma_secondary_text(c: SecondaryCode)
    requires
        c.wf(),
    ensures
        c.digits().len() == 6,
        c.y2() <= 6 && c.x2() <= 6 ==> SecondaryCode::parse_spec(c.digits()) == Ok::<
            SecondaryCode,
            Error,
        >(c),
        c.y2() == 7 || c.x2() == 7 ==> SecondaryCode::parse_spec(c.digits()) == Err::<
            SecondaryCode,
            Error,
        >(Error::InvalidCode),
{
    c.lemma_by_digits();
    lemma_primary_text(c.primary());
    assert(c.digits().subrange(0, 4) =~= c.primary().digits());
}

/// Writing out the secondary code that was read from a text gives the text
/// back.
pub proof fn lemma_secondary_parse(s: Seq<char>)
    requires
        SecondaryCode::parse_spec(s) is Ok,
    ensures
        SecondaryCode::parse_spec(s)->Ok_0.wf(),
        SecondaryCode::parse_spec(s)->Ok_0.digits() == s,
{
    let c = SecondaryCode::parse_spec(s)->Ok_0;
    let t = s.subrange(0, 4);
    lemma_primary_parse(t);
    SecondaryCode::lemma_of(PrimaryCode::parse_spec(t)->Ok_0, digit_value(s[4]), digit_value(s[5]));
    assert(c.digits() =~= s);
}

impl Subdivide for SecondaryCode {
    type Child = StandardCode;

    open spec fn children_spec(&self) -> Seq<StandardCode> {
        self.standards()
    }

    proof fn lemma_child_within(&self, i: int) {
        lemma_standards(*self, i);
    }

    fn children(&self) -> (r: Vec<StandardCode>) {
        self.iter_standard()
    }
}

/// The number of a secondary code is what its six digits stand for: reading
/// the number gives what reading the digits gives.
pub proof fn lemma_secondary_number(s: Seq<char>)
    requires
        SecondaryCode::parse_spec(s) is Ok,
    ensures
        SecondaryCode::from_int_spec(text_value(s)) == SecondaryCode::parse_spec(s),
        0 <= text_value(s) <= 999_999,
{
    lemma_primary_number(s.subrange(0, 4));
    lemma_text_value_step(s, 5);
    lemma_text_value_step(s, 6);
}

/// The secondary cells of a primary cell cover it: the secondary code found
/// for a point of the cell of a primary code is one of the codes that
/// `iter_secondary` lists for that code.
pub proof fn lemma_secondaries_cover(p: PrimaryCode, lnglat: LngLat)
    requires
        p.wf(),
        p.patch_spec().contains_point(lnglat),
    ensures
        SecondaryCode::from_lnglat_spec(lnglat) is Ok,
        p.secondaries().contains(SecondaryCode::from_lnglat_spec(lnglat)->Ok_0),
{
    lemma_primary_of_point(p, lnglat);
    lemma_cell_holds(
        p.column() * PRIMARY_LNG,
        p.row() * PRIMARY_LAT,
        PRIMARY_LNG as int,
        PRIMARY_LAT as int,
        lnglat,
    );
    lemma_steps_of_point(
        lnglat,
        p.column(),
        p.row(),
        SECONDARY_LNG as int,
        SECONDARY_LAT as int,
        8,
        0,
        0,
    );
    let y = step_index(lnglat.vlat as int, SECONDARY_LAT as int, 8);
    let x = step_index(lnglat.vlng as int, SECONDARY_LNG as int, 8);
    assert(p.secondaries()[y * 8 + x] == SecondaryCode::of(p, y, x));
}

impl core::str::FromStr for SecondaryCode {
    type Err = Error;

    /// Reads the code as `SecondaryCode::from_str` does.
    fn from_str(s: &str) -> (r: Result<Self, Error>)
        ensures
            r == SecondaryCode::parse_spec(s@),
    {
        SecondaryCode::from_str(s)
    }
}

} // verus!
