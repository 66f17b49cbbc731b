//! What the six levels of grid square codes share: the sizes of their cells,
//! and what a code of any level can do.
//!
//! ```text
//! primary:   [YY][XX]
//! secondary: [YY][XX][0-7][0-7]
//! standard:  [YY][XX][0-7][0-7][0-9][0-9]
//! half:      [YY][XX][0-7][0-7][0-9][0-9][1-4]
//! quarter:   [YY][XX][0-7][0-7][0-9][0-9][1-4][1-4]
//! eighth:    [YY][XX][0-7][0-7][0-9][0-9][1-4][1-4][1-4]
//! ```
//!
//! The quadrants of a cell are numbered
//!
//! ```text
//! 3 4
//! 1 2
//! ```

use vstd::prelude::*;
use vstd::string::*;
use crate::gridsquare::arith::{lemma_step_of, lemma_step_unique, step_index};
use crate::gridsquare::lnglat::{LngLat, LngLatBox, DEGREE, MULTIPLIER};
use crate::gridsquare::text::{all_digits, digit_char, digit_value, is_digit};

verus! {

/// The width of a primary cell, in stored units of longitude.
pub const PRIMARY_LNG: i64 = 30_000_000_000;

/// The height of a primary cell, in stored units of latitude.
pub const PRIMARY_LAT: i64 = 20_000_000_000;

/// The width of a secondary cell: an eighth of a primary cell.
pub const SECONDARY_LNG: i64 = 3_750_000_000;

/// The height of a secondary cell: an eighth of a primary cell.
pub const SECONDARY_LAT: i64 = 2_500_000_000;

/// The width of a standard cell: a tenth of a secondary cell.
pub const STANDARD_LNG: i64 = 375_000_000;

/// The height of a standard cell: a tenth of a secondary cell.
pub const STANDARD_LAT: i64 = 250_000_000;

/// The width of a half cell: half of a standard cell.
pub const HALF_LNG: i64 = 187_500_000;

/// The height of a half cell: half of a standard cell.
pub const HALF_LAT: i64 = 125_000_000;

/// The width of a quarter cell: half of a half cell.
pub const QUARTER_LNG: i64 = 93_750_000;

/// The height of a quarter cell: half of a half cell.
pub const QUARTER_LAT: i64 = 62_500_000;

/// The width of an eighth cell: half of a quarter cell.
pub const EIGHTH_LNG: i64 = 46_875_000;

/// The height of an eighth cell: half of a quarter cell.
pub const EIGHTH_LAT: i64 = 31_250_000;

/// The column, in the grid of primary cells that starts at longitude zero,
/// of the cells that primary codes give column 0: they start at 100 degrees
/// east.
pub const LNG_ORIGIN: i64 = 100;

/// The sizes of the cells, one from another: a primary cell is one degree
/// wide and two thirds of a degree high, and each level cuts the cells of the
/// level above into 8, 10, 2, 2 and 2 on each axis.
pub proof fn lemma_cell_sizes()
    ensures
        PRIMARY_LNG == MULTIPLIER * DEGREE,
        3 * PRIMARY_LAT == 2 * MULTIPLIER * DEGREE,
        8 * SECONDARY_LNG == PRIMARY_LNG,
        8 * SECONDARY_LAT == PRIMARY_LAT,
        10 * STANDARD_LNG == SECONDARY_LNG,
        10 * STANDARD_LAT == SECONDARY_LAT,
        2 * HALF_LNG == STANDARD_LNG,
        2 * HALF_LAT == STANDARD_LAT,
        2 * QUARTER_LNG == HALF_LNG,
        2 * QUARTER_LAT == HALF_LAT,
        2 * EIGHTH_LNG == QUARTER_LNG,
        2 * EIGHTH_LAT == QUARTER_LAT,
{
}

/// The box with the given lower corner, width and height.
pub open spec fn cell(lng: int, lat: int, width: int, height: int) -> LngLatBox {
    LngLatBox::from_corners(
        LngLat { vlng: lng as i64, vlat: lat as i64 },
        LngLat { vlng: (lng + width) as i64, vlat: (lat + height) as i64 },
    )
}

/// Builds `cell(lng, lat, width, height)`.
pub(crate) fn cell_box(lng: i64, lat: i64, width: i64, height: i64) -> (r: LngLatBox)
    requires
        0 <= width,
        0 <= height,
        lng + width <= i64::MAX,
        lat + height <= i64::MAX,
    ensures
        r == cell(lng as int, lat as int, width as int, height as int),
{
    LngLatBox::new(LngLat::new_raw(lng, lat), LngLat::new_raw(lng + width, lat + height))
}

/// A grid square code: it names a cell, and the cell has a bounding box.
pub trait GridSquareCode: Sized {
    /// Whether every digit of the code is in the range of its level.
    spec fn wf(&self) -> bool;

    /// The bounding box of the cell.
    spec fn patch_spec(&self) -> LngLatBox;

    /// The bounding box of a well-formed code has its corners in order.
    proof fn lemma_patch_wf(&self)
        requires
            self.wf(),
        ensures
            self.patch_spec().wf(),
    ;

    /// Returns the bounding box of the cell.
    fn patch(&self) -> (r: LngLatBox)
        ensures
            r == self.patch_spec(),
    ;
}

/// A code that can be written out as its digits.
pub trait CodeText {
    /// The digits of the code, each level at its fixed width.
    spec fn digits(&self) -> Seq<char>;

    /// Writes the code out as its digits.
    fn to_string(&self) -> (s: String)
        ensures
            s@ == self.digits(),
    ;
}

/// A code whose cell is cut into the cells of the next level.
pub trait Subdivide: GridSquareCode + Copy {
    /// The codes of the next level.
    type Child: GridSquareCode + Copy;

    /// The codes of the cells that this cell is cut into, row by row from
    /// the lower corner.
    spec fn children_spec(&self) -> Seq<Self::Child>;

    /// Each child of a well-formed code is well formed, and its cell lies
    /// inside the cell of the code.
    proof fn lemma_child_within(&self, i: int)
        requires
            self.wf(),
            0 <= i < self.children_spec().len(),
        ensures
            self.children_spec()[i].wf(),
            self.patch_spec().contains_box(&self.children_spec()[i].patch_spec()),
    ;

    /// Lists the codes of the cells that this cell is cut into.
    fn children(&self) -> (r: Vec<Self::Child>)
        ensures
            r@ == self.children_spec(),
    ;
}

/// The two digits of a number below one hundred.
pub open spec fn two_digits(n: int) -> Seq<char>
    recommends
        0 <= n <= 99,
{
    seq![digit_char(n / 10), digit_char(n % 10)]
}

/// The number that the two digits at `i` and `i + 1` of `s` stand for.
pub open spec fn two_digit_value(s: Seq<char>, i: int) -> int
    recommends
        0 <= i,
        i + 1 < s.len(),
{
    digit_value(s[i]) * 10 + digit_value(s[i + 1])
}

/// A text is all digits exactly when its first `n` characters and the rest are.
pub proof fn lemma_prefix_digits(s: Seq<char>, n: int)
    requires
        0 <= n,
    ensures
        n <= s.len() ==> (all_digits(s) <==> all_digits(s.subrange(0, n)) && forall|i: int|
            n <= i < s.len() ==> is_digit(#[trigger] s[i])),
        n <= s.len() ==> forall|i: int| 0 <= i < n ==> #[trigger] s.subrange(0, n)[i] == s[i],
{
    if n <= s.len() {
        let t = s.subrange(0, n);
        assert forall|i: int| 0 <= i < n implies #[trigger] t[i] == s[i] by {}
        if all_digits(s) {
            assert forall|i: int| 0 <= i < t.len() implies is_digit(#[trigger] t[i]) by {
                assert(t[i] == s[i]);
            }
        }
        if all_digits(t) && (forall|i: int| n <= i < s.len() ==> is_digit(#[trigger] s[i])) {
            assert forall|i: int| 0 <= i < s.len() implies is_digit(#[trigger] s[i]) by {
                if i < n {
                    assert(t[i] == s[i]);
                }
            }
        }
    }
}

/// A box given by its lower corner, width and height holds the points from
/// the lower corner up to, but not including, the upper edges.
pub proof fn lemma_cell_holds(lng: int, lat: int, width: int, height: int, lnglat: LngLat)
    requires
        0 <= lng,
        0 <= lat,
        0 <= width,
        0 <= height,
        lng + width <= i64::MAX,
        lat + height <= i64::MAX,
    ensures
        cell(lng, lat, width, height).contains_point(lnglat) <==> lng <= lnglat.vlng < lng + width
            && lat <= lnglat.vlat < lat + height,
{
    broadcast use LngLatBox::lemma_corners;
}

/// Where the cell at `column` and `row` of a grid holds a point and is cut
/// into `n` by `n` cells of `width` by `height`, the cell of the finer grid
/// at the steps `x` and `y` of that cell holds the point exactly when `x` and
/// `y` are the step indices of the point.
pub proof fn lemma_steps_of_point(
    lnglat: LngLat,
    column: int,
    row: int,
    width: int,
    height: int,
    n: int,
    x: int,
    y: int,
)
    requires
        0 < width,
        0 < height,
        0 < n,
        0 <= x < n,
        0 <= y < n,
        column * (width * n) <= lnglat.vlng < column * (width * n) + width * n,
        row * (height * n) <= lnglat.vlat < row * (height * n) + height * n,
    ensures
        0 <= step_index(lnglat.vlng as int, width, n) < n,
        0 <= step_index(lnglat.vlat as int, height, n) < n,
        (x == step_index(lnglat.vlng as int, width, n) && y == step_index(
            lnglat.vlat as int,
            height,
            n,
        )) <==> ((column * n + x) * width <= lnglat.vlng < (column * n + x) * width + width && (row
            * n + y) * height <= lnglat.vlat < (row * n + y) * height + height),
{
    lemma_step_of(lnglat.vlng as int, column, width, n);
    lemma_step_of(lnglat.vlat as int, row, height, n);
    if (column * n + x) * width <= lnglat.vlng < (column * n + x) * width + width {
        lemma_step_unique(lnglat.vlng as int, column, width, n, x);
    }
    if (row * n + y) * height <= lnglat.vlat < (row * n + y) * height + height {
        lemma_step_unique(lnglat.vlat as int, row, height, n, y);
    }
}

} // verus!
