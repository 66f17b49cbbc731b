//! Fixed-point coordinates and axis-aligned boxes over them.
//!
//! A coordinate is held as an integer count of units, `DEGREE` units to the
//! degree, multiplied by `MULTIPLIER`. In that scale the edges of the cells of
//! every level are whole numbers, so the subdivisions are exact.

use vstd::prelude::*;
use vstd::string::*;
use crate::gridsquare::arith::{div_floor, floor_div, lemma_floor_div_range};
use crate::gridsquare::text::{decimal_text, power_of_ten, push_decimal};

verus! {

/// The factor by which a stored coordinate exceeds the coordinate in degrees.
pub const MULTIPLIER: i64 = 30;

/// The number of fixed-point units in one degree.
pub const DEGREE: i64 = 1_000_000_000;

/// The largest magnitude, in units of a degree, that can be scaled by `MULTIPLIER`.
pub const MAX_UNSCALED: i64 = 307_445_734_561_825_860;

/// A longitude and a latitude, both stored scaled by `MULTIPLIER`.
#[derive(Clone, Copy, Debug, PartialEq, Eq, Structural)]
pub struct LngLat {
    /// The scaled longitude.
    pub vlng: i64,
    /// The scaled latitude.
    pub vlat: i64,
}

impl LngLat {
    /// Scales a longitude and a latitude given in units of a degree.
    pub fn new(lng: i64, lat: i64) -> (r: Self)
        requires
            -MAX_UNSCALED <= lng <= MAX_UNSCALED,
            -MAX_UNSCALED <= lat <= MAX_UNSCALED,
        ensures
            r.vlng == lng * MULTIPLIER,
            r.vlat == lat * MULTIPLIER,
            r.lng_spec() == lng,
            r.lat_spec() == lat,
    {
        LngLat { vlng: lng * MULTIPLIER, vlat: lat * MULTIPLIER }
    }

    /// Takes a longitude and a latitude that are scaled already.
    pub fn new_raw(vlng: i64, vlat: i64) -> (r: Self)
        ensures
            r == (LngLat { vlng, vlat }),
    {
        LngLat { vlng, vlat }
    }

    /// The longitude in units of a degree, rounded down to a whole unit.
    pub open spec fn lng_spec(&self) -> int {
        floor_div(self.vlng as int, MULTIPLIER as int)
    }

    /// The latitude in units of a degree, rounded down to a whole unit.
    pub open spec fn lat_spec(&self) -> int {
        floor_div(self.vlat as int, MULTIPLIER as int)
    }

    /// The longitude in units of a degree, rounded down to a whole unit.
    pub fn lng(&self) -> (r: i64)
        ensures
            r == self.lng_spec(),
    {
        div_floor(self.vlng, MULTIPLIER)
    }

    /// The latitude in units of a degree, rounded down to a whole unit.
    pub fn lat(&self) -> (r: i64)
        ensures
            r == self.lat_spec(),
    {
        div_floor(self.vlat, MULTIPLIER)
    }

    /// The text of the point: its longitude and its latitude in degrees, as
    /// decimal numbers.
    pub open spec fn text(&self) -> Seq<char> {
        "LngLat("@ + decimal_text(self.lng_spec(), (DEGREE / 10) as nat) + ", "@ + decimal_text(
            self.lat_spec(),
            (DEGREE / 10) as nat,
        ) + ")"@
    }

    /// Writes the point out as `LngLat(lng, lat)`, in degrees.
    pub fn to_string(&self) -> (s: String)
        ensures
            s@ == self.text(),
    {
        proof {
            lemma_floor_div_range(self.vlng as int, MULTIPLIER as int);
            lemma_floor_div_range(self.vlat as int, MULTIPLIER as int);
            reveal_with_fuel(power_of_ten, 10);
        }
        let mut s = String::new();
        s.append("LngLat(");
        push_decimal(&mut s, self.lng(), 100_000_000);
        s.append(", ");
        push_decimal(&mut s, self.lat(), 100_000_000);
        s.append(")");
        assert(s@ =~= self.text());
        s
    }
}

/// The smaller of two integers.
pub open spec fn lesser(a: int, b: int) -> int {
    if a <= b {
        a
    } else {
        b
    }
}

/// The larger of two integers.
pub open spec fn greater(a: int, b: int) -> int {
    if a <= b {
        b
    } else {
        a
    }
}

/// The `i`-th of the `n + 1` points that cut `[lo, hi]` into `n` equal parts.
pub open spec fn split_at(lo: int, hi: int, n: int, i: int) -> int
    recommends
        lo <= hi,
        0 < n,
{
    lo + ((hi - lo) * i) / n
}

/// The cut points of an interval start at its lower end, stop at its upper
/// end and never step backwards.
pub proof fn lemma_split_at(lo: int, hi: int, n: int, i: int)
    requires
        lo <= hi,
        0 < n,
        0 <= i < n,
    ensures
        split_at(lo, hi, n, 0) == lo,
        split_at(lo, hi, n, n) == hi,
        lo <= split_at(lo, hi, n, i) <= split_at(lo, hi, n, i + 1) <= hi,
{
    let w = hi - lo;
    assert(w * 0 == 0) by (nonlinear_arith);
    assert(0 <= w * i <= w * (i + 1) <= w * n) by (nonlinear_arith)
        requires
            0 <= w,
            0 <= i < n,
    ;
    vstd::arithmetic::div_mod::lemma_div_is_ordered(0, w * i, n);
    vstd::arithmetic::div_mod::lemma_div_is_ordered(w * i, w * (i + 1), n);
    vstd::arithmetic::div_mod::lemma_div_is_ordered(w * (i + 1), w * n, n);
    vstd::arithmetic::div_mod::lemma_div_multiples_vanish(w, n);
    assert(w * n == n * w) by (nonlinear_arith);
}

/// An axis-aligned box: its lower corner and its upper corner.
#[derive(Clone, Copy, Debug, PartialEq, Eq, Structural)]
pub struct LngLatBox {
    min: LngLat,
    max: LngLat,
}

impl LngLatBox {
    /// The lower corner.
    pub closed spec fn min_spec(&self) -> LngLat {
        self.min
    }

    /// The upper corner.
    pub closed spec fn max_spec(&self) -> LngLat {
        self.max
    }

    /// The corners are in order on both axes.
    #[verifier::type_invariant]
    pub open spec fn wf(self) -> bool {
        &&& self.min().vlng <= self.max().vlng
        &&& self.min().vlat <= self.max().vlat
    }

    /// The box with exactly these corners.
    pub closed spec fn from_corners(min: LngLat, max: LngLat) -> LngLatBox {
        LngLatBox { min, max }
    }

    /// The box spanned by two points, whichever way round they come.
    pub open spec fn new_spec(a: LngLat, b: LngLat) -> LngLatBox {
        Self::from_corners(
            LngLat {
                vlng: lesser(a.vlng as int, b.vlng as int) as i64,
                vlat: lesser(a.vlat as int, b.vlat as int) as i64,
            },
            LngLat {
                vlng: greater(a.vlng as int, b.vlng as int) as i64,
                vlat: greater(a.vlat as int, b.vlat as int) as i64,
            },
        )
    }

    /// The corners of `from_corners` are its arguments.
    pub broadcast proof fn lemma_corners(min: LngLat, max: LngLat)
        ensures
            (#[trigger] Self::from_corners(min, max)).min() == min,
            Self::from_corners(min, max).max() == max,
    {
    }

    /// A box is what its two corners make it.
    pub proof fn lemma_by_corners(self)
        ensures
            self == Self::from_corners(self.min(), self.max()),
    {
    }

    /// The box spanned by two points; on each axis the smaller value goes to
    /// the lower corner.
    #[verifier::when_used_as_spec(new_spec)]
    pub fn new(min: LngLat, max: LngLat) -> (r: Self)
        ensures
            r == Self::new_spec(min, max),
            r.min().vlng == lesser(min.vlng as int, max.vlng as int),
            r.min().vlat == lesser(min.vlat as int, max.vlat as int),
            r.max().vlng == greater(min.vlng as int, max.vlng as int),
            r.max().vlat == greater(min.vlat as int, max.vlat as int),
    {
        let mut min = min;
        let mut max = max;
        if min.vlng > max.vlng {
            let t: i64 = min.vlng;
            min.vlng = max.vlng;
            max.vlng = t;
        }
        if min.vlat > max.vlat {
            let t: i64 = min.vlat;
            min.vlat = max.vlat;
            max.vlat = t;
        }
        LngLatBox { min, max }
    }

    /// The lower corner.
    #[verifier::when_used_as_spec(min_spec)]
    pub fn min(&self) -> (r: LngLat)
        ensures
            r == self.min_spec(),
    {
        self.min
    }

    /// The upper corner.
    #[verifier::when_used_as_spec(max_spec)]
    pub fn max(&self) -> (r: LngLat)
        ensures
            r == self.max_spec(),
    {
        self.max
    }

    /// Whether the point lies in the box; the upper edges are outside.
    pub open spec fn contains_point_spec(&self, lnglat: LngLat) -> bool {
        &&& self.min().vlng <= lnglat.vlng < self.max().vlng
        &&& self.min().vlat <= lnglat.vlat < self.max().vlat
    }

    /// Whether the point lies in the box; the upper edges are outside.
    #[verifier::when_used_as_spec(contains_point_spec)]
    pub fn contains_point(&self, lnglat: LngLat) -> (r: bool)
        ensures
            r == self.contains_point_spec(lnglat),
    {
        lnglat.vlng >= self.min.vlng && lnglat.vlat >= self.min.vlat && lnglat.vlng
            < self.max.vlng && lnglat.vlat < self.max.vlat
    }

    /// Whether `target` lies inside the box, edges included.
    pub open spec fn contains_box_spec(&self, target: &LngLatBox) -> bool {
        &&& self.min().vlng <= target.min().vlng
        &&& target.max().vlng <= self.max().vlng
        &&& self.min().vlat <= target.min().vlat
        &&& target.max().vlat <= self.max().vlat
    }

    /// Whether `target` lies inside the box, edges included.
    #[verifier::when_used_as_spec(contains_box_spec)]
    pub fn contains_box(&self, target: &LngLatBox) -> (r: bool)
        ensures
            r == self.contains_box_spec(target),
    {
        self.max.vlng >= target.max.vlng && self.min.vlng <= target.min.vlng && self.max.vlat
            >= target.max.vlat && self.min.vlat <= target.min.vlat
    }

    /// Whether the two boxes share a point, edges included.
    pub open spec fn intersects_box_spec(&self, target: &LngLatBox) -> bool {
        &&& self.min().vlng <= target.max().vlng
        &&& target.min().vlng <= self.max().vlng
        &&& self.min().vlat <= target.max().vlat
        &&& target.min().vlat <= self.max().vlat
    }

    /// Whether the two boxes share a point, edges included.
    #[verifier::when_used_as_spec(intersects_box_spec)]
    pub fn intersects_box(&self, target: &LngLatBox) -> (r: bool)
        ensures
            r == self.intersects_box_spec(target),
    {
        self.min.vlng <= target.max.vlng && self.max.vlng >= target.min.vlng && self.min.vlat
            <= target.max.vlat && self.max.vlat >= target.min.vlat
    }

    /// Whether the two boxes share more than an edge or a corner.
    pub open spec fn overlaps(&self, target: &LngLatBox) -> bool {
        &&& self.min().vlng < target.max().vlng
        &&& target.min().vlng < self.max().vlng
        &&& self.min().vlat < target.max().vlat
        &&& target.min().vlat < self.max().vlat
    }

    /// The cell in column `x` and row `y` of the box cut into `n` by `n` cells.
    pub open spec fn split_spec(&self, n: int, x: int, y: int) -> LngLatBox
        recommends
            0 < n,
            0 <= x < n,
            0 <= y < n,
    {
        Self::from_corners(
            LngLat {
                vlng: split_at(self.min().vlng as int, self.max().vlng as int, n, x) as i64,
                vlat: split_at(self.min().vlat as int, self.max().vlat as int, n, y) as i64,
            },
            LngLat {
                vlng: split_at(self.min().vlng as int, self.max().vlng as int, n, x + 1) as i64,
                vlat: split_at(self.min().vlat as int, self.max().vlat as int, n, y + 1) as i64,
            },
        )
    }

    /// Cuts the box into `N` by `N` cells and gives the one in column `x`,
    /// row `y`, counted from the lower corner.
    pub fn split<const N: u8>(&self, x: u8, y: u8) -> (r: Self)
        requires
            N > 0,
            x < N,
            y < N,
        ensures
            r == self.split_spec(N as int, x as int, y as int),
            self.contains_box(&r),
    {
        proof {
            use_type_invariant(self);
            lemma_split_at(self.min.vlng as int, self.max.vlng as int, N as int, x as int);
            lemma_split_at(self.min.vlat as int, self.max.vlat as int, N as int, y as int);
        }
        LngLatBox {
            min: LngLat {
                vlng: cut(self.min.vlng, self.max.vlng, N, x),
                vlat: cut(self.min.vlat, self.max.vlat, N, y),
            },
            max: LngLat {
                vlng: cut(self.min.vlng, self.max.vlng, N, x + 1),
                vlat: cut(self.min.vlat, self.max.vlat, N, y + 1),
            },
        }
    }
}

/// Computes `split_at(lo, hi, n, i)`.
fn cut(lo: i64, hi: i64, n: u8, i: u8) -> (r: i64)
    requires
        lo <= hi,
        0 < n,
        i <= n,
    ensures
        r == split_at(lo as int, hi as int, n as int, i as int),
        lo <= r <= hi,
{
    let w: i128 = hi as i128 - lo as i128;
    proof {
        if i < n {
            lemma_split_at(lo as int, hi as int, n as int, i as int);
        } else {
            lemma_split_at(lo as int, hi as int, n as int, 0);
        }
        assert(0 <= w * i <= w * 255) by (nonlinear_arith)
            requires
                0 <= w,
                0 <= i <= 255,
        ;
    }
    let q: i128 = (w * (i as i128)) / (n as i128);
    (lo as i128 + q) as i64
}

/// Swapping the two points, on one axis or on both, spans the same box.
pub proof fn lemma_new_order(a: LngLat, b: LngLat)
    ensures
        LngLatBox::new_spec(b, a) == LngLatBox::new_spec(a, b),
        LngLatBox::new_spec(
            LngLat { vlng: b.vlng, vlat: a.vlat },
            LngLat { vlng: a.vlng, vlat: b.vlat },
        ) == LngLatBox::new_spec(a, b),
        LngLatBox::new_spec(
            LngLat { vlng: a.vlng, vlat: b.vlat },
            LngLat { vlng: b.vlng, vlat: a.vlat },
        ) == LngLatBox::new_spec(a, b),
{
}

/// A box spanned by two points is well formed, and spanning a box by its own
/// corners changes nothing.
pub proof fn lemma_new_normalizes(a: LngLat, b: LngLat)
    ensures
        LngLatBox::new_spec(a, b).wf(),
        LngLatBox::new_spec(LngLatBox::new_spec(a, b).min(), LngLatBox::new_spec(a, b).max())
            == LngLatBox::new_spec(a, b),
        a.vlng <= b.vlng && a.vlat <= b.vlat ==> LngLatBox::new_spec(a, b).min() == a
            && LngLatBox::new_spec(a, b).max() == b,
{
}

/// A cell of a split lies inside the box that was split, and is well formed.
pub proof fn lemma_split_within(b: LngLatBox, n: int, x: int, y: int)
    requires
        b.wf(),
        0 < n,
        0 <= x < n,
        0 <= y < n,
    ensures
        b.split_spec(n, x, y).wf(),
        b.contains_box(&b.split_spec(n, x, y)),
{
    lemma_split_at(b.min().vlng as int, b.max().vlng as int, n, x);
    lemma_split_at(b.min().vlat as int, b.max().vlat as int, n, y);
}

/// The cells of a split tile the box: neighbours share an edge, the first
/// cell starts at the lower corner and the last one ends at the upper corner.
pub proof fn lemma_split_tiles(b: LngLatBox, n: int, x: int, y: int)
    requires
        b.wf(),
        0 < n,
        0 <= x < n,
        0 <= y < n,
    ensures
        b.split_spec(n, 0, 0).min() == b.min(),
        b.split_spec(n, n - 1, n - 1).max() == b.max(),
        x + 1 < n ==> b.split_spec(n, x, y).max().vlng == b.split_spec(n, x + 1, y).min().vlng,
        y + 1 < n ==> b.split_spec(n, x, y).max().vlat == b.split_spec(n, x, y + 1).min().vlat,
{
    lemma_split_at(b.min().vlng as int, b.max().vlng as int, n, x);
    lemma_split_at(b.min().vlat as int, b.max().vlat as int, n, y);
}

} // verus!
