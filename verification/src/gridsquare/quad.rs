//! Quadrants: a cell cut into 2 by 2 cells, which gives the half, the quarter
//! and the eighth codes below a standard code.

use vstd::prelude::*;
use vstd::string::*;
use crate::gridsquare::arith::{step, step_index};
use crate::gridsquare::code::{cell, CodeText, GridSquareCode, Subdivide};
use crate::gridsquare::lnglat::{lemma_split_within, split_at, LngLat, LngLatBox};
use crate::gridsquare::standard::StandardCode;
use crate::gridsquare::text::{digit_char, digit_str};

verus! {

/// One quadrant of a parent cell: the parent and the number of the quadrant.
#[derive(Debug, Copy, PartialEq, Eq)]
pub struct Quad<P: GridSquareCode> {
    parent: P,
    /// 1-4
    quad: u8,
}

impl<P: GridSquareCode + Copy> Clone for Quad<P> {
    fn clone(&self) -> (r: Self)
        ensures
            r == *self,
    {
        *self
    }
}

/// A half code: a quadrant of a standard cell.
pub type HalfCode = Quad<StandardCode>;

/// A quarter code: a quadrant of a half cell.
pub type QuarterCode = Quad<HalfCode>;

/// An eighth code: a quadrant of a quarter cell.
pub type EighthCode = Quad<QuarterCode>;

impl<P: GridSquareCode> Quad<P> {
    /// The code of the cell that this is a quadrant of.
    pub closed spec fn parent_spec(&self) -> P {
        self.parent
    }

    /// The number of the quadrant, 1 to 4.
    pub closed spec fn quad_spec(&self) -> u8 {
        self.quad
    }

    /// The quadrant is one of the four.
    #[verifier::type_invariant]
    spec fn inv(self) -> bool {
        1 <= self.quad <= 4
    }

    /// Quadrant `quad` of `parent`.
    pub closed spec fn of(parent: P, quad: int) -> Quad<P> {
        Quad { parent, quad: quad as u8 }
    }

    /// The parts of `of(parent, quad)` are its arguments.
    pub proof fn lemma_of(parent: P, quad: int)
        requires
            0 <= quad <= 255,
        ensures
            Self::of(parent, quad).parent_spec() == parent,
            Self::of(parent, quad).quad() == quad,
    {
    }

    /// A quadrant is the quadrant of its parts.
    pub proof fn lemma_by_digits(self)
        ensures
            self == Self::of(self.parent_spec(), self.quad() as int),
    {
    }

    /// The number of the quadrant, 1 to 4.
    #[verifier::when_used_as_spec(quad_spec)]
    pub fn quad(&self) -> (r: u8)
        ensures
            r == self.quad_spec(),
            1 <= r <= 4,
    {
        proof {
            use_type_invariant(self);
        }
        self.quad
    }
}

impl<P: GridSquareCode + Copy> Quad<P> {
    /// Quadrant `quad` of `parent`.
    pub fn new(parent: P, quad: u8) -> (r: Self)
        requires
            1 <= quad <= 4,
        ensures
            r == Self::of(parent, quad as int),
    {
        Quad { parent, quad }
    }

    /// The code of the cell that this is a quadrant of.
    pub fn parent(&self) -> (r: P)
        ensures
            r == self.parent_spec(),
    {
        self.parent
    }

    /// The four quadrants of this cell, in the order of their numbers.
    pub open spec fn quads(&self) -> Seq<Quad<Quad<P>>> {
        Seq::new(4, |i: int| Quad::<Quad<P>>::of(*self, i + 1))
    }

    /// Lists the four quadrants of this cell, in the order of their numbers.
    pub fn iter_quad(&self) -> (r: Vec<Quad<Self>>)
        ensures
            r@ == self.quads(),
    {
        let mut v: Vec<Quad<Self>> = Vec::new();
        let mut quad: u8 = 1;
        while quad <= 4
            invariant
                1 <= quad <= 5,
                v@.len() == quad - 1,
                forall|i: int| 0 <= i < v@.len() ==> v@[i] == Quad::<Quad<P>>::of(*self, i + 1),
            decreases 5 - quad,
        {
            v.push(Quad { parent: *self, quad });
            quad = quad + 1;
        }
        assert(v@ =~= self.quads());
        v
    }
}

impl<P: GridSquareCode> GridSquareCode for Quad<P> {
    open spec fn wf(&self) -> bool {
        self.parent_spec().wf() && 1 <= self.quad() <= 4
    }

    open spec fn patch_spec(&self) -> LngLatBox {
        self.parent_spec().patch_spec().split_spec(2, (self.quad() - 1) % 2, (self.quad() - 1) / 2)
    }

    proof fn lemma_patch_wf(&self) {
        self.parent_spec().lemma_patch_wf();
        lemma_split_within(
            self.parent_spec().patch_spec(),
            2,
            (self.quad() - 1) % 2,
            (self.quad() - 1) / 2,
        );
    }

    fn patch(&self) -> (r: LngLatBox) {
        proof {
            use_type_invariant(self);
        }
        let patch = self.parent.patch();
        let d: u8 = self.quad - 1;
        assert(d & 1 == d % 2 && d >> 1 == d / 2) by (bit_vector);
        patch.split::<2>(d & 1, d >> 1)
    }
}

impl<P: GridSquareCode + CodeText> CodeText for Quad<P> {
    open spec fn digits(&self) -> Seq<char> {
        self.parent_spec().digits().push(digit_char(self.quad() as int))
    }

    fn to_string(&self) -> (s: String) {
        proof {
            use_type_invariant(self);
        }
        let mut s = self.parent.to_string();
        s.append(digit_str(self.quad));
        assert(s@ =~= self.digits());
        s
    }
}

/// The number of the quadrant that holds a point, in the grid of cells of
/// the given width and height that starts at zero: the column is the low bit
/// and the row the high bit of the number less one.
pub open spec fn quadrant_at(lnglat: LngLat, width: int, height: int) -> int
    recommends
        0 < width,
        0 < height,
{
    step_index(lnglat.vlat as int, height, 2) * 2 + step_index(lnglat.vlng as int, width, 2) + 1
}

/// Computes `quadrant_at(lnglat, width, height)`.
pub(crate) fn quadrant(lnglat: LngLat, width: i64, height: i64) -> (r: u8)
    requires
        0 < width,
        0 < height,
        0 <= lnglat.vlng,
        0 <= lnglat.vlat,
    ensures
        r == quadrant_at(lnglat, width as int, height as int),
        1 <= r <= 4,
{
    let yd: i64 = step(lnglat.vlat, height, 2);
    let xd: i64 = step(lnglat.vlng, width, 2);
    (yd * 2 + xd + 1) as u8
}

/// A quadrant of a box of even width and height, written out: its lower
/// corner, its width and its height.
pub proof fn lemma_quadrant_of_cell(lng: int, lat: int, width: int, height: int, quad: int)
    requires
        0 <= lng,
        0 <= lat,
        0 <= width,
        0 <= height,
        lng + width <= i64::MAX,
        lat + height <= i64::MAX,
        width % 2 == 0,
        height % 2 == 0,
        1 <= quad <= 4,
    ensures
        cell(lng, lat, width, height).split_spec(2, (quad - 1) % 2, (quad - 1) / 2) == cell(
            lng + ((quad - 1) % 2) * (width / 2),
            lat + ((quad - 1) / 2) * (height / 2),
            width / 2,
            height / 2,
        ),
{
    broadcast use LngLatBox::lemma_corners;

    let b = cell(lng, lat, width, height);
    let x = (quad - 1) % 2;
    let y = (quad - 1) / 2;
    assert(b.min() == LngLat { vlng: lng as i64, vlat: lat as i64 });
    assert(b.max() == LngLat { vlng: (lng + width) as i64, vlat: (lat + height) as i64 });
    assert(x == 0 || x == 1);
    assert(y == 0 || y == 1);
    assert(width * x == x * width && width * (x + 1) == x * width + width) by (nonlinear_arith);
    assert(height * y == y * height && height * (y + 1) == y * height + height)
        by (nonlinear_arith);
    assert(x * (width / 2) == (if x == 0 {
        0
    } else {
        width / 2
    }));
    assert(y * (height / 2) == (if y == 0 {
        0
    } else {
        height / 2
    }));
    assert(split_at(lng, lng + width, 2, x) == lng + x * (width / 2));
    assert(split_at(lng, lng + width, 2, x + 1) == lng + x * (width / 2) + width / 2);
    assert(split_at(lat, lat + height, 2, y) == lat + y * (height / 2));
    assert(split_at(lat, lat + height, 2, y + 1) == lat + y * (height / 2) + height / 2);
}

/// The cell of a quadrant lies inside the cell that it is a quadrant of.
pub proof fn lemma_quad_within_parent<P: GridSquareCode>(c: Quad<P>)
    requires
        c.wf(),
    ensures
        c.parent_spec().patch_spec().contains_box(&c.patch_spec()),
{
    c.parent_spec().lemma_patch_wf();
    lemma_split_within(c.parent_spec().patch_spec(), 2, (c.quad() - 1) % 2, (c.quad() - 1) / 2);
}

/// Each of the codes that `iter_quad` lists is well formed, has this code
/// above it, and its cell lies inside the cell of this code.
pub proof fn lemma_quads<P: GridSquareCode + Copy>(p: Quad<P>, i: int)
    requires
        p.wf(),
        0 <= i < 4,
    ensures
        p.quads()[i].wf(),
        p.quads()[i].parent_spec() == p,
        p.patch_spec().contains_box(&p.quads()[i].patch_spec()),
{
    lemma_quad_within_parent(p.quads()[i]);
}

impl<P: GridSquareCode + Copy> Subdivide for Quad<P> {
    type Child = Quad<Quad<P>>;

    open spec fn children_spec(&self) -> Seq<Quad<Quad<P>>> {
        self.quads()
    }

    proof fn lemma_child_within(&self, i: int) {
        lemma_quads(*self, i);
    }

    fn children(&self) -> (r: Vec<Quad<Quad<P>>>) {
        self.iter_quad()
    }
}

} // verus!
