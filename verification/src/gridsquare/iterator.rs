//! The enumeration of the cells of a level that meet a query box.
//!
//! The enumeration goes down level by level. At each level it keeps the codes
//! whose cell meets the query box, and only those are cut into the cells of
//! the next level. Each level is a stream that hands out one code at a time
//! and asks the level above for the next parent only when it has handed out
//! all the children of the last one.

use vstd::prelude::*;
use crate::gridsquare::arith::{
    ceil_div,
    div_ceil,
    div_floor,
    floor_div,
    lemma_ceil_div_bounds,
    lemma_floor_div_bounds,
};
use crate::gridsquare::code::{GridSquareCode, Subdivide, LNG_ORIGIN, PRIMARY_LAT, PRIMARY_LNG};
use crate::gridsquare::lnglat::LngLatBox;
use crate::gridsquare::primary::PrimaryCode;
use crate::gridsquare::quad::{EighthCode, HalfCode, QuarterCode};
use crate::gridsquare::secondary::SecondaryCode;
use crate::gridsquare::standard::StandardCode;

verus! {

/// Whether a cell with the given bounding box is kept: with a query box,
/// where the two meet; without one, always.
pub open spec fn kept(boundary: Option<LngLatBox>, patch: LngLatBox) -> bool {
    match boundary {
        Some(b) => b.intersects_box(&patch),
        None => true,
    }
}

/// The codes among `codes` whose cell is kept, in their order.
pub open spec fn prune<C: GridSquareCode>(codes: Seq<C>, boundary: Option<LngLatBox>) -> Seq<C> {
    codes.filter(|c: C| kept(boundary, c.patch_spec()))
}

/// The children of `parents`, parent by parent.
pub open spec fn children_of<P: Subdivide>(parents: Seq<P>) -> Seq<P::Child> {
    parents.flat_map(|p: P| p.children_spec())
}

/// The children of `parents`, parent by parent, of which the cell is kept.
pub open spec fn expand<P: Subdivide>(parents: Seq<P>, boundary: Option<LngLatBox>) -> Seq<
    P::Child,
> {
    prune(children_of(parents), boundary)
}

/// Whether every code of `codes` is well formed.
pub open spec fn all_wf<C: GridSquareCode>(codes: Seq<C>) -> bool {
    forall|i: int| 0 <= i < codes.len() ==> (#[trigger] codes[i]).wf()
}

/// The primary codes among `primaries` that are kept.
pub open spec fn primary_codes_spec(
    primaries: Seq<PrimaryCode>,
    boundary: Option<LngLatBox>,
) -> Seq<PrimaryCode> {
    prune(primaries, boundary)
}

/// The secondary codes below the kept primary codes that are kept.
pub open spec fn secondary_codes_spec(
    primaries: Seq<PrimaryCode>,
    boundary: Option<LngLatBox>,
) -> Seq<SecondaryCode> {
    expand(primary_codes_spec(primaries, boundary), boundary)
}

/// The standard codes below the kept secondary codes that are kept.
pub open spec fn standard_codes_spec(
    primaries: Seq<PrimaryCode>,
    boundary: Option<LngLatBox>,
) -> Seq<StandardCode> {
    expand(secondary_codes_spec(primaries, boundary), boundary)
}

/// The half codes below the kept standard codes that are kept.
pub open spec fn half_codes_spec(
    primaries: Seq<PrimaryCode>,
    boundary: Option<LngLatBox>,
) -> Seq<HalfCode> {
    expand(standard_codes_spec(primaries, boundary), boundary)
}

/// The quarter codes below the kept half codes that are kept.
pub open spec fn quarter_codes_spec(
    primaries: Seq<PrimaryCode>,
    boundary: Option<LngLatBox>,
) -> Seq<QuarterCode> {
    expand(half_codes_spec(primaries, boundary), boundary)
}

/// The eighth codes below the kept quarter codes that are kept.
pub open spec fn eighth_codes_spec(
    primaries: Seq<PrimaryCode>,
    boundary: Option<LngLatBox>,
) -> Seq<EighthCode> {
    expand(quarter_codes_spec(primaries, boundary), boundary)
}

/// Each code with its bounding box.
pub open spec fn with_patches<C: GridSquareCode>(codes: Seq<C>) -> Seq<(C, LngLatBox)> {
    codes.map_values(|c: C| (c, c.patch_spec()))
}

/// Computes `kept(boundary, patch)`.
fn keep(boundary: &Option<LngLatBox>, patch: &LngLatBox) -> (r: bool)
    ensures
        r == kept(*boundary, *patch),
{
    match boundary {
        Some(b) => b.intersects_box(patch),
        None => true,
    }
}

/// Pruning a sequence that grew by one code.
proof fn lemma_prune_push<C: GridSquareCode>(codes: Seq<C>, code: C, boundary: Option<LngLatBox>)
    ensures
        prune(codes.push(code), boundary) == if kept(boundary, code.patch_spec()) {
            prune(codes, boundary).push(code)
        } else {
            prune(codes, boundary)
        },
{
    codes.lemma_filter_push(code, |c: C| kept(boundary, c.patch_spec()));
}

/// Pruning a sequence from which the first code is taken.
proof fn lemma_prune_first<C: GridSquareCode>(codes: Seq<C>, boundary: Option<LngLatBox>)
    requires
        codes.len() > 0,
    ensures
        prune(codes, boundary) == if kept(boundary, codes[0].patch_spec()) {
            seq![codes[0]] + prune(codes.skip(1), boundary)
        } else {
            prune(codes.skip(1), boundary)
        },
{
    let pred = |c: C| kept(boundary, c.patch_spec());
    assert(codes =~= seq![codes[0]] + codes.skip(1));
    Seq::filter_distributes_over_add(seq![codes[0]], codes.skip(1), pred);
    assert(seq![codes[0]] =~= Seq::<C>::empty().push(codes[0]));
    Seq::<C>::empty().lemma_filter_push(codes[0], pred);
    assert(Seq::<C>::empty().filter(pred) =~= Seq::<C>::empty()) by {
        reveal(Seq::filter);
    }
    if !kept(boundary, codes[0].patch_spec()) {
        assert(Seq::<C>::empty() + prune(codes.skip(1), boundary) =~= prune(
            codes.skip(1),
            boundary,
        ));
    }
}

/// The children of a sequence of parents that grew by one parent.
proof fn lemma_children_push<P: Subdivide>(parents: Seq<P>, parent: P)
    ensures
        children_of(parents.push(parent)) == children_of(parents) + parent.children_spec(),
{
    let f = |p: P| p.children_spec();
    assert(parents.push(parent).map_values(f) =~= parents.map_values(f).push(f(parent)));
    parents.map_values(f).lemma_flatten_push(f(parent));
}

/// Expanding a sequence of parents that grew by one parent.
proof fn lemma_expand_push<P: Subdivide>(parents: Seq<P>, parent: P, boundary: Option<LngLatBox>)
    ensures
        expand(parents.push(parent), boundary) == expand(parents, boundary) + prune(
            parent.children_spec(),
            boundary,
        ),
{
    lemma_children_push(parents, parent);
    Seq::filter_distributes_over_add(
        children_of(parents),
        parent.children_spec(),
        |c: P::Child| kept(boundary, c.patch_spec()),
    );
}

/// Expanding a sequence of parents from which the first parent is taken.
proof fn lemma_expand_first<P: Subdivide>(parents: Seq<P>, boundary: Option<LngLatBox>)
    requires
        parents.len() > 0,
    ensures
        expand(parents, boundary) == prune(parents[0].children_spec(), boundary) + expand(
            parents.skip(1),
            boundary,
        ),
{
    assert(parents =~= seq![parents[0]] + parents.skip(1));
    lemma_stage_add(seq![parents[0]], parents.skip(1), boundary);
    assert(seq![parents[0]] =~= Seq::<P>::empty().push(parents[0]));
    lemma_expand_push(Seq::<P>::empty(), parents[0], boundary);
    assert(children_of(Seq::<P>::empty()) =~= Seq::<P::Child>::empty());
    assert(expand(Seq::<P>::empty(), boundary) =~= Seq::<P::Child>::empty()) by {
        reveal(Seq::filter);
    }
    assert(Seq::<P::Child>::empty() + prune(parents[0].children_spec(), boundary) =~= prune(
        parents[0].children_spec(),
        boundary,
    ));
}

/// Keeps the codes whose cell meets the query box.
fn pruned<C: GridSquareCode + Copy>(codes: &Vec<C>, boundary: &Option<LngLatBox>) -> (r: Vec<C>)
    ensures
        r@ == prune(codes@, *boundary),
{
    let mut out: Vec<C> = Vec::new();
    let mut i: usize = 0;
    proof {
        reveal(Seq::filter);
        assert(codes@.take(0) =~= Seq::<C>::empty());
    }
    while i < codes.len()
        invariant
            i <= codes.len(),
            out@ == prune(codes@.take(i as int), *boundary),
        decreases codes.len() - i,
    {
        let patch = codes[i].patch();
        proof {
            lemma_prune_push(codes@.take(i as int), codes@[i as int], *boundary);
            assert(codes@.take(i as int).push(codes@[i as int]) =~= codes@.take(i + 1));
        }
        if keep(boundary, &patch) {
            out.push(codes[i]);
        }
        i = i + 1;
    }
    assert(codes@.take(codes.len() as int) =~= codes@);
    out
}

/// What is left of `items` from position `pos` on.
pub open spec fn rest_of<T>(items: Seq<T>, pos: int) -> Seq<T> {
    if 0 <= pos <= items.len() {
        items.skip(pos)
    } else {
        Seq::empty()
    }
}

/// A stream of codes: it hands out the codes of a sequence one by one, in
/// order, and computes each only when it is asked for.
pub trait CodeStream {
    /// The codes that the stream hands out.
    type Code: GridSquareCode + Copy;

    /// The codes that the stream has yet to hand out.
    spec fn remaining(&self) -> Seq<Self::Code>;

    /// Hands out the next code, or nothing when none is left.
    fn next(&mut self) -> (r: Option<Self::Code>)
        ensures
            old(self).remaining().len() == 0 ==> r is None,
            old(self).remaining().len() > 0 ==> r == Some(old(self).remaining()[0]),
            final(self).remaining() == rest_of(old(self).remaining(), 1),
    ;
}

/// The first stage of the enumeration: the seeds whose cell meets the query
/// box.
pub struct Seeds {
    codes: Vec<PrimaryCode>,
    boundary: Option<LngLatBox>,
    pos: usize,
}

impl Seeds {
    /// A stream of the codes among `codes` whose cell meets the query box.
    pub fn new(codes: Vec<PrimaryCode>, boundary: Option<LngLatBox>) -> (r: Self)
        ensures
            r.remaining() == prune(codes@, boundary),
    {
        assert(codes@.skip(0) =~= codes@);
        Seeds { codes, boundary, pos: 0 }
    }
}

impl CodeStream for Seeds {
    type Code = PrimaryCode;

    closed spec fn remaining(&self) -> Seq<PrimaryCode> {
        prune(rest_of(self.codes@, self.pos as int), self.boundary)
    }

    fn next(&mut self) -> (r: Option<PrimaryCode>) {
        proof {
            reveal(Seq::filter);
        }
        while self.pos < self.codes.len()
            invariant
                self.codes == old(self).codes,
                self.boundary == old(self).boundary,
                self.remaining() == old(self).remaining(),
            decreases self.codes.len() - self.pos,
        {
            let code = self.codes[self.pos];
            let patch = code.patch();
            proof {
                lemma_prune_first(rest_of(self.codes@, self.pos as int), self.boundary);
                assert(rest_of(self.codes@, self.pos as int).skip(1) =~= rest_of(
                    self.codes@,
                    self.pos + 1,
                ));
            }
            self.pos = self.pos + 1;
            if keep(&self.boundary, &patch) {
                assert(old(self).remaining().skip(1) =~= self.remaining());
                return Some(code);
            }
        }
        assert(rest_of(self.codes@, self.pos as int) =~= Seq::<PrimaryCode>::empty());
        None
    }
}

/// A later stage of the enumeration: the children of the codes of the stage
/// above whose cell meets the query box. It holds the children of one parent
/// at a time.
pub struct Stage<S: CodeStream> where S::Code: Subdivide {
    upstream: S,
    boundary: Option<LngLatBox>,
    batch: Vec<<S::Code as Subdivide>::Child>,
    pos: usize,
}

impl<S: CodeStream> Stage<S> where S::Code: Subdivide {
    /// A stream of the children of the codes of `upstream` whose cell meets
    /// the query box.
    pub fn new(upstream: S, boundary: Option<LngLatBox>) -> (r: Self)
        ensures
            r.remaining() == expand(upstream.remaining(), boundary),
    {
        let r = Stage { upstream, boundary, batch: Vec::new(), pos: 0 };
        assert(rest_of(r.batch@, 0) + expand(r.upstream.remaining(), boundary) =~= expand(
            upstream.remaining(),
            boundary,
        ));
        r
    }
}

impl<S: CodeStream> CodeStream for Stage<S> where S::Code: Subdivide {
    type Code = <S::Code as Subdivide>::Child;

    closed spec fn remaining(&self) -> Seq<<S::Code as Subdivide>::Child> {
        rest_of(self.batch@, self.pos as int) + expand(self.upstream.remaining(), self.boundary)
    }

    fn next(&mut self) -> (r: Option<<S::Code as Subdivide>::Child>) {
        loop
            invariant
                self.boundary == old(self).boundary,
                self.remaining() == old(self).remaining(),
            decreases self.upstream.remaining().len(),
        {
            if self.pos < self.batch.len() {
                let code = self.batch[self.pos];
                self.pos = self.pos + 1;
                assert(old(self).remaining().skip(1) =~= self.remaining());
                return Some(code);
            }
            let ghost above = self.upstream.remaining();
            match self.upstream.next() {
                None => {
                    proof {
                        reveal(Seq::filter);
                        assert(self.upstream.remaining() =~= Seq::<S::Code>::empty());
                        assert(children_of(self.upstream.remaining()) =~= Seq::<
                            <S::Code as Subdivide>::Child,
                        >::empty());
                    }
                    return None;
                },
                Some(parent) => {
                    proof {
                        lemma_expand_first(above, self.boundary);
                    }
                    let children = parent.children();
                    self.batch = pruned(&children, &self.boundary);
                    self.pos = 0;
                    assert(rest_of(self.batch@, 0) =~= self.batch@);
                },
            }
        }
    }
}

/// The stream of the primary codes of an enumeration.
pub type PrimaryCodes = Seeds;

/// The stream of the secondary codes of an enumeration.
pub type SecondaryCodes = Stage<PrimaryCodes>;

/// The stream of the standard codes of an enumeration.
pub type StandardCodes = Stage<SecondaryCodes>;

/// The stream of the half codes of an enumeration.
pub type HalfCodes = Stage<StandardCodes>;

/// The stream of the quarter codes of an enumeration.
pub type QuarterCodes = Stage<HalfCodes>;

/// The stream of the eighth codes of an enumeration.
pub type EighthCodes = Stage<QuarterCodes>;

/// A stream of codes, each with its bounding box.
pub struct Patches<S: CodeStream> {
    codes: S,
}

impl<S: CodeStream> Patches<S> {
    /// The codes, each with its bounding box, that the stream has yet to
    /// hand out.
    pub closed spec fn remaining(&self) -> Seq<(S::Code, LngLatBox)> {
        with_patches(self.codes.remaining())
    }

    /// A stream of the codes of `codes`, each with its bounding box.
    pub fn new(codes: S) -> (r: Self)
        ensures
            r.remaining() == with_patches(codes.remaining()),
    {
        Patches { codes }
    }

    /// Hands out the next code with its bounding box, or nothing when none
    /// is left.
    pub fn next(&mut self) -> (r: Option<(S::Code, LngLatBox)>)
        ensures
            old(self).remaining().len() == 0 ==> r is None,
            old(self).remaining().len() > 0 ==> r == Some(old(self).remaining()[0]),
            final(self).remaining() == rest_of(old(self).remaining(), 1),
            r matches Some(entry) ==> entry.1 == entry.0.patch_spec(),
    {
        match self.codes.next() {
            Some(code) => {
                let patch = code.patch();
                assert(self.remaining() =~= old(self).remaining().skip(1));
                Some((code, patch))
            },
            None => None,
        }
    }

    /// Hands out all that is left, in order.
    pub fn collect(self) -> (r: Vec<(S::Code, LngLatBox)>)
        ensures
            r@ == self.remaining(),
    {
        let mut stream = self;
        let mut out: Vec<(S::Code, LngLatBox)> = Vec::new();
        loop
            invariant
                out@ + stream.remaining() == self.remaining(),
            decreases stream.remaining().len(),
        {
            let ghost before = stream.remaining();
            match stream.next() {
                Some(entry) => {
                    out.push(entry);
                    assert(out@ + stream.remaining() =~= out@.drop_last() + before);
                },
                None => {
                    assert(out@ + stream.remaining() =~= out@);
                    return out;
                },
            }
        }
    }
}

/// Whether every entry of `entries` holds a code with its bounding box, and
/// the box is kept.
pub open spec fn all_kept<C: GridSquareCode>(
    entries: Seq<(C, LngLatBox)>,
    boundary: Option<LngLatBox>,
) -> bool {
    forall|i: int|
        0 <= i < entries.len() ==> (#[trigger] entries[i]).1 == entries[i].0.patch_spec() && kept(
            boundary,
            entries[i].1,
        )
}

/// Every entry of `with_patches(prune(..))` holds a code with its bounding
/// box, and the box is kept.
proof fn lemma_patches_kept<C: GridSquareCode>(codes: Seq<C>, boundary: Option<LngLatBox>)
    ensures
        all_kept(with_patches(prune(codes, boundary)), boundary),
{
    let entries = with_patches(prune(codes, boundary));
    assert forall|i: int| 0 <= i < entries.len() implies (#[trigger] entries[i]).1
        == entries[i].0.patch_spec() && kept(boundary, entries[i].1) by {
        lemma_prune_kept(codes, boundary, i);
    }
}

/// Streams the primary codes among `primaries` whose cell meets the query
/// box, in their order. Without a query box every code is kept.
pub fn primary_codes(primaries: Vec<PrimaryCode>, boundary: Option<LngLatBox>) -> (r: PrimaryCodes)
    ensures
        r.remaining() == primary_codes_spec(primaries@, boundary),
{
    Seeds::new(primaries, boundary)
}

/// Streams the secondary codes below `primaries` whose cell meets the query
/// box. Only the cells of primary codes that meet the box are cut up.
pub fn secondary_codes(primaries: Vec<PrimaryCode>, boundary: Option<LngLatBox>) -> (r:
    SecondaryCodes)
    ensures
        r.remaining() == secondary_codes_spec(primaries@, boundary),
{
    Stage::new(primary_codes(primaries, boundary), boundary)
}

/// Streams the standard codes below `primaries` whose cell meets the query
/// box. Only the cells of secondary codes that meet the box are cut up.
pub fn standard_codes(primaries: Vec<PrimaryCode>, boundary: Option<LngLatBox>) -> (r:
    StandardCodes)
    ensures
        r.remaining() == standard_codes_spec(primaries@, boundary),
{
    Stage::new(secondary_codes(primaries, boundary), boundary)
}

/// Streams the half codes below `primaries` whose cell meets the query box.
/// Only the cells of standard codes that meet the box are cut up.
pub fn half_codes(primaries: Vec<PrimaryCode>, boundary: Option<LngLatBox>) -> (r: HalfCodes)
    ensures
        r.remaining() == half_codes_spec(primaries@, boundary),
{
    Stage::new(standard_codes(primaries, boundary), boundary)
}

/// Streams the quarter codes below `primaries` whose cell meets the query
/// box. Only the cells of half codes that meet the box are cut up.
pub fn quarter_codes(primaries: Vec<PrimaryCode>, boundary: Option<LngLatBox>) -> (r: QuarterCodes)
    ensures
        r.remaining() == quarter_codes_spec(primaries@, boundary),
{
    Stage::new(half_codes(primaries, boundary), boundary)
}

/// Streams the eighth codes below `primaries` whose cell meets the query
/// box. Only the cells of quarter codes that meet the box are cut up.
pub fn eighth_codes(primaries: Vec<PrimaryCode>, boundary: Option<LngLatBox>) -> (r: EighthCodes)
    ensures
        r.remaining() == eighth_codes_spec(primaries@, boundary),
{
    Stage::new(quarter_codes(primaries, boundary), boundary)
}

/// Streams the primary codes among `primaries` whose cell meets the query
/// box, each with its bounding box.
pub fn primary_patches(primaries: Vec<PrimaryCode>, boundary: Option<LngLatBox>) -> (r: Patches<
    PrimaryCodes,
>)
    ensures
        r.remaining() == with_patches(primary_codes_spec(primaries@, boundary)),
        all_kept(r.remaining(), boundary),
{
    proof {
        lemma_patches_kept(primaries@, boundary);
    }
    Patches::new(primary_codes(primaries, boundary))
}

/// Streams the secondary codes below `primaries` whose cell meets the query
/// box, each with its bounding box.
pub fn secondary_patches(primaries: Vec<PrimaryCode>, boundary: Option<LngLatBox>) -> (r: Patches<
    SecondaryCodes,
>)
    ensures
        r.remaining() == with_patches(secondary_codes_spec(primaries@, boundary)),
        all_kept(r.remaining(), boundary),
{
    proof {
        lemma_patches_kept(children_of(primary_codes_spec(primaries@, boundary)), boundary);
    }
    Patches::new(secondary_codes(primaries, boundary))
}

/// Streams the standard codes below `primaries` whose cell meets the query
/// box, each with its bounding box.
pub fn standard_patches(primaries: Vec<PrimaryCode>, boundary: Option<LngLatBox>) -> (r: Patches<
    StandardCodes,
>)
    ensures
        r.remaining() == with_patches(standard_codes_spec(primaries@, boundary)),
        all_kept(r.remaining(), boundary),
{
    proof {
        lemma_patches_kept(children_of(secondary_codes_spec(primaries@, boundary)), boundary);
    }
    Patches::new(standard_codes(primaries, boundary))
}

/// Streams the half codes below `primaries` whose cell meets the query box,
/// each with its bounding box.
pub fn half_patches(primaries: Vec<PrimaryCode>, boundary: Option<LngLatBox>) -> (r: Patches<
    HalfCodes,
>)
    ensures
        r.remaining() == with_patches(half_codes_spec(primaries@, boundary)),
        all_kept(r.remaining(), boundary),
{
    proof {
        lemma_patches_kept(children_of(standard_codes_spec(primaries@, boundary)), boundary);
    }
    Patches::new(half_codes(primaries, boundary))
}

/// Streams the quarter codes below `primaries` whose cell meets the query
/// box, each with its bounding box.
pub fn quarter_patches(primaries: Vec<PrimaryCode>, boundary: Option<LngLatBox>) -> (r: Patches<
    QuarterCodes,
>)
    ensures
        r.remaining() == with_patches(quarter_codes_spec(primaries@, boundary)),
        all_kept(r.remaining(), boundary),
{
    proof {
        lemma_patches_kept(children_of(half_codes_spec(primaries@, boundary)), boundary);
    }
    Patches::new(quarter_codes(primaries, boundary))
}

/// Streams the eighth codes below `primaries` whose cell meets the query
/// box, each with its bounding box.
pub fn eighth_patches(primaries: Vec<PrimaryCode>, boundary: Option<LngLatBox>) -> (r: Patches<
    EighthCodes,
>)
    ensures
        r.remaining() == with_patches(eighth_codes_spec(primaries@, boundary)),
        all_kept(r.remaining(), boundary),
{
    proof {
        lemma_patches_kept(children_of(quarter_codes_spec(primaries@, boundary)), boundary);
    }
    Patches::new(eighth_codes(primaries, boundary))
}

/// Every code that pruning leaves is kept, and pruning leaves no code that
/// was not there.
pub proof fn lemma_prune_kept<C: GridSquareCode>(
    codes: Seq<C>,
    boundary: Option<LngLatBox>,
    i: int,
)
    requires
        0 <= i < prune(codes, boundary).len(),
    ensures
        kept(boundary, prune(codes, boundary)[i].patch_spec()),
        codes.contains(prune(codes, boundary)[i]),
{
    let pred = |c: C| kept(boundary, c.patch_spec());
    codes.lemma_filter_pred(pred, i);
    codes.lemma_filter_contains_rev(pred, codes.filter(pred)[i]);
}

/// `v`, where it lies from 0 to 100; else the nearer of the two.
pub open spec fn clamp_index(v: int) -> int {
    if v < 0 {
        0
    } else if v > 100 {
        100
    } else {
        v
    }
}

/// Computes `clamp_index(v)`.
fn clamped(v: i64) -> (r: u8)
    ensures
        r == clamp_index(v as int),
        r <= 100,
{
    if v < 0 {
        0
    } else if v > 100 {
        100
    } else {
        v as u8
    }
}

/// The column of the primary cells that start at `degrees` east, or -1 where
/// they lie west of the grid.
fn column_index(degrees: i64) -> (r: i64)
    ensures
        clamp_index(r as int) == clamp_index(degrees - LNG_ORIGIN),
{
    if degrees < LNG_ORIGIN {
        -1
    } else {
        degrees - LNG_ORIGIN
    }
}

/// The first primary row whose cells reach above the lower edge of `bounds`.
pub open spec fn first_row(bounds: LngLatBox) -> int {
    clamp_index(floor_div(bounds.min().vlat as int, PRIMARY_LAT as int))
}

/// The first primary row whose cells start at or above the upper edge of
/// `bounds`.
pub open spec fn end_row(bounds: LngLatBox) -> int {
    clamp_index(ceil_div(bounds.max().vlat as int, PRIMARY_LAT as int))
}

/// The first primary column whose cells reach beyond the western edge of
/// `bounds`.
pub open spec fn first_column(bounds: LngLatBox) -> int {
    clamp_index(floor_div(bounds.min().vlng as int, PRIMARY_LNG as int) - LNG_ORIGIN)
}

/// The first primary column whose cells start at or beyond the eastern edge
/// of `bounds`.
pub open spec fn end_column(bounds: LngLatBox) -> int {
    clamp_index(ceil_div(bounds.max().vlng as int, PRIMARY_LNG as int) - LNG_ORIGIN)
}

/// The primary codes of the rows from `ya` up to `yb` and the columns from
/// `xa` up to `xb`, both ends excluded, row by row.
pub open spec fn primary_range(ya: int, yb: int, xa: int, xb: int) -> Seq<PrimaryCode> {
    if ya < yb && xa < xb {
        Seq::new(
            ((yb - ya) * (xb - xa)) as nat,
            |i: int| PrimaryCode::of(ya + i / (xb - xa), xa + i % (xb - xa)),
        )
    } else {
        Seq::empty()
    }
}

/// What `primaries_from_bounds` returns.
pub open spec fn primaries_from_bounds_spec(bounds: LngLatBox) -> Seq<PrimaryCode> {
    primary_range(first_row(bounds), end_row(bounds), first_column(bounds), end_column(bounds))
}

/// Lists the primary codes whose cells overlap `bounds`, row by row: the
/// rectangle of rows and columns that `bounds` reaches into, cut down to the
/// grid.
pub fn primaries_from_bounds(bounds: LngLatBox) -> (r: Vec<PrimaryCode>)
    ensures
        r@ == primaries_from_bounds_spec(bounds),
{
    let min = bounds.min();
    let max = bounds.max();
    let xa: u8 = clamped(column_index(div_floor(min.vlng, PRIMARY_LNG)));
    let xb: u8 = clamped(column_index(div_ceil(max.vlng, PRIMARY_LNG)));
    let ya: u8 = clamped(div_floor(min.vlat, PRIMARY_LAT));
    let yb: u8 = clamped(div_ceil(max.vlat, PRIMARY_LAT));
    let mut out: Vec<PrimaryCode> = Vec::new();
    if xa >= xb {
        return out;
    }
    let ghost width = xb - xa;
    let mut y: u8 = ya;
    while y < yb
        invariant
            ya <= y,
            y <= yb || ya >= yb,
            yb <= 100,
            xa < xb <= 100,
            width == xb - xa,
            out@.len() == (if ya < yb {
                (y - ya) * width
            } else {
                0
            }),
            forall|i: int|
                0 <= i < out@.len() ==> out@[i] == PrimaryCode::of(ya + i / width, xa + i % width),
        decreases yb - y,
    {
        let mut x: u8 = xa;
        while x < xb
            invariant
                ya <= y < yb <= 100,
                xa <= x <= xb <= 100,
                width == xb - xa,
                out@.len() == (y - ya) * width + (x - xa),
                forall|i: int|
                    0 <= i < out@.len() ==> out@[i] == PrimaryCode::of(
                        ya + i / width,
                        xa + i % width,
                    ),
            decreases xb - x,
        {
            proof {
                vstd::arithmetic::div_mod::lemma_fundamental_div_mod_converse(
                    (y - ya) * width + (x - xa),
                    width,
                    (y - ya) as int,
                    (x - xa) as int,
                );
            }
            out.push(PrimaryCode::at(y, x));
            x = x + 1;
        }
        proof {
            assert((y - ya) * width + width == (y + 1 - ya) * width) by (nonlinear_arith);
        }
        y = y + 1;
    }
    proof {
        if ya < yb {
            assert(out@ =~= primaries_from_bounds_spec(bounds));
        }
    }
    out
}

/// The children of well-formed parents are well formed.
pub proof fn lemma_children_wf<P: Subdivide>(parents: Seq<P>)
    requires
        all_wf(parents),
    ensures
        all_wf(children_of(parents)),
    decreases parents.len(),
{
    if parents.len() == 0 {
        assert(children_of(parents) =~= Seq::<P::Child>::empty());
    } else {
        let init = parents.drop_last();
        let last = parents.last();
        assert(parents =~= init.push(last));
        lemma_children_push(init, last);
        lemma_children_wf(init);
        assert forall|i: int| 0 <= i < children_of(parents).len() implies (
        #[trigger] children_of(parents)[i]).wf() by {
            if i >= children_of(init).len() {
                last.lemma_child_within(i - children_of(init).len());
            }
        }
    }
}

/// Where the cell of a parent does not meet the query box, the cell of none
/// of its children does.
pub proof fn lemma_no_child_kept<P: Subdivide>(parent: P, boundary: Option<LngLatBox>)
    requires
        parent.wf(),
        !kept(boundary, parent.patch_spec()),
    ensures
        prune(parent.children_spec(), boundary) == Seq::<P::Child>::empty(),
{
    let children = parent.children_spec();
    let left = prune(children, boundary);
    if left.len() > 0 {
        lemma_prune_kept(children, boundary, 0);
        let j = choose|j: int| 0 <= j < children.len() && children[j] == left[0];
        parent.lemma_child_within(j);
    }
    assert(left =~= Seq::<P::Child>::empty());
}

/// Leaving out the parents whose cell does not meet the query box loses no
/// child whose cell meets it.
pub proof fn lemma_expand_pruned<P: Subdivide>(parents: Seq<P>, boundary: Option<LngLatBox>)
    requires
        all_wf(parents),
    ensures
        expand(prune(parents, boundary), boundary) == expand(parents, boundary),
    decreases parents.len(),
{
    if parents.len() == 0 {
        reveal(Seq::filter);
    } else {
        let init = parents.drop_last();
        let last = parents.last();
        assert(parents =~= init.push(last));
        lemma_prune_push(init, last, boundary);
        lemma_expand_pruned(init, boundary);
        lemma_expand_push(init, last, boundary);
        if kept(boundary, last.patch_spec()) {
            lemma_expand_push(prune(init, boundary), last, boundary);
        } else {
            lemma_no_child_kept(last, boundary);
            assert(expand(init, boundary) + Seq::<P::Child>::empty() =~= expand(init, boundary));
        }
    }
}

/// The children of two runs of parents, one after the other, are the children
/// of the first run and then those of the second.
pub proof fn lemma_children_add<P: Subdivide>(first: Seq<P>, second: Seq<P>)
    ensures
        children_of(first + second) == children_of(first) + children_of(second),
    decreases second.len(),
{
    if second.len() == 0 {
        assert(first + second =~= first);
        assert(children_of(second) =~= Seq::<P::Child>::empty());
        assert(children_of(first) + children_of(second) =~= children_of(first));
    } else {
        let init = second.drop_last();
        let last = second.last();
        assert(second =~= init.push(last));
        assert(first + second =~= (first + init).push(last));
        lemma_children_add(first, init);
        lemma_children_push(first + init, last);
        lemma_children_push(init, last);
        assert(children_of(first) + children_of(init) + last.children_spec() =~= children_of(
            first,
        ) + (children_of(init) + last.children_spec()));
    }
}

/// Each stage of the enumeration works seed by seed: what it gives for two
/// runs of codes, one after the other, is what it gives for the first run and
/// then what it gives for the second.
pub proof fn lemma_stage_add<P: Subdivide>(
    first: Seq<P>,
    second: Seq<P>,
    boundary: Option<LngLatBox>,
)
    ensures
        prune(first + second, boundary) == prune(first, boundary) + prune(second, boundary),
        expand(first + second, boundary) == expand(first, boundary) + expand(second, boundary),
{
    Seq::filter_distributes_over_add(first, second, |c: P| kept(boundary, c.patch_spec()));
    lemma_children_add(first, second);
    Seq::filter_distributes_over_add(
        children_of(first),
        children_of(second),
        |c: P::Child| kept(boundary, c.patch_spec()),
    );
}

/// The enumeration to any level works seed by seed: the codes for two runs of
/// seeds, one after the other, are the codes for the first run and then the
/// codes for the second.
pub proof fn lemma_seeds_add(
    first: Seq<PrimaryCode>,
    second: Seq<PrimaryCode>,
    boundary: Option<LngLatBox>,
)
    ensures
        primary_codes_spec(first + second, boundary) == primary_codes_spec(first, boundary)
            + primary_codes_spec(second, boundary),
        secondary_codes_spec(first + second, boundary) == secondary_codes_spec(first, boundary)
            + secondary_codes_spec(second, boundary),
        standard_codes_spec(first + second, boundary) == standard_codes_spec(first, boundary)
            + standard_codes_spec(second, boundary),
        half_codes_spec(first + second, boundary) == half_codes_spec(first, boundary)
            + half_codes_spec(second, boundary),
        quarter_codes_spec(first + second, boundary) == quarter_codes_spec(first, boundary)
            + quarter_codes_spec(second, boundary),
        eighth_codes_spec(first + second, boundary) == eighth_codes_spec(first, boundary)
            + eighth_codes_spec(second, boundary),
{
    lemma_stage_add(first, second, boundary);
    lemma_stage_add(
        primary_codes_spec(first, boundary),
        primary_codes_spec(second, boundary),
        boundary,
    );
    lemma_stage_add(
        secondary_codes_spec(first, boundary),
        secondary_codes_spec(second, boundary),
        boundary,
    );
    lemma_stage_add(
        standard_codes_spec(first, boundary),
        standard_codes_spec(second, boundary),
        boundary,
    );
    lemma_stage_add(
        half_codes_spec(first, boundary),
        half_codes_spec(second, boundary),
        boundary,
    );
    lemma_stage_add(
        quarter_codes_spec(first, boundary),
        quarter_codes_spec(second, boundary),
        boundary,
    );
}

/// The enumeration to the secondary level gives every secondary code below
/// the seeds whose cell meets the query box, in the order of the seeds and,
/// below one seed, row by row.
pub proof fn lemma_secondary_codes(primaries: Seq<PrimaryCode>, boundary: Option<LngLatBox>)
    requires
        all_wf(primaries),
    ensures
        secondary_codes_spec(primaries, boundary) == prune(children_of(primaries), boundary),
        all_wf(children_of(primaries)),
{
    lemma_expand_pruned(primaries, boundary);
    lemma_children_wf(primaries);
}

/// The enumeration to the standard level gives every standard code below the
/// seeds whose cell meets the query box, in order.
pub proof fn lemma_standard_codes(primaries: Seq<PrimaryCode>, boundary: Option<LngLatBox>)
    requires
        all_wf(primaries),
    ensures
        standard_codes_spec(primaries, boundary) == prune(
            children_of(children_of(primaries)),
            boundary,
        ),
        all_wf(children_of(children_of(primaries))),
{
    lemma_secondary_codes(primaries, boundary);
    lemma_expand_pruned(children_of(primaries), boundary);
    lemma_children_wf(children_of(primaries));
}

/// The enumeration to the half level gives every half code below the seeds
/// whose cell meets the query box, in order.
pub proof fn lemma_half_codes(primaries: Seq<PrimaryCode>, boundary: Option<LngLatBox>)
    requires
        all_wf(primaries),
    ensures
        half_codes_spec(primaries, boundary) == prune(
            children_of(children_of(children_of(primaries))),
            boundary,
        ),
        all_wf(children_of(children_of(children_of(primaries)))),
{
    lemma_standard_codes(primaries, boundary);
    lemma_expand_pruned(children_of(children_of(primaries)), boundary);
    lemma_children_wf(children_of(children_of(primaries)));
}

/// The enumeration to the quarter level gives every quarter code below the
/// seeds whose cell meets the query box, in order.
pub proof fn lemma_quarter_codes(primaries: Seq<PrimaryCode>, boundary: Option<LngLatBox>)
    requires
        all_wf(primaries),
    ensures
        quarter_codes_spec(primaries, boundary) == prune(
            children_of(children_of(children_of(children_of(primaries)))),
            boundary,
        ),
        all_wf(children_of(children_of(children_of(children_of(primaries))))),
{
    lemma_half_codes(primaries, boundary);
    lemma_expand_pruned(children_of(children_of(children_of(primaries))), boundary);
    lemma_children_wf(children_of(children_of(children_of(primaries))));
}

/// The enumeration to the eighth level gives every eighth code below the
/// seeds whose cell meets the query box, in order.
pub proof fn lemma_eighth_codes(primaries: Seq<PrimaryCode>, boundary: Option<LngLatBox>)
    requires
        all_wf(primaries),
    ensures
        eighth_codes_spec(primaries, boundary) == prune(
            children_of(children_of(children_of(children_of(children_of(primaries))))),
            boundary,
        ),
{
    lemma_quarter_codes(primaries, boundary);
    lemma_expand_pruned(children_of(children_of(children_of(children_of(primaries)))), boundary);
}

/// `primaries_from_bounds` lists well-formed codes, and a well-formed primary
/// code is among them exactly when its cell and the box share more than an
/// edge or a corner.
pub proof fn lemma_primaries_from_bounds(bounds: LngLatBox, c: PrimaryCode)
    requires
        bounds.wf(),
        c.wf(),
    ensures
        all_wf(primaries_from_bounds_spec(bounds)),
        primaries_from_bounds_spec(bounds).contains(c) <==> c.patch_spec().overlaps(&bounds),
{
    broadcast use LngLatBox::lemma_corners;

    let ya = first_row(bounds);
    let yb = end_row(bounds);
    let xa = first_column(bounds);
    let xb = end_column(bounds);
    let width = xb - xa;
    let list = primaries_from_bounds_spec(bounds);
    lemma_floor_div_bounds(bounds.min().vlat as int, PRIMARY_LAT as int);
    lemma_floor_div_bounds(bounds.min().vlng as int, PRIMARY_LNG as int);
    lemma_ceil_div_bounds(bounds.max().vlat as int, PRIMARY_LAT as int);
    lemma_ceil_div_bounds(bounds.max().vlng as int, PRIMARY_LNG as int);
    c.lemma_by_digits();
    assert forall|i: int| 0 <= i < list.len() implies {
        &&& 0 <= i / width < yb - ya
        &&& 0 <= i % width < width
        &&& (#[trigger] list[i]).wf()
        &&& list[i].y1() == ya + i / width
        &&& list[i].x1() == xa + i % width
    } by {
        assert(i < width * (yb - ya)) by (nonlinear_arith)
            requires
                i < (yb - ya) * width,
        ;
        vstd::arithmetic::div_mod::lemma_multiply_divide_lt(i, width, yb - ya);
        vstd::arithmetic::div_mod::lemma_div_pos_is_pos(i, width);
        vstd::arithmetic::div_mod::lemma_mod_bound(i, width);
        PrimaryCode::lemma_of(ya + i / width, xa + i % width);
    }
    if c.patch_spec().overlaps(&bounds) {
        let row = c.y1() as int;
        let column = c.x1() as int;
        assert(ya <= row < yb);
        assert(xa <= column < xb);
        let i = (row - ya) * width + (column - xa);
        vstd::arithmetic::div_mod::lemma_fundamental_div_mod_converse(
            i,
            width,
            row - ya,
            column - xa,
        );
        assert(0 <= i < (yb - ya) * width) by (nonlinear_arith)
            requires
                i == (row - ya) * width + (column - xa),
                0 <= column - xa < width,
                0 <= row - ya < yb - ya,
        ;
        assert(list[i] == c);
    }
    if list.contains(c) {
        let i = choose|i: int| 0 <= i < list.len() && list[i] == c;
        assert(list[i].wf());
    }
}

} // verus!
