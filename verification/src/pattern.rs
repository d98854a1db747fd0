//! The pattern engine's structural side: where the copies go (their
//! instance indices), which checks a pattern must pass, and which rows of
//! each copy are imaged versus tied by coincidence, what holds each copy
//! in its constraint batch, and which of the new constraints belong to
//! which copy.

use vstd::prelude::*;
use crate::meta::{entity_exists, entity_of, Entities, MetaEntity};
use crate::split::EndpointRef;
use crate::text::{chars_of, string_of};

verus! {

/// The instance offsets along one axis: for a symmetric axis the run
/// `-floor((q-1)/2) ..= ceil((q-1)/2)`, else `0 ..= q-1`, where `q` is the
/// quantity (at least one). A quantity past the `i32` range, which the
/// offsets are counted in, gives none.
pub open spec fn axis_offsets(quantity: nat, symmetric: bool) -> Seq<int> {
    if quantity > i32::MAX {
        Seq::empty()
    } else {
        let q: int = if quantity == 0 { 1 } else { quantity as int };
        let back: int = if symmetric { (q - 1) / 2 } else { 0 };
        Seq::new(q as nat, |i: int| i - back)
    }
}

/// Instance offsets along one axis: `k` from `-floor((q-1)/2)` to
/// `ceil((q-1)/2)` when symmetric (one less on the backward side for an
/// even `q`), `0..q-1` otherwise; the source is 0.
pub fn axis_indices(quantity: u32, symmetric: bool) -> (r: Vec<i32>)
    requires
        !(symmetric && quantity == 0x8000_0000),
    ensures
        r@ == axis_offsets(quantity as nat, symmetric).map_values(|k: int| k as i32),
{
    if quantity > 0x7fff_ffff {
        let r: Vec<i32> = Vec::new();
        assert(r@ =~= axis_offsets(quantity as nat, symmetric).map_values(|k: int| k as i32));
        return r;
    }
    let q: i32 = if quantity == 0 { 1 } else { quantity as i32 };
    let back: i32 = if symmetric { (q - 1) / 2 } else { 0 };
    let mut r: Vec<i32> = Vec::new();
    let mut i: i32 = 0;
    while i < q
        invariant
            0 <= i <= q,
            q == (if quantity == 0 { 1 } else { quantity as int }),
            back == (if symmetric { (q - 1) / 2 } else { 0int }),
            r@.len() == i,
            forall|j: int| 0 <= j < i ==> r@[j] == j - back,
        decreases q - i,
    {
        r.push(i - back);
        i = i + 1;
    }
    assert(r@ =~= axis_offsets(quantity as nat, symmetric).map_values(|k: int| k as i32));
    r
}

// ---------------------------------------------------------------------------
// Which rows each copy images, and which coincidences it recreates
// ---------------------------------------------------------------------------

/// Rows of a copied entity that are imaged (tied to the source's value
/// moved by the copy's transform); the others follow from the
/// coincidences the copy gets.
pub const IMAGE_P1: u8 = 1;
pub const IMAGE_P2: u8 = 2;
pub const IMAGE_CENTER: u8 = 4;
pub const IMAGE_RADIUS: u8 = 8;
pub const IMAGE_RADIUS_B: u8 = 16;
pub const IMAGE_ROTATION: u8 = 32;
pub const IMAGE_START: u8 = 64;
pub const IMAGE_END: u8 = 128;

/// A source entity's shape, as the plan reads it.
#[derive(Clone, Copy, PartialEq, Eq, Structural, Debug)]
pub enum SourceShape {
    Line,
    Point,
    Arc { closed: bool, ellipse: bool },
}

/// One point of a source entity.
#[derive(Clone, Copy, PartialEq, Eq, Structural, Debug)]
pub enum Slot {
    Point,
    LineP1,
    LineP2,
    ArcCenter,
    ArcStart,
    ArcEnd,
}

/// A point of the source at index `source` of the pattern's source list.
#[derive(Clone, Copy, PartialEq, Eq, Structural, Debug)]
pub struct Endpoint {
    pub source: usize,
    pub slot: Slot,
}

/// A source entity with the coincidence-group root of each of its points:
/// `root_a` is a line's p1, a point's position, an arc's center; `root_b`
/// a line's p2 or an arc's start; `root_c` an arc's end.
#[derive(Clone, Copy, PartialEq, Eq, Structural, Debug)]
pub struct TieSource {
    pub shape: SourceShape,
    pub root_a: usize,
    pub root_b: usize,
    pub root_c: usize,
}

/// How one source entity is held in every copy: the image rows, and the
/// coincidences recreated (this entity's point, the source point already
/// placed that it is coincident with).
#[derive(Debug)]
pub struct TiePlan {
    pub mask: u8,
    pub ties: Vec<(Endpoint, Endpoint)>,
}

/// A tie plan as values.
pub struct TiePlanModel {
    pub mask: u8,
    pub ties: Seq<(Endpoint, Endpoint)>,
}

impl View for TiePlan {
    type V = TiePlanModel;

    open spec fn view(&self) -> TiePlanModel {
        TiePlanModel { mask: self.mask, ties: self.ties@ }
    }
}

/// The point placed last for coincidence-group `root`, if any (a later
/// placement of the same root replaces an earlier one).
pub open spec fn placed_at(placed: Seq<(usize, Endpoint)>, root: usize) -> Option<Endpoint>
    decreases placed.len(),
{
    if placed.len() == 0 {
        None
    } else if placed.last().0 == root {
        Some(placed.last().1)
    } else {
        placed_at(placed.drop_last(), root)
    }
}

/// The rows an arc's shape images: the radius, and for an ellipse also
/// its second radius and rotation.
pub open spec fn arc_shape_rows(ellipse: bool) -> u8 {
    if ellipse {
        (IMAGE_RADIUS | IMAGE_RADIUS_B | IMAGE_ROTATION) as u8
    } else {
        IMAGE_RADIUS
    }
}

/// The rows an arc images given which of its center, start and end are
/// already held by earlier sources.
pub open spec fn arc_mask(closed: bool, ellipse: bool, c: bool, s: bool, e: bool) -> u8 {
    let shape = arc_shape_rows(ellipse);
    if closed {
        if c { shape } else { (IMAGE_CENTER | shape) as u8 }
    } else if !c && !s && !e {
        (IMAGE_CENTER | shape | IMAGE_START | IMAGE_END) as u8
    } else if (c && !s && !e) || (!c && s && !e) || (!c && !s && e) {
        (shape | IMAGE_START | IMAGE_END) as u8
    } else if !c && s && e {
        shape
    } else if c && s {
        // With the center and one end held, the radius (and the held
        // angle) follow; the other angle is imaged. An ellipse keeps
        // radius_b and rotation imaged.
        if ellipse { (IMAGE_RADIUS_B | IMAGE_ROTATION | IMAGE_END) as u8 } else { IMAGE_END }
    } else {
        if ellipse { (IMAGE_RADIUS_B | IMAGE_ROTATION | IMAGE_START) as u8 } else { IMAGE_START }
    }
}

/// One source's plan, with the placements after it. `i` is the source's
/// index.
pub open spec fn tie_step(placed: Seq<(usize, Endpoint)>, i: usize, src: TieSource) -> (TiePlanModel, Seq<(usize, Endpoint)>) {
    match src.shape {
        SourceShape::Line => {
            let p1 = Endpoint { source: i, slot: Slot::LineP1 };
            let p2 = Endpoint { source: i, slot: Slot::LineP2 };
            let (m1, t1, pl1) = match placed_at(placed, src.root_a) {
                Some(o) => (0u8, seq![(p1, o)], placed),
                None => (IMAGE_P1, Seq::<(Endpoint, Endpoint)>::empty(), placed.push((src.root_a, p1))),
            };
            let (m2, t2, pl2) = match placed_at(pl1, src.root_b) {
                Some(o) => (0u8, t1.push((p2, o)), pl1),
                None => (IMAGE_P2, t1, pl1.push((src.root_b, p2))),
            };
            (TiePlanModel { mask: (m1 | m2) as u8, ties: t2 }, pl2)
        },
        SourceShape::Point => {
            let ep = Endpoint { source: i, slot: Slot::Point };
            match placed_at(placed, src.root_a) {
                Some(o) => (TiePlanModel { mask: 0, ties: seq![(ep, o)] }, placed),
                None => (TiePlanModel { mask: IMAGE_P1, ties: seq![] }, placed.push((src.root_a, ep))),
            }
        },
        SourceShape::Arc { closed, ellipse } => {
            let c_ep = Endpoint { source: i, slot: Slot::ArcCenter };
            let s_ep = Endpoint { source: i, slot: Slot::ArcStart };
            let e_ep = Endpoint { source: i, slot: Slot::ArcEnd };
            let c = placed_at(placed, src.root_a);
            let s = if closed { None } else { placed_at(placed, src.root_b) };
            let e = if closed { None } else { placed_at(placed, src.root_c) };
            let mask = arc_mask(closed, ellipse, c is Some, s is Some, e is Some);
            let (t1, pl1) = match c {
                Some(o) => (seq![(c_ep, o)], placed),
                None => (Seq::<(Endpoint, Endpoint)>::empty(), placed.push((src.root_a, c_ep))),
            };
            if closed {
                (TiePlanModel { mask, ties: t1 }, pl1)
            } else {
                let (t2, pl2) = match s {
                    Some(o) => (t1.push((s_ep, o)), pl1),
                    None => (t1, pl1.push((src.root_b, s_ep))),
                };
                // A third tie would be redundant: the end meets by geometry.
                let (t3, pl3) = match e {
                    Some(o) => if !(c is Some && s is Some) { (t2.push((e_ep, o)), pl2) } else { (t2, pl2) },
                    None => (t2, pl2.push((src.root_c, e_ep))),
                };
                (TiePlanModel { mask, ties: t3 }, pl3)
            }
        },
    }
}

/// The plans of the first `k` sources, and the placements after them.
pub open spec fn tie_plans(sources: Seq<TieSource>, k: nat) -> (Seq<TiePlanModel>, Seq<(usize, Endpoint)>)
    decreases k,
{
    if k == 0 || k > sources.len() {
        (seq![], seq![])
    } else {
        let (plans, placed) = tie_plans(sources, (k - 1) as nat);
        let (p, placed2) = tie_step(placed, (k - 1) as usize, sources[k - 1]);
        (plans.push(p), placed2)
    }
}

/// The point placed last for `root`.
pub(crate) fn find_placed(placed: &Vec<(usize, Endpoint)>, root: usize) -> (r: Option<Endpoint>)
    ensures
        r == placed_at(placed@, root),
{
    let mut i = placed.len();
    assert(placed@.take(i as int) =~= placed@);
    while i > 0
        invariant
            i <= placed@.len(),
            placed_at(placed@, root) == placed_at(placed@.take(i as int), root),
        decreases i,
    {
        let ghost t = placed@.take(i as int);
        assert(t.drop_last() =~= placed@.take(i - 1));
        if placed[i - 1].0 == root {
            return Some(placed[i - 1].1);
        }
        i = i - 1;
    }
    None
}

/// One source's plan; `placed` is updated with the points it places.
fn plan_one(placed: &mut Vec<(usize, Endpoint)>, i: usize, src: TieSource) -> (p: TiePlan)
    ensures
        (p@, final(placed)@) == tie_step(old(placed)@, i, src),
{
    let mut ties: Vec<(Endpoint, Endpoint)> = Vec::new();
    match src.shape {
        SourceShape::Line => {
            let p1 = Endpoint { source: i, slot: Slot::LineP1 };
            let p2 = Endpoint { source: i, slot: Slot::LineP2 };
            let mut mask: u8 = 0;
            match find_placed(placed, src.root_a) {
                Some(o) => ties.push((p1, o)),
                None => {
                    mask = mask | IMAGE_P1;
                    placed.push((src.root_a, p1));
                },
            }
            match find_placed(placed, src.root_b) {
                Some(o) => ties.push((p2, o)),
                None => {
                    mask = mask | IMAGE_P2;
                    placed.push((src.root_b, p2));
                },
            }
            proof {
                assert(0u8 | 0u8 == 0u8) by (bit_vector);
                assert(0u8 | IMAGE_P1 == IMAGE_P1) by (bit_vector);
                assert(IMAGE_P1 | 0u8 == IMAGE_P1) by (bit_vector);
                assert(0u8 | IMAGE_P2 == IMAGE_P2) by (bit_vector);
                let ghost q = tie_step(old(placed)@, i, src);
                assert(ties@ =~= q.0.ties);
            }
            TiePlan { mask, ties }
        },
        SourceShape::Point => {
            let ep = Endpoint { source: i, slot: Slot::Point };
            match find_placed(placed, src.root_a) {
                Some(o) => {
                    ties.push((ep, o));
                    assert(ties@ =~= seq![(ep, o)]);
                    TiePlan { mask: 0, ties }
                },
                None => {
                    placed.push((src.root_a, ep));
                    TiePlan { mask: IMAGE_P1, ties }
                },
            }
        },
        SourceShape::Arc { closed, ellipse } => {
            let c_ep = Endpoint { source: i, slot: Slot::ArcCenter };
            let s_ep = Endpoint { source: i, slot: Slot::ArcStart };
            let e_ep = Endpoint { source: i, slot: Slot::ArcEnd };
            let c = find_placed(placed, src.root_a);
            let s = if closed { None } else { find_placed(placed, src.root_b) };
            let e = if closed { None } else { find_placed(placed, src.root_c) };
            let mask = arc_mask_of(closed, ellipse, c.is_some(), s.is_some(), e.is_some());
            match c {
                Some(o) => ties.push((c_ep, o)),
                None => placed.push((src.root_a, c_ep)),
            }
            if !closed {
                match s {
                    Some(o) => ties.push((s_ep, o)),
                    None => placed.push((src.root_b, s_ep)),
                }
                match e {
                    Some(o) => {
                        if !(c.is_some() && s.is_some()) {
                            ties.push((e_ep, o));
                        }
                    },
                    None => placed.push((src.root_c, e_ep)),
                }
            }
            proof {
                let ghost q = tie_step(old(placed)@, i, src);
                assert(ties@ =~= q.0.ties);
                assert(placed@ =~= q.1);
            }
            TiePlan { mask, ties }
        },
    }
}

/// The rows an arc images.
fn arc_mask_of(closed: bool, ellipse: bool, c: bool, s: bool, e: bool) -> (m: u8)
    ensures
        m == arc_mask(closed, ellipse, c, s, e),
{
    let shape: u8 = if ellipse { IMAGE_RADIUS | IMAGE_RADIUS_B | IMAGE_ROTATION } else { IMAGE_RADIUS };
    if closed {
        if c { shape } else { IMAGE_CENTER | shape }
    } else if !c && !s && !e {
        IMAGE_CENTER | shape | IMAGE_START | IMAGE_END
    } else if (c && !s && !e) || (!c && s && !e) || (!c && !s && e) {
        shape | IMAGE_START | IMAGE_END
    } else if !c && s && e {
        shape
    } else if c && s {
        if ellipse { IMAGE_RADIUS_B | IMAGE_ROTATION | IMAGE_END } else { IMAGE_END }
    } else {
        if ellipse { IMAGE_RADIUS_B | IMAGE_ROTATION | IMAGE_START } else { IMAGE_START }
    }
}

/// The structural decision: which rows each source entity images in a
/// copy and which coincidences the copy gets, walking the sources in order
/// over the coincidence groups of their points. The first point of a
/// group to be seen is imaged; a later one is tied to it.
pub fn tie_plan(sources: &Vec<TieSource>) -> (r: Vec<TiePlan>)
    ensures
        r@.map_values(|p: TiePlan| p@) == tie_plans(sources@, sources@.len()).0,
{
    let mut placed: Vec<(usize, Endpoint)> = Vec::new();
    let mut plans: Vec<TiePlan> = Vec::new();
    let mut k: usize = 0;
    while k < sources.len()
        invariant
            k <= sources@.len(),
            (plans@.map_values(|p: TiePlan| p@), placed@) == tie_plans(sources@, k as nat),
        decreases sources@.len() - k,
    {
        let ghost before = plans@.map_values(|p: TiePlan| p@);
        let p = plan_one(&mut placed, k, sources[k]);
        plans.push(p);
        assert(plans@.map_values(|p: TiePlan| p@) =~= before.push(p@));
        k = k + 1;
    }
    plans
}

// ---------------------------------------------------------------------------
// The plan's checks and layout
// ---------------------------------------------------------------------------

/// The center of a circular pattern.
#[derive(Clone, Copy, PartialEq, Eq, Structural, Debug)]
pub enum CenterRef {
    Point(u32),
    Endpoint(EndpointRef),
}

/// How a circular pattern spreads its copies.
#[derive(Clone, Copy, PartialEq, Eq, Structural, Debug)]
pub enum Distribution {
    /// Evenly around the full turn.
    Full,
    /// Over the given angle, from the source on.
    Partial,
    /// Over the given angle, centred on the source.
    Symmetric,
}

/// One axis of a rectangular pattern.
#[derive(Clone, Copy, PartialEq, Eq, Structural, Debug)]
pub struct AxisCheck {
    pub quantity: u32,
    pub symmetric: bool,
    /// Whether the axis distance is finite and not zero.
    pub distance_usable: bool,
}

/// What the plan checks of the user's parameters. The numeric tests (a
/// finite non-zero angle or distance, a direction line of non-zero length)
/// are measured by the caller.
#[derive(Clone, Copy, PartialEq, Eq, Structural, Debug)]
pub enum PatternLayout {
    Circular { center: CenterRef, distribution: Distribution, quantity: u32, angle_usable: bool },
    Rectangular { frame: Option<u32>, frame_has_length: bool, axis1: AxisCheck, axis2: AxisCheck },
}

/// The entity a point reference belongs to.
pub open spec fn endpoint_entity_spec(e: EndpointRef) -> MetaEntity {
    match e {
        EndpointRef::Point(p) => MetaEntity::Point(p),
        EndpointRef::LineP1(l) => MetaEntity::Line(l),
        EndpointRef::LineP2(l) => MetaEntity::Line(l),
        EndpointRef::ArcCenter(a) => MetaEntity::Arc(a),
        EndpointRef::ArcStart(a) => MetaEntity::Arc(a),
        EndpointRef::ArcEnd(a) => MetaEntity::Arc(a),
    }
}

/// The entity a point reference belongs to.
pub fn endpoint_entity(e: EndpointRef) -> (r: MetaEntity)
    ensures
        r == endpoint_entity_spec(e),
{
    match e {
        EndpointRef::Point(p) => MetaEntity::Point(p),
        EndpointRef::LineP1(l) => MetaEntity::Line(l),
        EndpointRef::LineP2(l) => MetaEntity::Line(l),
        EndpointRef::ArcCenter(a) => MetaEntity::Arc(a),
        EndpointRef::ArcStart(a) => MetaEntity::Arc(a),
        EndpointRef::ArcEnd(a) => MetaEntity::Arc(a),
    }
}

/// The copies of row `i`: `(i, j)` for each `j` of `js`, skipping the
/// source `(0, 0)`.
pub open spec fn index_row(i: int, js: Seq<int>) -> Seq<(int, int)>
    decreases js.len(),
{
    if js.len() == 0 {
        Seq::empty()
    } else {
        let n = js.len() - 1;
        let prev = index_row(i, js.take(n));
        if i == 0 && js[n] == 0 {
            prev
        } else {
            prev.push((i, js[n]))
        }
    }
}

/// The copies of a grid, row by row, skipping the source.
pub open spec fn index_grid(is: Seq<int>, js: Seq<int>) -> Seq<(int, int)>
    decreases is.len(),
{
    if is.len() == 0 {
        Seq::empty()
    } else {
        let n = is.len() - 1;
        index_grid(is.take(n), js) + index_row(is[n], js)
    }
}

/// The instance indices of a pattern's copies: `(k, 0)` for each step `k`
/// of a circular pattern, `(i, j)` over both axes of a rectangular one; the
/// source, index `(0, 0)`, is not a copy.
pub open spec fn copy_indices(layout: PatternLayout) -> Seq<(int, int)> {
    match layout {
        PatternLayout::Circular { distribution, quantity, .. } => index_grid(
            axis_offsets(quantity as nat, distribution == Distribution::Symmetric),
            seq![0int],
        ),
        PatternLayout::Rectangular { axis1, axis2, .. } => index_grid(
            axis_offsets(axis1.quantity as nat, axis1.symmetric),
            axis_offsets(axis2.quantity as nat, axis2.symmetric),
        ),
    }
}

/// Whether `es` holds `e`.
pub open spec fn holds(es: Seq<MetaEntity>, e: MetaEntity) -> bool {
    es.contains(e)
}

/// What the plan's checks give: the first failing check's message, or the
/// copies' indices. A pattern needs sources that all exist; a circular one
/// a quantity of at least 2, an existing center that is not itself a
/// source point, and (unless spread over the full turn) a usable angle; a
/// rectangular one a direction line outside the set, a quantity of at
/// least 2 on an axis, a usable distance on every axis with more than one
/// instance and a direction line of non-zero length; and at least one copy.
pub open spec fn pattern_check(ents: Entities, sources: Seq<MetaEntity>, layout: PatternLayout) -> Result<Seq<(int, int)>, Seq<char>> {
    if sources.len() == 0 {
        Err("nothing to pattern"@)
    } else if exists|j: int| 0 <= j < sources.len() && (#[trigger] entity_of(ents, sources[j])) is None {
        Err("a source entity no longer exists"@)
    } else {
        let checked: Result<(), Seq<char>> = match layout {
            PatternLayout::Circular { center, distribution, quantity, angle_usable } => if quantity < 2 {
                Err("a circular pattern needs a quantity of at least 2"@)
            } else {
                match center {
                    CenterRef::Point(p) => if entity_of(ents, MetaEntity::Point(p)) is None {
                        Err("the center point no longer exists"@)
                    } else if holds(sources, MetaEntity::Point(p)) {
                        Err("the center point cannot be in the pattern set"@)
                    } else if distribution != Distribution::Full && !angle_usable {
                        Err("the pattern angle must not be zero"@)
                    } else {
                        Ok(())
                    },
                    CenterRef::Endpoint(ep) => if entity_of(ents, endpoint_entity_spec(ep)) is None {
                        Err("the center's entity no longer exists"@)
                    } else if distribution != Distribution::Full && !angle_usable {
                        Err("the pattern angle must not be zero"@)
                    } else {
                        Ok(())
                    },
                }
            },
            PatternLayout::Rectangular { frame, frame_has_length, axis1, axis2 } => if frame matches Some(l) && holds(sources, MetaEntity::Line(l)) {
                Err("the direction line cannot be in the pattern set"@)
            } else if axis1.quantity < 2 && axis2.quantity < 2 {
                Err("a rectangular pattern needs a quantity of at least 2 on an axis"@)
            } else if axis1.quantity >= 2 && !axis1.distance_usable {
                Err("the distance on axis 1 must not be zero"@)
            } else if axis2.quantity >= 2 && !axis2.distance_usable {
                Err("the distance on axis 2 must not be zero"@)
            } else if frame is Some && !frame_has_length {
                Err("the direction line has no length"@)
            } else {
                Ok(())
            },
        };
        match checked {
            Err(e) => Err(e),
            Ok(()) => if copy_indices(layout).len() == 0 {
                Err("the pattern makes no copies"@)
            } else {
                Ok(copy_indices(layout))
            },
        }
    }
}

/// The views of index pairs.
pub open spec fn index_views(v: Seq<(i32, i32)>) -> Seq<(int, int)> {
    v.map_values(|p: (i32, i32)| (p.0 as int, p.1 as int))
}

fn contains_entity(es: &Vec<MetaEntity>, e: MetaEntity) -> (b: bool)
    ensures
        b == es@.contains(e),
{
    let mut i: usize = 0;
    while i < es.len()
        invariant
            i <= es@.len(),
            forall|j: int| 0 <= j < i ==> es@[j] != e,
        decreases es@.len() - i,
    {
        if es[i] == e {
            assert(es@[i as int] == e);
            return true;
        }
        i = i + 1;
    }
    false
}

/// Append the copies of row `i` (see [`index_row`]).
fn push_row(out: &mut Vec<(i32, i32)>, i: i32, js: &Vec<i32>)
    ensures
        index_views(final(out)@) == index_views(old(out)@) + index_row(i as int, js@.map_values(|k: i32| k as int)),
{
    let ghost jv = js@.map_values(|k: i32| k as int);
    let ghost start = index_views(out@);
    let mut k: usize = 0;
    assert(jv.take(0) =~= Seq::<int>::empty());
    assert(start + index_row(i as int, jv.take(0)) =~= start);
    while k < js.len()
        invariant
            k <= js@.len(),
            jv == js@.map_values(|k: i32| k as int),
            index_views(out@) == start + index_row(i as int, jv.take(k as int)),
        decreases js@.len() - k,
    {
        let j = js[k];
        let ghost before = out@;
        assert(jv.take(k + 1).take(k as int) =~= jv.take(k as int));
        assert(jv.take(k + 1)[k as int] == j as int);
        if !(i == 0 && j == 0) {
            out.push((i, j));
            assert(index_views(out@) =~= index_views(before).push((i as int, j as int)));
            assert(start + index_row(i as int, jv.take(k + 1)) =~= (start + index_row(i as int, jv.take(k as int))).push((i as int, j as int)));
        }
        k = k + 1;
    }
    assert(jv.take(js@.len() as int) =~= jv);
}

/// The copies of a grid (see [`index_grid`]).
fn grid_indices(is: &Vec<i32>, js: &Vec<i32>) -> (r: Vec<(i32, i32)>)
    ensures
        index_views(r@) == index_grid(is@.map_values(|k: i32| k as int), js@.map_values(|k: i32| k as int)),
{
    let ghost iv = is@.map_values(|k: i32| k as int);
    let ghost jv = js@.map_values(|k: i32| k as int);
    let mut out: Vec<(i32, i32)> = Vec::new();
    let mut k: usize = 0;
    assert(index_views(out@) =~= Seq::<(int, int)>::empty());
    assert(iv.take(0) =~= Seq::<int>::empty());
    while k < is.len()
        invariant
            k <= is@.len(),
            iv == is@.map_values(|k: i32| k as int),
            jv == js@.map_values(|k: i32| k as int),
            index_views(out@) == index_grid(iv.take(k as int), jv),
        decreases is@.len() - k,
    {
        assert(iv.take(k + 1).take(k as int) =~= iv.take(k as int));
        assert(iv.take(k + 1)[k as int] == is@[k as int] as int);
        push_row(&mut out, is[k], js);
        k = k + 1;
    }
    assert(iv.take(is@.len() as int) =~= iv);
    out
}

/// Check a pattern's parameters and lay out its copies (see
/// [`pattern_check`]): the copies' instance indices, or the message of the
/// first check that fails.
pub fn check_pattern(ents: &Entities, sources: &Vec<MetaEntity>, layout: &PatternLayout) -> (r: Result<Vec<(i32, i32)>, String>)
    requires
        *layout matches PatternLayout::Circular { quantity, distribution, .. } ==> !(distribution == Distribution::Symmetric && quantity == 0x8000_0000),
        *layout matches PatternLayout::Rectangular { axis1, axis2, .. } ==> !(axis1.symmetric && axis1.quantity == 0x8000_0000) && !(axis2.symmetric && axis2.quantity == 0x8000_0000),
        *layout matches PatternLayout::Rectangular { frame: Some(l), .. } ==> entity_of(*ents, MetaEntity::Line(l)) is Some,
    ensures
        r matches Ok(v) ==> pattern_check(*ents, sources@, *layout) == Ok::<Seq<(int, int)>, Seq<char>>(index_views(v@)),
        r matches Err(e) ==> pattern_check(*ents, sources@, *layout) == Err::<Seq<(int, int)>, Seq<char>>(e@),
{
    if sources.len() == 0 {
        return Err(string_of(&chars_of("nothing to pattern")));
    }
    let mut i: usize = 0;
    while i < sources.len()
        invariant
            i <= sources@.len(),
            forall|j: int| 0 <= j < i ==> (#[trigger] entity_of(*ents, sources@[j])) is Some,
        decreases sources@.len() - i,
    {
        if !entity_exists(ents, sources[i]) {
            return Err(string_of(&chars_of("a source entity no longer exists")));
        }
        i = i + 1;
    }
    let copies = match *layout {
        PatternLayout::Circular { center, distribution, quantity, angle_usable } => {
            if quantity < 2 {
                return Err(string_of(&chars_of("a circular pattern needs a quantity of at least 2")));
            }
            match center {
                CenterRef::Point(p) => {
                    if !entity_exists(ents, MetaEntity::Point(p)) {
                        return Err(string_of(&chars_of("the center point no longer exists")));
                    }
                    if contains_entity(sources, MetaEntity::Point(p)) {
                        return Err(string_of(&chars_of("the center point cannot be in the pattern set")));
                    }
                },
                CenterRef::Endpoint(ep) => {
                    if !entity_exists(ents, endpoint_entity(ep)) {
                        return Err(string_of(&chars_of("the center's entity no longer exists")));
                    }
                },
            }
            if distribution != Distribution::Full && !angle_usable {
                return Err(string_of(&chars_of("the pattern angle must not be zero")));
            }
            let ks = axis_indices(quantity, distribution == Distribution::Symmetric);
            let zero: Vec<i32> = vec![0];
            proof {
                assert(ks@.map_values(|k: i32| k as int) =~= axis_offsets(quantity as nat, distribution == Distribution::Symmetric));
                assert(zero@.map_values(|k: i32| k as int) =~= seq![0int]);
            }
            grid_indices(&ks, &zero)
        },
        PatternLayout::Rectangular { frame, frame_has_length, axis1, axis2 } => {
            match frame {
                Some(l) => if contains_entity(sources, MetaEntity::Line(l)) {
                    return Err(string_of(&chars_of("the direction line cannot be in the pattern set")));
                },
                None => {},
            }
            if axis1.quantity < 2 && axis2.quantity < 2 {
                return Err(string_of(&chars_of("a rectangular pattern needs a quantity of at least 2 on an axis")));
            }
            if axis1.quantity >= 2 && !axis1.distance_usable {
                return Err(string_of(&chars_of("the distance on axis 1 must not be zero")));
            }
            if axis2.quantity >= 2 && !axis2.distance_usable {
                return Err(string_of(&chars_of("the distance on axis 2 must not be zero")));
            }
            if frame.is_some() && !frame_has_length {
                return Err(string_of(&chars_of("the direction line has no length")));
            }
            let is = axis_indices(axis1.quantity, axis1.symmetric);
            let js = axis_indices(axis2.quantity, axis2.symmetric);
            proof {
                assert(is@.map_values(|k: i32| k as int) =~= axis_offsets(axis1.quantity as nat, axis1.symmetric));
                assert(js@.map_values(|k: i32| k as int) =~= axis_offsets(axis2.quantity as nat, axis2.symmetric));
            }
            grid_indices(&is, &js)
        },
    };
    if copies.len() == 0 {
        return Err(string_of(&chars_of("the pattern makes no copies")));
    }
    Ok(copies)
}

/// Whether two layouts differ only in their numbers (angle, distances,
/// whether the axes span or step): the same copies, moved.
pub open spec fn same_structure_spec(a: PatternLayout, b: PatternLayout) -> bool {
    match (a, b) {
        (
            PatternLayout::Circular { center: c1, distribution: d1, quantity: q1, .. },
            PatternLayout::Circular { center: c2, distribution: d2, quantity: q2, .. },
        ) => c1 == c2 && d1 == d2 && q1 == q2,
        (
            PatternLayout::Rectangular { frame: f1, axis1: a1, axis2: b1, .. },
            PatternLayout::Rectangular { frame: f2, axis1: a2, axis2: b2, .. },
        ) => f1 == f2 && a1.quantity == a2.quantity && a1.symmetric == a2.symmetric
            && b1.quantity == b2.quantity && b1.symmetric == b2.symmetric,
        _ => false,
    }
}

/// Whether an edit only changes a pattern's numbers (see
/// [`same_structure_spec`]); such an edit moves the copies in place.
pub fn same_structure(a: &PatternLayout, b: &PatternLayout) -> (r: bool)
    ensures
        r == same_structure_spec(*a, *b),
{
    match (*a, *b) {
        (
            PatternLayout::Circular { center: c1, distribution: d1, quantity: q1, .. },
            PatternLayout::Circular { center: c2, distribution: d2, quantity: q2, .. },
        ) => c1 == c2 && d1 == d2 && q1 == q2,
        (
            PatternLayout::Rectangular { frame: f1, axis1: a1, axis2: b1, .. },
            PatternLayout::Rectangular { frame: f2, axis1: a2, axis2: b2, .. },
        ) => f1 == f2 && a1.quantity == a2.quantity && a1.symmetric == a2.symmetric
            && b1.quantity == b2.quantity && b1.symmetric == b2.symmetric,
        _ => false,
    }
}

/// The index of the first source that is `e`.
pub open spec fn source_index(sources: Seq<MetaEntity>, e: MetaEntity) -> Option<int>
    decreases sources.len(),
{
    if sources.len() == 0 {
        None
    } else if sources[0] == e {
        Some(0)
    } else {
        match source_index(sources.drop_first(), e) {
            Some(i) => Some(i + 1),
            None => None,
        }
    }
}

/// The copy's counterpart of a source point reference: the same point of
/// the copy entity at the source's position, when the entity is a source
/// and its copy is of the same kind.
pub open spec fn copy_endpoint(ep: EndpointRef, sources: Seq<MetaEntity>, copy: Seq<MetaEntity>) -> Option<EndpointRef> {
    match source_index(sources, endpoint_entity_spec(ep)) {
        None => None,
        Some(i) => match (ep, copy[i]) {
            (EndpointRef::Point(_), MetaEntity::Point(p)) => Some(EndpointRef::Point(p)),
            (EndpointRef::LineP1(_), MetaEntity::Line(l)) => Some(EndpointRef::LineP1(l)),
            (EndpointRef::LineP2(_), MetaEntity::Line(l)) => Some(EndpointRef::LineP2(l)),
            (EndpointRef::ArcCenter(_), MetaEntity::Arc(a)) => Some(EndpointRef::ArcCenter(a)),
            (EndpointRef::ArcStart(_), MetaEntity::Arc(a)) => Some(EndpointRef::ArcStart(a)),
            (EndpointRef::ArcEnd(_), MetaEntity::Arc(a)) => Some(EndpointRef::ArcEnd(a)),
            _ => None,
        },
    }
}

/// Whether two point references name the same kind of point (both a
/// point, both a line's p1, ...).
pub open spec fn same_slot(a: EndpointRef, b: EndpointRef) -> bool {
    ||| a is Point && b is Point
    ||| a is LineP1 && b is LineP1
    ||| a is LineP2 && b is LineP2
    ||| a is ArcCenter && b is ArcCenter
    ||| a is ArcStart && b is ArcStart
    ||| a is ArcEnd && b is ArcEnd
}

proof fn lemma_source_index(sources: Seq<MetaEntity>, e: MetaEntity)
    ensures
        source_index(sources, e) matches Some(i) ==> 0 <= i < sources.len() && sources[i] == e,
        source_index(sources, e) is None ==> !sources.contains(e),
    decreases sources.len(),
{
    if sources.len() > 0 {
        lemma_source_index(sources.drop_first(), e);
        if sources[0] != e && source_index(sources.drop_first(), e) is None {
            assert forall|i: int| 0 <= i < sources.len() implies sources[i] != e by {
                if i > 0 {
                    assert(sources[i] == sources.drop_first()[i - 1]);
                }
            }
        }
    }
}

/// The copy's counterpart of a source point is the same kind of point on
/// the copy entity at that source's position; there is one exactly when
/// the point's entity is a source and its copy is of the same kind.
pub proof fn lemma_copy_endpoint_same_point(ep: EndpointRef, sources: Seq<MetaEntity>, copy: Seq<MetaEntity>)
    requires
        copy.len() == sources.len(),
    ensures
        copy_endpoint(ep, sources, copy) matches Some(q) ==> same_slot(ep, q) && exists|i: int|
            0 <= i < sources.len() && #[trigger] sources[i] == endpoint_entity_spec(ep) && copy[i] == endpoint_entity_spec(q),
        copy_endpoint(ep, sources, copy) is None <==> (!sources.contains(endpoint_entity_spec(ep)) || {
            let i = source_index(sources, endpoint_entity_spec(ep))->0;
            !(copy[i] is Point && ep is Point || copy[i] is Line && (ep is LineP1 || ep is LineP2) || copy[i] is Arc && (
            ep is ArcCenter || ep is ArcStart || ep is ArcEnd))
        }),
{
    lemma_source_index(sources, endpoint_entity_spec(ep));
    if let Some(i) = source_index(sources, endpoint_entity_spec(ep)) {
        assert(sources.contains(endpoint_entity_spec(ep)));
        if let Some(q) = copy_endpoint(ep, sources, copy) {
            assert(sources[i] == endpoint_entity_spec(ep) && copy[i] == endpoint_entity_spec(q));
        }
    }
}

/// The copy's counterpart of a source point reference (see
/// [`copy_endpoint`]); `copy` has one entity per source.
pub fn map_endpoint(ep: EndpointRef, sources: &Vec<MetaEntity>, copy: &Vec<MetaEntity>) -> (r: Option<EndpointRef>)
    requires
        copy@.len() == sources@.len(),
    ensures
        r == copy_endpoint(ep, sources@, copy@),
{
    let owner = endpoint_entity(ep);
    let mut i: usize = 0;
    assert(sources@.skip(0) =~= sources@);
    while i < sources.len()
        invariant
            i <= sources@.len(),
            copy@.len() == sources@.len(),
            owner == endpoint_entity_spec(ep),
            source_index(sources@, owner) == (match source_index(sources@.skip(i as int), owner) {
                Some(j) => Some(j + i),
                None => None,
            }),
        decreases sources@.len() - i,
    {
        assert(sources@.skip(i as int).drop_first() =~= sources@.skip(i + 1));
        if sources[i] == owner {
            return match (ep, copy[i]) {
                (EndpointRef::Point(_), MetaEntity::Point(p)) => Some(EndpointRef::Point(p)),
                (EndpointRef::LineP1(_), MetaEntity::Line(l)) => Some(EndpointRef::LineP1(l)),
                (EndpointRef::LineP2(_), MetaEntity::Line(l)) => Some(EndpointRef::LineP2(l)),
                (EndpointRef::ArcCenter(_), MetaEntity::Arc(a)) => Some(EndpointRef::ArcCenter(a)),
                (EndpointRef::ArcStart(_), MetaEntity::Arc(a)) => Some(EndpointRef::ArcStart(a)),
                (EndpointRef::ArcEnd(_), MetaEntity::Arc(a)) => Some(EndpointRef::ArcEnd(a)),
                _ => None,
            };
        }
        i = i + 1;
    }
    assert(sources@.skip(i as int) =~= Seq::<MetaEntity>::empty());
    None
}

// ---------------------------------------------------------------------------
// Laws of the layout
// ---------------------------------------------------------------------------

/// How many zeros `js` holds.
pub open spec fn zero_count(js: Seq<int>) -> nat
    decreases js.len(),
{
    if js.len() == 0 {
        0
    } else {
        zero_count(js.take(js.len() - 1)) + (if js.last() == 0 { 1nat } else { 0nat })
    }
}

proof fn lemma_row(i: int, js: Seq<int>)
    ensures
        index_row(i, js).len() == js.len() - (if i == 0 { zero_count(js) as int } else { 0 }),
        forall|k: int| 0 <= k < index_row(i, js).len() ==> #[trigger] index_row(i, js)[k] != (0int, 0int),
    decreases js.len(),
{
    if js.len() > 0 {
        lemma_row(i, js.take(js.len() - 1));
    }
}

proof fn lemma_grid(is: Seq<int>, js: Seq<int>)
    ensures
        index_grid(is, js).len() == is.len() * js.len() - zero_count(is) * zero_count(js),
        forall|k: int| 0 <= k < index_grid(is, js).len() ==> #[trigger] index_grid(is, js)[k] != (0int, 0int),
    decreases is.len(),
{
    if is.len() > 0 {
        let n = is.len() - 1;
        let prev = is.take(n);
        lemma_grid(prev, js);
        lemma_row(is[n], js);
        let g = index_grid(is, js);
        let a = index_grid(prev, js);
        let b = index_row(is[n], js);
        assert(g == a + b);
        assert forall|k: int| 0 <= k < g.len() implies #[trigger] g[k] != (0int, 0int) by {
            if k < a.len() {
                assert(g[k] == a[k]);
            } else {
                assert(g[k] == b[k - a.len()]);
            }
        }
        let zi = zero_count(prev);
        let zj = zero_count(js);
        assert(zero_count(is) == zi + (if is[n] == 0 { 1nat } else { 0nat }));
        assert(is.len() * js.len() == n * js.len() + js.len()) by (nonlinear_arith)
            requires
                is.len() == n + 1,
        ;
        if is[n] == 0 {
            assert(zero_count(is) == zi + 1);
            assert((zi + 1) * zj == zi * zj + zj) by (nonlinear_arith);
            assert(zero_count(is) * zj == zi * zj + zj);
        } else {
            assert(zero_count(is) == zi);
        }
        assert(g.len() == a.len() + b.len());
        assert(prev.len() == n);
        assert(a.len() == n * js.len() - zi * zj);
    } else {
        assert(is.len() * js.len() == 0) by (nonlinear_arith)
            requires
                is.len() == 0,
        ;
        assert(zero_count(is) == 0);
        assert(zero_count(is) * zero_count(js) == 0) by (nonlinear_arith)
            requires
                zero_count(is) == 0,
        ;
    }
}

proof fn lemma_offsets_zero(quantity: nat, symmetric: bool, n: int)
    requires
        quantity <= i32::MAX,
        0 <= n <= axis_offsets(quantity, symmetric).len(),
    ensures
        ({
            let q: int = if quantity == 0 { 1 } else { quantity as int };
            let back: int = if symmetric { (q - 1) / 2 } else { 0 };
            zero_count(axis_offsets(quantity, symmetric).take(n)) == (if n > back { 1nat } else { 0nat })
        }),
    decreases n,
{
    let s = axis_offsets(quantity, symmetric);
    if n > 0 {
        lemma_offsets_zero(quantity, symmetric, n - 1);
        assert(s.take(n).take(n - 1) =~= s.take(n - 1));
        assert(s.take(n).last() == s[n - 1]);
    } else {
        assert(s.take(0) =~= Seq::<int>::empty());
    }
}

proof fn lemma_offsets_one_zero(quantity: nat, symmetric: bool)
    requires
        quantity <= i32::MAX,
    ensures
        zero_count(axis_offsets(quantity, symmetric)) == 1,
        axis_offsets(quantity, symmetric).len() == (if quantity == 0 { 1 } else { quantity }),
{
    let s = axis_offsets(quantity, symmetric);
    lemma_offsets_zero(quantity, symmetric, s.len() as int);
    assert(s.take(s.len() as int) =~= s);
}

/// The source is never one of its copies.
pub proof fn lemma_copies_exclude_source(layout: PatternLayout)
    ensures
        forall|k: int| 0 <= k < copy_indices(layout).len() ==> #[trigger] copy_indices(layout)[k] != (0int, 0int),
{
    match layout {
        PatternLayout::Circular { distribution, quantity, .. } => {
            lemma_grid(axis_offsets(quantity as nat, distribution == Distribution::Symmetric), seq![0int]);
        },
        PatternLayout::Rectangular { axis1, axis2, .. } => {
            lemma_grid(axis_offsets(axis1.quantity as nat, axis1.symmetric), axis_offsets(axis2.quantity as nat, axis2.symmetric));
        },
    }
}

/// A pattern of `q` instances (at least one; `q1 x q2` on a grid) makes
/// `q - 1` copies.
pub proof fn lemma_copy_count(layout: PatternLayout)
    requires
        layout matches PatternLayout::Circular { quantity, .. } ==> quantity <= i32::MAX,
        layout matches PatternLayout::Rectangular { axis1, axis2, .. } ==> axis1.quantity <= i32::MAX && axis2.quantity <= i32::MAX,
    ensures
        copy_indices(layout).len() == (match layout {
            PatternLayout::Circular { quantity, .. } => (if quantity == 0 { 1 } else { quantity as int }) - 1,
            PatternLayout::Rectangular { axis1, axis2, .. } => (if axis1.quantity == 0 { 1 } else { axis1.quantity as int })
                * (if axis2.quantity == 0 { 1 } else { axis2.quantity as int }) - 1,
        }),
{
    match layout {
        PatternLayout::Circular { distribution, quantity, .. } => {
            let is = axis_offsets(quantity as nat, distribution == Distribution::Symmetric);
            lemma_offsets_one_zero(quantity as nat, distribution == Distribution::Symmetric);
            let js = seq![0int];
            assert(js.take(0) =~= Seq::<int>::empty());
            assert(zero_count(js.take(0)) == 0);
            assert(js.last() == 0);
            assert(zero_count(js) == 1);
            lemma_grid(is, js);
            assert(is.len() * js.len() == is.len()) by (nonlinear_arith)
                requires
                    js.len() == 1,
            ;
            assert(zero_count(is) * zero_count(js) == 1) by (nonlinear_arith)
                requires
                    zero_count(is) == 1,
                    zero_count(js) == 1,
            ;
        },
        PatternLayout::Rectangular { axis1, axis2, .. } => {
            let is = axis_offsets(axis1.quantity as nat, axis1.symmetric);
            let js = axis_offsets(axis2.quantity as nat, axis2.symmetric);
            lemma_offsets_one_zero(axis1.quantity as nat, axis1.symmetric);
            lemma_offsets_one_zero(axis2.quantity as nat, axis2.symmetric);
            lemma_grid(is, js);
            assert(zero_count(is) * zero_count(js) == 1) by (nonlinear_arith)
                requires
                    zero_count(is) == 1,
                    zero_count(js) == 1,
            ;
        },
    }
}

proof fn lemma_placed_at_bound(placed: Seq<(usize, Endpoint)>, root: usize, m: int)
    requires
        forall|j: int| 0 <= j < placed.len() ==> (#[trigger] placed[j]).1.source <= m,
    ensures
        placed_at(placed, root) matches Some(e) ==> e.source <= m,
    decreases placed.len(),
{
    if placed.len() > 0 && placed.last().0 != root {
        let d = placed.drop_last();
        assert forall|j: int| 0 <= j < d.len() implies (#[trigger] d[j]).1.source <= m by {
            assert(d[j] == placed[j]);
        }
        lemma_placed_at_bound(d, root, m);
    }
}

/// Whether every tie of plan `p` (for source `i`) ties a point of source
/// `i` to a point of a source no later than `i`.
pub open spec fn ties_point_back(p: TiePlanModel, i: int) -> bool {
    forall|j: int| 0 <= j < p.ties.len() ==> (#[trigger] p.ties[j]).0.source == i && p.ties[j].1.source <= i
}

proof fn lemma_push_bound(q: Seq<(usize, Endpoint)>, r: usize, e: Endpoint, m: int)
    requires
        forall|j: int| 0 <= j < q.len() ==> (#[trigger] q[j]).1.source <= m,
        e.source <= m,
    ensures
        forall|j: int| 0 <= j < q.push((r, e)).len() ==> (#[trigger] q.push((r, e))[j]).1.source <= m,
{
    assert forall|j: int| 0 <= j < q.push((r, e)).len() implies (#[trigger] q.push((r, e))[j]).1.source <= m by {
        if j < q.len() {
            assert(q.push((r, e))[j] == q[j]);
        }
    }
}

proof fn lemma_step_points_back(placed: Seq<(usize, Endpoint)>, i: usize, src: TieSource)
    requires
        forall|j: int| 0 <= j < placed.len() ==> (#[trigger] placed[j]).1.source < i,
    ensures
        ties_point_back(tie_step(placed, i, src).0, i as int),
        forall|j: int| 0 <= j < tie_step(placed, i, src).1.len() ==> (#[trigger] tie_step(placed, i, src).1[j]).1.source <= i,
{
    let m = i as int;
    assert forall|j: int| 0 <= j < placed.len() implies (#[trigger] placed[j]).1.source <= m by {}
    match src.shape {
        SourceShape::Line => {
            let p1 = Endpoint { source: i, slot: Slot::LineP1 };
            let p2 = Endpoint { source: i, slot: Slot::LineP2 };
            lemma_placed_at_bound(placed, src.root_a, m);
            lemma_push_bound(placed, src.root_a, p1, m);
            let pl1 = match placed_at(placed, src.root_a) {
                Some(o) => placed,
                None => placed.push((src.root_a, p1)),
            };
            lemma_placed_at_bound(pl1, src.root_b, m);
            lemma_push_bound(pl1, src.root_b, p2, m);
        },
        SourceShape::Point => {
            let ep = Endpoint { source: i, slot: Slot::Point };
            lemma_placed_at_bound(placed, src.root_a, m);
            lemma_push_bound(placed, src.root_a, ep, m);
        },
        SourceShape::Arc { closed, ellipse } => {
            let c_ep = Endpoint { source: i, slot: Slot::ArcCenter };
            let s_ep = Endpoint { source: i, slot: Slot::ArcStart };
            let e_ep = Endpoint { source: i, slot: Slot::ArcEnd };
            lemma_placed_at_bound(placed, src.root_a, m);
            lemma_placed_at_bound(placed, src.root_b, m);
            lemma_placed_at_bound(placed, src.root_c, m);
            lemma_push_bound(placed, src.root_a, c_ep, m);
            let pl1 = match placed_at(placed, src.root_a) {
                Some(o) => placed,
                None => placed.push((src.root_a, c_ep)),
            };
            lemma_push_bound(pl1, src.root_b, s_ep, m);
            let pl2 = match placed_at(placed, src.root_b) {
                Some(o) => pl1,
                None => pl1.push((src.root_b, s_ep)),
            };
            lemma_push_bound(pl2, src.root_c, e_ep, m);
        },
    }
}

/// Every coincidence a copy recreates ties a point of the entity being
/// placed to a point of an entity placed no later: the walk over the
/// sources only ever ties back.
pub proof fn lemma_ties_point_back(sources: Seq<TieSource>, k: nat)
    requires
        k <= sources.len(),
        sources.len() <= usize::MAX,
    ensures
        tie_plans(sources, k).0.len() == k,
        forall|i: int| 0 <= i < k ==> ties_point_back(#[trigger] tie_plans(sources, k).0[i], i),
        forall|j: int| 0 <= j < tie_plans(sources, k).1.len() ==> (#[trigger] tie_plans(sources, k).1[j]).1.source < k,
    decreases k,
{
    if k > 0 {
        lemma_ties_point_back(sources, (k - 1) as nat);
        let (plans, placed) = tie_plans(sources, (k - 1) as nat);
        lemma_step_points_back(placed, (k - 1) as usize, sources[k - 1]);
        let (p, pl2) = tie_step(placed, (k - 1) as usize, sources[k - 1]);
        assert forall|i: int| 0 <= i < k implies ties_point_back(#[trigger] tie_plans(sources, k).0[i], i) by {
            if i < k - 1 {
                assert(tie_plans(sources, k).0[i] == plans[i]);
            }
        }
    }
}

/// Whether plan `p` recreates a coincidence on point `e` of the copy.
pub open spec fn tied(p: TiePlanModel, e: Endpoint) -> bool {
    exists|j: int| 0 <= j < p.ties.len() && (#[trigger] p.ties[j]).0 == e
}

proof fn lemma_plan_is_step(sources: Seq<TieSource>, k: nat, i: int)
    requires
        k <= sources.len(),
        sources.len() <= usize::MAX,
        0 <= i < k,
    ensures
        tie_plans(sources, k).0.len() == k,
        tie_plans(sources, k).0[i] == tie_step(tie_plans(sources, i as nat).1, i as usize, sources[i]).0,
    decreases k,
{
    lemma_ties_point_back(sources, k);
    if i < k - 1 {
        lemma_plan_is_step(sources, (k - 1) as nat, i);
    }
}

/// A line's or a point's copy has no freedom of its own and none
/// constrained twice: each of its points is either imaged or tied by a
/// recreated coincidence, never both.
pub proof fn lemma_points_held_once(sources: Seq<TieSource>, i: int)
    requires
        0 <= i < sources.len(),
        sources.len() <= usize::MAX,
    ensures
        ({
            let p = tie_plans(sources, sources.len()).0[i];
            let src = sources[i];
            &&& src.shape == SourceShape::Line ==> {
                &&& (p.mask & IMAGE_P1 != 0) != tied(p, Endpoint { source: i as usize, slot: Slot::LineP1 })
                &&& (p.mask & IMAGE_P2 != 0) != tied(p, Endpoint { source: i as usize, slot: Slot::LineP2 })
            }
            &&& src.shape == SourceShape::Point ==>
                (p.mask == IMAGE_P1) != tied(p, Endpoint { source: i as usize, slot: Slot::Point })
        }),
{
    lemma_plan_is_step(sources, sources.len(), i);
    let placed = tie_plans(sources, i as nat).1;
    let src = sources[i];
    let p = tie_step(placed, i as usize, src).0;
    let e1 = Endpoint { source: i as usize, slot: Slot::LineP1 };
    let e2 = Endpoint { source: i as usize, slot: Slot::LineP2 };
    if src.shape == SourceShape::Line {
        let a = placed_at(placed, src.root_a);
        let pl1 = match a {
            Some(o) => placed,
            None => placed.push((src.root_a, e1)),
        };
        let b = placed_at(pl1, src.root_b);
        let m1: u8 = if a is Some { 0 } else { IMAGE_P1 };
        let m2: u8 = if b is Some { 0 } else { IMAGE_P2 };
        assert(p.mask == m1 | m2);
        assert((m1 | m2) & 1u8 != 0 <==> m1 == 1u8) by (bit_vector)
            requires
                m1 == 0u8 || m1 == 1u8,
                m2 == 0u8 || m2 == 2u8,
        ;
        assert((m1 | m2) & 2u8 != 0 <==> m2 == 2u8) by (bit_vector)
            requires
                m1 == 0u8 || m1 == 1u8,
                m2 == 0u8 || m2 == 2u8,
        ;
        if tied(p, e1) {
            let j = choose|j: int| 0 <= j < p.ties.len() && (#[trigger] p.ties[j]).0 == e1;
            assert(a is Some);
        } else if a is Some {
            assert(p.ties[0].0 == e1);
        }
        if tied(p, e2) {
            let j = choose|j: int| 0 <= j < p.ties.len() && (#[trigger] p.ties[j]).0 == e2;
            assert(b is Some);
        } else if b is Some {
            assert(p.ties[p.ties.len() - 1].0 == e2);
        }
    } else if src.shape == SourceShape::Point {
        let e = Endpoint { source: i as usize, slot: Slot::Point };
        if placed_at(placed, src.root_a) is Some {
            assert(p.ties[0].0 == e);
        }
    }
}

// ---------------------------------------------------------------------------
// What holds one copy
// ---------------------------------------------------------------------------

/// What a copy's constraint batch holds for it.
#[derive(Clone, Copy, PartialEq, Eq, Structural, Debug)]
pub enum CopyStep {
    /// The copy is the image of its source under the copy's transform,
    /// over the rows of `mask` (a point has all of them).
    Image { source: MetaEntity, copy: MetaEntity, mask: u8 },
    /// A recreated coincidence between two points of the copy; a pair the
    /// solver has no coincidence for is left out when the actions are
    /// built.
    Coincident(EndpointRef, EndpointRef),
    /// The copy is construction geometry, as its source is.
    Construction(MetaEntity),
    /// The copy takes its source's line style.
    Style(MetaEntity),
}

/// The copy's point in a slot of its entity, when the entity has one.
pub open spec fn copy_point(e: MetaEntity, slot: Slot) -> Option<EndpointRef> {
    match (slot, e) {
        (Slot::Point, MetaEntity::Point(p)) => Some(EndpointRef::Point(p)),
        (Slot::LineP1, MetaEntity::Line(l)) => Some(EndpointRef::LineP1(l)),
        (Slot::LineP2, MetaEntity::Line(l)) => Some(EndpointRef::LineP2(l)),
        (Slot::ArcCenter, MetaEntity::Arc(a)) => Some(EndpointRef::ArcCenter(a)),
        (Slot::ArcStart, MetaEntity::Arc(a)) => Some(EndpointRef::ArcStart(a)),
        (Slot::ArcEnd, MetaEntity::Arc(a)) => Some(EndpointRef::ArcEnd(a)),
        _ => None,
    }
}

/// The copy's counterpart of a source point, by source index and slot.
pub open spec fn copy_endpoint_of(copy: Seq<MetaEntity>, e: Endpoint) -> Option<EndpointRef> {
    if e.source < copy.len() {
        copy_point(copy[e.source as int], e.slot)
    } else {
        None
    }
}

/// The slot a point reference names on its entity.
pub open spec fn slot_of(q: EndpointRef) -> Slot {
    match q {
        EndpointRef::Point(_) => Slot::Point,
        EndpointRef::LineP1(_) => Slot::LineP1,
        EndpointRef::LineP2(_) => Slot::LineP2,
        EndpointRef::ArcCenter(_) => Slot::ArcCenter,
        EndpointRef::ArcStart(_) => Slot::ArcStart,
        EndpointRef::ArcEnd(_) => Slot::ArcEnd,
    }
}

/// A copy's point in a slot is that slot of the copy entity itself.
pub proof fn lemma_copy_point_in_slot(e: MetaEntity, slot: Slot)
    ensures
        copy_point(e, slot) matches Some(q) ==> slot_of(q) == slot && endpoint_entity_spec(q) == e,
{
}

/// The coincidences a tie list recreates on a copy, in order; a tie whose
/// points the copy does not have is skipped.
pub open spec fn tie_coincidences(copy: Seq<MetaEntity>, ties: Seq<(Endpoint, Endpoint)>) -> Seq<CopyStep>
    decreases ties.len(),
{
    if ties.len() == 0 {
        seq![]
    } else {
        let prev = tie_coincidences(copy, ties.drop_last());
        let t = ties.last();
        match (copy_endpoint_of(copy, t.0), copy_endpoint_of(copy, t.1)) {
            (Some(a), Some(b)) => prev.push(CopyStep::Coincident(a, b)),
            _ => prev,
        }
    }
}

/// What holds source `k`'s copy: its image when the plan images any row,
/// then the coincidences it recreates.
pub open spec fn source_steps(sources: Seq<MetaEntity>, copy: Seq<MetaEntity>, plan: TiePlanModel, k: int) -> Seq<CopyStep> {
    (if plan.mask != 0 {
        seq![CopyStep::Image { source: sources[k], copy: copy[k], mask: plan.mask }]
    } else {
        seq![]
    }) + tie_coincidences(copy, plan.ties)
}

/// The flags a copy takes from its source (`flags[k]`: construction, a
/// style other than solid); a point has neither.
pub open spec fn flag_steps(e: MetaEntity, flags: (bool, bool)) -> Seq<CopyStep> {
    if e is Point {
        seq![]
    } else {
        (if flags.0 {
            seq![CopyStep::Construction(e)]
        } else {
            seq![]
        }) + (if flags.1 {
            seq![CopyStep::Style(e)]
        } else {
            seq![]
        })
    }
}

/// The image and coincidence steps of the first `k` sources.
pub open spec fn sources_steps(sources: Seq<MetaEntity>, copy: Seq<MetaEntity>, plans: Seq<TiePlanModel>, k: nat) -> Seq<CopyStep>
    decreases k,
{
    if k == 0 {
        seq![]
    } else {
        sources_steps(sources, copy, plans, (k - 1) as nat) + source_steps(sources, copy, plans[k - 1], k - 1)
    }
}

/// The flag steps of the first `k` copy entities.
pub open spec fn flags_steps(copy: Seq<MetaEntity>, flags: Seq<(bool, bool)>, k: nat) -> Seq<CopyStep>
    decreases k,
{
    if k == 0 {
        seq![]
    } else {
        flags_steps(copy, flags, (k - 1) as nat) + flag_steps(copy[k - 1], flags[k - 1])
    }
}

/// Everything that holds one copy, in batch order: per source, its image
/// and recreated coincidences; then per copy entity, its flags.
pub open spec fn copy_steps_spec(plans: Seq<TiePlanModel>, sources: Seq<MetaEntity>, copy: Seq<MetaEntity>, flags: Seq<(bool, bool)>) -> Seq<CopyStep> {
    sources_steps(sources, copy, plans, sources.len()) + flags_steps(copy, flags, copy.len())
}

fn copy_endpoint_exec(copy: &Vec<MetaEntity>, e: Endpoint) -> (r: Option<EndpointRef>)
    ensures
        r == copy_endpoint_of(copy@, e),
{
    if e.source >= copy.len() {
        return None;
    }
    match (e.slot, copy[e.source]) {
        (Slot::Point, MetaEntity::Point(p)) => Some(EndpointRef::Point(p)),
        (Slot::LineP1, MetaEntity::Line(l)) => Some(EndpointRef::LineP1(l)),
        (Slot::LineP2, MetaEntity::Line(l)) => Some(EndpointRef::LineP2(l)),
        (Slot::ArcCenter, MetaEntity::Arc(a)) => Some(EndpointRef::ArcCenter(a)),
        (Slot::ArcStart, MetaEntity::Arc(a)) => Some(EndpointRef::ArcStart(a)),
        (Slot::ArcEnd, MetaEntity::Arc(a)) => Some(EndpointRef::ArcEnd(a)),
        _ => None,
    }
}

/// What holds one copy of a pattern (see [`copy_steps_spec`]): `plans[k]`
/// is how source `k` is held, `copy[k]` its copy, `flags[k]` whether it is
/// construction geometry and whether its style is other than solid.
pub fn copy_steps(plans: &Vec<TiePlan>, sources: &Vec<MetaEntity>, copy: &Vec<MetaEntity>, flags: &Vec<(bool, bool)>) -> (r: Vec<CopyStep>)
    requires
        plans@.len() == sources@.len(),
        copy@.len() == sources@.len(),
        flags@.len() == sources@.len(),
    ensures
        r@ == copy_steps_spec(plans@.map_values(|p: TiePlan| p@), sources@, copy@, flags@),
{
    let ghost pm = plans@.map_values(|p: TiePlan| p@);
    let n = sources.len();
    let mut out: Vec<CopyStep> = Vec::new();
    let mut k: usize = 0;
    while k < n
        invariant
            n == sources@.len(),
            plans@.len() == n,
            copy@.len() == n,
            pm == plans@.map_values(|p: TiePlan| p@),
            k <= n,
            out@ == sources_steps(sources@, copy@, pm, k as nat),
        decreases n - k,
    {
        let plan = &plans[k];
        assert(pm[k as int] == plan@);
        if plan.mask != 0 {
            out.push(CopyStep::Image { source: sources[k], copy: copy[k], mask: plan.mask });
        }
        let ghost with_image = out@;
        let mut t: usize = 0;
        while t < plan.ties.len()
            invariant
                copy@.len() == n,
                t <= plan.ties@.len(),
                out@ == with_image + tie_coincidences(copy@, plan.ties@.take(t as int)),
            decreases plan.ties@.len() - t,
        {
            assert(plan.ties@.take(t + 1).drop_last() =~= plan.ties@.take(t as int));
            let (own, other) = plan.ties[t];
            match (copy_endpoint_exec(copy, own), copy_endpoint_exec(copy, other)) {
                (Some(a), Some(b)) => {
                    out.push(CopyStep::Coincident(a, b));
                },
                _ => {},
            }
            assert(out@ =~= with_image + tie_coincidences(copy@, plan.ties@.take(t + 1)));
            t = t + 1;
        }
        assert(plan.ties@.take(plan.ties@.len() as int) =~= plan.ties@);
        assert(out@ =~= sources_steps(sources@, copy@, pm, (k + 1) as nat));
        k = k + 1;
    }
    let ghost first = out@;
    let mut j: usize = 0;
    while j < n
        invariant
            n == sources@.len(),
            copy@.len() == n,
            flags@.len() == n,
            j <= n,
            out@ == first + flags_steps(copy@, flags@, j as nat),
        decreases n - j,
    {
        let e = copy[j];
        let (construction, styled) = flags[j];
        match e {
            MetaEntity::Point(_) => {},
            _ => {
                if construction {
                    out.push(CopyStep::Construction(e));
                }
                if styled {
                    out.push(CopyStep::Style(e));
                }
            },
        }
        assert(out@ =~= first + flags_steps(copy@, flags@, (j + 1) as nat));
        j = j + 1;
    }
    out
}

// ---------------------------------------------------------------------------
// Which new constraints belong to which copy
// ---------------------------------------------------------------------------

/// The copy an entity belongs to: the last copy holding it.
pub open spec fn copy_owner(copies: Seq<Seq<MetaEntity>>, e: MetaEntity) -> Option<nat>
    decreases copies.len(),
{
    if copies.len() == 0 {
        None
    } else if copies.last().contains(e) {
        Some((copies.len() - 1) as nat)
    } else {
        copy_owner(copies.drop_last(), e)
    }
}

/// The copy a constraint belongs to: that of the last entity it refers to
/// (lines, then arcs, then points) that belongs to a copy.
pub open spec fn constraint_owner(copies: Seq<Seq<MetaEntity>>, refs: Seq<MetaEntity>) -> Option<nat>
    decreases refs.len(),
{
    if refs.len() == 0 {
        None
    } else if copy_owner(copies, refs.last()) is Some {
        copy_owner(copies, refs.last())
    } else {
        constraint_owner(copies, refs.drop_last())
    }
}

/// The nids, in order, of the constraints from `n0` on that belong to
/// copy `ci`.
pub open spec fn copy_constraints(copies: Seq<Seq<MetaEntity>>, cs: Seq<(u32, Seq<MetaEntity>)>, n0: u32, ci: nat) -> Seq<u32>
    decreases cs.len(),
{
    if cs.len() == 0 {
        seq![]
    } else {
        let prev = copy_constraints(copies, cs.drop_last(), n0, ci);
        let c = cs.last();
        if c.0 >= n0 && constraint_owner(copies, c.1) == Some(ci) {
            prev.push(c.0)
        } else {
            prev
        }
    }
}

/// Whether the nids ascend.
pub open spec fn ascending(v: Seq<u32>) -> bool {
    forall|i: int, j: int| 0 <= i < j < v.len() ==> v[i] <= v[j]
}

/// A constraint as the ownership reads it: its nid and the entities it
/// refers to, lines first, then arcs, then points.
pub struct ConstraintRefs {
    pub nid: u32,
    pub refs: Vec<MetaEntity>,
}

/// The views of constraint refs.
pub open spec fn refs_views(cs: Seq<ConstraintRefs>) -> Seq<(u32, Seq<MetaEntity>)> {
    cs.map_values(|c: ConstraintRefs| (c.nid, c.refs@))
}

/// The views of copies.
pub open spec fn copies_views(copies: Seq<Vec<MetaEntity>>) -> Seq<Seq<MetaEntity>> {
    copies.map_values(|c: Vec<MetaEntity>| c@)
}

fn holds_entity(v: &Vec<MetaEntity>, e: MetaEntity) -> (b: bool)
    ensures
        b == v@.contains(e),
{
    let mut i: usize = 0;
    while i < v.len()
        invariant
            i <= v@.len(),
            forall|j: int| 0 <= j < i ==> v@[j] != e,
        decreases v@.len() - i,
    {
        if v[i] == e {
            assert(v@[i as int] == e);
            return true;
        }
        i = i + 1;
    }
    false
}

fn owner_copy(copies: &Vec<Vec<MetaEntity>>, e: MetaEntity) -> (r: Option<usize>)
    ensures
        (match r {
            Some(i) => Some(i as nat),
            None => None,
        }) == copy_owner(copies_views(copies@), e),
{
    let ghost cv = copies_views(copies@);
    let mut k: usize = copies.len();
    assert(cv.take(k as int) =~= cv);
    while k > 0
        invariant
            k <= copies@.len(),
            cv == copies_views(copies@),
            copy_owner(cv, e) == copy_owner(cv.take(k as int), e),
        decreases k,
    {
        assert(cv.take(k as int).drop_last() =~= cv.take(k - 1));
        assert(cv.take(k as int).last() == copies@[k - 1]@);
        if holds_entity(&copies[k - 1], e) {
            return Some(k - 1);
        }
        k = k - 1;
    }
    assert(cv.take(0) =~= Seq::<Seq<MetaEntity>>::empty());
    None
}

fn owner_of_constraint(copies: &Vec<Vec<MetaEntity>>, refs: &Vec<MetaEntity>) -> (r: Option<usize>)
    ensures
        (match r {
            Some(i) => Some(i as nat),
            None => None,
        }) == constraint_owner(copies_views(copies@), refs@),
{
    let ghost cv = copies_views(copies@);
    let mut k: usize = refs.len();
    assert(refs@.take(k as int) =~= refs@);
    while k > 0
        invariant
            k <= refs@.len(),
            cv == copies_views(copies@),
            constraint_owner(cv, refs@) == constraint_owner(cv, refs@.take(k as int)),
        decreases k,
    {
        assert(refs@.take(k as int).drop_last() =~= refs@.take(k - 1));
        assert(refs@.take(k as int).last() == refs@[k - 1]);
        let o = owner_copy(copies, refs[k - 1]);
        if o.is_some() {
            return o;
        }
        k = k - 1;
    }
    assert(refs@.take(0) =~= Seq::<MetaEntity>::empty());
    None
}

fn insert_ascending(v: &mut Vec<u32>, x: u32)
    requires
        ascending(old(v)@),
    ensures
        ascending(final(v)@),
        final(v)@.to_multiset() == old(v)@.to_multiset().insert(x),
{
    broadcast use vstd::seq_lib::group_to_multiset_ensures;

    let mut p: usize = 0;
    while p < v.len() && v[p] <= x
        invariant
            p <= v@.len(),
            forall|j: int| 0 <= j < p ==> v@[j] <= x,
        decreases v@.len() - p,
    {
        p = p + 1;
    }
    let ghost before = v@;
    v.insert(p, x);
    assert forall|i: int, j: int| 0 <= i < j < v@.len() implies v@[i] <= v@[j] by {
        if j < p {
            assert(v@[i] == before[i] && v@[j] == before[j]);
        } else if j == p {
            assert(v@[i] == before[i]);
        } else if i < p {
            assert(v@[i] == before[i] && v@[j] == before[j - 1]);
            assert(before[p as int] > x);
            assert(before[i] <= x);
        } else if i == p {
            assert(v@[j] == before[j - 1]);
            assert(before[p as int] > x);
        } else {
            assert(v@[i] == before[i - 1] && v@[j] == before[j - 1]);
        }
    }
}

/// The constraints numbered from `n0` on that belong to each copy, in
/// ascending nid order: a constraint belongs to the copy of the last
/// entity it refers to that some copy holds (see [`constraint_owner`]).
pub fn constraints_per_copy(copies: &Vec<Vec<MetaEntity>>, cs: &Vec<ConstraintRefs>, n0: u32) -> (r: Vec<Vec<u32>>)
    ensures
        r@.len() == copies@.len(),
        forall|ci: int|
            0 <= ci < r@.len() ==> ascending(#[trigger] r@[ci]@) && r@[ci]@.to_multiset() == copy_constraints(
                copies_views(copies@),
                refs_views(cs@),
                n0,
                ci as nat,
            ).to_multiset(),
{
    broadcast use vstd::seq_lib::group_to_multiset_ensures;

    let ghost cv = copies_views(copies@);
    let ghost csv = refs_views(cs@);
    let mut out: Vec<Vec<u32>> = Vec::new();
    let mut ci: usize = 0;
    while ci < copies.len()
        invariant
            ci <= copies@.len(),
            out@.len() == ci,
            cv == copies_views(copies@),
            csv == refs_views(cs@),
            forall|k: int|
                0 <= k < out@.len() ==> ascending(#[trigger] out@[k]@) && out@[k]@.to_multiset()
                    == copy_constraints(cv, csv, n0, k as nat).to_multiset(),
        decreases copies@.len() - ci,
    {
        let mut mine: Vec<u32> = Vec::new();
        let mut i: usize = 0;
        assert(csv.take(0) =~= Seq::<(u32, Seq<MetaEntity>)>::empty());
        assert(mine@ =~= Seq::<u32>::empty());
        while i < cs.len()
            invariant
                i <= cs@.len(),
                cv == copies_views(copies@),
                csv == refs_views(cs@),
                ascending(mine@),
                mine@.to_multiset() == copy_constraints(cv, csv.take(i as int), n0, ci as nat).to_multiset(),
            decreases cs@.len() - i,
        {
            assert(csv.take(i + 1).drop_last() =~= csv.take(i as int));
            assert(csv.take(i + 1).last() == (cs@[i as int].nid, cs@[i as int].refs@));
            let c = &cs[i];
            let ghost prev = copy_constraints(cv, csv.take(i as int), n0, ci as nat);
            let ghost next = copy_constraints(cv, csv.take(i + 1), n0, ci as nat);
            let mut take = false;
            if c.nid >= n0 {
                match owner_of_constraint(copies, &c.refs) {
                    Some(o) => {
                        take = o == ci;
                    },
                    None => {},
                }
            }
            if take {
                insert_ascending(&mut mine, c.nid);
                assert(next == prev.push(c.nid));
                proof {
                    vstd::seq_lib::to_multiset_build(prev, c.nid);
                }
                assert(prev.push(c.nid).to_multiset() =~= prev.to_multiset().insert(c.nid));
            } else {
                assert(next == prev);
            }
            i = i + 1;
        }
        assert(csv.take(cs@.len() as int) =~= csv);

        out.push(mine);
        ci = ci + 1;
    }
    out
}

} // verus!
