//! Uniform scaling's dimension bookkeeping: a driving linear dimension
//! whose referents are all inside the scaled set scales with the
//! geometry; every other linear dimension touching the set is left alone
//! and reported with its reason.
//!
//! Entities are identified by their handle in the sketch (the raw value
//! of the solver's `Ref`).

use vstd::prelude::*;
use crate::split::EndpointRef;
use crate::transfer::{dim_references_arc, dim_references_line, dim_references_point, DimKind};

verus! {

/// One side of a range bound: a literal number, or a live expression.
#[derive(Clone, Copy, PartialEq, Eq, Structural, Debug)]
pub enum BoundValue {
    Literal,
    Live,
}

/// The range a dimension is held in, by the kind of its bounds.
#[derive(Clone, Copy, PartialEq, Eq, Structural, Debug)]
pub enum RangeBound {
    Min(BoundValue),
    Max(BoundValue),
    Between(BoundValue, BoundValue),
}

/// A dimension as the scale pass reads it.
pub struct ScaleDim {
    pub did: u32,
    pub name: String,
    pub kind: DimKind,
    /// It re-measures on its own.
    pub derived: bool,
    /// It is driven by an expression.
    pub has_expr: bool,
    pub range: Option<RangeBound>,
}

/// What the dimension pass did, for the caller's output.
pub struct ScaleDimReport {
    /// Dimension names whose values (and backing constraints) scaled.
    pub scaled: Vec<String>,
    /// `(name, reason)` for linear dims touching the set that were
    /// deliberately not scaled.
    pub left: Vec<(String, &'static str)>,
}

/// The scaled set.
pub open spec fn ep_in(e: EndpointRef, lines: Seq<u32>, arcs: Seq<u32>, points: Seq<u32>) -> bool {
    match e {
        EndpointRef::Point(p) => points.contains(p),
        EndpointRef::LineP1(l) => lines.contains(l),
        EndpointRef::LineP2(l) => lines.contains(l),
        EndpointRef::ArcCenter(a) => arcs.contains(a),
        EndpointRef::ArcStart(a) => arcs.contains(a),
        EndpointRef::ArcEnd(a) => arcs.contains(a),
    }
}

/// Whether every referent of a linear dimension is in the scaled set; none
/// for angular kinds, which scaling does not change.
pub open spec fn linear_inside(k: DimKind, lines: Seq<u32>, arcs: Seq<u32>, points: Seq<u32>) -> Option<bool> {
    match k {
        DimKind::LineLength(l) => Some(lines.contains(l)),
        DimKind::ArcRadius(a) => Some(arcs.contains(a)),
        DimKind::ArcRadiusB(a) => Some(arcs.contains(a)),
        DimKind::PointPointDistance(a, b) => Some(ep_in(a, lines, arcs, points) && ep_in(b, lines, arcs, points)),
        DimKind::HDistance(a, b) => Some(ep_in(a, lines, arcs, points) && ep_in(b, lines, arcs, points)),
        DimKind::VDistance(a, b) => Some(ep_in(a, lines, arcs, points) && ep_in(b, lines, arcs, points)),
        DimKind::PointLineDistance(pt, l) => Some(ep_in(pt, lines, arcs, points) && lines.contains(l)),
        DimKind::ConcentricDistance(a, b) => Some(arcs.contains(a) && arcs.contains(b)),
        DimKind::LineLineDistance(a, b) => Some(lines.contains(a) && lines.contains(b)),
        DimKind::Angle(..) => None,
        DimKind::LineAngle(_) => None,
        DimKind::ArcSweep(_) => None,
        DimKind::ArcRotation(_) => None,
    }
}

/// Whether a dimension refers to any entity of the set.
pub open spec fn touches(k: DimKind, lines: Seq<u32>, arcs: Seq<u32>, points: Seq<u32>) -> bool {
    (exists|i: int| 0 <= i < lines.len() && dim_references_line(k, #[trigger] lines[i]))
    || (exists|i: int| 0 <= i < arcs.len() && dim_references_arc(k, #[trigger] arcs[i]))
    || (exists|i: int| 0 <= i < points.len() && dim_references_point(k, #[trigger] points[i]))
}

/// Whether a range bound has a live side.
pub open spec fn live_range(r: RangeBound) -> bool {
    match r {
        RangeBound::Min(v) => v == BoundValue::Live,
        RangeBound::Max(v) => v == BoundValue::Live,
        RangeBound::Between(lo, hi) => lo == BoundValue::Live || hi == BoundValue::Live,
    }
}

/// What the scale pass does with one dimension.
pub enum ScaleVerdict {
    /// Angular, elsewhere, or derived: not touched, not reported.
    Skip,
    /// Left alone, with the reason reported.
    Left(Seq<char>),
    /// Scaled with the geometry.
    Scale,
}

/// The verdict on one dimension: angular kinds, dimensions touching
/// nothing of the set and derived ones are skipped; one driven by an
/// expression, held by a live range bound, or reaching outside the set is
/// left (in that order of reasons); the rest scale.
pub open spec fn scale_verdict(d: ScaleDim, lines: Seq<u32>, arcs: Seq<u32>, points: Seq<u32>) -> ScaleVerdict {
    match linear_inside(d.kind, lines, arcs, points) {
        None => ScaleVerdict::Skip,
        Some(inside) => if !touches(d.kind, lines, arcs, points) {
            ScaleVerdict::Skip
        } else if d.derived {
            ScaleVerdict::Skip
        } else if d.has_expr {
            ScaleVerdict::Left("expression"@)
        } else if d.range matches Some(r) && live_range(r) {
            ScaleVerdict::Left("live range bound"@)
        } else if !inside {
            ScaleVerdict::Left("spans unscaled geometry"@)
        } else {
            ScaleVerdict::Scale
        },
    }
}

/// The classification of the dimensions, in order: the dids that scale,
/// the names that scale, and the (name, reason) pairs left alone.
pub open spec fn classify(ds: Seq<ScaleDim>, lines: Seq<u32>, arcs: Seq<u32>, points: Seq<u32>) -> (Seq<u32>, Seq<Seq<char>>, Seq<(Seq<char>, Seq<char>)>)
    decreases ds.len(),
{
    if ds.len() == 0 {
        (Seq::empty(), Seq::empty(), Seq::empty())
    } else {
        let n = ds.len() - 1;
        let (dids, scaled, left) = classify(ds.take(n), lines, arcs, points);
        let d = ds[n];
        match scale_verdict(d, lines, arcs, points) {
            ScaleVerdict::Skip => (dids, scaled, left),
            ScaleVerdict::Left(why) => (dids, scaled, left.push((d.name@, why))),
            ScaleVerdict::Scale => (dids.push(d.did), scaled.push(d.name@), left),
        }
    }
}

/// What the classification says of each dimension: one that scales has
/// its did and name among the scaled; one left has its name and reason
/// among those left; and nothing else appears in either list.
pub proof fn lemma_classify_membership(ds: Seq<ScaleDim>, lines: Seq<u32>, arcs: Seq<u32>, points: Seq<u32>)
    ensures
        ({
            let c = classify(ds, lines, arcs, points);
            &&& c.0.len() == c.1.len()
            &&& forall|i: int| 0 <= i < ds.len() && #[trigger] scale_verdict(ds[i], lines, arcs, points) is Scale
                ==> c.0.contains(ds[i].did) && c.1.contains(ds[i].name@)
            &&& forall|i: int| 0 <= i < ds.len() ==> (#[trigger] scale_verdict(ds[i], lines, arcs, points) matches ScaleVerdict::Left(why)
                ==> c.2.contains((ds[i].name@, why)))
            &&& forall|j: int| #![trigger c.0[j]] 0 <= j < c.0.len() ==> exists|i: int| 0 <= i < ds.len() && #[trigger] ds[i].did == c.0[j]
                && ds[i].name@ == c.1[j] && scale_verdict(ds[i], lines, arcs, points) is Scale
            &&& forall|j: int| #![trigger c.2[j]] 0 <= j < c.2.len() ==> exists|i: int| 0 <= i < ds.len() && (#[trigger] ds[i].name@, c.2[j].1) == c.2[j]
                && scale_verdict(ds[i], lines, arcs, points) == ScaleVerdict::Left(c.2[j].1)
        }),
    decreases ds.len(),
{
    if ds.len() > 0 {
        let n = ds.len() - 1;
        let pre = ds.take(n);
        lemma_classify_membership(pre, lines, arcs, points);
        let p = classify(pre, lines, arcs, points);
        let c = classify(ds, lines, arcs, points);
        let d = ds[n];
        assert forall|i: int| 0 <= i < n implies #[trigger] pre[i] == ds[i] by {}
        assert forall|i: int| 0 <= i < ds.len() && #[trigger] scale_verdict(ds[i], lines, arcs, points) is Scale
            implies c.0.contains(ds[i].did) && c.1.contains(ds[i].name@) by {
            if i < n {
                assert(pre[i] == ds[i]);
                assert(scale_verdict(pre[i], lines, arcs, points) is Scale);
                let a = choose|a: int| 0 <= a < p.0.len() && p.0[a] == pre[i].did;
                let b = choose|b: int| 0 <= b < p.1.len() && p.1[b] == pre[i].name@;
                assert(c.0[a] == p.0[a]);
                assert(c.1[b] == p.1[b]);
            } else {
                assert(c.0[c.0.len() - 1] == d.did);
                assert(c.1[c.1.len() - 1] == d.name@);
            }
        }
        assert forall|i: int| 0 <= i < ds.len() implies (#[trigger] scale_verdict(ds[i], lines, arcs, points) matches ScaleVerdict::Left(why)
            ==> c.2.contains((ds[i].name@, why))) by {
            if let ScaleVerdict::Left(why) = scale_verdict(ds[i], lines, arcs, points) {
                if i < n {
                    assert(pre[i] == ds[i]);
                    assert(scale_verdict(pre[i], lines, arcs, points) == ScaleVerdict::Left(why));
                    let a = choose|a: int| 0 <= a < p.2.len() && p.2[a] == (pre[i].name@, why);
                    assert(c.2[a] == p.2[a]);
                } else {
                    assert(c.2[c.2.len() - 1] == (d.name@, why));
                }
            }
        }
        assert forall|j: int| #![trigger c.0[j]] 0 <= j < c.0.len() implies exists|i: int| 0 <= i < ds.len() && #[trigger] ds[i].did == c.0[j]
            && ds[i].name@ == c.1[j] && scale_verdict(ds[i], lines, arcs, points) is Scale by {
            if j < p.0.len() {
                let i = choose|i: int| 0 <= i < pre.len() && #[trigger] pre[i].did == p.0[j] && pre[i].name@ == p.1[j]
                    && scale_verdict(pre[i], lines, arcs, points) is Scale;
                assert(ds[i] == pre[i]);
                assert(c.0[j] == p.0[j] && c.1[j] == p.1[j]);
            } else {
                assert(ds[n].did == c.0[j]);
            }
        }
        assert forall|j: int| #![trigger c.2[j]] 0 <= j < c.2.len() implies exists|i: int| 0 <= i < ds.len() && (#[trigger] ds[i].name@, c.2[j].1) == c.2[j]
            && scale_verdict(ds[i], lines, arcs, points) == ScaleVerdict::Left(c.2[j].1) by {
            if j < p.2.len() {
                let i = choose|i: int| 0 <= i < pre.len() && (#[trigger] pre[i].name@, p.2[j].1) == p.2[j]
                    && scale_verdict(pre[i], lines, arcs, points) == ScaleVerdict::Left(p.2[j].1);
                assert(ds[i] == pre[i]);
                assert(c.2[j] == p.2[j]);
            } else {
                assert((ds[n].name@, c.2[j].1) == c.2[j]);
            }
        }
    }
}

/// Whether every entity a dimension refers to is in the scaled set.
pub open spec fn refs_inside(k: DimKind, lines: Seq<u32>, arcs: Seq<u32>, points: Seq<u32>) -> bool {
    &&& forall|l: u32| #[trigger] dim_references_line(k, l) ==> lines.contains(l)
    &&& forall|a: u32| #[trigger] dim_references_arc(k, a) ==> arcs.contains(a)
    &&& forall|p: u32| #[trigger] dim_references_point(k, p) ==> points.contains(p)
}

proof fn lemma_ep_in(e: EndpointRef, lines: Seq<u32>, arcs: Seq<u32>, points: Seq<u32>)
    ensures
        ep_in(e, lines, arcs, points) <==> (
            (forall|l: u32| #[trigger] crate::transfer::endpoint_on_line(e, l) ==> lines.contains(l))
            && (forall|a: u32| #[trigger] crate::transfer::endpoint_on_arc(e, a) ==> arcs.contains(a))
            && (forall|p: u32| e == EndpointRef::Point(p) ==> points.contains(p))
        ),
{
    match e {
        EndpointRef::Point(p) => {},
        EndpointRef::LineP1(l) => { assert(crate::transfer::endpoint_on_line(e, l)); },
        EndpointRef::LineP2(l) => { assert(crate::transfer::endpoint_on_line(e, l)); },
        EndpointRef::ArcCenter(a) => { assert(crate::transfer::endpoint_on_arc(e, a)); },
        EndpointRef::ArcStart(a) => { assert(crate::transfer::endpoint_on_arc(e, a)); },
        EndpointRef::ArcEnd(a) => { assert(crate::transfer::endpoint_on_arc(e, a)); },
    }
}

/// A linear dimension counts as inside the scaled set exactly when every
/// entity it refers to is in the set; angular kinds are not linear.
pub proof fn lemma_linear_inside_means_refs_inside(k: DimKind, lines: Seq<u32>, arcs: Seq<u32>, points: Seq<u32>)
    ensures
        linear_inside(k, lines, arcs, points) matches Some(inside) ==> (inside <==> refs_inside(k, lines, arcs, points)),
        linear_inside(k, lines, arcs, points) is None <==> (k is Angle || k is LineAngle || k is ArcSweep || k is ArcRotation),
{
    match k {
        DimKind::LineLength(x) => {
            assert(dim_references_line(k, x));
        },
        DimKind::ArcRadius(x) => {
            assert(dim_references_arc(k, x));
        },
        DimKind::ArcRadiusB(x) => {
            assert(dim_references_arc(k, x));
        },
        DimKind::PointPointDistance(a, b) | DimKind::HDistance(a, b) | DimKind::VDistance(a, b) => {
            lemma_ep_in(a, lines, arcs, points);
            lemma_ep_in(b, lines, arcs, points);
            if !ep_in(a, lines, arcs, points) {
                match a {
                    EndpointRef::Point(p) => { assert(dim_references_point(k, p)); },
                    EndpointRef::LineP1(l) => { assert(dim_references_line(k, l)); },
                    EndpointRef::LineP2(l) => { assert(dim_references_line(k, l)); },
                    EndpointRef::ArcCenter(x) => { assert(dim_references_arc(k, x)); },
                    EndpointRef::ArcStart(x) => { assert(dim_references_arc(k, x)); },
                    EndpointRef::ArcEnd(x) => { assert(dim_references_arc(k, x)); },
                }
            }
            if !ep_in(b, lines, arcs, points) {
                match b {
                    EndpointRef::Point(p) => { assert(dim_references_point(k, p)); },
                    EndpointRef::LineP1(l) => { assert(dim_references_line(k, l)); },
                    EndpointRef::LineP2(l) => { assert(dim_references_line(k, l)); },
                    EndpointRef::ArcCenter(x) => { assert(dim_references_arc(k, x)); },
                    EndpointRef::ArcStart(x) => { assert(dim_references_arc(k, x)); },
                    EndpointRef::ArcEnd(x) => { assert(dim_references_arc(k, x)); },
                }
            }
        },
        DimKind::PointLineDistance(a, x) => {
            lemma_ep_in(a, lines, arcs, points);
            assert(dim_references_line(k, x));
            if !ep_in(a, lines, arcs, points) {
                match a {
                    EndpointRef::Point(p) => { assert(dim_references_point(k, p)); },
                    EndpointRef::LineP1(l) => { assert(dim_references_line(k, l)); },
                    EndpointRef::LineP2(l) => { assert(dim_references_line(k, l)); },
                    EndpointRef::ArcCenter(y) => { assert(dim_references_arc(k, y)); },
                    EndpointRef::ArcStart(y) => { assert(dim_references_arc(k, y)); },
                    EndpointRef::ArcEnd(y) => { assert(dim_references_arc(k, y)); },
                }
            }
        },
        DimKind::ConcentricDistance(x, y) => {
            assert(dim_references_arc(k, x));
            assert(dim_references_arc(k, y));
        },
        DimKind::LineLineDistance(x, y) => {
            assert(dim_references_line(k, x));
            assert(dim_references_line(k, y));
        },
        _ => {},
    }
}

/// A dimension scales only if every entity it refers to is in the scaled
/// set; one reported as reaching outside the set refers to an entity
/// outside it. With [`lemma_classify_membership`] (every scaled did is
/// that of a dimension that scales), every did the classification scales
/// is that of a dimension wholly inside the set.
pub proof fn lemma_scaled_only_inside(ds: Seq<ScaleDim>, lines: Seq<u32>, arcs: Seq<u32>, points: Seq<u32>)
    ensures
        forall|i: int|
            0 <= i < ds.len() && #[trigger] scale_verdict(ds[i], lines, arcs, points) is Scale ==> refs_inside(
                ds[i].kind,
                lines,
                arcs,
                points,
            ),
        forall|i: int|
            0 <= i < ds.len() && #[trigger] scale_verdict(ds[i], lines, arcs, points) == ScaleVerdict::Left(
                "spans unscaled geometry"@,
            ) ==> !refs_inside(ds[i].kind, lines, arcs, points),
{
    assert forall|i: int| 0 <= i < ds.len() && #[trigger] scale_verdict(ds[i], lines, arcs, points) is Scale implies refs_inside(
        ds[i].kind,
        lines,
        arcs,
        points,
    ) by {
        lemma_linear_inside_means_refs_inside(ds[i].kind, lines, arcs, points);
    }
    assert forall|i: int|
        0 <= i < ds.len() && #[trigger] scale_verdict(ds[i], lines, arcs, points) == ScaleVerdict::Left(
            "spans unscaled geometry"@,
        ) implies !refs_inside(ds[i].kind, lines, arcs, points) by {
        lemma_linear_inside_means_refs_inside(ds[i].kind, lines, arcs, points);
        reveal_strlit("spans unscaled geometry");
        reveal_strlit("live range bound");
        reveal_strlit("expression");
        assert("spans unscaled geometry"@.len() != "expression"@.len());
        assert("spans unscaled geometry"@.len() != "live range bound"@.len());
    }
}

fn holds(v: &Vec<u32>, x: u32) -> (b: bool)
    ensures
        b == v@.contains(x),
{
    let mut i: usize = 0;
    while i < v.len()
        invariant
            i <= v@.len(),
            forall|j: int| 0 <= j < i ==> v@[j] != x,
        decreases v@.len() - i,
    {
        if v[i] == x {
            assert(v@[i as int] == x);
            return true;
        }
        i = i + 1;
    }
    false
}

fn ep_inside(e: EndpointRef, lines: &Vec<u32>, arcs: &Vec<u32>, points: &Vec<u32>) -> (b: bool)
    ensures
        b == ep_in(e, lines@, arcs@, points@),
{
    match e {
        EndpointRef::Point(p) => holds(points, p),
        EndpointRef::LineP1(l) => holds(lines, l),
        EndpointRef::LineP2(l) => holds(lines, l),
        EndpointRef::ArcCenter(a) => holds(arcs, a),
        EndpointRef::ArcStart(a) => holds(arcs, a),
        EndpointRef::ArcEnd(a) => holds(arcs, a),
    }
}

fn linear_kind_inside(k: DimKind, lines: &Vec<u32>, arcs: &Vec<u32>, points: &Vec<u32>) -> (r: Option<bool>)
    ensures
        r == linear_inside(k, lines@, arcs@, points@),
{
    match k {
        DimKind::LineLength(l) => Some(holds(lines, l)),
        DimKind::ArcRadius(a) => Some(holds(arcs, a)),
        DimKind::ArcRadiusB(a) => Some(holds(arcs, a)),
        DimKind::PointPointDistance(a, b) => Some(ep_inside(a, lines, arcs, points) && ep_inside(b, lines, arcs, points)),
        DimKind::HDistance(a, b) => Some(ep_inside(a, lines, arcs, points) && ep_inside(b, lines, arcs, points)),
        DimKind::VDistance(a, b) => Some(ep_inside(a, lines, arcs, points) && ep_inside(b, lines, arcs, points)),
        DimKind::PointLineDistance(pt, l) => Some(ep_inside(pt, lines, arcs, points) && holds(lines, l)),
        DimKind::ConcentricDistance(a, b) => Some(holds(arcs, a) && holds(arcs, b)),
        DimKind::LineLineDistance(a, b) => Some(holds(lines, a) && holds(lines, b)),
        DimKind::Angle(..) => None,
        DimKind::LineAngle(_) => None,
        DimKind::ArcSweep(_) => None,
        DimKind::ArcRotation(_) => None,
    }
}

fn kind_touches(k: DimKind, lines: &Vec<u32>, arcs: &Vec<u32>, points: &Vec<u32>) -> (b: bool)
    ensures
        b == touches(k, lines@, arcs@, points@),
{
    let mut i: usize = 0;
    while i < lines.len()
        invariant
            i <= lines@.len(),
            forall|j: int| 0 <= j < i ==> !dim_references_line(k, #[trigger] lines@[j]),
        decreases lines@.len() - i,
    {
        if k.references_line(lines[i]) {
            return true;
        }
        i = i + 1;
    }
    let mut i: usize = 0;
    while i < arcs.len()
        invariant
            i <= arcs@.len(),
            forall|j: int| 0 <= j < lines@.len() ==> !dim_references_line(k, #[trigger] lines@[j]),
            forall|j: int| 0 <= j < i ==> !dim_references_arc(k, #[trigger] arcs@[j]),
        decreases arcs@.len() - i,
    {
        if k.references_arc(arcs[i]) {
            return true;
        }
        i = i + 1;
    }
    let mut i: usize = 0;
    while i < points.len()
        invariant
            i <= points@.len(),
            forall|j: int| 0 <= j < lines@.len() ==> !dim_references_line(k, #[trigger] lines@[j]),
            forall|j: int| 0 <= j < arcs@.len() ==> !dim_references_arc(k, #[trigger] arcs@[j]),
            forall|j: int| 0 <= j < i ==> !dim_references_point(k, #[trigger] points@[j]),
        decreases points@.len() - i,
    {
        if k.references_point(points[i]) {
            return true;
        }
        i = i + 1;
    }
    false
}

fn range_is_live(r: RangeBound) -> (b: bool)
    ensures
        b == live_range(r),
{
    match r {
        RangeBound::Min(v) => v == BoundValue::Live,
        RangeBound::Max(v) => v == BoundValue::Live,
        RangeBound::Between(lo, hi) => lo == BoundValue::Live || hi == BoundValue::Live,
    }
}

/// The views of (name, reason) pairs.
pub open spec fn left_views(v: Seq<(String, &'static str)>) -> Seq<(Seq<char>, Seq<char>)> {
    v.map_values(|p: (String, &'static str)| (p.0@, p.1@))
}

/// The views of names.
pub open spec fn scaled_views(v: Seq<String>) -> Seq<Seq<char>> {
    v.map_values(|s: String| s@)
}

/// Classify the sketch's dimensions against a scaled set (see
/// [`scale_verdict`]): which dids scale with the geometry, and which are
/// left, with reasons. The command layer calls it for the report and the
/// scale itself for the work, and both see the same answer.
pub fn classify_scale_dims(dims: &Vec<ScaleDim>, lines: &Vec<u32>, arcs: &Vec<u32>, points: &Vec<u32>) -> (r: (Vec<u32>, ScaleDimReport))
    ensures
        (r.0@, scaled_views(r.1.scaled@), left_views(r.1.left@)) == classify(dims@, lines@, arcs@, points@),
{
    let mut dids: Vec<u32> = Vec::new();
    let mut scaled: Vec<String> = Vec::new();
    let mut left: Vec<(String, &'static str)> = Vec::new();
    let mut i: usize = 0;
    while i < dims.len()
        invariant
            i <= dims@.len(),
            (dids@, scaled_views(scaled@), left_views(left@)) == classify(dims@.take(i as int), lines@, arcs@, points@),
        decreases dims@.len() - i,
    {
        assert(dims@.take(i + 1).take(i as int) =~= dims@.take(i as int));
        let d = &dims[i];
        let ghost sv = scaled_views(scaled@);
        let ghost lv = left_views(left@);
        match linear_kind_inside(d.kind, lines, arcs, points) {
            None => {},
            Some(inside) => {
                if kind_touches(d.kind, lines, arcs, points) && !d.derived {
                    let reason: Option<&'static str> = if d.has_expr {
                        Some("expression")
                    } else if match d.range {
                        Some(r) => range_is_live(r),
                        None => false,
                    } {
                        Some("live range bound")
                    } else if !inside {
                        Some("spans unscaled geometry")
                    } else {
                        None
                    };
                    match reason {
                        Some(why) => {
                            left.push((d.name.clone(), why));
                            assert(left_views(left@) =~= lv.push((d.name@, why@)));
                        },
                        None => {
                            dids.push(d.did);
                            scaled.push(d.name.clone());
                            assert(scaled_views(scaled@) =~= sv.push(d.name@));
                        },
                    }
                }
            },
        }
        i = i + 1;
    }
    assert(dims@.take(dims@.len() as int) =~= dims@);
    (dids, ScaleDimReport { scaled, left })
}

} // verus!
