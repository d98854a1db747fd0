//! The offset planner's structural decisions: which parameter
//! combinations are refused, how many joints a chain has, which segments
//! survive on a side, which results carry a distance dimension, and the
//! relations a side adds once its results exist (what ties each result to
//! its source, how the joints meet, which ends are pinned, and the
//! dimensions), in the order they are run.

use vstd::prelude::*;
use crate::text::{chars_of, string_of};

verus! {

/// How many sides an offset produces, and with which distances.
#[derive(Clone, Copy, PartialEq, Eq, Structural, Debug)]
pub enum OffsetKind {
    /// One chain at the distance, on the side named.
    OneSide,
    /// Two chains at the distance on both sides.
    Symmetric,
    /// Two chains: the distance on the side named, the second distance on
    /// the other.
    TwoSides,
}

/// How the ends of an open two-sided offset are closed.
#[derive(Clone, Copy, PartialEq, Eq, Structural, Debug)]
pub enum CapKind {
    NoCap,
    /// A line across each end.
    Line,
    /// A half circle around each source end.
    Round,
}

/// The name of a cap kind in listings.
pub open spec fn cap_label(k: CapKind) -> Seq<char> {
    match k {
        CapKind::NoCap => "no"@,
        CapKind::Line => "line"@,
        CapKind::Round => "round"@,
    }
}

/// The name of a cap kind in listings (see [`cap_label`]).
pub fn cap_name(k: CapKind) -> (s: &'static str)
    ensures
        s@ == cap_label(k),
{
    match k {
        CapKind::NoCap => "no",
        CapKind::Line => "line",
        CapKind::Round => "round",
    }
}

/// Caps need ends and two sides; round caps a symmetric offset.
pub open spec fn caps_check(kind: OffsetKind, caps: CapKind, closed: bool) -> Result<(), Seq<char>> {
    if caps == CapKind::NoCap {
        Ok(())
    } else if closed {
        Err("caps: a closed sequence has no ends"@)
    } else if kind == OffsetKind::OneSide {
        Err("caps need both sides (symmetric or two distances)"@)
    } else if caps == CapKind::Round && kind != OffsetKind::Symmetric {
        Err("round caps need a symmetric offset"@)
    } else {
        Ok(())
    }
}

/// Check the caps an offset asks for (see [`caps_check`]).
pub fn check_caps(kind: OffsetKind, caps: CapKind, closed: bool) -> (r: Result<(), String>)
    ensures
        r is Ok <==> caps_check(kind, caps, closed) is Ok,
        r matches Err(e) ==> caps_check(kind, caps, closed) == Err::<(), Seq<char>>(e@),
{
    if caps == CapKind::NoCap {
        return Ok(());
    }
    if closed {
        return Err(string_of(&chars_of("caps: a closed sequence has no ends")));
    }
    if kind == OffsetKind::OneSide {
        return Err(string_of(&chars_of("caps need both sides (symmetric or two distances)")));
    }
    if caps == CapKind::Round && kind != OffsetKind::Symmetric {
        return Err(string_of(&chars_of("round caps need a symmetric offset")));
    }
    Ok(())
}

/// The joints of a chain of `n` segments: one between consecutive
/// segments, one more closing a loop, none for a single closed entity.
pub open spec fn joints_of(closed: bool, n: nat) -> nat {
    if closed {
        if n == 1 { 0 } else { n }
    } else {
        if n == 0 { 0 } else { (n - 1) as nat }
    }
}

/// The joints of a chain of `n` segments (see [`joints_of`]).
pub fn joint_count(closed: bool, n: usize) -> (r: usize)
    ensures
        r == joints_of(closed, n as nat),
{
    if closed {
        if n == 1 { 0 } else { n }
    } else {
        if n == 0 { 0 } else { n - 1 }
    }
}

/// The segments with a result on a side (those whose offset does not
/// vanish) and the dropped ones, by index, in chain order.
pub open spec fn side_partition(vanishes: Seq<bool>) -> (Seq<usize>, Seq<usize>)
    decreases vanishes.len(),
{
    if vanishes.len() == 0 {
        (Seq::empty(), Seq::empty())
    } else {
        let n = vanishes.len() - 1;
        let (kept, dropped) = side_partition(vanishes.take(n));
        if vanishes[n] {
            (kept, dropped.push(n as usize))
        } else {
            (kept.push(n as usize), dropped)
        }
    }
}

/// Split a side's segments into those with a result and the dropped ones
/// (see [`side_partition`]); `None` when nothing remains, or when a loop of
/// several segments would close on one.
pub fn partition_side(vanishes: &Vec<bool>, closed: bool) -> (r: Option<(Vec<usize>, Vec<usize>)>)
    ensures
        r is None <==> ({
            let kept = side_partition(vanishes@).0;
            kept.len() == 0 || (closed && kept.len() == 1 && vanishes@.len() > 1)
        }),
        r matches Some(p) ==> (p.0@, p.1@) == side_partition(vanishes@),
{
    let mut kept: Vec<usize> = Vec::new();
    let mut dropped: Vec<usize> = Vec::new();
    let mut i: usize = 0;
    while i < vanishes.len()
        invariant
            i <= vanishes@.len(),
            (kept@, dropped@) == side_partition(vanishes@.take(i as int)),
        decreases vanishes@.len() - i,
    {
        assert(vanishes@.take(i + 1).take(i as int) =~= vanishes@.take(i as int));
        if vanishes[i] {
            dropped.push(i);
        } else {
            kept.push(i);
        }
        i = i + 1;
    }
    assert(vanishes@.take(vanishes@.len() as int) =~= vanishes@);
    if kept.len() == 0 || (closed && kept.len() == 1 && vanishes.len() > 1) {
        return None;
    }
    Some((kept, dropped))
}

/// Which of `m` results carry a distance dimension, given which joints are
/// tangent: the first result of each run of tangent joints (the first of
/// an open chain, every result after a sharp corner). When no result
/// qualifies (a loop of tangent joints, or a lone closed entity) the first
/// takes the dimension, and a loop's closing joint is made by pins instead
/// of a coincidence (the second component).
pub open spec fn distance_dims_spec(closed: bool, m: nat, tangent: Seq<bool>) -> (Seq<bool>, bool) {
    let jc = joints_of(closed, m);
    let d = Seq::new(m, |k: int| if closed {
        jc > 0 && !tangent[(k + m - 1) % (m as int)]
    } else {
        k == 0 || !tangent[k - 1]
    });
    if exists|k: int| 0 <= k < m && d[k] {
        (d, false)
    } else {
        (d.update(0, true), jc > 0)
    }
}

/// Which results carry a distance dimension, and whether the closing
/// joint is pinned (see [`distance_dims_spec`]); `tangent` has one entry
/// per joint.
pub fn distance_dims(closed: bool, m: usize, tangent: &Vec<bool>) -> (r: (Vec<bool>, bool))
    requires
        m > 0,
        tangent@.len() == joints_of(closed, m as nat),
    ensures
        (r.0@, r.1) == distance_dims_spec(closed, m as nat, tangent@),
{
    let jc = joint_count(closed, m);
    let ghost d = Seq::new(m as nat, |k: int| if closed {
        jc > 0 && !tangent@[(k + m - 1) % (m as int)]
    } else {
        k == 0 || !tangent@[k - 1]
    });
    let mut dims: Vec<bool> = Vec::new();
    let mut any = false;
    let mut k: usize = 0;
    while k < m
        invariant
            k <= m,
            m > 0,
            jc == joints_of(closed, m as nat),
            tangent@.len() == jc,
            d == Seq::new(m as nat, |k: int| if closed {
                jc > 0 && !tangent@[(k + m - 1) % (m as int)]
            } else {
                k == 0 || !tangent@[k - 1]
            }),
            dims@ == d.take(k as int),
            any == (exists|j: int| 0 <= j < k && d[j]),
        decreases m - k,
    {
        let prev = if k == 0 { m - 1 } else { k - 1 };
        proof {
            if k == 0 {
                assert((m - 1) % (m as int) == m - 1) by (nonlinear_arith)
                    requires
                        m > 0,
                ;
            } else {
                assert((k + m - 1) % (m as int) == k - 1) by (nonlinear_arith)
                    requires
                        0 < k < m,
                ;
            }
        }
        assert(prev as int == (k + m - 1) % (m as int));
        let flag = if closed {
            jc > 0 && !tangent[prev]
        } else {
            k == 0 || !tangent[k - 1]
        };
        assert(flag == d[k as int]);
        dims.push(flag);
        assert(dims@ =~= d.take(k + 1));
        if flag {
            any = true;
        }
        k = k + 1;
    }
    assert(d.take(m as int) =~= d);
    if !any {
        dims.set(0, true);
        assert(dims@ =~= d.update(0, true));
        (dims, jc > 0)
    } else {
        (dims, false)
    }
}

/// The segment a round cap at one end wraps: both sides' end results must
/// come from the same source segment. Otherwise the error names the
/// segment that vanishes on one side (the later one at the end, the
/// earlier one at the start).
pub open spec fn round_cap_segment(first: usize, second: usize, at_end: bool) -> Result<usize, usize> {
    if first == second {
        Ok(first)
    } else if at_end {
        Err(if first > second { first } else { second })
    } else {
        Err(if first < second { first } else { second })
    }
}

/// The segment a round cap wraps, or the one that vanishes on one side
/// (see [`round_cap_segment`]); `first` and `second` are the end sources
/// of the two sides.
pub fn round_cap_source(first: usize, second: usize, at_end: bool) -> (r: Result<usize, usize>)
    ensures
        r == round_cap_segment(first, second, at_end),
{
    if first == second {
        Ok(first)
    } else if at_end {
        Err(if first > second { first } else { second })
    } else {
        Err(if first < second { first } else { second })
    }
}

/// Every side's distance is held: some result carries the dimension, the
/// first one always on an open chain, and the closing joint is pinned only
/// on a loop whose every joint is tangent.
pub proof fn lemma_distance_is_held(closed: bool, m: nat, tangent: Seq<bool>)
    requires
        m > 0,
        tangent.len() == joints_of(closed, m),
    ensures
        distance_dims_spec(closed, m, tangent).0.len() == m,
        exists|k: int| 0 <= k < m && #[trigger] distance_dims_spec(closed, m, tangent).0[k],
        !closed ==> distance_dims_spec(closed, m, tangent).0[0],
        distance_dims_spec(closed, m, tangent).1 ==> closed && m > 1
            && forall|j: int| 0 <= j < m ==> #[trigger] tangent[j],
{
    let jc = joints_of(closed, m);
    let d = Seq::new(m, |k: int| if closed {
        jc > 0 && !tangent[(k + m - 1) % (m as int)]
    } else {
        k == 0 || !tangent[k - 1]
    });
    if exists|k: int| 0 <= k < m && d[k] {
        let k = choose|k: int| 0 <= k < m && d[k];
        assert(distance_dims_spec(closed, m, tangent).0[k]);
    } else {
        assert(distance_dims_spec(closed, m, tangent).0[0]);
        if !closed {
            assert(d[0]);
        }
        if closed && m > 1 {
            assert forall|j: int| 0 <= j < m implies #[trigger] tangent[j] by {
                let k = (j + 1) % (m as int);
                assert(0 <= k < m) by (nonlinear_arith)
                    requires
                        0 <= j < m,
                        k == (j + 1) % (m as int),
                ;
                assert((k + m - 1) % (m as int) == j) by (nonlinear_arith)
                    requires
                        0 <= j < m,
                        k == (j + 1) % (m as int),
                ;
                assert(!d[k]);
            }
        }
    }
}

// ---------------------------------------------------------------------------
// A side's relations
// ---------------------------------------------------------------------------

/// A source or result segment of an offset chain, by its handle.
#[derive(Clone, Copy, PartialEq, Eq, Structural, Debug)]
pub enum OffsetEntity {
    Line(u32),
    Arc(u32),
}

/// One end of a segment: its start (`p1` / arc start) or its end.
#[derive(Clone, Copy, PartialEq, Eq, Structural, Debug)]
pub struct OffsetEnd {
    pub entity: OffsetEntity,
    pub at_end: bool,
}

/// One result of a side with the source it offsets.
#[derive(Clone, Copy, PartialEq, Eq, Structural, Debug)]
pub struct SideSeg {
    pub source: OffsetEntity,
    /// The result's handle; it has its source's kind.
    pub result: u32,
    /// The source is an elliptical arc.
    pub ellipse: bool,
    /// The chain runs through the source against its orientation: it
    /// enters by the source's end and leaves by its start.
    pub reversed: bool,
    /// The result carries the distance dimension.
    pub dim: bool,
}

/// A joint between a result and the next one around the chain.
#[derive(Clone, Copy, PartialEq, Eq, Structural, Debug)]
pub struct SideJoint {
    /// The sources are tangent there.
    pub tangent: bool,
    /// The closing joint of a loop whose joints are all tangent.
    pub closure: bool,
    /// The corner arc of a rounded convex corner.
    pub round: Option<u32>,
}

/// A relation an offset side adds, in the order it is run.
#[derive(Clone, Copy, PartialEq, Eq, Structural, Debug)]
pub enum OffsetRelation {
    Parallel { source: u32, result: u32 },
    Concentric { source: u32, result: u32 },
    /// Keeps an elliptical result's axes parallel to its source's.
    ArcArcParallel { source: u32, result: u32 },
    Coincident(OffsetEnd, OffsetEnd),
    /// Tangency between a result and a corner arc.
    Tangent { entity: OffsetEntity, arc: u32 },
    /// A pin of `placed` on the normal of the source at `reference`.
    OnNormal { placed: OffsetEnd, reference: OffsetEnd },
    /// The distance dimension between a source line and its result.
    LineDistance { source: u32, result: u32 },
    /// The distance dimension between a source arc and its result.
    ConcentricDistance { source: u32, result: u32 },
    /// The radius dimension of a corner arc.
    ArcRadius(u32),
}

/// The result of a segment as an entity of its source's kind.
pub open spec fn result_entity(s: SideSeg) -> OffsetEntity {
    match s.source {
        OffsetEntity::Line(_) => OffsetEntity::Line(s.result),
        OffsetEntity::Arc(_) => OffsetEntity::Arc(s.result),
    }
}

/// The end the chain leaves a segment by: its end, unless reversed.
pub open spec fn exit_end(e: OffsetEntity, s: SideSeg) -> OffsetEnd {
    OffsetEnd { entity: e, at_end: !s.reversed }
}

/// The end the chain enters a segment by.
pub open spec fn entry_end(e: OffsetEntity, s: SideSeg) -> OffsetEnd {
    OffsetEnd { entity: e, at_end: s.reversed }
}

/// What ties a result to its source: parallel for a line; concentric for
/// an arc, and parallel axes for an elliptical one.
pub open spec fn seg_constraints(s: SideSeg) -> Seq<OffsetRelation> {
    match s.source {
        OffsetEntity::Line(l) => seq![OffsetRelation::Parallel { source: l, result: s.result }],
        OffsetEntity::Arc(a) => if s.ellipse {
            seq![
                OffsetRelation::Concentric { source: a, result: s.result },
                OffsetRelation::ArcArcParallel { source: a, result: s.result },
            ]
        } else {
            seq![OffsetRelation::Concentric { source: a, result: s.result }]
        },
    }
}

/// A result's distance dimension, when it carries one.
pub open spec fn seg_dims(s: SideSeg) -> Seq<OffsetRelation> {
    if !s.dim {
        seq![]
    } else {
        match s.source {
            OffsetEntity::Line(l) => seq![OffsetRelation::LineDistance { source: l, result: s.result }],
            OffsetEntity::Arc(a) => seq![OffsetRelation::ConcentricDistance { source: a, result: s.result }],
        }
    }
}

/// The relations of a joint from result `a` to the next result `b`: a
/// corner arc joined to both ends and tangent to both; otherwise a pin of
/// `a`'s exit on its source's normal where the sources are tangent (when
/// pinning), then the coincidence of `a`'s exit with `b`'s entry, or, at
/// the closing joint of an all-tangent loop, a pin of `b`'s entry instead.
pub open spec fn joint_constraints(a: SideSeg, b: SideSeg, j: SideJoint, pinned: bool) -> Seq<OffsetRelation> {
    let a_end = exit_end(result_entity(a), a);
    let b_start = entry_end(result_entity(b), b);
    match j.round {
        Some(arc) => seq![
            OffsetRelation::Coincident(OffsetEnd { entity: OffsetEntity::Arc(arc), at_end: false }, a_end),
            OffsetRelation::Coincident(OffsetEnd { entity: OffsetEntity::Arc(arc), at_end: true }, b_start),
            OffsetRelation::Tangent { entity: result_entity(a), arc },
            OffsetRelation::Tangent { entity: result_entity(b), arc },
        ],
        None => (if j.tangent && pinned {
            seq![OffsetRelation::OnNormal { placed: a_end, reference: exit_end(a.source, a) }]
        } else {
            seq![]
        }) + (if j.closure {
            if pinned {
                seq![OffsetRelation::OnNormal { placed: b_start, reference: entry_end(b.source, b) }]
            } else {
                seq![]
            }
        } else {
            seq![OffsetRelation::Coincident(a_end, b_start)]
        }),
    }
}

/// A joint's corner radius dimension, when it is rounded.
pub open spec fn joint_dims(j: SideJoint) -> Seq<OffsetRelation> {
    match j.round {
        Some(arc) => seq![OffsetRelation::ArcRadius(arc)],
        None => seq![],
    }
}

/// The constraints tying every result to its source, in order.
pub open spec fn segs_constraints(segs: Seq<SideSeg>) -> Seq<OffsetRelation>
    decreases segs.len(),
{
    if segs.len() == 0 {
        seq![]
    } else {
        segs_constraints(segs.drop_last()) + seg_constraints(segs.last())
    }
}

/// The distance dimensions of the results, in order.
pub open spec fn segs_dims(segs: Seq<SideSeg>) -> Seq<OffsetRelation>
    decreases segs.len(),
{
    if segs.len() == 0 {
        seq![]
    } else {
        segs_dims(segs.drop_last()) + seg_dims(segs.last())
    }
}

/// The relations of the joints, in order: joint `k` runs from result `k`
/// to result `k + 1`, the last of a closed chain back to the first.
pub open spec fn joints_constraints(segs: Seq<SideSeg>, joints: Seq<SideJoint>, pinned: bool) -> Seq<OffsetRelation>
    decreases joints.len(),
{
    if joints.len() == 0 {
        seq![]
    } else {
        let k = joints.len() - 1;
        joints_constraints(segs, joints.drop_last(), pinned) + joint_constraints(
            segs[k],
            segs[(k + 1) % (segs.len() as int)],
            joints[k],
            pinned,
        )
    }
}

/// The corner radius dimensions, in joint order.
pub open spec fn joints_dims(joints: Seq<SideJoint>) -> Seq<OffsetRelation>
    decreases joints.len(),
{
    if joints.len() == 0 {
        seq![]
    } else {
        joints_dims(joints.drop_last()) + joint_dims(joints.last())
    }
}

/// The pins of an open chain's free ends on the source ends' normals: none
/// for a closed chain, an empty one, one that starts on a closed arc, or
/// when the ends are not pinned or are held by round caps.
pub open spec fn free_end_pins(segs: Seq<SideSeg>, closed: bool, first_closed_arc: bool, pinned: bool, round_caps: bool) -> Seq<OffsetRelation> {
    if !pinned || round_caps || closed || segs.len() == 0 || first_closed_arc {
        seq![]
    } else {
        let f = segs[0];
        let l = segs[segs.len() - 1];
        seq![
            OffsetRelation::OnNormal { placed: entry_end(result_entity(f), f), reference: entry_end(f.source, f) },
            OffsetRelation::OnNormal { placed: exit_end(result_entity(l), l), reference: exit_end(l.source, l) },
        ]
    }
}

/// Everything a side adds once its results exist, in the order it is run:
/// the constraints (results to sources, the joints, the free-end pins),
/// then the dimensions (distances, corner radii).
pub open spec fn side_relations_spec(
    segs: Seq<SideSeg>,
    joints: Seq<SideJoint>,
    closed: bool,
    first_closed_arc: bool,
    pinned: bool,
    round_caps: bool,
) -> Seq<OffsetRelation> {
    segs_constraints(segs) + joints_constraints(segs, joints, pinned) + free_end_pins(
        segs,
        closed,
        first_closed_arc,
        pinned,
        round_caps,
    ) + segs_dims(segs) + joints_dims(joints)
}

fn push_all(out: &mut Vec<OffsetRelation>, more: Vec<OffsetRelation>)
    ensures
        final(out)@ == old(out)@ + more@,
{
    let mut i: usize = 0;
    while i < more.len()
        invariant
            i <= more@.len(),
            out@ == old(out)@ + more@.take(i as int),
        decreases more@.len() - i,
    {
        out.push(more[i]);
        assert(more@.take(i + 1) =~= more@.take(i as int).push(more@[i as int]));
        i = i + 1;
    }
    assert(more@.take(more@.len() as int) =~= more@);
}

fn result_of_seg(s: SideSeg) -> (e: OffsetEntity)
    ensures
        e == result_entity(s),
{
    match s.source {
        OffsetEntity::Line(_) => OffsetEntity::Line(s.result),
        OffsetEntity::Arc(_) => OffsetEntity::Arc(s.result),
    }
}

fn seg_constraint_list(s: SideSeg) -> (r: Vec<OffsetRelation>)
    ensures
        r@ == seg_constraints(s),
{
    let mut r: Vec<OffsetRelation> = Vec::new();
    match s.source {
        OffsetEntity::Line(l) => r.push(OffsetRelation::Parallel { source: l, result: s.result }),
        OffsetEntity::Arc(a) => {
            r.push(OffsetRelation::Concentric { source: a, result: s.result });
            if s.ellipse {
                r.push(OffsetRelation::ArcArcParallel { source: a, result: s.result });
            }
        },
    }
    assert(r@ =~= seg_constraints(s));
    r
}

fn seg_dim_list(s: SideSeg) -> (r: Vec<OffsetRelation>)
    ensures
        r@ == seg_dims(s),
{
    let mut r: Vec<OffsetRelation> = Vec::new();
    if s.dim {
        match s.source {
            OffsetEntity::Line(l) => r.push(OffsetRelation::LineDistance { source: l, result: s.result }),
            OffsetEntity::Arc(a) => r.push(OffsetRelation::ConcentricDistance { source: a, result: s.result }),
        }
    }
    assert(r@ =~= seg_dims(s));
    r
}

fn joint_constraint_list(a: SideSeg, b: SideSeg, j: SideJoint, pinned: bool) -> (r: Vec<OffsetRelation>)
    ensures
        r@ == joint_constraints(a, b, j, pinned),
{
    let a_end = OffsetEnd { entity: result_of_seg(a), at_end: !a.reversed };
    let b_start = OffsetEnd { entity: result_of_seg(b), at_end: b.reversed };
    let mut r: Vec<OffsetRelation> = Vec::new();
    match j.round {
        Some(arc) => {
            r.push(OffsetRelation::Coincident(OffsetEnd { entity: OffsetEntity::Arc(arc), at_end: false }, a_end));
            r.push(OffsetRelation::Coincident(OffsetEnd { entity: OffsetEntity::Arc(arc), at_end: true }, b_start));
            r.push(OffsetRelation::Tangent { entity: result_of_seg(a), arc });
            r.push(OffsetRelation::Tangent { entity: result_of_seg(b), arc });
        },
        None => {
            if j.tangent && pinned {
                r.push(OffsetRelation::OnNormal { placed: a_end, reference: OffsetEnd { entity: a.source, at_end: !a.reversed } });
            }
            if j.closure {
                if pinned {
                    r.push(OffsetRelation::OnNormal { placed: b_start, reference: OffsetEnd { entity: b.source, at_end: b.reversed } });
                }
            } else {
                r.push(OffsetRelation::Coincident(a_end, b_start));
            }
        },
    }
    assert(r@ =~= joint_constraints(a, b, j, pinned));
    r
}

/// Everything a side adds once its results exist (see
/// [`side_relations_spec`]): `segs` are its results in chain order with
/// their sources, `joints[k]` joins result `k` to the next (a closed chain
/// has one joint per result, an open one a joint fewer).
pub fn side_relations(
    segs: &Vec<SideSeg>,
    joints: &Vec<SideJoint>,
    closed: bool,
    first_closed_arc: bool,
    pinned: bool,
    round_caps: bool,
) -> (r: Vec<OffsetRelation>)
    requires
        joints@.len() <= segs@.len(),
    ensures
        r@ == side_relations_spec(segs@, joints@, closed, first_closed_arc, pinned, round_caps),
{
    let m = segs.len();
    let mut cons: Vec<OffsetRelation> = Vec::new();
    let mut dims: Vec<OffsetRelation> = Vec::new();
    let mut i: usize = 0;
    while i < m
        invariant
            m == segs@.len(),
            i <= m,
            cons@ == segs_constraints(segs@.take(i as int)),
            dims@ == segs_dims(segs@.take(i as int)),
        decreases m - i,
    {
        assert(segs@.take(i + 1).drop_last() =~= segs@.take(i as int));
        push_all(&mut cons, seg_constraint_list(segs[i]));
        push_all(&mut dims, seg_dim_list(segs[i]));
        i = i + 1;
    }
    assert(segs@.take(m as int) =~= segs@);
    let mut k: usize = 0;
    while k < joints.len()
        invariant
            m == segs@.len(),
            joints@.len() <= m,
            k <= joints@.len(),
            cons@ == segs_constraints(segs@) + joints_constraints(segs@, joints@.take(k as int), pinned),
            dims@ == segs_dims(segs@) + joints_dims(joints@.take(k as int)),
        decreases joints@.len() - k,
    {
        assert(joints@.take(k + 1).drop_last() =~= joints@.take(k as int));
        let next = if k + 1 == m { 0 } else { k + 1 };
        proof {
            let kk: int = k + 1;
            let mm: int = m as int;
            if kk == mm {
                assert(kk % mm == 0) by (nonlinear_arith)
                    requires
                        kk == mm,
                        mm > 0,
                ;
            } else {
                assert(kk % mm == kk) by (nonlinear_arith)
                    requires
                        0 <= kk < mm,
                ;
            }
        }
        assert(next as int == (k + 1) % (m as int));
        let j = joints[k];
        push_all(&mut cons, joint_constraint_list(segs[k], segs[next], j, pinned));
        let mut jd: Vec<OffsetRelation> = Vec::new();
        match j.round {
            Some(arc) => jd.push(OffsetRelation::ArcRadius(arc)),
            None => {},
        }
        assert(jd@ =~= joint_dims(j));
        push_all(&mut dims, jd);
        proof {
            assert(cons@ =~= segs_constraints(segs@) + joints_constraints(segs@, joints@.take(k + 1), pinned));
            assert(dims@ =~= segs_dims(segs@) + joints_dims(joints@.take(k + 1)));
        }
        k = k + 1;
    }
    assert(joints@.take(k as int) =~= joints@);
    if pinned && !round_caps && !closed && m > 0 && !first_closed_arc {
        let f = segs[0];
        let l = segs[m - 1];
        cons.push(OffsetRelation::OnNormal {
            placed: OffsetEnd { entity: result_of_seg(f), at_end: f.reversed },
            reference: OffsetEnd { entity: f.source, at_end: f.reversed },
        });
        cons.push(OffsetRelation::OnNormal {
            placed: OffsetEnd { entity: result_of_seg(l), at_end: !l.reversed },
            reference: OffsetEnd { entity: l.source, at_end: !l.reversed },
        });
    }
    let ghost before = cons@;
    push_all(&mut cons, dims);
    assert(cons@ =~= side_relations_spec(segs@, joints@, closed, first_closed_arc, pinned, round_caps));
    cons
}

// ---------------------------------------------------------------------------
// Updating an offset: which sides survive
// ---------------------------------------------------------------------------

/// An existing side of an offset, as its update reads it.
pub struct SideShape {
    /// The side it lies on (the sign of its offset is positive).
    pub positive: bool,
    /// The source segments whose result vanished on it.
    pub dropped: Vec<usize>,
    /// How many round corners it has.
    pub corners: usize,
}

/// A side of the new plan, as the update compares it.
pub struct PlannedSide {
    pub positive: bool,
    pub dropped: Vec<usize>,
    /// How many of its joints are rounded.
    pub round_joints: usize,
}

/// What an update does with the existing sides: which survive and on
/// which side they end (by index into the existing sides), which are
/// deleted, and whether the caps are rebuilt and the pins redone.
pub struct UpdatePlan {
    pub kept: Vec<(usize, bool)>,
    pub doomed: Vec<usize>,
    pub sides_change: bool,
    pub rebuild_caps: bool,
    pub redo_pins: bool,
}

/// The first planned side on the given side.
pub open spec fn planned_on(planned: Seq<PlannedSide>, positive: bool) -> Option<PlannedSide>
    decreases planned.len(),
{
    if planned.len() == 0 {
        None
    } else if planned[0].positive == positive {
        Some(planned[0])
    } else {
        planned_on(planned.drop_first(), positive)
    }
}

/// Whether an existing side has the structure the new plan wants on the
/// given side: the same dropped segments and as many round corners.
pub open spec fn same_shape(planned: Seq<PlannedSide>, s: SideShape, positive: bool) -> bool {
    match planned_on(planned, positive) {
        Some(p) => p.dropped@ == s.dropped@ && p.round_joints == s.corners,
        None => false,
    }
}

/// The first position of `positive` in `signs`.
pub open spec fn sign_at(signs: Seq<bool>, positive: bool) -> Option<int>
    decreases signs.len(),
{
    if signs.len() == 0 {
        None
    } else if signs[0] == positive {
        Some(0)
    } else {
        match sign_at(signs.drop_first(), positive) {
            Some(i) => Some(i + 1),
            None => None,
        }
    }
}

/// The pairing so far: the wanted sides still unmatched, the kept sides
/// with the side each ends on, and the existing sides not yet placed.
pub struct Pairing {
    pub remaining: Seq<bool>,
    pub kept: Seq<(usize, bool)>,
    pub unmatched: Seq<usize>,
}

/// First pass: an existing side keeps its sign when that sign is still
/// wanted and the plan wants its structure there.
pub open spec fn pair_by_sign(old: Seq<SideShape>, planned: Seq<PlannedSide>, wanted: Seq<bool>) -> Pairing
    decreases old.len(),
{
    if old.len() == 0 {
        Pairing { remaining: wanted, kept: seq![], unmatched: seq![] }
    } else {
        let i = (old.len() - 1) as usize;
        let st = pair_by_sign(old.drop_last(), planned, wanted);
        let s = old.last();
        match sign_at(st.remaining, s.positive) {
            Some(pos) if same_shape(planned, s, s.positive) => Pairing {
                remaining: st.remaining.remove(pos),
                kept: st.kept.push((i, s.positive)),
                unmatched: st.unmatched,
            },
            _ => Pairing { unmatched: st.unmatched.push(i), ..st },
        }
    }
}

/// Second pass over the unmatched sides, in order: one without round
/// corners takes over the first wanted sign left when the plan wants its
/// structure there (a flip moves the side across); the others are
/// deleted. The pairing's `unmatched` collects the deleted sides.
pub open spec fn move_or_doom(old: Seq<SideShape>, planned: Seq<PlannedSide>, first: Pairing, unmatched: Seq<usize>) -> Pairing
    decreases unmatched.len(),
{
    if unmatched.len() == 0 {
        Pairing { unmatched: seq![], ..first }
    } else {
        let st = move_or_doom(old, planned, first, unmatched.drop_last());
        let u = unmatched.last();
        let s = old[u as int];
        if st.remaining.len() > 0 && s.corners == 0 && same_shape(planned, s, st.remaining[0]) {
            Pairing {
                remaining: st.remaining.remove(0),
                kept: st.kept.push((u, st.remaining[0])),
                unmatched: st.unmatched,
            }
        } else {
            Pairing { unmatched: st.unmatched.push(u), ..st }
        }
    }
}

/// The pairing of an update: the first pass, then the second over what it
/// left unmatched.
pub open spec fn update_pairing(old: Seq<SideShape>, planned: Seq<PlannedSide>, wanted: Seq<bool>) -> Pairing {
    let first = pair_by_sign(old, planned, wanted);
    move_or_doom(old, planned, first, first.unmatched)
}

proof fn lemma_sign_at(signs: Seq<bool>, positive: bool)
    ensures
        sign_at(signs, positive) matches Some(i) ==> 0 <= i < signs.len() && signs[i] == positive,
    decreases signs.len(),
{
    if signs.len() > 0 {
        lemma_sign_at(signs.drop_first(), positive);
    }
}

fn sign_index(signs: &Vec<bool>, positive: bool) -> (r: Option<usize>)
    ensures
        r matches Some(i) ==> sign_at(signs@, positive) == Some(i as int),
        r is None ==> sign_at(signs@, positive) is None,
{
    let mut i: usize = 0;
    assert(signs@.skip(0) =~= signs@);
    while i < signs.len()
        invariant
            i <= signs@.len(),
            sign_at(signs@, positive) == (match sign_at(signs@.skip(i as int), positive) {
                Some(j) => Some(j + i),
                None => None,
            }),
        decreases signs@.len() - i,
    {
        assert(signs@.skip(i as int).drop_first() =~= signs@.skip(i + 1));
        if signs[i] == positive {
            return Some(i);
        }
        i = i + 1;
    }
    assert(signs@.skip(i as int) =~= Seq::<bool>::empty());
    None
}

fn same_indices(a: &Vec<usize>, b: &Vec<usize>) -> (r: bool)
    ensures
        r == (a@ == b@),
{
    if a.len() != b.len() {
        return false;
    }
    let mut i: usize = 0;
    while i < a.len()
        invariant
            a@.len() == b@.len(),
            i <= a@.len(),
            forall|j: int| 0 <= j < i ==> a@[j] == b@[j],
        decreases a@.len() - i,
    {
        if a[i] != b[i] {
            return false;
        }
        i = i + 1;
    }
    assert(a@ =~= b@);
    true
}

fn shape_matches(planned: &Vec<PlannedSide>, s: &SideShape, positive: bool) -> (r: bool)
    ensures
        r == same_shape(planned@, *s, positive),
{
    let mut i: usize = 0;
    assert(planned@.skip(0) =~= planned@);
    while i < planned.len()
        invariant
            i <= planned@.len(),
            planned_on(planned@, positive) == planned_on(planned@.skip(i as int), positive),
        decreases planned@.len() - i,
    {
        assert(planned@.skip(i as int).drop_first() =~= planned@.skip(i + 1));
        if planned[i].positive == positive {
            return same_indices(&planned[i].dropped, &s.dropped) && planned[i].round_joints == s.corners;
        }
        i = i + 1;
    }
    assert(planned@.skip(i as int) =~= Seq::<PlannedSide>::empty());
    false
}

/// Pair an offset's existing sides with the sides the new parameters want
/// (`wanted`, in order) and decide what is rebuilt (see
/// [`update_pairing`]): the sides change when one is deleted or the kept
/// ones are not as many as wanted; the caps are rebuilt when their kind
/// changes or the sides do; the pins are redone when pinning or round caps
/// come or go.
pub fn plan_update(
    old: &Vec<SideShape>,
    planned: &Vec<PlannedSide>,
    wanted: &Vec<bool>,
    caps_changed: bool,
    pins_changed: bool,
    round_caps_changed: bool,
) -> (r: UpdatePlan)
    ensures
        r.kept@ == update_pairing(old@, planned@, wanted@).kept,
        r.doomed@ == update_pairing(old@, planned@, wanted@).unmatched,
        r.sides_change == (r.doomed@.len() > 0 || r.kept@.len() != wanted@.len()),
        r.rebuild_caps == (caps_changed || r.sides_change),
        r.redo_pins == (pins_changed || round_caps_changed),
{
    let mut remaining: Vec<bool> = wanted.clone();
    assert(remaining@ =~= wanted@);
    let mut kept: Vec<(usize, bool)> = Vec::new();
    let mut unmatched: Vec<usize> = Vec::new();
    let mut i: usize = 0;
    assert(old@.take(0) =~= Seq::<SideShape>::empty());
    while i < old.len()
        invariant
            i <= old@.len(),
            remaining@ == pair_by_sign(old@.take(i as int), planned@, wanted@).remaining,
            kept@ == pair_by_sign(old@.take(i as int), planned@, wanted@).kept,
            unmatched@ == pair_by_sign(old@.take(i as int), planned@, wanted@).unmatched,
            forall|j: int| 0 <= j < unmatched@.len() ==> #[trigger] unmatched@[j] < old@.len(),
        decreases old@.len() - i,
    {
        assert(old@.take(i + 1).drop_last() =~= old@.take(i as int));
        assert(old@.take(i + 1).last() == old@[i as int]);
        let s = &old[i];
        let found = sign_index(&remaining, s.positive);
        let keep = match found {
            Some(_) => shape_matches(planned, s, s.positive),
            None => false,
        };
        proof {
            lemma_sign_at(remaining@, s.positive);
        }
        if keep {
            let pos = found.unwrap();
            remaining.remove(pos);
            kept.push((i, s.positive));
        } else {
            unmatched.push(i);
        }
        i = i + 1;
    }
    assert(old@.take(old@.len() as int) =~= old@);
    let ghost first = pair_by_sign(old@, planned@, wanted@);
    let mut doomed: Vec<usize> = Vec::new();
    let mut k: usize = 0;
    assert(unmatched@.take(0) =~= Seq::<usize>::empty());
    while k < unmatched.len()
        invariant
            k <= unmatched@.len(),
            unmatched@ == first.unmatched,
            forall|j: int| 0 <= j < unmatched@.len() ==> #[trigger] unmatched@[j] < old@.len(),
            remaining@ == move_or_doom(old@, planned@, first, unmatched@.take(k as int)).remaining,
            kept@ == move_or_doom(old@, planned@, first, unmatched@.take(k as int)).kept,
            doomed@ == move_or_doom(old@, planned@, first, unmatched@.take(k as int)).unmatched,
        decreases unmatched@.len() - k,
    {
        assert(unmatched@.take(k + 1).drop_last() =~= unmatched@.take(k as int));
        assert(unmatched@.take(k + 1).last() == unmatched@[k as int]);
        let u = unmatched[k];
        let s = &old[u];
        let movable = remaining.len() > 0 && s.corners == 0 && shape_matches(planned, s, remaining[0]);
        if movable {
            let sign = remaining.remove(0);
            kept.push((u, sign));
        } else {
            doomed.push(u);
        }
        k = k + 1;
    }
    assert(unmatched@.take(unmatched@.len() as int) =~= unmatched@);
    let sides_change = doomed.len() > 0 || kept.len() != wanted.len();
    UpdatePlan {
        kept,
        doomed,
        sides_change,
        rebuild_caps: caps_changed || sides_change,
        redo_pins: pins_changed || round_caps_changed,
    }
}

/// The existing sides a pairing keeps, by index.
pub open spec fn kept_sides(p: Pairing) -> Seq<usize> {
    p.kept.map_values(|e: (usize, bool)| e.0)
}

/// Whether every kept side is an existing one with the structure the plan
/// wants on the side it ends on.
pub open spec fn kept_fit(old: Seq<SideShape>, planned: Seq<PlannedSide>, kept: Seq<(usize, bool)>) -> bool {
    forall|k: int|
        0 <= k < kept.len() ==> #[trigger] kept[k].0 < old.len() && same_shape(planned, old[kept[k].0 as int], kept[k].1)
}

proof fn lemma_pair_by_sign(old: Seq<SideShape>, planned: Seq<PlannedSide>, wanted: Seq<bool>)
    requires
        old.len() <= usize::MAX,
    ensures
        ({
            let st = pair_by_sign(old, planned, wanted);
            &&& (kept_sides(st) + st.unmatched).to_multiset() == Seq::new(old.len(), |j: int| j as usize).to_multiset()
            &&& kept_fit(old, planned, st.kept)
            &&& forall|j: int| 0 <= j < st.unmatched.len() ==> #[trigger] st.unmatched[j] < old.len()
        }),
    decreases old.len(),
{
    broadcast use vstd::seq_lib::group_to_multiset_ensures;

    let ids = Seq::new(old.len(), |j: int| j as usize);
    if old.len() == 0 {
        let st = pair_by_sign(old, planned, wanted);
        assert(kept_sides(st) + st.unmatched =~= ids);
    } else {
        let n = old.len() - 1;
        let i = n as usize;
        let prev_old = old.drop_last();
        lemma_pair_by_sign(prev_old, planned, wanted);
        let st = pair_by_sign(prev_old, planned, wanted);
        let prev_ids = Seq::new(prev_old.len(), |j: int| j as usize);
        assert(ids =~= prev_ids.push(i));
        let s = old.last();
        let st2 = pair_by_sign(old, planned, wanted);
        assert forall|k: int| 0 <= k < st.kept.len() implies #[trigger] st.kept[k].0 < old.len() && same_shape(
            planned,
            old[st.kept[k].0 as int],
            st.kept[k].1,
        ) by {
            assert(old[st.kept[k].0 as int] == prev_old[st.kept[k].0 as int]);
        }
        let ks = kept_sides(st);
        if st2.kept.len() > st.kept.len() {
            assert(kept_sides(st2) =~= ks.push(i));
            vstd::seq_lib::lemma_multiset_commutative(ks.push(i), st.unmatched);
            vstd::seq_lib::lemma_multiset_commutative(ks, st.unmatched);
            assert(ks.push(i).to_multiset().add(st.unmatched.to_multiset()) =~= ks.to_multiset().add(
                st.unmatched.to_multiset(),
            ).insert(i));
            assert(st2.kept[st.kept.len() as int] == (i, s.positive));
            assert(kept_fit(old, planned, st2.kept));
        } else {
            assert(kept_sides(st2) + st2.unmatched =~= (ks + st.unmatched).push(i));
        }
    }
}

proof fn lemma_move_or_doom(old: Seq<SideShape>, planned: Seq<PlannedSide>, first: Pairing, unmatched: Seq<usize>)
    requires
        kept_fit(old, planned, first.kept),
        forall|j: int| 0 <= j < unmatched.len() ==> #[trigger] unmatched[j] < old.len(),
    ensures
        ({
            let st = move_or_doom(old, planned, first, unmatched);
            &&& (kept_sides(st) + st.unmatched).to_multiset() == kept_sides(first).to_multiset().add(unmatched.to_multiset())
            &&& kept_fit(old, planned, st.kept)
        }),
    decreases unmatched.len(),
{
    broadcast use vstd::seq_lib::group_to_multiset_ensures;

    if unmatched.len() == 0 {
        let st = move_or_doom(old, planned, first, unmatched);
        assert(kept_sides(st) + st.unmatched =~= kept_sides(first));
        assert(unmatched.to_multiset() =~= vstd::multiset::Multiset::empty());
        assert(kept_sides(first).to_multiset().add(unmatched.to_multiset()) =~= kept_sides(first).to_multiset());
    } else {
        let u = unmatched.last();
        let prev = unmatched.drop_last();
        assert(unmatched =~= prev.push(u));
        lemma_move_or_doom(old, planned, first, prev);
        let st = move_or_doom(old, planned, first, prev);
        let st2 = move_or_doom(old, planned, first, unmatched);
        assert(kept_sides(first).to_multiset().add(unmatched.to_multiset()) =~= kept_sides(first).to_multiset().add(
            prev.to_multiset(),
        ).insert(u));
        let ks = kept_sides(st);
        if st2.kept.len() > st.kept.len() {
            assert(kept_sides(st2) =~= ks.push(u));
            vstd::seq_lib::lemma_multiset_commutative(ks.push(u), st.unmatched);
            vstd::seq_lib::lemma_multiset_commutative(ks, st.unmatched);
            assert(ks.push(u).to_multiset().add(st.unmatched.to_multiset()) =~= ks.to_multiset().add(
                st.unmatched.to_multiset(),
            ).insert(u));
            assert(st2.kept[st.kept.len() as int].0 == u);
            assert(kept_fit(old, planned, st2.kept));
        } else {
            assert(kept_sides(st2) + st2.unmatched =~= (kept_sides(st) + st.unmatched).push(u));
        }
    }
}

/// An update accounts for every existing side exactly once: each is kept
/// or deleted, none twice, and a kept side always has the structure the
/// new plan wants on the side it ends on.
pub proof fn lemma_update_accounts_for_every_side(old: Seq<SideShape>, planned: Seq<PlannedSide>, wanted: Seq<bool>)
    requires
        old.len() <= usize::MAX,
    ensures
        ({
            let p = update_pairing(old, planned, wanted);
            &&& (kept_sides(p) + p.unmatched).to_multiset() == Seq::new(old.len(), |j: int| j as usize).to_multiset()
            &&& kept_fit(old, planned, p.kept)
        }),
{
    broadcast use vstd::seq_lib::group_to_multiset_ensures;

    lemma_pair_by_sign(old, planned, wanted);
    let first = pair_by_sign(old, planned, wanted);
    lemma_move_or_doom(old, planned, first, first.unmatched);
    vstd::seq_lib::lemma_multiset_commutative(kept_sides(first), first.unmatched);
}

// ---------------------------------------------------------------------------
// Segments that vanish
// ---------------------------------------------------------------------------

/// Whether some side drops segment `i`.
pub open spec fn dropped_somewhere(dropped: Seq<Seq<usize>>, i: usize) -> bool {
    exists|k: int| 0 <= k < dropped.len() && (#[trigger] dropped[k]).contains(i)
}

/// The segments below `n` that some side drops, ascending, each once.
pub open spec fn dropped_segments(dropped: Seq<Seq<usize>>, n: nat) -> Seq<usize>
    decreases n,
{
    if n == 0 {
        seq![]
    } else {
        let k = (n - 1) as usize;
        let prev = dropped_segments(dropped, (n - 1) as nat);
        if dropped_somewhere(dropped, k) {
            prev.push(k)
        } else {
            prev
        }
    }
}

/// The views of the sides' dropped lists.
pub open spec fn dropped_views(dropped: Seq<Vec<usize>>) -> Seq<Seq<usize>> {
    dropped.map_values(|v: Vec<usize>| v@)
}

/// The names of the source segments whose offset vanishes on some side
/// (`dropped[s]`: side `s`'s dropped segment indices), each once, in chain
/// order; `names[i]` names segment `i`.
pub fn dropped_names(dropped: &Vec<Vec<usize>>, names: &Vec<String>) -> (r: Vec<String>)
    requires
        forall|k: int, j: int|
            0 <= k < dropped@.len() && 0 <= j < dropped@[k]@.len() ==> #[trigger] dropped@[k]@[j] < names@.len(),
    ensures
        r@.map_values(|t: String| t@) == dropped_segments(dropped_views(dropped@), names@.len()).map_values(
            |i: usize| names@[i as int]@,
        ),
{
    let ghost dv = dropped_views(dropped@);
    let mut out: Vec<String> = Vec::new();
    let mut i: usize = 0;
    while i < names.len()
        invariant
            i <= names@.len(),
            dv == dropped_views(dropped@),
            out@.map_values(|t: String| t@) == dropped_segments(dv, i as nat).map_values(|x: usize| names@[x as int]@),
        decreases names@.len() - i,
    {
        let mut found = false;
        let mut k: usize = 0;
        while k < dropped.len() && !found
            invariant
                k <= dropped@.len(),
                dv == dropped_views(dropped@),
                found ==> dropped_somewhere(dv, i),
                !found ==> forall|q: int| 0 <= q < k ==> !(#[trigger] dv[q]).contains(i),
            decreases dropped@.len() - k, (if found { 0int } else { 1int }),
        {
            let side = &dropped[k];
            assert(dv[k as int] == side@);
            let mut j: usize = 0;
            while j < side.len() && side[j] != i
                invariant
                    j <= side@.len(),
                    forall|q: int| 0 <= q < j ==> side@[q] != i,
                decreases side@.len() - j,
            {
                j = j + 1;
            }
            if j < side.len() {
                assert(side@[j as int] == i);
                assert(dv[k as int].contains(i));
                found = true;
            } else {
                k = k + 1;
            }
        }
        let ghost before = out@.map_values(|t: String| t@);
        if found {
            out.push(names[i].clone());
            assert(out@.map_values(|t: String| t@) =~= before.push(names@[i as int]@));
        }
        proof {
            if !found {
                assert(!dropped_somewhere(dv, i));
            }
            let prev = dropped_segments(dv, i as nat);
            assert(dropped_segments(dv, (i + 1) as nat).map_values(|x: usize| names@[x as int]@) =~= (if found {
                prev.push(i).map_values(|x: usize| names@[x as int]@)
            } else {
                prev.map_values(|x: usize| names@[x as int]@)
            }));
        }
        i = i + 1;
    }
    out
}

} // verus!
