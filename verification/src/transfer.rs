//! What a split does to the dimensions and constraints that referenced
//! its target: each dimension is retargeted onto the pieces or dropped
//! with a reason, and each constraint field that held the target follows
//! the piece its role names.
//!
//! Entities are identified by their handle in the sketch (the raw value
//! of the solver's `Ref`). Where a choice depends on geometry (the piece
//! nearest a dimension's measured point, the piece containing a tangency
//! contact) the caller measures and passes the piece index.

use vstd::prelude::*;
use crate::split::{
    at_or_nearest, first_kept, first_kept_piece, map_endpoint, map_endpoint_spec,
    piece_at_or_nearest, EndpointRef, PieceRef, SplitTarget,
};

verus! {

/// What a dimension measures, by the handles of what it refers to.
#[derive(Clone, Copy, PartialEq, Eq, Structural, Debug)]
pub enum DimKind {
    LineLength(u32),
    PointPointDistance(EndpointRef, EndpointRef),
    PointLineDistance(EndpointRef, u32),
    ArcRadius(u32),
    /// Ellipse semi-minor axis radius.
    ArcRadiusB(u32),
    /// Arc sweep angle.
    ArcSweep(u32),
    /// Ellipse rotation.
    ArcRotation(u32),
    /// Angle between two lines; the flag asks for the supplement.
    Angle(u32, u32, bool),
    HDistance(EndpointRef, EndpointRef),
    VDistance(EndpointRef, EndpointRef),
    /// Line angle from the x-axis.
    LineAngle(u32),
    ConcentricDistance(u32, u32),
    LineLineDistance(u32, u32),
}

/// Whether a point reference names an endpoint of line `l`.
pub open spec fn endpoint_on_line(e: EndpointRef, l: u32) -> bool {
    match e {
        EndpointRef::LineP1(x) => x == l,
        EndpointRef::LineP2(x) => x == l,
        _ => false,
    }
}

/// Whether a point reference names a point of arc `a`.
pub open spec fn endpoint_on_arc(e: EndpointRef, a: u32) -> bool {
    match e {
        EndpointRef::ArcCenter(x) => x == a,
        EndpointRef::ArcStart(x) => x == a,
        EndpointRef::ArcEnd(x) => x == a,
        _ => false,
    }
}

/// Whether a dimension refers to line `l`.
pub open spec fn dim_references_line(k: DimKind, l: u32) -> bool {
    match k {
        DimKind::LineLength(x) => x == l,
        DimKind::PointPointDistance(a, b) => endpoint_on_line(a, l) || endpoint_on_line(b, l),
        DimKind::PointLineDistance(a, x) => endpoint_on_line(a, l) || x == l,
        DimKind::Angle(a, b, _) => a == l || b == l,
        DimKind::HDistance(a, b) => endpoint_on_line(a, l) || endpoint_on_line(b, l),
        DimKind::VDistance(a, b) => endpoint_on_line(a, l) || endpoint_on_line(b, l),
        DimKind::LineAngle(x) => x == l,
        DimKind::LineLineDistance(a, b) => a == l || b == l,
        _ => false,
    }
}

/// Whether a dimension refers to arc `a`.
pub open spec fn dim_references_arc(k: DimKind, a: u32) -> bool {
    match k {
        DimKind::ArcRadius(x) => x == a,
        DimKind::ArcRadiusB(x) => x == a,
        DimKind::ArcSweep(x) => x == a,
        DimKind::ArcRotation(x) => x == a,
        DimKind::PointPointDistance(p, q) => endpoint_on_arc(p, a) || endpoint_on_arc(q, a),
        DimKind::PointLineDistance(p, _) => endpoint_on_arc(p, a),
        DimKind::HDistance(p, q) => endpoint_on_arc(p, a) || endpoint_on_arc(q, a),
        DimKind::VDistance(p, q) => endpoint_on_arc(p, a) || endpoint_on_arc(q, a),
        DimKind::ConcentricDistance(x, y) => x == a || y == a,
        _ => false,
    }
}

/// Whether a dimension measures point `p`.
pub open spec fn dim_references_point(k: DimKind, p: u32) -> bool {
    match k {
        DimKind::PointPointDistance(a, b) => a == EndpointRef::Point(p) || b == EndpointRef::Point(p),
        DimKind::PointLineDistance(a, _) => a == EndpointRef::Point(p),
        DimKind::HDistance(a, b) => a == EndpointRef::Point(p) || b == EndpointRef::Point(p),
        DimKind::VDistance(a, b) => a == EndpointRef::Point(p) || b == EndpointRef::Point(p),
        _ => false,
    }
}

/// Whether a dimension refers to the split target.
pub open spec fn dim_references(k: DimKind, target: SplitTarget) -> bool {
    match target {
        SplitTarget::Line(t) => dim_references_line(k, t),
        SplitTarget::Arc(t) => dim_references_arc(k, t),
    }
}

fn on_line(e: EndpointRef, l: u32) -> (b: bool)
    ensures
        b == endpoint_on_line(e, l),
{
    match e {
        EndpointRef::LineP1(x) => x == l,
        EndpointRef::LineP2(x) => x == l,
        _ => false,
    }
}

fn on_arc(e: EndpointRef, a: u32) -> (b: bool)
    ensures
        b == endpoint_on_arc(e, a),
{
    match e {
        EndpointRef::ArcCenter(x) => x == a,
        EndpointRef::ArcStart(x) => x == a,
        EndpointRef::ArcEnd(x) => x == a,
        _ => false,
    }
}

impl DimKind {
    /// Whether this dimension refers to line `l`.
    pub fn references_line(&self, l: u32) -> (b: bool)
        ensures
            b == dim_references_line(*self, l),
    {
        match *self {
            DimKind::LineLength(x) => x == l,
            DimKind::PointPointDistance(a, b) => on_line(a, l) || on_line(b, l),
            DimKind::PointLineDistance(a, x) => on_line(a, l) || x == l,
            DimKind::Angle(a, b, _) => a == l || b == l,
            DimKind::HDistance(a, b) => on_line(a, l) || on_line(b, l),
            DimKind::VDistance(a, b) => on_line(a, l) || on_line(b, l),
            DimKind::LineAngle(x) => x == l,
            DimKind::LineLineDistance(a, b) => a == l || b == l,
            _ => false,
        }
    }

    /// Whether this dimension measures point `p`.
    pub fn references_point(&self, p: u32) -> (b: bool)
        ensures
            b == dim_references_point(*self, p),
    {
        let e = EndpointRef::Point(p);
        match *self {
            DimKind::PointPointDistance(a, b) => a == e || b == e,
            DimKind::PointLineDistance(a, _) => a == e,
            DimKind::HDistance(a, b) => a == e || b == e,
            DimKind::VDistance(a, b) => a == e || b == e,
            _ => false,
        }
    }

    /// Whether this dimension refers to arc `a`.
    pub fn references_arc(&self, a: u32) -> (b: bool)
        ensures
            b == dim_references_arc(*self, a),
    {
        match *self {
            DimKind::ArcRadius(x) => x == a,
            DimKind::ArcRadiusB(x) => x == a,
            DimKind::ArcSweep(x) => x == a,
            DimKind::ArcRotation(x) => x == a,
            DimKind::PointPointDistance(p, q) => on_arc(p, a) || on_arc(q, a),
            DimKind::PointLineDistance(p, _) => on_arc(p, a),
            DimKind::HDistance(p, q) => on_arc(p, a) || on_arc(q, a),
            DimKind::VDistance(p, q) => on_arc(p, a) || on_arc(q, a),
            DimKind::ConcentricDistance(x, y) => x == a || y == a,
            _ => false,
        }
    }
}

/// Why a dimension on the target has no successor.
#[derive(Clone, Copy, PartialEq, Eq, Structural, Debug)]
pub enum DropReason {
    /// The piece that would carry the line's start was trimmed away.
    P1TrimmedAway,
    /// The piece that would carry the line's end was trimmed away.
    P2TrimmedAway,
    /// No piece survived to carry the dimension.
    NoSurvivingPiece,
    /// The sweep of the whole arc means nothing for a piece.
    SweepHasNoSuccessor,
    /// A measured point sat on a piece that was trimmed away.
    EndpointTrimmedAway,
}

impl DropReason {
    /// The reason as the report prints it.
    pub fn label(&self) -> (s: &'static str)
        ensures
            s@ == drop_reason_text(*self),
    {
        match *self {
            DropReason::P1TrimmedAway => "p1 trimmed away",
            DropReason::P2TrimmedAway => "p2 trimmed away",
            DropReason::NoSurvivingPiece => "no surviving piece",
            DropReason::SweepHasNoSuccessor => "sweep of the whole arc has no successor",
            DropReason::EndpointTrimmedAway => "endpoint trimmed away",
        }
    }
}

/// The printed text of a drop reason.
pub open spec fn drop_reason_text(r: DropReason) -> Seq<char> {
    match r {
        DropReason::P1TrimmedAway => "p1 trimmed away"@,
        DropReason::P2TrimmedAway => "p2 trimmed away"@,
        DropReason::NoSurvivingPiece => "no surviving piece"@,
        DropReason::SweepHasNoSuccessor => "sweep of the whole arc has no successor"@,
        DropReason::EndpointTrimmedAway => "endpoint trimmed away"@,
    }
}

/// The line handle of an optional piece.
pub open spec fn as_line(p: Option<PieceRef>) -> Option<u32> {
    match p {
        Some(PieceRef::Line(l)) => Some(l),
        _ => None,
    }
}

/// The arc handle of an optional piece.
pub open spec fn as_arc(p: Option<PieceRef>) -> Option<u32> {
    match p {
        Some(PieceRef::Arc(a)) => Some(a),
        _ => None,
    }
}

/// `x`, or the first kept piece's handle in place of the target `t`.
pub open spec fn swap_target(x: u32, t: u32, first: Option<u32>) -> Result<u32, DropReason> {
    if x == t {
        match first {
            Some(f) => Ok(f),
            None => Err(DropReason::NoSurvivingPiece),
        }
    } else {
        Ok(x)
    }
}

/// Both handles of a two-entity dimension with the target swapped for the
/// first kept piece; the first failure wins.
pub open spec fn swap_pair(a: u32, b: u32, t: u32, first: Option<u32>) -> Result<(u32, u32), DropReason> {
    match swap_target(a, t, first) {
        Err(e) => Err(e),
        Ok(na) => match swap_target(b, t, first) {
            Err(e) => Err(e),
            Ok(nb) => Ok((na, nb)),
        },
    }
}

/// Both points of a two-point dimension moved onto the pieces.
pub open spec fn map_pair(a: EndpointRef, b: EndpointRef, target: SplitTarget, p: Seq<Option<PieceRef>>) -> Result<(EndpointRef, EndpointRef), DropReason> {
    match map_endpoint_spec(a, target, p) {
        Err(_) => Err(DropReason::EndpointTrimmedAway),
        Ok(na) => match map_endpoint_spec(b, target, p) {
            Err(_) => Err(DropReason::EndpointTrimmedAway),
            Ok(nb) => Ok((na, nb)),
        },
    }
}

/// A whole-arc measure of the target carried by the first kept piece.
pub open spec fn first_arc_or_drop(p: Seq<Option<PieceRef>>) -> Result<u32, DropReason> {
    match as_arc(first_kept(p)) {
        Some(a) => Ok(a),
        None => Err(DropReason::NoSurvivingPiece),
    }
}

/// The new kind of a dimension after the target was split into `p`, or why
/// it drops. The length of the whole target becomes the distance from the
/// first piece's start to the last piece's end; whole-arc measures and a
/// line's angle go to the first kept piece; the sweep of the whole arc
/// drops; points move with [`map_endpoint_spec`]; a point-to-line distance
/// on the target goes to the piece at or nearest `host`, the piece nearest
/// the measured point.
pub open spec fn dim_successor(k: DimKind, target: SplitTarget, p: Seq<Option<PieceRef>>, host: int) -> Result<DimKind, DropReason> {
    match k {
        DimKind::LineLength(l) => match target {
            SplitTarget::Line(t) if l == t => match as_line(p[0]) {
                None => Err(DropReason::P1TrimmedAway),
                Some(first) => match as_line(p.last()) {
                    None => Err(DropReason::P2TrimmedAway),
                    Some(last) => Ok(DimKind::PointPointDistance(EndpointRef::LineP1(first), EndpointRef::LineP2(last))),
                },
            },
            _ => Ok(k),
        },
        DimKind::ArcRadius(a) => match target {
            SplitTarget::Arc(t) if a == t => match first_arc_or_drop(p) {
                Ok(n) => Ok(DimKind::ArcRadius(n)),
                Err(e) => Err(e),
            },
            _ => Ok(k),
        },
        DimKind::ArcRadiusB(a) => match target {
            SplitTarget::Arc(t) if a == t => match first_arc_or_drop(p) {
                Ok(n) => Ok(DimKind::ArcRadiusB(n)),
                Err(e) => Err(e),
            },
            _ => Ok(k),
        },
        DimKind::ArcRotation(a) => match target {
            SplitTarget::Arc(t) if a == t => match first_arc_or_drop(p) {
                Ok(n) => Ok(DimKind::ArcRotation(n)),
                Err(e) => Err(e),
            },
            _ => Ok(k),
        },
        DimKind::ArcSweep(a) => match target {
            SplitTarget::Arc(t) if a == t => Err(DropReason::SweepHasNoSuccessor),
            _ => Ok(k),
        },
        DimKind::LineAngle(l) => match target {
            SplitTarget::Line(t) if l == t => match as_line(first_kept(p)) {
                Some(n) => Ok(DimKind::LineAngle(n)),
                None => Err(DropReason::NoSurvivingPiece),
            },
            _ => Ok(k),
        },
        DimKind::Angle(a, b, sup) => match target {
            SplitTarget::Line(t) => match swap_pair(a, b, t, as_line(first_kept(p))) {
                Ok((na, nb)) => Ok(DimKind::Angle(na, nb, sup)),
                Err(e) => Err(e),
            },
            _ => Ok(k),
        },
        DimKind::PointPointDistance(a, b) => match map_pair(a, b, target, p) {
            Ok((na, nb)) => Ok(DimKind::PointPointDistance(na, nb)),
            Err(e) => Err(e),
        },
        DimKind::HDistance(a, b) => match map_pair(a, b, target, p) {
            Ok((na, nb)) => Ok(DimKind::HDistance(na, nb)),
            Err(e) => Err(e),
        },
        DimKind::VDistance(a, b) => match map_pair(a, b, target, p) {
            Ok((na, nb)) => Ok(DimKind::VDistance(na, nb)),
            Err(e) => Err(e),
        },
        DimKind::PointLineDistance(pt, l) => match map_endpoint_spec(pt, target, p) {
            Err(_) => Err(DropReason::EndpointTrimmedAway),
            Ok(npt) => match target {
                SplitTarget::Line(t) if l == t => match as_line(at_or_nearest(p, host)) {
                    Some(nl) => Ok(DimKind::PointLineDistance(npt, nl)),
                    None => Err(DropReason::NoSurvivingPiece),
                },
                _ => Ok(DimKind::PointLineDistance(npt, l)),
            },
        },
        DimKind::ConcentricDistance(a, b) => match target {
            SplitTarget::Arc(t) => match swap_pair(a, b, t, as_arc(first_kept(p))) {
                Ok((na, nb)) => Ok(DimKind::ConcentricDistance(na, nb)),
                Err(e) => Err(e),
            },
            _ => Ok(k),
        },
        DimKind::LineLineDistance(a, b) => match target {
            SplitTarget::Line(t) => match swap_pair(a, b, t, as_line(first_kept(p))) {
                Ok((na, nb)) => Ok(DimKind::LineLineDistance(na, nb)),
                Err(e) => Err(e),
            },
            _ => Ok(k),
        },
    }
}

fn piece_line(p: Option<PieceRef>) -> (r: Option<u32>)
    ensures
        r == as_line(p),
{
    match p {
        Some(PieceRef::Line(l)) => Some(l),
        _ => None,
    }
}

fn piece_arc(p: Option<PieceRef>) -> (r: Option<u32>)
    ensures
        r == as_arc(p),
{
    match p {
        Some(PieceRef::Arc(a)) => Some(a),
        _ => None,
    }
}

fn swap_pair_exec(a: u32, b: u32, t: u32, first: Option<u32>) -> (r: Result<(u32, u32), DropReason>)
    ensures
        r == swap_pair(a, b, t, first),
{
    let na = if a == t {
        match first {
            Some(f) => f,
            None => return Err(DropReason::NoSurvivingPiece),
        }
    } else {
        a
    };
    let nb = if b == t {
        match first {
            Some(f) => f,
            None => return Err(DropReason::NoSurvivingPiece),
        }
    } else {
        b
    };
    Ok((na, nb))
}

fn map_pair_exec(a: EndpointRef, b: EndpointRef, target: SplitTarget, pieces: &Vec<Option<PieceRef>>) -> (r: Result<(EndpointRef, EndpointRef), DropReason>)
    requires
        pieces@.len() > 0,
    ensures
        r == map_pair(a, b, target, pieces@),
{
    let na = match map_endpoint(a, target, pieces) {
        Ok(e) => e,
        Err(_) => return Err(DropReason::EndpointTrimmedAway),
    };
    let nb = match map_endpoint(b, target, pieces) {
        Ok(e) => e,
        Err(_) => return Err(DropReason::EndpointTrimmedAway),
    };
    Ok((na, nb))
}

/// The new kind of a dimension referencing the split target, or why it has
/// no successor (see [`dim_successor`]). `host` is the index of the piece
/// nearest the measured point of a point-to-line distance.
pub fn map_dim_kind(kind: DimKind, target: SplitTarget, pieces: &Vec<Option<PieceRef>>, host: usize) -> (r: Result<DimKind, DropReason>)
    requires
        pieces@.len() > 0,
        host < pieces@.len(),
    ensures
        r == dim_successor(kind, target, pieces@, host as int),
{
    let n = pieces.len();
    match kind {
        DimKind::LineLength(l) => match target {
            SplitTarget::Line(t) if l == t => {
                let first = match piece_line(pieces[0]) {
                    Some(f) => f,
                    None => return Err(DropReason::P1TrimmedAway),
                };
                let last = match piece_line(pieces[n - 1]) {
                    Some(x) => x,
                    None => return Err(DropReason::P2TrimmedAway),
                };
                Ok(DimKind::PointPointDistance(EndpointRef::LineP1(first), EndpointRef::LineP2(last)))
            },
            _ => Ok(kind),
        },
        DimKind::ArcRadius(a) => match target {
            SplitTarget::Arc(t) if a == t => match piece_arc(first_kept_piece(pieces)) {
                Some(x) => Ok(DimKind::ArcRadius(x)),
                None => Err(DropReason::NoSurvivingPiece),
            },
            _ => Ok(kind),
        },
        DimKind::ArcRadiusB(a) => match target {
            SplitTarget::Arc(t) if a == t => match piece_arc(first_kept_piece(pieces)) {
                Some(x) => Ok(DimKind::ArcRadiusB(x)),
                None => Err(DropReason::NoSurvivingPiece),
            },
            _ => Ok(kind),
        },
        DimKind::ArcRotation(a) => match target {
            SplitTarget::Arc(t) if a == t => match piece_arc(first_kept_piece(pieces)) {
                Some(x) => Ok(DimKind::ArcRotation(x)),
                None => Err(DropReason::NoSurvivingPiece),
            },
            _ => Ok(kind),
        },
        DimKind::ArcSweep(a) => match target {
            SplitTarget::Arc(t) if a == t => Err(DropReason::SweepHasNoSuccessor),
            _ => Ok(kind),
        },
        DimKind::LineAngle(l) => match target {
            SplitTarget::Line(t) if l == t => match piece_line(first_kept_piece(pieces)) {
                Some(x) => Ok(DimKind::LineAngle(x)),
                None => Err(DropReason::NoSurvivingPiece),
            },
            _ => Ok(kind),
        },
        DimKind::Angle(a, b, sup) => match target {
            SplitTarget::Line(t) => match swap_pair_exec(a, b, t, piece_line(first_kept_piece(pieces))) {
                Ok((na, nb)) => Ok(DimKind::Angle(na, nb, sup)),
                Err(e) => Err(e),
            },
            _ => Ok(kind),
        },
        DimKind::PointPointDistance(a, b) => match map_pair_exec(a, b, target, pieces) {
            Ok((na, nb)) => Ok(DimKind::PointPointDistance(na, nb)),
            Err(e) => Err(e),
        },
        DimKind::HDistance(a, b) => match map_pair_exec(a, b, target, pieces) {
            Ok((na, nb)) => Ok(DimKind::HDistance(na, nb)),
            Err(e) => Err(e),
        },
        DimKind::VDistance(a, b) => match map_pair_exec(a, b, target, pieces) {
            Ok((na, nb)) => Ok(DimKind::VDistance(na, nb)),
            Err(e) => Err(e),
        },
        DimKind::PointLineDistance(pt, l) => {
            let npt = match map_endpoint(pt, target, pieces) {
                Ok(e) => e,
                Err(_) => return Err(DropReason::EndpointTrimmedAway),
            };
            match target {
                SplitTarget::Line(t) if l == t => match piece_line(piece_at_or_nearest(pieces, host)) {
                    Some(nl) => Ok(DimKind::PointLineDistance(npt, nl)),
                    None => Err(DropReason::NoSurvivingPiece),
                },
                _ => Ok(DimKind::PointLineDistance(npt, l)),
            }
        },
        DimKind::ConcentricDistance(a, b) => match target {
            SplitTarget::Arc(t) => match swap_pair_exec(a, b, t, piece_arc(first_kept_piece(pieces))) {
                Ok((na, nb)) => Ok(DimKind::ConcentricDistance(na, nb)),
                Err(e) => Err(e),
            },
            _ => Ok(kind),
        },
        DimKind::LineLineDistance(a, b) => match target {
            SplitTarget::Line(t) => match swap_pair_exec(a, b, t, piece_line(first_kept_piece(pieces))) {
                Ok((na, nb)) => Ok(DimKind::LineLineDistance(na, nb)),
                Err(e) => Err(e),
            },
            _ => Ok(kind),
        },
    }
}

/// The same whole-arc measure on another piece: radius, minor radius and
/// rotation hold for every piece of a split arc. None for every other
/// kind, and for a line piece.
pub open spec fn whole_arc_kind(k: DimKind, piece: PieceRef) -> Option<DimKind> {
    match piece {
        PieceRef::Arc(a) => match k {
            DimKind::ArcRadius(_) => Some(DimKind::ArcRadius(a)),
            DimKind::ArcRadiusB(_) => Some(DimKind::ArcRadiusB(a)),
            DimKind::ArcRotation(_) => Some(DimKind::ArcRotation(a)),
            _ => None,
        },
        PieceRef::Line(_) => None,
    }
}

/// The same whole-arc dimension kind on another piece (see
/// [`whole_arc_kind`]).
pub fn whole_arc_dim_kind(kind: DimKind, piece: PieceRef) -> (r: Option<DimKind>)
    ensures
        r == whole_arc_kind(kind, piece),
{
    let arc = match piece {
        PieceRef::Arc(a) => a,
        PieceRef::Line(_) => return None,
    };
    match kind {
        DimKind::ArcRadius(_) => Some(DimKind::ArcRadius(arc)),
        DimKind::ArcRadiusB(_) => Some(DimKind::ArcRadiusB(arc)),
        DimKind::ArcRotation(_) => Some(DimKind::ArcRotation(arc)),
        _ => None,
    }
}

/// The short label of a dimension kind in the split report.
pub open spec fn dim_label(k: DimKind) -> Seq<char> {
    match k {
        DimKind::LineLength(_) => "length"@,
        DimKind::ArcRadius(_) => "radius"@,
        DimKind::ArcRadiusB(_) => "radius_b"@,
        DimKind::ArcSweep(_) => "sweep"@,
        DimKind::ArcRotation(_) => "xangle"@,
        DimKind::LineAngle(_) => "xangle"@,
        DimKind::Angle(..) => "angle"@,
        DimKind::HDistance(..) => "hdistance"@,
        DimKind::VDistance(..) => "vdistance"@,
        _ => "distance"@,
    }
}

/// The short label of a dimension kind (see [`dim_label`]).
pub fn dim_kind_label(kind: DimKind) -> (s: &'static str)
    ensures
        s@ == dim_label(kind),
{
    match kind {
        DimKind::LineLength(_) => "length",
        DimKind::ArcRadius(_) => "radius",
        DimKind::ArcRadiusB(_) => "radius_b",
        DimKind::ArcSweep(_) => "sweep",
        DimKind::ArcRotation(_) => "xangle",
        DimKind::LineAngle(_) => "xangle",
        DimKind::Angle(..) => "angle",
        DimKind::HDistance(..) => "hdistance",
        DimKind::VDistance(..) => "vdistance",
        _ => "distance",
    }
}

/// What happens to one dimension on the target.
#[derive(Clone, Copy, PartialEq, Eq, Structural, Debug)]
pub enum DimOp {
    /// The dimension at `index` now measures `new_kind`.
    Retarget { index: usize, new_kind: DimKind },
    /// The dimension at `index` is removed.
    Drop { index: usize, reason: DropReason },
}

/// The operation for the dimension at `i`.
pub open spec fn dim_op(k: DimKind, i: int, target: SplitTarget, p: Seq<Option<PieceRef>>, host: int) -> DimOp {
    match dim_successor(k, target, p, host) {
        Ok(n) => DimOp::Retarget { index: i as usize, new_kind: n },
        Err(e) => DimOp::Drop { index: i as usize, reason: e },
    }
}

/// One operation per dimension that refers to the target, in order.
pub open spec fn dim_plan(kinds: Seq<DimKind>, target: SplitTarget, p: Seq<Option<PieceRef>>, hosts: Seq<usize>) -> Seq<DimOp>
    decreases kinds.len(),
{
    if kinds.len() == 0 {
        Seq::empty()
    } else {
        let n = kinds.len() - 1;
        let prev = dim_plan(kinds.take(n), target, p, hosts);
        if dim_references(kinds[n], target) {
            prev.push(dim_op(kinds[n], n, target, p, hosts[n] as int))
        } else {
            prev
        }
    }
}

/// Plan the transfer of the sketch's dimensions (`kinds`, in order) onto
/// the pieces: every dimension that refers to the target is retargeted or
/// dropped (see [`dim_successor`]); `hosts[i]` is the piece nearest the
/// measured point of dimension `i`.
pub fn plan_dimension_transfer(kinds: &Vec<DimKind>, target: SplitTarget, pieces: &Vec<Option<PieceRef>>, hosts: &Vec<usize>) -> (r: Vec<DimOp>)
    requires
        pieces@.len() > 0,
        hosts@.len() == kinds@.len(),
        forall|i: int| 0 <= i < hosts@.len() ==> #[trigger] hosts@[i] < pieces@.len(),
    ensures
        r@ == dim_plan(kinds@, target, pieces@, hosts@),
{
    let mut out: Vec<DimOp> = Vec::new();
    let mut i: usize = 0;
    while i < kinds.len()
        invariant
            i <= kinds@.len(),
            pieces@.len() > 0,
            hosts@.len() == kinds@.len(),
            forall|j: int| 0 <= j < hosts@.len() ==> #[trigger] hosts@[j] < pieces@.len(),
            out@ == dim_plan(kinds@.take(i as int), target, pieces@, hosts@),
        decreases kinds@.len() - i,
    {
        let k = kinds[i];
        let refs = match target {
            SplitTarget::Line(t) => k.references_line(t),
            SplitTarget::Arc(t) => k.references_arc(t),
        };
        assert(kinds@.take(i + 1).take(i as int) =~= kinds@.take(i as int));
        assert(kinds@.take(i + 1)[i as int] == k);
        if refs {
            let h = hosts[i];
            let op = match map_dim_kind(k, target, pieces, h) {
                Ok(n) => DimOp::Retarget { index: i, new_kind: n },
                Err(e) => DimOp::Drop { index: i, reason: e },
            };
            out.push(op);
        }
        i = i + 1;
    }
    assert(kinds@.take(kinds@.len() as int) =~= kinds@);
    out
}

/// The pieces after the first kept one.
pub open spec fn after_first_kept(p: Seq<Option<PieceRef>>) -> Seq<Option<PieceRef>>
    decreases p.len(),
{
    if p.len() == 0 {
        p
    } else if p[0] is Some {
        p.drop_first()
    } else {
        after_first_kept(p.drop_first())
    }
}

/// Copies of a whole-arc dimension for each kept piece of `p`, in order,
/// stopping at the first piece it does not hold for.
pub open spec fn copies_for(k: DimKind, p: Seq<Option<PieceRef>>) -> Seq<DimKind>
    decreases p.len(),
{
    if p.len() == 0 {
        Seq::empty()
    } else {
        match p[0] {
            None => copies_for(k, p.drop_first()),
            Some(pc) => match whole_arc_kind(k, pc) {
                None => Seq::empty(),
                Some(c) => seq![c] + copies_for(k, p.drop_first()),
            },
        }
    }
}

/// The copies a retargeted whole-arc dimension gets: the first kept piece
/// keeps the dimension itself, every other kept piece gets one.
pub fn whole_arc_copies(new_kind: DimKind, pieces: &Vec<Option<PieceRef>>) -> (r: Vec<DimKind>)
    ensures
        r@ == copies_for(new_kind, after_first_kept(pieces@)),
{
    let n = pieces.len();
    let mut i: usize = 0;
    assert(pieces@.skip(0) =~= pieces@);
    while i < n && pieces[i].is_none()
        invariant
            n == pieces@.len(),
            i <= n,
            after_first_kept(pieces@) == after_first_kept(pieces@.skip(i as int)),
        decreases n - i,
    {
        assert(pieces@.skip(i as int).drop_first() =~= pieces@.skip(i + 1));
        i = i + 1;
    }
    if i < n {
        assert(pieces@.skip(i as int).drop_first() =~= pieces@.skip(i + 1));
        i = i + 1;
    } else {
        assert(pieces@.skip(i as int) =~= Seq::<Option<PieceRef>>::empty());
    }
    let ghost tail = pieces@.skip(i as int);
    let mut out: Vec<DimKind> = Vec::new();
    while i < n
        invariant
            n == pieces@.len(),
            i <= n,
            out@ + copies_for(new_kind, pieces@.skip(i as int)) == copies_for(new_kind, tail),
            tail == after_first_kept(pieces@),
        decreases n - i,
    {
        assert(pieces@.skip(i as int).drop_first() =~= pieces@.skip(i + 1));
        match pieces[i] {
            None => {},
            Some(pc) => match whole_arc_dim_kind(new_kind, pc) {
                None => {
                    assert(pieces@.skip(i as int)[0] == Some(pc));
                    assert(copies_for(new_kind, pieces@.skip(i as int)) =~= Seq::<DimKind>::empty());
                    assert(out@ + Seq::<DimKind>::empty() =~= out@);
                    return out;
                },
                Some(c) => {
                    assert(out@.push(c) + copies_for(new_kind, pieces@.skip(i + 1)) =~= out@ + (seq![c] + copies_for(new_kind, pieces@.skip(i + 1))));
                    out.push(c);
                },
            },
        }
        i = i + 1;
    }
    assert(pieces@.skip(i as int) =~= Seq::<Option<PieceRef>>::empty());
    assert(out@ + Seq::<DimKind>::empty() =~= out@);
    out
}

// ---------------------------------------------------------------------------
// Constraint fields
// ---------------------------------------------------------------------------

/// How a constraint field that held the target follows the pieces.
#[derive(Clone, Copy, PartialEq, Eq, Structural, Debug)]
pub enum FieldRole {
    /// Line p1 / arc start: follows the piece owning that endpoint.
    Start,
    /// Line p2 / arc end: follows the piece owning that endpoint.
    End,
    /// Arc center: shared by every piece; follows the first survivor.
    Center,
    /// The unbounded curve: follows the piece nearest the constraint's
    /// other referents.
    Host,
    /// Direction or shape of the whole entity: replicated onto every
    /// surviving piece.
    Whole,
    /// Tangency: follows the piece containing the contact point.
    Contact,
    /// A measure of the whole span: dropped on split.
    Extent,
}

/// A field of a constraint that held the target.
#[derive(Clone, Copy, PartialEq, Eq, Structural, Debug)]
pub struct TargetField {
    pub slot: usize,
    pub role: FieldRole,
}

/// The piece a field follows, or none when the constraint must drop.
/// `host` is the piece nearest the constraint's other referents;
/// `contact` the piece containing the tangency point, when one was found.
pub open spec fn field_piece(role: FieldRole, p: Seq<Option<PieceRef>>, host: int, contact: Option<usize>) -> Option<PieceRef> {
    match role {
        FieldRole::Start => p[0],
        FieldRole::End => p.last(),
        FieldRole::Center => first_kept(p),
        FieldRole::Host => at_or_nearest(p, host),
        FieldRole::Whole => first_kept(p),
        FieldRole::Contact => match contact {
            Some(c) => p[c as int],
            None => first_kept(p),
        },
        FieldRole::Extent => None,
    }
}

/// Whether some field of the constraint has no piece to follow.
pub open spec fn fields_drop(fields: Seq<TargetField>, p: Seq<Option<PieceRef>>, host: int, contact: Option<usize>) -> bool {
    exists|j: int| 0 <= j < fields.len() && (#[trigger] field_piece(fields[j].role, p, host, contact)) is None
}

/// The rewrite of each field: its slot and the piece it now names.
pub open spec fn field_sets(fields: Seq<TargetField>, p: Seq<Option<PieceRef>>, host: int, contact: Option<usize>) -> Seq<(usize, PieceRef)> {
    Seq::new(fields.len(), |j: int| (fields[j].slot, field_piece(fields[j].role, p, host, contact).unwrap()))
}

/// The slots of the whole-role fields, in order.
pub open spec fn whole_slots(fields: Seq<TargetField>) -> Seq<usize>
    decreases fields.len(),
{
    if fields.len() == 0 {
        Seq::empty()
    } else {
        let n = fields.len() - 1;
        let prev = whole_slots(fields.take(n));
        if fields[n].role == FieldRole::Whole {
            prev.push(fields[n].slot)
        } else {
            prev
        }
    }
}

/// What becomes of one constraint that referred to the target.
pub struct FieldPlan {
    /// Field rewrites applied in place: slot and new piece.
    pub sets: Vec<(usize, PieceRef)>,
    /// Whole-role slots: one clone per kept piece beyond the first.
    pub rep_slots: Vec<usize>,
    /// The constraint is removed.
    pub drop: bool,
}

fn decide_field(role: FieldRole, pieces: &Vec<Option<PieceRef>>, host: usize, contact: Option<usize>) -> (r: Option<PieceRef>)
    requires
        pieces@.len() > 0,
        host < pieces@.len(),
        contact matches Some(c) ==> c < pieces@.len(),
    ensures
        r == field_piece(role, pieces@, host as int, contact),
{
    match role {
        FieldRole::Start => pieces[0],
        FieldRole::End => pieces[pieces.len() - 1],
        FieldRole::Center => first_kept_piece(pieces),
        FieldRole::Host => piece_at_or_nearest(pieces, host),
        FieldRole::Whole => first_kept_piece(pieces),
        FieldRole::Contact => match contact {
            Some(c) => pieces[c],
            None => first_kept_piece(pieces),
        },
        FieldRole::Extent => None,
    }
}

/// Decide what becomes of a constraint whose `fields` held the target:
/// each field follows the piece its role names (see [`field_piece`]);
/// whole-role fields are also replicated onto every other kept piece; if
/// any field has no piece the constraint drops and nothing is rewritten.
pub fn plan_constraint_fields(fields: &Vec<TargetField>, pieces: &Vec<Option<PieceRef>>, host: usize, contact: Option<usize>) -> (r: FieldPlan)
    requires
        pieces@.len() > 0,
        host < pieces@.len(),
        contact matches Some(c) ==> c < pieces@.len(),
    ensures
        r.drop == fields_drop(fields@, pieces@, host as int, contact),
        r.drop ==> r.sets@.len() == 0 && r.rep_slots@.len() == 0,
        !r.drop ==> r.sets@ == field_sets(fields@, pieces@, host as int, contact),
        !r.drop ==> r.rep_slots@ == whole_slots(fields@),
{
    let mut sets: Vec<(usize, PieceRef)> = Vec::new();
    let mut reps: Vec<usize> = Vec::new();
    let mut drop = false;
    let mut i: usize = 0;
    while i < fields.len()
        invariant
            i <= fields@.len(),
            pieces@.len() > 0,
            host < pieces@.len(),
            contact matches Some(c) ==> c < pieces@.len(),
            drop == fields_drop(fields@.take(i as int), pieces@, host as int, contact),
            !drop ==> sets@ == field_sets(fields@.take(i as int), pieces@, host as int, contact),
            reps@ == whole_slots(fields@.take(i as int)),
        decreases fields@.len() - i,
    {
        let f = fields[i];
        let ghost before = fields@.take(i as int);
        let ghost after = fields@.take(i + 1);
        assert(after.take(i as int) =~= before);
        assert(after[i as int] == f);
        if f.role == FieldRole::Whole {
            reps.push(f.slot);
        }
        match decide_field(f.role, pieces, host, contact) {
            Some(pc) => {
                sets.push((f.slot, pc));
                if !drop {
                    assert(sets@ =~= field_sets(after, pieces@, host as int, contact));
                }
            },
            None => {
                drop = true;
            },
        }
        assert(fields_drop(after, pieces@, host as int, contact) == (fields_drop(before, pieces@, host as int, contact)
            || field_piece(f.role, pieces@, host as int, contact) is None)) by {
            if fields_drop(before, pieces@, host as int, contact) {
                let j = choose|j: int| 0 <= j < before.len() && (#[trigger] field_piece(before[j].role, pieces@, host as int, contact)) is None;
                assert(after[j] == before[j]);
            }
            if fields_drop(after, pieces@, host as int, contact) {
                let j = choose|j: int| 0 <= j < after.len() && (#[trigger] field_piece(after[j].role, pieces@, host as int, contact)) is None;
                if j < i {
                    assert(before[j] == after[j]);
                }
            }
        }
        i = i + 1;
    }
    assert(fields@.take(fields@.len() as int) =~= fields@);
    if drop {
        sets = Vec::new();
        reps = Vec::new();
    }
    FieldPlan { sets, rep_slots: reps, drop }
}

// ---------------------------------------------------------------------------
// Laws
// ---------------------------------------------------------------------------

/// Whether every piece was kept and is a line.
pub open spec fn all_line_pieces(p: Seq<Option<PieceRef>>) -> bool {
    forall|j: int| 0 <= j < p.len() ==> (#[trigger] p[j]) matches Some(PieceRef::Line(_))
}

/// Whether every piece was kept and is an arc.
pub open spec fn all_arc_pieces(p: Seq<Option<PieceRef>>) -> bool {
    forall|j: int| 0 <= j < p.len() ==> (#[trigger] p[j]) matches Some(PieceRef::Arc(_))
}

proof fn lemma_first_kept_of_full(p: Seq<Option<PieceRef>>)
    requires
        p.len() > 0,
        p[0] is Some,
    ensures
        first_kept(p) == p[0],
{
}

proof fn lemma_at_or_nearest_of_full(p: Seq<Option<PieceRef>>, i: int)
    requires
        0 <= i < p.len(),
        p[i] is Some,
    ensures
        at_or_nearest(p, i) == p[i],
{
}

/// A split that trims no piece keeps every dimension on a split line: each
/// one has a successor.
pub proof fn lemma_untrimmed_line_split_keeps_dimensions(k: DimKind, t: u32, p: Seq<Option<PieceRef>>, host: int)
    requires
        p.len() > 0,
        0 <= host < p.len(),
        all_line_pieces(p),
    ensures
        dim_successor(k, SplitTarget::Line(t), p, host) is Ok,
{
    assert(p[0] matches Some(PieceRef::Line(_)));
    assert(p[p.len() - 1] matches Some(PieceRef::Line(_)));
    assert(p[host] matches Some(PieceRef::Line(_)));
    lemma_first_kept_of_full(p);
    lemma_at_or_nearest_of_full(p, host);
}

/// A split that trims no piece keeps every dimension on a split arc except
/// the sweep of the whole arc, which has no successor.
pub proof fn lemma_untrimmed_arc_split_keeps_dimensions(k: DimKind, t: u32, p: Seq<Option<PieceRef>>, host: int)
    requires
        p.len() > 0,
        0 <= host < p.len(),
        all_arc_pieces(p),
    ensures
        dim_successor(k, SplitTarget::Arc(t), p, host) is Ok <==> k != DimKind::ArcSweep(t),
{
    assert(p[0] matches Some(PieceRef::Arc(_)));
    assert(p[p.len() - 1] matches Some(PieceRef::Arc(_)));
    lemma_first_kept_of_full(p);
}

/// With every piece kept, a constraint on the target drops exactly when
/// one of its fields measures the whole span (an extent role).
pub proof fn lemma_untrimmed_split_drops_only_extents(fields: Seq<TargetField>, p: Seq<Option<PieceRef>>, host: int, contact: Option<usize>)
    requires
        p.len() > 0,
        0 <= host < p.len(),
        contact matches Some(c) ==> c < p.len(),
        forall|j: int| 0 <= j < p.len() ==> (#[trigger] p[j]) is Some,
    ensures
        fields_drop(fields, p, host, contact) <==> exists|j: int| 0 <= j < fields.len() && (#[trigger] fields[j]).role == FieldRole::Extent,
{
    assert(p[0] is Some);
    assert(p[p.len() - 1] is Some);
    lemma_first_kept_of_full(p);
    assert(p[host] is Some);
    lemma_at_or_nearest_of_full(p, host);
    if let Some(c) = contact {
        assert(p[c as int] is Some);
    }
    if fields_drop(fields, p, host, contact) {
        let j = choose|j: int| 0 <= j < fields.len() && (#[trigger] field_piece(fields[j].role, p, host, contact)) is None;
        assert(fields[j].role == FieldRole::Extent);
    }
    if exists|j: int| 0 <= j < fields.len() && (#[trigger] fields[j]).role == FieldRole::Extent {
        let j = choose|j: int| 0 <= j < fields.len() && (#[trigger] fields[j]).role == FieldRole::Extent;
        assert(field_piece(fields[j].role, p, host, contact) is None);
    }
}

} // verus!
