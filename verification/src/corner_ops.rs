//! Corners for fillet and chamfer: resolving what the user pointed at
//! (one line endpoint, or two lines) to the two lines that meet there and
//! the line-line coincidence that ties them, the relations a fillet or
//! chamfer then adds at the corner, and where each corner's dimension
//! value comes from when several are done at once.
//!
//! Lines are identified by their handle in the sketch (the raw value of
//! the solver's `Ref`).

use vstd::prelude::*;
use crate::ids::{line_with_handle, ConstraintId, LineFlags};
use crate::split::EndpointRef;
use crate::text::{chars_of, push_seq, push_str, string_of};

verus! {

/// A corner named by what the user pointed at: one line endpoint, or two
/// lines whose shared corner is looked up at apply time.
#[derive(Clone, Copy, PartialEq, Eq, Structural, Debug)]
pub enum CornerSpec {
    Endpoint { line: u32, is_p1: bool },
    Lines(u32, u32),
}

#[derive(Clone, Copy, PartialEq, Eq, Structural, Debug)]
pub enum CornerKind {
    Fillet,
    Chamfer,
}

/// A coincidence between an endpoint of line `a` and an endpoint of line
/// `b`; which endpoints is fixed by the collection it sits in.
#[derive(Clone, Copy, PartialEq, Eq, Structural, Debug)]
pub struct LLCoincidence {
    pub a: u32,
    pub b: u32,
    pub nid: u32,
}

/// The four line-line coincidence collections: `ll11` ties `a.p1` to
/// `b.p1`, `ll12` `a.p1` to `b.p2`, `ll21` `a.p2` to `b.p1`, `ll22` `a.p2`
/// to `b.p2`.
pub struct LineCoincidences {
    pub ll11: Vec<LLCoincidence>,
    pub ll12: Vec<LLCoincidence>,
    pub ll21: Vec<LLCoincidence>,
    pub ll22: Vec<LLCoincidence>,
}

/// Refs resolved from a corner spec: the two lines that meet at the
/// corner, which endpoint of each is at the corner, and the coincidence
/// that ties them there.
#[derive(Clone, Copy, PartialEq, Eq, Structural, Debug)]
pub struct CornerRefs {
    pub line_a: u32,
    pub is_p1_a: bool,
    pub line_b: u32,
    pub is_p1_b: bool,
    pub coincident_id: ConstraintId,
}

/// What one corner produced, for the caller's report.
pub struct CornerOutcome {
    /// The created arc (fillet) or bevel line (chamfer). Empty when the
    /// corner failed.
    pub entity_name: String,
    /// Chamfer's corner anchor point.
    pub point_name: Option<String>,
    /// User-visible name of the deleted corner coincident.
    pub removed: Option<String>,
    /// Radius dim (fillet) / first leg dim (chamfer).
    pub primary_dim: Option<String>,
    /// Chamfer's second leg dim.
    pub secondary_dim: Option<String>,
    /// Added constraint ids and skip notes, in application order.
    pub added: Vec<String>,
    /// Failure reason; when set, the corner left no marks.
    pub error: Option<String>,
}

impl CornerOutcome {
    /// The outcome of a corner that failed with `e`.
    pub fn failed(e: String) -> (o: CornerOutcome)
        ensures
            o.entity_name@.len() == 0,
            o.point_name is None,
            o.removed is None,
            o.primary_dim is None,
            o.secondary_dim is None,
            o.added@.len() == 0,
            o.error matches Some(m) && m@ == e@,
    {
        CornerOutcome {
            entity_name: String::new(),
            point_name: None,
            removed: None,
            primary_dim: None,
            secondary_dim: None,
            added: Vec::new(),
            error: Some(e),
        }
    }
}

/// What a run of corner operations produced.
pub struct CornerOpsResult {
    /// One entry per requested corner, in order.
    pub outcomes: Vec<CornerOutcome>,
    /// The first corner's dimension: later corners track it.
    pub primary_dim_name: Option<String>,
    pub primary_dim_did: Option<u32>,
}

/// The first coincidence in `cs` involving endpoint `is_p1` of `line`,
/// where the collection ties endpoint `ea` of `a` (`true` for p1) to
/// endpoint `eb` of `b`: the other line, which of its endpoints is the
/// corner, and the coincidence.
pub open spec fn partner_in(cs: Seq<LLCoincidence>, line: u32, is_p1: bool, ea: bool, eb: bool) -> Option<(u32, bool, ConstraintId)>
    decreases cs.len(),
{
    if cs.len() == 0 {
        None
    } else if cs[0].a == line && is_p1 == ea {
        Some((cs[0].b, eb, ConstraintId::Numbered(cs[0].nid)))
    } else if cs[0].b == line && is_p1 == eb {
        Some((cs[0].a, ea, ConstraintId::Numbered(cs[0].nid)))
    } else {
        partner_in(cs.drop_first(), line, is_p1, ea, eb)
    }
}

/// The line whose endpoint is coincident with endpoint `is_p1` of `line`,
/// searching `ll11`, `ll12`, `ll21`, `ll22` in that order.
pub open spec fn ll_partner(c: (Seq<LLCoincidence>, Seq<LLCoincidence>, Seq<LLCoincidence>, Seq<LLCoincidence>), line: u32, is_p1: bool) -> Option<(u32, bool, ConstraintId)> {
    match partner_in(c.0, line, is_p1, true, true) {
        Some(r) => Some(r),
        None => match partner_in(c.1, line, is_p1, true, false) {
            Some(r) => Some(r),
            None => match partner_in(c.2, line, is_p1, false, true) {
                Some(r) => Some(r),
                None => partner_in(c.3, line, is_p1, false, false),
            },
        },
    }
}

impl LineCoincidences {
    /// The four collections as sequences.
    pub open spec fn seqs(&self) -> (Seq<LLCoincidence>, Seq<LLCoincidence>, Seq<LLCoincidence>, Seq<LLCoincidence>) {
        (self.ll11@, self.ll12@, self.ll21@, self.ll22@)
    }
}

fn scan_partner(cs: &Vec<LLCoincidence>, line: u32, is_p1: bool, ea: bool, eb: bool) -> (r: Option<(u32, bool, ConstraintId)>)
    ensures
        r == partner_in(cs@, line, is_p1, ea, eb),
{
    let mut i: usize = 0;
    assert(cs@.skip(0) =~= cs@);
    while i < cs.len()
        invariant
            i <= cs@.len(),
            partner_in(cs@, line, is_p1, ea, eb) == partner_in(cs@.skip(i as int), line, is_p1, ea, eb),
        decreases cs@.len() - i,
    {
        assert(cs@.skip(i as int).drop_first() =~= cs@.skip(i + 1));
        let c = cs[i];
        if c.a == line && is_p1 == ea {
            return Some((c.b, eb, ConstraintId::Numbered(c.nid)));
        }
        if c.b == line && is_p1 == eb {
            return Some((c.a, ea, ConstraintId::Numbered(c.nid)));
        }
        i = i + 1;
    }
    assert(cs@.skip(i as int) =~= Seq::<LLCoincidence>::empty());
    None
}

/// Scan the four line-line coincidence collections for a constraint
/// involving endpoint `is_p1` of `line` (see [`ll_partner`]). None if the
/// endpoint isn't coincident with another line's endpoint directly:
/// corners shared through a helper point are not corners here.
pub fn find_ll_coincident_partner(coincidences: &LineCoincidences, line: u32, is_p1: bool) -> (r: Option<(u32, bool, ConstraintId)>)
    ensures
        r == ll_partner(coincidences.seqs(), line, is_p1),
{
    match scan_partner(&coincidences.ll11, line, is_p1, true, true) {
        Some(r) => return Some(r),
        None => {},
    }
    match scan_partner(&coincidences.ll12, line, is_p1, true, false) {
        Some(r) => return Some(r),
        None => {},
    }
    match scan_partner(&coincidences.ll21, line, is_p1, false, true) {
        Some(r) => return Some(r),
        None => {},
    }
    scan_partner(&coincidences.ll22, line, is_p1, false, false)
}

/// Whether coincidence `e` ties endpoint `p1` of `x` to endpoint `q1` of
/// `y` (`true` for p1), when it joins `e.a`'s p1 (`a_p1`) or p2 to
/// `e.b`'s p1 (`b_p1`) or p2; either way round.
pub open spec fn ties(e: LLCoincidence, a_p1: bool, b_p1: bool, x: u32, p1: bool, y: u32, q1: bool) -> bool {
    (e.a == x && a_p1 == p1 && e.b == y && b_p1 == q1) || (e.b == x && b_p1 == p1 && e.a == y && a_p1 == q1)
}

/// Whether some coincidence of the four collections, by what each joins
/// (`ll11`: a.p1 to b.p1, `ll12`: a.p1 to b.p2, `ll21`: a.p2 to b.p1,
/// `ll22`: a.p2 to b.p2), ties endpoint `p1` of `x` to endpoint `q1` of `y`
/// under number `nid`.
pub open spec fn tied_by(
    c: (Seq<LLCoincidence>, Seq<LLCoincidence>, Seq<LLCoincidence>, Seq<LLCoincidence>),
    x: u32,
    p1: bool,
    y: u32,
    q1: bool,
    nid: u32,
) -> bool {
    ||| exists|i: int| 0 <= i < c.0.len() && #[trigger] c.0[i].nid == nid && ties(c.0[i], true, true, x, p1, y, q1)
    ||| exists|i: int| 0 <= i < c.1.len() && #[trigger] c.1[i].nid == nid && ties(c.1[i], true, false, x, p1, y, q1)
    ||| exists|i: int| 0 <= i < c.2.len() && #[trigger] c.2[i].nid == nid && ties(c.2[i], false, true, x, p1, y, q1)
    ||| exists|i: int| 0 <= i < c.3.len() && #[trigger] c.3[i].nid == nid && ties(c.3[i], false, false, x, p1, y, q1)
}

/// Whether some coincidence of the four collections involves endpoint
/// `p1` of `x` at all.
pub open spec fn involved(
    c: (Seq<LLCoincidence>, Seq<LLCoincidence>, Seq<LLCoincidence>, Seq<LLCoincidence>),
    x: u32,
    p1: bool,
) -> bool {
    ||| exists|i: int| 0 <= i < c.0.len() && ((#[trigger] c.0[i]).a == x && p1 || c.0[i].b == x && p1)
    ||| exists|i: int| 0 <= i < c.1.len() && ((#[trigger] c.1[i]).a == x && p1 || c.1[i].b == x && !p1)
    ||| exists|i: int| 0 <= i < c.2.len() && ((#[trigger] c.2[i]).a == x && !p1 || c.2[i].b == x && p1)
    ||| exists|i: int| 0 <= i < c.3.len() && ((#[trigger] c.3[i]).a == x && !p1 || c.3[i].b == x && !p1)
}

proof fn lemma_partner_in(cs: Seq<LLCoincidence>, line: u32, is_p1: bool, ea: bool, eb: bool)
    ensures
        partner_in(cs, line, is_p1, ea, eb) matches Some((y, q1, id)) ==> exists|i: int|
            0 <= i < cs.len() && id == ConstraintId::Numbered((#[trigger] cs[i]).nid) && ties(cs[i], ea, eb, line, is_p1, y, q1),
        partner_in(cs, line, is_p1, ea, eb) is None ==> forall|i: int|
            0 <= i < cs.len() ==> !((#[trigger] cs[i]).a == line && is_p1 == ea) && !(cs[i].b == line && is_p1 == eb),
    decreases cs.len(),
{
    if cs.len() > 0 {
        lemma_partner_in(cs.drop_first(), line, is_p1, ea, eb);
        if cs[0].a == line && is_p1 == ea {
            assert(ties(cs[0], ea, eb, line, is_p1, cs[0].b, eb));
        } else if cs[0].b == line && is_p1 == eb {
            assert(ties(cs[0], ea, eb, line, is_p1, cs[0].a, ea));
        } else {
            if let Some((y, q1, id)) = partner_in(cs, line, is_p1, ea, eb) {
                let i = choose|i: int| 0 <= i < cs.drop_first().len() && id == ConstraintId::Numbered(
                    (#[trigger] cs.drop_first()[i]).nid,
                ) && ties(cs.drop_first()[i], ea, eb, line, is_p1, y, q1);
                assert(cs[i + 1] == cs.drop_first()[i]);
            } else {
                assert forall|i: int| 0 <= i < cs.len() implies !((#[trigger] cs[i]).a == line && is_p1 == ea) && !(
                cs[i].b == line && is_p1 == eb) by {
                    if i > 0 {
                        assert(cs[i] == cs.drop_first()[i - 1]);
                    }
                }
            }
        }
    }
}

/// The corner partner found is really tied to the endpoint asked about:
/// some coincidence, by what its collection joins, ties endpoint `is_p1`
/// of `line` to the partner endpoint under the number returned; and when
/// none is found, no coincidence of the four collections involves that
/// endpoint.
pub proof fn lemma_ll_partner_is_tied(
    c: (Seq<LLCoincidence>, Seq<LLCoincidence>, Seq<LLCoincidence>, Seq<LLCoincidence>),
    line: u32,
    is_p1: bool,
)
    ensures
        ll_partner(c, line, is_p1) matches Some((y, q1, id)) ==> exists|nid: u32|
            id == ConstraintId::Numbered(nid) && #[trigger] tied_by(c, line, is_p1, y, q1, nid),
        ll_partner(c, line, is_p1) is None <==> !involved(c, line, is_p1),
{
    lemma_partner_in(c.0, line, is_p1, true, true);
    lemma_partner_in(c.1, line, is_p1, true, false);
    lemma_partner_in(c.2, line, is_p1, false, true);
    lemma_partner_in(c.3, line, is_p1, false, false);
    let r0 = partner_in(c.0, line, is_p1, true, true);
    let r1 = partner_in(c.1, line, is_p1, true, false);
    let r2 = partner_in(c.2, line, is_p1, false, true);
    let r3 = partner_in(c.3, line, is_p1, false, false);
    if let Some((y, q1, id)) = ll_partner(c, line, is_p1) {
        if r0 is Some {
            let i = choose|i: int| 0 <= i < c.0.len() && id == ConstraintId::Numbered((#[trigger] c.0[i]).nid) && ties(c.0[i], true, true, line, is_p1, y, q1);
            assert(tied_by(c, line, is_p1, y, q1, c.0[i].nid));
        } else if r1 is Some {
            let i = choose|i: int| 0 <= i < c.1.len() && id == ConstraintId::Numbered((#[trigger] c.1[i]).nid) && ties(c.1[i], true, false, line, is_p1, y, q1);
            assert(tied_by(c, line, is_p1, y, q1, c.1[i].nid));
        } else if r2 is Some {
            let i = choose|i: int| 0 <= i < c.2.len() && id == ConstraintId::Numbered((#[trigger] c.2[i]).nid) && ties(c.2[i], false, true, line, is_p1, y, q1);
            assert(tied_by(c, line, is_p1, y, q1, c.2[i].nid));
        } else {
            let i = choose|i: int| 0 <= i < c.3.len() && id == ConstraintId::Numbered((#[trigger] c.3[i]).nid) && ties(c.3[i], false, false, line, is_p1, y, q1);
            assert(tied_by(c, line, is_p1, y, q1, c.3[i].nid));
        }
        // Some partner was found, so the endpoint is involved.
        if r0 is Some {
            let i = choose|i: int| 0 <= i < c.0.len() && id == ConstraintId::Numbered((#[trigger] c.0[i]).nid) && ties(c.0[i], true, true, line, is_p1, y, q1);
            assert(c.0[i].a == line && is_p1 || c.0[i].b == line && is_p1);
        } else if r1 is Some {
            let i = choose|i: int| 0 <= i < c.1.len() && id == ConstraintId::Numbered((#[trigger] c.1[i]).nid) && ties(c.1[i], true, false, line, is_p1, y, q1);
            assert(c.1[i].a == line && is_p1 || c.1[i].b == line && !is_p1);
        } else if r2 is Some {
            let i = choose|i: int| 0 <= i < c.2.len() && id == ConstraintId::Numbered((#[trigger] c.2[i]).nid) && ties(c.2[i], false, true, line, is_p1, y, q1);
            assert(c.2[i].a == line && !is_p1 || c.2[i].b == line && is_p1);
        } else {
            let i = choose|i: int| 0 <= i < c.3.len() && id == ConstraintId::Numbered((#[trigger] c.3[i]).nid) && ties(c.3[i], false, false, line, is_p1, y, q1);
            assert(c.3[i].a == line && !is_p1 || c.3[i].b == line && !is_p1);
        }
    }
}

/// `<line>.p1` or `<line>.p2`.
pub open spec fn endpoint_label(name: Seq<char>, is_p1: bool) -> Seq<char> {
    name + (if is_p1 { ".p1"@ } else { ".p2"@ })
}

/// What a corner spec resolves to against the current lines and
/// coincidences: for an endpoint, its line must exist and the endpoint be
/// coincident with another line's endpoint; for two lines, they must
/// differ, both exist, and one of the first line's endpoints (p1 tried
/// first) must be tied to the second line.
pub open spec fn corner_resolution(
    lines: Seq<LineFlags>,
    c: (Seq<LLCoincidence>, Seq<LLCoincidence>, Seq<LLCoincidence>, Seq<LLCoincidence>),
    spec: CornerSpec,
) -> Result<CornerRefs, Seq<char>> {
    match spec {
        CornerSpec::Endpoint { line, is_p1 } => match line_with_handle(lines, line) {
            None => Err("corner line no longer exists"@),
            Some(l) => match ll_partner(c, line, is_p1) {
                Some((lb, is_p1_b, cid)) => Ok(CornerRefs { line_a: line, is_p1_a: is_p1, line_b: lb, is_p1_b, coincident_id: cid }),
                None => Err(endpoint_label(l.name@, is_p1) + " isn't coincident with another line endpoint"@),
            },
        },
        CornerSpec::Lines(la, lb) => if la == lb {
            Err("two-line corner needs two different lines"@)
        } else {
            match (line_with_handle(lines, la), line_with_handle(lines, lb)) {
                (Some(a), Some(b)) => match ll_partner(c, la, true) {
                    Some((p, is_p1_b, cid)) if p == lb => Ok(CornerRefs { line_a: la, is_p1_a: true, line_b: lb, is_p1_b, coincident_id: cid }),
                    _ => match ll_partner(c, la, false) {
                        Some((p, is_p1_b, cid)) if p == lb => Ok(CornerRefs { line_a: la, is_p1_a: false, line_b: lb, is_p1_b, coincident_id: cid }),
                        _ => Err(a.name@ + " and "@ + b.name@ + " are not connected at an endpoint"@),
                    },
                },
                _ => Err("corner line no longer exists"@),
            }
        },
    }
}

/// The first line with handle `h`.
fn line_index(lines: &Vec<LineFlags>, h: u32) -> (r: Option<usize>)
    ensures
        r matches Some(i) ==> i < lines@.len() && line_with_handle(lines@, h) == Some(lines@[i as int]),
        r is None ==> line_with_handle(lines@, h) is None,
{
    let mut i: usize = 0;
    assert(lines@.skip(0) =~= lines@);
    while i < lines.len()
        invariant
            i <= lines@.len(),
            line_with_handle(lines@, h) == line_with_handle(lines@.skip(i as int), h),
        decreases lines@.len() - i,
    {
        assert(lines@.skip(i as int).drop_first() =~= lines@.skip(i + 1));
        if lines[i].handle == h {
            return Some(i);
        }
        i = i + 1;
    }
    assert(lines@.skip(i as int) =~= Seq::<LineFlags>::empty());
    None
}

/// Resolve a corner spec against the current lines and coincidences (see
/// [`corner_resolution`]). Re-run per corner during a multi-corner apply:
/// every fillet deletes one coincidence, shifting what a later corner
/// resolves to.
pub fn resolve_corner_spec(lines: &Vec<LineFlags>, coincidences: &LineCoincidences, spec: &CornerSpec) -> (r: Result<CornerRefs, String>)
    ensures
        r matches Ok(refs) ==> corner_resolution(lines@, coincidences.seqs(), *spec) == Ok::<CornerRefs, Seq<char>>(refs),
        r matches Err(e) ==> corner_resolution(lines@, coincidences.seqs(), *spec) == Err::<CornerRefs, Seq<char>>(e@),
{
    match *spec {
        CornerSpec::Endpoint { line, is_p1 } => {
            let li = match line_index(lines, line) {
                Some(i) => i,
                None => return Err(string_of(&chars_of("corner line no longer exists"))),
            };
            match find_ll_coincident_partner(coincidences, line, is_p1) {
                Some((lb, is_p1_b, cid)) => Ok(CornerRefs { line_a: line, is_p1_a: is_p1, line_b: lb, is_p1_b, coincident_id: cid }),
                None => {
                    let mut m = chars_of(lines[li].name.as_str());
                    if is_p1 {
                        push_str(&mut m, ".p1");
                    } else {
                        push_str(&mut m, ".p2");
                    }
                    push_str(&mut m, " isn't coincident with another line endpoint");
                    Err(string_of(&m))
                },
            }
        },
        CornerSpec::Lines(la, lb) => {
            if la == lb {
                return Err(string_of(&chars_of("two-line corner needs two different lines")));
            }
            let (ia, ib) = match (line_index(lines, la), line_index(lines, lb)) {
                (Some(ia), Some(ib)) => (ia, ib),
                _ => return Err(string_of(&chars_of("corner line no longer exists"))),
            };
            match find_ll_coincident_partner(coincidences, la, true) {
                Some((p, is_p1_b, cid)) => if p == lb {
                    return Ok(CornerRefs { line_a: la, is_p1_a: true, line_b: lb, is_p1_b, coincident_id: cid });
                },
                None => {},
            }
            match find_ll_coincident_partner(coincidences, la, false) {
                Some((p, is_p1_b, cid)) => if p == lb {
                    return Ok(CornerRefs { line_a: la, is_p1_a: false, line_b: lb, is_p1_b, coincident_id: cid });
                },
                None => {},
            }
            let mut m = chars_of(lines[ia].name.as_str());
            push_str(&mut m, " and ");
            let nb = chars_of(lines[ib].name.as_str());
            push_seq(&mut m, &nb);
            push_str(&mut m, " are not connected at an endpoint");
            Err(string_of(&m))
        },
    }
}

// ---------------------------------------------------------------------------
// What a corner adds
// ---------------------------------------------------------------------------

/// A relation a fillet or chamfer adds at a corner, in the order run.
#[derive(Clone, Copy, PartialEq, Eq, Structural, Debug)]
pub enum CornerRelation {
    Coincident(EndpointRef, EndpointRef),
    TangentLineArc { line: u32, arc: u32 },
    PointOnLine { point: u32, line: u32 },
    /// The fillet's radius dimension.
    ArcRadius(u32),
    /// A chamfer leg's length: the distance from the corner point to a
    /// trimmed end; the second leg follows the first by expression.
    LegDistance(EndpointRef),
}

/// A line's end at the corner.
pub open spec fn corner_end(line: u32, is_p1: bool) -> EndpointRef {
    if is_p1 {
        EndpointRef::LineP1(line)
    } else {
        EndpointRef::LineP2(line)
    }
}

/// What a fillet adds once its arc exists, after the corner's coincidence
/// is deleted and the lines are trimmed: line `a`'s trimmed end joins the
/// arc end nearest it (`a_at_start`: the arc's start), line `b`'s the
/// other; then a tangency with each line unless `notangent`, then the
/// radius dimension unless `noradius`.
pub open spec fn fillet_relations_spec(refs: CornerRefs, arc: u32, a_at_start: bool, notangent: bool, noradius: bool) -> Seq<CornerRelation> {
    seq![
        CornerRelation::Coincident(
            corner_end(refs.line_a, refs.is_p1_a),
            if a_at_start { EndpointRef::ArcStart(arc) } else { EndpointRef::ArcEnd(arc) },
        ),
        CornerRelation::Coincident(
            corner_end(refs.line_b, refs.is_p1_b),
            if a_at_start { EndpointRef::ArcEnd(arc) } else { EndpointRef::ArcStart(arc) },
        ),
    ] + (if notangent {
        seq![]
    } else {
        seq![
            CornerRelation::TangentLineArc { line: refs.line_a, arc },
            CornerRelation::TangentLineArc { line: refs.line_b, arc },
        ]
    }) + (if noradius {
        seq![]
    } else {
        seq![CornerRelation::ArcRadius(arc)]
    })
}

/// What a fillet adds, by its switches: the radius dimension of the arc
/// exactly when `noradius` is off, whatever `notangent` is; a tangency of
/// the arc with each line exactly when `notangent` is off, whatever
/// `noradius` is; and always the two joins of the lines' corner ends to
/// the arc, one to each of its ends, and nothing else.
pub proof fn lemma_fillet_switches(refs: CornerRefs, arc: u32, a_at_start: bool, notangent: bool, noradius: bool)
    ensures
        ({
            let r = fillet_relations_spec(refs, arc, a_at_start, notangent, noradius);
            &&& r.contains(CornerRelation::ArcRadius(arc)) <==> !noradius
            &&& r.contains(CornerRelation::TangentLineArc { line: refs.line_a, arc }) <==> !notangent
            &&& r.contains(CornerRelation::TangentLineArc { line: refs.line_b, arc }) <==> !notangent
            &&& r.len() == 2 + (if notangent { 0int } else { 2int }) + (if noradius { 0int } else { 1int })
            &&& r[0] matches CornerRelation::Coincident(x, y) && x == corner_end(refs.line_a, refs.is_p1_a)
                && (y == EndpointRef::ArcStart(arc) || y == EndpointRef::ArcEnd(arc))
            &&& r[1] matches CornerRelation::Coincident(x, y) && x == corner_end(refs.line_b, refs.is_p1_b)
                && (y == EndpointRef::ArcStart(arc) || y == EndpointRef::ArcEnd(arc))
            &&& r[0]->Coincident_1 != r[1]->Coincident_1
        }),
{
    let r = fillet_relations_spec(refs, arc, a_at_start, notangent, noradius);
    let t = seq![
        CornerRelation::TangentLineArc { line: refs.line_a, arc },
        CornerRelation::TangentLineArc { line: refs.line_b, arc },
    ];
    if !noradius {
        assert(r[r.len() - 1] == CornerRelation::ArcRadius(arc));
    } else {
        assert forall|i: int| 0 <= i < r.len() implies r[i] != CornerRelation::ArcRadius(arc) by {}
    }
    if !notangent {
        assert(r[2] == t[0]);
        assert(r[3] == t[1]);
    } else {
        assert forall|i: int| 0 <= i < r.len() implies !(r[i] is TangentLineArc) by {}
    }
}

/// What a fillet adds at a corner (see [`fillet_relations_spec`]).
pub fn fillet_relations(refs: &CornerRefs, arc: u32, a_at_start: bool, notangent: bool, noradius: bool) -> (r: Vec<CornerRelation>)
    ensures
        r@ == fillet_relations_spec(*refs, arc, a_at_start, notangent, noradius),
{
    let end_a = if refs.is_p1_a { EndpointRef::LineP1(refs.line_a) } else { EndpointRef::LineP2(refs.line_a) };
    let end_b = if refs.is_p1_b { EndpointRef::LineP1(refs.line_b) } else { EndpointRef::LineP2(refs.line_b) };
    let (for_a, for_b) = if a_at_start {
        (EndpointRef::ArcStart(arc), EndpointRef::ArcEnd(arc))
    } else {
        (EndpointRef::ArcEnd(arc), EndpointRef::ArcStart(arc))
    };
    let mut r: Vec<CornerRelation> = Vec::new();
    r.push(CornerRelation::Coincident(end_a, for_a));
    r.push(CornerRelation::Coincident(end_b, for_b));
    if !notangent {
        r.push(CornerRelation::TangentLineArc { line: refs.line_a, arc });
        r.push(CornerRelation::TangentLineArc { line: refs.line_b, arc });
    }
    if !noradius {
        r.push(CornerRelation::ArcRadius(arc));
    }
    assert(r@ =~= fillet_relations_spec(*refs, arc, a_at_start, notangent, noradius));
    r
}

/// What a chamfer adds once its corner point and bevel line exist, after
/// the corner's coincidence is deleted and the lines are trimmed: line
/// `a`'s trimmed end joins the bevel's start and line `b`'s its end; the
/// corner point stays on both lines; then the two legs' lengths, from the
/// corner point to each trimmed end.
pub open spec fn chamfer_relations_spec(refs: CornerRefs, point: u32, bevel: u32) -> Seq<CornerRelation> {
    seq![
        CornerRelation::Coincident(corner_end(refs.line_a, refs.is_p1_a), EndpointRef::LineP1(bevel)),
        CornerRelation::Coincident(corner_end(refs.line_b, refs.is_p1_b), EndpointRef::LineP2(bevel)),
        CornerRelation::PointOnLine { point, line: refs.line_a },
        CornerRelation::PointOnLine { point, line: refs.line_b },
        CornerRelation::LegDistance(corner_end(refs.line_a, refs.is_p1_a)),
        CornerRelation::LegDistance(corner_end(refs.line_b, refs.is_p1_b)),
    ]
}

/// What a chamfer adds ties the corner as a bevel does: each line's
/// corner end joins one end of the bevel line (line `a` its start, line
/// `b` its end), the corner point stays on both lines, and each leg is
/// measured to that line's corner end.
pub proof fn lemma_chamfer_ties(refs: CornerRefs, point: u32, bevel: u32)
    ensures
        ({
            let r = chamfer_relations_spec(refs, point, bevel);
            &&& r.len() == 6
            &&& r.contains(CornerRelation::Coincident(corner_end(refs.line_a, refs.is_p1_a), EndpointRef::LineP1(bevel)))
            &&& r.contains(CornerRelation::Coincident(corner_end(refs.line_b, refs.is_p1_b), EndpointRef::LineP2(bevel)))
            &&& r.contains(CornerRelation::PointOnLine { point, line: refs.line_a })
            &&& r.contains(CornerRelation::PointOnLine { point, line: refs.line_b })
            &&& r.contains(CornerRelation::LegDistance(corner_end(refs.line_a, refs.is_p1_a)))
            &&& r.contains(CornerRelation::LegDistance(corner_end(refs.line_b, refs.is_p1_b)))
        }),
{
    let r = chamfer_relations_spec(refs, point, bevel);
    assert(r[0] == CornerRelation::Coincident(corner_end(refs.line_a, refs.is_p1_a), EndpointRef::LineP1(bevel)));
    assert(r[1] == CornerRelation::Coincident(corner_end(refs.line_b, refs.is_p1_b), EndpointRef::LineP2(bevel)));
    assert(r[2] == CornerRelation::PointOnLine { point, line: refs.line_a });
    assert(r[3] == CornerRelation::PointOnLine { point, line: refs.line_b });
    assert(r[4] == CornerRelation::LegDistance(corner_end(refs.line_a, refs.is_p1_a)));
    assert(r[5] == CornerRelation::LegDistance(corner_end(refs.line_b, refs.is_p1_b)));
}

/// What a chamfer adds at a corner (see [`chamfer_relations_spec`]).
pub fn chamfer_relations(refs: &CornerRefs, point: u32, bevel: u32) -> (r: Vec<CornerRelation>)
    ensures
        r@ == chamfer_relations_spec(*refs, point, bevel),
{
    let end_a = if refs.is_p1_a { EndpointRef::LineP1(refs.line_a) } else { EndpointRef::LineP2(refs.line_a) };
    let end_b = if refs.is_p1_b { EndpointRef::LineP1(refs.line_b) } else { EndpointRef::LineP2(refs.line_b) };
    let mut r: Vec<CornerRelation> = Vec::new();
    r.push(CornerRelation::Coincident(end_a, EndpointRef::LineP1(bevel)));
    r.push(CornerRelation::Coincident(end_b, EndpointRef::LineP2(bevel)));
    r.push(CornerRelation::PointOnLine { point, line: refs.line_a });
    r.push(CornerRelation::PointOnLine { point, line: refs.line_b });
    r.push(CornerRelation::LegDistance(end_a));
    r.push(CornerRelation::LegDistance(end_b));
    assert(r@ =~= chamfer_relations_spec(*refs, point, bevel));
    r
}

// ---------------------------------------------------------------------------
// Running several corners
// ---------------------------------------------------------------------------

/// Where a corner's dimension value comes from when several corners are
/// rounded or bevelled in one operation.
#[derive(Clone, Copy, PartialEq, Eq, Structural, Debug)]
pub enum CornerValue {
    /// The configured value and expression: the first corner.
    Configured,
    /// The first corner's dimension, by name: its current value, and the
    /// name as the expression, so that every corner follows it.
    FollowPrimary,
    /// The configured value with no expression: the first corner left no
    /// dimension to follow.
    ConfiguredPlain,
}

/// The value source of corner `idx`, given the first corner's dimension
/// name so far.
pub open spec fn corner_value_spec(idx: nat, primary: Option<Seq<char>>) -> CornerValue {
    if idx == 0 {
        CornerValue::Configured
    } else if primary is Some {
        CornerValue::FollowPrimary
    } else {
        CornerValue::ConfiguredPlain
    }
}

/// The value source of corner `idx` (see [`corner_value_spec`]).
pub fn corner_value(idx: usize, primary: &Option<String>) -> (r: CornerValue)
    ensures
        r == corner_value_spec(idx as nat, match primary {
            Some(n) => Some(n@),
            None => None,
        }),
{
    if idx == 0 {
        CornerValue::Configured
    } else if primary.is_some() {
        CornerValue::FollowPrimary
    } else {
        CornerValue::ConfiguredPlain
    }
}

/// The first corner's dimension name after corner `idx` ran: set by the
/// first corner only, to the dimension it made (`made`: none when it
/// failed or made none); later corners leave it.
pub open spec fn primary_after_spec(idx: nat, primary: Option<Seq<char>>, made: Option<Seq<char>>) -> Option<Seq<char>> {
    if idx == 0 {
        made
    } else {
        primary
    }
}

/// The first corner's dimension name after corner `idx` ran (see
/// [`primary_after_spec`]).
pub fn primary_after(idx: usize, primary: Option<String>, made: Option<String>) -> (r: Option<String>)
    ensures
        (match r {
            Some(n) => Some(n@),
            None => None::<Seq<char>>,
        }) == primary_after_spec(
            idx as nat,
            match primary {
                Some(n) => Some(n@),
                None => None,
            },
            match made {
                Some(n) => Some(n@),
                None => None,
            },
        ),
{
    if idx == 0 {
        made
    } else {
        primary
    }
}

/// The value sources of corners `0..n` when they are stepped in order and
/// corner `k` reports the dimension it made, `made[k]`.
pub open spec fn corner_values_stepped(made: Seq<Option<Seq<char>>>, n: nat) -> (Seq<CornerValue>, Option<Seq<char>>)
    decreases n,
{
    if n == 0 {
        (seq![], None)
    } else {
        let prev = corner_values_stepped(made, (n - 1) as nat);
        let k = (n - 1) as nat;
        (prev.0.push(corner_value_spec(k, prev.1)), primary_after_spec(k, prev.1, made[k as int]))
    }
}

/// Stepping several corners: the first uses the configured value; every
/// later one follows the first corner's dimension when the first made
/// one, and uses the configured value without expression otherwise,
/// whatever the later corners report.
pub proof fn lemma_corner_values(made: Seq<Option<Seq<char>>>, n: nat)
    requires
        n <= made.len(),
    ensures
        corner_values_stepped(made, n).0.len() == n,
        n > 0 ==> corner_values_stepped(made, n).0[0] == CornerValue::Configured,
        n > 0 ==> corner_values_stepped(made, n).1 == made[0],
        forall|k: int| 0 < k < n ==> #[trigger] corner_values_stepped(made, n).0[k] == (if made[0] is Some {
            CornerValue::FollowPrimary
        } else {
            CornerValue::ConfiguredPlain
        }),
    decreases n,
{
    if n > 0 {
        lemma_corner_values(made, (n - 1) as nat);
    }
}

} // verus!
