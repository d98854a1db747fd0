//! The mirror's structural side: which sources a mirror copies, and which
//! of their points are pinned by a symmetry constraint versus tied by a
//! recreated coincidence, walking the sources in order over the
//! coincidence groups of their points; and the constraints that then
//! hold the copies, with the line each is listed under.

use vstd::prelude::*;
use crate::meta::{
    endpoint_label, entity_exists, entity_of, label_text, name_or_empty, name_text, Entities, MetaEntity,
};
use crate::pattern::{
    copy_endpoint, find_placed, map_endpoint, placed_at, Endpoint, Slot, SourceShape, TieSource,
};
use crate::split::EndpointRef;
use crate::text::{chars_of, push_seq, push_str, string_of};

verus! {

/// The sources a mirror copies: the axis is dropped from the set (it
/// mirrors onto its own position); the axis and every source must exist
/// and something must be left.
pub open spec fn mirror_sources(ents: Entities, sources: Seq<MetaEntity>, axis: u32) -> Result<Seq<MetaEntity>, Seq<char>> {
    if entity_of(ents, MetaEntity::Line(axis)) is None {
        Err("mirror axis line does not exist"@)
    } else {
        let kept = sources.filter(|e: MetaEntity| e != MetaEntity::Line(axis));
        if kept.len() == 0 {
            Err("No lines, arcs, or points to mirror"@)
        } else {
            match first_missing(ents, kept) {
                Some(MetaEntity::Line(_)) => Err("mirror source line does not exist"@),
                Some(MetaEntity::Point(_)) => Err("mirror source point does not exist"@),
                Some(MetaEntity::Arc(_)) => Err("mirror source arc does not exist"@),
                None => Ok(kept),
            }
        }
    }
}

/// The first entity of `es` that does not exist.
pub open spec fn first_missing(ents: Entities, es: Seq<MetaEntity>) -> Option<MetaEntity>
    decreases es.len(),
{
    if es.len() == 0 {
        None
    } else if entity_of(ents, es[0]) is None {
        Some(es[0])
    } else {
        first_missing(ents, es.drop_first())
    }
}

/// Check a mirror's axis and sources (see [`mirror_sources`]): the sources
/// to copy, in order, or the message of the first check that fails.
pub fn check_mirror(ents: &Entities, sources: &Vec<MetaEntity>, axis: u32) -> (r: Result<Vec<MetaEntity>, String>)
    ensures
        r matches Ok(v) ==> mirror_sources(*ents, sources@, axis) == Ok::<Seq<MetaEntity>, Seq<char>>(v@),
        r matches Err(e) ==> mirror_sources(*ents, sources@, axis) == Err::<Seq<MetaEntity>, Seq<char>>(e@),
{
    if !entity_exists(ents, MetaEntity::Line(axis)) {
        return Err(string_of(&chars_of("mirror axis line does not exist")));
    }
    let ghost pred = |e: MetaEntity| e != MetaEntity::Line(axis);
    let mut kept: Vec<MetaEntity> = Vec::new();
    let mut i: usize = 0;
    while i < sources.len()
        invariant
            i <= sources@.len(),
            pred == (|e: MetaEntity| e != MetaEntity::Line(axis)),
            kept@ == sources@.take(i as int).filter(pred),
        decreases sources@.len() - i,
    {
        let e = sources[i];
        proof {
            assert(sources@.take(i + 1).drop_last() =~= sources@.take(i as int));
            assert(sources@.take(i + 1).last() == e);
            reveal(Seq::filter);
        }
        if e != MetaEntity::Line(axis) {
            kept.push(e);
        }
        i = i + 1;
    }
    assert(sources@.take(sources@.len() as int) =~= sources@);
    if kept.len() == 0 {
        return Err(string_of(&chars_of("No lines, arcs, or points to mirror")));
    }
    let mut k: usize = 0;
    assert(kept@.skip(0) =~= kept@);
    while k < kept.len()
        invariant
            k <= kept@.len(),
            first_missing(*ents, kept@) == first_missing(*ents, kept@.skip(k as int)),
            pred == (|e: MetaEntity| e != MetaEntity::Line(axis)),
            kept@ == sources@.filter(pred),
            kept@.len() > 0,
            entity_of(*ents, MetaEntity::Line(axis)) is Some,
        decreases kept@.len() - k,
    {
        assert(kept@.skip(k as int).drop_first() =~= kept@.skip(k + 1));
        let e = kept[k];
        if !entity_exists(ents, e) {
            return match e {
                MetaEntity::Line(_) => Err(string_of(&chars_of("mirror source line does not exist"))),
                MetaEntity::Point(_) => Err(string_of(&chars_of("mirror source point does not exist"))),
                MetaEntity::Arc(_) => Err(string_of(&chars_of("mirror source arc does not exist"))),
            };
        }
        k = k + 1;
    }
    assert(kept@.skip(k as int) =~= Seq::<MetaEntity>::empty());
    Ok(kept)
}

/// The constraints that hold a mirror's copies, in source-slot space:
/// ties recreate a coincidence between a copy point and the group's
/// already-placed point; each group's first point gets a symmetry; a
/// closed circle whose center group is new takes one arc symmetry
/// (`sym_aa`), and a closed arc whose center is tied keeps its radius by
/// an equal-radius constraint (`eq_radius`); both by source index.
pub struct MirrorStructure {
    pub ties: Vec<(Endpoint, Endpoint)>,
    pub syms: Vec<Endpoint>,
    pub sym_aa: Vec<usize>,
    pub eq_radius: Vec<usize>,
}

/// The walk's state: the structure so far and the points placed per
/// coincidence-group root.
pub struct MirrorWalk {
    pub ties: Seq<(Endpoint, Endpoint)>,
    pub syms: Seq<Endpoint>,
    pub sym_aa: Seq<usize>,
    pub eq_radius: Seq<usize>,
    pub placed: Seq<(usize, Endpoint)>,
}

/// A point of a source in group `root`: tied to the group's placed point,
/// or placed and given a symmetry.
pub open spec fn walk_slot(w: MirrorWalk, ep: Endpoint, root: usize) -> MirrorWalk {
    match placed_at(w.placed, root) {
        Some(o) => MirrorWalk { ties: w.ties.push((ep, o)), ..w },
        None => MirrorWalk { placed: w.placed.push((root, ep)), syms: w.syms.push(ep), ..w },
    }
}

/// The walk over source `i`.
pub open spec fn walk_step(w: MirrorWalk, i: usize, src: TieSource) -> MirrorWalk {
    match src.shape {
        SourceShape::Line => walk_slot(
            walk_slot(w, Endpoint { source: i, slot: Slot::LineP1 }, src.root_a),
            Endpoint { source: i, slot: Slot::LineP2 },
            src.root_b,
        ),
        SourceShape::Point => walk_slot(w, Endpoint { source: i, slot: Slot::Point }, src.root_a),
        SourceShape::Arc { closed, ellipse } => {
            let c = Endpoint { source: i, slot: Slot::ArcCenter };
            if closed && !ellipse {
                match placed_at(w.placed, src.root_a) {
                    Some(o) => MirrorWalk { ties: w.ties.push((c, o)), eq_radius: w.eq_radius.push(i), ..w },
                    None => MirrorWalk { placed: w.placed.push((src.root_a, c)), sym_aa: w.sym_aa.push(i), ..w },
                }
            } else {
                let w1 = walk_slot(w, c, src.root_a);
                if closed {
                    MirrorWalk { eq_radius: w1.eq_radius.push(i), ..w1 }
                } else {
                    walk_slot(
                        walk_slot(w1, Endpoint { source: i, slot: Slot::ArcStart }, src.root_b),
                        Endpoint { source: i, slot: Slot::ArcEnd },
                        src.root_c,
                    )
                }
            }
        },
    }
}

/// The walk over the first `k` sources.
pub open spec fn mirror_walk(sources: Seq<TieSource>, k: nat) -> MirrorWalk
    decreases k,
{
    if k == 0 || k > sources.len() {
        MirrorWalk { ties: seq![], syms: seq![], sym_aa: seq![], eq_radius: seq![], placed: seq![] }
    } else {
        walk_step(mirror_walk(sources, (k - 1) as nat), (k - 1) as usize, sources[k - 1])
    }
}

struct Walk {
    ties: Vec<(Endpoint, Endpoint)>,
    syms: Vec<Endpoint>,
    sym_aa: Vec<usize>,
    eq_radius: Vec<usize>,
    placed: Vec<(usize, Endpoint)>,
}

impl View for Walk {
    type V = MirrorWalk;

    closed spec fn view(&self) -> MirrorWalk {
        MirrorWalk { ties: self.ties@, syms: self.syms@, sym_aa: self.sym_aa@, eq_radius: self.eq_radius@, placed: self.placed@ }
    }
}

fn slot(w: &mut Walk, ep: Endpoint, root: usize)
    ensures
        final(w)@ == walk_slot(old(w)@, ep, root),
{
    match find_placed(&w.placed, root) {
        Some(o) => w.ties.push((ep, o)),
        None => {
            w.placed.push((root, ep));
            w.syms.push(ep);
        },
    }
}

fn step(w: &mut Walk, i: usize, src: TieSource)
    ensures
        final(w)@ == walk_step(old(w)@, i, src),
{
    match src.shape {
        SourceShape::Line => {
            slot(w, Endpoint { source: i, slot: Slot::LineP1 }, src.root_a);
            slot(w, Endpoint { source: i, slot: Slot::LineP2 }, src.root_b);
        },
        SourceShape::Point => slot(w, Endpoint { source: i, slot: Slot::Point }, src.root_a),
        SourceShape::Arc { closed, ellipse } => {
            let c = Endpoint { source: i, slot: Slot::ArcCenter };
            if closed && !ellipse {
                match find_placed(&w.placed, src.root_a) {
                    Some(o) => {
                        w.ties.push((c, o));
                        w.eq_radius.push(i);
                    },
                    None => {
                        w.placed.push((src.root_a, c));
                        w.sym_aa.push(i);
                    },
                }
            } else {
                slot(w, c, src.root_a);
                if closed {
                    w.eq_radius.push(i);
                } else {
                    slot(w, Endpoint { source: i, slot: Slot::ArcStart }, src.root_b);
                    slot(w, Endpoint { source: i, slot: Slot::ArcEnd }, src.root_c);
                }
            }
        },
    }
}

/// The structural decision of a mirror (see [`walk_step`]): walking the
/// sources in order, the first point of each coincidence group is pinned
/// by symmetry and every later one tied to it. With `noconstraint` the
/// copies are bare and nothing is planned.
pub fn mirror_structure(sources: &Vec<TieSource>, noconstraint: bool) -> (r: MirrorStructure)
    ensures
        noconstraint ==> r.ties@.len() == 0 && r.syms@.len() == 0 && r.sym_aa@.len() == 0 && r.eq_radius@.len() == 0,
        !noconstraint ==> ({
            let w = mirror_walk(sources@, sources@.len());
            r.ties@ == w.ties && r.syms@ == w.syms && r.sym_aa@ == w.sym_aa && r.eq_radius@ == w.eq_radius
        }),
{
    let mut w = Walk { ties: Vec::new(), syms: Vec::new(), sym_aa: Vec::new(), eq_radius: Vec::new(), placed: Vec::new() };
    if !noconstraint {
        let mut k: usize = 0;
        assert(w@ == mirror_walk(sources@, 0));
        while k < sources.len()
            invariant
                k <= sources@.len(),
                w@ == mirror_walk(sources@, k as nat),
            decreases sources@.len() - k,
        {
            step(&mut w, k, sources[k]);
            k = k + 1;
        }
    }
    MirrorStructure { ties: w.ties, syms: w.syms, sym_aa: w.sym_aa, eq_radius: w.eq_radius }
}

// ---------------------------------------------------------------------------
// The constraints that hold the copies
// ---------------------------------------------------------------------------

/// A constraint a mirror adds once its copies exist.
#[derive(Clone, Copy, PartialEq, Eq, Structural, Debug)]
pub enum MirrorConstraint {
    /// A recreated coincidence between two copy points.
    Coincident(EndpointRef, EndpointRef),
    /// Two copied circle centers in one group: concentric.
    Concentric(u32, u32),
    /// A source point and its copy, symmetric about the axis line.
    SymmetryPoints { point: EndpointRef, axis: u32, image: EndpointRef },
    /// A source circle and its copy, symmetric about the axis line.
    SymmetryArcs { arc: u32, axis: u32, image_arc: u32 },
    /// A source arc and its copy keep one radius.
    EqualRadius(u32, u32),
}

/// Whether a point reference is a line end.
pub open spec fn is_line_end(ep: EndpointRef) -> bool {
    ep is LineP1 || ep is LineP2
}

/// The error of a tie or symmetry point outside the sources.
pub open spec fn outside_error() -> Seq<char> {
    "Internal: mirror tie outside the source set"@
}

/// The constraint recreating a coincidence tie on the copies, listed as
/// `coincident a=b` between two line ends and `coincident a b`
/// otherwise. `has_coincident` says whether a coincidence exists between
/// the two copy points; where none does, two circle centers are made
/// concentric.
pub open spec fn tie_step(
    ents: Entities,
    sources: Seq<MetaEntity>,
    copies: Seq<MetaEntity>,
    tie: (EndpointRef, EndpointRef),
    has_coincident: bool,
) -> Result<(MirrorConstraint, Seq<char>), Seq<char>> {
    match (copy_endpoint(tie.0, sources, copies), copy_endpoint(tie.1, sources, copies)) {
        (Some(ca), Some(cb)) => {
            let c = if has_coincident {
                Some(MirrorConstraint::Coincident(ca, cb))
            } else {
                match (ca, cb) {
                    (EndpointRef::ArcCenter(x), EndpointRef::ArcCenter(y)) => Some(MirrorConstraint::Concentric(x, y)),
                    _ => None,
                }
            };
            match c {
                Some(c) => Ok(
                    (
                        c,
                        "coincident "@ + endpoint_label(ents, ca) + (if is_line_end(ca) && is_line_end(cb) {
                            "="@
                        } else {
                            " "@
                        }) + endpoint_label(ents, cb),
                    ),
                ),
                None => Err("Internal: no coincident action for a mirror tie"@),
            }
        },
        _ => Err(outside_error()),
    }
}

/// The symmetry between a source point and its copy about the axis.
pub open spec fn sym_step(ents: Entities, sources: Seq<MetaEntity>, copies: Seq<MetaEntity>, ep: EndpointRef, axis: u32) -> Result<(MirrorConstraint, Seq<char>), Seq<char>> {
    match copy_endpoint(ep, sources, copies) {
        Some(cp) => Ok(
            (
                MirrorConstraint::SymmetryPoints { point: ep, axis, image: cp },
                "symmetry "@ + endpoint_label(ents, ep) + " "@ + name_or_empty(ents, MetaEntity::Line(axis)) + " "@
                    + endpoint_label(ents, cp),
            ),
        ),
        None => Err(outside_error()),
    }
}

/// The symmetry between source circle `i` and its copy about the axis.
pub open spec fn sym_arc_step(ents: Entities, sources: Seq<MetaEntity>, copies: Seq<MetaEntity>, i: int, axis: u32) -> Result<(MirrorConstraint, Seq<char>), Seq<char>> {
    match (sources[i], copies[i]) {
        (MetaEntity::Arc(a), MetaEntity::Arc(c)) => Ok(
            (
                MirrorConstraint::SymmetryArcs { arc: a, axis, image_arc: c },
                "symmetry "@ + name_or_empty(ents, MetaEntity::Arc(a)) + " "@ + name_or_empty(ents, MetaEntity::Line(axis))
                    + " "@ + name_or_empty(ents, MetaEntity::Arc(c)),
            ),
        ),
        _ => Err("Internal: arc-symmetry entry on a non-arc"@),
    }
}

/// The equal radius of source arc `i` and its copy.
pub open spec fn equal_radius_step(ents: Entities, sources: Seq<MetaEntity>, copies: Seq<MetaEntity>, i: int) -> Result<(MirrorConstraint, Seq<char>), Seq<char>> {
    match (sources[i], copies[i]) {
        (MetaEntity::Arc(a), MetaEntity::Arc(c)) => Ok(
            (
                MirrorConstraint::EqualRadius(a, c),
                "equal radius "@ + name_or_empty(ents, MetaEntity::Arc(a)) + " "@ + name_or_empty(ents, MetaEntity::Arc(c)),
            ),
        ),
        _ => Err("Internal: equal-radius entry on a non-arc"@),
    }
}

/// The steps in order, up to the first failure: the failure's error, or
/// every step's value.
pub open spec fn collect_steps<T>(steps: Seq<Result<T, Seq<char>>>) -> Result<Seq<T>, Seq<char>>
    decreases steps.len(),
{
    if steps.len() == 0 {
        Ok(seq![])
    } else {
        match collect_steps(steps.drop_last()) {
            Err(e) => Err(e),
            Ok(v) => match steps.last() {
                Ok(t) => Ok(v.push(t)),
                Err(e) => Err(e),
            },
        }
    }
}

proof fn lemma_collect_err<T>(steps: Seq<Result<T, Seq<char>>>, i: int)
    requires
        0 <= i < steps.len(),
        collect_steps(steps.take(i)) is Ok,
        steps[i] is Err,
    ensures
        collect_steps(steps) == Err::<Seq<T>, Seq<char>>(steps[i]->Err_0),
    decreases steps.len(),
{
    if steps.len() > i + 1 {
        assert(steps.drop_last().take(i) =~= steps.take(i));
        lemma_collect_err(steps.drop_last(), i);
    } else {
        assert(steps.drop_last() =~= steps.take(i));
    }
}

/// Every constraint step of a mirror, in the order they are run: the
/// recreated coincidences first (they merge the free copies), then one
/// symmetry per coincidence group, then the circles' symmetries and the
/// closed arcs' radii.
pub open spec fn mirror_steps(
    ents: Entities,
    ties: Seq<(EndpointRef, EndpointRef)>,
    has_coincident: Seq<bool>,
    syms: Seq<EndpointRef>,
    sym_aa: Seq<usize>,
    eq_radius: Seq<usize>,
    sources: Seq<MetaEntity>,
    copies: Seq<MetaEntity>,
    axis: u32,
) -> Seq<Result<(MirrorConstraint, Seq<char>), Seq<char>>> {
    Seq::new(ties.len(), |i: int| tie_step(ents, sources, copies, ties[i], has_coincident[i])) + Seq::new(
        syms.len(),
        |i: int| sym_step(ents, sources, copies, syms[i], axis),
    ) + Seq::new(sym_aa.len(), |i: int| sym_arc_step(ents, sources, copies, sym_aa[i] as int, axis)) + Seq::new(
        eq_radius.len(),
        |i: int| equal_radius_step(ents, sources, copies, eq_radius[i] as int),
    )
}

/// The views of listed constraints.
pub open spec fn listed_views(v: Seq<(MirrorConstraint, String)>) -> Seq<(MirrorConstraint, Seq<char>)> {
    v.map_values(|p: (MirrorConstraint, String)| (p.0, p.1@))
}

fn tie_text(ents: &Entities, sources: &Vec<MetaEntity>, copies: &Vec<MetaEntity>, tie: (EndpointRef, EndpointRef), has_coincident: bool) -> (r: Result<(MirrorConstraint, String), String>)
    requires
        copies@.len() == sources@.len(),
    ensures
        r matches Ok(p) ==> tie_step(*ents, sources@, copies@, tie, has_coincident) == Ok::<(MirrorConstraint, Seq<char>), Seq<char>>((p.0, p.1@)),
        r matches Err(e) ==> tie_step(*ents, sources@, copies@, tie, has_coincident) == Err::<(MirrorConstraint, Seq<char>), Seq<char>>(e@),
{
    let ca = match map_endpoint(tie.0, sources, copies) {
        Some(c) => c,
        None => return Err(string_of(&chars_of("Internal: mirror tie outside the source set"))),
    };
    let cb = match map_endpoint(tie.1, sources, copies) {
        Some(c) => c,
        None => return Err(string_of(&chars_of("Internal: mirror tie outside the source set"))),
    };
    let c = if has_coincident {
        MirrorConstraint::Coincident(ca, cb)
    } else {
        match (ca, cb) {
            (EndpointRef::ArcCenter(x), EndpointRef::ArcCenter(y)) => MirrorConstraint::Concentric(x, y),
            _ => return Err(string_of(&chars_of("Internal: no coincident action for a mirror tie"))),
        }
    };
    let line_ends = match (ca, cb) {
        (EndpointRef::LineP1(_), EndpointRef::LineP1(_)) | (EndpointRef::LineP1(_), EndpointRef::LineP2(_))
        | (EndpointRef::LineP2(_), EndpointRef::LineP1(_)) | (EndpointRef::LineP2(_), EndpointRef::LineP2(_)) => true,
        _ => false,
    };
    let mut d = chars_of("coincident ");
    let la = label_text(ents, ca);
    push_seq(&mut d, &la);
    if line_ends {
        push_str(&mut d, "=");
    } else {
        push_str(&mut d, " ");
    }
    let lb = label_text(ents, cb);
    push_seq(&mut d, &lb);
    Ok((c, string_of(&d)))
}

fn sym_text(ents: &Entities, sources: &Vec<MetaEntity>, copies: &Vec<MetaEntity>, ep: EndpointRef, axis: u32) -> (r: Result<(MirrorConstraint, String), String>)
    requires
        copies@.len() == sources@.len(),
    ensures
        r matches Ok(p) ==> sym_step(*ents, sources@, copies@, ep, axis) == Ok::<(MirrorConstraint, Seq<char>), Seq<char>>((p.0, p.1@)),
        r matches Err(e) ==> sym_step(*ents, sources@, copies@, ep, axis) == Err::<(MirrorConstraint, Seq<char>), Seq<char>>(e@),
{
    let cp = match map_endpoint(ep, sources, copies) {
        Some(c) => c,
        None => return Err(string_of(&chars_of("Internal: mirror tie outside the source set"))),
    };
    let mut d = chars_of("symmetry ");
    let la = label_text(ents, ep);
    push_seq(&mut d, &la);
    push_str(&mut d, " ");
    let ax = name_text(ents, MetaEntity::Line(axis));
    push_seq(&mut d, &ax);
    push_str(&mut d, " ");
    let lc = label_text(ents, cp);
    push_seq(&mut d, &lc);
    Ok((MirrorConstraint::SymmetryPoints { point: ep, axis, image: cp }, string_of(&d)))
}

fn arc_pair_text(ents: &Entities, sources: &Vec<MetaEntity>, copies: &Vec<MetaEntity>, i: usize, axis: u32, symmetric: bool) -> (r: Result<(MirrorConstraint, String), String>)
    requires
        copies@.len() == sources@.len(),
        i < sources@.len(),
    ensures
        r matches Ok(p) ==> (if symmetric {
            sym_arc_step(*ents, sources@, copies@, i as int, axis)
        } else {
            equal_radius_step(*ents, sources@, copies@, i as int)
        }) == Ok::<(MirrorConstraint, Seq<char>), Seq<char>>((p.0, p.1@)),
        r matches Err(e) ==> (if symmetric {
            sym_arc_step(*ents, sources@, copies@, i as int, axis)
        } else {
            equal_radius_step(*ents, sources@, copies@, i as int)
        }) == Err::<(MirrorConstraint, Seq<char>), Seq<char>>(e@),
{
    match (sources[i], copies[i]) {
        (MetaEntity::Arc(a), MetaEntity::Arc(c)) => {
            let na = name_text(ents, MetaEntity::Arc(a));
            let nc = name_text(ents, MetaEntity::Arc(c));
            if symmetric {
                let mut d = chars_of("symmetry ");
                push_seq(&mut d, &na);
                push_str(&mut d, " ");
                let ax = name_text(ents, MetaEntity::Line(axis));
                push_seq(&mut d, &ax);
                push_str(&mut d, " ");
                push_seq(&mut d, &nc);
                Ok((MirrorConstraint::SymmetryArcs { arc: a, axis, image_arc: c }, string_of(&d)))
            } else {
                let mut d = chars_of("equal radius ");
                push_seq(&mut d, &na);
                push_str(&mut d, " ");
                push_seq(&mut d, &nc);
                Ok((MirrorConstraint::EqualRadius(a, c), string_of(&d)))
            }
        },
        _ => if symmetric {
            Err(string_of(&chars_of("Internal: arc-symmetry entry on a non-arc")))
        } else {
            Err(string_of(&chars_of("Internal: equal-radius entry on a non-arc")))
        },
    }
}

/// The constraints that hold a mirror's copies, each with the line it is
/// listed under, in the order they are run (see [`mirror_steps`]); the
/// first step that cannot be made fails the whole. `has_coincident[k]`
/// says whether a coincidence exists between the copy points of tie `k`;
/// `copies[i]` is the copy of `sources[i]`; `sym_aa` and `eq_radius` hold
/// source indices.
pub fn mirror_constraint_steps(
    ents: &Entities,
    ties: &Vec<(EndpointRef, EndpointRef)>,
    has_coincident: &Vec<bool>,
    syms: &Vec<EndpointRef>,
    sym_aa: &Vec<usize>,
    eq_radius: &Vec<usize>,
    sources: &Vec<MetaEntity>,
    copies: &Vec<MetaEntity>,
    axis: u32,
) -> (r: Result<Vec<(MirrorConstraint, String)>, String>)
    requires
        has_coincident@.len() == ties@.len(),
        copies@.len() == sources@.len(),
        forall|i: int| 0 <= i < sym_aa@.len() ==> #[trigger] sym_aa@[i] < sources@.len(),
        forall|i: int| 0 <= i < eq_radius@.len() ==> #[trigger] eq_radius@[i] < sources@.len(),
        ties@.len() + syms@.len() + sym_aa@.len() + eq_radius@.len() <= usize::MAX,
    ensures
        r matches Ok(v) ==> collect_steps(
            mirror_steps(*ents, ties@, has_coincident@, syms@, sym_aa@, eq_radius@, sources@, copies@, axis),
        ) == Ok::<Seq<(MirrorConstraint, Seq<char>)>, Seq<char>>(listed_views(v@)),
        r matches Err(e) ==> collect_steps(
            mirror_steps(*ents, ties@, has_coincident@, syms@, sym_aa@, eq_radius@, sources@, copies@, axis),
        ) == Err::<Seq<(MirrorConstraint, Seq<char>)>, Seq<char>>(e@),
{
    let ghost all = mirror_steps(*ents, ties@, has_coincident@, syms@, sym_aa@, eq_radius@, sources@, copies@, axis);
    let n1 = ties.len();
    let n2 = syms.len();
    let n3 = sym_aa.len();
    let n4 = eq_radius.len();
    let mut out: Vec<(MirrorConstraint, String)> = Vec::new();
    let mut pos: usize = 0;
    assert(all.take(0) =~= Seq::<Result<(MirrorConstraint, Seq<char>), Seq<char>>>::empty());
    assert(listed_views(out@) =~= Seq::<(MirrorConstraint, Seq<char>)>::empty());
    let mut stage: usize = 0;
    while stage < 4
        invariant
            stage <= 4,
            all == mirror_steps(*ents, ties@, has_coincident@, syms@, sym_aa@, eq_radius@, sources@, copies@, axis),
            all.len() == n1 + n2 + n3 + n4,
            n1 + n2 + n3 + n4 <= usize::MAX,
            n1 == ties@.len(),
            n2 == syms@.len(),
            n3 == sym_aa@.len(),
            n4 == eq_radius@.len(),
            has_coincident@.len() == ties@.len(),
            copies@.len() == sources@.len(),
            forall|i: int| 0 <= i < sym_aa@.len() ==> #[trigger] sym_aa@[i] < sources@.len(),
            forall|i: int| 0 <= i < eq_radius@.len() ==> #[trigger] eq_radius@[i] < sources@.len(),
            pos as int == (if stage == 0 { 0int } else if stage == 1 { n1 as int } else if stage == 2 { n1 + n2 } else if stage == 3 { n1 + n2 + n3 } else { n1 + n2 + n3 + n4 }),
            collect_steps(all.take(pos as int)) == Ok::<Seq<(MirrorConstraint, Seq<char>)>, Seq<char>>(listed_views(out@)),
        decreases 4 - stage,
    {
        let count = if stage == 0 { n1 } else if stage == 1 { n2 } else if stage == 2 { n3 } else { n4 };
        let base = pos;
        let mut i: usize = 0;
        while i < count
            invariant
                stage < 4,
                all == mirror_steps(*ents, ties@, has_coincident@, syms@, sym_aa@, eq_radius@, sources@, copies@, axis),
                all.len() == n1 + n2 + n3 + n4,
                n1 + n2 + n3 + n4 <= usize::MAX,
                n1 == ties@.len(),
                n2 == syms@.len(),
                n3 == sym_aa@.len(),
                n4 == eq_radius@.len(),
                has_coincident@.len() == ties@.len(),
                copies@.len() == sources@.len(),
                forall|k: int| 0 <= k < sym_aa@.len() ==> #[trigger] sym_aa@[k] < sources@.len(),
                forall|k: int| 0 <= k < eq_radius@.len() ==> #[trigger] eq_radius@[k] < sources@.len(),
                count == (if stage == 0 { n1 } else if stage == 1 { n2 } else if stage == 2 { n3 } else { n4 }),
                base as int == (if stage == 0 { 0int } else if stage == 1 { n1 as int } else if stage == 2 { n1 + n2 } else { n1 + n2 + n3 }),
                i <= count,
                pos == base + i,
                collect_steps(all.take(pos as int)) == Ok::<Seq<(MirrorConstraint, Seq<char>)>, Seq<char>>(listed_views(out@)),
            decreases count - i,
        {
            let step = if stage == 0 {
                tie_text(ents, sources, copies, ties[i], has_coincident[i])
            } else if stage == 1 {
                sym_text(ents, sources, copies, syms[i], axis)
            } else if stage == 2 {
                arc_pair_text(ents, sources, copies, sym_aa[i], axis, true)
            } else {
                arc_pair_text(ents, sources, copies, eq_radius[i], axis, false)
            };
            proof {
                assert(all.take(pos + 1).drop_last() =~= all.take(pos as int));
            }
            match step {
                Ok(p) => {
                    let ghost before = listed_views(out@);
                    out.push(p);
                    assert(listed_views(out@) =~= before.push((p.0, p.1@)));
                },
                Err(e) => {
                    proof {
                        lemma_collect_err(all, pos as int);
                    }
                    return Err(e);
                },
            }
            i = i + 1;
            pos = pos + 1;
        }
        stage = stage + 1;
    }
    assert(all.take(pos as int) =~= all);
    Ok(out)
}

} // verus!
