//! The structural side of split/trim: which piece owns what after a
//! target line or arc is cut, which follow-up constraints join and pin
//! the pieces, and how expressions naming the target are rewritten.
//!
//! Entities are identified by their handle in the sketch (the raw value
//! of the solver's `Ref`).

use vstd::prelude::*;
use crate::text::{chars_of, push_seq, push_str, string_of};

verus! {

/// The line or arc being split.
#[derive(Clone, Copy, PartialEq, Eq, Structural, Debug)]
pub enum SplitTarget {
    Line(u32),
    Arc(u32),
}

/// Entity a cut was found on, kept so the cut endpoint can be pinned onto
/// it afterwards.
#[derive(Clone, Copy, PartialEq, Eq, Structural, Debug)]
pub enum Cutter {
    Line(u32),
    Arc(u32),
}

/// A piece the split created.
#[derive(Clone, Copy, PartialEq, Eq, Structural, Debug)]
pub enum PieceRef {
    Line(u32),
    Arc(u32),
}

impl PieceRef {
    pub fn line(self) -> (r: Option<u32>)
        ensures
            r == (match self {
                PieceRef::Line(l) => Some(l),
                PieceRef::Arc(_) => None::<u32>,
            }),
    {
        if let PieceRef::Line(r) = self { Some(r) } else { None }
    }

    pub fn arc(self) -> (r: Option<u32>)
        ensures
            r == (match self {
                PieceRef::Arc(a) => Some(a),
                PieceRef::Line(_) => None::<u32>,
            }),
    {
        if let PieceRef::Arc(r) = self { Some(r) } else { None }
    }
}

/// A point a dimension or constraint refers to.
#[derive(Clone, Copy, PartialEq, Eq, Structural, Debug)]
pub enum EndpointRef {
    Point(u32),
    LineP1(u32),
    LineP2(u32),
    ArcCenter(u32),
    ArcStart(u32),
    ArcEnd(u32),
}

/// The number of pieces cutting at `ncuts` places makes: one more than the
/// cuts for an open target, as many for a closed one.
pub fn piece_count(closed: bool, ncuts: usize) -> (n: usize)
    requires
        ncuts < usize::MAX,
    ensures
        n == (if closed { ncuts as int } else { ncuts + 1 }),
{
    if closed { ncuts } else { ncuts + 1 }
}

// ---------------------------------------------------------------------------
// Piece lookups
// ---------------------------------------------------------------------------

/// The first kept piece.
pub open spec fn first_kept(p: Seq<Option<PieceRef>>) -> Option<PieceRef>
    decreases p.len(),
{
    if p.len() == 0 {
        None
    } else if p[0] is Some {
        p[0]
    } else {
        first_kept(p.drop_first())
    }
}

/// Searching outward from `i` at distance `d` and more, the lower index
/// first: the nearest kept piece.
pub open spec fn nearest_from(p: Seq<Option<PieceRef>>, i: int, d: nat) -> Option<PieceRef>
    decreases p.len() - d,
{
    if d >= p.len() {
        None
    } else if i >= d && p[i - d] is Some {
        p[i - d]
    } else if i + d < p.len() && p[i + d] is Some {
        p[i + d]
    } else {
        nearest_from(p, i, d + 1)
    }
}

/// Piece at `i` if kept, else the nearest kept piece by index.
pub open spec fn at_or_nearest(p: Seq<Option<PieceRef>>, i: int) -> Option<PieceRef> {
    if p[i] is Some {
        p[i]
    } else {
        nearest_from(p, i, 1)
    }
}

/// The first kept piece.
pub fn first_kept_piece(pieces: &Vec<Option<PieceRef>>) -> (r: Option<PieceRef>)
    ensures
        r == first_kept(pieces@),
{
    let mut i: usize = 0;
    assert(pieces@.skip(0) =~= pieces@);
    while i < pieces.len()
        invariant
            i <= pieces@.len(),
            first_kept(pieces@) == first_kept(pieces@.skip(i as int)),
        decreases pieces@.len() - i,
    {
        let ghost t = pieces@.skip(i as int);
        assert(t.drop_first() =~= pieces@.skip(i + 1));
        if pieces[i].is_some() {
            return pieces[i];
        }
        i = i + 1;
    }
    None
}

/// Piece at `i` if kept, else the nearest kept piece by index (the lower
/// one when two are as near).
pub fn piece_at_or_nearest(pieces: &Vec<Option<PieceRef>>, i: usize) -> (r: Option<PieceRef>)
    requires
        i < pieces@.len(),
    ensures
        r == at_or_nearest(pieces@, i as int),
{
    if pieces[i].is_some() {
        return pieces[i];
    }
    let n = pieces.len();
    let mut d: usize = 1;
    while d < n
        invariant
            n == pieces@.len(),
            i < n,
            1 <= d,
            pieces@[i as int] is None,
            nearest_from(pieces@, i as int, d as nat) == at_or_nearest(pieces@, i as int),
        decreases n - d,
    {
        if i >= d && pieces[i - d].is_some() {
            return pieces[i - d];
        }
        if d < n - i && pieces[i + d].is_some() {
            return pieces[i + d];
        }
        d = d + 1;
    }
    None
}

/// Whether no piece was trimmed away.
pub fn all_kept(pieces: &Vec<Option<PieceRef>>) -> (b: bool)
    ensures
        b == (forall|j: int| 0 <= j < pieces@.len() ==> (#[trigger] pieces@[j]) is Some),
{
    let mut i: usize = 0;
    while i < pieces.len()
        invariant
            i <= pieces@.len(),
            forall|j: int| 0 <= j < i ==> (#[trigger] pieces@[j]) is Some,
        decreases pieces@.len() - i,
    {
        if pieces[i].is_none() {
            return false;
        }
        i = i + 1;
    }
    true
}

/// A target point on the piece that now carries it: the start on the first
/// piece, the end on the last, an arc's center on the first kept piece;
/// other points are unchanged. `Err` when that piece was trimmed away.
pub open spec fn map_endpoint_spec(ep: EndpointRef, target: SplitTarget, p: Seq<Option<PieceRef>>) -> Result<EndpointRef, ()> {
    match (ep, target) {
        (EndpointRef::LineP1(l), SplitTarget::Line(t)) if l == t => match p[0] {
            Some(PieceRef::Line(r)) => Ok(EndpointRef::LineP1(r)),
            _ => Err(()),
        },
        (EndpointRef::LineP2(l), SplitTarget::Line(t)) if l == t => match p.last() {
            Some(PieceRef::Line(r)) => Ok(EndpointRef::LineP2(r)),
            _ => Err(()),
        },
        (EndpointRef::ArcCenter(a), SplitTarget::Arc(t)) if a == t => match first_kept(p) {
            Some(PieceRef::Arc(r)) => Ok(EndpointRef::ArcCenter(r)),
            _ => Err(()),
        },
        (EndpointRef::ArcStart(a), SplitTarget::Arc(t)) if a == t => match p[0] {
            Some(PieceRef::Arc(r)) => Ok(EndpointRef::ArcStart(r)),
            _ => Err(()),
        },
        (EndpointRef::ArcEnd(a), SplitTarget::Arc(t)) if a == t => match p.last() {
            Some(PieceRef::Arc(r)) => Ok(EndpointRef::ArcEnd(r)),
            _ => Err(()),
        },
        _ => Ok(ep),
    }
}

/// Move a point of the target onto the piece that carries it now.
pub fn map_endpoint(ep: EndpointRef, target: SplitTarget, pieces: &Vec<Option<PieceRef>>) -> (r: Result<EndpointRef, ()>)
    requires
        pieces@.len() > 0,
    ensures
        r == map_endpoint_spec(ep, target, pieces@),
{
    let n = pieces.len();
    match (ep, target) {
        (EndpointRef::LineP1(l), SplitTarget::Line(t)) if l == t => match pieces[0] {
            Some(PieceRef::Line(r)) => Ok(EndpointRef::LineP1(r)),
            _ => Err(()),
        },
        (EndpointRef::LineP2(l), SplitTarget::Line(t)) if l == t => match pieces[n - 1] {
            Some(PieceRef::Line(r)) => Ok(EndpointRef::LineP2(r)),
            _ => Err(()),
        },
        (EndpointRef::ArcCenter(a), SplitTarget::Arc(t)) if a == t => match first_kept_piece(pieces) {
            Some(PieceRef::Arc(r)) => Ok(EndpointRef::ArcCenter(r)),
            _ => Err(()),
        },
        (EndpointRef::ArcStart(a), SplitTarget::Arc(t)) if a == t => match pieces[0] {
            Some(PieceRef::Arc(r)) => Ok(EndpointRef::ArcStart(r)),
            _ => Err(()),
        },
        (EndpointRef::ArcEnd(a), SplitTarget::Arc(t)) if a == t => match pieces[n - 1] {
            Some(PieceRef::Arc(r)) => Ok(EndpointRef::ArcEnd(r)),
            _ => Err(()),
        },
        _ => Ok(ep),
    }
}

// ---------------------------------------------------------------------------
// Follow-up constraints
// ---------------------------------------------------------------------------

/// A constraint the split adds after creating the pieces. Each goes
/// through the ordinary redundancy gate; a rejection means it is already
/// implied.
#[derive(Clone, Copy, PartialEq, Eq, Structural, Debug)]
pub enum FollowUp {
    /// `a.p2` coincident with `b.p1`.
    CoincidentLL21 { a: u32, b: u32 },
    /// Arc `a`'s end coincident with arc `b`'s start.
    CoincidentArcEndStart { a: u32, b: u32 },
    Concentric { a: u32, b: u32 },
    /// Line `a`'s p2 on line `b`.
    LineP2OnLine { a: u32, b: u32 },
    LineP2OnArc { line: u32, arc: u32 },
    /// Line `a`'s p1 on line `b`.
    LineP1OnLine { a: u32, b: u32 },
    LineP1OnArc { line: u32, arc: u32 },
    EndpointOnLine { endpoint: EndpointRef, line: u32 },
    EndpointOnArc { endpoint: EndpointRef, arc: u32 },
}

/// The pieces meeting at cut `ci`: on a closed target the cut joins the
/// piece before it (cyclically) to piece `ci`; on an open one piece `ci`
/// to piece `ci + 1`.
pub open spec fn cut_sides(closed: bool, n: nat, ci: nat) -> (nat, nat) {
    if closed {
        (((ci + n - 1) % (n as int)) as nat, ci)
    } else {
        (ci, ci + 1)
    }
}

/// The pin of the surviving endpoint at a cut onto the cutter: the left
/// piece's end when it is kept, else the right piece's start.
pub open spec fn pin_action(left: Option<PieceRef>, right: Option<PieceRef>, cutter: Cutter) -> Option<FollowUp> {
    match (left, right, cutter) {
        (Some(PieceRef::Line(a)), _, Cutter::Line(b)) => Some(FollowUp::LineP2OnLine { a, b }),
        (Some(PieceRef::Line(line)), _, Cutter::Arc(arc)) => Some(FollowUp::LineP2OnArc { line, arc }),
        (Some(PieceRef::Arc(a)), _, Cutter::Line(line)) => Some(
            FollowUp::EndpointOnLine { endpoint: EndpointRef::ArcEnd(a), line },
        ),
        (Some(PieceRef::Arc(a)), _, Cutter::Arc(arc)) => Some(
            FollowUp::EndpointOnArc { endpoint: EndpointRef::ArcEnd(a), arc },
        ),
        (None, Some(PieceRef::Line(a)), Cutter::Line(b)) => Some(FollowUp::LineP1OnLine { a, b }),
        (None, Some(PieceRef::Line(line)), Cutter::Arc(arc)) => Some(FollowUp::LineP1OnArc { line, arc }),
        (None, Some(PieceRef::Arc(a)), Cutter::Line(line)) => Some(
            FollowUp::EndpointOnLine { endpoint: EndpointRef::ArcStart(a), line },
        ),
        (None, Some(PieceRef::Arc(a)), Cutter::Arc(arc)) => Some(
            FollowUp::EndpointOnArc { endpoint: EndpointRef::ArcStart(a), arc },
        ),
        (None, None, _) => None,
    }
}

/// What a pin follow-up holds: the endpoint placed, and the cutter it is
/// placed on; none for the joins.
pub open spec fn pinned(f: FollowUp) -> Option<(EndpointRef, Cutter)> {
    match f {
        FollowUp::LineP2OnLine { a, b } => Some((EndpointRef::LineP2(a), Cutter::Line(b))),
        FollowUp::LineP2OnArc { line, arc } => Some((EndpointRef::LineP2(line), Cutter::Arc(arc))),
        FollowUp::LineP1OnLine { a, b } => Some((EndpointRef::LineP1(a), Cutter::Line(b))),
        FollowUp::LineP1OnArc { line, arc } => Some((EndpointRef::LineP1(line), Cutter::Arc(arc))),
        FollowUp::EndpointOnLine { endpoint, line } => Some((endpoint, Cutter::Line(line))),
        FollowUp::EndpointOnArc { endpoint, arc } => Some((endpoint, Cutter::Arc(arc))),
        _ => None,
    }
}

/// The end of a piece: a line's p2, an arc's end.
pub open spec fn piece_end(p: PieceRef) -> EndpointRef {
    match p {
        PieceRef::Line(l) => EndpointRef::LineP2(l),
        PieceRef::Arc(a) => EndpointRef::ArcEnd(a),
    }
}

/// The start of a piece: a line's p1, an arc's start.
pub open spec fn piece_start(p: PieceRef) -> EndpointRef {
    match p {
        PieceRef::Line(l) => EndpointRef::LineP1(l),
        PieceRef::Arc(a) => EndpointRef::ArcStart(a),
    }
}

/// The pin at a cut places an endpoint that lies at that cut onto that
/// cut's cutter: the end of the piece before the cut when it is kept,
/// else the start of the piece after it; and there is a pin exactly when
/// one of the two is kept.
pub proof fn lemma_pin_at_cut(left: Option<PieceRef>, right: Option<PieceRef>, cutter: Cutter)
    ensures
        pin_action(left, right, cutter) is Some <==> (left is Some || right is Some),
        pin_action(left, right, cutter) matches Some(f) ==> pinned(f) == Some((
            match left {
                Some(l) => piece_end(l),
                None => piece_start(right.unwrap()),
            },
            cutter,
        )),
{
}

/// The follow-ups of cut `ci`, appended to `acts`; `done` holds the piece
/// pairs already made concentric.
pub open spec fn cut_follow_ups(
    cutter: Option<Cutter>,
    ci: nat,
    p: Seq<Option<PieceRef>>,
    closed: bool,
    pin: bool,
    acts: Seq<FollowUp>,
    done: Seq<(nat, nat)>,
) -> (Seq<FollowUp>, Seq<(nat, nat)>) {
    let (li, ri) = cut_sides(closed, p.len(), ci);
    let left = p[li as int];
    let right = p[ri as int];
    if li == ri {
        // A single-piece wrap: nothing to join.
        (acts, done)
    } else {
        let (a1, d1) = match (left, right) {
            (Some(PieceRef::Line(a)), Some(PieceRef::Line(b))) => (acts.push(FollowUp::CoincidentLL21 { a, b }), done),
            (Some(PieceRef::Arc(a)), Some(PieceRef::Arc(b))) => {
                let key = (if li < ri { li } else { ri }, if li < ri { ri } else { li });
                let a0 = acts.push(FollowUp::CoincidentArcEndStart { a, b });
                if !done.contains(key) {
                    (a0.push(FollowUp::Concentric { a, b }), done.push(key))
                } else {
                    (a0, done)
                }
            },
            _ => (acts, done),
        };
        if pin && cutter is Some {
            match pin_action(left, right, cutter->0) {
                Some(f) => (a1.push(f), d1),
                None => (a1, d1),
            }
        } else {
            (a1, d1)
        }
    }
}

/// The follow-ups of the first `k` cuts.
pub open spec fn follow_ups(cutters: Seq<Option<Cutter>>, p: Seq<Option<PieceRef>>, pin: bool, k: nat) -> (Seq<FollowUp>, Seq<(nat, nat)>)
    decreases k,
{
    if k == 0 || k > cutters.len() {
        (seq![], seq![])
    } else {
        let (acts, done) = follow_ups(cutters, p, pin, (k - 1) as nat);
        cut_follow_ups(cutters[k - 1], (k - 1) as nat, p, p.len() == cutters.len(), pin, acts, done)
    }
}

/// Whether a pin placing `e` on `c` is the one cut `ci` calls for: the
/// cut's cutter is `c`, and `e` is the end of the piece before the cut
/// when that piece is kept, else the start of the piece after it.
pub open spec fn pin_at_cut(cutters: Seq<Option<Cutter>>, p: Seq<Option<PieceRef>>, ci: int, e: EndpointRef, c: Cutter) -> bool {
    let (li, ri) = cut_sides(p.len() == cutters.len(), p.len(), ci as nat);
    &&& cutters[ci] == Some(c)
    &&& e == (match p[li as int] {
        Some(l) => piece_end(l),
        None => piece_start(p[ri as int].unwrap()),
    })
    &&& (p[li as int] is Some || p[ri as int] is Some)
}

/// Every endpoint the split pins onto a cutter lies at a cut of that
/// cutter, as [`lemma_pin_at_cut`] says of one cut; and without `pin`
/// nothing is pinned.
pub proof fn lemma_follow_up_pins(cutters: Seq<Option<Cutter>>, p: Seq<Option<PieceRef>>, pin: bool, k: nat)
    ensures
        forall|j: int|
            0 <= j < follow_ups(cutters, p, pin, k).0.len() ==> (pinned(#[trigger] follow_ups(cutters, p, pin, k).0[j]) matches Some(
                (e, c),
            ) ==> pin && exists|ci: int| 0 <= ci < k && pin_at_cut(cutters, p, ci, e, c)),
    decreases k,
{
    if k > 0 && k <= cutters.len() {
        lemma_follow_up_pins(cutters, p, pin, (k - 1) as nat);
        let prev = follow_ups(cutters, p, pin, (k - 1) as nat);
        let acts = prev.0;
        let ci = (k - 1) as nat;
        let closed = p.len() == cutters.len();
        let (li, ri) = cut_sides(closed, p.len(), ci);
        let left = p[li as int];
        let right = p[ri as int];
        let out = follow_ups(cutters, p, pin, k).0;
        assert(out == cut_follow_ups(cutters[k - 1], ci, p, closed, pin, acts, prev.1).0);
        assert forall|j: int| 0 <= j < out.len() implies (pinned(#[trigger] out[j]) matches Some((e, c)) ==> pin && exists|q: int|
            0 <= q < k && pin_at_cut(cutters, p, q, e, c)) by {
            if j < acts.len() {
                assert(out[j] == acts[j]);
                if let Some((e, c)) = pinned(acts[j]) {
                    let q = choose|q: int| 0 <= q < k - 1 && pin_at_cut(cutters, p, q, e, c);
                    assert(pin_at_cut(cutters, p, q, e, c));
                }
            } else {
                if let Some((e, c)) = pinned(out[j]) {
                    // Only the pin can place an endpoint; the joins place none.
                    assert(li != ri);
                    assert(pin && cutters[k - 1] is Some);
                    let cut = cutters[k - 1]->0;
                    lemma_pin_at_cut(left, right, cut);
                    assert(out[j] == pin_action(left, right, cut)->0);
                    assert(pin_at_cut(cutters, p, ci as int, e, c));
                }
            }
        }
    }
}

/// How many of `acts` make two pieces concentric.
pub open spec fn concentric_count(acts: Seq<FollowUp>) -> nat
    decreases acts.len(),
{
    if acts.len() == 0 {
        0
    } else {
        concentric_count(acts.drop_last()) + (if acts.last() is Concentric { 1nat } else { 0nat })
    }
}

proof fn lemma_count_push(acts: Seq<FollowUp>, x: FollowUp)
    ensures
        concentric_count(acts.push(x)) == concentric_count(acts) + (if x is Concentric { 1nat } else { 0nat }),
{
    assert(acts.push(x).drop_last() =~= acts);
}

/// Each pair of adjacent arc pieces is made concentric at most once: the
/// pairs joined so far are distinct, and there is one concentric
/// follow-up per pair.
pub proof fn lemma_concentric_once(cutters: Seq<Option<Cutter>>, p: Seq<Option<PieceRef>>, pin: bool, k: nat)
    ensures
        follow_ups(cutters, p, pin, k).1.no_duplicates(),
        concentric_count(follow_ups(cutters, p, pin, k).0) == follow_ups(cutters, p, pin, k).1.len(),
    decreases k,
{
    if k == 0 || k > cutters.len() {
        assert(concentric_count(Seq::<FollowUp>::empty()) == 0);
    } else {
        lemma_concentric_once(cutters, p, pin, (k - 1) as nat);
        let (acts, done) = follow_ups(cutters, p, pin, (k - 1) as nat);
        let ci = (k - 1) as nat;
        let closed = p.len() == cutters.len();
        let (li, ri) = cut_sides(closed, p.len(), ci);
        let left = p[li as int];
        let right = p[ri as int];
        if li != ri {
            let (a1, d1) = match (left, right) {
                (Some(PieceRef::Line(a)), Some(PieceRef::Line(b))) => {
                    lemma_count_push(acts, FollowUp::CoincidentLL21 { a, b });
                    (acts.push(FollowUp::CoincidentLL21 { a, b }), done)
                },
                (Some(PieceRef::Arc(a)), Some(PieceRef::Arc(b))) => {
                    let key = (if li < ri { li } else { ri }, if li < ri { ri } else { li });
                    let a0 = acts.push(FollowUp::CoincidentArcEndStart { a, b });
                    lemma_count_push(acts, FollowUp::CoincidentArcEndStart { a, b });
                    if !done.contains(key) {
                        lemma_count_push(a0, FollowUp::Concentric { a, b });
                        assert forall|x: int, y: int| 0 <= x < y < done.push(key).len() implies
                            done.push(key)[x] != done.push(key)[y] by {
                            if y == done.len() {
                                assert(done[x] == done.push(key)[x]);
                            }
                        }
                        (a0.push(FollowUp::Concentric { a, b }), done.push(key))
                    } else {
                        (a0, done)
                    }
                },
                _ => (acts, done),
            };
            if pin && cutters[ci as int] is Some {
                match pin_action(left, right, cutters[ci as int]->0) {
                    Some(f) => {
                        lemma_count_push(a1, f);
                    },
                    None => {},
                }
            }
        }
    }
}

/// Whether `done` holds the pair `(a, b)`.
fn has_pair(done: &Vec<(usize, usize)>, a: usize, b: usize) -> (r: bool)
    ensures
        r == done@.map_values(|k: (usize, usize)| (k.0 as nat, k.1 as nat)).contains((a as nat, b as nat)),
{
    let ghost dv = done@.map_values(|k: (usize, usize)| (k.0 as nat, k.1 as nat));
    let mut i: usize = 0;
    while i < done.len()
        invariant
            i <= done@.len(),
            dv == done@.map_values(|k: (usize, usize)| (k.0 as nat, k.1 as nat)),
            forall|j: int| 0 <= j < i ==> dv[j] != (a as nat, b as nat),
        decreases done@.len() - i,
    {
        if done[i].0 == a && done[i].1 == b {
            assert(dv[i as int] == (a as nat, b as nat));
            return true;
        }
        i = i + 1;
    }
    false
}

/// The pin of the surviving endpoint at a cut onto the cutter.
fn pin_action_of(left: Option<PieceRef>, right: Option<PieceRef>, cutter: Cutter) -> (r: Option<FollowUp>)
    ensures
        r == pin_action(left, right, cutter),
{
    match (left, right, cutter) {
        (Some(PieceRef::Line(a)), _, Cutter::Line(b)) => Some(FollowUp::LineP2OnLine { a, b }),
        (Some(PieceRef::Line(line)), _, Cutter::Arc(arc)) => Some(FollowUp::LineP2OnArc { line, arc }),
        (Some(PieceRef::Arc(a)), _, Cutter::Line(line)) => Some(
            FollowUp::EndpointOnLine { endpoint: EndpointRef::ArcEnd(a), line },
        ),
        (Some(PieceRef::Arc(a)), _, Cutter::Arc(arc)) => Some(
            FollowUp::EndpointOnArc { endpoint: EndpointRef::ArcEnd(a), arc },
        ),
        (None, Some(PieceRef::Line(a)), Cutter::Line(b)) => Some(FollowUp::LineP1OnLine { a, b }),
        (None, Some(PieceRef::Line(line)), Cutter::Arc(arc)) => Some(FollowUp::LineP1OnArc { line, arc }),
        (None, Some(PieceRef::Arc(a)), Cutter::Line(line)) => Some(
            FollowUp::EndpointOnLine { endpoint: EndpointRef::ArcStart(a), line },
        ),
        (None, Some(PieceRef::Arc(a)), Cutter::Arc(arc)) => Some(
            FollowUp::EndpointOnArc { endpoint: EndpointRef::ArcStart(a), arc },
        ),
        (None, None, _) => None,
    }
}

/// The follow-up constraints of an applied split: cut-point coincidences
/// between adjacent kept pieces, endpoint pins onto the cutters (when
/// `pin`), and concentricity between adjacent arc pieces (once per pair).
/// `cutters` has one entry per cut, in order along the target; `pieces`
/// one per piece, `None` for a trimmed one.
pub fn post_split_actions(cutters: &Vec<Option<Cutter>>, pieces: &Vec<Option<PieceRef>>, pin: bool) -> (r: Vec<FollowUp>)
    requires
        pieces@.len() == cutters@.len() || pieces@.len() == cutters@.len() + 1,
    ensures
        r@ == follow_ups(cutters@, pieces@, pin, cutters@.len()).0,
{
    let n = pieces.len();
    let closed = n == cutters.len();
    let mut actions: Vec<FollowUp> = Vec::new();
    let mut done: Vec<(usize, usize)> = Vec::new();
    let mut ci: usize = 0;
    while ci < cutters.len()
        invariant
            n == pieces@.len(),
            closed == (n == cutters@.len()),
            n == cutters@.len() || n == cutters@.len() + 1,
            ci <= cutters@.len(),
            (actions@, done@.map_values(|k: (usize, usize)| (k.0 as nat, k.1 as nat))) == follow_ups(
                cutters@,
                pieces@,
                pin,
                ci as nat,
            ),
        decreases cutters@.len() - ci,
    {
        let ghost acts0 = actions@;
        let ghost done0 = done@.map_values(|k: (usize, usize)| (k.0 as nat, k.1 as nat));
        let (li, ri) = if closed {
            (if ci == 0 { n - 1 } else { ci - 1 }, ci)
        } else {
            (ci, ci + 1)
        };
        proof {
            if closed {
                let m = n as int;
                if ci == 0 {
                    assert((ci + m - 1) % m == m - 1) by (nonlinear_arith)
                        requires
                            ci == 0,
                            m > 0,
                    ;
                } else {
                    assert((ci + m - 1) % m == ci - 1) by (nonlinear_arith)
                        requires
                            0 < ci < m,
                    ;
                }
            }
            assert(cut_sides(closed, n as nat, ci as nat) == (li as nat, ri as nat));
        }
        let left = pieces[li];
        let right = pieces[ri];
        if li != ri {
            match (left, right) {
                (Some(PieceRef::Line(a)), Some(PieceRef::Line(b))) => {
                    actions.push(FollowUp::CoincidentLL21 { a, b });
                },
                (Some(PieceRef::Arc(a)), Some(PieceRef::Arc(b))) => {
                    actions.push(FollowUp::CoincidentArcEndStart { a, b });
                    let lo = if li < ri { li } else { ri };
                    let hi = if li < ri { ri } else { li };
                    if !has_pair(&done, lo, hi) {
                        done.push((lo, hi));
                        actions.push(FollowUp::Concentric { a, b });
                        assert(done@.map_values(|k: (usize, usize)| (k.0 as nat, k.1 as nat)) =~= done0.push(
                            (lo as nat, hi as nat),
                        ));
                    }
                },
                _ => {},
            }
            if pin && cutters[ci].is_some() {
                let cutter = cutters[ci].unwrap();
                match pin_action_of(left, right, cutter) {
                    Some(f) => actions.push(f),
                    None => {},
                }
            }
        }
        proof {
            let q = cut_follow_ups(cutters@[ci as int], ci as nat, pieces@, closed, pin, acts0, done0);
            assert(actions@ =~= q.0);
            assert(done@.map_values(|k: (usize, usize)| (k.0 as nat, k.1 as nat)) =~= q.1);
        }
        ci = ci + 1;
    }
    actions
}

// ---------------------------------------------------------------------------
// Expression rewrite map
// ---------------------------------------------------------------------------

/// `name.prop`.
pub open spec fn dotted(name: Seq<char>, prop: Seq<char>) -> Seq<char> {
    name + "."@ + prop
}

/// Parts joined with ` + `.
pub open spec fn plus_join(parts: Seq<Seq<char>>) -> Seq<char>
    decreases parts.len(),
{
    if parts.len() == 0 {
        Seq::empty()
    } else if parts.len() == 1 {
        parts[0]
    } else {
        plus_join(parts.drop_last()) + " + "@ + parts.last()
    }
}

/// The names of the kept pieces, in order.
pub open spec fn kept_names(p: Seq<Option<Seq<char>>>) -> Seq<Seq<char>>
    decreases p.len(),
{
    if p.len() == 0 {
        seq![]
    } else {
        let rest = kept_names(p.drop_last());
        match p.last() {
            Some(n) => rest.push(n),
            None => rest,
        }
    }
}

/// The first kept piece's name.
pub open spec fn first_kept_name(p: Seq<Option<Seq<char>>>) -> Option<Seq<char>>
    decreases p.len(),
{
    if p.len() == 0 {
        None
    } else if p[0] is Some {
        p[0]
    } else {
        first_kept_name(p.drop_first())
    }
}

/// Renames of the target's direction (line) or shape (arc) onto the first
/// kept piece `f`.
pub open spec fn shape_renames(target: Seq<char>, is_line: bool, first: Option<Seq<char>>) -> Seq<(Seq<char>, Seq<char>)> {
    match first {
        Some(f) => if is_line {
            seq![(dotted(target, "angle"@), dotted(f, "angle"@))]
        } else {
            seq![
                (dotted(target, "center.x"@), dotted(f, "center.x"@)),
                (dotted(target, "center.y"@), dotted(f, "center.y"@)),
                (dotted(target, "radius"@), dotted(f, "radius"@)),
                (dotted(target, "radius_b"@), dotted(f, "radius_b"@)),
                (dotted(target, "rotation"@), dotted(f, "rotation"@)),
                (dotted(target, "diameter"@), dotted(f, "diameter"@)),
            ]
        },
        None => seq![],
    }
}

/// Renames of the target's start onto the first piece, when kept.
pub open spec fn start_renames(target: Seq<char>, is_line: bool, start: Option<Seq<char>>) -> Seq<(Seq<char>, Seq<char>)> {
    match start {
        Some(s) => if is_line {
            seq![(dotted(target, "p1.x"@), dotted(s, "p1.x"@)), (dotted(target, "p1.y"@), dotted(s, "p1.y"@))]
        } else {
            seq![
                (dotted(target, "start.x"@), dotted(s, "start.x"@)),
                (dotted(target, "start.y"@), dotted(s, "start.y"@)),
                (dotted(target, "start_angle"@), dotted(s, "start_angle"@)),
            ]
        },
        None => seq![],
    }
}

/// Renames of the target's end onto the last piece, when kept.
pub open spec fn end_renames(target: Seq<char>, is_line: bool, end: Option<Seq<char>>) -> Seq<(Seq<char>, Seq<char>)> {
    match end {
        Some(e) => if is_line {
            seq![(dotted(target, "p2.x"@), dotted(e, "p2.x"@)), (dotted(target, "p2.y"@), dotted(e, "p2.y"@))]
        } else {
            seq![
                (dotted(target, "end.x"@), dotted(e, "end.x"@)),
                (dotted(target, "end.y"@), dotted(e, "end.y"@)),
                (dotted(target, "end_angle"@), dotted(e, "end_angle"@)),
            ]
        },
        None => seq![],
    }
}

/// The length (line) or sweep (arc) onto the sum over the pieces, when
/// every piece is kept.
pub open spec fn total_renames(target: Seq<char>, is_line: bool, p: Seq<Option<Seq<char>>>) -> Seq<(Seq<char>, Seq<char>)> {
    let prop = if is_line { "length"@ } else { "sweep"@ };
    if forall|j: int| 0 <= j < p.len() ==> (#[trigger] p[j]) is Some {
        seq![(dotted(target, prop), "("@ + plus_join(kept_names(p).map_values(|n: Seq<char>| dotted(n, prop))) + ")"@)]
    } else {
        seq![]
    }
}

/// Renames of `target`'s properties onto its pieces (given by name, `None`
/// for a trimmed piece): the direction or shape onto the first kept piece,
/// the start onto the first piece and the end onto the last when those are
/// kept, and, when every piece is kept, the length (line) or sweep (arc)
/// onto the sum over the pieces.
pub open spec fn expression_renames(target: Seq<char>, is_line: bool, p: Seq<Option<Seq<char>>>) -> Seq<(Seq<char>, Seq<char>)> {
    shape_renames(target, is_line, first_kept_name(p)) + start_renames(target, is_line, p[0])
        + end_renames(target, is_line, p.last()) + total_renames(target, is_line, p)
}

/// `name.prop` as a string.
fn dotted_string(name: &Vec<char>, prop: &str) -> (s: String)
    ensures
        s@ == dotted(name@, prop@),
{
    let mut v = name.clone();
    assert(v@ =~= name@);
    push_str(&mut v, ".");
    push_str(&mut v, prop);
    assert(v@ =~= dotted(name@, prop@));
    string_of(&v)
}

/// The views of rename pairs.
pub open spec fn pair_views(v: Seq<(String, String)>) -> Seq<(Seq<char>, Seq<char>)> {
    v.map_values(|p: (String, String)| (p.0@, p.1@))
}

/// Append the rename `target.prop -> name.prop`.
fn push_rename(out: &mut Vec<(String, String)>, target: &Vec<char>, name: &Vec<char>, prop: &str)
    ensures
        pair_views(final(out)@) == pair_views(old(out)@).push((dotted(target@, prop@), dotted(name@, prop@))),
{
    let a = dotted_string(target, prop);
    let b = dotted_string(name, prop);
    out.push((a, b));
    assert(pair_views(out@) =~= pair_views(old(out)@).push((dotted(target@, prop@), dotted(name@, prop@))));
}

/// The name views of the pieces.
pub open spec fn piece_name_views(p: Seq<Option<String>>) -> Seq<Option<Seq<char>>> {
    p.map_values(|n: Option<String>| match n {
        Some(s) => Some(s@),
        None => None,
    })
}

/// The renames a split makes in expressions naming its target (see
/// [`expression_renames`]).
pub fn expression_map(target: &str, is_line: bool, pieces: &Vec<Option<String>>) -> (r: Vec<(String, String)>)
    requires
        pieces@.len() > 0,
    ensures
        pair_views(r@) == expression_renames(target@, is_line, piece_name_views(pieces@)),
{
    let ghost pv = piece_name_views(pieces@);
    let t = chars_of(target);
    let n = pieces.len();
    let mut out: Vec<(String, String)> = Vec::new();
    // Shape onto the first kept piece.
    let mut i: usize = 0;
    let mut first: Option<Vec<char>> = None;
    assert(pv.skip(0) =~= pv);
    while i < n && first.is_none()
        invariant
            n == pieces@.len(),
            pv == piece_name_views(pieces@),
            i <= n,
            first is None ==> first_kept_name(pv) == first_kept_name(pv.skip(i as int)),
            first matches Some(f) ==> first_kept_name(pv) == Some(f@),
        decreases n - i, (if first is None { 1int } else { 0int }),
    {
        assert(pv.skip(i as int).drop_first() =~= pv.skip(i + 1));
        match &pieces[i] {
            Some(name) => {
                assert(pv.skip(i as int)[0] == Some(name@));
                assert(first_kept_name(pv.skip(i as int)) == Some(name@));
                first = Some(chars_of(name.as_str()));
            },
            None => {
                i = i + 1;
            },
        }
    }
    if first.is_none() {
        assert(pv.skip(n as int) =~= Seq::<Option<Seq<char>>>::empty());
    }
    match &first {
        Some(f) => {
            if is_line {
                push_rename(&mut out, &t, f, "angle");
            } else {
                push_rename(&mut out, &t, f, "center.x");
                push_rename(&mut out, &t, f, "center.y");
                push_rename(&mut out, &t, f, "radius");
                push_rename(&mut out, &t, f, "radius_b");
                push_rename(&mut out, &t, f, "rotation");
                push_rename(&mut out, &t, f, "diameter");
            }
        },
        None => {},
    }
    let ghost after_shape = pair_views(out@);
    assert(after_shape =~= shape_renames(t@, is_line, first_kept_name(pv)));
    // The start onto the first piece.
    match &pieces[0] {
        Some(name) => {
            let s = chars_of(name.as_str());
            if is_line {
                push_rename(&mut out, &t, &s, "p1.x");
                push_rename(&mut out, &t, &s, "p1.y");
            } else {
                push_rename(&mut out, &t, &s, "start.x");
                push_rename(&mut out, &t, &s, "start.y");
                push_rename(&mut out, &t, &s, "start_angle");
            }
        },
        None => {},
    }
    let ghost after_start = pair_views(out@);
    assert(after_start =~= after_shape + start_renames(t@, is_line, pv[0]));
    // The end onto the last piece.
    match &pieces[n - 1] {
        Some(name) => {
            let e = chars_of(name.as_str());
            if is_line {
                push_rename(&mut out, &t, &e, "p2.x");
                push_rename(&mut out, &t, &e, "p2.y");
            } else {
                push_rename(&mut out, &t, &e, "end.x");
                push_rename(&mut out, &t, &e, "end.y");
                push_rename(&mut out, &t, &e, "end_angle");
            }
        },
        None => {},
    }
    let ghost after_end = pair_views(out@);
    assert(after_end =~= after_start + end_renames(t@, is_line, pv.last()));
    // The total onto the sum over the pieces, when none was trimmed.
    let prop: &str = if is_line { "length" } else { "sweep" };
    let mut all = true;
    let mut sum: Vec<char> = Vec::new();
    let mut k: usize = 0;
    let ghost kept_sum = kept_names(pv).map_values(|m: Seq<char>| dotted(m, prop@));
    while k < n
        invariant
            n == pieces@.len(),
            pv == piece_name_views(pieces@),
            k <= n,
            all <==> (forall|j: int| 0 <= j < k ==> (#[trigger] pieces@[j]) is Some),
            all ==> sum@ == plus_join(kept_names(pv.take(k as int)).map_values(|m: Seq<char>| dotted(m, prop@))),
            all ==> kept_names(pv.take(k as int)).len() == k,
        decreases n - k,
    {
        let ghost tk1 = pv.take(k + 1);
        assert(tk1.drop_last() =~= pv.take(k as int));
        match &pieces[k] {
            Some(name) => {
                if all {
                    let m = chars_of(name.as_str());
                    if k > 0 {
                        push_str(&mut sum, " + ");
                    }
                    push_seq(&mut sum, &m);
                    push_str(&mut sum, ".");
                    push_str(&mut sum, prop);
                    proof {
                        let before = kept_names(pv.take(k as int)).map_values(|m: Seq<char>| dotted(m, prop@));
                        let after = kept_names(tk1).map_values(|m: Seq<char>| dotted(m, prop@));
                        assert(tk1.last() == Some(m@));
                        assert(after =~= before.push(dotted(m@, prop@)));
                        assert(after.drop_last() =~= before);
                    }
                }
            },
            None => {
                all = false;
            },
        }
        k = k + 1;
    }
    if all {
        assert(pv.take(n as int) =~= pv);
        assert forall|j: int| 0 <= j < pv.len() implies (#[trigger] pv[j]) is Some by {
            assert(pieces@[j] is Some);
        }
        let mut total: Vec<char> = chars_of("(");
        push_seq(&mut total, &sum);
        push_str(&mut total, ")");
        let a = dotted_string(&t, prop);
        out.push((a, string_of(&total)));
    } else {
        assert(!(forall|j: int| 0 <= j < pv.len() ==> (#[trigger] pv[j]) is Some)) by {
            let j = choose|j: int| 0 <= j < n && !(#[trigger] pieces@[j] is Some);
            assert(pv[j] is None);
        }
    }
    proof {
        let spec_r = expression_renames(t@, is_line, pv);
        assert(pair_views(out@) =~= spec_r);
    }
    out
}

// ---------------------------------------------------------------------------
// Naming and bracketing
// ---------------------------------------------------------------------------

/// The names the kept pieces get, in piece order: `prefix` and the entity
/// counter, which starts at `next` and counts kept pieces only.
pub open spec fn piece_names(prefix: Seq<char>, next: nat, keep: Seq<bool>) -> Seq<Seq<char>>
    decreases keep.len(),
{
    if keep.len() == 0 {
        Seq::empty()
    } else if keep[0] {
        seq![prefix + crate::text::decimal(next)] + piece_names(prefix, next + 1, keep.drop_first())
    } else {
        piece_names(prefix, next, keep.drop_first())
    }
}

/// The prefix of a split target's pieces: `L` for a line, `EA` for an
/// elliptic arc, `A` for a circular one.
pub open spec fn piece_prefix(is_line: bool, is_ellipse: bool) -> Seq<char> {
    if is_line { "L"@ } else if is_ellipse { "EA"@ } else { "A"@ }
}

/// How many pieces `keep` keeps.
pub open spec fn kept_count(keep: Seq<bool>) -> nat
    decreases keep.len(),
{
    if keep.len() == 0 {
        0
    } else {
        (if keep[0] { 1nat } else { 0nat }) + kept_count(keep.drop_first())
    }
}

/// Predict the names the kept pieces will get, in piece order, without
/// creating anything: names come off the same monotonic counter the
/// entity's creation uses, starting at `next` (which must not run past
/// the counter's range).
pub fn apply_split_target_names(is_line: bool, is_ellipse: bool, next: u32, keep: &Vec<bool>) -> (r: Vec<String>)
    requires
        next + kept_count(keep@) <= u32::MAX,
    ensures
        r@.map_values(|s: String| s@) == piece_names(piece_prefix(is_line, is_ellipse), next as nat, keep@),
{
    let prefix: &str = if is_line { "L" } else if is_ellipse { "EA" } else { "A" };
    let ghost pre = piece_prefix(is_line, is_ellipse);
    assert(prefix@ == pre);
    let mut names: Vec<String> = Vec::new();
    let mut n: u32 = next;
    let mut i: usize = 0;
    assert(keep@.skip(0) =~= keep@);
    while i < keep.len()
        invariant
            i <= keep@.len(),
            prefix@ == pre,
            next <= n,
            n + kept_count(keep@.skip(i as int)) == next + kept_count(keep@),
            next + kept_count(keep@) <= u32::MAX,
            names@.map_values(|s: String| s@) + piece_names(pre, n as nat, keep@.skip(i as int))
                == piece_names(pre, next as nat, keep@),
        decreases keep@.len() - i,
    {
        assert(keep@.skip(i as int).drop_first() =~= keep@.skip(i + 1));
        assert(keep@.skip(i as int)[0] == keep@[i as int]);
        if keep[i] {
            let mut v = chars_of(prefix);
            crate::text::push_decimal(&mut v, n as usize);
            let ghost before = names@.map_values(|s: String| s@);
            names.push(string_of(&v));
            assert(names@.map_values(|s: String| s@) =~= before.push(pre + crate::text::decimal(n as nat)));
            assert(before.push(pre + crate::text::decimal(n as nat)) + piece_names(pre, (n + 1) as nat, keep@.skip(i + 1))
                =~= before + (seq![pre + crate::text::decimal(n as nat)] + piece_names(pre, (n + 1) as nat, keep@.skip(i + 1))));
            n = n + 1;
        }
        i = i + 1;
    }
    assert(keep@.skip(i as int) =~= Seq::<bool>::empty());
    assert(names@.map_values(|s: String| s@) + Seq::<Seq<char>>::empty() =~= names@.map_values(|s: String| s@));
    names
}

/// Which cuts a bracketing plan around piece `piece` uses (by index among
/// all `ncuts` cuts), which piece of that plan is the clicked one, and
/// whether the second cut's parameter is lifted by a full turn. On a
/// closed target piece `i` spans cut `i` to cut `i + 1` (wrapping; with
/// two cuts both are kept as they are); on an open one it is bounded by
/// cut `i - 1` on the left and cut `i` on the right, where they exist.
pub open spec fn bracket(piece: nat, ncuts: nat, closed: bool) -> (Seq<nat>, nat, bool) {
    if closed {
        if ncuts == 2 {
            (seq![0nat, 1nat], piece, false)
        } else {
            let b = (piece + 1) % ncuts;
            (seq![piece, b], 0, b < piece)
        }
    } else {
        let left: Seq<nat> = if piece > 0 { seq![(piece - 1) as nat] } else { seq![] };
        let right: Seq<nat> = if piece < ncuts { seq![piece] } else { seq![] };
        (left + right, if piece > 0 { 1 } else { 0 }, false)
    }
}

/// The bracketing cuts around the clicked piece (see [`bracket`]).
pub fn bracket_cuts(piece: usize, ncuts: usize, closed: bool) -> (r: (Vec<usize>, usize, bool))
    requires
        closed ==> piece < ncuts,
        !closed ==> piece <= ncuts,
    ensures
        (r.0@.map_values(|i: usize| i as nat), r.1 as nat, r.2) == bracket(piece as nat, ncuts as nat, closed),
{
    let mut cuts: Vec<usize> = Vec::new();
    if closed {
        if ncuts == 2 {
            cuts.push(0);
            cuts.push(1);
            assert(cuts@.map_values(|i: usize| i as nat) =~= seq![0nat, 1nat]);
            return (cuts, piece, false);
        }
        let b = (piece + 1) % ncuts;
        cuts.push(piece);
        cuts.push(b);
        assert(cuts@.map_values(|i: usize| i as nat) =~= seq![piece as nat, b as nat]);
        (cuts, 0, b < piece)
    } else {
        let mut clicked: usize = 0;
        if piece > 0 {
            cuts.push(piece - 1);
            clicked = 1;
        }
        if piece < ncuts {
            cuts.push(piece);
        }
        assert(cuts@.map_values(|i: usize| i as nat) =~= bracket(piece as nat, ncuts as nat, closed).0);
        (cuts, clicked, false)
    }
}

// ---------------------------------------------------------------------------
// Checks before applying a plan
// ---------------------------------------------------------------------------

/// What applying a split plan first checks: one keep entry per piece, at
/// least one piece kept, at least two cuts on a closed circle or ellipse,
/// and at least one cut. `closed_curve` is whether the target is a closed
/// arc.
pub open spec fn split_plan_check(closed_curve: bool, ncuts: nat, keep: Seq<bool>) -> Result<(), Seq<char>> {
    let n: nat = if closed_curve { ncuts } else { ncuts + 1 };
    if keep.len() != n {
        Err("split: keep mask has "@ + crate::text::decimal(keep.len()) + " entries for "@ + crate::text::decimal(n) + " pieces"@)
    } else if !keep.contains(true) {
        Err("split: no piece kept (use delete instead)"@)
    } else if closed_curve && ncuts < 2 {
        Err("split: a closed circle/ellipse needs at least two cuts"@)
    } else if ncuts == 0 {
        Err("split: no cuts"@)
    } else {
        Ok(())
    }
}

/// Check a split plan before applying it (see [`split_plan_check`]).
pub fn check_split_plan(closed_curve: bool, ncuts: usize, keep: &Vec<bool>) -> (r: Result<(), String>)
    requires
        ncuts < usize::MAX,
    ensures
        r is Ok <==> split_plan_check(closed_curve, ncuts as nat, keep@) is Ok,
        r matches Err(e) ==> split_plan_check(closed_curve, ncuts as nat, keep@) == Err::<(), Seq<char>>(e@),
{
    let n = piece_count(closed_curve, ncuts);
    if keep.len() != n {
        let mut m = chars_of("split: keep mask has ");
        crate::text::push_decimal(&mut m, keep.len());
        push_str(&mut m, " entries for ");
        crate::text::push_decimal(&mut m, n);
        push_str(&mut m, " pieces");
        return Err(string_of(&m));
    }
    let mut any = false;
    let mut i: usize = 0;
    while i < keep.len()
        invariant
            i <= keep@.len(),
            any == (exists|j: int| 0 <= j < i && keep@[j]),
        decreases keep@.len() - i,
    {
        if keep[i] {
            any = true;
        }
        i = i + 1;
    }
    assert(any == keep@.contains(true));
    if !any {
        return Err(string_of(&chars_of("split: no piece kept (use delete instead)")));
    }
    if closed_curve && ncuts < 2 {
        return Err(string_of(&chars_of("split: a closed circle/ellipse needs at least two cuts")));
    }
    if ncuts == 0 {
        return Err(string_of(&chars_of("split: no cuts")));
    }
    Ok(())
}

/// The names of the H/V flag constraints a split line's flags are
/// replicated as: for each kept piece in order, `C<piece>H` when the line
/// was horizontal, then `C<piece>V` when vertical.
pub open spec fn replicated_flags(names: Seq<Option<Seq<char>>>, horizontal: bool, vertical: bool) -> Seq<Seq<char>>
    decreases names.len(),
{
    if names.len() == 0 {
        Seq::empty()
    } else {
        let here: Seq<Seq<char>> = match names[0] {
            Some(n) => (if horizontal { seq![crate::ids::flag_name(n, 'H')] } else { Seq::empty() })
                + (if vertical { seq![crate::ids::flag_name(n, 'V')] } else { Seq::empty() }),
            None => Seq::empty(),
        };
        here + replicated_flags(names.drop_first(), horizontal, vertical)
    }
}

/// The flag constraints a split line's H/V flags become on its pieces
/// (see [`replicated_flags`]).
pub fn replicated_flag_names(pieces: &Vec<Option<String>>, horizontal: bool, vertical: bool) -> (r: Vec<String>)
    ensures
        r@.map_values(|s: String| s@) == replicated_flags(piece_name_views(pieces@), horizontal, vertical),
{
    let ghost pv = piece_name_views(pieces@);
    let mut out: Vec<String> = Vec::new();
    let mut i: usize = 0;
    assert(pv.skip(0) =~= pv);
    while i < pieces.len()
        invariant
            i <= pieces@.len(),
            pv == piece_name_views(pieces@),
            out@.map_values(|s: String| s@) + replicated_flags(pv.skip(i as int), horizontal, vertical)
                == replicated_flags(pv, horizontal, vertical),
        decreases pieces@.len() - i,
    {
        let ghost before = out@.map_values(|s: String| s@);
        let ghost rest = pv.skip(i as int);
        assert(rest.drop_first() =~= pv.skip(i + 1));
        assert(rest[0] == pv[i as int]);
        match &pieces[i] {
            Some(name) => {
                let ghost here = (if horizontal { seq![crate::ids::flag_name(name@, 'H')] } else { Seq::<Seq<char>>::empty() })
                    + (if vertical { seq![crate::ids::flag_name(name@, 'V')] } else { Seq::<Seq<char>>::empty() });
                if horizontal {
                    out.push(crate::ids::format_flag_name(name.as_str(), 'H'));
                }
                if vertical {
                    out.push(crate::ids::format_flag_name(name.as_str(), 'V'));
                }
                assert(out@.map_values(|s: String| s@) =~= before + here);
                assert(before + here + replicated_flags(pv.skip(i + 1), horizontal, vertical)
                    =~= before + (here + replicated_flags(pv.skip(i + 1), horizontal, vertical)));
            },
            None => {
                assert(Seq::<Seq<char>>::empty() + replicated_flags(pv.skip(i + 1), horizontal, vertical)
                    =~= replicated_flags(pv.skip(i + 1), horizontal, vertical));
            },
        }
        i = i + 1;
    }
    assert(pv.skip(i as int) =~= Seq::<Option<Seq<char>>>::empty());
    assert(out@.map_values(|s: String| s@) + Seq::<Seq<char>>::empty() =~= out@.map_values(|s: String| s@));
    out
}

} // verus!
