//! Meta-constraints, the part every kind shares: whether a record still
//! holds after edits made behind its back, name lookup, ownership, and
//! what deleting a record's result removes.
//!
//! Entities are identified by their handle in the sketch (the raw value of
//! the solver's `Ref`).

use vstd::prelude::*;
use crate::split::EndpointRef;
use crate::text::{chars_of, decimal, push_decimal, push_seq, push_str, string_of};

verus! {

/// An entity a meta-constraint refers to.
#[derive(Clone, Copy, PartialEq, Eq, Structural, Debug)]
pub enum MetaEntity {
    Line(u32),
    Arc(u32),
    Point(u32),
}

/// An entity of the sketch as the records read it.
pub struct Named {
    pub handle: u32,
    pub name: String,
    /// A hidden helper point (never named to the user).
    pub helper: bool,
}

/// The sketch's lines, arcs and points.
pub struct Entities {
    pub lines: Vec<Named>,
    pub arcs: Vec<Named>,
    pub points: Vec<Named>,
}

/// The first entity with handle `h`.
pub open spec fn named(s: Seq<Named>, h: u32) -> Option<Named>
    decreases s.len(),
{
    if s.len() == 0 {
        None
    } else if s[0].handle == h {
        Some(s[0])
    } else {
        named(s.drop_first(), h)
    }
}

/// The sketch entity `e` is, if it exists.
pub open spec fn entity_of(ents: Entities, e: MetaEntity) -> Option<Named> {
    match e {
        MetaEntity::Line(l) => named(ents.lines@, l),
        MetaEntity::Arc(a) => named(ents.arcs@, a),
        MetaEntity::Point(p) => named(ents.points@, p),
    }
}

fn find_named(s: &Vec<Named>, h: u32) -> (r: Option<usize>)
    ensures
        r matches Some(i) ==> i < s@.len() && named(s@, h) == Some(s@[i as int]),
        r is None ==> named(s@, h) is None,
{
    let mut i: usize = 0;
    assert(s@.skip(0) =~= s@);
    while i < s.len()
        invariant
            i <= s@.len(),
            named(s@, h) == named(s@.skip(i as int), h),
        decreases s@.len() - i,
    {
        assert(s@.skip(i as int).drop_first() =~= s@.skip(i + 1));
        if s[i].handle == h {
            return Some(i);
        }
        i = i + 1;
    }
    assert(s@.skip(i as int) =~= Seq::<Named>::empty());
    None
}

/// The table and index of entity `e`.
fn locate<'a>(ents: &'a Entities, e: MetaEntity) -> (r: (&'a Vec<Named>, Option<usize>))
    ensures
        r.1 matches Some(i) ==> i < r.0@.len() && entity_of(*ents, e) == Some(r.0@[i as int]),
        r.1 is None ==> entity_of(*ents, e) is None,
{
    match e {
        MetaEntity::Line(l) => (&ents.lines, find_named(&ents.lines, l)),
        MetaEntity::Arc(a) => (&ents.arcs, find_named(&ents.arcs, a)),
        MetaEntity::Point(p) => (&ents.points, find_named(&ents.points, p)),
    }
}

/// Whether entity `e` exists.
pub fn entity_exists(ents: &Entities, e: MetaEntity) -> (b: bool)
    ensures
        b == entity_of(*ents, e) is Some,
{
    locate(ents, e).1.is_some()
}

/// The entity's name.
pub fn entity_name(ents: &Entities, e: MetaEntity) -> (s: String)
    requires
        entity_of(*ents, e) is Some,
    ensures
        s@ == entity_of(*ents, e).unwrap().name@,
{
    let (table, i) = locate(ents, e);
    match i {
        Some(i) => table[i].name.clone(),
        None => String::new(),
    }
}

/// An entity's name, empty when it does not exist.
pub open spec fn name_or_empty(ents: Entities, e: MetaEntity) -> Seq<char> {
    match entity_of(ents, e) {
        Some(n) => n.name@,
        None => Seq::empty(),
    }
}

/// A point reference as the user names it (`L0.p1`, `A0.center`, `P3`).
pub open spec fn endpoint_label(ents: Entities, ep: EndpointRef) -> Seq<char> {
    match ep {
        EndpointRef::Point(p) => name_or_empty(ents, MetaEntity::Point(p)),
        EndpointRef::LineP1(l) => name_or_empty(ents, MetaEntity::Line(l)) + ".p1"@,
        EndpointRef::LineP2(l) => name_or_empty(ents, MetaEntity::Line(l)) + ".p2"@,
        EndpointRef::ArcCenter(a) => name_or_empty(ents, MetaEntity::Arc(a)) + ".center"@,
        EndpointRef::ArcStart(a) => name_or_empty(ents, MetaEntity::Arc(a)) + ".start"@,
        EndpointRef::ArcEnd(a) => name_or_empty(ents, MetaEntity::Arc(a)) + ".end"@,
    }
}

pub(crate) fn name_text(ents: &Entities, e: MetaEntity) -> (s: Vec<char>)
    ensures
        s@ == name_or_empty(*ents, e),
{
    if entity_exists(ents, e) {
        let n = entity_name(ents, e);
        chars_of(n.as_str())
    } else {
        Vec::new()
    }
}

pub(crate) fn label_text(ents: &Entities, ep: EndpointRef) -> (s: Vec<char>)
    ensures
        s@ == endpoint_label(*ents, ep),
{
    let (e, suffix) = match ep {
        EndpointRef::Point(p) => (MetaEntity::Point(p), ""),
        EndpointRef::LineP1(l) => (MetaEntity::Line(l), ".p1"),
        EndpointRef::LineP2(l) => (MetaEntity::Line(l), ".p2"),
        EndpointRef::ArcCenter(a) => (MetaEntity::Arc(a), ".center"),
        EndpointRef::ArcStart(a) => (MetaEntity::Arc(a), ".start"),
        EndpointRef::ArcEnd(a) => (MetaEntity::Arc(a), ".end"),
    };
    let mut s = name_text(ents, e);
    push_str(&mut s, suffix);
    proof {
        reveal_strlit("");
        assert(s@ =~= endpoint_label(*ents, ep));
    }
    s
}

/// A point reference as the user names it (`L0.p1`, `A0.center`, `P3`;
/// a point by the name it is shown under); empty where the entity is
/// missing.
pub fn endpoint_name(ents: &Entities, ep: EndpointRef) -> (s: String)
    ensures
        s@ == endpoint_label(*ents, ep),
{
    string_of(&label_text(ents, ep))
}

/// What a record expects of a dimension it owns, and the dimension now.
pub struct OwnedDim {
    /// The expression the record wrote, if any.
    pub expect_expr: Option<String>,
    /// The dimension as it is now; none when it was deleted.
    pub current: Option<DimState>,
}

/// A dimension as it is now.
pub struct DimState {
    pub name: String,
    pub derived: bool,
    /// Its expression, if any.
    pub expr: Option<String>,
    /// Whether its value is, within the comparison tolerance, the value
    /// the record wrote.
    pub value_close: bool,
}

/// A meta-constraint record as the checks read it.
pub struct MetaRecord {
    pub mid: u32,
    /// `offset` or `pattern`.
    pub kind_name: String,
    pub name: String,
    pub sources: Vec<MetaEntity>,
    pub owned: Vec<MetaEntity>,
    pub owned_constraints: Vec<u32>,
    pub owned_dims: Vec<OwnedDim>,
}

/// Whether every entity of `es` exists.
pub open spec fn all_exist(ents: Entities, es: Seq<MetaEntity>) -> bool {
    forall|j: int| 0 <= j < es.len() ==> (#[trigger] entity_of(ents, es[j])) is Some
}

/// The first owned nid that no longer exists.
pub open spec fn first_missing_nid(owned: Seq<u32>, nids: Seq<u32>) -> Option<u32>
    decreases owned.len(),
{
    if owned.len() == 0 {
        None
    } else if !nids.contains(owned[0]) {
        Some(owned[0])
    } else {
        first_missing_nid(owned.drop_first(), nids)
    }
}

/// What is wrong with an owned dimension, if anything: deleted, made
/// derived, or carrying another expression or value than was written.
pub open spec fn dim_problem(d: OwnedDim) -> Option<Seq<char>> {
    match d.current {
        None => Some("a dimension was deleted"@),
        Some(s) => if s.derived {
            Some(s.name@ + " was made derived"@)
        } else if !(match (s.expr, d.expect_expr) {
            (Some(a), Some(b)) => a@ == b@,
            (None, None) => s.value_close,
            _ => false,
        }) {
            Some(s.name@ + " was edited"@)
        } else {
            None
        },
    }
}

/// The first problem among the owned dimensions.
pub open spec fn first_dim_problem(ds: Seq<OwnedDim>) -> Option<Seq<char>>
    decreases ds.len(),
{
    if ds.len() == 0 {
        None
    } else if dim_problem(ds[0]) is Some {
        dim_problem(ds[0])
    } else {
        first_dim_problem(ds.drop_first())
    }
}

/// Why a record no longer holds, if it does not: a source or result entity
/// gone, an owned constraint gone, an owned dimension gone, made derived,
/// or carrying a different value / expression than was written.
pub open spec fn broken(ents: Entities, nids: Seq<u32>, m: MetaRecord) -> Option<Seq<char>> {
    if !all_exist(ents, m.sources@) {
        Some("a source entity was deleted"@)
    } else if !all_exist(ents, m.owned@) {
        Some("a result entity was deleted"@)
    } else {
        match first_missing_nid(m.owned_constraints@, nids) {
            Some(n) => Some("C"@ + decimal(n as nat) + " was deleted"@),
            None => first_dim_problem(m.owned_dims@),
        }
    }
}

fn all_entities_exist(ents: &Entities, es: &Vec<MetaEntity>) -> (b: bool)
    ensures
        b == all_exist(*ents, es@),
{
    let mut i: usize = 0;
    while i < es.len()
        invariant
            i <= es@.len(),
            forall|j: int| 0 <= j < i ==> (#[trigger] entity_of(*ents, es@[j])) is Some,
        decreases es@.len() - i,
    {
        if !entity_exists(ents, es[i]) {
            return false;
        }
        i = i + 1;
    }
    true
}

fn contains_nid(nids: &Vec<u32>, n: u32) -> (b: bool)
    ensures
        b == nids@.contains(n),
{
    let mut i: usize = 0;
    while i < nids.len()
        invariant
            i <= nids@.len(),
            forall|j: int| 0 <= j < i ==> nids@[j] != n,
        decreases nids@.len() - i,
    {
        if nids[i] == n {
            assert(nids@[i as int] == n);
            return true;
        }
        i = i + 1;
    }
    false
}

fn same_text(a: &String, b: &String) -> (r: bool)
    ensures
        r == (a@ == b@),
{
    let x = chars_of(a.as_str());
    let y = chars_of(b.as_str());
    crate::complete::eq_chars(&x, &y)
}

fn check_dim(d: &OwnedDim) -> (r: Option<String>)
    ensures
        r matches Some(s) ==> dim_problem(*d) == Some(s@),
        r is None ==> dim_problem(*d) is None,
{
    match &d.current {
        None => Some(string_of(&chars_of("a dimension was deleted"))),
        Some(s) => {
            if s.derived {
                let mut m = chars_of(s.name.as_str());
                push_str(&mut m, " was made derived");
                return Some(string_of(&m));
            }
            let same = match (&s.expr, &d.expect_expr) {
                (Some(a), Some(b)) => same_text(a, b),
                (None, None) => s.value_close,
                _ => false,
            };
            if !same {
                let mut m = chars_of(s.name.as_str());
                push_str(&mut m, " was edited");
                Some(string_of(&m))
            } else {
                None
            }
        },
    }
}

/// Why a record no longer holds, if it does not (see [`broken`]); `nids`
/// are the constraints that exist.
pub fn broken_reason(ents: &Entities, nids: &Vec<u32>, m: &MetaRecord) -> (r: Option<String>)
    ensures
        r matches Some(s) ==> broken(*ents, nids@, *m) == Some(s@),
        r is None ==> broken(*ents, nids@, *m) is None,
{
    if !all_entities_exist(ents, &m.sources) {
        return Some(string_of(&chars_of("a source entity was deleted")));
    }
    if !all_entities_exist(ents, &m.owned) {
        return Some(string_of(&chars_of("a result entity was deleted")));
    }
    let mut i: usize = 0;
    assert(m.owned_constraints@.skip(0) =~= m.owned_constraints@);
    while i < m.owned_constraints.len()
        invariant
            i <= m.owned_constraints@.len(),
            first_missing_nid(m.owned_constraints@, nids@) == first_missing_nid(m.owned_constraints@.skip(i as int), nids@),
            all_exist(*ents, m.sources@),
            all_exist(*ents, m.owned@),
        decreases m.owned_constraints@.len() - i,
    {
        assert(m.owned_constraints@.skip(i as int).drop_first() =~= m.owned_constraints@.skip(i + 1));
        let n = m.owned_constraints[i];
        if !contains_nid(nids, n) {
            let mut v: Vec<char> = Vec::new();
            v.push('C');
            push_decimal(&mut v, n as usize);
            push_str(&mut v, " was deleted");
            assert(v@ =~= "C"@ + decimal(n as nat) + " was deleted"@) by {
                reveal_strlit("C");
            }
            return Some(string_of(&v));
        }
        i = i + 1;
    }
    assert(m.owned_constraints@.skip(i as int) =~= Seq::<u32>::empty());
    let mut k: usize = 0;
    assert(m.owned_dims@.skip(0) =~= m.owned_dims@);
    while k < m.owned_dims.len()
        invariant
            k <= m.owned_dims@.len(),
            first_missing_nid(m.owned_constraints@, nids@) is None,
            all_exist(*ents, m.sources@),
            all_exist(*ents, m.owned@),
            first_dim_problem(m.owned_dims@) == first_dim_problem(m.owned_dims@.skip(k as int)),
        decreases m.owned_dims@.len() - k,
    {
        assert(m.owned_dims@.skip(k as int).drop_first() =~= m.owned_dims@.skip(k + 1));
        match check_dim(&m.owned_dims[k]) {
            Some(s) => return Some(s),
            None => {},
        }
        k = k + 1;
    }
    assert(m.owned_dims@.skip(k as int) =~= Seq::<OwnedDim>::empty());
    None
}

/// The notice of a dropped record: `<kind> <name> dropped: <why>`.
pub open spec fn drop_notice(m: MetaRecord, why: Seq<char>) -> Seq<char> {
    m.kind_name@ + " "@ + m.name@ + " dropped: "@ + why
}

/// The records that no longer hold, in order, with their notices.
pub open spec fn dropped_records(ents: Entities, nids: Seq<u32>, ms: Seq<MetaRecord>) -> Seq<(u32, Seq<char>)>
    decreases ms.len(),
{
    if ms.len() == 0 {
        Seq::empty()
    } else {
        let n = ms.len() - 1;
        let prev = dropped_records(ents, nids, ms.take(n));
        match broken(ents, nids, ms[n]) {
            Some(why) => prev.push((ms[n].mid, drop_notice(ms[n], why))),
            None => prev,
        }
    }
}

/// The views of (mid, notice) pairs.
pub open spec fn notice_views(v: Seq<(u32, String)>) -> Seq<(u32, Seq<char>)> {
    v.map_values(|p: (u32, String)| (p.0, p.1@))
}

/// The records to drop because what they own or refer to was changed
/// behind their back, each with its notice, in order.
pub fn reconcile_drops(ents: &Entities, nids: &Vec<u32>, metas: &Vec<MetaRecord>) -> (r: Vec<(u32, String)>)
    ensures
        notice_views(r@) == dropped_records(*ents, nids@, metas@),
{
    let mut out: Vec<(u32, String)> = Vec::new();
    let mut i: usize = 0;
    while i < metas.len()
        invariant
            i <= metas@.len(),
            notice_views(out@) == dropped_records(*ents, nids@, metas@.take(i as int)),
        decreases metas@.len() - i,
    {
        let ghost before = out@;
        assert(metas@.take(i + 1).take(i as int) =~= metas@.take(i as int));
        let m = &metas[i];
        match broken_reason(ents, nids, m) {
            Some(why) => {
                let mut v = chars_of(m.kind_name.as_str());
                push_str(&mut v, " ");
                let nm = chars_of(m.name.as_str());
                push_seq(&mut v, &nm);
                push_str(&mut v, " dropped: ");
                let w = chars_of(why.as_str());
                push_seq(&mut v, &w);
                assert(v@ =~= drop_notice(*m, why@));
                out.push((m.mid, string_of(&v)));
                assert(notice_views(out@) =~= notice_views(before).push((m.mid, drop_notice(*m, why@))));
            },
            None => {},
        }
        i = i + 1;
    }
    assert(metas@.take(metas@.len() as int) =~= metas@);
    out
}

/// The mids of (mid, notice) pairs.
pub open spec fn dropped_mids(d: Seq<(u32, Seq<char>)>) -> Seq<u32> {
    d.map_values(|p: (u32, Seq<char>)| p.0)
}

/// The notices of (mid, notice) pairs.
pub open spec fn dropped_notices(d: Seq<(u32, Seq<char>)>) -> Seq<Seq<char>> {
    d.map_values(|p: (u32, Seq<char>)| p.1)
}

/// The records whose mid is not among `mids`, in order.
pub open spec fn keep_unlisted(ms: Seq<MetaRecord>, mids: Seq<u32>) -> Seq<MetaRecord>
    decreases ms.len(),
{
    if ms.len() == 0 {
        Seq::empty()
    } else {
        let n = ms.len() - 1;
        let prev = keep_unlisted(ms.take(n), mids);
        if mids.contains(ms[n].mid) {
            prev
        } else {
            prev.push(ms[n])
        }
    }
}

/// The records after reconciling: those whose mid no broken record has.
pub open spec fn reconciled(ents: Entities, nids: Seq<u32>, ms: Seq<MetaRecord>) -> Seq<MetaRecord> {
    keep_unlisted(ms, dropped_mids(dropped_records(ents, nids, ms)))
}

/// The views of strings.
pub open spec fn text_views(v: Seq<String>) -> Seq<Seq<char>> {
    v.map_values(|t: String| t@)
}

/// Drop every record whose result, relations or dimensions were changed
/// behind its back, keeping the others in order, and add a notice for
/// each dropped one (`<kind> <name> dropped: <why>`), in order.
pub fn reconcile(ents: &Entities, nids: &Vec<u32>, metas: &mut Vec<MetaRecord>, notices: &mut Vec<String>)
    ensures
        final(metas)@ == reconciled(*ents, nids@, old(metas)@),
        text_views(final(notices)@) == text_views(old(notices)@) + dropped_notices(
            dropped_records(*ents, nids@, old(metas)@),
        ),
        unique_mids(old(metas)@) ==> final(metas)@ == unbroken(*ents, nids@, old(metas)@),
{
    let drops = reconcile_drops(ents, nids, metas);
    let ghost d = dropped_records(*ents, nids@, old(metas)@);
    let ghost mids = dropped_mids(d);
    let ghost old_ms = old(metas)@;
    let mut ids: Vec<u32> = Vec::new();
    let mut j: usize = 0;
    while j < drops.len()
        invariant
            j <= drops@.len(),
            notice_views(drops@) == d,
            ids@ == dropped_mids(d).take(j as int),
            text_views(notices@) == text_views(old(notices)@) + dropped_notices(d).take(j as int),
        decreases drops@.len() - j,
    {
        let ghost before = text_views(notices@);
        assert(notice_views(drops@)[j as int] == (drops@[j as int].0, drops@[j as int].1@));
        ids.push(drops[j].0);
        notices.push(drops[j].1.clone());
        proof {
            assert(ids@ =~= dropped_mids(d).take(j + 1));
            assert(text_views(notices@) =~= before.push(drops@[j as int].1@));
            assert(dropped_notices(d).take(j + 1) =~= dropped_notices(d).take(j as int).push(drops@[j as int].1@));
        }
        j = j + 1;
    }
    assert(ids@ =~= mids);
    assert(dropped_notices(d).take(j as int) =~= dropped_notices(d));
    let total = metas.len();
    let mut i: usize = 0;
    let mut k: usize = 0;
    assert(old_ms.take(0) =~= Seq::<MetaRecord>::empty());
    assert(old_ms.skip(0) =~= old_ms);
    while i < metas.len()
        invariant
            k <= old_ms.len(),
            total == old_ms.len(),
            i == keep_unlisted(old_ms.take(k as int), mids).len(),
            metas@ == keep_unlisted(old_ms.take(k as int), mids) + old_ms.skip(k as int),
            ids@ == mids,
        decreases metas@.len() - i,
    {
        let ghost kept = keep_unlisted(old_ms.take(k as int), mids);
        assert(metas@.len() == i + old_ms.skip(k as int).len());
        assert(k < old_ms.len());
        assert(old_ms.take(k + 1).take(k as int) =~= old_ms.take(k as int));
        assert(metas@[i as int] == old_ms[k as int]);
        let mid = metas[i].mid;
        if contains_nid(&ids, mid) {
            metas.remove(i);
            assert(metas@ =~= kept + old_ms.skip(k + 1));
        } else {
            assert(keep_unlisted(old_ms.take(k + 1), mids) =~= kept.push(old_ms[k as int]));
            assert(metas@ =~= kept.push(old_ms[k as int]) + old_ms.skip(k + 1));
            i = i + 1;
        }
        k = k + 1;
    }
    assert(k == old_ms.len()) by {
        if k < old_ms.len() {
            assert(metas@.len() == i + old_ms.len() - k);
        }
    }
    assert(old_ms.take(k as int) =~= old_ms);
    assert(metas@ =~= keep_unlisted(old_ms, mids));
    proof {
        if unique_mids(old_ms) {
            lemma_reconcile_keeps_unbroken(*ents, nids@, old_ms);
        }
    }
}

proof fn lemma_broken_is_listed(ents: Entities, nids: Seq<u32>, ms: Seq<MetaRecord>, i: int)
    requires
        0 <= i < ms.len(),
        broken(ents, nids, ms[i]) is Some,
    ensures
        dropped_mids(dropped_records(ents, nids, ms)).contains(ms[i].mid),
    decreases ms.len(),
{
    let n = ms.len() - 1;
    let prev = dropped_records(ents, nids, ms.take(n));
    if i < n {
        assert(ms.take(n)[i] == ms[i]);
        lemma_broken_is_listed(ents, nids, ms.take(n), i);
        let w = choose|j: int| 0 <= j < dropped_mids(prev).len() && dropped_mids(prev)[j] == ms[i].mid;
        if broken(ents, nids, ms[n]) is Some {
            let why = broken(ents, nids, ms[n])->0;
            assert(dropped_mids(prev.push((ms[n].mid, drop_notice(ms[n], why))))[w] == ms[i].mid);
        }
    } else {
        let why = broken(ents, nids, ms[n])->0;
        let all = prev.push((ms[n].mid, drop_notice(ms[n], why)));
        assert(dropped_mids(all)[all.len() - 1] == ms[i].mid);
    }
}

proof fn lemma_kept_are_unlisted(ms: Seq<MetaRecord>, mids: Seq<u32>, j: int)
    requires
        0 <= j < keep_unlisted(ms, mids).len(),
    ensures
        exists|i: int| 0 <= i < ms.len() && ms[i] == keep_unlisted(ms, mids)[j] && !mids.contains(ms[i].mid),
    decreases ms.len(),
{
    let n = ms.len() - 1;
    let prev = keep_unlisted(ms.take(n), mids);
    if j < prev.len() {
        lemma_kept_are_unlisted(ms.take(n), mids, j);
        let i = choose|i: int| 0 <= i < ms.take(n).len() && ms.take(n)[i] == prev[j] && !mids.contains(ms.take(n)[i].mid);
        assert(ms[i] == ms.take(n)[i]);
    } else {
        assert(ms[n] == keep_unlisted(ms, mids)[j]);
    }
}

proof fn lemma_none_dropped(ents: Entities, nids: Seq<u32>, ms: Seq<MetaRecord>)
    requires
        forall|j: int| 0 <= j < ms.len() ==> broken(ents, nids, #[trigger] ms[j]) is None,
    ensures
        dropped_records(ents, nids, ms) == Seq::<(u32, Seq<char>)>::empty(),
    decreases ms.len(),
{
    if ms.len() > 0 {
        let n = ms.len() - 1;
        assert forall|j: int| 0 <= j < ms.take(n).len() implies broken(ents, nids, #[trigger] ms.take(n)[j]) is None by {
            assert(ms.take(n)[j] == ms[j]);
        }
        lemma_none_dropped(ents, nids, ms.take(n));
        assert(broken(ents, nids, ms[n]) is None);
    }
}

/// Reconciling twice is reconciling once: every record that survives a
/// reconcile still holds, so a second pass over the same entities and
/// constraints drops nothing and adds no notice.
pub proof fn lemma_reconcile_idempotent(ents: Entities, nids: Seq<u32>, ms: Seq<MetaRecord>)
    ensures
        dropped_records(ents, nids, reconciled(ents, nids, ms)) == Seq::<(u32, Seq<char>)>::empty(),
        reconciled(ents, nids, reconciled(ents, nids, ms)) == reconciled(ents, nids, ms),
{
    let kept = reconciled(ents, nids, ms);
    let mids = dropped_mids(dropped_records(ents, nids, ms));
    assert forall|j: int| 0 <= j < kept.len() implies broken(ents, nids, #[trigger] kept[j]) is None by {
        lemma_kept_are_unlisted(ms, mids, j);
        let i = choose|i: int| 0 <= i < ms.len() && ms[i] == kept[j] && !mids.contains(ms[i].mid);
        if broken(ents, nids, ms[i]) is Some {
            lemma_broken_is_listed(ents, nids, ms, i);
        }
    }
    lemma_none_dropped(ents, nids, kept);
    lemma_keep_none(kept);
}

/// Whether no two records share a mid.
pub open spec fn unique_mids(ms: Seq<MetaRecord>) -> bool {
    forall|i: int, j: int| 0 <= i < j < ms.len() ==> ms[i].mid != ms[j].mid
}

/// The records that still hold, in order.
pub open spec fn unbroken(ents: Entities, nids: Seq<u32>, ms: Seq<MetaRecord>) -> Seq<MetaRecord>
    decreases ms.len(),
{
    if ms.len() == 0 {
        Seq::empty()
    } else {
        let n = ms.len() - 1;
        let prev = unbroken(ents, nids, ms.take(n));
        if broken(ents, nids, ms[n]) is Some {
            prev
        } else {
            prev.push(ms[n])
        }
    }
}

proof fn lemma_listed_is_broken(ents: Entities, nids: Seq<u32>, ms: Seq<MetaRecord>, k: int)
    requires
        0 <= k < dropped_records(ents, nids, ms).len(),
    ensures
        exists|j: int| 0 <= j < ms.len() && #[trigger] ms[j].mid == dropped_mids(dropped_records(ents, nids, ms))[k]
            && broken(ents, nids, ms[j]) is Some,
    decreases ms.len(),
{
    let n = ms.len() - 1;
    let prev = dropped_records(ents, nids, ms.take(n));
    if k < prev.len() {
        lemma_listed_is_broken(ents, nids, ms.take(n), k);
        let j = choose|j: int| 0 <= j < ms.take(n).len() && #[trigger] ms.take(n)[j].mid == dropped_mids(prev)[k]
            && broken(ents, nids, ms.take(n)[j]) is Some;
        assert(ms[j] == ms.take(n)[j]);
        if broken(ents, nids, ms[n]) is Some {
            let why = broken(ents, nids, ms[n])->0;
            assert(dropped_records(ents, nids, ms) == prev.push((ms[n].mid, drop_notice(ms[n], why))));
        }
    } else {
        assert(ms[n].mid == dropped_mids(dropped_records(ents, nids, ms))[k]);
    }
}

proof fn lemma_keep_unbroken(ents: Entities, nids: Seq<u32>, ms: Seq<MetaRecord>, mids: Seq<u32>)
    requires
        forall|i: int| 0 <= i < ms.len() ==> (mids.contains(#[trigger] ms[i].mid) <==> broken(ents, nids, ms[i]) is Some),
    ensures
        keep_unlisted(ms, mids) == unbroken(ents, nids, ms),
    decreases ms.len(),
{
    if ms.len() > 0 {
        let n = ms.len() - 1;
        assert forall|i: int| 0 <= i < ms.take(n).len() implies (mids.contains(#[trigger] ms.take(n)[i].mid) <==> broken(
            ents,
            nids,
            ms.take(n)[i],
        ) is Some) by {
            assert(ms.take(n)[i] == ms[i]);
        }
        lemma_keep_unbroken(ents, nids, ms.take(n), mids);
        assert(mids.contains(ms[n].mid) <==> broken(ents, nids, ms[n]) is Some);
    }
}

/// With one record per mid, reconciling keeps exactly the records that
/// still hold, in order, and drops exactly the broken ones.
pub proof fn lemma_reconcile_keeps_unbroken(ents: Entities, nids: Seq<u32>, ms: Seq<MetaRecord>)
    requires
        unique_mids(ms),
    ensures
        reconciled(ents, nids, ms) == unbroken(ents, nids, ms),
{
    let d = dropped_records(ents, nids, ms);
    let mids = dropped_mids(d);
    assert forall|i: int| 0 <= i < ms.len() implies (mids.contains(#[trigger] ms[i].mid) <==> broken(ents, nids, ms[i]) is Some) by {
        if broken(ents, nids, ms[i]) is Some {
            lemma_broken_is_listed(ents, nids, ms, i);
        }
        if mids.contains(ms[i].mid) {
            let k = choose|k: int| 0 <= k < mids.len() && mids[k] == ms[i].mid;
            lemma_listed_is_broken(ents, nids, ms, k);
            let j = choose|j: int| 0 <= j < ms.len() && #[trigger] ms[j].mid == mids[k] && broken(ents, nids, ms[j]) is Some;
            if j != i {
                if j < i {
                    assert(ms[j].mid != ms[i].mid);
                } else {
                    assert(ms[i].mid != ms[j].mid);
                }
            }
        }
    }
    lemma_keep_unbroken(ents, nids, ms, mids);
}

proof fn lemma_keep_none(ms: Seq<MetaRecord>)
    ensures
        keep_unlisted(ms, dropped_mids(Seq::<(u32, Seq<char>)>::empty())) == ms,
    decreases ms.len(),
{
    if ms.len() > 0 {
        let n = ms.len() - 1;
        lemma_keep_none(ms.take(n));
        assert(ms.take(n).push(ms[n]) =~= ms);
    }
}

/// The index of the first record named `name`.
pub open spec fn meta_named(ms: Seq<MetaRecord>, name: Seq<char>) -> Option<int>
    decreases ms.len(),
{
    if ms.len() == 0 {
        None
    } else if ms[0].name@ == name {
        Some(0)
    } else {
        match meta_named(ms.drop_first(), name) {
            Some(i) => Some(i + 1),
            None => None,
        }
    }
}

/// The meta-constraint named `name` (`M<n>`): its index, or
/// `Unknown meta-constraint: <name>`.
pub fn resolve(metas: &Vec<MetaRecord>, name: &str) -> (r: Result<usize, String>)
    ensures
        r matches Ok(i) ==> meta_named(metas@, name@) == Some(i as int),
        r matches Err(e) ==> meta_named(metas@, name@) is None && e@ == "Unknown meta-constraint: "@ + name@,
{
    let target = chars_of(name);
    let mut i: usize = 0;
    assert(metas@.skip(0) =~= metas@);
    while i < metas.len()
        invariant
            i <= metas@.len(),
            target@ == name@,
            meta_named(metas@, name@) == (match meta_named(metas@.skip(i as int), name@) {
                Some(j) => Some(j + i),
                None => None,
            }),
        decreases metas@.len() - i,
    {
        assert(i == 0 ==> metas@.skip(i as int) =~= metas@);
        assert(metas@.skip(i as int).drop_first() =~= metas@.skip(i + 1));
        let nm = chars_of(metas[i].name.as_str());
        if crate::complete::eq_chars(&nm, &target) {
            return Ok(i);
        }
        i = i + 1;
    }
    assert(metas@.skip(i as int) =~= Seq::<MetaRecord>::empty());
    let mut m = chars_of("Unknown meta-constraint: ");
    push_seq(&mut m, &target);
    Err(string_of(&m))
}

/// The first record that owns `e` as a result.
pub open spec fn owner(ms: Seq<MetaRecord>, e: MetaEntity) -> Option<int>
    decreases ms.len(),
{
    if ms.len() == 0 {
        None
    } else if ms[0].owned@.contains(e) {
        Some(0)
    } else {
        match owner(ms.drop_first(), e) {
            Some(i) => Some(i + 1),
            None => None,
        }
    }
}

fn owns(m: &MetaRecord, e: MetaEntity) -> (b: bool)
    ensures
        b == m.owned@.contains(e),
{
    let mut i: usize = 0;
    while i < m.owned.len()
        invariant
            i <= m.owned@.len(),
            forall|j: int| 0 <= j < i ==> m.owned@[j] != e,
        decreases m.owned@.len() - i,
    {
        if m.owned[i] == e {
            assert(m.owned@[i as int] == e);
            return true;
        }
        i = i + 1;
    }
    false
}

/// The index of the meta-constraint that owns `e` as a result, if any.
pub fn owner_of(metas: &Vec<MetaRecord>, e: MetaEntity) -> (r: Option<usize>)
    ensures
        r matches Some(i) ==> owner(metas@, e) == Some(i as int),
        r is None ==> owner(metas@, e) is None,
{
    let mut i: usize = 0;
    assert(metas@.skip(0) =~= metas@);
    while i < metas.len()
        invariant
            i <= metas@.len(),
            owner(metas@, e) == (match owner(metas@.skip(i as int), e) {
                Some(j) => Some(j + i),
                None => None,
            }),
        decreases metas@.len() - i,
    {
        assert(i == 0 ==> metas@.skip(i as int) =~= metas@);
        assert(metas@.skip(i as int).drop_first() =~= metas@.skip(i + 1));
        if owns(&metas[i], e) {
            return Some(i);
        }
        i = i + 1;
    }
    assert(metas@.skip(i as int) =~= Seq::<MetaRecord>::empty());
    None
}

/// What deleting a record's result removes: the names shown (helper points are deleted unnamed) and the
/// entities deleted (those that still exist), in order.
pub open spec fn result_deletion(ents: Entities, owned: Seq<MetaEntity>) -> (Seq<Seq<char>>, Seq<MetaEntity>)
    decreases owned.len(),
{
    if owned.len() == 0 {
        (Seq::empty(), Seq::empty())
    } else {
        let n = owned.len() - 1;
        let (names, dels) = result_deletion(ents, owned.take(n));
        let e = owned[n];
        match entity_of(ents, e) {
            None => (names, dels),
            Some(x) => if e is Point && x.helper {
                (names, dels.push(e))
            } else {
                (names.push(x.name@), dels.push(e))
            },
        }
    }
}

/// The views of names.
pub open spec fn name_views(v: Seq<String>) -> Seq<Seq<char>> {
    v.map_values(|s: String| s@)
}

/// What deleting the result `owned` of a record removes (see
/// [`result_deletion`]): the names to report and the entities to delete.
pub fn deletion_of(ents: &Entities, owned: &Vec<MetaEntity>) -> (r: (Vec<String>, Vec<MetaEntity>))
    ensures
        (name_views(r.0@), r.1@) == result_deletion(*ents, owned@),
{
    let mut names: Vec<String> = Vec::new();
    let mut dels: Vec<MetaEntity> = Vec::new();
    let mut i: usize = 0;
    while i < owned.len()
        invariant
            i <= owned@.len(),
            (name_views(names@), dels@) == result_deletion(*ents, owned@.take(i as int)),
        decreases owned@.len() - i,
    {
        assert(owned@.take(i + 1).take(i as int) =~= owned@.take(i as int));
        let e = owned[i];
        let (table, at) = locate(ents, e);
        match at {
            None => {},
            Some(j) => {
                let helper_point = match e {
                    MetaEntity::Point(_) => table[j].helper,
                    _ => false,
                };
                if !helper_point {
                    let ghost before = names@;
                    names.push(table[j].name.clone());
                    assert(name_views(names@) =~= name_views(before).push(table@[j as int].name@));
                }
                dels.push(e);
            },
        }
        i = i + 1;
    }
    assert(owned@.take(owned@.len() as int) =~= owned@);
    (names, dels)
}

/// Whether the sketch holds a hidden helper point.
pub fn has_helper_points(ents: &Entities) -> (b: bool)
    ensures
        b == exists|j: int| 0 <= j < ents.points@.len() && (#[trigger] ents.points@[j]).helper,
{
    let mut i: usize = 0;
    while i < ents.points.len()
        invariant
            i <= ents.points@.len(),
            forall|j: int| 0 <= j < i ==> !(#[trigger] ents.points@[j]).helper,
        decreases ents.points@.len() - i,
    {
        if ents.points[i].helper {
            return true;
        }
        i = i + 1;
    }
    false
}

/// How many meta-constraints the sketch records.
pub fn meta_count(metas: &Vec<MetaRecord>) -> (n: usize)
    ensures
        n == metas@.len(),
{
    metas.len()
}

// ---------------------------------------------------------------------------
// Dissolving and deleting a record
// ---------------------------------------------------------------------------

/// The index of the first record with mid `mid`.
pub open spec fn meta_with_mid(ms: Seq<MetaRecord>, mid: u32) -> Option<int>
    decreases ms.len(),
{
    if ms.len() == 0 {
        None
    } else if ms[0].mid == mid {
        Some(0)
    } else {
        match meta_with_mid(ms.drop_first(), mid) {
            Some(i) => Some(i + 1),
            None => None,
        }
    }
}

/// The error for a mid no record has: `no meta-constraint M<mid>`.
pub open spec fn no_meta_error(mid: u32) -> Seq<char> {
    "no meta-constraint M"@ + decimal(mid as nat)
}

proof fn lemma_meta_with_mid(ms: Seq<MetaRecord>, mid: u32)
    ensures
        meta_with_mid(ms, mid) matches Some(i) ==> 0 <= i < ms.len() && ms[i].mid == mid,
    decreases ms.len(),
{
    if ms.len() > 0 {
        lemma_meta_with_mid(ms.drop_first(), mid);
    }
}

/// The record a dissolve or delete by mid acts on; the error when no
/// record has that mid. Dissolving forgets that record (its result stays
/// as plain geometry).
pub fn record_for_mid(metas: &Vec<MetaRecord>, mid: u32) -> (r: Result<usize, String>)
    ensures
        r matches Ok(i) ==> meta_with_mid(metas@, mid) == Some(i as int),
        r matches Err(e) ==> meta_with_mid(metas@, mid) is None && e@ == no_meta_error(mid),
{
    let mut i: usize = 0;
    assert(metas@.skip(0) =~= metas@);
    while i < metas.len()
        invariant
            i <= metas@.len(),
            meta_with_mid(metas@, mid) == (match meta_with_mid(metas@.skip(i as int), mid) {
                Some(j) => Some(j + i),
                None => None,
            }),
        decreases metas@.len() - i,
    {
        assert(metas@.skip(i as int).drop_first() =~= metas@.skip(i + 1));
        if metas[i].mid == mid {
            return Ok(i);
        }
        i = i + 1;
    }
    assert(metas@.skip(i as int) =~= Seq::<MetaRecord>::empty());
    let mut v = chars_of("no meta-constraint M");
    push_decimal(&mut v, mid as usize);
    Err(string_of(&v))
}

/// What deleting record `mid` with its result removes: the record's index,
/// the names to report and the entities to delete (see
/// [`result_deletion`]); the error when no record has that mid.
pub fn delete_with_result_plan(ents: &Entities, metas: &Vec<MetaRecord>, mid: u32) -> (r: Result<(usize, Vec<String>, Vec<MetaEntity>), String>)
    ensures
        r matches Ok(p) ==> meta_with_mid(metas@, mid) == Some(p.0 as int) && (name_views(p.1@), p.2@)
            == result_deletion(*ents, metas@[p.0 as int].owned@),
        r matches Err(e) ==> meta_with_mid(metas@, mid) is None && e@ == no_meta_error(mid),
{
    match record_for_mid(metas, mid) {
        Ok(i) => {
            proof {
                lemma_meta_with_mid(metas@, mid);
            }
            let (names, dels) = deletion_of(ents, &metas[i].owned);
            Ok((i, names, dels))
        },
        Err(e) => Err(e),
    }
}

} // verus!
