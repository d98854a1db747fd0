//! Constraint identification: the user-visible names of constraints and
//! looking a constraint up by name.
//!
//! Lines are identified by their handle in the sketch (the raw value of
//! the solver's `Ref`).

use vstd::prelude::*;
use crate::text::{
    all_digits, chars_of, digits_value, is_digit, lemma_parse_decimal, parse_usize,
    parse_usize_spec, push_decimal, push_seq, push_str, slice_chars, string_of, decimal,
};

verus! {

/// A constraint, by how it is addressed.
#[derive(Clone, Copy, PartialEq, Eq, Structural, Debug)]
pub enum ConstraintId {
    /// Line H flag constraint (name CL0H).
    Horizontal(u32),
    /// Line V flag constraint (name CL0V).
    Vertical(u32),
    /// Any collection-stored constraint, by its permanent nid (C<n>).
    /// Nids are unique and survive every mutation; positional indices
    /// do not.
    Numbered(u32),
    /// Hidden helper-point bridge (internal, no user-visible name).
    HelperBridge(u32),
}

/// What entity is selected for constraint application; held by the
/// command context so command output and the editor share it.
#[derive(Clone, Copy, PartialEq, Eq, Structural, Debug)]
pub enum Selection {
    Point(u32),
    Line(u32),
    LineP1(u32),
    LineP2(u32),
    Arc(u32),
    ArcCenter(u32),
    ArcStart(u32),
    ArcEnd(u32),
    Constraint(ConstraintId),
    /// By permanent dimension id, not position.
    Dimension(u32),
}

/// What name lookup reads of a line: its handle, name and H/V flags.
pub struct LineFlags {
    pub handle: u32,
    pub name: String,
    pub horizontal: bool,
    pub vertical: bool,
}

/// What name lookup reads of a collection-stored constraint.
pub struct NidInfo {
    pub nid: u32,
    /// It belongs to a dimension (and is deleted through its `d<n>`).
    pub dimension_backed: bool,
    /// It is a coincidence touching a helper point: a hidden bridge.
    pub bridge: bool,
}

/// `C<entity><flag>`.
pub open spec fn flag_name(entity: Seq<char>, flag: char) -> Seq<char> {
    seq!['C'] + entity + seq![flag]
}

/// The synthetic constraint name of a flag-style constraint on a named
/// entity, e.g. `CL0H`.
pub fn format_flag_name(entity_name: &str, flag: char) -> (s: String)
    ensures
        s@ == flag_name(entity_name@, flag),
{
    let mut v: Vec<char> = Vec::new();
    v.push('C');
    push_str(&mut v, entity_name);
    v.push(flag);
    assert(v@ =~= flag_name(entity_name@, flag));
    string_of(&v)
}

/// `C<entity>F` with a non-empty entity and `F` one of `H`, `V`: the entity
/// and the flag.
pub open spec fn parse_flag_name_spec(token: Seq<char>) -> Option<(Seq<char>, char)> {
    if token.len() >= 3 && token[0] == 'C' && (token.last() == 'H' || token.last() == 'V') {
        Some((token.subrange(1, token.len() - 1), token.last()))
    } else {
        None
    }
}

/// Parse a synthetic constraint name into its entity name and flag.
pub fn parse_flag_name(token: &str) -> (r: Option<(String, char)>)
    ensures
        r matches Some(p) ==> parse_flag_name_spec(token@) == Some((p.0@, p.1)),
        r is None ==> parse_flag_name_spec(token@) is None,
{
    let t = chars_of(token);
    let n = t.len();
    if n < 3 || t[0] != 'C' {
        return None;
    }
    let flag = t[n - 1];
    if flag != 'H' && flag != 'V' {
        return None;
    }
    let entity = slice_chars(&t, 1, n - 1);
    Some((string_of(&entity), flag))
}

/// The nid a `C<n>` name gives: the digits after `C` as a `u32`.
pub open spec fn numbered_name(name: Seq<char>) -> Option<u32> {
    if name.len() > 0 && name[0] == 'C' {
        match parse_usize_spec(name.drop_first()) {
            Some(v) => if v <= u32::MAX { Some(v as u32) } else { None },
            None => None,
        }
    } else {
        None
    }
}

/// The first constraint record with nid `nid`.
pub open spec fn nid_record(cs: Seq<NidInfo>, nid: u32) -> Option<NidInfo>
    decreases cs.len(),
{
    if cs.len() == 0 {
        None
    } else if cs[0].nid == nid {
        Some(cs[0])
    } else {
        nid_record(cs.drop_first(), nid)
    }
}

/// The first line named `name`.
pub open spec fn line_named(lines: Seq<LineFlags>, name: Seq<char>) -> Option<LineFlags>
    decreases lines.len(),
{
    if lines.len() == 0 {
        None
    } else if lines[0].name@ == name {
        Some(lines[0])
    } else {
        line_named(lines.drop_first(), name)
    }
}

/// What a constraint name addresses: `C<n>` a numbered constraint when it
/// exists and is neither dimension-backed nor a helper bridge (nid 0 never);
/// `C<line>H` / `C<line>V` the flag of the first line so named when the
/// flag is set.
pub open spec fn constraint_by_name(lines: Seq<LineFlags>, cs: Seq<NidInfo>, name: Seq<char>) -> Option<ConstraintId> {
    match numbered_name(name) {
        Some(nid) => if nid == 0 {
            None
        } else {
            match nid_record(cs, nid) {
                Some(rec) => if !rec.dimension_backed && !rec.bridge {
                    Some(ConstraintId::Numbered(nid))
                } else {
                    None
                },
                None => None,
            }
        },
        None => match parse_flag_name_spec(name) {
            Some((entity, flag)) => match line_named(lines, entity) {
                Some(l) => if flag == 'H' && l.horizontal {
                    Some(ConstraintId::Horizontal(l.handle))
                } else if flag == 'V' && l.vertical {
                    Some(ConstraintId::Vertical(l.handle))
                } else {
                    None
                },
                None => None,
            },
            None => None,
        },
    }
}

/// Whether two character vectors are equal.
fn same_chars(a: &Vec<char>, b: &Vec<char>) -> (r: bool)
    ensures
        r == (a@ == b@),
{
    crate::complete::eq_chars(a, b)
}

/// Look up a constraint by its name (see [`constraint_by_name`]).
pub fn find_constraint_by_name(lines: &Vec<LineFlags>, constraints: &Vec<NidInfo>, name: &str) -> (r: Option<ConstraintId>)
    ensures
        r == constraint_by_name(lines@, constraints@, name@),
{
    let t = chars_of(name);
    if t.len() > 0 && t[0] == 'C' {
        let rest = slice_chars(&t, 1, t.len());
        assert(rest@ =~= t@.drop_first());
        match parse_usize(&rest) {
            Some(v) => {
                if v <= 0xffff_ffff {
                    assert(parse_usize_spec(name@.drop_first()) == Some(v));
                    let nid = v as u32;
                    if nid == 0 {
                        return None;
                    }
                    // Addressable when the nid exists in a collection that is
                    // not dimension-backed (those delete through their d<n>)
                    // and is not a hidden helper-point bridge.
                    assert(numbered_name(name@) == Some(nid));
                    let mut i: usize = 0;
                    assert(constraints@.skip(0) =~= constraints@);
                    while i < constraints.len()
                        invariant
                            i <= constraints@.len(),
                            nid_record(constraints@, nid) == nid_record(constraints@.skip(i as int), nid),
                            numbered_name(name@) == Some(nid),
                            nid != 0,
                        decreases constraints@.len() - i,
                    {
                        assert(constraints@.skip(i as int).drop_first() =~= constraints@.skip(i + 1));
                        if constraints[i].nid == nid {
                            let rec = &constraints[i];
                            if !rec.dimension_backed && !rec.bridge {
                                return Some(ConstraintId::Numbered(nid));
                            } else {
                                return None;
                            }
                        }
                        i = i + 1;
                    }
                    assert(constraints@.skip(i as int) =~= Seq::<NidInfo>::empty());
                    return None;
                }
            },
            None => {},
        }
    }
    assert(numbered_name(name@) is None);
    match parse_flag_name(name) {
        Some((entity, flag)) => {
            let e = chars_of(entity.as_str());
            let mut i: usize = 0;
            assert(lines@.skip(0) =~= lines@);
            while i < lines.len()
                invariant
                    i <= lines@.len(),
                    line_named(lines@, e@) == line_named(lines@.skip(i as int), e@),
                    numbered_name(name@) is None,
                    parse_flag_name_spec(name@) == Some((e@, flag)),
                decreases lines@.len() - i,
            {
                assert(lines@.skip(i as int).drop_first() =~= lines@.skip(i + 1));
                let ln = chars_of(lines[i].name.as_str());
                if same_chars(&ln, &e) {
                    let l = &lines[i];
                    if flag == 'H' && l.horizontal {
                        return Some(ConstraintId::Horizontal(l.handle));
                    } else if flag == 'V' && l.vertical {
                        return Some(ConstraintId::Vertical(l.handle));
                    } else {
                        return None;
                    }
                }
                i = i + 1;
            }
            assert(lines@.skip(i as int) =~= Seq::<LineFlags>::empty());
            None
        },
        None => None,
    }
}

/// The user-visible name of a constraint: `C<line>H` / `C<line>V` for a
/// line's flag (when the line exists), `C<nid>` for a numbered constraint
/// that exists; none for helper bridges.
pub open spec fn constraint_id_name_spec(lines: Seq<LineFlags>, nids: Seq<u32>, id: ConstraintId) -> Option<Seq<char>> {
    match id {
        ConstraintId::Horizontal(h) => match line_with_handle(lines, h) {
            Some(l) => Some(flag_name(l.name@, 'H')),
            None => None,
        },
        ConstraintId::Vertical(h) => match line_with_handle(lines, h) {
            Some(l) => Some(flag_name(l.name@, 'V')),
            None => None,
        },
        ConstraintId::Numbered(nid) => if nids.contains(nid) {
            Some(seq!['C'] + decimal(nid as nat))
        } else {
            None
        },
        ConstraintId::HelperBridge(_) => None,
    }
}

/// The first line with handle `h`.
pub open spec fn line_with_handle(lines: Seq<LineFlags>, h: u32) -> Option<LineFlags>
    decreases lines.len(),
{
    if lines.len() == 0 {
        None
    } else if lines[0].handle == h {
        Some(lines[0])
    } else {
        line_with_handle(lines.drop_first(), h)
    }
}

/// The first line with handle `h`.
fn find_line(lines: &Vec<LineFlags>, h: u32) -> (r: Option<usize>)
    ensures
        r matches Some(i) ==> i < lines@.len() && line_with_handle(lines@, h) == Some(lines@[i as int]),
        r is None ==> line_with_handle(lines@, h) is None,
{
    let mut i: usize = 0;
    assert(lines@.skip(0) =~= lines@);
    while i < lines.len()
        invariant
            i <= lines@.len(),
            line_with_handle(lines@, h) == line_with_handle(lines@.skip(i as int), h),
        decreases lines@.len() - i,
    {
        assert(lines@.skip(i as int).drop_first() =~= lines@.skip(i + 1));
        if lines[i].handle == h {
            return Some(i);
        }
        i = i + 1;
    }
    assert(lines@.skip(i as int) =~= Seq::<LineFlags>::empty());
    None
}

/// Format a constraint id as its user-visible name (see
/// [`constraint_id_name_spec`]); `nids` are the numbered constraints that
/// exist.
pub fn constraint_id_name(lines: &Vec<LineFlags>, nids: &Vec<u32>, id: ConstraintId) -> (r: Option<String>)
    ensures
        r matches Some(s) ==> constraint_id_name_spec(lines@, nids@, id) == Some(s@),
        r is None ==> constraint_id_name_spec(lines@, nids@, id) is None,
{
    match id {
        ConstraintId::Horizontal(h) => match find_line(lines, h) {
            Some(i) => Some(format_flag_name(lines[i].name.as_str(), 'H')),
            None => None,
        },
        ConstraintId::Vertical(h) => match find_line(lines, h) {
            Some(i) => Some(format_flag_name(lines[i].name.as_str(), 'V')),
            None => None,
        },
        ConstraintId::Numbered(nid) => {
            let mut i: usize = 0;
            while i < nids.len()
                invariant
                    i <= nids@.len(),
                    id == ConstraintId::Numbered(nid),
                    forall|j: int| 0 <= j < i ==> nids@[j] != nid,
                decreases nids@.len() - i,
            {
                if nids[i] == nid {
                    let mut v: Vec<char> = Vec::new();
                    v.push('C');
                    push_decimal(&mut v, nid as usize);
                    assert(v@ =~= seq!['C'] + decimal(nid as nat));
                    assert(nids@[i as int] == nid);
                    assert(nids@.contains(nid));
                    let s = string_of(&v);
                    assert(constraint_id_name_spec(lines@, nids@, id) == Some(s@));
                    return Some(s);
                }
                i = i + 1;
            }
            None
        },
        ConstraintId::HelperBridge(_) => None,
    }
}

proof fn lemma_line_with_handle(lines: Seq<LineFlags>, h: u32)
    ensures
        line_with_handle(lines, h) matches Some(l) ==> l.handle == h,
    decreases lines.len(),
{
    if lines.len() > 0 && lines[0].handle != h {
        lemma_line_with_handle(lines.drop_first(), h);
    }
}

/// Whether `name` is what lookup by name resolves to `id`: a numbered
/// constraint that exists and is neither dimension-backed nor a helper
/// bridge (nid 0 never), or a set flag of a named line that is the first
/// line so named.
pub open spec fn addressable(lines: Seq<LineFlags>, cs: Seq<NidInfo>, id: ConstraintId) -> bool {
    match id {
        ConstraintId::Numbered(nid) => nid != 0 && (nid_record(cs, nid) matches Some(r) && !r.dimension_backed && !r.bridge),
        ConstraintId::Horizontal(h) => line_with_handle(lines, h) matches Some(l)
            && l.name@.len() > 0 && l.horizontal && line_named(lines, l.name@) == Some(l),
        ConstraintId::Vertical(h) => line_with_handle(lines, h) matches Some(l)
            && l.name@.len() > 0 && l.vertical && line_named(lines, l.name@) == Some(l),
        ConstraintId::HelperBridge(_) => false,
    }
}

/// The name a constraint is shown under is accepted by name lookup and
/// resolves back to the same constraint, for every constraint that lookup
/// can address.
pub proof fn lemma_constraint_name_round_trip(lines: Seq<LineFlags>, cs: Seq<NidInfo>, nids: Seq<u32>, id: ConstraintId)
    requires
        constraint_id_name_spec(lines, nids, id) is Some,
        addressable(lines, cs, id),
    ensures
        constraint_by_name(lines, cs, constraint_id_name_spec(lines, nids, id).unwrap()) == Some(id),
{
    let name = constraint_id_name_spec(lines, nids, id).unwrap();
    match id {
        ConstraintId::Numbered(nid) => {
            lemma_parse_decimal(nid as usize);
            assert(name.drop_first() =~= decimal(nid as nat));
            assert(numbered_name(name) == Some(nid));
        },
        ConstraintId::Horizontal(h) => {
            lemma_line_with_handle(lines, h);
            let l = line_with_handle(lines, h).unwrap();
            let rest = name.drop_first();
            assert(rest =~= l.name@ + seq!['H']);
            let d = if rest.len() > 0 && rest[0] == '+' { rest.drop_first() } else { rest };
            assert(d[d.len() - 1] == 'H');
            assert(!is_digit(d[d.len() - 1]));
            assert(numbered_name(name) is None);
            assert(name.subrange(1, name.len() - 1) =~= l.name@);
        },
        ConstraintId::Vertical(h) => {
            lemma_line_with_handle(lines, h);
            let l = line_with_handle(lines, h).unwrap();
            let rest = name.drop_first();
            assert(rest =~= l.name@ + seq!['V']);
            let d = if rest.len() > 0 && rest[0] == '+' { rest.drop_first() } else { rest };
            assert(d[d.len() - 1] == 'V');
            assert(!is_digit(d[d.len() - 1]));
            assert(numbered_name(name) is None);
            assert(name.subrange(1, name.len() - 1) =~= l.name@);
        },
        ConstraintId::HelperBridge(_) => {},
    }
}

} // verus!
