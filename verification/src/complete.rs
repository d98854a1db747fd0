//! Command-line autocompletion: which words fit the argument the cursor
//! is in, given the names the sketch and the session carry.

use vstd::prelude::*;
use crate::text::{chars_of, is_whitespace, is_ws, push_str, string_of};

verus! {

// ---------------------------------------------------------------------------
// Names
// ---------------------------------------------------------------------------

/// The names completion offers, by kind: what it reads of the sketch
/// (entity, dimension, parameter, meta-constraint and constraint names)
/// and the session's captured names.
pub struct NameIndex {
    pub lines: Vec<String>,
    /// Circular and elliptic arcs (`A<n>`, `EA<n>`).
    pub arcs: Vec<String>,
    /// Visible points (helper points are not named to the user).
    pub points: Vec<String>,
    pub dims: Vec<String>,
    pub params: Vec<String>,
    pub metas: Vec<String>,
    pub constraints: Vec<String>,
    /// Names captured in the session (`a, b = split ...`).
    pub session: Vec<String>,
}

/// The characters of each string.
pub open spec fn views(v: Seq<String>) -> Seq<Seq<char>> {
    v.map_values(|s: String| s@)
}

/// The characters of each word.
pub open spec fn word_views(v: Seq<Vec<char>>) -> Seq<Seq<char>> {
    v.map_values(|w: Vec<char>| w@)
}

/// [`NameIndex`] as sequences of names.
pub struct NamesModel {
    pub lines: Seq<Seq<char>>,
    pub arcs: Seq<Seq<char>>,
    pub points: Seq<Seq<char>>,
    pub dims: Seq<Seq<char>>,
    pub params: Seq<Seq<char>>,
    pub metas: Seq<Seq<char>>,
    pub constraints: Seq<Seq<char>>,
    pub session: Seq<Seq<char>>,
}

impl View for NameIndex {
    type V = NamesModel;

    open spec fn view(&self) -> NamesModel {
        NamesModel {
            lines: views(self.lines@),
            arcs: views(self.arcs@),
            points: views(self.points@),
            dims: views(self.dims@),
            params: views(self.params@),
            metas: views(self.metas@),
            constraints: views(self.constraints@),
            session: views(self.session@),
        }
    }
}

impl NameIndex {
    /// No names at all.
    pub fn new() -> (r: NameIndex)
        ensures
            r@.lines.len() == 0,
            r@.arcs.len() == 0,
            r@.points.len() == 0,
            r@.dims.len() == 0,
            r@.params.len() == 0,
            r@.metas.len() == 0,
            r@.constraints.len() == 0,
            r@.session.len() == 0,
    {
        NameIndex {
            lines: Vec::new(),
            arcs: Vec::new(),
            points: Vec::new(),
            dims: Vec::new(),
            params: Vec::new(),
            metas: Vec::new(),
            constraints: Vec::new(),
            session: Vec::new(),
        }
    }
}

// ---------------------------------------------------------------------------
// Argument kinds
// ---------------------------------------------------------------------------

/// Fixed word lists an argument can take.
#[derive(Clone, Copy, PartialEq, Eq, Structural, Debug)]
pub enum WordSet {
    /// `list` topics.
    ListTopics,
    /// `cursor` switch.
    OnOff,
    /// Line styles.
    Styles,
    /// `dim_pos` placements.
    DimPlacements,
    /// Constraint types removable from an entity (`delete L0 horizontal`).
    ConstraintTypes,
    /// `help` topics: `full` and every command.
    HelpTopics,
    /// `zoom` steps.
    ZoomSteps,
    /// Trailing flags of the `add_*` commands that chain and move the cursor.
    AddFlags,
    /// Trailing flag of `add_point`.
    CursorFlag,
    /// Trailing flags of `split` / `trim`.
    SplitFlags,
}

/// What an argument position takes.
#[derive(Clone, Copy, PartialEq, Eq, Structural, Debug)]
pub enum ArgKind {
    /// No argument goes here.
    Nothing,
    Line,
    Arc,
    Point,
    /// A line or an arc.
    Curve,
    /// A line, arc or point, or a session name.
    Entity,
    Dim,
    Param,
    Meta,
    /// Anything deletable: entities, dimensions, meta-constraints,
    /// constraints and session names.
    Deletable,
    /// A coordinate: the cursor keyword or a named point.
    Coord,
    /// An expression: dimension and parameter names.
    Expr,
    /// A dimension value: an expression or `derived` / `driven`.
    DimValue,
    /// One word of a fixed list.
    Word(WordSet),
    /// Trailing flags, each given at most once.
    Flags(WordSet),
    /// Of the same kind as the first argument (a line for a line, an arc
    /// for an arc).
    LikeFirst,
}

/// The commands the dispatcher accepts.
pub open spec fn command_names() -> Seq<Seq<char>> {
    command_names_0() + command_names_1() + command_names_2() + command_names_3() + command_names_4() + command_names_5() + command_names_6() + command_names_7()
}

pub open spec fn command_names_0() -> Seq<Seq<char>> {
    seq!["add_line"@, "add_point"@, "add_circle"@, "add_circle2"@, "add_circle3"@, "add_circle2t"@, "add_circle3t"@, "add_arc"@, "add_ellipse"@, "add_earc"@]
}

pub open spec fn command_names_1() -> Seq<Seq<char>> {
    seq!["add_earc3"@, "add_earc_center"@, "add_earc_tangent"@, "add_earc_rtangent"@, "add_rect"@, "add_rect3"@, "add_rectcenter"@, "delete"@, "length"@, "radius"@]
}

pub open spec fn command_names_2() -> Seq<Seq<char>> {
    seq!["radius_b"@, "sweep"@, "xangle"@, "angle"@, "distance"@, "hdistance"@, "vdistance"@, "horizontal"@, "vertical"@, "parallel"@]
}

pub open spec fn command_names_3() -> Seq<Seq<char>> {
    seq!["perpendicular"@, "collinear"@, "equal"@, "concentric"@, "tangent"@, "coincident"@, "midpoint"@, "point_on"@, "on_normal"@, "symmetry"@]
}

pub open spec fn command_names_4() -> Seq<Seq<char>> {
    seq!["select"@, "deselect"@, "lock"@, "info"@, "print"@, "measure"@, "find"@, "list"@, "cursor"@, "style"@]
}

pub open spec fn command_names_5() -> Seq<Seq<char>> {
    seq!["dim_pos"@, "dof"@, "cost"@, "clear"@, "timing"@, "undo"@, "redo"@, "history"@, "param"@, "del_param"@]
}

pub open spec fn command_names_6() -> Seq<Seq<char>> {
    seq!["rename_param"@, "help"@, "set_derived"@, "set_driven"@, "quiet"@, "constr"@, "freeze"@, "offset"@, "pattern"@, "mirror"@]
}

pub open spec fn command_names_7() -> Seq<Seq<char>> {
    seq!["scale"@, "split"@, "trim"@, "fillet"@, "chamfer"@, "drag"@, "msg"@, "zoom"@, "center"@]
}

/// The words of a fixed list.
pub open spec fn word_set(s: WordSet) -> Seq<Seq<char>> {
    match s {
        WordSet::ListTopics => seq![
            "lines"@, "arcs"@, "points"@, "constraints"@, "dims"@, "params"@, "metas"@, "all"@
        ],
        WordSet::OnOff => seq!["on"@, "off"@],
        WordSet::Styles => seq!["solid"@, "dashed"@, "dotted"@, "dashdot"@],
        WordSet::DimPlacements => seq!["offset"@, "along"@],
        WordSet::ConstraintTypes => seq![
            "horizontal"@, "vertical"@, "length"@, "radius"@, "lock"@, "all"@
        ],
        WordSet::HelpTopics => seq!["full"@] + command_names(),
        WordSet::ZoomSteps => seq!["+"@, "-"@],
        WordSet::AddFlags => seq!["noconnect"@, "nocursor"@],
        WordSet::CursorFlag => seq!["nocursor"@],
        WordSet::SplitFlags => seq!["nopin"@, "forward"@, "backward"@],
    }
}

/// The kind of argument `i` (0 = first after the command) of `cmd`.
pub open spec fn arg_kind(cmd: Seq<char>, i: nat) -> ArgKind {
    if cmd == "add_line"@ {
        if i < 2 { ArgKind::Coord } else { ArgKind::Flags(WordSet::AddFlags) }
    } else if cmd == "add_point"@ {
        if i < 1 { ArgKind::Coord } else { ArgKind::Flags(WordSet::CursorFlag) }
    } else if cmd == "add_circle"@ {
        if i == 0 { ArgKind::Coord } else if i == 1 { ArgKind::Expr } else { ArgKind::Flags(WordSet::AddFlags) }
    } else if cmd == "add_arc"@ || cmd == "add_circle3"@ || cmd == "add_earc3"@ {
        if i < 3 { ArgKind::Coord } else { ArgKind::Flags(WordSet::AddFlags) }
    } else if cmd == "add_ellipse"@ {
        if i == 0 { ArgKind::Coord } else if i < 4 { ArgKind::Expr } else { ArgKind::Flags(WordSet::AddFlags) }
    } else if cmd == "add_earc_center"@ {
        if i == 0 { ArgKind::Coord } else if i < 6 { ArgKind::Expr } else { ArgKind::Flags(WordSet::AddFlags) }
    } else if cmd == "add_circle2"@ || cmd == "add_rect"@ || cmd == "add_rectcenter"@ {
        if i < 2 { ArgKind::Coord } else { ArgKind::Flags(WordSet::AddFlags) }
    } else if cmd == "add_rect3"@ {
        if i < 3 { ArgKind::Coord } else { ArgKind::Flags(WordSet::AddFlags) }
    } else if cmd == "add_circle2t"@ || cmd == "add_circle3t"@ || cmd == "add_earc"@
        || cmd == "add_earc_tangent"@ || cmd == "add_earc_rtangent"@ {
        ArgKind::Entity
    } else if cmd == "delete"@ {
        if i == 0 { ArgKind::Deletable } else if i == 1 { ArgKind::Word(WordSet::ConstraintTypes) } else { ArgKind::Nothing }
    } else if cmd == "length"@ {
        if i == 0 { ArgKind::Line } else if i == 1 { ArgKind::DimValue } else { ArgKind::Nothing }
    } else if cmd == "radius"@ || cmd == "radius_b"@ || cmd == "sweep"@ {
        if i == 0 { ArgKind::Arc } else if i == 1 { ArgKind::DimValue } else { ArgKind::Nothing }
    } else if cmd == "xangle"@ {
        if i == 0 { ArgKind::Curve } else if i == 1 { ArgKind::DimValue } else { ArgKind::Nothing }
    } else if cmd == "angle"@ {
        if i < 2 { ArgKind::Line } else if i == 2 { ArgKind::DimValue } else { ArgKind::Nothing }
    } else if cmd == "distance"@ || cmd == "hdistance"@ || cmd == "vdistance"@ {
        if i < 2 { ArgKind::Coord } else if i == 2 { ArgKind::DimValue } else { ArgKind::Nothing }
    } else if cmd == "horizontal"@ || cmd == "vertical"@ {
        ArgKind::Line
    } else if cmd == "parallel"@ || cmd == "perpendicular"@ || cmd == "collinear"@ || cmd
        == "tangent"@ {
        if i < 2 { ArgKind::Curve } else { ArgKind::Nothing }
    } else if cmd == "equal"@ {
        if i == 0 { ArgKind::Curve } else if i == 1 { ArgKind::LikeFirst } else { ArgKind::Nothing }
    } else if cmd == "concentric"@ {
        if i < 2 { ArgKind::Arc } else { ArgKind::Nothing }
    } else if cmd == "coincident"@ {
        if i < 2 { ArgKind::Coord } else { ArgKind::Nothing }
    } else if cmd == "midpoint"@ {
        if i == 0 { ArgKind::Coord } else if i == 1 { ArgKind::Line } else { ArgKind::Nothing }
    } else if cmd == "point_on"@ {
        if i == 0 { ArgKind::Coord } else if i == 1 { ArgKind::Curve } else { ArgKind::Nothing }
    } else if cmd == "on_normal"@ || cmd == "symmetry"@ || cmd == "select"@ || cmd == "deselect"@
        || cmd == "lock"@ || cmd == "info"@ || cmd == "print"@ || cmd == "measure"@ || cmd
        == "find"@ || cmd == "quiet"@ || cmd == "constr"@ || cmd == "freeze"@ || cmd
        == "mirror"@ || cmd == "scale"@ || cmd == "pattern"@ || cmd == "center"@ {
        ArgKind::Entity
    } else if cmd == "list"@ {
        if i == 0 { ArgKind::Word(WordSet::ListTopics) } else { ArgKind::Nothing }
    } else if cmd == "cursor"@ {
        if i == 0 { ArgKind::Word(WordSet::OnOff) } else { ArgKind::Nothing }
    } else if cmd == "style"@ {
        if i == 0 { ArgKind::Entity } else if i == 1 { ArgKind::Word(WordSet::Styles) } else { ArgKind::Nothing }
    } else if cmd == "dim_pos"@ {
        if i == 0 { ArgKind::Dim } else if i == 1 { ArgKind::Word(WordSet::DimPlacements) } else if i == 2 { ArgKind::Expr } else { ArgKind::Nothing }
    } else if cmd == "param"@ {
        if i == 1 { ArgKind::Expr } else { ArgKind::Nothing }
    } else if cmd == "del_param"@ || cmd == "rename_param"@ {
        if i == 0 { ArgKind::Param } else { ArgKind::Nothing }
    } else if cmd == "help"@ {
        if i == 0 { ArgKind::Word(WordSet::HelpTopics) } else { ArgKind::Nothing }
    } else if cmd == "set_derived"@ || cmd == "set_driven"@ {
        ArgKind::Dim
    } else if cmd == "offset"@ {
        if i == 0 { ArgKind::Curve } else if i == 1 { ArgKind::Expr } else { ArgKind::Nothing }
    } else if cmd == "split"@ || cmd == "trim"@ {
        if i == 0 { ArgKind::Curve } else if i == 1 { ArgKind::Coord } else { ArgKind::Flags(WordSet::SplitFlags) }
    } else if cmd == "fillet"@ || cmd == "chamfer"@ {
        if i == 0 { ArgKind::Coord } else if i == 1 { ArgKind::Expr } else { ArgKind::Nothing }
    } else if cmd == "drag"@ {
        if i < 2 { ArgKind::Coord } else { ArgKind::Nothing }
    } else if cmd == "zoom"@ {
        if i == 0 { ArgKind::Word(WordSet::ZoomSteps) } else { ArgKind::Nothing }
    } else {
        ArgKind::Nothing
    }
}

/// The names of the kind the first argument has, when it names a line or
/// an arc; both otherwise.
pub open spec fn like_first(n: NamesModel, first: Seq<char>) -> Seq<Seq<char>> {
    if n.lines.contains(first) {
        n.lines
    } else if n.arcs.contains(first) {
        n.arcs
    } else {
        n.lines + n.arcs
    }
}

/// Every word an argument of kind `k` can be, in the order offered.
pub open spec fn kind_candidates(k: ArgKind, n: NamesModel, first: Seq<char>) -> Seq<Seq<char>> {
    match k {
        ArgKind::Nothing => seq![],
        ArgKind::Line => n.lines,
        ArgKind::Arc => n.arcs,
        ArgKind::Point => n.points,
        ArgKind::Curve => n.lines + n.arcs,
        ArgKind::Entity => n.lines + n.arcs + n.points + n.session,
        ArgKind::Dim => n.dims,
        ArgKind::Param => n.params,
        ArgKind::Meta => n.metas,
        ArgKind::Deletable => n.lines + n.arcs + n.points + n.dims + n.metas + n.constraints
            + n.session,
        ArgKind::Coord => seq!["cursor"@] + n.points,
        ArgKind::Expr => n.dims + n.params,
        ArgKind::DimValue => n.dims + n.params + seq!["derived"@, "driven"@],
        ArgKind::Word(s) => word_set(s),
        ArgKind::Flags(s) => word_set(s),
        ArgKind::LikeFirst => like_first(n, first),
    }
}

// ---------------------------------------------------------------------------
// Reading the input
// ---------------------------------------------------------------------------

/// The finished words of `s` and the word being typed at its end (empty
/// after trailing whitespace), reading left to right.
pub open spec fn scan(s: Seq<char>) -> (Seq<Seq<char>>, Seq<char>)
    decreases s.len(),
{
    if s.len() == 0 {
        (seq![], seq![])
    } else {
        let (done, cur) = scan(s.drop_last());
        if is_ws(s.last()) {
            if cur.len() > 0 {
                (done.push(cur), seq![])
            } else {
                (done, seq![])
            }
        } else {
            (done, cur.push(s.last()))
        }
    }
}

pub open spec fn starts_with(w: Seq<char>, p: Seq<char>) -> bool {
    p.len() <= w.len() && w.take(p.len() as int) == p
}

/// The position of the first `.` in `w`, if any.
pub open spec fn first_dot(w: Seq<char>) -> Option<nat>
    decreases w.len(),
{
    if w.len() == 0 {
        None
    } else if w[0] == '.' {
        Some(0)
    } else {
        match first_dot(w.drop_first()) {
            Some(i) => Some(i + 1),
            None => None,
        }
    }
}

/// Points of a named line or arc (`L0.p1`, `A0.center`, ...).
pub open spec fn dot_candidates(n: NamesModel, base: Seq<char>) -> Seq<Seq<char>> {
    if n.lines.contains(base) {
        seq![base + ".p1"@, base + ".p2"@]
    } else if n.arcs.contains(base) {
        seq![base + ".center"@, base + ".start"@, base + ".end"@]
    } else {
        seq![]
    }
}

/// Kinds whose argument can be a point of an entity.
pub open spec fn takes_points(k: ArgKind) -> bool {
    k == ArgKind::Coord || k == ArgKind::Point || k == ArgKind::Entity
}

/// The words offered for `args` (the arguments typed so far after `cmd`)
/// before filtering: a named entity's points when the word being typed
/// holds a dot, else every word the argument's kind can be.
pub open spec fn slot_candidates(n: NamesModel, cmd: Seq<char>, args: Seq<Seq<char>>, partial: Seq<char>) -> Seq<Seq<char>> {
    let k = arg_kind(cmd, args.len());
    let first = if args.len() > 0 {
        args[0]
    } else {
        seq![]
    };
    match first_dot(partial) {
        Some(i) => if takes_points(k) {
            dot_candidates(n, partial.take(i as int))
        } else {
            kind_candidates(k, n, first)
        },
        None => kind_candidates(k, n, first),
    }
}

/// What completion offers for `input`: nothing for blank input; command
/// names starting with the word typed while the command is being typed;
/// otherwise the candidates of the argument being typed that start with the
/// word typed so far and are not already among the arguments.
pub open spec fn completion(n: NamesModel, input: Seq<char>) -> Seq<Seq<char>> {
    let (done, partial) = scan(input);
    if done.len() == 0 {
        if partial.len() == 0 {
            seq![]
        } else {
            command_names().filter(|c: Seq<char>| starts_with(c, partial))
        }
    } else {
        let args = done.drop_first();
        slot_candidates(n, done[0], args, partial).filter(
            |c: Seq<char>| starts_with(c, partial) && !args.contains(c),
        )
    }
}

/// Every completion continues the word being typed (the text after the
/// last space), and none repeats an argument already given to the command.
pub proof fn lemma_completion_continues_word(n: NamesModel, input: Seq<char>, i: int)
    requires
        0 <= i < completion(n, input).len(),
    ensures
        starts_with(completion(n, input)[i], scan(input).1),
        scan(input).0.len() > 0 ==> !scan(input).0.drop_first().contains(completion(n, input)[i]),
{
    let (done, partial) = scan(input);
    if done.len() == 0 {
        if partial.len() > 0 {
            command_names().lemma_filter_pred(|c: Seq<char>| starts_with(c, partial), i);
        }
    } else {
        let args = done.drop_first();
        slot_candidates(n, done[0], args, partial).lemma_filter_pred(
            |c: Seq<char>| starts_with(c, partial) && !args.contains(c),
            i,
        );
    }
}

// ---------------------------------------------------------------------------
// Executable parts
// ---------------------------------------------------------------------------

/// Whether `w` spells `lit`.
pub fn eq_lit(w: &Vec<char>, lit: &str) -> (b: bool)
    ensures
        b == (w@ == lit@),
{
    let l = chars_of(lit);
    eq_chars(w, &l)
}

/// Whether two words are equal.
pub fn eq_chars(a: &Vec<char>, b: &Vec<char>) -> (r: bool)
    ensures
        r == (a@ == b@),
{
    if a.len() != b.len() {
        return false;
    }
    let mut i: usize = 0;
    while i < a.len()
        invariant
            a@.len() == b@.len(),
            i <= a@.len(),
            forall|j: int| 0 <= j < i ==> a@[j] == b@[j],
        decreases a@.len() - i,
    {
        if a[i] != b[i] {
            return false;
        }
        i = i + 1;
    }
    assert(a@ =~= b@);
    true
}

/// Whether `w` starts with `p`.
pub fn starts_with_exec(w: &Vec<char>, p: &Vec<char>) -> (r: bool)
    ensures
        r == starts_with(w@, p@),
{
    if p.len() > w.len() {
        return false;
    }
    let mut i: usize = 0;
    while i < p.len()
        invariant
            p@.len() <= w@.len(),
            i <= p@.len(),
            forall|j: int| 0 <= j < i ==> w@[j] == p@[j],
        decreases p@.len() - i,
    {
        if w[i] != p[i] {
            assert(w@.take(p@.len() as int)[i as int] != p@[i as int]);
            return false;
        }
        i = i + 1;
    }
    assert(w@.take(p@.len() as int) =~= p@);
    true
}

/// Whether `words` holds `w`.
pub fn contains_word(words: &Vec<Vec<char>>, w: &Vec<char>) -> (r: bool)
    ensures
        r == word_views(words@).contains(w@),
{
    let mut i: usize = 0;
    while i < words.len()
        invariant
            i <= words@.len(),
            forall|j: int| 0 <= j < i ==> words@[j]@ != w@,
        decreases words@.len() - i,
    {
        if eq_chars(&words[i], w) {
            assert(word_views(words@)[i as int] == w@);
            return true;
        }
        i = i + 1;
    }
    assert forall|j: int| 0 <= j < word_views(words@).len() implies word_views(words@)[j] != w@ by {
        assert(word_views(words@)[j] == words@[j]@);
    }
    false
}

/// Append a word spelled by a literal.
fn push_word(out: &mut Vec<Vec<char>>, lit: &str)
    ensures
        word_views(final(out)@) == word_views(old(out)@).push(lit@),
{
    out.push(chars_of(lit));
    assert(word_views(out@) =~= word_views(old(out)@).push(lit@));
}

/// Append the characters of every name.
fn push_names(out: &mut Vec<Vec<char>>, names: &Vec<String>)
    ensures
        word_views(final(out)@) == word_views(old(out)@) + views(names@),
{
    let mut i: usize = 0;
    while i < names.len()
        invariant
            i <= names@.len(),
            word_views(out@) == word_views(old(out)@) + views(names@).take(i as int),
        decreases names@.len() - i,
    {
        let ghost before = word_views(out@);
        out.push(chars_of(names[i].as_str()));
        assert(views(names@).take(i + 1) =~= views(names@).take(i as int).push(names@[i as int]@));
        assert(word_views(out@) =~= before.push(names@[i as int]@));
        i = i + 1;
    }
    assert(views(names@).take(names@.len() as int) =~= views(names@));
}

fn push_command_names_0(out: &mut Vec<Vec<char>>)
    ensures
        word_views(final(out)@) == word_views(old(out)@) + command_names_0(),
{
    let ghost o = word_views(out@);
    push_word(out, "add_line");
    push_word(out, "add_point");
    push_word(out, "add_circle");
    push_word(out, "add_circle2");
    push_word(out, "add_circle3");
    push_word(out, "add_circle2t");
    push_word(out, "add_circle3t");
    push_word(out, "add_arc");
    push_word(out, "add_ellipse");
    push_word(out, "add_earc");
    assert(word_views(out@) =~= o + command_names_0());
}

fn push_command_names_1(out: &mut Vec<Vec<char>>)
    ensures
        word_views(final(out)@) == word_views(old(out)@) + command_names_1(),
{
    let ghost o = word_views(out@);
    push_word(out, "add_earc3");
    push_word(out, "add_earc_center");
    push_word(out, "add_earc_tangent");
    push_word(out, "add_earc_rtangent");
    push_word(out, "add_rect");
    push_word(out, "add_rect3");
    push_word(out, "add_rectcenter");
    push_word(out, "delete");
    push_word(out, "length");
    push_word(out, "radius");
    assert(word_views(out@) =~= o + command_names_1());
}

fn push_command_names_2(out: &mut Vec<Vec<char>>)
    ensures
        word_views(final(out)@) == word_views(old(out)@) + command_names_2(),
{
    let ghost o = word_views(out@);
    push_word(out, "radius_b");
    push_word(out, "sweep");
    push_word(out, "xangle");
    push_word(out, "angle");
    push_word(out, "distance");
    push_word(out, "hdistance");
    push_word(out, "vdistance");
    push_word(out, "horizontal");
    push_word(out, "vertical");
    push_word(out, "parallel");
    assert(word_views(out@) =~= o + command_names_2());
}

fn push_command_names_3(out: &mut Vec<Vec<char>>)
    ensures
        word_views(final(out)@) == word_views(old(out)@) + command_names_3(),
{
    let ghost o = word_views(out@);
    push_word(out, "perpendicular");
    push_word(out, "collinear");
    push_word(out, "equal");
    push_word(out, "concentric");
    push_word(out, "tangent");
    push_word(out, "coincident");
    push_word(out, "midpoint");
    push_word(out, "point_on");
    push_word(out, "on_normal");
    push_word(out, "symmetry");
    assert(word_views(out@) =~= o + command_names_3());
}

fn push_command_names_4(out: &mut Vec<Vec<char>>)
    ensures
        word_views(final(out)@) == word_views(old(out)@) + command_names_4(),
{
    let ghost o = word_views(out@);
    push_word(out, "select");
    push_word(out, "deselect");
    push_word(out, "lock");
    push_word(out, "info");
    push_word(out, "print");
    push_word(out, "measure");
    push_word(out, "find");
    push_word(out, "list");
    push_word(out, "cursor");
    push_word(out, "style");
    assert(word_views(out@) =~= o + command_names_4());
}

fn push_command_names_5(out: &mut Vec<Vec<char>>)
    ensures
        word_views(final(out)@) == word_views(old(out)@) + command_names_5(),
{
    let ghost o = word_views(out@);
    push_word(out, "dim_pos");
    push_word(out, "dof");
    push_word(out, "cost");
    push_word(out, "clear");
    push_word(out, "timing");
    push_word(out, "undo");
    push_word(out, "redo");
    push_word(out, "history");
    push_word(out, "param");
    push_word(out, "del_param");
    assert(word_views(out@) =~= o + command_names_5());
}

fn push_command_names_6(out: &mut Vec<Vec<char>>)
    ensures
        word_views(final(out)@) == word_views(old(out)@) + command_names_6(),
{
    let ghost o = word_views(out@);
    push_word(out, "rename_param");
    push_word(out, "help");
    push_word(out, "set_derived");
    push_word(out, "set_driven");
    push_word(out, "quiet");
    push_word(out, "constr");
    push_word(out, "freeze");
    push_word(out, "offset");
    push_word(out, "pattern");
    push_word(out, "mirror");
    assert(word_views(out@) =~= o + command_names_6());
}

fn push_command_names_7(out: &mut Vec<Vec<char>>)
    ensures
        word_views(final(out)@) == word_views(old(out)@) + command_names_7(),
{
    let ghost o = word_views(out@);
    push_word(out, "scale");
    push_word(out, "split");
    push_word(out, "trim");
    push_word(out, "fillet");
    push_word(out, "chamfer");
    push_word(out, "drag");
    push_word(out, "msg");
    push_word(out, "zoom");
    push_word(out, "center");
    assert(word_views(out@) =~= o + command_names_7());
}

/// The command names, in dispatch order.
pub fn command_name_words() -> (r: Vec<Vec<char>>)
    ensures
        word_views(r@) == command_names(),
{
    let mut r: Vec<Vec<char>> = Vec::new();
    push_command_names_0(&mut r);
    push_command_names_1(&mut r);
    push_command_names_2(&mut r);
    push_command_names_3(&mut r);
    push_command_names_4(&mut r);
    push_command_names_5(&mut r);
    push_command_names_6(&mut r);
    push_command_names_7(&mut r);
    assert(word_views(r@) =~= command_names());
    r
}

/// The words of a fixed list.
pub fn word_set_words(set: WordSet) -> (r: Vec<Vec<char>>)
    ensures
        word_views(r@) == word_set(set),
{
    let mut r: Vec<Vec<char>> = Vec::new();
    match set {
        WordSet::ListTopics => {
            push_word(&mut r, "lines");
            push_word(&mut r, "arcs");
            push_word(&mut r, "points");
            push_word(&mut r, "constraints");
            push_word(&mut r, "dims");
            push_word(&mut r, "params");
            push_word(&mut r, "metas");
            push_word(&mut r, "all");
        },
        WordSet::OnOff => {
            push_word(&mut r, "on");
            push_word(&mut r, "off");
        },
        WordSet::Styles => {
            push_word(&mut r, "solid");
            push_word(&mut r, "dashed");
            push_word(&mut r, "dotted");
            push_word(&mut r, "dashdot");
        },
        WordSet::DimPlacements => {
            push_word(&mut r, "offset");
            push_word(&mut r, "along");
        },
        WordSet::ConstraintTypes => {
            push_word(&mut r, "horizontal");
            push_word(&mut r, "vertical");
            push_word(&mut r, "length");
            push_word(&mut r, "radius");
            push_word(&mut r, "lock");
            push_word(&mut r, "all");
        },
        WordSet::HelpTopics => {
            push_word(&mut r, "full");
            let names = command_name_words();
            let ghost before = word_views(r@);
            let mut i: usize = 0;
            while i < names.len()
                invariant
                    i <= names@.len(),
                    word_views(r@) == before + word_views(names@).take(i as int),
                decreases names@.len() - i,
            {
                let ghost b2 = word_views(r@);
                r.push(names[i].clone());
                assert(word_views(names@).take(i + 1) =~= word_views(names@).take(i as int).push(names@[i as int]@));
                assert(word_views(r@) =~= b2.push(names@[i as int]@));
                i = i + 1;
            }
            assert(word_views(names@).take(names@.len() as int) =~= word_views(names@));
        },
        WordSet::ZoomSteps => {
            push_word(&mut r, "+");
            push_word(&mut r, "-");
        },
        WordSet::AddFlags => {
            push_word(&mut r, "noconnect");
            push_word(&mut r, "nocursor");
        },
        WordSet::CursorFlag => {
            push_word(&mut r, "nocursor");
        },
        WordSet::SplitFlags => {
            push_word(&mut r, "nopin");
            push_word(&mut r, "forward");
            push_word(&mut r, "backward");
        },
    }
    assert(word_views(r@) =~= word_set(set));
    r
}

/// The kind of argument `i` of the command `cmd`.
pub fn arg_kind_of(cmd: &Vec<char>, i: usize) -> (k: ArgKind)
    ensures
        k == arg_kind(cmd@, i as nat),
{
    if eq_lit(cmd, "add_line") {
        if i < 2 { ArgKind::Coord } else { ArgKind::Flags(WordSet::AddFlags) }
    } else if eq_lit(cmd, "add_point") {
        if i < 1 { ArgKind::Coord } else { ArgKind::Flags(WordSet::CursorFlag) }
    } else if eq_lit(cmd, "add_circle") {
        if i == 0 { ArgKind::Coord } else if i == 1 { ArgKind::Expr } else { ArgKind::Flags(WordSet::AddFlags) }
    } else if eq_lit(cmd, "add_arc") || eq_lit(cmd, "add_circle3") || eq_lit(cmd, "add_earc3") {
        if i < 3 { ArgKind::Coord } else { ArgKind::Flags(WordSet::AddFlags) }
    } else if eq_lit(cmd, "add_ellipse") {
        if i == 0 { ArgKind::Coord } else if i < 4 { ArgKind::Expr } else { ArgKind::Flags(WordSet::AddFlags) }
    } else if eq_lit(cmd, "add_earc_center") {
        if i == 0 { ArgKind::Coord } else if i < 6 { ArgKind::Expr } else { ArgKind::Flags(WordSet::AddFlags) }
    } else if eq_lit(cmd, "add_circle2") || eq_lit(cmd, "add_rect") || eq_lit(cmd, "add_rectcenter") {
        if i < 2 { ArgKind::Coord } else { ArgKind::Flags(WordSet::AddFlags) }
    } else if eq_lit(cmd, "add_rect3") {
        if i < 3 { ArgKind::Coord } else { ArgKind::Flags(WordSet::AddFlags) }
    } else if eq_lit(cmd, "add_circle2t") || eq_lit(cmd, "add_circle3t") || eq_lit(cmd, "add_earc")
        || eq_lit(cmd, "add_earc_tangent") || eq_lit(cmd, "add_earc_rtangent") {
        ArgKind::Entity
    } else if eq_lit(cmd, "delete") {
        if i == 0 { ArgKind::Deletable } else if i == 1 { ArgKind::Word(WordSet::ConstraintTypes) } else { ArgKind::Nothing }
    } else if eq_lit(cmd, "length") {
        if i == 0 { ArgKind::Line } else if i == 1 { ArgKind::DimValue } else { ArgKind::Nothing }
    } else if eq_lit(cmd, "radius") || eq_lit(cmd, "radius_b") || eq_lit(cmd, "sweep") {
        if i == 0 { ArgKind::Arc } else if i == 1 { ArgKind::DimValue } else { ArgKind::Nothing }
    } else if eq_lit(cmd, "xangle") {
        if i == 0 { ArgKind::Curve } else if i == 1 { ArgKind::DimValue } else { ArgKind::Nothing }
    } else if eq_lit(cmd, "angle") {
        if i < 2 { ArgKind::Line } else if i == 2 { ArgKind::DimValue } else { ArgKind::Nothing }
    } else if eq_lit(cmd, "distance") || eq_lit(cmd, "hdistance") || eq_lit(cmd, "vdistance") {
        if i < 2 { ArgKind::Coord } else if i == 2 { ArgKind::DimValue } else { ArgKind::Nothing }
    } else if eq_lit(cmd, "horizontal") || eq_lit(cmd, "vertical") {
        ArgKind::Line
    } else if eq_lit(cmd, "parallel") || eq_lit(cmd, "perpendicular") || eq_lit(cmd, "collinear")
        || eq_lit(cmd, "tangent") {
        if i < 2 { ArgKind::Curve } else { ArgKind::Nothing }
    } else if eq_lit(cmd, "equal") {
        if i == 0 { ArgKind::Curve } else if i == 1 { ArgKind::LikeFirst } else { ArgKind::Nothing }
    } else if eq_lit(cmd, "concentric") {
        if i < 2 { ArgKind::Arc } else { ArgKind::Nothing }
    } else if eq_lit(cmd, "coincident") {
        if i < 2 { ArgKind::Coord } else { ArgKind::Nothing }
    } else if eq_lit(cmd, "midpoint") {
        if i == 0 { ArgKind::Coord } else if i == 1 { ArgKind::Line } else { ArgKind::Nothing }
    } else if eq_lit(cmd, "point_on") {
        if i == 0 { ArgKind::Coord } else if i == 1 { ArgKind::Curve } else { ArgKind::Nothing }
    } else if eq_lit(cmd, "on_normal") || eq_lit(cmd, "symmetry") || eq_lit(cmd, "select") || eq_lit(
        cmd,
        "deselect",
    ) || eq_lit(cmd, "lock") || eq_lit(cmd, "info") || eq_lit(cmd, "print") || eq_lit(cmd, "measure")
        || eq_lit(cmd, "find") || eq_lit(cmd, "quiet") || eq_lit(cmd, "constr") || eq_lit(
        cmd,
        "freeze",
    ) || eq_lit(cmd, "mirror") || eq_lit(cmd, "scale") || eq_lit(cmd, "pattern") || eq_lit(
        cmd,
        "center",
    ) {
        ArgKind::Entity
    } else if eq_lit(cmd, "list") {
        if i == 0 { ArgKind::Word(WordSet::ListTopics) } else { ArgKind::Nothing }
    } else if eq_lit(cmd, "cursor") {
        if i == 0 { ArgKind::Word(WordSet::OnOff) } else { ArgKind::Nothing }
    } else if eq_lit(cmd, "style") {
        if i == 0 { ArgKind::Entity } else if i == 1 { ArgKind::Word(WordSet::Styles) } else { ArgKind::Nothing }
    } else if eq_lit(cmd, "dim_pos") {
        if i == 0 { ArgKind::Dim } else if i == 1 { ArgKind::Word(WordSet::DimPlacements) } else if i == 2 { ArgKind::Expr } else { ArgKind::Nothing }
    } else if eq_lit(cmd, "param") {
        if i == 1 { ArgKind::Expr } else { ArgKind::Nothing }
    } else if eq_lit(cmd, "del_param") || eq_lit(cmd, "rename_param") {
        if i == 0 { ArgKind::Param } else { ArgKind::Nothing }
    } else if eq_lit(cmd, "help") {
        if i == 0 { ArgKind::Word(WordSet::HelpTopics) } else { ArgKind::Nothing }
    } else if eq_lit(cmd, "set_derived") || eq_lit(cmd, "set_driven") {
        ArgKind::Dim
    } else if eq_lit(cmd, "offset") {
        if i == 0 { ArgKind::Curve } else if i == 1 { ArgKind::Expr } else { ArgKind::Nothing }
    } else if eq_lit(cmd, "split") || eq_lit(cmd, "trim") {
        if i == 0 { ArgKind::Curve } else if i == 1 { ArgKind::Coord } else { ArgKind::Flags(WordSet::SplitFlags) }
    } else if eq_lit(cmd, "fillet") || eq_lit(cmd, "chamfer") {
        if i == 0 { ArgKind::Coord } else if i == 1 { ArgKind::Expr } else { ArgKind::Nothing }
    } else if eq_lit(cmd, "drag") {
        if i < 2 { ArgKind::Coord } else { ArgKind::Nothing }
    } else if eq_lit(cmd, "zoom") {
        if i == 0 { ArgKind::Word(WordSet::ZoomSteps) } else { ArgKind::Nothing }
    } else {
        ArgKind::Nothing
    }
}

/// Whether `names` holds a name spelled `w`.
fn names_contain(names: &Vec<String>, w: &Vec<char>) -> (r: bool)
    ensures
        r == views(names@).contains(w@),
{
    let mut i: usize = 0;
    while i < names.len()
        invariant
            i <= names@.len(),
            forall|j: int| 0 <= j < i ==> names@[j]@ != w@,
        decreases names@.len() - i,
    {
        let c = chars_of(names[i].as_str());
        if eq_chars(&c, w) {
            assert(views(names@)[i as int] == w@);
            return true;
        }
        i = i + 1;
    }
    assert forall|j: int| 0 <= j < views(names@).len() implies views(names@)[j] != w@ by {
        assert(views(names@)[j] == names@[j]@);
    }
    false
}

/// Every word an argument of kind `k` can be.
pub fn kind_candidate_words(k: ArgKind, n: &NameIndex, first: &Vec<char>) -> (r: Vec<Vec<char>>)
    ensures
        word_views(r@) == kind_candidates(k, n@, first@),
{
    let mut r: Vec<Vec<char>> = Vec::new();
    match k {
        ArgKind::Nothing => {},
        ArgKind::Line => push_names(&mut r, &n.lines),
        ArgKind::Arc => push_names(&mut r, &n.arcs),
        ArgKind::Point => push_names(&mut r, &n.points),
        ArgKind::Curve => {
            push_names(&mut r, &n.lines);
            push_names(&mut r, &n.arcs);
        },
        ArgKind::Entity => {
            push_names(&mut r, &n.lines);
            push_names(&mut r, &n.arcs);
            push_names(&mut r, &n.points);
            push_names(&mut r, &n.session);
        },
        ArgKind::Dim => push_names(&mut r, &n.dims),
        ArgKind::Param => push_names(&mut r, &n.params),
        ArgKind::Meta => push_names(&mut r, &n.metas),
        ArgKind::Deletable => {
            push_names(&mut r, &n.lines);
            push_names(&mut r, &n.arcs);
            push_names(&mut r, &n.points);
            push_names(&mut r, &n.dims);
            push_names(&mut r, &n.metas);
            push_names(&mut r, &n.constraints);
            push_names(&mut r, &n.session);
        },
        ArgKind::Coord => {
            push_word(&mut r, "cursor");
            push_names(&mut r, &n.points);
        },
        ArgKind::Expr => {
            push_names(&mut r, &n.dims);
            push_names(&mut r, &n.params);
        },
        ArgKind::DimValue => {
            push_names(&mut r, &n.dims);
            push_names(&mut r, &n.params);
            push_word(&mut r, "derived");
            push_word(&mut r, "driven");
        },
        ArgKind::Word(set) => {
            r = word_set_words(set);
        },
        ArgKind::Flags(set) => {
            r = word_set_words(set);
        },
        ArgKind::LikeFirst => {
            if names_contain(&n.lines, first) {
                push_names(&mut r, &n.lines);
            } else if names_contain(&n.arcs, first) {
                push_names(&mut r, &n.arcs);
            } else {
                push_names(&mut r, &n.lines);
                push_names(&mut r, &n.arcs);
            }
        },
    }
    assert(word_views(r@) =~= kind_candidates(k, n@, first@));
    r
}

/// Split `s` into its finished words and the word being typed.
pub fn scan_words(s: &Vec<char>) -> (r: (Vec<Vec<char>>, Vec<char>))
    ensures
        (word_views(r.0@), r.1@) == scan(s@),
{
    let mut done: Vec<Vec<char>> = Vec::new();
    let mut cur: Vec<char> = Vec::new();
    let mut i: usize = 0;
    while i < s.len()
        invariant
            i <= s@.len(),
            (word_views(done@), cur@) == scan(s@.take(i as int)),
        decreases s@.len() - i,
    {
        let c = s[i];
        let ghost t = s@.take(i + 1);
        assert(t.drop_last() =~= s@.take(i as int));
        assert(t.last() == c);
        let ghost before = word_views(done@);
        if is_whitespace(c) {
            if cur.len() > 0 {
                done.push(cur);
                cur = Vec::new();
                assert(word_views(done@) =~= before.push(scan(s@.take(i as int)).1));
            }
        } else {
            cur.push(c);
        }
        i = i + 1;
    }
    assert(s@.take(s@.len() as int) =~= s@);
    (done, cur)
}

/// Position of the first `.` in `w`.
pub fn find_dot(w: &Vec<char>) -> (r: Option<usize>)
    ensures
        r matches Some(i) ==> first_dot(w@) == Some(i as nat) && i < w@.len(),
        r is None ==> first_dot(w@) is None,
{
    let mut i: usize = 0;
    while i < w.len()
        invariant
            i <= w@.len(),
            forall|j: int| 0 <= j < i ==> w@[j] != '.',
        decreases w@.len() - i,
    {
        if w[i] == '.' {
            proof {
                lemma_first_dot(w@, i as nat);
            }
            return Some(i);
        }
        i = i + 1;
    }
    proof {
        lemma_no_dot(w@);
    }
    None
}

proof fn lemma_first_dot(w: Seq<char>, i: nat)
    requires
        i < w.len(),
        w[i as int] == '.',
        forall|j: int| 0 <= j < i ==> w[j] != '.',
    ensures
        first_dot(w) == Some(i),
    decreases i,
{
    if i > 0 {
        lemma_first_dot(w.drop_first(), (i - 1) as nat);
    }
}

proof fn lemma_no_dot(w: Seq<char>)
    requires
        forall|j: int| 0 <= j < w.len() ==> w[j] != '.',
    ensures
        first_dot(w) is None,
    decreases w.len(),
{
    if w.len() > 0 {
        lemma_no_dot(w.drop_first());
    }
}

/// `base` followed by a literal suffix.
fn suffixed(base: &Vec<char>, suffix: &str) -> (r: Vec<char>)
    ensures
        r@ == base@ + suffix@,
{
    let mut r = base.clone();
    assert(r@ =~= base@);
    push_str(&mut r, suffix);
    r
}

/// The points of a named line or arc.
pub fn dot_candidate_words(n: &NameIndex, base: &Vec<char>) -> (r: Vec<Vec<char>>)
    ensures
        word_views(r@) == dot_candidates(n@, base@),
{
    let mut r: Vec<Vec<char>> = Vec::new();
    if names_contain(&n.lines, base) {
        r.push(suffixed(base, ".p1"));
        r.push(suffixed(base, ".p2"));
    } else if names_contain(&n.arcs, base) {
        r.push(suffixed(base, ".center"));
        r.push(suffixed(base, ".start"));
        r.push(suffixed(base, ".end"));
    }
    assert(word_views(r@) =~= dot_candidates(n@, base@));
    r
}

/// The words offered for the argument being typed, before filtering.
pub fn slot_candidate_words(n: &NameIndex, cmd: &Vec<char>, args: &Vec<Vec<char>>, partial: &Vec<char>) -> (r: Vec<Vec<char>>)
    ensures
        word_views(r@) == slot_candidates(n@, cmd@, word_views(args@), partial@),
{
    let k = arg_kind_of(cmd, args.len());
    let first: Vec<char> = if args.len() > 0 { args[0].clone() } else { Vec::new() };
    assert(first@ == (if word_views(args@).len() > 0 { word_views(args@)[0] } else { Seq::<char>::empty() }));
    match find_dot(partial) {
        Some(i) => {
            if k == ArgKind::Coord || k == ArgKind::Point || k == ArgKind::Entity {
                let base = crate::text::slice_chars(partial, 0, i);
                assert(base@ =~= partial@.take(i as int));
                dot_candidate_words(n, &base)
            } else {
                kind_candidate_words(k, n, &first)
            }
        },
        None => kind_candidate_words(k, n, &first),
    }
}

/// Keep the words of `cands` that start with `partial` and are not among
/// `typed`, in order.
pub fn filter_words(cands: &Vec<Vec<char>>, partial: &Vec<char>, typed: &Vec<Vec<char>>) -> (r: Vec<Vec<char>>)
    ensures
        word_views(r@) == word_views(cands@).filter(
            |c: Seq<char>| starts_with(c, partial@) && !word_views(typed@).contains(c),
        ),
{
    let ghost pred = |c: Seq<char>| starts_with(c, partial@) && !word_views(typed@).contains(c);
    let ghost cv = word_views(cands@);
    let mut r: Vec<Vec<char>> = Vec::new();
    let mut i: usize = 0;
    while i < cands.len()
        invariant
            i <= cands@.len(),
            cv == word_views(cands@),
            pred == (|c: Seq<char>| starts_with(c, partial@) && !word_views(typed@).contains(c)),
            word_views(r@) == cv.take(i as int).filter(pred),
        decreases cands@.len() - i,
    {
        let ghost before = word_views(r@);
        proof {
            reveal_with_fuel(Seq::<_>::filter, 1);
            assert(cv.take(i + 1).drop_last() =~= cv.take(i as int));
            assert(cv.take(i + 1).last() == cands@[i as int]@);
        }
        let keep = starts_with_exec(&cands[i], partial) && !contains_word(typed, &cands[i]);
        if keep {
            r.push(cands[i].clone());
            assert(word_views(r@) =~= before.push(cands@[i as int]@));
        }
        i = i + 1;
    }
    assert(cv.take(cands@.len() as int) =~= cv);
    r
}

/// The strings of a list of words.
fn strings_of(words: &Vec<Vec<char>>) -> (r: Vec<String>)
    ensures
        views(r@) == word_views(words@),
{
    let mut r: Vec<String> = Vec::new();
    let mut i: usize = 0;
    while i < words.len()
        invariant
            i <= words@.len(),
            views(r@) == word_views(words@).take(i as int),
        decreases words@.len() - i,
    {
        let ghost before = views(r@);
        r.push(string_of(&words[i]));
        assert(views(r@) =~= before.push(words@[i as int]@));
        assert(word_views(words@).take(i + 1) =~= word_views(words@).take(i as int).push(words@[i as int]@));
        i = i + 1;
    }
    assert(word_views(words@).take(words@.len() as int) =~= word_views(words@));
    r
}

/// The completions of the command line `input` with the cursor after its
/// first `pos` characters.
pub fn complete(names: &NameIndex, input: &str, pos: usize) -> (r: Vec<String>)
    ensures
        views(r@) == completion(names@, input@.take(if pos <= input@.len() { pos as int } else { input@.len() as int })),
{
    let all = chars_of(input);
    let end = if pos <= all.len() { pos } else { all.len() };
    let text = crate::text::slice_chars(&all, 0, end);
    assert(text@ =~= input@.take(end as int));
    let (done, partial) = scan_words(&text);
    if done.len() == 0 {
        if partial.len() == 0 {
            let r: Vec<String> = Vec::new();
            assert(views(r@) =~= Seq::<Seq<char>>::empty());
            return r;
        }
        let cmds = command_name_words();
        let none: Vec<Vec<char>> = Vec::new();
        let kept = filter_words(&cmds, &partial, &none);
        assert(word_views(none@) =~= Seq::<Seq<char>>::empty());
        assert((|c: Seq<char>| starts_with(c, partial@) && !word_views(none@).contains(c)) =~= (|c: Seq<char>| starts_with(c, partial@)));
        return strings_of(&kept);
    }
    let args = crate::complete::tail_words(&done);
    let cands = slot_candidate_words(names, &done[0], &args, &partial);
    let kept = filter_words(&cands, &partial, &args);
    strings_of(&kept)
}

/// All words after the first.
fn tail_words(words: &Vec<Vec<char>>) -> (r: Vec<Vec<char>>)
    requires
        words@.len() > 0,
    ensures
        word_views(r@) == word_views(words@).drop_first(),
{
    let mut r: Vec<Vec<char>> = Vec::new();
    let mut i: usize = 1;
    while i < words.len()
        invariant
            1 <= i <= words@.len(),
            word_views(r@) == word_views(words@).subrange(1, i as int),
        decreases words@.len() - i,
    {
        let ghost before = word_views(r@);
        r.push(words[i].clone());
        assert(word_views(r@) =~= before.push(words@[i as int]@));
        assert(word_views(words@).subrange(1, i + 1) =~= word_views(words@).subrange(1, i as int).push(words@[i as int]@));
        i = i + 1;
    }
    assert(word_views(words@).subrange(1, words@.len() as int) =~= word_views(words@).drop_first());
    r
}

/// Whether `name` names an arc: `A<digits>` or `EA<digits>`.
pub open spec fn arc_name(name: Seq<char>) -> bool {
    let digits = if name.len() >= 2 && name[0] == 'E' && name[1] == 'A' {
        name.skip(2)
    } else if name.len() >= 1 && name[0] == 'A' {
        name.skip(1)
    } else {
        Seq::empty()
    };
    digits.len() > 0 && crate::text::all_digits(digits)
}

/// Whether `name` names an arc: `A<digits>` or `EA<digits>`.
pub fn is_arc_name(name: &str) -> (b: bool)
    ensures
        b == arc_name(name@),
{
    let c = chars_of(name);
    let start: usize = if c.len() >= 2 && c[0] == 'E' && c[1] == 'A' {
        2
    } else if c.len() >= 1 && c[0] == 'A' {
        1
    } else {
        return false;
    };
    if start >= c.len() {
        return false;
    }
    let ghost d = c@.skip(start as int);
    assert(arc_name(name@) == (d.len() > 0 && crate::text::all_digits(d)));
    let mut i = start;
    while i < c.len()
        invariant
            d == c@.skip(start as int),
            c@ == name@,
            arc_name(name@) == (d.len() > 0 && crate::text::all_digits(d)),
            start <= i <= c@.len(),
            forall|j: int| start <= j < i ==> crate::text::is_digit(#[trigger] c@[j]),
        decreases c@.len() - i,
    {
        if !('0' <= c[i] && c[i] <= '9') {
            assert(c@.skip(start as int)[i - start] == c@[i as int]);
            assert(!crate::text::is_digit(c@.skip(start as int)[i - start]));
            return false;
        }
        i = i + 1;
    }
    assert forall|j: int| 0 <= j < c@.skip(start as int).len() implies crate::text::is_digit(#[trigger] c@.skip(start as int)[j]) by {
        assert(c@.skip(start as int)[j] == c@[j + start]);
    }
    true
}

} // verus!
