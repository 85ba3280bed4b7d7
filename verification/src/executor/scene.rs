//! The rows that a walk leaves behind: one for each phase and each scope that it
//! came to.

use vstd::prelude::*;

use crate::executor::coords;
use crate::executor::coords::{canonical_phase_label, format_iter_label, IterationStep};
use crate::executor::node::PathSegment;
use crate::text::str_eq;

verus! {

/// What a row stands for.
pub enum SceneKind {
    /// A phase, with the names of its ops.
    Phase(Vec<String>),
    /// A scope, with the names that it declares itself.
    Scope(Vec<String>),
}

/// One row.
pub struct SceneNode {
    /// The place of the row around it.
    pub parent: usize,
    pub kind: SceneKind,
    pub name: String,
    /// The coordinates that a phase runs under.
    pub labels: String,
    /// Where it is declared.
    pub yaml_path: Vec<PathSegment>,
}

/// The rows, in the order in which the walk came to them.
pub struct SceneRows {
    pub nodes: Vec<SceneNode>,
}

/// Names one execution of a phase in a checkpoint: where it is declared and
/// under which coordinates it runs.
pub struct CheckpointIdentity<'a> {
    /// Empty for a phase that is not declared.
    pub yaml_path: &'a [PathSegment],
    pub coords: String,
}

pub open spec fn is_phase_kind(k: SceneKind) -> bool {
    k is Phase
}

/// The row that a phase, or a scope, of this name has below this parent.
pub open spec fn is_row_of(n: SceneNode, parent: usize, phase: bool, name: Seq<char>) -> bool {
    n.parent == parent && is_phase_kind(n.kind) == phase && n.name@ == name
}

/// `i` is the first such row.
pub open spec fn first_row_of(
    nodes: Seq<SceneNode>,
    parent: usize,
    phase: bool,
    name: Seq<char>,
    i: int,
) -> bool {
    &&& 0 <= i < nodes.len()
    &&& is_row_of(nodes[i], parent, phase, name)
    &&& forall|k: int| 0 <= k < i ==> !is_row_of(#[trigger] nodes[k], parent, phase, name)
}

/// There is no such row.
pub open spec fn no_row_of(
    nodes: Seq<SceneNode>,
    parent: usize,
    phase: bool,
    name: Seq<char>,
) -> bool {
    forall|k: int| 0 <= k < nodes.len() ==> !is_row_of(#[trigger] nodes[k], parent, phase, name)
}

fn find_row(rows: &SceneRows, parent: usize, phase: bool, name: &str) -> (r: Option<usize>)
    ensures
        match r {
            Some(i) => first_row_of(rows.nodes@, parent, phase, name@, i as int),
            None => no_row_of(rows.nodes@, parent, phase, name@),
        },
{
    let mut i: usize = 0;
    while i < rows.nodes.len()
        invariant
            i <= rows.nodes@.len(),
            forall|k: int|
                0 <= k < i ==> !is_row_of(#[trigger] rows.nodes@[k], parent, phase, name@),
        decreases rows.nodes@.len() - i,
    {
        let n = &rows.nodes[i];
        let is_phase = match &n.kind {
            SceneKind::Phase(_) => true,
            SceneKind::Scope(_) => false,
        };
        if is_phase == phase && n.parent == parent && str_eq(n.name.as_str(), name) {
            return Some(i);
        }
        i += 1;
    }
    None
}

/// A known row after it was added again as `row`: it keeps its coordinates, and
/// a scope without names of its own keeps those it had.
pub open spec fn renewed(known: SceneNode, row: SceneNode) -> SceneNode {
    SceneNode {
        kind: match (known.kind, row.kind) {
            (SceneKind::Scope(had), SceneKind::Scope(now)) => SceneKind::Scope(
                if now@.len() > 0 {
                    now
                } else {
                    had
                },
            ),
            _ => row.kind,
        },
        yaml_path: row.yaml_path,
        ..known
    }
}

/// Adding `row` to `before` gives `after`, with the row at `at`: where its phase
/// or scope has its row already, else at the end.
pub open spec fn row_added(
    before: Seq<SceneNode>,
    row: SceneNode,
    after: Seq<SceneNode>,
    at: int,
) -> bool {
    let phase = is_phase_kind(row.kind);
    ||| first_row_of(before, row.parent, phase, row.name@, at) && after == before.update(
        at,
        renewed(before[at], row),
    )
    ||| no_row_of(before, row.parent, phase, row.name@) && at == before.len() && after
        == before.push(row)
}

fn add_row(rows: &mut SceneRows, row: SceneNode) -> (r: usize)
    ensures
        row_added(old(rows).nodes@, row, final(rows).nodes@, r as int),
{
    let phase = match &row.kind {
        SceneKind::Phase(_) => true,
        SceneKind::Scope(_) => false,
    };
    match find_row(rows, row.parent, phase, row.name.as_str()) {
        Some(i) => {
            let mut known = SceneNode {
                parent: 0,
                kind: SceneKind::Phase(Vec::new()),
                name: String::new(),
                labels: String::new(),
                yaml_path: Vec::new(),
            };
            rows.nodes.set_and_swap(i, &mut known);
            let kind = match (known.kind, row.kind) {
                (SceneKind::Scope(had), SceneKind::Scope(now)) => SceneKind::Scope(
                    if now.len() > 0 {
                        now
                    } else {
                        had
                    },
                ),
                (_, kind) => kind,
            };
            let fresh = SceneNode {
                parent: known.parent,
                kind,
                name: known.name,
                labels: known.labels,
                yaml_path: row.yaml_path,
            };
            rows.nodes.set(i, fresh);
            assert(rows.nodes@ =~= old(rows).nodes@.update(
                i as int,
                renewed(old(rows).nodes@[i as int], row),
            ));
            i
        },
        None => {
            let id: usize = rows.nodes.len();
            rows.nodes.push(row);
            id
        },
    }
}

/// Adds the row of a phase and gives its place. A phase that has a row below
/// this parent keeps it.
pub fn push_phase_scene_node(
    rows: &mut SceneRows,
    parent: usize,
    yaml_path: Vec<PathSegment>,
    name: String,
    labels: String,
    op_names: Vec<String>,
) -> (r: usize)
    ensures
        row_added(
            old(rows).nodes@,
            (SceneNode { parent, kind: SceneKind::Phase(op_names), name, labels, yaml_path }),
            final(rows).nodes@,
            r as int,
        ),
{
    add_row(
        rows,
        SceneNode { parent, kind: SceneKind::Phase(op_names), name, labels, yaml_path },
    )
}

/// The row of a scope: it runs under no coordinates of its own.
pub open spec fn is_scope_row(
    row: SceneNode,
    parent: usize,
    yaml_path: Vec<PathSegment>,
    header: Seq<char>,
    own_names: Vec<String>,
) -> bool {
    &&& row.parent == parent
    &&& row.kind == SceneKind::Scope(own_names)
    &&& row.name@ == header
    &&& row.labels@.len() == 0
    &&& row.yaml_path == yaml_path
}

/// Adds the row of a scope and gives its place. A scope that has a row below
/// this parent keeps it.
pub fn push_scope_scene_node(
    rows: &mut SceneRows,
    parent: usize,
    yaml_path: Vec<PathSegment>,
    header: String,
    own_names: Vec<String>,
) -> (r: usize)
    ensures
        exists|row: SceneNode|
            is_scope_row(row, parent, yaml_path, header@, own_names) && #[trigger] row_added(
                old(rows).nodes@,
                row,
                final(rows).nodes@,
                r as int,
            ),
{
    let row = SceneNode {
        parent,
        kind: SceneKind::Scope(own_names),
        name: header,
        labels: String::new(),
        yaml_path,
    };
    let ghost given = row;
    assert(is_scope_row(given, parent, yaml_path, header@, own_names));
    add_row(rows, row)
}

/// What the row of a phase says beside its coordinates.
pub struct PhaseMeta {
    pub name: String,
    pub op_names: Vec<String>,
    pub yaml_path: Vec<PathSegment>,
}

/// Adds the rows of one iteration below its sweep and gives the place to go on
/// from: a scope that shows the bindings, and below it the phase where the sweep
/// runs one.
pub fn push_iteration_rows(
    rows: &mut SceneRows,
    parent: usize,
    path: Vec<PathSegment>,
    step: &IterationStep,
    own_names: Vec<String>,
    phase: Option<PhaseMeta>,
) -> (r: usize)
    ensures
        exists|row: SceneNode, mid: Seq<SceneNode>, at: int|
            {
                &&& is_scope_row(
                    row,
                    parent,
                    path,
                    coords::iter_label(step.bindings@),
                    row.kind->Scope_0,
                )
                &&& #[trigger] row_added(old(rows).nodes@, row, mid, at)
                &&& match phase {
                    None => row.kind->Scope_0 == own_names && mid == final(rows).nodes@ && at == r,
                    Some(m) => row.kind->Scope_0@.len() == 0 && exists|leaf: SceneNode|
                        {
                            &&& leaf.parent == at
                            &&& leaf.kind == SceneKind::Phase(m.op_names)
                            &&& leaf.name == m.name
                            &&& leaf.labels@ == coords::phase_label(step.coord_path@)
                            &&& leaf.yaml_path == m.yaml_path
                            &&& #[trigger] row_added(mid, leaf, final(rows).nodes@, r as int)
                        },
                }
            },
{
    let shown = format_iter_label(&step.bindings);
    let ghost before = rows.nodes@;
    match phase {
        None => {
            let r = push_scope_scene_node(rows, parent, path, shown, own_names);
            proof {
                let row = choose|row: SceneNode|
                    is_scope_row(row, parent, path, shown@, own_names) && #[trigger] row_added(
                        before,
                        row,
                        rows.nodes@,
                        r as int,
                    );
                assert(row_added(before, row, rows.nodes@, r as int));
            }
            r
        },
        Some(m) => {
            let none: Vec<String> = Vec::new();
            let ghost no_names = none;
            let at = push_scope_scene_node(rows, parent, path, shown, none);
            let ghost mid = rows.nodes@;
            let labels = canonical_phase_label(&step.coord_path);
            let ghost leaf = SceneNode {
                parent: at,
                kind: SceneKind::Phase(m.op_names),
                name: m.name,
                labels,
                yaml_path: m.yaml_path,
            };
            let r = push_phase_scene_node(rows, at, m.yaml_path, m.name, labels, m.op_names);
            proof {
                let row = choose|row: SceneNode|
                    is_scope_row(row, parent, path, shown@, no_names) && #[trigger] row_added(
                        before,
                        row,
                        mid,
                        at as int,
                    );
                assert(row_added(before, row, mid, at as int));
                assert(row_added(mid, leaf, rows.nodes@, r as int));
            }
            r
        },
    }
}

/// The row of a phase with this name and these coordinates.
pub open spec fn is_phase_row(n: SceneNode, name: Seq<char>, labels: Seq<char>) -> bool {
    n.kind is Phase && n.name@ == name && n.labels@ == labels
}

/// `i` is the first row of the phase.
pub open spec fn first_phase_row(
    nodes: Seq<SceneNode>,
    name: Seq<char>,
    labels: Seq<char>,
    i: int,
) -> bool {
    &&& 0 <= i < nodes.len()
    &&& is_phase_row(nodes[i], name, labels)
    &&& forall|k: int| 0 <= k < i ==> !is_phase_row(#[trigger] nodes[k], name, labels)
}

fn find_phase(rows: &SceneRows, name: &str, labels: &str) -> (r: Option<usize>)
    ensures
        match r {
            Some(i) => first_phase_row(rows.nodes@, name@, labels@, i as int),
            None => forall|k: int|
                0 <= k < rows.nodes@.len() ==> !is_phase_row(
                    #[trigger] rows.nodes@[k],
                    name@,
                    labels@,
                ),
        },
{
    let mut i: usize = 0;
    while i < rows.nodes.len()
        invariant
            i <= rows.nodes@.len(),
            forall|k: int|
                0 <= k < i ==> !is_phase_row(#[trigger] rows.nodes@[k], name@, labels@),
        decreases rows.nodes@.len() - i,
    {
        let n = &rows.nodes[i];
        let is_phase = match &n.kind {
            SceneKind::Phase(_) => true,
            _ => false,
        };
        if is_phase && str_eq(n.name.as_str(), name) && str_eq(n.labels.as_str(), labels) {
            return Some(i);
        }
        i += 1;
    }
    None
}

/// The identity of a phase under its coordinates. A phase without a row is not
/// declared anywhere.
pub fn phase_identity_for<'a>(rows: &'a SceneRows, phase_name: &str, phase_labels: &str) -> (r:
    CheckpointIdentity<'a>)
    ensures
        r.coords@ == phase_labels@,
        forall|i: int| #[trigger]
            first_phase_row(rows.nodes@, phase_name@, phase_labels@, i) ==> r.yaml_path@
                == rows.nodes@[i].yaml_path@,
        (forall|k: int|
            0 <= k < rows.nodes@.len() ==> !is_phase_row(
                #[trigger] rows.nodes@[k],
                phase_name@,
                phase_labels@,
            )) ==> r.yaml_path@.len() == 0,
{
    let yaml_path: &'a [PathSegment] = match find_phase(rows, phase_name, phase_labels) {
        Some(at) => rows.nodes[at].yaml_path.as_slice(),
        None => &[],
    };
    CheckpointIdentity { yaml_path, coords: phase_labels.to_owned() }
}

/// A phase that had no row is found under the path that its row was given.
pub proof fn law_row_is_found(
    before: Seq<SceneNode>,
    row: SceneNode,
    after: Seq<SceneNode>,
    at: int,
)
    requires
        row.kind is Phase,
        no_row_of(before, row.parent, true, row.name@),
        row_added(before, row, after, at),
        forall|k: int|
            0 <= k < before.len() ==> !is_phase_row(#[trigger] before[k], row.name@, row.labels@),
    ensures
        first_phase_row(after, row.name@, row.labels@, at),
        after[at] == row,
{
    if first_row_of(before, row.parent, true, row.name@, at) {
        assert(!is_row_of(before[at], row.parent, true, row.name@));
    }
}

/// Adding the same row a second time gives the same place and changes nothing.
pub proof fn law_rows_are_idempotent(
    before: Seq<SceneNode>,
    row: SceneNode,
    after: Seq<SceneNode>,
    at: int,
    again: Seq<SceneNode>,
    at_again: int,
)
    requires
        row_added(before, row, after, at),
        row_added(after, row, again, at_again),
    ensures
        at_again == at,
        again == after,
{
    let phase = is_phase_kind(row.kind);
    assert(is_row_of(after[at], row.parent, phase, row.name@));
    assert forall|k: int| 0 <= k < at implies !is_row_of(
        #[trigger] after[k],
        row.parent,
        phase,
        row.name@,
    ) by {
        assert(after[k] == before[k]);
    }
    assert(at_again == at);
    assert(again =~= after);
}

/// A row keeps its place, its parent, its name and its coordinates whatever is
/// added after it.
pub proof fn law_rows_keep_their_place(
    before: Seq<SceneNode>,
    row: SceneNode,
    after: Seq<SceneNode>,
    at: int,
    k: int,
)
    requires
        row_added(before, row, after, at),
        0 <= k < before.len(),
    ensures
        k < after.len(),
        after[k].parent == before[k].parent,
        after[k].name == before[k].name,
        after[k].labels == before[k].labels,
        is_phase_kind(after[k].kind) == is_phase_kind(before[k].kind),
{
}

/// Phases of one name below different scopes have rows of their own.
pub proof fn law_cells_are_told_apart(
    before: Seq<SceneNode>,
    one: SceneNode,
    mid: Seq<SceneNode>,
    at: int,
    other: SceneNode,
    after: Seq<SceneNode>,
    at_other: int,
)
    requires
        row_added(before, one, mid, at),
        row_added(mid, other, after, at_other),
        one.parent != other.parent,
    ensures
        at != at_other,
{
    assert(mid[at].parent == one.parent);
    if at == at_other {
        assert(mid.len() > at);
        assert(mid[at].parent == other.parent);
    }
}

/// A row that is added is where it is said to be, below the row it belongs to, under its
/// name and of its kind, and it tells where it is declared.
pub proof fn law_added_row_is_there(
    before: Seq<SceneNode>,
    row: SceneNode,
    after: Seq<SceneNode>,
    at: int,
)
    requires
        row_added(before, row, after, at),
    ensures
        0 <= at < after.len(),
        after[at].parent == row.parent,
        after[at].name@ == row.name@,
        after[at].kind is Phase <==> row.kind is Phase,
        after[at].yaml_path == row.yaml_path,
        row.kind is Phase ==> after[at].kind == row.kind,
        row.kind matches SceneKind::Scope(names) ==> names@.len() > 0 ==> after[at].kind
            == row.kind,
        forall|k: int| 0 <= k < before.len() && k != at ==> #[trigger] after[k] == before[k],
{
}

/// A row is new exactly where no row of its kind and name is below its parent yet; then it
/// comes last and nothing else changes.
pub proof fn law_row_is_new_iff_unknown(
    before: Seq<SceneNode>,
    row: SceneNode,
    after: Seq<SceneNode>,
    at: int,
)
    requires
        row_added(before, row, after, at),
    ensures
        ({
            let known = exists|k: int|
                0 <= k < before.len() && (#[trigger] before[k]).parent == row.parent
                    && before[k].name@ == row.name@ && (before[k].kind is Phase <==> row.kind
                    is Phase);
            &&& !known ==> after == before.push(row)
            &&& known ==> after.len() == before.len() && after[at].labels == before[at].labels
        }),
{
    if no_row_of(before, row.parent, is_phase_kind(row.kind), row.name@) {
        assert forall|k: int| 0 <= k < before.len() implies !((#[trigger] before[k]).parent
            == row.parent && before[k].name@ == row.name@ && (before[k].kind is Phase <==> row.kind
            is Phase)) by {
            assert(!is_row_of(before[k], row.parent, is_phase_kind(row.kind), row.name@));
        }
    } else {
        assert(is_row_of(before[at], row.parent, is_phase_kind(row.kind), row.name@));
    }
}

/// The names that a scope declared stay where it is added again without any.
pub proof fn law_declared_names_stay(
    before: Seq<SceneNode>,
    row: SceneNode,
    after: Seq<SceneNode>,
    at: int,
)
    requires
        row_added(before, row, after, at),
        at < before.len(),
        row.kind matches SceneKind::Scope(names) && names@.len() == 0,
    ensures
        after[at].kind == before[at].kind,
{
    assert(is_row_of(before[at], row.parent, false, row.name@));
}

/// A row is that of a phase with these coordinates where it has its kind, its name and its
/// labels; a scope never is.
pub proof fn law_phase_row_is_told_by_name_and_labels(
    n: SceneNode,
    name: Seq<char>,
    labels: Seq<char>,
    other: Seq<char>,
)
    ensures
        n.kind is Scope ==> !is_phase_row(n, name, labels),
        n.kind is Phase ==> is_phase_row(n, n.name@, n.labels@),
        is_phase_row(n, name, labels) && is_phase_row(n, other, n.labels@) ==> name == other && labels
            == n.labels@,
{
}

/// The row of a scope stands below its parent under its header, with the names that it
/// declares and without coordinates.
pub proof fn law_scope_row_bears_its_header(
    row: SceneNode,
    parent: usize,
    yaml_path: Vec<PathSegment>,
    header: Seq<char>,
    own_names: Vec<String>,
)
    requires
        is_scope_row(row, parent, yaml_path, header, own_names),
    ensures
        row.parent == parent,
        row.name@ == header,
        row.kind matches SceneKind::Scope(names) && names == own_names,
        row.labels@.len() == 0,
        row.yaml_path == yaml_path,
{
}

} // verus!
