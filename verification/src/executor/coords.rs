//! Iteration coordinates: the bindings of one iteration, the path of scopes
//! around it, and how both are shown and stored.

use vstd::prelude::*;

use crate::executor::context;
use crate::executor::context::ExecCtx;
use crate::strmap::StrMap;
use crate::text;
use crate::text::{cat3, join_texts};
use crate::value;
use crate::value::{Json, Value};

verus! {

/// The coordinates that one scope owns, in clause order.
#[derive(Debug, Clone, PartialEq)]
pub struct ScopeCoord {
    pub vars: Vec<(String, Value)>,
}

/// One iteration of a comprehension: its bindings, and the coordinates from the
/// root of the scenario to it.
#[derive(Debug, Clone, PartialEq)]
pub struct IterationStep {
    pub bindings: Vec<(String, Value)>,
    pub coord_path: Vec<ScopeCoord>,
}

pub open spec fn binding_text(b: (String, Value)) -> Seq<char> {
    b.0@ + "="@ + value::display_of(b.1)
}

pub open spec fn binding_texts(b: Seq<(String, Value)>) -> Seq<Seq<char>> {
    b.map_values(|x: (String, Value)| binding_text(x))
}

/// How a tuple of bindings is shown: `k=v, k=v`.
pub open spec fn iter_label(b: Seq<(String, Value)>) -> Seq<char> {
    text::joined(binding_texts(b), ", "@)
}

/// How a tuple of bindings is shown: `k=v, k=v`.
pub fn format_iter_label(bindings: &Vec<(String, Value)>) -> (r: String)
    ensures
        r@ == iter_label(bindings@),
{
    let mut parts: Vec<String> = Vec::new();
    let mut i: usize = 0;
    while i < bindings.len()
        invariant
            i <= bindings@.len(),
            parts@.len() == i,
            forall|k: int| 0 <= k < i ==> #[trigger] parts@[k]@ == binding_text(bindings@[k]),
        decreases bindings@.len() - i,
    {
        parts.push(
            cat3(bindings[i].0.as_str(), "=", bindings[i].1.to_display_string().as_str()),
        );
        i += 1;
    }
    assert(text::views(parts@) =~= binding_texts(bindings@));
    join_texts(&parts, ", ")
}

/// The strata of a path that own coordinates, each in parentheses.
pub open spec fn strata(coords: Seq<ScopeCoord>) -> Seq<Seq<char>>
    decreases coords.len(),
{
    if coords.len() == 0 {
        Seq::empty()
    } else if coords.last().vars@.len() == 0 {
        strata(coords.drop_last())
    } else {
        strata(coords.drop_last()).push("("@ + iter_label(coords.last().vars@) + ")"@)
    }
}

/// A coordinate path as text, stratum by stratum. Scopes that own no
/// coordinates are passed over.
pub fn format_scope_coordinate_path(coords: &Vec<ScopeCoord>) -> (r: String)
    ensures
        r@ == text::joined(strata(coords@), ", "@),
{
    let mut parts: Vec<String> = Vec::new();
    let mut i: usize = 0;
    assert(text::views(parts@) =~= strata(coords@.take(0)));
    while i < coords.len()
        invariant
            i <= coords@.len(),
            text::views(parts@) == strata(coords@.take(i as int)),
        decreases coords@.len() - i,
    {
        assert(coords@.take(i + 1).drop_last() =~= coords@.take(i as int));
        if coords[i].vars.len() > 0 {
            let ghost before = text::views(parts@);
            let part = cat3("(", format_iter_label(&coords[i].vars).as_str(), ")");
            let ghost added = part@;
            parts.push(part);
            assert(text::views(parts@) =~= before.push(added));
        }
        i += 1;
    }
    assert(coords@.take(i as int) =~= coords@);
    join_texts(&parts, ", ")
}

fn copy_bindings(b: &Vec<(String, Value)>) -> (r: Vec<(String, Value)>)
    ensures
        r@ == b@,
{
    let mut r: Vec<(String, Value)> = Vec::new();
    let mut i: usize = 0;
    while i < b.len()
        invariant
            i <= b@.len(),
            r@ == b@.take(i as int),
        decreases b@.len() - i,
    {
        r.push((b[i].0.clone(), b[i].1.copy()));
        assert(b@.take(i + 1) =~= b@.take(i as int).push(b@[i as int]));
        i += 1;
    }
    assert(b@.take(i as int) =~= b@);
    r
}

/// A path as the sequence of what its scopes own.
pub open spec fn path_vars(coords: Seq<ScopeCoord>) -> Seq<Seq<(String, Value)>> {
    coords.map_values(|c: ScopeCoord| c.vars@)
}

/// The same path, read the other way round.
pub fn reversed_path(coords: &Vec<ScopeCoord>) -> (r: Vec<ScopeCoord>)
    ensures
        path_vars(r@) == path_vars(coords@).reverse(),
{
    let mut r: Vec<ScopeCoord> = Vec::new();
    let mut i: usize = coords.len();
    while i > 0
        invariant
            i <= coords@.len(),
            r@.len() == coords@.len() - i,
            forall|k: int|
                0 <= k < r@.len() ==> (#[trigger] r@[k]).vars@ == coords@[coords@.len() - 1
                    - k].vars@,
        decreases i,
    {
        i -= 1;
        r.push(ScopeCoord { vars: copy_bindings(&coords[i].vars) });
    }
    assert(path_vars(r@) =~= path_vars(coords@).reverse());
    r
}

pub open spec fn strata_of(vars: Seq<Seq<(String, Value)>>) -> Seq<Seq<char>>
    decreases vars.len(),
{
    if vars.len() == 0 {
        Seq::empty()
    } else if vars.last().len() == 0 {
        strata_of(vars.drop_last())
    } else {
        strata_of(vars.drop_last()).push("("@ + iter_label(vars.last()) + ")"@)
    }
}

proof fn lemma_strata(coords: Seq<ScopeCoord>)
    ensures
        strata(coords) == strata_of(path_vars(coords)),
    decreases coords.len(),
{
    if coords.len() > 0 {
        lemma_strata(coords.drop_last());
        assert(path_vars(coords).drop_last() =~= path_vars(coords.drop_last()));
    }
}

/// The label of a phase under a path given from the root: the path from the
/// leaf, as text.
pub open spec fn phase_label(parent_coords: Seq<ScopeCoord>) -> Seq<char> {
    text::joined(strata_of(path_vars(parent_coords).reverse()), ", "@)
}

/// The label of a phase under a path given from the root.
pub fn canonical_phase_label(parent_coords: &Vec<ScopeCoord>) -> (r: String)
    ensures
        r@ == phase_label(parent_coords@),
{
    let leaf_first = reversed_path(parent_coords);
    proof {
        lemma_strata(leaf_first@);
    }
    format_scope_coordinate_path(&leaf_first)
}

/// The iteration that `tuple` gives below `parent_coords`.
pub fn make_step(parent_coords: &Vec<ScopeCoord>, tuple: Vec<(String, Value)>) -> (r: IterationStep)
    ensures
        r.bindings@ == tuple@,
        path_vars(r.coord_path@) == path_vars(parent_coords@).push(tuple@),
{
    let mut path: Vec<ScopeCoord> = Vec::new();
    let mut i: usize = 0;
    while i < parent_coords.len()
        invariant
            i <= parent_coords@.len(),
            path@.len() == i,
            forall|k: int|
                0 <= k < i ==> (#[trigger] path@[k]).vars@ == parent_coords@[k].vars@,
        decreases parent_coords@.len() - i,
    {
        path.push(ScopeCoord { vars: copy_bindings(&parent_coords[i].vars) });
        i += 1;
    }
    path.push(ScopeCoord { vars: copy_bindings(&tuple) });
    assert(path_vars(path@) =~= path_vars(parent_coords@).push(tuple@));
    IterationStep { bindings: tuple, coord_path: path }
}

/// The value that `name` is bound to last.
pub open spec fn last_binding(b: Seq<(String, Value)>, name: Seq<char>) -> Option<Value>
    decreases b.len(),
{
    if b.len() == 0 {
        None
    } else if b.last().0@ == name {
        Some(b.last().1)
    } else {
        last_binding(b.drop_last(), name)
    }
}

/// `m` holds the JSON form of the last value bound to each name.
pub open spec fn is_coord_object(m: Map<Seq<char>, Json>, b: Seq<(String, Value)>) -> bool {
    &&& forall|k: Seq<char>| #[trigger] m.contains_key(k) <==> last_binding(b, k) is Some
    &&& forall|k: Seq<char>| #[trigger]
        m.contains_key(k) ==> value::is_json_of(m[k], last_binding(b, k)->0)
}

/// The coordinates of one scope as a JSON object.
pub fn coord_to_btree(vars: &Vec<(String, Value)>) -> (r: StrMap<Json>)
    ensures
        r.wf(),
        is_coord_object(r@, vars@),
{
    let mut m: StrMap<Json> = StrMap::new();
    let mut i: usize = 0;
    while i < vars.len()
        invariant
            i <= vars@.len(),
            m.wf(),
            is_coord_object(m@, vars@.take(i as int)),
        decreases vars@.len() - i,
    {
        let ghost before = m@;
        assert(vars@.take(i + 1).drop_last() =~= vars@.take(i as int));
        m.insert(vars[i].0.clone(), vars[i].1.to_json());
        proof {
            let b = vars@.take(i + 1);
            assert forall|k: Seq<char>| #[trigger] m@.contains_key(k) <==> last_binding(b, k)
                is Some by {
                assert(before.contains_key(k) <==> last_binding(vars@.take(i as int), k) is Some);
            }
            assert forall|k: Seq<char>| #[trigger] m@.contains_key(k) implies value::is_json_of(
                m@[k],
                last_binding(b, k)->0,
            ) by {
                if k != vars@[i as int].0@ {
                    assert(before.contains_key(k));
                }
            }
        }
        i += 1;
    }
    assert(vars@.take(i as int) =~= vars@);
    m
}

/// The scopes of a path that own coordinates, from the last to the first.
pub open spec fn enclosing(vars: Seq<Seq<(String, Value)>>) -> Seq<Seq<(String, Value)>>
    decreases vars.len(),
{
    if vars.len() == 0 {
        Seq::empty()
    } else if vars.last().len() == 0 {
        enclosing(vars.drop_last())
    } else {
        seq![vars.last()] + enclosing(vars.drop_last())
    }
}

/// `r` holds the objects of the scopes around, from the inside out.
pub open spec fn are_enclosing(r: Seq<StrMap<Json>>, vars: Seq<Seq<(String, Value)>>) -> bool {
    &&& r.len() == enclosing(vars).len()
    &&& forall|i: int|
        0 <= i < r.len() ==> (#[trigger] r[i]).wf() && is_coord_object(r[i]@, enclosing(vars)[i])
}

/// The coordinates of the first `n` scopes of a path, from the last to the
/// first. Scopes without coordinates are left out.
pub fn enclosing_coords(coord_path: &Vec<ScopeCoord>, n: usize) -> (r: Vec<StrMap<Json>>)
    requires
        n <= coord_path@.len(),
    ensures
        are_enclosing(r@, path_vars(coord_path@).take(n as int)),
{
    let ghost outer = path_vars(coord_path@).take(n as int);
    let ghost around = enclosing(outer);
    let mut path: Vec<StrMap<Json>> = Vec::new();
    let mut i: usize = n;
    assert(outer.take(outer.len() as int) =~= outer);
    assert(around.skip(0) =~= around);
    while i > 0
        invariant
            i <= n <= coord_path@.len(),
            outer == path_vars(coord_path@).take(n as int),
            around == enclosing(outer),
            path@.len() <= around.len(),
            around.skip(path@.len() as int) == enclosing(outer.take(i as int)),
            forall|k: int|
                0 <= k < path@.len() ==> (#[trigger] path@[k]).wf() && is_coord_object(
                    path@[k]@,
                    around[k],
                ),
        decreases i,
    {
        i -= 1;
        assert(outer.take(i + 1).drop_last() =~= outer.take(i as int));
        assert(outer.take(i + 1).last() == coord_path@[i as int].vars@);
        if coord_path[i].vars.len() > 0 {
            let ghost rest = around.skip(path@.len() as int);
            assert(rest == seq![coord_path@[i as int].vars@] + enclosing(outer.take(i as int)));
            assert(rest[0] == around[path@.len() as int]);
            path.push(coord_to_btree(&coord_path[i].vars));
            assert(rest.skip(1) =~= around.skip(path@.len() as int));
            assert(rest.skip(1) =~= enclosing(outer.take(i as int)));
        }
    }
    assert(outer.take(0).len() == 0);
    assert(around.skip(path@.len() as int).len() == 0);
    path
}

/// The coordinates of one scope event: those of the iteration itself, and those
/// of the scopes around it from the inside out. Scopes without coordinates are
/// left out.
pub fn scope_event_coords(coord_path: &Vec<ScopeCoord>) -> (r: (StrMap<Json>, Vec<StrMap<Json>>))
    ensures
        r.0.wf(),
        coord_path@.len() == 0 ==> r.0@ == Map::<Seq<char>, Json>::empty() && r.1@.len() == 0,
        coord_path@.len() > 0 ==> is_coord_object(r.0@, coord_path@.last().vars@)
            && are_enclosing(r.1@, path_vars(coord_path@).drop_last()),
{
    let n: usize = coord_path.len();
    if n == 0 {
        return (StrMap::new(), Vec::new());
    }
    let own = coord_to_btree(&coord_path[n - 1].vars);
    assert(path_vars(coord_path@).take(n - 1) =~= path_vars(coord_path@).drop_last());
    (own, enclosing_coords(coord_path, n - 1))
}

/// The coordinates around one iteration of a loop, for a path given from the
/// leaf: from the root on. Scopes without coordinates are left out.
pub fn loop_event_path(leaf_first: &Vec<ScopeCoord>) -> (r: Vec<StrMap<Json>>)
    ensures
        are_enclosing(r@, path_vars(leaf_first@)),
{
    assert(path_vars(leaf_first@).take(leaf_first@.len() as int) =~= path_vars(leaf_first@));
    enclosing_coords(leaf_first, leaf_first.len())
}

/// The labels that an iteration pushes.
pub open spec fn iteration_labels(b: Seq<(String, Value)>) -> Seq<(Seq<char>, Seq<char>)> {
    b.map_values(|x: (String, Value)| (x.0@, value::display_of(x.1)))
}

/// Pushes one label per binding.
pub fn push_iteration(ctx: &mut ExecCtx, bindings: &Vec<(String, Value)>)
    ensures
        *final(ctx) == (ExecCtx { label_stack: final(ctx).label_stack, ..*old(ctx) }),
        context::label_views(final(ctx).label_stack@) == context::label_views(old(ctx).label_stack@)
            + iteration_labels(bindings@),
        final(ctx).label_stack@.take(old(ctx).label_stack@.len() as int) == old(ctx).label_stack@,
        final(ctx).label_stack@.len() == old(ctx).label_stack@.len() + bindings@.len(),
{
    let ghost before = ctx.label_stack@;
    let ghost all = iteration_labels(bindings@);
    let mut i: usize = 0;
    assert(before.take(before.len() as int) =~= before);
    assert(context::label_views(before) + all.take(0) =~= context::label_views(before));
    while i < bindings.len()
        invariant
            i <= bindings@.len(),
            all == iteration_labels(bindings@),
            *ctx == (ExecCtx { label_stack: ctx.label_stack, ..*old(ctx) }),
            before == old(ctx).label_stack@,
            ctx.label_stack@.len() == before.len() + i,
            ctx.label_stack@.take(before.len() as int) == before,
            context::label_views(ctx.label_stack@) == context::label_views(before) + all.take(
                i as int,
            ),
        decreases bindings@.len() - i,
    {
        let ghost now = ctx.label_stack@;
        let shown = bindings[i].1.to_display_string();
        ctx.push_label(bindings[i].0.as_str(), shown.as_str());
        assert(ctx.label_stack@.take(before.len() as int) =~= now.take(before.len() as int)) by {
            assert forall|k: int| 0 <= k < before.len() implies ctx.label_stack@[k] == now[k] by {
                assert(ctx.label_stack@.drop_last()[k] == now[k]);
            }
        }
        assert(all.take(i + 1) =~= all.take(i as int).push(all[i as int]));
        assert((context::label_views(before) + all.take(i as int)).push(all[i as int])
            =~= context::label_views(before) + all.take(i + 1));
        i += 1;
    }
    assert(all.take(i as int) =~= all);
}

/// Pops `n` labels.
pub fn pop_iteration(ctx: &mut ExecCtx, n: usize)
    requires
        n <= old(ctx).label_stack@.len(),
    ensures
        *final(ctx) == (ExecCtx { label_stack: final(ctx).label_stack, ..*old(ctx) }),
        final(ctx).label_stack@ == old(ctx).label_stack@.take(old(ctx).label_stack@.len() - n),
{
    let ghost before = ctx.label_stack@;
    let mut i: usize = 0;
    assert(before.take(before.len() as int) =~= before);
    while i < n
        invariant
            i <= n <= before.len(),
            *ctx == (ExecCtx { label_stack: ctx.label_stack, ..*old(ctx) }),
            before == old(ctx).label_stack@,
            ctx.label_stack@ == before.take(before.len() - i),
        decreases n - i,
    {
        ctx.pop_label();
        assert(before.take(before.len() - i).drop_last() =~= before.take(before.len() - i - 1));
        i += 1;
    }
}

/// Leaving an iteration restores the labels that were in force before it.
pub proof fn law_iteration_restores_labels(
    before: Seq<(String, String)>,
    inside: Seq<(String, String)>,
    n: nat,
)
    requires
        inside.take(before.len() as int) == before,
        inside.len() == before.len() + n,
    ensures
        inside.take(inside.len() - n) == before,
{
}

/// The last binding of a name is the one that counts.
pub proof fn law_last_binding_counts(b: Seq<(String, Value)>, i: int)
    requires
        0 <= i < b.len(),
        forall|k: int| i < k < b.len() ==> (#[trigger] b[k]).0@ != b[i].0@,
    ensures
        last_binding(b, b[i].0@) == Some(b[i].1),
    decreases b.len(),
{
    if i < b.len() - 1 {
        assert(b[b.len() - 1].0@ != b[i].0@);
        let less = b.drop_last();
        assert forall|k: int| i < k < less.len() implies (#[trigger] less[k]).0@ != less[i].0@ by {
            assert(b[k].0@ != b[i].0@);
        }
        law_last_binding_counts(less, i);
    }
}

/// What is not bound has no value.
pub proof fn law_unbound_has_no_value(b: Seq<(String, Value)>, name: Seq<char>)
    requires
        forall|k: int| 0 <= k < b.len() ==> (#[trigger] b[k]).0@ != name,
    ensures
        last_binding(b, name) is None,
    decreases b.len(),
{
    if b.len() > 0 {
        assert(b[b.len() - 1].0@ != name);
        let less = b.drop_last();
        assert forall|k: int| 0 <= k < less.len() implies (#[trigger] less[k]).0@ != name by {
            assert(b[k].0@ != name);
        }
        law_unbound_has_no_value(less, name);
    }
}

/// The strata of a path are those of its parts, one after the other; a coordinate without
/// variables makes none, and any other makes one, in brackets.
pub proof fn law_strata_follow_the_path(a: Seq<ScopeCoord>, b: Seq<ScopeCoord>, c: ScopeCoord)
    ensures
        strata(a + b) == strata(a) + strata(b),
        c.vars@.len() == 0 ==> strata(seq![c]).len() == 0,
        c.vars@.len() > 0 ==> strata(seq![c]) == seq!["("@ + iter_label(c.vars@) + ")"@],
    decreases b.len(),
{
    if b.len() == 0 {
        assert(a + b =~= a);
        assert(strata(a) + strata(b) =~= strata(a));
    } else {
        assert((a + b).drop_last() =~= a + b.drop_last());
        law_strata_follow_the_path(a, b.drop_last(), c);
        assert(strata(a + b) =~= strata(a) + strata(b));
    }
    let one = seq![c];
    assert(one.drop_last() =~= Seq::<ScopeCoord>::empty());
    assert(strata(one.drop_last()).len() == 0);
    if c.vars@.len() > 0 {
        assert(strata(one) =~= seq!["("@ + iter_label(c.vars@) + ")"@]);
    }
}

/// The label of a phase names its innermost coordinate first: one more coordinate around
/// it goes to the end, and one that is further in goes to the front.
pub proof fn law_label_names_innermost_first(
    outer: Seq<(String, Value)>,
    inner: Seq<(String, Value)>,
)
    requires
        outer.len() > 0,
        inner.len() > 0,
    ensures
        strata_of(seq![outer, inner].reverse()) == seq![
            "("@ + iter_label(inner) + ")"@,
            "("@ + iter_label(outer) + ")"@,
        ],
        enclosing(seq![outer, inner]) == seq![inner, outer],
{
    reveal_with_fuel(strata_of, 3);
    reveal_with_fuel(enclosing, 3);
    let both = seq![outer, inner];
    let back = both.reverse();
    assert(back =~= seq![inner, outer]);
    assert(back.drop_last() =~= seq![inner]);
    assert(back.drop_last().drop_last().len() == 0);
    assert(both.drop_last() =~= seq![outer]);
    assert(both.drop_last().drop_last().len() == 0);
    assert(strata_of(back) =~= seq![
        "("@ + iter_label(inner) + ")"@,
        "("@ + iter_label(outer) + ")"@,
    ]);
    assert(enclosing(both) =~= seq![inner, outer]);
}

/// The coordinates around a place are those of the path, innermost first, without the
/// empty ones: what lies further in comes before all that lies further out.
pub proof fn law_enclosing_turns_the_path_round(
    a: Seq<Seq<(String, Value)>>,
    b: Seq<Seq<(String, Value)>>,
)
    ensures
        enclosing(a + b) == enclosing(b) + enclosing(a),
        strata_of(a + b) == strata_of(a) + strata_of(b),
        forall|i: int| 0 <= i < enclosing(b).len() ==> (#[trigger] enclosing(b)[i]).len() > 0,
    decreases b.len(),
{
    if b.len() == 0 {
        assert(a + b =~= a);
        assert(enclosing(b) + enclosing(a) =~= enclosing(a));
        assert(strata_of(a) + strata_of(b) =~= strata_of(a));
    } else {
        assert((a + b).drop_last() =~= a + b.drop_last());
        law_enclosing_turns_the_path_round(a, b.drop_last());
        assert(enclosing(a + b) =~= enclosing(b) + enclosing(a));
        assert(strata_of(a + b) =~= strata_of(a) + strata_of(b));
    }
}

/// An iteration is labelled by its bindings, in order, each as it is shown.
pub proof fn law_iteration_is_labelled_by_bindings(b: Seq<(String, Value)>, i: int)
    requires
        0 <= i < b.len(),
    ensures
        iteration_labels(b).len() == b.len(),
        iteration_labels(b)[i] == (b[i].0@, value::display_of(b[i].1)),
        binding_texts(b).len() == b.len(),
        binding_texts(b)[i] == b[i].0@ + "="@ + value::display_of(b[i].1),
{
}

/// The coordinates around a place are objects, innermost first, each with the last value
/// of every name that it binds.
pub proof fn law_enclosing_are_objects(
    r: Seq<StrMap<Json>>,
    vars: Seq<Seq<(String, Value)>>,
    i: int,
    name: Seq<char>,
)
    requires
        are_enclosing(r, vars),
        0 <= i < r.len(),
    ensures
        r.len() == enclosing(vars).len(),
        r[i]@.contains_key(name) <==> last_binding(enclosing(vars)[i], name) is Some,
        r[i]@.contains_key(name) ==> value::is_json_of(
            r[i]@[name],
            last_binding(enclosing(vars)[i], name)->0,
        ),
{
    assert(r[i].wf() && is_coord_object(r[i]@, enclosing(vars)[i]));
}

} // verus!
