//! The values visible to a phase, by name and in declaration order, and their
//! substitution into configuration texts.

use indexmap::IndexMap;
use vstd::prelude::*;

use crate::executor::context;
use crate::text;
use crate::text::{cat3, join_texts, replace_text};

verus! {

/// `indexmap::IndexMap`, a hash map that keeps the order of insertion.
#[verifier::external_type_specification]
#[verifier::external_body]
#[verifier::reject_recursive_types(K)]
#[verifier::reject_recursive_types(V)]
#[verifier::reject_recursive_types(S)]
pub struct ExIndexMap<K, V, S>(IndexMap<K, V, S>);

/// The entries of an `IndexMap`, in its order.
pub uninterp spec fn var_entries(m: IndexMap<String, String>) -> Seq<(Seq<char>, Seq<char>)>;

/// `IndexMap::new` makes a map without entries.
#[verifier::external_body]
fn new_vars() -> (r: IndexMap<String, String>)
    ensures
        var_entries(r) == Seq::<(Seq<char>, Seq<char>)>::empty(),
{
    IndexMap::new()
}

pub open spec fn has_entry(s: Seq<(Seq<char>, Seq<char>)>, k: Seq<char>) -> bool {
    exists|i: int| 0 <= i < s.len() && (#[trigger] s[i]).0 == k
}

/// The entries after `v` is put under `k`: in its place where `k` is known, at
/// the end where it is new.
pub open spec fn put(s: Seq<(Seq<char>, Seq<char>)>, k: Seq<char>, v: Seq<char>) -> Seq<
    (Seq<char>, Seq<char>),
> {
    if has_entry(s, k) {
        Seq::new(
            s.len(),
            |i: int|
                if s[i].0 == k {
                    (k, v)
                } else {
                    s[i]
                },
        )
    } else {
        s.push((k, v))
    }
}

/// `IndexMap::insert` updates the value of a known key in its place, and puts a
/// new key last.
#[verifier::external_body]
fn put_var(m: &mut IndexMap<String, String>, key: String, value: String)
    ensures
        var_entries(*final(m)) == put(var_entries(*old(m)), key@, value@),
{
    m.insert(key, value);
}

/// `IndexMap::contains_key` tells whether some entry has the key.
#[verifier::external_body]
fn has_var(m: &IndexMap<String, String>, key: &str) -> (r: bool)
    ensures
        r == has_entry(var_entries(*m), key@),
{
    m.contains_key(key)
}

/// `IndexMap::get` finds the value of the entry with the key.
#[verifier::external_body]
fn get_var(m: &IndexMap<String, String>, key: &str) -> (r: Option<String>)
    ensures
        r is Some <==> has_entry(var_entries(*m), key@),
        r matches Some(v) ==> var_entries(*m).contains((key@, v@)),
{
    m.get(key).cloned()
}

/// `IndexMap::iter` hands out the entries in the order of the map.
#[verifier::external_body]
fn list_vars(m: &IndexMap<String, String>) -> (r: Vec<(String, String)>)
    ensures
        context::label_views(r@) == var_entries(*m),
{
    m.iter().map(|(k, v)| (k.clone(), v.clone())).collect()
}

/// A name that a scope knows, and the text of its value where it has one.
pub type Visible = (String, Option<String>);

/// The entries after the outputs of a scope: those with a value, a repeated
/// name keeping its place.
pub open spec fn with_outputs(outputs: Seq<Visible>) -> Seq<(Seq<char>, Seq<char>)>
    decreases outputs.len(),
{
    if outputs.len() == 0 {
        Seq::empty()
    } else {
        let before = with_outputs(outputs.drop_last());
        match outputs.last().1 {
            Some(v) => put(before, outputs.last().0@, v@),
            None => before,
        }
    }
}

/// The entries after the inputs of a scope: an output of that name comes first.
pub open spec fn with_inputs(outputs: Seq<Visible>, inputs: Seq<Visible>) -> Seq<
    (Seq<char>, Seq<char>),
>
    decreases inputs.len(),
{
    if inputs.len() == 0 {
        with_outputs(outputs)
    } else {
        let before = with_inputs(outputs, inputs.drop_last());
        match inputs.last().1 {
            Some(v) => if has_entry(before, inputs.last().0@) {
                before
            } else {
                before.push((inputs.last().0@, v@))
            },
            None => before,
        }
    }
}

/// The values visible to a phase.
pub struct IterVars {
    map: IndexMap<String, String>,
}

impl View for IterVars {
    type V = Seq<(Seq<char>, Seq<char>)>;

    closed spec fn view(&self) -> Seq<(Seq<char>, Seq<char>)> {
        var_entries(self.map)
    }
}

/// One name shown with its value.
pub open spec fn entry_text(e: (Seq<char>, Seq<char>)) -> Seq<char> {
    e.0 + "="@ + e.1
}

pub open spec fn entry_texts(s: Seq<(Seq<char>, Seq<char>)>) -> Seq<Seq<char>> {
    s.map_values(|e: (Seq<char>, Seq<char>)| entry_text(e))
}

/// A text with every `{name}` exchanged for the value of the name, one name
/// after another.
pub open spec fn substituted(t: Seq<char>, vars: Seq<(Seq<char>, Seq<char>)>) -> Seq<char>
    decreases vars.len(),
{
    if vars.len() == 0 {
        t
    } else {
        text::replaced(
            substituted(t, vars.drop_last()),
            "{"@ + vars.last().0 + "}"@,
            vars.last().1,
        )
    }
}

impl IterVars {
    /// The values of a scope with these outputs and inputs: outputs first, in
    /// order, then the inputs that no output hides.
    pub fn collect(outputs: &Vec<Visible>, inputs: &Vec<Visible>) -> (r: Self)
        ensures
            r@ == with_inputs(outputs@, inputs@),
    {
        let mut m = new_vars();
        let mut i: usize = 0;
        assert(outputs@.take(0).len() == 0);
        while i < outputs.len()
            invariant
                i <= outputs@.len(),
                var_entries(m) == with_outputs(outputs@.take(i as int)),
            decreases outputs@.len() - i,
        {
            assert(outputs@.take(i + 1).drop_last() =~= outputs@.take(i as int));
            if let Some(v) = &outputs[i].1 {
                put_var(&mut m, outputs[i].0.clone(), v.clone());
            }
            i += 1;
        }
        assert(outputs@.take(i as int) =~= outputs@);
        let mut j: usize = 0;
        assert(inputs@.take(0).len() == 0);
        while j < inputs.len()
            invariant
                j <= inputs@.len(),
                var_entries(m) == with_inputs(outputs@, inputs@.take(j as int)),
            decreases inputs@.len() - j,
        {
            assert(inputs@.take(j + 1).drop_last() =~= inputs@.take(j as int));
            if !has_var(&m, inputs[j].0.as_str()) {
                if let Some(v) = &inputs[j].1 {
                    put_var(&mut m, inputs[j].0.clone(), v.clone());
                }
            }
            j += 1;
        }
        assert(inputs@.take(j as int) =~= inputs@);
        IterVars { map: m }
    }

    /// Whether nothing is visible.
    pub fn is_empty(&self) -> (r: bool)
        ensures
            r == (self@.len() == 0),
    {
        let all = list_vars(&self.map);
        assert(context::label_views(all@).len() == all@.len());
        all.len() == 0
    }

    /// The value of `name`.
    pub fn get(&self, name: &str) -> (r: Option<String>)
        ensures
            r is Some <==> has_entry(self@, name@),
            r matches Some(v) ==> self@.contains((name@, v@)),
    {
        get_var(&self.map, name)
    }

    /// All names with their values, as they are shown.
    pub fn shown(&self) -> (r: String)
        ensures
            r@ == text::joined(entry_texts(self@), ", "@),
    {
        let all = list_vars(&self.map);
        let mut parts: Vec<String> = Vec::new();
        let mut i: usize = 0;
        while i < all.len()
            invariant
                i <= all@.len(),
                context::label_views(all@) == self@,
                parts@.len() == i,
                forall|k: int| 0 <= k < i ==> #[trigger] parts@[k]@ == entry_text(self@[k]),
            decreases all@.len() - i,
        {
            assert(self@[i as int] == (all@[i as int].0@, all@[i as int].1@));
            parts.push(cat3(all[i].0.as_str(), "=", all[i].1.as_str()));
            i += 1;
        }
        assert(context::label_views(all@).len() == all@.len());
        assert(text::views(parts@) =~= entry_texts(self@));
        join_texts(&parts, ", ")
    }

    /// `t` with every `{name}` exchanged for its value.
    pub fn substitute(&self, t: &str) -> (r: String)
        ensures
            r@ == substituted(t@, self@),
    {
        let all = list_vars(&self.map);
        let mut r = t.to_owned();
        let mut i: usize = 0;
        assert(self@.take(0).len() == 0);
        while i < all.len()
            invariant
                i <= all@.len(),
                context::label_views(all@) == self@,
                r@ == substituted(t@, self@.take(i as int)),
            decreases all@.len() - i,
        {
            assert(self@.take(i + 1).drop_last() =~= self@.take(i as int));
            assert(self@[i as int] == (all@[i as int].0@, all@[i as int].1@));
            let pat = cat3("{", all[i].0.as_str(), "}");
            proof {
                reveal_strlit("{");
                assert(pat@.len() > 0);
            }
            r = replace_text(r.as_str(), pat.as_str(), all[i].1.as_str());
            i += 1;
        }
        assert(context::label_views(all@).len() == all@.len());
        assert(self@.take(i as int) =~= self@);
        r
    }
}

/// No name occurs twice.
pub open spec fn names_distinct(s: Seq<(Seq<char>, Seq<char>)>) -> bool {
    forall|i: int, j: int| 0 <= i < j < s.len() ==> (#[trigger] s[i]).0 != (#[trigger] s[j]).0
}

proof fn lemma_put_distinct(s: Seq<(Seq<char>, Seq<char>)>, k: Seq<char>, v: Seq<char>)
    requires
        names_distinct(s),
    ensures
        names_distinct(put(s, k, v)),
{
    let t = put(s, k, v);
    assert forall|i: int, j: int| 0 <= i < j < t.len() implies (#[trigger] t[i]).0 != (
    #[trigger] t[j]).0 by {
        if j < s.len() {
            assert(s[i].0 != s[j].0);
        }
    }
}

/// No name is visible twice, so a lookup has one answer.
pub proof fn law_visible_names_distinct(outputs: Seq<Visible>, inputs: Seq<Visible>)
    ensures
        names_distinct(with_inputs(outputs, inputs)),
    decreases outputs.len() + inputs.len(),
{
    if inputs.len() > 0 {
        law_visible_names_distinct(outputs, inputs.drop_last());
    } else if outputs.len() > 0 {
        law_visible_names_distinct(outputs.drop_last(), inputs);
        if let Some(v) = outputs.last().1 {
            lemma_put_distinct(with_outputs(outputs.drop_last()), outputs.last().0@, v@);
        }
    }
}

/// An output hides an input of the same name.
pub proof fn law_output_hides_input(
    outputs: Seq<Visible>,
    inputs: Seq<Visible>,
    name: Seq<char>,
    v: Seq<char>,
)
    requires
        with_outputs(outputs).contains((name, v)),
    ensures
        with_inputs(outputs, inputs).contains((name, v)),
    decreases inputs.len(),
{
    if inputs.len() > 0 {
        law_output_hides_input(outputs, inputs.drop_last(), name, v);
        let before = with_inputs(outputs, inputs.drop_last());
        let i = before.index_of((name, v));
        assert(with_inputs(outputs, inputs)[i] == (name, v));
    }
}

/// The outputs from `from` on say nothing of `name`.
pub open spec fn silent_on(outputs: Seq<Visible>, name: Seq<char>, from: int) -> bool {
    forall|k: int|
        from <= k < outputs.len() ==> !((#[trigger] outputs[k]).0@ == name && outputs[k].1 is Some)
}

proof fn lemma_put(s: Seq<(Seq<char>, Seq<char>)>, k: Seq<char>, v: Seq<char>, n: Seq<char>, w: Seq<char>)
    requires
        names_distinct(s),
    ensures
        n == k ==> (put(s, k, v).contains((n, w)) <==> w == v),
        n != k ==> (put(s, k, v).contains((n, w)) <==> s.contains((n, w))),
{
    let p = put(s, k, v);
    if has_entry(s, k) {
        let i = choose|i: int| 0 <= i < s.len() && (#[trigger] s[i]).0 == k;
        assert(p[i] == (k, v));
    } else {
        assert(p[s.len() as int] == (k, v));
    }
    if p.contains((n, w)) {
        let j = p.index_of((n, w));
        if n != k {
            assert(s[j] == (n, w));
        }
    }
    if n != k && s.contains((n, w)) {
        let j = s.index_of((n, w));
        assert(p[j] == (n, w));
    }
}

/// Of several outputs with one name the last that has a value is seen.
pub proof fn law_last_output_is_seen(outputs: Seq<Visible>, i: int, v: Seq<char>)
    requires
        0 <= i < outputs.len(),
        outputs[i].1 is Some,
        silent_on(outputs, outputs[i].0@, i + 1),
    ensures
        with_outputs(outputs).contains((outputs[i].0@, v)) <==> v == outputs[i].1->0@,
    decreases outputs.len(),
{
    let less = outputs.drop_last();
    let last = outputs.last();
    law_visible_names_distinct(less, Seq::empty());
    let name = outputs[i].0@;
    if i < less.len() {
        assert(less[i] == outputs[i]);
        assert(silent_on(less, name, i + 1)) by {
            assert forall|k: int| i + 1 <= k < less.len() implies !((#[trigger] less[k]).0@ == name
                && less[k].1 is Some) by {
                assert(less[k] == outputs[k]);
            }
        }
        law_last_output_is_seen(less, i, v);
        assert(!(outputs[outputs.len() - 1].0@ == name && outputs[outputs.len() - 1].1 is Some));
    }
    if last.1 is Some {
        lemma_put(with_outputs(less), last.0@, last.1->0@, name, v);
    }
}

/// Of an input that no output hides the first that has a value is seen, and what has no
/// value is not seen at all.
pub proof fn law_first_input_is_seen(
    outputs: Seq<Visible>,
    inputs: Seq<Visible>,
    name: Seq<char>,
)
    requires
        silent_on(outputs, name, 0),
    ensures
        has_entry(with_inputs(outputs, inputs), name) <==> !silent_on(inputs, name, 0),
        forall|i: int|
            0 <= i < inputs.len() && (#[trigger] inputs[i]).0@ == name && inputs[i].1 is Some && (
            forall|k: int|
                0 <= k < i ==> !((#[trigger] inputs[k]).0@ == name && inputs[k].1 is Some))
                ==> with_inputs(outputs, inputs).contains((name, inputs[i].1->0@)),
    decreases inputs.len(),
{
    if inputs.len() == 0 {
        lemma_silent_is_unseen(outputs, name);
    } else {
        let less = inputs.drop_last();
        law_first_input_is_seen(outputs, less, name);
        let before = with_inputs(outputs, less);
        let now = with_inputs(outputs, inputs);
        let last = inputs.last();
        let n = less.len() as int;
        assert(inputs[n] == last);
        assert forall|k: int| 0 <= k < n implies #[trigger] inputs[k] == less[k] by {}
        if has_entry(before, name) {
            let j = choose|j: int| 0 <= j < before.len() && (#[trigger] before[j]).0 == name;
            assert(now[j].0 == name);
            let k = choose|k: int|
                0 <= k < less.len() && (#[trigger] less[k]).0@ == name && less[k].1 is Some;
            assert(inputs[k].0@ == name && inputs[k].1 is Some);
        }
        if last.0@ == name && last.1 is Some {
            assert(!silent_on(inputs, name, 0));
            if !has_entry(before, name) {
                assert(now[before.len() as int] == (name, last.1->0@));
            }
        }
        if has_entry(now, name) && !has_entry(before, name) {
            let j = choose|j: int| 0 <= j < now.len() && (#[trigger] now[j]).0 == name;
            if j < before.len() {
                assert(before[j].0 == name);
            }
        }
        assert forall|i: int|
            0 <= i < inputs.len() && (#[trigger] inputs[i]).0@ == name && inputs[i].1 is Some && (
            forall|k: int|
                0 <= k < i ==> !((#[trigger] inputs[k]).0@ == name && inputs[k].1 is Some)) implies now.contains(
        (name, inputs[i].1->0@)) by {
            if i < n {
                assert(less[i] == inputs[i]);
                assert forall|k: int| 0 <= k < i implies !((#[trigger] less[k]).0@ == name
                    && less[k].1 is Some) by {
                    assert(less[k] == inputs[k]);
                }
                let j = before.index_of((name, inputs[i].1->0@));
                assert(now[j] == (name, inputs[i].1->0@));
            } else {
                assert(silent_on(less, name, 0)) by {
                    assert forall|k: int| 0 <= k < less.len() implies !((#[trigger] less[k]).0@ == name
                        && less[k].1 is Some) by {
                        assert(less[k] == inputs[k]);
                    }
                }
            }
        }
    }
}

proof fn lemma_silent_is_unseen(outputs: Seq<Visible>, name: Seq<char>)
    requires
        silent_on(outputs, name, 0),
    ensures
        !has_entry(with_outputs(outputs), name),
    decreases outputs.len(),
{
    if outputs.len() > 0 {
        let less = outputs.drop_last();
        assert(silent_on(less, name, 0)) by {
            assert forall|k: int| 0 <= k < less.len() implies !((#[trigger] less[k]).0@ == name
                && less[k].1 is Some) by {
                assert(less[k] == outputs[k]);
            }
        }
        lemma_silent_is_unseen(less, name);
        assert(outputs[outputs.len() - 1] == outputs.last());
        let before = with_outputs(less);
        let now = with_outputs(outputs);
        if has_entry(now, name) {
            let j = choose|j: int| 0 <= j < now.len() && (#[trigger] now[j]).0 == name;
            if j < before.len() {
                assert(before[j].0 == name);
            }
        }
    }
}

/// Values are filled in one variable after the other, in order: those of the first
/// variables, then those of the rest. Each stands for its name in braces.
pub proof fn law_variables_are_filled_in_order(
    t: Seq<char>,
    a: Seq<(Seq<char>, Seq<char>)>,
    b: Seq<(Seq<char>, Seq<char>)>,
)
    ensures
        substituted(t, a + b) == substituted(substituted(t, a), b),
        a.len() == 1 ==> substituted(t, a) == text::replaced(t, "{"@ + a[0].0 + "}"@, a[0].1),
        a.len() == 0 ==> substituted(t, a) == t,
    decreases b.len(),
{
    if b.len() == 0 {
        assert(a + b =~= a);
    } else {
        assert((a + b).drop_last() =~= a + b.drop_last());
        assert((a + b).last() == b.last());
        law_variables_are_filled_in_order(t, a, b.drop_last());
    }
    if a.len() == 1 {
        reveal_with_fuel(substituted, 2);
        assert(a.drop_last().len() == 0);
        assert(a.last() == a[0]);
    }
}

/// A variable is shown by its name and its value.
pub proof fn law_variables_are_shown(s: Seq<(Seq<char>, Seq<char>)>, i: int)
    requires
        0 <= i < s.len(),
    ensures
        entry_texts(s).len() == s.len(),
        entry_texts(s)[i] == s[i].0 + "="@ + s[i].1,
{
}

} // verus!
