//! Bindings: chains of function calls and the wires they become, and what is
//! asked of the compiler for a set of ops.

use vstd::prelude::*;

use crate::strmap;
use crate::strmap::StrMap;
use crate::text;
use crate::text::{
    cat2, cat3, cat4, cat5, cat6, chars_of, join_texts, split_text, starts_with, str_eq, string_of,
    strip_end_text, trim_start_text, trim_text, u64_text,
};

verus! {

/// A function call of a binding chain.
#[derive(Debug, Clone)]
pub struct BindingFunc {
    pub name: String,
    pub args: Vec<String>,
}

/// A function call by its characters.
pub open spec fn func_model(f: BindingFunc) -> (Seq<char>, Seq<Seq<char>>) {
    (f.name@, text::views(f.args@))
}

pub open spec fn func_models(v: Seq<BindingFunc>) -> Seq<(Seq<char>, Seq<Seq<char>>)> {
    v.map_values(|f: BindingFunc| func_model(f))
}

/// The place of the first `c` in `s`, or the length of `s`.
pub open spec fn first_at(s: Seq<char>, c: char) -> int
    decreases s.len(),
{
    if s.len() == 0 || s[0] == c {
        0
    } else {
        1 + first_at(s.drop_first(), c)
    }
}

/// Whether a quote is open after `s`.
pub open spec fn quoted(s: Seq<char>) -> bool
    decreases s.len(),
{
    s.len() > 0 && (quoted(s.drop_last()) != (s.last() == '\''))
}

/// How many parentheses are open after `s`, quotes left out.
pub open spec fn depth(s: Seq<char>) -> int
    decreases s.len(),
{
    if s.len() == 0 {
        0
    } else {
        depth(s.drop_last()) + (if quoted(s.drop_last()) {
            0int
        } else if s.last() == '(' {
            1
        } else if s.last() == ')' {
            -1
        } else {
            0
        })
    }
}

/// The parts of `s` between the commas that stand outside parentheses and
/// quotes.
pub open spec fn arg_parts(s: Seq<char>) -> Seq<Seq<char>>
    decreases s.len(),
{
    if s.len() == 0 {
        seq![Seq::<char>::empty()]
    } else {
        let before = arg_parts(s.drop_last());
        if s.last() == ',' && !quoted(s.drop_last()) && depth(s.drop_last()) == 0 {
            before.push(Seq::empty())
        } else {
            before.update(before.len() - 1, before.last().push(s.last()))
        }
    }
}

/// The arguments that `s` lists: the parts without white space around them, a
/// blank one at the end left out.
pub open spec fn args_of(s: Seq<char>) -> Seq<Seq<char>> {
    let all = arg_parts(s).map_values(|p: Seq<char>| text::trimmed(p));
    if all.last().len() == 0 {
        all.drop_last()
    } else {
        all
    }
}

/// Splits a list of arguments at its commas. A comma inside parentheses or
/// quotes belongs to an argument.
pub fn split_args(s: &str) -> (r: Vec<String>)
    ensures
        text::views(r@) == args_of(s@),
{
    let v = chars_of(s);
    let mut done: Vec<String> = Vec::new();
    let mut current = String::new();
    let mut open: i128 = 0;
    let mut in_quote = false;
    let mut i: usize = 0;
    assert(v@.take(0) =~= Seq::<char>::empty());
    while i < v.len()
        invariant
            i <= v@.len(),
            in_quote == quoted(v@.take(i as int)),
            open == depth(v@.take(i as int)),
            -(i as int) <= open <= i,
            arg_parts(v@.take(i as int)).len() == done@.len() + 1,
            arg_parts(v@.take(i as int)).last() == current@,
            forall|k: int|
                0 <= k < done@.len() ==> (#[trigger] done@[k])@ == text::trimmed(
                    arg_parts(v@.take(i as int))[k],
                ),
        decreases v@.len() - i,
    {
        let c: char = v[i];
        let ghost before = arg_parts(v@.take(i as int));
        assert(v@.take(i + 1).drop_last() =~= v@.take(i as int));
        assert(v@.take(i + 1).last() == c);
        if c == ',' && open == 0 && !in_quote {
            done.push(trim_text(current.as_str()));
            current = String::new();
            assert(arg_parts(v@.take(i + 1)) == before.push(Seq::empty()));
            assert(current@ =~= Seq::<char>::empty());
        } else {
            if c == '\'' {
                in_quote = !in_quote;
            } else if c == '(' && !in_quote {
                open = open + 1;
            } else if c == ')' && !in_quote {
                open = open - 1;
            }
            current.push(c);
        }
        i += 1;
    }
    assert(v@.take(i as int) =~= v@);
    let last = trim_text(current.as_str());
    let ghost all = arg_parts(s@).map_values(|p: Seq<char>| text::trimmed(p));
    if !last.as_str().is_empty() {
        done.push(last);
        assert(text::views(done@) =~= all);
    } else {
        assert(text::views(done@) =~= all.drop_last());
    }
    done
}

/// The function call that a segment of a chain denotes. Without parentheses it
/// has no arguments.
pub open spec fn call_of(segment: Seq<char>) -> (Seq<char>, Seq<Seq<char>>) {
    let p = first_at(segment, '(');
    if p < segment.len() {
        let inside = text::trimmed(text::strip_end(segment.skip(p + 1), ')'));
        (
            text::trimmed(segment.take(p)),
            if inside.len() == 0 {
                Seq::empty()
            } else {
                args_of(inside)
            },
        )
    } else {
        (text::trimmed(segment), Seq::empty())
    }
}

/// The function calls of the segments, blank ones left out.
pub open spec fn calls_of(segments: Seq<Seq<char>>) -> Seq<(Seq<char>, Seq<Seq<char>>)>
    decreases segments.len(),
{
    if segments.len() == 0 {
        Seq::empty()
    } else {
        let before = calls_of(segments.drop_last());
        let segment = text::trimmed(segments.last());
        if segment.len() == 0 {
            before
        } else {
            before.push(call_of(segment))
        }
    }
}

/// The function calls of a chain: its segments stand between semicolons.
pub open spec fn chain_of(expr: Seq<char>) -> Seq<(Seq<char>, Seq<Seq<char>>)> {
    calls_of(text::split_on(expr, ';'))
}

fn find_open(v: &Vec<char>) -> (r: usize)
    ensures
        r == first_at(v@, '('),
        r <= v@.len(),
{
    let mut i: usize = 0;
    assert(v@.skip(0) =~= v@);
    while i < v.len() && v[i] != '('
        invariant
            i <= v@.len(),
            first_at(v@, '(') == i + first_at(v@.skip(i as int), '('),
        decreases v@.len() - i,
    {
        assert(v@.skip(i as int).drop_first() =~= v@.skip(i + 1));
        i += 1;
    }
    i
}

fn parse_call(segment: &str) -> (r: BindingFunc)
    ensures
        func_model(r) == call_of(segment@),
{
    let v = chars_of(segment);
    let p: usize = find_open(&v);
    if p < v.len() {
        let head = string_of(&v, 0, p);
        let tail = string_of(&v, p + 1, v.len());
        assert(head@ =~= segment@.take(p as int));
        assert(tail@ =~= segment@.skip(p + 1));
        let inside = trim_text(strip_end_text(tail.as_str(), ')').as_str());
        let args: Vec<String> = if inside.as_str().is_empty() {
            Vec::new()
        } else {
            split_args(inside.as_str())
        };
        assert(inside@.len() == 0 ==> text::views(args@) =~= Seq::empty());
        BindingFunc { name: trim_text(head.as_str()), args }
    } else {
        let args: Vec<String> = Vec::new();
        assert(text::views(args@) =~= Seq::empty());
        BindingFunc { name: trim_text(segment), args }
    }
}

/// Reads a chain of function calls.
pub fn parse_binding_chain(expr: &str) -> (r: Vec<BindingFunc>)
    ensures
        func_models(r@) == chain_of(expr@),
{
    let segments = split_text(expr, ';');
    let mut funcs: Vec<BindingFunc> = Vec::new();
    let mut i: usize = 0;
    let ghost all = text::split_on(expr@, ';');
    assert(all.take(0).len() == 0);
    assert(func_models(funcs@) =~= Seq::empty());
    while i < segments.len()
        invariant
            i <= segments@.len(),
            all == text::views(segments@),
            func_models(funcs@) == calls_of(all.take(i as int)),
        decreases segments@.len() - i,
    {
        assert(all.take(i + 1).drop_last() =~= all.take(i as int));
        assert(all.take(i + 1).last() == segments@[i as int]@);
        let segment = trim_text(segments[i].as_str());
        if !segment.as_str().is_empty() {
            let ghost before = funcs@;
            let f = parse_call(segment.as_str());
            funcs.push(f);
            assert(func_models(funcs@) =~= func_models(before).push(func_model(f)));
        }
        i += 1;
    }
    assert(all.take(i as int) =~= all);
    funcs
}

/// All characters are ASCII.
pub open spec fn is_ascii_text(s: Seq<char>) -> bool {
    forall|i: int| 0 <= i < s.len() ==> #[trigger] s[i] <= '\u{7f}'
}

/// The lower-case form of a text.
pub uninterp spec fn lower_case(s: Seq<char>) -> Seq<char>;

/// `str::to_lowercase` maps each character to its Unicode lower-case form. On
/// ASCII it is the mapping of the letters from `A` to `Z`.
#[verifier::external_body]
fn to_lower(s: &str) -> (r: String)
    ensures
        r@ == lower_case(s@),
        is_ascii_text(s@) ==> r@ == text::ascii_lower(s@),
{
    s.to_lowercase()
}

/// The function that a lower-case chain function name stands for.
pub open spec fn node_name(lower: Seq<char>) -> Seq<char> {
    if radix_of(lower) is Some {
        "format_u64"@
    } else if lower == "uniform"@ || lower == "hashrange"@ || lower == "hash_range"@ {
        "hash_range"@
    } else if lower == "normal"@ || lower == "gaussian"@ {
        "icd_normal"@
    } else if lower == "zipf"@ {
        "dist_zipf"@
    } else if lower == "hashinterval"@ || lower == "hash_interval"@ {
        "hash_interval"@
    } else if lower == "format"@ || lower == "printf"@ {
        "printf"@
    } else if lower == "numbernamesto_string"@ || lower == "numbernames"@ {
        "number_to_words"@
    } else {
        lower
    }
}

/// The radix of a conversion to text.
pub open spec fn radix_of(lower: Seq<char>) -> Option<Seq<char>> {
    if lower == "tostring"@ || lower == "to_string"@ {
        Some("10"@)
    } else if lower == "tohexstring"@ {
        Some("16"@)
    } else if lower == "tooctalstring"@ {
        Some("8"@)
    } else if lower == "tobinarystring"@ {
        Some("2"@)
    } else {
        None
    }
}

/// The arguments that a function gets behind those written: the radix of a
/// conversion to text.
pub open spec fn extra_args(lower: Seq<char>) -> Seq<Seq<char>> {
    match radix_of(lower) {
        Some(r) => seq![r],
        None => Seq::empty(),
    }
}

fn find_radix(lower: &str) -> (r: Option<&'static str>)
    ensures
        r is Some <==> radix_of(lower@) is Some,
        r matches Some(t) ==> radix_of(lower@) == Some(t@),
{
    if str_eq(lower, "tostring") || str_eq(lower, "to_string") {
        Some("10")
    } else if str_eq(lower, "tohexstring") {
        Some("16")
    } else if str_eq(lower, "tooctalstring") {
        Some("8")
    } else if str_eq(lower, "tobinarystring") {
        Some("2")
    } else {
        None
    }
}

/// The function, and its further arguments, that a lower-case chain function
/// name stands for. A name that is not known stands for itself.
pub fn translate_lower(lower: &str) -> (r: (String, Vec<String>))
    ensures
        r.0@ == node_name(lower@),
        text::views(r.1@) == extra_args(lower@),
{
    let mut extra: Vec<String> = Vec::new();
    if let Some(radix) = find_radix(lower) {
        extra.push(radix.to_owned());
        assert(text::views(extra@) =~= seq![radix@]);
        return ("format_u64".to_owned(), extra);
    }
    assert(text::views(extra@) =~= Seq::empty());
    let name = if str_eq(lower, "uniform") || str_eq(lower, "hashrange") || str_eq(
        lower,
        "hash_range",
    ) {
        "hash_range"
    } else if str_eq(lower, "normal") || str_eq(lower, "gaussian") {
        "icd_normal"
    } else if str_eq(lower, "zipf") {
        "dist_zipf"
    } else if str_eq(lower, "hashinterval") || str_eq(lower, "hash_interval") {
        "hash_interval"
    } else if str_eq(lower, "format") || str_eq(lower, "printf") {
        "printf"
    } else if str_eq(lower, "numbernamesto_string") || str_eq(lower, "numbernames") {
        "number_to_words"
    } else {
        lower
    };
    (name.to_owned(), extra)
}

/// The function, and its further arguments, that a chain function name stands
/// for, whatever its case. The arguments as written do not matter.
pub fn translate_legacy_func(name: &str, _args: &Vec<String>) -> (r: (String, Vec<String>))
    ensures
        r.0@ == node_name(lower_case(name@)),
        text::views(r.1@) == extra_args(lower_case(name@)),
        is_ascii_text(name@) ==> r.0@ == node_name(text::ascii_lower(name@)) && text::views(r.1@)
            == extra_args(text::ascii_lower(name@)),
{
    let lower = to_lower(name);
    translate_lower(lower.as_str())
}

/// An argument without the letter that marks a long literal.
pub open spec fn without_long_suffix(arg: Seq<char>) -> Seq<char> {
    if arg.len() > 0 && (arg.last() == 'L' || arg.last() == 'l') {
        arg.drop_last()
    } else {
        arg
    }
}

pub fn strip_java_long_suffix(arg: &str) -> (r: String)
    ensures
        r@ == without_long_suffix(arg@),
{
    let v = chars_of(arg);
    let n: usize = v.len();
    if n > 0 && (v[n - 1] == 'L' || v[n - 1] == 'l') {
        let r = string_of(&v, 0, n - 1);
        assert(r@ =~= arg@.drop_last());
        r
    } else {
        arg.to_owned()
    }
}

/// The wire that step `i` of a chain of `n` steps defines: the last one defines
/// the binding itself.
pub open spec fn wire_of(name: Seq<char>, i: int, n: int) -> Seq<char> {
    if i == n - 1 {
        name
    } else {
        "__chain_"@ + name + "_"@ + text::decimal(i as nat)
    }
}

/// The wire that step `i` reads: that of the step before it, the first one the
/// cycle.
pub open spec fn source_of(name: Seq<char>, i: int, n: int) -> Seq<char> {
    if i == 0 {
        "cycle"@
    } else {
        wire_of(name, i - 1, n)
    }
}

/// The arguments of a step: the wire that it reads, those written, and those
/// that its function gets further.
pub open spec fn step_args(from: Seq<char>, call: (Seq<char>, Seq<Seq<char>>)) -> Seq<Seq<char>> {
    seq![from] + call.1.map_values(|a: Seq<char>| without_long_suffix(text::trimmed(a)))
        + extra_args(lower_case(call.0))
}

/// The definition that step `i` of a chain becomes.
pub open spec fn step_line(
    name: Seq<char>,
    chain: Seq<(Seq<char>, Seq<Seq<char>>)>,
    i: int,
) -> Seq<char> {
    let n = chain.len() as int;
    wire_of(name, i, n) + " := "@ + node_name(lower_case(chain[i].0)) + "("@ + text::joined(
        step_args(source_of(name, i, n), chain[i]),
        ", "@,
    ) + ")"@
}

/// The definitions that a binding becomes, one for each step of its chain.
pub open spec fn binding_lines(
    name: Seq<char>,
    chain: Seq<(Seq<char>, Seq<Seq<char>>)>,
) -> Seq<Seq<char>> {
    Seq::new(chain.len(), |i: int| step_line(name, chain, i))
}

/// The definitions of the bindings in order.
pub open spec fn all_lines(entries: Seq<(Seq<char>, String)>) -> Seq<Seq<char>>
    decreases entries.len(),
{
    if entries.len() == 0 {
        Seq::empty()
    } else {
        all_lines(entries.drop_last()) + binding_lines(
            entries.last().0,
            chain_of(entries.last().1@),
        )
    }
}

/// Entry `i` is the first one whose chain has no steps.
pub open spec fn first_stepless(entries: Seq<(Seq<char>, String)>, i: int) -> bool {
    &&& 0 <= i < entries.len()
    &&& chain_of(entries[i].1@).len() == 0
    &&& forall|k: int| 0 <= k < i ==> chain_of((#[trigger] entries[k]).1@).len() > 0
}

fn wire_text(name: &str, i: usize, n: usize) -> (r: String)
    requires
        i < n,
    ensures
        r@ == wire_of(name@, i as int, n as int),
{
    if i == n - 1 {
        name.to_owned()
    } else {
        cat4("__chain_", name, "_", u64_text(i as u64).as_str())
    }
}

fn step_text(name: &str, chain: &Vec<BindingFunc>, i: usize) -> (r: String)
    requires
        i < chain@.len(),
    ensures
        r@ == step_line(name@, func_models(chain@), i as int),
{
    let n: usize = chain.len();
    let from = if i == 0 {
        "cycle".to_owned()
    } else {
        wire_text(name, i - 1, n)
    };
    let func = &chain[i];
    let ghost model = func_models(chain@)[i as int];
    assert(model == func_model(*func));
    let (func_name, extra) = translate_legacy_func(func.name.as_str(), &func.args);
    let mut args: Vec<String> = Vec::new();
    args.push(from);
    let mut k: usize = 0;
    while k < func.args.len()
        invariant
            k <= func.args@.len(),
            args@.len() == k + 1,
            args@[0]@ == from@,
            forall|j: int|
                0 <= j < k ==> (#[trigger] args@[j + 1])@ == without_long_suffix(
                    text::trimmed(func.args@[j]@),
                ),
        decreases func.args@.len() - k,
    {
        let arg = trim_text(func.args[k].as_str());
        args.push(strip_java_long_suffix(arg.as_str()));
        k += 1;
    }
    let ghost written = args@;
    let mut e: usize = 0;
    while e < extra.len()
        invariant
            e <= extra@.len(),
            args@.len() == written.len() + e,
            args@.take(written.len() as int) == written,
            forall|j: int|
                0 <= j < e ==> (#[trigger] args@[written.len() + j])@ == extra@[j]@,
        decreases extra@.len() - e,
    {
        let ghost was = args@;
        args.push(extra[e].clone());
        assert(args@.take(written.len() as int) =~= was.take(written.len() as int));
        e += 1;
    }
    proof {
        let want = step_args(source_of(name@, i as int, n as int), model);
        assert(text::views(args@) =~= want) by {
            assert(args@.len() == want.len());
            assert forall|j: int| 0 <= j < args@.len() implies args@[j]@ == want[j] by {
                if j < written.len() {
                    assert(args@.take(written.len() as int)[j] == args@[j]);
                    if j > 0 {
                        assert(written[(j - 1) + 1]@ == without_long_suffix(
                            text::trimmed(func.args@[j - 1]@),
                        ));
                    }
                } else {
                    assert(args@[written.len() + (j - written.len())]@ == extra@[j
                        - written.len()]@);
                    assert(text::views(extra@)[j - written.len()] == extra@[j - written.len()]@);
                }
            }
        }
    }
    let listed = join_texts(&args, ", ");
    cat6(
        wire_text(name, i, n).as_str(),
        " := ",
        func_name.as_str(),
        "(",
        listed.as_str(),
        ")",
    )
}

fn push_binding(lines: &mut Vec<String>, name: &str, chain: &Vec<BindingFunc>)
    ensures
        text::views(final(lines)@) == text::views(old(lines)@) + binding_lines(
            name@,
            func_models(chain@),
        ),
{
    let ghost before = lines@;
    let mut i: usize = 0;
    while i < chain.len()
        invariant
            i <= chain@.len(),
            before == old(lines)@,
            lines@.len() == before.len() + i,
            forall|k: int| 0 <= k < before.len() ==> #[trigger] lines@[k] == before[k],
            forall|k: int|
                0 <= k < i ==> (#[trigger] lines@[before.len() + k])@ == step_line(
                    name@,
                    func_models(chain@),
                    k,
                ),
        decreases chain@.len() - i,
    {
        lines.push(step_text(name, chain, i));
        i += 1;
    }
    proof {
        let want = text::views(before) + binding_lines(name@, func_models(chain@));
        assert forall|k: int| 0 <= k < lines@.len() implies lines@[k]@ == want[k] by {
            if k >= before.len() {
                assert(lines@[before.len() + (k - before.len())]@ == step_line(
                    name@,
                    func_models(chain@),
                    k - before.len(),
                ));
            }
        }
        assert(text::views(lines@) =~= want);
    }
}

pub open spec fn stepless_fault(name: Seq<char>) -> Seq<char> {
    "empty binding expression for '"@ + name + "'"@
}

fn push_all(lines: &mut Vec<String>, map: &StrMap<String>) -> (r: Result<(), String>)
    ensures
        match r {
            Ok(_) => {
                &&& forall|i: int| !first_stepless(map.pairs(), i)
                &&& text::views(final(lines)@) == text::views(old(lines)@) + all_lines(map.pairs())
            },
            Err(e) => exists|i: int| #[trigger]
                first_stepless(map.pairs(), i) && e@ == stepless_fault(map.pairs()[i].0),
        },
{
    let ghost before = lines@;
    let ghost entries = map.pairs();
    let n: usize = map.len();
    let mut i: usize = 0;
    assert(entries.take(0).len() == 0);
    assert(text::views(before) + all_lines(entries.take(0)) =~= text::views(before));
    while i < n
        invariant
            i <= n,
            n == entries.len(),
            entries == map.pairs(),
            before == old(lines)@,
            text::views(lines@) == text::views(before) + all_lines(entries.take(i as int)),
            forall|k: int| 0 <= k < i ==> chain_of((#[trigger] entries[k]).1@).len() > 0,
        decreases n - i,
    {
        assert(entries.take(i + 1).drop_last() =~= entries.take(i as int));
        let name = map.name_at(i);
        let chain = parse_binding_chain(map.value_at(i).as_str());
        assert(func_models(chain@).len() == chain@.len());
        if chain.len() == 0 {
            assert(first_stepless(entries, i as int));
            return Err(cat3("empty binding expression for '", name.as_str(), "'"));
        }
        push_binding(lines, name.as_str(), &chain);
        assert(text::views(before) + all_lines(entries.take(i + 1)) =~= text::views(before)
            + all_lines(entries.take(i as int)) + binding_lines(
            entries[i as int].0,
            chain_of(entries[i as int].1@),
        ));
        i += 1;
    }
    assert(entries.take(i as int) =~= entries);
    Ok(())
}

/// The definitions that a map of binding chains becomes, in name order. A chain
/// without steps is refused.
pub fn legacy_chain_map_to_polydat_lines(map: &StrMap<String>) -> (r: Result<String, String>)
    ensures
        match r {
            Ok(t) => (forall|i: int| !first_stepless(map.pairs(), i)) && t@ == text::joined(
                all_lines(map.pairs()),
                "\n"@,
            ),
            Err(e) => exists|i: int| #[trigger]
                first_stepless(map.pairs(), i) && e@ == stepless_fault(map.pairs()[i].0),
        },
{
    let mut lines: Vec<String> = Vec::new();
    assert(text::views(lines@) + all_lines(map.pairs()) =~= all_lines(map.pairs()));
    match push_all(&mut lines, map) {
        Ok(_) => Ok(join_texts(&lines, "\n")),
        Err(e) => Err(e),
    }
}

/// Each step of a chain reads the wire that the step before it defines, the
/// first one reads the cycle, and the last one defines the binding.
pub proof fn law_chain_is_wired(
    name: Seq<char>,
    chain: Seq<(Seq<char>, Seq<Seq<char>>)>,
    i: int,
)
    requires
        0 <= i < chain.len(),
    ensures
        ({
            let n = chain.len() as int;
            let line = binding_lines(name, chain)[i];
            let reads = step_args(source_of(name, i, n), chain[i])[0];
            &&& wire_of(name, i, n).is_prefix_of(line)
            &&& i == 0 ==> reads == "cycle"@
            &&& i > 0 ==> reads == wire_of(name, i - 1, n)
            &&& wire_of(name, n - 1, n) == name
        }),
{
    let n = chain.len() as int;
    let line = step_line(name, chain, i);
    let wire = wire_of(name, i, n);
    assert(binding_lines(name, chain)[i] == line);
    assert(line.subrange(0, wire.len() as int) =~= wire);
}

/// The definitions of a map of chains do not depend on the order in which its
/// entries were added: maps with the same entries become the same text.
pub proof fn law_lines_depend_on_entries(a: StrMap<String>, b: StrMap<String>)
    requires
        a.wf(),
        b.wf(),
        a@ == b@,
    ensures
        all_lines(a.pairs()) == all_lines(b.pairs()),
{
    strmap::lemma_order_determined(a.pairs(), b.pairs());
}

/// The bindings that an op declares.
pub enum BindingsDef {
    /// A chain of function calls for each name.
    Chains(StrMap<String>),
    /// Definitions as they stand.
    PolydatSource(String),
}

/// What an op brings to a compilation: its bindings, and the names that its
/// fields refer to, in order.
pub struct BindingOp {
    pub bindings: BindingsDef,
    pub references: Vec<String>,
}

/// What is asked of the compiler.
pub struct CompileRequest {
    pub source: String,
    /// The outputs to keep.
    pub required: Vec<String>,
    pub strict: bool,
    /// Where modules are looked for.
    pub source_dir: Option<String>,
    /// What else is set; without it the compiler goes by its defaults.
    pub options: Option<ScopeOptions>,
}

/// What is set for the compilation of a scope.
pub struct ScopeOptions {
    /// Where library modules are looked for.
    pub lib_paths: Vec<String>,
    /// The words under which faults are reported.
    pub context: String,
    /// The greatest extent of a cursor.
    pub cursor_limit: Option<u64>,
}

/// `required` with those of `names` that are new to it and not excluded, each
/// once.
pub open spec fn with_new(
    required: Seq<Seq<char>>,
    names: Seq<Seq<char>>,
    exclude: Seq<Seq<char>>,
) -> Seq<Seq<char>>
    decreases names.len(),
{
    if names.len() == 0 {
        required
    } else {
        let before = with_new(required, names.drop_last(), exclude);
        if before.contains(names.last()) || exclude.contains(names.last()) {
            before
        } else {
            before.push(names.last())
        }
    }
}

fn holds(v: &Vec<String>, name: &str) -> (r: bool)
    ensures
        r == text::views(v@).contains(name@),
{
    let mut i: usize = 0;
    while i < v.len()
        invariant
            i <= v@.len(),
            forall|k: int| 0 <= k < i ==> (#[trigger] text::views(v@)[k]) != name@,
        decreases v@.len() - i,
    {
        assert(text::views(v@)[i as int] == v@[i as int]@);
        if str_eq(v[i].as_str(), name) {
            return true;
        }
        i += 1;
    }
    assert(!text::views(v@).contains(name@)) by {
        assert(text::views(v@).len() == v@.len());
    }
    false
}

fn add_new(required: &mut Vec<String>, names: &Vec<String>, exclude: &Vec<String>)
    ensures
        text::views(final(required)@) == with_new(
            text::views(old(required)@),
            text::views(names@),
            text::views(exclude@),
        ),
{
    let ghost start = text::views(required@);
    let ghost all = text::views(names@);
    let mut i: usize = 0;
    assert(all.take(0).len() == 0);
    while i < names.len()
        invariant
            i <= names@.len(),
            all == text::views(names@),
            start == text::views(old(required)@),
            text::views(required@) == with_new(start, all.take(i as int), text::views(exclude@)),
        decreases names@.len() - i,
    {
        assert(all.take(i + 1).drop_last() =~= all.take(i as int));
        assert(all.take(i + 1).last() == names@[i as int]@);
        if !holds(required, names[i].as_str()) && !holds(exclude, names[i].as_str()) {
            let ghost before = required@;
            required.push(names[i].clone());
            assert(text::views(required@) =~= text::views(before).push(names@[i as int]@));
        }
        i += 1;
    }
    assert(all.take(i as int) =~= all);
}

/// The names that the ops refer to, each once, in order.
pub open spec fn required_of(ops: Seq<BindingOp>) -> Seq<Seq<char>>
    decreases ops.len(),
{
    if ops.len() == 0 {
        Seq::empty()
    } else {
        with_new(
            required_of(ops.drop_last()),
            text::views(ops.last().references@),
            Seq::empty(),
        )
    }
}

/// The definitions of the first op that has any of its own.
pub open spec fn native_source(ops: Seq<BindingOp>) -> Option<Seq<char>>
    decreases ops.len(),
{
    if ops.len() == 0 {
        None
    } else {
        let before = native_source(ops.drop_last());
        match (before, ops.last().bindings) {
            (None, BindingsDef::PolydatSource(src)) => if text::trimmed(src@).len() > 0 {
                Some(src@)
            } else {
                None
            },
            _ => before,
        }
    }
}

/// `bound` with those of the entries whose name is new to it.
pub open spec fn absorb(
    bound: Map<Seq<char>, String>,
    entries: Seq<(Seq<char>, String)>,
) -> Map<Seq<char>, String>
    decreases entries.len(),
{
    if entries.len() == 0 {
        bound
    } else {
        let before = absorb(bound, entries.drop_last());
        if before.contains_key(entries.last().0) {
            before
        } else {
            before.insert(entries.last().0, entries.last().1)
        }
    }
}

/// The chains that the ops declare: for each name, that of the first op that
/// has one.
pub open spec fn chains_of(ops: Seq<BindingOp>) -> Map<Seq<char>, String>
    decreases ops.len(),
{
    if ops.len() == 0 {
        Map::empty()
    } else {
        match ops.last().bindings {
            BindingsDef::Chains(map) => absorb(chains_of(ops.drop_last()), map.pairs()),
            _ => chains_of(ops.drop_last()),
        }
    }
}

/// The required names that are neither bound nor the cycle.
pub open spec fn missing_of(
    required: Seq<Seq<char>>,
    bound: Map<Seq<char>, String>,
) -> Seq<Seq<char>>
    decreases required.len(),
{
    if required.len() == 0 {
        Seq::empty()
    } else {
        let before = missing_of(required.drop_last(), bound);
        if bound.contains_key(required.last()) || required.last() == "cycle"@ {
            before
        } else {
            before.push(required.last())
        }
    }
}

pub open spec fn missing_fault(missing: Seq<Seq<char>>) -> Seq<char> {
    "undeclared bind point references: "@ + text::joined(missing, ", "@)
        + ". Add these to your bindings section."@
}

fn collect_required(ops: &Vec<BindingOp>) -> (r: Vec<String>)
    ensures
        text::views(r@) == required_of(ops@),
{
    let none: Vec<String> = Vec::new();
    let mut required: Vec<String> = Vec::new();
    let mut i: usize = 0;
    assert(ops@.take(0).len() == 0);
    assert(text::views(required@) =~= Seq::empty());
    assert(text::views(none@) =~= Seq::empty());
    while i < ops.len()
        invariant
            i <= ops@.len(),
            text::views(none@) == Seq::<Seq<char>>::empty(),
            text::views(required@) == required_of(ops@.take(i as int)),
        decreases ops@.len() - i,
    {
        assert(ops@.take(i + 1).drop_last() =~= ops@.take(i as int));
        add_new(&mut required, &ops[i].references, &none);
        i += 1;
    }
    assert(ops@.take(i as int) =~= ops@);
    required
}

fn find_source(ops: &Vec<BindingOp>) -> (r: Option<String>)
    ensures
        match r {
            Some(t) => native_source(ops@) == Some(t@),
            None => native_source(ops@) is None,
        },
{
    let mut found: Option<String> = None;
    let mut i: usize = 0;
    assert(ops@.take(0).len() == 0);
    while i < ops.len()
        invariant
            i <= ops@.len(),
            match found {
                Some(t) => native_source(ops@.take(i as int)) == Some(t@),
                None => native_source(ops@.take(i as int)) is None,
            },
        decreases ops@.len() - i,
    {
        assert(ops@.take(i + 1).drop_last() =~= ops@.take(i as int));
        if found.is_none() {
            if let BindingsDef::PolydatSource(src) = &ops[i].bindings {
                let t = trim_text(src.as_str());
                if !t.as_str().is_empty() {
                    found = Some(src.clone());
                }
            }
        }
        i += 1;
    }
    assert(ops@.take(i as int) =~= ops@);
    found
}

fn collect_chains(ops: &Vec<BindingOp>) -> (r: StrMap<String>)
    ensures
        r.wf(),
        r@ == chains_of(ops@),
{
    let mut bound: StrMap<String> = StrMap::new();
    let mut i: usize = 0;
    assert(ops@.take(0).len() == 0);
    while i < ops.len()
        invariant
            i <= ops@.len(),
            bound.wf(),
            bound@ == chains_of(ops@.take(i as int)),
        decreases ops@.len() - i,
    {
        assert(ops@.take(i + 1).drop_last() =~= ops@.take(i as int));
        if let BindingsDef::Chains(map) = &ops[i].bindings {
            let ghost start = bound@;
            let n: usize = map.len();
            let mut k: usize = 0;
            assert(map.pairs().take(0).len() == 0);
            while k < n
                invariant
                    k <= n,
                    n == map.pairs().len(),
                    bound.wf(),
                    bound@ == absorb(start, map.pairs().take(k as int)),
                decreases n - k,
            {
                assert(map.pairs().take(k + 1).drop_last() =~= map.pairs().take(k as int));
                let name = map.name_at(k);
                if !bound.contains(name.as_str()) {
                    bound.insert(name.clone(), map.value_at(k).clone());
                }
                k += 1;
            }
            assert(map.pairs().take(k as int) =~= map.pairs());
        }
        i += 1;
    }
    assert(ops@.take(i as int) =~= ops@);
    bound
}

fn find_missing(required: &Vec<String>, bound: &StrMap<String>) -> (r: Vec<String>)
    requires
        bound.wf(),
    ensures
        text::views(r@) == missing_of(text::views(required@), bound@),
{
    let ghost all = text::views(required@);
    let mut missing: Vec<String> = Vec::new();
    let mut i: usize = 0;
    assert(all.take(0).len() == 0);
    assert(text::views(missing@) =~= Seq::empty());
    while i < required.len()
        invariant
            i <= required@.len(),
            all == text::views(required@),
            bound.wf(),
            text::views(missing@) == missing_of(all.take(i as int), bound@),
        decreases required@.len() - i,
    {
        assert(all.take(i + 1).drop_last() =~= all.take(i as int));
        assert(all.take(i + 1).last() == required@[i as int]@);
        let name = required[i].as_str();
        if !bound.contains(name) && !str_eq(name, "cycle") {
            let ghost before = missing@;
            missing.push(required[i].clone());
            assert(text::views(missing@) =~= text::views(before).push(required@[i as int]@));
        }
        i += 1;
    }
    assert(all.take(i as int) =~= all);
    missing
}

/// What is asked of the compiler for a set of ops, or why nothing is.
pub open spec fn is_request(
    ops: Seq<BindingOp>,
    source_dir: Option<String>,
    strict: bool,
    r: Result<CompileRequest, String>,
) -> bool {
    let required = required_of(ops);
    let entries = strmap::in_order(chains_of(ops));
    let missing = missing_of(required, chains_of(ops));
    match r {
        Ok(q) => {
            &&& q.source@ == (match native_source(ops) {
                Some(src) => src,
                None => text::joined(seq!["input cycle: u64"@] + all_lines(entries), "\n"@),
            })
            &&& native_source(ops) is None ==> missing.len() == 0 && forall|i: int|
                !first_stepless(entries, i)
            &&& text::views(q.required@) == required
            &&& q.strict == strict
            &&& q.source_dir == source_dir
            &&& q.options is None
        },
        Err(e) => {
            &&& native_source(ops) is None
            &&& ({
                ||| exists|i: int| #[trigger]
                    first_stepless(entries, i) && e@ == stepless_fault(entries[i].0)
                ||| (forall|i: int| !first_stepless(entries, i)) && missing.len() > 0 && e@
                    == missing_fault(missing)
            })
        },
    }
}

/// What is asked of the compiler for a set of ops. Definitions of their own win;
/// else every chain becomes definitions, and each name that an op refers to must
/// be bound or be the cycle.
pub fn compile_bindings_with_opts(
    ops: &Vec<BindingOp>,
    source_dir: Option<String>,
    strict: bool,
) -> (r: Result<CompileRequest, String>)
    ensures
        is_request(ops@, source_dir, strict, r),
{
    let required = collect_required(ops);
    if let Some(source) = find_source(ops) {
        return Ok(CompileRequest { source, required, strict, source_dir, options: None });
    }
    let bound = collect_chains(ops);
    proof {
        strmap::lemma_in_order(bound.pairs());
    }
    let mut lines: Vec<String> = Vec::new();
    lines.push("input cycle: u64".to_owned());
    assert(text::views(lines@) =~= seq!["input cycle: u64"@]);
    if let Err(e) = push_all(&mut lines, &bound) {
        return Err(e);
    }
    let missing = find_missing(&required, &bound);
    assert(text::views(missing@).len() == missing@.len());
    if missing.len() > 0 {
        let listed = join_texts(&missing, ", ");
        return Err(
            cat3(
                "undeclared bind point references: ",
                listed.as_str(),
                ". Add these to your bindings section.",
            ),
        );
    }
    Ok(
        CompileRequest {
            source: join_texts(&lines, "\n"),
            required,
            strict,
            source_dir,
            options: None,
        },
    )
}

pub fn compile_bindings_with_path(ops: &Vec<BindingOp>, source_dir: Option<String>) -> (r: Result<
    CompileRequest,
    String,
>)
    ensures
        is_request(ops@, source_dir, false, r),
{
    compile_bindings_with_opts(ops, source_dir, false)
}

pub fn compile_bindings(ops: &Vec<BindingOp>) -> (r: Result<CompileRequest, String>)
    ensures
        is_request(ops@, None, false, r),
{
    compile_bindings_with_path(ops, None)
}

/// The names that are required of a compilation are distinct, and they are
/// exactly those that some op refers to.
pub proof fn law_required_names(ops: Seq<BindingOp>)
    ensures
        required_of(ops).no_duplicates(),
        forall|n: Seq<char>| #[trigger]
            required_of(ops).contains(n) <==> exists|i: int|
                0 <= i < ops.len() && text::views((#[trigger] ops[i]).references@).contains(n),
    decreases ops.len(),
{
    if ops.len() > 0 {
        let init = ops.drop_last();
        law_required_names(init);
        let refs = text::views(ops.last().references@);
        lemma_with_new(required_of(init), refs, Seq::empty());
        assert forall|n: Seq<char>| #[trigger] required_of(ops).contains(n) <==> exists|i: int|
            0 <= i < ops.len() && text::views((#[trigger] ops[i]).references@).contains(n) by {
            if required_of(init).contains(n) {
                let i = choose|i: int|
                    0 <= i < init.len() && text::views((#[trigger] init[i]).references@).contains(
                        n,
                    );
                assert(ops[i] == init[i]);
            }
            if refs.contains(n) {
                assert(text::views(ops[ops.len() - 1].references@).contains(n));
            }
            if exists|i: int|
                0 <= i < ops.len() && text::views((#[trigger] ops[i]).references@).contains(n) {
                let i = choose|i: int|
                    0 <= i < ops.len() && text::views((#[trigger] ops[i]).references@).contains(n);
                if i < init.len() {
                    assert(init[i] == ops[i]);
                }
            }
            assert(!Seq::<Seq<char>>::empty().contains(n));
        }
    }
}

proof fn lemma_with_new(
    required: Seq<Seq<char>>,
    names: Seq<Seq<char>>,
    exclude: Seq<Seq<char>>,
)
    requires
        required.no_duplicates(),
    ensures
        with_new(required, names, exclude).no_duplicates(),
        forall|n: Seq<char>| #[trigger]
            with_new(required, names, exclude).contains(n) <==> required.contains(n) || (
            names.contains(n) && !exclude.contains(n)),
    decreases names.len(),
{
    if names.len() > 0 {
        let init = names.drop_last();
        lemma_with_new(required, init, exclude);
        let before = with_new(required, init, exclude);
        let now = with_new(required, names, exclude);
        let last = names.last();
        assert forall|n: Seq<char>| #[trigger] now.contains(n) <==> required.contains(n) || (
        names.contains(n) && !exclude.contains(n)) by {
            if before.contains(n) {
                let k = before.index_of(n);
                assert(now[k] == n);
                if init.contains(n) {
                    let j = init.index_of(n);
                    assert(names[j] == n);
                }
            }
            if names.contains(n) {
                let j = names.index_of(n);
                if j < init.len() {
                    assert(init[j] == n);
                    assert(init.contains(n));
                }
            }
            if n == last {
                assert(names[names.len() - 1] == n);
                if !before.contains(n) && !exclude.contains(n) {
                    assert(now[now.len() - 1] == n);
                }
            }
            if now.contains(n) && n != last {
                let k = now.index_of(n);
                assert(before[k] == n);
                assert(before.contains(n));
            }
        }
    }
}

/// What an op parameter refers to.
pub enum Referring {
    /// A text, with the names it refers to in order.
    Text(Vec<String>),
    /// The members of an array or an object, in order.
    Group(Vec<Referring>),
    /// A value that refers to nothing.
    Plain,
}

/// The names that a value refers to, in order.
pub open spec fn names_in(value: Referring) -> Seq<Seq<char>>
    decreases value,
{
    match value {
        Referring::Text(names) => text::views(names@),
        Referring::Group(items) => names_in_all(items@),
        Referring::Plain => Seq::empty(),
    }
}

pub open spec fn names_in_all(items: Seq<Referring>) -> Seq<Seq<char>>
    decreases items,
{
    if items.len() == 0 {
        Seq::empty()
    } else {
        names_in_all(items.drop_last()) + names_in(items.last())
    }
}

/// The names that the parameters refer to, in order. The cells of a gutter are
/// filled in later and require nothing.
pub open spec fn names_in_params(params: Seq<(Seq<char>, Referring)>) -> Seq<Seq<char>>
    decreases params.len(),
{
    if params.len() == 0 {
        Seq::empty()
    } else if params.last().0 == "gutter"@ {
        names_in_params(params.drop_last())
    } else {
        names_in_params(params.drop_last()) + names_in(params.last().1)
    }
}

proof fn lemma_with_new_append(
    required: Seq<Seq<char>>,
    a: Seq<Seq<char>>,
    b: Seq<Seq<char>>,
    exclude: Seq<Seq<char>>,
)
    ensures
        with_new(required, a + b, exclude) == with_new(with_new(required, a, exclude), b, exclude),
    decreases b.len(),
{
    if b.len() == 0 {
        assert(a + b =~= a);
    } else {
        lemma_with_new_append(required, a, b.drop_last(), exclude);
        assert((a + b).drop_last() =~= a + b.drop_last());
        assert((a + b).last() == b.last());
    }
}

fn collect_value(value: &Referring, exclude: &Vec<String>, required: &mut Vec<String>)
    ensures
        text::views(final(required)@) == with_new(
            text::views(old(required)@),
            names_in(*value),
            text::views(exclude@),
        ),
    decreases value,
{
    match value {
        Referring::Text(names) => add_new(required, names, exclude),
        Referring::Group(items) => collect_values(items, exclude, required),
        Referring::Plain => {},
    }
}

fn collect_values(items: &Vec<Referring>, exclude: &Vec<String>, required: &mut Vec<String>)
    ensures
        text::views(final(required)@) == with_new(
            text::views(old(required)@),
            names_in_all(items@),
            text::views(exclude@),
        ),
    decreases items,
{
    let ghost start = text::views(required@);
    let mut i: usize = 0;
    assert(items@.take(0).len() == 0);
    while i < items.len()
        invariant
            i <= items@.len(),
            start == text::views(old(required)@),
            text::views(required@) == with_new(
                start,
                names_in_all(items@.take(i as int)),
                text::views(exclude@),
            ),
        decreases items@.len() - i,
    {
        assert(items@.take(i + 1).drop_last() =~= items@.take(i as int));
        assert(decreases_to!(items => items@[i as int]));
        collect_value(&items[i], exclude, required);
        proof {
            lemma_with_new_append(
                start,
                names_in_all(items@.take(i as int)),
                names_in(items@[i as int]),
                text::views(exclude@),
            );
        }
        i += 1;
    }
    assert(items@.take(i as int) =~= items@);
}

/// Adds the names that op parameters refer to and that are new.
pub fn collect_param_bindings_into(
    params: &StrMap<Referring>,
    exclude: &Vec<String>,
    required: &mut Vec<String>,
)
    ensures
        text::views(final(required)@) == with_new(
            text::views(old(required)@),
            names_in_params(params.pairs()),
            text::views(exclude@),
        ),
{
    let ghost start = text::views(required@);
    let ghost all = params.pairs();
    let n: usize = params.len();
    let mut i: usize = 0;
    assert(all.take(0).len() == 0);
    while i < n
        invariant
            i <= n,
            n == all.len(),
            all == params.pairs(),
            start == text::views(old(required)@),
            text::views(required@) == with_new(
                start,
                names_in_params(all.take(i as int)),
                text::views(exclude@),
            ),
        decreases n - i,
    {
        assert(all.take(i + 1).drop_last() =~= all.take(i as int));
        if !str_eq(params.name_at(i).as_str(), "gutter") {
            collect_value(params.value_at(i), exclude, required);
            proof {
                lemma_with_new_append(
                    start,
                    names_in_params(all.take(i as int)),
                    names_in(all[i as int].1),
                    text::views(exclude@),
                );
            }
        }
        i += 1;
    }
    assert(all.take(i as int) =~= all);
}

/// One directive of a scope.
pub struct Pragma {
    pub name: String,
    pub args: Vec<String>,
    pub line: usize,
}

/// The directives of a scope and of the scopes around it.
pub struct PragmaSet {
    pub entries: Vec<Pragma>,
    pub parent: Option<Box<PragmaSet>>,
}

impl Default for PragmaSet {
    fn default() -> (r: Self)
        ensures
            r.entries@.len() == 0,
            r.parent is None,
    {
        PragmaSet { entries: Vec::new(), parent: None }
    }
}

pub open spec fn names_pragma(entries: Seq<Pragma>, name: Seq<char>) -> bool {
    exists|i: int| 0 <= i < entries.len() && (#[trigger] entries[i]).name@ == name
}

/// The directive is given in the scope or in one around it.
pub open spec fn in_effect(set: PragmaSet, name: Seq<char>) -> bool
    decreases set,
{
    names_pragma(set.entries@, name) || match set.parent {
        Some(p) => in_effect(*p, name),
        None => false,
    }
}

impl PragmaSet {
    fn has(&self, name: &str) -> (r: bool)
        ensures
            r == in_effect(*self, name@),
        decreases self,
    {
        let mut i: usize = 0;
        while i < self.entries.len()
            invariant
                i <= self.entries@.len(),
                forall|k: int| 0 <= k < i ==> (#[trigger] self.entries@[k]).name@ != name@,
            decreases self.entries@.len() - i,
        {
            if str_eq(self.entries[i].name.as_str(), name) {
                assert(self.entries@[i as int].name@ == name@);
                return true;
            }
            i += 1;
        }
        match &self.parent {
            Some(p) => p.has(name),
            None => false,
        }
    }

    /// Types are checked strictly: by a directive for types or for everything.
    pub fn strict_types(&self) -> (r: bool)
        ensures
            r == (in_effect(*self, "strict"@) || in_effect(*self, "strict_types"@)),
    {
        self.has("strict") || self.has("strict_types")
    }

    /// Values are checked strictly: by a directive for values or for everything.
    pub fn strict_values(&self) -> (r: bool)
        ensures
            r == (in_effect(*self, "strict"@) || in_effect(*self, "strict_values"@)),
    {
        self.has("strict") || self.has("strict_values")
    }
}

/// The directive line that is in effect.
pub open spec fn directive(set: PragmaSet) -> Seq<char> {
    let types = in_effect(set, "strict"@) || in_effect(set, "strict_types"@);
    let values = in_effect(set, "strict"@) || in_effect(set, "strict_values"@);
    if types && values {
        "pragma strict\n\n"@
    } else if types {
        "pragma strict_types\n\n"@
    } else if values {
        "pragma strict_values\n\n"@
    } else {
        Seq::empty()
    }
}

/// A scope's definitions below the directive that is in effect for it.
pub fn prepend_effective_pragmas(pragmas: &PragmaSet, body: &str) -> (r: String)
    ensures
        r@ == directive(*pragmas) + body@,
{
    let types = pragmas.strict_types();
    let values = pragmas.strict_values();
    if types && values {
        cat2("pragma strict\n\n", body)
    } else if types {
        cat2("pragma strict_types\n\n", body)
    } else if values {
        cat2("pragma strict_values\n\n", body)
    } else {
        assert(Seq::<char>::empty() + body@ =~= body@);
        body.to_owned()
    }
}

/// A directive given in an enclosing scope is in effect in every scope inside.
pub proof fn law_pragmas_flow_inward(outer: PragmaSet, inner: PragmaSet, name: Seq<char>)
    requires
        in_effect(outer, name),
        inner.parent == Some(Box::new(outer)),
    ensures
        in_effect(inner, name),
{
}

/// A line of `source` declares an input.
pub open spec fn declares_input(source: Seq<char>) -> bool {
    exists|i: int|
        0 <= i < text::split_on(source, '\n').len() && "input "@.is_prefix_of(
            text::trim_start(#[trigger] text::split_on(source, '\n')[i]),
        )
}

fn has_input_line(source: &str) -> (r: bool)
    ensures
        r == declares_input(source@),
{
    let lines = split_text(source, '\n');
    let ghost all = text::split_on(source@, '\n');
    let mut i: usize = 0;
    while i < lines.len()
        invariant
            i <= lines@.len(),
            all == text::views(lines@),
            all == text::split_on(source@, '\n'),
            forall|k: int| 0 <= k < i ==> !"input "@.is_prefix_of(text::trim_start(#[trigger] all[k])),
        decreases lines@.len() - i,
    {
        assert(all[i as int] == lines@[i as int]@);
        let line = trim_start_text(lines[i].as_str());
        if starts_with(line.as_str(), "input ") {
            return true;
        }
        i += 1;
    }
    assert(all.len() == lines@.len());
    false
}

/// Whether the definitions of a workload are taken into its root scope.
pub fn ingests(definitions: &Option<String>) -> (r: bool)
    ensures
        r == (*definitions is Some && text::trimmed(definitions->0@).len() > 0),
{
    match definitions {
        Some(d) => !trim_text(d.as_str()).as_str().is_empty(),
        None => false,
    }
}

/// What is asked of the compiler for the root scope of a workload.
pub struct RootRequest {
    pub source: String,
    pub required: Vec<String>,
    /// The names that count as inherited and not as the scope's own.
    pub inherited: Vec<String>,
    pub strict: bool,
    /// Where modules are looked for.
    pub source_dir: Option<String>,
    /// What else is set; the scope bears the words of the context as its label.
    pub options: ScopeOptions,
}

pub open spec fn entry_names(p: Seq<(Seq<char>, String)>) -> Seq<Seq<char>> {
    p.map_values(|e: (Seq<char>, String)| e.0)
}

/// What is asked of the compiler for the root scope of a workload, or why nothing is:
/// a scope that was found invalid is refused in its context. Everything that the scope
/// and the caller require is kept, and every parameter, in name order. A source without
/// an input line gets one for the cycle.
pub fn build_workload_root_kernel(
    emitted: &str,
    validated: &Result<(), String>,
    scope_required: &Vec<String>,
    source_dir: Option<String>,
    lib_paths: Vec<String>,
    strict: bool,
    extra_required: &Vec<String>,
    context: &str,
    cursor_limit: Option<u64>,
    workload_params: &StrMap<String>,
) -> (r: Result<RootRequest, String>)
    requires
        workload_params.wf(),
    ensures
        match *validated {
            Err(why) => r matches Err(e) && e@ == context@ + ": "@ + why@,
            Ok(_) => r matches Ok(q) && {
                &&& q.source@ == (if declares_input(emitted@) {
                    emitted@
                } else {
                    "input cycle: u64\n"@ + emitted@
                })
                &&& text::views(q.required@) == with_new(
                    with_new(
                        text::views(scope_required@),
                        text::views(extra_required@),
                        Seq::empty(),
                    ),
                    entry_names(workload_params.pairs()),
                    Seq::empty(),
                )
                &&& text::views(q.inherited@) == entry_names(workload_params.pairs())
                &&& q.strict == strict
                &&& q.source_dir == source_dir
                &&& q.options.lib_paths == lib_paths
                &&& q.options.context@ == context@
                &&& q.options.cursor_limit == cursor_limit
            },
        },
{
    if let Err(why) = validated {
        return Err(cat3(context, ": ", why.as_str()));
    }
    let none: Vec<String> = Vec::new();
    assert(text::views(none@) =~= Seq::empty());
    let mut inherited: Vec<String> = Vec::new();
    let n: usize = workload_params.len();
    let mut i: usize = 0;
    while i < n
        invariant
            i <= n,
            n == workload_params.pairs().len(),
            inherited@.len() == i,
            forall|k: int|
                0 <= k < i ==> (#[trigger] inherited@[k])@ == workload_params.pairs()[k].0,
        decreases n - i,
    {
        inherited.push(workload_params.name_at(i).clone());
        i += 1;
    }
    assert(text::views(inherited@) =~= entry_names(workload_params.pairs()));
    let mut required: Vec<String> = Vec::new();
    let mut k: usize = 0;
    while k < scope_required.len()
        invariant
            k <= scope_required@.len(),
            required@.len() == k,
            forall|j: int| 0 <= j < k ==> (#[trigger] required@[j])@ == scope_required@[j]@,
        decreases scope_required@.len() - k,
    {
        required.push(scope_required[k].clone());
        k += 1;
    }
    assert(text::views(required@) =~= text::views(scope_required@));
    add_new(&mut required, extra_required, &none);
    add_new(&mut required, &inherited, &none);
    let source = if has_input_line(emitted) {
        emitted.to_owned()
    } else {
        cat2("input cycle: u64\n", emitted)
    };
    Ok(
        RootRequest {
            source,
            required,
            inherited,
            strict,
            source_dir,
            options: ScopeOptions { lib_paths, context: context.to_owned(), cursor_limit },
        },
    )
}

/// A program that calls a function once with these arguments, or with the cycle
/// where there are none.
pub open spec fn probe_text(func: Seq<char>, examples: Seq<Seq<char>>) -> Seq<char> {
    "input cycle: u64\nout := "@ + func + "("@ + text::joined(
        if examples.len() == 0 {
            seq!["cycle"@]
        } else {
            examples
        },
        ", "@,
    ) + ")"@
}

/// The program by which the compile level of a function is found out: it calls
/// the function with the example of each of its parameters.
pub fn probe_source(func_name: &str, examples: &Vec<String>) -> (r: String)
    ensures
        r@ == probe_text(func_name@, text::views(examples@)),
{
    assert(text::views(examples@).len() == examples@.len());
    let listed = if examples.len() == 0 {
        let mut one: Vec<String> = Vec::new();
        one.push("cycle".to_owned());
        assert(text::views(one@) =~= seq!["cycle"@]);
        join_texts(&one, ", ")
    } else {
        join_texts(examples, ", ")
    };
    cat5("input cycle: u64\nout := ", func_name, "(", listed.as_str(), ")")
}

/// What is asked of the compiler for a scope: its definitions below the
/// directive that is in effect for it.
pub fn compile_from_scope(
    body: &str,
    required: Vec<String>,
    source_dir: Option<String>,
    lib_paths: Vec<String>,
    strict: bool,
    context: &str,
    cursor_limit: Option<u64>,
    pragmas: &PragmaSet,
) -> (r: CompileRequest)
    ensures
        r.source@ == directive(*pragmas) + body@,
        r.required == required,
        r.strict == strict,
        r.source_dir == source_dir,
        r.options matches Some(o) && o.lib_paths == lib_paths && o.context@ == context@
            && o.cursor_limit == cursor_limit,
{
    CompileRequest {
        source: prepend_effective_pragmas(pragmas, body),
        required,
        strict,
        source_dir,
        options: Some(ScopeOptions { lib_paths, context: context.to_owned(), cursor_limit }),
    }
}

/// A quote opens where none is open and closes where one is; within it brackets do not
/// count, and outside each opens or closes one level.
pub proof fn law_quotes_hide_brackets(s: Seq<char>, c: char)
    ensures
        quoted(s.push('\'')) == !quoted(s),
        c != '\'' ==> quoted(s.push(c)) == quoted(s),
        quoted(s) ==> depth(s.push(c)) == depth(s),
        !quoted(s) ==> depth(s.push('(')) == depth(s) + 1,
        !quoted(s) ==> depth(s.push(')')) == depth(s) - 1,
        c != '(' && c != ')' ==> depth(s.push(c)) == depth(s),
        !quoted(Seq::<char>::empty()),
        depth(Seq::<char>::empty()) == 0,
{
    assert(s.push(c).drop_last() =~= s);
    assert(s.push('\'').drop_last() =~= s);
    assert(s.push('(').drop_last() =~= s);
    assert(s.push(')').drop_last() =~= s);
}

/// Arguments are parted at commas outside quotes and brackets, and nowhere else: joined
/// with commas the parts give the text back, and another character makes a new part only
/// where it is such a comma.
pub proof fn law_arguments_are_parted_at_outer_commas(s: Seq<char>, c: char)
    ensures
        arg_parts(s).len() > 0,
        text::joined(arg_parts(s), ","@) == s,
        c == ',' && !quoted(s) && depth(s) == 0 ==> arg_parts(s.push(c)) == arg_parts(s).push(
            Seq::empty(),
        ),
        !(c == ',' && !quoted(s) && depth(s) == 0) ==> arg_parts(s.push(c)).len() == arg_parts(
            s,
        ).len(),
    decreases s.len(),
{
    reveal_strlit(",");
    assert(","@ =~= seq![',']);
    assert(s.push(c).drop_last() =~= s);
    let parts = arg_parts(s);
    if s.len() == 0 {
        assert(text::joined(parts, ","@) =~= s);
    } else {
        let less = s.drop_last();
        law_arguments_are_parted_at_outer_commas(less, c);
        let before = arg_parts(less);
        assert(less.push(s.last()) =~= s);
        if s.last() == ',' && !quoted(less) && depth(less) == 0 {
            assert(parts.drop_last() =~= before);
            assert(text::joined(parts, ","@) =~= s);
        } else {
            assert(parts.drop_last() =~= before.drop_last());
            assert(parts.last() == before.last().push(s.last()));
            if before.len() == 1 {
                assert(parts[0] == before[0].push(s.last()));
            } else {
                let head = text::joined(before.drop_last(), ","@) + ","@;
                assert(text::joined(before, ","@) == head + before.last());
                assert(text::joined(parts, ","@) == head + before.last().push(s.last()));
                assert(head + before.last().push(s.last()) =~= (head + before.last()).push(s.last()));
            }
        }
    }
}

/// Arguments are read without the white space around them; one that is empty counts, but
/// for one at the end.
pub proof fn law_arguments_are_trimmed(s: Seq<char>, i: int)
    requires
        0 <= i < arg_parts(s).len(),
    ensures
        ({
            let parts = arg_parts(s);
            let last = text::trimmed(parts.last());
            &&& last.len() > 0 ==> args_of(s).len() == parts.len()
            &&& last.len() == 0 ==> args_of(s).len() == parts.len() - 1
            &&& i < args_of(s).len() ==> args_of(s)[i] == text::trimmed(parts[i])
        }),
{
}

proof fn lemma_first_at(s: Seq<char>, c: char)
    ensures
        0 <= first_at(s, c) <= s.len(),
        forall|k: int| 0 <= k < first_at(s, c) ==> #[trigger] s[k] != c,
        first_at(s, c) < s.len() ==> s[first_at(s, c)] == c,
    decreases s.len(),
{
    if s.len() > 0 && s[0] != c {
        let rest = s.drop_first();
        lemma_first_at(rest, c);
        assert forall|k: int| 0 <= k < first_at(s, c) implies #[trigger] s[k] != c by {
            if k > 0 {
                assert(rest[k - 1] == s[k]);
            }
        }
    }
}

/// A call is a name and, in brackets, its arguments; without brackets it has none, and
/// neither has it where nothing stands between them.
pub proof fn law_call_is_read(name: Seq<char>, inside: Seq<char>)
    requires
        !name.contains('('),
        inside.len() == 0 || inside.last() != ')',
    ensures
        call_of(name) == (text::trimmed(name), Seq::<Seq<char>>::empty()),
        call_of(name + seq!['('] + inside + seq![')']).0 == text::trimmed(name),
        text::trimmed(inside).len() == 0 ==> call_of(
            name + seq!['('] + inside + seq![')'],
        ).1.len() == 0,
        text::trimmed(inside).len() > 0 ==> call_of(name + seq!['('] + inside + seq![')']).1
            == args_of(text::trimmed(inside)),
{
    lemma_first_at(name, '(');
    if first_at(name, '(') < name.len() {
        assert(name.contains(name[first_at(name, '(')]));
    }
    let all = name + seq!['('] + inside + seq![')'];
    lemma_first_at(all, '(');
    let p = first_at(all, '(');
    let n = name.len() as int;
    assert(all[n] == '(');
    assert(p == n) by {
        if p < n {
            assert(all[p] == name[p]);
            assert(name.contains(name[p]));
        }
    }
    assert(all.take(p) =~= name);
    assert(all.skip(p + 1) =~= inside.push(')'));
    text::law_strip_takes_off_all(inside, ')');
}

/// The calls of a chain are those of its segments, in order; a blank segment makes none.
pub proof fn law_chain_is_read_in_order(a: Seq<Seq<char>>, b: Seq<Seq<char>>, one: Seq<char>)
    ensures
        calls_of(a + b) == calls_of(a) + calls_of(b),
        text::trimmed(one).len() == 0 ==> calls_of(seq![one]).len() == 0,
        text::trimmed(one).len() > 0 ==> calls_of(seq![one]) == seq![call_of(text::trimmed(one))],
    decreases b.len(),
{
    if b.len() == 0 {
        assert(a + b =~= a);
        assert(calls_of(a) + calls_of(b) =~= calls_of(a));
    } else {
        assert((a + b).drop_last() =~= a + b.drop_last());
        law_chain_is_read_in_order(a, b.drop_last(), one);
        assert(calls_of(a + b) =~= calls_of(a) + calls_of(b));
    }
    let s = seq![one];
    assert(s.drop_last() =~= Seq::<Seq<char>>::empty());
    assert(calls_of(s.drop_last()).len() == 0);
    if text::trimmed(one).len() > 0 {
        assert(calls_of(s) =~= seq![call_of(text::trimmed(one))]);
    }
}

/// One letter that marks a long number is taken off, and nothing else.
pub proof fn law_long_suffix_is_taken_off(s: Seq<char>, c: char)
    ensures
        without_long_suffix(s.push('L')) == s,
        without_long_suffix(s.push('l')) == s,
        c != 'L' && c != 'l' ==> without_long_suffix(s.push(c)) == s.push(c),
{
    assert(s.push('L').drop_last() =~= s);
    assert(s.push('l').drop_last() =~= s);
}

/// The steps of a chain bind different names; only the last binds that of the chain.
pub proof fn law_steps_bind_different_names(name: Seq<char>, i: int, j: int, n: int)
    requires
        0 <= i < n,
        0 <= j < n,
        i != j,
    ensures
        wire_of(name, i, n) != wire_of(name, j, n),
        wire_of(name, n - 1, n) == name,
{
    reveal_strlit("__chain_");
    reveal_strlit("_");
    let head = "__chain_"@ + name + "_"@;
    if i < n - 1 && j < n - 1 {
        let a = text::decimal(i as nat);
        let b = text::decimal(j as nat);
        if head + a == head + b {
            assert((head + a).skip(head.len() as int) =~= a);
            assert((head + b).skip(head.len() as int) =~= b);
            text::law_decimal_tells_apart(i as nat, j as nat);
        }
    } else if i < n - 1 {
        assert((head + text::decimal(i as nat)).len() > name.len());
    } else {
        assert((head + text::decimal(j as nat)).len() > name.len());
    }
}

/// A step reads what is before it, then its own arguments in order, then what its function
/// needs beside.
pub proof fn law_step_reads_then_takes(from: Seq<char>, call: (Seq<char>, Seq<Seq<char>>), i: int)
    requires
        0 <= i < call.1.len(),
    ensures
        ({
            let args = step_args(from, call);
            let more = extra_args(lower_case(call.0));
            &&& args.len() == 1 + call.1.len() + more.len()
            &&& args[0] == from
            &&& args[1 + i] == without_long_suffix(text::trimmed(call.1[i]))
            &&& more.len() == 1 ==> args.last() == more[0]
        }),
{
}

/// A number is written in the radix that its function is named after.
pub proof fn law_radix_follows_the_name(lower: Seq<char>)
    ensures
        radix_of(lower) is Some ==> node_name(lower) == "format_u64"@ && extra_args(lower).len() == 1
            && extra_args(lower)[0] == radix_of(lower)->0,
        radix_of(lower) is None ==> extra_args(lower).len() == 0,
        radix_of("tohexstring"@) == Some("16"@),
        radix_of("tooctalstring"@) == Some("8"@),
        radix_of("tobinarystring"@) == Some("2"@),
        radix_of("tostring"@) == Some("10"@),
{
    reveal_strlit("tohexstring");
    reveal_strlit("tooctalstring");
    reveal_strlit("tobinarystring");
    reveal_strlit("tostring");
    reveal_strlit("to_string");
    assert("tohexstring"@.len() == 11 && "tooctalstring"@.len() == 13 && "tobinarystring"@.len() == 14
        && "tostring"@.len() == 8 && "to_string"@.len() == 9);
}

/// The lines are those of each binding in order, one for each step of its chain.
pub proof fn law_lines_follow_the_bindings(
    a: Seq<(Seq<char>, String)>,
    b: Seq<(Seq<char>, String)>,
    name: Seq<char>,
    expr: String,
)
    ensures
        all_lines(a + b) == all_lines(a) + all_lines(b),
        all_lines(seq![(name, expr)]).len() == chain_of(expr@).len(),
        forall|i: int|
            0 <= i < chain_of(expr@).len() ==> #[trigger] all_lines(seq![(name, expr)])[i] == step_line(
                name,
                chain_of(expr@),
                i,
            ),
    decreases b.len(),
{
    if b.len() == 0 {
        assert(a + b =~= a);
        assert(all_lines(a) + all_lines(b) =~= all_lines(a));
    } else {
        assert((a + b).drop_last() =~= a + b.drop_last());
        law_lines_follow_the_bindings(a, b.drop_last(), name, expr);
        assert(all_lines(a + b) =~= all_lines(a) + all_lines(b));
    }
    let one = seq![(name, expr)];
    assert(one.drop_last() =~= Seq::<(Seq<char>, String)>::empty());
    assert(all_lines(one.drop_last()) =~= Seq::<Seq<char>>::empty());
    assert(one.last() == (name, expr));
    assert(all_lines(one) =~= binding_lines(name, chain_of(expr@)));
}

/// The op holds definitions that are not blank.
pub open spec fn brings_source(op: BindingOp) -> bool {
    op.bindings matches BindingsDef::PolydatSource(src) && text::trimmed(src@).len() > 0
}

/// The first definitions that are not blank are taken as they stand.
pub proof fn law_first_source_is_taken(ops: Seq<BindingOp>)
    ensures
        native_source(ops) is Some <==> exists|i: int|
            0 <= i < ops.len() && #[trigger] brings_source(ops[i]),
        forall|i: int|
            0 <= i < ops.len() && #[trigger] brings_source(ops[i]) && (forall|k: int|
                0 <= k < i ==> !#[trigger] brings_source(ops[k])) ==> native_source(ops) == Some(
                ops[i].bindings->PolydatSource_0@,
            ),
    decreases ops.len(),
{
    if ops.len() > 0 {
        let less = ops.drop_last();
        law_first_source_is_taken(less);
        let n = less.len() as int;
        assert(ops[n] == ops.last());
        assert forall|k: int| 0 <= k < n implies #[trigger] brings_source(ops[k]) == brings_source(
            less[k],
        ) by {
            assert(ops[k] == less[k]);
        }
        if native_source(less) is Some {
            let i = choose|i: int| 0 <= i < less.len() && #[trigger] brings_source(less[i]);
            assert(brings_source(ops[i]));
        }
        if exists|i: int| 0 <= i < ops.len() && #[trigger] brings_source(ops[i]) {
            let i = choose|i: int| 0 <= i < ops.len() && #[trigger] brings_source(ops[i]);
            if i < n {
                assert(brings_source(less[i]));
                assert(native_source(less) is Some);
            }
        }
        if native_source(ops) is Some && native_source(less) is None {
            assert(brings_source(ops[n]));
        }
        assert forall|i: int|
            0 <= i < ops.len() && #[trigger] brings_source(ops[i]) && (forall|k: int|
                0 <= k < i ==> !#[trigger] brings_source(ops[k])) implies native_source(ops) == Some(
            ops[i].bindings->PolydatSource_0@,
        ) by {
            if i < n {
                assert(brings_source(less[i]));
                assert forall|k: int| 0 <= k < i implies !#[trigger] brings_source(less[k]) by {
                    assert(!brings_source(ops[k]));
                }
            } else {
                assert forall|k: int| 0 <= k < less.len() implies !#[trigger] brings_source(less[k]) by {
                    assert(!brings_source(ops[k]));
                }
                assert(native_source(less) is None);
            }
        }
    }
}

proof fn lemma_absorb(bound: Map<Seq<char>, String>, entries: Seq<(Seq<char>, String)>, name: Seq<char>)
    ensures
        absorb(bound, entries).contains_key(name) <==> bound.contains_key(name) || exists|i: int|
            0 <= i < entries.len() && (#[trigger] entries[i]).0 == name,
        bound.contains_key(name) ==> absorb(bound, entries)[name] == bound[name],
        !bound.contains_key(name) ==> forall|i: int|
            0 <= i < entries.len() && (#[trigger] entries[i]).0 == name && (forall|k: int|
                0 <= k < i ==> (#[trigger] entries[k]).0 != name) ==> absorb(bound, entries)[name]
                == entries[i].1,
    decreases entries.len(),
{
    if entries.len() > 0 {
        let less = entries.drop_last();
        lemma_absorb(bound, less, name);
        let n = less.len() as int;
        assert(entries[n] == entries.last());
        assert forall|k: int| 0 <= k < n implies #[trigger] entries[k] == less[k] by {}
        if exists|i: int| 0 <= i < less.len() && (#[trigger] less[i]).0 == name {
            let i = choose|i: int| 0 <= i < less.len() && (#[trigger] less[i]).0 == name;
            assert(entries[i].0 == name);
        }
        if exists|i: int| 0 <= i < entries.len() && (#[trigger] entries[i]).0 == name {
            let i = choose|i: int| 0 <= i < entries.len() && (#[trigger] entries[i]).0 == name;
            if i < n {
                assert(less[i].0 == name);
            }
        }
        if !bound.contains_key(name) {
            assert forall|i: int|
                0 <= i < entries.len() && (#[trigger] entries[i]).0 == name && (forall|k: int|
                    0 <= k < i ==> (#[trigger] entries[k]).0 != name) implies absorb(bound, entries)[name]
                == entries[i].1 by {
                if i < n {
                    assert(less[i].0 == name);
                    assert forall|k: int| 0 <= k < i implies (#[trigger] less[k]).0 != name by {
                        assert(entries[k].0 != name);
                    }
                } else {
                    assert forall|k: int| 0 <= k < less.len() implies (#[trigger] less[k]).0 != name by {
                        assert(entries[k].0 != name);
                    }
                }
            }
        }
    }
}

/// A name keeps the chain that the first op gives it, and what no op before has given, the
/// next one gives.
pub proof fn law_first_chain_is_kept(
    ops: Seq<BindingOp>,
    map: StrMap<String>,
    references: Vec<String>,
    name: Seq<char>,
)
    ensures
        ({
            let op = BindingOp { bindings: BindingsDef::Chains(map), references };
            let before = chains_of(ops);
            let after = chains_of(ops.push(op));
            &&& before.contains_key(name) ==> after.contains_key(name) && after[name] == before[name]
            &&& after.contains_key(name) <==> before.contains_key(name) || exists|i: int|
                0 <= i < map.pairs().len() && (#[trigger] map.pairs()[i]).0 == name
            &&& !before.contains_key(name) ==> forall|i: int|
                0 <= i < map.pairs().len() && (#[trigger] map.pairs()[i]).0 == name && (forall|k: int|
                    0 <= k < i ==> (#[trigger] map.pairs()[k]).0 != name) ==> after[name]
                    == map.pairs()[i].1
        }),
{
    let op = BindingOp { bindings: BindingsDef::Chains(map), references };
    assert(ops.push(op).drop_last() =~= ops);
    lemma_absorb(chains_of(ops), map.pairs(), name);
}

/// What is missing is what is referred to and not bound, in order; the cycle is always
/// there.
pub proof fn law_missing_is_what_is_not_bound(required: Seq<Seq<char>>, bound: Map<Seq<char>, String>)
    ensures
        missing_of(required, bound) == required.filter(
            |n: Seq<char>| !bound.contains_key(n) && n != "cycle"@,
        ),
    decreases required.len(),
{
    reveal(Seq::filter);
    if required.len() > 0 {
        law_missing_is_what_is_not_bound(required.drop_last(), bound);
    }
}

/// Definitions that stand by themselves always make a request, with their text as it is;
/// chains do exactly where each has a step and nothing is missing.
pub proof fn law_request_is_made_iff_bound(
    ops: Seq<BindingOp>,
    source_dir: Option<String>,
    strict: bool,
    r: Result<CompileRequest, String>,
)
    requires
        is_request(ops, source_dir, strict, r),
    ensures
        ({
            let bound = chains_of(ops);
            let entries = strmap::in_order(bound);
            let whole = forall|i: int|
                0 <= i < entries.len() ==> chain_of((#[trigger] entries[i]).1@).len() > 0;
            let known = forall|n: Seq<char>| #[trigger]
                required_of(ops).contains(n) ==> bound.contains_key(n) || n == "cycle"@;
            &&& native_source(ops) is Some ==> r is Ok && r->Ok_0.source@ == native_source(ops)->0
            &&& native_source(ops) is None ==> (r is Ok <==> whole && known)
            &&& native_source(ops) is None && r is Ok ==> r->Ok_0.source@ == text::joined(
                seq!["input cycle: u64"@] + all_lines(entries),
                "\n"@,
            )
            &&& r is Err && whole ==> r->Err_0@ == "undeclared bind point references: "@
                + text::joined(missing_of(required_of(ops), bound), ", "@)
                + ". Add these to your bindings section."@
            &&& r is Err && !whole ==> exists|i: int|
                0 <= i < entries.len() && chain_of((#[trigger] entries[i]).1@).len() == 0 && r->Err_0@
                    == "empty binding expression for '"@ + entries[i].0 + "'"@ && forall|k: int|
                    0 <= k < i ==> chain_of((#[trigger] entries[k]).1@).len() > 0
            &&& r matches Ok(q) ==> text::views(q.required@) == required_of(ops) && q.strict == strict
                && q.source_dir == source_dir && q.options is None
        }),
{
    let bound = chains_of(ops);
    let entries = strmap::in_order(bound);
    let required = required_of(ops);
    let missing = missing_of(required, bound);
    law_missing_is_what_is_not_bound(required, bound);
    let open = |n: Seq<char>| !bound.contains_key(n) && n != "cycle"@;
    assert(missing == required.filter(open));
    if missing.len() > 0 {
        assert(missing.contains(missing[0]));
        required.lemma_filter_contains_rev(open, missing[0]);
        required.lemma_filter_pred(open, 0);
        assert(!bound.contains_key(missing[0]));
    }
    if exists|n: Seq<char>| #[trigger]
        required.contains(n) && !(bound.contains_key(n) || n == "cycle"@) {
        let n = choose|n: Seq<char>| #[trigger]
            required.contains(n) && !(bound.contains_key(n) || n == "cycle"@);
        required.lemma_filter_contains(open, required.index_of(n));
        assert(missing.contains(n));
    }
    if exists|i: int| 0 <= i < entries.len() && chain_of((#[trigger] entries[i]).1@).len() == 0 {
        let i = choose|i: int| 0 <= i < entries.len() && chain_of((#[trigger] entries[i]).1@).len() == 0;
        let f = lemma_first_stepless(entries, i);
        assert(first_stepless(entries, f));
    }
}

proof fn lemma_first_stepless(entries: Seq<(Seq<char>, String)>, i: int) -> (f: int)
    requires
        0 <= i < entries.len(),
        chain_of(entries[i].1@).len() == 0,
    ensures
        first_stepless(entries, f),
    decreases i,
{
    if exists|k: int| 0 <= k < i && chain_of((#[trigger] entries[k]).1@).len() == 0 {
        let k = choose|k: int| 0 <= k < i && chain_of((#[trigger] entries[k]).1@).len() == 0;
        lemma_first_stepless(entries, k)
    } else {
        i
    }
}

/// Names are added behind those that are there, each once, and not where they are left
/// out on purpose.
pub proof fn law_new_names_are_added_once(
    required: Seq<Seq<char>>,
    names: Seq<Seq<char>>,
    exclude: Seq<Seq<char>>,
)
    requires
        required.no_duplicates(),
    ensures
        with_new(required, names, exclude).no_duplicates(),
        required.is_prefix_of(with_new(required, names, exclude)),
        forall|n: Seq<char>| #[trigger]
            with_new(required, names, exclude).contains(n) <==> required.contains(n) || (
            names.contains(n) && !exclude.contains(n)),
    decreases names.len(),
{
    lemma_with_new(required, names, exclude);
    if names.len() > 0 {
        law_new_names_are_added_once(required, names.drop_last(), exclude);
    }
}

/// Every name that a value refers to is found, however deep it lies, in order; a gutter
/// refers to nothing that counts.
pub proof fn law_names_are_found_at_any_depth(
    a: Seq<Referring>,
    b: Seq<Referring>,
    p: Seq<(Seq<char>, Referring)>,
    name: Seq<char>,
    v: Referring,
)
    ensures
        names_in_all(a + b) == names_in_all(a) + names_in_all(b),
        names_in_all(seq![v]) == names_in(v),
        name == "gutter"@ ==> names_in_params(p.push((name, v))) == names_in_params(p),
        name != "gutter"@ ==> names_in_params(p.push((name, v))) == names_in_params(p) + names_in(v),
    decreases b.len(),
{
    if b.len() == 0 {
        assert(a + b =~= a);
        assert(names_in_all(a) + names_in_all(b) =~= names_in_all(a));
    } else {
        assert((a + b).drop_last() =~= a + b.drop_last());
        law_names_are_found_at_any_depth(a, b.drop_last(), p, name, v);
        assert(names_in_all(a + b) =~= names_in_all(a) + names_in_all(b));
    }
    assert(seq![v].drop_last() =~= Seq::<Referring>::empty());
    assert(names_in_all(seq![v].drop_last()) =~= Seq::<Seq<char>>::empty());
    assert(seq![v].last() == v);
    assert(names_in_all(seq![v]) =~= names_in(v));
    assert(p.push((name, v)).drop_last() =~= p);
}

/// A pragma is in effect where a scope or one around it names it, and nowhere else.
pub proof fn law_pragma_is_in_effect_iff_named(set: PragmaSet, name: Seq<char>)
    ensures
        set.parent is None ==> (in_effect(set, name) <==> exists|i: int|
            0 <= i < set.entries@.len() && (#[trigger] set.entries@[i]).name@ == name),
        set.parent matches Some(outer) ==> (in_effect(set, name) <==> in_effect(*outer, name)
            || exists|i: int|
            0 <= i < set.entries@.len() && (#[trigger] set.entries@[i]).name@ == name),
{
}

/// The directive in front of a text asks for what is in effect: strict types, strict
/// values, both, or nothing.
pub proof fn law_directive_asks_for_what_is_in_effect(set: PragmaSet)
    ensures
        ({
            let all = in_effect(set, "strict"@);
            let types = in_effect(set, "strict_types"@);
            let values = in_effect(set, "strict_values"@);
            &&& all || (types && values) ==> directive(set) == "pragma strict\n\n"@
            &&& !all && types && !values ==> directive(set) == "pragma strict_types\n\n"@
            &&& !all && !types && values ==> directive(set) == "pragma strict_values\n\n"@
            &&& !all && !types && !values ==> directive(set).len() == 0
        }),
{
}

/// Functions that were known under other names are called by the names they have now, and
/// any other function by its own.
pub proof fn law_old_names_lead_to_new_ones(lower: Seq<char>)
    ensures
        lower == "uniform"@ || lower == "hashrange"@ || lower == "hash_range"@ ==> node_name(lower)
            == "hash_range"@,
        lower == "normal"@ || lower == "gaussian"@ ==> node_name(lower) == "icd_normal"@,
        lower == "zipf"@ ==> node_name(lower) == "dist_zipf"@,
        lower == "hashinterval"@ || lower == "hash_interval"@ ==> node_name(lower)
            == "hash_interval"@,
        lower == "format"@ || lower == "printf"@ ==> node_name(lower) == "printf"@,
        lower == "numbernamesto_string"@ || lower == "numbernames"@ ==> node_name(lower)
            == "number_to_words"@,
        lower == "tostring"@ || lower == "to_string"@ || lower == "tohexstring"@ || lower
            == "tooctalstring"@ || lower == "tobinarystring"@ ==> node_name(lower) == "format_u64"@,
        node_name(lower) != lower ==> lower == "uniform"@ || lower == "hashrange"@ || lower
            == "normal"@ || lower == "gaussian"@ || lower == "zipf"@ || lower == "hashinterval"@
            || lower == "format"@ || lower == "numbernamesto_string"@ || lower == "numbernames"@
            || radix_of(lower) is Some,
{
    reveal_strlit("uniform");
    reveal_strlit("hashrange");
    reveal_strlit("hash_range");
    reveal_strlit("normal");
    reveal_strlit("gaussian");
    reveal_strlit("zipf");
    reveal_strlit("hashinterval");
    reveal_strlit("hash_interval");
    reveal_strlit("format");
    reveal_strlit("printf");
    reveal_strlit("numbernamesto_string");
    reveal_strlit("numbernames");
    reveal_strlit("tostring");
    reveal_strlit("to_string");
    reveal_strlit("tohexstring");
    reveal_strlit("tooctalstring");
    reveal_strlit("tobinarystring");
    assert("uniform"@[0] == 'u' && "hashrange"@[0] == 'h' && "hash_range"@[0] == 'h'
        && "normal"@[0] == 'n' && "gaussian"@[0] == 'g' && "zipf"@[0] == 'z' && "hashinterval"@[0]
        == 'h' && "hash_interval"@[0] == 'h' && "format"@[0] == 'f' && "printf"@[0] == 'p'
        && "numbernamesto_string"@[0] == 'n' && "numbernames"@[0] == 'n' && "tostring"@[0] == 't'
        && "to_string"@[0] == 't' && "tohexstring"@[0] == 't' && "tooctalstring"@[0] == 't'
        && "tobinarystring"@[0] == 't');
    assert("normal"@[1] == 'o' && "numbernames"@[1] == 'u' && "numbernamesto_string"@[1] == 'u');
    assert("hashrange"@.len() == 9 && "hash_range"@.len() == 10 && "hashinterval"@.len() == 12
        && "hash_interval"@.len() == 13);
}

} // verus!
