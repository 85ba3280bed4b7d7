//! Workload parameters as definitions.
//!
//! Parameters arrive as texts. A text that is a number is defined as that
//! number, a text that is already a string or an array literal as that literal,
//! and every other text as a string.

use vstd::prelude::*;

use crate::strmap;
use crate::strmap::StrMap;
use crate::text;
use crate::text::{cat3, cat5, chars_of, is_float, parse_u64, trim_text};

verus! {

/// From place `i` on, up to the last character, every quote is escaped.
pub open spec fn no_bare_quote(s: Seq<char>, i: int) -> bool
    decreases s.len() - i,
{
    if i >= s.len() - 1 {
        true
    } else if s[i] == '\\' {
        no_bare_quote(s, i + 2)
    } else {
        s[i] != '"' && no_bare_quote(s, i + 1)
    }
}

/// A string literal: quotes around a text in which every quote is escaped.
pub open spec fn string_literal(s: Seq<char>) -> bool {
    s.len() >= 2 && s[0] == '"' && s.last() == '"' && no_bare_quote(s, 1)
}

pub fn is_polydat_quoted_string(s: &str) -> (r: bool)
    ensures
        r == string_literal(s@),
{
    let v = chars_of(s);
    let n: usize = v.len();
    if n < 2 || v[0] != '"' || v[n - 1] != '"' {
        return false;
    }
    let mut i: usize = 1;
    while i < n - 1
        invariant
            n == v@.len(),
            n >= 2,
            v@ == s@,
            v@[0] == '"',
            v@.last() == '"',
            1 <= i <= n,
            no_bare_quote(v@, 1) == no_bare_quote(v@, i as int),
        decreases n - i,
    {
        if v[i] == '\\' {
            i += 2;
        } else {
            if v[i] == '"' {
                return false;
            }
            i += 1;
        }
    }
    true
}

/// Where a reader of an array literal stands after `s`.
pub ghost struct Reading {
    pub in_string: bool,
    /// The next character is taken as it is.
    pub escaped: bool,
    /// How many brackets are open.
    pub open: int,
}

pub open spec fn reading(s: Seq<char>) -> Reading
    decreases s.len(),
{
    if s.len() == 0 {
        Reading { in_string: false, escaped: false, open: 0 }
    } else {
        let r = reading(s.drop_last());
        let c = s.last();
        if r.escaped {
            Reading { escaped: false, ..r }
        } else if r.in_string {
            if c == '\\' {
                Reading { escaped: true, ..r }
            } else if c == '"' {
                Reading { in_string: false, ..r }
            } else {
                r
            }
        } else if c == '"' {
            Reading { in_string: true, ..r }
        } else if c == '[' {
            Reading { open: r.open + 1, ..r }
        } else if c == ']' {
            Reading { open: r.open - 1, ..r }
        } else {
            r
        }
    }
}

/// An array literal: brackets around a text whose own brackets, those inside
/// strings left out, are balanced.
pub open spec fn array_literal(s: Seq<char>) -> bool {
    &&& s.len() > 0
    &&& s[0] == '['
    &&& s.last() == ']'
    &&& reading(s).open == 0
    &&& forall|k: int| 0 <= k <= s.len() ==> reading(#[trigger] s.take(k)).open >= 0
}

pub fn is_polydat_array_literal(s: &str) -> (r: bool)
    ensures
        r == array_literal(s@),
{
    let v = chars_of(s);
    let n: usize = v.len();
    if n == 0 || v[0] != '[' || v[n - 1] != ']' {
        return false;
    }
    let mut open: i128 = 0;
    let mut in_string = false;
    let mut escaped = false;
    let mut i: usize = 0;
    assert(v@.take(0).len() == 0);
    while i < n
        invariant
            i <= n,
            n == v@.len(),
            v@ == s@,
            reading(v@.take(i as int)) == (Reading { in_string, escaped, open: open as int }),
            0 <= open <= i,
            forall|k: int| 0 <= k <= i ==> reading(#[trigger] v@.take(k)).open >= 0,
        decreases n - i,
    {
        let c: char = v[i];
        assert(v@.take(i + 1).drop_last() =~= v@.take(i as int));
        assert(v@.take(i + 1).last() == c);
        if escaped {
            escaped = false;
        } else if in_string {
            if c == '\\' {
                escaped = true;
            } else if c == '"' {
                in_string = false;
            }
        } else if c == '"' {
            in_string = true;
        } else if c == '[' {
            open = open + 1;
        } else if c == ']' {
            if open == 0 {
                assert(reading(v@.take(i + 1)).open == -1);
                return false;
            }
            open = open - 1;
        }
        i += 1;
    }
    assert(v@.take(n as int) =~= v@);
    open == 0
}

/// A text with its backslashes and quotes escaped.
pub open spec fn escaped(s: Seq<char>) -> Seq<char>
    decreases s.len(),
{
    if s.len() == 0 {
        Seq::empty()
    } else if s[0] == '\\' || s[0] == '"' {
        seq!['\\', s[0]] + escaped(s.drop_first())
    } else {
        seq![s[0]] + escaped(s.drop_first())
    }
}

/// A text as a string literal.
pub open spec fn quote(s: Seq<char>) -> Seq<char> {
    "\""@ + escaped(s) + "\""@
}

fn escape_text(s: &str) -> (r: String)
    ensures
        r@ == escaped(s@),
{
    let v = chars_of(s);
    let mut out = String::new();
    let mut i: usize = 0;
    assert(v@.skip(0) =~= v@);
    assert(out@ + escaped(v@) =~= escaped(v@));
    while i < v.len()
        invariant
            i <= v@.len(),
            v@ == s@,
            out@ + escaped(v@.skip(i as int)) == escaped(s@),
        decreases v@.len() - i,
    {
        let ghost before = out@;
        let c: char = v[i];
        let ghost rest = v@.skip(i as int);
        assert(rest.drop_first() =~= v@.skip(i + 1));
        if c == '\\' || c == '"' {
            out.push('\\');
            out.push(c);
            assert(out@ =~= before + seq!['\\', c]);
            assert(out@ + escaped(rest.drop_first()) =~= before + (seq!['\\', c] + escaped(
                rest.drop_first(),
            )));
        } else {
            out.push(c);
            assert(out@ =~= before + seq![c]);
            assert(out@ + escaped(rest.drop_first()) =~= before + (seq![c] + escaped(
                rest.drop_first(),
            )));
        }
        i += 1;
    }
    assert(v@.skip(i as int).len() == 0);
    assert(out@ + escaped(v@.skip(i as int)) =~= out@);
    out
}

/// The literal that a parameter's text is defined as.
pub open spec fn literal_of(value: Seq<char>) -> Seq<char> {
    let t = text::trimmed(value);
    if text::parsed_u64(t) is Some || text::is_float_text(t) || string_literal(t) || array_literal(
        t,
    ) {
        t
    } else {
        quote(value)
    }
}

/// The literal that a parameter's text is defined as: a number, a string
/// literal or an array literal as it stands, without the white space around it;
/// every other text, `true` and `false` too, as a string literal.
pub fn format_value_as_polydat_literal(value: &str) -> (r: String)
    ensures
        r@ == literal_of(value@),
{
    let t = trim_text(value);
    if parse_u64(t.as_str()).is_some() || is_float(t.as_str()) || is_polydat_quoted_string(
        t.as_str(),
    ) || is_polydat_array_literal(t.as_str()) {
        t
    } else {
        cat3("\"", escape_text(value).as_str(), "\"")
    }
}

/// The definitions of the parameters in order.
pub open spec fn definitions(entries: Seq<(Seq<char>, String)>) -> Seq<char>
    decreases entries.len(),
{
    if entries.len() == 0 {
        Seq::empty()
    } else {
        definitions(entries.drop_last()) + ("const "@ + entries.last().0 + " := "@ + literal_of(
            entries.last().1@,
        ) + "\n"@)
    }
}

/// The definitions of the parameters, in name order. Without parameters there
/// is one placeholder.
pub fn render_workload_params_source(params: &StrMap<String>) -> (r: String)
    ensures
        r@ == (if params.pairs().len() == 0 {
            "const __empty := 0\n"@
        } else {
            definitions(params.pairs())
        }),
{
    let n: usize = params.len();
    if n == 0 {
        return "const __empty := 0\n".to_owned();
    }
    let mut out = String::new();
    let mut i: usize = 0;
    let ghost all = params.pairs();
    assert(all.take(0).len() == 0);
    while i < n
        invariant
            i <= n,
            n == all.len(),
            all == params.pairs(),
            out@ == definitions(all.take(i as int)),
        decreases n - i,
    {
        assert(all.take(i + 1).drop_last() =~= all.take(i as int));
        let literal = format_value_as_polydat_literal(params.value_at(i).as_str());
        let line = cat5("const ", params.name_at(i).as_str(), " := ", literal.as_str(), "\n");
        out.append(line.as_str());
        i += 1;
    }
    assert(all.take(i as int) =~= all);
    out
}

/// What is said when the definitions of the parameters do not compile.
pub fn params_fault(error: &str, source: &str) -> (r: String)
    ensures
        r@ == "workload params kernel: "@ + error@ + "\n--- generated source ---\n"@ + source@,
{
    text::cat4("workload params kernel: ", error, "\n--- generated source ---\n", source)
}

/// The definitions depend on the parameters alone, not on the order in which
/// they were given.
pub proof fn law_definitions_are_deterministic(a: StrMap<String>, b: StrMap<String>)
    requires
        a.wf(),
        b.wf(),
        a@ == b@,
    ensures
        definitions(a.pairs()) == definitions(b.pairs()),
        a.pairs().len() == b.pairs().len(),
{
    strmap::lemma_order_determined(a.pairs(), b.pairs());
}

/// Whatever a text holds, its quoted form is one string literal.
pub proof fn law_quoted_text_is_one_literal(s: Seq<char>)
    ensures
        string_literal(quote(s)),
{
    reveal_strlit("\"");
    assert("\""@ =~= seq!['"']);
    let q = quote(s);
    assert(q =~= seq!['"'] + escaped(s) + seq!['"']);
    lemma_escaped_closed(seq!['"'], s);
}

proof fn lemma_escaped_closed(before: Seq<char>, s: Seq<char>)
    ensures
        no_bare_quote(before + escaped(s) + seq!['"'], before.len() as int),
    decreases s.len(),
{
    let all = before + escaped(s) + seq!['"'];
    if s.len() > 0 {
        let step = if s[0] == '\\' || s[0] == '"' {
            seq!['\\', s[0]]
        } else {
            seq![s[0]]
        };
        lemma_escaped_closed(before + step, s.drop_first());
        assert((before + step) + escaped(s.drop_first()) + seq!['"'] =~= all);
        assert(all[before.len() as int] == step[0]);
        assert(all.len() >= before.len() + step.len() + 1);
    }
}

/// The text that the inside of a string literal denotes: a backslash stands for
/// the character behind it.
pub open spec fn unescaped(s: Seq<char>) -> Seq<char>
    decreases s.len(),
{
    if s.len() == 0 {
        Seq::empty()
    } else if s[0] == '\\' && s.len() > 1 {
        seq![s[1]] + unescaped(s.skip(2))
    } else {
        seq![s[0]] + unescaped(s.drop_first())
    }
}

/// A quoted text denotes that text.
pub proof fn law_escaped_text_reads_back(s: Seq<char>)
    ensures
        unescaped(escaped(s)) == s,
    decreases s.len(),
{
    if s.len() > 0 {
        let rest = s.drop_first();
        law_escaped_text_reads_back(rest);
        let e = escaped(s);
        if s[0] == '\\' || s[0] == '"' {
            assert(e.skip(2) =~= escaped(rest));
            assert(e[0] == '\\' && e[1] == s[0]);
        } else {
            assert(e.drop_first() =~= escaped(rest));
            assert(e[0] == s[0]);
        }
        assert(s =~= seq![s[0]] + rest);
    }
}

/// A literal is its own literal: what was made of a text once stays as it is.
pub proof fn law_literal_is_stable(v: Seq<char>)
    ensures
        literal_of(literal_of(v)) == literal_of(v),
{
    let t = text::trimmed(v);
    let l = literal_of(v);
    if text::parsed_u64(t) is Some || text::is_float_text(t) || string_literal(t) || array_literal(t) {
        text::law_trimmed_is_stable(v);
    } else {
        law_quoted_text_is_one_literal(v);
        assert(l[0] == '"' && l.last() == '"');
        text::law_trimmed_stays(l);
    }
}

/// A number stands for itself, without the white space around it; a text that is no
/// literal is quoted with all that it holds, and denotes itself.
pub proof fn law_literal_denotes_the_value(v: Seq<char>, n: u64)
    ensures
        literal_of(text::decimal(n as nat)) == text::decimal(n as nat),
        ({
            let t = text::trimmed(v);
            literal_of(v) == t || (literal_of(v) == seq!['"'] + escaped(v) + seq!['"'] && unescaped(
                escaped(v),
            ) == v)
        }),
        string_literal(text::trimmed(v)) ==> literal_of(v) == text::trimmed(v),
        array_literal(text::trimmed(v)) ==> literal_of(v) == text::trimmed(v),
        text::is_float_text(text::trimmed(v)) ==> literal_of(v) == text::trimmed(v),
        ({
            let t = text::trimmed(v);
            t.len() > 0 && t[0] != '"' && t[0] != '[' && text::parsed_u64(t) is None
                && !text::is_float_text(t) ==> literal_of(v) == seq!['"'] + escaped(v) + seq!['"']
        }),
{
    let d = text::decimal(n as nat);
    text::law_decimal_reads_back(n as nat);
    text::law_written_number_is_read(n as nat, u64::MAX as nat);
    assert(text::is_digit(d[0]) && text::is_digit(d[d.len() - 1]));
    text::law_trimmed_stays(d);
    law_escaped_text_reads_back(v);
    reveal_strlit("\"");
    assert("\""@ =~= seq!['"']);
}

/// Every parameter is defined once, in order, as a constant of its name.
pub proof fn law_each_parameter_is_defined(
    a: Seq<(Seq<char>, String)>,
    b: Seq<(Seq<char>, String)>,
    name: Seq<char>,
    v: String,
)
    ensures
        definitions(a + b) == definitions(a) + definitions(b),
        definitions(seq![(name, v)]) == "const "@ + name + " := "@ + literal_of(v@) + "\n"@,
    decreases b.len(),
{
    if b.len() == 0 {
        assert(a + b =~= a);
        assert(definitions(a) + definitions(b) =~= definitions(a));
    } else {
        assert((a + b).drop_last() =~= a + b.drop_last());
        law_each_parameter_is_defined(a, b.drop_last(), name, v);
        assert(definitions(a + b) =~= definitions(a) + definitions(b));
    }
    let one = seq![(name, v)];
    assert(one.drop_last() =~= Seq::<(Seq<char>, String)>::empty());
    assert(definitions(one.drop_last()) =~= Seq::<char>::empty());
    assert(one.last() == (name, v));
    assert(definitions(one) =~= "const "@ + name + " := "@ + literal_of(v@) + "\n"@);
}

/// Reading the escaped form of a text within a string changes nothing: what it holds
/// neither ends the string nor opens or closes a bracket.
proof fn lemma_string_is_passed(before: Seq<char>, s: Seq<char>, k: int)
    requires
        reading(before).in_string,
        !reading(before).escaped,
        before.len() <= k <= before.len() + escaped(s).len(),
    ensures
        reading(before + escaped(s)) == reading(before),
        reading((before + escaped(s)).take(k)).open == reading(before).open,
    decreases s.len(),
{
    let all = before + escaped(s);
    if s.len() == 0 {
        assert(all =~= before);
        assert(all.take(k) =~= before);
    } else {
        let rest = s.drop_first();
        let one = before.push(if s[0] == '\\' || s[0] == '"' {
            '\\'
        } else {
            s[0]
        });
        assert(one.drop_last() =~= before);
        let step = if s[0] == '\\' || s[0] == '"' {
            one.push(s[0])
        } else {
            one
        };
        if s[0] == '\\' || s[0] == '"' {
            assert(one.last() == '\\');
            assert(reading(one) == (Reading { escaped: true, ..reading(before) }));
            assert(step.drop_last() =~= one);
        } else {
            assert(one.last() == s[0]);
        }
        assert(reading(step) == reading(before));
        assert(step + escaped(rest) =~= all);
        if k >= step.len() {
            lemma_string_is_passed(step, rest, k);
        } else {
            lemma_string_is_passed(step, rest, step.len() as int);
            if k == before.len() {
                assert(all.take(k) =~= before);
            } else {
                assert(all.take(k) =~= one);
            }
        }
    }
}

/// A quoted text in brackets is an array, whatever brackets and quotes the text holds.
pub proof fn law_brackets_in_strings_do_not_count(s: Seq<char>)
    ensures
        array_literal(seq!['['] + quote(s) + seq![']']),
        !array_literal(seq!['['] + quote(s)),
{
    reveal_strlit("\"");
    assert("\""@ =~= seq!['"']);
    let a = seq!['['];
    let b = a.push('"');
    let c = b + escaped(s);
    let d = c.push('"');
    let e = d.push(']');
    assert(a.drop_last() =~= Seq::<char>::empty());
    assert(b.drop_last() =~= a);
    assert(reading(a.drop_last()) == (Reading { in_string: false, escaped: false, open: 0 }));
    assert(a.last() == '[' && b.last() == '"');
    assert(reading(a) == (Reading { in_string: false, escaped: false, open: 1 }));
    assert(reading(b) == (Reading { in_string: true, escaped: false, open: 1 }));
    lemma_string_is_passed(b, s, c.len() as int);
    assert(d.drop_last() =~= c);
    assert(e.drop_last() =~= d);
    assert(c.len() >= 2 && d.len() == c.len() + 1 && e.len() == d.len() + 1);
    assert(reading(d) == (Reading { in_string: false, escaped: false, open: 1 }));
    assert(reading(e) == (Reading { in_string: false, escaped: false, open: 0 }));
    assert(e =~= seq!['['] + quote(s) + seq![']']);
    assert(d =~= seq!['['] + quote(s));
    assert forall|k: int| 0 <= k <= e.len() implies reading(#[trigger] e.take(k)).open >= 0 by {
        if k == 0 {
            assert(e.take(0) =~= a.drop_last());
        } else if k == 1 {
            assert(e.take(1) =~= a);
        } else if k <= c.len() {
            lemma_string_is_passed(b, s, k);
            assert(e.take(k) =~= c.take(k));
        } else if k == d.len() {
            assert(e.take(k) =~= d);
        } else {
            assert(e.take(k) =~= e);
        }
    }
}

/// How often a character stands in a text.
pub open spec fn times(s: Seq<char>, c: char) -> int
    decreases s.len(),
{
    if s.len() == 0 {
        0
    } else {
        times(s.drop_last(), c) + (if s.last() == c {
            1int
        } else {
            0
        })
    }
}

proof fn lemma_brackets_are_counted(s: Seq<char>)
    requires
        !s.contains('"'),
    ensures
        reading(s) == (Reading {
            in_string: false,
            escaped: false,
            open: times(s, '[') - times(s, ']'),
        }),
    decreases s.len(),
{
    if s.len() > 0 {
        let less = s.drop_last();
        assert(!less.contains('"')) by {
            if less.contains('"') {
                let i = less.index_of('"');
                assert(s[i] == '"');
            }
        }
        lemma_brackets_are_counted(less);
        assert(s[s.len() - 1] != '"') by {
            if s[s.len() - 1] == '"' {
                assert(s.contains('"'));
            }
        }
    }
}

/// A text without quotes is an array exactly where it stands in brackets, as many close as
/// open, and nowhere more have closed than opened.
pub proof fn law_array_has_balanced_brackets(s: Seq<char>)
    requires
        !s.contains('"'),
    ensures
        array_literal(s) <==> {
            &&& s.len() > 0
            &&& s[0] == '['
            &&& s.last() == ']'
            &&& times(s, '[') == times(s, ']')
            &&& forall|k: int|
                0 <= k <= s.len() ==> times(#[trigger] s.take(k), '[') >= times(s.take(k), ']')
        },
{
    lemma_brackets_are_counted(s);
    assert forall|k: int| 0 <= k <= s.len() implies reading(#[trigger] s.take(k)).open == times(
        s.take(k),
        '[',
    ) - times(s.take(k), ']') by {
        assert(!s.take(k).contains('"')) by {
            if s.take(k).contains('"') {
                let i = s.take(k).index_of('"');
                assert(s[i] == '"');
            }
        }
        lemma_brackets_are_counted(s.take(k));
    }
    if array_literal(s) {
        assert forall|k: int| 0 <= k <= s.len() implies times(#[trigger] s.take(k), '[') >= times(
            s.take(k),
            ']',
        ) by {
            assert(reading(s.take(k)).open >= 0);
        }
    }
}

proof fn lemma_bare_quotes(s: Seq<char>, i: int)
    requires
        0 <= i,
        forall|k: int| 0 <= k < s.len() ==> #[trigger] s[k] != '\\',
    ensures
        no_bare_quote(s, i) <==> forall|k: int| i <= k < s.len() - 1 ==> #[trigger] s[k] != '"',
    decreases s.len() - i,
{
    if i < s.len() - 1 {
        lemma_bare_quotes(s, i + 1);
    }
}

/// A text without backslashes is one string exactly where it stands in quotes and holds
/// none in between.
pub proof fn law_string_ends_at_its_quote(s: Seq<char>)
    requires
        !s.contains('\\'),
    ensures
        string_literal(s) <==> {
            &&& s.len() >= 2
            &&& s[0] == '"'
            &&& s.last() == '"'
            &&& forall|k: int| 0 < k < s.len() - 1 ==> #[trigger] s[k] != '"'
        },
{
    assert forall|k: int| 0 <= k < s.len() implies #[trigger] s[k] != '\\' by {
        if s[k] == '\\' {
            assert(s.contains('\\'));
        }
    }
    lemma_bare_quotes(s, 1);
}

} // verus!
