//! Text primitives over `Seq<char>` models.
//!
//! Everything the runtime does with strings (trimming, splitting, comparing,
//! replacing, joining, decimal rendering) is stated here as a function on
//! character sequences and implemented against that statement.

use vstd::prelude::*;

verus! {

/// `String::push` appends one character to the end of the string.
pub assume_specification[ String::push ](s: &mut String, c: char)
    ensures
        final(s)@ == old(s)@.push(c),
;

/// The characters of `s`, in order.
pub fn chars_of(s: &str) -> (r: Vec<char>)
    ensures
        r@ == s@,
{
    let mut r: Vec<char> = Vec::new();
    for c in it: s.chars()
        invariant
            r@ == s@.take(it.index()),
            it.seq() == s@,
    {
        r.push(c);
        assert(s@.take(it.index() + 1) =~= s@.take(it.index()).push(c));
    }
    assert(s@.take(s@.len() as int) =~= s@);
    r
}

/// The string holding characters `from..to` of `v`.
pub fn string_of(v: &Vec<char>, from: usize, to: usize) -> (r: String)
    requires
        from <= to <= v@.len(),
    ensures
        r@ == v@.subrange(from as int, to as int),
{
    let mut r = String::new();
    let mut i: usize = from;
    while i < to
        invariant
            from <= i <= to <= v@.len(),
            r@ == v@.subrange(from as int, i as int),
        decreases to - i,
    {
        r.push(v[i]);
        i += 1;
        assert(v@.subrange(from as int, i as int) =~= v@.subrange(from as int, i - 1).push(
            v@[i - 1],
        ));
    }
    r
}

/// Whether two strings hold the same characters.
pub fn str_eq(a: &str, b: &str) -> (r: bool)
    ensures
        r == (a@ == b@),
{
    a.to_owned() == b.to_owned()
}

pub open spec fn decimal(n: nat) -> Seq<char>
    decreases n,
{
    if n < 10 {
        seq![digit_char(n)]
    } else {
        decimal(n / 10).push(digit_char(n % 10))
    }
}

/// The character of one decimal digit.
pub open spec fn digit_char(d: nat) -> char {
    (48 + d) as char
}

fn digit(d: u8) -> (c: char)
    requires
        d < 10,
    ensures
        c == digit_char(d as nat),
{
    (48 + d) as char
}

/// The decimal digits of `n`, without sign or leading zeros.
pub fn u64_text(n: u64) -> (r: String)
    ensures
        r@ == decimal(n as nat),
    decreases n,
{
    if n < 10 {
        let mut r = String::new();
        r.push(digit(n as u8));
        assert(r@ =~= seq![digit_char(n as nat)]);
        r
    } else {
        let mut r = u64_text(n / 10);
        r.push(digit((n % 10) as u8));
        r
    }
}


/// The concatenation of two texts.
pub fn cat2(a: &str, b: &str) -> (r: String)
    ensures
        r@ == a@ + b@,
{
    let mut r = a.to_owned();
    r.append(b);
    r
}

/// The concatenation of three texts.
pub fn cat3(a: &str, b: &str, c: &str) -> (r: String)
    ensures
        r@ == a@ + b@ + c@,
{
    let mut r = a.to_owned();
    r.append(b);
    r.append(c);
    r
}

/// The concatenation of four texts.
pub fn cat4(a: &str, b: &str, c: &str, d: &str) -> (r: String)
    ensures
        r@ == a@ + b@ + c@ + d@,
{
    let mut r = a.to_owned();
    r.append(b);
    r.append(c);
    r.append(d);
    r
}

/// The concatenation of five texts.
pub fn cat5(a: &str, b: &str, c: &str, d: &str, e: &str) -> (r: String)
    ensures
        r@ == a@ + b@ + c@ + d@ + e@,
{
    let mut r = a.to_owned();
    r.append(b);
    r.append(c);
    r.append(d);
    r.append(e);
    r
}

/// The concatenation of six texts.
pub fn cat6(a: &str, b: &str, c: &str, d: &str, e: &str, f: &str) -> (r: String)
    ensures
        r@ == a@ + b@ + c@ + d@ + e@ + f@,
{
    let mut r = a.to_owned();
    r.append(b);
    r.append(c);
    r.append(d);
    r.append(e);
    r.append(f);
    r
}

/// The concatenation of seven texts.
pub fn cat7(
    a: &str, b: &str, c: &str, d: &str, e: &str, f: &str, g: &str,
) -> (r: String)
    ensures
        r@ == a@ + b@ + c@ + d@ + e@ + f@ + g@,
{
    let mut r = a.to_owned();
    r.append(b);
    r.append(c);
    r.append(d);
    r.append(e);
    r.append(f);
    r.append(g);
    r
}

/// The concatenation of eight texts.
pub fn cat8(
    a: &str, b: &str, c: &str, d: &str, e: &str, f: &str, g: &str, h: &str,
) -> (r: String)
    ensures
        r@ == a@ + b@ + c@ + d@ + e@ + f@ + g@ + h@,
{
    let mut r = a.to_owned();
    r.append(b);
    r.append(c);
    r.append(d);
    r.append(e);
    r.append(f);
    r.append(g);
    r.append(h);
    r
}

/// The concatenation of nine texts.
pub fn cat9(
    a: &str, b: &str, c: &str, d: &str, e: &str, f: &str, g: &str, h: &str, i: &str,
) -> (r: String)
    ensures
        r@ == a@ + b@ + c@ + d@ + e@ + f@ + g@ + h@ + i@,
{
    let mut r = a.to_owned();
    r.append(b);
    r.append(c);
    r.append(d);
    r.append(e);
    r.append(f);
    r.append(g);
    r.append(h);
    r.append(i);
    r
}

/// The characters of each string of `v`.
pub open spec fn views(v: Seq<String>) -> Seq<Seq<char>> {
    v.map_values(|s: String| s@)
}

/// Characters with the Unicode `White_Space` property.
pub open spec fn is_white(c: char) -> bool {
    ||| '\u{9}' <= c <= '\u{d}'
    ||| c == ' '
    ||| c == '\u{85}'
    ||| c == '\u{a0}'
    ||| c == '\u{1680}'
    ||| '\u{2000}' <= c <= '\u{200a}'
    ||| c == '\u{2028}'
    ||| c == '\u{2029}'
    ||| c == '\u{202f}'
    ||| c == '\u{205f}'
    ||| c == '\u{3000}'
}

pub fn is_whitespace(c: char) -> (r: bool)
    ensures
        r == is_white(c),
{
    ('\u{9}' <= c && c <= '\u{d}') || c == ' ' || c == '\u{85}' || c == '\u{a0}' || c == '\u{1680}'
        || ('\u{2000}' <= c && c <= '\u{200a}') || c == '\u{2028}' || c == '\u{2029}' || c
        == '\u{202f}' || c == '\u{205f}' || c == '\u{3000}'
}

/// `s` without its leading white space.
pub open spec fn trim_start(s: Seq<char>) -> Seq<char>
    decreases s.len(),
{
    if s.len() > 0 && is_white(s[0]) {
        trim_start(s.drop_first())
    } else {
        s
    }
}

/// `s` without its trailing white space.
pub open spec fn trim_end(s: Seq<char>) -> Seq<char>
    decreases s.len(),
{
    if s.len() > 0 && is_white(s.last()) {
        trim_end(s.drop_last())
    } else {
        s
    }
}

/// `s` without leading and trailing white space.
pub open spec fn trimmed(s: Seq<char>) -> Seq<char> {
    trim_end(trim_start(s))
}

/// The position of the first character of `v` that is not white space, or the
/// length of `v`.
fn start_of_text(v: &Vec<char>) -> (r: usize)
    ensures
        r <= v@.len(),
        trim_start(v@) == v@.skip(r as int),
{
    let mut i: usize = 0;
    assert(v@.skip(0) =~= v@);
    while i < v.len() && is_whitespace(v[i])
        invariant
            i <= v@.len(),
            trim_start(v@) == trim_start(v@.skip(i as int)),
        decreases v@.len() - i,
    {
        assert(v@.skip(i as int).drop_first() =~= v@.skip(i + 1));
        i += 1;
    }
    i
}

/// `s` without leading white space.
pub fn trim_start_text(s: &str) -> (r: String)
    ensures
        r@ == trim_start(s@),
{
    let v = chars_of(s);
    let i = start_of_text(&v);
    let r = string_of(&v, i, v.len());
    assert(r@ =~= v@.skip(i as int));
    r
}

/// `s` without leading and trailing white space.
pub fn trim_text(s: &str) -> (r: String)
    ensures
        r@ == trimmed(s@),
{
    let v = chars_of(s);
    let i = start_of_text(&v);
    let mut j: usize = v.len();
    assert(v@.subrange(i as int, j as int) =~= v@.skip(i as int));
    while j > i && is_whitespace(v[j - 1])
        invariant
            i <= j <= v@.len(),
            trim_end(v@.skip(i as int)) == trim_end(v@.subrange(i as int, j as int)),
        decreases j,
    {
        assert(v@.subrange(i as int, j as int).drop_last() =~= v@.subrange(i as int, j - 1));
        j -= 1;
    }
    string_of(&v, i, j)
}

/// `s` without leading `c`s.
pub open spec fn strip_start(s: Seq<char>, c: char) -> Seq<char>
    decreases s.len(),
{
    if s.len() > 0 && s[0] == c {
        strip_start(s.drop_first(), c)
    } else {
        s
    }
}

/// `s` without trailing `c`s.
pub open spec fn strip_end(s: Seq<char>, c: char) -> Seq<char>
    decreases s.len(),
{
    if s.len() > 0 && s.last() == c {
        strip_end(s.drop_last(), c)
    } else {
        s
    }
}

/// `s` without leading `c`s.
pub fn strip_start_text(s: &str, c: char) -> (r: String)
    ensures
        r@ == strip_start(s@, c),
{
    let v = chars_of(s);
    let mut i: usize = 0;
    assert(v@.skip(0) =~= v@);
    while i < v.len() && v[i] == c
        invariant
            i <= v@.len(),
            strip_start(v@, c) == strip_start(v@.skip(i as int), c),
        decreases v@.len() - i,
    {
        assert(v@.skip(i as int).drop_first() =~= v@.skip(i + 1));
        i += 1;
    }
    let r = string_of(&v, i, v.len());
    assert(r@ =~= v@.skip(i as int));
    r
}

/// `s` without trailing `c`s.
pub fn strip_end_text(s: &str, c: char) -> (r: String)
    ensures
        r@ == strip_end(s@, c),
{
    let v = chars_of(s);
    let mut j: usize = v.len();
    assert(v@.take(j as int) =~= v@);
    while j > 0 && v[j - 1] == c
        invariant
            j <= v@.len(),
            strip_end(v@, c) == strip_end(v@.take(j as int), c),
        decreases j,
    {
        assert(v@.take(j as int).drop_last() =~= v@.take(j - 1));
        j -= 1;
    }
    let r = string_of(&v, 0, j);
    assert(r@ =~= v@.take(j as int));
    r
}

/// `s` with the letters `A` to `Z` in lower case.
pub open spec fn ascii_lower(s: Seq<char>) -> Seq<char> {
    s.map_values(|c: char| ascii_lower_char(c))
}

pub open spec fn ascii_lower_char(c: char) -> char {
    if 'A' <= c <= 'Z' {
        (c as u32 + 32) as char
    } else {
        c
    }
}

fn lower_char(c: char) -> (r: char)
    ensures
        r == ascii_lower_char(c),
{
    if 'A' <= c && c <= 'Z' {
        (c as u8 + 32) as char
    } else {
        c
    }
}

/// `s` with the letters `A` to `Z` in lower case.
pub fn ascii_lower_text(s: &str) -> (r: String)
    ensures
        r@ == ascii_lower(s@),
{
    let v = chars_of(s);
    let mut r = String::new();
    let mut i: usize = 0;
    while i < v.len()
        invariant
            i <= v@.len(),
            r@ == ascii_lower(v@.take(i as int)),
        decreases v@.len() - i,
    {
        r.push(lower_char(v[i]));
        assert(v@.take(i + 1) =~= v@.take(i as int).push(v@[i as int]));
        assert(ascii_lower(v@.take(i + 1)) =~= ascii_lower(v@.take(i as int)).push(
            ascii_lower_char(v@[i as int]),
        ));
        i += 1;
    }
    assert(v@.take(v@.len() as int) =~= v@);
    r
}

/// Whether the characters of `v` from `at` on begin with `p`.
pub fn occurs_at(v: &Vec<char>, at: usize, p: &Vec<char>) -> (r: bool)
    requires
        at <= v@.len(),
    ensures
        r == p@.is_prefix_of(v@.skip(at as int)),
{
    let n: usize = v.len();
    if n - at < p.len() {
        return false;
    }
    let mut i: usize = 0;
    while i < p.len()
        invariant
            n == v@.len(),
            i <= p@.len() <= v@.len() - at,
            forall|k: int| 0 <= k < i ==> p@[k] == v@[at + k],
        decreases p@.len() - i,
    {
        if p[i] != v[at + i] {
            assert(v@.skip(at as int)[i as int] != p@[i as int]);
            return false;
        }
        i += 1;
    }
    assert(p@ =~= v@.skip(at as int).subrange(0, p@.len() as int));
    true
}

/// Whether `s` begins with `p`.
pub fn starts_with(s: &str, p: &str) -> (r: bool)
    ensures
        r == p@.is_prefix_of(s@),
{
    let v = chars_of(s);
    let q = chars_of(p);
    assert(v@.skip(0) =~= v@);
    occurs_at(&v, 0, &q)
}

/// `p` stands in `s` at position `i`.
pub open spec fn stands_at(s: Seq<char>, p: Seq<char>, i: int) -> bool {
    0 <= i <= s.len() && p.is_prefix_of(s.skip(i))
}

/// `p` occurs somewhere in `s`.
pub open spec fn has_part(s: Seq<char>, p: Seq<char>) -> bool {
    exists|i: int| stands_at(s, p, i)
}

/// Whether `p` occurs in `s`.
pub fn contains_text(s: &str, p: &str) -> (r: bool)
    ensures
        r == has_part(s@, p@),
{
    let v = chars_of(s);
    let q = chars_of(p);
    let n: usize = v.len();
    let mut i: usize = 0;
    loop
        invariant
            n == v@.len(),
            v@ == s@,
            q@ == p@,
            i <= n,
            forall|k: int| 0 <= k < i ==> !#[trigger] stands_at(s@, p@, k),
        decreases n - i,
    {
        if occurs_at(&v, i, &q) {
            assert(stands_at(s@, p@, i as int));
            return true;
        }
        assert(!stands_at(s@, p@, i as int));
        if i == n {
            return false;
        }
        i += 1;
    }
}

/// Whether `s` ends with `p`.
pub fn ends_with(s: &str, p: &str) -> (r: bool)
    ensures
        r == p@.is_suffix_of(s@),
{
    let v = chars_of(s);
    let q = chars_of(p);
    if q.len() > v.len() {
        return false;
    }
    let at: usize = v.len() - q.len();
    let r = occurs_at(&v, at, &q);
    assert(v@.skip(at as int).len() == q@.len());
    assert(v@.skip(at as int).subrange(0, q@.len() as int) =~= v@.subrange(
        at as int,
        v@.len() as int,
    ));
    r
}

/// The pieces of `s` between occurrences of `sep`.
pub open spec fn split_on(s: Seq<char>, sep: char) -> Seq<Seq<char>>
    decreases s.len(),
{
    if s.len() == 0 {
        seq![Seq::<char>::empty()]
    } else {
        let before = split_on(s.drop_last(), sep);
        if s.last() == sep {
            before.push(Seq::<char>::empty())
        } else {
            before.drop_last().push(before.last().push(s.last()))
        }
    }
}

/// Splitting yields at least one piece.
pub proof fn lemma_split_nonempty(s: Seq<char>, sep: char)
    ensures
        split_on(s, sep).len() > 0,
    decreases s.len(),
{
    if s.len() > 0 {
        lemma_split_nonempty(s.drop_last(), sep);
    }
}

/// The pieces of `s` between occurrences of `sep`.
pub fn split_text(s: &str, sep: char) -> (r: Vec<String>)
    ensures
        views(r@) == split_on(s@, sep),
{
    let v = chars_of(s);
    let mut r: Vec<String> = Vec::new();
    let mut cur = String::new();
    let mut i: usize = 0;
    assert(views(r@).push(cur@) =~= split_on(v@.take(0), sep));
    while i < v.len()
        invariant
            i <= v@.len(),
            views(r@).push(cur@) == split_on(v@.take(i as int), sep),
        decreases v@.len() - i,
    {
        assert(v@.take(i + 1).drop_last() =~= v@.take(i as int));
        let ghost before = views(r@).push(cur@);
        if v[i] == sep {
            r.push(cur);
            cur = String::new();
            assert(views(r@) =~= before);
        } else {
            cur.push(v[i]);
            assert(before.drop_last() =~= views(r@));
        }
        i += 1;
    }
    assert(v@.take(v@.len() as int) =~= v@);
    let ghost before = views(r@).push(cur@);
    r.push(cur);
    assert(views(r@) =~= before);
    r
}

/// `s` with every occurrence of `pat`, taken from the left and without
/// overlaps, exchanged for `with`.
pub open spec fn replaced(s: Seq<char>, pat: Seq<char>, with: Seq<char>) -> Seq<char>
    decreases s.len(),
{
    if pat.len() == 0 || s.len() < pat.len() {
        s
    } else if pat.is_prefix_of(s) {
        with + replaced(s.skip(pat.len() as int), pat, with)
    } else {
        seq![s[0]] + replaced(s.skip(1), pat, with)
    }
}

/// `s` with every occurrence of the non-empty `pat` exchanged for `with`.
pub fn replace_text(s: &str, pat: &str, with: &str) -> (r: String)
    requires
        pat@.len() > 0,
    ensures
        r@ == replaced(s@, pat@, with@),
{
    let v = chars_of(s);
    let p = chars_of(pat);
    let mut r = String::new();
    let mut i: usize = 0;
    assert(v@.skip(0) =~= v@);
    assert(r@ + replaced(v@.skip(0), p@, with@) =~= replaced(v@, p@, with@));
    while i < v.len()
        invariant
            i <= v@.len(),
            p@ == pat@,
            p@.len() > 0,
            r@ + replaced(v@.skip(i as int), p@, with@) == replaced(v@, p@, with@),
        decreases v@.len() - i,
    {
        let ghost rest = v@.skip(i as int);
        if occurs_at(&v, i, &p) {
            let ghost before = r@;
            r.append(with);
            i += p.len();
            assert(rest.skip(p@.len() as int) =~= v@.skip(i as int));
            assert(before + (with@ + replaced(v@.skip(i as int), p@, with@)) =~= r@ + replaced(
                v@.skip(i as int),
                p@,
                with@,
            ));
        } else {
            let ghost before = r@;
            r.push(v[i]);
            i += 1;
            assert(rest.skip(1) =~= v@.skip(i as int));
            assert(before + rest =~= r@ + rest.skip(1));
            assert(before + (seq![rest[0]] + replaced(v@.skip(i as int), p@, with@)) =~= r@
                + replaced(v@.skip(i as int), p@, with@));
        }
    }
    assert(v@.skip(i as int) =~= Seq::<char>::empty());
    assert(r@ + Seq::<char>::empty() =~= r@);
    r
}

/// `parts` one after another, with `sep` between neighbours.
pub open spec fn joined(parts: Seq<Seq<char>>, sep: Seq<char>) -> Seq<char>
    decreases parts.len(),
{
    if parts.len() == 0 {
        Seq::empty()
    } else if parts.len() == 1 {
        parts[0]
    } else {
        joined(parts.drop_last(), sep) + sep + parts.last()
    }
}

/// `parts` one after another, with `sep` between neighbours.
pub fn join_texts(parts: &Vec<String>, sep: &str) -> (r: String)
    ensures
        r@ == joined(views(parts@), sep@),
{
    let mut r = String::new();
    let mut i: usize = 0;
    while i < parts.len()
        invariant
            i <= parts@.len(),
            r@ == joined(views(parts@).take(i as int), sep@),
        decreases parts@.len() - i,
    {
        assert(views(parts@).take(i + 1).drop_last() =~= views(parts@).take(i as int));
        if i > 0 {
            r.append(sep);
        }
        r.append(parts[i].as_str());
        assert(Seq::<char>::empty() + parts@[0]@ =~= parts@[0]@);
        i += 1;
    }
    assert(views(parts@).take(i as int) =~= views(parts@));
    r
}

/// Dictionary order by character code.
pub open spec fn lex_lt(a: Seq<char>, b: Seq<char>) -> bool
    decreases a.len(),
{
    if b.len() == 0 {
        false
    } else if a.len() == 0 {
        true
    } else if a[0] != b[0] {
        a[0] < b[0]
    } else {
        lex_lt(a.drop_first(), b.drop_first())
    }
}

pub proof fn lemma_lex_irreflexive(a: Seq<char>)
    ensures
        !lex_lt(a, a),
    decreases a.len(),
{
    if a.len() > 0 {
        lemma_lex_irreflexive(a.drop_first());
    }
}

pub proof fn lemma_lex_transitive(a: Seq<char>, b: Seq<char>, c: Seq<char>)
    requires
        lex_lt(a, b),
        lex_lt(b, c),
    ensures
        lex_lt(a, c),
    decreases a.len(),
{
    if a.len() > 0 && b.len() > 0 && c.len() > 0 && a[0] == b[0] && b[0] == c[0] {
        lemma_lex_transitive(a.drop_first(), b.drop_first(), c.drop_first());
    }
}

pub proof fn lemma_lex_total(a: Seq<char>, b: Seq<char>)
    ensures
        a == b || lex_lt(a, b) || lex_lt(b, a),
    decreases a.len(),
{
    if a.len() > 0 && b.len() > 0 && a[0] == b[0] {
        lemma_lex_total(a.drop_first(), b.drop_first());
        if a.drop_first() == b.drop_first() {
            assert(a =~= seq![a[0]] + a.drop_first());
            assert(b =~= seq![b[0]] + b.drop_first());
        }
    } else if a.len() == 0 && b.len() == 0 {
        assert(a =~= b);
    }
}

/// Whether `a` comes before `b` in dictionary order by character code.
pub fn text_lt(a: &str, b: &str) -> (r: bool)
    ensures
        r == lex_lt(a@, b@),
{
    let x = chars_of(a);
    let y = chars_of(b);
    let mut i: usize = 0;
    assert(x@.skip(0) =~= x@ && y@.skip(0) =~= y@);
    while i < x.len() && i < y.len() && x[i] == y[i]
        invariant
            i <= x@.len(),
            i <= y@.len(),
            lex_lt(x@, y@) == lex_lt(x@.skip(i as int), y@.skip(i as int)),
        decreases x@.len() - i,
    {
        assert(x@.skip(i as int).drop_first() =~= x@.skip(i + 1));
        assert(y@.skip(i as int).drop_first() =~= y@.skip(i + 1));
        i += 1;
    }
    if i >= y.len() {
        false
    } else if i >= x.len() {
        true
    } else {
        x[i] < y[i]
    }
}

pub open spec fn is_digit(c: char) -> bool {
    '0' <= c <= '9'
}

pub open spec fn all_digits(s: Seq<char>) -> bool {
    forall|i: int| 0 <= i < s.len() ==> is_digit(#[trigger] s[i])
}

/// The number that a run of decimal digits denotes.
pub open spec fn digits_value(s: Seq<char>) -> nat
    decreases s.len(),
{
    if s.len() == 0 {
        0
    } else {
        digits_value(s.drop_last()) * 10 + (s.last() as nat - 48) as nat
    }
}

/// The unsigned number that `s` denotes: an optional `+`, then digits, with a
/// value of at most `max`.
pub open spec fn unsigned_value(s: Seq<char>, max: nat) -> Option<nat> {
    let d = if s.len() > 0 && s[0] == '+' {
        s.drop_first()
    } else {
        s
    };
    if d.len() > 0 && all_digits(d) && digits_value(d) <= max {
        Some(digits_value(d))
    } else {
        None
    }
}

pub open spec fn parsed_u64(s: Seq<char>) -> Option<nat> {
    unsigned_value(s, u64::MAX as nat)
}

proof fn lemma_digits_value_grows(s: Seq<char>, i: int)
    requires
        0 <= i <= s.len(),
        all_digits(s),
    ensures
        digits_value(s.take(i)) <= digits_value(s),
    decreases s.len(),
{
    if i < s.len() {
        assert(s.drop_last().take(i) =~= s.take(i));
        lemma_digits_value_grows(s.drop_last(), i);
    } else {
        assert(s.take(i) =~= s);
    }
}

/// The unsigned number that `s` denotes, if it denotes one that fits 64 bits.
pub fn parse_u64(s: &str) -> (r: Option<u64>)
    ensures
        r is Some <==> parsed_u64(s@) is Some,
        r matches Some(n) ==> parsed_u64(s@) == Some(n as nat),
{
    let v = chars_of(s);
    let start: usize = if v.len() > 0 && v[0] == '+' {
        1
    } else {
        0
    };
    let ghost d = v@.skip(start as int);
    assert(start == 1 ==> d =~= v@.drop_first());
    assert(start == 0 ==> d =~= v@);
    if start >= v.len() {
        return None;
    }
    let mut i: usize = start;
    let mut n: u64 = 0;
    assert(d.take(0) =~= Seq::<char>::empty());
    while i < v.len()
        invariant
            start <= i <= v@.len(),
            d == v@.skip(start as int),
            d.len() > 0,
            forall|k: int| 0 <= k < i - start ==> is_digit(#[trigger] d[k]),
            n == digits_value(d.take(i - start)),
            parsed_u64(s@) == (if all_digits(d) && digits_value(d) <= u64::MAX {
                Some(digits_value(d))
            } else {
                None::<nat>
            }),
        decreases v@.len() - i,
    {
        let c = v[i];
        assert(d[i - start] == c);
        if !('0' <= c && c <= '9') {
            return None;
        }
        let digit: u64 = c as u64 - 48;
        assert(d.take(i - start + 1).drop_last() =~= d.take(i - start));
        assert(digits_value(d.take(i - start + 1)) == n * 10 + digit);
        if n > (u64::MAX - digit) / 10 {
            proof {
                if all_digits(d) {
                    lemma_digits_value_grows(d, i - start + 1);
                }
            }
            return None;
        }
        n = n * 10 + digit;
        i += 1;
    }
    assert(d.take(i - start) =~= d);
    Some(n)
}

pub open spec fn parsed_usize(s: Seq<char>) -> Option<nat> {
    unsigned_value(s, usize::MAX as nat)
}

/// The unsigned number that `s` denotes, if it denotes one that fits `usize`.
pub fn parse_usize(s: &str) -> (r: Option<usize>)
    ensures
        r is Some <==> parsed_usize(s@) is Some,
        r matches Some(n) ==> parsed_usize(s@) == Some(n as nat),
{
    match parse_u64(s) {
        Some(n) => {
            if n <= usize::MAX as u64 {
                Some(n as usize)
            } else {
                None
            }
        },
        None => None,
    }
}

/// The end of the run of digits of `s` that begins at `i`.
pub open spec fn digit_run(s: Seq<char>, i: int) -> int
    decreases s.len() - i,
{
    if 0 <= i < s.len() && is_digit(s[i]) {
        digit_run(s, i + 1)
    } else {
        i
    }
}

fn end_of_digits(v: &Vec<char>, i: usize) -> (r: usize)
    requires
        i <= v@.len(),
    ensures
        r == digit_run(v@, i as int),
        i <= r <= v@.len(),
{
    let mut j: usize = i;
    while j < v.len() && '0' <= v[j] && v[j] <= '9'
        invariant
            i <= j <= v@.len(),
            digit_run(v@, i as int) == digit_run(v@, j as int),
        decreases v@.len() - j,
    {
        j += 1;
    }
    j
}

/// The exponent part of a decimal number, from position `i` to the end: none,
/// or `e`, an optional sign and digits.
pub open spec fn is_exponent(s: Seq<char>, i: int) -> bool {
    if i >= s.len() {
        true
    } else if s[i] == 'e' || s[i] == 'E' {
        let d = if i + 1 < s.len() && (s[i + 1] == '+' || s[i + 1] == '-') {
            i + 2
        } else {
            i + 1
        };
        d < s.len() && digit_run(s, d) == s.len()
    } else {
        false
    }
}

/// A decimal number from position `i` to the end: digits with an optional
/// point, at least one digit in all, and an optional exponent.
pub open spec fn is_decimal_number(s: Seq<char>, i: int) -> bool {
    let whole = digit_run(s, i);
    if whole < s.len() && s[whole] == '.' {
        let frac = digit_run(s, whole + 1);
        (whole - i) + (frac - whole - 1) > 0 && is_exponent(s, frac)
    } else {
        whole > i && is_exponent(s, whole)
    }
}

/// The text of a floating-point number: an optional sign, then `inf`,
/// `infinity` or `nan` in any case, or a decimal number.
pub open spec fn is_float_text(s: Seq<char>) -> bool {
    let i: int = if s.len() > 0 && (s[0] == '+' || s[0] == '-') {
        1
    } else {
        0
    };
    let word = ascii_lower(s.skip(i));
    word == "inf"@ || word == "infinity"@ || word == "nan"@ || is_decimal_number(s, i)
}

/// Whether `s` reads as a floating-point number.
pub fn is_float(s: &str) -> (r: bool)
    ensures
        r == is_float_text(s@),
{
    let v = chars_of(s);
    let start: usize = if v.len() > 0 && (v[0] == '+' || v[0] == '-') {
        1
    } else {
        0
    };
    let rest = string_of(&v, start, v.len());
    assert(rest@ =~= s@.skip(start as int));
    let word = ascii_lower_text(rest.as_str());
    if str_eq(word.as_str(), "inf") || str_eq(word.as_str(), "infinity") || str_eq(
        word.as_str(),
        "nan",
    ) {
        return true;
    }
    let whole = end_of_digits(&v, start);
    let mut digits: usize = whole - start;
    let mut end: usize = whole;
    if whole < v.len() && v[whole] == '.' {
        end = end_of_digits(&v, whole + 1);
        digits = digits + (end - whole - 1);
    }
    if digits == 0 {
        return false;
    }
    if end >= v.len() {
        return true;
    }
    if v[end] != 'e' && v[end] != 'E' {
        return false;
    }
    let d: usize = if end + 1 < v.len() && (v[end + 1] == '+' || v[end + 1] == '-') {
        end + 2
    } else {
        end + 1
    };
    if d >= v.len() {
        return false;
    }
    let stop = end_of_digits(&v, d);
    stop == v.len()
}

/// A number is written with digits alone, without zeros in front, and its digits give the
/// number back.
pub proof fn law_decimal_reads_back(n: nat)
    ensures
        decimal(n).len() > 0,
        all_digits(decimal(n)),
        digits_value(decimal(n)) == n,
        n > 0 ==> decimal(n)[0] != '0',
    decreases n,
{
    if n < 10 {
        let s = decimal(n);
        assert(s.drop_last() =~= Seq::<char>::empty());
        assert(digits_value(s.drop_last()) == 0);
        assert(s.last() == digit_char(n));
        assert(s[0] == digit_char(n));
        assert(s[0] as nat == 48 + n);
    } else {
        law_decimal_reads_back(n / 10);
        let s = decimal(n);
        assert(s.drop_last() =~= decimal(n / 10));
        assert(s.last() == digit_char(n % 10));
        assert(s[0] == decimal(n / 10)[0]);
    }
}

/// Two numbers that are written alike are the same.
pub proof fn law_decimal_tells_apart(a: nat, b: nat)
    requires
        decimal(a) == decimal(b),
    ensures
        a == b,
{
    law_decimal_reads_back(a);
    law_decimal_reads_back(b);
}

/// A number that is written out is read as itself, with or without a plus in front, as
/// long as it fits.
pub proof fn law_written_number_is_read(n: nat, max: nat)
    ensures
        unsigned_value(decimal(n), max) == (if n <= max {
            Some(n)
        } else {
            None
        }),
        unsigned_value(seq!['+'] + decimal(n), max) == unsigned_value(decimal(n), max),
{
    law_decimal_reads_back(n);
    assert(is_digit(decimal(n)[0]));
    assert((seq!['+'] + decimal(n)).drop_first() =~= decimal(n));
}

/// A text that is split at a separator holds it in none of its parts, and joining the
/// parts with it gives the text back.
pub proof fn law_split_joins_back(s: Seq<char>, sep: char)
    ensures
        split_on(s, sep).len() > 0,
        joined(split_on(s, sep), seq![sep]) == s,
        forall|i: int| 0 <= i < split_on(s, sep).len() ==> !(#[trigger] split_on(s, sep)[i]).contains(sep),
    decreases s.len(),
{
    let parts = split_on(s, sep);
    if s.len() == 0 {
        assert(joined(parts, seq![sep]) =~= s);
    } else {
        let less = s.drop_last();
        law_split_joins_back(less, sep);
        let before = split_on(less, sep);
        if s.last() == sep {
            assert(parts.drop_last() =~= before);
            assert(joined(parts, seq![sep]) =~= s);
        } else {
            assert(parts.drop_last() =~= before.drop_last());
            assert(parts.last() == before.last().push(s.last()));
            if before.len() == 1 {
                assert(parts[0] == before[0].push(s.last()));
                assert(joined(parts, seq![sep]) =~= s);
            } else {
                let head = joined(before.drop_last(), seq![sep]) + seq![sep];
                assert(joined(before, seq![sep]) == head + before.last());
                assert(joined(parts, seq![sep]) == head + before.last().push(s.last()));
                assert(head + before.last().push(s.last()) =~= (head + before.last()).push(s.last()));
                assert(less.push(s.last()) =~= s);
            }
            assert forall|i: int| 0 <= i < parts.len() implies !(#[trigger] parts[i]).contains(sep) by {
                if i < before.len() - 1 {
                    assert(parts[i] == before[i]);
                } else {
                    let last = before[before.len() - 1];
                    if parts[i].contains(sep) {
                        let k = parts[i].index_of(sep);
                        assert(k < last.len());
                        assert(last[k] == sep);
                    }
                }
            }
        }
    }
}

/// Joining two lists gives what joining each gives, with the separator between.
pub proof fn law_joined_in_order(a: Seq<Seq<char>>, b: Seq<Seq<char>>, sep: Seq<char>)
    requires
        a.len() > 0,
        b.len() > 0,
    ensures
        joined(a + b, sep) == joined(a, sep) + sep + joined(b, sep),
        a.len() == 1 ==> joined(a, sep) == a[0],
    decreases b.len(),
{
    assert((a + b).drop_last() =~= a + b.drop_last());
    if b.len() == 1 {
        assert(a + b.drop_last() =~= a);
        assert(joined(a + b, sep) =~= joined(a, sep) + sep + joined(b, sep));
    } else {
        law_joined_in_order(a, b.drop_last(), sep);
        assert(joined(a + b, sep) =~= joined(a, sep) + sep + joined(b, sep));
    }
}

/// `t` is `s` without the white space around it.
pub open spec fn is_trimming(s: Seq<char>, t: Seq<char>, i: int, j: int) -> bool {
    &&& 0 <= i <= j <= s.len()
    &&& t == s.subrange(i, j)
    &&& forall|k: int| 0 <= k < i ==> is_white(#[trigger] s[k])
    &&& forall|k: int| j <= k < s.len() ==> is_white(#[trigger] s[k])
    &&& i < j ==> !is_white(s[i]) && !is_white(s[j - 1])
}

proof fn lemma_trim_start(s: Seq<char>) -> (i: int)
    ensures
        0 <= i <= s.len(),
        trim_start(s) == s.skip(i),
        forall|k: int| 0 <= k < i ==> is_white(#[trigger] s[k]),
        i < s.len() ==> !is_white(s[i]),
    decreases s.len(),
{
    if s.len() > 0 && is_white(s[0]) {
        let rest = s.drop_first();
        let i = lemma_trim_start(rest);
        assert(rest.skip(i) =~= s.skip(i + 1));
        assert forall|k: int| 0 <= k < i + 1 implies is_white(#[trigger] s[k]) by {
            if k > 0 {
                assert(rest[k - 1] == s[k]);
            }
        }
        if i < rest.len() {
            assert(rest[i] == s[i + 1]);
        }
        i + 1
    } else {
        assert(s.skip(0) =~= s);
        0
    }
}

proof fn lemma_trim_end(s: Seq<char>) -> (j: int)
    ensures
        0 <= j <= s.len(),
        trim_end(s) == s.take(j),
        forall|k: int| j <= k < s.len() ==> is_white(#[trigger] s[k]),
        j > 0 ==> !is_white(s[j - 1]),
    decreases s.len(),
{
    if s.len() > 0 && is_white(s.last()) {
        let rest = s.drop_last();
        let j = lemma_trim_end(rest);
        assert(rest.take(j) =~= s.take(j));
        assert forall|k: int| j <= k < s.len() implies is_white(#[trigger] s[k]) by {
            if k < rest.len() {
                assert(rest[k] == s[k]);
            }
        }
        j
    } else {
        assert(s.take(s.len() as int) =~= s);
        s.len() as int
    }
}

/// Trimming takes off the white space at both ends, all of it and nothing else.
pub proof fn law_trimmed_takes_off_white_space(s: Seq<char>)
    ensures
        exists|i: int, j: int| is_trimming(s, trimmed(s), i, j),
{
    let i = lemma_trim_start(s);
    let rest = s.skip(i);
    let n = lemma_trim_end(rest);
    assert(rest.take(n) =~= s.subrange(i, i + n));
    assert forall|k: int| i + n <= k < s.len() implies is_white(#[trigger] s[k]) by {
        assert(rest[k - i] == s[k]);
    }
    if n > 0 {
        assert(rest[n - 1] == s[i + n - 1]);
        assert(i < s.len());
    }
    assert(is_trimming(s, trimmed(s), i, i + n));
}

/// What has no white space at its ends stays as it is.
pub proof fn law_trimmed_stays(s: Seq<char>)
    requires
        s.len() > 0 ==> !is_white(s[0]) && !is_white(s.last()),
    ensures
        trimmed(s) == s,
{
}

/// Trimming twice is trimming once.
pub proof fn law_trimmed_is_stable(s: Seq<char>)
    ensures
        trimmed(trimmed(s)) == trimmed(s),
{
    law_trimmed_takes_off_white_space(s);
    let (i, j) = choose|i: int, j: int| is_trimming(s, trimmed(s), i, j);
    let t = trimmed(s);
    if t.len() > 0 {
        assert(t[0] == s[i]);
        assert(t.last() == s[j - 1]);
    }
    law_trimmed_stays(t);
}

/// A character is stripped from an end as often as it stands there, and no further.
pub proof fn law_strip_takes_off_all(s: Seq<char>, c: char)
    ensures
        strip_start(seq![c] + s, c) == strip_start(s, c),
        strip_end(s.push(c), c) == strip_end(s, c),
        s.len() == 0 || s[0] != c ==> strip_start(s, c) == s,
        s.len() == 0 || s.last() != c ==> strip_end(s, c) == s,
{
    assert((seq![c] + s).drop_first() =~= s);
    assert(s.push(c).drop_last() =~= s);
}

/// A text in which the pattern stands nowhere stays as it is.
pub proof fn law_replaced_leaves_the_rest(s: Seq<char>, pat: Seq<char>, with: Seq<char>)
    requires
        forall|k: int| 0 <= k <= s.len() ==> !pat.is_prefix_of(#[trigger] s.skip(k)),
    ensures
        replaced(s, pat, with) == s,
    decreases s.len(),
{
    if pat.len() > 0 && s.len() >= pat.len() {
        assert(s.skip(0) =~= s);
        assert(!pat.is_prefix_of(s.skip(0)));
        let rest = s.skip(1);
        assert forall|k: int| 0 <= k <= rest.len() implies !pat.is_prefix_of(#[trigger] rest.skip(k)) by {
            assert(rest.skip(k) =~= s.skip(k + 1));
        }
        law_replaced_leaves_the_rest(rest, pat, with);
        assert(seq![s[0]] + rest =~= s);
    }
}

/// Where the pattern stands first, what replaces it is put in its place; what is before
/// stays, and what comes after is treated alike.
pub proof fn law_replaced_from_the_front(s: Seq<char>, pat: Seq<char>, with: Seq<char>, i: int)
    requires
        pat.len() > 0,
        0 <= i <= s.len(),
        pat.is_prefix_of(s.skip(i)),
        forall|k: int| 0 <= k < i ==> !pat.is_prefix_of(#[trigger] s.skip(k)),
    ensures
        replaced(s, pat, with) == s.take(i) + with + replaced(s.skip(i + pat.len()), pat, with),
    decreases i,
{
    assert(s.skip(i).len() >= pat.len());
    if i == 0 {
        assert(s.skip(0) =~= s);
        assert(s.take(0) + with =~= with);
    } else {
        assert(s.skip(0) =~= s);
        assert(!pat.is_prefix_of(s.skip(0)));
        let rest = s.skip(1);
        assert(rest.skip(i - 1) =~= s.skip(i));
        assert forall|k: int| 0 <= k < i - 1 implies !pat.is_prefix_of(#[trigger] rest.skip(k)) by {
            assert(rest.skip(k) =~= s.skip(k + 1));
        }
        law_replaced_from_the_front(rest, pat, with, i - 1);
        assert(rest.skip(i - 1 + pat.len()) =~= s.skip(i + pat.len()));
        let end = replaced(s.skip(i + pat.len()), pat, with);
        assert(replaced(s, pat, with) == seq![s[0]] + replaced(rest, pat, with));
        lemma_front(s, with, end, i);
    }
}

proof fn lemma_front(s: Seq<char>, with: Seq<char>, end: Seq<char>, i: int)
    requires
        0 < i <= s.len(),
    ensures
        seq![s[0]] + (s.skip(1).take(i - 1) + with + end) == s.take(i) + with + end,
{
    assert(seq![s[0]] + s.skip(1).take(i - 1) =~= s.take(i));
    assert(seq![s[0]] + (s.skip(1).take(i - 1) + with + end) =~= seq![s[0]] + s.skip(1).take(i - 1)
        + with + end);
}

/// Of two texts that begin alike the first character in which they differ decides, and of
/// two of which one goes on where the other ends the shorter comes first.
pub proof fn law_order_by_first_difference(
    begin: Seq<char>,
    a: char,
    b: char,
    x: Seq<char>,
    y: Seq<char>,
)
    requires
        a != b,
    ensures
        lex_lt(begin + (seq![a] + x), begin + (seq![b] + y)) <==> a < b,
        lex_lt(begin, begin + (seq![a] + x)),
    decreases begin.len(),
{
    if begin.len() == 0 {
        assert(begin + (seq![a] + x) =~= seq![a] + x);
        assert(begin + (seq![b] + y) =~= seq![b] + y);
    } else {
        let rest = begin.drop_first();
        law_order_by_first_difference(rest, a, b, x, y);
        assert((begin + (seq![a] + x)).drop_first() =~= rest + (seq![a] + x));
        assert((begin + (seq![b] + y)).drop_first() =~= rest + (seq![b] + y));
    }
}

/// The capital letters of ASCII become small and every other character stays.
pub proof fn law_lower_case_is_by_letter(s: Seq<char>, i: int)
    requires
        0 <= i < s.len(),
    ensures
        ascii_lower(s).len() == s.len(),
        'A' <= s[i] <= 'Z' ==> ascii_lower(s)[i] as int == s[i] as int + 32,
        !('A' <= s[i] <= 'Z') ==> ascii_lower(s)[i] == s[i],
        ascii_lower(ascii_lower(s)) == ascii_lower(s),
{
    assert(ascii_lower(ascii_lower(s)) =~= ascii_lower(s));
}

/// A number with a sign is one exactly where it is one without, and digits alone are.
pub proof fn law_sign_does_not_change_a_number(s: Seq<char>, n: nat)
    requires
        s.len() > 0 ==> s[0] != '+' && s[0] != '-',
    ensures
        is_float_text(decimal(n)),
        is_float_text(seq!['-'] + s) <==> is_float_text(seq!['+'] + s),
{
    law_decimal_reads_back(n);
    let d = decimal(n);
    assert(is_digit(d[0]));
    lemma_all_digits_run(d, 0);
    let a = seq!['-'] + s;
    let b = seq!['+'] + s;
    assert(a.skip(1) =~= s);
    assert(b.skip(1) =~= s);
    lemma_run_agrees(a, b, 1);
    let whole = digit_run(a, 1);
    if whole < a.len() && a[whole] == '.' {
        lemma_run_agrees(a, b, whole + 1);
        lemma_exponent_agrees(a, b, digit_run(a, whole + 1));
    } else {
        lemma_exponent_agrees(a, b, whole);
    }
}

proof fn lemma_all_digits_run(s: Seq<char>, i: int)
    requires
        all_digits(s),
        0 <= i <= s.len(),
    ensures
        digit_run(s, i) == s.len(),
    decreases s.len() - i,
{
    if i < s.len() {
        assert(is_digit(s[i]));
        lemma_all_digits_run(s, i + 1);
    }
}

proof fn lemma_run_agrees(a: Seq<char>, b: Seq<char>, i: int)
    requires
        a.len() == b.len(),
        1 <= i,
        forall|k: int| 1 <= k < a.len() ==> #[trigger] a[k] == b[k],
    ensures
        digit_run(a, i) == digit_run(b, i),
        digit_run(a, i) >= i,
    decreases a.len() - i,
{
    if i < a.len() && is_digit(a[i]) {
        lemma_run_agrees(a, b, i + 1);
    }
}

proof fn lemma_exponent_agrees(a: Seq<char>, b: Seq<char>, i: int)
    requires
        a.len() == b.len(),
        1 <= i,
        forall|k: int| 1 <= k < a.len() ==> #[trigger] a[k] == b[k],
    ensures
        is_exponent(a, i) == is_exponent(b, i),
{
    lemma_run_agrees(a, b, i + 1);
    lemma_run_agrees(a, b, i + 2);
}

} // verus!
