//! What a phase record says of where the phase comes from: the hash of what it
//! is made of, and the parameters it consumed.

use std::collections::BTreeMap;

use vstd::prelude::*;

use crate::executor::context;
use crate::executor::phase_end::Provenance;
use crate::phase_outcome;
use crate::strmap;
use crate::strmap::StrMap;
use crate::text;

verus! {

/// A digit of a hexadecimal number.
pub open spec fn hex_digit(n: int) -> char {
    if n < 10 {
        (('0' as int) + n) as char
    } else {
        (('a' as int) + (n - 10)) as char
    }
}

/// The bytes as two hexadecimal digits each.
pub open spec fn hex_of(bytes: Seq<u8>) -> Seq<char>
    decreases bytes.len(),
{
    if bytes.len() == 0 {
        Seq::empty()
    } else {
        hex_of(bytes.drop_last()).push(hex_digit(bytes.last() as int / 16)).push(
            hex_digit(bytes.last() as int % 16),
        )
    }
}

fn hex_char(n: u8) -> (r: char)
    requires
        n < 16,
    ensures
        r == hex_digit(n as int),
{
    if n < 10 {
        (48 + n) as char
    } else {
        (87 + n) as char
    }
}

/// The bytes as two hexadecimal digits each.
pub fn hex_text(bytes: &Vec<u8>) -> (r: String)
    ensures
        r@ == hex_of(bytes@),
{
    let mut out = String::new();
    let mut i: usize = 0;
    assert(bytes@.take(0).len() == 0);
    while i < bytes.len()
        invariant
            i <= bytes@.len(),
            out@ == hex_of(bytes@.take(i as int)),
        decreases bytes@.len() - i,
    {
        assert(bytes@.take(i + 1).drop_last() =~= bytes@.take(i as int));
        out.push(hex_char(bytes[i] / 16));
        out.push(hex_char(bytes[i] % 16));
        i += 1;
    }
    assert(bytes@.take(i as int) =~= bytes@);
    out
}

/// Different hashes have different texts.
pub proof fn law_hex_tells_apart(a: Seq<u8>, b: Seq<u8>)
    requires
        hex_of(a) == hex_of(b),
    ensures
        a == b,
    decreases a.len(),
{
    lemma_hex_len(a);
    lemma_hex_len(b);
    if a.len() > 0 {
        let x = hex_of(a);
        let y = hex_of(b);
        let n = x.len();
        assert(x[n - 1] == hex_digit(a.last() as int % 16));
        assert(y[n - 1] == hex_digit(b.last() as int % 16));
        assert(x[n - 2] == hex_digit(a.last() as int / 16));
        assert(y[n - 2] == hex_digit(b.last() as int / 16));
        lemma_digit_tells_apart(a.last() as int % 16, b.last() as int % 16);
        lemma_digit_tells_apart(a.last() as int / 16, b.last() as int / 16);
        assert(x.take(n - 2) =~= hex_of(a.drop_last()));
        assert(y.take(n - 2) =~= hex_of(b.drop_last()));
        law_hex_tells_apart(a.drop_last(), b.drop_last());
        assert(a =~= a.drop_last().push(a.last()));
        assert(b =~= b.drop_last().push(b.last()));
    } else {
        assert(a =~= b);
    }
}

proof fn lemma_hex_len(a: Seq<u8>)
    ensures
        hex_of(a).len() == 2 * a.len(),
    decreases a.len(),
{
    if a.len() > 0 {
        lemma_hex_len(a.drop_last());
    }
}

proof fn lemma_digit_tells_apart(m: int, n: int)
    requires
        0 <= m < 16,
        0 <= n < 16,
        hex_digit(m) == hex_digit(n),
    ensures
        m == n,
{
    assert(hex_digit(m) as int == if m < 10 {
        48 + m
    } else {
        87 + m
    });
    assert(hex_digit(n) as int == if n < 10 {
        48 + n
    } else {
        87 + n
    });
}

/// The text of a JSON object with these members.
pub uninterp spec fn json_object(members: Seq<(Seq<char>, Seq<char>)>) -> Seq<char>;

/// `serde_json::to_string` of a `BTreeMap` with these entries, which stand in name
/// order, each name once. A map from strings to strings is always written, and its
/// text depends on the entries alone.
#[verifier::external_body]
fn write_object(members: &Vec<(String, String)>) -> (r: Option<String>)
    requires
        strmap::name_sorted(context::label_views(members@)),
    ensures
        phase_outcome::text_of(r) == Some(json_object(context::label_views(members@))),
{
    let map: BTreeMap<&str, &str> = members.iter().map(|m| (m.0.as_str(), m.1.as_str())).collect();
    serde_json::to_string(&map).ok()
}

/// The entries of a map, each value by its characters.
pub open spec fn members_of(p: Seq<(Seq<char>, String)>) -> Seq<(Seq<char>, Seq<char>)> {
    p.map_values(|e: (Seq<char>, String)| (e.0, e.1@))
}

/// The consumed parameters and the digests of their values as canonical JSON:
/// an object with its members in name order.
pub fn params_consumed_json(consumed: &StrMap<String>) -> (r: Option<String>)
    requires
        consumed.wf(),
    ensures
        phase_outcome::text_of(r) == Some(json_object(members_of(consumed.pairs()))),
{
    let mut members: Vec<(String, String)> = Vec::new();
    let n: usize = consumed.len();
    let mut i: usize = 0;
    while i < n
        invariant
            i <= n,
            n == consumed.pairs().len(),
            context::label_views(members@) == members_of(consumed.pairs()).take(i as int),
        decreases n - i,
    {
        let ghost before = members@;
        members.push((consumed.name_at(i).clone(), consumed.value_at(i).clone()));
        assert(context::label_views(members@) =~= context::label_views(before).push(
            (consumed.pairs()[i as int].0, consumed.pairs()[i as int].1@),
        ));
        assert(members_of(consumed.pairs()).take(i + 1) =~= members_of(consumed.pairs()).take(
            i as int,
        ).push(members_of(consumed.pairs())[i as int]));
        i += 1;
    }
    assert(members_of(consumed.pairs()).take(i as int) =~= members_of(consumed.pairs()));
    assert(strmap::name_sorted(context::label_views(members@))) by {
        let p = consumed.pairs();
        let m = members_of(p);
        assert forall|a: int, b: int| 0 <= a < b < m.len() implies text::lex_lt(
            #[trigger] m[a].0,
            #[trigger] m[b].0,
        ) by {
            assert(text::lex_lt(p[a].0, p[b].0));
        }
    }
    write_object(&members)
}

/// What a phase record says of the hash and the consumed parameters of a phase.
pub fn provenance(hash: &Vec<u8>, consumed: &StrMap<String>) -> (r: Provenance)
    requires
        consumed.wf(),
    ensures
        r.phase_hash@ == hex_of(hash@),
        phase_outcome::text_of(r.params_consumed) == Some(
            json_object(members_of(consumed.pairs())),
        ),
{
    Provenance { phase_hash: hex_text(hash), params_consumed: params_consumed_json(consumed) }
}

/// The number that a hexadecimal digit stands for; none for another character.
pub open spec fn digit_value(c: char) -> Option<int> {
    if '0' <= c <= '9' {
        Some(c as int - '0' as int)
    } else if 'a' <= c <= 'f' {
        Some(c as int - 'a' as int + 10)
    } else {
        None
    }
}

/// Every byte is written as two lower-case hexadecimal digits, in order, the greater one
/// first.
pub proof fn law_hex_reads_back(bytes: Seq<u8>, i: int)
    requires
        0 <= i < bytes.len(),
    ensures
        hex_of(bytes).len() == 2 * bytes.len(),
        digit_value(hex_of(bytes)[2 * i]) is Some,
        digit_value(hex_of(bytes)[2 * i + 1]) is Some,
        digit_value(hex_of(bytes)[2 * i])->0 * 16 + digit_value(hex_of(bytes)[2 * i + 1])->0
            == bytes[i],
    decreases bytes.len(),
{
    let less = bytes.drop_last();
    lemma_hex_len(less);
    lemma_hex_len(bytes);
    if i < less.len() {
        law_hex_reads_back(less, i);
        assert(hex_of(bytes)[2 * i] == hex_of(less)[2 * i]);
        assert(hex_of(bytes)[2 * i + 1] == hex_of(less)[2 * i + 1]);
    } else {
        let b = bytes.last() as int;
        assert(0 <= b / 16 < 16 && 0 <= b % 16 < 16);
        assert(hex_of(bytes)[2 * i] == hex_digit(b / 16));
        assert(hex_of(bytes)[2 * i + 1] == hex_digit(b % 16));
        assert(digit_value(hex_digit(b / 16)) == Some(b / 16));
        assert(digit_value(hex_digit(b % 16)) == Some(b % 16));
    }
}

} // verus!
