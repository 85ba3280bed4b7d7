//! Wire values and JSON values as plain data.

use vstd::arithmetic::power2::*;
use vstd::prelude::*;

use crate::strmap;
use crate::strmap::StrMap;
use crate::text;
use crate::text::u64_text;

verus! {

/// An IEEE 754 double: its bits, and the text that shows it. Numbers are
/// rendered by the side that computes with them.
#[derive(Debug, Clone, PartialEq)]
pub struct Float {
    pub bits: u64,
    pub text: String,
}

/// Neither an infinity nor a NaN: the exponent bits are not all ones.
pub open spec fn finite_bits(bits: u64) -> bool {
    (bits / 0x10_0000_0000_0000) % 0x800 != 0x7ff
}

/// Positive or negative zero.
pub open spec fn zero_bits(bits: u64) -> bool {
    bits == 0 || bits == 0x8000_0000_0000_0000
}

/// An infinity with a nonzero fraction: not a number.
pub open spec fn nan_bits(bits: u64) -> bool {
    bits % 0x8000_0000_0000_0000 > 0x7ff0_0000_0000_0000
}

/// Places doubles on a line: of two that are numbers the lesser one has the
/// lesser place, and both zeros have the same.
pub open spec fn place_of(bits: u64) -> int {
    if bits < 0x8000_0000_0000_0000 {
        bits as int
    } else {
        0x8000_0000_0000_0000 - bits
    }
}

impl Float {
    pub fn is_finite(&self) -> (r: bool)
        ensures
            r == finite_bits(self.bits),
    {
        (self.bits / 0x10_0000_0000_0000) % 0x800 != 0x7ff
    }

    /// Whether `self` is at most `other`; neither is, where one is not a number.
    pub fn at_most(&self, other: &Float) -> (r: bool)
        ensures
            r == (!nan_bits(self.bits) && !nan_bits(other.bits) && place_of(self.bits) <= place_of(
                other.bits,
            )),
    {
        let half: u64 = 0x8000_0000_0000_0000;
        let top: u64 = 0x7ff0_0000_0000_0000;
        if self.bits % half > top || other.bits % half > top {
            return false;
        }
        let a: i128 = if self.bits < half {
            self.bits as i128
        } else {
            half as i128 - self.bits as i128
        };
        let b: i128 = if other.bits < half {
            other.bits as i128
        } else {
            half as i128 - other.bits as i128
        };
        a <= b
    }

    pub fn is_zero(&self) -> (r: bool)
        ensures
            r == zero_bits(self.bits),
    {
        self.bits == 0 || self.bits == 0x8000_0000_0000_0000
    }
}

/// The bits of one.
pub const ONE_BITS: u64 = 0x3ff0_0000_0000_0000;

/// The digits of a double above zero, as a whole number.
pub open spec fn significand(bits: u64) -> nat {
    if bits < 0x10_0000_0000_0000 {
        bits as nat
    } else {
        (0x10_0000_0000_0000 + bits % 0x10_0000_0000_0000) as nat
    }
}

/// How often the digits of a double above zero are doubled.
pub open spec fn doublings(bits: u64) -> nat {
    if bits < 0x10_0000_0000_0000 {
        0
    } else {
        (bits / 0x10_0000_0000_0000 - 1) as nat
    }
}

/// A double that is not below zero, counted in units of the least one above zero. One
/// is two to the power of 1074 such units.
pub open spec fn magnitude(bits: u64) -> nat {
    significand(bits) * pow2(doublings(bits))
}

/// How far apart doubles are at a whole number.
pub open spec fn spacing(n: nat) -> nat
    decreases n,
{
    if n < 0x20_0000_0000_0000 {
        1
    } else {
        2 * spacing(n / 2)
    }
}

/// The double that is nearest to a whole number; of two that are equally near, the
/// one with an even number of spacings.
pub open spec fn nearest(n: nat) -> nat {
    let unit = spacing(n);
    let whole = n / unit;
    let rest = n % unit;
    if 2 * rest < unit || (2 * rest == unit && whole % 2 == 0) {
        whole * unit
    } else {
        (whole + 1) * unit
    }
}

/// The share that a whole number of 64 bits has of their range, as a double, is below
/// the double with these bits.
pub open spec fn share_is_below(n: u64, bits: u64) -> bool {
    nearest(n as nat) * pow2(1010) < magnitude(bits)
}

/// Of two doubles that are not below zero the one with the greater bits has the
/// greater magnitude.
pub proof fn lemma_magnitude_follows_bits(a: u64, b: u64)
    requires
        a <= b,
    ensures
        magnitude(a) <= magnitude(b),
{
    let (x, y) = (doublings(a), doublings(b));
    let (s, t) = (significand(a), significand(b));
    lemma_pow2_pos(x);
    lemma_pow2_pos(y);
    if x == y {
        assert(s <= t);
        assert(s * pow2(x) <= t * pow2(x)) by (nonlinear_arith)
            requires
                s <= t,
        ;
    } else {
        assert(x < y);
        let d = (y - x - 1) as nat;
        lemma_pow2_adds(x, (y - x) as nat);
        lemma_pow2_unfold((y - x) as nat);
        lemma_pow2_pos(d);
        assert(s <= 2 * t && t > 0);
        assert(pow2(y) == pow2(x) * (2 * pow2(d)));
        assert(s * pow2(x) <= t * (pow2(x) * (2 * pow2(d)))) by (nonlinear_arith)
            requires
                s <= 2 * t,
                pow2(d) >= 1,
                pow2(x) >= 1,
        ;
    }
}

proof fn lemma_spacing(n: nat)
    ensures
        spacing(n) >= 1,
        n >= 0x20_0000_0000_0000 ==> spacing(n) * 0x10_0000_0000_0000 <= n,
    decreases n,
{
    if n >= 0x20_0000_0000_0000 {
        lemma_spacing(n / 2);
    }
}

fn spacing_of(n: u64) -> (r: u64)
    ensures
        r == spacing(n as nat),
        1 <= r <= 0x1000,
    decreases n,
{
    proof {
        lemma_spacing(n as nat);
    }
    if n < 0x20_0000_0000_0000 {
        1
    } else {
        proof {
            lemma_spacing((n / 2) as nat);
        }
        let half = spacing_of(n / 2);
        2 * half
    }
}

fn nearest_to(n: u64) -> (r: u128)
    ensures
        r == nearest(n as nat),
        r <= 0x2_0000_0000_0000_0000,
{
    let unit = spacing_of(n);
    let whole: u64 = n / unit;
    let rest: u64 = n % unit;
    proof {
        vstd::arithmetic::div_mod::lemma_fundamental_div_mod(n as int, unit as int);
        assert(whole * unit <= n) by (nonlinear_arith)
            requires
                n == unit * whole + rest,
                rest >= 0,
        ;
        assert((whole + 1) * unit == whole * unit + unit) by (nonlinear_arith);
    }
    if 2 * rest < unit || (2 * rest == unit && whole % 2 == 0) {
        whole as u128 * unit as u128
    } else {
        (whole as u128 + 1) * unit as u128
    }
}

fn power_of_two(e: u64) -> (r: u128)
    requires
        e <= 64,
    ensures
        r == pow2(e as nat),
        1 <= r <= 0x1_0000_0000_0000_0000,
{
    let mut r: u128 = 1;
    let mut i: u64 = 0;
    proof {
        lemma2_to64();
        lemma2_to64_rest();
    }
    while i < e
        invariant
            i <= e <= 64,
            r == pow2(i as nat),
            r <= 0x1_0000_0000_0000_0000,
        decreases e - i,
    {
        proof {
            lemma_pow2_unfold((i + 1) as nat);
            if i + 1 < 64 {
                lemma_pow2_strictly_increases((i + 1) as nat, 64);
            }
            lemma2_to64();
        }
        r = r * 2;
        i += 1;
    }
    proof {
        lemma_pow2_pos(e as nat);
    }
    r
}

/// Whether the share that `n` has of all numbers of 64 bits is below a double from zero
/// to one.
pub fn is_share_below(n: u64, bits: u64) -> (r: bool)
    requires
        bits < ONE_BITS,
    ensures
        r == share_is_below(n, bits),
{
    let near = nearest_to(n);
    let (digits, doubled): (u64, u64) = if bits < 0x10_0000_0000_0000 {
        (bits, 0)
    } else {
        (0x10_0000_0000_0000 + bits % 0x10_0000_0000_0000, bits / 0x10_0000_0000_0000 - 1)
    };
    assert(digits == significand(bits) && doubled == doublings(bits));
    assert(digits < 0x20_0000_0000_0000);
    if doubled >= 1010 {
        let d: u64 = doubled - 1010;
        let p = power_of_two(d);
        proof {
            lemma_pow2_adds(d as nat, 1010);
            lemma_pow2_pos(1010);
            lemma_below_scaled(near as nat, digits as nat * pow2(d as nat), pow2(1010));
            assert(digits * pow2(d as nat) * pow2(1010) == digits * (pow2(d as nat) * pow2(1010)))
                by (nonlinear_arith);
            assert(digits * p <= 0x20_0000_0000_0000 * 0x1_0000_0000_0000_0000)
                by (nonlinear_arith)
                requires
                    digits <= 0x20_0000_0000_0000,
                    p <= 0x1_0000_0000_0000_0000,
            ;
        }
        near < digits as u128 * p
    } else {
        let d: u64 = 1010 - doubled;
        proof {
            lemma_pow2_adds(d as nat, doubled as nat);
            lemma_pow2_pos(doubled as nat);
            lemma_below_scaled(near as nat * pow2(d as nat), digits as nat, pow2(doubled as nat));
            assert(near * pow2(d as nat) * pow2(doubled as nat) == near * (pow2(d as nat) * pow2(
                doubled as nat,
            ))) by (nonlinear_arith);
        }
        if d >= 53 {
            proof {
                lemma2_to64_rest();
                lemma2_to64();
                if d > 53 {
                    lemma_pow2_strictly_increases(53, d as nat);
                }
                assert(near >= 1 ==> near * pow2(d as nat) >= pow2(d as nat)) by (nonlinear_arith);
                assert(near == 0 ==> near * pow2(d as nat) == 0) by (nonlinear_arith);
            }
            near == 0 && digits > 0
        } else {
            let p = power_of_two(d);
            proof {
                lemma2_to64_rest();
                lemma2_to64();
                lemma_pow2_strictly_increases(d as nat, 53);
                assert(near * p <= 0x2_0000_0000_0000_0000 * 0x20_0000_0000_0000)
                    by (nonlinear_arith)
                    requires
                        near <= 0x2_0000_0000_0000_0000,
                        p <= 0x20_0000_0000_0000,
                ;
            }
            near * p < digits as u128
        }
    }
}

proof fn lemma_below_scaled(a: nat, b: nat, k: nat)
    requires
        k > 0,
    ensures
        a * k < b * k <==> a < b,
{
    assert(a < b ==> a * k < b * k) by (nonlinear_arith)
        requires
            k > 0,
    ;
    assert(a >= b ==> a * k >= b * k) by (nonlinear_arith)
        requires
            k > 0,
    ;
}

/// The value on a wire. `Other` stands for every value of a further type, by
/// the text that shows it.
#[derive(Debug, Clone, PartialEq)]
pub enum Value {
    Absent,
    Bool(bool),
    U64(u64),
    F64(Float),
    Str(String),
    Other(String),
}

/// The text that shows a wire value.
pub open spec fn display_of(v: Value) -> Seq<char> {
    match v {
        Value::Absent => Seq::empty(),
        Value::Bool(b) => if b {
            "true"@
        } else {
            "false"@
        },
        Value::U64(n) => text::decimal(n as nat),
        Value::F64(f) => f.text@,
        Value::Str(s) => s@,
        Value::Other(s) => s@,
    }
}

/// Whether a wire value counts as true where a condition is read: no value,
/// zero, `false` and the empty string do not; everything else does.
pub open spec fn truthy_value(v: Value) -> bool {
    match v {
        Value::Absent => false,
        Value::Bool(b) => b,
        Value::U64(n) => n != 0,
        Value::F64(f) => !zero_bits(f.bits),
        Value::Str(s) => s@.len() > 0,
        Value::Other(_) => true,
    }
}

impl Value {
    pub fn to_display_string(&self) -> (r: String)
        ensures
            r@ == display_of(*self),
    {
        match self {
            Value::Absent => String::new(),
            Value::Bool(b) => if *b {
                "true".to_owned()
            } else {
                "false".to_owned()
            },
            Value::U64(n) => u64_text(*n),
            Value::F64(f) => f.text.clone(),
            Value::Str(s) => s.clone(),
            Value::Other(s) => s.clone(),
        }
    }

    pub fn is_truthy(&self) -> (r: bool)
        ensures
            r == truthy_value(*self),
    {
        match self {
            Value::Absent => false,
            Value::Bool(b) => *b,
            Value::U64(n) => *n != 0,
            Value::F64(f) => !f.is_zero(),
            Value::Str(s) => !s.as_str().is_empty(),
            Value::Other(_) => true,
        }
    }

    /// A value with the same contents.
    pub fn copy(&self) -> (r: Value)
        ensures
            r == *self,
    {
        match self {
            Value::Absent => Value::Absent,
            Value::Bool(b) => Value::Bool(*b),
            Value::U64(n) => Value::U64(*n),
            Value::F64(f) => Value::F64(Float { bits: f.bits, text: f.text.clone() }),
            Value::Str(s) => Value::Str(s.clone()),
            Value::Other(s) => Value::Other(s.clone()),
        }
    }
}

/// A JSON number.
pub enum JsonNumber {
    Unsigned(u64),
    Signed(i64),
    Float(Float),
}

/// A JSON value. Object members are held in name order.
pub enum Json {
    Null,
    Bool(bool),
    Number(JsonNumber),
    Text(String),
    Array(Vec<Json>),
    Object(StrMap<Json>),
}

/// Two JSON values are the same: the same kind of value, the same elements in the
/// same order, the same members under the same names.
pub open spec fn same_json(a: Json, b: Json) -> bool
    decreases a,
    via same_json_decreases
{
    match (a, b) {
        (Json::Null, Json::Null) => true,
        (Json::Bool(x), Json::Bool(y)) => x == y,
        (Json::Number(x), Json::Number(y)) => x == y,
        (Json::Text(x), Json::Text(y)) => x == y,
        (Json::Array(x), Json::Array(y)) => x@.len() == y@.len() && forall|i: int|
            0 <= i < x@.len() ==> same_json(#[trigger] x@[i], y@[i]),
        (Json::Object(x), Json::Object(y)) => x.pairs().len() == y.pairs().len() && forall|i: int|
            0 <= i < x.pairs().len() ==> (#[trigger] x.pairs()[i]).0 == y.pairs()[i].0
                && same_json(x.pairs()[i].1, y.pairs()[i].1),
        _ => false,
    }
}

#[via_fn]
proof fn same_json_decreases(a: Json, b: Json) {
    match a {
        Json::Array(x) => {
            assert(decreases_to!(a => x));
            assert(decreases_to!(x => x@));
        },
        Json::Object(x) => {
            assert(decreases_to!(a => x));
            assert forall|i: int| 0 <= i < x.pairs().len() implies decreases_to!(
                x => (#[trigger] x.pairs()[i]).1
            ) by {
                strmap::lemma_entry_is_smaller(x, i);
            }
        },
        _ => {},
    }
}

/// Whether `j` is the JSON form of the wire value `v`: numbers and truth values
/// as such, a number without a JSON form as null, everything else by the text
/// that shows it.
pub open spec fn is_json_of(j: Json, v: Value) -> bool {
    match v {
        Value::U64(n) => j == Json::Number(JsonNumber::Unsigned(n)),
        Value::F64(f) => if finite_bits(f.bits) {
            j == Json::Number(JsonNumber::Float(f))
        } else {
            j == Json::Null
        },
        Value::Bool(b) => j == Json::Bool(b),
        _ => j matches Json::Text(s) && s@ == display_of(v),
    }
}

impl Value {
    pub fn to_json(&self) -> (r: Json)
        ensures
            is_json_of(r, *self),
    {
        match self {
            Value::U64(n) => Json::Number(JsonNumber::Unsigned(*n)),
            Value::F64(f) => if f.is_finite() {
                Json::Number(JsonNumber::Float(Float { bits: f.bits, text: f.text.clone() }))
            } else {
                Json::Null
            },
            Value::Bool(b) => Json::Bool(*b),
            _ => Json::Text(self.to_display_string()),
        }
    }
}

impl JsonNumber {
    /// A number with the same contents.
    pub fn copy(&self) -> (r: JsonNumber)
        ensures
            r == *self,
    {
        match self {
            JsonNumber::Unsigned(n) => JsonNumber::Unsigned(*n),
            JsonNumber::Signed(n) => JsonNumber::Signed(*n),
            JsonNumber::Float(f) => JsonNumber::Float(
                Float { bits: f.bits, text: f.text.clone() },
            ),
        }
    }
}

impl Json {
    /// A value with the same contents.
    pub fn copy(&self) -> (r: Json)
        ensures
            same_json(r, *self),
        decreases *self,
    {
        match self {
            Json::Null => Json::Null,
            Json::Bool(b) => Json::Bool(*b),
            Json::Number(n) => Json::Number(n.copy()),
            Json::Text(s) => Json::Text(s.clone()),
            Json::Array(items) => {
                let mut out: Vec<Json> = Vec::new();
                let mut i: usize = 0;
                while i < items.len()
                    invariant
                        i <= items@.len(),
                        *self == Json::Array(*items),
                        out@.len() == i,
                        forall|k: int| 0 <= k < i ==> same_json(#[trigger] out@[k], items@[k]),
                    decreases items@.len() - i,
                {
                    assert(decreases_to!(*self => self->Array_0));
                    assert(decreases_to!(*items => items@));
                    assert(decreases_to!(items@ => items@[i as int]));
                    out.push(items[i].copy());
                    i += 1;
                }
                Json::Array(out)
            },
            Json::Object(members) => {
                let mut out: StrMap<Json> = StrMap::new();
                let mut i: usize = 0;
                while i < members.len()
                    invariant
                        i <= members.pairs().len(),
                        *self == Json::Object(*members),
                        out.pairs().len() == i,
                        forall|k: int|
                            0 <= k < i ==> (#[trigger] out.pairs()[k]).0 == members.pairs()[k].0
                                && same_json(out.pairs()[k].1, members.pairs()[k].1),
                    decreases members.pairs().len() - i,
                {
                    assert(decreases_to!(*self => self->Object_0));
                    proof {
                        strmap::lemma_entry_is_smaller(*members, i as int);
                    }
                    out.append(members.name_at(i).clone(), members.value_at(i).copy());
                    i += 1;
                }
                Json::Object(out)
            },
        }
    }
}

/// Nothing, false, zero, minus zero and the empty text are false; all else is true.
pub proof fn law_what_is_false(v: Value)
    ensures
        !truthy_value(v) <==> (match v {
            Value::Absent => true,
            Value::Bool(b) => !b,
            Value::U64(n) => n == 0,
            Value::F64(f) => place_of(f.bits) == 0,
            Value::Str(s) => s@.len() == 0,
            Value::Other(_) => false,
        }),
{
}

/// Doubles are ordered as their bits are where they have no sign, the other way round
/// where both have one, and what has one comes before what has none; the two zeros are
/// one.
pub proof fn law_order_of_doubles(a: u64, b: u64)
    ensures
        a < 0x8000_0000_0000_0000 && b < 0x8000_0000_0000_0000 ==> (place_of(a) < place_of(b) <==> a
            < b),
        a >= 0x8000_0000_0000_0000 && b >= 0x8000_0000_0000_0000 ==> (place_of(a) < place_of(b)
            <==> a > b),
        a > 0x8000_0000_0000_0000 && b < 0x8000_0000_0000_0000 ==> place_of(a) < place_of(b),
        place_of(0) == place_of(0x8000_0000_0000_0000),
        zero_bits(a) <==> place_of(a) == 0,
{
}

/// A double is finite where it is no more than the greatest finite one and no less than
/// the least; beyond lie the two infinities, and after those what is no number.
pub proof fn law_finite_doubles(bits: u64)
    ensures
        finite_bits(bits) <==> -0x7ff0_0000_0000_0000 < place_of(bits) < 0x7ff0_0000_0000_0000,
        nan_bits(bits) <==> place_of(bits) > 0x7ff0_0000_0000_0000 || place_of(bits)
            < -0x7ff0_0000_0000_0000,
{
    assert(finite_bits(bits) <==> bits % 0x8000_0000_0000_0000 < 0x7ff0_0000_0000_0000) by {
        let m = bits % 0x8000_0000_0000_0000;
        assert((bits / 0x10_0000_0000_0000) % 0x800 == m / 0x10_0000_0000_0000) by (bit_vector)
            requires
                m == bits % 0x8000_0000_0000_0000,
        ;
    }
}

/// A whole number, a truth value and a finite double are what they are in JSON, a double
/// without a finite value is null, and all else is the text that shows it.
pub proof fn law_json_keeps_the_value(j: Json, v: Value)
    requires
        is_json_of(j, v),
    ensures
        j is Null <==> (v matches Value::F64(f) && !finite_bits(f.bits)),
        j is Number <==> v is U64 || (v matches Value::F64(f) && finite_bits(f.bits)),
        j is Bool <==> v is Bool,
        v matches Value::U64(n) ==> j == Json::Number(JsonNumber::Unsigned(n)),
        v matches Value::Bool(b) ==> j == Json::Bool(b),
        j matches Json::Text(s) ==> s@ == display_of(v),
        j is Text <==> v is Absent || v is Str || v is Other,
{
}

/// Values are shown by their own words: a text as it is, numbers in digits.
pub proof fn law_shown_value(v: Value)
    ensures
        v is Absent ==> display_of(v).len() == 0,
        v == Value::Bool(true) ==> display_of(v) == "true"@,
        v == Value::Bool(false) ==> display_of(v) == "false"@,
        v matches Value::U64(n) ==> text::unsigned_value(display_of(v), u64::MAX as nat) == Some(
            n as nat,
        ),
        v matches Value::Str(s) ==> display_of(v) == s@,
        v matches Value::F64(f) ==> display_of(v) == f.text@,
        v matches Value::Other(s) ==> display_of(v) == s@,
{
    if let Value::U64(n) = v {
        text::law_written_number_is_read(n as nat, u64::MAX as nat);
    }
}

/// A whole number is rounded to a multiple of the spacing of doubles at it, no further than
/// half of that away, and not at all where doubles hold it exactly.
pub proof fn law_nearest_is_near(n: nat)
    ensures
        spacing(n) > 0,
        nearest(n) % spacing(n) == 0,
        -(spacing(n) as int) <= 2 * (nearest(n) - n) <= spacing(n),
        n < 0x20_0000_0000_0000 ==> nearest(n) == n,
        2 * (n % spacing(n)) == spacing(n) ==> (nearest(n) / spacing(n)) % 2 == 0,
{
    lemma_spacing_positive(n);
    let unit = spacing(n);
    let whole = n / unit;
    let rest = n % unit;
    vstd::arithmetic::div_mod::lemma_fundamental_div_mod(n as int, unit as int);
    assert(0 <= rest < unit);
    assert(n == whole * unit + rest) by (nonlinear_arith)
        requires
            n == unit * whole + rest,
    ;
    assert((whole + 1) * unit == whole * unit + unit) by (nonlinear_arith);
    vstd::arithmetic::div_mod::lemma_mod_multiples_basic(whole as int, unit as int);
    vstd::arithmetic::div_mod::lemma_mod_multiples_basic((whole + 1) as int, unit as int);
    vstd::arithmetic::div_mod::lemma_div_multiples_vanish(whole as int, unit as int);
    vstd::arithmetic::div_mod::lemma_div_multiples_vanish((whole + 1) as int, unit as int);
    assert(unit * whole == whole * unit) by (nonlinear_arith);
    assert(unit * (whole + 1) == (whole + 1) * unit) by (nonlinear_arith);
    if n < 0x20_0000_0000_0000 {
        assert(unit == 1);
    }
}

proof fn lemma_spacing_positive(n: nat)
    ensures
        spacing(n) > 0,
    decreases n,
{
    if n >= 0x20_0000_0000_0000 {
        lemma_spacing_positive(n / 2);
    }
}

/// The spacing of doubles doubles wherever they get one digit longer.
pub proof fn law_spacing_doubles(n: nat)
    ensures
        n < 0x20_0000_0000_0000 ==> spacing(n) == 1,
        n >= 0x10_0000_0000_0000 ==> spacing(2 * n) == 2 * spacing(n),
{
    assert((2 * n) / 2 == n);
}

/// An error is taken at a rate where its roll, as a share of all rolls and rounded as doubles
/// are, is less than the rate: a share that doubles hold exactly by itself.
pub proof fn law_share_of_exact_roll(n: u64, bits: u64)
    requires
        n < 0x20_0000_0000_0000,
    ensures
        share_is_below(n, bits) <==> n * pow2(1010) < magnitude(bits),
{
    law_nearest_is_near(n as nat);
}

} // verus!
