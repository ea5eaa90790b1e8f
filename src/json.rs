use vstd::prelude::*;
use core::cmp::Ordering;
use crate::text::{compare_str, lex_order};
use vstd::arithmetic::power2::{
    lemma2_to64, lemma2_to64_rest, lemma_pow2_adds, lemma_pow2_pos, lemma_pow2_strictly_increases, lemma_pow2_unfold, pow2,
};

verus! {

/// The exact form a JSON number was written in.
#[derive(Debug, Clone, Copy, PartialEq, Eq, Structural)]
pub enum NumberRepr {
    PosInt(u64),
    NegInt(i64),
    /// A fractional number, as the bits of its double-precision value.
    Float(u64),
}

/// A JSON number: its exact form, which decides equality, and the bits of its
/// double-precision value, which decide ordering. `wf` states how the two agree.
#[derive(Debug, Clone, Copy, PartialEq, Eq, Structural)]
pub struct JsonNumber {
    pub repr: NumberRepr,
    pub float_bits: u64,
}

/// The number of binary digits of `n` (none for zero).
pub open spec fn bit_len(n: nat) -> nat
    decreases n,
{
    if n == 0 {
        0
    } else {
        1 + bit_len(n / 2)
    }
}

/// The 53-bit significand of the double nearest `n` (ties to even), for `n` whose
/// top binary digit is at position `e`; it is 2^53 when rounding carries over.
pub open spec fn significand(n: nat, e: nat) -> nat {
    if e <= 52 {
        n * pow2((52 - e) as nat)
    } else {
        let s = (e - 52) as nat;
        let q = n / pow2(s);
        let rem = n % pow2(s);
        let half = pow2((s - 1) as nat);
        if rem > half || (rem == half && q % 2 == 1) {
            q + 1
        } else {
            q
        }
    }
}

/// The bits of the double nearest the magnitude `n` (ties to even).
pub open spec fn magnitude_bits(n: nat) -> int {
    if n == 0 {
        0
    } else {
        let e = (bit_len(n) - 1) as nat;
        ((1022 + e) * pow2(52) + significand(n, e)) as int
    }
}

/// Whether the bits of a double are those of a finite value.
pub open spec fn is_finite_bits(b: u64) -> bool {
    (b / 0x10_0000_0000_0000u64) % 0x800 != 0x7ff
}

impl JsonNumber {
    /// `float_bits` are the bits of the double that the number is read as: the
    /// nearest double to an integer, the value itself for a fraction (which is
    /// finite); a negative integer is below zero.
    pub open spec fn wf(&self) -> bool {
        match self.repr {
            NumberRepr::PosInt(u) => self.float_bits as int == magnitude_bits(u as nat),
            NumberRepr::NegInt(i) => i < 0 && self.float_bits as int == 0x8000_0000_0000_0000
                + magnitude_bits((-i) as nat),
            NumberRepr::Float(b) => self.float_bits == b && is_finite_bits(b),
        }
    }
}

/// `pow2(k)` for a small `k`.
fn small_pow2(k: u64) -> (r: u64)
    requires
        k <= 62,
    ensures
        r as nat == pow2(k as nat),
{
    let mut p: u64 = 1;
    let mut i: u64 = 0;
    proof {
        lemma2_to64();
    }
    while i < k
        invariant
            0 <= i <= k <= 62,
            p as nat == pow2(i as nat),
        decreases k - i,
    {
        proof {
            lemma_pow2_unfold((i + 1) as nat);
            lemma_pow2_strictly_increases((i + 1) as nat, 63);
            lemma2_to64_rest();
        }
        p = p * 2;
        i = i + 1;
    }
    p
}

/// The bits of the double nearest `n` (ties to even).
fn magnitude_bits_of(n: u64) -> (r: u64)
    ensures
        r as int == magnitude_bits(n as nat),
        r < 0x8000_0000_0000_0000u64,
{
    if n == 0 {
        return 0;
    }
    let mut m: u64 = n;
    let mut e: u64 = 0;
    proof {
        lemma2_to64();
        assert(pow2(0) * m <= n < pow2(0) * (m + 1)) by (nonlinear_arith)
            requires pow2(0) == 1, m == n;
    }
    while m >= 2
        invariant
            1 <= m <= n,
            e < 64,
            bit_len(n as nat) == e + bit_len(m as nat),
            pow2(e as nat) * m <= n,
            n < pow2(e as nat) * (m + 1),
        decreases m,
    {
        proof {
            let pe = pow2(e as nat);
            lemma_pow2_pos(e as nat);
            lemma_pow2_unfold((e + 1) as nat);
            let m2 = m / 2;
            assert(pow2((e + 1) as nat) * m2 <= n) by (nonlinear_arith)
                requires pow2((e + 1) as nat) == 2 * pe, m2 == m / 2, pe * m <= n, m >= 2;
            assert(n < pow2((e + 1) as nat) * (m2 + 1)) by (nonlinear_arith)
                requires pow2((e + 1) as nat) == 2 * pe, m2 == m / 2, n < pe * (m + 1), pe > 0;
            lemma_pow2_pos(e as nat);
            if e + 1 >= 64 {
                lemma_pow2_strictly_increases(63, (e + 1) as nat);
                lemma2_to64_rest();
                assert(pow2((e + 1) as nat) * m2 >= pow2((e + 1) as nat)) by (nonlinear_arith)
                    requires m2 >= 1;
            }
        }
        m = m / 2;
        e = e + 1;
    }
    let ghost en = e as nat;
    proof {
        assert(m == 1);
        assert(bit_len(1) == 1 + bit_len(0));
        lemma_pow2_unfold(en + 1);
        lemma_pow2_pos(en);
        assert(pow2(en) <= n < pow2(en + 1));
        lemma2_to64();
        lemma2_to64_rest();
    }
    let q: u64 = if e <= 52 {
        let p = small_pow2(52 - e);
        proof {
            lemma_pow2_pos((52 - e) as nat);
            lemma_pow2_adds(en + 1, (52 - e) as nat);
            assert(n * p < pow2(en + 1) * p) by (nonlinear_arith)
                requires n < pow2(en + 1), p > 0;
            assert(en + 1 + (52 - e) as nat == 53);
        }
        n * p
    } else {
        let s = e - 52;
        let p = small_pow2(s);
        proof {
            lemma_pow2_pos(s as nat);
        }
        let q0 = n / p;
        let rem = n % p;
        let half = p / 2;
        proof {
            lemma_pow2_unfold(s as nat);
            lemma_pow2_adds(53, s as nat);
            assert(53 + s as nat == en + 1);
            assert(q0 < pow2(53)) by (nonlinear_arith)
                requires q0 == n / p, n < pow2(53) * p, p > 0;
        }
        if rem > half || (rem == half && q0 % 2 == 1) {
            q0 + 1
        } else {
            q0
        }
    };
    proof {
        assert(q as nat == significand(n as nat, en));
        assert(q <= pow2(53));
    }
    (1022 + e) * 0x10_0000_0000_0000u64 + q
}

impl JsonNumber {
    /// The number a non-negative integer is read as.
    pub fn from_u64(u: u64) -> (r: JsonNumber)
        ensures
            r.wf(),
            r.repr == NumberRepr::PosInt(u),
    {
        JsonNumber { repr: NumberRepr::PosInt(u), float_bits: magnitude_bits_of(u) }
    }

    /// The number an integer is read as: a negative one keeps its sign.
    pub fn from_i64(i: i64) -> (r: JsonNumber)
        ensures
            r.wf(),
            i >= 0 ==> r.repr == NumberRepr::PosInt(i as u64),
            i < 0 ==> r.repr == NumberRepr::NegInt(i),
    {
        if i >= 0 {
            JsonNumber::from_u64(i as u64)
        } else {
            let magnitude: u64 = if i == i64::MIN { 0x8000_0000_0000_0000u64 } else { (-i) as u64 };
            let bits = magnitude_bits_of(magnitude);
            JsonNumber { repr: NumberRepr::NegInt(i), float_bits: 0x8000_0000_0000_0000u64 + bits }
        }
    }

    /// The number a fraction is read as, given the bits of its double; nothing
    /// for an infinity or a NaN, which JSON cannot hold.
    pub fn from_float_bits(b: u64) -> (r: Option<JsonNumber>)
        ensures
            r is Some <==> is_finite_bits(b),
            r matches Some(x) ==> x.wf() && x.repr == NumberRepr::Float(b),
    {
        if (b / 0x10_0000_0000_0000u64) % 0x800 == 0x7ff {
            None
        } else {
            Some(JsonNumber { repr: NumberRepr::Float(b), float_bits: b })
        }
    }
}

/// A JSON value. An object keeps its entries in the order given; a member
/// lookup finds the first entry with the key.
#[derive(Debug)]
pub enum JsonValue {
    Null,
    Bool(bool),
    Number(JsonNumber),
    String(String),
    Array(Vec<JsonValue>),
    Object(Vec<(String, JsonValue)>),
}

pub open spec fn is_zero_bits(b: u64) -> bool {
    b == 0 || b == 0x8000_0000_0000_0000u64
}

/// Two numbers are equal when written in the same form with the same value
/// (a positive and a negative zero are equal).
pub open spec fn number_eq(a: JsonNumber, b: JsonNumber) -> bool {
    match (a.repr, b.repr) {
        (NumberRepr::PosInt(x), NumberRepr::PosInt(y)) => x == y,
        (NumberRepr::NegInt(x), NumberRepr::NegInt(y)) => x == y,
        (NumberRepr::Float(x), NumberRepr::Float(y)) => x == y || (is_zero_bits(x) && is_zero_bits(y)),
        _ => false,
    }
}

impl JsonValue {
    /// Numbers are well formed, and an object holds each key once, in
    /// increasing order, as a JSON map keeps them; so comparing objects entry by
    /// entry compares them as maps.
    pub open spec fn wf(&self) -> bool
        decreases *self,
    {
        match *self {
            JsonValue::Number(n) => n.wf(),
            JsonValue::Array(xs) => forall|i: int| 0 <= i < xs@.len() ==> (#[trigger] xs@[i]).wf(),
            JsonValue::Object(es) => (forall|i: int| 0 <= i < es@.len() ==> (#[trigger] es@[i]).1.wf())
                && forall|i: int, j: int|
                    0 <= i < j < es@.len() ==> lex_order(#[trigger] es@[i].0@, #[trigger] es@[j].0@) == Ordering::Less,
            _ => true,
        }
    }
}

/// Structural equality of JSON values.
pub open spec fn json_eq(a: JsonValue, b: JsonValue) -> bool
    decreases a,
{
    match (a, b) {
        (JsonValue::Null, JsonValue::Null) => true,
        (JsonValue::Bool(x), JsonValue::Bool(y)) => x == y,
        (JsonValue::Number(x), JsonValue::Number(y)) => number_eq(x, y),
        (JsonValue::String(x), JsonValue::String(y)) => x@ == y@,
        (JsonValue::Array(xs), JsonValue::Array(ys)) => json_seq_eq(xs@, ys@),
        (JsonValue::Object(xs), JsonValue::Object(ys)) => json_entries_eq(xs@, ys@),
        _ => false,
    }
}

pub open spec fn json_seq_eq(xs: Seq<JsonValue>, ys: Seq<JsonValue>) -> bool
    decreases xs,
{
    if xs.len() == 0 {
        ys.len() == 0
    } else {
        ys.len() != 0 && json_eq(xs[0], ys[0]) && json_seq_eq(xs.drop_first(), ys.drop_first())
    }
}

pub open spec fn json_entries_eq(xs: Seq<(String, JsonValue)>, ys: Seq<(String, JsonValue)>) -> bool
    decreases xs,
{
    if xs.len() == 0 {
        ys.len() == 0
    } else {
        ys.len() != 0 && xs[0].0@ == ys[0].0@ && json_eq(xs[0].1, ys[0].1)
            && json_entries_eq(xs.drop_first(), ys.drop_first())
    }
}


fn is_zero(b: u64) -> (r: bool)
    ensures
        r == is_zero_bits(b),
{
    b == 0 || b == 0x8000_0000_0000_0000u64
}

/// Equality of two numbers as `number_eq` states it.
pub fn number_equal(a: &JsonNumber, b: &JsonNumber) -> (r: bool)
    ensures
        r == number_eq(*a, *b),
{
    match (a.repr, b.repr) {
        (NumberRepr::PosInt(x), NumberRepr::PosInt(y)) => x == y,
        (NumberRepr::NegInt(x), NumberRepr::NegInt(y)) => x == y,
        (NumberRepr::Float(x), NumberRepr::Float(y)) => x == y || (is_zero(x) && is_zero(y)),
        _ => false,
    }
}

/// Structural equality of two JSON values.
pub fn json_equal(a: &JsonValue, b: &JsonValue) -> (r: bool)
    requires
        a.wf(),
        b.wf(),
    ensures
        r == json_eq(*a, *b),
    decreases a,
{
    match (a, b) {
        (JsonValue::Null, JsonValue::Null) => true,
        (JsonValue::Bool(x), JsonValue::Bool(y)) => *x == *y,
        (JsonValue::Number(x), JsonValue::Number(y)) => number_equal(x, y),
        (JsonValue::String(x), JsonValue::String(y)) => *x == *y,
        (JsonValue::Array(xs), JsonValue::Array(ys)) => {
            if xs.len() != ys.len() {
                proof { lemma_seq_eq_len(xs@, ys@); }
                return false;
            }
            let mut i: usize = 0;
            proof {
                assert(xs@.subrange(0, xs@.len() as int) =~= xs@);
                assert(ys@.subrange(0, ys@.len() as int) =~= ys@);
            }
            while i < xs.len()
                invariant
                    0 <= i <= xs.len(),
                    xs.len() == ys.len(),
                    *a == JsonValue::Array(*xs),
                    *b == JsonValue::Array(*ys),
                    a.wf(),
                    b.wf(),
                    json_seq_eq(xs@, ys@) == json_seq_eq(xs@.subrange(i as int, xs@.len() as int), ys@.subrange(i as int, ys@.len() as int)),
                decreases xs.len() - i,
            {
                proof {
                    broadcast use vstd::std_specs::vec::axiom_vec_index_decreases;
                    assert(decreases_to!(*xs => xs[i as int]));
                    assert(*a == JsonValue::Array(*xs));
                    assert(decreases_to!(*a => (*a)->Array_0));
                    assert(decreases_to!(*a => xs[i as int]));
                    let sx = xs@.subrange(i as int, xs@.len() as int);
                    let sy = ys@.subrange(i as int, ys@.len() as int);
                    assert(sx[0] == xs@[i as int] && sy[0] == ys@[i as int]);
                    assert(sx.drop_first() =~= xs@.subrange(i + 1, xs@.len() as int));
                    assert(sy.drop_first() =~= ys@.subrange(i + 1, ys@.len() as int));
                    assert(xs@[i as int].wf());
                    assert(*b == JsonValue::Array(*ys));
                    assert((*b)->Array_0 == *ys);
                    assert(b.wf() ==> forall|k: int| 0 <= k < ys@.len() ==> (#[trigger] ys@[k]).wf());
                    assert(ys@[i as int].wf());
                }
                if !json_equal(&xs[i], &ys[i]) {
                    proof {
                        let sx = xs@.subrange(i as int, xs@.len() as int);
                        let sy = ys@.subrange(i as int, ys@.len() as int);
                        assert(sx[0] == xs@[i as int] && sy[0] == ys@[i as int]);
                        assert(!json_seq_eq(sx, sy));
                    }
                    return false;
                }
                i = i + 1;
            }
            proof {
                assert(xs@.subrange(i as int, xs@.len() as int).len() == 0);
            }
            true
        },
        (JsonValue::Object(xs), JsonValue::Object(ys)) => {
            if xs.len() != ys.len() {
                proof { lemma_entries_eq_len(xs@, ys@); }
                return false;
            }
            let mut i: usize = 0;
            proof {
                assert(xs@.subrange(0, xs@.len() as int) =~= xs@);
                assert(ys@.subrange(0, ys@.len() as int) =~= ys@);
            }
            while i < xs.len()
                invariant
                    0 <= i <= xs.len(),
                    xs.len() == ys.len(),
                    *a == JsonValue::Object(*xs),
                    *b == JsonValue::Object(*ys),
                    a.wf(),
                    b.wf(),
                    json_entries_eq(xs@, ys@) == json_entries_eq(xs@.subrange(i as int, xs@.len() as int), ys@.subrange(i as int, ys@.len() as int)),
                decreases xs.len() - i,
            {
                proof {
                    broadcast use vstd::std_specs::vec::axiom_vec_index_decreases;
                    assert(decreases_to!(*xs => xs[i as int]));
                    assert(*a == JsonValue::Object(*xs));
                    assert(decreases_to!(xs[i as int] => xs[i as int].1));
                    assert(decreases_to!(*a => (*a)->Object_0));
                    assert(decreases_to!(*a => xs[i as int].1));
                    let sx = xs@.subrange(i as int, xs@.len() as int);
                    let sy = ys@.subrange(i as int, ys@.len() as int);
                    assert(sx[0] == xs@[i as int] && sy[0] == ys@[i as int]);
                    assert(sx.drop_first() =~= xs@.subrange(i + 1, xs@.len() as int));
                    assert(sy.drop_first() =~= ys@.subrange(i + 1, ys@.len() as int));
                }
                proof {
                    assert(xs@[i as int].1.wf() && ys@[i as int].1.wf());
                }
                let same_key = xs[i].0 == ys[i].0;
                if !same_key || !json_equal(&xs[i].1, &ys[i].1) {
                    proof {
                        let sx = xs@.subrange(i as int, xs@.len() as int);
                        let sy = ys@.subrange(i as int, ys@.len() as int);
                        assert(sx[0] == xs@[i as int] && sy[0] == ys@[i as int]);
                        assert(!json_entries_eq(sx, sy));
                    }
                    return false;
                }
                i = i + 1;
            }
            proof {
                assert(xs@.subrange(i as int, xs@.len() as int).len() == 0);
            }
            true
        },
        _ => false,
    }
}

proof fn lemma_seq_eq_len(xs: Seq<JsonValue>, ys: Seq<JsonValue>)
    ensures
        json_seq_eq(xs, ys) ==> xs.len() == ys.len(),
    decreases xs.len(),
{
    if xs.len() != 0 && ys.len() != 0 {
        lemma_seq_eq_len(xs.drop_first(), ys.drop_first());
    }
}

proof fn lemma_entries_eq_len(xs: Seq<(String, JsonValue)>, ys: Seq<(String, JsonValue)>)
    ensures
        json_entries_eq(xs, ys) ==> xs.len() == ys.len(),
    decreases xs.len(),
{
    if xs.len() != 0 && ys.len() != 0 {
        lemma_entries_eq_len(xs.drop_first(), ys.drop_first());
    }
}


impl JsonNumber {
    /// Whether the number is well formed.
    pub fn is_wf(&self) -> (r: bool)
        ensures
            r == self.wf(),
    {
        match self.repr {
            NumberRepr::PosInt(u) => self.float_bits == magnitude_bits_of(u),
            NumberRepr::NegInt(i) => {
                if i >= 0 {
                    return false;
                }
                let magnitude: u64 = if i == i64::MIN { 0x8000_0000_0000_0000u64 } else { (-i) as u64 };
                self.float_bits == 0x8000_0000_0000_0000u64 + magnitude_bits_of(magnitude)
            },
            NumberRepr::Float(b) => self.float_bits == b && (b / 0x10_0000_0000_0000u64) % 0x800 != 0x7ff,
        }
    }
}

impl JsonValue {
    /// Whether the value is well formed.
    pub fn is_wf(&self) -> (r: bool)
        ensures
            r == self.wf(),
        decreases self,
    {
        match self {
            JsonValue::Number(n) => n.is_wf(),
            JsonValue::Array(xs) => {
                let mut i: usize = 0;
                while i < xs.len()
                    invariant
                        0 <= i <= xs.len(),
                        *self == JsonValue::Array(*xs),
                        forall|k: int| 0 <= k < i ==> (#[trigger] xs@[k]).wf(),
                    decreases xs.len() - i,
                {
                    proof {
                        broadcast use vstd::std_specs::vec::axiom_vec_index_decreases;
                        assert(decreases_to!(*self => (*self)->Array_0));
                        assert(decreases_to!(*xs => xs[i as int]));
                    }
                    if !xs[i].is_wf() {
                        return false;
                    }
                    i = i + 1;
                }
                true
            },
            JsonValue::Object(es) => {
                let mut i: usize = 0;
                while i < es.len()
                    invariant
                        0 <= i <= es.len(),
                        *self == JsonValue::Object(*es),
                        forall|k: int| 0 <= k < i ==> (#[trigger] es@[k]).1.wf(),
                        forall|k: int, m: int|
                            0 <= k < m < es@.len() && k < i ==> lex_order(#[trigger] es@[k].0@, #[trigger] es@[m].0@) == Ordering::Less,
                    decreases es.len() - i,
                {
                    proof {
                        broadcast use vstd::std_specs::vec::axiom_vec_index_decreases;
                        assert(decreases_to!(*self => (*self)->Object_0));
                        assert(decreases_to!(*es => es[i as int]));
                    }
                    if !es[i].1.is_wf() {
                        return false;
                    }
                    let mut j: usize = i + 1;
                    while j < es.len()
                        invariant
                            i < j <= es.len(),
                            *self == JsonValue::Object(*es),
                            forall|m: int| i < m < j ==> lex_order(es@[i as int].0@, #[trigger] es@[m].0@) == Ordering::Less,
                        decreases es.len() - j,
                    {
                        match compare_str(es[i].0.as_str(), es[j].0.as_str()) {
                            Ordering::Less => {},
                            _ => {
                                proof {
                                    assert(lex_order(es@[i as int].0@, es@[j as int].0@) != Ordering::Less);
                                    assert((*self)->Object_0 == *es);
                                }
                                return false;
                            },
                        }
                        j = j + 1;
                    }
                    i = i + 1;
                }
                true
            },
            _ => true,
        }
    }
}

} // verus!
