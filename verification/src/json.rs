//! JSON values as the settings logic reads them.
//!
//! A `JsonValue` mirrors a `serde_json::Value` built with the default map
//! (object keys in ascending order, each key once).  A floating-point number
//! is held by its bit pattern together with the one quantity the settings
//! logic derives from it: the value times one hundred, rounded to the nearest
//! integer and saturated to `i64`.  Whoever turns a serde value into a
//! `JsonValue` fills that quantity in; integers compute it here.

use vstd::prelude::*;
use crate::text_util::string_push;

verus! {

/// 2^53: below it every integer is exactly a 64-bit float.
pub const FLOAT_EXACT_LIMIT: u128 = 0x20_0000_0000_0000;

/// A JSON number.
#[derive(Debug, Clone, Copy, PartialEq, Eq)]
pub enum JsonNumber {
    /// A non-negative integer.
    PosInt(u64),
    /// A negative integer.
    NegInt(i64),
    /// A float, by its bit pattern, with its value times 100 rounded and
    /// saturated to `i64`.
    Float { bits: u64, hundredths: i64 },
}

/// A JSON value.
#[derive(Debug)]
pub enum JsonValue {
    Null,
    Bool(bool),
    Number(JsonNumber),
    String(String),
    Array(Vec<JsonValue>),
    /// Members in ascending key order, each key once.
    Object(Vec<(String, JsonValue)>),
}

/// Mathematical model of a JSON value.
pub enum JsonModel {
    Null,
    Bool(bool),
    Number(JsonNumber),
    Str(Seq<char>),
    Array(Seq<JsonModel>),
    Object(Seq<(Seq<char>, JsonModel)>),
}

pub open spec fn json_model(v: JsonValue) -> JsonModel
    decreases v,
{
    match v {
        JsonValue::Null => JsonModel::Null,
        JsonValue::Bool(b) => JsonModel::Bool(b),
        JsonValue::Number(n) => JsonModel::Number(n),
        JsonValue::String(s) => JsonModel::Str(s@),
        JsonValue::Array(items) => {
            proof {
                assert forall|i: int| 0 <= i < items@.len() implies decreases_to!(v => items@[i]) by {
                    assert(decreases_to!(v => items));
                    assert(decreases_to!(items => items@));
                    assert(decreases_to!(items@ => items@[i]));
                }
            }
            JsonModel::Array(
                Seq::new(
                    items@.len(),
                    |i: int|
                        if 0 <= i < items@.len() {
                            json_model(items@[i])
                        } else {
                            JsonModel::Null
                        },
                ),
            )
        },
        JsonValue::Object(entries) => {
            proof {
                assert forall|i: int| 0 <= i < entries@.len() implies decreases_to!(v => entries@[i].1) by {
                    assert(decreases_to!(v => entries));
                    assert(decreases_to!(entries => entries@));
                    assert(decreases_to!(entries@ => entries@[i]));
                    assert(decreases_to!(entries@[i] => entries@[i].1));
                }
            }
            JsonModel::Object(
                Seq::new(
                    entries@.len(),
                    |i: int|
                        if 0 <= i < entries@.len() {
                            (entries@[i].0@, json_model(entries@[i].1))
                        } else {
                            (Seq::empty(), JsonModel::Null)
                        },
                ),
            )
        },
    }
}

impl View for JsonValue {
    type V = JsonModel;

    open spec fn view(&self) -> JsonModel {
        json_model(*self)
    }
}

/// Lexicographic order on strings (code point order, which is also the
/// byte order of their UTF-8 encodings).
pub open spec fn str_lt(a: Seq<char>, b: Seq<char>) -> bool
    decreases a.len(),
{
    if a.len() == 0 {
        b.len() > 0
    } else if b.len() == 0 {
        false
    } else if a[0] != b[0] {
        (a[0] as u32) < (b[0] as u32)
    } else {
        str_lt(a.drop_first(), b.drop_first())
    }
}

/// The bits of a float without its sign.
pub open spec fn float_magnitude(bits: u64) -> int {
    bits as int % 0x8000_0000_0000_0000
}

/// The float is finite (neither infinite nor NaN).
pub open spec fn float_finite(bits: u64) -> bool {
    float_magnitude(bits) < 0x7ff0_0000_0000_0000
}

/// Two floats are equal as `f64 ==` has it on the finite floats serde_json
/// holds: they have the same bits or are both zeros (`-0.0 == 0.0`).
pub open spec fn float_value_eq(a: u64, b: u64) -> bool {
    a == b || (float_magnitude(a) == 0 && float_magnitude(b) == 0)
}

/// A number as serde_json keeps it: negative integers only under `NegInt`,
/// and only finite floats (a negative zero stays a float).
pub open spec fn number_wf(n: JsonNumber) -> bool {
    match n {
        JsonNumber::NegInt(i) => i < 0,
        JsonNumber::Float { bits, .. } => float_finite(bits),
        _ => true,
    }
}

/// Equality of numbers as serde_json has it: integers of the same kind by
/// value, floats by `f64 ==`, an integer never equal to a float.
pub open spec fn number_value_eq(a: JsonNumber, b: JsonNumber) -> bool {
    match (a, b) {
        (JsonNumber::PosInt(x), JsonNumber::PosInt(y)) => x == y,
        (JsonNumber::NegInt(x), JsonNumber::NegInt(y)) => x == y,
        (JsonNumber::Float { bits: x, .. }, JsonNumber::Float { bits: y, .. }) => float_value_eq(x, y),
        _ => false,
    }
}

/// A number with every float zero written as `+0.0`, and the derived
/// hundredths of a float dropped: numbers equal as serde_json compares them
/// (on finite floats) have the same form.
pub open spec fn number_norm(n: JsonNumber) -> JsonNumber {
    match n {
        JsonNumber::Float { bits, .. } => JsonNumber::Float {
            bits: if float_magnitude(bits) == 0 {
                0
            } else {
                bits
            },
            hundredths: 0,
        },
        _ => n,
    }
}

/// A value with every number in the form of `number_norm`.
pub open spec fn json_norm(m: JsonModel) -> JsonModel
    decreases m,
{
    match m {
        JsonModel::Number(n) => JsonModel::Number(number_norm(n)),
        JsonModel::Array(items) => {
            proof {
                assert forall|i: int| 0 <= i < items.len() implies decreases_to!(m => items[i]) by {
                    assert(decreases_to!(m => items));
                    assert(decreases_to!(items => items[i]));
                }
            }
            JsonModel::Array(
                Seq::new(
                    items.len(),
                    |i: int|
                        if 0 <= i < items.len() {
                            json_norm(items[i])
                        } else {
                            JsonModel::Null
                        },
                ),
            )
        },
        JsonModel::Object(entries) => {
            proof {
                assert forall|i: int| 0 <= i < entries.len() implies decreases_to!(m => entries[i].1) by {
                    assert(decreases_to!(m => entries));
                    assert(decreases_to!(entries => entries[i]));
                    assert(decreases_to!(entries[i] => entries[i].1));
                }
            }
            JsonModel::Object(
                Seq::new(
                    entries.len(),
                    |i: int|
                        if 0 <= i < entries.len() {
                            (entries[i].0, json_norm(entries[i].1))
                        } else {
                            (Seq::empty(), JsonModel::Null)
                        },
                ),
            )
        },
        _ => m,
    }
}

/// Equality of JSON values as serde_json has it (`Value == Value`): by kind
/// and content, integers of the same kind by value, floats by value (so
/// `-0.0` equals `0.0`), an integer never equal to a float, arrays element
/// by element and objects member by member in key order.
pub open spec fn json_eq(a: JsonModel, b: JsonModel) -> bool {
    json_norm(a) == json_norm(b)
}

/// Object keys in strictly ascending order.
pub open spec fn keys_ascending(entries: Seq<(Seq<char>, JsonModel)>) -> bool {
    forall|i: int, j: int| 0 <= i < j < entries.len() ==> str_lt(entries[i].0, entries[j].0)
}

/// A well-formed JSON value: numbers as serde_json keeps them and object keys
/// ascending, at every level.
pub open spec fn json_wf(m: JsonModel) -> bool
    decreases m,
{
    match m {
        JsonModel::Number(n) => number_wf(n),
        JsonModel::Array(items) => forall|i: int|
            0 <= i < items.len() ==> #[trigger] json_wf(items[i]),
        JsonModel::Object(entries) => keys_ascending(entries) && forall|i: int|
            0 <= i < entries.len() ==> #[trigger] json_wf(entries[i].1),
        _ => true,
    }
}

// ---------------------------------------------------------------------------
// Numbers.
// ---------------------------------------------------------------------------

/// Round a non-negative integer to the nearest value with at most 53
/// significant bits, ties to even, by dropping low bits one at a time:
/// `q * p + r` is the integer, `p` the weight of the lowest kept bit and `r`
/// the dropped part.
pub open spec fn round_sig53_from(q: nat, p: nat, r: nat) -> nat
    decreases q,
{
    if q < FLOAT_EXACT_LIMIT {
        if p <= 1 {
            q * p
        } else {
            let half = p / 2;
            let up = r > half || (r == half && q % 2 == 1);
            (if up {
                q + 1
            } else {
                q
            }) * p
        }
    } else {
        round_sig53_from(q / 2, p * 2, r + (q % 2) * p)
    }
}

/// The 64-bit float nearest to a non-negative integer `n` (ties to even), as an integer.
pub open spec fn round_to_float(n: nat) -> nat {
    round_sig53_from(n, 1, 0)
}

/// `(m as f64 * 100.0).round() as i64` for an integer of magnitude `m`,
/// positive when `negative` is false.
pub open spec fn int_hundredths(m: nat, negative: bool) -> i64 {
    let scaled = round_to_float(round_to_float(m) * 100);
    if negative {
        if scaled >= 0x8000_0000_0000_0000 {
            i64::MIN
        } else {
            (-(scaled as int)) as i64
        }
    } else {
        if scaled > i64::MAX {
            i64::MAX
        } else {
            scaled as i64
        }
    }
}

/// A number times 100, rounded to the nearest integer and saturated to `i64`
/// (the number read as a float).
pub open spec fn number_hundredths(n: JsonNumber) -> i64 {
    match n {
        JsonNumber::PosInt(u) => int_hundredths(u as nat, false),
        JsonNumber::NegInt(i) => int_hundredths(
            (if i < 0 {
                -(i as int)
            } else {
                i as int
            }) as nat,
            i < 0,
        ),
        JsonNumber::Float { hundredths, .. } => hundredths,
    }
}

proof fn lemma_round_step(n: nat, q: nat, p: nat, r: nat)
    requires
        n == q * p + r,
        r < p,
        p >= 1,
    ensures
        n == (q / 2) * (p * 2) + (r + (q % 2) * p),
        r + (q % 2) * p < p * 2,
{
    assert(q == 2 * (q / 2) + q % 2);
    assert(q * p == (2 * (q / 2) + q % 2) * p) by (nonlinear_arith)
        requires
            q == 2 * (q / 2) + q % 2,
    ;
    assert((2 * (q / 2) + q % 2) * p == (q / 2) * (p * 2) + (q % 2) * p) by (nonlinear_arith);
    assert((q % 2) * p <= p) by (nonlinear_arith)
        requires
            q % 2 <= 1,
    ;
}

/// Round `n < 2^72` to the nearest float value.
fn round_to_float_exec(n: u128) -> (res: u128)
    requires
        n < 0x1_0000_0000_0000_0000_00,
    ensures
        res == round_to_float(n as nat),
        res <= 2 * n + 1,
{
    let mut q: u128 = n;
    let mut p: u128 = 1;
    let mut r: u128 = 0;
    while q >= FLOAT_EXACT_LIMIT
        invariant
            n < 0x1_0000_0000_0000_0000_00,
            n == q * p + r,
            r < p,
            1 <= p,
            q * p <= n,
            p == 1 || p <= n,
            round_sig53_from(q as nat, p as nat, r as nat) == round_to_float(n as nat),
        decreases q,
    {
        proof {
            lemma_round_step(n as nat, q as nat, p as nat, r as nat);
            assert(p * 2 <= n) by (nonlinear_arith)
                requires
                    q >= FLOAT_EXACT_LIMIT,
                    q * p <= n,
                    p >= 1,
            ;
            assert((q / 2) * (p * 2) <= n) by (nonlinear_arith)
                requires
                    n == (q / 2) * (p * 2) + (r + (q % 2) * p),
            ;
        }
        let bit = q % 2;
        r = r + bit * p;
        p = p * 2;
        q = q / 2;
    }
    proof {
        assert(q * p <= n);
    }
    if p <= 1 {
        proof {
            assert(q * p == q) by (nonlinear_arith)
                requires
                    p == 1,
            ;
        }
        q * p
    } else {
        let half = p / 2;
        let up = r > half || (r == half && q % 2 == 1);
        let q2 = if up { q + 1 } else { q };
        proof {
            assert(q2 * p <= 2 * n + 1) by (nonlinear_arith)
                requires
                    q2 <= q + 1,
                    q * p <= n,
                    p <= n,
                    p >= 1,
            ;
        }
        q2 * p
    }
}

/// `(m as f64 * 100.0).round() as i64` for an integer of magnitude `m`.
fn int_hundredths_exec(m: u64, negative: bool) -> (res: i64)
    ensures
        res == int_hundredths(m as nat, negative),
{
    let x = round_to_float_exec(m as u128);
    let scaled = round_to_float_exec(x * 100);
    if negative {
        if scaled >= 0x8000_0000_0000_0000 {
            i64::MIN
        } else {
            -(scaled as i64)
        }
    } else {
        if scaled > 0x7fff_ffff_ffff_ffff {
            i64::MAX
        } else {
            scaled as i64
        }
    }
}

impl JsonNumber {
    /// The number for an `i64` (as serde_json's `From<i64>` makes it).
    pub fn from_i64(v: i64) -> (n: JsonNumber)
        ensures
            number_wf(n),
            v < 0 ==> n == JsonNumber::NegInt(v),
            v >= 0 ==> n == JsonNumber::PosInt(v as u64),
    {
        if v < 0 {
            JsonNumber::NegInt(v)
        } else {
            JsonNumber::PosInt(v as u64)
        }
    }

    /// The number as an `i64`, when it is an integer in range.
    pub fn as_i64(&self) -> (r: Option<i64>)
        ensures
            r == match *self {
                JsonNumber::PosInt(u) => if u <= i64::MAX {
                    Some(u as i64)
                } else {
                    None
                },
                JsonNumber::NegInt(i) => Some(i),
                JsonNumber::Float { .. } => None,
            },
    {
        match self {
            JsonNumber::PosInt(u) => if *u <= 0x7fff_ffff_ffff_ffff {
                Some(*u as i64)
            } else {
                None
            },
            JsonNumber::NegInt(i) => Some(*i),
            JsonNumber::Float { .. } => None,
        }
    }

    /// The number times 100, rounded and saturated to `i64`.
    pub fn hundredths(&self) -> (r: i64)
        ensures
            r == number_hundredths(*self),
    {
        match self {
            JsonNumber::PosInt(u) => int_hundredths_exec(*u, false),
            JsonNumber::NegInt(i) => {
                let v: i64 = *i;
                let m: u64 = if v == i64::MIN {
                    0x8000_0000_0000_0000u64
                } else if v < 0 {
                    (-v) as u64
                } else {
                    v as u64
                };
                int_hundredths_exec(m, v < 0)
            },
            JsonNumber::Float { hundredths, .. } => *hundredths,
        }
    }
}

// ---------------------------------------------------------------------------
// Reading values.
// ---------------------------------------------------------------------------

pub open spec fn model_as_bool(m: JsonModel) -> Option<bool> {
    match m {
        JsonModel::Bool(b) => Some(b),
        _ => None,
    }
}

pub open spec fn number_as_i64(n: JsonNumber) -> Option<i64> {
    match n {
        JsonNumber::PosInt(u) => if u <= i64::MAX {
            Some(u as i64)
        } else {
            None
        },
        JsonNumber::NegInt(i) => Some(i),
        JsonNumber::Float { .. } => None,
    }
}

pub open spec fn model_as_i64(m: JsonModel) -> Option<i64> {
    match m {
        JsonModel::Number(n) => number_as_i64(n),
        _ => None,
    }
}

/// The value times 100 rounded, when it is a number (what reading it as a
/// float and scaling gives).
pub open spec fn model_hundredths(m: JsonModel) -> Option<i64> {
    match m {
        JsonModel::Number(n) => Some(number_hundredths(n)),
        _ => None,
    }
}

pub open spec fn model_as_str(m: JsonModel) -> Option<Seq<char>> {
    match m {
        JsonModel::Str(s) => Some(s),
        _ => None,
    }
}

pub open spec fn model_object_len(m: JsonModel) -> Option<nat> {
    match m {
        JsonModel::Object(entries) => Some(entries.len()),
        _ => None,
    }
}

proof fn lemma_array_model(v: JsonValue)
    requires
        v is Array,
    ensures
        json_model(v) is Array,
        json_model(v)->Array_0.len() == v->Array_0@.len(),
        forall|i: int|
            0 <= i < v->Array_0@.len() ==> #[trigger] json_model(v)->Array_0[i] == json_model(
                v->Array_0@[i],
            ),
{
}

proof fn lemma_object_model(v: JsonValue)
    requires
        v is Object,
    ensures
        json_model(v) is Object,
        json_model(v)->Object_0.len() == v->Object_0@.len(),
        forall|i: int|
            0 <= i < v->Object_0@.len() ==> #[trigger] json_model(v)->Object_0[i] == (
                v->Object_0@[i].0@,
                json_model(v->Object_0@[i].1),
            ),
{
}

impl JsonValue {
    /// The boolean, when the value is one.
    pub fn as_bool(&self) -> (r: Option<bool>)
        ensures
            r == model_as_bool(self@),
    {
        match self {
            JsonValue::Bool(b) => Some(*b),
            _ => None,
        }
    }

    /// The integer, when the value is an integer that fits in `i64`.
    pub fn as_i64(&self) -> (r: Option<i64>)
        ensures
            r == model_as_i64(self@),
    {
        match self {
            JsonValue::Number(n) => n.as_i64(),
            _ => None,
        }
    }

    /// The value times 100, rounded and saturated to `i64`, when it is a number.
    pub fn as_hundredths(&self) -> (r: Option<i64>)
        ensures
            r == model_hundredths(self@),
    {
        match self {
            JsonValue::Number(n) => Some(n.hundredths()),
            _ => None,
        }
    }

    /// The string, when the value is one.
    pub fn as_str(&self) -> (r: Option<&String>)
        ensures
            match r {
                Some(s) => model_as_str(self@) == Some(s@),
                None => model_as_str(self@) is None,
            },
    {
        match self {
            JsonValue::String(s) => Some(s),
            _ => None,
        }
    }

    /// The elements, when the value is an array.
    pub fn as_array(&self) -> (r: Option<&Vec<JsonValue>>)
        ensures
            match r {
                Some(items) => self@ == JsonModel::Array(
                    Seq::new(items@.len(), |i: int| items@[i]@),
                ),
                None => !(self@ is Array),
            },
    {
        match self {
            JsonValue::Array(items) => {
                proof {
                    lemma_array_model(*self);
                    assert(self@->Array_0 =~= Seq::new(items@.len(), |i: int| items@[i]@));
                }
                Some(items)
            },
            _ => None,
        }
    }

    /// The number of members, when the value is an object.
    pub fn object_len(&self) -> (r: Option<usize>)
        ensures
            match r {
                Some(n) => model_object_len(self@) == Some(n as nat),
                None => model_object_len(self@) is None,
            },
    {
        match self {
            JsonValue::Object(entries) => {
                proof {
                    lemma_object_model(*self);
                }
                Some(entries.len())
            },
            _ => None,
        }
    }

    /// A copy of the value.
    #[verifier::loop_isolation(false)]
    pub fn deep_clone(&self) -> (r: JsonValue)
        ensures
            r@ == self@,
        decreases self,
    {
        match self {
            JsonValue::Null => JsonValue::Null,
            JsonValue::Bool(b) => JsonValue::Bool(*b),
            JsonValue::Number(n) => JsonValue::Number(*n),
            JsonValue::String(s) => JsonValue::String(s.clone()),
            JsonValue::Array(items) => {
                let mut out: Vec<JsonValue> = Vec::new();
                let mut i: usize = 0;
                while i < items.len()
                    invariant
                        i <= items@.len(),
                        out@.len() == i,
                        forall|k: int| 0 <= k < i ==> #[trigger] out@[k]@ == items@[k]@,
                    decreases items@.len() - i,
                {
                    proof {
                        assert(decreases_to!(*self => items));
                        assert(decreases_to!(items => items@));
                        assert(decreases_to!(items@ => items@[i as int]));
                    }
                    let c = items[i].deep_clone();
                    out.push(c);
                    i += 1;
                }
                let r = JsonValue::Array(out);
                proof {
                    lemma_array_model(r);
                    lemma_array_model(*self);
                    assert forall|k: int| 0 <= k < out@.len() implies r@->Array_0[k] == self@->Array_0[k] by {
                        assert(r@->Array_0[k] == json_model(out@[k]));
                        assert(out@[k]@ == items@[k]@);
                        assert(self@->Array_0[k] == json_model(items@[k]));
                    }
                    assert(r@->Array_0 =~= self@->Array_0);
                }
                r
            },
            JsonValue::Object(entries) => {
                let mut out: Vec<(String, JsonValue)> = Vec::new();
                let mut i: usize = 0;
                while i < entries.len()
                    invariant
                        i <= entries@.len(),
                        out@.len() == i,
                        forall|k: int|
                            0 <= k < i ==> #[trigger] out@[k].0@ == entries@[k].0@ && out@[k].1@
                                == entries@[k].1@,
                    decreases entries@.len() - i,
                {
                    proof {
                        assert(decreases_to!(*self => entries));
                        assert(decreases_to!(entries => entries@));
                        assert(decreases_to!(entries@ => entries@[i as int]));
                        assert(decreases_to!(entries@[i as int] => entries@[i as int].1));
                    }
                    let k = entries[i].0.clone();
                    let v = entries[i].1.deep_clone();
                    out.push((k, v));
                    i += 1;
                }
                let r = JsonValue::Object(out);
                proof {
                    lemma_object_model(r);
                    lemma_object_model(*self);
                    assert(r@->Object_0 =~= self@->Object_0);
                }
                r
            },
        }
    }

    /// Whether two values are equal as serde_json compares them (numbers by
    /// value, objects member by member, in key order).
    #[verifier::loop_isolation(false)]
    pub fn same_as(&self, other: &JsonValue) -> (r: bool)
        ensures
            r == json_eq(self@, other@),
        decreases self,
    {
        match (self, other) {
            (JsonValue::Null, JsonValue::Null) => true,
            (JsonValue::Bool(a), JsonValue::Bool(b)) => *a == *b,
            (JsonValue::Number(a), JsonValue::Number(b)) => number_eq(a, b),
            (JsonValue::String(a), JsonValue::String(b)) => *a == *b,
            (JsonValue::Array(a), JsonValue::Array(b)) => {
                proof {
                    lemma_array_model(*self);
                    lemma_array_model(*other);
                }
                let ghost na = json_norm(self@)->Array_0;
                let ghost nb = json_norm(other@)->Array_0;
                if a.len() != b.len() {
                    proof {
                        assert(na.len() != nb.len());
                    }
                    return false;
                }
                let mut i: usize = 0;
                while i < a.len()
                    invariant
                        i <= a@.len(),
                        a@.len() == b@.len(),
                        forall|k: int| 0 <= k < i ==> json_eq(#[trigger] a@[k]@, b@[k]@),
                    decreases a@.len() - i,
                {
                    proof {
                        assert(decreases_to!(*self => a));
                        assert(decreases_to!(a => a@));
                        assert(decreases_to!(a@ => a@[i as int]));
                    }
                    if !a[i].same_as(&b[i]) {
                        proof {
                            assert(na[i as int] == json_norm(a@[i as int]@));
                            assert(nb[i as int] == json_norm(b@[i as int]@));
                            assert(na[i as int] != nb[i as int]);
                        }
                        return false;
                    }
                    i += 1;
                }
                proof {
                    assert forall|k: int| 0 <= k < na.len() implies na[k] == nb[k] by {
                        assert(na[k] == json_norm(a@[k]@));
                        assert(nb[k] == json_norm(b@[k]@));
                        assert(json_eq(a@[k]@, b@[k]@));
                    }
                    assert(na =~= nb);
                }
                true
            },
            (JsonValue::Object(a), JsonValue::Object(b)) => {
                proof {
                    lemma_object_model(*self);
                    lemma_object_model(*other);
                }
                let ghost na = json_norm(self@)->Object_0;
                let ghost nb = json_norm(other@)->Object_0;
                if a.len() != b.len() {
                    proof {
                        assert(na.len() != nb.len());
                    }
                    return false;
                }
                let mut i: usize = 0;
                while i < a.len()
                    invariant
                        i <= a@.len(),
                        a@.len() == b@.len(),
                        forall|k: int| 0 <= k < i ==> (#[trigger] a@[k]).0@ == b@[k].0@,
                        forall|k: int| 0 <= k < i ==> json_eq((#[trigger] a@[k]).1@, b@[k].1@),
                    decreases a@.len() - i,
                {
                    proof {
                        assert(decreases_to!(*self => a));
                        assert(decreases_to!(a => a@));
                        assert(decreases_to!(a@ => a@[i as int]));
                        assert(decreases_to!(a@[i as int] => a@[i as int].1));
                    }
                    if !(a[i].0 == b[i].0) {
                        proof {
                            assert(na[i as int].0 == a@[i as int].0@);
                            assert(nb[i as int].0 == b@[i as int].0@);
                            assert(na[i as int] != nb[i as int]);
                        }
                        return false;
                    }
                    if !a[i].1.same_as(&b[i].1) {
                        proof {
                            assert(na[i as int].1 == json_norm(a@[i as int].1@));
                            assert(nb[i as int].1 == json_norm(b@[i as int].1@));
                            assert(na[i as int] != nb[i as int]);
                        }
                        return false;
                    }
                    i += 1;
                }
                proof {
                    assert forall|k: int| 0 <= k < na.len() implies na[k] == nb[k] by {
                        assert(na[k] == (a@[k].0@, json_norm(a@[k].1@)));
                        assert(nb[k] == (b@[k].0@, json_norm(b@[k].1@)));
                        assert(json_eq(a@[k].1@, b@[k].1@));
                    }
                    assert(na =~= nb);
                }
                true
            },
            _ => false,
        }
    }
}

// ---------------------------------------------------------------------------
// JSON Pointer (RFC 6901) lookup.
// ---------------------------------------------------------------------------

/// `s.split('/')`: the pieces between slashes (one more piece than slashes).
pub open spec fn split_slash(s: Seq<char>) -> Seq<Seq<char>>
    decreases s.len(),
{
    if s.len() == 0 {
        seq![Seq::empty()]
    } else {
        let prev = split_slash(s.drop_last());
        if s.last() == '/' {
            prev.push(Seq::empty())
        } else {
            prev.update(prev.len() - 1, prev.last().push(s.last()))
        }
    }
}

/// `s.replace(pat, rep)` for a two-character pattern `[a, b]` and a
/// one-character replacement `c` (occurrences replaced left to right).
pub open spec fn replace_pair(s: Seq<char>, a: char, b: char, c: char) -> Seq<char>
    decreases s.len(),
{
    if s.len() < 2 {
        s
    } else if s[0] == a && s[1] == b {
        seq![c] + replace_pair(s.skip(2), a, b, c)
    } else {
        seq![s[0]] + replace_pair(s.skip(1), a, b, c)
    }
}

/// Decode a pointer token: `~1` stands for `/`, then `~0` for `~`.
pub open spec fn unescape_token(t: Seq<char>) -> Seq<char> {
    replace_pair(replace_pair(t, '~', '1', '/'), '~', '0', '~')
}

pub open spec fn is_digit(c: char) -> bool {
    '0' <= c && c <= '9'
}

pub open spec fn digits_value(t: Seq<char>) -> nat
    decreases t.len(),
{
    if t.len() == 0 {
        0
    } else {
        digits_value(t.drop_last()) * 10 + ((t.last() as u32) - ('0' as u32)) as nat
    }
}

/// An array index token: decimal digits without a leading `+` or a leading
/// zero (except `0` itself), within `usize`.
pub open spec fn parse_index(t: Seq<char>) -> Option<usize> {
    if t.len() > 0 && t[0] == '+' {
        None
    } else if t.len() > 1 && t[0] == '0' {
        None
    } else if t.len() > 0 && (forall|i: int| 0 <= i < t.len() ==> is_digit(#[trigger] t[i]))
        && digits_value(t) <= usize::MAX {
        Some(digits_value(t) as usize)
    } else {
        None
    }
}

/// Index of the first member with key `k`, searching from `i`.
pub open spec fn find_key_from(entries: Seq<(Seq<char>, JsonModel)>, k: Seq<char>, i: int) -> Option<int>
    decreases entries.len() - i,
{
    if i < 0 || i >= entries.len() {
        None
    } else if entries[i].0 == k {
        Some(i)
    } else {
        find_key_from(entries, k, i + 1)
    }
}

/// Follow decoded pointer tokens from a value.
pub open spec fn walk_tokens(m: JsonModel, toks: Seq<Seq<char>>) -> Option<JsonModel>
    decreases toks.len(),
{
    if toks.len() == 0 {
        Some(m)
    } else {
        match m {
            JsonModel::Object(entries) => match find_key_from(entries, toks[0], 0) {
                Some(i) => walk_tokens(entries[i].1, toks.drop_first()),
                None => None,
            },
            JsonModel::Array(items) => match parse_index(toks[0]) {
                Some(x) => if x < items.len() {
                    walk_tokens(items[x as int], toks.drop_first())
                } else {
                    None
                },
                None => None,
            },
            _ => None,
        }
    }
}

/// The value a JSON Pointer designates: the whole value for the empty
/// pointer, nothing for a pointer that does not start with `/`.
pub open spec fn json_pointer(m: JsonModel, p: Seq<char>) -> Option<JsonModel> {
    if p.len() == 0 {
        Some(m)
    } else if p[0] != '/' {
        None
    } else {
        walk_tokens(m, split_slash(p.drop_first()).map_values(|t: Seq<char>| unescape_token(t)))
    }
}

proof fn lemma_split_slash_nonempty(s: Seq<char>)
    ensures
        split_slash(s).len() >= 1,
    decreases s.len(),
{
    if s.len() > 0 {
        lemma_split_slash_nonempty(s.drop_last());
    }
}

/// The characters of a string, in order.
pub(crate) fn chars_of(s: &str) -> (v: Vec<char>)
    ensures
        v@ == s@,
{
    let mut v: Vec<char> = Vec::new();
    for c in it: s.chars()
        invariant
            it.seq() == s@,
            v@ == s@.take(it.index()),
    {
        proof {
            assert(s@.take(it.index() + 1) =~= v@.push(c));
        }
        v.push(c);
    }
    proof {
        assert(s@.take(s@.len() as int) =~= s@);
    }
    v
}

/// Split at slashes.
fn split_slash_exec(s: &Vec<char>, from: usize) -> (parts: Vec<Vec<char>>)
    requires
        from <= s@.len(),
    ensures
        parts@.len() == split_slash(s@.skip(from as int)).len(),
        forall|k: int|
            0 <= k < parts@.len() ==> #[trigger] parts@[k]@ == split_slash(s@.skip(from as int))[k],
{
    let ghost t = s@.skip(from as int);
    let mut parts: Vec<Vec<char>> = Vec::new();
    let mut cur: Vec<char> = Vec::new();
    let mut i = from;
    proof {
        assert(t.take(0) =~= Seq::<char>::empty());
    }
    while i < s.len()
        invariant
            from <= i <= s@.len(),
            t == s@.skip(from as int),
            parts@.len() + 1 == split_slash(t.take(i - from)).len(),
            forall|k: int|
                0 <= k < parts@.len() ==> #[trigger] parts@[k]@ == split_slash(t.take(i - from))[k],
            cur@ == split_slash(t.take(i - from)).last(),
        decreases s@.len() - i,
    {
        let ghost pre = t.take(i - from);
        proof {
            lemma_split_slash_nonempty(pre);
            assert(t.take(i + 1 - from).drop_last() =~= pre);
            assert(t.take(i + 1 - from).last() == s@[i as int]);
        }
        if s[i] == '/' {
            let done = cur;
            parts.push(done);
            cur = Vec::new();
        } else {
            cur.push(s[i]);
        }
        i += 1;
    }
    proof {
        assert(t.take(i - from) =~= t);
        lemma_split_slash_nonempty(t);
    }
    parts.push(cur);
    proof {
        assert forall|k: int| 0 <= k < parts@.len() implies #[trigger] parts@[k]@ == split_slash(t)[k] by {
            if k < parts@.len() - 1 {
            } else {
            }
        }
    }
    parts
}

/// Replace the two-character pattern `[a, b]` with `c`, left to right.
fn replace_pair_exec(s: &Vec<char>, a: char, b: char, c: char) -> (out: Vec<char>)
    ensures
        out@ == replace_pair(s@, a, b, c),
{
    let mut out: Vec<char> = Vec::new();
    let mut i: usize = 0;
    proof {
        assert(s@.skip(0) =~= s@);
        assert(out@ + replace_pair(s@, a, b, c) =~= replace_pair(s@, a, b, c));
    }
    while i < s.len()
        invariant
            i <= s@.len(),
            out@ + replace_pair(s@.skip(i as int), a, b, c) == replace_pair(s@, a, b, c),
        decreases s@.len() - i,
    {
        let ghost rest = s@.skip(i as int);
        if i + 1 < s.len() && s[i] == a && s[i + 1] == b {
            proof {
                assert(rest.skip(2) =~= s@.skip(i + 2));
                assert(out@.push(c) + replace_pair(s@.skip(i + 2), a, b, c) =~= out@ + (seq![c]
                    + replace_pair(rest.skip(2), a, b, c)));
            }
            out.push(c);
            i += 2;
        } else {
            proof {
                if rest.len() < 2 {
                    assert(rest.len() == 1);
                    assert(s@.skip(i + 1).len() == 0);
                    assert(replace_pair(s@.skip(i + 1), a, b, c) =~= Seq::<char>::empty());
                    assert(out@.push(s@[i as int]) =~= out@ + rest);
                } else {
                    assert(rest.skip(1) =~= s@.skip(i + 1));
                    assert(out@.push(s@[i as int]) + replace_pair(s@.skip(i + 1), a, b, c) =~= out@
                        + (seq![rest[0]] + replace_pair(rest.skip(1), a, b, c)));
                }
            }
            out.push(s[i]);
            i += 1;
        }
    }
    proof {
        assert(s@.skip(i as int).len() == 0);
        assert(out@ + replace_pair(s@.skip(i as int), a, b, c) =~= out@);
    }
    out
}

fn string_from_chars(v: &Vec<char>) -> (s: String)
    ensures
        s@ == v@,
{
    let mut s = String::new();
    let mut i: usize = 0;
    while i < v.len()
        invariant
            i <= v@.len(),
            s@ == v@.take(i as int),
        decreases v@.len() - i,
    {
        proof {
            assert(v@.take(i + 1) =~= s@.push(v@[i as int]));
        }
        string_push(&mut s, v[i]);
        i += 1;
    }
    proof {
        assert(v@.take(v@.len() as int) =~= v@);
    }
    s
}

/// Parse an array index token.
fn parse_index_exec(t: &Vec<char>) -> (r: Option<usize>)
    ensures
        r == parse_index(t@),
{
    if t.len() > 0 && t[0] == '+' {
        return None;
    }
    if t.len() > 1 && t[0] == '0' {
        return None;
    }
    if t.len() == 0 {
        return None;
    }
    let mut value: usize = 0;
    let mut i: usize = 0;
    while i < t.len()
        invariant
            i <= t@.len(),
            t@.len() > 0,
            forall|k: int| 0 <= k < i ==> is_digit(#[trigger] t@[k]),
            value == digits_value(t@.take(i as int)),
        decreases t@.len() - i,
    {
        let c = t[i];
        proof {
            assert(t@.take(i + 1).drop_last() =~= t@.take(i as int));
        }
        if !('0' <= c && c <= '9') {
            proof {
                assert(!is_digit(t@[i as int]));
            }
            return None;
        }
        let d = (c as u32 - '0' as u32) as usize;
        if value > (usize::MAX - d) / 10 {
            proof {
                assert(digits_value(t@.take(i + 1)) == value * 10 + d);
                assert(value * 10 + d > usize::MAX) by (nonlinear_arith)
                    requires
                        value > (usize::MAX - d) / 10,
                        d <= 9,
                ;
                assert(t@.take(t@.len() as int) =~= t@);
                if forall|k: int| 0 <= k < t@.len() ==> is_digit(#[trigger] t@[k]) {
                    lemma_digits_value_prefix_le(t@, i + 1);
                }
            }
            return None;
        }
        value = value * 10 + d;
        i += 1;
    }
    proof {
        assert(t@.take(t@.len() as int) =~= t@);
    }
    Some(value)
}

proof fn lemma_digits_value_prefix_le(t: Seq<char>, k: int)
    requires
        0 <= k <= t.len(),
        forall|i: int| 0 <= i < t.len() ==> is_digit(#[trigger] t[i]),
    ensures
        digits_value(t.take(k)) <= digits_value(t),
    decreases t.len() - k,
{
    if k < t.len() {
        lemma_digits_value_prefix_le(t, k + 1);
        assert(t.take(k + 1).drop_last() =~= t.take(k));
        assert(is_digit(t[k]));
    } else {
        assert(t.take(k) =~= t);
    }
}

/// Decoded pointer tokens after the leading slash.
fn pointer_tokens(p: &Vec<char>) -> (toks: Vec<Vec<char>>)
    requires
        p@.len() > 0,
    ensures
        toks@.len() == split_slash(p@.drop_first()).len(),
        forall|k: int|
            0 <= k < toks@.len() ==> #[trigger] toks@[k]@ == unescape_token(
                split_slash(p@.drop_first())[k],
            ),
{
    let parts = split_slash_exec(p, 1);
    proof {
        assert(p@.skip(1) =~= p@.drop_first());
    }
    let mut toks: Vec<Vec<char>> = Vec::new();
    let mut i: usize = 0;
    while i < parts.len()
        invariant
            i <= parts@.len(),
            parts@.len() == split_slash(p@.drop_first()).len(),
            forall|k: int| 0 <= k < parts@.len() ==> #[trigger] parts@[k]@ == split_slash(p@.drop_first())[k],
            toks@.len() == i,
            forall|k: int|
                0 <= k < i ==> #[trigger] toks@[k]@ == unescape_token(split_slash(p@.drop_first())[k]),
        decreases parts@.len() - i,
    {
        let once = replace_pair_exec(&parts[i], '~', '1', '/');
        let twice = replace_pair_exec(&once, '~', '0', '~');
        toks.push(twice);
        i += 1;
    }
    toks
}

impl JsonValue {
    /// Look up a value by a JSON Pointer (`""` is the whole value; `/a/0`
    /// is member `a`, then element 0; `~1` and `~0` in a token stand for `/`
    /// and `~`).
    #[verifier::loop_isolation(false)]
    pub fn pointer(&self, pointer: &str) -> (r: Option<&JsonValue>)
        ensures
            match r {
                Some(v) => json_pointer(self@, pointer@) == Some(v@),
                None => json_pointer(self@, pointer@) is None,
            },
    {
        let p = chars_of(pointer);
        if p.len() == 0 {
            return Some(self);
        }
        if p[0] != '/' {
            return None;
        }
        let toks = pointer_tokens(&p);
        let ghost all = split_slash(p@.drop_first()).map_values(|t: Seq<char>| unescape_token(t));
        proof {
            assert(all.len() == toks@.len());
            assert forall|k: int| 0 <= k < all.len() implies #[trigger] all[k] == toks@[k]@ by {}
        }
        let mut cur: &JsonValue = self;
        let mut i: usize = 0;
        proof {
            assert(all.skip(0) =~= all);
        }
        while i < toks.len()
            invariant
                i <= toks@.len(),
                all.len() == toks@.len(),
                forall|k: int| 0 <= k < all.len() ==> #[trigger] all[k] == toks@[k]@,
                walk_tokens(self@, all) == walk_tokens(cur@, all.skip(i as int)),
            decreases toks@.len() - i,
        {
            let ghost rest = all.skip(i as int);
            proof {
                assert(rest[0] == toks@[i as int]@);
                assert(rest.drop_first() =~= all.skip(i + 1));
            }
            let tok = &toks[i];
            match cur {
                JsonValue::Object(entries) => {
                    proof {
                        lemma_object_model(*cur);
                    }
                    let key = string_from_chars(tok);
                    let mut j: usize = 0;
                    let mut found: Option<usize> = None;
                    while j < entries.len()
                        invariant
                            j <= entries@.len(),
                            found is None,
                            find_key_from(cur@->Object_0, tok@, 0) == find_key_from(
                                cur@->Object_0,
                                tok@,
                                j as int,
                            ),
                        decreases entries@.len() - j,
                    {
                        if entries[j].0 == key {
                            found = Some(j);
                            break;
                        }
                        j += 1;
                    }
                    match found {
                        Some(j) => {
                            cur = &entries[j].1;
                        },
                        None => {
                            return None;
                        },
                    }
                },
                JsonValue::Array(items) => {
                    proof {
                        lemma_array_model(*cur);
                    }
                    match parse_index_exec(tok) {
                        Some(x) => {
                            if x < items.len() {
                                cur = &items[x];
                            } else {
                                return None;
                            }
                        },
                        None => {
                            return None;
                        },
                    }
                },
                _ => {
                    return None;
                },
            }
            i += 1;
        }
        proof {
            assert(all.skip(i as int).len() == 0);
        }
        Some(cur)
    }
}

/// Whether `a` comes before `b` in key order.
pub fn str_less(a: &String, b: &String) -> (r: bool)
    ensures
        r == str_lt(a@, b@),
{
    let x = chars_of(a.as_str());
    let y = chars_of(b.as_str());
    let mut i: usize = 0;
    proof {
        assert(x@.skip(0) =~= x@);
        assert(y@.skip(0) =~= y@);
    }
    while i < x.len() && i < y.len()
        invariant
            x@ == a@,
            y@ == b@,
            i <= x@.len(),
            i <= y@.len(),
            str_lt(a@, b@) == str_lt(x@.skip(i as int), y@.skip(i as int)),
        decreases x@.len() - i,
    {
        let ghost xs = x@.skip(i as int);
        let ghost ys = y@.skip(i as int);
        if x[i] != y[i] {
            return (x[i] as u32) < (y[i] as u32);
        }
        proof {
            assert(xs.drop_first() =~= x@.skip(i + 1));
            assert(ys.drop_first() =~= y@.skip(i + 1));
        }
        i += 1;
    }
    i < y.len()
}

fn number_eq(a: &JsonNumber, b: &JsonNumber) -> (r: bool)
    ensures
        r == number_value_eq(*a, *b),
{
    match (a, b) {
        (JsonNumber::PosInt(x), JsonNumber::PosInt(y)) => *x == *y,
        (JsonNumber::NegInt(x), JsonNumber::NegInt(y)) => *x == *y,
        (JsonNumber::Float { bits: x, .. }, JsonNumber::Float { bits: y, .. }) => {
            let mx = *x % 0x8000_0000_0000_0000u64;
            let my = *y % 0x8000_0000_0000_0000u64;
            *x == *y || (mx == 0 && my == 0)
        },
        _ => false,
    }
}

} // verus!
