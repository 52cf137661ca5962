use vstd::prelude::*;
use vstd::string::StringExecFns;

use crate::operators::BinaryOperator;
use crate::text::{int_text, int_to_text, join};

verus! {

/// A runtime datum of the language.
#[derive(Debug, PartialEq)]
pub enum Value {
    NoVal,
    Number(i64),
    Boolean(bool),
    String(String),
}

/// The mathematical model of a [`Value`]: strings as character sequences.
pub enum SpecValue {
    NoVal,
    Number(int),
    Boolean(bool),
    Str(Seq<char>),
}

impl View for Value {
    type V = SpecValue;

    open spec fn view(&self) -> SpecValue {
        match self {
            Value::NoVal => SpecValue::NoVal,
            Value::Number(n) => SpecValue::Number(*n as int),
            Value::Boolean(b) => SpecValue::Boolean(*b),
            Value::String(s) => SpecValue::Str(s@),
        }
    }
}

/// Numbers are 64-bit signed integers: a result outside that range has no value.
pub open spec fn in_number_range(n: int) -> bool {
    i64::MIN <= n <= i64::MAX
}

/// A checked numeric result.
pub open spec fn number_result(n: int) -> Option<SpecValue> {
    if in_number_range(n) {
        Some(SpecValue::Number(n))
    } else {
        None
    }
}

/// The magnitude of an integer.
pub open spec fn magnitude(a: int) -> int {
    if a < 0 {
        -a
    } else {
        a
    }
}

/// Integer division truncated toward zero.
pub open spec fn trunc_div(a: int, b: int) -> int {
    if (a >= 0) == (b > 0) || a == 0 {
        magnitude(a) / magnitude(b)
    } else {
        -(magnitude(a) / magnitude(b))
    }
}

/// The longest text that a repetition may build.
pub const MAX_TEXT_LEN: usize = 0x7fff_ffff;

/// `s` written `n` times in a row.
pub open spec fn repeat_text(s: Seq<char>, n: nat) -> Seq<char>
    decreases n,
{
    if n == 0 {
        Seq::empty()
    } else {
        repeat_text(s, (n - 1) as nat) + s
    }
}

/// How many copies a number asks for: a negative count gives none.
pub open spec fn repeat_count(n: int) -> nat {
    if n < 0 {
        0
    } else {
        n as nat
    }
}

/// Repetition of a text, refused when the result would exceed [`MAX_TEXT_LEN`].
pub open spec fn repeat_result(s: Seq<char>, n: int) -> Option<SpecValue> {
    if s.len() == 0 || repeat_count(n) * s.len() <= MAX_TEXT_LEN {
        Some(SpecValue::Str(repeat_text(s, repeat_count(n))))
    } else {
        None
    }
}

/// The operator-overload table: the result of `l op r`, or `None` where the
/// combination is not defined (any `NoVal` operand among them).
///
/// On two numbers `||` multiplies, and `>=` and `>` compare as `<=` and `<`.
pub open spec fn binop_spec(l: SpecValue, op: BinaryOperator, r: SpecValue) -> Option<SpecValue> {
    match (l, r) {
        (SpecValue::Number(a), SpecValue::Number(b)) => match op {
            BinaryOperator::Mul => number_result(a * b),
            BinaryOperator::Add => number_result(a + b),
            BinaryOperator::Div => if b == 0 {
                None
            } else {
                number_result(trunc_div(a, b))
            },
            BinaryOperator::Sub => number_result(a - b),
            BinaryOperator::Or => number_result(a * b),
            BinaryOperator::Eq => Some(SpecValue::Boolean(a == b)),
            BinaryOperator::Neq => Some(SpecValue::Boolean(a != b)),
            BinaryOperator::Leq => Some(SpecValue::Boolean(a <= b)),
            BinaryOperator::Lt => Some(SpecValue::Boolean(a < b)),
            BinaryOperator::Geq => Some(SpecValue::Boolean(a <= b)),
            BinaryOperator::Gt => Some(SpecValue::Boolean(a < b)),
        },
        (SpecValue::Number(a), SpecValue::Str(t)) => match op {
            BinaryOperator::Mul => repeat_result(t, a),
            BinaryOperator::Add => Some(SpecValue::Str(int_text(a) + t)),
            _ => None,
        },
        (SpecValue::Str(t), SpecValue::Number(b)) => match op {
            BinaryOperator::Mul => repeat_result(t, b),
            BinaryOperator::Add => Some(SpecValue::Str(t + int_text(b))),
            _ => None,
        },
        (SpecValue::Str(t), SpecValue::Str(u)) => match op {
            BinaryOperator::Add => Some(SpecValue::Str(t + u)),
            BinaryOperator::Eq => Some(SpecValue::Boolean(t == u)),
            BinaryOperator::Neq => Some(SpecValue::Boolean(t != u)),
            _ => None,
        },
        (SpecValue::Boolean(a), SpecValue::Boolean(b)) => match op {
            BinaryOperator::Or => Some(SpecValue::Boolean(a || b)),
            BinaryOperator::Eq => Some(SpecValue::Boolean(a == b)),
            BinaryOperator::Neq => Some(SpecValue::Boolean(a != b)),
            BinaryOperator::Leq => Some(SpecValue::Boolean(!a || b)),
            BinaryOperator::Lt => Some(SpecValue::Boolean(!a && b)),
            BinaryOperator::Geq => Some(SpecValue::Boolean(a || !b)),
            BinaryOperator::Gt => Some(SpecValue::Boolean(a && !b)),
            _ => None,
        },
        _ => None,
    }
}

/// Truthiness: `None` for `NoVal`.
pub open spec fn truthy_spec(v: SpecValue) -> Option<bool> {
    match v {
        SpecValue::NoVal => None,
        SpecValue::Number(n) => Some(n != 0),
        SpecValue::Boolean(b) => Some(b),
        SpecValue::Str(s) => Some(s.len() != 0),
    }
}

/// Display text of a value.
pub open spec fn value_text(v: SpecValue) -> Seq<char> {
    match v {
        SpecValue::NoVal => seq!['(', ')'],
        SpecValue::Number(n) => int_text(n),
        SpecValue::Boolean(b) => if b {
            seq!['t', 'r', 'u', 'e']
        } else {
            seq!['f', 'a', 'l', 's', 'e']
        },
        SpecValue::Str(s) => s,
    }
}

fn repeat(s: &String, n: i64) -> (r: Option<String>)
    ensures
        r is Some <==> repeat_result(s@, n as int) is Some,
        r is Some ==> SpecValue::Str(r->Some_0@) == repeat_result(s@, n as int)->Some_0,
{
    let count: u64 = if n < 0 { 0 } else { n as u64 };
    let len = s.as_str().unicode_len();
    if len != 0 {
        match count.checked_mul(len as u64) {
            Some(total) => if total > MAX_TEXT_LEN as u64 {
                return None;
            },
            None => return None,
        }
    }
    let mut r = String::new();
    if len == 0 {
        proof {
            lemma_repeat_empty(s@, count as nat);
        }
        return Some(r);
    }
    let mut i: u64 = 0;
    while i < count
        invariant
            i <= count,
            count as int == repeat_count(n as int),
            r@ == repeat_text(s@, i as nat),
        decreases count - i,
    {
        r.append(s.as_str());
        i = i + 1;
    }
    Some(r)
}

proof fn lemma_repeat_empty(s: Seq<char>, n: nat)
    requires
        s.len() == 0,
    ensures
        repeat_text(s, n) == Seq::<char>::empty(),
    decreases n,
{
    if n > 0 {
        lemma_repeat_empty(s, (n - 1) as nat);
        assert(repeat_text(s, (n - 1) as nat) + s =~= Seq::<char>::empty());
    }
}

impl Value {
    /// A copy of this value.
    pub fn duplicate(&self) -> (r: Value)
        ensures
            r@ == self@,
    {
        match self {
            Value::NoVal => Value::NoVal,
            Value::Number(n) => Value::Number(*n),
            Value::Boolean(b) => Value::Boolean(*b),
            Value::String(s) => Value::String(s.clone()),
        }
    }

    /// Applies the operator-overload table: `None` where the combination is
    /// not defined.
    pub fn combine(&self, operator: BinaryOperator, other: &Value) -> (r: Option<Value>)
        ensures
            r is Some <==> binop_spec(self@, operator, other@) is Some,
            r is Some ==> r->Some_0@ == binop_spec(self@, operator, other@)->Some_0,
    {
        match (self, other) {
            (Value::Number(a), Value::Number(b)) => {
                let (a, b) = (*a, *b);
                match operator {
                    BinaryOperator::Mul | BinaryOperator::Or => match a.checked_mul(b) {
                        Some(n) => Some(Value::Number(n)),
                        None => None,
                    },
                    BinaryOperator::Add => match a.checked_add(b) {
                        Some(n) => Some(Value::Number(n)),
                        None => None,
                    },
                    BinaryOperator::Sub => match a.checked_sub(b) {
                        Some(n) => Some(Value::Number(n)),
                        None => None,
                    },
                    BinaryOperator::Div => match a.checked_div(b) {
                        Some(n) => {
                            assert(n as int == trunc_div(a as int, b as int));
                            Some(Value::Number(n))
                        },
                        None => {
                            assert(b == 0 || !in_number_range(trunc_div(a as int, b as int)));
                            None
                        },
                    },
                    BinaryOperator::Eq => Some(Value::Boolean(a == b)),
                    BinaryOperator::Neq => Some(Value::Boolean(a != b)),
                    BinaryOperator::Leq | BinaryOperator::Geq => Some(Value::Boolean(a <= b)),
                    BinaryOperator::Lt | BinaryOperator::Gt => Some(Value::Boolean(a < b)),
                }
            },
            (Value::Number(a), Value::String(t)) => match operator {
                BinaryOperator::Mul => match repeat(t, *a) {
                    Some(s) => Some(Value::String(s)),
                    None => None,
                },
                BinaryOperator::Add => Some(Value::String(join(&int_to_text(*a), t))),
                _ => None,
            },
            (Value::String(t), Value::Number(b)) => match operator {
                BinaryOperator::Mul => match repeat(t, *b) {
                    Some(s) => Some(Value::String(s)),
                    None => None,
                },
                BinaryOperator::Add => Some(Value::String(join(t, &int_to_text(*b)))),
                _ => None,
            },
            (Value::String(t), Value::String(u)) => match operator {
                BinaryOperator::Add => Some(Value::String(join(t, u))),
                BinaryOperator::Eq => {
                    let e = t.eq(u);
                    Some(Value::Boolean(e))
                },
                BinaryOperator::Neq => {
                    let e = t.eq(u);
                    Some(Value::Boolean(!e))
                },
                _ => None,
            },
            (Value::Boolean(a), Value::Boolean(b)) => {
                let (a, b) = (*a, *b);
                match operator {
                    BinaryOperator::Or => Some(Value::Boolean(a || b)),
                    BinaryOperator::Eq => Some(Value::Boolean(a == b)),
                    BinaryOperator::Neq => Some(Value::Boolean(a != b)),
                    BinaryOperator::Leq => Some(Value::Boolean(!a || b)),
                    BinaryOperator::Lt => Some(Value::Boolean(!a && b)),
                    BinaryOperator::Geq => Some(Value::Boolean(a || !b)),
                    BinaryOperator::Gt => Some(Value::Boolean(a && !b)),
                    _ => None,
                }
            },
            _ => None,
        }
    }

    /// Display text: `()`, the decimal number, `true` / `false`, or the raw string.
    pub fn to_text(&self) -> (r: String)
        ensures
            r@ == value_text(self@),
    {
        match self {
            Value::NoVal => {
                proof { reveal_strlit("()"); }
                String::from_str("()")
            },
            Value::Number(n) => int_to_text(*n),
            Value::Boolean(b) => if *b {
                proof { reveal_strlit("true"); }
                String::from_str("true")
            } else {
                proof { reveal_strlit("false"); }
                String::from_str("false")
            },
            Value::String(s) => s.clone(),
        }
    }
}

} // verus!
