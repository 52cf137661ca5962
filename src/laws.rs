use vstd::prelude::*;

use crate::env::{scopes_assign, scopes_lookup, Scopes};
use crate::expr::SpecExpr;
use crate::interp::{binop_outcome, eval, eval_all, unop_outcome, Fault};
use crate::operators::{unary_symbol, BinaryOperator, UnaryOperator};
use crate::value::{truthy_spec, SpecValue};
use crate::expr::expr_text;
use crate::grammar::{match_op, p_call, p_expr, p_level, p_list, p_primary, p_rest, p_unary, parse_spec};
use crate::lexical::{
    digit_run, digits_value, has_at, ident_run, ident_spec, is_digit, num_spec, str_body,
    string_spec, ws_len,
};
use crate::text::{digit_char, int_text, nat_text};

verus! {

proof fn lemma_unbound_not_assignable(s: Scopes, x: Seq<char>, v: SpecValue)
    requires
        scopes_lookup(s, x) is None,
    ensures
        scopes_assign(s, x, v) is None,
    decreases s.len(),
{
    if s.len() > 0 {
        lemma_unbound_not_assignable(s.drop_first(), x, v);
    }
}

/// Assignment never declares: assigning a number to a name that no scope
/// binds fails with an undeclared-variable fault for that name and leaves
/// every scope as it was.
pub proof fn law_assignment_requires_declaration(x: Seq<char>, n: int, env: Scopes)
    requires
        scopes_lookup(env, x) is None,
    ensures
        eval(SpecExpr::Assignement(x, Box::new(SpecExpr::Value(n))), env) == (
            Err::<SpecValue, Fault>(Fault::UndeclaredVar(x)),
            env,
        ),
{
    lemma_unbound_not_assignable(env, x, SpecValue::Number(n));
    assert(eval(SpecExpr::Value(n), env) == (Ok::<SpecValue, Fault>(SpecValue::Number(n)), env));
}

/// The absent value takes part in no operation: it has no truthiness, and
/// every binary operation with it on either side and every prefix operation
/// on it fails.
pub proof fn law_no_value_takes_no_part(op: BinaryOperator, u: UnaryOperator, v: SpecValue)
    ensures
        truthy_spec(SpecValue::NoVal) is None,
        binop_outcome(SpecValue::NoVal, op, v) == Err::<SpecValue, Fault>(
            Fault::InvalidBinop(SpecValue::NoVal, v, op),
        ),
        binop_outcome(v, op, SpecValue::NoVal) == Err::<SpecValue, Fault>(
            Fault::InvalidBinop(v, SpecValue::NoVal, op),
        ),
        unop_outcome(u, SpecValue::NoVal) == Err::<SpecValue, Fault>(
            Fault::InvalidUnop(SpecValue::NoVal),
        ),
{
}

/// The empty string and zero are falsy; other strings and numbers are truthy.
pub proof fn law_truthiness(s: Seq<char>, n: int)
    ensures
        truthy_spec(SpecValue::Str(s)) == Some(s.len() != 0),
        truthy_spec(SpecValue::Number(n)) == Some(n != 0),
        truthy_spec(SpecValue::Str(Seq::empty())) == Some(false),
        truthy_spec(SpecValue::Number(0)) == Some(false),
{
}

/// Statements run in order against one scope chain: once the statement at
/// index `k - 1` fails, the program fails with that fault and its scopes are
/// those at the failure, whatever statements follow; the assignments made
/// before it stay.
pub proof fn law_failure_stops_program(es: Seq<SpecExpr>, k: int, env: Scopes)
    requires
        0 <= k <= es.len(),
        eval_all(es.take(k), env).0 is Err,
    ensures
        eval_all(es, env) == eval_all(es.take(k), env),
    decreases es.len() - k,
{
    if k < es.len() {
        assert(es.take(k + 1).drop_last() =~= es.take(k));
        law_failure_stops_program(es, k + 1, env);
    } else {
        assert(es.take(k) =~= es);
    }
}

/// A statement sees the scopes that the statements before it left: running
/// one more statement evaluates it against the scopes after the others.
pub proof fn law_statements_share_scopes(es: Seq<SpecExpr>, e: SpecExpr, env: Scopes)
    requires
        eval_all(es, env).0 is Ok,
    ensures
        eval_all(es.push(e), env).1 == eval(e, eval_all(es, env).1).1,
{
    assert(es.push(e).drop_last() =~= es);
}

/// How a string is written in source: between quotes, each quote escaped
/// with a backslash.
pub open spec fn escape(t: Seq<char>) -> Seq<char>
    decreases t.len(),
{
    if t.len() == 0 {
        Seq::empty()
    } else {
        (if t[0] == '"' {
            seq!['\\', '"']
        } else {
            seq![t[0]]
        }) + escape(t.drop_first())
    }
}

/// The source text of a string value.
pub open spec fn string_source(t: Seq<char>) -> Seq<char> {
    seq!['"'] + escape(t) + seq!['"']
}

/// The source text of a boolean value.
pub open spec fn bool_source(b: bool) -> Seq<char> {
    if b {
        seq!['t', 'r', 'u', 'e']
    } else {
        seq!['f', 'a', 'l', 's', 'e']
    }
}

proof fn lemma_digit_char(d: nat)
    requires
        d < 10,
    ensures
        is_digit(digit_char(d)),
        digit_char(d) as int - '0' as int == d,
{
    assert(d == 0 || d == 1 || d == 2 || d == 3 || d == 4 || d == 5 || d == 6 || d == 7 || d == 8
        || d == 9);
}

proof fn lemma_nat_text(m: nat)
    ensures
        nat_text(m).len() >= 1,
        forall|i: int| 0 <= i < nat_text(m).len() ==> is_digit(#[trigger] nat_text(m)[i]),
        digits_value(nat_text(m)) == m,
        m >= 1 ==> nat_text(m)[0] != '0',
    decreases m,
{
    lemma_digit_char(m % 10);
    if m < 10 {
        assert(nat_text(m).drop_last() =~= Seq::<char>::empty());
        assert(m % 10 == m);
        assert(nat_text(m).last() == digit_char(m));
        assert(digits_value(Seq::<char>::empty()) == 0);
        assert(digits_value(nat_text(m)) == digits_value(nat_text(m).drop_last()) * 10 + (
        nat_text(m).last() as int - '0' as int));
    } else {
        lemma_nat_text(m / 10);
        let t = nat_text(m / 10);
        assert(nat_text(m).drop_last() =~= t);
        assert(nat_text(m)[0] == t[0]);
        assert(forall|i: int| 0 <= i < t.len() ==> nat_text(m)[i] == #[trigger] t[i]);
        assert((m / 10) * 10 + m % 10 == m);
        assert(nat_text(m).last() == digit_char(m % 10));
        assert(digits_value(nat_text(m)) == digits_value(t) * 10 + (digit_char(m % 10) as int
            - '0' as int));
    }
}

proof fn lemma_digit_run_full(s: Seq<char>, p: int)
    requires
        0 <= p <= s.len(),
        forall|i: int| p <= i < s.len() ==> is_digit(#[trigger] s[i]),
    ensures
        digit_run(s, p) == s.len() - p,
    decreases s.len() - p,
{
    if p < s.len() {
        lemma_digit_run_full(s, p + 1);
    }
}

proof fn lemma_ident_run_full(s: Seq<char>, p: int)
    requires
        0 <= p <= s.len(),
        forall|i: int| p <= i < s.len() ==> ('a' <= #[trigger] s[i] <= 'z'),
    ensures
        ident_run(s, p) == s.len() - p,
    decreases s.len() - p,
{
    if p < s.len() {
        lemma_ident_run_full(s, p + 1);
    }
}

proof fn lemma_not_at(s: Seq<char>, p: int, lit: Seq<char>)
    requires
        0 <= p < s.len(),
        lit.len() >= 1,
        s[p] != lit[0],
    ensures
        !has_at(s, p, lit),
{
    if has_at(s, p, lit) {
        assert(s.subrange(p, p + lit.len())[0] == s[p]);
    }
}

proof fn lemma_at_end(s: Seq<char>, lit: Seq<char>)
    requires
        lit.len() >= 1,
    ensures
        !has_at(s, s.len() as int, lit),
        ws_len(s, s.len() as int) == 0,
{
}

/// A unary expression that runs to the end of the input is also a whole
/// expression of every binary level.
proof fn lemma_levels_to_end(s: Seq<char>, p: int, n: nat, e: SpecExpr, d: nat)
    requires
        p_unary(s, p) == Some((n, e)),
        p + n == s.len(),
        d <= 5,
    ensures
        p_level(s, p, d) == Some((n, e)),
    decreases d,
{
    lemma_at_end(s, seq!['|', '|']);
    assert(match_op(s, s.len() as int, d) is None);
    assert(p_rest(s, s.len() as int, d, e) == (0nat, e));
    if d > 0 {
        lemma_levels_to_end(s, p, n, e, (d - 1) as nat);
    }
}

/// A literal that the primary rule reads whole, starting at a character that
/// is neither whitespace nor a prefix operator, is a program of one statement.
proof fn lemma_whole_program(s: Seq<char>, e: SpecExpr)
    requires
        s.len() >= 1,
        ws_len(s, 0) == 0,
        p_unary(s, 0) == Some((s.len() as nat, e)),
        ident_spec(s, 0) is None || ident_spec(s, 0) == Some((s.len() as nat, s)),
    ensures
        parse_spec(s) == Some(seq![e]),
{
    lemma_at_end(s, seq!['=']);
    lemma_at_end(s, seq![';']);
    lemma_levels_to_end(s, 0, s.len() as nat, e, 5);
    assert(p_expr(s, 0) == Some((s.len() as nat, e)));
    assert(p_list(s, 0, true) == (s.len() as nat, seq![e]));
}

/// A primary read whole from `p`, not preceded by a prefix operator, is also
/// the unary expression at `p`.
proof fn lemma_primary_to_unary(s: Seq<char>, p: int, e: SpecExpr)
    requires
        0 <= p < s.len(),
        s[p] != '!' && s[p] != '-' && s[p] != ' ' && s[p] != '\t' && s[p] != '\n' && s[p] != '\r',
        p_primary(s, p) == Some(((s.len() - p) as nat, e)),
    ensures
        p_unary(s, p) == Some(((s.len() - p) as nat, e)),
{
    lemma_at_end(s, seq![':', '>']);
    assert(ws_len(s, p) == 0);
    assert(p_call(s, p) == Some(((s.len() - p) as nat, e)));
}

proof fn lemma_number_primary(s: Seq<char>, p: int, m: nat)
    requires
        0 <= p < s.len(),
        m <= i64::MAX,
        s.subrange(p, s.len() as int) == nat_text(m),
    ensures
        p_primary(s, p) == Some(((s.len() - p) as nat, SpecExpr::Value(m as int))),
{
    lemma_nat_text(m);
    let t = nat_text(m);
    assert forall|i: int| p <= i < s.len() implies is_digit(#[trigger] s[i]) by {
        assert(s[i] == s.subrange(p, s.len() as int)[i - p]);
        assert(is_digit(t[i - p]));
    }
    lemma_at_end(s, seq!['(']);
    assert(ws_len(s, p) == 0);
    lemma_not_at(s, p, seq!['(']);
    lemma_not_at(s, p, seq!['t', 'r', 'u', 'e']);
    lemma_not_at(s, p, seq!['f', 'a', 'l', 's', 'e']);
    if s[p] == '0' {
        assert(m == 0);
        assert(s.subrange(p, p + 1) =~= t);
    } else {
        lemma_digit_run_full(s, p);
        assert(s.subrange(p, p + digit_run(s, p)) =~= t);
    }
    assert(num_spec(s, p) == Some(((s.len() - p) as nat, m as int)));
}

/// Round trip of numbers: the decimal text of any number but the most
/// negative parses to one expression that displays as that same text and
/// evaluates to that number.
#[verifier::rlimit(100)]
pub proof fn law_number_round_trip(n: int, env: Scopes)
    requires
        i64::MIN < n <= i64::MAX,
    ensures
        parse_spec(int_text(n)) is Some,
        parse_spec(int_text(n))->Some_0.len() == 1,
        expr_text(parse_spec(int_text(n))->Some_0[0]) == int_text(n),
        eval(parse_spec(int_text(n))->Some_0[0], env) == (
            Ok::<SpecValue, Fault>(SpecValue::Number(n)),
            env,
        ),
{
    let s = int_text(n);
    if n >= 0 {
        let m = n as nat;
        lemma_nat_text(m);
        assert(s.subrange(0, s.len() as int) =~= nat_text(m));
        lemma_number_primary(s, 0, m);
        lemma_primary_to_unary(s, 0, SpecExpr::Value(n));
        lemma_whole_program(s, SpecExpr::Value(n));
        assert(expr_text(SpecExpr::Value(n)) == int_text(n));
    } else {
        let m = (-n) as nat;
        lemma_nat_text(m);
        assert(s.subrange(1, s.len() as int) =~= nat_text(m));
        assert(is_digit(s[1]));
        lemma_number_primary(s, 1, m);
        lemma_primary_to_unary(s, 1, SpecExpr::Value(m as int));
        let e = SpecExpr::Unary(UnaryOperator::Neg, Box::new(SpecExpr::Value(m as int)));
        assert(ws_len(s, 0) == 0);
        assert(p_unary(s, 0) == Some((s.len() as nat, e)));
        lemma_whole_program(s, e);
        assert(expr_text(SpecExpr::Value(m as int)) == nat_text(m));
        assert(expr_text(e) == unary_symbol(UnaryOperator::Neg) + nat_text(m));
        assert(int_text(n) == seq!['-'] + nat_text(m));
        assert(expr_text(e) =~= int_text(n));
        assert(eval(SpecExpr::Value(m as int), env) == (
            Ok::<SpecValue, Fault>(SpecValue::Number(m as int)),
            env,
        ));
    }
}

/// Round trip of booleans: `true` and `false` parse to one literal that
/// displays as the same text.
#[verifier::rlimit(100)]
pub proof fn law_bool_round_trip(b: bool, env: Scopes)
    ensures
        parse_spec(bool_source(b)) == Some(seq![SpecExpr::Bool(b)]),
        expr_text(SpecExpr::Bool(b)) == bool_source(b),
        eval(SpecExpr::Bool(b), env) == (Ok::<SpecValue, Fault>(SpecValue::Boolean(b)), env),
{
    let s = bool_source(b);
    lemma_at_end(s, seq!['(']);
    lemma_ident_run_full(s, 1);
    assert(s.subrange(0, s.len() as int) =~= s);
    assert(ident_spec(s, 0) == Some((s.len() as nat, s)));
    assert(ws_len(s, 0) == 0);
    if b {
        assert(s.subrange(0, 4) =~= seq!['t', 'r', 'u', 'e']);
    } else {
        assert(s.subrange(0, 4) !~= seq!['t', 'r', 'u', 'e']) by {
            assert(s.subrange(0, 4)[0] != 't');
        }
        assert(s.subrange(0, 5) =~= seq!['f', 'a', 'l', 's', 'e']);
    }
    assert(p_primary(s, 0) == Some((s.len() as nat, SpecExpr::Bool(b))));
    lemma_primary_to_unary(s, 0, SpecExpr::Bool(b));
    lemma_whole_program(s, SpecExpr::Bool(b));
}

proof fn lemma_escaped_body(s: Seq<char>, p: int, t: Seq<char>)
    requires
        0 <= p,
        p + escape(t).len() < s.len(),
        s.subrange(p, p + escape(t).len()) == escape(t),
        s[p + escape(t).len()] == '"',
        forall|i: int| 0 <= i < t.len() ==> #[trigger] t[i] != '\\',
    ensures
        str_body(s, p) == (escape(t).len(), t),
    decreases t.len(),
{
    let k = escape(t).len();
    if t.len() == 0 {
        assert(s[p] == '"');
    } else {
        let rest = t.drop_first();
        let head = if t[0] == '"' {
            seq!['\\', '"']
        } else {
            seq![t[0]]
        };
        assert(escape(t) == head + escape(rest));
        assert(forall|i: int| 0 <= i < rest.len() ==> #[trigger] rest[i] == t[i + 1]);
        assert(s.subrange(p + head.len(), p + k) =~= escape(rest)) by {
            assert(forall|i: int|
                0 <= i < escape(rest).len() ==> #[trigger] s.subrange(p + head.len(), p + k)[i]
                    == escape(t)[head.len() + i]);
        }
        assert(s[p] == escape(t)[0]);
        lemma_escaped_body(s, p + head.len(), rest);
        if t[0] == '"' {
            assert(s[p + 1] == escape(t)[1]);
            assert(seq!['"'] + rest =~= t);
        } else {
            assert(seq![t[0]] + rest =~= t);
        }
    }
}

#[verifier::rlimit(100)]
proof fn lemma_string_primary(t: Seq<char>)
    requires
        forall|i: int| 0 <= i < t.len() ==> #[trigger] t[i] != '\\',
    ensures
        p_primary(string_source(t), 0) == Some((string_source(t).len() as nat, SpecExpr::Str(t))),
        ws_len(string_source(t), 0) == 0,
        ident_spec(string_source(t), 0) is None,
{
    let s = string_source(t);
    let k = escape(t).len() as int;
    assert(s.subrange(1, 1 + k) =~= escape(t));
    assert(s[1 + k] == '"');
    lemma_escaped_body(s, 1, t);
    lemma_at_end(s, seq!['(']);
    assert(ws_len(s, 0) == 0);
    assert(s[0] == '"');
    lemma_not_at(s, 0, seq!['(']);
    lemma_not_at(s, 0, seq!['t', 'r', 'u', 'e']);
    lemma_not_at(s, 0, seq!['f', 'a', 'l', 's', 'e']);
    assert(num_spec(s, 0) is None);
    assert(string_spec(s, 0) == Some((s.len() as nat, t)));
    assert(p_primary(s, 0) == Some((s.len() as nat, SpecExpr::Str(t))));
}

/// Round trip of strings: a string without backslashes, written between
/// quotes with its quotes escaped, parses to one literal holding that string,
/// whose display is the string itself.
pub proof fn law_string_round_trip(t: Seq<char>, env: Scopes)
    requires
        forall|i: int| 0 <= i < t.len() ==> #[trigger] t[i] != '\\',
    ensures
        parse_spec(string_source(t)) == Some(seq![SpecExpr::Str(t)]),
        expr_text(SpecExpr::Str(t)) == t,
        eval(SpecExpr::Str(t), env) == (Ok::<SpecValue, Fault>(SpecValue::Str(t)), env),
{
    let s = string_source(t);
    lemma_string_primary(t);
    lemma_primary_to_unary(s, 0, SpecExpr::Str(t));
    lemma_whole_program(s, SpecExpr::Str(t));
}

} // verus!
