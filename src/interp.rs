use vstd::prelude::*;

use crate::env::{scopes_assign, scopes_lookup, Env, Scopes};
use crate::expr::{Expr, SpecExpr};
use crate::operators::{BinaryOperator, UnaryOperator};
use crate::value::{binop_spec, number_result, truthy_spec, SpecValue, Value};

verus! {

/// Why evaluation failed.
#[derive(Debug, PartialEq)]
pub enum InterpErrorReason {
    UndeclaredVar(String),
    InvalidUnop(Value),
    InvalidBinop(Value, Value, BinaryOperator),
    NoValOperation,
}

/// The model of an [`InterpErrorReason`].
pub enum Fault {
    UndeclaredVar(Seq<char>),
    InvalidUnop(SpecValue),
    InvalidBinop(SpecValue, SpecValue, BinaryOperator),
    NoValOperation,
}

impl View for InterpErrorReason {
    type V = Fault;

    open spec fn view(&self) -> Fault {
        match self {
            InterpErrorReason::UndeclaredVar(x) => Fault::UndeclaredVar(x@),
            InterpErrorReason::InvalidUnop(v) => Fault::InvalidUnop(v@),
            InterpErrorReason::InvalidBinop(a, b, op) => Fault::InvalidBinop(a@, b@, *op),
            InterpErrorReason::NoValOperation => Fault::NoValOperation,
        }
    }
}

/// What a runtime error is attached to: the expression that failed, or a value
/// operation.
#[derive(Debug, PartialEq)]
pub enum InterpErrorSource {
    ExprErr(Expr),
    ValueErr,
}

/// A runtime error: its reason and where it came from.
#[derive(Debug, PartialEq)]
pub struct InterpError {
    source: InterpErrorSource,
    reason: InterpErrorReason,
}

impl View for InterpError {
    type V = Fault;

    closed spec fn view(&self) -> Fault {
        self.reason@
    }
}

impl InterpError {
    /// An error attached to the expression that failed.
    pub fn expr(source: Expr, reason: InterpErrorReason) -> (r: Self)
        ensures
            r@ == reason@,
            r.source() == InterpErrorSource::ExprErr(source),
    {
        InterpError { source: InterpErrorSource::ExprErr(source), reason }
    }

    /// An error of an operation on values.
    pub fn value(reason: InterpErrorReason) -> (r: Self)
        ensures
            r@ == reason@,
            r.source() is ValueErr,
    {
        InterpError { source: InterpErrorSource::ValueErr, reason }
    }

    pub closed spec fn source(&self) -> InterpErrorSource {
        self.source
    }

    /// Why evaluation failed.
    pub fn reason(&self) -> (r: &InterpErrorReason)
        ensures
            r@ == self@,
    {
        &self.reason
    }

    /// What the error is attached to.
    pub fn origin(&self) -> (r: &InterpErrorSource)
        ensures
            *r == self.source(),
    {
        &self.source
    }
}

/// A binary operation as evaluation sees it: the table's result, or an
/// invalid-operation fault naming both operands.
pub open spec fn binop_outcome(l: SpecValue, op: BinaryOperator, r: SpecValue) -> Result<SpecValue, Fault> {
    match binop_spec(l, op, r) {
        Some(v) => Ok(v),
        None => Err(Fault::InvalidBinop(l, r, op)),
    }
}

/// A prefix operation: negation of a number in range, negation of a boolean.
pub open spec fn unop_outcome(op: UnaryOperator, v: SpecValue) -> Result<SpecValue, Fault> {
    match (op, v) {
        (UnaryOperator::Neg, SpecValue::Number(n)) => match number_result(-n) {
            Some(r) => Ok(r),
            None => Err(Fault::InvalidUnop(v)),
        },
        (UnaryOperator::Bang, SpecValue::Boolean(b)) => Ok(SpecValue::Boolean(!b)),
        _ => Err(Fault::InvalidUnop(v)),
    }
}

/// Evaluation of a tree against a scope chain: the outcome and the scopes after.
///
/// Operands are evaluated left to right; an assignment evaluates its value
/// first and then needs a scope that already binds the name; a call evaluates
/// to its callee.
pub open spec fn eval(e: SpecExpr, env: Scopes) -> (Result<SpecValue, Fault>, Scopes)
    decreases e,
{
    match e {
        SpecExpr::Str(s) => (Ok(SpecValue::Str(s)), env),
        SpecExpr::Value(n) => (Ok(SpecValue::Number(n)), env),
        SpecExpr::Bool(b) => (Ok(SpecValue::Boolean(b)), env),
        SpecExpr::Assignement(x, v) => {
            let (r, env1) = eval(*v, env);
            match r {
                Err(f) => (Err(f), env1),
                Ok(val) => match scopes_assign(env1, x, val) {
                    Some(env2) => (Ok(val), env2),
                    None => (Err(Fault::UndeclaredVar(x)), env1),
                },
            }
        },
        SpecExpr::Binary(op, a, b) => {
            let (ra, env1) = eval(*a, env);
            match ra {
                Err(f) => (Err(f), env1),
                Ok(va) => {
                    let (rb, env2) = eval(*b, env1);
                    match rb {
                        Err(f) => (Err(f), env2),
                        Ok(vb) => (binop_outcome(va, op, vb), env2),
                    }
                },
            }
        },
        SpecExpr::Ident(x) => (
            match scopes_lookup(env, x) {
                Some(v) => Ok(v),
                None => Err(Fault::UndeclaredVar(x)),
            },
            env,
        ),
        SpecExpr::Unary(op, a) => {
            let (ra, env1) = eval(*a, env);
            match ra {
                Err(f) => (Err(f), env1),
                Ok(v) => (unop_outcome(op, v), env1),
            }
        },
        SpecExpr::Call(f, _) => eval(*f, env),
    }
}

/// Evaluation of a program, statement after statement against one scope
/// chain; the first failure ends it.
pub open spec fn eval_all(es: Seq<SpecExpr>, env: Scopes) -> (Result<Seq<SpecValue>, Fault>, Scopes)
    decreases es.len(),
{
    if es.len() == 0 {
        (Ok(Seq::empty()), env)
    } else {
        let (r, env1) = eval_all(es.drop_last(), env);
        match r {
            Err(f) => (Err(f), env1),
            Ok(vs) => {
                let (rl, env2) = eval(es.last(), env1);
                match rl {
                    Err(f) => (Err(f), env2),
                    Ok(v) => (Ok(vs.push(v)), env2),
                }
            },
        }
    }
}

/// The model of an evaluation result.
pub open spec fn outcome_of(r: Result<Value, InterpError>) -> Result<SpecValue, Fault> {
    match r {
        Ok(v) => Ok(v@),
        Err(e) => Err(e@),
    }
}

impl Value {
    /// Applies the operator-overload table; an undefined combination fails
    /// with an invalid-operation error naming both operands.
    pub fn apply_binop(self, operator: BinaryOperator, other: Value) -> (r: Result<Value, InterpError>)
        ensures
            outcome_of(r) == binop_outcome(self@, operator, other@),
    {
        match self.combine(operator, &other) {
            Some(v) => Ok(v),
            None => Err(InterpError::value(InterpErrorReason::InvalidBinop(self, other, operator))),
        }
    }

    /// Applies a prefix operator.
    pub fn apply_unop(self, operator: UnaryOperator) -> (r: Result<Value, InterpError>)
        ensures
            outcome_of(r) == unop_outcome(operator, self@),
    {
        match (operator, &self) {
            (UnaryOperator::Neg, Value::Number(n)) => if *n == i64::MIN {
                Err(InterpError::value(InterpErrorReason::InvalidUnop(self)))
            } else {
                Ok(Value::Number(-*n))
            },
            (UnaryOperator::Bang, Value::Boolean(b)) => Ok(Value::Boolean(!*b)),
            _ => Err(InterpError::value(InterpErrorReason::InvalidUnop(self))),
        }
    }

    /// Truthiness: a number is truthy when nonzero, a string when non-empty,
    /// a boolean is itself; `NoVal` fails.
    pub fn is_truthy(&self) -> (r: Result<bool, InterpError>)
        ensures
            match truthy_spec(self@) {
                Some(b) => r == Ok::<bool, InterpError>(b),
                None => r is Err && r->Err_0@ == Fault::NoValOperation,
            },
    {
        match self {
            Value::NoVal => Err(InterpError::value(InterpErrorReason::NoValOperation)),
            Value::Number(n) => Ok(*n != 0),
            Value::Boolean(b) => Ok(*b),
            Value::String(s) => {
                let len = s.as_str().unicode_len();
                Ok(len != 0)
            },
        }
    }
}

impl Expr {
    /// Evaluates this tree against `env`, which carries the effect of every
    /// assignment made before a failure.
    pub fn interp(&self, env: &mut Env) -> (r: Result<Value, InterpError>)
        ensures
            (outcome_of(r), final(env)@) == eval(self@, old(env)@),
        decreases self@,
    {
        match self {
            Expr::Str(s) => Ok(Value::String(s.clone())),
            Expr::Value(n) => Ok(Value::Number(*n)),
            Expr::Bool(b) => Ok(Value::Boolean(*b)),
            Expr::Assignement(id, value) => {
                proof { crate::expr::lemma_child_decreases(self, &**value); }
                let interpreted = match (**value).interp(env) {
                    Ok(v) => v,
                    Err(e) => return Err(e),
                };
                let kept = interpreted.duplicate();
                if !env.assign(id.clone(), interpreted) {
                    return Err(
                        InterpError::expr(
                            Expr::Assignement(id.clone(), Box::new((**value).duplicate())),
                            InterpErrorReason::UndeclaredVar(id.clone()),
                        ),
                    );
                }
                Ok(kept)
            },
            Expr::Binary(op, first, sec) => {
                proof {
                    crate::expr::lemma_child_decreases(self, &**first);
                    crate::expr::lemma_child_decreases(self, &**sec);
                }
                let a = match (**first).interp(env) {
                    Ok(v) => v,
                    Err(e) => return Err(e),
                };
                let b = match (**sec).interp(env) {
                    Ok(v) => v,
                    Err(e) => return Err(e),
                };
                a.apply_binop(*op, b)
            },
            Expr::Ident(id) => env.get_ident_value(id),
            Expr::Unary(op, operand) => {
                proof { crate::expr::lemma_child_decreases(self, &**operand); }
                let v = match (**operand).interp(env) {
                    Ok(v) => v,
                    Err(e) => return Err(e),
                };
                v.apply_unop(*op)
            },
            Expr::Call(callee, _) => {
                proof { crate::expr::lemma_child_decreases(self, &**callee); }
                (**callee).interp(env)
            },
        }
    }
}

/// Evaluates a program statement by statement against one scope chain,
/// stopping at the first failure; `env` keeps the assignments made until then.
pub fn interpret_all(program: &Vec<Expr>, env: &mut Env) -> (r: Result<Vec<Value>, InterpError>)
    ensures
        ({
            let (expected, after) = eval_all(program@.map_values(|e: Expr| e@), old(env)@);
            &&& final(env)@ == after
            &&& match r {
                Ok(vs) => expected is Ok && vs@.map_values(|v: Value| v@) == expected->Ok_0,
                Err(e) => expected is Err && e@ == expected->Err_0,
            }
        }),
{
    let ghost models = program@.map_values(|e: Expr| e@);
    let mut values: Vec<Value> = Vec::new();
    let mut i: usize = 0;
    proof {
        assert(models.take(0) =~= Seq::<SpecExpr>::empty());
        assert(values@.map_values(|v: Value| v@) =~= Seq::<SpecValue>::empty());
    }
    while i < program.len()
        invariant
            i <= program.len(),
            models == program@.map_values(|e: Expr| e@),
            eval_all(models.take(i as int), old(env)@) == (
                Ok::<Seq<SpecValue>, Fault>(values@.map_values(|v: Value| v@)),
                env@,
            ),
        decreases program.len() - i,
    {
        proof {
            assert(models.take(i + 1).drop_last() =~= models.take(i as int));
            assert(models.take(i + 1).last() == program@[i as int]@);
        }
        let ghost before = env@;
        let ghost prev = values@;
        match program[i].interp(env) {
            Ok(v) => {
                values.push(v);
                proof {
                    assert(values@.drop_last() =~= prev);
                    assert(values@.map_values(|v: Value| v@) =~= prev.map_values(|v: Value| v@).push(
                        values@.last()@,
                    ));
                }
            },
            Err(e) => {
                proof {
                    crate::laws::law_failure_stops_program(models, i as int + 1, old(env)@);
                }
                return Err(e);
            },
        }
        i = i + 1;
    }
    proof {
        assert(models.take(i as int) =~= models);
    }
    Ok(values)
}

} // verus!
