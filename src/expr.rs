use vstd::prelude::*;
use vstd::string::StringExecFns;

use crate::operators::{binary_symbol, unary_symbol, BinaryOperator, UnaryOperator};
use crate::text::{int_text, int_to_text, join};

verus! {

/// A node of the syntax tree; each compound node owns its children.
#[derive(Debug, PartialEq)]
pub enum Expr {
    Str(String),
    Value(i64),
    Bool(bool),
    Assignement(String, Box<Expr>),
    Binary(BinaryOperator, Box<Expr>, Box<Expr>),
    Ident(String),
    Unary(UnaryOperator, Box<Expr>),
    Call(Box<Expr>, Vec<Expr>),
}

/// The mathematical model of an [`Expr`].
pub enum SpecExpr {
    Str(Seq<char>),
    Value(int),
    Bool(bool),
    Assignement(Seq<char>, Box<SpecExpr>),
    Binary(BinaryOperator, Box<SpecExpr>, Box<SpecExpr>),
    Ident(Seq<char>),
    Unary(UnaryOperator, Box<SpecExpr>),
    Call(Box<SpecExpr>, Seq<SpecExpr>),
}

/// The model of a syntax tree.
pub open spec fn expr_model(e: Expr) -> SpecExpr
    decreases e,
{
    match e {
        Expr::Str(s) => SpecExpr::Str(s@),
        Expr::Value(n) => SpecExpr::Value(n as int),
        Expr::Bool(b) => SpecExpr::Bool(b),
        Expr::Assignement(x, v) => SpecExpr::Assignement(x@, Box::new(expr_model(*v))),
        Expr::Binary(op, a, b) => SpecExpr::Binary(
            op,
            Box::new(expr_model(*a)),
            Box::new(expr_model(*b)),
        ),
        Expr::Ident(x) => SpecExpr::Ident(x@),
        Expr::Unary(op, a) => SpecExpr::Unary(op, Box::new(expr_model(*a))),
        Expr::Call(f, args) => SpecExpr::Call(
            Box::new(expr_model(*f)),
            Seq::new(
                args.len() as nat,
                |i: int|
                    if 0 <= i < args.len() {
                        expr_model(args[i])
                    } else {
                        SpecExpr::Bool(false)
                    },
            ),
        ),
    }
}

impl View for Expr {
    type V = SpecExpr;

    open spec fn view(&self) -> SpecExpr {
        expr_model(*self)
    }
}

/// Display text of a syntax tree in the grammar's notation; binary nodes are
/// parenthesized.
pub open spec fn expr_text(e: SpecExpr) -> Seq<char>
    decreases e,
{
    match e {
        SpecExpr::Str(s) => s,
        SpecExpr::Value(n) => int_text(n),
        SpecExpr::Bool(b) => if b {
            seq!['t', 'r', 'u', 'e']
        } else {
            seq!['f', 'a', 'l', 's', 'e']
        },
        SpecExpr::Assignement(x, v) => x + seq![' ', '=', ' '] + expr_text(*v),
        SpecExpr::Binary(op, a, b) => seq!['('] + expr_text(*a) + seq![' '] + binary_symbol(op)
            + seq![' '] + expr_text(*b) + seq![')'],
        SpecExpr::Ident(x) => x,
        SpecExpr::Unary(op, a) => unary_symbol(op) + expr_text(*a),
        SpecExpr::Call(f, args) => expr_text(*f) + seq![' ', ':', '>', ' ', '('] + args_text(args)
            + seq![')'],
    }
}

/// Display text of call arguments, separated by `", "`.
pub open spec fn args_text(args: Seq<SpecExpr>) -> Seq<char>
    decreases args,
{
    if args.len() == 0 {
        Seq::empty()
    } else if args.len() == 1 {
        expr_text(args[0])
    } else {
        args_text(args.subrange(0, args.len() - 1)) + seq![',', ' '] + expr_text(
            args[args.len() - 1],
        )
    }
}

pub(crate) proof fn lemma_child_decreases(e: &Expr, c: &Expr)
    requires
        e matches Expr::Assignement(_, v) ==> *v == *c,
        e matches Expr::Binary(_, a, b) ==> *a == *c || *b == *c,
        e matches Expr::Unary(_, a) ==> *a == *c,
        e matches Expr::Call(f, _) ==> *f == *c,
        !(e is Str || e is Value || e is Bool || e is Ident),
    ensures
        decreases_to!(e@ => c@),
{
    assert(e@ == expr_model(*e));
    match *e {
        Expr::Assignement(x, v) => {
            assert(e@->Assignement_1 == Box::new(c@));
        },
        Expr::Binary(op, a, b) => {
            if *a == *c {
                assert(e@->Binary_1 == Box::new(c@));
            } else {
                assert(e@->Binary_2 == Box::new(c@));
            }
        },
        Expr::Unary(op, a) => {
            assert(e@->Unary_1 == Box::new(c@));
        },
        Expr::Call(f, args) => {
            assert(e@->Call_0 == Box::new(c@));
        },
        _ => {},
    }
}

impl Expr {
    /// A copy of this tree.
    pub fn duplicate(&self) -> (r: Expr)
        ensures
            r@ == self@,
        decreases self@,
    {
        match self {
            Expr::Str(s) => Expr::Str(s.clone()),
            Expr::Value(n) => Expr::Value(*n),
            Expr::Bool(b) => Expr::Bool(*b),
            Expr::Assignement(x, v) => {
                proof { lemma_child_decreases(self, &**v); }
                Expr::Assignement(x.clone(), Box::new((**v).duplicate()))
            },
            Expr::Binary(op, a, b) => {
                proof { lemma_child_decreases(self, &**a); }
                proof { lemma_child_decreases(self, &**b); }
                Expr::Binary(*op, Box::new((**a).duplicate()), Box::new((**b).duplicate()))
            },
            Expr::Ident(x) => Expr::Ident(x.clone()),
            Expr::Unary(op, a) => {
                proof { lemma_child_decreases(self, &**a); }
                Expr::Unary(*op, Box::new((**a).duplicate()))
            },
            Expr::Call(f, args) => {
                proof { lemma_child_decreases(self, &**f); }
                let callee = (**f).duplicate();
                let mut copies: Vec<Expr> = Vec::new();
                let mut i: usize = 0;
                while i < args.len()
                    invariant
                        *self == Expr::Call(*f, *args),
                        i <= args.len(),
                        copies.len() == i,
                        forall|j: int| 0 <= j < i ==> (#[trigger] copies@[j])@ == args@[j]@,
                    decreases args.len() - i,
                {
                    proof {
                        let m = self@->Call_1;
                        assert(m[i as int] == args@[i as int]@);
                        assert(decreases_to!(self@ => m));
                        assert(decreases_to!(m => m[i as int]));
                    }
                    copies.push(args[i].duplicate());
                    i = i + 1;
                }
                let r = Expr::Call(Box::new(callee), copies);
                assert(r@ == self@) by {
                    if let SpecExpr::Call(_, a) = r@ {
                        if let SpecExpr::Call(_, b) = self@ {
                            assert(a =~= b);
                        }
                    }
                }
                r
            },
        }
    }

    /// Display text in the grammar's notation.
    pub fn to_text(&self) -> (r: String)
        ensures
            r@ == expr_text(self@),
        decreases self@,
    {
        match self {
            Expr::Str(s) => s.clone(),
            Expr::Value(n) => int_to_text(*n),
            Expr::Bool(b) => if *b {
                proof { reveal_strlit("true"); }
                String::from_str("true")
            } else {
                proof { reveal_strlit("false"); }
                String::from_str("false")
            },
            Expr::Assignement(x, v) => {
                proof { reveal_strlit(" = "); }
                let r = x.clone().concat(" ");
                let r = r.concat("= ");
                proof { reveal_strlit("= "); reveal_strlit(" "); }
                proof { lemma_child_decreases(self, &**v); }
                let inner = (**v).to_text();
                let r = r.concat(inner.as_str());
                assert(r@ =~= expr_text(self@));
                r
            },
            Expr::Binary(op, a, b) => {
                proof { reveal_strlit("("); reveal_strlit(")"); reveal_strlit(" "); }
                proof { lemma_child_decreases(self, &**a); }
                proof { lemma_child_decreases(self, &**b); }
                let r = String::from_str("(");
                let r = r.concat((**a).to_text().as_str());
                let r = r.concat(" ");
                let r = r.concat(op.symbol());
                let r = r.concat(" ");
                let r = r.concat((**b).to_text().as_str());
                let r = r.concat(")");
                assert(r@ =~= expr_text(self@));
                r
            },
            Expr::Ident(x) => x.clone(),
            Expr::Unary(op, a) => {
                proof { lemma_child_decreases(self, &**a); }
                let r = String::from_str(op.symbol());
                let r = r.concat((**a).to_text().as_str());
                r
            },
            Expr::Call(f, args) => {
                proof { reveal_strlit(" :> ("); reveal_strlit(")"); reveal_strlit(", "); }
                let mut list = String::new();
                let mut i: usize = 0;
                let ghost models = Seq::new(args.len() as nat, |j: int| args@[j]@);
                while i < args.len()
                    invariant
                        *self == Expr::Call(*f, *args),
                        i <= args.len(),
                        models.len() == args.len(),
                        forall|j: int| 0 <= j < args.len() ==> #[trigger] models[j] == args@[j]@,
                        list@ == args_text(models.subrange(0, i as int)),
                    decreases args.len() - i,
                {
                    proof {
                        let m = self@->Call_1;
                        assert(m[i as int] == args@[i as int]@);
                        assert(decreases_to!(self@ => m));
                        assert(decreases_to!(m => m[i as int]));
                    }
                    let piece = args[i].to_text();
                    if i > 0 {
                        list = list.concat(", ");
                    }
                    list = list.concat(piece.as_str());
                    proof {
                        reveal_strlit(", ");
                        let next = models.subrange(0, i + 1);
                        assert(next.subrange(0, i as int) =~= models.subrange(0, i as int));
                        assert(next[i as int] == models[i as int]);
                        if i == 0 {
                            assert(list@ =~= expr_text(models[0]));
                        } else {
                            assert(args_text(next) == args_text(next.subrange(0, i as int)) + seq![
                                ',',
                                ' ',
                            ] + expr_text(next[i as int]));
                            assert(list@ =~= args_text(next));
                        }
                    }
                    i = i + 1;
                }
                proof { lemma_child_decreases(self, &**f); }
                let r = (**f).to_text();
                let r = r.concat(" :> (");
                let r = r.concat(list.as_str());
                let r = r.concat(")");
                proof {
                    if let SpecExpr::Call(_, a) = self@ {
                        assert(models.subrange(0, args.len() as int) =~= a);
                    }
                }
                assert(r@ =~= expr_text(self@));
                r
            },
        }
    }
}

} // verus!
