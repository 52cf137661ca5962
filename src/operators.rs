use vstd::prelude::*;

verus! {

/// Prefix operators.
#[derive(Clone, Copy, Debug, PartialEq, Eq, Structural)]
pub enum UnaryOperator {
    Neg,
    Bang,
}

/// Infix operators, from the multiplicative level up to logical or.
#[derive(Clone, Copy, Debug, PartialEq, Eq, Structural)]
pub enum BinaryOperator {
    Mul,
    Add,
    Div,
    Sub,
    Or,
    Eq,
    Neq,
    Leq,
    Lt,
    Geq,
    Gt,
}

/// Canonical textual form of an infix operator.
pub open spec fn binary_symbol(op: BinaryOperator) -> Seq<char> {
    match op {
        BinaryOperator::Mul => seq!['*'],
        BinaryOperator::Add => seq!['+'],
        BinaryOperator::Div => seq!['/'],
        BinaryOperator::Sub => seq!['-'],
        BinaryOperator::Or => seq!['|', '|'],
        BinaryOperator::Eq => seq!['=', '='],
        BinaryOperator::Neq => seq!['!', '=', '='],
        BinaryOperator::Leq => seq!['<', '='],
        BinaryOperator::Lt => seq!['<'],
        BinaryOperator::Geq => seq!['>', '='],
        BinaryOperator::Gt => seq!['>'],
    }
}

/// Canonical textual form of a prefix operator.
pub open spec fn unary_symbol(op: UnaryOperator) -> Seq<char> {
    match op {
        UnaryOperator::Neg => seq!['-'],
        UnaryOperator::Bang => seq!['!'],
    }
}

impl BinaryOperator {
    /// The operator as it is written in source text.
    pub fn symbol(&self) -> (r: &'static str)
        ensures
            r@ == binary_symbol(*self),
    {
        match self {
            BinaryOperator::Mul => {
                proof { reveal_strlit("*"); }
                "*"
            },
            BinaryOperator::Add => {
                proof { reveal_strlit("+"); }
                "+"
            },
            BinaryOperator::Div => {
                proof { reveal_strlit("/"); }
                "/"
            },
            BinaryOperator::Sub => {
                proof { reveal_strlit("-"); }
                "-"
            },
            BinaryOperator::Or => {
                proof { reveal_strlit("||"); }
                "||"
            },
            BinaryOperator::Eq => {
                proof { reveal_strlit("=="); }
                "=="
            },
            BinaryOperator::Neq => {
                proof { reveal_strlit("!=="); }
                "!=="
            },
            BinaryOperator::Leq => {
                proof { reveal_strlit("<="); }
                "<="
            },
            BinaryOperator::Lt => {
                proof { reveal_strlit("<"); }
                "<"
            },
            BinaryOperator::Geq => {
                proof { reveal_strlit(">="); }
                ">="
            },
            BinaryOperator::Gt => {
                proof { reveal_strlit(">"); }
                ">"
            },
        }
    }
}

impl UnaryOperator {
    /// The operator as it is written in source text.
    pub fn symbol(&self) -> (r: &'static str)
        ensures
            r@ == unary_symbol(*self),
    {
        match self {
            UnaryOperator::Neg => {
                proof { reveal_strlit("-"); }
                "-"
            },
            UnaryOperator::Bang => {
                proof { reveal_strlit("!"); }
                "!"
            },
        }
    }
}

} // verus!
