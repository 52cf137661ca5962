use vstd::prelude::*;
use vstd::string::StrSliceExecFns;

use crate::expr::{Expr, SpecExpr};
use crate::lexical::{
    has_at, ident_spec, identifier, num_literal, num_spec, remaining, skip_ws, string_literal,
    string_spec, ws_len, ParseError,
};
use crate::operators::{BinaryOperator, UnaryOperator};

verus! {

/// A parse: how many characters were consumed, and the tree built.
pub type Parsed = Option<(nat, SpecExpr)>;

/// The operators of the binary level `d`, from `d == 0` (multiplicative) up
/// to `d == 5` (logical or), in the order they are tried: the first that
/// stands at `p` is taken, so `<` and `>` take the place of `<=` and `>=`
/// (whose operand then fails to parse). `&&` builds the same node as `||`.
/// Its length and the operator.
pub open spec fn match_op(s: Seq<char>, p: int, d: nat) -> Option<(nat, BinaryOperator)> {
    if d == 5 {
        if has_at(s, p, seq!['|', '|']) { Some((2, BinaryOperator::Or)) } else { None }
    } else if d == 4 {
        if has_at(s, p, seq!['&', '&']) { Some((2, BinaryOperator::Or)) } else { None }
    } else if d == 3 {
        if has_at(s, p, seq!['=', '=']) {
            Some((2, BinaryOperator::Eq))
        } else if has_at(s, p, seq!['!', '=', '=']) {
            Some((3, BinaryOperator::Neq))
        } else {
            None
        }
    } else if d == 2 {
        if has_at(s, p, seq!['<']) {
            Some((1, BinaryOperator::Lt))
        } else if has_at(s, p, seq!['<', '=']) {
            Some((2, BinaryOperator::Leq))
        } else if has_at(s, p, seq!['>']) {
            Some((1, BinaryOperator::Gt))
        } else if has_at(s, p, seq!['>', '=']) {
            Some((2, BinaryOperator::Geq))
        } else {
            None
        }
    } else if d == 1 {
        if has_at(s, p, seq!['-']) {
            Some((1, BinaryOperator::Sub))
        } else if has_at(s, p, seq!['+']) {
            Some((1, BinaryOperator::Add))
        } else {
            None
        }
    } else if d == 0 {
        if has_at(s, p, seq!['/']) {
            Some((1, BinaryOperator::Div))
        } else if has_at(s, p, seq!['*']) {
            Some((1, BinaryOperator::Mul))
        } else {
            None
        }
    } else {
        None
    }
}

/// An expression at `p`: `identifier = expression` (right-associative), or
/// else the logical-or level.
pub open spec fn p_expr(s: Seq<char>, p: int) -> Parsed
    decreases remaining(s, p), 20nat,
{
    let p0 = p + ws_len(s, p);
    let assign: Parsed = match ident_spec(s, p0) {
        Some((n, x)) => {
            let q0 = p0 + n + ws_len(s, p0 + n);
            if has_at(s, q0, seq!['=']) {
                match p_expr(s, q0 + 1) {
                    Some((m, v)) => Some(
                        ((q0 + 1 + m - p) as nat, SpecExpr::Assignement(x, Box::new(v))),
                    ),
                    None => None,
                }
            } else {
                None
            }
        },
        None => None,
    };
    if assign is Some {
        assign
    } else {
        p_level(s, p, 5)
    }
}

/// The binary level `d`: an operand of the next tighter level, then any
/// number of (operator, operand) pairs, folded to the left.
pub open spec fn p_level(s: Seq<char>, p: int, d: nat) -> Parsed
    decreases remaining(s, p), 2 * d + 8,
{
    let first = if d == 0 {
        p_unary(s, p)
    } else {
        p_level(s, p, (d - 1) as nat)
    };
    match first {
        None => None,
        Some((n, e)) => {
            let (m, r) = p_rest(s, p + n, d, e);
            Some((n + m, r))
        },
    }
}

/// The (operator, operand) pairs of level `d` at `q`, folded onto `acc`; a
/// pair that does not parse whole is left unconsumed.
pub open spec fn p_rest(s: Seq<char>, q: int, d: nat, acc: SpecExpr) -> (nat, SpecExpr)
    decreases remaining(s, q), 2 * d + 7,
{
    let q0 = q + ws_len(s, q);
    match match_op(s, q0, d) {
        None => (0, acc),
        Some((l, op)) => {
            let q1 = q0 + l;
            let q2 = q1 + ws_len(s, q1);
            let next = if d == 0 {
                p_unary(s, q2)
            } else {
                p_level(s, q2, (d - 1) as nat)
            };
            match next {
                None => (0, acc),
                Some((n, e)) => {
                    let (m, r) = p_rest(
                        s,
                        q2 + n,
                        d,
                        SpecExpr::Binary(op, Box::new(acc), Box::new(e)),
                    );
                    ((q2 + n + m - q) as nat, r)
                },
            }
        },
    }
}

/// A prefix `!` or `-` before a unary expression, or else a call.
pub open spec fn p_unary(s: Seq<char>, p: int) -> Parsed
    decreases remaining(s, p), 6nat,
{
    let p0 = p + ws_len(s, p);
    let prefixed: Parsed = if 0 <= p0 < s.len() && (s[p0] == '!' || s[p0] == '-') {
        let op = if s[p0] == '!' {
            UnaryOperator::Bang
        } else {
            UnaryOperator::Neg
        };
        match p_unary(s, p0 + 1) {
            Some((n, e)) => Some(((p0 + 1 + n - p) as nat, SpecExpr::Unary(op, Box::new(e)))),
            None => None,
        }
    } else {
        None
    };
    if prefixed is Some {
        prefixed
    } else {
        p_call(s, p)
    }
}

/// A primary, optionally followed by `:>` and a `::`-separated argument list.
pub open spec fn p_call(s: Seq<char>, p: int) -> Parsed
    decreases remaining(s, p), 5nat,
{
    match p_primary(s, p) {
        None => None,
        Some((n, f)) => {
            let q0 = p + n + ws_len(s, p + n);
            if has_at(s, q0, seq![':', '>']) {
                let q1 = q0 + 2;
                let (m, args) = p_list(s, q1, false);
                let q2 = q1 + m;
                Some(((q2 + ws_len(s, q2) - p) as nat, SpecExpr::Call(Box::new(f), args)))
            } else {
                Some((n, f))
            }
        },
    }
}

/// The separator of a statement list (`;`) or of an argument list (`::`).
pub open spec fn separator(top: bool) -> Seq<char> {
    if top {
        seq![';']
    } else {
        seq![':', ':']
    }
}

/// Expressions separated by a separator, possibly none, possibly with a
/// separator after the last. How many characters, and the expressions.
pub open spec fn p_list(s: Seq<char>, p: int, top: bool) -> (nat, Seq<SpecExpr>)
    decreases remaining(s, p), 21nat,
{
    match p_expr(s, p) {
        None => (0, Seq::empty()),
        Some((n, e)) => {
            let q0 = p + n + ws_len(s, p + n);
            let sep = separator(top);
            if has_at(s, q0, sep) {
                let (m, es) = p_list(s, q0 + sep.len(), top);
                ((q0 + sep.len() + m - p) as nat, seq![e] + es)
            } else {
                (n, seq![e])
            }
        },
    }
}

/// A parenthesized expression, `true`, `false`, a number, a string or an
/// identifier, with the whitespace around it.
pub open spec fn p_primary(s: Seq<char>, p: int) -> Parsed
    decreases remaining(s, p), 4nat,
{
    let p0 = p + ws_len(s, p);
    let item: Option<(int, SpecExpr)> = if has_at(s, p0, seq!['(']) {
        match p_expr(s, p0 + 1) {
            Some((n, e)) => if has_at(s, p0 + 1 + n, seq![')']) {
                Some((p0 + 2 + n, e))
            } else {
                None
            },
            None => None,
        }
    } else if has_at(s, p0, seq!['t', 'r', 'u', 'e']) {
        Some((p0 + 4, SpecExpr::Bool(true)))
    } else if has_at(s, p0, seq!['f', 'a', 'l', 's', 'e']) {
        Some((p0 + 5, SpecExpr::Bool(false)))
    } else {
        match num_spec(s, p0) {
            Some((n, v)) => Some((p0 + n, SpecExpr::Value(v))),
            None => match string_spec(s, p0) {
                Some((n, t)) => Some((p0 + n, SpecExpr::Str(t))),
                None => match ident_spec(s, p0) {
                    Some((n, x)) => Some((p0 + n, SpecExpr::Ident(x))),
                    None => None,
                },
            },
        }
    };
    match item {
        Some((q, e)) => Some(((q + ws_len(s, q) - p) as nat, e)),
        None => None,
    }
}

/// A program: `;`-separated expressions with whitespace around, and nothing
/// after them.
pub open spec fn parse_spec(s: Seq<char>) -> Option<Seq<SpecExpr>> {
    let (n, es) = p_list(s, 0, true);
    if n + ws_len(s, n as int) == s.len() {
        Some(es)
    } else {
        None
    }
}

/// `lit` stands in `input` at `pos`.
fn starts_with(input: &str, pos: usize, lit: &str) -> (r: bool)
    requires
        pos <= input@.len(),
    ensures
        r == has_at(input@, pos as int, lit@),
        input@.len() <= usize::MAX,
{
    let n = input.unicode_len();
    let m = lit.unicode_len();
    if m > n - pos {
        return false;
    }
    let mut i: usize = 0;
    while i < m
        invariant
            n == input@.len(),
            m == lit@.len(),
            pos + m <= n,
            i <= m,
            forall|j: int| 0 <= j < i ==> input@[pos + j] == lit@[j],
        decreases m - i,
    {
        if input.get_char(pos + i) != lit.get_char(i) {
            assert(input@.subrange(pos as int, pos + m)[i as int] != lit@[i as int]);
            return false;
        }
        i = i + 1;
    }
    assert(input@.subrange(pos as int, pos + m) =~= lit@);
    true
}

/// The operator of level `d` at `pos`: where it ends, and which it is.
fn match_op_at(input: &str, pos: usize, d: usize) -> (r: Option<(usize, BinaryOperator)>)
    requires
        pos <= input@.len(),
    ensures
        match match_op(input@, pos as int, d as nat) {
            Some((l, op)) => r is Some && r->Some_0.0 == pos + l && r->Some_0.1 == op,
            None => r is None,
        },
{
    proof {
        reveal_strlit("||");
        reveal_strlit("&&");
        reveal_strlit("==");
        reveal_strlit("!==");
        reveal_strlit("<");
        reveal_strlit("<=");
        reveal_strlit(">");
        reveal_strlit(">=");
        reveal_strlit("-");
        reveal_strlit("+");
        reveal_strlit("/");
        reveal_strlit("*");
        assert("||"@ =~= seq!['|', '|']);
        assert("&&"@ =~= seq!['&', '&']);
        assert("=="@ =~= seq!['=', '=']);
        assert("!=="@ =~= seq!['!', '=', '=']);
        assert("<"@ =~= seq!['<']);
        assert("<="@ =~= seq!['<', '=']);
        assert(">"@ =~= seq!['>']);
        assert(">="@ =~= seq!['>', '=']);
        assert("-"@ =~= seq!['-']);
        assert("+"@ =~= seq!['+']);
        assert("/"@ =~= seq!['/']);
        assert("*"@ =~= seq!['*']);
    }
    if d == 5 {
        if starts_with(input, pos, "||") { Some((pos + 2, BinaryOperator::Or)) } else { None }
    } else if d == 4 {
        if starts_with(input, pos, "&&") { Some((pos + 2, BinaryOperator::Or)) } else { None }
    } else if d == 3 {
        if starts_with(input, pos, "==") {
            Some((pos + 2, BinaryOperator::Eq))
        } else if starts_with(input, pos, "!==") {
            Some((pos + 3, BinaryOperator::Neq))
        } else {
            None
        }
    } else if d == 2 {
        if starts_with(input, pos, "<") {
            Some((pos + 1, BinaryOperator::Lt))
        } else if starts_with(input, pos, "<=") {
            Some((pos + 2, BinaryOperator::Leq))
        } else if starts_with(input, pos, ">") {
            Some((pos + 1, BinaryOperator::Gt))
        } else if starts_with(input, pos, ">=") {
            Some((pos + 2, BinaryOperator::Geq))
        } else {
            None
        }
    } else if d == 1 {
        if starts_with(input, pos, "-") {
            Some((pos + 1, BinaryOperator::Sub))
        } else if starts_with(input, pos, "+") {
            Some((pos + 1, BinaryOperator::Add))
        } else {
            None
        }
    } else if d == 0 {
        if starts_with(input, pos, "/") {
            Some((pos + 1, BinaryOperator::Div))
        } else if starts_with(input, pos, "*") {
            Some((pos + 1, BinaryOperator::Mul))
        } else {
            None
        }
    } else {
        None
    }
}

/// The contract of every rule: success exactly where the grammar matches,
/// with the position after the match and the tree the grammar builds.
pub open spec fn parsed_as(input: Seq<char>, pos: usize, r: Result<(usize, Expr), ParseError>, g: Parsed) -> bool {
    match g {
        Some((n, e)) => r is Ok && r->Ok_0.0 == pos + n && r->Ok_0.1@ == e && r->Ok_0.0 <= input.len(),
        None => r is Err,
    }
}

/// An expression at `pos`.
pub fn expression(input: &str, pos: usize) -> (r: Result<(usize, Expr), ParseError>)
    requires
        pos <= input@.len(),
    ensures
        parsed_as(input@, pos, r, p_expr(input@, pos as int)),
    decreases remaining(input@, pos as int), 22nat,
{
    assignement(input, pos)
}

/// `identifier = expression` at `pos`, or else the logical-or level.
pub fn assignement(input: &str, pos: usize) -> (r: Result<(usize, Expr), ParseError>)
    requires
        pos <= input@.len(),
    ensures
        parsed_as(input@, pos, r, p_expr(input@, pos as int)),
    decreases remaining(input@, pos as int), 20nat,
{
    let p0 = skip_ws(input, pos);
    proof {
        reveal_strlit("=");
        assert("="@ =~= seq!['=']);
    }
    match identifier(input, p0) {
        Ok((q, x)) => {
            let q0 = skip_ws(input, q);
            if starts_with(input, q0, "=") {
                match assignement(input, q0 + 1) {
                    Ok((r, v)) => {
                        return Ok((r, Expr::Assignement(x, Box::new(v))));
                    },
                    Err(_) => {},
                }
            }
        },
        Err(_) => {},
    }
    binary_level(input, pos, 5)
}

/// The binary level `d` at `pos`.
fn binary_level(input: &str, pos: usize, d: usize) -> (r: Result<(usize, Expr), ParseError>)
    requires
        pos <= input@.len(),
        d <= 5,
    ensures
        parsed_as(input@, pos, r, p_level(input@, pos as int, d as nat)),
    decreases remaining(input@, pos as int), 2 * d + 8,
{
    let first = if d == 0 {
        unary(input, pos)
    } else {
        binary_level(input, pos, d - 1)
    };
    let (mut q, mut acc) = match first {
        Ok(x) => x,
        Err(e) => return Err(e),
    };
    let ghost n0: nat = (q - pos) as nat;
    let ghost s = input@;
    let mut done = false;
    while !done
        invariant
            s == input@,
            d <= 5,
            pos <= q <= s.len(),
            p_level(s, pos as int, d as nat) == Some((
                n0 + p_rest(s, pos + n0, d as nat, p_level_first(s, pos as int, d as nat)).0,
                p_rest(s, pos + n0, d as nat, p_level_first(s, pos as int, d as nat)).1,
            )),
            pos + n0 + p_rest(s, pos + n0, d as nat, p_level_first(s, pos as int, d as nat)).0
                == q + p_rest(s, q as int, d as nat, acc@).0,
            p_rest(s, pos + n0, d as nat, p_level_first(s, pos as int, d as nat)).1 == p_rest(
                s,
                q as int,
                d as nat,
                acc@,
            ).1,
            done ==> p_rest(s, q as int, d as nat, acc@) == (0nat, acc@),
        decreases s.len() - q + if done { 0int } else { 1int },
    {
        let q0 = skip_ws(input, q);
        match match_op_at(input, q0, d) {
            None => {
                done = true;
            },
            Some((q1, op)) => {
                let q2 = skip_ws(input, q1);
                let next = if d == 0 {
                    unary(input, q2)
                } else {
                    binary_level(input, q2, d - 1)
                };
                match next {
                    Err(_) => {
                        done = true;
                    },
                    Ok((r, e)) => {
                        acc = Expr::Binary(op, Box::new(acc), Box::new(e));
                        q = r;
                    },
                }
            },
        }
    }
    Ok((q, acc))
}

/// The first operand of level `d` at `p`, as the grammar builds it.
pub open spec fn p_level_first(s: Seq<char>, p: int, d: nat) -> SpecExpr {
    if d == 0 {
        p_unary(s, p)->Some_0.1
    } else {
        p_level(s, p, (d - 1) as nat)->Some_0.1
    }
}

/// The logical-or level at `pos`.
pub fn logic_or(input: &str, pos: usize) -> (r: Result<(usize, Expr), ParseError>)
    requires
        pos <= input@.len(),
    ensures
        parsed_as(input@, pos, r, p_level(input@, pos as int, 5)),
{
    binary_level(input, pos, 5)
}

/// The `&&` level at `pos`; `&&` builds the same node as `||`.
pub fn logic_and(input: &str, pos: usize) -> (r: Result<(usize, Expr), ParseError>)
    requires
        pos <= input@.len(),
    ensures
        parsed_as(input@, pos, r, p_level(input@, pos as int, 4)),
{
    binary_level(input, pos, 4)
}

/// The equality level (`==`, `!==`) at `pos`.
pub fn equality(input: &str, pos: usize) -> (r: Result<(usize, Expr), ParseError>)
    requires
        pos <= input@.len(),
    ensures
        parsed_as(input@, pos, r, p_level(input@, pos as int, 3)),
{
    binary_level(input, pos, 3)
}

/// The comparison level (`<`, `<=`, `>`, `>=`, tried in that order) at `pos`.
pub fn comparison(input: &str, pos: usize) -> (r: Result<(usize, Expr), ParseError>)
    requires
        pos <= input@.len(),
    ensures
        parsed_as(input@, pos, r, p_level(input@, pos as int, 2)),
{
    binary_level(input, pos, 2)
}

/// The additive level (`-`, `+`) at `pos`.
pub fn term(input: &str, pos: usize) -> (r: Result<(usize, Expr), ParseError>)
    requires
        pos <= input@.len(),
    ensures
        parsed_as(input@, pos, r, p_level(input@, pos as int, 1)),
{
    binary_level(input, pos, 1)
}

/// The multiplicative level (`/`, `*`) at `pos`.
pub fn factor(input: &str, pos: usize) -> (r: Result<(usize, Expr), ParseError>)
    requires
        pos <= input@.len(),
    ensures
        parsed_as(input@, pos, r, p_level(input@, pos as int, 0)),
{
    binary_level(input, pos, 0)
}

/// A prefixed unary expression at `pos`, or else a call.
pub fn unary(input: &str, pos: usize) -> (r: Result<(usize, Expr), ParseError>)
    requires
        pos <= input@.len(),
    ensures
        parsed_as(input@, pos, r, p_unary(input@, pos as int)),
    decreases remaining(input@, pos as int), 6nat,
{
    let p0 = skip_ws(input, pos);
    let n = input.unicode_len();
    if p0 < n {
        let c = input.get_char(p0);
        if c == '!' || c == '-' {
            let op = if c == '!' { UnaryOperator::Bang } else { UnaryOperator::Neg };
            match unary(input, p0 + 1) {
                Ok((r, e)) => {
                    return Ok((r, Expr::Unary(op, Box::new(e))));
                },
                Err(_) => {},
            }
        }
    }
    call(input, pos)
}

/// A primary at `pos`, with an argument list after `:>` if one follows.
#[verifier::rlimit(30)]
pub fn call(input: &str, pos: usize) -> (r: Result<(usize, Expr), ParseError>)
    requires
        pos <= input@.len(),
    ensures
        parsed_as(input@, pos, r, p_call(input@, pos as int)),
    decreases remaining(input@, pos as int), 5nat,
{
    let (q, f) = match primary(input, pos) {
        Ok(x) => x,
        Err(e) => return Err(e),
    };
    let q0 = skip_ws(input, q);
    proof {
        reveal_strlit(":>");
        assert(":>"@ =~= seq![':', '>']);
    }
    if starts_with(input, q0, ":>") {
        let (q2, args) = list(input, q0 + 2, false);
        let end = skip_ws(input, q2);
        let r = Expr::Call(Box::new(f), args);
        proof {
            if let SpecExpr::Call(_, a) = r@ {
                assert(a =~= args@.map_values(|e: Expr| e@));
            }
        }
        Ok((end, r))
    } else {
        Ok((q, f))
    }
}

/// Expressions separated by `;` (`top`) or `::`: where the list ends, and
/// the expressions.
fn list(input: &str, pos: usize, top: bool) -> (r: (usize, Vec<Expr>))
    requires
        pos <= input@.len(),
    ensures
        r.0 == pos + p_list(input@, pos as int, top).0,
        r.0 <= input@.len(),
        r.1@.map_values(|e: Expr| e@) == p_list(input@, pos as int, top).1,
    decreases remaining(input@, pos as int), 23nat,
{
    match expression(input, pos) {
        Err(_) => {
            let v: Vec<Expr> = Vec::new();
            proof {
                assert(v@.map_values(|e: Expr| e@) =~= Seq::<SpecExpr>::empty());
            }
            (pos, v)
        },
        Ok((q, e)) => {
            let q0 = skip_ws(input, q);
            let sep = if top { ";" } else { "::" };
            proof {
                reveal_strlit(";");
                reveal_strlit("::");
                assert(";"@ =~= seq![';']);
                assert("::"@ =~= seq![':', ':']);
                assert(sep@ == separator(top));
            }
            if starts_with(input, q0, sep) {
                let next = if top { q0 + 1 } else { q0 + 2 };
                let (r, rest) = list(input, next, top);
                let mut all: Vec<Expr> = Vec::new();
                all.push(e);
                let mut rest = rest;
                all.append(&mut rest);
                proof {
                    assert(all@.map_values(|e: Expr| e@) =~= p_list(input@, pos as int, top).1);
                }
                (r, all)
            } else {
                let mut all: Vec<Expr> = Vec::new();
                all.push(e);
                proof {
                    assert(all@.map_values(|e: Expr| e@) =~= p_list(input@, pos as int, top).1);
                }
                (q, all)
            }
        },
    }
}

/// A primary at `pos`, with the whitespace around it.
pub fn primary(input: &str, pos: usize) -> (r: Result<(usize, Expr), ParseError>)
    requires
        pos <= input@.len(),
    ensures
        parsed_as(input@, pos, r, p_primary(input@, pos as int)),
    decreases remaining(input@, pos as int), 4nat,
{
    let p0 = skip_ws(input, pos);
    proof {
        reveal_strlit("(");
        reveal_strlit(")");
        reveal_strlit("true");
        reveal_strlit("false");
        assert("("@ =~= seq!['(']);
        assert(")"@ =~= seq![')']);
        assert("true"@ =~= seq!['t', 'r', 'u', 'e']);
        assert("false"@ =~= seq!['f', 'a', 'l', 's', 'e']);
    }
    let (q, e) = if starts_with(input, p0, "(") {
        match expression(input, p0 + 1) {
            Ok((q, e)) => {
                if starts_with(input, q, ")") {
                    (q + 1, e)
                } else {
                    return Err(ParseError::new(q, ")"));
                }
            },
            Err(err) => return Err(err),
        }
    } else if starts_with(input, p0, "true") {
        (p0 + 4, Expr::Bool(true))
    } else if starts_with(input, p0, "false") {
        (p0 + 5, Expr::Bool(false))
    } else {
        match num_literal(input, p0) {
            Ok(x) => x,
            Err(_) => match string_literal(input, p0) {
                Ok(x) => x,
                Err(_) => match identifier(input, p0) {
                    Ok((q, x)) => (q, Expr::Ident(x)),
                    Err(_) => return Err(ParseError::new(p0, "expression")),
                },
            },
        }
    };
    let end = skip_ws(input, q);
    Ok((end, e))
}

/// Parses a program: `;`-separated expressions, with whitespace around, a
/// `;` after the last allowed, and nothing else after them.
pub fn parse_language(input: &str) -> (r: Result<Vec<Expr>, ParseError>)
    ensures
        match parse_spec(input@) {
            Some(es) => r is Ok && r->Ok_0@.map_values(|e: Expr| e@) == es,
            None => r is Err,
        },
{
    let (q, exprs) = list(input, 0, true);
    let end = skip_ws(input, q);
    if end == input.unicode_len() {
        Ok(exprs)
    } else {
        Err(ParseError::new(end, "end of input"))
    }
}

} // verus!
