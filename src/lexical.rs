use vstd::prelude::*;
use vstd::string::{StrSliceExecFns, StringExecFns};

use crate::expr::{Expr, SpecExpr};

verus! {

/// Where parsing failed and what was expected there.
#[derive(Debug)]
pub struct ParseError {
    position: usize,
    expected: String,
}

impl ParseError {
    /// A failure at `position`, expecting `expected`.
    pub fn new(position: usize, expected: &str) -> (r: ParseError)
        ensures
            r.spec_position() == position,
            r.spec_expected() == expected@,
    {
        ParseError { position, expected: String::from_str(expected) }
    }

    pub closed spec fn spec_position(&self) -> usize {
        self.position
    }

    pub closed spec fn spec_expected(&self) -> Seq<char> {
        self.expected@
    }

    /// The character offset at which parsing failed.
    pub fn position(&self) -> (r: usize)
        ensures
            r == self.spec_position(),
    {
        self.position
    }

    /// What was expected at that offset.
    pub fn expected(&self) -> (r: &String)
        ensures
            r@ == self.spec_expected(),
    {
        &self.expected
    }
}

/// Characters that may stand around any token.
pub open spec fn is_ws(c: char) -> bool {
    c == ' ' || c == '\t' || c == '\n' || c == '\r'
}

pub open spec fn is_digit(c: char) -> bool {
    '0' <= c <= '9'
}

/// Characters that may begin an identifier: ASCII letters and `_`.
pub open spec fn is_ident_start(c: char) -> bool {
    ('a' <= c <= 'z') || ('A' <= c <= 'Z') || c == '_'
}

pub open spec fn is_ident_char(c: char) -> bool {
    is_ident_start(c) || is_digit(c)
}

/// The characters left from `p` on.
pub open spec fn remaining(s: Seq<char>, p: int) -> nat {
    if p < s.len() {
        (s.len() - p) as nat
    } else {
        0
    }
}

/// How many whitespace characters stand at `p`.
pub open spec fn ws_len(s: Seq<char>, p: int) -> nat
    decreases remaining(s, p),
{
    if 0 <= p < s.len() && is_ws(s[p]) {
        ws_len(s, p + 1) + 1
    } else {
        0
    }
}

/// The length of the run of identifier characters at `p`.
pub open spec fn ident_run(s: Seq<char>, p: int) -> nat
    decreases remaining(s, p),
{
    if 0 <= p < s.len() && is_ident_char(s[p]) {
        ident_run(s, p + 1) + 1
    } else {
        0
    }
}

/// The length of the run of decimal digits at `p`.
pub open spec fn digit_run(s: Seq<char>, p: int) -> nat
    decreases remaining(s, p),
{
    if 0 <= p < s.len() && is_digit(s[p]) {
        digit_run(s, p + 1) + 1
    } else {
        0
    }
}

/// `lit` stands in `s` at `p`.
pub open spec fn has_at(s: Seq<char>, p: int, lit: Seq<char>) -> bool {
    0 <= p && p + lit.len() <= s.len() && s.subrange(p, p + lit.len()) == lit
}

/// An identifier at `p`: its length and text.
pub open spec fn ident_spec(s: Seq<char>, p: int) -> Option<(nat, Seq<char>)> {
    if 0 <= p < s.len() && is_ident_start(s[p]) {
        let n = ident_run(s, p + 1) + 1;
        Some((n, s.subrange(p, p + n)))
    } else {
        None
    }
}

/// The value of a string of decimal digits.
pub open spec fn digits_value(d: Seq<char>) -> int
    decreases d.len(),
{
    if d.len() == 0 {
        0
    } else {
        digits_value(d.drop_last()) * 10 + (d.last() as int - '0' as int)
    }
}

/// A number literal at `p`: an optional `-`, then `0` alone or a run of
/// digits, whose value must fit in 64 bits. Its length and value.
pub open spec fn num_spec(s: Seq<char>, p: int) -> Option<(nat, int)> {
    let neg = 0 <= p < s.len() && s[p] == '-';
    let d = if neg {
        p + 1
    } else {
        p
    };
    if 0 <= d < s.len() && is_digit(s[d]) {
        let n: nat = if s[d] == '0' {
            1
        } else {
            digit_run(s, d)
        };
        let m = digits_value(s.subrange(d, d + n));
        if m <= i64::MAX {
            Some(((d + n - p) as nat, if neg {
                -m
            } else {
                m
            }))
        } else {
            None
        }
    } else {
        None
    }
}

/// The body of a string literal from `p` on: characters other than `"` and
/// `\`, and the escape `\"` for a quote. Its length and text.
pub open spec fn str_body(s: Seq<char>, p: int) -> (nat, Seq<char>)
    decreases remaining(s, p),
{
    if 0 <= p < s.len() && s[p] != '"' && s[p] != '\\' {
        let (n, t) = str_body(s, p + 1);
        (n + 1, seq![s[p]] + t)
    } else if 0 <= p && p + 1 < s.len() && s[p] == '\\' && s[p + 1] == '"' {
        let (n, t) = str_body(s, p + 2);
        (n + 2, seq!['"'] + t)
    } else {
        (0, Seq::empty())
    }
}

/// A string literal at `p`: its length and text.
pub open spec fn string_spec(s: Seq<char>, p: int) -> Option<(nat, Seq<char>)> {
    if 0 <= p < s.len() && s[p] == '"' {
        let (n, t) = str_body(s, p + 1);
        if p + 1 + n < s.len() && s[p + 1 + n] == '"' {
            Some((n + 2, t))
        } else {
            None
        }
    } else {
        None
    }
}

/// The position after the whitespace at `pos`.
pub fn skip_ws(input: &str, pos: usize) -> (r: usize)
    requires
        pos <= input@.len(),
    ensures
        r == pos + ws_len(input@, pos as int),
        r <= input@.len(),
        input@.len() <= usize::MAX,
{
    let n = input.unicode_len();
    let mut p = pos;
    let mut more = p < n;
    while more
        invariant
            n == input@.len(),
            pos <= p <= n,
            more ==> p < n,
            !more ==> ws_len(input@, p as int) == 0,
            ws_len(input@, pos as int) == (p - pos) + ws_len(input@, p as int),
        decreases n - p + (if more { 1int } else { 0int }),
    {
        let c = input.get_char(p);
        if c == ' ' || c == '\t' || c == '\n' || c == '\r' {
            p = p + 1;
            more = p < n;
        } else {
            more = false;
        }
    }
    p
}

/// The position after the run of decimal digits at `pos`.
pub fn digits(input: &str, pos: usize) -> (r: usize)
    requires
        pos <= input@.len(),
    ensures
        r == pos + digit_run(input@, pos as int),
        r <= input@.len(),
{
    let n = input.unicode_len();
    let mut p = pos;
    let mut more = p < n;
    while more
        invariant
            n == input@.len(),
            pos <= p <= n,
            more ==> p < n,
            !more ==> digit_run(input@, p as int) == 0,
            digit_run(input@, pos as int) == (p - pos) + digit_run(input@, p as int),
        decreases n - p + (if more { 1int } else { 0int }),
    {
        let c = input.get_char(p);
        if '0' <= c && c <= '9' {
            p = p + 1;
            more = p < n;
        } else {
            more = false;
        }
    }
    p
}

/// An identifier at `pos`: a letter or `_`, then letters, digits and `_`.
pub fn identifier(input: &str, pos: usize) -> (r: Result<(usize, String), ParseError>)
    requires
        pos <= input@.len(),
    ensures
        match ident_spec(input@, pos as int) {
            Some((n, x)) => r is Ok && r->Ok_0.0 == pos + n && r->Ok_0.1@ == x,
            None => r is Err,
        },
        r is Ok ==> r->Ok_0.0 <= input@.len(),
{
    let n = input.unicode_len();
    if pos < n && {
        let c = input.get_char(pos);
        ('a' <= c && c <= 'z') || ('A' <= c && c <= 'Z') || c == '_'
    } {
        let mut p = pos + 1;
        let mut more = p < n;
        while more
            invariant
                n == input@.len(),
                pos < p <= n,
                more ==> p < n,
                !more ==> ident_run(input@, p as int) == 0,
                ident_run(input@, pos + 1) == (p - pos - 1) + ident_run(input@, p as int),
            decreases n - p + (if more { 1int } else { 0int }),
        {
            let c = input.get_char(p);
            if ('a' <= c && c <= 'z') || ('A' <= c && c <= 'Z') || c == '_' || ('0' <= c && c <= '9') {
                p = p + 1;
                more = p < n;
            } else {
                more = false;
            }
        }
        Ok((p, String::from_str(input.substring_char(pos, p))))
    } else {
        Err(ParseError::new(pos, "identifier"))
    }
}

proof fn lemma_digits_prefix(d: Seq<char>, k: int)
    requires
        0 <= k <= d.len(),
        forall|i: int| 0 <= i < d.len() ==> is_digit(#[trigger] d[i]),
    ensures
        0 <= digits_value(d.take(k)) <= digits_value(d),
    decreases d.len(),
{
    if k < d.len() {
        assert(d.drop_last().take(k) =~= d.take(k));
        lemma_digits_prefix(d.drop_last(), k);
        lemma_digits_prefix(d.drop_last(), d.len() - 1);
        assert(d.drop_last().take(d.len() - 1) =~= d.drop_last());
    } else {
        assert(d.take(k) =~= d);
        if d.len() > 0 {
            lemma_digits_prefix(d.drop_last(), d.len() - 1);
            assert(d.drop_last().take(d.len() - 1) =~= d.drop_last());
        }
    }
}

/// A number literal at `pos`: an optional `-`, then `0` alone or a run of
/// digits; a value beyond 64 bits is refused.
pub fn num_literal(input: &str, pos: usize) -> (r: Result<(usize, Expr), ParseError>)
    requires
        pos <= input@.len(),
    ensures
        match num_spec(input@, pos as int) {
            Some((n, v)) => r is Ok && r->Ok_0.0 == pos + n && r->Ok_0.1@ == SpecExpr::Value(v),
            None => r is Err,
        },
        r is Ok ==> r->Ok_0.0 <= input@.len(),
{
    let n = input.unicode_len();
    let neg = pos < n && input.get_char(pos) == '-';
    let d = if neg { pos + 1 } else { pos };
    if !(d < n && {
        let c = input.get_char(d);
        '0' <= c && c <= '9'
    }) {
        return Err(ParseError::new(pos, "number"));
    }
    let end = if input.get_char(d) == '0' { d + 1 } else { digits(input, d) };
    let ghost ds = input@.subrange(d as int, end as int);
    proof {
        if input@[d as int] != '0' {
            lemma_digit_run_all(input@, d as int);
        }
    }
    let mut acc: i64 = 0;
    let mut i = d;
    while i < end
        invariant
            n == input@.len(),
            d <= i <= end <= n,
            d < n,
            is_digit(input@[d as int]),
            neg == (pos < n && input@[pos as int] == '-'),
            d == if neg { pos + 1 } else { pos as int },
            end == d + if input@[d as int] == '0' { 1 } else { digit_run(input@, d as int) },
            ds == input@.subrange(d as int, end as int),
            forall|j: int| 0 <= j < ds.len() ==> is_digit(#[trigger] ds[j]),
            acc as int == digits_value(ds.take(i - d)),
            acc >= 0,
        decreases end - i,
    {
        let c = input.get_char(i);
        let digit: i64 = if c == '0' { 0 } else if c == '1' { 1 } else if c == '2' { 2 } else if c
            == '3' { 3 } else if c == '4' { 4 } else if c == '5' { 5 } else if c == '6' { 6 } else if c
            == '7' { 7 } else if c == '8' { 8 } else { 9 };
        proof {
            assert(ds[i - d] == c);
            assert(ds.take(i - d + 1).drop_last() =~= ds.take(i - d));
            assert(digit as int == c as int - '0' as int);
            assert(digits_value(ds.take(i - d + 1)) == acc * 10 + digit);
        }
        let next = match acc.checked_mul(10) {
            Some(m) => m.checked_add(digit),
            None => None,
        };
        match next {
            Some(v) => {
                acc = v;
            },
            None => {
                proof {
                    lemma_digits_prefix(ds, i - d + 1);
                    assert(digits_value(ds) > i64::MAX);
                    assert(num_spec(input@, pos as int) is None);
                }
                return Err(ParseError::new(pos, "number within 64 bits"));
            },
        }
        i = i + 1;
    }
    proof {
        assert(ds.take(end - d) =~= ds);
    }
    let v: i64 = if neg { -acc } else { acc };
    Ok((end, Expr::Value(v)))
}

proof fn lemma_digit_run_all(s: Seq<char>, p: int)
    requires
        0 <= p,
    ensures
        p + digit_run(s, p) <= s.len() || digit_run(s, p) == 0,
        forall|j: int| p <= j < p + digit_run(s, p) ==> is_digit(#[trigger] s[j]),
    decreases remaining(s, p),
{
    if 0 <= p < s.len() && is_digit(s[p]) {
        lemma_digit_run_all(s, p + 1);
    }
}

/// A string literal at `pos`: text between `"` quotes, where `\"` stands for
/// a quote and no other escape exists.
pub fn string_literal(input: &str, pos: usize) -> (r: Result<(usize, Expr), ParseError>)
    requires
        pos <= input@.len(),
    ensures
        match string_spec(input@, pos as int) {
            Some((n, t)) => r is Ok && r->Ok_0.0 == pos + n && r->Ok_0.1@ == SpecExpr::Str(t),
            None => r is Err,
        },
        r is Ok ==> r->Ok_0.0 <= input@.len(),
{
    let n = input.unicode_len();
    if !(pos < n && input.get_char(pos) == '"') {
        return Err(ParseError::new(pos, "string"));
    }
    let start = pos + 1;
    let mut text = String::new();
    let mut p = start;
    let mut more = true;
    proof {
        reveal_strlit("\"");
    }
    while more
        invariant
            n == input@.len(),
            start <= p <= n,
            str_body(input@, start as int).0 == (p - start) + str_body(input@, p as int).0,
            str_body(input@, start as int).1 == text@ + str_body(input@, p as int).1,
            !more ==> str_body(input@, p as int).0 == 0,
            "\""@ == seq!['"'],
        decreases n - p + (if more { 1int } else { 0int }),
    {
        let ghost before = text@;
        if p < n && input.get_char(p) != '"' && input.get_char(p) != '\\' {
            text.append(input.substring_char(p, p + 1));
            proof {
                assert(input@.subrange(p as int, p + 1) =~= seq![input@[p as int]]);
                assert(before + str_body(input@, p as int).1 =~= text@ + str_body(input@, p + 1).1);
            }
            p = p + 1;
        } else if n > 0 && p < n - 1 && input.get_char(p) == '\\' && input.get_char(p + 1) == '"' {
            text.append("\"");
            proof {
                assert(before + str_body(input@, p as int).1 =~= text@ + str_body(input@, p + 2).1);
            }
            p = p + 2;
        } else {
            more = false;
        }
    }
    proof {
        assert(text@ + Seq::<char>::empty() =~= text@);
    }
    if p < n && input.get_char(p) == '"' {
        Ok((p + 1, Expr::Str(text)))
    } else {
        Err(ParseError::new(p, "closing quote"))
    }
}

} // verus!
