use vstd::prelude::*;
use vstd::string::{StrSliceExecFns, StringExecFns};

verus! {

/// The kind of a whitespace-separated word.
#[derive(Clone, Copy, Debug, PartialEq, Eq, Structural)]
pub enum TokenType {
    Num,
    Id,
    Let,
    Assign,
    Eq,
    OpenParenthesis,
    ClosedParenthis,
    BinOp,
    Newline,
}

/// A word of source text and its kind.
#[derive(Debug)]
pub struct Token {
    value: String,
    token_type: TokenType,
}

impl Token {
    pub closed spec fn spec_value(&self) -> Seq<char> {
        self.value@
    }

    pub closed spec fn spec_type(&self) -> TokenType {
        self.token_type
    }

    /// The word.
    pub fn value(&self) -> (r: &String)
        ensures
            r@ == self.spec_value(),
    {
        &self.value
    }

    /// The word's kind.
    pub fn token_type(&self) -> (r: TokenType)
        ensures
            r == self.spec_type(),
    {
        self.token_type
    }
}

/// Characters that separate words.
pub open spec fn is_separator(c: char) -> bool {
    c == ' ' || c == '\r' || c == '\n'
}

/// The word that runs from `start` to `i`, if it is not empty.
pub open spec fn pending(s: Seq<char>, start: int, i: int) -> Seq<Seq<char>> {
    if start < i {
        seq![s.subrange(start, i)]
    } else {
        Seq::empty()
    }
}

/// The non-empty separator-free runs of `s` from `i` on, where the current
/// run began at `start`.
pub open spec fn words_from(s: Seq<char>, i: int, start: int) -> Seq<Seq<char>>
    decreases s.len() - i,
{
    if i >= s.len() {
        pending(s, start, i)
    } else if is_separator(s[i]) {
        pending(s, start, i) + words_from(s, i + 1, i + 1)
    } else {
        words_from(s, i + 1, start)
    }
}

/// The non-empty words of `s` between separators, in order.
pub open spec fn words(s: Seq<char>) -> Seq<Seq<char>> {
    words_from(s, 0, 0)
}

/// The kind of a word, `None` for a word of no kind.
pub open spec fn classify(w: Seq<char>) -> Option<TokenType> {
    if forall|i: int| 0 <= i < w.len() ==> '0' <= #[trigger] w[i] <= '9' {
        Some(TokenType::Num)
    } else if w == seq!['('] {
        Some(TokenType::OpenParenthesis)
    } else if w == seq![')'] {
        Some(TokenType::ClosedParenthis)
    } else if w == seq!['='] {
        Some(TokenType::Assign)
    } else if w == seq!['=', '='] {
        Some(TokenType::Eq)
    } else if w == seq!['+'] || w == seq!['-'] || w == seq!['*'] || w == seq!['/'] {
        Some(TokenType::BinOp)
    } else if w == seq!['l', 'e', 't'] {
        Some(TokenType::Let)
    } else if w == seq!['\n'] || w == seq!['\r', '\n'] {
        Some(TokenType::Newline)
    } else if forall|i: int|
        0 <= i < w.len() ==> ('a' <= #[trigger] w[i] <= 'z' || 'A' <= w[i] <= 'Z') {
        Some(TokenType::Id)
    } else {
        None
    }
}

/// The message for a word of no kind.
pub open spec fn token_error(w: Seq<char>) -> Seq<char> {
    seq!['c', 'o', 'u', 'l', 'd', ' ', 'n', 'o', 't', ' ', 'p', 'a', 'r', 's', 'e', ' ', 't', 'o', 'k', 'e', 'n', ' ', '\''] + w + seq!['\'']
}

/// The tokens of a list of words, or the message for the first word of no kind.
pub open spec fn tokens_of(ws: Seq<Seq<char>>) -> Result<Seq<(Seq<char>, TokenType)>, Seq<char>>
    decreases ws.len(),
{
    if ws.len() == 0 {
        Ok(Seq::empty())
    } else {
        match classify(ws[0]) {
            None => Err(token_error(ws[0])),
            Some(t) => match tokens_of(ws.drop_first()) {
                Ok(ts) => Ok(seq![(ws[0], t)] + ts),
                Err(m) => Err(m),
            },
        }
    }
}

/// `done` placed before the tokens of `r`.
pub open spec fn after(
    done: Seq<(Seq<char>, TokenType)>,
    r: Result<Seq<(Seq<char>, TokenType)>, Seq<char>>,
) -> Result<Seq<(Seq<char>, TokenType)>, Seq<char>> {
    match r {
        Ok(ts) => Ok(done + ts),
        Err(m) => Err(m),
    }
}

proof fn lemma_tokens_one(w: Seq<char>, rest: Seq<Seq<char>>)
    ensures
        tokens_of(seq![w] + rest) == match classify(w) {
            None => Err(token_error(w)),
            Some(t) => after(seq![(w, t)], tokens_of(rest)),
        },
{
    assert((seq![w] + rest).drop_first() =~= rest);
}

/// The model of a token list.
pub open spec fn token_models(ts: Seq<Token>) -> Seq<(Seq<char>, TokenType)> {
    ts.map_values(|t: Token| (t.spec_value(), t.spec_type()))
}

fn same_text(a: &str, b: &str) -> (r: bool)
    ensures
        r == (a@ == b@),
{
    let n = a.unicode_len();
    if n != b.unicode_len() {
        return false;
    }
    let mut i: usize = 0;
    while i < n
        invariant
            n == a@.len() == b@.len(),
            i <= n,
            forall|j: int| 0 <= j < i ==> a@[j] == b@[j],
        decreases n - i,
    {
        if a.get_char(i) != b.get_char(i) {
            return false;
        }
        i = i + 1;
    }
    assert(a@ =~= b@);
    true
}

fn classify_word(w: &str) -> (r: Option<TokenType>)
    ensures
        r == classify(w@),
{
    let n = w.unicode_len();
    let mut digits = true;
    let mut letters = true;
    let mut i: usize = 0;
    while i < n
        invariant
            n == w@.len(),
            i <= n,
            digits == forall|j: int| 0 <= j < i ==> '0' <= #[trigger] w@[j] <= '9',
            letters == forall|j: int|
                0 <= j < i ==> ('a' <= #[trigger] w@[j] <= 'z' || 'A' <= w@[j] <= 'Z'),
        decreases n - i,
    {
        let c = w.get_char(i);
        if !('0' <= c && c <= '9') {
            digits = false;
        }
        if !(('a' <= c && c <= 'z') || ('A' <= c && c <= 'Z')) {
            letters = false;
        }
        i = i + 1;
    }
    proof {
        reveal_strlit("(");
        reveal_strlit(")");
        reveal_strlit("=");
        reveal_strlit("==");
        reveal_strlit("+");
        reveal_strlit("-");
        reveal_strlit("*");
        reveal_strlit("/");
        reveal_strlit("let");
        reveal_strlit("\n");
        reveal_strlit("\r\n");
        assert("("@ =~= seq!['(']);
        assert(")"@ =~= seq![')']);
        assert("="@ =~= seq!['=']);
        assert("=="@ =~= seq!['=', '=']);
        assert("+"@ =~= seq!['+']);
        assert("-"@ =~= seq!['-']);
        assert("*"@ =~= seq!['*']);
        assert("/"@ =~= seq!['/']);
        assert("let"@ =~= seq!['l', 'e', 't']);
        assert("\n"@ =~= seq!['\n']);
        assert("\r\n"@ =~= seq!['\r', '\n']);
    }
    if digits {
        Some(TokenType::Num)
    } else if same_text(w, "(") {
        Some(TokenType::OpenParenthesis)
    } else if same_text(w, ")") {
        Some(TokenType::ClosedParenthis)
    } else if same_text(w, "=") {
        Some(TokenType::Assign)
    } else if same_text(w, "==") {
        Some(TokenType::Eq)
    } else if same_text(w, "+") || same_text(w, "-") || same_text(w, "*") || same_text(w, "/") {
        Some(TokenType::BinOp)
    } else if same_text(w, "let") {
        Some(TokenType::Let)
    } else if same_text(w, "\n") || same_text(w, "\r\n") {
        Some(TokenType::Newline)
    } else if letters {
        Some(TokenType::Id)
    } else {
        None
    }
}

fn str_to_token(token: &str) -> (r: Result<Token, String>)
    ensures
        match classify(token@) {
            Some(t) => r is Ok && r->Ok_0.spec_value() == token@ && r->Ok_0.spec_type() == t,
            None => r is Err && r->Err_0@ == token_error(token@),
        },
{
    match classify_word(token) {
        Some(t) => Ok(Token { value: String::from_str(token), token_type: t }),
        None => {
            proof {
                reveal_strlit("could not parse token '");
                reveal_strlit("'");
            }
            let m = String::from_str("could not parse token '");
            let m = m.concat(token);
            let m = m.concat("'");
            assert(m@ =~= token_error(token@));
            Err(m)
        },
    }
}

/// Splits `source` at spaces and line breaks and gives each non-empty word
/// its kind; fails with a message on the first word of no kind.
pub fn tokenize(source: &str) -> (r: Result<Vec<Token>, String>)
    ensures
        match tokens_of(words(source@)) {
            Ok(ts) => r is Ok && token_models(r->Ok_0@) == ts,
            Err(m) => r is Err && r->Err_0@ == m,
        },
{
    let n = source.unicode_len();
    let mut tokens: Vec<Token> = Vec::new();
    let mut start: usize = 0;
    let mut i: usize = 0;
    let ghost s = source@;
    assert(token_models(tokens@) =~= Seq::empty());
    assert(tokens_of(words(s)) == after(token_models(tokens@), tokens_of(words(s)))) by {
        match tokens_of(words(s)) {
            Ok(ts) => assert(Seq::<(Seq<char>, TokenType)>::empty() + ts =~= ts),
            Err(m) => {},
        }
    }
    while i < n
        invariant
            n == s.len(),
            s == source@,
            start <= i <= n,
            tokens_of(words(s)) == after(token_models(tokens@), tokens_of(words_from(s, i as int, start as int))),
        decreases n - i,
    {
        let c = source.get_char(i);
        if c == ' ' || c == '\r' || c == '\n' {
            if start < i {
                let word = source.substring_char(start, i);
                proof {
                    lemma_tokens_one(word@, words_from(s, i + 1, i + 1));
                }
                match str_to_token(word) {
                    Ok(t) => {
                        let ghost prev = token_models(tokens@);
                        tokens.push(t);
                        proof {
                            assert(token_models(tokens@) =~= prev + seq![(word@, classify(word@)->Some_0)]);
                            match tokens_of(words_from(s, i + 1, i + 1)) {
                                Ok(ts) => assert(prev + (seq![(word@, classify(word@)->Some_0)] + ts) =~= token_models(tokens@) + ts),
                                Err(m) => {},
                            }
                        }
                    },
                    Err(m) => {
                        return Err(m);
                    },
                }
            } else {
                assert(pending(s, start as int, i as int) + words_from(s, i + 1, i + 1) =~= words_from(s, i + 1, i + 1));
            }
            start = i + 1;
        }
        i = i + 1;
    }
    if start < n {
        let word = source.substring_char(start, n);
        proof {
            lemma_tokens_one(word@, Seq::empty());
            assert(words_from(s, n as int, start as int) =~= seq![word@] + Seq::<Seq<char>>::empty());
        }
        match str_to_token(word) {
            Ok(t) => {
                let ghost prev = token_models(tokens@);
                tokens.push(t);
                proof {
                    assert(token_models(tokens@) =~= prev + (seq![(word@, classify(word@)->Some_0)] + Seq::empty()));
                }
            },
            Err(m) => {
                return Err(m);
            },
        }
    } else {
        proof {
            assert(token_models(tokens@) + Seq::empty() =~= token_models(tokens@));
        }
    }
    Ok(tokens)
}

} // verus!
