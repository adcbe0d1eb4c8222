//! The boolean query language: a tokenizer from text to tokens, and a
//! recursive-descent parser from tokens to an expression tree.
//!
//! Words are written in double quotes, `&&` and `||` join expressions, `~`
//! negates one, and parentheses group. `||` binds loosest and `~` tightest.
use vstd::prelude::*;

verus! {

/// What can go wrong while reading a query.
#[derive(Debug, Clone, Copy, PartialEq, Eq, Structural)]
pub enum QueryError {
    InvalidToken(char),
    UnexpectedEof,
    UnclosedQuote,
    EmptyQuery,
    MissingClosingParen,
}

/// A lexical unit of a query.
#[derive(Debug, Clone)]
pub enum Token {
    Word(String),
    And,
    Or,
    Not,
    LParen,
    RParen,
}

/// The mathematical form of a token.
pub enum Tok {
    Word(Seq<char>),
    And,
    Or,
    Not,
    LParen,
    RParen,
}

impl View for Token {
    type V = Tok;

    open spec fn view(&self) -> Tok {
        match self {
            Token::Word(w) => Tok::Word(w@),
            Token::And => Tok::And,
            Token::Or => Tok::Or,
            Token::Not => Tok::Not,
            Token::LParen => Tok::LParen,
            Token::RParen => Tok::RParen,
        }
    }
}

/// A node of a query's expression tree.
#[derive(Debug)]
pub enum Expr {
    Word(String),
    Not(Box<Expr>),
    And(Box<Expr>, Box<Expr>),
    Or(Box<Expr>, Box<Expr>),
}

/// The mathematical form of an expression tree.
pub enum Ast {
    Word(Seq<char>),
    Not(Box<Ast>),
    And(Box<Ast>, Box<Ast>),
    Or(Box<Ast>, Box<Ast>),
}

/// The tree that an expression stands for.
pub open spec fn ast_of(e: Expr) -> Ast
    decreases e,
{
    match e {
        Expr::Word(w) => Ast::Word(w@),
        Expr::Not(inner) => Ast::Not(Box::new(ast_of(*inner))),
        Expr::And(l, r) => Ast::And(Box::new(ast_of(*l)), Box::new(ast_of(*r))),
        Expr::Or(l, r) => Ast::Or(Box::new(ast_of(*l)), Box::new(ast_of(*r))),
    }
}

pub open spec fn toks_of(t: Seq<Token>) -> Seq<Tok> {
    t.map_values(|x: Token| x@)
}

pub open spec fn is_blank(c: char) -> bool {
    c == ' ' || c == '\t' || c == '\n'
}

/// How many characters from `k` on come before the next `"` (or the end).
pub open spec fn word_len(s: Seq<char>, k: int) -> nat
    decreases s.len() - k,
{
    if k < 0 || k >= s.len() {
        0
    } else if s[k] == '"' {
        0
    } else {
        1 + word_len(s, k + 1)
    }
}

/// `done` followed by the tokens of `rest`, or the error of `rest`.
pub open spec fn then_tokens(done: Seq<Tok>, rest: Result<Seq<Tok>, QueryError>) -> Result<
    Seq<Tok>,
    QueryError,
> {
    match rest {
        Ok(r) => Ok(done + r),
        Err(e) => Err(e),
    }
}

/// The tokens of `s` from position `i` on.
pub open spec fn lex_from(s: Seq<char>, i: int) -> Result<Seq<Tok>, QueryError>
    decreases s.len() - i,
{
    if i < 0 || i >= s.len() {
        Ok(Seq::empty())
    } else {
        let c = s[i];
        if is_blank(c) {
            lex_from(s, i + 1)
        } else if c == '(' {
            then_tokens(seq![Tok::LParen], lex_from(s, i + 1))
        } else if c == ')' {
            then_tokens(seq![Tok::RParen], lex_from(s, i + 1))
        } else if c == '~' {
            then_tokens(seq![Tok::Not], lex_from(s, i + 1))
        } else if c == '&' {
            if i + 1 < s.len() && s[i + 1] == '&' {
                then_tokens(seq![Tok::And], lex_from(s, i + 2))
            } else {
                Err(QueryError::InvalidToken('&'))
            }
        } else if c == '|' {
            if i + 1 < s.len() && s[i + 1] == '|' {
                then_tokens(seq![Tok::Or], lex_from(s, i + 2))
            } else {
                Err(QueryError::InvalidToken('|'))
            }
        } else if c == '"' {
            let j = i + 1 + word_len(s, i + 1);
            if j >= s.len() {
                Err(QueryError::UnclosedQuote)
            } else {
                then_tokens(seq![Tok::Word(s.subrange(i + 1, j))], lex_from(s, j + 1))
            }
        } else {
            Err(QueryError::InvalidToken(c))
        }
    }
}

/// The tokens of a whole query text.
pub open spec fn lex(s: Seq<char>) -> Result<Seq<Tok>, QueryError> {
    lex_from(s, 0)
}

proof fn lemma_then_tokens(a: Seq<Tok>, b: Seq<Tok>, r: Result<Seq<Tok>, QueryError>)
    ensures
        then_tokens(a, then_tokens(b, r)) == then_tokens(a + b, r),
{
    match r {
        Ok(x) => {
            assert(a + (b + x) =~= (a + b) + x);
        },
        Err(_) => {},
    }
}

/// The result of parsing from a position: the tree read and the position
/// after it.
pub type Parsed = Option<(Ast, int)>;

/// `Or := And ( "||" And )*`, from position `p`.
pub open spec fn parse_or_at(t: Seq<Tok>, p: int) -> Parsed
    decreases t.len() - p, 3int,
{
    match parse_and_at(t, p) {
        None => None,
        Some((l, q)) => if q <= p || q > t.len() {
            None
        } else {
            or_tail(t, l, q)
        },
    }
}

/// The `( "||" And )*` that follows `left`, at position `p`.
pub open spec fn or_tail(t: Seq<Tok>, left: Ast, p: int) -> Parsed
    decreases t.len() - p, 4int,
{
    if 0 <= p < t.len() && t[p] is Or {
        match parse_and_at(t, p + 1) {
            None => None,
            Some((r, q)) => if q <= p || q > t.len() {
                None
            } else {
                or_tail(t, Ast::Or(Box::new(left), Box::new(r)), q)
            },
        }
    } else {
        Some((left, p))
    }
}

/// `And := Not ( "&&" Not )*`, from position `p`.
pub open spec fn parse_and_at(t: Seq<Tok>, p: int) -> Parsed
    decreases t.len() - p, 2int,
{
    match parse_not_at(t, p) {
        None => None,
        Some((l, q)) => if q <= p || q > t.len() {
            None
        } else {
            and_tail(t, l, q)
        },
    }
}

/// The `( "&&" Not )*` that follows `left`, at position `p`.
pub open spec fn and_tail(t: Seq<Tok>, left: Ast, p: int) -> Parsed
    decreases t.len() - p, 4int,
{
    if 0 <= p < t.len() && t[p] is And {
        match parse_not_at(t, p + 1) {
            None => None,
            Some((r, q)) => if q <= p || q > t.len() {
                None
            } else {
                and_tail(t, Ast::And(Box::new(left), Box::new(r)), q)
            },
        }
    } else {
        Some((left, p))
    }
}

/// `Not := "~" Primary | Primary`, from position `p`.
pub open spec fn parse_not_at(t: Seq<Tok>, p: int) -> Parsed
    decreases t.len() - p, 1int,
{
    if 0 <= p < t.len() && t[p] is Not {
        match parse_primary_at(t, p + 1) {
            None => None,
            Some((e, q)) => Some((Ast::Not(Box::new(e)), q)),
        }
    } else {
        parse_primary_at(t, p)
    }
}

/// `Primary := WORD | "(" Or ")"`, from position `p`.
pub open spec fn parse_primary_at(t: Seq<Tok>, p: int) -> Parsed
    decreases t.len() - p, 0int,
{
    if p < 0 || p >= t.len() {
        None
    } else {
        match t[p] {
            Tok::Word(w) => Some((Ast::Word(w), p + 1)),
            Tok::LParen => match parse_or_at(t, p + 1) {
                None => None,
                Some((e, q)) => if 0 <= q < t.len() && t[q] is RParen {
                    Some((e, q + 1))
                } else {
                    None
                },
            },
            _ => None,
        }
    }
}

/// The tree that a token sequence parses to: `None` unless the whole
/// sequence is one expression.
pub open spec fn parse_tokens(t: Seq<Tok>) -> Option<Ast> {
    match parse_or_at(t, 0) {
        Some((e, p)) => if p == t.len() {
            Some(e)
        } else {
            None
        },
        None => None,
    }
}

/// The parse of a query text, where it has one.
pub open spec fn parse_query(s: Seq<char>) -> Option<Ast> {
    match lex(s) {
        Ok(t) => parse_tokens(t),
        Err(_) => None,
    }
}

/// Reads queries: text to tokens, tokens to an expression tree.
pub struct StringTokenizer {}

impl StringTokenizer {
    /// Splits a query into tokens.
    pub fn tokenize(input: &str) -> (r: Result<Vec<Token>, QueryError>)
        ensures
            match r {
                Ok(t) => lex(input@) == Ok::<Seq<Tok>, QueryError>(toks_of(t@)),
                Err(e) => lex(input@) == Err::<Seq<Tok>, QueryError>(e),
            },
    {
        let n = input.unicode_len();
        let mut tokens: Vec<Token> = Vec::new();
        let mut i: usize = 0;
        assert(toks_of(tokens@) + Seq::<Tok>::empty() =~= Seq::<Tok>::empty());
        while i < n
            invariant
                n == input@.len(),
                i <= n,
                lex(input@) == then_tokens(toks_of(tokens@), lex_from(input@, i as int)),
            decreases n - i,
        {
            let ghost s = input@;
            let ghost before = toks_of(tokens@);
            let ch = input.get_char(i);
            if ch == ' ' || ch == '\t' || ch == '\n' {
                i = i + 1;
            } else if ch == '(' || ch == ')' || ch == '~' {
                let tok = if ch == '(' {
                    Token::LParen
                } else if ch == ')' {
                    Token::RParen
                } else {
                    Token::Not
                };
                proof {
                    lemma_then_tokens(before, seq![tok@], lex_from(s, i + 1));
                }
                tokens.push(tok);
                assert(toks_of(tokens@) =~= before + seq![tok@]);
                i = i + 1;
            } else if ch == '&' || ch == '|' {
                if i + 1 < n && input.get_char(i + 1) == ch {
                    let tok = if ch == '&' {
                        Token::And
                    } else {
                        Token::Or
                    };
                    proof {
                        lemma_then_tokens(before, seq![tok@], lex_from(s, i + 2));
                    }
                    tokens.push(tok);
                    assert(toks_of(tokens@) =~= before + seq![tok@]);
                    i = i + 2;
                } else {
                    return Err(QueryError::InvalidToken(ch));
                }
            } else if ch == '"' {
                let mut j: usize = i + 1;
                while j < n && input.get_char(j) != '"'
                    invariant
                        n == s.len(),
                        s == input@,
                        i + 1 <= j <= n,
                        word_len(s, i + 1) == (j - (i + 1)) + word_len(s, j as int),
                    decreases n - j,
                {
                    j = j + 1;
                }
                if j >= n {
                    return Err(QueryError::UnclosedQuote);
                }
                let word = String::from_str(input.substring_char(i + 1, j));
                let tok = Token::Word(word);
                proof {
                    lemma_then_tokens(before, seq![tok@], lex_from(s, j + 1));
                }
                tokens.push(tok);
                assert(toks_of(tokens@) =~= before + seq![tok@]);
                i = j + 1;
            } else {
                return Err(QueryError::InvalidToken(ch));
            }
        }
        assert(toks_of(tokens@) + Seq::<Tok>::empty() =~= toks_of(tokens@));
        Ok(tokens)
    }

    fn parse_or(tokens: &Vec<Token>, pos: usize) -> (r: Option<(Expr, usize)>)
        requires
            pos <= tokens@.len(),
        ensures
            match r {
                Some((e, q)) => parse_or_at(toks_of(tokens@), pos as int) == Some(
                    (ast_of(e), q as int),
                ) && pos < q <= tokens@.len(),
                None => parse_or_at(toks_of(tokens@), pos as int) is None,
            },
        decreases tokens@.len() - pos, 3int,
    {
        let ghost t = toks_of(tokens@);
        let (mut left, mut p) = match Self::parse_and(tokens, pos) {
            Some(x) => x,
            None => return None,
        };
        while p < tokens.len() && matches!(tokens[p], Token::Or)
            invariant
                t == toks_of(tokens@),
                pos < p <= tokens@.len(),
                parse_or_at(t, pos as int) == or_tail(t, ast_of(left), p as int),
            decreases tokens@.len() - p,
        {
            assert(t[p as int] is Or);
            match Self::parse_and(tokens, p + 1) {
                Some((right, q)) => {
                    left = Expr::Or(Box::new(left), Box::new(right));
                    p = q;
                },
                None => return None,
            }
        }
        Some((left, p))
    }

    fn parse_and(tokens: &Vec<Token>, pos: usize) -> (r: Option<(Expr, usize)>)
        requires
            pos <= tokens@.len(),
        ensures
            match r {
                Some((e, q)) => parse_and_at(toks_of(tokens@), pos as int) == Some(
                    (ast_of(e), q as int),
                ) && pos < q <= tokens@.len(),
                None => parse_and_at(toks_of(tokens@), pos as int) is None,
            },
        decreases tokens@.len() - pos, 2int,
    {
        let ghost t = toks_of(tokens@);
        let (mut left, mut p) = match Self::parse_not(tokens, pos) {
            Some(x) => x,
            None => return None,
        };
        while p < tokens.len() && matches!(tokens[p], Token::And)
            invariant
                t == toks_of(tokens@),
                pos < p <= tokens@.len(),
                parse_and_at(t, pos as int) == and_tail(t, ast_of(left), p as int),
            decreases tokens@.len() - p,
        {
            assert(t[p as int] is And);
            match Self::parse_not(tokens, p + 1) {
                Some((right, q)) => {
                    left = Expr::And(Box::new(left), Box::new(right));
                    p = q;
                },
                None => return None,
            }
        }
        Some((left, p))
    }

    fn parse_not(tokens: &Vec<Token>, pos: usize) -> (r: Option<(Expr, usize)>)
        requires
            pos <= tokens@.len(),
        ensures
            match r {
                Some((e, q)) => parse_not_at(toks_of(tokens@), pos as int) == Some(
                    (ast_of(e), q as int),
                ) && pos < q <= tokens@.len(),
                None => parse_not_at(toks_of(tokens@), pos as int) is None,
            },
        decreases tokens@.len() - pos, 1int,
    {
        if pos < tokens.len() && matches!(tokens[pos], Token::Not) {
            match Self::parse_primary(tokens, pos + 1) {
                Some((e, q)) => Some((Expr::Not(Box::new(e)), q)),
                None => None,
            }
        } else {
            Self::parse_primary(tokens, pos)
        }
    }

    fn parse_primary(tokens: &Vec<Token>, pos: usize) -> (r: Option<(Expr, usize)>)
        requires
            pos <= tokens@.len(),
        ensures
            match r {
                Some((e, q)) => parse_primary_at(toks_of(tokens@), pos as int) == Some(
                    (ast_of(e), q as int),
                ) && pos < q <= tokens@.len(),
                None => parse_primary_at(toks_of(tokens@), pos as int) is None,
            },
        decreases tokens@.len() - pos, 0int,
    {
        if pos >= tokens.len() {
            return None;
        }
        match &tokens[pos] {
            Token::Word(w) => Some((Expr::Word(w.clone()), pos + 1)),
            Token::LParen => match Self::parse_or(tokens, pos + 1) {
                Some((e, q)) => {
                    if q < tokens.len() && matches!(tokens[q], Token::RParen) {
                        Some((e, q + 1))
                    } else {
                        None
                    }
                },
                None => None,
            },
            _ => None,
        }
    }

    /// Parses a token sequence into an expression tree; `None` where the
    /// sequence is not exactly one complete expression.
    pub fn parse(tokens: Vec<Token>) -> (r: Option<Expr>)
        ensures
            match r {
                Some(e) => parse_tokens(toks_of(tokens@)) == Some(ast_of(e)),
                None => parse_tokens(toks_of(tokens@)) is None,
            },
    {
        match Self::parse_or(&tokens, 0) {
            Some((e, q)) => if q == tokens.len() {
                Some(e)
            } else {
                None
            },
            None => None,
        }
    }
}

/// How a tree prints: words as they are, every operator in parentheses,
/// negation as `~( )`.
pub open spec fn ast_text(a: Ast) -> Seq<char>
    decreases a,
{
    match a {
        Ast::Word(w) => w,
        Ast::Not(inner) => seq!['~', '('] + ast_text(*inner) + seq![')'],
        Ast::And(l, r) => seq!['('] + ast_text(*l) + seq![' ', '&', '&', ' '] + ast_text(*r) + seq![
            ')',
        ],
        Ast::Or(l, r) => seq!['('] + ast_text(*l) + seq![' ', '|', '|', ' '] + ast_text(*r) + seq![
            ')',
        ],
    }
}

/// How a whole query prints: as `ast_text` does, but without parentheses
/// around the top operator, so `Or(And(a, b), Not(c))` prints as
/// `(a && b) || ~(c)`.
pub open spec fn top_text(a: Ast) -> Seq<char> {
    match a {
        Ast::And(l, r) => ast_text(*l) + seq![' ', '&', '&', ' '] + ast_text(*r),
        Ast::Or(l, r) => ast_text(*l) + seq![' ', '|', '|', ' '] + ast_text(*r),
        _ => ast_text(a),
    }
}

/// The canonical query text of a tree: printed as `ast_text` does, but with
/// every word in double quotes, so that the query language reads it back.
pub open spec fn canonical_text(a: Ast) -> Seq<char>
    decreases a,
{
    match a {
        Ast::Word(w) => seq!['"'] + w + seq!['"'],
        Ast::Not(inner) => seq!['~', '('] + canonical_text(*inner) + seq![')'],
        Ast::And(l, r) => seq!['('] + canonical_text(*l) + seq![' ', '&', '&', ' ']
            + canonical_text(*r) + seq![')'],
        Ast::Or(l, r) => seq!['('] + canonical_text(*l) + seq![' ', '|', '|', ' ']
            + canonical_text(*r) + seq![')'],
    }
}

/// No word of the tree holds a double quote.
pub open spec fn quote_free(a: Ast) -> bool
    decreases a,
{
    match a {
        Ast::Word(w) => forall|k: int| 0 <= k < w.len() ==> #[trigger] w[k] != '"',
        Ast::Not(inner) => quote_free(*inner),
        Ast::And(l, r) => quote_free(*l) && quote_free(*r),
        Ast::Or(l, r) => quote_free(*l) && quote_free(*r),
    }
}

/// The tokens of a tree's canonical text.
pub open spec fn canonical_tokens(a: Ast) -> Seq<Tok>
    decreases a,
{
    match a {
        Ast::Word(w) => seq![Tok::Word(w)],
        Ast::Not(inner) => seq![Tok::Not, Tok::LParen] + canonical_tokens(*inner) + seq![
            Tok::RParen,
        ],
        Ast::And(l, r) => seq![Tok::LParen] + canonical_tokens(*l) + seq![Tok::And]
            + canonical_tokens(*r) + seq![Tok::RParen],
        Ast::Or(l, r) => seq![Tok::LParen] + canonical_tokens(*l) + seq![Tok::Or]
            + canonical_tokens(*r) + seq![Tok::RParen],
    }
}

proof fn lemma_word_len(s: Seq<char>, k: int, n: nat)
    requires
        0 <= k,
        k + n < s.len(),
        forall|j: int| k <= j < k + n ==> #[trigger] s[j] != '"',
        s[k + n] == '"',
    ensures
        word_len(s, k) == n,
    decreases n,
{
    if n > 0 {
        lemma_word_len(s, k + 1, (n - 1) as nat);
    }
}

proof fn lemma_lex_canonical(s: Seq<char>, i: int, a: Ast)
    requires
        quote_free(a),
        0 <= i,
        i + canonical_text(a).len() <= s.len(),
        s.subrange(i, i + canonical_text(a).len()) == canonical_text(a),
    ensures
        canonical_text(a).len() >= 1,
        lex_from(s, i) == then_tokens(
            canonical_tokens(a),
            lex_from(s, i + canonical_text(a).len()),
        ),
    decreases a,
{
    let x = canonical_text(a);
    let e = i + x.len();
    assert(forall|k: int| 0 <= k < x.len() ==> s[i + k] == #[trigger] x[k]) by {
        assert forall|k: int| 0 <= k < x.len() implies s[i + k] == #[trigger] x[k] by {
            assert(s.subrange(i, e)[k] == s[i + k]);
        }
    }
    match a {
        Ast::Word(w) => {
            assert(x[0] == '"');
            assert(x[w.len() as int + 1] == '"');
            assert forall|j: int| i + 1 <= j < i + 1 + w.len() implies #[trigger] s[j] != '"' by {
                assert(x[j - i] == w[j - i - 1]);
            }
            lemma_word_len(s, i + 1, w.len());
            assert(s.subrange(i + 1, i + 1 + w.len()) =~= w) by {
                assert forall|k: int| 0 <= k < w.len() implies s.subrange(
                    i + 1,
                    i + 1 + w.len(),
                )[k] == w[k] by {
                    assert(x[k + 1] == w[k]);
                }
            }
            assert(s[i] == x[0]);
            assert(s[i] == '"');
            assert(x.len() == w.len() + 2);
            assert(word_len(s, i + 1) == w.len());
            assert(lex_from(s, i) == then_tokens(
                seq![Tok::Word(s.subrange(i + 1, i + 1 + w.len()))],
                lex_from(s, i + 2 + w.len()),
            ));
            assert(canonical_tokens(a) == seq![Tok::Word(w)]);
            assert(seq![Tok::Word(s.subrange(i + 1, i + 1 + w.len()))] =~= seq![Tok::Word(w)]);
            assert(e == i + 2 + w.len());
            assert(lex_from(s, i) == then_tokens(canonical_tokens(a), lex_from(s, e)));
        },
        Ast::Not(inner) => {
            let xi = canonical_text(*inner);
            assert(x[0] == '~');
            assert(x[1] == '(');
            assert(x[xi.len() as int + 2] == ')');
            assert(s.subrange(i + 2, i + 2 + xi.len()) =~= xi) by {
                assert forall|k: int| 0 <= k < xi.len() implies s.subrange(
                    i + 2,
                    i + 2 + xi.len(),
                )[k] == xi[k] by {
                    assert(x[k + 2] == xi[k]);
                }
            }
            lemma_lex_canonical(s, i + 2, *inner);
            let ti = canonical_tokens(*inner);
            let after = lex_from(s, e);
            assert(s[i] == x[0]);
            assert(s[i + 1] == x[1]);
            assert(s[i + 2 + xi.len()] == x[xi.len() as int + 2]);
            assert(e == i + 3 + xi.len());
            assert(lex_from(s, i) == then_tokens(seq![Tok::Not], lex_from(s, i + 1)));
            assert(lex_from(s, i + 1) == then_tokens(seq![Tok::LParen], lex_from(s, i + 2)));
            assert(lex_from(s, i + 2 + xi.len()) == then_tokens(seq![Tok::RParen], after));
            lemma_then_tokens(ti, seq![Tok::RParen], after);
            lemma_then_tokens(seq![Tok::LParen], ti + seq![Tok::RParen], after);
            lemma_then_tokens(seq![Tok::Not], seq![Tok::LParen] + (ti + seq![Tok::RParen]), after);
            assert(seq![Tok::Not] + (seq![Tok::LParen] + (ti + seq![Tok::RParen]))
                =~= canonical_tokens(a));
            assert(lex_from(s, i) == then_tokens(canonical_tokens(a), lex_from(s, e)));
        },
        Ast::And(l, r) => {
            let xl = canonical_text(*l);
            let xr = canonical_text(*r);
            lemma_binary_parts(s, i, xl, xr, '&');
            lemma_lex_canonical(s, i + 1, *l);
            lemma_lex_canonical(s, i + 5 + xl.len(), *r);
            lemma_binary_lex(
                s,
                i,
                canonical_tokens(*l),
                canonical_tokens(*r),
                xl.len() as int,
                xr.len() as int,
                '&',
                Tok::And,
            );
        },
        Ast::Or(l, r) => {
            let xl = canonical_text(*l);
            let xr = canonical_text(*r);
            lemma_binary_parts(s, i, xl, xr, '|');
            lemma_lex_canonical(s, i + 1, *l);
            lemma_lex_canonical(s, i + 5 + xl.len(), *r);
            lemma_binary_lex(
                s,
                i,
                canonical_tokens(*l),
                canonical_tokens(*r),
                xl.len() as int,
                xr.len() as int,
                '|',
                Tok::Or,
            );
        },
    }
}

proof fn lemma_binary_parts(s: Seq<char>, i: int, xl: Seq<char>, xr: Seq<char>, op: char)
    requires
        0 <= i,
        ({
            let x = seq!['('] + xl + seq![' ', op, op, ' '] + xr + seq![')'];
            i + x.len() <= s.len() && s.subrange(i, i + x.len()) == x
        }),
    ensures
        s[i] == '(',
        s[i + 1 + xl.len()] == ' ',
        s[i + 2 + xl.len()] == op,
        s[i + 3 + xl.len()] == op,
        s[i + 4 + xl.len()] == ' ',
        s[i + 5 + xl.len() + xr.len()] == ')',
        s.subrange(i + 1, i + 1 + xl.len()) == xl,
        s.subrange(i + 5 + xl.len(), i + 5 + xl.len() + xr.len()) == xr,
{
    let x = seq!['('] + xl + seq![' ', op, op, ' '] + xr + seq![')'];
    let e = i + x.len();
    let j = i + 1 + xl.len();
    let m = j + 4;
    assert forall|k: int| 0 <= k < x.len() implies s[i + k] == #[trigger] x[k] by {
        assert(s.subrange(i, e)[k] == s[i + k]);
    }
    assert(s[i] == x[0]);
    assert(s[j] == x[xl.len() as int + 1]);
    assert(s[j + 1] == x[xl.len() as int + 2]);
    assert(s[j + 2] == x[xl.len() as int + 3]);
    assert(s[j + 3] == x[xl.len() as int + 4]);
    assert(s[m + xr.len()] == x[xl.len() as int + 5 + xr.len() as int]);
    assert(s.subrange(i + 1, j) =~= xl) by {
        assert forall|k: int| 0 <= k < xl.len() implies s.subrange(i + 1, j)[k] == xl[k] by {
            assert(x[k + 1] == xl[k]);
            assert(s[i + 1 + k] == x[k + 1]);
        }
    }
    assert(s.subrange(m, m + xr.len()) =~= xr) by {
        assert forall|k: int| 0 <= k < xr.len() implies s.subrange(m, m + xr.len())[k] == xr[k] by {
            assert(x[k + xl.len() + 5] == xr[k]);
            assert(s[m + k] == x[k + xl.len() + 5]);
        }
    }
}

proof fn lemma_binary_lex(
    s: Seq<char>,
    i: int,
    tl: Seq<Tok>,
    tr: Seq<Tok>,
    nl: int,
    nr: int,
    op: char,
    tok: Tok,
)
    requires
        0 <= i,
        0 <= nl,
        0 <= nr,
        i + 6 + nl + nr <= s.len(),
        (op == '&' && tok == Tok::And) || (op == '|' && tok == Tok::Or),
        s[i] == '(',
        s[i + 1 + nl] == ' ',
        s[i + 2 + nl] == op,
        s[i + 3 + nl] == op,
        s[i + 4 + nl] == ' ',
        s[i + 5 + nl + nr] == ')',
        lex_from(s, i + 1) == then_tokens(tl, lex_from(s, i + 1 + nl)),
        lex_from(s, i + 5 + nl) == then_tokens(tr, lex_from(s, i + 5 + nl + nr)),
    ensures
        lex_from(s, i) == then_tokens(
            seq![Tok::LParen] + tl + seq![tok] + tr + seq![Tok::RParen],
            lex_from(s, i + 6 + nl + nr),
        ),
{
    let j = i + 1 + nl;
    let m = j + 4;
    let after = lex_from(s, i + 6 + nl + nr);
    assert(lex_from(s, m + nr) == then_tokens(seq![Tok::RParen], after));
    assert(lex_from(s, j + 3) == lex_from(s, m));
    assert(lex_from(s, j + 1) == then_tokens(seq![tok], lex_from(s, j + 3)));
    assert(lex_from(s, j) == lex_from(s, j + 1));
    assert(lex_from(s, i) == then_tokens(seq![Tok::LParen], lex_from(s, i + 1)));
    lemma_then_tokens(tr, seq![Tok::RParen], after);
    lemma_then_tokens(seq![tok], tr + seq![Tok::RParen], after);
    lemma_then_tokens(tl, seq![tok] + (tr + seq![Tok::RParen]), after);
    lemma_then_tokens(seq![Tok::LParen], tl + (seq![tok] + (tr + seq![Tok::RParen])), after);
    assert(seq![Tok::LParen] + (tl + (seq![tok] + (tr + seq![Tok::RParen]))) =~= seq![Tok::LParen]
        + tl + seq![tok] + tr + seq![Tok::RParen]);
}

proof fn lemma_or_of_not(t: Seq<Tok>, q: int, x: Ast, q2: int)
    requires
        0 <= q < q2 <= t.len(),
        parse_not_at(t, q) == Some((x, q2)),
        q2 == t.len() || !(t[q2] is And || t[q2] is Or),
    ensures
        parse_and_at(t, q) == Some((x, q2)),
        parse_or_at(t, q) == Some((x, q2)),
{
    assert(and_tail(t, x, q2) == Some((x, q2)));
    assert(or_tail(t, x, q2) == Some((x, q2)));
}

proof fn lemma_tok_binary_parts(t: Seq<Tok>, p: int, tl: Seq<Tok>, tr: Seq<Tok>, op: Tok)
    requires
        0 <= p,
        ({
            let x = seq![Tok::LParen] + tl + seq![op] + tr + seq![Tok::RParen];
            p + x.len() <= t.len() && t.subrange(p, p + x.len()) == x
        }),
    ensures
        t[p] == Tok::LParen,
        t[p + 1 + tl.len()] == op,
        t[p + 2 + tl.len() + tr.len()] == Tok::RParen,
        t.subrange(p + 1, p + 1 + tl.len()) == tl,
        t.subrange(p + 2 + tl.len(), p + 2 + tl.len() + tr.len()) == tr,
{
    let x = seq![Tok::LParen] + tl + seq![op] + tr + seq![Tok::RParen];
    let e = p + x.len();
    assert forall|k: int| 0 <= k < x.len() implies t[p + k] == #[trigger] x[k] by {
        assert(t.subrange(p, e)[k] == t[p + k]);
    }
    assert(t[p] == x[0]);
    assert(t[p + 1 + tl.len()] == x[tl.len() as int + 1]);
    assert(t[p + 2 + tl.len() + tr.len()] == x[tl.len() as int + 2 + tr.len() as int]);
    assert(t.subrange(p + 1, p + 1 + tl.len()) =~= tl) by {
        assert forall|k: int| 0 <= k < tl.len() implies t.subrange(p + 1, p + 1 + tl.len())[k]
            == tl[k] by {
            assert(x[k + 1] == tl[k]);
            assert(t[p + 1 + k] == x[k + 1]);
        }
    }
    assert(t.subrange(p + 2 + tl.len(), p + 2 + tl.len() + tr.len()) =~= tr) by {
        assert forall|k: int| 0 <= k < tr.len() implies t.subrange(
            p + 2 + tl.len(),
            p + 2 + tl.len() + tr.len(),
        )[k] == tr[k] by {
            assert(x[k + tl.len() + 2] == tr[k]);
            assert(t[p + 2 + tl.len() + k] == x[k + tl.len() + 2]);
        }
    }
}

proof fn lemma_parse_canonical(t: Seq<Tok>, p: int, a: Ast)
    requires
        0 <= p,
        p + canonical_tokens(a).len() <= t.len(),
        t.subrange(p, p + canonical_tokens(a).len()) == canonical_tokens(a),
    ensures
        canonical_tokens(a).len() >= 1,
        parse_not_at(t, p) == Some((a, p + canonical_tokens(a).len())),
    decreases a,
{
    let x = canonical_tokens(a);
    let e = p + x.len();
    assert forall|k: int| 0 <= k < x.len() implies t[p + k] == #[trigger] x[k] by {
        assert(t.subrange(p, e)[k] == t[p + k]);
    }
    match a {
        Ast::Word(w) => {
            assert(t[p] == x[0]);
        },
        Ast::Not(inner) => {
            let ti = canonical_tokens(*inner);
            assert(t[p] == x[0]);
            assert(t[p + 1] == x[1]);
            assert(t[p + 2 + ti.len()] == x[ti.len() as int + 2]);
            assert(t.subrange(p + 2, p + 2 + ti.len()) =~= ti) by {
                assert forall|k: int| 0 <= k < ti.len() implies t.subrange(
                    p + 2,
                    p + 2 + ti.len(),
                )[k] == ti[k] by {
                    assert(x[k + 2] == ti[k]);
                    assert(t[p + 2 + k] == x[k + 2]);
                }
            }
            lemma_parse_canonical(t, p + 2, *inner);
            lemma_or_of_not(t, p + 2, *inner, p + 2 + ti.len());
            assert(parse_primary_at(t, p + 1) == Some((*inner, p + 3 + ti.len())));
        },
        Ast::And(l, r) => {
            let tl = canonical_tokens(*l);
            let tr = canonical_tokens(*r);
            lemma_tok_binary_parts(t, p, tl, tr, Tok::And);
            lemma_parse_canonical(t, p + 1, *l);
            lemma_parse_canonical(t, p + 2 + tl.len(), *r);
            let q1 = p + 1 + tl.len();
            let q2 = q1 + 1 + tr.len();
            assert(and_tail(t, a, q2) == Some((a, q2)));
            assert(and_tail(t, *l, q1) == Some((a, q2)));
            assert(parse_and_at(t, p + 1) == Some((a, q2)));
            assert(or_tail(t, a, q2) == Some((a, q2)));
            assert(parse_or_at(t, p + 1) == Some((a, q2)));
            assert(parse_primary_at(t, p) == Some((a, q2 + 1)));
        },
        Ast::Or(l, r) => {
            let tl = canonical_tokens(*l);
            let tr = canonical_tokens(*r);
            lemma_tok_binary_parts(t, p, tl, tr, Tok::Or);
            lemma_parse_canonical(t, p + 1, *l);
            lemma_parse_canonical(t, p + 2 + tl.len(), *r);
            let q1 = p + 1 + tl.len();
            let q2 = q1 + 1 + tr.len();
            assert(and_tail(t, *l, q1) == Some((*l, q1)));
            assert(parse_and_at(t, p + 1) == Some((*l, q1)));
            lemma_or_of_not(t, q1 + 1, *r, q2);
            assert(or_tail(t, a, q2) == Some((a, q2)));
            assert(or_tail(t, *l, q1) == Some((a, q2)));
            assert(parse_or_at(t, p + 1) == Some((a, q2)));
            assert(parse_primary_at(t, p) == Some((a, q2 + 1)));
        },
    }
}

/// Query round trip: a tree printed in canonical form, every word quoted,
/// reads back as the same tree, provided no word holds a double quote.
pub proof fn lemma_canonical_round_trip(a: Ast)
    requires
        quote_free(a),
    ensures
        parse_query(canonical_text(a)) == Some(a),
{
    let s = canonical_text(a);
    let t = canonical_tokens(a);
    assert(s.subrange(0, s.len() as int) =~= s);
    lemma_lex_canonical(s, 0, a);
    assert(lex_from(s, s.len() as int) == Ok::<Seq<Tok>, QueryError>(Seq::empty()));
    assert(t + Seq::<Tok>::empty() =~= t);
    assert(lex(s) == Ok::<Seq<Tok>, QueryError>(t));
    assert(t.subrange(0, t.len() as int) =~= t);
    lemma_parse_canonical(t, 0, a);
    lemma_or_of_not(t, 0, a, t.len() as int);
}

impl Expr {
    /// The query printed: words as they are, every operator but the top one
    /// in parentheses.
    pub fn to_string(&self) -> (r: String)
        ensures
            r@ == top_text(ast_of(*self)),
    {
        proof {
            reveal_strlit(" && ");
            reveal_strlit(" || ");
        }
        match self {
            Expr::And(l, r) => l.nested_text().concat(" && ").concat(r.nested_text().as_str()),
            Expr::Or(l, r) => l.nested_text().concat(" || ").concat(r.nested_text().as_str()),
            _ => self.nested_text(),
        }
    }

    /// The tree printed: words as they are, every operator in parentheses.
    fn nested_text(&self) -> (r: String)
        ensures
            r@ == ast_text(ast_of(*self)),
        decreases self,
    {
        proof {
            reveal_strlit("~(");
            reveal_strlit(")");
            reveal_strlit("(");
            reveal_strlit(" && ");
            reveal_strlit(" || ");
        }
        match self {
            Expr::Word(word) => word.clone(),
            Expr::Not(inner) => String::from_str("~(").concat(inner.nested_text().as_str()).concat(
                ")",
            ),
            Expr::And(l, r) => String::from_str("(").concat(l.nested_text().as_str()).concat(
                " && ",
            ).concat(r.nested_text().as_str()).concat(")"),
            Expr::Or(l, r) => String::from_str("(").concat(l.nested_text().as_str()).concat(
                " || ",
            ).concat(r.nested_text().as_str()).concat(")"),
        }
    }

    /// The tree's canonical query text, which reads back as the same tree.
    pub fn to_query_string(&self) -> (r: String)
        ensures
            r@ == canonical_text(ast_of(*self)),
        decreases self,
    {
        proof {
            reveal_strlit("\"");
            reveal_strlit("~(");
            reveal_strlit(")");
            reveal_strlit("(");
            reveal_strlit(" && ");
            reveal_strlit(" || ");
        }
        match self {
            Expr::Word(word) => String::from_str("\"").concat(word.as_str()).concat("\""),
            Expr::Not(inner) => String::from_str("~(").concat(
                inner.to_query_string().as_str(),
            ).concat(")"),
            Expr::And(l, r) => String::from_str("(").concat(l.to_query_string().as_str()).concat(
                " && ",
            ).concat(r.to_query_string().as_str()).concat(")"),
            Expr::Or(l, r) => String::from_str("(").concat(l.to_query_string().as_str()).concat(
                " || ",
            ).concat(r.to_query_string().as_str()).concat(")"),
        }
    }
}

} // verus!
