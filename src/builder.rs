//! Building queries in code: an expression tree whose printed form the query
//! language reads back, and a fluent builder over it.
use crate::query::Ast;
use vstd::prelude::*;

verus! {

/// A query expression built in code.
#[derive(Debug)]
pub enum QueryExpr {
    /// A word or phrase.
    Word(String),
    /// Negation.
    Not(Box<QueryExpr>),
    /// Both sides.
    And(Box<QueryExpr>, Box<QueryExpr>),
    /// Either side.
    Or(Box<QueryExpr>, Box<QueryExpr>),
}

/// The tree that a built expression stands for.
pub open spec fn query_ast(e: QueryExpr) -> Ast
    decreases e,
{
    match e {
        QueryExpr::Word(w) => Ast::Word(w@),
        QueryExpr::Not(inner) => Ast::Not(Box::new(query_ast(*inner))),
        QueryExpr::And(l, r) => Ast::And(Box::new(query_ast(*l)), Box::new(query_ast(*r))),
        QueryExpr::Or(l, r) => Ast::Or(Box::new(query_ast(*l)), Box::new(query_ast(*r))),
    }
}

pub open spec fn is_plain_char(c: char) -> bool {
    ('a' <= c && c <= 'z') || ('A' <= c && c <= 'Z') || ('0' <= c && c <= '9')
}

/// A word needs quotes where it holds any character but an ASCII letter or
/// digit.
pub open spec fn needs_quotes(w: Seq<char>) -> bool {
    exists|i: int| 0 <= i < w.len() && !is_plain_char(#[trigger] w[i])
}

/// A word as it is written in a query.
pub open spec fn word_text(w: Seq<char>) -> Seq<char> {
    if needs_quotes(w) {
        seq!['"'] + w + seq!['"']
    } else {
        w
    }
}

/// The printed form of a tree: every operator in parentheses, negation as
/// `~( )`.
pub open spec fn query_text(a: Ast) -> Seq<char>
    decreases a,
{
    match a {
        Ast::Word(w) => word_text(w),
        Ast::Not(inner) => seq!['~', '('] + query_text(*inner) + seq![')'],
        Ast::And(l, r) => seq!['('] + query_text(*l) + seq![' ', '&', '&', ' '] + query_text(*r)
            + seq![')'],
        Ast::Or(l, r) => seq!['('] + query_text(*l) + seq![' ', '|', '|', ' '] + query_text(*r)
            + seq![')'],
    }
}

fn word_needs_quotes(w: &str) -> (r: bool)
    ensures
        r == needs_quotes(w@),
{
    let n = w.unicode_len();
    let mut i: usize = 0;
    while i < n
        invariant
            n == w@.len(),
            i <= n,
            forall|j: int| 0 <= j < i ==> is_plain_char(#[trigger] w@[j]),
        decreases n - i,
    {
        let c = w.get_char(i);
        if !(('a' <= c && c <= 'z') || ('A' <= c && c <= 'Z') || ('0' <= c && c <= '9')) {
            return true;
        }
        i = i + 1;
    }
    false
}

impl QueryExpr {
    /// A word or phrase.
    pub fn word(word: &str) -> (r: QueryExpr)
        ensures
            query_ast(r) == Ast::Word(word@),
    {
        QueryExpr::Word(String::from_str(word))
    }

    /// The negation of this expression.
    pub fn not(self) -> (r: QueryExpr)
        ensures
            query_ast(r) == Ast::Not(Box::new(query_ast(self))),
    {
        QueryExpr::Not(Box::new(self))
    }

    /// This expression and another.
    pub fn and(self, other: QueryExpr) -> (r: QueryExpr)
        ensures
            query_ast(r) == Ast::And(Box::new(query_ast(self)), Box::new(query_ast(other))),
    {
        QueryExpr::And(Box::new(self), Box::new(other))
    }

    /// This expression or another.
    pub fn or(self, other: QueryExpr) -> (r: QueryExpr)
        ensures
            query_ast(r) == Ast::Or(Box::new(query_ast(self)), Box::new(query_ast(other))),
    {
        QueryExpr::Or(Box::new(self), Box::new(other))
    }

    /// The query text of this expression.
    pub fn to_query_string(&self) -> (r: String)
        ensures
            r@ == query_text(query_ast(*self)),
        decreases self,
    {
        proof {
            reveal_strlit("\"");
            reveal_strlit("~(");
            reveal_strlit(")");
            reveal_strlit("(");
            reveal_strlit(" && ");
            reveal_strlit(" || ");
        }
        match self {
            QueryExpr::Word(word) => {
                if word_needs_quotes(word.as_str()) {
                    let s = String::from_str("\"");
                    let s = s.concat(word.as_str());
                    s.concat("\"")
                } else {
                    word.clone()
                }
            },
            QueryExpr::Not(inner) => {
                let s = String::from_str("~(");
                let s = s.concat(inner.to_query_string().as_str());
                s.concat(")")
            },
            QueryExpr::And(l, r) => {
                let s = String::from_str("(");
                let s = s.concat(l.to_query_string().as_str());
                let s = s.concat(" && ");
                let s = s.concat(r.to_query_string().as_str());
                s.concat(")")
            },
            QueryExpr::Or(l, r) => {
                let s = String::from_str("(");
                let s = s.concat(l.to_query_string().as_str());
                let s = s.concat(" || ");
                let s = s.concat(r.to_query_string().as_str());
                s.concat(")")
            },
        }
    }
}

/// The tree built so far, if any.
pub open spec fn built(e: Option<QueryExpr>) -> Option<Ast> {
    match e {
        Some(x) => Some(query_ast(x)),
        None => None,
    }
}

/// `existing` joined with `new` by `and` (or `or`), or `new` alone where
/// nothing was built yet.
pub open spec fn joined(existing: Option<Ast>, new: Ast, conj: bool) -> Ast {
    match existing {
        Some(x) => if conj {
            Ast::And(Box::new(x), Box::new(new))
        } else {
            Ast::Or(Box::new(x), Box::new(new))
        },
        None => new,
    }
}

/// Builds a query step by step, each step joining the expression so far.
pub struct QueryBuilder {
    pub expr: Option<QueryExpr>,
}

impl QueryBuilder {
    /// An empty builder.
    pub fn new() -> (r: QueryBuilder)
        ensures
            r.expr is None,
    {
        QueryBuilder { expr: None }
    }

    /// A builder that starts with a word.
    pub fn word(word: &str) -> (r: QueryBuilder)
        ensures
            built(r.expr) == Some(Ast::Word(word@)),
    {
        QueryBuilder { expr: Some(QueryExpr::word(word)) }
    }

    /// Joins a word with `&&`.
    pub fn and(self, word: &str) -> (r: QueryBuilder)
        ensures
            built(r.expr) == Some(joined(built(self.expr), Ast::Word(word@), true)),
    {
        self.and_expr(QueryExpr::word(word))
    }

    /// Joins an expression with `&&`.
    pub fn and_expr(self, expr: QueryExpr) -> (r: QueryBuilder)
        ensures
            built(r.expr) == Some(joined(built(self.expr), query_ast(expr), true)),
    {
        let e = match self.expr {
            Some(existing) => existing.and(expr),
            None => expr,
        };
        QueryBuilder { expr: Some(e) }
    }

    /// Joins a word with `||`.
    pub fn or(self, word: &str) -> (r: QueryBuilder)
        ensures
            built(r.expr) == Some(joined(built(self.expr), Ast::Word(word@), false)),
    {
        self.or_expr(QueryExpr::word(word))
    }

    /// Joins an expression with `||`.
    pub fn or_expr(self, expr: QueryExpr) -> (r: QueryBuilder)
        ensures
            built(r.expr) == Some(joined(built(self.expr), query_ast(expr), false)),
    {
        let e = match self.expr {
            Some(existing) => existing.or(expr),
            None => expr,
        };
        QueryBuilder { expr: Some(e) }
    }

    /// Negates the whole expression so far; an empty builder stays empty.
    pub fn not(self) -> (r: QueryBuilder)
        ensures
            built(r.expr) == match built(self.expr) {
                Some(x) => Some(Ast::Not(Box::new(x))),
                None => None,
            },
    {
        match self.expr {
            Some(e) => QueryBuilder { expr: Some(e.not()) },
            None => QueryBuilder { expr: None },
        }
    }

    /// The expression built, if any.
    pub fn build(self) -> (r: Option<QueryExpr>)
        ensures
            built(r) == built(self.expr),
    {
        self.expr
    }

    /// The query text of the expression built, if any.
    pub fn to_query_string(self) -> (r: Option<String>)
        ensures
            match built(self.expr) {
                Some(a) => r is Some && r.unwrap()@ == query_text(a),
                None => r is None,
            },
    {
        match self.expr {
            Some(e) => Some(e.to_query_string()),
            None => None,
        }
    }
}

impl Default for QueryBuilder {
    fn default() -> (r: QueryBuilder)
        ensures
            r.expr is None,
    {
        QueryBuilder::new()
    }
}

} // verus!
