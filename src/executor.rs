//! Evaluating a query tree against the postings of its keywords.
//!
//! A result maps each matching document to the keywords it matched, with
//! their scores. Results are kept as lists of pairs with distinct keys, in a
//! fixed order. The score type is left open: the evaluation only carries
//! scores from postings to results.
//!
//! Negation is relative: `~e` keeps the documents of the *ambient* result
//! that `e` does not match. The ambient of a node is the result computed just
//! before it within its enclosing expression: for the right side of `&&` and
//! `||` the left side's result, and for the whole query nothing. So
//! `"a" && ~"b"` is the documents of `"a"` without those of `"b"`, and a query
//! that is only a negation matches nothing.
use crate::query::{ast_of, parse_query, Ast, Expr, QueryError, StringTokenizer};
use vstd::prelude::*;

verus! {

/// Keyword matches of one document, in the order they were found.
pub type Kws<S> = Seq<(Seq<char>, S)>;

/// Matching documents, each with its keyword matches.
pub type Hits<S> = Seq<(Seq<char>, Kws<S>)>;

/// The keys of a list of pairs.
pub open spec fn keys_of<V>(m: Seq<(Seq<char>, V)>) -> Seq<Seq<char>> {
    m.map_values(|e: (Seq<char>, V)| e.0)
}

/// The views of the string keys of a list of pairs.
pub open spec fn key_views<V>(m: Seq<(String, V)>) -> Seq<Seq<char>> {
    m.map_values(|e: (String, V)| e.0@)
}

/// The position of the last occurrence of `k`, or -1.
pub open spec fn last_index(keys: Seq<Seq<char>>, k: Seq<char>) -> int
    decreases keys.len(),
{
    if keys.len() == 0 {
        -1
    } else if keys.last() == k {
        keys.len() - 1
    } else {
        last_index(keys.drop_last(), k)
    }
}

/// `a` followed by the matches of `b` whose keyword `a` (as it grows) does
/// not hold yet.
pub open spec fn merge_kws<S>(a: Kws<S>, b: Kws<S>) -> Kws<S>
    decreases b.len(),
{
    if b.len() == 0 {
        a
    } else {
        let m = merge_kws(a, b.drop_last());
        if last_index(keys_of(m), b.last().0) >= 0 {
            m
        } else {
            m.push(b.last())
        }
    }
}

/// The documents of the postings of word `w`, each matching `w` with its
/// posting's score; a later posting of a document replaces an earlier one.
pub open spec fn word_hits<S>(w: Seq<char>, ps: Seq<(Seq<char>, S)>) -> Hits<S>
    decreases ps.len(),
{
    if ps.len() == 0 {
        Seq::empty()
    } else {
        let m = word_hits(w, ps.drop_last());
        let d = ps.last().0;
        let i = last_index(keys_of(m), d);
        if i >= 0 {
            m.update(i, (d, seq![(w, ps.last().1)]))
        } else {
            m.push((d, seq![(w, ps.last().1)]))
        }
    }
}

/// The documents of `l` that `r` holds too, with the matches of both.
pub open spec fn and_hits<S>(l: Hits<S>, r: Hits<S>) -> Hits<S>
    decreases l.len(),
{
    if l.len() == 0 {
        Seq::empty()
    } else {
        let m = and_hits(l.drop_last(), r);
        let j = last_index(keys_of(r), l.last().0);
        if j >= 0 {
            m.push((l.last().0, merge_kws(l.last().1, r[j].1)))
        } else {
            m
        }
    }
}

/// The documents of `l` and then those of `r` that `l` lacks; a document of
/// both gets the matches of both.
pub open spec fn or_hits<S>(l: Hits<S>, r: Hits<S>) -> Hits<S>
    decreases r.len(),
{
    if r.len() == 0 {
        l
    } else {
        let m = or_hits(l, r.drop_last());
        let d = r.last().0;
        let i = last_index(keys_of(m), d);
        if i >= 0 {
            m.update(i, (d, merge_kws(m[i].1, r.last().1)))
        } else {
            m.push(r.last())
        }
    }
}

/// The documents of `amb` that `inner` does not hold.
pub open spec fn not_hits<S>(amb: Hits<S>, inner: Hits<S>) -> Hits<S>
    decreases amb.len(),
{
    if amb.len() == 0 {
        Seq::empty()
    } else {
        let m = not_hits(amb.drop_last(), inner);
        if last_index(keys_of(inner), amb.last().0) >= 0 {
            m
        } else {
            m.push(amb.last())
        }
    }
}

/// The postings that `cache` holds for `w`; none where it holds no entry.
pub open spec fn postings_of<S>(cache: Hits<S>, w: Seq<char>) -> Kws<S> {
    let i = last_index(keys_of(cache), w);
    if i >= 0 {
        cache[i].1
    } else {
        Seq::empty()
    }
}

/// The result of tree `a` with keyword postings `cache` and ambient `amb`.
pub open spec fn eval<S>(a: Ast, cache: Hits<S>, amb: Hits<S>) -> Hits<S>
    decreases a,
{
    match a {
        Ast::Word(w) => word_hits(w, postings_of(cache, w)),
        Ast::Not(inner) => not_hits(amb, eval(*inner, cache, amb)),
        Ast::And(l, r) => {
            let lh = eval(*l, cache, amb);
            and_hits(lh, eval(*r, cache, lh))
        },
        Ast::Or(l, r) => {
            let lh = eval(*l, cache, amb);
            or_hits(lh, eval(*r, cache, lh))
        },
    }
}

/// The words of a tree, left to right, repeats kept.
pub open spec fn words_of(a: Ast) -> Seq<Seq<char>>
    decreases a,
{
    match a {
        Ast::Word(w) => seq![w],
        Ast::Not(inner) => words_of(*inner),
        Ast::And(l, r) => words_of(*l) + words_of(*r),
        Ast::Or(l, r) => words_of(*l) + words_of(*r),
    }
}

pub open spec fn kws_view<S>(v: Seq<(String, S)>) -> Kws<S> {
    v.map_values(|p: (String, S)| (p.0@, p.1))
}

pub open spec fn hits_view<S>(v: Seq<(String, Vec<(String, S)>)>) -> Hits<S> {
    v.map_values(|e: (String, Vec<(String, S)>)| (e.0@, kws_view(e.1@)))
}

proof fn lemma_keys_kws<S>(v: Seq<(String, S)>)
    ensures
        keys_of(kws_view(v)) == key_views(v),
{
    assert(keys_of(kws_view(v)) =~= key_views(v));
}

proof fn lemma_keys_hits<S>(v: Seq<(String, Vec<(String, S)>)>)
    ensures
        keys_of(hits_view(v)) == key_views(v),
{
    assert(keys_of(hits_view(v)) =~= key_views(v));
}

/// Where `k` last occurs among the keys of `m`.
fn find_key<V>(m: &Vec<(String, V)>, k: &String) -> (r: Option<usize>)
    ensures
        match r {
            Some(i) => i as int == last_index(key_views(m@), k@) && i < m@.len(),
            None => last_index(key_views(m@), k@) == -1,
        },
{
    let ghost keys = key_views(m@);
    let mut found: Option<usize> = None;
    let mut i: usize = 0;
    while i < m.len()
        invariant
            i <= m@.len(),
            keys == key_views(m@),
            match found {
                Some(f) => f as int == last_index(keys.subrange(0, i as int), k@) && f < i,
                None => last_index(keys.subrange(0, i as int), k@) == -1,
            },
        decreases m@.len() - i,
    {
        assert(keys.subrange(0, i + 1).drop_last() =~= keys.subrange(0, i as int));
        if m[i].0 == *k {
            found = Some(i);
        }
        i = i + 1;
    }
    assert(keys.subrange(0, m@.len() as int) =~= keys);
    found
}

fn copy_keywords<S: Copy>(v: &Vec<(String, S)>) -> (r: Vec<(String, S)>)
    ensures
        kws_view(r@) == kws_view(v@),
{
    let mut out: Vec<(String, S)> = Vec::new();
    let mut i: usize = 0;
    while i < v.len()
        invariant
            i <= v@.len(),
            kws_view(out@) =~= kws_view(v@.subrange(0, i as int)),
        decreases v@.len() - i,
    {
        let ghost before = out@;
        out.push((v[i].0.clone(), v[i].1));
        assert(kws_view(out@) =~= kws_view(before).push((v@[i as int].0@, v@[i as int].1)));
        assert(v@.subrange(0, i + 1) =~= v@.subrange(0, i as int).push(v@[i as int]));
        i = i + 1;
    }
    assert(v@.subrange(0, v@.len() as int) =~= v@);
    out
}

/// Appends to `into` each match of `from` whose keyword it does not hold.
pub fn merge_keywords<S: Copy>(into: &mut Vec<(String, S)>, from: &Vec<(String, S)>)
    ensures
        kws_view(final(into)@) == merge_kws(kws_view(old(into)@), kws_view(from@)),
{
    let ghost a = kws_view(into@);
    let ghost b = kws_view(from@);
    let mut i: usize = 0;
    while i < from.len()
        invariant
            i <= from@.len(),
            b == kws_view(from@),
            kws_view(into@) == merge_kws(a, b.subrange(0, i as int)),
        decreases from@.len() - i,
    {
        assert(b.subrange(0, i + 1).drop_last() =~= b.subrange(0, i as int));
        proof {
            lemma_keys_kws(into@);
        }
        let found = find_key(into, &from[i].0);
        if found.is_none() {
            let ghost before = into@;
            into.push((from[i].0.clone(), from[i].1));
            assert(kws_view(into@) =~= kws_view(before).push(b[i as int]));
        }
        i = i + 1;
    }
    assert(b.subrange(0, from@.len() as int) =~= b);
}

/// The result of a single word: each document of its postings.
pub fn word_matches<S: Copy>(w: &String, postings: &Vec<(String, S)>) -> (r: Vec<
    (String, Vec<(String, S)>),
>)
    ensures
        hits_view(r@) == word_hits(w@, kws_view(postings@)),
{
    let ghost ps = kws_view(postings@);
    let mut m: Vec<(String, Vec<(String, S)>)> = Vec::new();
    let mut i: usize = 0;
    while i < postings.len()
        invariant
            i <= postings@.len(),
            ps == kws_view(postings@),
            hits_view(m@) == word_hits(w@, ps.subrange(0, i as int)),
        decreases postings@.len() - i,
    {
        assert(ps.subrange(0, i + 1).drop_last() =~= ps.subrange(0, i as int));
        proof {
            lemma_keys_hits(m@);
        }
        let ghost before = m@;
        let entry = (postings[i].0.clone(), vec![(w.clone(), postings[i].1)]);
        assert(kws_view(entry.1@) =~= seq![(w@, ps[i as int].1)]);
        match find_key(&m, &postings[i].0) {
            Some(j) => {
                m.set(j, entry);
                assert(hits_view(m@) =~= hits_view(before).update(
                    j as int,
                    (ps[i as int].0, seq![(w@, ps[i as int].1)]),
                ));
            },
            None => {
                m.push(entry);
                assert(hits_view(m@) =~= hits_view(before).push(
                    (ps[i as int].0, seq![(w@, ps[i as int].1)]),
                ));
            },
        }
        i = i + 1;
    }
    assert(ps.subrange(0, postings@.len() as int) =~= ps);
    m
}

/// The documents of `left` that `right` holds too, with the matches of both.
pub fn and_matches<S: Copy>(
    left: &Vec<(String, Vec<(String, S)>)>,
    right: &Vec<(String, Vec<(String, S)>)>,
) -> (r: Vec<(String, Vec<(String, S)>)>)
    ensures
        hits_view(r@) == and_hits(hits_view(left@), hits_view(right@)),
{
    let ghost l = hits_view(left@);
    let ghost rr = hits_view(right@);
    let mut m: Vec<(String, Vec<(String, S)>)> = Vec::new();
    let mut i: usize = 0;
    proof {
        lemma_keys_hits(right@);
    }
    while i < left.len()
        invariant
            i <= left@.len(),
            l == hits_view(left@),
            rr == hits_view(right@),
            keys_of(rr) == key_views(right@),
            hits_view(m@) == and_hits(l.subrange(0, i as int), rr),
        decreases left@.len() - i,
    {
        assert(l.subrange(0, i + 1).drop_last() =~= l.subrange(0, i as int));
        match find_key(right, &left[i].0) {
            Some(j) => {
                let mut kws = copy_keywords(&left[i].1);
                merge_keywords(&mut kws, &right[j].1);
                let ghost before = m@;
                m.push((left[i].0.clone(), kws));
                assert(hits_view(m@) =~= hits_view(before).push(
                    (l[i as int].0, merge_kws(l[i as int].1, rr[j as int].1)),
                ));
            },
            None => {},
        }
        i = i + 1;
    }
    assert(l.subrange(0, left@.len() as int) =~= l);
    m
}

/// Merges `from` into `into`: a document of both gets the matches of both,
/// a document of `from` alone is added.
pub fn set_merge<S: Copy>(
    into: &mut Vec<(String, Vec<(String, S)>)>,
    from: &Vec<(String, Vec<(String, S)>)>,
)
    ensures
        hits_view(final(into)@) == or_hits(hits_view(old(into)@), hits_view(from@)),
{
    let ghost l = hits_view(into@);
    let ghost rr = hits_view(from@);
    let mut k: usize = 0;
    while k < from.len()
        invariant
            k <= from@.len(),
            l == hits_view(old(into)@),
            rr == hits_view(from@),
            hits_view(into@) == or_hits(l, rr.subrange(0, k as int)),
        decreases from@.len() - k,
    {
        assert(rr.subrange(0, k + 1).drop_last() =~= rr.subrange(0, k as int));
        proof {
            lemma_keys_hits(into@);
        }
        let ghost before = into@;
        match find_key(into, &from[k].0) {
            Some(i) => {
                let mut existing = copy_keywords(&into[i].1);
                merge_keywords(&mut existing, &from[k].1);
                into.set(i, (from[k].0.clone(), existing));
                assert(hits_view(into@) =~= hits_view(before).update(
                    i as int,
                    (rr[k as int].0, merge_kws(hits_view(before)[i as int].1, rr[k as int].1)),
                ));
            },
            None => {
                let entry = (from[k].0.clone(), copy_keywords(&from[k].1));
                into.push(entry);
                assert(hits_view(into@) =~= hits_view(before).push(rr[k as int]));
            },
        }
        k = k + 1;
    }
    assert(rr.subrange(0, from@.len() as int) =~= rr);
}

/// The documents of `ambient` that `inner` does not hold.
pub fn not_matches<S: Copy>(
    ambient: &Vec<(String, Vec<(String, S)>)>,
    inner: &Vec<(String, Vec<(String, S)>)>,
) -> (r: Vec<(String, Vec<(String, S)>)>)
    ensures
        hits_view(r@) == not_hits(hits_view(ambient@), hits_view(inner@)),
{
    let ghost a = hits_view(ambient@);
    let ghost n = hits_view(inner@);
    let mut m: Vec<(String, Vec<(String, S)>)> = Vec::new();
    let mut i: usize = 0;
    proof {
        lemma_keys_hits(inner@);
    }
    while i < ambient.len()
        invariant
            i <= ambient@.len(),
            a == hits_view(ambient@),
            n == hits_view(inner@),
            keys_of(n) == key_views(inner@),
            hits_view(m@) == not_hits(a.subrange(0, i as int), n),
        decreases ambient@.len() - i,
    {
        assert(a.subrange(0, i + 1).drop_last() =~= a.subrange(0, i as int));
        if find_key(inner, &ambient[i].0).is_none() {
            let ghost before = m@;
            let entry = (ambient[i].0.clone(), copy_keywords(&ambient[i].1));
            m.push(entry);
            assert(hits_view(m@) =~= hits_view(before).push(a[i as int]));
        }
        i = i + 1;
    }
    assert(a.subrange(0, ambient@.len() as int) =~= a);
    m
}

/// The result of `expr` with keyword postings `cache` and ambient result
/// `ambient`.
pub fn filter_documents_on_query<S: Copy>(
    cache: &Vec<(String, Vec<(String, S)>)>,
    expr: &Expr,
    ambient: &Vec<(String, Vec<(String, S)>)>,
) -> (r: Vec<(String, Vec<(String, S)>)>)
    ensures
        hits_view(r@) == eval(ast_of(*expr), hits_view(cache@), hits_view(ambient@)),
    decreases expr,
{
    match expr {
        Expr::Word(w) => {
            proof {
                lemma_keys_hits(cache@);
            }
            match find_key(cache, w) {
                Some(i) => word_matches(w, &cache[i].1),
                None => {
                    let none: Vec<(String, S)> = Vec::new();
                    assert(kws_view(none@) =~= Seq::<(Seq<char>, S)>::empty());
                    word_matches(w, &none)
                },
            }
        },
        Expr::Not(inner) => {
            let inner_matches = filter_documents_on_query(cache, inner, ambient);
            not_matches(ambient, &inner_matches)
        },
        Expr::And(l, r) => {
            let left = filter_documents_on_query(cache, l, ambient);
            let right = filter_documents_on_query(cache, r, &left);
            and_matches(&left, &right)
        },
        Expr::Or(l, r) => {
            let mut left = filter_documents_on_query(cache, l, ambient);
            let right = filter_documents_on_query(cache, r, &left);
            set_merge(&mut left, &right);
            left
        },
    }
}

/// The words of `ws`, first occurrences only, that `known` does not hold.
pub open spec fn missing_words(ws: Seq<Seq<char>>, known: Seq<Seq<char>>) -> Seq<Seq<char>>
    decreases ws.len(),
{
    if ws.len() == 0 {
        Seq::empty()
    } else {
        let m = missing_words(ws.drop_last(), known);
        if last_index(known, ws.last()) >= 0 || last_index(m, ws.last()) >= 0 {
            m
        } else {
            m.push(ws.last())
        }
    }
}

pub open spec fn string_views(v: Seq<String>) -> Seq<Seq<char>> {
    v.map_values(|s: String| s@)
}

fn find_string(v: &Vec<String>, k: &String) -> (r: bool)
    ensures
        r == (last_index(string_views(v@), k@) >= 0),
{
    let ghost keys = string_views(v@);
    let mut found = false;
    let mut i: usize = 0;
    while i < v.len()
        invariant
            i <= v@.len(),
            keys == string_views(v@),
            found == (last_index(keys.subrange(0, i as int), k@) >= 0),
        decreases v@.len() - i,
    {
        assert(keys.subrange(0, i + 1).drop_last() =~= keys.subrange(0, i as int));
        if v[i] == *k {
            found = true;
        }
        i = i + 1;
    }
    assert(keys.subrange(0, v@.len() as int) =~= keys);
    found
}

/// A parsed query with the postings of its keywords, ready to be evaluated.
pub struct QueryLexer<S> {
    /// The query's tree.
    pub ast: Expr,
    /// Postings by keyword: for each keyword its documents and scores. A
    /// later entry for a keyword replaces an earlier one.
    pub kw_cache: Vec<(String, Vec<(String, S)>)>,
}

impl<S: Copy> QueryLexer<S> {
    /// A query from its tree, with no postings loaded.
    pub fn new(ast: Expr) -> (r: QueryLexer<S>)
        ensures
            ast_of(r.ast) == ast_of(ast),
            r.kw_cache@.len() == 0,
    {
        QueryLexer { ast, kw_cache: Vec::new() }
    }

    /// A query read from text, with no postings loaded. Text that does not
    /// tokenize fails with the tokenizer's error; tokens that do not parse
    /// fail with `EmptyQuery` where there are none, else `UnexpectedEof`.
    pub fn from_str(query: &str) -> (r: Result<QueryLexer<S>, QueryError>)
        ensures
            r is Ok <==> parse_query(query@) is Some,
            r is Ok ==> ast_of(r->Ok_0.ast) == parse_query(query@)->Some_0
                && r->Ok_0.kw_cache@.len() == 0,
            crate::query::lex(query@) is Err ==> r == Err::<QueryLexer<S>, QueryError>(
                crate::query::lex(query@)->Err_0,
            ),
            crate::query::lex(query@) is Ok && parse_query(query@) is None ==> r == Err::<
                QueryLexer<S>,
                QueryError,
            >(
                if crate::query::lex(query@)->Ok_0.len() == 0 {
                    QueryError::EmptyQuery
                } else {
                    QueryError::UnexpectedEof
                },
            ),
    {
        let tokens = match StringTokenizer::tokenize(query) {
            Ok(t) => t,
            Err(e) => return Err(e),
        };
        let empty = tokens.len() == 0;
        match StringTokenizer::parse(tokens) {
            Some(ast) => Ok(QueryLexer::new(ast)),
            None => {
                if empty {
                    Err(QueryError::EmptyQuery)
                } else {
                    Err(QueryError::UnexpectedEof)
                }
            },
        }
    }

    /// Every word of a tree, left to right, repeats kept.
    pub fn collect_keywords(expr: &Expr) -> (r: Vec<String>)
        ensures
            string_views(r@) == words_of(ast_of(*expr)),
        decreases expr,
    {
        match expr {
            Expr::Word(w) => {
                let r = vec![w.clone()];
                assert(string_views(r@) =~= seq![w@]);
                r
            },
            Expr::Not(inner) => Self::collect_keywords(inner),
            Expr::And(l, r) | Expr::Or(l, r) => {
                let mut left = Self::collect_keywords(l);
                let mut right = Self::collect_keywords(r);
                let ghost a = string_views(left@);
                let ghost b = string_views(right@);
                left.append(&mut right);
                assert(string_views(left@) =~= a + b);
                left
            },
        }
    }

    /// The keywords of the query whose postings are not loaded yet, each
    /// once, in the order they first occur.
    pub fn missing_keywords(&self) -> (r: Vec<String>)
        ensures
            string_views(r@) == missing_words(
                words_of(ast_of(self.ast)),
                keys_of(hits_view(self.kw_cache@)),
            ),
    {
        let all = Self::collect_keywords(&self.ast);
        let ghost ws = string_views(all@);
        let ghost known = keys_of(hits_view(self.kw_cache@));
        proof {
            lemma_keys_hits(self.kw_cache@);
        }
        let mut out: Vec<String> = Vec::new();
        let mut i: usize = 0;
        while i < all.len()
            invariant
                i <= all@.len(),
                ws == string_views(all@),
                known == keys_of(hits_view(self.kw_cache@)),
                known == key_views(self.kw_cache@),
                string_views(out@) == missing_words(ws.subrange(0, i as int), known),
            decreases all@.len() - i,
        {
            assert(ws.subrange(0, i + 1).drop_last() =~= ws.subrange(0, i as int));
            let loaded = find_key(&self.kw_cache, &all[i]);
            let seen = find_string(&out, &all[i]);
            if loaded.is_none() && !seen {
                let ghost before = string_views(out@);
                out.push(all[i].clone());
                assert(string_views(out@) =~= before.push(ws[i as int]));
            }
            i = i + 1;
        }
        assert(ws.subrange(0, all@.len() as int) =~= ws);
        out
    }

    /// Loads the postings of a keyword, replacing any loaded before.
    pub fn insert_keyword_data(&mut self, keyword: String, postings: Vec<(String, S)>)
        ensures
            ast_of(final(self).ast) == ast_of(old(self).ast),
            hits_view(final(self).kw_cache@) == hits_view(old(self).kw_cache@).push(
                (keyword@, kws_view(postings@)),
            ),
    {
        let ghost before = self.kw_cache@;
        self.kw_cache.push((keyword, postings));
        assert(hits_view(self.kw_cache@) =~= hits_view(before).push(
            (keyword@, kws_view(postings@)),
        ));
    }

    /// The documents that match the query, each with its keyword matches.
    pub fn query(&self) -> (r: Vec<(String, Vec<(String, S)>)>)
        ensures
            hits_view(r@) == eval(ast_of(self.ast), hits_view(self.kw_cache@), Seq::empty()),
    {
        let none: Vec<(String, Vec<(String, S)>)> = Vec::new();
        assert(hits_view(none@) =~= Seq::<(Seq<char>, Kws<S>)>::empty());
        filter_documents_on_query(&self.kw_cache, &self.ast, &none)
    }
}

} // verus!
