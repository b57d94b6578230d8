use vstd::prelude::*;
use super::ast::Expression;
use super::tokenizer::{Token, head, digit_of, token_of, tokens_of, lemma_tokens_of_concat};

verus! {

// The grammar, one function per nonterminal. Each takes the tokens still to
// be read and gives the tree it recognised with the tokens after it, or
// `None` where the tokens do not fit the grammar.
//
//     E  ::= T E'        E' ::= '+' T E' | ε
//     T  ::= F T'        T' ::= '*' F T' | ε
//     F  ::= digit | '(' E ')'
//
// `E'` and `T'` fold their operands to the left. Where a nonterminal goes on
// with the tokens that another left over, it first checks that those are
// fewer. The check never fails (`lemma_parse_consumes`); it only shows that
// the definitions terminate.

/// `E ::= T E'`
pub open spec fn parse_expr(ts: Seq<Token>) -> Option<(Expression, Seq<Token>)>
    decreases ts.len(), 2int,
{
    match parse_term(ts) {
        Some((t, rest)) => if rest.len() < ts.len() {
            parse_expr_rest(t, rest)
        } else {
            None
        },
        None => None,
    }
}

/// `E' ::= '+' T E' | ε`, with `left` the sum so far.
pub open spec fn parse_expr_rest(left: Expression, ts: Seq<Token>) -> Option<(Expression, Seq<Token>)>
    decreases ts.len(), 0int,
{
    if head(ts) == Token::PLUS {
        match parse_term(ts.drop_first()) {
            Some((r, rest)) => if rest.len() < ts.len() {
                parse_expr_rest(Expression::Plus(Box::new(left), Box::new(r)), rest)
            } else {
                None
            },
            None => None,
        }
    } else {
        Some((left, ts))
    }
}

/// `T ::= F T'`
pub open spec fn parse_term(ts: Seq<Token>) -> Option<(Expression, Seq<Token>)>
    decreases ts.len(), 1int,
{
    match parse_factor(ts) {
        Some((f, rest)) => if rest.len() < ts.len() {
            parse_term_rest(f, rest)
        } else {
            None
        },
        None => None,
    }
}

/// `T' ::= '*' F T' | ε`, with `left` the product so far.
pub open spec fn parse_term_rest(left: Expression, ts: Seq<Token>) -> Option<(Expression, Seq<Token>)>
    decreases ts.len(), 0int,
{
    if head(ts) == Token::MULT {
        match parse_factor(ts.drop_first()) {
            Some((r, rest)) => if rest.len() < ts.len() {
                parse_term_rest(Expression::Multiply(Box::new(left), Box::new(r)), rest)
            } else {
                None
            },
            None => None,
        }
    } else {
        Some((left, ts))
    }
}

/// `F ::= digit | '(' E ')'`
pub open spec fn parse_factor(ts: Seq<Token>) -> Option<(Expression, Seq<Token>)>
    decreases ts.len(), 0int,
{
    if ts.len() == 0 {
        None
    } else if let Some(v) = digit_of(ts[0]) {
        Some((Expression::Integer(v), ts.drop_first()))
    } else if ts[0] == Token::OPEN {
        match parse_expr(ts.drop_first()) {
            Some((e, rest)) => if head(rest) == Token::CLOSE {
                Some((e, rest.drop_first()))
            } else {
                None
            },
            None => None,
        }
    } else {
        None
    }
}

/// The tree that a token sequence parses to. Tokens after a complete
/// expression are left unread.
pub open spec fn parse_tokens(ts: Seq<Token>) -> Option<Expression> {
    match parse_expr(ts) {
        Some((e, _)) => Some(e),
        None => None,
    }
}

/// The tree that a text parses to.
pub open spec fn parse_text(s: Seq<char>) -> Option<Expression> {
    parse_tokens(tokens_of(s))
}

/// `r` is the tree that `p` recognised, and `after` the tokens it left, or
/// `r` is `None` where `p` failed.
pub open spec fn yields(
    r: Option<Expression>,
    after: Seq<Token>,
    p: Option<(Expression, Seq<Token>)>,
) -> bool {
    match p {
        Some((e, rest)) => r == Some(e) && after == rest,
        None => r is None,
    }
}

/// How many tokens a successful parse left unread.
pub open spec fn left_over(p: Option<(Expression, Seq<Token>)>) -> int {
    match p {
        Some((_, rest)) => rest.len() as int,
        None => 0,
    }
}

/// Each nonterminal but `E'` and `T'` reads at least one token, and those two
/// read none back: the checks in the definitions above never fail.
pub proof fn lemma_parse_consumes(ts: Seq<Token>)
    ensures
        parse_expr(ts) is Some ==> left_over(parse_expr(ts)) < ts.len(),
        parse_term(ts) is Some ==> left_over(parse_term(ts)) < ts.len(),
        parse_factor(ts) is Some ==> left_over(parse_factor(ts)) < ts.len(),
        forall|left: Expression| #[trigger]
            parse_expr_rest(left, ts) is Some ==> left_over(parse_expr_rest(left, ts)) <= ts.len(),
        forall|left: Expression| #[trigger]
            parse_term_rest(left, ts) is Some ==> left_over(parse_term_rest(left, ts)) <= ts.len(),
    decreases ts.len(),
{
    if ts.len() > 0 {
        lemma_parse_consumes(ts.drop_first());
    }
    if let Some((f, rest)) = parse_factor(ts) {
        lemma_term_rest_consumes(f, rest);
    }
    if let Some((t, rest)) = parse_term(ts) {
        lemma_expr_rest_consumes(t, rest);
    }
    assert forall|left: Expression| #[trigger]
        parse_expr_rest(left, ts) is Some implies left_over(parse_expr_rest(left, ts)) <= ts.len() by {
        lemma_expr_rest_consumes(left, ts);
    }
    assert forall|left: Expression| #[trigger]
        parse_term_rest(left, ts) is Some implies left_over(parse_term_rest(left, ts)) <= ts.len() by {
        lemma_term_rest_consumes(left, ts);
    }
}

proof fn lemma_expr_rest_consumes(left: Expression, ts: Seq<Token>)
    ensures
        parse_expr_rest(left, ts) is Some ==> left_over(parse_expr_rest(left, ts)) <= ts.len(),
    decreases ts.len(),
{
    if head(ts) == Token::PLUS {
        if let Some((r, rest)) = parse_term(ts.drop_first()) {
            if rest.len() < ts.len() {
                lemma_expr_rest_consumes(Expression::Plus(Box::new(left), Box::new(r)), rest);
            }
        }
    }
}

proof fn lemma_term_rest_consumes(left: Expression, ts: Seq<Token>)
    ensures
        parse_term_rest(left, ts) is Some ==> left_over(parse_term_rest(left, ts)) <= ts.len(),
    decreases ts.len(),
{
    if head(ts) == Token::MULT {
        if let Some((r, rest)) = parse_factor(ts.drop_first()) {
            if rest.len() < ts.len() {
                lemma_term_rest_consumes(Expression::Multiply(Box::new(left), Box::new(r)), rest);
            }
        }
    }
}

/// Characters that stand for no token have no tokens.
proof fn lemma_skipped_have_no_tokens(junk: Seq<char>)
    requires
        forall|k: int| 0 <= k < junk.len() ==> token_of(#[trigger] junk[k]) is None,
    ensures
        tokens_of(junk) == Seq::<Token>::empty(),
    decreases junk.len(),
{
    if junk.len() > 0 {
        lemma_skipped_have_no_tokens(junk.drop_first());
    }
}

/// Spaces, letters and any other characters that stand for no token may be
/// put anywhere in a text without changing what it parses to.
pub proof fn lemma_skipped_characters_transparent(s: Seq<char>, i: int, junk: Seq<char>)
    requires
        0 <= i <= s.len(),
        forall|k: int| 0 <= k < junk.len() ==> token_of(#[trigger] junk[k]) is None,
    ensures
        parse_text(s.subrange(0, i) + junk + s.subrange(i, s.len() as int)) == parse_text(s),
{
    let a = s.subrange(0, i);
    let b = s.subrange(i, s.len() as int);
    lemma_skipped_have_no_tokens(junk);
    lemma_tokens_of_concat(a + junk, b);
    lemma_tokens_of_concat(a, junk);
    lemma_tokens_of_concat(a, b);
    assert(a + b =~= s);
    assert(tokens_of(a) + Seq::<Token>::empty() =~= tokens_of(a));
}

} // verus!
