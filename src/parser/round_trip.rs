use vstd::prelude::*;
use super::ast::{Expression, digit_char};
use super::grammar::{parse_expr, parse_expr_rest, parse_term, parse_term_rest, parse_factor, parse_text};
use super::tokenizer::{Token, head, token_of, digit_of, tokens_of, lemma_tokens_of_concat};

verus! {

/// No sum has a sum as its right operand, and no product a product. These
/// are the trees that the text with few parentheses reads back to: `1+(2+3)`
/// is written `1+2+3`, which reads as `(1+2)+3`.
pub open spec fn left_nested(e: Expression) -> bool
    decreases e,
{
    match e {
        Expression::Integer(_) => true,
        Expression::Plus(l, r) => left_nested(*l) && left_nested(*r) && !(*r is Plus),
        Expression::Multiply(l, r) => left_nested(*l) && left_nested(*r) && !(*r is Multiply),
    }
}

proof fn lemma_tokens_of_char(c: char)
    ensures
        tokens_of(seq![c]) == match token_of(c) {
            Some(t) => seq![t],
            None => Seq::<Token>::empty(),
        },
{
    assert(seq![c].drop_first() =~= Seq::<char>::empty());
    assert(tokens_of(Seq::<char>::empty()) == Seq::<Token>::empty());
    match token_of(c) {
        Some(t) => assert(seq![t] + Seq::<Token>::empty() =~= seq![t]),
        None => {},
    }
}

/// The text of a digit is one digit token, of that value.
proof fn lemma_digit_tokens(v: i64)
    requires
        0 <= v <= 9,
    ensures
        tokens_of(seq![digit_char(v)]).len() == 1,
        digit_of(tokens_of(seq![digit_char(v)])[0]) == Some(v),
{
    lemma_tokens_of_char(digit_char(v));
}

/// The tokens of `a`, an operator, and `b`.
proof fn lemma_tokens_of_infix(a: Seq<char>, op: char, b: Seq<char>)
    requires
        token_of(op) is Some,
    ensures
        tokens_of(a + seq![op] + b) == tokens_of(a) + seq![token_of(op)->0] + tokens_of(b),
{
    lemma_tokens_of_char(op);
    lemma_tokens_of_concat(a + seq![op], b);
    lemma_tokens_of_concat(a, seq![op]);
}

/// The tokens of `a` in parentheses.
proof fn lemma_tokens_of_parens(a: Seq<char>)
    ensures
        tokens_of(seq!['('] + a + seq![')']) == seq![Token::OPEN] + tokens_of(a) + seq![Token::CLOSE],
{
    lemma_tokens_of_char('(');
    lemma_tokens_of_char(')');
    lemma_tokens_of_concat(seq!['('] + a, seq![')']);
    lemma_tokens_of_concat(seq!['('], a);
}

/// An expression starts with a term.
proof fn lemma_expr_step(ts: Seq<Token>, t: Expression, rest: Seq<Token>)
    requires
        parse_term(ts) == Some((t, rest)),
        rest.len() < ts.len(),
    ensures
        parse_expr(ts) == parse_expr_rest(t, rest),
{
}

/// A term starts with a factor.
proof fn lemma_term_step(ts: Seq<Token>, f: Expression, rest: Seq<Token>)
    requires
        parse_factor(ts) == Some((f, rest)),
        rest.len() < ts.len(),
    ensures
        parse_term(ts) == parse_term_rest(f, rest),
{
}

/// `+` and a term extend the sum so far.
proof fn lemma_plus_step(left: Expression, ts: Seq<Token>, r: Expression, rest: Seq<Token>)
    requires
        head(ts) == Token::PLUS,
        parse_term(ts.drop_first()) == Some((r, rest)),
        rest.len() < ts.len(),
    ensures
        parse_expr_rest(left, ts) == parse_expr_rest(
            Expression::Plus(Box::new(left), Box::new(r)),
            rest,
        ),
{
}

/// `*` and a factor extend the product so far.
proof fn lemma_mult_step(left: Expression, ts: Seq<Token>, r: Expression, rest: Seq<Token>)
    requires
        head(ts) == Token::MULT,
        parse_factor(ts.drop_first()) == Some((r, rest)),
        rest.len() < ts.len(),
    ensures
        parse_term_rest(left, ts) == parse_term_rest(
            Expression::Multiply(Box::new(left), Box::new(r)),
            rest,
        ),
{
}

/// A factor followed by no `*` is a whole term.
proof fn lemma_term_of_factor(ts: Seq<Token>, e: Expression, rest: Seq<Token>)
    requires
        parse_factor(ts) == Some((e, rest)),
        rest.len() < ts.len(),
        head(rest) != Token::MULT,
    ensures
        parse_term(ts) == Some((e, rest)),
{
    lemma_term_step(ts, e, rest);
}

/// Reading a factor in parentheses: `inner` is what the parentheses hold,
/// followed by `)` and `rest`.
proof fn lemma_factor_in_parens(inner: Seq<Token>, e: Expression, rest: Seq<Token>)
    requires
        parse_expr(inner + seq![Token::CLOSE] + rest) == Some((e, seq![Token::CLOSE] + rest)),
    ensures
        parse_factor(seq![Token::OPEN] + inner + seq![Token::CLOSE] + rest) == Some((e, rest)),
{
    let ts = seq![Token::OPEN] + inner + seq![Token::CLOSE] + rest;
    assert(ts.drop_first() =~= inner + seq![Token::CLOSE] + rest);
    assert((seq![Token::CLOSE] + rest).drop_first() =~= rest);
}

/// The fully parenthesized text of a tree, followed by any tokens, reads as a
/// factor that leaves those tokens.
proof fn lemma_factor_reads_text(e: Expression, rest: Seq<Token>)
    requires
        e.wf(),
    ensures
        tokens_of(e.text()).len() >= 1,
        parse_factor(tokens_of(e.text()) + rest) == Some((e, rest)),
    decreases e, 1int,
{
    match e {
        Expression::Integer(v) => {
            lemma_digit_tokens(v);
            let ts = tokens_of(e.text()) + rest;
            assert(ts.drop_first() =~= rest);
        },
        _ => lemma_factor_reads_operation(e, rest),
    }
}

/// `lemma_factor_reads_text` for a sum or a product.
proof fn lemma_factor_reads_operation(e: Expression, rest: Seq<Token>)
    requires
        e.wf(),
        !(e is Integer),
    ensures
        tokens_of(e.text()).len() >= 1,
        parse_factor(tokens_of(e.text()) + rest) == Some((e, rest)),
    decreases e, 0int,
{
    let (l, r, op) = match e {
        Expression::Plus(l, r) => (*l, *r, '+'),
        Expression::Multiply(l, r) => (*l, *r, '*'),
        Expression::Integer(_) => (e, e, ' '),
    };
    let t = token_of(op)->0;
    let tl = tokens_of(l.text());
    let tr = tokens_of(r.text());
    lemma_tokens_of_infix(l.text(), op, r.text());
    lemma_tokens_of_parens(l.text() + seq![op] + r.text());
    assert(e.text() =~= seq!['('] + (l.text() + seq![op] + r.text()) + seq![')']);
    let close = seq![Token::CLOSE] + rest;
    let after_l = seq![t] + tr + close;
    let inner = tl + after_l;
    lemma_factor_reads_text(l, after_l);
    lemma_factor_reads_text(r, close);
    assert(after_l.drop_first() =~= tr + close);
    if op == '+' {
        lemma_term_of_factor(inner, l, after_l);
        lemma_term_of_factor(tr + close, r, close);
        lemma_plus_step(l, after_l, r, close);
        lemma_expr_step(inner, l, after_l);
    } else {
        lemma_term_step(inner, l, after_l);
        lemma_mult_step(l, after_l, r, close);
        lemma_expr_step(inner, e, close);
    }
    assert(inner =~= (tl + seq![t] + tr) + seq![Token::CLOSE] + rest);
    lemma_factor_in_parens(tl + seq![t] + tr, e, rest);
    assert(tokens_of(e.text()) + rest =~= seq![Token::OPEN] + (tl + seq![t] + tr) + seq![
        Token::CLOSE,
    ] + rest);
}

/// Reading back the fully parenthesized text of a tree gives the same tree.
pub proof fn lemma_parse_text_round_trip(e: Expression)
    requires
        e.wf(),
    ensures
        parse_text(e.text()) == Some(e),
{
    let ts = tokens_of(e.text());
    lemma_factor_reads_text(e, Seq::empty());
    assert(ts + Seq::<Token>::empty() =~= ts);
    lemma_term_of_factor(ts, e, Seq::empty());
}

/// The text of an operand of a product, followed by any tokens, reads as a
/// factor that leaves those tokens, where the operand is not itself a product.
proof fn lemma_factor_reads_operand(e: Expression, rest: Seq<Token>)
    requires
        e.wf(),
        left_nested(e),
        !(e is Multiply),
    ensures
        tokens_of(e.operand_text()).len() >= 1,
        parse_factor(tokens_of(e.operand_text()) + rest) == Some((e, rest)),
    decreases e, 1int,
{
    match e {
        Expression::Integer(v) => {
            lemma_digit_tokens(v);
            let ts = tokens_of(e.operand_text()) + rest;
            assert(ts.drop_first() =~= rest);
        },
        _ => {
            let inner = tokens_of(e.pretty());
            lemma_tokens_of_parens(e.pretty());
            let close = seq![Token::CLOSE] + rest;
            lemma_expr_reads_pretty(e, close);
            assert(inner + close =~= inner + seq![Token::CLOSE] + rest);
            lemma_factor_in_parens(inner, e, rest);
            assert(tokens_of(e.operand_text()) + rest =~= seq![Token::OPEN] + inner + seq![
                Token::CLOSE,
            ] + rest);
        },
    }
}

/// The text of an operand of a product, followed by any tokens, reads as a
/// term that goes on with those tokens, the operand as the product so far.
proof fn lemma_term_reads_operand(e: Expression, rest: Seq<Token>)
    requires
        e.wf(),
        left_nested(e),
    ensures
        tokens_of(e.operand_text()).len() >= 1,
        parse_term(tokens_of(e.operand_text()) + rest) == parse_term_rest(e, rest),
    decreases e, 2int,
{
    match e {
        Expression::Multiply(l, r) => {
            let tl = tokens_of(l.operand_text());
            let tr = tokens_of(r.operand_text());
            lemma_tokens_of_infix(l.operand_text(), '*', r.operand_text());
            let after_l = seq![Token::MULT] + tr + rest;
            lemma_term_reads_operand(*l, after_l);
            lemma_factor_reads_operand(*r, rest);
            assert(after_l.drop_first() =~= tr + rest);
            lemma_mult_step(*l, after_l, *r, rest);
            assert(tokens_of(e.operand_text()) + rest =~= tl + after_l);
        },
        _ => {
            let ts = tokens_of(e.operand_text()) + rest;
            lemma_factor_reads_operand(e, rest);
            lemma_term_step(ts, e, rest);
        },
    }
}

/// The text with few parentheses of a tree, followed by tokens that do not
/// start with `*`, reads as an expression that goes on with those tokens, the
/// tree as the sum so far.
proof fn lemma_expr_reads_pretty(e: Expression, rest: Seq<Token>)
    requires
        e.wf(),
        left_nested(e),
        head(rest) != Token::MULT,
    ensures
        tokens_of(e.pretty()).len() >= 1,
        parse_expr(tokens_of(e.pretty()) + rest) == parse_expr_rest(e, rest),
    decreases e, if e is Plus {
        0int
    } else {
        3int
    },
{
    match e {
        Expression::Plus(l, r) => {
            let tl = tokens_of(l.pretty());
            let tr = tokens_of(r.pretty());
            lemma_tokens_of_infix(l.pretty(), '+', r.pretty());
            let after_l = seq![Token::PLUS] + tr + rest;
            lemma_expr_reads_pretty(*l, after_l);
            assert(r.pretty() == r.operand_text());
            lemma_term_reads_operand(*r, rest);
            assert(after_l.drop_first() =~= tr + rest);
            lemma_plus_step(*l, after_l, *r, rest);
            assert(tokens_of(e.pretty()) + rest =~= tl + after_l);
        },
        _ => {
            let ts = tokens_of(e.pretty()) + rest;
            assert(e.pretty() == e.operand_text());
            lemma_term_reads_operand(e, rest);
            lemma_expr_step(ts, e, rest);
        },
    }
}

/// Reading back the text with few parentheses of a tree gives the same tree,
/// where no sum has a sum as its right operand and no product a product.
pub proof fn lemma_parse_pretty_round_trip(e: Expression)
    requires
        e.wf(),
        left_nested(e),
    ensures
        parse_text(e.pretty()) == Some(e),
{
    let ts = tokens_of(e.pretty());
    lemma_expr_reads_pretty(e, Seq::empty());
    assert(ts + Seq::<Token>::empty() =~= ts);
}

/// `*` binds tighter than `+`, on either side: for digits `a`, `b`, `c`,
/// `a+b*c` reads as `a+(b*c)` and `a*b+c` as `(a*b)+c`.
pub proof fn lemma_precedence(a: i64, b: i64, c: i64)
    requires
        0 <= a <= 9,
        0 <= b <= 9,
        0 <= c <= 9,
    ensures
        parse_text(seq![digit_char(a), '+', digit_char(b), '*', digit_char(c)]) == Some(
            Expression::Plus(
                Box::new(Expression::Integer(a)),
                Box::new(
                    Expression::Multiply(
                        Box::new(Expression::Integer(b)),
                        Box::new(Expression::Integer(c)),
                    ),
                ),
            ),
        ),
        parse_text(seq![digit_char(a), '*', digit_char(b), '+', digit_char(c)]) == Some(
            Expression::Plus(
                Box::new(
                    Expression::Multiply(
                        Box::new(Expression::Integer(a)),
                        Box::new(Expression::Integer(b)),
                    ),
                ),
                Box::new(Expression::Integer(c)),
            ),
        ),
{
    let (x, y, z) = (Expression::Integer(a), Expression::Integer(b), Expression::Integer(c));
    assert(x.operand_text() == seq![digit_char(a)]);
    assert(y.operand_text() == seq![digit_char(b)]);
    assert(z.operand_text() == seq![digit_char(c)]);
    assert(x.wf() && y.wf() && z.wf());
    assert(left_nested(x) && left_nested(y) && left_nested(z));
    let e1 = Expression::Plus(
        Box::new(x),
        Box::new(Expression::Multiply(Box::new(y), Box::new(z))),
    );
    let e2 = Expression::Plus(
        Box::new(Expression::Multiply(Box::new(x), Box::new(y))),
        Box::new(z),
    );
    let yz = Expression::Multiply(Box::new(y), Box::new(z));
    assert(yz.pretty() =~= seq![digit_char(b), '*', digit_char(c)]);
    assert(yz.wf() && left_nested(yz));
    assert(e1.pretty() =~= seq![digit_char(a), '+', digit_char(b), '*', digit_char(c)]);
    let xy = Expression::Multiply(Box::new(x), Box::new(y));
    assert(xy.pretty() =~= seq![digit_char(a), '*', digit_char(b)]);
    assert(xy.wf() && left_nested(xy));
    assert(e2.pretty() =~= seq![digit_char(a), '*', digit_char(b), '+', digit_char(c)]);
    lemma_parse_pretty_round_trip(e1);
    lemma_parse_pretty_round_trip(e2);
}

/// Both operators group to the left: for digits `a`, `b`, `c`, `a+b+c` reads
/// as `(a+b)+c` and `a*b*c` as `(a*b)*c`.
pub proof fn lemma_left_associative(a: i64, b: i64, c: i64)
    requires
        0 <= a <= 9,
        0 <= b <= 9,
        0 <= c <= 9,
    ensures
        parse_text(seq![digit_char(a), '+', digit_char(b), '+', digit_char(c)]) == Some(
            Expression::Plus(
                Box::new(
                    Expression::Plus(
                        Box::new(Expression::Integer(a)),
                        Box::new(Expression::Integer(b)),
                    ),
                ),
                Box::new(Expression::Integer(c)),
            ),
        ),
        parse_text(seq![digit_char(a), '*', digit_char(b), '*', digit_char(c)]) == Some(
            Expression::Multiply(
                Box::new(
                    Expression::Multiply(
                        Box::new(Expression::Integer(a)),
                        Box::new(Expression::Integer(b)),
                    ),
                ),
                Box::new(Expression::Integer(c)),
            ),
        ),
{
    let (x, y, z) = (Expression::Integer(a), Expression::Integer(b), Expression::Integer(c));
    assert(x.operand_text() == seq![digit_char(a)]);
    assert(y.operand_text() == seq![digit_char(b)]);
    assert(z.operand_text() == seq![digit_char(c)]);
    assert(x.wf() && y.wf() && z.wf());
    assert(left_nested(x) && left_nested(y) && left_nested(z));
    let e1 = Expression::Plus(
        Box::new(Expression::Plus(Box::new(x), Box::new(y))),
        Box::new(z),
    );
    let e2 = Expression::Multiply(
        Box::new(Expression::Multiply(Box::new(x), Box::new(y))),
        Box::new(z),
    );
    let xy = Expression::Plus(Box::new(x), Box::new(y));
    assert(xy.pretty() =~= seq![digit_char(a), '+', digit_char(b)]);
    assert(xy.wf() && left_nested(xy));
    assert(e1.pretty() =~= seq![digit_char(a), '+', digit_char(b), '+', digit_char(c)]);
    let xy2 = Expression::Multiply(Box::new(x), Box::new(y));
    assert(xy2.pretty() =~= seq![digit_char(a), '*', digit_char(b)]);
    assert(xy2.operand_text() == xy2.pretty());
    assert(xy2.wf() && left_nested(xy2));
    assert(e2.pretty() =~= seq![digit_char(a), '*', digit_char(b), '*', digit_char(c)]);
    lemma_parse_pretty_round_trip(e1);
    lemma_parse_pretty_round_trip(e2);
}

} // verus!
