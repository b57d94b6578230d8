pub mod ast;
pub mod grammar;
pub mod round_trip;
pub mod tokenizer;

use vstd::prelude::*;
use ast::{Expression, new_integer_expression, new_plus_expression, new_multiplication_expression};
use grammar::{parse_expr, parse_expr_rest, parse_term, parse_term_rest, parse_factor, parse_tokens, yields};
use tokenizer::{Tokenizer, Token, tokens_of};

verus! {

/// A recursive-descent parser over a tokenizer.
pub struct Parser {
    tokenizer: Tokenizer,
}

impl Parser {
    /// The tokens still to be read.
    pub closed spec fn tokens(&self) -> Seq<Token> {
        self.tokenizer.tokens()
    }

    pub closed spec fn wf(&self) -> bool {
        self.tokenizer.wf()
    }

    pub fn new(input: &str) -> (p: Parser)
        ensures
            p.wf(),
            p.tokens() == tokens_of(input@),
    {
        Parser { tokenizer: Tokenizer::new(input) }
    }

    /// Parses one expression from the tokens still to be read; `None` where
    /// they do not start with one.
    pub fn parse(&mut self) -> (r: Option<Expression>)
        requires
            old(self).wf(),
        ensures
            final(self).wf(),
            r == parse_tokens(old(self).tokens()),
            r is Some ==> r->0.wf(),
            yields(r, final(self).tokens(), parse_expr(old(self).tokens())),
    {
        self.parse_e()
    }

    // E  := T E'
    fn parse_e(&mut self) -> (r: Option<Expression>)
        requires
            old(self).wf(),
        ensures
            final(self).wf(),
            yields(r, final(self).tokens(), parse_expr(old(self).tokens())),
            r is Some ==> final(self).tokens().len() < old(self).tokens().len(),
            r is Some ==> r->0.wf(),
        decreases old(self).tokens().len(), 2int,
    {
        let t = self.parse_t();
        match t {
            Some(t) => self.parse_e2(t),
            None => None,
        }
    }

    // E' := + T E' |
    fn parse_e2(&mut self, left: Expression) -> (r: Option<Expression>)
        requires
            old(self).wf(),
            left.wf(),
        ensures
            final(self).wf(),
            yields(r, final(self).tokens(), parse_expr_rest(left, old(self).tokens())),
            r is Some ==> final(self).tokens().len() <= old(self).tokens().len(),
            r is Some ==> r->0.wf(),
        decreases old(self).tokens().len(), 0int,
    {
        let ghost start = self.tokens();
        let mut acc = left;
        loop
            invariant
                self.wf(),
                start == old(self).tokens(),
                acc.wf(),
                self.tokens().len() <= start.len(),
                parse_expr_rest(acc, self.tokens()) == parse_expr_rest(left, start),
            decreases self.tokens().len(),
        {
            if self.tokenizer.peek() != Token::PLUS {
                return Some(acc);
            }
            self.tokenizer.next_token();
            let right = self.parse_t();
            match right {
                Some(right) => {
                    acc = new_plus_expression(acc, right);
                },
                None => {
                    return None;
                },
            }
        }
    }

    // T  := F T'
    fn parse_t(&mut self) -> (r: Option<Expression>)
        requires
            old(self).wf(),
        ensures
            final(self).wf(),
            yields(r, final(self).tokens(), parse_term(old(self).tokens())),
            r is Some ==> final(self).tokens().len() < old(self).tokens().len(),
            r is Some ==> r->0.wf(),
        decreases old(self).tokens().len(), 1int,
    {
        let f = self.parse_f();
        match f {
            Some(f) => self.parse_t2(f),
            None => None,
        }
    }

    // T' := * F T' |
    fn parse_t2(&mut self, left: Expression) -> (r: Option<Expression>)
        requires
            old(self).wf(),
            left.wf(),
        ensures
            final(self).wf(),
            yields(r, final(self).tokens(), parse_term_rest(left, old(self).tokens())),
            r is Some ==> final(self).tokens().len() <= old(self).tokens().len(),
            r is Some ==> r->0.wf(),
        decreases old(self).tokens().len(), 0int,
    {
        let ghost start = self.tokens();
        let mut acc = left;
        loop
            invariant
                self.wf(),
                start == old(self).tokens(),
                acc.wf(),
                self.tokens().len() <= start.len(),
                parse_term_rest(acc, self.tokens()) == parse_term_rest(left, start),
            decreases self.tokens().len(),
        {
            if self.tokenizer.peek() != Token::MULT {
                return Some(acc);
            }
            self.tokenizer.next_token();
            let right = self.parse_f();
            match right {
                Some(right) => {
                    acc = new_multiplication_expression(acc, right);
                },
                None => {
                    return None;
                },
            }
        }
    }

    // F := N | (E)
    fn parse_f(&mut self) -> (r: Option<Expression>)
        requires
            old(self).wf(),
        ensures
            final(self).wf(),
            yields(r, final(self).tokens(), parse_factor(old(self).tokens())),
            r is Some ==> final(self).tokens().len() < old(self).tokens().len(),
            r is Some ==> r->0.wf(),
        decreases old(self).tokens().len(), 0int,
    {
        let token = self.tokenizer.peek();
        if let Some(value) = token.digit() {
            self.tokenizer.next_token();
            return Some(new_integer_expression(value));
        }
        if token != Token::OPEN {
            return None;
        }
        self.tokenizer.next_token();
        let expression = self.parse_e();
        match expression {
            Some(expression) => {
                if self.tokenizer.peek() != Token::CLOSE {
                    return None;
                }
                self.tokenizer.next_token();
                Some(expression)
            },
            None => None,
        }
    }
}

} // verus!
