use vstd::prelude::*;
use crate::parser::ast::Expression;
use crate::parser::grammar::parse_text;
use crate::vm::{Instruction, Op, ops_of, exec_ops, run_ops};

verus! {

/// The program for an expression: its operands first, in post-order, each
/// operator after the two programs of its operands.
pub open spec fn lower(e: Expression) -> Seq<Op>
    decreases e,
{
    match e {
        Expression::Integer(v) => seq![Op::Push(v)],
        Expression::Plus(l, r) => lower(*l) + lower(*r) + seq![Op::Plus],
        Expression::Multiply(l, r) => lower(*l) + lower(*r) + seq![Op::Mult],
    }
}

/// The program for a parse result; empty where there is no tree.
pub fn expression_to_instructions(expression: Option<Expression>) -> (r: Vec<Instruction>)
    ensures
        ops_of(r@) == match expression {
            Some(e) => lower(e),
            None => Seq::empty(),
        },
{
    let mut instructions: Vec<Instruction> = Vec::new();
    assert(ops_of(instructions@) =~= Seq::<Op>::empty());
    match expression {
        Some(e) => {
            emit(&e, &mut instructions);
            assert(ops_of(instructions@) =~= lower(e));
        },
        None => {},
    }
    instructions
}

/// Appends the program for `e`.
fn emit(e: &Expression, out: &mut Vec<Instruction>)
    ensures
        ops_of(final(out)@) == ops_of(old(out)@) + lower(*e),
    decreases e,
{
    let ghost start = ops_of(out@);
    match e {
        Expression::Integer(value) => {
            let ghost before = out@;
            let i = Instruction::new_push(*value);
            out.push(i);
            assert(ops_of(before.push(i)) =~= ops_of(before).push(i@));
            assert(ops_of(out@) =~= start + lower(*e));
        },
        Expression::Plus(left, right) => {
            emit(left, out);
            emit(right, out);
            let ghost before = out@;
            let i = Instruction::new_plus();
            out.push(i);
            assert(ops_of(before.push(i)) =~= ops_of(before).push(i@));
            assert(ops_of(out@) =~= start + lower(*e));
        },
        Expression::Multiply(left, right) => {
            emit(left, out);
            emit(right, out);
            let ghost before = out@;
            let i = Instruction::new_mult();
            out.push(i);
            assert(ops_of(before.push(i)) =~= ops_of(before).push(i@));
            assert(ops_of(out@) =~= start + lower(*e));
        },
    }
}

/// Running two programs one after the other runs their concatenation.
pub proof fn lemma_exec_concat(a: Seq<Op>, b: Seq<Op>, stack: Seq<i64>)
    ensures
        exec_ops(a + b, stack) == match exec_ops(a, stack) {
            Some(s) => exec_ops(b, s),
            None => None,
        },
    decreases a.len(),
{
    if a.len() == 0 {
        assert(a + b =~= b);
    } else {
        assert((a + b).drop_first() =~= a.drop_first() + b);
        assert((a + b)[0] == a[0]);
        match crate::vm::step(a[0], stack) {
            Some(s) => lemma_exec_concat(a.drop_first(), b, s),
            None => {},
        }
    }
}

/// The program for `e`, run on any stack, pushes the value of `e` and leaves
/// the values below it as they were.
pub proof fn lemma_lower_pushes_value(e: Expression, stack: Seq<i64>)
    ensures
        exec_ops(lower(e), stack) == Some(stack.push(e.value())),
    decreases e,
{
    match e {
        Expression::Integer(v) => {
            assert(seq![Op::Push(v)].drop_first() =~= Seq::<Op>::empty());
            assert(exec_ops(Seq::empty(), stack.push(v)) == Some(stack.push(v)));
        },
        Expression::Plus(l, r) => {
            lemma_exec_concat(lower(*l) + lower(*r), seq![Op::Plus], stack);
            lemma_exec_concat(lower(*l), lower(*r), stack);
            lemma_lower_pushes_value(*l, stack);
            lemma_lower_pushes_value(*r, stack.push(l.value()));
            let s2 = stack.push(l.value()).push(r.value());
            assert(s2.drop_last().drop_last() =~= stack);
            assert(seq![Op::Plus].drop_first() =~= Seq::<Op>::empty());
            assert(exec_ops(Seq::empty(), stack.push(e.value())) == Some(stack.push(e.value())));
        },
        Expression::Multiply(l, r) => {
            lemma_exec_concat(lower(*l) + lower(*r), seq![Op::Mult], stack);
            lemma_exec_concat(lower(*l), lower(*r), stack);
            lemma_lower_pushes_value(*l, stack);
            lemma_lower_pushes_value(*r, stack.push(l.value()));
            let s2 = stack.push(l.value()).push(r.value());
            assert(s2.drop_last().drop_last() =~= stack);
            assert(seq![Op::Mult].drop_first() =~= Seq::<Op>::empty());
            assert(exec_ops(Seq::empty(), stack.push(e.value())) == Some(stack.push(e.value())));
        },
    }
}

/// Evaluating a tree gives what a fresh machine returns for its program.
pub proof fn lemma_evaluate_matches_run(e: Expression)
    ensures
        run_ops(lower(e)) == Some(e.value()),
{
    lemma_lower_pushes_value(e, Seq::empty());
    assert(Seq::<i64>::empty().push(e.value()).last() == e.value());
}

/// The program for the tree of any text that parses leaves exactly one value
/// on a fresh machine's stack: the value of the tree.
pub proof fn lemma_parsed_program_leaves_one(s: Seq<char>, e: Expression)
    requires
        parse_text(s) == Some(e),
    ensures
        exec_ops(lower(e), Seq::empty()) == Some(seq![e.value()]),
        exec_ops(lower(e), Seq::empty())->0.len() == 1,
{
    lemma_lower_pushes_value(e, Seq::empty());
    assert(Seq::<i64>::empty().push(e.value()) =~= seq![e.value()]);
}

} // verus!
