use exprvm::compile::expression_to_instructions;
use exprvm::parser::ast::{new_integer_expression, new_multiplication_expression, new_plus_expression};
use exprvm::parser::Parser;
use exprvm::vm::{Instruction, VM};

#[test]
fn push_push_push_mult_plus() {
    let instructions = vec![
        Instruction::new_push(1),
        Instruction::new_push(2),
        Instruction::new_push(3),
        Instruction::new_mult(),
        Instruction::new_plus(),
    ];
    assert_eq!(VM::new(instructions).run(), Some(7));
}

#[test]
fn push_push_push_plus_mult() {
    let instructions = vec![
        Instruction::new_push(2),
        Instruction::new_push(3),
        Instruction::new_push(5),
        Instruction::new_plus(),
        Instruction::new_mult(),
    ];
    assert_eq!(VM::new(instructions).run(), Some(16));
}

#[test]
fn lowered_parse_runs_to_value() {
    let instructions = expression_to_instructions(Parser::new("(5 + 3) * ((2 + 8) + 5)").parse());
    assert_eq!(instructions.len(), 9);
    assert_eq!(VM::new(instructions).run(), Some(120));
}

#[test]
fn failed_parse_lowers_to_empty_program() {
    let instructions = expression_to_instructions(Parser::new("(1+").parse());
    assert!(instructions.is_empty());
    assert_eq!(VM::new(instructions).run(), None);
}

#[test]
fn empty_program_gives_nothing() {
    assert_eq!(VM::new(Vec::new()).run(), None);
}

#[test]
fn operands_are_taken_in_post_order() {
    // 4+2*3 in post-order
    let instructions = vec![
        Instruction::new_push(4),
        Instruction::new_push(2),
        Instruction::new_push(3),
        Instruction::new_mult(),
        Instruction::new_plus(),
    ];
    assert_eq!(VM::new(instructions).run(), Some(10));
}

#[test]
fn run_pops_the_top_and_keeps_the_rest() {
    let mut vm = VM::new(vec![Instruction::new_push(5), Instruction::new_push(6)]);
    assert_eq!(vm.run(), Some(6));
    assert!(vm.can_run());
}

#[test]
fn machine_arithmetic_wraps() {
    let instructions = vec![
        Instruction::new_push(i64::MAX),
        Instruction::new_push(1),
        Instruction::new_plus(),
    ];
    assert_eq!(VM::new(instructions).run(), Some(i64::MIN));
    let instructions = vec![
        Instruction::new_push(i64::MAX),
        Instruction::new_push(2),
        Instruction::new_mult(),
    ];
    assert_eq!(VM::new(instructions).run(), Some(-2));
}

#[test]
fn underflowing_program_is_detected() {
    assert!(!VM::new(vec![Instruction::new_plus()]).can_run());
    assert!(!VM::new(vec![Instruction::new_push(1), Instruction::new_mult()]).can_run());
    assert!(VM::new(vec![Instruction::new_push(1), Instruction::new_push(1), Instruction::new_mult()]).can_run());
    assert!(VM::new(Vec::new()).can_run());
}

#[test]
fn evaluate_agrees_with_machine() {
    let inputs = ["1", "1+0", "1+2*0", "1*2+0", "(1+2)*0", "(1+2)*0+2", "3*2+1", "(5+3)*2", "9*9*9+8*(7+6)"];
    for input in inputs {
        let e = Parser::new(input).parse().unwrap();
        let value = e.evaluate();
        assert_eq!(VM::new(expression_to_instructions(Some(e))).run(), Some(value));
    }
}

#[test]
fn lowered_program_of_a_tree() {
    let e = new_plus_expression(
        new_integer_expression(1),
        new_multiplication_expression(new_integer_expression(2), new_integer_expression(3)),
    );
    let instructions = expression_to_instructions(Some(e));
    assert_eq!(instructions.len(), 5);
    let mut vm = VM::new(instructions);
    assert!(vm.can_run());
    assert_eq!(vm.run(), Some(7));
}
