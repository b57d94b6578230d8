use exprvm::parser::ast::{
    new_integer_expression, new_multiplication_expression, new_plus_expression, Expression,
};
use exprvm::parser::Parser;

fn lit(v: i64) -> Expression {
    new_integer_expression(v)
}

fn plus(l: Expression, r: Expression) -> Expression {
    new_plus_expression(l, r)
}

fn mult(l: Expression, r: Expression) -> Expression {
    new_multiplication_expression(l, r)
}

fn parse(s: &str) -> Option<Expression> {
    Parser::new(s).parse()
}

fn pretty_and_value(s: &str) -> (String, i64) {
    let e = parse(s).expect("the input parses");
    (e.to_string_pretty(), e.evaluate())
}

#[test]
fn single_digit() {
    assert_eq!(pretty_and_value("1"), ("1".to_string(), 1));
}

#[test]
fn sum_of_two() {
    assert_eq!(pretty_and_value("1 + 0 "), ("1+0".to_string(), 1));
}

#[test]
fn parenthesized_digit() {
    assert_eq!(pretty_and_value("1 + (0) "), ("1+0".to_string(), 1));
}

#[test]
fn product_binds_tighter_on_the_right() {
    assert_eq!(pretty_and_value("1 + 2 * 0 "), ("1+2*0".to_string(), 1));
}

#[test]
fn product_binds_tighter_on_the_left() {
    assert_eq!(pretty_and_value("1 * 2 + 0 "), ("1*2+0".to_string(), 2));
}

#[test]
fn sum_in_parentheses_times_zero() {
    assert_eq!(pretty_and_value("(1 + 2) * 0 "), ("(1+2)*0".to_string(), 0));
}

#[test]
fn sum_in_parentheses_times_zero_plus_two() {
    assert_eq!(pretty_and_value("(1 + 2) * 0 + 2"), ("(1+2)*0+2".to_string(), 2));
}

#[test]
fn three_times_two_plus_one() {
    assert_eq!(pretty_and_value("3 * 2 + 1"), ("3*2+1".to_string(), 7));
}

#[test]
fn sum_times_two() {
    assert_eq!(pretty_and_value("(5 + 3) * 2"), ("(5+3)*2".to_string(), 16));
}

#[test]
fn nested_parentheses() {
    assert_eq!(
        pretty_and_value("(5 + 3) * ((2 + 8) + 5)"),
        ("(5+3)*(2+8+5)".to_string(), 120)
    );
}

#[test]
fn precedence_plus_then_times() {
    assert_eq!(parse("1+2*3"), Some(plus(lit(1), mult(lit(2), lit(3)))));
}

#[test]
fn precedence_times_then_plus() {
    assert_eq!(parse("1*2+3"), Some(plus(mult(lit(1), lit(2)), lit(3))));
}

#[test]
fn sums_group_to_the_left() {
    assert_eq!(parse("1+2+3"), Some(plus(plus(lit(1), lit(2)), lit(3))));
}

#[test]
fn products_group_to_the_left() {
    assert_eq!(parse("4*5*6"), Some(mult(mult(lit(4), lit(5)), lit(6))));
}

#[test]
fn skipped_characters_change_nothing() {
    let plain = parse("(1+2)*3");
    assert!(plain.is_some());
    assert_eq!(parse(" ( 1 +x2) *  y3 z"), plain);
    assert_eq!(parse("é(1\t+2)\n*3"), plain);
}

#[test]
fn empty_input_gives_nothing() {
    assert_eq!(parse(""), None);
    assert_eq!(parse("   "), None);
}

#[test]
fn lone_operator_gives_nothing() {
    assert_eq!(parse("+"), None);
    assert_eq!(parse("*"), None);
    assert_eq!(parse("1+"), None);
    assert_eq!(parse("2*"), None);
}

#[test]
fn unmatched_parenthesis_gives_nothing() {
    assert_eq!(parse("(1+2"), None);
    assert_eq!(parse("("), None);
    assert_eq!(parse(")"), None);
}

#[test]
fn trailing_tokens_are_left_unread() {
    assert_eq!(parse("1+2 )"), Some(plus(lit(1), lit(2))));
    assert_eq!(parse("12"), Some(lit(1)));
}

#[test]
fn fully_parenthesized_text() {
    let e = parse("(5 + 3) * ((2 + 8) + 5)").unwrap();
    assert_eq!(e.to_string(), "((5+3)*((2+8)+5))");
    assert_eq!(lit(7).to_string(), "7");
}

#[test]
fn fully_parenthesized_text_reads_back() {
    let trees = vec![
        plus(lit(1), plus(lit(2), lit(3))),
        mult(lit(4), mult(lit(5), lit(6))),
        mult(plus(lit(1), lit(2)), plus(lit(3), mult(lit(4), lit(0)))),
        lit(9),
    ];
    for e in trees {
        assert_eq!(parse(&e.to_string()), Some(e));
    }
}

#[test]
fn pretty_text_reads_back() {
    let trees = vec![
        plus(plus(lit(1), lit(2)), lit(3)),
        mult(plus(lit(1), lit(2)), plus(lit(3), mult(lit(4), lit(0)))),
        plus(mult(lit(7), lit(8)), mult(plus(lit(1), lit(2)), lit(9))),
        lit(0),
    ];
    for e in trees {
        assert_eq!(parse(&e.to_string_pretty()), Some(e));
    }
}

#[test]
fn pretty_text_of_right_nested_sum() {
    let e = plus(lit(1), plus(lit(2), lit(3)));
    assert_eq!(e.to_string_pretty(), "1+2+3");
    assert_eq!(mult(lit(2), mult(lit(3), lit(4))).to_string_pretty(), "2*3*4");
    assert_eq!(
        mult(plus(lit(1), lit(2)), plus(lit(3), lit(4))).to_string_pretty(),
        "(1+2)*(3+4)"
    );
}

#[test]
fn kind_predicates() {
    assert!(lit(3).is_integer_expression());
    assert!(!plus(lit(1), lit(2)).is_integer_expression());
    assert!(plus(lit(1), lit(2)).is_plus_expression());
    assert!(!mult(lit(1), lit(2)).is_plus_expression());
    assert!(mult(lit(1), lit(2)).is_multiplication_expression());
    assert!(!lit(1).is_multiplication_expression());
}

#[test]
fn evaluation_wraps_on_overflow() {
    let mut e = lit(9);
    for _ in 0..20 {
        e = mult(e, lit(9));
    }
    assert_eq!(e.evaluate(), 9i64.wrapping_pow(21));
    assert_eq!(plus(lit(4), mult(lit(5), lit(6))).evaluate(), 34);
}
