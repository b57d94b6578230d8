use vstd::prelude::*;
use vstd::wrapping::i64_specs;

verus! {

/// An arithmetic expression. Each node owns its children.
#[derive(PartialEq, Eq, Debug)]
pub enum Expression {
    Integer(i64),
    Plus(Box<Expression>, Box<Expression>),
    Multiply(Box<Expression>, Box<Expression>),
}

/// The character of a digit from 0 to 9.
pub open spec fn digit_char(v: i64) -> char {
    match v {
        0 => '0',
        1 => '1',
        2 => '2',
        3 => '3',
        4 => '4',
        5 => '5',
        6 => '6',
        7 => '7',
        8 => '8',
        _ => '9',
    }
}

impl Expression {
    /// Every leaf holds a single digit, from 0 to 9.
    pub open spec fn wf(&self) -> bool
        decreases self,
    {
        match self {
            Expression::Integer(v) => 0 <= *v <= 9,
            Expression::Plus(l, r) => l.wf() && r.wf(),
            Expression::Multiply(l, r) => l.wf() && r.wf(),
        }
    }

    /// The value of the expression, in two's-complement arithmetic on 64 bits
    /// (sums and products wrap around).
    pub open spec fn value(&self) -> i64
        decreases self,
    {
        match self {
            Expression::Integer(v) => *v,
            Expression::Plus(l, r) => i64_specs::wrapping_add(l.value(), r.value()),
            Expression::Multiply(l, r) => i64_specs::wrapping_mul(l.value(), r.value()),
        }
    }

    /// The fully parenthesized text: each operator node in its own parentheses.
    pub open spec fn text(&self) -> Seq<char>
        decreases self,
    {
        match self {
            Expression::Integer(v) => seq![digit_char(*v)],
            Expression::Plus(l, r) => seq!['('] + l.text() + seq!['+'] + r.text() + seq![')'],
            Expression::Multiply(l, r) => seq!['('] + l.text() + seq!['*'] + r.text() + seq![')'],
        }
    }

    /// The text with few parentheses: a sum is written bare; an operand of a
    /// product is put in parentheses exactly when it is a sum.
    pub open spec fn pretty(&self) -> Seq<char>
        decreases self, 0int,
    {
        match self {
            Expression::Integer(v) => seq![digit_char(*v)],
            Expression::Plus(l, r) => l.pretty() + seq!['+'] + r.pretty(),
            Expression::Multiply(l, r) => l.operand_text() + seq!['*'] + r.operand_text(),
        }
    }

    /// How an expression is written as an operand of a product.
    pub open spec fn operand_text(&self) -> Seq<char>
        decreases self, 1int,
    {
        if self is Plus {
            seq!['('] + self.pretty() + seq![')']
        } else {
            self.pretty()
        }
    }

    pub fn evaluate(&self) -> (r: i64)
        ensures
            r == self.value(),
        decreases self,
    {
        match self {
            Expression::Integer(value) => *value,
            Expression::Plus(left, right) => left.evaluate().wrapping_add(right.evaluate()),
            Expression::Multiply(left, right) => left.evaluate().wrapping_mul(right.evaluate()),
        }
    }

    pub fn is_integer_expression(&self) -> (r: bool)
        ensures
            r == self is Integer,
    {
        match self {
            Expression::Integer(_) => true,
            _ => false,
        }
    }

    pub fn is_plus_expression(&self) -> (r: bool)
        ensures
            r == self is Plus,
    {
        match self {
            Expression::Plus(_, _) => true,
            _ => false,
        }
    }

    pub fn is_multiplication_expression(&self) -> (r: bool)
        ensures
            r == self is Multiply,
    {
        match self {
            Expression::Multiply(_, _) => true,
            _ => false,
        }
    }

    /// The fully parenthesized text, such as `((1+2)*3)`.
    pub fn to_string(&self) -> (r: String)
        requires
            self.wf(),
        ensures
            r@ == self.text(),
        decreases self,
    {
        match self {
            Expression::Integer(value) => digit_string(*value),
            Expression::Plus(left, right) => {
                let mut s = String::new();
                s.append("(");
                s.append(left.to_string().as_str());
                s.append("+");
                s.append(right.to_string().as_str());
                s.append(")");
                proof {
                    reveal_strlit("(");
                    reveal_strlit("+");
                    reveal_strlit(")");
                }
                assert(s@ =~= self.text());
                s
            },
            Expression::Multiply(left, right) => {
                let mut s = String::new();
                s.append("(");
                s.append(left.to_string().as_str());
                s.append("*");
                s.append(right.to_string().as_str());
                s.append(")");
                proof {
                    reveal_strlit("(");
                    reveal_strlit("*");
                    reveal_strlit(")");
                }
                assert(s@ =~= self.text());
                s
            },
        }
    }

    /// The text with few parentheses, such as `(1+2)*3`.
    pub fn to_string_pretty(&self) -> (r: String)
        requires
            self.wf(),
        ensures
            r@ == self.pretty(),
        decreases self, 0int,
    {
        match self {
            Expression::Integer(value) => digit_string(*value),
            Expression::Plus(left, right) => {
                let mut s = left.to_string_pretty();
                s.append("+");
                s.append(right.to_string_pretty().as_str());
                proof {
                    reveal_strlit("+");
                }
                assert(s@ =~= self.pretty());
                s
            },
            Expression::Multiply(left, right) => {
                let mut s = String::new();
                append_operand(&mut s, left);
                s.append("*");
                append_operand(&mut s, right);
                proof {
                    reveal_strlit("*");
                }
                assert(s@ =~= self.pretty());
                s
            },
        }
    }
}

/// Appends an operand of a product, in parentheses when it is a sum.
fn append_operand(s: &mut String, e: &Expression)
    requires
        e.wf(),
    ensures
        final(s)@ == old(s)@ + e.operand_text(),
    decreases e, 1int,
{
    if e.is_plus_expression() {
        s.append("(");
        s.append(e.to_string_pretty().as_str());
        s.append(")");
        proof {
            reveal_strlit("(");
            reveal_strlit(")");
        }
        assert(final(s)@ =~= old(s)@ + e.operand_text());
    } else {
        s.append(e.to_string_pretty().as_str());
    }
}

/// The one-character text of a digit.
fn digit_string(value: i64) -> (r: String)
    requires
        0 <= value <= 9,
    ensures
        r@ == seq![digit_char(value)],
{
    proof {
        reveal_strlit("0");
        reveal_strlit("1");
        reveal_strlit("2");
        reveal_strlit("3");
        reveal_strlit("4");
        reveal_strlit("5");
        reveal_strlit("6");
        reveal_strlit("7");
        reveal_strlit("8");
        reveal_strlit("9");
    }
    let r = match value {
        0 => "0".to_string(),
        1 => "1".to_string(),
        2 => "2".to_string(),
        3 => "3".to_string(),
        4 => "4".to_string(),
        5 => "5".to_string(),
        6 => "6".to_string(),
        7 => "7".to_string(),
        8 => "8".to_string(),
        _ => "9".to_string(),
    };
    assert(r@ =~= seq![digit_char(value)]);
    r
}

pub fn new_integer_expression(value: i64) -> (r: Expression)
    ensures
        r == Expression::Integer(value),
{
    Expression::Integer(value)
}

pub fn new_plus_expression(left: Expression, right: Expression) -> (r: Expression)
    ensures
        r == Expression::Plus(Box::new(left), Box::new(right)),
{
    Expression::Plus(Box::new(left), Box::new(right))
}

pub fn new_multiplication_expression(left: Expression, right: Expression) -> (r: Expression)
    ensures
        r == Expression::Multiply(Box::new(left), Box::new(right)),
{
    Expression::Multiply(Box::new(left), Box::new(right))
}

} // verus!
