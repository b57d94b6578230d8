use vstd::prelude::*;
use vstd::wrapping::i64_specs;

verus! {

#[derive(Clone, Copy)]
enum OpCode {
    PUSH,
    PLUS,
    MULT,
}

/// An instruction of the stack machine.
#[derive(Clone, Copy)]
pub struct Instruction {
    op_code: OpCode,
    value: i64,
}

/// What an instruction does: push its value, or pop two values and push
/// their sum or product.
pub enum Op {
    Push(i64),
    Plus,
    Mult,
}

impl View for Instruction {
    type V = Op;

    closed spec fn view(&self) -> Op {
        match self.op_code {
            OpCode::PUSH => Op::Push(self.value),
            OpCode::PLUS => Op::Plus,
            OpCode::MULT => Op::Mult,
        }
    }
}

/// What a sequence of instructions does.
pub open spec fn ops_of(v: Seq<Instruction>) -> Seq<Op> {
    v.map_values(|i: Instruction| i@)
}

/// The stack after one instruction, or `None` where it pops from a stack
/// with fewer than two values. The second value popped is the left operand.
/// Sums and products wrap around on 64 bits.
pub open spec fn step(op: Op, stack: Seq<i64>) -> Option<Seq<i64>> {
    match op {
        Op::Push(v) => Some(stack.push(v)),
        Op::Plus => if stack.len() >= 2 {
            Some(
                stack.drop_last().drop_last().push(
                    i64_specs::wrapping_add(stack[stack.len() - 2], stack.last()),
                ),
            )
        } else {
            None
        },
        Op::Mult => if stack.len() >= 2 {
            Some(
                stack.drop_last().drop_last().push(
                    i64_specs::wrapping_mul(stack[stack.len() - 2], stack.last()),
                ),
            )
        } else {
            None
        },
    }
}

/// The stack after a program, run from left to right on `stack`, or `None`
/// where some instruction finds too few values.
pub open spec fn exec_ops(prog: Seq<Op>, stack: Seq<i64>) -> Option<Seq<i64>>
    decreases prog.len(),
{
    if prog.len() == 0 {
        Some(stack)
    } else {
        match step(prog[0], stack) {
            Some(s) => exec_ops(prog.drop_first(), s),
            None => None,
        }
    }
}

/// Whether a program, run on a stack of `depth` values, never finds too few.
pub open spec fn fits(prog: Seq<Op>, depth: nat) -> bool
    decreases prog.len(),
{
    if prog.len() == 0 {
        true
    } else {
        match prog[0] {
            Op::Push(_) => fits(prog.drop_first(), depth + 1),
            _ => depth >= 2 && fits(prog.drop_first(), (depth - 1) as nat),
        }
    }
}

/// Whether a program runs depends on the depth of the stack alone.
proof fn lemma_fits(prog: Seq<Op>, stack: Seq<i64>)
    ensures
        exec_ops(prog, stack) is Some <==> fits(prog, stack.len()),
    decreases prog.len(),
{
    if prog.len() > 0 {
        match step(prog[0], stack) {
            Some(s) => lemma_fits(prog.drop_first(), s),
            None => {},
        }
    }
}

/// The top of a stack, if it has one.
pub open spec fn top(stack: Seq<i64>) -> Option<i64> {
    if stack.len() == 0 {
        None
    } else {
        Some(stack.last())
    }
}

/// What a fresh machine returns for a program that never finds too few
/// values: the top of the final stack.
pub open spec fn run_ops(prog: Seq<Op>) -> Option<i64> {
    match exec_ops(prog, Seq::empty()) {
        Some(s) => top(s),
        None => None,
    }
}

impl Instruction {
    fn new_nullary(op_code: OpCode) -> (r: Instruction)
        ensures
            r.op_code == op_code,
            r.value == 0,
    {
        Instruction { op_code, value: 0 }
    }

    fn new_unary(op_code: OpCode, value: i64) -> (r: Instruction)
        ensures
            r.op_code == op_code,
            r.value == value,
    {
        Instruction { op_code, value }
    }

    pub fn new_push(value: i64) -> (r: Instruction)
        ensures
            r@ == Op::Push(value),
    {
        Instruction::new_unary(OpCode::PUSH, value)
    }

    pub fn new_plus() -> (r: Instruction)
        ensures
            r@ == Op::Plus,
    {
        Instruction::new_nullary(OpCode::PLUS)
    }

    pub fn new_mult() -> (r: Instruction)
        ensures
            r@ == Op::Mult,
    {
        Instruction::new_nullary(OpCode::MULT)
    }
}

/// A stack machine: a program and an operand stack.
pub struct VM {
    instructions: Vec<Instruction>,
    stack: Vec<i64>,
}

impl VM {
    /// What the program does.
    pub closed spec fn program(&self) -> Seq<Op> {
        ops_of(self.instructions@)
    }

    /// The operand stack, its top last.
    pub closed spec fn stack(&self) -> Seq<i64> {
        self.stack@
    }

    pub fn new(instructions: Vec<Instruction>) -> (r: VM)
        ensures
            r.program() == ops_of(instructions@),
            r.stack() == Seq::<i64>::empty(),
    {
        VM { instructions, stack: Vec::new() }
    }

    /// Whether running the program from the current stack never finds too few
    /// values on it.
    pub fn can_run(&self) -> (r: bool)
        ensures
            r == exec_ops(self.program(), self.stack()) is Some,
    {
        let n = self.instructions.len();
        let mut depth: u128 = self.stack.len() as u128;
        proof {
            lemma_fits(self.program(), self.stack());
            assert(self.program().skip(0) =~= self.program());
        }
        for i in 0..n
            invariant
                n == self.instructions@.len(),
                self.stack@.len() <= usize::MAX,
                depth <= self.stack@.len() + i,
                exec_ops(self.program(), self.stack()) is Some <==> fits(
                    self.program().skip(i as int),
                    depth as nat,
                ),
        {
            assert(self.program().skip(i as int).drop_first() =~= self.program().skip(i + 1));
            assert(self.program().skip(i as int)[0] == self.instructions@[i as int]@);
            match self.instructions[i].op_code {
                OpCode::PUSH => {
                    depth = depth + 1;
                },
                _ => {
                    if depth < 2 {
                        return false;
                    }
                    depth = depth - 1;
                },
            }
        }
        true
    }

    /// Runs the program on the stack and pops the top of the result, if any.
    pub fn run(&mut self) -> (r: Option<i64>)
        requires
            exec_ops(old(self).program(), old(self).stack()) is Some,
        ensures
            final(self).program() == old(self).program(),
            ({
                let s = exec_ops(old(self).program(), old(self).stack())->0;
                &&& r == top(s)
                &&& final(self).stack() == if s.len() == 0 {
                    s
                } else {
                    s.drop_last()
                }
            }),
    {
        let ghost prog = self.program();
        let ghost result = exec_ops(old(self).program(), old(self).stack());
        let n = self.instructions.len();
        assert(prog.skip(0) =~= prog);
        for i in 0..n
            invariant
                n == self.instructions@.len(),
                prog == self.program(),
                prog == old(self).program(),
                result == exec_ops(old(self).program(), old(self).stack()),
                result is Some,
                exec_ops(prog.skip(i as int), self.stack@) == result,
        {
            assert(prog.skip(i as int).drop_first() =~= prog.skip(i + 1));
            assert(prog.skip(i as int)[0] == self.instructions@[i as int]@);
            let instruction = self.instructions[i];
            match instruction.op_code {
                OpCode::PUSH => self.stack.push(instruction.value),
                OpCode::PLUS => {
                    let right = self.stack.pop().unwrap();
                    let left = self.stack.pop().unwrap();
                    self.stack.push(left.wrapping_add(right));
                },
                OpCode::MULT => {
                    let right = self.stack.pop().unwrap();
                    let left = self.stack.pop().unwrap();
                    self.stack.push(left.wrapping_mul(right));
                },
            }
        }
        assert(prog.skip(n as int) =~= Seq::<Op>::empty());
        self.stack.pop()
    }
}

} // verus!
