//! Code generation for a stack machine with two operand registers.
use vstd::prelude::*;
use crate::ast::{apply, eval, BinOp, Node};

verus! {

/// One instruction of the target machine.
#[derive(Clone, Copy, Debug, PartialEq, Eq, Structural)]
pub enum Instr {
    /// Pushes a literal onto the stack.
    Push(u32),
    /// Pops the top of the stack into register B.
    PopB,
    /// Pops the top of the stack into register A.
    PopA,
    /// Sets A to `A op B`.
    Op(BinOp),
    /// Pushes register A onto the stack.
    PushA,
    /// Returns to the caller with the value of A.
    Ret,
}

/// The state of the machine: its stack, top last, and its two registers.
pub struct Machine {
    pub stack: Seq<int>,
    pub a: int,
    pub b: int,
}

/// One instruction's effect; none where it pops an empty stack or divides
/// by zero.
pub open spec fn step(i: Instr, m: Machine) -> Option<Machine> {
    match i {
        Instr::Push(v) => Some(Machine { stack: m.stack.push(v as int), ..m }),
        Instr::PopB => if m.stack.len() == 0 {
            None
        } else {
            Some(Machine { stack: m.stack.drop_last(), b: m.stack.last(), ..m })
        },
        Instr::PopA => if m.stack.len() == 0 {
            None
        } else {
            Some(Machine { stack: m.stack.drop_last(), a: m.stack.last(), ..m })
        },
        Instr::Op(op) => match apply(op, m.a, m.b) {
            Some(v) => Some(Machine { a: v, ..m }),
            None => None,
        },
        Instr::PushA => Some(Machine { stack: m.stack.push(m.a), ..m }),
        Instr::Ret => Some(m),
    }
}

/// Runs a sequence of instructions in order from `m`.
pub open spec fn run(p: Seq<Instr>, m: Machine) -> Option<Machine>
    decreases p.len(),
{
    if p.len() == 0 {
        Some(m)
    } else {
        match step(p[0], m) {
            Some(m2) => run(p.drop_first(), m2),
            None => None,
        }
    }
}

/// What a program returns when it is entered with an empty stack: the
/// value of register A after its last instruction.
pub open spec fn result(p: Seq<Instr>) -> Option<int> {
    match run(p, Machine { stack: Seq::empty(), a: 0, b: 0 }) {
        Some(m) => Some(m.a),
        None => None,
    }
}

/// The instructions for a tree, in post order: both operands are pushed,
/// left first, then popped into B and A, combined, and the result pushed.
pub open spec fn code(n: Node) -> Seq<Instr>
    decreases n,
{
    match n {
        Node::Num(v) => seq![Instr::Push(v)],
        Node::Bin(op, l, r) => code(*l) + code(*r) + seq![
            Instr::PopB,
            Instr::PopA,
            Instr::Op(op),
            Instr::PushA,
        ],
    }
}

/// The whole program for a tree: its code, then the pop of the result into
/// A and the return.
pub open spec fn program(n: Node) -> Seq<Instr> {
    code(n) + seq![Instr::PopA, Instr::Ret]
}

/// Running one sequence after another is running their concatenation.
pub proof fn lemma_run_append(p: Seq<Instr>, q: Seq<Instr>, m: Machine)
    ensures
        run(p + q, m) == match run(p, m) {
            Some(m2) => run(q, m2),
            None => None,
        },
    decreases p.len(),
{
    if p.len() == 0 {
        assert(p + q =~= q);
    } else {
        assert((p + q).drop_first() =~= p.drop_first() + q);
        match step(p[0], m) {
            Some(m2) => lemma_run_append(p.drop_first(), q, m2),
            None => {},
        }
    }
}

/// The code of a tree pushes its value on whatever stack it starts from,
/// and fails only where the tree divides by zero.
pub proof fn lemma_code_pushes_value(n: Node, m: Machine)
    ensures
        eval(n) is None ==> run(code(n), m) is None,
        eval(n) matches Some(v) ==> run(code(n), m) matches Some(m2) && m2.stack == m.stack.push(v),
    decreases n,
{
    match n {
        Node::Num(v) => {
            assert(code(n).drop_first().len() == 0);
            reveal_with_fuel(run, 2);
        },
        Node::Bin(op, l, r) => {
            let tail = seq![Instr::PopB, Instr::PopA, Instr::Op(op), Instr::PushA];
            lemma_run_append(code(*l) + code(*r), tail, m);
            lemma_run_append(code(*l), code(*r), m);
            lemma_code_pushes_value(*l, m);
            if let Some(m1) = run(code(*l), m) {
                lemma_code_pushes_value(*r, m1);
                if let Some(m2) = run(code(*r), m1) {
                    let a = eval(*l).unwrap();
                    let b = eval(*r).unwrap();
                    assert(m2.stack.drop_last() =~= m.stack.push(a));
                    assert(m2.stack.drop_last().drop_last() =~= m.stack);
                    assert(tail.drop_first().drop_first().drop_first().drop_first().len() == 0);
                    reveal_with_fuel(run, 5);
                }
            }
        },
    }
}

/// Appends the code of `node` to `out`.
pub fn gen(node: &Node, out: &mut Vec<Instr>)
    ensures
        final(out)@ == old(out)@ + code(*node),
    decreases node,
{
    match node {
        Node::Num(v) => {
            out.push(Instr::Push(*v));
        },
        Node::Bin(op, l, r) => {
            gen(l, out);
            gen(r, out);
            out.push(Instr::PopB);
            out.push(Instr::PopA);
            out.push(Instr::Op(*op));
            out.push(Instr::PushA);
        },
    }
    proof {
        assert(out@ =~= old(out)@ + code(*node));
    }
}

} // verus!
