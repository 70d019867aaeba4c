//! The whole pipeline: source text to a program, and what it guarantees.
use vstd::prelude::*;
use crate::ast::{eval, Node};
use crate::codegen::{
    code, gen, lemma_code_pushes_value, lemma_run_append, program, result, run, Instr, Machine,
};
use crate::lexer::{
    all_known, has_unknown, is_known_spec, is_space_spec, lemma_lex_one_eof, lemma_lex_spaces,
    lemma_tokens_ignore_whitespace, lex, splits_digits,
    tokens_of, tokienize, LexError,
};
use crate::parser::{
    bad_pair, balanced, lemma_expr_range, parse, parse_all, parse_expr, tok_at, ParseError,
};

verus! {

/// Why a source could not be compiled.
#[derive(Clone, Copy, Debug, PartialEq, Eq, Structural)]
pub enum CompileError {
    Lex(LexError),
    Parse(ParseError),
}

/// The tree of a source, or the first error met on the way to it.
pub open spec fn tree_of(s: Seq<char>) -> Result<Node, CompileError> {
    match tokens_of(s) {
        Err(e) => Err(CompileError::Lex(e)),
        Ok(toks) => match parse_all(toks) {
            Err(e) => Err(CompileError::Parse(e)),
            Ok(n) => Ok(n),
        },
    }
}

/// The program for a source.
pub open spec fn compile_spec(s: Seq<char>) -> Result<Seq<Instr>, CompileError> {
    match tree_of(s) {
        Err(e) => Err(e),
        Ok(n) => Ok(program(n)),
    }
}

/// The value of an accepted source under the usual precedence, left
/// associativity and division truncated toward zero, in unbounded integers.
pub open spec fn source_value(s: Seq<char>) -> Option<int> {
    match tree_of(s) {
        Ok(n) => eval(n),
        Err(_) => None,
    }
}

/// The complete program for a tree: its code, then the pop of the result
/// into register A and the return.
pub fn generate(node: &Node) -> (r: Vec<Instr>)
    ensures
        r@ == program(*node),
{
    let mut out: Vec<Instr> = Vec::new();
    gen(node, &mut out);
    out.push(Instr::PopA);
    out.push(Instr::Ret);
    proof {
        assert(out@ =~= program(*node));
    }
    out
}

/// Compiles `source`: tokenizes it, parses the tokens as one expression
/// that spans them all, and generates the program, failing on the first
/// error.
pub fn compile(source: &str) -> (r: Result<Vec<Instr>, CompileError>)
    ensures
        r matches Ok(v) ==> compile_spec(source@) == Ok::<Seq<Instr>, CompileError>(v@),
        r matches Err(e) ==> compile_spec(source@) == Err::<Seq<Instr>, CompileError>(e),
{
    let tokens = match tokienize(source) {
        Ok(t) => t,
        Err(e) => return Err(CompileError::Lex(e)),
    };
    let node = match parse(tokens) {
        Ok(n) => n,
        Err(e) => return Err(CompileError::Parse(e)),
    };
    Ok(generate(&node))
}

/// A compiled program, run from an empty stack, returns the value of the
/// source it was compiled from (and fails exactly where that value does not
/// exist, on a division by zero).
pub proof fn lemma_program_computes_source_value(s: Seq<char>)
    ensures
        compile_spec(s) matches Ok(p) ==> result(p) == source_value(s),
{
    if let Ok(n) = tree_of(s) {
        let m = Machine { stack: Seq::empty(), a: 0, b: 0 };
        let tail = seq![Instr::PopA, Instr::Ret];
        lemma_run_append(code(n), tail, m);
        lemma_code_pushes_value(n, m);
        if let Some(m2) = run(code(n), m) {
            assert(tail.drop_first().drop_first().len() == 0);
            reveal_with_fuel(run, 3);
        }
    }
}

/// Whitespace inserted anywhere in a source changes nothing of whether it
/// is rejected for an unknown character; and whitespace inserted around
/// tokens, that is not between two digits, changes neither whether it
/// compiles, nor the program it compiles to, nor its value.
pub proof fn lemma_whitespace_invariance(s1: Seq<char>, w: Seq<char>, s2: Seq<char>)
    requires
        forall|i: int| 0 <= i < w.len() ==> is_space_spec(#[trigger] w[i]),
    ensures
        compile_spec(s1 + w + s2) matches Err(CompileError::Lex(_)) <==> compile_spec(s1 + s2) matches Err(
            CompileError::Lex(_),
        ),
        !splits_digits(s1, s2) ==> compile_spec(s1 + w + s2) is Ok == compile_spec(s1 + s2) is Ok,
        !splits_digits(s1, s2) && compile_spec(s1 + s2) is Ok ==> compile_spec(s1 + w + s2)
            == compile_spec(s1 + s2),
        !splits_digits(s1, s2) ==> source_value(s1 + w + s2) == source_value(s1 + s2),
{
    lemma_tokens_ignore_whitespace(s1, w, s2);
}

/// A source of whitespace alone is rejected. Every accepted source has a
/// token besides the end marker; its parentheses match; and no operator in
/// it is followed by a token that cannot begin an operand (a second `*` or
/// `/`, a `)`, or the end), so a bare or dangling operator is rejected.
pub proof fn lemma_rejections(s: Seq<char>)
    ensures
        (forall|i: int| 0 <= i < s.len() ==> is_space_spec(#[trigger] s[i])) ==> compile_spec(s) is Err,
        compile_spec(s) is Ok ==> (tokens_of(s) matches Ok(toks) && {
            &&& toks.len() > 1
            &&& balanced(toks, 0, toks.len() - 1)
            &&& forall|i: int| 0 <= i < toks.len() - 1 ==> !bad_pair(#[trigger] toks[i], toks[i + 1])
        }),
{
    if let Ok(toks) = tokens_of(s) {
        assert(!has_unknown(s));
        assert forall|i: int| 0 <= i < s.len() implies is_known_spec(#[trigger] s[i]) by {
            if !is_known_spec(s[i]) {
                assert(has_unknown(s));
            }
        }
        lemma_lex_one_eof(s);
        assert(toks == lex(s));
        lemma_expr_range(toks, 0);
        if let Ok((n, p)) = parse_expr(toks, 0) {
            if tok_at(toks, p) == crate::lexer::Token::Eof {
                assert(p == toks.len() - 1);
            }
        }
        if forall|i: int| 0 <= i < s.len() ==> is_space_spec(#[trigger] s[i]) {
            lemma_lex_spaces(s, Seq::empty());
            assert(s + Seq::<char>::empty() =~= s);
            assert(toks.len() == 1);
        }
    } else {
        if forall|i: int| 0 <= i < s.len() ==> is_space_spec(#[trigger] s[i]) {
            assert(!has_unknown(s));
        }
    }
}

} // verus!
