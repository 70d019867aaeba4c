use minicc::ast::{new_node, new_node_num, BinOp, Node};
use minicc::codegen::{gen, Instr};
use minicc::compiler::{compile, generate, CompileError};
use minicc::lexer::{is_space, new_token, str_to_u, tokienize, LexError, Token};
use minicc::parser::{parse, ParseError, Parser};

/// Runs a program the way the target does: 64-bit registers, wrapping
/// arithmetic, truncating division.
fn run(prog: &[Instr]) -> i64 {
    let mut stack: Vec<i64> = Vec::new();
    let (mut a, mut b) = (0i64, 0i64);
    for i in prog {
        match *i {
            Instr::Push(v) => stack.push(v as i64),
            Instr::PopB => b = stack.pop().unwrap(),
            Instr::PopA => a = stack.pop().unwrap(),
            Instr::Op(BinOp::Add) => a = a.wrapping_add(b),
            Instr::Op(BinOp::Sub) => a = a.wrapping_sub(b),
            Instr::Op(BinOp::Mul) => a = a.wrapping_mul(b),
            Instr::Op(BinOp::Div) => a = a.wrapping_div(b),
            Instr::PushA => stack.push(a),
            Instr::Ret => return a,
        }
    }
    panic!("the program did not return");
}

fn value(src: &str) -> i64 {
    run(&compile(src).unwrap())
}

fn chars(s: &str) -> Vec<char> {
    s.chars().collect()
}

#[test]
fn print_step1() {
    let args = vec!["dummy".to_string(), "123".to_string()];
    assert_eq!(value(&args[1]), 123);
}

#[test]
fn print_step2() {
    let args = vec!["dummy".to_string(), "5+20-4".to_string()];
    assert_eq!(value(&args[1]), 21);
}

#[test]
fn print_step3() {
    let args = vec!["dummy".to_string(), " 12 + 34 - 5 ".to_string()];
    assert_eq!(value(&args[1]), 41);
}

#[test]
fn print_step5_1() {
    let args = vec!["dummy".to_string(), "5*(9-6)".to_string()];
    assert_eq!(value(&args[1]), 15);
}

#[test]
fn print_step5_2() {
    let args = vec!["dummy".to_string(), "(3+5)/2".to_string()];
    assert_eq!(value(&args[1]), 4);
}

#[test]
fn print_step6_1() {
    let args = vec!["dummy".to_string(), "-10+20".to_string()];
    assert_eq!(value(&args[1]), 10);
}

#[test]
fn print_step6_2() {
    let args = vec!["dummy".to_string(), "- -10".to_string()];
    assert_eq!(value(&args[1]), 10);
}

#[test]
fn precedence_and_left_associativity() {
    assert_eq!(value("1+2*3"), 7);
    assert_eq!(value("10-4-3"), 3);
    assert_eq!(value("100/10/5"), 2);
    assert_eq!(value("2*3-4/2"), 4);
    assert_eq!(value("(1+2)*(3+4)"), 21);
}

#[test]
fn division_truncates_toward_zero() {
    assert_eq!(value("7/2"), 3);
    assert_eq!(value("-7/2"), -3);
    assert_eq!(value("7/-2"), -3);
    assert_eq!(value("-7/-2"), 3);
}

#[test]
fn unary_signs() {
    assert_eq!(value("+5"), 5);
    assert_eq!(value("-(2+3)*2"), -10);
    assert_eq!(value("--+-4"), -4);
}

#[test]
fn whitespace_does_not_change_the_program() {
    assert_eq!(compile(" 12 + 34 - 5 ").unwrap(), compile("12+34-5").unwrap());
    assert_eq!(compile("\t( 1 +2 )\n* 3\u{3000}").unwrap(), compile("(1+2)*3").unwrap());
}

#[test]
fn whitespace_ends_a_literal() {
    assert_eq!(
        tokienize("1 2").unwrap(),
        vec![Token::Num(1), Token::Num(2), Token::Eof]
    );
    assert_eq!(compile("1 2").unwrap_err(), CompileError::Parse(ParseError::ExpectedEnd { at: 1 }));
    assert_eq!(compile("1 2+1").unwrap_err(), CompileError::Parse(ParseError::ExpectedEnd { at: 1 }));
    assert_eq!(
        tokienize("12\t34+5").unwrap(),
        vec![Token::Num(12), Token::Num(34), Token::Reserved('+'), Token::Num(5), Token::Eof]
    );
}

#[test]
fn whitespace_around_tokens_keeps_the_value() {
    assert_eq!(value("12+34"), value(" 12 +\n34 "));
    assert_eq!(compile("-(7)/2").unwrap(), compile("- ( 7 ) / 2").unwrap());
}

#[test]
fn tokens_of_a_source() {
    let t = tokienize(" 12 +(3)").unwrap();
    assert_eq!(
        t,
        vec![
            Token::Num(12),
            Token::Reserved('+'),
            Token::Reserved('('),
            Token::Num(3),
            Token::Reserved(')'),
            Token::Eof
        ]
    );
    assert_eq!(tokienize("").unwrap(), vec![Token::Eof]);
    assert_eq!(tokienize(" \n ").unwrap(), vec![Token::Eof]);
}

#[test]
fn literals_wrap_modulo_two_to_the_32() {
    assert_eq!(tokienize("4294967295").unwrap()[0], Token::Num(4294967295));
    assert_eq!(tokienize("4294967296").unwrap()[0], Token::Num(0));
    assert_eq!(tokienize("4294967303").unwrap()[0], Token::Num(7));
    assert_eq!(tokienize("007").unwrap()[0], Token::Num(7));
}

#[test]
fn unknown_character_is_a_lex_error() {
    assert_eq!(tokienize("1 + a").unwrap_err(), LexError { ch: 'a', at: 4 });
    assert_eq!(
        compile("2%3").unwrap_err(),
        CompileError::Lex(LexError { ch: '%', at: 1 })
    );
    assert_eq!(tokienize("x y").unwrap_err(), LexError { ch: 'x', at: 0 });
}

#[test]
fn grammar_rejections() {
    assert_eq!(compile("").unwrap_err(), CompileError::Parse(ParseError::ExpectedNumber { at: 0 }));
    assert_eq!(compile("   ").unwrap_err(), CompileError::Parse(ParseError::ExpectedNumber { at: 0 }));
    assert_eq!(compile("+").unwrap_err(), CompileError::Parse(ParseError::ExpectedNumber { at: 1 }));
    assert_eq!(compile("5+*3").unwrap_err(), CompileError::Parse(ParseError::ExpectedNumber { at: 2 }));
    assert_eq!(
        compile("(1+2").unwrap_err(),
        CompileError::Parse(ParseError::Expected { op: ')', at: 4 })
    );
    assert_eq!(compile("1+2)").unwrap_err(), CompileError::Parse(ParseError::ExpectedEnd { at: 3 }));
    assert_eq!(compile("()").unwrap_err(), CompileError::Parse(ParseError::ExpectedNumber { at: 1 }));
    assert_eq!(compile("1 2 (").unwrap_err(), CompileError::Parse(ParseError::ExpectedEnd { at: 1 }));
    assert_eq!(compile("3-").unwrap_err(), CompileError::Parse(ParseError::ExpectedNumber { at: 2 }));
}

#[test]
fn division_by_zero_still_compiles() {
    let p = compile("1/0").unwrap();
    assert_eq!(p[2], Instr::PopB);
    assert_eq!(p[4], Instr::Op(BinOp::Div));
}

#[test]
fn trees_fold_to_the_left() {
    let t = parse(tokienize("1-2-3").unwrap()).unwrap();
    let want = new_node(
        BinOp::Sub,
        new_node(BinOp::Sub, new_node_num(1), new_node_num(2)),
        new_node_num(3),
    );
    assert_eq!(t, want);
    let u = parse(tokienize("-5").unwrap()).unwrap();
    assert_eq!(u, Node::Bin(BinOp::Sub, Box::new(Node::Num(0)), Box::new(Node::Num(5))));
}

#[test]
fn generated_code_is_post_order() {
    let t = parse(tokienize("1+2").unwrap()).unwrap();
    assert_eq!(
        generate(&t),
        vec![
            Instr::Push(1),
            Instr::Push(2),
            Instr::PopB,
            Instr::PopA,
            Instr::Op(BinOp::Add),
            Instr::PushA,
            Instr::PopA,
            Instr::Ret
        ]
    );
    let mut out = vec![Instr::Ret];
    gen(&new_node_num(9), &mut out);
    assert_eq!(out, vec![Instr::Ret, Instr::Push(9)]);
}

#[test]
fn parser_primitives() {
    let mut p = Parser::new(tokienize("(7").unwrap());
    assert!(!p.consume('+'));
    assert_eq!(p.pos, 0);
    assert!(p.consume('('));
    assert_eq!(p.pos, 1);
    assert_eq!(p.expect(')'), Err(ParseError::Expected { op: ')', at: 1 }));
    assert_eq!(p.expect_number(), Ok(7));
    assert!(p.at_eof());
    assert_eq!(p.expect_number(), Err(ParseError::ExpectedNumber { at: 2 }));
    assert!(p.at_eof());
}

#[test]
fn parser_tiers() {
    let mut p = Parser::new(tokienize("2*3+4").unwrap());
    let m = p.mul().unwrap();
    assert_eq!(m, new_node(BinOp::Mul, new_node_num(2), new_node_num(3)));
    assert_eq!(p.pos, 3);
    let mut q = Parser::new(tokienize("-(4)").unwrap());
    assert_eq!(q.unary().unwrap(), new_node(BinOp::Sub, new_node_num(0), new_node_num(4)));
    let mut r = Parser::new(tokienize("(4)*2").unwrap());
    assert_eq!(r.primary().unwrap(), new_node_num(4));
    assert_eq!(r.pos, 3);
    let mut e = Parser::new(tokienize("1+2(").unwrap());
    assert_eq!(e.expr().unwrap(), new_node(BinOp::Add, new_node_num(1), new_node_num(2)));
}

#[test]
fn digit_runs_and_single_tokens() {
    let t = chars("123+4");
    let mut pos: usize = 0;
    assert_eq!(str_to_u(&t, &mut pos), 123);
    assert_eq!(pos, 3);
    let mut cur = Vec::new();
    new_token(&t, &mut pos, &mut cur);
    assert_eq!(pos, 4);
    new_token(&t, &mut pos, &mut cur);
    assert_eq!(pos, 5);
    assert_eq!(cur, vec![Token::Reserved('+'), Token::Num(4)]);
    let mut at_end: usize = 5;
    assert_eq!(str_to_u(&t, &mut at_end), 0);
    assert_eq!(at_end, 5);
}

#[test]
fn unicode_whitespace() {
    assert!(is_space(' '));
    assert!(is_space('\u{3000}'));
    assert!(is_space('\u{85}'));
    assert!(!is_space('x'));
    assert!(!is_space('\u{200b}'));
}
