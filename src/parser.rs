//! Recursive-descent parsing of a token sequence, following the grammar
//!
//! ```text
//! expr    := mul (("+" | "-") mul)*
//! mul     := unary (("*" | "/") unary)*
//! unary   := ("+" | "-") unary | primary
//! primary := Number | "(" expr ")"
//! ```
//!
//! with left-associative folding of each operator chain. A leading `-`
//! stands for subtraction from zero; a leading `+` is dropped.
use vstd::prelude::*;
use crate::ast::{new_node, new_node_num, BinOp, Node};
use crate::lexer::Token;

verus! {

/// A violated expectation of the grammar, with the index of the token where
/// it was found.
#[derive(Clone, Copy, Debug, PartialEq, Eq, Structural)]
pub enum ParseError {
    /// The punctuator `op` was required.
    Expected { op: char, at: usize },
    /// A number or `(` was required.
    ExpectedNumber { at: usize },
    /// The expression ended before the end of the input.
    ExpectedEnd { at: usize },
}

/// The token at `pos`; past either end of the sequence, the end marker.
pub open spec fn tok_at(toks: Seq<Token>, pos: int) -> Token {
    if 0 <= pos < toks.len() {
        toks[pos]
    } else {
        Token::Eof
    }
}

pub open spec fn is_op(toks: Seq<Token>, pos: int, c: char) -> bool {
    tok_at(toks, pos) == Token::Reserved(c)
}

/// The outcome of reading one production from a position: the tree and the
/// position just past it, or the error.
pub type Parsed = Result<(Node, int), ParseError>;

// Each production below is read from `pos`. A production that succeeds
// always consumes at least one token; the checks `pos < p <= toks.len()` state this so that
// the definitions visibly terminate, and are never false (the range lemmas
// below show that every production that succeeds ends past its start and
// within the sequence).

/// `expr` read from `pos`.
pub open spec fn parse_expr(toks: Seq<Token>, pos: int) -> Parsed
    decreases toks.len() - pos, 4nat,
{
    match parse_mul(toks, pos) {
        Ok((n, p)) => if pos < p <= toks.len() {
            expr_tail(toks, p, n)
        } else {
            Ok((n, p))
        },
        Err(e) => Err(e),
    }
}

/// The rest of an `expr` chain from `pos`, with `acc` the tree so far.
pub open spec fn expr_tail(toks: Seq<Token>, pos: int, acc: Node) -> Parsed
    decreases toks.len() - pos, 5nat,
{
    if is_op(toks, pos, '+') || is_op(toks, pos, '-') {
        let op = if is_op(toks, pos, '+') {
            BinOp::Add
        } else {
            BinOp::Sub
        };
        match parse_mul(toks, pos + 1) {
            Ok((r, p)) => if pos + 1 < p <= toks.len() {
                expr_tail(toks, p, Node::Bin(op, Box::new(acc), Box::new(r)))
            } else {
                Ok((r, p))
            },
            Err(e) => Err(e),
        }
    } else {
        Ok((acc, pos))
    }
}

/// `mul` read from `pos`.
pub open spec fn parse_mul(toks: Seq<Token>, pos: int) -> Parsed
    decreases toks.len() - pos, 3nat,
{
    match parse_unary(toks, pos) {
        Ok((n, p)) => if pos < p <= toks.len() {
            mul_tail(toks, p, n)
        } else {
            Ok((n, p))
        },
        Err(e) => Err(e),
    }
}

/// The rest of a `mul` chain from `pos`, with `acc` the tree so far.
pub open spec fn mul_tail(toks: Seq<Token>, pos: int, acc: Node) -> Parsed
    decreases toks.len() - pos, 5nat,
{
    if is_op(toks, pos, '*') || is_op(toks, pos, '/') {
        let op = if is_op(toks, pos, '*') {
            BinOp::Mul
        } else {
            BinOp::Div
        };
        match parse_unary(toks, pos + 1) {
            Ok((r, p)) => if pos + 1 < p <= toks.len() {
                mul_tail(toks, p, Node::Bin(op, Box::new(acc), Box::new(r)))
            } else {
                Ok((r, p))
            },
            Err(e) => Err(e),
        }
    } else {
        Ok((acc, pos))
    }
}

/// `unary` read from `pos`.
pub open spec fn parse_unary(toks: Seq<Token>, pos: int) -> Parsed
    decreases toks.len() - pos, 2nat,
{
    if is_op(toks, pos, '+') {
        parse_unary(toks, pos + 1)
    } else if is_op(toks, pos, '-') {
        match parse_unary(toks, pos + 1) {
            Ok((n, p)) => Ok((Node::Bin(BinOp::Sub, Box::new(Node::Num(0)), Box::new(n)), p)),
            Err(e) => Err(e),
        }
    } else {
        parse_primary(toks, pos)
    }
}

/// `primary` read from `pos`.
pub open spec fn parse_primary(toks: Seq<Token>, pos: int) -> Parsed
    decreases toks.len() - pos, 1nat,
{
    if is_op(toks, pos, '(') {
        match parse_expr(toks, pos + 1) {
            Ok((n, p)) => if is_op(toks, p, ')') {
                Ok((n, p + 1))
            } else {
                Err(ParseError::Expected { op: ')', at: p as usize })
            },
            Err(e) => Err(e),
        }
    } else {
        match tok_at(toks, pos) {
            Token::Num(v) => Ok((Node::Num(v), pos + 1)),
            _ => Err(ParseError::ExpectedNumber { at: pos as usize }),
        }
    }
}

/// A whole token sequence read as one `expr` that must reach the end marker.
pub open spec fn parse_all(toks: Seq<Token>) -> Result<Node, ParseError> {
    match parse_expr(toks, 0) {
        Ok((n, p)) => if tok_at(toks, p) == Token::Eof {
            Ok(n)
        } else {
            Err(ParseError::ExpectedEnd { at: p as usize })
        },
        Err(e) => Err(e),
    }
}

/// What an exec parser owes for one production: on success the tree and
/// the new position agree with the definition, on failure the error does.
pub open spec fn agrees(spec: Parsed, r: Result<Node, ParseError>, new_pos: int) -> bool {
    match spec {
        Ok((n, p)) => r == Ok::<Node, ParseError>(n) && new_pos == p,
        Err(e) => r == Err::<Node, ParseError>(e),
    }
}

/// A cursor over a token sequence.
pub struct Parser {
    pub tokens: Vec<Token>,
    pub pos: usize,
}

impl Parser {
    pub open spec fn toks(&self) -> Seq<Token> {
        self.tokens@
    }

    /// A cursor at the first token.
    pub fn new(tokens: Vec<Token>) -> (r: Parser)
        ensures
            r.tokens@ == tokens@,
            r.pos == 0,
    {
        Parser { tokens, pos: 0 }
    }

    fn peek(&self) -> (r: Token)
        ensures
            r == tok_at(self.tokens@, self.pos as int),
    {
        if self.pos < self.tokens.len() {
            self.tokens[self.pos]
        } else {
            Token::Eof
        }
    }

    /// Moves past the current token if it is the punctuator `op`, and says
    /// whether it did.
    pub fn consume(&mut self, op: char) -> (r: bool)
        ensures
            r == is_op(old(self).tokens@, old(self).pos as int, op),
            r ==> old(self).pos < old(self).tokens@.len(),
            final(self).tokens@ == old(self).tokens@,
            final(self).pos == if r {
                old(self).pos + 1
            } else {
                old(self).pos as int
            },
    {
        let n = self.tokens.len();
        match self.peek() {
            Token::Reserved(c) => {
                if c == op {
                    assert(self.pos < n);
                    self.pos = self.pos + 1;
                    true
                } else {
                    false
                }
            },
            _ => false,
        }
    }

    /// Moves past the current token, which must be the punctuator `op`.
    pub fn expect(&mut self, op: char) -> (r: Result<(), ParseError>)
        ensures
            final(self).tokens@ == old(self).tokens@,
            r is Err ==> final(self).pos == old(self).pos,
            is_op(old(self).tokens@, old(self).pos as int, op) ==> r is Ok && final(self).pos
                == old(self).pos + 1 && old(self).pos < old(self).tokens@.len(),
            !is_op(old(self).tokens@, old(self).pos as int, op) ==> r == Err::<(), ParseError>(
                ParseError::Expected { op, at: old(self).pos },
            ),
    {
        if self.consume(op) {
            Ok(())
        } else {
            Err(ParseError::Expected { op, at: self.pos })
        }
    }

    /// Moves past the current token, which must be a number, and returns its
    /// value.
    pub fn expect_number(&mut self) -> (r: Result<u32, ParseError>)
        ensures
            final(self).tokens@ == old(self).tokens@,
            r is Ok ==> old(self).pos < old(self).tokens@.len(),
            r is Err ==> final(self).pos == old(self).pos,
            match tok_at(old(self).tokens@, old(self).pos as int) {
                Token::Num(v) => r == Ok::<u32, ParseError>(v) && final(self).pos == old(self).pos
                    + 1,
                _ => r == Err::<u32, ParseError>(ParseError::ExpectedNumber { at: old(self).pos }),
            },
    {
        let n = self.tokens.len();
        match self.peek() {
            Token::Num(v) => {
                assert(self.pos < n);
                self.pos = self.pos + 1;
                Ok(v)
            },
            _ => Err(ParseError::ExpectedNumber { at: self.pos }),
        }
    }

    /// Whether the cursor stands on the end marker.
    pub fn at_eof(&self) -> (r: bool)
        ensures
            r == (tok_at(self.tokens@, self.pos as int) == Token::Eof),
    {
        match self.peek() {
            Token::Eof => true,
            _ => false,
        }
    }
    /// The cursor stands on a token or just past the last one.
    pub open spec fn wf(&self) -> bool {
        self.pos <= self.tokens@.len()
    }

    /// Reads an `expr`: `mul` operands joined by `+` or `-`, folded to the left.
    pub fn expr(&mut self) -> (r: Result<Node, ParseError>)
        requires
            old(self).wf(),
        ensures
            final(self).wf(),
            final(self).tokens@ == old(self).tokens@,
            agrees(parse_expr(old(self).tokens@, old(self).pos as int), r, final(self).pos as int),
            r is Ok ==> final(self).pos > old(self).pos,
        decreases old(self).tokens@.len() - old(self).pos, 4nat,
    {
        let ghost start = self.pos as int;
        let ghost toks = self.tokens@;
        let mut node = match self.mul() {
            Ok(n) => n,
            Err(e) => return Err(e),
        };
        loop
            invariant
                self.wf(),
                self.tokens@ == toks,
                toks == old(self).tokens@,
                start == old(self).pos,
                start < self.pos,
                parse_expr(toks, start) == expr_tail(toks, self.pos as int, node),
            decreases toks.len() - self.pos,
        {
            let op = if self.consume('+') {
                BinOp::Add
            } else if self.consume('-') {
                BinOp::Sub
            } else {
                return Ok(node);
            };
            match self.mul() {
                Ok(rhs) => {
                    node = new_node(op, node, rhs);
                },
                Err(e) => return Err(e),
            }
        }
    }

    /// Reads a `mul`: `unary` operands joined by `*` or `/`, folded to the left.
    pub fn mul(&mut self) -> (r: Result<Node, ParseError>)
        requires
            old(self).wf(),
        ensures
            final(self).wf(),
            final(self).tokens@ == old(self).tokens@,
            agrees(parse_mul(old(self).tokens@, old(self).pos as int), r, final(self).pos as int),
            r is Ok ==> final(self).pos > old(self).pos,
        decreases old(self).tokens@.len() - old(self).pos, 3nat,
    {
        let ghost start = self.pos as int;
        let ghost toks = self.tokens@;
        let mut node = match self.unary() {
            Ok(n) => n,
            Err(e) => return Err(e),
        };
        loop
            invariant
                self.wf(),
                self.tokens@ == toks,
                toks == old(self).tokens@,
                start == old(self).pos,
                start < self.pos,
                parse_mul(toks, start) == mul_tail(toks, self.pos as int, node),
            decreases toks.len() - self.pos,
        {
            let op = if self.consume('*') {
                BinOp::Mul
            } else if self.consume('/') {
                BinOp::Div
            } else {
                return Ok(node);
            };
            match self.unary() {
                Ok(rhs) => {
                    node = new_node(op, node, rhs);
                },
                Err(e) => return Err(e),
            }
        }
    }

    /// Reads a `unary`: any number of signs before a `primary`. A `-` becomes
    /// a subtraction from zero, a `+` is dropped.
    pub fn unary(&mut self) -> (r: Result<Node, ParseError>)
        requires
            old(self).wf(),
        ensures
            final(self).wf(),
            final(self).tokens@ == old(self).tokens@,
            agrees(parse_unary(old(self).tokens@, old(self).pos as int), r, final(self).pos as int),
            r is Ok ==> final(self).pos > old(self).pos,
        decreases old(self).tokens@.len() - old(self).pos, 2nat,
    {
        if self.consume('+') {
            return self.unary();
        }
        if self.consume('-') {
            return match self.unary() {
                Ok(n) => Ok(new_node(BinOp::Sub, new_node_num(0), n)),
                Err(e) => Err(e),
            };
        }
        self.primary()
    }

    /// Reads a `primary`: a number, or an `expr` in parentheses.
    pub fn primary(&mut self) -> (r: Result<Node, ParseError>)
        requires
            old(self).wf(),
        ensures
            final(self).wf(),
            final(self).tokens@ == old(self).tokens@,
            agrees(parse_primary(old(self).tokens@, old(self).pos as int), r, final(self).pos as int),
            r is Ok ==> final(self).pos > old(self).pos,
        decreases old(self).tokens@.len() - old(self).pos, 1nat,
    {
        if self.consume('(') {
            let node = match self.expr() {
                Ok(n) => n,
                Err(e) => return Err(e),
            };
            match self.expect(')') {
                Ok(()) => Ok(node),
                Err(e) => Err(e),
            }
        } else {
            match self.expect_number() {
                Ok(v) => Ok(new_node_num(v)),
                Err(e) => Err(e),
            }
        }
    }
}

/// Reads a whole token sequence as one expression, which must be followed by
/// the end marker.
pub fn parse(tokens: Vec<Token>) -> (r: Result<Node, ParseError>)
    ensures
        r == parse_all(tokens@),
{
    let mut p = Parser::new(tokens);
    let node = match p.expr() {
        Ok(n) => n,
        Err(e) => return Err(e),
    };
    if p.at_eof() {
        Ok(node)
    } else {
        Err(ParseError::ExpectedEnd { at: p.pos })
    }
}

/// `+ - * /`.
pub open spec fn is_binop_tok(t: Token) -> bool {
    t == Token::Reserved('+') || t == Token::Reserved('-') || t == Token::Reserved('*') || t
        == Token::Reserved('/')
}

/// A token that can begin an operand: a number, `(`, or a sign.
pub open spec fn starts_operand(t: Token) -> bool {
    t is Num || t == Token::Reserved('(') || t == Token::Reserved('+') || t == Token::Reserved('-')
}

/// A token that can end an operand: a number or `)`.
pub open spec fn ends_operand(t: Token) -> bool {
    t is Num || t == Token::Reserved(')')
}

/// An operator followed by a token that cannot begin its right operand.
pub open spec fn bad_pair(a: Token, b: Token) -> bool {
    is_binop_tok(a) && !starts_operand(b)
}

pub open spec fn paren_delta(t: Token) -> int {
    if t == Token::Reserved('(') {
        1
    } else if t == Token::Reserved(')') {
        -1
    } else {
        0
    }
}

/// Open parentheses minus closed ones among the tokens in `[lo, hi)`.
pub open spec fn nest(toks: Seq<Token>, lo: int, hi: int) -> int
    decreases hi - lo,
{
    if hi <= lo {
        0
    } else {
        nest(toks, lo, hi - 1) + paren_delta(toks[hi - 1])
    }
}

/// The parentheses in `[lo, hi)` match: no prefix closes more than it
/// opens, and the whole opens as many as it closes.
pub open spec fn balanced(toks: Seq<Token>, lo: int, hi: int) -> bool {
    &&& nest(toks, lo, hi) == 0
    &&& forall|k: int| lo <= k <= hi ==> nest(toks, lo, k) >= 0
}

/// No operator in `[lo, hi)` is followed, inside the range, by a token that
/// cannot begin an operand.
pub open spec fn no_bad_pair(toks: Seq<Token>, lo: int, hi: int) -> bool {
    forall|i: int| lo <= i < hi - 1 ==> !bad_pair(#[trigger] toks[i], toks[i + 1])
}

pub open spec fn sound(toks: Seq<Token>, lo: int, hi: int) -> bool {
    balanced(toks, lo, hi) && no_bad_pair(toks, lo, hi)
}

/// The tokens that one production consumed.
pub open spec fn operand_range(toks: Seq<Token>, lo: int, hi: int) -> bool {
    &&& 0 <= lo < hi <= toks.len()
    &&& starts_operand(toks[lo])
    &&& ends_operand(toks[hi - 1])
    &&& sound(toks, lo, hi)
}

/// The tokens that the rest of an operator chain consumed.
pub open spec fn chain_range(toks: Seq<Token>, lo: int, hi: int) -> bool {
    ||| lo == hi
    ||| {
        &&& 0 <= lo < hi <= toks.len()
        &&& is_binop_tok(toks[lo])
        &&& ends_operand(toks[hi - 1])
        &&& sound(toks, lo, hi)
    }
}

pub proof fn lemma_nest_split(toks: Seq<Token>, lo: int, mid: int, hi: int)
    requires
        lo <= mid <= hi,
    ensures
        nest(toks, lo, hi) == nest(toks, lo, mid) + nest(toks, mid, hi),
    decreases hi - mid,
{
    if hi > mid {
        lemma_nest_split(toks, lo, mid, hi - 1);
    }
}

/// Two sound ranges side by side form a sound range where the token before
/// the seam is no operator left without its operand.
pub proof fn lemma_join(toks: Seq<Token>, lo: int, mid: int, hi: int)
    requires
        lo <= mid <= hi,
        sound(toks, lo, mid),
        sound(toks, mid, hi),
        lo < mid < hi ==> !bad_pair(toks[mid - 1], toks[mid]),
    ensures
        sound(toks, lo, hi),
{
    lemma_nest_split(toks, lo, mid, hi);
    assert forall|k: int| lo <= k <= hi implies nest(toks, lo, k) >= 0 by {
        if k > mid {
            lemma_nest_split(toks, lo, mid, k);
        }
    }
}

pub proof fn lemma_single(toks: Seq<Token>, i: int)
    requires
        0 <= i < toks.len(),
        paren_delta(toks[i]) == 0,
    ensures
        sound(toks, i, i + 1),
{
    assert forall|k: int| i <= k <= i + 1 implies nest(toks, i, k) >= 0 by {
        if k == i + 1 {
            assert(nest(toks, i, k) == nest(toks, i, i) + paren_delta(toks[i]));
        }
    }
    assert(nest(toks, i, i + 1) == nest(toks, i, i) + paren_delta(toks[i]));
}

/// What `expr` consumes is an operand range.
pub proof fn lemma_expr_range(toks: Seq<Token>, pos: int)
    requires
        0 <= pos,
    ensures
        parse_expr(toks, pos) matches Ok((n, p)) ==> operand_range(toks, pos, p),
    decreases toks.len() - pos, 4nat,
{
    lemma_mul_range(toks, pos);
    if let Ok((n, p1)) = parse_mul(toks, pos) {
        lemma_expr_tail_range(toks, p1, n);
        if let Ok((m, p)) = expr_tail(toks, p1, n) {
            lemma_join(toks, pos, p1, p);
        }
    }
}

pub proof fn lemma_expr_tail_range(toks: Seq<Token>, pos: int, acc: Node)
    requires
        0 <= pos,
    ensures
        expr_tail(toks, pos, acc) matches Ok((n, p)) ==> chain_range(toks, pos, p),
    decreases toks.len() - pos, 5nat,
{
    if is_op(toks, pos, '+') || is_op(toks, pos, '-') {
        let op = if is_op(toks, pos, '+') {
            BinOp::Add
        } else {
            BinOp::Sub
        };
        lemma_mul_range(toks, pos + 1);
        if let Ok((r, p1)) = parse_mul(toks, pos + 1) {
            let next = Node::Bin(op, Box::new(acc), Box::new(r));
            lemma_expr_tail_range(toks, p1, next);
            if let Ok((m, p)) = expr_tail(toks, p1, next) {
                lemma_single(toks, pos);
                lemma_join(toks, pos, pos + 1, p1);
                lemma_join(toks, pos, p1, p);
            }
        }
    }
}

/// What `mul` consumes is an operand range.
pub proof fn lemma_mul_range(toks: Seq<Token>, pos: int)
    requires
        0 <= pos,
    ensures
        parse_mul(toks, pos) matches Ok((n, p)) ==> operand_range(toks, pos, p),
    decreases toks.len() - pos, 3nat,
{
    lemma_unary_range(toks, pos);
    if let Ok((n, p1)) = parse_unary(toks, pos) {
        lemma_mul_tail_range(toks, p1, n);
        if let Ok((m, p)) = mul_tail(toks, p1, n) {
            lemma_join(toks, pos, p1, p);
        }
    }
}

pub proof fn lemma_mul_tail_range(toks: Seq<Token>, pos: int, acc: Node)
    requires
        0 <= pos,
    ensures
        mul_tail(toks, pos, acc) matches Ok((n, p)) ==> chain_range(toks, pos, p),
    decreases toks.len() - pos, 5nat,
{
    if is_op(toks, pos, '*') || is_op(toks, pos, '/') {
        let op = if is_op(toks, pos, '*') {
            BinOp::Mul
        } else {
            BinOp::Div
        };
        lemma_unary_range(toks, pos + 1);
        if let Ok((r, p1)) = parse_unary(toks, pos + 1) {
            let next = Node::Bin(op, Box::new(acc), Box::new(r));
            lemma_mul_tail_range(toks, p1, next);
            if let Ok((m, p)) = mul_tail(toks, p1, next) {
                lemma_single(toks, pos);
                lemma_join(toks, pos, pos + 1, p1);
                lemma_join(toks, pos, p1, p);
            }
        }
    }
}

/// What `unary` consumes is an operand range.
pub proof fn lemma_unary_range(toks: Seq<Token>, pos: int)
    requires
        0 <= pos,
    ensures
        parse_unary(toks, pos) matches Ok((n, p)) ==> operand_range(toks, pos, p),
    decreases toks.len() - pos, 2nat,
{
    if is_op(toks, pos, '+') || is_op(toks, pos, '-') {
        lemma_unary_range(toks, pos + 1);
        if let Ok((n, p)) = parse_unary(toks, pos + 1) {
            lemma_single(toks, pos);
            lemma_join(toks, pos, pos + 1, p);
        }
    } else {
        lemma_primary_range(toks, pos);
    }
}

/// What `primary` consumes is an operand range.
pub proof fn lemma_primary_range(toks: Seq<Token>, pos: int)
    requires
        0 <= pos,
    ensures
        parse_primary(toks, pos) matches Ok((n, p)) ==> operand_range(toks, pos, p),
    decreases toks.len() - pos, 1nat,
{
    if is_op(toks, pos, '(') {
        lemma_expr_range(toks, pos + 1);
        if let Ok((n, p)) = parse_expr(toks, pos + 1) {
            if is_op(toks, p, ')') {
                assert(nest(toks, pos, pos + 1) == nest(toks, pos, pos) + paren_delta(toks[pos]));
                assert forall|k: int| pos <= k <= p + 1 implies nest(toks, pos, k) >= 0 by {
                    if pos < k <= p {
                        lemma_nest_split(toks, pos, pos + 1, k);
                    }
                    if k == p + 1 {
                        lemma_nest_split(toks, pos, pos + 1, p);
                    }
                }
                lemma_nest_split(toks, pos, pos + 1, p);
                assert(nest(toks, pos, p + 1) == nest(toks, pos, p) + paren_delta(toks[p]));
                assert forall|i: int| pos <= i < p implies !bad_pair(#[trigger] toks[i], toks[i + 1]) by {
                    if i == p - 1 {
                        assert(ends_operand(toks[p - 1]));
                    }
                }
            }
        }
    } else if let Token::Num(v) = tok_at(toks, pos) {
        lemma_single(toks, pos);
    }
}

} // verus!
