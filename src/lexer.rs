//! Lexical analysis: characters to tokens.
use vstd::prelude::*;
use vstd::arithmetic::div_mod::{lemma_add_mod_noop, lemma_mul_mod_noop_left};
use vstd::string::StrSliceExecFns;

verus! {

/// One lexical unit.
#[derive(Clone, Copy, Debug, PartialEq, Eq, Structural)]
pub enum Token {
    /// One of the operator or parenthesis characters `+ - * / ( )`.
    Reserved(char),
    /// A decimal literal; its value is taken modulo 2^32.
    Num(u32),
    /// The end of the input; every token sequence ends with exactly one.
    Eof,
}

/// A failure to turn source text into tokens.
#[derive(Clone, Copy, Debug, PartialEq, Eq, Structural)]
pub struct LexError {
    /// The first character of the source that no token can start with.
    pub ch: char,
    /// Its index in the source, counted in characters.
    pub at: usize,
}

/// The characters that Unicode gives the White_Space property, which is what
/// `char::is_whitespace` tests.
pub open spec fn is_space_spec(c: char) -> bool {
    ||| '\u{9}' <= c <= '\u{d}'
    ||| c == ' '
    ||| c == '\u{85}'
    ||| c == '\u{a0}'
    ||| c == '\u{1680}'
    ||| '\u{2000}' <= c <= '\u{200a}'
    ||| c == '\u{2028}'
    ||| c == '\u{2029}'
    ||| c == '\u{202f}'
    ||| c == '\u{205f}'
    ||| c == '\u{3000}'
}

pub open spec fn is_digit_spec(c: char) -> bool {
    '0' <= c <= '9'
}

pub open spec fn is_punct_spec(c: char) -> bool {
    c == '+' || c == '-' || c == '*' || c == '/' || c == '(' || c == ')'
}

/// A character that may stand in a source: whitespace, a digit or a punctuator.
pub open spec fn is_known_spec(c: char) -> bool {
    is_space_spec(c) || is_digit_spec(c) || is_punct_spec(c)
}

pub open spec fn digit_value(c: char) -> nat {
    (c as nat - '0' as nat) as nat
}

/// The number of leading digits of `s`.
pub open spec fn digit_run(s: Seq<char>) -> nat
    decreases s.len(),
{
    if s.len() > 0 && is_digit_spec(s[0]) {
        1 + digit_run(s.drop_first())
    } else {
        0
    }
}

/// The value of a run of decimal digits, most significant first.
pub open spec fn decimal(s: Seq<char>) -> nat
    decreases s.len(),
{
    if s.len() == 0 {
        0
    } else {
        decimal(s.drop_last()) * 10 + digit_value(s.last())
    }
}

/// The literal value that a run of digits stands for: its value modulo 2^32.
pub open spec fn literal_value(s: Seq<char>) -> u32 {
    (decimal(s) % 0x1_0000_0000) as u32
}

/// The tokens of a text, read left to right: whitespace is skipped and
/// carries no token, each punctuator is one token, each maximal run of
/// adjacent digits is one number, and one end marker closes the sequence.
pub open spec fn lex(t: Seq<char>) -> Seq<Token>
    decreases t.len(),
{
    if t.len() == 0 {
        seq![Token::Eof]
    } else if is_space_spec(t[0]) {
        lex(t.drop_first())
    } else if is_digit_spec(t[0]) {
        let k = digit_run(t);
        if 0 < k <= t.len() {
            seq![Token::Num(literal_value(t.take(k as int)))] + lex(t.skip(k as int))
        } else {
            seq![Token::Eof]
        }
    } else {
        seq![Token::Reserved(t[0])] + lex(t.drop_first())
    }
}

/// Whether `s` holds a character that is neither whitespace, a digit nor a
/// punctuator.
pub open spec fn has_unknown(s: Seq<char>) -> bool {
    exists|i: int| 0 <= i < s.len() && !is_known_spec(#[trigger] s[i])
}

/// The index of the first character of `s` that no token can start with.
pub open spec fn first_unknown(s: Seq<char>) -> int
    recommends
        has_unknown(s),
{
    choose|i: int|
        0 <= i < s.len() && !is_known_spec(s[i]) && forall|j: int|
            0 <= j < i ==> is_known_spec(#[trigger] s[j])
}

/// What tokenizing a source gives: the first unknown character as an error
/// where there is one, else the tokens of the source.
pub open spec fn tokens_of(s: Seq<char>) -> Result<Seq<Token>, LexError> {
    if has_unknown(s) {
        let i = first_unknown(s);
        Err(LexError { ch: s[i], at: i as usize })
    } else {
        Ok(lex(s))
    }
}

pub proof fn lemma_digit_run_bound(s: Seq<char>)
    ensures
        digit_run(s) <= s.len(),
        forall|i: int| 0 <= i < digit_run(s) ==> is_digit_spec(#[trigger] s[i]),
        digit_run(s) < s.len() ==> !is_digit_spec(s[digit_run(s) as int]),
    decreases s.len(),
{
    if s.len() > 0 && is_digit_spec(s[0]) {
        lemma_digit_run_bound(s.drop_first());
        assert forall|i: int| 0 <= i < digit_run(s) implies is_digit_spec(#[trigger] s[i]) by {
            if i > 0 {
                assert(s[i] == s.drop_first()[i - 1]);
            }
        }
    }
}

/// Tests `c` for the White_Space property, as `char::is_whitespace` does.
pub fn is_space(c: char) -> (r: bool)
    ensures
        r == is_space_spec(c),
{
    ('\u{9}' <= c && c <= '\u{d}') || c == ' ' || c == '\u{85}' || c == '\u{a0}' || c
        == '\u{1680}' || ('\u{2000}' <= c && c <= '\u{200a}') || c == '\u{2028}' || c
        == '\u{2029}' || c == '\u{202f}' || c == '\u{205f}' || c == '\u{3000}'
}

pub fn is_digit(c: char) -> (r: bool)
    ensures
        r == is_digit_spec(c),
{
    '0' <= c && c <= '9'
}

pub fn is_punct(c: char) -> (r: bool)
    ensures
        r == is_punct_spec(c),
{
    c == '+' || c == '-' || c == '*' || c == '/' || c == '(' || c == ')'
}

/// A run of `k` digits followed by a non-digit, or by the end, is the
/// leading digit run.
pub proof fn lemma_digit_run_exact(s: Seq<char>, k: int)
    requires
        0 <= k <= s.len(),
        forall|i: int| 0 <= i < k ==> is_digit_spec(#[trigger] s[i]),
        k == s.len() || !is_digit_spec(s[k]),
    ensures
        digit_run(s) == k,
    decreases k,
{
    if k > 0 {
        assert forall|i: int| 0 <= i < k - 1 implies is_digit_spec(#[trigger] s.drop_first()[i]) by {
            assert(s.drop_first()[i] == s[i + 1]);
        }
        lemma_digit_run_exact(s.drop_first(), k - 1);
    }
}

/// Reads the maximal run of digits that starts at `*pos` and returns its
/// value modulo 2^32, leaving `*pos` just past the run.
pub fn str_to_u(t: &Vec<char>, pos: &mut usize) -> (r: u32)
    requires
        *old(pos) <= t@.len(),
    ensures
        *final(pos) == *old(pos) + digit_run(t@.skip(*old(pos) as int)),
        r == literal_value(t@.subrange(*old(pos) as int, *final(pos) as int)),
{
    let start: usize = *pos;
    let mut i: usize = start;
    let mut v: u32 = 0;
    proof {
        assert(t@.subrange(start as int, start as int).len() == 0);
    }
    while i < t.len() && is_digit(t[i])
        invariant
            start <= i <= t@.len(),
            forall|j: int| start <= j < i ==> is_digit_spec(#[trigger] t@[j]),
            v == literal_value(t@.subrange(start as int, i as int)),
        decreases t@.len() - i,
    {
        let d: u32 = (t[i] as u32) - ('0' as u32);
        proof {
            let prev = t@.subrange(start as int, i as int);
            let next = t@.subrange(start as int, i + 1);
            assert(next.drop_last() =~= prev);
            let m: int = 0x1_0000_0000;
            let dd: int = decimal(prev) as int;
            lemma_mul_mod_noop_left(dd, 10, m);
            lemma_add_mod_noop(dd * 10, d as int, m);
            assert(d as int % m == d as int);
            assert(decimal(next) == decimal(prev) * 10 + d);
        }
        v = v.wrapping_mul(10).wrapping_add(d);
        i = i + 1;
    }
    proof {
        let s = t@.skip(start as int);
        assert forall|j: int| 0 <= j < i - start implies is_digit_spec(#[trigger] s[j]) by {
            assert(s[j] == t@[start + j]);
        }
        if i < t@.len() {
            assert(s[i - start] == t@[i as int]);
        }
        lemma_digit_run_exact(s, i - start);
    }
    *pos = i;
    v
}

/// Reads the token that starts at `*pos`, which is a digit or a punctuator,
/// appends it to `cur`, and moves `*pos` past it.
pub fn new_token(t: &Vec<char>, pos: &mut usize, cur: &mut Vec<Token>)
    requires
        *old(pos) < t@.len(),
        is_digit_spec(t@[*old(pos) as int]) || is_punct_spec(t@[*old(pos) as int]),
    ensures
        *old(pos) < *final(pos) <= t@.len(),
        final(cur)@.len() == old(cur)@.len() + 1,
        final(cur)@.take(old(cur)@.len() as int) == old(cur)@,
        lex(t@.skip(*old(pos) as int)) == seq![final(cur)@.last()] + lex(t@.skip(*final(pos) as int)),
{
    let ghost start = *pos as int;
    let ghost s = t@.skip(start);
    let n = t.len();
    let c = t[*pos];
    if is_digit(c) {
        let v = str_to_u(t, pos);
        proof {
            let k = digit_run(s);
            lemma_digit_run_bound(s);
            assert(s[0] == c);
            assert(s.take(k as int) =~= t@.subrange(start, start + k));
            assert(s.skip(k as int) =~= t@.skip(*pos as int));
        }
        cur.push(Token::Num(v));
    } else {
        assert(*pos < n);
        *pos = *pos + 1;
        proof {
            assert(s[0] == c);
            assert(s.drop_first() =~= t@.skip(*pos as int));
        }
        cur.push(Token::Reserved(c));
    }
    proof {
        assert(cur@.take(cur@.len() - 1) =~= old(cur)@);
    }
}

/// Splits `source` into tokens. It fails on the first character that is
/// neither whitespace, a digit nor one of `+ - * / ( )`; otherwise it reads
/// the source left to right, skipping whitespace, taking each punctuator as
/// one token and each maximal run of adjacent digits as one number, and
/// closes the sequence with one end marker.
pub fn tokienize(source: &str) -> (r: Result<Vec<Token>, LexError>)
    ensures
        r matches Ok(v) ==> tokens_of(source@) == Ok::<Seq<Token>, LexError>(v@),
        r matches Err(e) ==> tokens_of(source@) == Err::<Seq<Token>, LexError>(e),
{
    let n = source.unicode_len();
    let mut t: Vec<char> = Vec::new();
    let mut i: usize = 0;
    proof {
        broadcast use vstd::string::axiom_spec_iter;
    }
    for c in it: source.chars()
        invariant
            n == source@.len(),
            i == it.index(),
            it.seq() == source@,
            forall|j: int| 0 <= j < i ==> is_known_spec(#[trigger] source@[j]),
            t@ == source@.take(i as int),
    {
        assert(c == source@[i as int]);
        if !(is_space(c) || is_digit(c) || is_punct(c)) {
            proof {
                let s = source@;
                assert(has_unknown(s));
                let f = first_unknown(s);
                if f < i {
                    assert(is_known_spec(s[f]));
                } else if f > i {
                    assert(is_known_spec(s[i as int]));
                }
            }
            return Err(LexError { ch: c, at: i });
        }
        t.push(c);
        proof {
            assert(t@ =~= source@.take(i + 1));
        }
        i = i + 1;
    }
    proof {
        assert(t@ =~= source@);
        assert(!has_unknown(source@));
    }
    let mut cur: Vec<Token> = Vec::new();
    let mut pos: usize = 0;
    proof {
        assert(t@.skip(0) =~= t@);
    }
    while pos < t.len()
        invariant
            pos <= t@.len(),
            t@ == source@,
            forall|j: int| 0 <= j < t@.len() ==> is_known_spec(#[trigger] t@[j]),
            cur@ + lex(t@.skip(pos as int)) == lex(t@),
        decreases t@.len() - pos,
    {
        if is_space(t[pos]) {
            proof {
                let s = t@.skip(pos as int);
                assert(s[0] == t@[pos as int]);
                assert(s.drop_first() =~= t@.skip(pos + 1));
            }
            pos = pos + 1;
        } else {
            let ghost before = cur@;
            new_token(&t, &mut pos, &mut cur);
            proof {
                assert(cur@ =~= before + seq![cur@.last()]);
                assert(before + (seq![cur@.last()] + lex(t@.skip(pos as int))) =~= cur@ + lex(
                    t@.skip(pos as int),
                ));
            }
        }
    }
    proof {
        assert(t@.skip(pos as int).len() == 0);
        assert(cur@.push(Token::Eof) =~= cur@ + lex(t@.skip(pos as int)));
    }
    cur.push(Token::Eof);
    Ok(cur)
}

/// Whitespace in front of a text adds no token.
pub proof fn lemma_lex_spaces(w: Seq<char>, x: Seq<char>)
    requires
        forall|i: int| 0 <= i < w.len() ==> is_space_spec(#[trigger] w[i]),
    ensures
        lex(w + x) == lex(x),
    decreases w.len(),
{
    if w.len() == 0 {
        assert(w + x =~= x);
    } else {
        assert((w + x)[0] == w[0]);
        assert((w + x).drop_first() =~= w.drop_first() + x);
        lemma_lex_spaces(w.drop_first(), x);
    }
}

/// The leading digit run of a concatenation.
pub proof fn lemma_digit_run_append(a: Seq<char>, b: Seq<char>)
    ensures
        digit_run(a + b) == if digit_run(a) < a.len() {
            digit_run(a)
        } else {
            a.len() + digit_run(b)
        },
    decreases a.len(),
{
    lemma_digit_run_bound(a);
    if a.len() == 0 {
        assert(a + b =~= b);
    } else {
        assert((a + b)[0] == a[0]);
        if is_digit_spec(a[0]) {
            assert((a + b).drop_first() =~= a.drop_first() + b);
            lemma_digit_run_append(a.drop_first(), b);
        }
    }
}

/// Whether whitespace put between `s1` and `s2` would split a run of digits.
pub open spec fn splits_digits(s1: Seq<char>, s2: Seq<char>) -> bool {
    s1.len() > 0 && s2.len() > 0 && is_digit_spec(s1.last()) && is_digit_spec(s2[0])
}

pub open spec fn all_known(s: Seq<char>) -> bool {
    forall|i: int| 0 <= i < s.len() ==> is_known_spec(#[trigger] s[i])
}

/// Whitespace put between two texts, where it does not stand between two
/// digits, changes no token.
pub proof fn lemma_lex_insert(s1: Seq<char>, w: Seq<char>, s2: Seq<char>)
    requires
        forall|i: int| 0 <= i < w.len() ==> is_space_spec(#[trigger] w[i]),
        all_known(s1),
        all_known(s2),
        !splits_digits(s1, s2),
    ensures
        lex(s1 + w + s2) == lex(s1 + s2),
    decreases s1.len(),
{
    let a = s1 + w + s2;
    let b = s1 + s2;
    if s1.len() == 0 {
        assert(a =~= w + s2);
        assert(b =~= s2);
        lemma_lex_spaces(w, s2);
    } else {
        assert(a[0] == s1[0] && b[0] == s1[0]);
        assert(is_known_spec(s1[0]));
        if is_digit_spec(s1[0]) {
            let j = digit_run(s1);
            lemma_digit_run_bound(s1);
            assert(a =~= s1 + (w + s2));
            lemma_digit_run_append(s1, w + s2);
            lemma_digit_run_append(s1, s2);
            if j < s1.len() {
                let r = s1.skip(j as int);
                assert(a.take(j as int) =~= b.take(j as int));
                assert(a.skip(j as int) =~= r + w + s2);
                assert(b.skip(j as int) =~= r + s2);
                assert(r.last() == s1.last());
                assert forall|i: int| 0 <= i < r.len() implies is_known_spec(#[trigger] r[i]) by {
                    assert(r[i] == s1[i + j]);
                }
                lemma_lex_insert(r, w, s2);
            } else if w.len() == 0 {
                assert(a =~= b);
            } else {
                assert(is_digit_spec(s1[s1.len() - 1]));
                assert((w + s2)[0] == w[0]);
                assert(digit_run(w + s2) == 0);
                if s2.len() > 0 {
                    assert(!is_digit_spec(s2[0]));
                }
                assert(digit_run(s2) == 0);
                assert(a.take(j as int) =~= b.take(j as int));
                assert(a.skip(j as int) =~= w + s2);
                assert(b.skip(j as int) =~= s2);
                lemma_lex_spaces(w, s2);
            }
        } else {
            let r = s1.drop_first();
            assert(a.drop_first() =~= r + w + s2);
            assert(b.drop_first() =~= r + s2);
            if r.len() > 0 {
                assert(r.last() == s1.last());
            }
            assert forall|i: int| 0 <= i < r.len() implies is_known_spec(#[trigger] r[i]) by {
                assert(r[i] == s1[i + 1]);
            }
            lemma_lex_insert(r, w, s2);
            if !is_space_spec(s1[0]) {
                assert(is_punct_spec(s1[0]));
                assert(lex(a) == seq![Token::Reserved(s1[0])] + lex(a.drop_first()));
                assert(lex(b) == seq![Token::Reserved(s1[0])] + lex(b.drop_first()));
            }
        }
    }
}

/// Whitespace inserted anywhere changes nothing of whether a source
/// tokenizes, and, where it does not stand between two digits, nothing of
/// its tokens.
pub proof fn lemma_tokens_ignore_whitespace(s1: Seq<char>, w: Seq<char>, s2: Seq<char>)
    requires
        forall|i: int| 0 <= i < w.len() ==> is_space_spec(#[trigger] w[i]),
    ensures
        tokens_of(s1 + w + s2) is Ok <==> tokens_of(s1 + s2) is Ok,
        !splits_digits(s1, s2) && tokens_of(s1 + s2) is Ok ==> tokens_of(s1 + w + s2) == tokens_of(
            s1 + s2,
        ),
{
    let a = s1 + w + s2;
    let b = s1 + s2;
    let n1 = s1.len() as int;
    let nw = w.len() as int;
    if has_unknown(a) {
        let i = choose|i: int| 0 <= i < a.len() && !is_known_spec(#[trigger] a[i]);
        if i < n1 {
            assert(b[i] == a[i]);
        } else if i < n1 + nw {
            assert(a[i] == w[i - n1]);
        } else {
            assert(b[i - nw] == a[i]);
        }
        assert(has_unknown(b));
    }
    if has_unknown(b) {
        let j = choose|j: int| 0 <= j < b.len() && !is_known_spec(#[trigger] b[j]);
        if j < n1 {
            assert(a[j] == b[j]);
        } else {
            assert(a[j + nw] == b[j]);
        }
        assert(has_unknown(a));
    } else if !splits_digits(s1, s2) {
        assert forall|i: int| 0 <= i < s1.len() implies is_known_spec(#[trigger] s1[i]) by {
            assert(b[i] == s1[i]);
            if !is_known_spec(s1[i]) {
                assert(has_unknown(b));
            }
        }
        assert forall|i: int| 0 <= i < s2.len() implies is_known_spec(#[trigger] s2[i]) by {
            assert(b[i + n1] == s2[i]);
            if !is_known_spec(s2[i]) {
                assert(has_unknown(b));
            }
        }
        lemma_lex_insert(s1, w, s2);
    }
}

/// The end marker closes a token sequence and appears nowhere else in it.
pub proof fn lemma_lex_one_eof(t: Seq<char>)
    requires
        all_known(t),
    ensures
        lex(t).len() >= 1,
        lex(t).last() == Token::Eof,
        forall|i: int| 0 <= i < lex(t).len() - 1 ==> #[trigger] lex(t)[i] != Token::Eof,
    decreases t.len(),
{
    if t.len() > 0 {
        assert(is_known_spec(t[0]));
        if is_space_spec(t[0]) || !is_digit_spec(t[0]) {
            let r = t.drop_first();
            assert forall|i: int| 0 <= i < r.len() implies is_known_spec(#[trigger] r[i]) by {
                assert(r[i] == t[i + 1]);
            }
            lemma_lex_one_eof(r);
            if !is_space_spec(t[0]) {
                assert(is_punct_spec(t[0]));
                assert(lex(t) == seq![Token::Reserved(t[0])] + lex(r));
                assert forall|i: int| 0 <= i < lex(t).len() - 1 implies #[trigger] lex(t)[i]
                    != Token::Eof by {
                    if i > 0 {
                        assert(lex(t)[i] == lex(r)[i - 1]);
                    }
                }
            }
        } else {
            let k = digit_run(t);
            lemma_digit_run_bound(t);
            let r = t.skip(k as int);
            assert forall|i: int| 0 <= i < r.len() implies is_known_spec(#[trigger] r[i]) by {
                assert(r[i] == t[i + k]);
            }
            lemma_lex_one_eof(r);
            assert forall|i: int| 0 <= i < lex(t).len() - 1 implies #[trigger] lex(t)[i]
                != Token::Eof by {
                if i > 0 {
                    assert(lex(t)[i] == lex(r)[i - 1]);
                }
            }
        }
    }
}

} // verus!
