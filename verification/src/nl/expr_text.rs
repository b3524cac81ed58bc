//! Expressions as `.nl` text.
//!
//! An expression is written in prefix order, one node to a line. The first
//! character of a line tells the kind of its node: `n` a number, `v` a
//! variable, `h` a string, `f` a call and `o` an operator.

use crate::float::ZERO;
use crate::nl::expr::{BinaryOp, ExprNode, NaryOp, UnaryOp};
use crate::nl::scan::{
    count_of, count_or, parse_count, parse_count_or, parse_word_count_or, push_chars, split_words,
    tail, texts, to_string, token, token_of, trim, trimmed, word_count_or, words_of, Numbers,
};
use vstd::prelude::*;

verus! {

/// How many operands follow an operator.
pub enum Arity {
    Fixed(nat),
    /// As many as the next line says.
    Counted,
}

/// Operands of an operator code. A code that is not known has none.
pub open spec fn arity(opcode: usize) -> Arity {
    if opcode <= 5 || opcode == 22 || opcode == 48 || opcode == 55 || opcode == 65 {
        Arity::Fixed(2)
    } else if 13 <= opcode <= 16 || 37 <= opcode <= 47 || 49 <= opcode <= 53 {
        Arity::Fixed(1)
    } else if opcode == 11 || opcode == 12 || opcode == 54 {
        Arity::Counted
    } else if opcode == 35 {
        Arity::Fixed(3)
    } else {
        Arity::Fixed(0)
    }
}

/// First character of a token, or a blank where it is empty.
pub open spec fn letter(t: Seq<char>) -> char {
    if t.len() == 0 {
        ' '
    } else {
        t[0]
    }
}

pub open spec fn remaining(lines: Seq<Seq<char>>, pos: int) -> nat {
    if pos < lines.len() {
        (lines.len() - pos) as nat
    } else {
        0
    }
}

/// The line after the expression that starts at `pos`.
pub open spec fn expr_end(lines: Seq<Seq<char>>, pos: int) -> int
    decreases remaining(lines, pos), 0nat,
{
    if pos >= lines.len() {
        pos
    } else {
        let t = token_of(lines[pos]);
        if letter(t) == 'f' {
            list_end(lines, pos + 1, word_count_or(words_of(t.skip(1)), 1, 0) as nat)
        } else if letter(t) == 'o' {
            match arity(count_or(t.skip(1), 0)) {
                Arity::Fixed(n) => list_end(lines, pos + 1, n),
                Arity::Counted => if pos + 1 < lines.len() {
                    list_end(lines, pos + 2, count_or(token_of(lines[pos + 1]), 0) as nat)
                } else {
                    pos + 1
                },
            }
        } else {
            pos + 1
        }
    }
}

/// The line after the first `n` expressions from `pos` on.
pub open spec fn list_end(lines: Seq<Seq<char>>, pos: int, n: nat) -> int
    decreases remaining(lines, pos), n + 1,
{
    if n == 0 {
        pos
    } else {
        let p = list_end(lines, pos, (n - 1) as nat);
        if p < pos {
            pos
        } else {
            expr_end(lines, p)
        }
    }
}

pub proof fn lemma_expr_end(lines: Seq<Seq<char>>, pos: int)
    requires
        0 <= pos,
    ensures
        pos >= lines.len() ==> expr_end(lines, pos) == pos,
        pos < lines.len() ==> pos < expr_end(lines, pos) <= lines.len(),
    decreases remaining(lines, pos), 0nat,
{
    if pos < lines.len() {
        let t = token_of(lines[pos]);
        if letter(t) == 'f' {
            lemma_list_end(lines, pos + 1, word_count_or(words_of(t.skip(1)), 1, 0) as nat);
        } else if letter(t) == 'o' {
            match arity(count_or(t.skip(1), 0)) {
                Arity::Fixed(n) => {
                    lemma_list_end(lines, pos + 1, n);
                },
                Arity::Counted => {
                    if pos + 1 < lines.len() {
                        lemma_list_end(
                            lines,
                            pos + 2,
                            count_or(token_of(lines[pos + 1]), 0) as nat,
                        );
                    }
                },
            }
        }
    }
}

proof fn lemma_list_end(lines: Seq<Seq<char>>, pos: int, n: nat)
    requires
        0 <= pos,
    ensures
        pos <= list_end(lines, pos, n),
        pos <= lines.len() ==> list_end(lines, pos, n) <= lines.len(),
    decreases remaining(lines, pos), n + 1,
{
    if n > 0 {
        lemma_list_end(lines, pos, (n - 1) as nat);
        lemma_expr_end(lines, list_end(lines, pos, (n - 1) as nat));
    }
}

/// Past the last line nothing follows.
proof fn lemma_list_end_stays(lines: Seq<Seq<char>>, pos: int, k: nat, n: nat)
    requires
        0 <= pos,
        k <= n,
        list_end(lines, pos, k) >= lines.len(),
    ensures
        list_end(lines, pos, n) == list_end(lines, pos, k),
    decreases n,
{
    lemma_list_end(lines, pos, k);
    lemma_expr_end(lines, list_end(lines, pos, k));
    if k < n {
        lemma_list_end_stays(lines, pos, k, (n - 1) as nat);
    }
}

/// Moves past the expression at `pos`.
pub fn count_expr_lines_recursive(lines: &Vec<Vec<char>>, pos: &mut usize)
    requires
        *old(pos) <= lines@.len(),
    ensures
        *final(pos) == expr_end(texts(lines@), *old(pos) as int),
        *final(pos) <= lines@.len(),
    decreases lines@.len() - *old(pos), 0nat,
{
    let ghost ls = texts(lines@);
    let start: usize = *pos;
    proof {
        lemma_expr_end(ls, start as int);
    }
    if start >= lines.len() {
        return;
    }
    let t: Vec<char> = token(&lines[start]);
    *pos = start + 1;
    if t.len() == 0 {
        return;
    }
    if t[0] == 'f' {
        let words: Vec<Vec<char>> = split_words(&tail(&t));
        let nargs: usize = parse_word_count_or(&words, 1, 0);
        skip_exprs(lines, pos, nargs);
    } else if t[0] == 'o' {
        let opcode: usize = parse_count_or(&tail(&t), 0);
        if opcode <= 5 || opcode == 22 || opcode == 48 || opcode == 55 || opcode == 65 {
            skip_exprs(lines, pos, 2);
        } else if (13 <= opcode && opcode <= 16) || (37 <= opcode && opcode <= 47) || (49 <= opcode
            && opcode <= 53) {
            skip_exprs(lines, pos, 1);
        } else if opcode == 11 || opcode == 12 || opcode == 54 {
            if start + 1 < lines.len() {
                let count: usize = parse_count_or(&token(&lines[start + 1]), 0);
                *pos = start + 2;
                skip_exprs(lines, pos, count);
            }
        } else if opcode == 35 {
            skip_exprs(lines, pos, 3);
        }
    }
}

/// Moves past `n` expressions, or to the end.
fn skip_exprs(lines: &Vec<Vec<char>>, pos: &mut usize, n: usize)
    requires
        *old(pos) <= lines@.len(),
    ensures
        *final(pos) == list_end(texts(lines@), *old(pos) as int, n as nat),
        *final(pos) <= lines@.len(),
    decreases lines@.len() - *old(pos), 1nat,
{
    let ghost ls = texts(lines@);
    let start: usize = *pos;
    let mut k: usize = 0;
    while k < n && *pos < lines.len()
        invariant
            ls == texts(lines@),
            start <= *pos <= lines@.len(),
            k <= n,
            *pos == list_end(ls, start as int, k as nat),
            start == *old(pos),
        decreases n - k,
    {
        proof {
            lemma_expr_end(ls, *pos as int);
        }
        count_expr_lines_recursive(lines, pos);
        k = k + 1;
    }
    proof {
        if k < n {
            lemma_list_end_stays(ls, start as int, k as nat, n as nat);
        }
    }
}

/// Lines of the expression that starts at line `start`.
pub fn count_expr_lines(lines: &Vec<Vec<char>>, start: usize) -> (count: usize)
    requires
        start <= lines@.len(),
    ensures
        count == expr_end(texts(lines@), start as int) - start,
{
    let mut pos: usize = start;
    count_expr_lines_recursive(lines, &mut pos);
    proof {
        lemma_expr_end(texts(lines@), start as int);
    }
    pos - start
}

pub open spec fn binary_of(opcode: usize) -> Option<BinaryOp> {
    if opcode == 0 {
        Some(BinaryOp::Add)
    } else if opcode == 1 {
        Some(BinaryOp::Sub)
    } else if opcode == 2 {
        Some(BinaryOp::Mul)
    } else if opcode == 3 {
        Some(BinaryOp::Div)
    } else if opcode == 4 {
        Some(BinaryOp::Mod)
    } else if opcode == 5 {
        Some(BinaryOp::Pow)
    } else if opcode == 22 {
        Some(BinaryOp::Less)
    } else if opcode == 48 {
        Some(BinaryOp::Atan2)
    } else if opcode == 55 {
        Some(BinaryOp::IntDiv)
    } else {
        None
    }
}

fn binary(opcode: usize) -> (op: Option<BinaryOp>)
    ensures
        op == binary_of(opcode),
{
    match opcode {
        0 => Some(BinaryOp::Add),
        1 => Some(BinaryOp::Sub),
        2 => Some(BinaryOp::Mul),
        3 => Some(BinaryOp::Div),
        4 => Some(BinaryOp::Mod),
        5 => Some(BinaryOp::Pow),
        22 => Some(BinaryOp::Less),
        48 => Some(BinaryOp::Atan2),
        55 => Some(BinaryOp::IntDiv),
        _ => None,
    }
}

pub open spec fn unary_of(opcode: usize) -> Option<UnaryOp> {
    if opcode == 13 {
        Some(UnaryOp::Floor)
    } else if opcode == 14 {
        Some(UnaryOp::Ceil)
    } else if opcode == 15 {
        Some(UnaryOp::Abs)
    } else if opcode == 16 {
        Some(UnaryOp::Neg)
    } else if opcode == 37 {
        Some(UnaryOp::Tanh)
    } else if opcode == 38 {
        Some(UnaryOp::Tan)
    } else if opcode == 39 {
        Some(UnaryOp::Sqrt)
    } else if opcode == 40 {
        Some(UnaryOp::Sinh)
    } else if opcode == 41 {
        Some(UnaryOp::Sin)
    } else if opcode == 42 {
        Some(UnaryOp::Log10)
    } else if opcode == 43 {
        Some(UnaryOp::Log)
    } else if opcode == 44 {
        Some(UnaryOp::Exp)
    } else if opcode == 45 {
        Some(UnaryOp::Cosh)
    } else if opcode == 46 {
        Some(UnaryOp::Cos)
    } else if opcode == 47 {
        Some(UnaryOp::Atanh)
    } else if opcode == 49 {
        Some(UnaryOp::Atan)
    } else if opcode == 50 {
        Some(UnaryOp::Asinh)
    } else if opcode == 51 {
        Some(UnaryOp::Asin)
    } else if opcode == 52 {
        Some(UnaryOp::Acosh)
    } else if opcode == 53 {
        Some(UnaryOp::Acos)
    } else {
        None
    }
}

fn unary(opcode: usize) -> (op: Option<UnaryOp>)
    ensures
        op == unary_of(opcode),
{
    match opcode {
        13 => Some(UnaryOp::Floor),
        14 => Some(UnaryOp::Ceil),
        15 => Some(UnaryOp::Abs),
        16 => Some(UnaryOp::Neg),
        37 => Some(UnaryOp::Tanh),
        38 => Some(UnaryOp::Tan),
        39 => Some(UnaryOp::Sqrt),
        40 => Some(UnaryOp::Sinh),
        41 => Some(UnaryOp::Sin),
        42 => Some(UnaryOp::Log10),
        43 => Some(UnaryOp::Log),
        44 => Some(UnaryOp::Exp),
        45 => Some(UnaryOp::Cosh),
        46 => Some(UnaryOp::Cos),
        47 => Some(UnaryOp::Atanh),
        49 => Some(UnaryOp::Atan),
        50 => Some(UnaryOp::Asinh),
        51 => Some(UnaryOp::Asin),
        52 => Some(UnaryOp::Acosh),
        53 => Some(UnaryOp::Acos),
        _ => None,
    }
}

pub open spec fn nary_of(opcode: usize) -> Option<NaryOp> {
    if opcode == 11 {
        Some(NaryOp::Min)
    } else if opcode == 12 {
        Some(NaryOp::Max)
    } else if opcode == 54 {
        Some(NaryOp::Sum)
    } else {
        None
    }
}

fn nary(opcode: usize) -> (op: Option<NaryOp>)
    ensures
        op == nary_of(opcode),
{
    match opcode {
        11 => Some(NaryOp::Min),
        12 => Some(NaryOp::Max),
        54 => Some(NaryOp::Sum),
        _ => None,
    }
}

/// Position of the first colon from `i` on, or the length.
pub open spec fn colon_from(s: Seq<char>, i: nat) -> nat
    decreases s.len() - i,
{
    if i >= s.len() {
        s.len()
    } else if s[i as int] == ':' {
        i
    } else {
        colon_from(s, i + 1)
    }
}

/// Text of a string line: what follows its first colon.
pub open spec fn literal_of(line: Seq<char>) -> Option<Seq<char>> {
    let s = trimmed(line);
    let i = colon_from(s, 0);
    if i < s.len() {
        Some(s.skip(i as int + 1))
    } else {
        None
    }
}

fn literal(line: &Vec<char>) -> (r: Option<String>)
    ensures
        match r {
            Some(s) => literal_of(line@) == Some(s@),
            None => literal_of(line@) is None,
        },
{
    let s: Vec<char> = trim(line);
    let mut i: usize = 0;
    while i < s.len() && s[i] != ':'
        invariant
            i <= s@.len(),
            colon_from(s@, 0) == colon_from(s@, i as nat),
        decreases s@.len() - i,
    {
        i = i + 1;
    }
    assert(colon_from(s@, 0) == i);
    if i >= s.len() {
        return None;
    }
    let mut rest: Vec<char> = Vec::new();
    for k in i + 1..s.len()
        invariant
            i < s@.len(),
            i + 1 <= k <= s@.len(),
            rest@ == s@.subrange(i + 1, k as int),
    {
        rest.push(s[k]);
        assert(rest@ =~= s@.subrange(i + 1, k + 1));
    }
    assert(rest@ =~= s@.skip(i + 1));
    Some(to_string(&rest))
}

/// Message for a line that is no node.
pub open spec fn bad_line(t: Seq<char>) -> Seq<char> {
    "Bad expression line '"@ + t + "'"@
}

fn bad_line_message(t: &Vec<char>) -> (m: String)
    ensures
        m@ == bad_line(t@),
{
    let mut m: String = String::from_str("Bad expression line '");
    push_chars(&mut m, t);
    m.append("'");
    m
}

/// Why no expression starts at `pos`: the first fault in reading order.
pub open spec fn expr_fault<P: Fn(&Vec<char>) -> Option<u64>>(
    nums: Numbers<P>,
    lines: Seq<Seq<char>>,
    pos: int,
) -> Option<Seq<char>>
    decreases remaining(lines, pos), 0nat,
{
    if pos >= lines.len() {
        Some("Unexpected end of expression"@)
    } else {
        let t = token_of(lines[pos]);
        let rest = t.skip(1);
        let ok = if letter(t) == 'n' {
            nums.value(rest) is Some
        } else if letter(t) == 'v' {
            count_of(rest) is Ok
        } else if letter(t) == 'h' {
            literal_of(lines[pos]) is Some
        } else if letter(t) == 'f' {
            let words = words_of(rest);
            words.len() >= 2 && count_of(words[0]) is Ok && count_of(words[1]) is Ok
        } else if letter(t) == 'o' {
            count_of(rest) is Ok && arity(count_or(rest, 0)) != Arity::Fixed(0)
        } else {
            false
        };
        if !ok {
            Some(bad_line(t))
        } else if letter(t) == 'f' {
            list_fault(nums, lines, pos + 1, count_or(words_of(rest)[1], 0) as nat)
        } else if letter(t) == 'o' {
            match arity(count_or(rest, 0)) {
                Arity::Fixed(n) => list_fault(nums, lines, pos + 1, n),
                Arity::Counted => if pos + 1 >= lines.len() {
                    Some("Unexpected end of expression"@)
                } else {
                    let c = token_of(lines[pos + 1]);
                    if count_of(c) is Ok {
                        list_fault(nums, lines, pos + 2, count_or(c, 0) as nat)
                    } else {
                        Some(bad_line(c))
                    }
                },
            }
        } else {
            None
        }
    }
}

/// Why no `n` expressions follow from `pos` on.
pub open spec fn list_fault<P: Fn(&Vec<char>) -> Option<u64>>(
    nums: Numbers<P>,
    lines: Seq<Seq<char>>,
    pos: int,
    n: nat,
) -> Option<Seq<char>>
    decreases remaining(lines, pos), n + 1,
{
    if n == 0 {
        None
    } else {
        match list_fault(nums, lines, pos, (n - 1) as nat) {
            Some(f) => Some(f),
            None => {
                let p = list_end(lines, pos, (n - 1) as nat);
                if p < pos {
                    None
                } else {
                    expr_fault(nums, lines, p)
                }
            },
        }
    }
}

proof fn lemma_list_fault_stays<P: Fn(&Vec<char>) -> Option<u64>>(
    nums: Numbers<P>,
    lines: Seq<Seq<char>>,
    pos: int,
    k: nat,
    n: nat,
)
    requires
        k <= n,
        list_fault(nums, lines, pos, k) is Some,
    ensures
        list_fault(nums, lines, pos, n) == list_fault(nums, lines, pos, k),
    decreases n,
{
    if k < n {
        lemma_list_fault_stays(nums, lines, pos, k, (n - 1) as nat);
    }
}

/// The text from line `pos` on starts with the expression `e`.
pub open spec fn reads_as<P: Fn(&Vec<char>) -> Option<u64>>(
    nums: Numbers<P>,
    lines: Seq<Seq<char>>,
    pos: int,
    e: ExprNode,
) -> bool
    decreases e,
{
    let t = token_of(lines[pos]);
    let rest = t.skip(1);
    let opcode = count_or(rest, 0);
    &&& 0 <= pos < lines.len()
    &&& match e {
        ExprNode::Const(c) => letter(t) == 'n' && nums.value(rest) == Some(c),
        ExprNode::Var(i) => letter(t) == 'v' && count_of(rest) == Ok::<
            usize,
            crate::nl::scan::IntFault,
        >(i),
        ExprNode::StringLiteral(s) => letter(t) == 'h' && literal_of(lines[pos]) == Some(s@),
        ExprNode::Funcall { id, args } => {
            let words = words_of(rest);
            &&& letter(t) == 'f'
            &&& words.len() >= 2
            &&& count_or(words[0], 0) == id
            &&& count_or(words[1], 0) == args@.len()
            &&& forall|i: int|
                0 <= i < args@.len() ==> reads_as(
                    nums,
                    lines,
                    list_end(lines, pos + 1, i as nat),
                    #[trigger] args@[i],
                )
        },
        ExprNode::Binary(op, a, b) => {
            &&& letter(t) == 'o'
            &&& binary_of(opcode) == Some(op)
            &&& reads_as(nums, lines, pos + 1, *a)
            &&& reads_as(nums, lines, expr_end(lines, pos + 1), *b)
        },
        ExprNode::Unary(op, a) => {
            &&& letter(t) == 'o'
            &&& unary_of(opcode) == Some(op)
            &&& reads_as(nums, lines, pos + 1, *a)
        },
        ExprNode::Nary(op, args) => {
            &&& letter(t) == 'o'
            &&& nary_of(opcode) == Some(op)
            &&& pos + 1 < lines.len()
            &&& count_or(token_of(lines[pos + 1]), 0) == args@.len()
            &&& forall|i: int|
                0 <= i < args@.len() ==> reads_as(
                    nums,
                    lines,
                    list_end(lines, pos + 2, i as nat),
                    #[trigger] args@[i],
                )
        },
        ExprNode::If(c, a, b) => {
            &&& letter(t) == 'o'
            &&& reads_as(nums, lines, pos + 1, *c)
            &&& reads_as(nums, lines, expr_end(lines, pos + 1), *a)
            &&& if opcode == 35 {
                reads_as(nums, lines, expr_end(lines, expr_end(lines, pos + 1)), *b)
            } else {
                opcode == 65 && *b == ExprNode::Const(ZERO)
            }
        },
    }
}

/// `n` expressions from `pos` on.
pub open spec fn list_reads<P: Fn(&Vec<char>) -> Option<u64>>(
    nums: Numbers<P>,
    lines: Seq<Seq<char>>,
    pos: int,
    list: Seq<ExprNode>,
) -> bool {
    forall|i: int|
        0 <= i < list.len() ==> reads_as(
            nums,
            lines,
            list_end(lines, pos, i as nat),
            #[trigger] list[i],
        )
}

/// The first three operands, one by one.
proof fn lemma_operands<P: Fn(&Vec<char>) -> Option<u64>>(
    nums: Numbers<P>,
    lines: Seq<Seq<char>>,
    pos: int,
)
    requires
        0 <= pos,
    ensures
        list_end(lines, pos, 1) == expr_end(lines, pos),
        list_end(lines, pos, 2) == expr_end(lines, expr_end(lines, pos)),
        list_end(lines, pos, 3) == expr_end(lines, expr_end(lines, expr_end(lines, pos))),
        list_fault(nums, lines, pos, 1) == expr_fault(nums, lines, pos),
        list_fault(nums, lines, pos, 2) == match expr_fault(nums, lines, pos) {
            Some(f) => Some(f),
            None => expr_fault(nums, lines, expr_end(lines, pos)),
        },
        list_fault(nums, lines, pos, 3) == match list_fault(nums, lines, pos, 2) {
            Some(f) => Some(f),
            None => expr_fault(nums, lines, expr_end(lines, expr_end(lines, pos))),
        },
{
    lemma_expr_end(lines, pos);
    lemma_expr_end(lines, expr_end(lines, pos));
    assert(list_end(lines, pos, 0) == pos);
    assert(list_end(lines, pos, 1) == expr_end(lines, pos));
    assert(list_end(lines, pos, 2) == expr_end(lines, expr_end(lines, pos)));
    assert(list_fault(nums, lines, pos, 0) is None);
    assert(list_fault(nums, lines, pos, 1) == expr_fault(nums, lines, pos));
}

/// What reading the expression at `pos` gives.
pub open spec fn parsed<P: Fn(&Vec<char>) -> Option<u64>>(
    nums: Numbers<P>,
    lines: Seq<Seq<char>>,
    pos: int,
    r: Result<(ExprNode, usize), String>,
) -> bool {
    match r {
        Ok((e, p)) => {
            &&& expr_fault(nums, lines, pos) is None
            &&& reads_as(nums, lines, pos, e)
            &&& p == expr_end(lines, pos)
            &&& pos < p <= lines.len()
        },
        Err(m) => expr_fault(nums, lines, pos) == Some(m@),
    }
}

/// Reads the expression at `pos`; the result also holds the line after it.
fn parse_at<P: Fn(&Vec<char>) -> Option<u64>>(
    nums: &Numbers<P>,
    lines: &Vec<Vec<char>>,
    pos: usize,
) -> (r: Result<(ExprNode, usize), String>)
    requires
        nums.sound(),
        pos <= lines@.len(),
    ensures
        parsed(*nums, texts(lines@), pos as int, r),
    decreases lines@.len() - pos, 0nat,
{
    let ghost ls = texts(lines@);
    proof {
        lemma_expr_end(ls, pos as int);
    }
    if pos >= lines.len() {
        return Err(String::from_str("Unexpected end of expression"));
    }
    let t: Vec<char> = token(&lines[pos]);
    if t.len() == 0 {
        return Err(bad_line_message(&t));
    }
    let c: char = t[0];
    let rest: Vec<char> = tail(&t);
    if c == 'n' {
        match nums.parse(&rest) {
            Some(v) => Ok((ExprNode::Const(v), pos + 1)),
            None => Err(bad_line_message(&t)),
        }
    } else if c == 'v' {
        match parse_count(&rest) {
            Ok(i) => Ok((ExprNode::Var(i), pos + 1)),
            Err(_) => Err(bad_line_message(&t)),
        }
    } else if c == 'h' {
        match literal(&lines[pos]) {
            Some(s) => Ok((ExprNode::StringLiteral(s), pos + 1)),
            None => Err(bad_line_message(&t)),
        }
    } else if c == 'f' {
        let words: Vec<Vec<char>> = split_words(&rest);
        if words.len() < 2 {
            return Err(bad_line_message(&t));
        }
        match (parse_count(&words[0]), parse_count(&words[1])) {
            (Ok(id), Ok(n)) => {
                match parse_list(nums, lines, pos + 1, n) {
                    Ok((args, p)) => Ok((ExprNode::Funcall { id, args }, p)),
                    Err(m) => Err(m),
                }
            },
            _ => Err(bad_line_message(&t)),
        }
    } else if c == 'o' {
        match parse_count(&rest) {
            Err(_) => Err(bad_line_message(&t)),
            Ok(opcode) => parse_operator(nums, lines, pos, opcode, &t),
        }
    } else {
        Err(bad_line_message(&t))
    }
}

/// Reads an operator line and its operands.
fn parse_operator<P: Fn(&Vec<char>) -> Option<u64>>(
    nums: &Numbers<P>,
    lines: &Vec<Vec<char>>,
    pos: usize,
    opcode: usize,
    t: &Vec<char>,
) -> (r: Result<(ExprNode, usize), String>)
    requires
        nums.sound(),
        pos < lines@.len(),
        t@ == token_of(texts(lines@)[pos as int]),
        letter(t@) == 'o',
        count_of(t@.skip(1)) == Ok::<usize, crate::nl::scan::IntFault>(opcode),
    ensures
        parsed(*nums, texts(lines@), pos as int, r),
    decreases lines@.len() - pos - 1, 3nat,
{
    let ghost ls = texts(lines@);
    let count: usize = lines.len();
    assert(pos < count);
    proof {
        lemma_expr_end(ls, pos as int);
        lemma_operands(*nums, ls, pos + 1);
    }
    if let Some(op) = binary(opcode) {
        match parse_at(nums, lines, pos + 1) {
            Err(m) => Err(m),
            Ok((a, p)) => match parse_at(nums, lines, p) {
                Err(m) => Err(m),
                Ok((b, q)) => Ok((ExprNode::Binary(op, Box::new(a), Box::new(b)), q)),
            },
        }
    } else if let Some(op) = unary(opcode) {
        match parse_at(nums, lines, pos + 1) {
            Err(m) => Err(m),
            Ok((a, p)) => Ok((ExprNode::Unary(op, Box::new(a)), p)),
        }
    } else if let Some(op) = nary(opcode) {
        if pos + 1 >= lines.len() {
            return Err(String::from_str("Unexpected end of expression"));
        }
        let c: Vec<char> = token(&lines[pos + 1]);
        match parse_count(&c) {
            Err(_) => Err(bad_line_message(&c)),
            Ok(n) => match parse_list(nums, lines, pos + 2, n) {
                Ok((args, p)) => Ok((ExprNode::Nary(op, args), p)),
                Err(m) => Err(m),
            },
        }
    } else if opcode == 35 || opcode == 65 {
        parse_conditional(nums, lines, pos, opcode, t)
    } else {
        Err(bad_line_message(t))
    }
}

/// Reads a conditional line and its operands.
fn parse_conditional<P: Fn(&Vec<char>) -> Option<u64>>(
    nums: &Numbers<P>,
    lines: &Vec<Vec<char>>,
    pos: usize,
    opcode: usize,
    t: &Vec<char>,
) -> (r: Result<(ExprNode, usize), String>)
    requires
        nums.sound(),
        pos < lines@.len(),
        t@ == token_of(texts(lines@)[pos as int]),
        letter(t@) == 'o',
        count_of(t@.skip(1)) == Ok::<usize, crate::nl::scan::IntFault>(opcode),
        opcode == 35 || opcode == 65,
    ensures
        parsed(*nums, texts(lines@), pos as int, r),
    decreases lines@.len() - pos - 1, 2nat,
{
    let ghost ls = texts(lines@);
    let count: usize = lines.len();
    assert(pos < count);
    proof {
        lemma_expr_end(ls, pos as int);
        lemma_operands(*nums, ls, pos + 1);
    }
    match parse_at(nums, lines, pos + 1) {
        Err(m) => Err(m),
        Ok((c, p)) => match parse_at(nums, lines, p) {
            Err(m) => Err(m),
            Ok((a, q)) => {
                if opcode == 65 {
                    let b: ExprNode = ExprNode::Const(ZERO);
                    return Ok((ExprNode::If(Box::new(c), Box::new(a), Box::new(b)), q));
                }
                match parse_at(nums, lines, q) {
                    Err(m) => Err(m),
                    Ok((b, s)) => Ok((ExprNode::If(Box::new(c), Box::new(a), Box::new(b)), s)),
                }
            },
        },
    }
}

/// Reads `n` expressions from `pos` on.
fn parse_list<P: Fn(&Vec<char>) -> Option<u64>>(
    nums: &Numbers<P>,
    lines: &Vec<Vec<char>>,
    pos: usize,
    n: usize,
) -> (r: Result<(Vec<ExprNode>, usize), String>)
    requires
        nums.sound(),
        pos <= lines@.len(),
    ensures
        match r {
            Ok((list, p)) => {
                &&& list_fault(*nums, texts(lines@), pos as int, n as nat) is None
                &&& list@.len() == n
                &&& list_reads(*nums, texts(lines@), pos as int, list@)
                &&& p == list_end(texts(lines@), pos as int, n as nat)
                &&& pos <= p <= lines@.len()
            },
            Err(m) => list_fault(*nums, texts(lines@), pos as int, n as nat) == Some(m@),
        },
    decreases lines@.len() - pos, 1nat,
{
    let ghost ls = texts(lines@);
    let mut list: Vec<ExprNode> = Vec::new();
    let mut p: usize = pos;
    for i in 0..n
        invariant
            nums.sound(),
            ls == texts(lines@),
            pos <= p <= lines@.len(),
            list@.len() == i,
            list_reads(*nums, ls, pos as int, list@),
            list_fault(*nums, ls, pos as int, i as nat) is None,
            p == list_end(ls, pos as int, i as nat),
    {
        match parse_at(nums, lines, p) {
            Err(m) => {
                proof {
                    assert(list_fault(*nums, ls, pos as int, (i + 1) as nat) == Some(m@));
                    lemma_list_fault_stays(*nums, ls, pos as int, (i + 1) as nat, n as nat);
                }
                return Err(m);
            },
            Ok((e, q)) => {
                list.push(e);
                p = q;
            },
        }
    }
    Ok((list, p))
}

/// Reads the expression that starts at line `pos`.
pub fn parse_expr<P: Fn(&Vec<char>) -> Option<u64>>(
    nums: &Numbers<P>,
    lines: &Vec<Vec<char>>,
    pos: usize,
) -> (r: Result<ExprNode, String>)
    requires
        nums.sound(),
        pos <= lines@.len(),
    ensures
        match r {
            Ok(e) => expr_fault(*nums, texts(lines@), pos as int) is None && reads_as(
                *nums,
                texts(lines@),
                pos as int,
                e,
            ),
            Err(m) => expr_fault(*nums, texts(lines@), pos as int) == Some(m@),
        },
{
    match parse_at(nums, lines, pos) {
        Ok((e, _)) => Ok(e),
        Err(m) => Err(m),
    }
}

} // verus!
