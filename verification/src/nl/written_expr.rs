//! Expressions as they are written, and what is read from them.

use crate::float::ZERO;
use crate::nl::expr::{BinaryOp, ExprNode, NaryOp, UnaryOp};
use crate::nl::expr_text::{
    arity, colon_from, expr_end, expr_fault, letter, list_end, list_fault, literal_of, reads_as,
    Arity,
};
use crate::nl::scan::{
    count_of, count_or, hash_from, token_of, trimmed, white, words_of, IntFault, Numbers,
};
use crate::nl::written::{
    counts_read_back, is_word, lemma_trim_keeps_first, spaced, words_read_back, writes,
};
use crate::text::decimal;
use vstd::prelude::*;

verus! {

/// The code of an operator of two operands.
pub open spec fn binary_code(op: BinaryOp) -> nat {
    match op {
        BinaryOp::Add => 0,
        BinaryOp::Sub => 1,
        BinaryOp::Mul => 2,
        BinaryOp::Div => 3,
        BinaryOp::Mod => 4,
        BinaryOp::Pow => 5,
        BinaryOp::Less => 22,
        BinaryOp::Atan2 => 48,
        BinaryOp::IntDiv => 55,
    }
}

/// The code of an operator of one operand.
pub open spec fn unary_code(op: UnaryOp) -> nat {
    match op {
        UnaryOp::Floor => 13,
        UnaryOp::Ceil => 14,
        UnaryOp::Abs => 15,
        UnaryOp::Neg => 16,
        UnaryOp::Tanh => 37,
        UnaryOp::Tan => 38,
        UnaryOp::Sqrt => 39,
        UnaryOp::Sinh => 40,
        UnaryOp::Sin => 41,
        UnaryOp::Log10 => 42,
        UnaryOp::Log => 43,
        UnaryOp::Exp => 44,
        UnaryOp::Cosh => 45,
        UnaryOp::Cos => 46,
        UnaryOp::Atanh => 47,
        UnaryOp::Atan => 49,
        UnaryOp::Asinh => 50,
        UnaryOp::Asin => 51,
        UnaryOp::Acosh => 52,
        UnaryOp::Acos => 53,
    }
}

/// The code of an operator of any number of operands.
pub open spec fn nary_code(op: NaryOp) -> nat {
    match op {
        NaryOp::Min => 11,
        NaryOp::Max => 12,
        NaryOp::Sum => 54,
    }
}

/// The letter of a node and what follows it.
pub open spec fn node(kind: char, rest: Seq<char>) -> Seq<char> {
    seq![kind] + rest
}

/// The lines of an expression, in prefix order.
pub open spec fn written(e: ExprNode, text: spec_fn(u64) -> Seq<char>) -> Seq<Seq<char>>
    decreases e,
{
    match e {
        ExprNode::Const(c) => seq![node('n', text(c))],
        ExprNode::Var(i) => seq![node('v', decimal(i as nat))],
        ExprNode::StringLiteral(s) => seq![node('h', decimal(s@.len()) + seq![':'] + s@)],
        ExprNode::Binary(op, a, b) => seq![node('o', decimal(binary_code(op)))] + written(*a, text)
            + written(*b, text),
        ExprNode::Unary(op, a) => seq![node('o', decimal(unary_code(op)))] + written(*a, text),
        ExprNode::Nary(op, args) => seq![
            node('o', decimal(nary_code(op))),
            decimal(args@.len()),
        ] + written_list(args@, text),
        ExprNode::If(c, a, b) => seq![node('o', decimal(35))] + written(*c, text) + written(
            *a,
            text,
        ) + written(*b, text),
        ExprNode::Funcall { id, args } => seq![
            spaced(seq![node('f', decimal(id as nat)), decimal(args@.len())]),
        ] + written_list(args@, text),
    }
}

/// The lines of several expressions.
pub open spec fn written_list(es: Seq<ExprNode>, text: spec_fn(u64) -> Seq<char>) -> Seq<Seq<char>>
    decreases es,
{
    if es.len() == 0 {
        Seq::empty()
    } else {
        written_list(es.drop_last(), text) + written(es.last(), text)
    }
}

/// The two expressions are the same tree.
pub open spec fn same_tree(a: ExprNode, b: ExprNode) -> bool
    decreases b,
{
    match (a, b) {
        (ExprNode::Const(c), ExprNode::Const(d)) => c == d,
        (ExprNode::Var(i), ExprNode::Var(j)) => i == j,
        (ExprNode::StringLiteral(s), ExprNode::StringLiteral(t)) => s@ == t@,
        (ExprNode::Binary(o, l, r), ExprNode::Binary(p, m, s)) => o == p && same_tree(*l, *m)
            && same_tree(*r, *s),
        (ExprNode::Unary(o, l), ExprNode::Unary(p, m)) => o == p && same_tree(*l, *m),
        (ExprNode::Nary(o, x), ExprNode::Nary(p, y)) => o == p && same_trees(x@, y@),
        (ExprNode::If(c, l, r), ExprNode::If(d, m, s)) => same_tree(*c, *d) && same_tree(*l, *m)
            && same_tree(*r, *s),
        (
            ExprNode::Funcall { id: i, args: x },
            ExprNode::Funcall { id: j, args: y },
        ) => i == j && same_trees(x@, y@),
        _ => false,
    }
}

/// The two lists hold the same trees.
pub open spec fn same_trees(a: Seq<ExprNode>, b: Seq<ExprNode>) -> bool
    decreases b,
{
    a.len() == b.len() && (b.len() > 0 ==> same_trees(a.drop_last(), b.drop_last()) && same_tree(
        a.last(),
        b.last(),
    ))
}

/// A string that can be written: it does not end with white space.
pub open spec fn writable(e: ExprNode) -> bool
    decreases e,
{
    match e {
        ExprNode::StringLiteral(s) => s@.len() > 0 && !white(s@.last()) && s@.len() <= usize::MAX,
        ExprNode::Binary(_, a, b) => writable(*a) && writable(*b),
        ExprNode::Unary(_, a) => writable(*a),
        ExprNode::Nary(_, args) => args@.len() <= usize::MAX && writable_list(args@),
        ExprNode::If(c, a, b) => writable(*c) && writable(*a) && writable(*b),
        ExprNode::Funcall { id, args } => args@.len() <= usize::MAX && writable_list(args@),
        _ => true,
    }
}

pub open spec fn writable_list(es: Seq<ExprNode>) -> bool
    decreases es,
{
    es.len() > 0 ==> writable_list(es.drop_last()) && writable(es.last())
}

/// The lines from `pos` on start with `part`.
pub open spec fn stands_at(part: Seq<Seq<char>>, lines: Seq<Seq<char>>, pos: int) -> bool {
    &&& 0 <= pos
    &&& pos + part.len() <= lines.len()
    &&& lines.subrange(pos, pos + part.len()) == part
}

proof fn lemma_stands(a: Seq<Seq<char>>, b: Seq<Seq<char>>, lines: Seq<Seq<char>>, pos: int)
    requires
        stands_at(a + b, lines, pos),
    ensures
        stands_at(a, lines, pos),
        stands_at(b, lines, pos + a.len()),
{
    let n = a.len();
    let s = lines.subrange(pos, pos + n + b.len());
    assert(lines.subrange(pos, pos + n) =~= a) by {
        assert forall|i: int| 0 <= i < n implies lines[pos + i] == a[i] by {
            assert(s[i] == (a + b)[i]);
        }
    }
    assert(lines.subrange(pos + n, pos + n + b.len()) =~= b) by {
        assert forall|i: int| 0 <= i < b.len() implies lines[pos + n + i] == b[i] by {
            assert(s[n + i] == (a + b)[n + i]);
        }
    }
}

/// A line of one word after a letter.
proof fn lemma_node(kind: char, rest: Seq<char>)
    requires
        is_word(rest),
        !white(kind),
        kind != '#',
    ensures
        token_of(node(kind, rest)) == node(kind, rest),
        node(kind, rest)[0] == kind,
        node(kind, rest).skip(1) == rest,
        is_word(node(kind, rest)),
{
    let w = node(kind, rest);
    assert forall|k: int| 0 <= k < w.len() implies !white(#[trigger] w[k]) && w[k] != '#' by {
        if k > 0 {
            assert(w[k] == rest[k - 1]);
        }
    }
    assert(is_word(w));
    let ws = seq![w];
    words_read_back(ws);
    assert(spaced(ws) == w);
    assert(w.skip(1) =~= rest);
}

proof fn lemma_colon(s: Seq<char>, i: nat, at: nat)
    requires
        i <= at < s.len(),
        s[at as int] == ':',
        forall|k: int| 0 <= k < at ==> #[trigger] s[k] != ':',
    ensures
        colon_from(s, i) == at,
    decreases at - i,
{
    if i < at {
        lemma_colon(s, i + 1, at);
    }
}

proof fn lemma_decimal_plain(n: nat)
    ensures
        forall|k: int| 0 <= k < decimal(n).len() ==> #[trigger] decimal(n)[k] != ':',
        decimal(n).len() > 0,
    decreases n,
{
    if n >= 10 {
        lemma_decimal_plain(n / 10);
        let s = decimal(n);
        assert forall|k: int| 0 <= k < s.len() implies #[trigger] s[k] != ':' by {
            if k < s.len() - 1 {
                assert(s[k] == decimal(n / 10)[k]);
            }
        }
    }
}

/// A line with a string.
proof fn lemma_string(s: Seq<char>)
    requires
        s.len() > 0,
        s.len() <= usize::MAX,
        !white(s.last()),
    ensures
        ({
            let line = node('h', decimal(s.len()) + seq![':'] + s);
            &&& letter(token_of(line)) == 'h'
            &&& literal_of(line) == Some(s)
        }),
{
    let head = decimal(s.len());
    let line = node('h', head + seq![':'] + s);
    lemma_decimal_plain(s.len());
    counts_read_back(s.len() as usize);
    assert(line[0] == 'h');
    assert(line.last() == s.last());
    assert(!white('h'));
    assert(trimmed(line) == line);
    let at = (head.len() + 1) as nat;
    assert(line[at as int] == ':');
    assert forall|k: int| 0 <= k < at implies #[trigger] line[k] != ':' by {
        if k > 0 {
            assert(line[k] == head[k - 1]);
        }
    }
    lemma_colon(line, 0, at);
    assert(line.skip(at as int + 1) =~= s);
    let h = hash_from(line, 0);
    lemma_hash_after(line, 0);
    let cut = line.take(h as int);
    assert(cut[0] == 'h');
    lemma_trim_keeps_first(cut);
}

proof fn lemma_hash_after(s: Seq<char>, i: nat)
    requires
        i < s.len(),
        s[i as int] != '#',
    ensures
        i < hash_from(s, i) <= s.len(),
    decreases s.len() - i,
{
    if i + 1 < s.len() && s[i as int + 1] != '#' {
        lemma_hash_after(s, i + 1);
    }
    assert(hash_from(s, i) == hash_from(s, i + 1));
}

/// The first line of a written expression.
proof fn lemma_first(w: Seq<Seq<char>>, lines: Seq<Seq<char>>, pos: int)
    requires
        stands_at(w, lines, pos),
        w.len() > 0,
    ensures
        0 <= pos < lines.len(),
        lines[pos] == w[0],
{
    assert(lines[pos] == lines.subrange(pos, pos + w.len())[0]);
}

/// The line of an operator.
proof fn lemma_operator(line: Seq<char>, code: usize)
    requires
        line == node('o', decimal(code as nat)),
    ensures
        letter(token_of(line)) == 'o',
        count_of(token_of(line).skip(1)) == Ok::<usize, IntFault>(code),
        count_or(token_of(line).skip(1), 0) == code,
{
    assert(!white('o'));
    counts_read_back(code);
    lemma_node('o', decimal(code as nat));
}

/// The line of a call.
proof fn lemma_call_line(line: Seq<char>, id: usize, count: usize)
    requires
        line == spaced(seq![node('f', decimal(id as nat)), decimal(count as nat)]),
    ensures
        ({
            let t = token_of(line);
            let words = words_of(t.skip(1));
            &&& letter(t) == 'f'
            &&& words.len() == 2
            &&& count_of(words[0]) == Ok::<usize, IntFault>(id)
            &&& count_of(words[1]) == Ok::<usize, IntFault>(count)
        }),
{
    assert(!white('f'));
    counts_read_back(id);
    counts_read_back(count);
    lemma_node('f', decimal(id as nat));
    let ws = seq![node('f', decimal(id as nat)), decimal(count as nat)];
    words_read_back(ws);
    let plain = seq![decimal(id as nat), decimal(count as nat)];
    words_read_back(plain);
    lemma_call(id as nat, count as nat);
}

/// The line of a count.
proof fn lemma_count_line(line: Seq<char>, count: usize)
    requires
        line == decimal(count as nat),
    ensures
        count_of(token_of(line)) == Ok::<usize, IntFault>(count),
{
    counts_read_back(count);
    let ws = seq![decimal(count as nat)];
    words_read_back(ws);
    assert(spaced(ws) == ws[0]);
}

/// The line of a call after its letter.
proof fn lemma_call(id: nat, count: nat)
    ensures
        spaced(seq![node('f', decimal(id)), decimal(count)]).skip(1) == spaced(
            seq![decimal(id), decimal(count)],
        ),
{
    let a = seq![node('f', decimal(id)), decimal(count)];
    let b = seq![decimal(id), decimal(count)];
    assert(a.drop_last() =~= seq![node('f', decimal(id))]);
    assert(b.drop_last() =~= seq![decimal(id)]);
    assert(spaced(a.drop_last()) == node('f', decimal(id)));
    assert(spaced(b.drop_last()) == decimal(id));
    assert(spaced(a) == node('f', decimal(id)).push(' ') + decimal(count));
    assert(spaced(b) == decimal(id).push(' ') + decimal(count));
    assert(spaced(a).skip(1) =~= spaced(b));
}

/// An expression of so many lines is faultless.
spec fn ends_after<P: Fn(&Vec<char>) -> Option<u64>>(
    nums: Numbers<P>,
    lines: Seq<Seq<char>>,
    pos: int,
    len: nat,
) -> bool {
    &&& 0 <= pos
    &&& expr_end(lines, pos) == pos + len
    &&& expr_fault(nums, lines, pos) is None
}

/// The first one, two or three operands.
proof fn lemma_operands<P: Fn(&Vec<char>) -> Option<u64>>(
    nums: Numbers<P>,
    lines: Seq<Seq<char>>,
    pos: int,
    a: nat,
    b: nat,
    c: nat,
)
    requires
        ends_after(nums, lines, pos, a),
    ensures
        list_end(lines, pos, 1) == pos + a,
        list_fault(nums, lines, pos, 1) is None,
        ends_after(nums, lines, pos + a, b) ==> {
            &&& list_end(lines, pos, 2) == pos + a + b
            &&& list_fault(nums, lines, pos, 2) is None
        },
        ends_after(nums, lines, pos + a, b) && ends_after(nums, lines, pos + a + b, c) ==> {
            &&& list_end(lines, pos, 3) == pos + a + b + c
            &&& list_fault(nums, lines, pos, 3) is None
        },
{
    assert(list_end(lines, pos, 0) == pos);
    assert(list_fault(nums, lines, pos, 0) is None);
    assert(list_end(lines, pos, 1) == pos + a);
    assert(list_fault(nums, lines, pos, 1) is None);
    if ends_after(nums, lines, pos + a, b) {
        assert(list_end(lines, pos, 2) == pos + a + b);
        assert(list_fault(nums, lines, pos, 2) is None);
        if ends_after(nums, lines, pos + a + b, c) {
            assert(list_end(lines, pos, 3) == pos + a + b + c);
        }
    }
}

/// An operator with as many operands as it has.
proof fn lemma_fixed<P: Fn(&Vec<char>) -> Option<u64>>(
    nums: Numbers<P>,
    lines: Seq<Seq<char>>,
    pos: int,
    code: usize,
    n: nat,
    len: nat,
)
    requires
        0 <= pos < lines.len(),
        lines[pos] == node('o', decimal(code as nat)),
        arity(code) == Arity::Fixed(n),
        n > 0,
        list_end(lines, pos + 1, n) == pos + 1 + len,
        list_fault(nums, lines, pos + 1, n) is None,
    ensures
        ends_after(nums, lines, pos, len + 1),
{
    lemma_operator(lines[pos], code);
}

/// The code of each operator has as many operands as the operator.
proof fn lemma_arities()
    ensures
        forall|op: BinaryOp| arity(#[trigger] binary_code(op) as usize) == Arity::Fixed(2),
        forall|op: UnaryOp| arity(#[trigger] unary_code(op) as usize) == Arity::Fixed(1),
        forall|op: NaryOp| arity(#[trigger] nary_code(op) as usize) == Arity::Counted,
        arity(35) == Arity::Fixed(3),
{
}

/// A written expression is faultless, and ends with its last line.
proof fn lemma_ends<P: Fn(&Vec<char>) -> Option<u64>>(
    nums: Numbers<P>,
    lines: Seq<Seq<char>>,
    pos: int,
    e: ExprNode,
    text: spec_fn(u64) -> Seq<char>,
)
    requires
        writes(nums, text),
        writable(e),
        stands_at(written(e, text), lines, pos),
    ensures
        ends_after(nums, lines, pos, written(e, text).len()),
    decreases e,
{
    lemma_arities();
    lemma_first(written(e, text), lines, pos);
    match e {
        ExprNode::Const(c) => {
            assert(!white('n'));
            lemma_node('n', text(c));
        },
        ExprNode::Var(i) => {
            assert(!white('v'));
            counts_read_back(i);
            lemma_node('v', decimal(i as nat));
        },
        ExprNode::StringLiteral(s) => {
            lemma_string(s@);
        },
        ExprNode::Binary(op, a, b) => {
            let head = seq![node('o', decimal(binary_code(op)))];
            let (wa, wb) = (written(*a, text), written(*b, text));
            lemma_stands(head + wa, wb, lines, pos);
            lemma_stands(head, wa, lines, pos);
            lemma_ends(nums, lines, pos + 1, *a, text);
            lemma_ends(nums, lines, pos + 1 + wa.len(), *b, text);
            lemma_operands(nums, lines, pos + 1, wa.len(), wb.len(), 0);
            lemma_fixed(nums, lines, pos, binary_code(op) as usize, 2, wa.len() + wb.len());
        },
        ExprNode::Unary(op, a) => {
            let head = seq![node('o', decimal(unary_code(op)))];
            let wa = written(*a, text);
            lemma_stands(head, wa, lines, pos);
            lemma_ends(nums, lines, pos + 1, *a, text);
            lemma_operands(nums, lines, pos + 1, wa.len(), 0, 0);
            lemma_fixed(nums, lines, pos, unary_code(op) as usize, 1, wa.len());
        },
        ExprNode::If(c, a, b) => {
            let head = seq![node('o', decimal(35))];
            let (wc, wa, wb) = (written(*c, text), written(*a, text), written(*b, text));
            lemma_stands(head + wc + wa, wb, lines, pos);
            lemma_stands(head + wc, wa, lines, pos);
            lemma_stands(head, wc, lines, pos);
            lemma_ends(nums, lines, pos + 1, *c, text);
            lemma_ends(nums, lines, pos + 1 + wc.len(), *a, text);
            lemma_ends(nums, lines, pos + 1 + wc.len() + wa.len(), *b, text);
            lemma_operands(nums, lines, pos + 1, wc.len(), wa.len(), wb.len());
            lemma_fixed(nums, lines, pos, 35, 3, wc.len() + wa.len() + wb.len());
        },
        ExprNode::Nary(op, args) => {
            let head = seq![node('o', decimal(nary_code(op))), decimal(args@.len())];
            lemma_stands(head, written_list(args@, text), lines, pos);
            assert(lines[pos + 1] == lines.subrange(pos, pos + 2)[1]);
            lemma_list_ends(nums, lines, pos + 2, args@, text);
            lemma_operator(lines[pos], nary_code(op) as usize);
            lemma_count_line(lines[pos + 1], args@.len() as usize);
        },
        ExprNode::Funcall { id, args } => {
            let head = seq![spaced(seq![node('f', decimal(id as nat)), decimal(args@.len())])];
            lemma_stands(head, written_list(args@, text), lines, pos);
            lemma_list_ends(nums, lines, pos + 1, args@, text);
            lemma_call_line(lines[pos], id, args@.len() as usize);
        },
    }
}

/// Written expressions that follow each other are faultless and end with their
/// last line.
proof fn lemma_list_ends<P: Fn(&Vec<char>) -> Option<u64>>(
    nums: Numbers<P>,
    lines: Seq<Seq<char>>,
    pos: int,
    es: Seq<ExprNode>,
    text: spec_fn(u64) -> Seq<char>,
)
    requires
        writes(nums, text),
        writable_list(es),
        stands_at(written_list(es, text), lines, pos),
    ensures
        list_end(lines, pos, es.len()) == pos + written_list(es, text).len(),
        list_fault(nums, lines, pos, es.len()) is None,
    decreases es,
{
    if es.len() > 0 {
        let front = es.drop_last();
        lemma_stands(written_list(front, text), written(es.last(), text), lines, pos);
        lemma_list_ends(nums, lines, pos, front, text);
        lemma_ends(nums, lines, pos + written_list(front, text).len(), es.last(), text);
    }
}

/// What is read from a written expression is the expression.
proof fn lemma_tree<P: Fn(&Vec<char>) -> Option<u64>>(
    nums: Numbers<P>,
    lines: Seq<Seq<char>>,
    pos: int,
    e: ExprNode,
    read: ExprNode,
    text: spec_fn(u64) -> Seq<char>,
)
    requires
        writes(nums, text),
        writable(e),
        stands_at(written(e, text), lines, pos),
        reads_as(nums, lines, pos, read),
    ensures
        same_tree(read, e),
    decreases e,
{
    lemma_first(written(e, text), lines, pos);
    match e {
        ExprNode::Const(c) => {
            assert(!white('n'));
            lemma_node('n', text(c));
        },
        ExprNode::Var(i) => {
            assert(!white('v'));
            counts_read_back(i);
            lemma_node('v', decimal(i as nat));
        },
        ExprNode::StringLiteral(s) => {
            lemma_string(s@);
        },
        ExprNode::Binary(op, a, b) => {
            let head = seq![node('o', decimal(binary_code(op)))];
            let (wa, wb) = (written(*a, text), written(*b, text));
            lemma_stands(head + wa, wb, lines, pos);
            lemma_stands(head, wa, lines, pos);
            lemma_operator(lines[pos], binary_code(op) as usize);
            lemma_ends(nums, lines, pos + 1, *a, text);
            assert(read is Binary && read->Binary_0 == op);
            lemma_tree(nums, lines, pos + 1, *a, *read->Binary_1, text);
            lemma_tree(nums, lines, pos + 1 + wa.len(), *b, *read->Binary_2, text);
        },
        ExprNode::Unary(op, a) => {
            let head = seq![node('o', decimal(unary_code(op)))];
            lemma_stands(head, written(*a, text), lines, pos);
            lemma_operator(lines[pos], unary_code(op) as usize);
            assert(read is Unary && read->Unary_0 == op);
            lemma_tree(nums, lines, pos + 1, *a, *read->Unary_1, text);
        },
        ExprNode::If(c, a, b) => {
            let head = seq![node('o', decimal(35))];
            let (wc, wa, wb) = (written(*c, text), written(*a, text), written(*b, text));
            lemma_stands(head + wc + wa, wb, lines, pos);
            lemma_stands(head + wc, wa, lines, pos);
            lemma_stands(head, wc, lines, pos);
            lemma_operator(lines[pos], 35);
            lemma_ends(nums, lines, pos + 1, *c, text);
            lemma_ends(nums, lines, pos + 1 + wc.len(), *a, text);
            assert(read is If);
            lemma_tree(nums, lines, pos + 1, *c, *read->If_0, text);
            lemma_tree(nums, lines, pos + 1 + wc.len(), *a, *read->If_1, text);
            lemma_tree(nums, lines, pos + 1 + wc.len() + wa.len(), *b, *read->If_2, text);
        },
        ExprNode::Nary(op, args) => {
            let head = seq![node('o', decimal(nary_code(op))), decimal(args@.len())];
            lemma_stands(head, written_list(args@, text), lines, pos);
            assert(lines[pos + 1] == lines.subrange(pos, pos + 2)[1]);
            lemma_operator(lines[pos], nary_code(op) as usize);
            lemma_count_line(lines[pos + 1], args@.len() as usize);
            assert(read is Nary && read->Nary_0 == op);
            lemma_trees(nums, lines, pos + 2, args@, read->Nary_1@, text);
        },
        ExprNode::Funcall { id, args } => {
            let head = seq![spaced(seq![node('f', decimal(id as nat)), decimal(args@.len())])];
            lemma_stands(head, written_list(args@, text), lines, pos);
            lemma_call_line(lines[pos], id, args@.len() as usize);
            assert(read is Funcall && read->Funcall_id == id);
            lemma_trees(nums, lines, pos + 1, args@, read->Funcall_args@, text);
        },
    }
}

proof fn lemma_trees<P: Fn(&Vec<char>) -> Option<u64>>(
    nums: Numbers<P>,
    lines: Seq<Seq<char>>,
    pos: int,
    es: Seq<ExprNode>,
    read: Seq<ExprNode>,
    text: spec_fn(u64) -> Seq<char>,
)
    requires
        writes(nums, text),
        writable_list(es),
        stands_at(written_list(es, text), lines, pos),
        read.len() == es.len(),
        forall|i: int|
            0 <= i < read.len() ==> reads_as(
                nums,
                lines,
                list_end(lines, pos, i as nat),
                #[trigger] read[i],
            ),
    ensures
        same_trees(read, es),
    decreases es,
{
    if es.len() > 0 {
        let front = es.drop_last();
        let n = front.len();
        lemma_stands(written_list(front, text), written(es.last(), text), lines, pos);
        assert forall|i: int| 0 <= i < n implies reads_as(
            nums,
            lines,
            list_end(lines, pos, i as nat),
            #[trigger] read.drop_last()[i],
        ) by {
            assert(read.drop_last()[i] == read[i]);
        }
        lemma_trees(nums, lines, pos, front, read.drop_last(), text);
        lemma_list_ends(nums, lines, pos, front, text);
        assert(read[n as int] == read.last());
        lemma_tree(
            nums,
            lines,
            pos + written_list(front, text).len(),
            es.last(),
            read.last(),
            text,
        );
    }
}

/// An expression that is written in prefix order, one node to a line, is read
/// back: the lines are faultless, they are read to their end, and what is read
/// is the same tree.
pub proof fn expressions_read_back<P: Fn(&Vec<char>) -> Option<u64>>(
    nums: Numbers<P>,
    lines: Seq<Seq<char>>,
    pos: int,
    e: ExprNode,
    read: ExprNode,
    text: spec_fn(u64) -> Seq<char>,
)
    requires
        writes(nums, text),
        writable(e),
        stands_at(written(e, text), lines, pos),
    ensures
        expr_fault(nums, lines, pos) is None,
        expr_end(lines, pos) == pos + written(e, text).len(),
        reads_as(nums, lines, pos, read) ==> same_tree(read, e),
{
    lemma_ends(nums, lines, pos, e, text);
    if reads_as(nums, lines, pos, read) {
        lemma_tree(nums, lines, pos, e, read, text);
    }
}

/// A condition without an alternative has the alternative zero.
pub proof fn missing_alternatives_are_zero<P: Fn(&Vec<char>) -> Option<u64>>(
    nums: Numbers<P>,
    lines: Seq<Seq<char>>,
    pos: int,
    c: ExprNode,
    a: ExprNode,
    read: ExprNode,
    text: spec_fn(u64) -> Seq<char>,
)
    requires
        writes(nums, text),
        writable(c),
        writable(a),
        stands_at(
            seq![node('o', decimal(65))] + written(c, text) + written(a, text),
            lines,
            pos,
        ),
    ensures
        expr_fault(nums, lines, pos) is None,
        reads_as(nums, lines, pos, read) ==> {
            &&& read matches ExprNode::If(d, b, z)
            &&& same_tree(*d, c)
            &&& same_tree(*b, a)
            &&& *z == ExprNode::Const(ZERO)
        },
{
    let head = seq![node('o', decimal(65))];
    let (wc, wa) = (written(c, text), written(a, text));
    lemma_first(head + wc + wa, lines, pos);
    lemma_stands(head + wc, wa, lines, pos);
    lemma_stands(head, wc, lines, pos);
    lemma_ends(nums, lines, pos + 1, c, text);
    lemma_ends(nums, lines, pos + 1 + wc.len(), a, text);
    lemma_operands(nums, lines, pos + 1, wc.len(), wa.len(), 0);
    lemma_operator(lines[pos], 65);
    assert(arity(65) == Arity::Fixed(2));
    lemma_fixed(nums, lines, pos, 65, 2, wc.len() + wa.len());
    if reads_as(nums, lines, pos, read) && read is If {
        lemma_tree(nums, lines, pos + 1, c, *read->If_0, text);
        lemma_tree(nums, lines, pos + 1 + wc.len(), a, *read->If_1, text);
    }
}

} // verus!
