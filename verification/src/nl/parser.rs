//! Reader of AMPL `.nl` text.

use crate::float::{num_eq, INFINITY, NEG_INFINITY, ONE, ZERO};
use crate::nl::expr::{BinaryOp, ExprNode};
use crate::nl::expr_text::{
    count_expr_lines, expr_end, expr_fault, lemma_expr_end, letter, parse_expr, reads_as,
};
use crate::nl::scan::{
    count_of, count_or, fault_text, is_text, lines_of, natural_of, parse_count, parse_count_or,
    parse_natural, parse_signed_or_zero, parse_word_count_or, push_chars, push_fault,
    signed_or_zero, split_lines, split_words, tail, texts, to_chars, token, token_of, trim,
    trim_end, trim_start, trimmed, white, word_count_or, word_or_empty, word_string, words_of,
    words_upto, IntFault, Numbers,
};
use vstd::prelude::*;

verus! {

/// What a suffix is attached to: the low two bits of the flags of an `S`
/// segment.
#[derive(Debug, Clone, Copy, PartialEq, Eq, Structural)]
pub enum SuffixKind {
    Variable,
    Constraint,
    Objective,
    Problem,
}

/// One suffix table, from a header line `S<flags> <count> <name>` and `count`
/// lines `<index> <value>`.
#[derive(Debug)]
pub struct NlSuffix {
    pub name: String,
    pub kind: SuffixKind,
    /// Whether the flags say that the values are real numbers.
    pub float_valued: bool,
    /// Pairs of index and value as they stand in the file.
    pub entries: Vec<(usize, u64)>,
}

/// Declaration of an imported function, from a line `F<id> <kind> <nargs> <name>`.
#[derive(Debug)]
pub struct ImportedFunc {
    pub id: usize,
    /// 0 for a real-valued function, 1 for a string-valued one.
    pub kind: usize,
    /// Declared number of arguments, as read.
    pub nargs: i64,
    pub name: String,
}

/// Problem dimensions from the header.
#[derive(Debug, Clone, Copy, PartialEq, Eq, Structural)]
pub struct NlHeader {
    pub n_vars: usize,
    pub n_constrs: usize,
    pub n_objs: usize,
}

/// The contents of an `.nl` file.
#[derive(Debug)]
pub struct NlFileData {
    pub header: NlHeader,
    /// Nonlinear part of each constraint, where there is one.
    pub con_exprs: Vec<Option<ExprNode>>,
    /// Index, whether to maximize, and nonlinear part of each objective.
    pub obj_exprs: Vec<(usize, bool, Option<ExprNode>)>,
    /// Common expressions, linear and nonlinear part together.
    pub common_exprs: Vec<ExprNode>,
    /// Linear part of each constraint, as pairs of variable and coefficient.
    pub con_linear: Vec<Vec<(usize, u64)>>,
    /// Linear part of each objective.
    pub obj_linear: Vec<Vec<(usize, u64)>>,
    pub x_l: Vec<u64>,
    pub x_u: Vec<u64>,
    pub g_l: Vec<u64>,
    pub g_u: Vec<u64>,
    /// Initial primal values.
    pub x0: Vec<u64>,
    /// Initial dual values.
    pub y0: Vec<u64>,
    /// Cumulative column counts of the Jacobian.
    pub jac_col_ptrs: Vec<usize>,
    pub imported_funcs: Vec<ImportedFunc>,
    pub suffixes: Vec<NlSuffix>,
}

pub struct SuffixModel {
    pub name: Seq<char>,
    pub kind: SuffixKind,
    pub float_valued: bool,
    pub entries: Seq<(usize, u64)>,
}

pub struct FuncModel {
    pub id: usize,
    pub kind: usize,
    pub nargs: int,
    pub name: Seq<char>,
}

/// What the segments of a file say. An expression is named by the line where
/// it starts.
#[verifier::ext_equal]
pub struct FileModel {
    pub con: Seq<Option<int>>,
    pub obj: Seq<(usize, bool, Option<int>)>,
    /// Linear terms and nonlinear part.
    pub common: Seq<(Seq<(usize, u64)>, int)>,
    pub con_linear: Seq<Seq<(usize, u64)>>,
    pub obj_linear: Seq<Seq<(usize, u64)>>,
    pub x_l: Seq<u64>,
    pub x_u: Seq<u64>,
    pub g_l: Seq<u64>,
    pub g_u: Seq<u64>,
    pub x0: Seq<u64>,
    pub y0: Seq<u64>,
    pub jac_col_ptrs: Seq<usize>,
    pub funcs: Seq<FuncModel>,
    pub suffixes: Seq<SuffixModel>,
}

pub open spec fn lists(v: Seq<Vec<(usize, u64)>>) -> Seq<Seq<(usize, u64)>> {
    Seq::new(v.len(), |i: int| v[i]@)
}

pub open spec fn suffix_model(s: NlSuffix) -> SuffixModel {
    SuffixModel { name: s.name@, kind: s.kind, float_valued: s.float_valued, entries: s.entries@ }
}

pub open spec fn suffix_models(v: Seq<NlSuffix>) -> Seq<SuffixModel> {
    Seq::new(v.len(), |i: int| suffix_model(v[i]))
}

pub open spec fn func_model(f: ImportedFunc) -> FuncModel {
    FuncModel { id: f.id, kind: f.kind, nargs: f.nargs as int, name: f.name@ }
}

pub open spec fn func_models(v: Seq<ImportedFunc>) -> Seq<FuncModel> {
    Seq::new(v.len(), |i: int| func_model(v[i]))
}

/// A linear term: the variable alone where the coefficient is one.
pub open spec fn is_term(e: ExprNode, term: (usize, u64)) -> bool {
    if num_eq(term.1, ONE) {
        e == ExprNode::Var(term.0)
    } else {
        e == ExprNode::Binary(
            BinaryOp::Mul,
            Box::new(ExprNode::Const(term.1)),
            Box::new(ExprNode::Var(term.0)),
        )
    }
}

/// The sum of linear terms, from the left.
pub open spec fn is_sum(e: ExprNode, terms: Seq<(usize, u64)>) -> bool
    decreases terms.len(),
{
    if terms.len() == 0 {
        false
    } else if terms.len() == 1 {
        is_term(e, terms[0])
    } else {
        match e {
            ExprNode::Binary(BinaryOp::Add, a, b) => is_sum(*a, terms.drop_last()) && is_term(
                *b,
                terms.last(),
            ),
            _ => false,
        }
    }
}

/// The expression at `pos` is a zero constant.
pub open spec fn is_zero_at<P: Fn(&Vec<char>) -> Option<u64>>(
    nums: Numbers<P>,
    lines: Seq<Seq<char>>,
    pos: int,
) -> bool {
    let t = token_of(lines[pos]);
    letter(t) == 'n' && (nums.value(t.skip(1)) matches Some(c) && num_eq(c, ZERO))
}

/// A common expression: the linear terms plus the nonlinear part at `pos`,
/// each left out where it is empty or zero.
pub open spec fn is_common<P: Fn(&Vec<char>) -> Option<u64>>(
    nums: Numbers<P>,
    lines: Seq<Seq<char>>,
    e: ExprNode,
    terms: Seq<(usize, u64)>,
    pos: int,
) -> bool {
    if terms.len() == 0 {
        reads_as(nums, lines, pos, e)
    } else if is_zero_at(nums, lines, pos) {
        is_sum(e, terms)
    } else {
        match e {
            ExprNode::Binary(BinaryOp::Add, a, b) => is_sum(*a, terms) && reads_as(
                nums,
                lines,
                pos,
                *b,
            ),
            _ => false,
        }
    }
}

pub open spec fn is_optional<P: Fn(&Vec<char>) -> Option<u64>>(
    nums: Numbers<P>,
    lines: Seq<Seq<char>>,
    e: Option<ExprNode>,
    at: Option<int>,
) -> bool {
    match (e, at) {
        (None, None) => true,
        (Some(e), Some(pos)) => reads_as(nums, lines, pos, e),
        _ => false,
    }
}

impl NlFileData {
    /// The data holds what the model says.
    pub open spec fn holds<P: Fn(&Vec<char>) -> Option<u64>>(
        &self,
        nums: Numbers<P>,
        lines: Seq<Seq<char>>,
        f: FileModel,
    ) -> bool {
        &&& self.con_exprs@.len() == f.con.len()
        &&& forall|i: int|
            0 <= i < f.con.len() ==> is_optional(
                nums,
                lines,
                #[trigger] self.con_exprs@[i],
                f.con[i],
            )
        &&& self.obj_exprs@.len() == f.obj.len()
        &&& forall|i: int|
            0 <= i < f.obj.len() ==> {
                let o = #[trigger] self.obj_exprs@[i];
                o.0 == f.obj[i].0 && o.1 == f.obj[i].1 && is_optional(nums, lines, o.2, f.obj[i].2)
            }
        &&& self.common_exprs@.len() == f.common.len()
        &&& forall|i: int|
            0 <= i < f.common.len() ==> is_common(
                nums,
                lines,
                #[trigger] self.common_exprs@[i],
                f.common[i].0,
                f.common[i].1,
            )
        &&& lists(self.con_linear@) == f.con_linear
        &&& lists(self.obj_linear@) == f.obj_linear
        &&& self.x_l@ == f.x_l
        &&& self.x_u@ == f.x_u
        &&& self.g_l@ == f.g_l
        &&& self.g_u@ == f.g_u
        &&& self.x0@ == f.x0
        &&& self.y0@ == f.y0
        &&& self.jac_col_ptrs@ == f.jac_col_ptrs
        &&& func_models(self.imported_funcs@) == f.funcs
        &&& suffix_models(self.suffixes@) == f.suffixes
    }
}

/// A file of `n` variables and `m` constraints before its segments are read.
pub open spec fn blank(n: nat, m: nat) -> FileModel {
    FileModel {
        con: Seq::new(m, |i: int| None),
        obj: Seq::empty(),
        common: Seq::empty(),
        con_linear: Seq::new(m, |i: int| Seq::empty()),
        obj_linear: Seq::empty(),
        x_l: Seq::new(n, |i: int| NEG_INFINITY),
        x_u: Seq::new(n, |i: int| INFINITY),
        g_l: Seq::new(m, |i: int| NEG_INFINITY),
        g_u: Seq::new(m, |i: int| INFINITY),
        x0: Seq::new(n, |i: int| ZERO),
        y0: Seq::new(m, |i: int| ZERO),
        jac_col_ptrs: Seq::empty(),
        funcs: Seq::empty(),
        suffixes: Seq::empty(),
    }
}

/// The line after `n` rows from `pos` on, or the end.
pub open spec fn rows_end(lines: Seq<Seq<char>>, pos: int, n: int) -> int {
    if pos + n <= lines.len() {
        pos + n
    } else {
        lines.len() as int
    }
}

fn after_rows(lines: &Vec<Vec<char>>, pos: usize, n: usize) -> (end: usize)
    requires
        pos <= lines@.len(),
    ensures
        end == rows_end(texts(lines@), pos as int, n as int),
        pos <= end <= lines@.len(),
{
    if n <= lines.len() - pos {
        pos + n
    } else {
        lines.len()
    }
}

/// The pair `<index> <value>` on a line, if it has two words. Where the index
/// is no number it is `default`; where the value is none it is zero.
pub open spec fn pair_on<P: Fn(&Vec<char>) -> Option<u64>>(
    nums: Numbers<P>,
    line: Seq<char>,
    default: usize,
) -> Option<(usize, u64)> {
    let words = words_of(line);
    if words.len() >= 2 {
        Some((count_or(words[0], default), nums.value_or(words[1], ZERO)))
    } else {
        None
    }
}

/// The pairs on lines `pos` to `end`.
pub open spec fn pairs_on<P: Fn(&Vec<char>) -> Option<u64>>(
    nums: Numbers<P>,
    lines: Seq<Seq<char>>,
    pos: int,
    end: int,
    default: usize,
) -> Seq<(usize, u64)>
    decreases end - pos,
{
    if end <= pos {
        Seq::empty()
    } else {
        let before = pairs_on(nums, lines, pos, end - 1, default);
        match pair_on(nums, lines[end - 1], default) {
            Some(pair) => before.push(pair),
            None => before,
        }
    }
}

fn read_pairs<P: Fn(&Vec<char>) -> Option<u64>>(
    nums: &Numbers<P>,
    lines: &Vec<Vec<char>>,
    pos: usize,
    end: usize,
    default: usize,
) -> (pairs: Vec<(usize, u64)>)
    requires
        nums.sound(),
        pos <= end <= lines@.len(),
    ensures
        pairs@ == pairs_on(*nums, texts(lines@), pos as int, end as int, default),
{
    let mut pairs: Vec<(usize, u64)> = Vec::new();
    for i in pos..end
        invariant
            nums.sound(),
            pos <= i <= end <= lines@.len(),
            pairs@ == pairs_on(*nums, texts(lines@), pos as int, i as int, default),
    {
        let words: Vec<Vec<char>> = split_words(&lines[i]);
        if words.len() >= 2 {
            let index: usize = parse_count_or(&words[0], default);
            let value: u64 = nums.parse_or(&words[1], ZERO);
            pairs.push((index, value));
        }
    }
    pairs
}

/// `base` with each pair's value at its index; pairs past the end are left out.
pub open spec fn assigned(base: Seq<u64>, pairs: Seq<(usize, u64)>) -> Seq<u64>
    decreases pairs.len(),
{
    if pairs.len() == 0 {
        base
    } else {
        let before = assigned(base, pairs.drop_last());
        let (i, v) = pairs.last();
        if i < base.len() {
            before.update(i as int, v)
        } else {
            before
        }
    }
}

fn assign(values: &mut Vec<u64>, pairs: &Vec<(usize, u64)>)
    ensures
        final(values)@ == assigned(old(values)@, pairs@),
{
    let ghost base = values@;
    assert(pairs@.take(0) =~= Seq::empty());
    for k in 0..pairs.len()
        invariant
            values@.len() == base.len(),
            values@ == assigned(base, pairs@.take(k as int)),
    {
        proof {
            assert(pairs@.take(k + 1).drop_last() =~= pairs@.take(k as int));
        }
        let (i, v): (usize, u64) = pairs[k];
        if i < values.len() {
            values.set(i, v);
        }
    }
    assert(pairs@.take(pairs@.len() as int) =~= pairs@);
}

/// Bounds from a line `<type> <numbers>`: 0 for a range, 1 for an upper bound,
/// 2 for a lower bound, 3 for none, 4 for an equality, and of a constraint 5
/// for complementarity, which counts as none. Other lines change nothing.
pub open spec fn bounds_on<P: Fn(&Vec<char>) -> Option<u64>>(
    nums: Numbers<P>,
    line: Seq<char>,
    lower: u64,
    upper: u64,
    constraint: bool,
) -> (u64, u64) {
    let w = words_of(line);
    if w.len() == 0 {
        (lower, upper)
    } else {
        match count_of(w[0]) {
            Err(_) => (lower, upper),
            Ok(t) => if t == 0 {
                (nums.word_or(w, 1, NEG_INFINITY), nums.word_or(w, 2, INFINITY))
            } else if t == 1 {
                (NEG_INFINITY, nums.word_or(w, 1, INFINITY))
            } else if t == 2 {
                (nums.word_or(w, 1, NEG_INFINITY), INFINITY)
            } else if t == 3 || (t == 5 && constraint) {
                (NEG_INFINITY, INFINITY)
            } else if t == 4 {
                (nums.word_or(w, 1, ZERO), nums.word_or(w, 1, ZERO))
            } else {
                (lower, upper)
            },
        }
    }
}

fn read_bounds_line<P: Fn(&Vec<char>) -> Option<u64>>(
    nums: &Numbers<P>,
    line: &Vec<char>,
    lower: u64,
    upper: u64,
    constraint: bool,
) -> (r: (u64, u64))
    requires
        nums.sound(),
    ensures
        r == bounds_on(*nums, line@, lower, upper, constraint),
{
    let w: Vec<Vec<char>> = split_words(line);
    if w.len() == 0 {
        return (lower, upper);
    }
    match parse_count(&w[0]) {
        Err(_) => (lower, upper),
        Ok(t) => {
            if t == 0 {
                (nums.parse_word_or(&w, 1, NEG_INFINITY), nums.parse_word_or(&w, 2, INFINITY))
            } else if t == 1 {
                (NEG_INFINITY, nums.parse_word_or(&w, 1, INFINITY))
            } else if t == 2 {
                (nums.parse_word_or(&w, 1, NEG_INFINITY), INFINITY)
            } else if t == 3 || (t == 5 && constraint) {
                (NEG_INFINITY, INFINITY)
            } else if t == 4 {
                let v: u64 = nums.parse_word_or(&w, 1, ZERO);
                (v, v)
            } else {
                (lower, upper)
            }
        },
    }
}

/// Bounds after the first `k` lines from `pos` on.
pub open spec fn bounds_after<P: Fn(&Vec<char>) -> Option<u64>>(
    nums: Numbers<P>,
    lines: Seq<Seq<char>>,
    pos: int,
    k: nat,
    lower: Seq<u64>,
    upper: Seq<u64>,
    constraint: bool,
) -> (Seq<u64>, Seq<u64>)
    decreases k,
{
    if k == 0 {
        (lower, upper)
    } else {
        let i = k - 1;
        let (l, u) = bounds_after(nums, lines, pos, (k - 1) as nat, lower, upper, constraint);
        let b = bounds_on(nums, lines[pos + i], l[i], u[i], constraint);
        (l.update(i, b.0), u.update(i, b.1))
    }
}

fn read_bounds<P: Fn(&Vec<char>) -> Option<u64>>(
    nums: &Numbers<P>,
    lines: &Vec<Vec<char>>,
    pos: usize,
    end: usize,
    lower: &mut Vec<u64>,
    upper: &mut Vec<u64>,
    constraint: bool,
)
    requires
        nums.sound(),
        pos <= end <= lines@.len(),
        old(lower)@.len() == old(upper)@.len(),
        end - pos <= old(lower)@.len(),
    ensures
        (final(lower)@, final(upper)@) == bounds_after(
            *nums,
            texts(lines@),
            pos as int,
            (end - pos) as nat,
            old(lower)@,
            old(upper)@,
            constraint,
        ),
        final(lower)@.len() == old(lower)@.len(),
        final(upper)@.len() == old(upper)@.len(),
{
    let ghost l0 = lower@;
    let ghost u0 = upper@;
    for i in 0..end - pos
        invariant
            nums.sound(),
            pos <= end <= lines@.len(),
            lower@.len() == l0.len(),
            upper@.len() == u0.len(),
            l0.len() == u0.len(),
            end - pos <= l0.len(),
            (lower@, upper@) == bounds_after(
                *nums,
                texts(lines@),
                pos as int,
                i as nat,
                l0,
                u0,
                constraint,
            ),
    {
        let (l, u): (u64, u64) = read_bounds_line(
            nums,
            &lines[pos + i],
            lower[i],
            upper[i],
            constraint,
        );
        lower.set(i, l);
        upper.set(i, u);
    }
}

/// First word after the segment letter, or a zero.
pub open spec fn segment_word(line: Seq<char>) -> Seq<char> {
    let w = words_of(trimmed(line).skip(1));
    if w.len() == 0 {
        "0"@
    } else {
        w[0]
    }
}

fn first_segment_word(line: &Vec<char>) -> (r: Vec<char>)
    requires
        trimmed(line@).len() > 0,
    ensures
        r@ == segment_word(line@),
{
    let mut w: Vec<Vec<char>> = split_words(&tail(&trim(line)));
    if w.len() == 0 {
        to_chars("0")
    } else {
        w.swap_remove(0)
    }
}

/// The index in a segment header `X<index> ...`.
pub open spec fn segment_index(line: Seq<char>, prefix: char) -> Result<usize, Seq<char>> {
    let w = segment_word(line);
    match count_of(w) {
        Ok(v) => Ok(v),
        Err(f) => Err(
            "Bad "@ + seq![prefix] + " segment index '"@ + w + "': "@ + fault_text(f),
        ),
    }
}

/// Reads the index in a segment header `X<index> ...`.
pub fn parse_segment_index(line: &Vec<char>, prefix: char) -> (r: Result<usize, String>)
    requires
        trimmed(line@).len() > 0,
    ensures
        match r {
            Ok(v) => segment_index(line@, prefix) == Ok::<usize, Seq<char>>(v),
            Err(m) => segment_index(line@, prefix) == Err::<usize, Seq<char>>(m@),
        },
{
    let w: Vec<char> = first_segment_word(line);
    match parse_count(&w) {
        Ok(v) => Ok(v),
        Err(f) => {
            let mut m: String = String::from_str("Bad ");
            m.push(prefix);
            m.append(" segment index '");
            push_chars(&mut m, &w);
            m.append("': ");
            push_fault(&mut m, f);
            assert(m@ =~= "Bad "@ + seq![prefix] + " segment index '"@ + w@ + "': "@
                + fault_text(f));
            Err(m)
        },
    }
}

/// Message for a count that is no number.
pub open spec fn bad_count(w: Seq<char>, f: IntFault) -> Seq<char> {
    "Bad segment count '"@ + w + "': "@ + fault_text(f)
}

fn bad_count_message(w: &Vec<char>, f: IntFault) -> (m: String)
    ensures
        m@ == bad_count(w@, f),
{
    let mut m: String = String::from_str("Bad segment count '");
    push_chars(&mut m, w);
    m.append("': ");
    push_fault(&mut m, f);
    m
}

/// The count in a segment header `x<count>`.
pub open spec fn segment_count(line: Seq<char>) -> Result<usize, Seq<char>> {
    let w = segment_word(line);
    match count_of(w) {
        Ok(v) => Ok(v),
        Err(f) => Err(bad_count(w, f)),
    }
}

/// Reads the count in a segment header `x<count>`.
pub fn parse_segment_count(line: &Vec<char>) -> (r: Result<usize, String>)
    requires
        trimmed(line@).len() > 0,
    ensures
        match r {
            Ok(v) => segment_count(line@) == Ok::<usize, Seq<char>>(v),
            Err(m) => segment_count(line@) == Err::<usize, Seq<char>>(m@),
        },
{
    let w: Vec<char> = first_segment_word(line);
    match parse_count(&w) {
        Ok(v) => Ok(v),
        Err(f) => Err(bad_count_message(&w, f)),
    }
}

/// The count in a segment header `X<index> <count>`; zero where it has none.
pub open spec fn second_count(line: Seq<char>) -> Result<usize, Seq<char>> {
    let w = words_of(line);
    if w.len() >= 2 {
        match count_of(w[1]) {
            Ok(v) => Ok(v),
            Err(f) => Err(bad_count(w[1], f)),
        }
    } else {
        Ok(0)
    }
}

/// Reads the count in a segment header `X<index> <count>`.
pub fn parse_segment_count_after_space(line: &Vec<char>) -> (r: Result<usize, String>)
    ensures
        match r {
            Ok(v) => second_count(line@) == Ok::<usize, Seq<char>>(v),
            Err(m) => second_count(line@) == Err::<usize, Seq<char>>(m@),
        },
{
    let w: Vec<Vec<char>> = split_words(line);
    if w.len() >= 2 {
        match parse_count(&w[1]) {
            Ok(v) => Ok(v),
            Err(f) => Err(bad_count_message(&w[1], f)),
        }
    } else {
        Ok(0)
    }
}

/// How many lines the expression at `start` takes.
pub fn count_consumed(lines: &Vec<Vec<char>>, start: usize) -> (count: usize)
    requires
        start <= lines@.len(),
    ensures
        count == expr_end(texts(lines@), start as int) - start,
{
    count_expr_lines(lines, start)
}

proof fn lemma_trim_end(s: Seq<char>)
    ensures
        s.len() > 0 && !white(s[0]) ==> trim_end(s).len() > 0 && trim_end(s)[0] == s[0],
        trim_end(s).len() > 0 ==> !white(trim_end(s).last()),
    decreases s.len(),
{
    if s.len() > 0 && white(s.last()) {
        lemma_trim_end(s.drop_last());
    }
}

proof fn lemma_trim_start(s: Seq<char>)
    ensures
        trim_start(s).len() > 0 ==> !white(trim_start(s)[0]),
    decreases s.len(),
{
    if s.len() > 0 && white(s[0]) {
        lemma_trim_start(s.skip(1));
    }
}

spec fn all_black(s: Seq<char>) -> bool {
    forall|k: int| 0 <= k < s.len() ==> !white(#[trigger] s[k])
}

proof fn lemma_words(s: Seq<char>, i: nat)
    requires
        i <= s.len(),
    ensures
        forall|k: int|
            0 <= k < words_upto(s, i).0.len() ==> (#[trigger] words_upto(s, i).0[k]).len() > 0
                && all_black(words_upto(s, i).0[k]),
        all_black(words_upto(s, i).1),
        i > 0 && !white(s[0]) ==> words_upto(s, i).0.len() > 0 || words_upto(s, i).1.len() > 0,
    decreases i,
{
    if i > 0 {
        lemma_words(s, (i - 1) as nat);
    }
}

/// A trimmed line stays as it is when trimmed again; where it is not empty, it
/// starts with a word, which trimming leaves as it is too.
proof fn lemma_trimmed(line: Seq<char>)
    ensures
        trimmed(line).len() > 0 ==> {
            &&& trimmed(trimmed(line)) == trimmed(line)
            &&& words_of(trimmed(line)).len() > 0
            &&& words_of(trimmed(line))[0].len() > 0
            &&& trimmed(words_of(trimmed(line))[0]) == words_of(trimmed(line))[0]
        },
{
    let t = trimmed(line);
    let u = trim_start(line);
    lemma_trim_start(line);
    lemma_trim_end(u);
    if t.len() > 0 {
        assert(u.len() > 0) by {
            assert(trim_end(Seq::<char>::empty()) == Seq::<char>::empty());
            if u.len() == 0 {
                assert(u =~= Seq::empty());
            }
        }
        assert(t[0] == u[0]);
        lemma_words(t, t.len());
        let w = words_of(t)[0];
        assert(w.len() > 0 && all_black(w));
        assert(!white(w[0]) && !white(w.last()));
    }
}

/// `C<index>` and an expression: the nonlinear part of a constraint.
pub open spec fn constraint_segment<P: Fn(&Vec<char>) -> Option<u64>>(
    nums: Numbers<P>,
    lines: Seq<Seq<char>>,
    pos: int,
    f: FileModel,
) -> Result<(FileModel, int), Seq<char>> {
    match segment_index(trimmed(lines[pos]), 'C') {
        Err(e) => Err(e),
        Ok(i) => match expr_fault(nums, lines, pos + 1) {
            Some(e) => Err(e),
            None => {
                let con = if i < f.con.len() {
                    f.con.update(i as int, Some(pos + 1))
                } else {
                    f.con
                };
                Ok((FileModel { con, ..f }, expr_end(lines, pos + 1)))
            },
        },
    }
}

/// `O<index> <maximize>` and an expression: the nonlinear part of an objective.
pub open spec fn objective_segment<P: Fn(&Vec<char>) -> Option<u64>>(
    nums: Numbers<P>,
    lines: Seq<Seq<char>>,
    pos: int,
    f: FileModel,
) -> Result<(FileModel, int), Seq<char>> {
    let w = words_of(trimmed(lines[pos]));
    match segment_index(w[0], 'O') {
        Err(e) => Err(e),
        Ok(i) => match expr_fault(nums, lines, pos + 1) {
            Some(e) => Err(e),
            None => Ok(
                (
                    FileModel {
                        obj: f.obj.push((i, word_count_or(w, 1, 0) != 0, Some(pos + 1))),
                        ..f
                    },
                    expr_end(lines, pos + 1),
                ),
            ),
        },
    }
}

/// `V<index> <count> <type>`, `count` linear terms and an expression: the next
/// common expression.
pub open spec fn common_segment<P: Fn(&Vec<char>) -> Option<u64>>(
    nums: Numbers<P>,
    lines: Seq<Seq<char>>,
    pos: int,
    f: FileModel,
) -> Result<(FileModel, int), Seq<char>> {
    let n = word_count_or(words_of(trimmed(lines[pos])), 1, 0);
    let p = rows_end(lines, pos + 1, n as int);
    match expr_fault(nums, lines, p) {
        Some(e) => Err(e),
        None => Ok(
            (
                FileModel {
                    common: f.common.push((pairs_on(nums, lines, pos + 1, p, 0), p)),
                    ..f
                },
                expr_end(lines, p),
            ),
        ),
    }
}

/// `r` and a line for each constraint: the constraint bounds.
pub open spec fn constraint_bounds_segment<P: Fn(&Vec<char>) -> Option<u64>>(
    nums: Numbers<P>,
    lines: Seq<Seq<char>>,
    pos: int,
    f: FileModel,
) -> (FileModel, int) {
    let p = rows_end(lines, pos + 1, f.con.len() as int);
    let (g_l, g_u) = bounds_after(
        nums,
        lines,
        pos + 1,
        (p - pos - 1) as nat,
        f.g_l,
        f.g_u,
        true,
    );
    (FileModel { g_l, g_u, ..f }, p)
}

/// `b` and a line for each variable: the variable bounds.
pub open spec fn variable_bounds_segment<P: Fn(&Vec<char>) -> Option<u64>>(
    nums: Numbers<P>,
    lines: Seq<Seq<char>>,
    pos: int,
    f: FileModel,
) -> (FileModel, int) {
    let p = rows_end(lines, pos + 1, f.x_l.len() as int);
    let (x_l, x_u) = bounds_after(
        nums,
        lines,
        pos + 1,
        (p - pos - 1) as nat,
        f.x_l,
        f.x_u,
        false,
    );
    (FileModel { x_l, x_u, ..f }, p)
}

/// `x<count>` and `count` pairs: initial primal values.
pub open spec fn primal_segment<P: Fn(&Vec<char>) -> Option<u64>>(
    nums: Numbers<P>,
    lines: Seq<Seq<char>>,
    pos: int,
    f: FileModel,
) -> Result<(FileModel, int), Seq<char>> {
    match segment_count(trimmed(lines[pos])) {
        Err(e) => Err(e),
        Ok(n) => {
            let p = rows_end(lines, pos + 1, n as int);
            let x0 = assigned(f.x0, pairs_on(nums, lines, pos + 1, p, 0));
            Ok((FileModel { x0, ..f }, p))
        },
    }
}

/// `d<count>` and `count` pairs: initial dual values.
pub open spec fn dual_segment<P: Fn(&Vec<char>) -> Option<u64>>(
    nums: Numbers<P>,
    lines: Seq<Seq<char>>,
    pos: int,
    f: FileModel,
) -> Result<(FileModel, int), Seq<char>> {
    match segment_count(trimmed(lines[pos])) {
        Err(e) => Err(e),
        Ok(n) => {
            let p = rows_end(lines, pos + 1, n as int);
            let y0 = assigned(f.y0, pairs_on(nums, lines, pos + 1, p, 0));
            Ok((FileModel { y0, ..f }, p))
        },
    }
}

/// The counts on lines `pos` to `end`; zero where a line holds none.
pub open spec fn counts_on(lines: Seq<Seq<char>>, pos: int, end: int) -> Seq<usize>
    decreases end - pos,
{
    if end <= pos {
        Seq::empty()
    } else {
        counts_on(lines, pos, end - 1).push(count_or(trimmed(lines[end - 1]), 0))
    }
}

/// `k<count>` and `count` numbers: cumulative column counts of the Jacobian.
pub open spec fn columns_segment<P: Fn(&Vec<char>) -> Option<u64>>(
    nums: Numbers<P>,
    lines: Seq<Seq<char>>,
    pos: int,
    f: FileModel,
) -> Result<(FileModel, int), Seq<char>> {
    match segment_count(trimmed(lines[pos])) {
        Err(e) => Err(e),
        Ok(n) => {
            let p = rows_end(lines, pos + 1, n as int);
            Ok((FileModel { jac_col_ptrs: counts_on(lines, pos + 1, p), ..f }, p))
        },
    }
}

/// `J<index> <count>` and `count` pairs: the linear part of a constraint.
pub open spec fn jacobian_segment<P: Fn(&Vec<char>) -> Option<u64>>(
    nums: Numbers<P>,
    lines: Seq<Seq<char>>,
    pos: int,
    f: FileModel,
) -> Result<(FileModel, int), Seq<char>> {
    match segment_index(trimmed(lines[pos]), 'J') {
        Err(e) => Err(e),
        Ok(i) => match second_count(trimmed(lines[pos])) {
            Err(e) => Err(e),
            Ok(n) => {
                let p = rows_end(lines, pos + 1, n as int);
                let con_linear = if i < f.con_linear.len() {
                    f.con_linear.update(
                        i as int,
                        f.con_linear[i as int] + pairs_on(nums, lines, pos + 1, p, 0),
                    )
                } else {
                    f.con_linear
                };
                Ok((FileModel { con_linear, ..f }, p))
            },
        },
    }
}

/// `list` with empty lists behind it, up to length `n`.
pub open spec fn padded(list: Seq<Seq<(usize, u64)>>, n: int) -> Seq<Seq<(usize, u64)>> {
    if list.len() >= n {
        list
    } else {
        list + Seq::new((n - list.len()) as nat, |i: int| Seq::empty())
    }
}

/// `G<index> <count>` and `count` pairs: the linear part of an objective.
pub open spec fn gradient_segment<P: Fn(&Vec<char>) -> Option<u64>>(
    nums: Numbers<P>,
    lines: Seq<Seq<char>>,
    pos: int,
    f: FileModel,
) -> Result<(FileModel, int), Seq<char>> {
    match segment_index(trimmed(lines[pos]), 'G') {
        Err(e) => Err(e),
        Ok(i) => match second_count(trimmed(lines[pos])) {
            Err(e) => Err(e),
            Ok(n) => {
                let p = rows_end(lines, pos + 1, n as int);
                let list = padded(f.obj_linear, i + 1);
                let obj_linear = list.update(
                    i as int,
                    list[i as int] + pairs_on(nums, lines, pos + 1, p, 0),
                );
                Ok((FileModel { obj_linear, ..f }, p))
            },
        },
    }
}

/// The pairs whose index is a number.
pub open spec fn indexed(pairs: Seq<(usize, u64)>) -> Seq<(usize, u64)>
    decreases pairs.len(),
{
    if pairs.len() == 0 {
        Seq::empty()
    } else if pairs.last().0 == usize::MAX {
        indexed(pairs.drop_last())
    } else {
        indexed(pairs.drop_last()).push(pairs.last())
    }
}

pub open spec fn flags_of(word: Seq<char>) -> nat {
    match natural_of(word.skip(1), u32::MAX as nat) {
        Ok(v) => v,
        Err(_) => 0,
    }
}

pub open spec fn kind_of(flags: nat) -> SuffixKind {
    if flags % 4 == 0 {
        SuffixKind::Variable
    } else if flags % 4 == 1 {
        SuffixKind::Constraint
    } else if flags % 4 == 2 {
        SuffixKind::Objective
    } else {
        SuffixKind::Problem
    }
}

/// `S<flags> <count> <name>` and `count` pairs: a suffix.
pub open spec fn suffix_segment<P: Fn(&Vec<char>) -> Option<u64>>(
    nums: Numbers<P>,
    lines: Seq<Seq<char>>,
    pos: int,
    f: FileModel,
) -> (FileModel, int) {
    let w = words_of(trimmed(lines[pos]));
    let p = rows_end(lines, pos + 1, word_count_or(w, 1, 0) as int);
    let suffix = SuffixModel {
        name: word_or_empty(w, 2),
        kind: kind_of(flags_of(w[0])),
        float_valued: (flags_of(w[0]) / 4) % 2 == 1,
        entries: indexed(pairs_on(nums, lines, pos + 1, p, usize::MAX)),
    };
    (FileModel { suffixes: f.suffixes.push(suffix), ..f }, p)
}

/// `F<id> <kind> <nargs> <name>`: an imported function.
pub open spec fn function_segment<P: Fn(&Vec<char>) -> Option<u64>>(
    nums: Numbers<P>,
    lines: Seq<Seq<char>>,
    pos: int,
    f: FileModel,
) -> Result<(FileModel, int), Seq<char>> {
    let w = words_of(trimmed(lines[pos]));
    match segment_index(w[0], 'F') {
        Err(e) => Err(e),
        Ok(id) => {
            let func = FuncModel {
                id,
                kind: word_count_or(w, 1, 0),
                nargs: if w.len() > 2 {
                    signed_or_zero(w[2])
                } else {
                    0
                },
                name: word_or_empty(w, 3),
            };
            Ok((FileModel { funcs: f.funcs.push(func), ..f }, pos + 1))
        },
    }
}

/// What the segment at `pos` adds to `f`, and the line after it. Empty lines
/// and unknown segments are skipped.
pub open spec fn segment<P: Fn(&Vec<char>) -> Option<u64>>(
    nums: Numbers<P>,
    lines: Seq<Seq<char>>,
    pos: int,
    f: FileModel,
) -> Result<(FileModel, int), Seq<char>> {
    let c = letter(trimmed(lines[pos]));
    if c == 'C' {
        constraint_segment(nums, lines, pos, f)
    } else if c == 'O' {
        objective_segment(nums, lines, pos, f)
    } else if c == 'V' {
        common_segment(nums, lines, pos, f)
    } else if c == 'r' {
        Ok(constraint_bounds_segment(nums, lines, pos, f))
    } else if c == 'b' {
        Ok(variable_bounds_segment(nums, lines, pos, f))
    } else if c == 'x' {
        primal_segment(nums, lines, pos, f)
    } else if c == 'd' {
        dual_segment(nums, lines, pos, f)
    } else if c == 'k' {
        columns_segment(nums, lines, pos, f)
    } else if c == 'J' {
        jacobian_segment(nums, lines, pos, f)
    } else if c == 'G' {
        gradient_segment(nums, lines, pos, f)
    } else if c == 'S' {
        Ok(suffix_segment(nums, lines, pos, f))
    } else if c == 'F' {
        function_segment(nums, lines, pos, f)
    } else {
        Ok((f, pos + 1))
    }
}

/// What the segments from `pos` on add to `f`.
pub open spec fn segments<P: Fn(&Vec<char>) -> Option<u64>>(
    nums: Numbers<P>,
    lines: Seq<Seq<char>>,
    pos: int,
    f: FileModel,
) -> Result<FileModel, Seq<char>>
    decreases lines.len() - pos,
{
    if pos >= lines.len() {
        Ok(f)
    } else {
        match segment(nums, lines, pos, f) {
            Err(e) => Err(e),
            Ok((g, p)) => if pos < p < lines.len() {
                segments(nums, lines, p, g)
            } else {
                Ok(g)
            },
        }
    }
}

/// Fills in an objective where the segments have none.
pub open spec fn completed(f: FileModel) -> FileModel {
    FileModel {
        obj: if f.obj.len() == 0 {
            seq![(0usize, false, None)]
        } else {
            f.obj
        },
        obj_linear: if f.obj_linear.len() == 0 {
            seq![Seq::empty()]
        } else {
            f.obj_linear
        },
        ..f
    }
}

/// Lines of the header.
pub const HEADER_LINES: usize = 10;

/// The header: its first line starts with a `g`, and its second one holds the
/// numbers of variables, constraints and objectives.
pub open spec fn header_of(lines: Seq<Seq<char>>) -> Result<NlHeader, Seq<char>> {
    if lines.len() < HEADER_LINES {
        Err("Incomplete header"@)
    } else if letter(trimmed(lines[0])) != 'g' {
        Err("Not a text file"@)
    } else {
        let w = words_of(token_of(lines[1]));
        if w.len() >= 3 && count_of(w[0]) is Ok && count_of(w[1]) is Ok && count_of(w[2]) is Ok {
            Ok(
                NlHeader {
                    n_vars: count_or(w[0], 0),
                    n_constrs: count_or(w[1], 0),
                    n_objs: count_or(w[2], 0),
                },
            )
        } else {
            Err("Bad header line"@)
        }
    }
}

/// Reads the header.
pub fn parse_header(lines: &Vec<Vec<char>>) -> (r: Result<NlHeader, String>)
    ensures
        match r {
            Ok(h) => header_of(texts(lines@)) == Ok::<NlHeader, Seq<char>>(h),
            Err(m) => header_of(texts(lines@)) == Err::<NlHeader, Seq<char>>(m@),
        },
{
    if lines.len() < HEADER_LINES {
        return Err(String::from_str("Incomplete header"));
    }
    let first: Vec<char> = trim(&lines[0]);
    if first.len() == 0 || first[0] != 'g' {
        return Err(String::from_str("Not a text file"));
    }
    let w: Vec<Vec<char>> = split_words(&token(&lines[1]));
    if w.len() >= 3 {
        match (parse_count(&w[0]), parse_count(&w[1]), parse_count(&w[2])) {
            (Ok(n_vars), Ok(n_constrs), Ok(n_objs)) => {
                return Ok(NlHeader { n_vars, n_constrs, n_objs });
            },
            _ => {},
        }
    }
    Err(String::from_str("Bad header line"))
}

/// The contents of an `.nl` text, or what is wrong with it.
pub open spec fn file_of<P: Fn(&Vec<char>) -> Option<u64>>(
    nums: Numbers<P>,
    text: Seq<char>,
) -> Result<(NlHeader, FileModel), Seq<char>> {
    let lines = lines_of(text);
    match header_of(lines) {
        Err(e) => Err(e),
        Ok(h) => match segments(
            nums,
            lines,
            HEADER_LINES as int,
            blank(h.n_vars as nat, h.n_constrs as nat),
        ) {
            Err(e) => Err(e),
            Ok(f) => Ok((h, completed(f))),
        },
    }
}

/// The outcome of one segment.
spec fn segment_done<P: Fn(&Vec<char>) -> Option<u64>>(
    nums: Numbers<P>,
    lines: Seq<Seq<char>>,
    pos: int,
    f: FileModel,
    data: NlFileData,
    r: Result<usize, String>,
    says: Result<(FileModel, int), Seq<char>>,
) -> bool {
    match r {
        Ok(p) => {
            &&& says matches Ok((g, q))
            &&& q == p
            &&& pos < p <= lines.len()
            &&& data.holds(nums, lines, g)
            &&& sized(g, f.x_l.len(), f.con.len())
        },
        Err(m) => says == Err::<(FileModel, int), Seq<char>>(m@),
    }
}

/// The lengths of the lists that have an entry per variable or constraint.
spec fn sized(f: FileModel, n: nat, m: nat) -> bool {
    &&& f.con.len() == m
    &&& f.con_linear.len() == m
    &&& f.x_l.len() == n
    &&& f.x_u.len() == n
    &&& f.g_l.len() == m
    &&& f.g_u.len() == m
}

/// Reads a `C` segment.
fn read_constraint<P: Fn(&Vec<char>) -> Option<u64>>(
    data: &mut NlFileData,
    nums: &Numbers<P>,
    lines: &Vec<Vec<char>>,
    pos: usize,
    line: &Vec<char>,
    Ghost(f): Ghost<FileModel>,
) -> (r: Result<usize, String>)
    requires
        nums.sound(),
        pos < lines@.len(),
        line@ == trimmed(texts(lines@)[pos as int]),
        line@.len() > 0,
        old(data).holds(*nums, texts(lines@), f),
        sized(f, f.x_l.len(), f.con.len()),
    ensures
        final(data).header == old(data).header,
        segment_done(
            *nums,
            texts(lines@),
            pos as int,
            f,
            *final(data),
            r,
            constraint_segment(*nums, texts(lines@), pos as int, f),
        ),
{
    let ghost ls = texts(lines@);
    let total: usize = lines.len();
    assert(pos < total);
    proof {
        lemma_trimmed(ls[pos as int]);
    }
    match parse_segment_index(line, 'C') {
        Err(m) => Err(m),
        Ok(i) => {
            match parse_expr(nums, lines, pos + 1) {
                Err(m) => Err(m),
                Ok(e) => {
                    let consumed: usize = count_consumed(lines, pos + 1);
                    proof {
                        lemma_expr_end(ls, pos + 1);
                    }
                    if i < data.con_exprs.len() {
                        data.con_exprs.set(i, Some(e));
                    }
                    Ok(pos + 1 + consumed)
                },
            }
        },
    }
}

/// Reads an `O` segment.
fn read_objective<P: Fn(&Vec<char>) -> Option<u64>>(
    data: &mut NlFileData,
    nums: &Numbers<P>,
    lines: &Vec<Vec<char>>,
    pos: usize,
    line: &Vec<char>,
    Ghost(f): Ghost<FileModel>,
) -> (r: Result<usize, String>)
    requires
        nums.sound(),
        pos < lines@.len(),
        line@ == trimmed(texts(lines@)[pos as int]),
        line@.len() > 0,
        old(data).holds(*nums, texts(lines@), f),
        sized(f, f.x_l.len(), f.con.len()),
    ensures
        final(data).header == old(data).header,
        segment_done(
            *nums,
            texts(lines@),
            pos as int,
            f,
            *final(data),
            r,
            objective_segment(*nums, texts(lines@), pos as int, f),
        ),
{
    let ghost ls = texts(lines@);
    let total: usize = lines.len();
    assert(pos < total);
    proof {
        lemma_trimmed(ls[pos as int]);
    }
    let w: Vec<Vec<char>> = split_words(line);
    assert(w@[0]@ == texts(w@)[0]);
    match parse_segment_index(&w[0], 'O') {
        Err(m) => Err(m),
        Ok(i) => {
            let maximize: bool = parse_word_count_or(&w, 1, 0) != 0;
            match parse_expr(nums, lines, pos + 1) {
                Err(m) => Err(m),
                Ok(e) => {
                    let consumed: usize = count_consumed(lines, pos + 1);
                    proof {
                        lemma_expr_end(ls, pos + 1);
                    }
                    data.obj_exprs.push((i, maximize, Some(e)));
                    Ok(pos + 1 + consumed)
                },
            }
        },
    }
}

/// Builds a linear term.
fn term(pair: (usize, u64)) -> (e: ExprNode)
    ensures
        is_term(e, pair),
{
    if crate::float::eq(pair.1, ONE) {
        ExprNode::Var(pair.0)
    } else {
        ExprNode::Binary(
            BinaryOp::Mul,
            Box::new(ExprNode::Const(pair.1)),
            Box::new(ExprNode::Var(pair.0)),
        )
    }
}

/// Builds the sum of linear terms.
fn sum_of_terms(terms: &Vec<(usize, u64)>) -> (e: Option<ExprNode>)
    ensures
        match e {
            Some(e) => terms@.len() > 0 && is_sum(e, terms@),
            None => terms@.len() == 0,
        },
{
    if terms.len() == 0 {
        return None;
    }
    let mut e: ExprNode = term(terms[0]);
    for i in 1..terms.len()
        invariant
            1 <= i <= terms@.len(),
            is_sum(e, terms@.take(i as int)),
    {
        proof {
            assert(terms@.take(i + 1).drop_last() =~= terms@.take(i as int));
        }
        e = ExprNode::Binary(BinaryOp::Add, Box::new(e), Box::new(term(terms[i])));
    }
    assert(terms@.take(terms@.len() as int) =~= terms@);
    Some(e)
}

/// Combines the linear terms and the nonlinear part.
fn combine<P: Fn(&Vec<char>) -> Option<u64>>(
    nums: &Numbers<P>,
    Ghost(lines): Ghost<Seq<Seq<char>>>,
    Ghost(pos): Ghost<int>,
    terms: &Vec<(usize, u64)>,
    nonlinear: ExprNode,
) -> (e: ExprNode)
    requires
        reads_as(*nums, lines, pos, nonlinear),
    ensures
        is_common(*nums, lines, e, terms@, pos),
{
    match sum_of_terms(terms) {
        None => nonlinear,
        Some(sum) => {
            let zero: bool = match &nonlinear {
                ExprNode::Const(c) => crate::float::eq(*c, ZERO),
                _ => false,
            };
            if zero {
                sum
            } else {
                ExprNode::Binary(BinaryOp::Add, Box::new(sum), Box::new(nonlinear))
            }
        },
    }
}

/// Reads a `V` segment.
fn read_common<P: Fn(&Vec<char>) -> Option<u64>>(
    data: &mut NlFileData,
    nums: &Numbers<P>,
    lines: &Vec<Vec<char>>,
    pos: usize,
    line: &Vec<char>,
    Ghost(f): Ghost<FileModel>,
) -> (r: Result<usize, String>)
    requires
        nums.sound(),
        pos < lines@.len(),
        line@ == trimmed(texts(lines@)[pos as int]),
        line@.len() > 0,
        old(data).holds(*nums, texts(lines@), f),
        sized(f, f.x_l.len(), f.con.len()),
    ensures
        final(data).header == old(data).header,
        segment_done(
            *nums,
            texts(lines@),
            pos as int,
            f,
            *final(data),
            r,
            common_segment(*nums, texts(lines@), pos as int, f),
        ),
{
    let ghost ls = texts(lines@);
    let total: usize = lines.len();
    assert(pos < total);
    proof {
        lemma_trimmed(ls[pos as int]);
    }
    let w: Vec<Vec<char>> = split_words(line);
    let n: usize = parse_word_count_or(&w, 1, 0);
    let p: usize = after_rows(lines, pos + 1, n);
    let terms: Vec<(usize, u64)> = read_pairs(nums, lines, pos + 1, p, 0);
    match parse_expr(nums, lines, p) {
        Err(m) => Err(m),
        Ok(e) => {
            let consumed: usize = count_consumed(lines, p);
            proof {
                lemma_expr_end(ls, p as int);
            }
            data.common_exprs.push(combine(nums, Ghost(ls), Ghost(p as int), &terms, e));
            Ok(p + consumed)
        },
    }
}

/// Reads an `r` segment.
fn read_constraint_bounds<P: Fn(&Vec<char>) -> Option<u64>>(
    data: &mut NlFileData,
    nums: &Numbers<P>,
    lines: &Vec<Vec<char>>,
    pos: usize,
    line: &Vec<char>,
    Ghost(f): Ghost<FileModel>,
) -> (r: Result<usize, String>)
    requires
        nums.sound(),
        pos < lines@.len(),
        line@ == trimmed(texts(lines@)[pos as int]),
        line@.len() > 0,
        old(data).holds(*nums, texts(lines@), f),
        sized(f, f.x_l.len(), f.con.len()),
    ensures
        final(data).header == old(data).header,
        segment_done(
            *nums,
            texts(lines@),
            pos as int,
            f,
            *final(data),
            r,
            Ok(constraint_bounds_segment(*nums, texts(lines@), pos as int, f)),
        ),
{
    let ghost ls = texts(lines@);
    let total: usize = lines.len();
    assert(pos < total);
    proof {
        lemma_trimmed(ls[pos as int]);
    }
    let p: usize = after_rows(lines, pos + 1, data.con_exprs.len());
    read_bounds(nums, lines, pos + 1, p, &mut data.g_l, &mut data.g_u, true);
    Ok(p)
}

/// Reads a `b` segment.
fn read_variable_bounds<P: Fn(&Vec<char>) -> Option<u64>>(
    data: &mut NlFileData,
    nums: &Numbers<P>,
    lines: &Vec<Vec<char>>,
    pos: usize,
    line: &Vec<char>,
    Ghost(f): Ghost<FileModel>,
) -> (r: Result<usize, String>)
    requires
        nums.sound(),
        pos < lines@.len(),
        line@ == trimmed(texts(lines@)[pos as int]),
        line@.len() > 0,
        old(data).holds(*nums, texts(lines@), f),
        sized(f, f.x_l.len(), f.con.len()),
    ensures
        final(data).header == old(data).header,
        segment_done(
            *nums,
            texts(lines@),
            pos as int,
            f,
            *final(data),
            r,
            Ok(variable_bounds_segment(*nums, texts(lines@), pos as int, f)),
        ),
{
    let ghost ls = texts(lines@);
    let total: usize = lines.len();
    assert(pos < total);
    proof {
        lemma_trimmed(ls[pos as int]);
    }
    let p: usize = after_rows(lines, pos + 1, data.x_l.len());
    read_bounds(nums, lines, pos + 1, p, &mut data.x_l, &mut data.x_u, false);
    Ok(p)
}

/// Reads an `x` segment.
fn read_primal<P: Fn(&Vec<char>) -> Option<u64>>(
    data: &mut NlFileData,
    nums: &Numbers<P>,
    lines: &Vec<Vec<char>>,
    pos: usize,
    line: &Vec<char>,
    Ghost(f): Ghost<FileModel>,
) -> (r: Result<usize, String>)
    requires
        nums.sound(),
        pos < lines@.len(),
        line@ == trimmed(texts(lines@)[pos as int]),
        line@.len() > 0,
        old(data).holds(*nums, texts(lines@), f),
        sized(f, f.x_l.len(), f.con.len()),
    ensures
        final(data).header == old(data).header,
        segment_done(
            *nums,
            texts(lines@),
            pos as int,
            f,
            *final(data),
            r,
            primal_segment(*nums, texts(lines@), pos as int, f),
        ),
{
    let ghost ls = texts(lines@);
    let total: usize = lines.len();
    assert(pos < total);
    proof {
        lemma_trimmed(ls[pos as int]);
    }
    match parse_segment_count(line) {
        Err(m) => Err(m),
        Ok(n) => {
            let p: usize = after_rows(lines, pos + 1, n);
            let pairs: Vec<(usize, u64)> = read_pairs(nums, lines, pos + 1, p, 0);
            assign(&mut data.x0, &pairs);
            Ok(p)
        },
    }
}

/// Reads a `d` segment.
fn read_dual<P: Fn(&Vec<char>) -> Option<u64>>(
    data: &mut NlFileData,
    nums: &Numbers<P>,
    lines: &Vec<Vec<char>>,
    pos: usize,
    line: &Vec<char>,
    Ghost(f): Ghost<FileModel>,
) -> (r: Result<usize, String>)
    requires
        nums.sound(),
        pos < lines@.len(),
        line@ == trimmed(texts(lines@)[pos as int]),
        line@.len() > 0,
        old(data).holds(*nums, texts(lines@), f),
        sized(f, f.x_l.len(), f.con.len()),
    ensures
        final(data).header == old(data).header,
        segment_done(
            *nums,
            texts(lines@),
            pos as int,
            f,
            *final(data),
            r,
            dual_segment(*nums, texts(lines@), pos as int, f),
        ),
{
    let ghost ls = texts(lines@);
    let total: usize = lines.len();
    assert(pos < total);
    proof {
        lemma_trimmed(ls[pos as int]);
    }
    match parse_segment_count(line) {
        Err(m) => Err(m),
        Ok(n) => {
            let p: usize = after_rows(lines, pos + 1, n);
            let pairs: Vec<(usize, u64)> = read_pairs(nums, lines, pos + 1, p, 0);
            assign(&mut data.y0, &pairs);
            Ok(p)
        },
    }
}

/// Reads a `k` segment.
fn read_columns<P: Fn(&Vec<char>) -> Option<u64>>(
    data: &mut NlFileData,
    nums: &Numbers<P>,
    lines: &Vec<Vec<char>>,
    pos: usize,
    line: &Vec<char>,
    Ghost(f): Ghost<FileModel>,
) -> (r: Result<usize, String>)
    requires
        nums.sound(),
        pos < lines@.len(),
        line@ == trimmed(texts(lines@)[pos as int]),
        line@.len() > 0,
        old(data).holds(*nums, texts(lines@), f),
        sized(f, f.x_l.len(), f.con.len()),
    ensures
        final(data).header == old(data).header,
        segment_done(
            *nums,
            texts(lines@),
            pos as int,
            f,
            *final(data),
            r,
            columns_segment(*nums, texts(lines@), pos as int, f),
        ),
{
    let ghost ls = texts(lines@);
    let total: usize = lines.len();
    assert(pos < total);
    proof {
        lemma_trimmed(ls[pos as int]);
    }
    match parse_segment_count(line) {
        Err(m) => Err(m),
        Ok(n) => {
            let p: usize = after_rows(lines, pos + 1, n);
            let mut ptrs: Vec<usize> = Vec::new();
            for i in pos + 1..p
                invariant
                    ls == texts(lines@),
                    pos + 1 <= i <= p <= lines@.len(),
                    ptrs@ == counts_on(ls, pos + 1, i as int),
            {
                ptrs.push(parse_count_or(&trim(&lines[i]), 0));
            }
            data.jac_col_ptrs = ptrs;
            Ok(p)
        },
    }
}

/// The list with the pairs behind it.
fn extended(list: &Vec<(usize, u64)>, pairs: &Vec<(usize, u64)>) -> (r: Vec<(usize, u64)>)
    ensures
        r@ == list@ + pairs@,
{
    let mut r: Vec<(usize, u64)> = Vec::new();
    for i in 0..list.len()
        invariant
            r@ == list@.take(i as int),
    {
        r.push(list[i]);
        assert(r@ =~= list@.take(i + 1));
    }
    assert(r@ =~= list@ + pairs@.take(0));
    for i in 0..pairs.len()
        invariant
            r@ == list@ + pairs@.take(i as int),
    {
        r.push(pairs[i]);
        assert(r@ =~= list@ + pairs@.take(i + 1));
    }
    assert(pairs@.take(pairs@.len() as int) =~= pairs@);
    r
}

/// Reads a `J` segment.
fn read_jacobian<P: Fn(&Vec<char>) -> Option<u64>>(
    data: &mut NlFileData,
    nums: &Numbers<P>,
    lines: &Vec<Vec<char>>,
    pos: usize,
    line: &Vec<char>,
    Ghost(f): Ghost<FileModel>,
) -> (r: Result<usize, String>)
    requires
        nums.sound(),
        pos < lines@.len(),
        line@ == trimmed(texts(lines@)[pos as int]),
        line@.len() > 0,
        old(data).holds(*nums, texts(lines@), f),
        sized(f, f.x_l.len(), f.con.len()),
    ensures
        final(data).header == old(data).header,
        segment_done(
            *nums,
            texts(lines@),
            pos as int,
            f,
            *final(data),
            r,
            jacobian_segment(*nums, texts(lines@), pos as int, f),
        ),
{
    let ghost ls = texts(lines@);
    let total: usize = lines.len();
    assert(pos < total);
    proof {
        lemma_trimmed(ls[pos as int]);
    }
    match parse_segment_index(line, 'J') {
        Err(m) => Err(m),
        Ok(i) => match parse_segment_count_after_space(line) {
            Err(m) => Err(m),
            Ok(n) => {
                let p: usize = after_rows(lines, pos + 1, n);
                if i < data.con_linear.len() {
                    let pairs: Vec<(usize, u64)> = read_pairs(nums, lines, pos + 1, p, 0);
                    let row: Vec<(usize, u64)> = extended(&data.con_linear[i], &pairs);
                    let ghost before = data.con_linear@;
                    data.con_linear.set(i, row);
                    assert(lists(data.con_linear@) =~= lists(before).update(i as int, row@));
                }
                Ok(p)
            },
        },
    }
}

/// Reads a `G` segment.
fn read_gradient<P: Fn(&Vec<char>) -> Option<u64>>(
    data: &mut NlFileData,
    nums: &Numbers<P>,
    lines: &Vec<Vec<char>>,
    pos: usize,
    line: &Vec<char>,
    Ghost(f): Ghost<FileModel>,
) -> (r: Result<usize, String>)
    requires
        nums.sound(),
        pos < lines@.len(),
        line@ == trimmed(texts(lines@)[pos as int]),
        line@.len() > 0,
        old(data).holds(*nums, texts(lines@), f),
        sized(f, f.x_l.len(), f.con.len()),
    ensures
        final(data).header == old(data).header,
        segment_done(
            *nums,
            texts(lines@),
            pos as int,
            f,
            *final(data),
            r,
            gradient_segment(*nums, texts(lines@), pos as int, f),
        ),
{
    let ghost ls = texts(lines@);
    let total: usize = lines.len();
    assert(pos < total);
    proof {
        lemma_trimmed(ls[pos as int]);
    }
    match parse_segment_index(line, 'G') {
        Err(m) => Err(m),
        Ok(i) => match parse_segment_count_after_space(line) {
            Err(m) => Err(m),
            Ok(n) => {
                let p: usize = after_rows(lines, pos + 1, n);
                let ghost start = data.obj_linear@;
                while data.obj_linear.len() <= i
                    invariant
                        start.len() <= data.obj_linear@.len(),
                        data.obj_linear@.len() <= start.len() || data.obj_linear@.len() <= i + 1,
                        lists(data.obj_linear@) == padded(
                            lists(start),
                            data.obj_linear@.len() as int,
                        ),
                        *data == (NlFileData { obj_linear: data.obj_linear, ..*old(data) }),
                    decreases i + 1 - data.obj_linear@.len(),
                {
                    let ghost before = data.obj_linear@;
                    let fresh: Vec<(usize, u64)> = Vec::new();
                    assert(fresh@ =~= Seq::empty());
                    data.obj_linear.push(fresh);
                    let ghost want = padded(lists(start), data.obj_linear@.len() as int);
                    assert forall|k: int| 0 <= k < want.len() implies lists(data.obj_linear@)[k]
                        == want[k] by {
                        if k < before.len() {
                            assert(lists(before)[k] == lists(data.obj_linear@)[k]);
                            assert(padded(lists(start), before.len() as int)[k] == want[k]);
                        }
                    }
                    assert(lists(data.obj_linear@) =~= want);
                }
                let ghost list = padded(f.obj_linear, i + 1);
                assert(lists(data.obj_linear@) =~= list);
                let pairs: Vec<(usize, u64)> = read_pairs(nums, lines, pos + 1, p, 0);
                let row: Vec<(usize, u64)> = extended(&data.obj_linear[i], &pairs);
                let ghost before = data.obj_linear@;
                data.obj_linear.set(i, row);
                assert(lists(data.obj_linear@) =~= lists(before).update(i as int, row@));
                Ok(p)
            },
        },
    }
}

/// Leaves out the pairs whose index is no number.
fn keep_indexed(pairs: &Vec<(usize, u64)>) -> (r: Vec<(usize, u64)>)
    ensures
        r@ == indexed(pairs@),
{
    let mut r: Vec<(usize, u64)> = Vec::new();
    assert(pairs@.take(0) =~= Seq::empty());
    for i in 0..pairs.len()
        invariant
            r@ == indexed(pairs@.take(i as int)),
    {
        proof {
            assert(pairs@.take(i + 1).drop_last() =~= pairs@.take(i as int));
        }
        if pairs[i].0 != usize::MAX {
            r.push(pairs[i]);
        }
    }
    assert(pairs@.take(pairs@.len() as int) =~= pairs@);
    r
}

/// Reads an `S` segment.
fn read_suffix<P: Fn(&Vec<char>) -> Option<u64>>(
    data: &mut NlFileData,
    nums: &Numbers<P>,
    lines: &Vec<Vec<char>>,
    pos: usize,
    line: &Vec<char>,
    Ghost(f): Ghost<FileModel>,
) -> (r: Result<usize, String>)
    requires
        nums.sound(),
        pos < lines@.len(),
        line@ == trimmed(texts(lines@)[pos as int]),
        line@.len() > 0,
        old(data).holds(*nums, texts(lines@), f),
        sized(f, f.x_l.len(), f.con.len()),
    ensures
        final(data).header == old(data).header,
        segment_done(
            *nums,
            texts(lines@),
            pos as int,
            f,
            *final(data),
            r,
            Ok(suffix_segment(*nums, texts(lines@), pos as int, f)),
        ),
{
    let ghost ls = texts(lines@);
    let total: usize = lines.len();
    assert(pos < total);
    proof {
        lemma_trimmed(ls[pos as int]);
    }
    let w: Vec<Vec<char>> = split_words(line);
    assert(w@[0]@ == texts(w@)[0]);
    let flags: u64 = match parse_natural(&tail(&w[0]), 0xffff_ffff) {
        Ok(v) => v,
        Err(_) => 0,
    };
    let n: usize = parse_word_count_or(&w, 1, 0);
    let name: String = word_string(&w, 2);
    let kind: SuffixKind = match flags % 4 {
        0 => SuffixKind::Variable,
        1 => SuffixKind::Constraint,
        2 => SuffixKind::Objective,
        _ => SuffixKind::Problem,
    };
    let p: usize = after_rows(lines, pos + 1, n);
    let pairs: Vec<(usize, u64)> = read_pairs(nums, lines, pos + 1, p, usize::MAX);
    let entries: Vec<(usize, u64)> = keep_indexed(&pairs);
    let ghost before = data.suffixes@;
    data.suffixes.push(NlSuffix { name, kind, float_valued: (flags / 4) % 2 == 1, entries });
    assert(suffix_models(data.suffixes@) =~= suffix_models(before).push(
        suffix_model(data.suffixes@.last()),
    ));
    Ok(p)
}

/// Reads an `F` segment.
fn read_function<P: Fn(&Vec<char>) -> Option<u64>>(
    data: &mut NlFileData,
    nums: &Numbers<P>,
    lines: &Vec<Vec<char>>,
    pos: usize,
    line: &Vec<char>,
    Ghost(f): Ghost<FileModel>,
) -> (r: Result<usize, String>)
    requires
        nums.sound(),
        pos < lines@.len(),
        line@ == trimmed(texts(lines@)[pos as int]),
        line@.len() > 0,
        old(data).holds(*nums, texts(lines@), f),
        sized(f, f.x_l.len(), f.con.len()),
    ensures
        final(data).header == old(data).header,
        segment_done(
            *nums,
            texts(lines@),
            pos as int,
            f,
            *final(data),
            r,
            function_segment(*nums, texts(lines@), pos as int, f),
        ),
{
    let ghost ls = texts(lines@);
    let total: usize = lines.len();
    assert(pos < total);
    proof {
        lemma_trimmed(ls[pos as int]);
    }
    let w: Vec<Vec<char>> = split_words(line);
    assert(w@[0]@ == texts(w@)[0]);
    match parse_segment_index(&w[0], 'F') {
        Err(m) => Err(m),
        Ok(id) => {
            let kind: usize = parse_word_count_or(&w, 1, 0);
            let nargs: i64 = if w.len() > 2 {
                parse_signed_or_zero(&w[2])
            } else {
                0
            };
            let name: String = word_string(&w, 3);
            let ghost before = data.imported_funcs@;
            data.imported_funcs.push(ImportedFunc { id, kind, nargs, name });
            assert(func_models(data.imported_funcs@) =~= func_models(before).push(
                func_model(data.imported_funcs@.last()),
            ));
            Ok(pos + 1)
        },
    }
}

/// Reads the segment that a line starts.
fn read_segment<P: Fn(&Vec<char>) -> Option<u64>>(
    data: &mut NlFileData,
    nums: &Numbers<P>,
    lines: &Vec<Vec<char>>,
    pos: usize,
    line: &Vec<char>,
    Ghost(f): Ghost<FileModel>,
) -> (r: Result<usize, String>)
    requires
        nums.sound(),
        pos < lines@.len(),
        line@ == trimmed(texts(lines@)[pos as int]),
        line@.len() > 0,
        old(data).holds(*nums, texts(lines@), f),
        sized(f, f.x_l.len(), f.con.len()),
    ensures
        final(data).header == old(data).header,
        segment_done(
            *nums,
            texts(lines@),
            pos as int,
            f,
            *final(data),
            r,
            segment(*nums, texts(lines@), pos as int, f),
        ),
{
    let ghost ls = texts(lines@);
    let total: usize = lines.len();
    assert(pos < total);
    proof {
        lemma_trimmed(ls[pos as int]);
    }
    let c: char = line[0];
    if c == 'C' {
        read_constraint(data, nums, lines, pos, line, Ghost(f))
    } else if c == 'O' {
        read_objective(data, nums, lines, pos, line, Ghost(f))
    } else if c == 'V' {
        read_common(data, nums, lines, pos, line, Ghost(f))
    } else if c == 'r' {
        read_constraint_bounds(data, nums, lines, pos, line, Ghost(f))
    } else if c == 'b' {
        read_variable_bounds(data, nums, lines, pos, line, Ghost(f))
    } else if c == 'x' {
        read_primal(data, nums, lines, pos, line, Ghost(f))
    } else if c == 'd' {
        read_dual(data, nums, lines, pos, line, Ghost(f))
    } else if c == 'k' {
        read_columns(data, nums, lines, pos, line, Ghost(f))
    } else if c == 'J' {
        read_jacobian(data, nums, lines, pos, line, Ghost(f))
    } else if c == 'G' {
        read_gradient(data, nums, lines, pos, line, Ghost(f))
    } else if c == 'S' {
        read_suffix(data, nums, lines, pos, line, Ghost(f))
    } else if c == 'F' {
        read_function(data, nums, lines, pos, line, Ghost(f))
    } else {
        Ok(pos + 1)
    }
}

/// A file without segments.
fn blank_data(header: NlHeader) -> (data: NlFileData)
    ensures
        data.header == header,
        data.con_exprs@ == Seq::new(header.n_constrs as nat, |i: int| None::<ExprNode>),
        data.obj_exprs@.len() == 0,
        data.common_exprs@.len() == 0,
        lists(data.con_linear@) == blank(header.n_vars as nat, header.n_constrs as nat).con_linear,
        data.obj_linear@.len() == 0,
        data.x_l@ == blank(header.n_vars as nat, header.n_constrs as nat).x_l,
        data.x_u@ == blank(header.n_vars as nat, header.n_constrs as nat).x_u,
        data.g_l@ == blank(header.n_vars as nat, header.n_constrs as nat).g_l,
        data.g_u@ == blank(header.n_vars as nat, header.n_constrs as nat).g_u,
        data.x0@ == blank(header.n_vars as nat, header.n_constrs as nat).x0,
        data.y0@ == blank(header.n_vars as nat, header.n_constrs as nat).y0,
        data.jac_col_ptrs@.len() == 0,
        data.imported_funcs@.len() == 0,
        data.suffixes@.len() == 0,
{
    let n: usize = header.n_vars;
    let m: usize = header.n_constrs;
    let mut con_exprs: Vec<Option<ExprNode>> = Vec::new();
    let mut con_linear: Vec<Vec<(usize, u64)>> = Vec::new();
    for i in 0..m
        invariant
            con_exprs@ == Seq::new(i as nat, |k: int| None::<ExprNode>),
            con_linear@.len() == i,
            forall|k: int| 0 <= k < i ==> (#[trigger] con_linear@[k])@ == Seq::<(usize, u64)>::empty(),
    {
        con_exprs.push(None);
        con_linear.push(Vec::new());
        assert(con_exprs@ =~= Seq::new((i + 1) as nat, |k: int| None::<ExprNode>));
    }
    let data: NlFileData = NlFileData {
        header,
        con_exprs,
        obj_exprs: Vec::new(),
        common_exprs: Vec::new(),
        con_linear,
        obj_linear: Vec::new(),
        x_l: vec![NEG_INFINITY; n],
        x_u: vec![INFINITY; n],
        g_l: vec![NEG_INFINITY; m],
        g_u: vec![INFINITY; m],
        x0: vec![ZERO; n],
        y0: vec![ZERO; m],
        jac_col_ptrs: Vec::new(),
        imported_funcs: Vec::new(),
        suffixes: Vec::new(),
    };
    data
}

/// Reads an `.nl` text.
pub fn parse_nl_file<P: Fn(&Vec<char>) -> Option<u64>>(
    content: &str,
    nums: &Numbers<P>,
) -> (r: Result<NlFileData, String>)
    requires
        nums.sound(),
    ensures
        match r {
            Ok(data) => {
                &&& file_of(*nums, content@) matches Ok((h, f))
                &&& data.header == h
                &&& data.holds(*nums, lines_of(content@), f)
            },
            Err(m) => file_of(*nums, content@) == Err::<(NlHeader, FileModel), Seq<char>>(m@),
        },
{
    let lines: Vec<Vec<char>> = split_lines(&to_chars(content));
    let ghost ls = texts(lines@);
    let header: NlHeader = match parse_header(&lines) {
        Ok(h) => h,
        Err(m) => {
            return Err(m);
        },
    };
    let mut data: NlFileData = blank_data(header);
    let ghost start = blank(header.n_vars as nat, header.n_constrs as nat);
    let ghost mut f = start;
    proof {
        assert(func_models(data.imported_funcs@) =~= f.funcs);
        assert(suffix_models(data.suffixes@) =~= f.suffixes);
        assert(lists(data.obj_linear@) =~= f.obj_linear);
        assert(data.jac_col_ptrs@ =~= f.jac_col_ptrs);
        assert(data.holds(*nums, ls, f));
    }
    let mut pos: usize = HEADER_LINES;
    while pos < lines.len()
        invariant
            nums.sound(),
            ls == texts(lines@),
            ls == lines_of(content@),
            header_of(ls) == Ok::<NlHeader, Seq<char>>(header),
            start == blank(header.n_vars as nat, header.n_constrs as nat),
            data.header == header,
            data.holds(*nums, ls, f),
            sized(f, header.n_vars as nat, header.n_constrs as nat),
            segments(*nums, ls, pos as int, f) == segments(*nums, ls, HEADER_LINES as int, start),
        decreases lines@.len() - pos,
    {
        let line: Vec<char> = trim(&lines[pos]);
        if line.len() == 0 {
            pos = pos + 1;
        } else {
            let ghost g = f;
            match read_segment(&mut data, nums, &lines, pos, &line, Ghost(f)) {
                Err(m) => {
                    return Err(m);
                },
                Ok(p) => {
                    proof {
                        f = segment(*nums, ls, pos as int, g)->Ok_0.0;
                    }
                    pos = p;
                },
            }
        }
    }
    if data.obj_linear.len() == 0 {
        data.obj_linear.push(Vec::new());
        assert(lists(data.obj_linear@) =~= completed(f).obj_linear);
    }
    if data.obj_exprs.len() == 0 {
        data.obj_exprs.push((0, false, None));
    }
    Ok(data)
}

/// Scaling factors from the `scaling_factor` suffixes of a file.
#[derive(Debug)]
pub struct NlScalingFactors {
    pub obj: Option<u64>,
    pub x: Option<Vec<u64>>,
    pub g: Option<Vec<u64>>,
}

#[verifier::ext_equal]
pub struct ScalingModel {
    pub obj: Option<u64>,
    pub x: Option<Seq<u64>>,
    pub g: Option<Seq<u64>>,
}

pub open spec fn viewed(v: Option<Vec<u64>>) -> Option<Seq<u64>> {
    match v {
        Some(v) => Some(v@),
        None => None,
    }
}

impl View for NlScalingFactors {
    type V = ScalingModel;

    open spec fn view(&self) -> ScalingModel {
        ScalingModel { obj: self.obj, x: viewed(self.x), g: viewed(self.g) }
    }
}

impl Default for NlScalingFactors {
    fn default() -> (s: Self)
        ensures
            s@ == (ScalingModel { obj: None, x: None, g: None }),
    {
        NlScalingFactors { obj: None, x: None, g: None }
    }
}

impl NlScalingFactors {
    pub fn is_empty(&self) -> (empty: bool)
        ensures
            empty == (self@ == (ScalingModel { obj: None, x: None, g: None })),
    {
        self.obj.is_none() && self.x.is_none() && self.g.is_none()
    }
}

/// Factors of one where no pair says otherwise.
pub open spec fn factors(n: nat, pairs: Seq<(usize, u64)>) -> Seq<u64> {
    assigned(Seq::new(n, |i: int| ONE), pairs)
}

/// Scaling factors after a suffix: a later table takes the place of an earlier
/// one of its kind, and of an objective's table the first value counts.
pub open spec fn scaled_by(s: ScalingModel, suffix: SuffixModel, n: nat, m: nat) -> ScalingModel {
    if suffix.name != "scaling_factor"@ {
        s
    } else {
        match suffix.kind {
            SuffixKind::Objective => if suffix.entries.len() > 0 {
                ScalingModel { obj: Some(suffix.entries[0].1), ..s }
            } else {
                s
            },
            SuffixKind::Variable => ScalingModel { x: Some(factors(n, suffix.entries)), ..s },
            SuffixKind::Constraint => ScalingModel { g: Some(factors(m, suffix.entries)), ..s },
            SuffixKind::Problem => s,
        }
    }
}

pub open spec fn scaling_of(suffixes: Seq<SuffixModel>, n: nat, m: nat) -> ScalingModel
    decreases suffixes.len(),
{
    if suffixes.len() == 0 {
        ScalingModel { obj: None, x: None, g: None }
    } else {
        scaled_by(scaling_of(suffixes.drop_last(), n, m), suffixes.last(), n, m)
    }
}

impl NlFileData {
    /// The scaling factors that the suffixes of the name `scaling_factor` give
    /// for the objective, the variables and the constraints.
    pub fn scaling_factors(&self) -> (out: NlScalingFactors)
        ensures
            out@ == scaling_of(
                suffix_models(self.suffixes@),
                self.header.n_vars as nat,
                self.header.n_constrs as nat,
            ),
    {
        let n: usize = self.header.n_vars;
        let m: usize = self.header.n_constrs;
        let ghost list = suffix_models(self.suffixes@);
        let mut out: NlScalingFactors = NlScalingFactors::default();
        assert(list.take(0) =~= Seq::empty());
        for i in 0..self.suffixes.len()
            invariant
                list == suffix_models(self.suffixes@),
                n == self.header.n_vars,
                m == self.header.n_constrs,
                out@ == scaling_of(list.take(i as int), n as nat, m as nat),
        {
            proof {
                assert(list.take(i + 1).drop_last() =~= list.take(i as int));
                assert(list.take(i + 1).last() == suffix_model(self.suffixes@[i as int]));
            }
            let s: &NlSuffix = &self.suffixes[i];
            if is_text(&to_chars(s.name.as_str()), "scaling_factor") {
                match s.kind {
                    SuffixKind::Objective => {
                        if s.entries.len() > 0 {
                            out.obj = Some(s.entries[0].1);
                        }
                    },
                    SuffixKind::Variable => {
                        let mut x: Vec<u64> = vec![ONE; n];
                        assert(x@ =~= Seq::new(n as nat, |i: int| ONE));
                        assign(&mut x, &s.entries);
                        out.x = Some(x);
                    },
                    SuffixKind::Constraint => {
                        let mut g: Vec<u64> = vec![ONE; m];
                        assert(g@ =~= Seq::new(m as nat, |i: int| ONE));
                        assign(&mut g, &s.entries);
                        out.g = Some(g);
                    },
                    SuffixKind::Problem => {},
                }
            }
        }
        assert(list.take(list.len() as int) =~= list);
        out
    }
}

} // verus!
