//! Segments of a file as they are written, and what is read from them.

use crate::float::{INFINITY, NEG_INFINITY};
use crate::nl::expr::ExprNode;
use crate::nl::expr_text::letter;
use crate::nl::parser::{
    assigned, bounds_after, bounds_on, counts_on, header_of, indexed, pair_on, pairs_on, segment,
    FileModel, FuncModel, NlHeader, SuffixKind, SuffixModel,
};
use crate::nl::scan::{count_of, trimmed, white, words_of, IntFault, Numbers};
use crate::nl::written::{
    are_words, counts_read_back, is_word, lemma_trim_keeps_first, naturals_read_back, spaced,
    words_read_back, writes,
};
use crate::nl::written_expr::{expressions_read_back, node, stands_at, writable, written};
use crate::text::decimal;
use vstd::prelude::*;

verus! {

/// The words of a line of bounds: 3 for none, 1 and the upper bound, 2 and the
/// lower bound, 4 and the value of both, or 0 and both.
pub open spec fn bounds_words(l: u64, u: u64, text: spec_fn(u64) -> Seq<char>) -> Seq<Seq<char>> {
    if l == NEG_INFINITY && u == INFINITY {
        seq![decimal(3)]
    } else if l == NEG_INFINITY {
        seq![decimal(1), text(u)]
    } else if u == INFINITY {
        seq![decimal(2), text(l)]
    } else if l == u {
        seq![decimal(4), text(l)]
    } else {
        seq![decimal(0), text(l), text(u)]
    }
}

/// Bounds that are written on a line are read back, whatever was there before.
pub proof fn bounds_read_back<P: Fn(&Vec<char>) -> Option<u64>>(
    nums: Numbers<P>,
    l: u64,
    u: u64,
    lower: u64,
    upper: u64,
    constraint: bool,
    text: spec_fn(u64) -> Seq<char>,
)
    requires
        writes(nums, text),
    ensures
        bounds_on(nums, spaced(bounds_words(l, u, text)), lower, upper, constraint) == (l, u),
{
    let ws = bounds_words(l, u, text);
    counts_read_back(0);
    counts_read_back(1);
    counts_read_back(2);
    counts_read_back(3);
    counts_read_back(4);
    assert(is_word(text(l)) && is_word(text(u)));
    words_read_back(ws);
}

/// A line with a range, of which each part may be infinite or both may agree, is
/// read as that range.
pub proof fn ranges_read_back<P: Fn(&Vec<char>) -> Option<u64>>(
    nums: Numbers<P>,
    l: u64,
    u: u64,
    lower: u64,
    upper: u64,
    constraint: bool,
    text: spec_fn(u64) -> Seq<char>,
)
    requires
        writes(nums, text),
    ensures
        bounds_on(
            nums,
            spaced(seq![decimal(0), text(l), text(u)]),
            lower,
            upper,
            constraint,
        ) == (l, u),
        constraint ==> bounds_on(
            nums,
            spaced(seq![decimal(5), text(l), text(u)]),
            lower,
            upper,
            constraint,
        ) == (NEG_INFINITY, INFINITY),
{
    counts_read_back(0);
    counts_read_back(5);
    assert(is_word(text(l)) && is_word(text(u)));
    words_read_back(seq![decimal(0), text(l), text(u)]);
    words_read_back(seq![decimal(5), text(l), text(u)]);
}

/// The lines after `pos` are those of the bounds.
pub open spec fn bounds_stand(
    l: Seq<u64>,
    u: Seq<u64>,
    lines: Seq<Seq<char>>,
    pos: int,
    text: spec_fn(u64) -> Seq<char>,
) -> bool {
    &&& 0 <= pos
    &&& l.len() == u.len()
    &&& pos + 1 + l.len() <= lines.len()
    &&& forall|i: int|
        0 <= i < l.len() ==> #[trigger] lines[pos + 1 + i] == spaced(
            bounds_words(l[i], u[i], text),
        )
}

proof fn lemma_bounds<P: Fn(&Vec<char>) -> Option<u64>>(
    nums: Numbers<P>,
    lines: Seq<Seq<char>>,
    pos: int,
    l: Seq<u64>,
    u: Seq<u64>,
    lower: Seq<u64>,
    upper: Seq<u64>,
    k: nat,
    constraint: bool,
    text: spec_fn(u64) -> Seq<char>,
)
    requires
        writes(nums, text),
        bounds_stand(l, u, lines, pos, text),
        lower.len() == l.len(),
        upper.len() == l.len(),
        k <= l.len(),
    ensures
        ({
            let (a, b) = bounds_after(nums, lines, pos + 1, k, lower, upper, constraint);
            &&& a.len() == l.len()
            &&& b.len() == l.len()
            &&& forall|i: int| 0 <= i < k ==> #[trigger] a[i] == l[i]
            &&& forall|i: int| 0 <= i < k ==> #[trigger] b[i] == u[i]
        }),
    decreases k,
{
    if k > 0 {
        lemma_bounds(
            nums,
            lines,
            pos,
            l,
            u,
            lower,
            upper,
            (k - 1) as nat,
            constraint,
            text,
        );
        let (a, b) = bounds_after(
            nums,
            lines,
            pos + 1,
            (k - 1) as nat,
            lower,
            upper,
            constraint,
        );
        let i = k - 1;
        bounds_read_back(nums, l[i], u[i], a[i], b[i], constraint, text);
        assert(lines[pos + 1 + i] == spaced(bounds_words(l[i], u[i], text)));
    }
}

/// The bounds of the variables that are written in a `b` segment are read back,
/// and nothing else changes.
pub proof fn variable_bounds_read_back<P: Fn(&Vec<char>) -> Option<u64>>(
    nums: Numbers<P>,
    lines: Seq<Seq<char>>,
    pos: int,
    f: FileModel,
    l: Seq<u64>,
    u: Seq<u64>,
    text: spec_fn(u64) -> Seq<char>,
)
    requires
        writes(nums, text),
        bounds_stand(l, u, lines, pos, text),
        lines[pos] == seq!['b'],
        f.x_l.len() == l.len(),
        f.x_u.len() == l.len(),
    ensures
        segment(nums, lines, pos, f) == Ok::<(FileModel, int), Seq<char>>(
            (FileModel { x_l: l, x_u: u, ..f }, pos + 1 + l.len()),
        ),
{
    lemma_letter('b', Seq::empty());
    assert(seq!['b'] + Seq::<char>::empty() =~= seq!['b']);
    lemma_bounds(nums, lines, pos, l, u, f.x_l, f.x_u, l.len(), false, text);
    let (a, b) = bounds_after(nums, lines, pos + 1, l.len(), f.x_l, f.x_u, false);
    assert(a =~= l && b =~= u);
}

/// The bounds of the constraints that are written in an `r` segment are read back,
/// and nothing else changes.
pub proof fn constraint_bounds_read_back<P: Fn(&Vec<char>) -> Option<u64>>(
    nums: Numbers<P>,
    lines: Seq<Seq<char>>,
    pos: int,
    f: FileModel,
    l: Seq<u64>,
    u: Seq<u64>,
    text: spec_fn(u64) -> Seq<char>,
)
    requires
        writes(nums, text),
        bounds_stand(l, u, lines, pos, text),
        lines[pos] == seq!['r'],
        f.con.len() == l.len(),
        f.g_l.len() == l.len(),
        f.g_u.len() == l.len(),
    ensures
        segment(nums, lines, pos, f) == Ok::<(FileModel, int), Seq<char>>(
            (FileModel { g_l: l, g_u: u, ..f }, pos + 1 + l.len()),
        ),
{
    lemma_letter('r', Seq::empty());
    assert(seq!['r'] + Seq::<char>::empty() =~= seq!['r']);
    lemma_bounds(nums, lines, pos, l, u, f.g_l, f.g_u, l.len(), true, text);
    let (a, b) = bounds_after(nums, lines, pos + 1, l.len(), f.g_l, f.g_u, true);
    assert(a =~= l && b =~= u);
}

/// The letter of a segment.
proof fn lemma_letter(c: char, rest: Seq<char>)
    requires
        !white(c),
    ensures
        letter(trimmed(seq![c] + rest)) == c,
{
    let s = seq![c] + rest;
    assert(s[0] == c);
    lemma_trim_keeps_first(s);
}

/// The head of a segment: its letter with an index or a count, and further words.
pub open spec fn head(c: char, index: usize, more: Seq<Seq<char>>) -> Seq<char> {
    spaced(seq![node(c, decimal(index as nat))] + more)
}

/// A head that is written so is read back: its letter, its index, and its words.
proof fn lemma_head(c: char, index: usize, more: Seq<Seq<char>>)
    requires
        !white(c),
        c != '#',
        are_words(more),
    ensures
        trimmed(head(c, index, more)) == head(c, index, more),
        letter(head(c, index, more)) == c,
        words_of(head(c, index, more)) == seq![node(c, decimal(index as nat))] + more,
        words_of(head(c, index, more).skip(1)) == seq![decimal(index as nat)] + more,
        count_of(decimal(index as nat)) == Ok::<usize, IntFault>(index),
        trimmed(node(c, decimal(index as nat))) == node(c, decimal(index as nat)),
        words_of(node(c, decimal(index as nat)).skip(1)) == seq![decimal(index as nat)],
        trimmed(node(c, decimal(index as nat))).len() > 0,
{
    counts_read_back(index);
    let d = decimal(index as nat);
    let w = node(c, d);
    assert(is_word(w)) by {
        assert forall|k: int| 0 <= k < w.len() implies !white(#[trigger] w[k]) && w[k] != '#' by {
            if k > 0 {
                assert(w[k] == d[k - 1]);
            }
        }
    }
    let ws = seq![w] + more;
    let plain = seq![d] + more;
    assert(are_words(ws)) by {
        assert forall|k: int| 0 <= k < ws.len() implies is_word(#[trigger] ws[k]) by {
            if k > 0 {
                assert(ws[k] == more[k - 1]);
            }
        }
    }
    assert(are_words(plain)) by {
        assert forall|k: int| 0 <= k < plain.len() implies is_word(#[trigger] plain[k]) by {
            if k > 0 {
                assert(plain[k] == more[k - 1]);
            }
        }
    }
    words_read_back(ws);
    words_read_back(plain);
    lemma_after_letter(c, d, more);
    assert(head(c, index, more).skip(1) =~= spaced(plain));
    let one = seq![w];
    words_read_back(one);
    assert(spaced(one) == w);
    let bare = seq![d];
    words_read_back(bare);
    assert(spaced(bare) == d);
    assert(w.skip(1) =~= d);
}

proof fn lemma_after_letter(c: char, d: Seq<char>, more: Seq<Seq<char>>)
    ensures
        spaced(seq![node(c, d)] + more) == seq![c] + spaced(seq![d] + more),
    decreases more.len(),
{
    let a = seq![node(c, d)] + more;
    let b = seq![d] + more;
    if more.len() == 0 {
        assert(a =~= seq![node(c, d)]);
        assert(b =~= seq![d]);
    } else {
        lemma_after_letter(c, d, more.drop_last());
        assert(a.drop_last() =~= seq![node(c, d)] + more.drop_last());
        assert(b.drop_last() =~= seq![d] + more.drop_last());
        assert(a.last() == more.last() && b.last() == more.last());
        let s = spaced(b.drop_last());
        assert(spaced(a) =~= seq![c] + spaced(b));
    }
}

/// The lines after `pos` are those of the pairs of index and value.
pub open spec fn pairs_stand(
    pairs: Seq<(usize, u64)>,
    lines: Seq<Seq<char>>,
    pos: int,
    text: spec_fn(u64) -> Seq<char>,
) -> bool {
    &&& 0 <= pos
    &&& pos + 1 + pairs.len() <= lines.len()
    &&& pairs.len() <= usize::MAX
    &&& forall|i: int|
        0 <= i < pairs.len() ==> #[trigger] lines[pos + 1 + i] == spaced(
            seq![decimal(pairs[i].0 as nat), text(pairs[i].1)],
        )
}

proof fn lemma_pairs<P: Fn(&Vec<char>) -> Option<u64>>(
    nums: Numbers<P>,
    lines: Seq<Seq<char>>,
    pos: int,
    pairs: Seq<(usize, u64)>,
    k: nat,
    default: usize,
    text: spec_fn(u64) -> Seq<char>,
)
    requires
        writes(nums, text),
        pairs_stand(pairs, lines, pos, text),
        k <= pairs.len(),
    ensures
        pairs_on(nums, lines, pos + 1, pos + 1 + k, default) == pairs.take(k as int),
    decreases k,
{
    if k == 0 {
        assert(pairs.take(0) =~= Seq::empty());
    } else {
        lemma_pairs(nums, lines, pos, pairs, (k - 1) as nat, default, text);
        let (i, v) = pairs[k - 1];
        counts_read_back(i);
        assert(is_word(text(v)));
        words_read_back(seq![decimal(i as nat), text(v)]);
        assert(lines[pos + 1 + (k - 1)] == spaced(seq![decimal(i as nat), text(v)]));
        assert(pair_on(nums, lines[pos + k], default) == Some(pairs[k - 1]));
        assert(pairs.take(k - 1).push(pairs[k - 1]) =~= pairs.take(k as int));
    }
}

/// No two pairs have one index.
pub open spec fn distinct_indices(pairs: Seq<(usize, u64)>) -> bool {
    forall|i: int, j: int|
        0 <= i < j < pairs.len() ==> (#[trigger] pairs[i]).0 != (#[trigger] pairs[j]).0
}

/// Values that are assigned by distinct indices stand at those, and the other
/// places keep theirs.
pub proof fn assigned_values_stand(base: Seq<u64>, pairs: Seq<(usize, u64)>)
    requires
        distinct_indices(pairs),
    ensures
        assigned(base, pairs).len() == base.len(),
        forall|k: int|
            0 <= k < pairs.len() && pairs[k].0 < base.len() ==> assigned(
                base,
                pairs,
            )[(#[trigger] pairs[k]).0 as int] == pairs[k].1,
        forall|i: int|
            0 <= i < base.len() && (forall|k: int| 0 <= k < pairs.len() ==> (#[trigger] pairs[k]).0 != i)
                ==> #[trigger] assigned(base, pairs)[i] == base[i],
    decreases pairs.len(),
{
    if pairs.len() > 0 {
        let front = pairs.drop_last();
        assert(distinct_indices(front)) by {
            assert forall|i: int, j: int| 0 <= i < j < front.len() implies (#[trigger] front[i]).0
                != (#[trigger] front[j]).0 by {
                assert(front[i] == pairs[i] && front[j] == pairs[j]);
            }
        }
        assigned_values_stand(base, front);
        let before = assigned(base, front);
        let now = assigned(base, pairs);
        let n = front.len() as int;
        assert(pairs[n] == pairs.last());
        assert forall|k: int| 0 <= k < pairs.len() && pairs[k].0 < base.len() implies now[(
        #[trigger] pairs[k]).0 as int] == pairs[k].1 by {
            if k < n {
                assert(front[k] == pairs[k]);
                assert(before[front[k].0 as int] == front[k].1);
                assert(pairs[k].0 != pairs[n].0);
            }
        }
        assert forall|i: int|
            0 <= i < base.len() && (forall|k: int|
                0 <= k < pairs.len() ==> (#[trigger] pairs[k]).0 != i) implies #[trigger] now[i]
            == base[i] by {
            assert forall|k: int| 0 <= k < front.len() implies (#[trigger] front[k]).0 != i by {
                assert(front[k] == pairs[k]);
            }
            assert(pairs[n].0 != i);
            assert(before[i] == base[i]);
        }
    }
}

/// Initial values of the variables that are written in an `x` segment are read
/// back: each pair sets the value at its index.
pub proof fn initial_values_read_back<P: Fn(&Vec<char>) -> Option<u64>>(
    nums: Numbers<P>,
    lines: Seq<Seq<char>>,
    pos: int,
    f: FileModel,
    pairs: Seq<(usize, u64)>,
    dual: bool,
    text: spec_fn(u64) -> Seq<char>,
)
    requires
        writes(nums, text),
        pairs_stand(pairs, lines, pos, text),
        distinct_indices(pairs),
        lines[pos] == head(
            if dual {
                'd'
            } else {
                'x'
            },
            pairs.len() as usize,
            Seq::empty(),
        ),
    ensures
        segment(nums, lines, pos, f) matches Ok((g, end)) && {
            let was = if dual {
                f.y0
            } else {
                f.x0
            };
            let now = if dual {
                g.y0
            } else {
                g.x0
            };
            &&& end == pos + 1 + pairs.len()
            &&& g == if dual {
                FileModel { y0: now, ..f }
            } else {
                FileModel { x0: now, ..f }
            }
            &&& now.len() == was.len()
            &&& forall|k: int|
                0 <= k < pairs.len() && pairs[k].0 < was.len() ==> now[(#[trigger] pairs[k]).0 as int]
                    == pairs[k].1
            &&& forall|i: int|
                0 <= i < was.len() && (forall|k: int|
                    0 <= k < pairs.len() ==> (#[trigger] pairs[k]).0 != i) ==> #[trigger] now[i]
                    == was[i]
        },
{
    let c = if dual {
        'd'
    } else {
        'x'
    };
    let none: Seq<Seq<char>> = Seq::empty();
    let n = pairs.len() as usize;
    assert(!white('x') && !white('d'));
    lemma_head(c, n, none);
    assert(seq![decimal(n as nat)] + none =~= seq![decimal(n as nat)]);
    lemma_pairs(nums, lines, pos, pairs, pairs.len(), 0, text);
    assert(pairs.take(pairs.len() as int) =~= pairs);
    assigned_values_stand(f.x0, pairs);
    assigned_values_stand(f.y0, pairs);
}

/// The linear terms of a constraint that are written in a `J` segment are read
/// back: they follow those that the constraint has, and nothing else changes.
pub proof fn linear_terms_read_back<P: Fn(&Vec<char>) -> Option<u64>>(
    nums: Numbers<P>,
    lines: Seq<Seq<char>>,
    pos: int,
    f: FileModel,
    i: usize,
    pairs: Seq<(usize, u64)>,
    text: spec_fn(u64) -> Seq<char>,
)
    requires
        writes(nums, text),
        pairs_stand(pairs, lines, pos, text),
        i < f.con_linear.len(),
        lines[pos] == head('J', i, seq![decimal(pairs.len())]),
    ensures
        segment(nums, lines, pos, f) matches Ok((g, end)) && {
            &&& end == pos + 1 + pairs.len()
            &&& g == FileModel { con_linear: g.con_linear, ..f }
            &&& g.con_linear.len() == f.con_linear.len()
            &&& g.con_linear[i as int] == f.con_linear[i as int] + pairs
            &&& forall|r: int|
                0 <= r < f.con_linear.len() && r != i ==> #[trigger] g.con_linear[r]
                    == f.con_linear[r]
        },
{
    let more = seq![decimal(pairs.len())];
    counts_read_back(pairs.len() as usize);
    assert(!white('J'));
    lemma_head('J', i, more);
    lemma_pairs(nums, lines, pos, pairs, pairs.len(), 0, text);
    assert(pairs.take(pairs.len() as int) =~= pairs);
}

/// The linear terms of an objective that are written in a `G` segment are read
/// back: they follow those that the objective has, and nothing else changes.
pub proof fn objective_terms_read_back<P: Fn(&Vec<char>) -> Option<u64>>(
    nums: Numbers<P>,
    lines: Seq<Seq<char>>,
    pos: int,
    f: FileModel,
    i: usize,
    pairs: Seq<(usize, u64)>,
    text: spec_fn(u64) -> Seq<char>,
)
    requires
        writes(nums, text),
        pairs_stand(pairs, lines, pos, text),
        lines[pos] == head('G', i, seq![decimal(pairs.len())]),
    ensures
        segment(nums, lines, pos, f) matches Ok((g, end)) && {
            let was = if i < f.obj_linear.len() {
                f.obj_linear[i as int]
            } else {
                Seq::empty()
            };
            &&& end == pos + 1 + pairs.len()
            &&& g == FileModel { obj_linear: g.obj_linear, ..f }
            &&& g.obj_linear.len() > i
            &&& g.obj_linear[i as int] == was + pairs
            &&& forall|r: int|
                0 <= r < f.obj_linear.len() && r != i ==> #[trigger] g.obj_linear[r]
                    == f.obj_linear[r]
        },
{
    let more = seq![decimal(pairs.len())];
    counts_read_back(pairs.len() as usize);
    assert(!white('G'));
    lemma_head('G', i, more);
    lemma_pairs(nums, lines, pos, pairs, pairs.len(), 0, text);
    assert(pairs.take(pairs.len() as int) =~= pairs);
}

/// The nonlinear part of a constraint that is written in a `C` segment is that of
/// the constraint: its expression starts at the next line.
pub proof fn constraint_expressions_read_back<P: Fn(&Vec<char>) -> Option<u64>>(
    nums: Numbers<P>,
    lines: Seq<Seq<char>>,
    pos: int,
    f: FileModel,
    i: usize,
    e: ExprNode,
    text: spec_fn(u64) -> Seq<char>,
)
    requires
        writes(nums, text),
        writable(e),
        0 <= pos < lines.len(),
        i < f.con.len(),
        lines[pos] == head('C', i, Seq::empty()),
        stands_at(written(e, text), lines, pos + 1),
    ensures
        segment(nums, lines, pos, f) matches Ok((g, end)) && {
            &&& end == pos + 1 + written(e, text).len()
            &&& g == FileModel { con: g.con, ..f }
            &&& g.con.len() == f.con.len()
            &&& g.con[i as int] == Some(pos + 1)
            &&& forall|r: int|
                0 <= r < f.con.len() && r != i ==> #[trigger] g.con[r] == f.con[r]
        },
{
    let none: Seq<Seq<char>> = Seq::empty();
    assert(!white('C'));
    lemma_head('C', i, none);
    assert(seq![decimal(i as nat)] + none =~= seq![decimal(i as nat)]);
    expressions_read_back(nums, lines, pos + 1, e, e, text);
}

/// An objective that is written in an `O` segment is read back: its index, whether
/// it is maximized, and its expression, which starts at the next line. It comes
/// after the objectives before it.
pub proof fn objectives_read_back<P: Fn(&Vec<char>) -> Option<u64>>(
    nums: Numbers<P>,
    lines: Seq<Seq<char>>,
    pos: int,
    f: FileModel,
    i: usize,
    maximize: bool,
    e: ExprNode,
    text: spec_fn(u64) -> Seq<char>,
)
    requires
        writes(nums, text),
        writable(e),
        0 <= pos < lines.len(),
        lines[pos] == head(
            'O',
            i,
            seq![
                decimal(
                    if maximize {
                        1
                    } else {
                        0
                    },
                ),
            ],
        ),
        stands_at(written(e, text), lines, pos + 1),
    ensures
        segment(nums, lines, pos, f) == Ok::<(FileModel, int), Seq<char>>(
            (
                FileModel { obj: f.obj.push((i, maximize, Some(pos + 1))), ..f },
                pos + 1 + written(e, text).len(),
            ),
        ),
{
    let sense: usize = if maximize {
        1
    } else {
        0
    };
    let more = seq![decimal(sense as nat)];
    counts_read_back(sense);
    assert(!white('O'));
    lemma_head('O', i, more);
    expressions_read_back(nums, lines, pos + 1, e, e, text);
}

/// A common expression that is written in a `V` segment is read back: its linear
/// terms, and its nonlinear part, which starts after them. It comes after the
/// common expressions before it.
pub proof fn common_expressions_read_back<P: Fn(&Vec<char>) -> Option<u64>>(
    nums: Numbers<P>,
    lines: Seq<Seq<char>>,
    pos: int,
    f: FileModel,
    i: usize,
    pairs: Seq<(usize, u64)>,
    e: ExprNode,
    text: spec_fn(u64) -> Seq<char>,
)
    requires
        writes(nums, text),
        writable(e),
        pairs_stand(pairs, lines, pos, text),
        lines[pos] == head('V', i, seq![decimal(pairs.len()), decimal(0)]),
        stands_at(written(e, text), lines, pos + 1 + pairs.len()),
    ensures
        segment(nums, lines, pos, f) == Ok::<(FileModel, int), Seq<char>>(
            (
                FileModel { common: f.common.push((pairs, pos + 1 + pairs.len())), ..f },
                pos + 1 + pairs.len() + written(e, text).len(),
            ),
        ),
{
    let more = seq![decimal(pairs.len()), decimal(0)];
    counts_read_back(pairs.len() as usize);
    counts_read_back(0);
    assert(!white('V'));
    lemma_head('V', i, more);
    lemma_pairs(nums, lines, pos, pairs, pairs.len(), 0, text);
    assert(pairs.take(pairs.len() as int) =~= pairs);
    expressions_read_back(nums, lines, pos + 1 + pairs.len(), e, e, text);
}

/// The flags of a suffix: what it is attached to, and whether it holds real
/// numbers.
pub open spec fn suffix_flags(kind: SuffixKind, float_valued: bool) -> nat {
    (match kind {
        SuffixKind::Variable => 0nat,
        SuffixKind::Constraint => 1,
        SuffixKind::Objective => 2,
        SuffixKind::Problem => 3,
    }) + (if float_valued {
        4nat
    } else {
        0
    })
}

proof fn lemma_indexed(pairs: Seq<(usize, u64)>)
    requires
        forall|k: int| 0 <= k < pairs.len() ==> (#[trigger] pairs[k]).0 < usize::MAX,
    ensures
        indexed(pairs) == pairs,
    decreases pairs.len(),
{
    if pairs.len() > 0 {
        let front = pairs.drop_last();
        assert forall|k: int| 0 <= k < front.len() implies (#[trigger] front[k]).0 < usize::MAX by {
            assert(front[k] == pairs[k]);
        }
        lemma_indexed(front);
        assert(pairs[pairs.len() - 1] == pairs.last());
        assert(front.push(pairs.last()) =~= pairs);
    }
}

/// A suffix that is written in an `S` segment is read back, behind the suffixes
/// before it.
pub proof fn suffixes_read_back<P: Fn(&Vec<char>) -> Option<u64>>(
    nums: Numbers<P>,
    lines: Seq<Seq<char>>,
    pos: int,
    f: FileModel,
    s: SuffixModel,
    text: spec_fn(u64) -> Seq<char>,
)
    requires
        writes(nums, text),
        is_word(s.name),
        forall|k: int| 0 <= k < s.entries.len() ==> (#[trigger] s.entries[k]).0 < usize::MAX,
        pairs_stand(s.entries, lines, pos, text),
        lines[pos] == head(
            'S',
            suffix_flags(s.kind, s.float_valued) as usize,
            seq![decimal(s.entries.len()), s.name],
        ),
    ensures
        segment(nums, lines, pos, f) == Ok::<(FileModel, int), Seq<char>>(
            (FileModel { suffixes: f.suffixes.push(s), ..f }, pos + 1 + s.entries.len()),
        ),
{
    let flags = suffix_flags(s.kind, s.float_valued);
    let more = seq![decimal(s.entries.len()), s.name];
    let n = s.entries.len();
    counts_read_back(n as usize);
    assert(!white('S'));
    lemma_head('S', flags as usize, more);
    let w = node('S', decimal(flags));
    assert(w.skip(1) =~= decimal(flags));
    naturals_read_back(flags, u32::MAX as nat);
    lemma_pairs(nums, lines, pos, s.entries, n, usize::MAX, text);
    assert(s.entries.take(n as int) =~= s.entries);
    lemma_indexed(s.entries);
}

/// A function that is written in an `F` segment is read back, behind the functions
/// before it.
pub proof fn functions_read_back<P: Fn(&Vec<char>) -> Option<u64>>(
    nums: Numbers<P>,
    lines: Seq<Seq<char>>,
    pos: int,
    f: FileModel,
    func: FuncModel,
    nargs: usize,
)
    requires
        0 <= pos < lines.len(),
        is_word(func.name),
        func.nargs == nargs,
        nargs <= i64::MAX,
        lines[pos] == head(
            'F',
            func.id,
            seq![decimal(func.kind as nat), decimal(nargs as nat), func.name],
        ),
    ensures
        segment(nums, lines, pos, f) == Ok::<(FileModel, int), Seq<char>>(
            (FileModel { funcs: f.funcs.push(func), ..f }, pos + 1),
        ),
{
    let more = seq![decimal(func.kind as nat), decimal(nargs as nat), func.name];
    counts_read_back(func.kind);
    counts_read_back(nargs);
    assert(!white('F'));
    lemma_head('F', func.id, more);
    naturals_read_back(nargs as nat, i64::MAX as nat);
}

/// The column counts that are written in a `k` segment are read back.
pub proof fn column_counts_read_back<P: Fn(&Vec<char>) -> Option<u64>>(
    nums: Numbers<P>,
    lines: Seq<Seq<char>>,
    pos: int,
    f: FileModel,
    counts: Seq<usize>,
)
    requires
        0 <= pos,
        pos + 1 + counts.len() <= lines.len(),
        counts.len() <= usize::MAX,
        lines[pos] == head('k', counts.len() as usize, Seq::empty()),
        forall|i: int|
            0 <= i < counts.len() ==> #[trigger] lines[pos + 1 + i] == decimal(counts[i] as nat),
    ensures
        segment(nums, lines, pos, f) == Ok::<(FileModel, int), Seq<char>>(
            (FileModel { jac_col_ptrs: counts, ..f }, pos + 1 + counts.len()),
        ),
{
    let none: Seq<Seq<char>> = Seq::empty();
    let n = counts.len() as usize;
    assert(!white('k'));
    lemma_head('k', n, none);
    assert(seq![decimal(n as nat)] + none =~= seq![decimal(n as nat)]);
    lemma_counts(lines, pos, counts, counts.len());
    assert(counts.take(counts.len() as int) =~= counts);
}

proof fn lemma_counts(lines: Seq<Seq<char>>, pos: int, counts: Seq<usize>, k: nat)
    requires
        k <= counts.len(),
        forall|i: int|
            0 <= i < counts.len() ==> #[trigger] lines[pos + 1 + i] == decimal(counts[i] as nat),
    ensures
        counts_on(lines, pos + 1, pos + 1 + k) == counts.take(k as int),
    decreases k,
{
    if k == 0 {
        assert(counts.take(0) =~= Seq::empty());
    } else {
        lemma_counts(lines, pos, counts, (k - 1) as nat);
        counts_read_back(counts[k - 1]);
        let ws = seq![decimal(counts[k - 1] as nat)];
        words_read_back(ws);
        assert(spaced(ws) == ws[0]);
        assert(lines[pos + 1 + (k - 1)] == decimal(counts[k - 1] as nat));
        assert(counts.take(k - 1).push(counts[k - 1]) =~= counts.take(k as int));
    }
}

/// The sizes that are written in the header are read back.
pub proof fn headers_read_back(lines: Seq<Seq<char>>, h: NlHeader, more: Seq<Seq<char>>)
    requires
        lines.len() >= 10,
        lines[0].len() > 0,
        lines[0][0] == 'g',
        are_words(more),
        lines[1] == spaced(
            seq![
                decimal(h.n_vars as nat),
                decimal(h.n_constrs as nat),
                decimal(h.n_objs as nat),
            ] + more,
        ),
    ensures
        header_of(lines) == Ok::<NlHeader, Seq<char>>(h),
{
    counts_read_back(h.n_vars);
    counts_read_back(h.n_constrs);
    counts_read_back(h.n_objs);
    assert(!white('g'));
    lemma_trim_keeps_first(lines[0]);
    let ws = seq![
        decimal(h.n_vars as nat),
        decimal(h.n_constrs as nat),
        decimal(h.n_objs as nat),
    ] + more;
    assert(are_words(ws)) by {
        assert forall|k: int| 0 <= k < ws.len() implies is_word(#[trigger] ws[k]) by {
            if k >= 3 {
                assert(ws[k] == more[k - 3]);
            }
        }
    }
    words_read_back(ws);
}

} // verus!
