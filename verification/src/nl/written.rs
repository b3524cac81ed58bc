//! Words, counts and numbers as they are written, and what is read from them.

use crate::nl::scan::{
    count_of, digits_value, hash_from, natural_of, token_of, trim_end, trimmed, white, words_of,
    words_upto, IntFault, Numbers,
};
use crate::text::{decimal, digit};
use vstd::prelude::*;

verus! {

/// A word: some characters, none of which is white or starts a comment.
pub open spec fn is_word(w: Seq<char>) -> bool {
    &&& w.len() > 0
    &&& forall|k: int| 0 <= k < w.len() ==> !white(#[trigger] w[k]) && w[k] != '#'
}

pub open spec fn are_words(ws: Seq<Seq<char>>) -> bool {
    forall|k: int| 0 <= k < ws.len() ==> is_word(#[trigger] ws[k])
}

/// The words with a blank between each two.
pub open spec fn spaced(ws: Seq<Seq<char>>) -> Seq<char>
    decreases ws.len(),
{
    if ws.len() == 0 {
        Seq::empty()
    } else if ws.len() == 1 {
        ws[0]
    } else {
        spaced(ws.drop_last()).push(' ') + ws.last()
    }
}

proof fn lemma_words_prefix(a: Seq<char>, b: Seq<char>, i: nat)
    requires
        i <= a.len(),
    ensures
        words_upto(a + b, i) == words_upto(a, i),
    decreases i,
{
    if i > 0 {
        lemma_words_prefix(a, b, (i - 1) as nat);
        assert((a + b)[i - 1] == a[i - 1]);
    }
}

proof fn lemma_words_grow(a: Seq<char>, w: Seq<char>, k: nat)
    requires
        k <= w.len(),
        forall|i: int| 0 <= i < w.len() ==> !white(#[trigger] w[i]),
    ensures
        ({
            let (done, open) = words_upto(a, a.len());
            words_upto(a + w, a.len() + k) == (done, open + w.take(k as int))
        }),
    decreases k,
{
    let (done, open) = words_upto(a, a.len());
    if k == 0 {
        lemma_words_prefix(a, w, a.len());
        assert(open + w.take(0) =~= open);
    } else {
        lemma_words_grow(a, w, (k - 1) as nat);
        assert((a + w)[a.len() + k - 1] == w[k - 1]);
        assert((open + w.take(k - 1)).push(w[k - 1]) =~= open + w.take(k as int));
    }
}

proof fn lemma_spaced(ws: Seq<Seq<char>>)
    requires
        ws.len() > 0,
        are_words(ws),
    ensures
        words_upto(spaced(ws), spaced(ws).len()) == (ws.drop_last(), ws.last()),
        spaced(ws).len() > 0,
        !white(spaced(ws)[0]),
        !white(spaced(ws).last()),
        forall|k: int| 0 <= k < spaced(ws).len() ==> #[trigger] spaced(ws)[k] != '#',
        spaced(ws)[0] == ws[0][0],
    decreases ws.len(),
{
    let none: Seq<char> = Seq::empty();
    let w = ws.last();
    assert(ws[ws.len() - 1] == w);
    assert(is_word(w));
    if ws.len() == 1 {
        lemma_words_grow(none, w, w.len());
        assert(none + w =~= w);
        assert(none + w.take(w.len() as int) =~= w);
        assert(ws.drop_last() =~= Seq::empty());
    } else {
        let front = ws.drop_last();
        assert(are_words(front)) by {
            assert forall|k: int| 0 <= k < front.len() implies is_word(#[trigger] front[k]) by {
                assert(front[k] == ws[k]);
            }
        }
        lemma_spaced(front);
        let a = spaced(front);
        let b = a.push(' ');
        lemma_words_prefix(a, seq![' '], a.len());
        assert(a + seq![' '] =~= b);
        assert(white(' '));
        assert(words_upto(b, b.len()) == (front.drop_last().push(front.last()), none)) by {
            assert(b[a.len() as int] == ' ');
            assert(front.last().len() > 0) by {
                assert(is_word(front[front.len() - 1]));
            }
        }
        assert(front.drop_last().push(front.last()) =~= front);
        lemma_words_grow(b, w, w.len());
        assert(none + w.take(w.len() as int) =~= w);
        let s = spaced(ws);
        assert(s == b + w);
        assert(s[0] == a[0]);
        assert(front[0] == ws[0]);
        assert(s.last() == w.last());
        assert forall|k: int| 0 <= k < s.len() implies #[trigger] s[k] != '#' by {
            if k < a.len() {
                assert(s[k] == a[k]);
            } else if k == a.len() {
                assert(s[k] == ' ');
            } else {
                assert(s[k] == w[k - b.len()]);
            }
        }
    }
}

/// Words that are written with a blank between each two are read back, and the
/// line is left as it is by trimming and by the removal of a comment.
pub proof fn words_read_back(ws: Seq<Seq<char>>)
    requires
        ws.len() > 0,
        are_words(ws),
    ensures
        words_of(spaced(ws)) == ws,
        trimmed(spaced(ws)) == spaced(ws),
        token_of(spaced(ws)) == spaced(ws),
        spaced(ws).len() > 0,
        spaced(ws)[0] == ws[0][0],
{
    lemma_spaced(ws);
    let s = spaced(ws);
    assert(ws.last().len() > 0) by {
        assert(is_word(ws[ws.len() - 1]));
    }
    assert(ws.drop_last().push(ws.last()) =~= ws);
    lemma_no_hash(s, 0);
    assert(s.take(s.len() as int) =~= s);
}

proof fn lemma_no_hash(s: Seq<char>, i: nat)
    requires
        i <= s.len(),
        forall|k: int| 0 <= k < s.len() ==> #[trigger] s[k] != '#',
    ensures
        hash_from(s, i) == s.len(),
    decreases s.len() - i,
{
    if i < s.len() {
        lemma_no_hash(s, i + 1);
    }
}

proof fn lemma_digits_prefix(a: Seq<char>, b: Seq<char>, i: nat, max: nat)
    requires
        i <= a.len(),
    ensures
        digits_value(a + b, i, max) == digits_value(a, i, max),
    decreases i,
{
    if i > 0 {
        lemma_digits_prefix(a, b, (i - 1) as nat, max);
        assert((a + b)[i - 1] == a[i - 1]);
    }
}

proof fn lemma_digit(d: nat)
    requires
        d < 10,
    ensures
        '0' <= digit(d) <= '9',
        digit(d) as nat == 48 + d,
        !white(digit(d)),
        digit(d) != '#',
        digit(d) != '+',
        digit(d) != '-',
{
}

proof fn lemma_decimal(n: nat, max: nat)
    requires
        n <= max,
    ensures
        decimal(n).len() > 0,
        digits_value(decimal(n), decimal(n).len(), max) == Ok::<nat, IntFault>(n),
        is_word(decimal(n)),
        decimal(n)[0] != '+' && decimal(n)[0] != '-',
    decreases n,
{
    if n < 10 {
        lemma_digit(n);
        let s = decimal(n);
        assert(digits_value(s, 0, max) == Ok::<nat, IntFault>(0));
        assert(s[0] == digit(n));
    } else {
        lemma_decimal(n / 10, max);
        lemma_digit(n % 10);
        let a = decimal(n / 10);
        let c = digit(n % 10);
        let s = decimal(n);
        assert(a + seq![c] =~= s);
        lemma_digits_prefix(a, seq![c], a.len(), max);
        assert(s[s.len() - 1] == c);
        assert(s[0] == a[0]);
        assert forall|k: int| 0 <= k < s.len() implies !white(#[trigger] s[k]) && s[k] != '#' by {
            if k < a.len() {
                assert(s[k] == a[k]);
            }
        }
    }
}

/// A count that is written in decimal digits is read back.
pub proof fn counts_read_back(n: usize)
    ensures
        count_of(decimal(n as nat)) == Ok::<usize, IntFault>(n),
        is_word(decimal(n as nat)),
        decimal(n as nat)[0] != '+' && decimal(n as nat)[0] != '-',
{
    lemma_decimal(n as nat, usize::MAX as nat);
}

/// A natural number that is written in decimal digits is read back where it is
/// within the limit.
pub proof fn naturals_read_back(n: nat, max: nat)
    requires
        n <= max,
    ensures
        natural_of(decimal(n), max) == Ok::<nat, IntFault>(n),
        is_word(decimal(n)),
        decimal(n)[0] != '+' && decimal(n)[0] != '-',
{
    lemma_decimal(n, max);
}

/// Trimming keeps the first character where that is not white.
pub(crate) proof fn lemma_trim_keeps_first(s: Seq<char>)
    requires
        s.len() > 0,
        !white(s[0]),
    ensures
        trimmed(s).len() > 0,
        trimmed(s)[0] == s[0],
{
    lemma_trim_end_keeps(s);
}

proof fn lemma_trim_end_keeps(s: Seq<char>)
    requires
        s.len() > 0,
        !white(s[0]),
    ensures
        trim_end(s).len() > 0,
        trim_end(s)[0] == s[0],
    decreases s.len(),
{
    if white(s.last()) {
        assert(s.len() > 1);
        lemma_trim_end_keeps(s.drop_last());
    }
}

/// `text` writes every number as a word from which it is read back.
pub open spec fn writes<P: Fn(&Vec<char>) -> Option<u64>>(
    nums: Numbers<P>,
    text: spec_fn(u64) -> Seq<char>,
) -> bool {
    forall|v: u64| is_word(#[trigger] text(v)) && nums.value(text(v)) == Some(v)
}

} // verus!
