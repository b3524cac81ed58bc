//! What can be read from a `.sol` file.

use crate::float::nan;
use crate::nl::sol::{
    code_of, is_sol_of, line, message_of, sol_head, sol_text, sol_value, text_lines, VERSION,
};
use crate::result::{SolveResult, SolveStatus};
use crate::text::decimal;
use vstd::prelude::*;

verus! {

/// The text has no line feed.
pub open spec fn on_one_line(s: Seq<char>) -> bool {
    forall|i: int| 0 <= i < s.len() ==> #[trigger] s[i] != '\n'
}

/// Where the first line of a text ends.
pub open spec fn line_end(text: Seq<char>) -> int
    decreases text.len(),
{
    if text.len() == 0 || text[0] == '\n' {
        0
    } else {
        1 + line_end(text.skip(1))
    }
}

/// Line `k` of a text, counted from zero.
pub open spec fn nth_line(text: Seq<char>, k: nat) -> Seq<char>
    decreases k,
{
    if k == 0 {
        text.take(line_end(text))
    } else {
        nth_line(text.skip(line_end(text) + 1), (k - 1) as nat)
    }
}

proof fn lemma_line_end(a: Seq<char>, rest: Seq<char>)
    requires
        on_one_line(a),
    ensures
        line_end(line(a) + rest) == a.len(),
    decreases a.len(),
{
    let text = line(a) + rest;
    if a.len() > 0 {
        assert(text[0] == a[0]);
        lemma_line_end(a.skip(1), rest);
        assert(text.skip(1) =~= line(a.skip(1)) + rest);
    } else {
        assert(text[0] == '\n');
    }
}

/// A line before a text is its first line, and moves the others by one.
proof fn lemma_line_before(a: Seq<char>, rest: Seq<char>, k: nat)
    requires
        on_one_line(a),
    ensures
        nth_line(line(a) + rest, 0) == a,
        nth_line(line(a) + rest, k + 1) == nth_line(rest, k),
{
    lemma_line_end(a, rest);
    let text = line(a) + rest;
    assert(text.take(a.len() as int) =~= a);
    assert(text.skip(a.len() as int + 1) =~= rest);
}

proof fn lemma_lines_skipped(texts: Seq<String>, count: nat, rest: Seq<char>, k: nat)
    requires
        count <= texts.len(),
        forall|i: int| 0 <= i < texts.len() ==> on_one_line((#[trigger] texts[i])@),
    ensures
        nth_line(text_lines(texts, count) + rest, count + k) == nth_line(rest, k),
    decreases count,
{
    if count == 0 {
        assert(text_lines(texts, 0) + rest =~= rest);
    } else {
        let last = texts[count - 1]@;
        let before = text_lines(texts, (count - 1) as nat);
        assert(text_lines(texts, count) + rest =~= before + (line(last) + rest));
        lemma_lines_skipped(texts, (count - 1) as nat, line(last) + rest, k + 1);
        lemma_line_before(last, rest, k);
    }
}

/// The texts are read back line by line.
proof fn lemma_nth_text(texts: Seq<String>, count: nat, rest: Seq<char>, i: nat)
    requires
        i < count <= texts.len(),
        forall|i: int| 0 <= i < texts.len() ==> on_one_line((#[trigger] texts[i])@),
    ensures
        nth_line(text_lines(texts, count) + rest, i) == texts[i as int]@,
    decreases count,
{
    let last = texts[count - 1]@;
    let before = text_lines(texts, (count - 1) as nat);
    assert(text_lines(texts, count) + rest =~= before + (line(last) + rest));
    if i == count - 1 {
        lemma_lines_skipped(texts, (count - 1) as nat, line(last) + rest, 0);
        lemma_line_before(last, rest, 0);
    } else {
        lemma_nth_text(texts, (count - 1) as nat, line(last) + rest, i);
    }
}

proof fn lemma_decimal(n: nat)
    ensures
        on_one_line(decimal(n)),
    decreases n,
{
    if n >= 10 {
        lemma_decimal(n / 10);
    }
}

proof fn lemma_message(status: SolveStatus)
    ensures
        on_one_line(message_of(status)),
{
    reveal_strlit("Optimal Solution Found");
    reveal_strlit("Solved To Acceptable Level");
    reveal_strlit("Search Direction Becomes Too Small");
    reveal_strlit("Infeasible Problem Detected");
    reveal_strlit("Converged to a point of local infeasibility");
    reveal_strlit("Maximum Number of Iterations Exceeded");
    reveal_strlit("Maximum CPU Time Exceeded");
    reveal_strlit("Numerical Difficulties");
    reveal_strlit("Evaluation Error in User Callbacks");
    reveal_strlit("Optimization Stopped by User");
    reveal_strlit("Diverging Iterates");
    reveal_strlit("Restoration Failed");
    reveal_strlit("Internal Error");
}

/// The head has eleven lines.
proof fn lemma_head(status: SolveStatus, n_vars: nat, n_constrs: nat, rest: Seq<char>, k: nat)
    ensures
        nth_line(sol_head(status, n_vars, n_constrs) + rest, k + 11) == nth_line(rest, k),
{
    reveal_strlit("ripopt ");
    reveal_strlit("0.8.0");
    reveal_strlit(": ");
    reveal_strlit("Options");
    reveal_strlit("3");
    reveal_strlit("0");
    reveal_strlit("1");
    lemma_message(status);
    lemma_decimal(n_vars);
    lemma_decimal(n_constrs);
    let title = "ripopt "@ + VERSION@ + ": "@ + message_of(status);
    let none = Seq::<char>::empty();
    let (m, n) = (decimal(n_constrs), decimal(n_vars));
    let r10 = line(n) + rest;
    let r9 = line(n) + r10;
    let r8 = line(m) + r9;
    let r7 = line(m) + r8;
    let r6 = line("0"@) + r7;
    let r5 = line("1"@) + r6;
    let r4 = line("0"@) + r5;
    let r3 = line("3"@) + r4;
    let r2 = line("Options"@) + r3;
    let r1 = line(none) + r2;
    assert(sol_head(status, n_vars, n_constrs) + rest =~= line(title) + r1);
    lemma_line_before(n, rest, k);
    lemma_line_before(n, r10, k + 1);
    lemma_line_before(m, r9, k + 2);
    lemma_line_before(m, r8, k + 3);
    lemma_line_before("0"@, r7, k + 4);
    lemma_line_before("1"@, r6, k + 5);
    lemma_line_before("0"@, r5, k + 6);
    lemma_line_before("3"@, r4, k + 7);
    lemma_line_before("Options"@, r3, k + 8);
    lemma_line_before(none, r2, k + 9);
    lemma_line_before(title, r1, k + 10);
}

/// Every number in a file reads back to its bits: the constraint multipliers
/// from line 11 on, then the variables, with zero for each that the result does
/// not have. The line after them is that of the solve code. A text of the
/// format has to stay on its line, and the text of a number that is no NaN has
/// to read back to the number.
pub proof fn numbers_read_back<D, F: Fn(u64) -> String>(
    result: SolveResult<D>,
    n_vars: nat,
    n_constrs: nat,
    format: F,
    parse: spec_fn(Seq<char>) -> Option<u64>,
    text: Seq<char>,
    i: nat,
)
    requires
        is_sol_of(result, n_vars, n_constrs, format, text),
        forall|b: u64, s: String| #[trigger]
            call_ensures(format, (b,), s) ==> on_one_line(s@) && (!nan(b) ==> parse(s@) == Some(
                b,
            )),
        i < n_constrs + n_vars,
        !nan(sol_value(result, n_constrs as int, i as int)),
    ensures
        parse(nth_line(text, i + 11)) == Some(sol_value(result, n_constrs as int, i as int)),
        nth_line(text, n_constrs + n_vars + 11) == "objno 0 "@ + decimal(
            code_of(result.status) as nat,
        ),
{
    let texts = choose|texts: Seq<String>|
        #![trigger sol_text(result.status, n_vars, n_constrs, texts)]
        {
            &&& texts.len() == n_constrs + n_vars
            &&& forall|i: int|
                0 <= i < texts.len() ==> call_ensures(
                    format,
                    (sol_value(result, n_constrs as int, i),),
                    #[trigger] texts[i],
                )
            &&& text == sol_text(result.status, n_vars, n_constrs, texts)
        };
    let count = n_constrs + n_vars;
    let code = "objno 0 "@ + decimal(code_of(result.status) as nat);
    let none = Seq::<char>::empty();
    assert forall|i: int| 0 <= i < texts.len() implies on_one_line((#[trigger] texts[i])@) by {
        assert(call_ensures(format, (sol_value(result, n_constrs as int, i),), texts[i]));
    }
    let rest = text_lines(texts, count) + line(code);
    assert(text =~= sol_head(result.status, n_vars, n_constrs) + rest);
    lemma_head(result.status, n_vars, n_constrs, rest, i);
    lemma_head(result.status, n_vars, n_constrs, rest, count);
    lemma_nth_text(texts, count, line(code), i);
    lemma_lines_skipped(texts, count, line(code), 0);
    reveal_strlit("objno 0 ");
    lemma_decimal(code_of(result.status) as nat);
    lemma_line_before(code, none, 0);
    assert(line(code) + none =~= line(code));
    assert(call_ensures(
        format,
        (sol_value(result, n_constrs as int, i as int),),
        texts[i as int],
    ));
}

/// A file depends on the status, the point and the constraint multipliers only,
/// if the format gives one text for each number.
pub proof fn files_depend_on_the_solution_only<D, E, F: Fn(u64) -> String>(
    a: SolveResult<D>,
    b: SolveResult<E>,
    n_vars: nat,
    n_constrs: nat,
    format: F,
    text_a: Seq<char>,
    text_b: Seq<char>,
)
    requires
        a.status == b.status,
        a.x@ == b.x@,
        a.constraint_multipliers@ == b.constraint_multipliers@,
        is_sol_of(a, n_vars, n_constrs, format, text_a),
        is_sol_of(b, n_vars, n_constrs, format, text_b),
        forall|v: u64, s: String, t: String| #[trigger]
            call_ensures(format, (v,), s) && #[trigger] call_ensures(format, (v,), t) ==> s@ == t@,
    ensures
        text_a == text_b,
{
    let s = choose|texts: Seq<String>|
        #![trigger sol_text(a.status, n_vars, n_constrs, texts)]
        {
            &&& texts.len() == n_constrs + n_vars
            &&& forall|i: int|
                0 <= i < texts.len() ==> call_ensures(
                    format,
                    (sol_value(a, n_constrs as int, i),),
                    #[trigger] texts[i],
                )
            &&& text_a == sol_text(a.status, n_vars, n_constrs, texts)
        };
    let t = choose|texts: Seq<String>|
        #![trigger sol_text(b.status, n_vars, n_constrs, texts)]
        {
            &&& texts.len() == n_constrs + n_vars
            &&& forall|i: int|
                0 <= i < texts.len() ==> call_ensures(
                    format,
                    (sol_value(b, n_constrs as int, i),),
                    #[trigger] texts[i],
                )
            &&& text_b == sol_text(b.status, n_vars, n_constrs, texts)
        };
    assert forall|i: int| 0 <= i < s.len() implies (#[trigger] s[i])@ == t[i]@ by {
        assert(call_ensures(format, (sol_value(a, n_constrs as int, i),), s[i]));
        assert(call_ensures(format, (sol_value(b, n_constrs as int, i),), t[i]));
    }
    lemma_same_lines(s, t, n_constrs + n_vars);
}

proof fn lemma_same_lines(s: Seq<String>, t: Seq<String>, count: nat)
    requires
        count <= s.len(),
        s.len() == t.len(),
        forall|i: int| 0 <= i < s.len() ==> (#[trigger] s[i])@ == t[i]@,
    ensures
        text_lines(s, count) == text_lines(t, count),
    decreases count,
{
    if count > 0 {
        lemma_same_lines(s, t, (count - 1) as nat);
        assert(s[count - 1]@ == t[count - 1]@);
    }
}

/// A file gives the solution back: the multiplier of constraint `j` stands in its line among the first numbers, the value of
/// variable `j` in its line behind all multipliers.
pub proof fn solutions_read_back<D, F: Fn(u64) -> String>(
    result: SolveResult<D>,
    n_vars: nat,
    n_constrs: nat,
    format: F,
    parse: spec_fn(Seq<char>) -> Option<u64>,
    text: Seq<char>,
    j: nat,
)
    requires
        is_sol_of(result, n_vars, n_constrs, format, text),
        forall|b: u64, s: String| #[trigger]
            call_ensures(format, (b,), s) ==> on_one_line(s@) && (!nan(b) ==> parse(s@) == Some(
                b,
            )),
        result.x@.len() == n_vars,
        result.constraint_multipliers@.len() == n_constrs,
    ensures
        j < n_constrs && !nan(result.constraint_multipliers@[j as int]) ==> parse(
            nth_line(text, j + 11),
        ) == Some(result.constraint_multipliers@[j as int]),
        j < n_vars && !nan(result.x@[j as int]) ==> parse(nth_line(text, n_constrs + j + 11))
            == Some(result.x@[j as int]),
{
    if j < n_constrs && !nan(result.constraint_multipliers@[j as int]) {
        numbers_read_back(result, n_vars, n_constrs, format, parse, text, j);
    }
    if j < n_vars && !nan(result.x@[j as int]) {
        numbers_read_back(result, n_vars, n_constrs, format, parse, text, n_constrs + j);
    }
}

/// The solve code tells the outcome: below 100 for an optimum alone, below 200 for a point that is nearly one, below 300
/// for a problem without a feasible point, below 400 for one without a bound, below 500 where something stopped the solver,
/// and from 500 on for failures.
pub proof fn codes_tell_the_outcome(status: SolveStatus)
    ensures
        0 <= code_of(status) < 600,
        code_of(status) < 100 <==> status is Optimal,
        100 <= code_of(status) < 200 <==> status is Acceptable || status is StopAtTinyStep,
        200 <= code_of(status) < 300 <==> status is Infeasible || status is LocalInfeasibility,
        300 <= code_of(status) < 400 <==> status is DivergingIterates,
        400 <= code_of(status) < 500 <==> status is MaxIterations || status is MaxTimeExceeded
            || status is UserRequestedStop,
        code_of(status) == 401 <==> status is MaxTimeExceeded,
{
}

/// The head of a file: the message of the status, and the numbers of constraints and of variables, each twice.
pub proof fn heads_read_back<D, F: Fn(u64) -> String>(
    result: SolveResult<D>,
    n_vars: nat,
    n_constrs: nat,
    format: F,
    text: Seq<char>,
)
    requires
        is_sol_of(result, n_vars, n_constrs, format, text),
    ensures
        nth_line(text, 0) == "ripopt "@ + VERSION@ + ": "@ + message_of(result.status),
        nth_line(text, 7) == decimal(n_constrs),
        nth_line(text, 8) == decimal(n_constrs),
        nth_line(text, 9) == decimal(n_vars),
        nth_line(text, 10) == decimal(n_vars),
{
    let texts = choose|texts: Seq<String>|
        #![trigger sol_text(result.status, n_vars, n_constrs, texts)]
        {
            &&& texts.len() == n_constrs + n_vars
            &&& forall|i: int|
                0 <= i < texts.len() ==> call_ensures(
                    format,
                    (sol_value(result, n_constrs as int, i),),
                    #[trigger] texts[i],
                )
            &&& text == sol_text(result.status, n_vars, n_constrs, texts)
        };
    let rest = text_lines(texts, n_constrs + n_vars) + line(
        "objno 0 "@ + decimal(code_of(result.status) as nat),
    );
    assert(text =~= sol_head(result.status, n_vars, n_constrs) + rest);
    lemma_head_lines(result.status, n_vars, n_constrs, rest);
}

proof fn lemma_head_lines(status: SolveStatus, n_vars: nat, n_constrs: nat, rest: Seq<char>)
    ensures
        ({
            let text = sol_head(status, n_vars, n_constrs) + rest;
            &&& nth_line(text, 0) == "ripopt "@ + VERSION@ + ": "@ + message_of(status)
            &&& nth_line(text, 7) == decimal(n_constrs)
            &&& nth_line(text, 8) == decimal(n_constrs)
            &&& nth_line(text, 9) == decimal(n_vars)
            &&& nth_line(text, 10) == decimal(n_vars)
        }),
{
    reveal_strlit("ripopt ");
    reveal_strlit("0.8.0");
    reveal_strlit(": ");
    reveal_strlit("Options");
    reveal_strlit("3");
    reveal_strlit("0");
    reveal_strlit("1");
    lemma_message(status);
    lemma_decimal(n_vars);
    lemma_decimal(n_constrs);
    let title = "ripopt "@ + VERSION@ + ": "@ + message_of(status);
    let none = Seq::<char>::empty();
    let (m, n) = (decimal(n_constrs), decimal(n_vars));
    let r10 = line(n) + rest;
    let r9 = line(n) + r10;
    let r8 = line(m) + r9;
    let r7 = line(m) + r8;
    let r6 = line("0"@) + r7;
    let r5 = line("1"@) + r6;
    let r4 = line("0"@) + r5;
    let r3 = line("3"@) + r4;
    let r2 = line("Options"@) + r3;
    let r1 = line(none) + r2;
    assert(sol_head(status, n_vars, n_constrs) + rest =~= line(title) + r1);
    assert forall|k: nat| k < 4 implies #[trigger] nth_line(line(title) + r1, k + 7) == nth_line(
        r7,
        k,
    ) by {
        lemma_line_before("0"@, r7, k);
        lemma_line_before("1"@, r6, k + 1);
        lemma_line_before("0"@, r5, k + 2);
        lemma_line_before("3"@, r4, k + 3);
        lemma_line_before("Options"@, r3, k + 4);
        lemma_line_before(none, r2, k + 5);
        lemma_line_before(title, r1, k + 6);
    }
    lemma_line_before(title, r1, 0);
    lemma_line_before(m, r8, 0);
    lemma_line_before(m, r8, 1);
    lemma_line_before(m, r8, 2);
    lemma_line_before(m, r9, 0);
    lemma_line_before(m, r9, 1);
    lemma_line_before(n, r10, 0);
    lemma_line_before(n, rest, 0);
    assert(nth_line(line(title) + r1, 0 + 7) == nth_line(r7, 0));
    assert(nth_line(line(title) + r1, 1 + 7) == nth_line(r7, 1));
    assert(nth_line(line(title) + r1, 2 + 7) == nth_line(r7, 2));
    assert(nth_line(line(title) + r1, 3 + 7) == nth_line(r7, 3));
}

} // verus!
