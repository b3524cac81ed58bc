//! AMPL `.sol` files.

use crate::result::{SolveResult, SolveStatus};
use crate::text::{push_decimal_line, push_line};
use vstd::prelude::*;

verus! {

/// Version in the first line of a `.sol` file.
pub const VERSION: &'static str = "0.8.0";

/// AMPL solve code of a status: solved below 100, solved with a warning from
/// 100, infeasible from 200, unbounded from 300, a limit reached from 400,
/// failed from 500.
pub open spec fn code_of(status: SolveStatus) -> int {
    match status {
        SolveStatus::Optimal => 0,
        SolveStatus::Acceptable | SolveStatus::StopAtTinyStep => 100,
        SolveStatus::LocalInfeasibility | SolveStatus::Infeasible => 200,
        SolveStatus::DivergingIterates => 300,
        SolveStatus::MaxIterations | SolveStatus::UserRequestedStop => 400,
        SolveStatus::MaxTimeExceeded => 401,
        SolveStatus::NumericalError | SolveStatus::EvaluationError
        | SolveStatus::RestorationFailed | SolveStatus::InternalError => 500,
    }
}

/// AMPL solve code of a status.
pub fn solve_code(status: SolveStatus) -> (code: i32)
    ensures
        code == code_of(status),
{
    match status {
        SolveStatus::Optimal => 0,
        SolveStatus::Acceptable => 100,
        SolveStatus::StopAtTinyStep => 100,
        SolveStatus::LocalInfeasibility | SolveStatus::Infeasible => 200,
        SolveStatus::DivergingIterates => 300,
        SolveStatus::MaxIterations => 400,
        SolveStatus::MaxTimeExceeded => 401,
        SolveStatus::NumericalError | SolveStatus::EvaluationError
        | SolveStatus::RestorationFailed | SolveStatus::InternalError => 500,
        SolveStatus::UserRequestedStop => 400,
    }
}

pub open spec fn message_of(status: SolveStatus) -> Seq<char> {
    match status {
        SolveStatus::Optimal => "Optimal Solution Found"@,
        SolveStatus::Acceptable => "Solved To Acceptable Level"@,
        SolveStatus::StopAtTinyStep => "Search Direction Becomes Too Small"@,
        SolveStatus::Infeasible => "Infeasible Problem Detected"@,
        SolveStatus::LocalInfeasibility => "Converged to a point of local infeasibility"@,
        SolveStatus::MaxIterations => "Maximum Number of Iterations Exceeded"@,
        SolveStatus::MaxTimeExceeded => "Maximum CPU Time Exceeded"@,
        SolveStatus::NumericalError => "Numerical Difficulties"@,
        SolveStatus::EvaluationError => "Evaluation Error in User Callbacks"@,
        SolveStatus::UserRequestedStop => "Optimization Stopped by User"@,
        SolveStatus::DivergingIterates => "Diverging Iterates"@,
        SolveStatus::RestorationFailed => "Restoration Failed"@,
        SolveStatus::InternalError => "Internal Error"@,
    }
}

/// Message of a status for the reader of a `.sol` file.
pub fn status_message(status: SolveStatus) -> (message: &'static str)
    ensures
        message@ == message_of(status),
{
    match status {
        SolveStatus::Optimal => "Optimal Solution Found",
        SolveStatus::Acceptable => "Solved To Acceptable Level",
        SolveStatus::StopAtTinyStep => "Search Direction Becomes Too Small",
        SolveStatus::Infeasible => "Infeasible Problem Detected",
        SolveStatus::LocalInfeasibility => "Converged to a point of local infeasibility",
        SolveStatus::MaxIterations => "Maximum Number of Iterations Exceeded",
        SolveStatus::MaxTimeExceeded => "Maximum CPU Time Exceeded",
        SolveStatus::NumericalError => "Numerical Difficulties",
        SolveStatus::EvaluationError => "Evaluation Error in User Callbacks",
        SolveStatus::UserRequestedStop => "Optimization Stopped by User",
        SolveStatus::DivergingIterates => "Diverging Iterates",
        SolveStatus::RestorationFailed => "Restoration Failed",
        SolveStatus::InternalError => "Internal Error",
    }
}

pub open spec fn line(s: Seq<char>) -> Seq<char> {
    s + seq!['\n']
}

/// The lines before the numbers: message, blank line, options, and each count
/// twice.
pub open spec fn sol_head(status: SolveStatus, n_vars: nat, n_constrs: nat) -> Seq<char> {
    line("ripopt "@ + VERSION@ + ": "@ + message_of(status)) + line(Seq::empty()) + line(
        "Options"@,
    ) + line("3"@) + line("0"@) + line("1"@) + line("0"@) + line(crate::text::decimal(n_constrs))
        + line(crate::text::decimal(n_constrs)) + line(crate::text::decimal(n_vars)) + line(
        crate::text::decimal(n_vars),
    )
}

/// One line for each of the first `count` texts.
pub open spec fn text_lines(texts: Seq<String>, count: nat) -> Seq<char>
    decreases count,
{
    if count == 0 {
        Seq::empty()
    } else {
        text_lines(texts, (count - 1) as nat) + line(texts[count - 1]@)
    }
}

/// The whole file: head, one line per multiplier, one line per variable, and
/// the solve code.
pub open spec fn sol_text(
    status: SolveStatus,
    n_vars: nat,
    n_constrs: nat,
    texts: Seq<String>,
) -> Seq<char> {
    sol_head(status, n_vars, n_constrs) + text_lines(texts, n_constrs + n_vars) + line(
        "objno 0 "@ + crate::text::decimal(code_of(status) as nat),
    )
}

/// The numbers in a file, in order: constraint multipliers, then variables,
/// with zero for each that the result does not have.
pub open spec fn sol_value<D>(result: SolveResult<D>, n_constrs: int, i: int) -> u64 {
    if i < n_constrs {
        if i < result.constraint_multipliers@.len() {
            result.constraint_multipliers@[i]
        } else {
            0
        }
    } else if i - n_constrs < result.x@.len() {
        result.x@[i - n_constrs]
    } else {
        0
    }
}

/// Appends `s` and a line feed to `out`, which holds `start + done` so far.
fn emit_line(out: &mut String, s: &str, Ghost(start): Ghost<Seq<char>>, Ghost(done): Ghost<Seq<char>>)
    requires
        old(out)@ == start + done,
    ensures
        final(out)@ == start + (done + line(s@)),
{
    push_line(out, s);
    assert(out@ =~= start + (done + line(s@)));
}

fn emit_count(out: &mut String, n: usize, Ghost(start): Ghost<Seq<char>>, Ghost(done): Ghost<Seq<char>>)
    requires
        old(out)@ == start + done,
    ensures
        final(out)@ == start + (done + line(crate::text::decimal(n as nat))),
{
    push_decimal_line(out, n);
    assert(out@ =~= start + (done + line(crate::text::decimal(n as nat))));
}

/// Appends the lines before the numbers.
fn write_head(writer: &mut String, status: SolveStatus, n_vars: usize, n_constrs: usize)
    ensures
        final(writer)@ == old(writer)@ + sol_head(status, n_vars as nat, n_constrs as nat),
{
    let ghost start = writer@;
    let ghost title = "ripopt "@ + VERSION@ + ": "@ + message_of(status);
    writer.append("ripopt ");
    writer.append(VERSION);
    writer.append(": ");
    push_line(writer, status_message(status));
    assert(writer@ =~= start + line(title));
    let ghost h1 = line(title);
    writer.push('\n');
    let ghost h2 = h1 + line(Seq::empty());
    assert(writer@ =~= start + h2);
    emit_line(writer, "Options", Ghost(start), Ghost(h2));
    let ghost h3 = h2 + line("Options"@);
    emit_line(writer, "3", Ghost(start), Ghost(h3));
    let ghost h4 = h3 + line("3"@);
    emit_line(writer, "0", Ghost(start), Ghost(h4));
    let ghost h5 = h4 + line("0"@);
    emit_line(writer, "1", Ghost(start), Ghost(h5));
    let ghost h6 = h5 + line("1"@);
    emit_line(writer, "0", Ghost(start), Ghost(h6));
    let ghost h7 = h6 + line("0"@);
    emit_count(writer, n_constrs, Ghost(start), Ghost(h7));
    let ghost h8 = h7 + line(crate::text::decimal(n_constrs as nat));
    emit_count(writer, n_constrs, Ghost(start), Ghost(h8));
    let ghost h9 = h8 + line(crate::text::decimal(n_constrs as nat));
    emit_count(writer, n_vars, Ghost(start), Ghost(h9));
    let ghost h10 = h9 + line(crate::text::decimal(n_vars as nat));
    emit_count(writer, n_vars, Ghost(start), Ghost(h10));
}

/// Appends the text of one number, where `writer` holds `start` and the lines
/// of `texts` so far.
fn push_number<F: Fn(u64) -> String>(
    writer: &mut String,
    value: u64,
    format: &F,
    Ghost(start): Ghost<Seq<char>>,
    Ghost(texts): Ghost<Seq<String>>,
) -> (text: Ghost<String>)
    requires
        call_requires(*format, (value,)),
        old(writer)@ == start + text_lines(texts, texts.len()),
    ensures
        call_ensures(*format, (value,), text@),
        final(writer)@ == start + text_lines(texts.push(text@), texts.len() + 1),
{
    let s: String = format(value);
    let ghost kept = s;
    emit_line(writer, s.as_str(), Ghost(start), Ghost(text_lines(texts, texts.len())));
    proof {
        lemma_text_lines_push(texts, kept);
    }
    Ghost(kept)
}

/// The text is a file of `result`, with a text that `format` gives for each
/// number.
pub open spec fn is_sol_of<D, F: Fn(u64) -> String>(
    result: SolveResult<D>,
    n_vars: nat,
    n_constrs: nat,
    format: F,
    text: Seq<char>,
) -> bool {
    exists|texts: Seq<String>|
        #![trigger sol_text(result.status, n_vars, n_constrs, texts)]
        {
            &&& texts.len() == n_constrs + n_vars
            &&& forall|i: int|
                0 <= i < texts.len() ==> call_ensures(
                    format,
                    (sol_value(result, n_constrs as int, i),),
                    #[trigger] texts[i],
                )
            &&& text == sol_text(result.status, n_vars, n_constrs, texts)
        }
}

/// Appends the `.sol` file of `result` to `writer`; `format` gives the text of
/// a number.
pub fn write_sol<D, F: Fn(u64) -> String>(
    writer: &mut String,
    result: &SolveResult<D>,
    n_vars: usize,
    n_constrs: usize,
    format: &F,
)
    requires
        forall|b: u64| call_requires(*format, (b,)),
    ensures
        exists|text: Seq<char>| #[trigger]
            is_sol_of(*result, n_vars as nat, n_constrs as nat, *format, text) && final(writer)@
                == old(writer)@ + text,
{
    let ghost origin = writer@;
    write_head(writer, result.status, n_vars, n_constrs);
    let ghost start = writer@;
    let ghost mut texts: Seq<String> = Seq::empty();
    assert(writer@ =~= start + text_lines(texts, 0));
    for i in 0..n_constrs
        invariant
            forall|b: u64| call_requires(*format, (b,)),
            texts.len() == i,
            forall|j: int|
                0 <= j < i ==> call_ensures(
                    *format,
                    (sol_value(*result, n_constrs as int, j),),
                    #[trigger] texts[j],
                ),
            writer@ == start + text_lines(texts, texts.len()),
    {
        let val: u64 = if i < result.constraint_multipliers.len() {
            result.constraint_multipliers[i]
        } else {
            0
        };
        let text = push_number(writer, val, format, Ghost(start), Ghost(texts));
        proof {
            texts = texts.push(text@);
        }
    }
    for i in 0..n_vars
        invariant
            forall|b: u64| call_requires(*format, (b,)),
            texts.len() == n_constrs + i,
            forall|j: int|
                0 <= j < n_constrs + i ==> call_ensures(
                    *format,
                    (sol_value(*result, n_constrs as int, j),),
                    #[trigger] texts[j],
                ),
            writer@ == start + text_lines(texts, texts.len()),
    {
        let val: u64 = if i < result.x.len() {
            result.x[i]
        } else {
            0
        };
        let text = push_number(writer, val, format, Ghost(start), Ghost(texts));
        proof {
            texts = texts.push(text@);
        }
    }
    writer.append("objno 0 ");
    let code: i32 = solve_code(result.status);
    push_decimal_line(writer, code as usize);
    proof {
        let head = sol_head(result.status, n_vars as nat, n_constrs as nat);
        let body = text_lines(texts, n_constrs as nat + n_vars as nat);
        let tail = line("objno 0 "@ + crate::text::decimal(code_of(result.status) as nat));
        assert(writer@ =~= origin + (head + body + tail));
        assert(head + body + tail == sol_text(
            result.status,
            n_vars as nat,
            n_constrs as nat,
            texts,
        ));
        let text = sol_text(result.status, n_vars as nat, n_constrs as nat, texts);
        assert(is_sol_of(*result, n_vars as nat, n_constrs as nat, *format, text));
    }
}

proof fn lemma_text_lines_push(texts: Seq<String>, s: String)
    ensures
        text_lines(texts.push(s), texts.len() + 1) == text_lines(texts, texts.len()) + line(s@),
{
    lemma_text_lines_prefix(texts, s, texts.len());
}

proof fn lemma_text_lines_prefix(texts: Seq<String>, s: String, count: nat)
    requires
        count <= texts.len(),
    ensures
        text_lines(texts.push(s), count) == text_lines(texts, count),
    decreases count,
{
    if count > 0 {
        lemma_text_lines_prefix(texts, s, (count - 1) as nat);
    }
}

} // verus!
