//! Problems from `.nl` texts.

use ripopt::float::{FloatOp, Fpu};
use ripopt::nl::externals::{amplfunc_paths, collect_funcall_ids, resolve_externals};
use ripopt::nl::parser::NlFileData;
use ripopt::nl::scan::Numbers;
use ripopt::nl::sol::{solve_code, status_message};
use ripopt::nl::sweeps::{ExternalArg, ExternalValue, Externals};
use ripopt::nl::{parse_nl_file, write_sol, NlProblem, SuffixKind};
use ripopt::problem::NlpProblem;
use ripopt::result::{SolveResult, SolveStatus};

fn arithmetic(op: FloatOp, a: u64, b: u64) -> u64 {
    let (x, y) = (f64::from_bits(a), f64::from_bits(b));
    let r = match op {
        FloatOp::Add => x + y,
        FloatOp::Sub => x - y,
        FloatOp::Mul => x * y,
        FloatOp::Div => x / y,
        FloatOp::Rem => x % y,
        FloatOp::Pow => x.powf(y),
        FloatOp::Atan2 => x.atan2(y),
        FloatOp::Max => x.max(y),
        FloatOp::Min => x.min(y),
        FloatOp::Floor => x.floor(),
        FloatOp::Ceil => x.ceil(),
        FloatOp::Sqrt => x.sqrt(),
        FloatOp::Exp => x.exp(),
        FloatOp::Ln => x.ln(),
        FloatOp::Log10 => x.log10(),
        FloatOp::Sin => x.sin(),
        FloatOp::Cos => x.cos(),
        FloatOp::Tan => x.tan(),
        FloatOp::Asin => x.asin(),
        FloatOp::Acos => x.acos(),
        FloatOp::Atan => x.atan(),
        FloatOp::Sinh => x.sinh(),
        FloatOp::Cosh => x.cosh(),
        FloatOp::Tanh => x.tanh(),
        FloatOp::Asinh => x.asinh(),
        FloatOp::Acosh => x.acosh(),
        FloatOp::Atanh => x.atanh(),
        FloatOp::FromCount => a as f64,
    };
    r.to_bits()
}

type Unit = Fpu<fn(FloatOp, u64, u64) -> u64>;

fn unit() -> Unit {
    Fpu { f: arithmetic }
}

fn bits(v: &[f64]) -> Vec<u64> {
    v.iter().map(|x| x.to_bits()).collect()
}

fn numbers(v: &[u64]) -> Vec<f64> {
    v.iter().map(|b| f64::from_bits(*b)).collect()
}

fn number(text: &Vec<char>) -> Option<u64> {
    let s: String = text.iter().collect();
    s.parse::<f64>().ok().map(|v| v.to_bits())
}

fn parse(text: &str) -> Result<NlFileData, String> {
    let nums: Numbers<fn(&Vec<char>) -> Option<u64>> = Numbers { p: number };
    parse_nl_file(text, &nums)
}

fn times(
    _lib: usize,
    _name: &String,
    args: &Vec<ExternalArg>,
    first: bool,
    second: bool,
) -> ExternalValue {
    let r: Vec<f64> = args
        .iter()
        .map(|a| match a {
            ExternalArg::Real(b) => f64::from_bits(*b),
            ExternalArg::Str(_) => unreachable!(),
        })
        .collect();
    ExternalValue {
        value: (r[0] * r[1]).to_bits(),
        derivs: if first { bits(&[r[1], r[0]]) } else { Vec::new() },
        hessian: if second { bits(&[0.0, 1.0, 0.0]) } else { Vec::new() },
    }
}

type Call = fn(usize, &String, &Vec<ExternalArg>, bool, bool) -> ExternalValue;
type Problem = NlProblem<fn(FloatOp, u64, u64) -> u64, Call>;

fn build(text: &str, paths: &[&str], names: &[&[&str]]) -> Result<Problem, String> {
    let paths: Vec<String> = paths.iter().map(|s| s.to_string()).collect();
    let names: Vec<Vec<String>> =
        names.iter().map(|l| l.iter().map(|s| s.to_string()).collect()).collect();
    let ext: Externals<Call> = Externals { f: times };
    NlProblem::from_nl_data(parse(text)?, &paths, &names, unit(), ext)
}

const HEAD: &str = "g3 1 1 0\n 2 1 1 0 1\n 0 1\n 0 0\n 2 2 2\n 0 0 0 1\n 0 0 0 0 0\n 2 3\n 0 0\n 0 0 0 0 0\n";

/// `x^2 + x y` with `x + 2 y = 3`, `y` in `[0, 5]`.
fn text(objective: &str) -> String {
    format!(
        "{}C0\nn0\n{}\no0\no5\nv0\nn2\no2\nv0\nv1\nx1\n0 1.5\nr\n4 3\nb\n3\n0 0 5\nk1\n1\nJ0 2\n0 1\n1 2\n",
        HEAD, objective
    )
}

#[test]
fn a_small_problem_is_read() {
    let d = parse(&text("O0 0")).unwrap();
    assert_eq!((d.header.n_vars, d.header.n_constrs, d.header.n_objs), (2, 1, 1));
    assert_eq!(numbers(&d.x_l), vec![f64::NEG_INFINITY, 0.0]);
    assert_eq!(numbers(&d.x_u), vec![f64::INFINITY, 5.0]);
    assert_eq!(numbers(&d.g_l), vec![3.0]);
    assert_eq!(numbers(&d.g_u), vec![3.0]);
    assert_eq!(numbers(&d.x0), vec![1.5, 0.0]);
    assert_eq!(d.con_linear[0], vec![(0, 1.0f64.to_bits()), (1, 2.0f64.to_bits())]);
    assert!(!d.obj_exprs[0].1);
}

#[test]
fn a_small_problem_is_evaluated() {
    let p = build(&text("O0 0"), &[], &[]).unwrap();
    assert_eq!((p.num_variables(), p.num_constraints()), (2, 1));
    let x = bits(&[3.0, 2.0]);
    let mut f = 0u64;
    assert!(p.objective(&x, true, &mut f));
    assert_eq!(f64::from_bits(f), 15.0);
    let mut grad = bits(&[0.0, 0.0]);
    assert!(p.gradient(&x, true, &mut grad));
    assert_eq!(numbers(&grad), vec![8.0, 3.0]);
    let mut g = bits(&[0.0]);
    assert!(p.constraints(&x, true, &mut g));
    assert_eq!(numbers(&g), vec![7.0]);
    assert_eq!(p.jacobian_structure(), (vec![0, 0], vec![0, 1]));
    let mut jac = bits(&[0.0, 0.0]);
    assert!(p.jacobian_values(&x, true, &mut jac));
    assert_eq!(numbers(&jac), vec![1.0, 2.0]);
    assert_eq!(p.hessian_structure(), (vec![0, 1], vec![0, 0]));
    let mut hess = bits(&[9.0, 9.0]);
    assert!(p.hessian_values(&x, true, 1.0f64.to_bits(), &bits(&[4.0]), &mut hess));
    assert_eq!(numbers(&hess), vec![2.0, 1.0]);
    let mut x0 = bits(&[0.0, 0.0]);
    p.initial_point(&mut x0);
    assert_eq!(numbers(&x0), vec![1.5, 0.0]);
}

#[test]
fn a_maximized_objective_is_negated() {
    let p = build(&text("O0 1"), &[], &[]).unwrap();
    let x = bits(&[3.0, 2.0]);
    let mut f = 0u64;
    assert!(p.objective(&x, true, &mut f));
    assert_eq!(f64::from_bits(f), -15.0);
    let mut grad = bits(&[0.0, 0.0]);
    assert!(p.gradient(&x, true, &mut grad));
    assert_eq!(numbers(&grad), vec![-8.0, -3.0]);
    let mut hess = bits(&[0.0, 0.0]);
    assert!(p.hessian_values(&x, true, 1.0f64.to_bits(), &bits(&[0.0]), &mut hess));
    assert_eq!(numbers(&hess), vec![-2.0, -1.0]);
}

#[test]
fn bad_texts_are_refused() {
    assert_eq!(parse("").unwrap_err(), "Incomplete header");
    let binary = HEAD.replacen("g3", "b3", 1);
    assert_eq!(parse(&binary).unwrap_err(), "Not a text file");
    let header = HEAD.replacen(" 2 1 1", " 2 x 1", 1);
    assert_eq!(parse(&header).unwrap_err(), "Bad header line");
    let segment = format!("{}Cx\nn0\n", HEAD);
    assert!(parse(&segment).unwrap_err().starts_with("Bad C segment index 'x': "));
    let cut = format!("{}C0\no0\nv0\n", HEAD);
    assert_eq!(parse(&cut).unwrap_err(), "Unexpected end of expression");
}

#[test]
fn suffixes_give_scaling_factors() {
    let d = parse(&format!(
        "{}S4 1 scaling_factor\n1 4.0\nS5 1 scaling_factor\n0 0.5\nS6 1 scaling_factor\n0 2\n",
        text("O0 0")
    ))
    .unwrap();
    assert_eq!(d.suffixes.len(), 3);
    assert_eq!(d.suffixes[0].kind, SuffixKind::Variable);
    assert!(d.suffixes[0].float_valued);
    let f = d.scaling_factors();
    assert!(!f.is_empty());
    assert_eq!(numbers(&f.x.unwrap()), vec![1.0, 4.0]);
    assert_eq!(numbers(&f.g.unwrap()), vec![0.5]);
    assert_eq!(f.obj.map(f64::from_bits), Some(2.0));
    assert!(parse(&text("O0 0")).unwrap().scaling_factors().is_empty());
}

fn calling() -> String {
    format!("{}F3 0 2 times\nO0 0\nf3 2\nv0\nv1\nC0\nn0\n", HEAD)
}

#[test]
fn imported_functions_are_found_in_the_libraries() {
    let d = parse(&calling()).unwrap();
    assert_eq!(collect_funcall_ids(&d), vec![3]);
    let p = build(&calling(), &["/lib/a.so", "/lib/b.so"], &[&["plus"], &["minus", "times"]]);
    let p = p.unwrap();
    let x = bits(&[3.0, 5.0]);
    let mut f = 0u64;
    assert!(p.objective(&x, true, &mut f));
    assert_eq!(f64::from_bits(f), 15.0);
    let r = resolve_externals(
        &d,
        &vec!["/lib/a.so".to_string(), "/lib/b.so".to_string()],
        &vec![vec!["plus".to_string()], vec!["times".to_string()]],
    )
    .unwrap();
    assert_eq!(r.funcs_by_id.get(&3), Some(&(1, "times".to_string())));
}

#[test]
fn functions_without_a_library_are_reported() {
    let none = build(&calling(), &[], &[]).err().unwrap();
    assert!(none.starts_with("problem uses external function 'times' but AMPLFUNC is not set."));
    let other = build(&calling(), &["/lib/a.so"], &[&["plus"]]).err().unwrap();
    assert_eq!(
        other,
        "external function 'times' (F3) was not registered by any AMPLFUNC library; \
         loaded: [/lib/a.so]"
    );
    let undeclared = calling().replacen("F3 0 2 times\n", "", 1);
    let missing = build(&undeclared, &["/lib/a.so"], &[&["times"]]).err().unwrap();
    assert_eq!(missing, "problem references Funcall id=3 but no F-segment declares it");
}

#[test]
fn library_paths_are_split_at_newlines_and_colons() {
    assert_eq!(amplfunc_paths("/a.so\n/b.so"), vec!["/a.so", "/b.so"]);
    assert_eq!(amplfunc_paths("/a.so:/b.so"), vec!["/a.so", "/b.so"]);
    assert!(amplfunc_paths("").is_empty());
}

fn shown(b: u64) -> String {
    format!("{:.17e}", f64::from_bits(b))
}

#[test]
fn a_solution_is_written() {
    let r = SolveResult {
        x: bits(&[1.0]),
        objective: 0,
        constraint_multipliers: bits(&[-0.5]),
        bound_multipliers_lower: Vec::new(),
        bound_multipliers_upper: Vec::new(),
        constraint_values: Vec::new(),
        status: SolveStatus::Acceptable,
        iterations: 1,
        diagnostics: "from the solver",
    };
    let mut out = String::from("> ");
    write_sol(&mut out, &r, 2, 1, &shown);
    assert_eq!(
        out,
        "> ripopt 0.8.0: Solved To Acceptable Level\n\nOptions\n3\n0\n1\n0\n1\n1\n2\n2\n\
         -5.00000000000000000e-1\n1.00000000000000000e0\n0.00000000000000000e0\nobjno 0 100\n"
    );
}

#[test]
fn each_status_has_its_code_and_message() {
    assert_eq!(solve_code(SolveStatus::Optimal), 0);
    assert_eq!(solve_code(SolveStatus::StopAtTinyStep), 100);
    assert_eq!(solve_code(SolveStatus::Infeasible), 200);
    assert_eq!(solve_code(SolveStatus::LocalInfeasibility), 200);
    assert_eq!(solve_code(SolveStatus::DivergingIterates), 300);
    assert_eq!(solve_code(SolveStatus::UserRequestedStop), 400);
    assert_eq!(solve_code(SolveStatus::InternalError), 500);
    assert_eq!(status_message(SolveStatus::Optimal), "Optimal Solution Found");
    assert_eq!(status_message(SolveStatus::RestorationFailed), "Restoration Failed");
}

#[test]
fn a_written_solution_reads_back() {
    let x = [0.1, -1.0 / 3.0, f64::MIN_POSITIVE, f64::INFINITY];
    let lambda = [-0.0, 1e300];
    let r = SolveResult {
        x: bits(&x),
        objective: 0,
        constraint_multipliers: bits(&lambda),
        bound_multipliers_lower: Vec::new(),
        bound_multipliers_upper: Vec::new(),
        constraint_values: Vec::new(),
        status: SolveStatus::Optimal,
        iterations: 1,
        diagnostics: 5u32,
    };
    let mut out = String::new();
    write_sol(&mut out, &r, 4, 2, &shown);
    let lines: Vec<&str> = out.split('\n').collect();
    let expected: Vec<f64> = lambda.iter().chain(x.iter()).copied().collect();
    for (i, v) in expected.iter().enumerate() {
        assert_eq!(lines[11 + i].parse::<f64>().unwrap().to_bits(), v.to_bits());
    }
    assert_eq!(lines[17], "objno 0 0");
    let other = SolveResult { objective: 9, iterations: 8, diagnostics: (), ..plain(&r) };
    let mut again = String::new();
    write_sol(&mut again, &other, 4, 2, &shown);
    assert_eq!(out, again);
}

fn plain(r: &SolveResult<u32>) -> SolveResult {
    SolveResult {
        x: r.x.clone(),
        objective: r.objective,
        constraint_multipliers: r.constraint_multipliers.clone(),
        bound_multipliers_lower: vec![1],
        bound_multipliers_upper: vec![2],
        constraint_values: vec![3],
        status: r.status,
        iterations: r.iterations,
        diagnostics: (),
    }
}
