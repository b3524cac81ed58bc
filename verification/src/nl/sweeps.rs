//! Values, gradients and Hessians of tapes.
//!
//! The derivative rules are tables: for each operation, what it adds to the
//! adjoints of its operands. The sweeps apply the tables in tape order.

use crate::float::{
    abs, absolute, eq, le, lt, neg, negated, num_eq, num_le, num_lt, Fpu, FloatOp, MINUS_ONE, ONE,
    TWO, ZERO,
};
use crate::linear_solver::dense_matrix::{lemma_triangle, triangle};
use crate::nl::autodiff::{
    arg_models, op_model, ordered, reads, ArgModel, FuncallArg, OpModel, Tape, TapeOp,
};
use crate::nl::expr::{BinaryOp, UnaryOp};
use crate::nl::meaning::{arg_values, op_value, run, Algebra, ArgValue};
use crate::sorted::{increasing, insert, lemma_increasing_unique};
use std::collections::HashMap;
use vstd::prelude::*;

verus! {

broadcast use vstd::std_specs::hash::group_hash_axioms;

/// One half.
pub const HALF: u64 = 0x3fe0_0000_0000_0000;

/// Minus two.
pub const MINUS_TWO: u64 = 0xc000_0000_0000_0000;

/// Minus one quarter.
pub const MINUS_QUARTER: u64 = 0xbfd0_0000_0000_0000;

/// Natural logarithm of ten.
pub const LN_10: u64 = 0x4002_6bb1_bbb5_5516;

/// An argument handed to an imported function.
#[derive(Debug)]
pub enum ExternalArg {
    Real(u64),
    Str(String),
}

/// What an imported function gives: its value, its derivatives by the real
/// arguments, and its second derivatives by pairs of them, packed as the upper
/// triangle column by column.
#[derive(Debug)]
pub struct ExternalValue {
    pub value: u64,
    pub derivs: Vec<u64>,
    pub hessian: Vec<u64>,
}

/// Mathematical model of [`ExternalValue`].
pub struct ExternalModel {
    pub value: u64,
    pub derivs: Seq<u64>,
    pub hessian: Seq<u64>,
}

pub open spec fn external_model(v: ExternalValue) -> ExternalModel {
    ExternalModel { value: v.value, derivs: v.derivs@, hessian: v.hessian@ }
}

pub open spec fn external_args(args: Seq<ExternalArg>) -> Seq<ArgValue<u64>> {
    args.map_values(
        |a: ExternalArg|
            match a {
                ExternalArg::Real(v) => ArgValue::Num(v),
                ExternalArg::Str(s) => ArgValue::Str(s@),
            },
    )
}

/// Number of real arguments.
pub open spec fn real_count<T>(args: Seq<ArgValue<T>>) -> nat
    decreases args.len(),
{
    if args.len() == 0 {
        0
    } else {
        real_count(args.drop_last()) + if args.last() is Num {
            1nat
        } else {
            0nat
        }
    }
}

/// The imported functions, as a function from the index of a library, a name
/// and arguments to the values; the two flags ask for first and for second
/// derivatives.
pub struct Externals<E> {
    pub f: E,
}

impl<E: Fn(usize, &String, &Vec<ExternalArg>, bool, bool) -> ExternalValue> Externals<E> {
    /// A call may give `m`.
    pub open spec fn gives(
        &self,
        lib: usize,
        name: Seq<char>,
        args: Seq<ArgValue<u64>>,
        first: bool,
        second: bool,
        m: ExternalModel,
    ) -> bool {
        exists|n: String, a: Vec<ExternalArg>, r: ExternalValue| #[trigger]
            call_ensures(self.f, (lib, &n, &a, first, second), r) && n@ == name && external_args(a@)
                == args && external_model(r) == m
    }

    /// Every call succeeds, equal arguments have one result, and the
    /// derivatives that were asked for are all there.
    pub open spec fn sound(&self) -> bool {
        &&& forall|lib: usize, n: String, a: Vec<ExternalArg>, first: bool, second: bool|
            #[trigger] call_requires(self.f, (lib, &n, &a, first, second))
        &&& forall|
            lib: usize,
            name: Seq<char>,
            args: Seq<ArgValue<u64>>,
            first: bool,
            second: bool,
            m1: ExternalModel,
            m2: ExternalModel,
        |
            #[trigger] self.gives(lib, name, args, first, second, m1) && #[trigger] self.gives(
                lib,
                name,
                args,
                first,
                second,
                m2,
            ) ==> m1 == m2
        &&& forall|
            lib: usize,
            name: Seq<char>,
            args: Seq<ArgValue<u64>>,
            first: bool,
            second: bool,
            m: ExternalModel,
        |
            #[trigger] self.gives(lib, name, args, first, second, m) ==> (first ==> m.derivs.len()
                == real_count(args)) && (second ==> m.hessian.len() == triangle(real_count(args)))
    }

    /// What a call gives.
    pub open spec fn result(
        &self,
        lib: usize,
        name: Seq<char>,
        args: Seq<ArgValue<u64>>,
        first: bool,
        second: bool,
    ) -> ExternalModel {
        choose|m: ExternalModel| #[trigger] self.gives(lib, name, args, first, second, m)
    }

    fn call(&self, lib: usize, name: &String, args: &Vec<ExternalArg>, first: bool, second: bool) -> (
    v: ExternalValue)
        requires
            self.sound(),
        ensures
            external_model(v) == self.result(lib, name@, external_args(args@), first, second),
            first ==> v.derivs@.len() == real_count(external_args(args@)),
            second ==> v.hessian@.len() == triangle(real_count(external_args(args@))),
    {
        assert(call_requires(self.f, (lib, name, args, first, second)));
        let v: ExternalValue = (self.f)(lib, name, args, first, second);
        proof {
            let m = external_model(v);
            assert(self.gives(lib, name@, external_args(args@), first, second, m));
        }
        v
    }
}

/// A tape operation by the number of its operands.
enum OpShape<'a> {
    Const(u64),
    Var(usize),
    Binary(BinaryOp, usize, usize),
    Unary(UnaryOp, usize),
    Call(usize, &'a String, &'a Vec<FuncallArg>),
}

spec fn shape_model(s: OpShape) -> OpModel {
    match s {
        OpShape::Const(c) => OpModel::Const(c),
        OpShape::Var(i) => OpModel::Var(i as int),
        OpShape::Binary(o, a, b) => OpModel::Binary(o, a as int, b as int),
        OpShape::Unary(o, a) => OpModel::Unary(o, a as int),
        OpShape::Call(l, n, args) => OpModel::Call(
            l as int,
            n@,
            arg_models(args@),
        ),
    }
}

fn shape<'a>(op: &'a TapeOp) -> (s: OpShape<'a>)
    ensures
        shape_model(s) == op_model(*op),
{
    match op {
        TapeOp::Const(c) => OpShape::Const(*c),
        TapeOp::Var(i) => OpShape::Var(*i),
        TapeOp::Add(a, b) => OpShape::Binary(BinaryOp::Add, *a, *b),
        TapeOp::Sub(a, b) => OpShape::Binary(BinaryOp::Sub, *a, *b),
        TapeOp::Mul(a, b) => OpShape::Binary(BinaryOp::Mul, *a, *b),
        TapeOp::Div(a, b) => OpShape::Binary(BinaryOp::Div, *a, *b),
        TapeOp::Mod(a, b) => OpShape::Binary(BinaryOp::Mod, *a, *b),
        TapeOp::Pow(a, b) => OpShape::Binary(BinaryOp::Pow, *a, *b),
        TapeOp::Atan2(a, b) => OpShape::Binary(BinaryOp::Atan2, *a, *b),
        TapeOp::Less(a, b) => OpShape::Binary(BinaryOp::Less, *a, *b),
        TapeOp::IntDiv(a, b) => OpShape::Binary(BinaryOp::IntDiv, *a, *b),
        TapeOp::Abs(a) => OpShape::Unary(UnaryOp::Abs, *a),
        TapeOp::Neg(a) => OpShape::Unary(UnaryOp::Neg, *a),
        TapeOp::Floor(a) => OpShape::Unary(UnaryOp::Floor, *a),
        TapeOp::Ceil(a) => OpShape::Unary(UnaryOp::Ceil, *a),
        TapeOp::Tanh(a) => OpShape::Unary(UnaryOp::Tanh, *a),
        TapeOp::Tan(a) => OpShape::Unary(UnaryOp::Tan, *a),
        TapeOp::Sqrt(a) => OpShape::Unary(UnaryOp::Sqrt, *a),
        TapeOp::Sinh(a) => OpShape::Unary(UnaryOp::Sinh, *a),
        TapeOp::Sin(a) => OpShape::Unary(UnaryOp::Sin, *a),
        TapeOp::Log10(a) => OpShape::Unary(UnaryOp::Log10, *a),
        TapeOp::Log(a) => OpShape::Unary(UnaryOp::Log, *a),
        TapeOp::Exp(a) => OpShape::Unary(UnaryOp::Exp, *a),
        TapeOp::Cosh(a) => OpShape::Unary(UnaryOp::Cosh, *a),
        TapeOp::Cos(a) => OpShape::Unary(UnaryOp::Cos, *a),
        TapeOp::Atanh(a) => OpShape::Unary(UnaryOp::Atanh, *a),
        TapeOp::Atan(a) => OpShape::Unary(UnaryOp::Atan, *a),
        TapeOp::Asinh(a) => OpShape::Unary(UnaryOp::Asinh, *a),
        TapeOp::Asin(a) => OpShape::Unary(UnaryOp::Asin, *a),
        TapeOp::Acosh(a) => OpShape::Unary(UnaryOp::Acosh, *a),
        TapeOp::Acos(a) => OpShape::Unary(UnaryOp::Acos, *a),
        TapeOp::Funcall { lib, name, args } => OpShape::Call(*lib, name, args),
    }
}

/// Value of an operation of two operands.
pub open spec fn binary_value<F: Fn(FloatOp, u64, u64) -> u64>(
    op: BinaryOp,
    lv: u64,
    rv: u64,
    fpu: Fpu<F>,
) -> u64 {
    match op {
        BinaryOp::Add => {
            fpu.sum(lv, rv)
        },
        BinaryOp::Sub => {
            fpu.difference(lv, rv)
        },
        BinaryOp::Mul => {
            fpu.product(lv, rv)
        },
        BinaryOp::Div => {
            fpu.quotient(lv, rv)
        },
        BinaryOp::Mod => {
            fpu.calc(FloatOp::Rem, lv, rv)
        },
        BinaryOp::Pow => {
            fpu.calc(FloatOp::Pow, lv, rv)
        },
        BinaryOp::Atan2 => {
            fpu.calc(FloatOp::Atan2, lv, rv)
        },
        BinaryOp::Less => {
            if num_lt(lv, rv) {
                lv
            } else {
                rv
            }
        },
        BinaryOp::IntDiv => {
            fpu.calc(FloatOp::Floor, fpu.quotient(lv, rv), ZERO)
        },
    }
}

/// Value of an operation of one operand.
pub open spec fn unary_value<F: Fn(FloatOp, u64, u64) -> u64>(
    op: UnaryOp,
    u: u64,
    fpu: Fpu<F>,
) -> u64 {
    match op {
        UnaryOp::Abs => absolute(u),
        UnaryOp::Neg => negated(u),
        UnaryOp::Floor => fpu.calc(FloatOp::Floor, u, ZERO),
        UnaryOp::Ceil => fpu.calc(FloatOp::Ceil, u, ZERO),
        UnaryOp::Tanh => fpu.calc(FloatOp::Tanh, u, ZERO),
        UnaryOp::Tan => fpu.calc(FloatOp::Tan, u, ZERO),
        UnaryOp::Sqrt => fpu.calc(FloatOp::Sqrt, u, ZERO),
        UnaryOp::Sinh => fpu.calc(FloatOp::Sinh, u, ZERO),
        UnaryOp::Sin => fpu.calc(FloatOp::Sin, u, ZERO),
        UnaryOp::Log10 => fpu.calc(FloatOp::Log10, u, ZERO),
        UnaryOp::Log => fpu.calc(FloatOp::Ln, u, ZERO),
        UnaryOp::Exp => fpu.calc(FloatOp::Exp, u, ZERO),
        UnaryOp::Cosh => fpu.calc(FloatOp::Cosh, u, ZERO),
        UnaryOp::Cos => fpu.calc(FloatOp::Cos, u, ZERO),
        UnaryOp::Atanh => fpu.calc(FloatOp::Atanh, u, ZERO),
        UnaryOp::Atan => fpu.calc(FloatOp::Atan, u, ZERO),
        UnaryOp::Asinh => fpu.calc(FloatOp::Asinh, u, ZERO),
        UnaryOp::Asin => fpu.calc(FloatOp::Asin, u, ZERO),
        UnaryOp::Acosh => fpu.calc(FloatOp::Acosh, u, ZERO),
        UnaryOp::Acos => fpu.calc(FloatOp::Acos, u, ZERO),
    }
}

fn eval_binary<F: Fn(FloatOp, u64, u64) -> u64>(op: BinaryOp, lv: u64, rv: u64, fpu: &Fpu<F>) -> (v:
    u64)
    requires
        fpu.sound(),
    ensures
        v == binary_value(op, lv, rv, *fpu),
{
    match op {
        BinaryOp::Add => {
            fpu.add(lv, rv)
        },
        BinaryOp::Sub => {
            fpu.sub(lv, rv)
        },
        BinaryOp::Mul => {
            fpu.mul(lv, rv)
        },
        BinaryOp::Div => {
            fpu.div(lv, rv)
        },
        BinaryOp::Mod => {
            fpu.run(FloatOp::Rem, lv, rv)
        },
        BinaryOp::Pow => {
            fpu.run(FloatOp::Pow, lv, rv)
        },
        BinaryOp::Atan2 => {
            fpu.run(FloatOp::Atan2, lv, rv)
        },
        BinaryOp::Less => {
            if lt(lv, rv) {
                lv
            } else {
                rv
            }
        },
        BinaryOp::IntDiv => {
            fpu.run(FloatOp::Floor, fpu.div(lv, rv), ZERO)
        },
    }
}

fn eval_unary<F: Fn(FloatOp, u64, u64) -> u64>(op: UnaryOp, u: u64, fpu: &Fpu<F>) -> (v: u64)
    requires
        fpu.sound(),
    ensures
        v == unary_value(op, u, *fpu),
{
    match op {
        UnaryOp::Abs => abs(u),
        UnaryOp::Neg => neg(u),
        UnaryOp::Floor => fpu.run(FloatOp::Floor, u, ZERO),
        UnaryOp::Ceil => fpu.run(FloatOp::Ceil, u, ZERO),
        UnaryOp::Tanh => fpu.run(FloatOp::Tanh, u, ZERO),
        UnaryOp::Tan => fpu.run(FloatOp::Tan, u, ZERO),
        UnaryOp::Sqrt => fpu.run(FloatOp::Sqrt, u, ZERO),
        UnaryOp::Sinh => fpu.run(FloatOp::Sinh, u, ZERO),
        UnaryOp::Sin => fpu.run(FloatOp::Sin, u, ZERO),
        UnaryOp::Log10 => fpu.run(FloatOp::Log10, u, ZERO),
        UnaryOp::Log => fpu.run(FloatOp::Ln, u, ZERO),
        UnaryOp::Exp => fpu.run(FloatOp::Exp, u, ZERO),
        UnaryOp::Cosh => fpu.run(FloatOp::Cosh, u, ZERO),
        UnaryOp::Cos => fpu.run(FloatOp::Cos, u, ZERO),
        UnaryOp::Atanh => fpu.run(FloatOp::Atanh, u, ZERO),
        UnaryOp::Atan => fpu.run(FloatOp::Atan, u, ZERO),
        UnaryOp::Asinh => fpu.run(FloatOp::Asinh, u, ZERO),
        UnaryOp::Asin => fpu.run(FloatOp::Asin, u, ZERO),
        UnaryOp::Acosh => fpu.run(FloatOp::Acosh, u, ZERO),
        UnaryOp::Acos => fpu.run(FloatOp::Acos, u, ZERO),
    }
}

/// The interpretation of the operators by binary64 arithmetic, with `x` for
/// the problem variables.
pub open spec fn float_algebra<
    F: Fn(FloatOp, u64, u64) -> u64,
    E: Fn(usize, &String, &Vec<ExternalArg>, bool, bool) -> ExternalValue,
>(x: Seq<u64>, fpu: Fpu<F>, ext: Externals<E>) -> Algebra<u64> {
    Algebra {
        constant: |c: u64| c,
        variable: |i: int| x[i],
        binary: |o: BinaryOp, a: u64, b: u64| binary_value(o, a, b, fpu),
        unary: |o: UnaryOp, a: u64| unary_value(o, a, fpu),
        call: |l: int, n: Seq<char>, args: Seq<ArgValue<u64>>|
            ext.result(l as usize, n, args, false, false).value,
    }
}

/// Every problem variable on the tape is below `n`.
pub open spec fn variables_below(ops: Seq<OpModel>, n: int) -> bool {
    forall|i: int|
        0 <= i < ops.len() ==> match #[trigger] ops[i] {
            OpModel::Var(j) => 0 <= j < n,
            _ => true,
        }
}

/// No problem variable on the tape has a negative number.
pub open spec fn variables_counted(ops: Seq<OpModel>) -> bool {
    forall|i: int|
        0 <= i < ops.len() ==> match #[trigger] ops[i] {
            OpModel::Var(j) => 0 <= j,
            _ => true,
        }
}

/// Reads the arguments of a call off the values of the tape.
fn funcall_ext_args(args: &Vec<FuncallArg>, vals: &Vec<u64>) -> (out: Vec<ExternalArg>)
    requires
        forall|k: int|
            0 <= k < args@.len() ==> match #[trigger] args@[k] {
                FuncallArg::Tape(t) => t < vals@.len(),
                FuncallArg::Str(_) => true,
            },
    ensures
        external_args(out@) == arg_values(
            arg_models(args@),
            vals@,
        ),
{
    let mut out: Vec<ExternalArg> = Vec::new();
    let ghost list = arg_models(args@);
    for k in 0..args.len()
        invariant
            list == arg_models(args@),
            forall|k: int|
                0 <= k < args@.len() ==> match #[trigger] args@[k] {
                    FuncallArg::Tape(t) => t < vals@.len(),
                    FuncallArg::Str(_) => true,
                },
            out@.len() == k,
            forall|p: int|
                0 <= p < k ==> #[trigger] external_args(out@)[p] == arg_values(list, vals@)[p],
    {
        let ghost before = out@;
        match &args[k] {
            FuncallArg::Tape(t) => {
                out.push(ExternalArg::Real(vals[*t]));
            },
            FuncallArg::Str(s) => {
                out.push(ExternalArg::Str(s.clone()));
            },
        }
        assert forall|p: int| 0 <= p < k + 1 implies #[trigger] external_args(out@)[p]
            == arg_values(list, vals@)[p] by {
            if p < k {
                assert(external_args(out@)[p] == external_args(before)[p]);
            }
        }
    }
    assert(external_args(out@) =~= arg_values(list, vals@));
    out
}

proof fn lemma_call_args_in_range(op: OpModel, args: Seq<FuncallArg>, l: int, n: Seq<char>, len: int)
    requires
        op == OpModel::Call(l, n, arg_models(args)),
        forall|t: int| #[trigger] reads(op, t) ==> 0 <= t < len,
    ensures
        forall|k: int|
            0 <= k < args.len() ==> match #[trigger] args[k] {
                FuncallArg::Tape(t) => t < len,
                FuncallArg::Str(_) => true,
            },
{
    let list = arg_models(args);
    assert forall|k: int| 0 <= k < args.len() implies match #[trigger] args[k] {
        FuncallArg::Tape(t) => t < len,
        FuncallArg::Str(_) => true,
    } by {
        match args[k] {
            FuncallArg::Tape(t) => {
                assert(list[k] == ArgModel::Tape(t as int));
                assert(list.contains(list[k]));
                assert(reads(op, t as int));
            },
            FuncallArg::Str(_) => {},
        }
    }
}

/// An addition to an adjoint, or to a second-order adjoint.
struct Update {
    target: usize,
    second: bool,
    subtract: bool,
    amount: u64,
}

/// Mathematical model of an addition to an adjoint.
pub struct UpdateModel {
    pub target: int,
    pub second: bool,
    pub subtract: bool,
    pub amount: u64,
}

spec fn update_models(ups: Seq<Update>) -> Seq<UpdateModel> {
    ups.map_values(
        |u: Update|
            UpdateModel {
                target: u.target as int,
                second: u.second,
                subtract: u.subtract,
                amount: u.amount,
            },
    )
}

fn push_update(out: &mut Vec<Update>, u: Update)
    ensures
        update_models(final(out)@) == update_models(old(out)@).push(
            UpdateModel {
                target: u.target as int,
                second: u.second,
                subtract: u.subtract,
                amount: u.amount,
            },
        ),
{
    let ghost m = UpdateModel {
        target: u.target as int,
        second: u.second,
        subtract: u.subtract,
        amount: u.amount,
    };
    out.push(u);
    assert(update_models(out@) =~= update_models(old(out)@).push(m));
}

/// `a` after the first `k` of the updates that go to it.
pub open spec fn applied<F: Fn(FloatOp, u64, u64) -> u64>(
    a: Seq<u64>,
    ups: Seq<UpdateModel>,
    k: nat,
    second: bool,
    fpu: Fpu<F>,
) -> Seq<u64>
    decreases k,
{
    if k == 0 {
        a
    } else {
        let before = applied(a, ups, (k - 1) as nat, second, fpu);
        let u = ups[k - 1];
        if u.second != second {
            before
        } else if u.subtract {
            before.update(u.target, fpu.difference(before[u.target], u.amount))
        } else {
            before.update(u.target, fpu.sum(before[u.target], u.amount))
        }
    }
}

fn apply_updates<F: Fn(FloatOp, u64, u64) -> u64>(
    a: &mut Vec<u64>,
    ups: &Vec<Update>,
    second: bool,
    fpu: &Fpu<F>,
)
    requires
        fpu.sound(),
        forall|k: int| 0 <= k < ups@.len() ==> (#[trigger] ups@[k]).target < old(a)@.len(),
    ensures
        final(a)@ == applied(
            old(a)@,
            update_models(ups@),
            ups@.len(),
            second,
            *fpu,
        ),
        final(a)@.len() == old(a)@.len(),
{
    let ghost before = a@;
    for k in 0..ups.len()
        invariant
            fpu.sound(),
            a@.len() == before.len(),
            forall|k: int| 0 <= k < ups@.len() ==> (#[trigger] ups@[k]).target < before.len(),
            a@ == applied(before, update_models(ups@), k as nat, second, *fpu),
    {
        let t: usize = ups[k].target;
        assert(update_models(ups@)[k as int].target == t);
        if ups[k].second == second {
            let now: u64 = a[t];
            if ups[k].subtract {
                a.set(t, fpu.sub(now, ups[k].amount));
            } else {
                a.set(t, fpu.add(now, ups[k].amount));
            }
        }
    }
}

/// What an operation of two operands adds to their adjoints: `a` is its own
/// adjoint, `y` its value, `lv` and `rv` the values of the operands `l` and
/// `r`. Where the derivative does not exist the operand is left out, or gets
/// the derivative of the nearest smooth branch.
pub open spec fn first_binary<F: Fn(FloatOp, u64, u64) -> u64>(
    op: BinaryOp,
    l: int,
    r: int,
    a: u64,
    y: u64,
    lv: u64,
    rv: u64,
    fpu: Fpu<F>,
) -> Seq<UpdateModel> {
    match op {
        BinaryOp::Add => {
            seq![
                UpdateModel { target: l, second: false, subtract: false, amount: a },
                UpdateModel { target: r, second: false, subtract: false, amount: a },
            ]
        },
        BinaryOp::Sub => {
            seq![
                UpdateModel { target: l, second: false, subtract: false, amount: a },
                UpdateModel { target: r, second: false, subtract: true, amount: a },
            ]
        },
        BinaryOp::Mul => {
            seq![
                UpdateModel { target: l, second: false, subtract: false, amount: fpu.product(a, rv) },
                UpdateModel { target: r, second: false, subtract: false, amount: fpu.product(a, lv) },
            ]
        },
        BinaryOp::Div => {
            seq![
                UpdateModel { target: l, second: false, subtract: false, amount: fpu.quotient(a, rv) },
                UpdateModel { target: r, second: false, subtract: true, amount: fpu.quotient(fpu.product(a, lv), fpu.product(rv, rv)) },
            ]
        },
        BinaryOp::Mod => {
            seq![
                UpdateModel { target: l, second: false, subtract: false, amount: a },
            ]
        },
        BinaryOp::Pow => {
            let u1 = if !num_eq(rv, ZERO) {
                let u2 = Seq::empty().push(UpdateModel { target: l, second: false, subtract: false, amount: fpu.product(fpu.product(a, rv), fpu.calc(FloatOp::Pow, lv, fpu.difference(rv, ONE))) });
                u2
            } else {
                Seq::empty()
            };
            let u3 = if num_lt(ZERO, lv) {
                let u4 = u1.push(UpdateModel { target: r, second: false, subtract: false, amount: fpu.product(fpu.product(a, y), fpu.calc(FloatOp::Ln, lv, ZERO)) });
                u4
            } else {
                u1
            };
            u3
        },
        BinaryOp::Atan2 => {
            let denom = fpu.sum(fpu.product(lv, lv), fpu.product(rv, rv));
            let u1 = if num_lt(ZERO, denom) {
                let u2 = Seq::empty().push(UpdateModel { target: l, second: false, subtract: false, amount: fpu.quotient(fpu.product(a, rv), denom) });
                let u3 = u2.push(UpdateModel { target: r, second: false, subtract: true, amount: fpu.quotient(fpu.product(a, lv), denom) });
                u3
            } else {
                Seq::empty()
            };
            u1
        },
        BinaryOp::Less => {
            let u1 = if num_lt(lv, rv) {
                let u2 = Seq::empty().push(UpdateModel { target: l, second: false, subtract: false, amount: a });
                u2
            } else {
                let u3 = Seq::empty().push(UpdateModel { target: r, second: false, subtract: false, amount: a });
                u3
            };
            u1
        },
        BinaryOp::IntDiv => {
            seq![
                UpdateModel { target: l, second: false, subtract: false, amount: a },
            ]
        },
    }
}

/// The same for an operation of one operand `j` with the value `u`.
pub open spec fn first_unary<F: Fn(FloatOp, u64, u64) -> u64>(
    op: UnaryOp,
    j: int,
    a: u64,
    y: u64,
    u: u64,
    fpu: Fpu<F>,
) -> Seq<UpdateModel> {
    match op {
        UnaryOp::Abs => {
            let u1 = if num_le(ZERO, u) {
                let u2 = Seq::empty().push(UpdateModel { target: j, second: false, subtract: false, amount: a });
                u2
            } else {
                let u3 = Seq::empty().push(UpdateModel { target: j, second: false, subtract: true, amount: a });
                u3
            };
            u1
        },
        UnaryOp::Neg => {
            seq![
                UpdateModel { target: j, second: false, subtract: true, amount: a },
            ]
        },
        UnaryOp::Floor => {
            Seq::empty()
        },
        UnaryOp::Ceil => {
            Seq::empty()
        },
        UnaryOp::Tanh => {
            seq![
                UpdateModel { target: j, second: false, subtract: false, amount: fpu.product(a, fpu.difference(ONE, fpu.product(y, y))) },
            ]
        },
        UnaryOp::Tan => {
            let c = fpu.calc(FloatOp::Cos, u, ZERO);
            seq![
                UpdateModel { target: j, second: false, subtract: false, amount: fpu.quotient(a, fpu.product(c, c)) },
            ]
        },
        UnaryOp::Sqrt => {
            let u1 = if num_lt(ZERO, y) {
                let u2 = Seq::empty().push(UpdateModel { target: j, second: false, subtract: false, amount: fpu.quotient(fpu.product(a, HALF), y) });
                u2
            } else {
                Seq::empty()
            };
            u1
        },
        UnaryOp::Sinh => {
            seq![
                UpdateModel { target: j, second: false, subtract: false, amount: fpu.product(a, fpu.calc(FloatOp::Cosh, u, ZERO)) },
            ]
        },
        UnaryOp::Sin => {
            seq![
                UpdateModel { target: j, second: false, subtract: false, amount: fpu.product(a, fpu.calc(FloatOp::Cos, u, ZERO)) },
            ]
        },
        UnaryOp::Log10 => {
            seq![
                UpdateModel { target: j, second: false, subtract: false, amount: fpu.quotient(a, fpu.product(u, LN_10)) },
            ]
        },
        UnaryOp::Log => {
            seq![
                UpdateModel { target: j, second: false, subtract: false, amount: fpu.quotient(a, u) },
            ]
        },
        UnaryOp::Exp => {
            seq![
                UpdateModel { target: j, second: false, subtract: false, amount: fpu.product(a, y) },
            ]
        },
        UnaryOp::Cosh => {
            seq![
                UpdateModel { target: j, second: false, subtract: false, amount: fpu.product(a, fpu.calc(FloatOp::Sinh, u, ZERO)) },
            ]
        },
        UnaryOp::Cos => {
            seq![
                UpdateModel { target: j, second: false, subtract: true, amount: fpu.product(a, fpu.calc(FloatOp::Sin, u, ZERO)) },
            ]
        },
        UnaryOp::Atanh => {
            seq![
                UpdateModel { target: j, second: false, subtract: false, amount: fpu.quotient(a, fpu.difference(ONE, fpu.product(u, u))) },
            ]
        },
        UnaryOp::Atan => {
            seq![
                UpdateModel { target: j, second: false, subtract: false, amount: fpu.quotient(a, fpu.sum(ONE, fpu.product(u, u))) },
            ]
        },
        UnaryOp::Asinh => {
            seq![
                UpdateModel { target: j, second: false, subtract: false, amount: fpu.quotient(a, fpu.calc(FloatOp::Sqrt, fpu.sum(fpu.product(u, u), ONE), ZERO)) },
            ]
        },
        UnaryOp::Asin => {
            seq![
                UpdateModel { target: j, second: false, subtract: false, amount: fpu.quotient(a, fpu.calc(FloatOp::Sqrt, fpu.difference(ONE, fpu.product(u, u)), ZERO)) },
            ]
        },
        UnaryOp::Acosh => {
            seq![
                UpdateModel { target: j, second: false, subtract: false, amount: fpu.quotient(a, fpu.calc(FloatOp::Sqrt, fpu.difference(fpu.product(u, u), ONE), ZERO)) },
            ]
        },
        UnaryOp::Acos => {
            seq![
                UpdateModel { target: j, second: false, subtract: true, amount: fpu.quotient(a, fpu.calc(FloatOp::Sqrt, fpu.difference(ONE, fpu.product(u, u)), ZERO)) },
            ]
        },
    }
}

fn first_binary_updates<F: Fn(FloatOp, u64, u64) -> u64>(
    op: BinaryOp,
    l: usize,
    r: usize,
    a: u64,
    y: u64,
    lv: u64,
    rv: u64,
    fpu: &Fpu<F>,
) -> (out: Vec<Update>)
    requires
        fpu.sound(),
    ensures
        update_models(out@) == first_binary(op, l as int, r as int, a, y, lv, rv, *fpu),
        forall|k: int|
            0 <= k < out@.len() ==> (#[trigger] out@[k]).target == l || out@[k].target == r,
{
    let mut out: Vec<Update> = Vec::new();
    assert(update_models(out@) =~= Seq::empty());
    match op {
        BinaryOp::Add => {
            push_update(&mut out, Update { target: l, second: false, subtract: false, amount: a });
            push_update(&mut out, Update { target: r, second: false, subtract: false, amount: a });
        },
        BinaryOp::Sub => {
            push_update(&mut out, Update { target: l, second: false, subtract: false, amount: a });
            push_update(&mut out, Update { target: r, second: false, subtract: true, amount: a });
        },
        BinaryOp::Mul => {
            push_update(&mut out, Update { target: l, second: false, subtract: false, amount: fpu.mul(a, rv) });
            push_update(&mut out, Update { target: r, second: false, subtract: false, amount: fpu.mul(a, lv) });
        },
        BinaryOp::Div => {
            push_update(&mut out, Update { target: l, second: false, subtract: false, amount: fpu.div(a, rv) });
            push_update(&mut out, Update { target: r, second: false, subtract: true, amount: fpu.div(fpu.mul(a, lv), fpu.mul(rv, rv)) });
        },
        BinaryOp::Mod => {
            push_update(&mut out, Update { target: l, second: false, subtract: false, amount: a });
        },
        BinaryOp::Pow => {
            if !eq(rv, ZERO) {
                push_update(&mut out, Update { target: l, second: false, subtract: false, amount: fpu.mul(fpu.mul(a, rv), fpu.run(FloatOp::Pow, lv, fpu.sub(rv, ONE))) });
            }
            if lt(ZERO, lv) {
                push_update(&mut out, Update { target: r, second: false, subtract: false, amount: fpu.mul(fpu.mul(a, y), fpu.run(FloatOp::Ln, lv, ZERO)) });
            }
        },
        BinaryOp::Atan2 => {
            let denom: u64 = fpu.add(fpu.mul(lv, lv), fpu.mul(rv, rv));
            if lt(ZERO, denom) {
                push_update(&mut out, Update { target: l, second: false, subtract: false, amount: fpu.div(fpu.mul(a, rv), denom) });
                push_update(&mut out, Update { target: r, second: false, subtract: true, amount: fpu.div(fpu.mul(a, lv), denom) });
            }
        },
        BinaryOp::Less => {
            if lt(lv, rv) {
                push_update(&mut out, Update { target: l, second: false, subtract: false, amount: a });
            } else {
                push_update(&mut out, Update { target: r, second: false, subtract: false, amount: a });
            }
        },
        BinaryOp::IntDiv => {
            push_update(&mut out, Update { target: l, second: false, subtract: false, amount: a });
        },
    }
    proof {
        lemma_targets_of_models(out@, l as int, r as int);
    }
    out
}

fn first_unary_updates<F: Fn(FloatOp, u64, u64) -> u64>(
    op: UnaryOp,
    j: usize,
    a: u64,
    y: u64,
    u: u64,
    fpu: &Fpu<F>,
) -> (out: Vec<Update>)
    requires
        fpu.sound(),
    ensures
        update_models(out@) == first_unary(op, j as int, a, y, u, *fpu),
        forall|k: int| 0 <= k < out@.len() ==> (#[trigger] out@[k]).target == j,
{
    let mut out: Vec<Update> = Vec::new();
    assert(update_models(out@) =~= Seq::empty());
    match op {
        UnaryOp::Abs => {
            if le(ZERO, u) {
                push_update(&mut out, Update { target: j, second: false, subtract: false, amount: a });
            } else {
                push_update(&mut out, Update { target: j, second: false, subtract: true, amount: a });
            }
        },
        UnaryOp::Neg => {
            push_update(&mut out, Update { target: j, second: false, subtract: true, amount: a });
        },
        UnaryOp::Floor => {
        },
        UnaryOp::Ceil => {
        },
        UnaryOp::Tanh => {
            push_update(&mut out, Update { target: j, second: false, subtract: false, amount: fpu.mul(a, fpu.sub(ONE, fpu.mul(y, y))) });
        },
        UnaryOp::Tan => {
            let c: u64 = fpu.run(FloatOp::Cos, u, ZERO);
            push_update(&mut out, Update { target: j, second: false, subtract: false, amount: fpu.div(a, fpu.mul(c, c)) });
        },
        UnaryOp::Sqrt => {
            if lt(ZERO, y) {
                push_update(&mut out, Update { target: j, second: false, subtract: false, amount: fpu.div(fpu.mul(a, HALF), y) });
            }
        },
        UnaryOp::Sinh => {
            push_update(&mut out, Update { target: j, second: false, subtract: false, amount: fpu.mul(a, fpu.run(FloatOp::Cosh, u, ZERO)) });
        },
        UnaryOp::Sin => {
            push_update(&mut out, Update { target: j, second: false, subtract: false, amount: fpu.mul(a, fpu.run(FloatOp::Cos, u, ZERO)) });
        },
        UnaryOp::Log10 => {
            push_update(&mut out, Update { target: j, second: false, subtract: false, amount: fpu.div(a, fpu.mul(u, LN_10)) });
        },
        UnaryOp::Log => {
            push_update(&mut out, Update { target: j, second: false, subtract: false, amount: fpu.div(a, u) });
        },
        UnaryOp::Exp => {
            push_update(&mut out, Update { target: j, second: false, subtract: false, amount: fpu.mul(a, y) });
        },
        UnaryOp::Cosh => {
            push_update(&mut out, Update { target: j, second: false, subtract: false, amount: fpu.mul(a, fpu.run(FloatOp::Sinh, u, ZERO)) });
        },
        UnaryOp::Cos => {
            push_update(&mut out, Update { target: j, second: false, subtract: true, amount: fpu.mul(a, fpu.run(FloatOp::Sin, u, ZERO)) });
        },
        UnaryOp::Atanh => {
            push_update(&mut out, Update { target: j, second: false, subtract: false, amount: fpu.div(a, fpu.sub(ONE, fpu.mul(u, u))) });
        },
        UnaryOp::Atan => {
            push_update(&mut out, Update { target: j, second: false, subtract: false, amount: fpu.div(a, fpu.add(ONE, fpu.mul(u, u))) });
        },
        UnaryOp::Asinh => {
            push_update(&mut out, Update { target: j, second: false, subtract: false, amount: fpu.div(a, fpu.run(FloatOp::Sqrt, fpu.add(fpu.mul(u, u), ONE), ZERO)) });
        },
        UnaryOp::Asin => {
            push_update(&mut out, Update { target: j, second: false, subtract: false, amount: fpu.div(a, fpu.run(FloatOp::Sqrt, fpu.sub(ONE, fpu.mul(u, u)), ZERO)) });
        },
        UnaryOp::Acosh => {
            push_update(&mut out, Update { target: j, second: false, subtract: false, amount: fpu.div(a, fpu.run(FloatOp::Sqrt, fpu.sub(fpu.mul(u, u), ONE), ZERO)) });
        },
        UnaryOp::Acos => {
            push_update(&mut out, Update { target: j, second: false, subtract: true, amount: fpu.div(a, fpu.run(FloatOp::Sqrt, fpu.sub(ONE, fpu.mul(u, u)), ZERO)) });
        },
    }
    proof {
        lemma_targets_of_models(out@, j as int, j as int);
    }
    out
}

proof fn lemma_targets_of_models(out: Seq<Update>, l: int, r: int)
    requires
        forall|k: int|
            0 <= k < update_models(out).len() ==> (#[trigger] update_models(out)[k]).target == l
                || update_models(out)[k].target == r,
    ensures
        forall|k: int|
            0 <= k < out.len() ==> (#[trigger] out[k]).target == l || out[k].target == r,
{
    assert forall|k: int| 0 <= k < out.len() implies (#[trigger] out[k]).target == l
        || out[k].target == r by {
        assert(update_models(out)[k].target == out[k].target);
    }
}

/// The tape indices of the real arguments, in order.
pub open spec fn real_targets(args: Seq<ArgModel>) -> Seq<int>
    decreases args.len(),
{
    if args.len() == 0 {
        Seq::empty()
    } else {
        match args.last() {
            ArgModel::Tape(t) => real_targets(args.drop_last()).push(t),
            ArgModel::Str(_) => real_targets(args.drop_last()),
        }
    }
}

/// The updates of a call: the first derivatives by its real arguments, times
/// `a`.
pub open spec fn first_call<F: Fn(FloatOp, u64, u64) -> u64>(
    targets: Seq<int>,
    derivs: Seq<u64>,
    a: u64,
    fpu: Fpu<F>,
) -> Seq<UpdateModel> {
    Seq::new(
        targets.len(),
        |k: int|
            UpdateModel {
                target: targets[k],
                second: false,
                subtract: false,
                amount: fpu.product(a, derivs[k]),
            },
    )
}

/// What the operation at `i` adds to the adjoints of its operands, where `a`
/// is its own adjoint.
pub open spec fn first_updates<
    F: Fn(FloatOp, u64, u64) -> u64,
    E: Fn(usize, &String, &Vec<ExternalArg>, bool, bool) -> ExternalValue,
>(op: OpModel, i: int, a: u64, vals: Seq<u64>, fpu: Fpu<F>, ext: Externals<E>) -> Seq<UpdateModel> {
    match op {
        OpModel::Const(_) => Seq::empty(),
        OpModel::Var(_) => Seq::empty(),
        OpModel::Binary(o, l, r) => first_binary(o, l, r, a, vals[i], vals[l], vals[r], fpu),
        OpModel::Unary(o, j) => first_unary(o, j, a, vals[i], vals[j], fpu),
        OpModel::Call(lib, n, args) => first_call(
            real_targets(args),
            ext.result(lib as usize, n, arg_values(args, vals), true, false).derivs,
            a,
            fpu,
        ),
    }
}

/// Adjoints and gradient of a reverse sweep.
pub struct ReverseState {
    pub adj: Seq<u64>,
    pub grad: Seq<u64>,
}

/// The reverse sweep after all operations from the last one down to `i`. An
/// operation whose adjoint is zero is passed over; a problem variable beyond
/// the gradient is ignored.
pub open spec fn reverse_state<
    F: Fn(FloatOp, u64, u64) -> u64,
    E: Fn(usize, &String, &Vec<ExternalArg>, bool, bool) -> ExternalValue,
>(
    ops: Seq<OpModel>,
    vals: Seq<u64>,
    grad: Seq<u64>,
    i: int,
    fpu: Fpu<F>,
    ext: Externals<E>,
) -> ReverseState
    decreases ops.len() - i,
{
    if i >= ops.len() {
        ReverseState { adj: Seq::new(ops.len(), |k: int| ZERO).update(ops.len() - 1, ONE), grad }
    } else {
        let st = reverse_state(ops, vals, grad, i + 1, fpu, ext);
        let a = st.adj[i];
        if num_eq(a, ZERO) {
            st
        } else {
            match ops[i] {
                OpModel::Var(j) => ReverseState {
                    adj: st.adj,
                    grad: if j < st.grad.len() {
                        st.grad.update(j, fpu.sum(st.grad[j], a))
                    } else {
                        st.grad
                    },
                },
                _ => {
                    let ups = first_updates(ops[i], i, a, vals, fpu, ext);
                    ReverseState {
                        adj: applied(st.adj, ups, ups.len(), false, fpu),
                        grad: st.grad,
                    }
                },
            }
        }
    }
}

proof fn lemma_real_targets(args: Seq<ArgModel>, vals: Seq<u64>)
    ensures
        real_targets(args).len() == real_count(arg_values(args, vals)),
        forall|k: int|
            0 <= k < real_targets(args).len() ==> args.contains(
                ArgModel::Tape(#[trigger] real_targets(args)[k]),
            ),
    decreases args.len(),
{
    if args.len() > 0 {
        let front = args.drop_last();
        lemma_real_targets(front, vals);
        assert(arg_values(args, vals).drop_last() =~= arg_values(front, vals));
        assert forall|k: int| 0 <= k < real_targets(args).len() implies args.contains(
            ArgModel::Tape(#[trigger] real_targets(args)[k]),
        ) by {
            if k < real_targets(front).len() {
                assert(real_targets(args)[k] == real_targets(front)[k]);
                let t = ArgModel::Tape(real_targets(front)[k]);
                assert(front.contains(t));
                let p = choose|p: int| 0 <= p < front.len() && front[p] == t;
                assert(args[p] == t);
            } else {
                assert(args[args.len() - 1] == ArgModel::Tape(real_targets(args)[k]));
            }
        }
    }
}

/// The tape indices of the real arguments of a call.
fn real_args(args: &Vec<FuncallArg>) -> (targets: Vec<usize>)
    ensures
        targets@.map_values(|t: usize| t as int) == real_targets(arg_models(args@)),
{
    let mut targets: Vec<usize> = Vec::new();
    let ghost list = arg_models(args@);
    assert(targets@.map_values(|t: usize| t as int) =~= real_targets(list.take(0)));
    for k in 0..args.len()
        invariant
            list == arg_models(args@),
            targets@.map_values(|t: usize| t as int) == real_targets(list.take(k as int)),
    {
        let ghost before = targets@;
        proof {
            assert(list.take(k + 1).drop_last() =~= list.take(k as int));
            assert(list.take(k + 1).last() == list[k as int]);
        }
        match &args[k] {
            FuncallArg::Tape(t) => {
                targets.push(*t);
                assert(targets@.map_values(|t: usize| t as int) =~= before.map_values(
                    |t: usize| t as int,
                ).push(*t as int));
            },
            FuncallArg::Str(_) => {},
        }
    }
    assert(list.take(args@.len() as int) =~= list);
    targets
}

/// The updates of the operation at `i`.
fn first_op_updates<
    F: Fn(FloatOp, u64, u64) -> u64,
    E: Fn(usize, &String, &Vec<ExternalArg>, bool, bool) -> ExternalValue,
>(op: &TapeOp, i: usize, a: u64, vals: &Vec<u64>, fpu: &Fpu<F>, ext: &Externals<E>) -> (out: Vec<
    Update,
>)
    requires
        fpu.sound(),
        ext.sound(),
        i < vals@.len(),
        forall|t: int| #[trigger] reads(op_model(*op), t) ==> 0 <= t < i,
    ensures
        update_models(out@) == first_updates(op_model(*op), i as int, a, vals@, *fpu, *ext),
        forall|k: int| 0 <= k < out@.len() ==> (#[trigger] out@[k]).target < i,
{
    let ghost m = op_model(*op);
    match shape(op) {
        OpShape::Const(_) => {
            let out: Vec<Update> = Vec::new();
            assert(update_models(out@) =~= Seq::empty());
            out
        },
        OpShape::Var(_) => {
            let out: Vec<Update> = Vec::new();
            assert(update_models(out@) =~= Seq::empty());
            out
        },
        OpShape::Binary(o, l, r) => {
            assert(reads(m, l as int) && reads(m, r as int));
            first_binary_updates(o, l, r, a, vals[i], vals[l], vals[r], fpu)
        },
        OpShape::Unary(o, j) => {
            assert(reads(m, j as int));
            first_unary_updates(o, j, a, vals[i], vals[j], fpu)
        },
        OpShape::Call(lib, name, args) => {
            proof {
                lemma_call_args_in_range(m, args@, lib as int, name@, i as int);
                lemma_real_targets(arg_models(args@), vals@);
            }
            let call_args: Vec<ExternalArg> = funcall_ext_args(args, vals);
            let res: ExternalValue = ext.call(lib, name, &call_args, true, false);
            let targets: Vec<usize> = real_args(args);
            let ghost wanted = first_call(real_targets(arg_models(args@)), res.derivs@, a, *fpu);
            let mut out: Vec<Update> = Vec::new();
            assert(update_models(out@) =~= Seq::empty());
            for k in 0..targets.len()
                invariant
                    fpu.sound(),
                    targets@.len() == res.derivs@.len(),
                    targets@.map_values(|t: usize| t as int) == real_targets(
                        arg_models(args@),
                    ),
                    wanted == first_call(
                        real_targets(arg_models(args@)),
                        res.derivs@,
                        a,
                        *fpu,
                    ),
                    out@.len() == k,
                    forall|p: int| 0 <= p < k ==> (#[trigger] out@[p]).target == targets@[p],
                    update_models(out@) =~= wanted.take(k as int),
            {
                let t: usize = targets[k];
                assert(real_targets(arg_models(args@))[k as int] == t);
                let ghost before = out@;
                push_update(
                    &mut out,
                    Update {
                        target: t,
                        second: false,
                        subtract: false,
                        amount: fpu.mul(a, res.derivs[k]),
                    },
                );
                proof {
                    assert(update_models(out@).len() == k + 1);
                    assert forall|p: int| 0 <= p < k + 1 implies (#[trigger] out@[p]).target
                        == targets@[p] by {
                        assert(update_models(out@)[p].target == out@[p].target);
                        if p < k {
                            assert(update_models(out@)[p] == update_models(before)[p]);
                            assert(update_models(before)[p].target == before[p].target);
                        }
                    }
                }
            }
            proof {
                assert forall|k: int| 0 <= k < out@.len() implies (#[trigger] out@[k]).target
                    < i by {
                    let t = real_targets(arg_models(args@))[k];
                    assert(t == targets@[k]);
                    assert(reads(m, t));
                }
            }
            out
        },
    }
}

impl Tape {
    /// Values of all operations at the point `x`, in tape order; the last one
    /// is the result.
    pub fn forward<
        F: Fn(FloatOp, u64, u64) -> u64,
        E: Fn(usize, &String, &Vec<ExternalArg>, bool, bool) -> ExternalValue,
    >(&self, x: &[u64], fpu: &Fpu<F>, ext: &Externals<E>) -> (vals: Vec<u64>)
        requires
            ordered(self.model()),
            variables_below(self.model(), x@.len() as int),
            fpu.sound(),
            ext.sound(),
        ensures
            vals@ == run(self.model(), float_algebra(x@, *fpu, *ext)),
            vals@.len() == self.ops@.len(),
    {
        let ghost ops = self.model();
        let ghost alg = float_algebra(x@, *fpu, *ext);
        let mut vals: Vec<u64> = Vec::new();
        assert(run(ops.take(0), alg) =~= Seq::empty());
        for i in 0..self.ops.len()
            invariant
                ops == self.model(),
                alg == float_algebra(x@, *fpu, *ext),
                ordered(ops),
                variables_below(ops, x@.len() as int),
                fpu.sound(),
                ext.sound(),
                vals@.len() == i,
                vals@ == run(ops.take(i as int), alg),
        {
            let op: &TapeOp = &self.ops[i];
            let ghost m = op_model(*op);
            assert(m == ops[i as int]);
            proof {
                assert(ops.take(i + 1).drop_last() =~= ops.take(i as int));
                assert(ops.take(i + 1).last() == m);
                assert forall|t: int| #[trigger] reads(m, t) implies 0 <= t < i by {
                    assert(reads(ops[i as int], t));
                }
            }
            let v: u64 = match shape(op) {
                OpShape::Const(c) => c,
                OpShape::Var(j) => x[j],
                OpShape::Binary(o, a, b) => {
                    assert(reads(m, a as int) && reads(m, b as int));
                    eval_binary(o, vals[a], vals[b], fpu)
                },
                OpShape::Unary(o, a) => {
                    assert(reads(m, a as int));
                    eval_unary(o, vals[a], fpu)
                },
                OpShape::Call(lib, name, args) => {
                    proof {
                        lemma_call_args_in_range(m, args@, lib as int, name@, i as int);
                    }
                    let call_args: Vec<ExternalArg> = funcall_ext_args(args, &vals);
                    ext.call(lib, name, &call_args, false, false).value
                },
            };
            assert(v == op_value(m, vals@, alg));
            vals.push(v);
        }
        assert(ops.take(ops.len() as int) =~= ops);
        vals
    }

    /// The value of the tape at the point `x`; zero for an empty tape.
    pub fn eval<
        F: Fn(FloatOp, u64, u64) -> u64,
        E: Fn(usize, &String, &Vec<ExternalArg>, bool, bool) -> ExternalValue,
    >(&self, x: &[u64], fpu: &Fpu<F>, ext: &Externals<E>) -> (v: u64)
        requires
            ordered(self.model()),
            variables_below(self.model(), x@.len() as int),
            fpu.sound(),
            ext.sound(),
        ensures
            v == if self.model().len() > 0 {
                run(self.model(), float_algebra(x@, *fpu, *ext)).last()
            } else {
                ZERO
            },
    {
        let vals: Vec<u64> = self.forward(x, fpu, ext);
        if vals.len() > 0 {
            vals[vals.len() - 1]
        } else {
            ZERO
        }
    }

    /// Adds the derivatives by the problem variables to `grad`, given the
    /// values of a forward sweep.
    pub fn reverse<
        F: Fn(FloatOp, u64, u64) -> u64,
        E: Fn(usize, &String, &Vec<ExternalArg>, bool, bool) -> ExternalValue,
    >(&self, vals: &Vec<u64>, grad: &mut Vec<u64>, fpu: &Fpu<F>, ext: &Externals<E>)
        requires
            ordered(self.model()),
            vals@.len() >= self.model().len(),
            fpu.sound(),
            ext.sound(),
        ensures
            self.model().len() == 0 ==> final(grad)@ == old(grad)@,
            self.model().len() > 0 ==> final(grad)@ == reverse_state(
                self.model(),
                vals@,
                old(grad)@,
                0,
                *fpu,
                *ext,
            ).grad,
            final(grad)@.len() == old(grad)@.len(),
    {
        let n: usize = self.ops.len();
        if n == 0 {
            return ;
        }
        let ghost ops = self.model();
        let ghost before = grad@;
        let mut adj: Vec<u64> = vec![ZERO; n];
        adj.set(n - 1, ONE);
        assert(adj@ =~= Seq::new(ops.len(), |k: int| ZERO).update(ops.len() - 1, ONE));
        let mut i: usize = n;
        while i > 0
            invariant
                i <= n,
                n == self.ops@.len(),
                ops == self.model(),
                ordered(ops),
                vals@.len() >= n,
                fpu.sound(),
                ext.sound(),
                adj@.len() == n,
                grad@.len() == before.len(),
                adj@ == reverse_state(ops, vals@, before, i as int, *fpu, *ext).adj,
                grad@ == reverse_state(ops, vals@, before, i as int, *fpu, *ext).grad,
            decreases i,
        {
            i = i - 1;
            let a: u64 = adj[i];
            let op: &TapeOp = &self.ops[i];
            assert(ops[i as int] == op_model(*op));
            if !eq(a, ZERO) {
                match shape(op) {
                    OpShape::Var(j) => {
                        if j < grad.len() {
                            let now: u64 = grad[j];
                            grad.set(j, fpu.add(now, a));
                        }
                    },
                    _ => {
                        proof {
                            assert forall|t: int| #[trigger] reads(op_model(*op), t) implies 0 <= t
                                < i by {
                                assert(reads(ops[i as int], t));
                            }
                        }
                        let ups: Vec<Update> = first_op_updates(op, i, a, vals, fpu, ext);
                        apply_updates(&mut adj, &ups, false, fpu);
                    },
                }
            }
        }
    }

    /// The gradient at the point `x`: `grad` is set to zero and filled with the
    /// derivatives by the problem variables.
    pub fn gradient<
        F: Fn(FloatOp, u64, u64) -> u64,
        E: Fn(usize, &String, &Vec<ExternalArg>, bool, bool) -> ExternalValue,
    >(&self, x: &[u64], grad: &mut Vec<u64>, fpu: &Fpu<F>, ext: &Externals<E>)
        requires
            ordered(self.model()),
            variables_below(self.model(), x@.len() as int),
            fpu.sound(),
            ext.sound(),
        ensures
            final(grad)@ == gradient_of(self.model(), x@, old(grad)@.len(), *fpu, *ext),
            final(grad)@.len() == old(grad)@.len(),
    {
        let len: usize = grad.len();
        for k in 0..len
            invariant
                grad@.len() == len,
                forall|p: int| 0 <= p < k ==> #[trigger] grad@[p] == ZERO,
        {
            grad.set(k, ZERO);
        }
        assert(grad@ =~= Seq::new(len as nat, |k: int| ZERO));
        let vals: Vec<u64> = self.forward(x, fpu, ext);
        self.reverse(&vals, grad, fpu, ext);
    }
}

/// The gradient of a tape at `x` for `len` problem variables.
pub open spec fn gradient_of<
    F: Fn(FloatOp, u64, u64) -> u64,
    E: Fn(usize, &String, &Vec<ExternalArg>, bool, bool) -> ExternalValue,
>(ops: Seq<OpModel>, x: Seq<u64>, len: nat, fpu: Fpu<F>, ext: Externals<E>) -> Seq<u64> {
    let zeros = Seq::new(len, |k: int| ZERO);
    if ops.len() == 0 {
        zeros
    } else {
        reverse_state(ops, run(ops, float_algebra(x, fpu, ext)), zeros, 0, fpu, ext).grad
    }
}

/// Derivative of an operation of two operands along a direction, in which the
/// operands have the derivatives `dl` and `dr`.
pub open spec fn tangent_binary<F: Fn(FloatOp, u64, u64) -> u64>(
    op: BinaryOp,
    y: u64,
    lv: u64,
    rv: u64,
    dl: u64,
    dr: u64,
    fpu: Fpu<F>,
) -> u64 {
    match op {
        BinaryOp::Add => {
            fpu.sum(dl, dr)
        },
        BinaryOp::Sub => {
            fpu.difference(dl, dr)
        },
        BinaryOp::Mul => {
            fpu.sum(fpu.product(dl, rv), fpu.product(lv, dr))
        },
        BinaryOp::Div => {
            fpu.quotient(fpu.difference(fpu.product(dl, rv), fpu.product(lv, dr)), fpu.product(rv, rv))
        },
        BinaryOp::Mod => {
            dl
        },
        BinaryOp::Pow => {
            if !num_eq(rv, ZERO) && (!num_eq(lv, ZERO) || num_le(ONE, rv)) {
                if num_lt(ZERO, lv) {
                    fpu.sum(fpu.sum(ZERO, fpu.product(fpu.product(rv, fpu.calc(FloatOp::Pow, lv, fpu.difference(rv, ONE))), dl)), fpu.product(fpu.product(y, fpu.calc(FloatOp::Ln, lv, ZERO)), dr))
                } else {
                    fpu.sum(ZERO, fpu.product(fpu.product(rv, fpu.calc(FloatOp::Pow, lv, fpu.difference(rv, ONE))), dl))
                }
            } else {
                if num_lt(ZERO, lv) {
                    fpu.sum(ZERO, fpu.product(fpu.product(y, fpu.calc(FloatOp::Ln, lv, ZERO)), dr))
                } else {
                    ZERO
                }
            }
        },
        BinaryOp::Atan2 => {
            let d = fpu.sum(fpu.product(lv, lv), fpu.product(rv, rv));
            if num_lt(ZERO, d) {
                fpu.quotient(fpu.difference(fpu.product(dl, rv), fpu.product(lv, dr)), d)
            } else {
                ZERO
            }
        },
        BinaryOp::Less => {
            if num_lt(lv, rv) {
                dl
            } else {
                dr
            }
        },
        BinaryOp::IntDiv => {
            dl
        },
    }
}

/// The same for an operation of one operand.
pub open spec fn tangent_unary<F: Fn(FloatOp, u64, u64) -> u64>(
    op: UnaryOp,
    y: u64,
    u: u64,
    du: u64,
    fpu: Fpu<F>,
) -> u64 {
    match op {
        UnaryOp::Abs => {
            if num_le(ZERO, u) {
                du
            } else {
                negated(du)
            }
        },
        UnaryOp::Neg => {
            negated(du)
        },
        UnaryOp::Floor => {
            ZERO
        },
        UnaryOp::Ceil => {
            ZERO
        },
        UnaryOp::Tanh => {
            fpu.product(du, fpu.difference(ONE, fpu.product(y, y)))
        },
        UnaryOp::Tan => {
            let c = fpu.calc(FloatOp::Cos, u, ZERO);
            fpu.quotient(du, fpu.product(c, c))
        },
        UnaryOp::Sqrt => {
            if num_lt(ZERO, y) {
                fpu.quotient(fpu.product(du, HALF), y)
            } else {
                ZERO
            }
        },
        UnaryOp::Sinh => {
            fpu.product(du, fpu.calc(FloatOp::Cosh, u, ZERO))
        },
        UnaryOp::Sin => {
            fpu.product(du, fpu.calc(FloatOp::Cos, u, ZERO))
        },
        UnaryOp::Log10 => {
            fpu.quotient(du, fpu.product(u, LN_10))
        },
        UnaryOp::Log => {
            fpu.quotient(du, u)
        },
        UnaryOp::Exp => {
            fpu.product(du, y)
        },
        UnaryOp::Cosh => {
            fpu.product(du, fpu.calc(FloatOp::Sinh, u, ZERO))
        },
        UnaryOp::Cos => {
            fpu.product(negated(du), fpu.calc(FloatOp::Sin, u, ZERO))
        },
        UnaryOp::Atanh => {
            fpu.quotient(du, fpu.difference(ONE, fpu.product(u, u)))
        },
        UnaryOp::Atan => {
            fpu.quotient(du, fpu.sum(ONE, fpu.product(u, u)))
        },
        UnaryOp::Asinh => {
            fpu.quotient(du, fpu.calc(FloatOp::Sqrt, fpu.sum(fpu.product(u, u), ONE), ZERO))
        },
        UnaryOp::Asin => {
            fpu.quotient(du, fpu.calc(FloatOp::Sqrt, fpu.difference(ONE, fpu.product(u, u)), ZERO))
        },
        UnaryOp::Acosh => {
            fpu.quotient(du, fpu.calc(FloatOp::Sqrt, fpu.difference(fpu.product(u, u), ONE), ZERO))
        },
        UnaryOp::Acos => {
            fpu.quotient(negated(du), fpu.calc(FloatOp::Sqrt, fpu.difference(ONE, fpu.product(u, u)), ZERO))
        },
    }
}

fn eval_tangent_binary<F: Fn(FloatOp, u64, u64) -> u64>(
    op: BinaryOp,
    y: u64,
    lv: u64,
    rv: u64,
    dl: u64,
    dr: u64,
    fpu: &Fpu<F>,
) -> (v: u64)
    requires
        fpu.sound(),
    ensures
        v == tangent_binary(op, y, lv, rv, dl, dr, *fpu),
{
    match op {
        BinaryOp::Add => {
            fpu.add(dl, dr)
        },
        BinaryOp::Sub => {
            fpu.sub(dl, dr)
        },
        BinaryOp::Mul => {
            fpu.add(fpu.mul(dl, rv), fpu.mul(lv, dr))
        },
        BinaryOp::Div => {
            fpu.div(fpu.sub(fpu.mul(dl, rv), fpu.mul(lv, dr)), fpu.mul(rv, rv))
        },
        BinaryOp::Mod => {
            dl
        },
        BinaryOp::Pow => {
            if !eq(rv, ZERO) && (!eq(lv, ZERO) || le(ONE, rv)) {
                if lt(ZERO, lv) {
                    fpu.add(fpu.add(ZERO, fpu.mul(fpu.mul(rv, fpu.run(FloatOp::Pow, lv, fpu.sub(rv, ONE))), dl)), fpu.mul(fpu.mul(y, fpu.run(FloatOp::Ln, lv, ZERO)), dr))
                } else {
                    fpu.add(ZERO, fpu.mul(fpu.mul(rv, fpu.run(FloatOp::Pow, lv, fpu.sub(rv, ONE))), dl))
                }
            } else {
                if lt(ZERO, lv) {
                    fpu.add(ZERO, fpu.mul(fpu.mul(y, fpu.run(FloatOp::Ln, lv, ZERO)), dr))
                } else {
                    ZERO
                }
            }
        },
        BinaryOp::Atan2 => {
            let d: u64 = fpu.add(fpu.mul(lv, lv), fpu.mul(rv, rv));
            if lt(ZERO, d) {
                fpu.div(fpu.sub(fpu.mul(dl, rv), fpu.mul(lv, dr)), d)
            } else {
                ZERO
            }
        },
        BinaryOp::Less => {
            if lt(lv, rv) {
                dl
            } else {
                dr
            }
        },
        BinaryOp::IntDiv => {
            dl
        },
    }
}

fn eval_tangent_unary<F: Fn(FloatOp, u64, u64) -> u64>(
    op: UnaryOp,
    y: u64,
    u: u64,
    du: u64,
    fpu: &Fpu<F>,
) -> (v: u64)
    requires
        fpu.sound(),
    ensures
        v == tangent_unary(op, y, u, du, *fpu),
{
    match op {
        UnaryOp::Abs => {
            if le(ZERO, u) {
                du
            } else {
                neg(du)
            }
        },
        UnaryOp::Neg => {
            neg(du)
        },
        UnaryOp::Floor => {
            ZERO
        },
        UnaryOp::Ceil => {
            ZERO
        },
        UnaryOp::Tanh => {
            fpu.mul(du, fpu.sub(ONE, fpu.mul(y, y)))
        },
        UnaryOp::Tan => {
            let c: u64 = fpu.run(FloatOp::Cos, u, ZERO);
            fpu.div(du, fpu.mul(c, c))
        },
        UnaryOp::Sqrt => {
            if lt(ZERO, y) {
                fpu.div(fpu.mul(du, HALF), y)
            } else {
                ZERO
            }
        },
        UnaryOp::Sinh => {
            fpu.mul(du, fpu.run(FloatOp::Cosh, u, ZERO))
        },
        UnaryOp::Sin => {
            fpu.mul(du, fpu.run(FloatOp::Cos, u, ZERO))
        },
        UnaryOp::Log10 => {
            fpu.div(du, fpu.mul(u, LN_10))
        },
        UnaryOp::Log => {
            fpu.div(du, u)
        },
        UnaryOp::Exp => {
            fpu.mul(du, y)
        },
        UnaryOp::Cosh => {
            fpu.mul(du, fpu.run(FloatOp::Sinh, u, ZERO))
        },
        UnaryOp::Cos => {
            fpu.mul(neg(du), fpu.run(FloatOp::Sin, u, ZERO))
        },
        UnaryOp::Atanh => {
            fpu.div(du, fpu.sub(ONE, fpu.mul(u, u)))
        },
        UnaryOp::Atan => {
            fpu.div(du, fpu.add(ONE, fpu.mul(u, u)))
        },
        UnaryOp::Asinh => {
            fpu.div(du, fpu.run(FloatOp::Sqrt, fpu.add(fpu.mul(u, u), ONE), ZERO))
        },
        UnaryOp::Asin => {
            fpu.div(du, fpu.run(FloatOp::Sqrt, fpu.sub(ONE, fpu.mul(u, u)), ZERO))
        },
        UnaryOp::Acosh => {
            fpu.div(du, fpu.run(FloatOp::Sqrt, fpu.sub(fpu.mul(u, u), ONE), ZERO))
        },
        UnaryOp::Acos => {
            fpu.div(neg(du), fpu.run(FloatOp::Sqrt, fpu.sub(ONE, fpu.mul(u, u)), ZERO))
        },
    }
}

/// The products of the first `k` coefficients with the values at the targets,
/// added up from the left.
pub open spec fn target_dot<F: Fn(FloatOp, u64, u64) -> u64>(
    coeffs: spec_fn(int) -> u64,
    targets: Seq<int>,
    vals: Seq<u64>,
    k: nat,
    fpu: Fpu<F>,
) -> u64
    decreases k,
{
    if k == 0 {
        ZERO
    } else {
        fpu.sum(
            target_dot(coeffs, targets, vals, (k - 1) as nat, fpu),
            fpu.product(coeffs(k - 1), vals[targets[k - 1]]),
        )
    }
}

/// Derivative of the operation at `i` by the problem variable `seed`, given
/// those of the earlier operations.
pub open spec fn tangent<
    F: Fn(FloatOp, u64, u64) -> u64,
    E: Fn(usize, &String, &Vec<ExternalArg>, bool, bool) -> ExternalValue,
>(
    op: OpModel,
    i: int,
    seed: int,
    vals: Seq<u64>,
    dot: Seq<u64>,
    fpu: Fpu<F>,
    ext: Externals<E>,
) -> u64 {
    match op {
        OpModel::Const(_) => ZERO,
        OpModel::Var(k) => if k == seed {
            ONE
        } else {
            ZERO
        },
        OpModel::Binary(o, l, r) => tangent_binary(
            o,
            vals[i],
            vals[l],
            vals[r],
            dot[l],
            dot[r],
            fpu,
        ),
        OpModel::Unary(o, j) => tangent_unary(o, vals[i], vals[j], dot[j], fpu),
        OpModel::Call(lib, n, args) => {
            let derivs = ext.result(lib as usize, n, arg_values(args, vals), true, false).derivs;
            target_dot(
                |k: int| derivs[k],
                real_targets(args),
                dot,
                real_targets(args).len(),
                fpu,
            )
        },
    }
}

/// Derivatives of the first `k` operations by the problem variable `seed`.
pub open spec fn tangents<
    F: Fn(FloatOp, u64, u64) -> u64,
    E: Fn(usize, &String, &Vec<ExternalArg>, bool, bool) -> ExternalValue,
>(ops: Seq<OpModel>, seed: int, vals: Seq<u64>, k: nat, fpu: Fpu<F>, ext: Externals<E>) -> Seq<u64>
    decreases k,
{
    if k == 0 {
        Seq::empty()
    } else {
        let dot = tangents(ops, seed, vals, (k - 1) as nat, fpu, ext);
        dot.push(tangent(ops[k - 1], k - 1, seed, vals, dot, fpu, ext))
    }
}

/// How the derivative of a power by its base moves at a base `lv` of zero, if
/// the exponent `rv` is at least one and the base moves by `dl`. Below an
/// exponent of two nothing is added: at one the derivative is constant, and in
/// between it has no finite slope at zero.
pub open spec fn curvature_at_zero<F: Fn(FloatOp, u64, u64) -> u64>(
    lv: u64,
    rv: u64,
    dl: u64,
    fpu: Fpu<F>,
) -> u64 {
    if num_lt(rv, TWO) {
        ZERO
    } else if num_eq(rv, TWO) {
        fpu.product(TWO, dl)
    } else {
        fpu.product(
            fpu.product(
                fpu.product(rv, fpu.difference(rv, ONE)),
                fpu.calc(FloatOp::Pow, lv, fpu.difference(rv, TWO)),
            ),
            dl,
        )
    }
}

/// What an operation of two operands adds to the adjoints of its operands,
/// and to their derivatives along the direction: `w` is its own adjoint, `wd`
/// the derivative of that.
pub open spec fn second_binary<F: Fn(FloatOp, u64, u64) -> u64>(
    op: BinaryOp,
    l: int,
    r: int,
    w: u64,
    wd: u64,
    y: u64,
    lv: u64,
    rv: u64,
    dl: u64,
    dr: u64,
    fpu: Fpu<F>,
) -> Seq<UpdateModel> {
    match op {
        BinaryOp::Add => {
            seq![
                UpdateModel { target: l, second: false, subtract: false, amount: w },
                UpdateModel { target: r, second: false, subtract: false, amount: w },
                UpdateModel { target: l, second: true, subtract: false, amount: wd },
                UpdateModel { target: r, second: true, subtract: false, amount: wd },
            ]
        },
        BinaryOp::Sub => {
            seq![
                UpdateModel { target: l, second: false, subtract: false, amount: w },
                UpdateModel { target: r, second: false, subtract: true, amount: w },
                UpdateModel { target: l, second: true, subtract: false, amount: wd },
                UpdateModel { target: r, second: true, subtract: true, amount: wd },
            ]
        },
        BinaryOp::Mul => {
            seq![
                UpdateModel { target: l, second: false, subtract: false, amount: fpu.product(w, rv) },
                UpdateModel { target: r, second: false, subtract: false, amount: fpu.product(w, lv) },
                UpdateModel { target: l, second: true, subtract: false, amount: fpu.sum(fpu.product(wd, rv), fpu.product(w, dr)) },
                UpdateModel { target: r, second: true, subtract: false, amount: fpu.sum(fpu.product(wd, lv), fpu.product(w, dl)) },
            ]
        },
        BinaryOp::Div => {
            let rv2 = fpu.product(rv, rv);
            let rv3 = fpu.product(rv2, rv);
            seq![
                UpdateModel { target: l, second: false, subtract: false, amount: fpu.quotient(w, rv) },
                UpdateModel { target: l, second: true, subtract: false, amount: fpu.sum(fpu.quotient(wd, rv), fpu.product(w, fpu.quotient(negated(dr), rv2))) },
                UpdateModel { target: r, second: false, subtract: false, amount: fpu.product(w, fpu.quotient(negated(lv), rv2)) },
                UpdateModel { target: r, second: true, subtract: false, amount: fpu.sum(fpu.product(wd, fpu.quotient(negated(lv), rv2)), fpu.product(w, fpu.sum(fpu.quotient(negated(dl), rv2), fpu.quotient(fpu.product(fpu.product(TWO, lv), dr), rv3)))) },
            ]
        },
        BinaryOp::Mod => {
            seq![
                UpdateModel { target: l, second: false, subtract: false, amount: w },
                UpdateModel { target: l, second: true, subtract: false, amount: wd },
            ]
        },
        BinaryOp::Pow => {
            let u1 = if !num_eq(rv, ZERO) {
                let u2 = if !num_eq(lv, ZERO) {
                    let p = fpu.product(rv, fpu.calc(FloatOp::Pow, lv, fpu.difference(rv, ONE)));
                    let u3 = Seq::empty().push(UpdateModel { target: l, second: false, subtract: false, amount: fpu.product(w, p) });
                    let u4 = if num_lt(ZERO, lv) {
                        let u5 = u3.push(UpdateModel { target: l, second: true, subtract: false, amount: fpu.sum(fpu.product(wd, p), fpu.product(w, fpu.sum(fpu.product(dr, fpu.calc(FloatOp::Pow, lv, fpu.difference(rv, ONE))), fpu.product(fpu.product(rv, fpu.calc(FloatOp::Pow, lv, fpu.difference(rv, ONE))), fpu.sum(fpu.quotient(fpu.product(fpu.difference(rv, ONE), dl), lv), fpu.product(dr, fpu.calc(FloatOp::Ln, lv, ZERO))))))) });
                        u5
                    } else {
                        let u6 = u3.push(UpdateModel { target: l, second: true, subtract: false, amount: fpu.sum(fpu.product(wd, p), fpu.product(w, fpu.sum(fpu.product(dr, fpu.calc(FloatOp::Pow, lv, fpu.difference(rv, ONE))), fpu.product(fpu.product(fpu.product(rv, fpu.difference(rv, ONE)), fpu.calc(FloatOp::Pow, lv, fpu.difference(rv, TWO))), dl)))) });
                        u6
                    };
                    u4
                } else {
                    let u7 = if num_le(ONE, rv) {
                        let p = fpu.product(rv, fpu.calc(FloatOp::Pow, lv, fpu.difference(rv, ONE)));
                        let u8 = Seq::empty().push(UpdateModel { target: l, second: false, subtract: false, amount: fpu.product(w, p) });
                        let u9 = u8.push(UpdateModel { target: l, second: true, subtract: false, amount: fpu.sum(fpu.product(wd, p), fpu.product(w, curvature_at_zero(lv, rv, dl, fpu))) });
                        u9
                    } else {
                        Seq::empty()
                    };
                    u7
                };
                u2
            } else {
                Seq::empty()
            };
            let u12 = if num_lt(ZERO, lv) {
                let ln_l = fpu.calc(FloatOp::Ln, lv, ZERO);
                let q = fpu.product(y, ln_l);
                let u13 = u1.push(UpdateModel { target: r, second: false, subtract: false, amount: fpu.product(w, q) });
                let dy = fpu.product(y, fpu.sum(fpu.quotient(fpu.product(rv, dl), lv), fpu.product(dr, ln_l)));
                let u14 = u13.push(UpdateModel { target: r, second: true, subtract: false, amount: fpu.sum(fpu.product(wd, q), fpu.product(w, fpu.sum(fpu.product(dy, ln_l), fpu.quotient(fpu.product(y, dl), lv)))) });
                u14
            } else {
                u1
            };
            u12
        },
        BinaryOp::Atan2 => {
            let d = fpu.sum(fpu.product(lv, lv), fpu.product(rv, rv));
            let u1 = if num_lt(ZERO, d) {
                let d2 = fpu.product(d, d);
                let dd = fpu.sum(fpu.product(fpu.product(TWO, lv), dl), fpu.product(fpu.product(TWO, rv), dr));
                let u2 = Seq::empty().push(UpdateModel { target: l, second: false, subtract: false, amount: fpu.quotient(fpu.product(w, rv), d) });
                let u3 = u2.push(UpdateModel { target: l, second: true, subtract: false, amount: fpu.sum(fpu.quotient(fpu.product(wd, rv), d), fpu.product(w, fpu.quotient(fpu.difference(fpu.product(dr, d), fpu.product(rv, dd)), d2))) });
                let u4 = u3.push(UpdateModel { target: r, second: false, subtract: false, amount: fpu.product(w, fpu.quotient(negated(lv), d)) });
                let u5 = u4.push(UpdateModel { target: r, second: true, subtract: false, amount: fpu.sum(fpu.product(wd, fpu.quotient(negated(lv), d)), fpu.product(w, fpu.quotient(fpu.sum(fpu.product(negated(dl), d), fpu.product(lv, dd)), d2))) });
                u5
            } else {
                Seq::empty()
            };
            u1
        },
        BinaryOp::Less => {
            let u1 = if num_lt(lv, rv) {
                let u2 = Seq::empty().push(UpdateModel { target: l, second: false, subtract: false, amount: w });
                let u3 = u2.push(UpdateModel { target: l, second: true, subtract: false, amount: wd });
                u3
            } else {
                let u4 = Seq::empty().push(UpdateModel { target: r, second: false, subtract: false, amount: w });
                let u5 = u4.push(UpdateModel { target: r, second: true, subtract: false, amount: wd });
                u5
            };
            u1
        },
        BinaryOp::IntDiv => {
            seq![
                UpdateModel { target: l, second: false, subtract: false, amount: w },
                UpdateModel { target: l, second: true, subtract: false, amount: wd },
            ]
        },
    }
}

/// The same for an operation of one operand.
pub open spec fn second_unary<F: Fn(FloatOp, u64, u64) -> u64>(
    op: UnaryOp,
    j: int,
    w: u64,
    wd: u64,
    y: u64,
    u: u64,
    du: u64,
    fpu: Fpu<F>,
) -> Seq<UpdateModel> {
    match op {
        UnaryOp::Abs => {
            let u1 = if num_le(ZERO, u) {
                let u2 = Seq::empty().push(UpdateModel { target: j, second: false, subtract: false, amount: fpu.product(w, ONE) });
                let u3 = u2.push(UpdateModel { target: j, second: true, subtract: false, amount: fpu.product(wd, ONE) });
                u3
            } else {
                let u4 = Seq::empty().push(UpdateModel { target: j, second: false, subtract: false, amount: fpu.product(w, MINUS_ONE) });
                let u5 = u4.push(UpdateModel { target: j, second: true, subtract: false, amount: fpu.product(wd, MINUS_ONE) });
                u5
            };
            u1
        },
        UnaryOp::Neg => {
            seq![
                UpdateModel { target: j, second: false, subtract: true, amount: w },
                UpdateModel { target: j, second: true, subtract: true, amount: wd },
            ]
        },
        UnaryOp::Floor => {
            Seq::empty()
        },
        UnaryOp::Ceil => {
            Seq::empty()
        },
        UnaryOp::Tanh => {
            let sech2 = fpu.difference(ONE, fpu.product(y, y));
            seq![
                UpdateModel { target: j, second: false, subtract: false, amount: fpu.product(w, sech2) },
                UpdateModel { target: j, second: true, subtract: false, amount: fpu.sum(fpu.product(wd, sech2), fpu.product(fpu.product(w, fpu.product(fpu.product(MINUS_TWO, y), sech2)), du)) },
            ]
        },
        UnaryOp::Tan => {
            let c = fpu.calc(FloatOp::Cos, u, ZERO);
            let sec2 = fpu.quotient(ONE, fpu.product(c, c));
            let t = fpu.calc(FloatOp::Tan, u, ZERO);
            seq![
                UpdateModel { target: j, second: false, subtract: false, amount: fpu.product(w, sec2) },
                UpdateModel { target: j, second: true, subtract: false, amount: fpu.sum(fpu.product(wd, sec2), fpu.product(fpu.product(fpu.product(fpu.product(w, TWO), t), sec2), du)) },
            ]
        },
        UnaryOp::Sqrt => {
            let u1 = if num_lt(ZERO, y) {
                let fp = fpu.quotient(HALF, y);
                let fpp = fpu.quotient(MINUS_QUARTER, fpu.product(u, y));
                let u2 = Seq::empty().push(UpdateModel { target: j, second: false, subtract: false, amount: fpu.product(w, fp) });
                let u3 = u2.push(UpdateModel { target: j, second: true, subtract: false, amount: fpu.sum(fpu.product(wd, fp), fpu.product(fpu.product(w, fpp), du)) });
                u3
            } else {
                Seq::empty()
            };
            u1
        },
        UnaryOp::Sinh => {
            let c = fpu.calc(FloatOp::Cosh, u, ZERO);
            seq![
                UpdateModel { target: j, second: false, subtract: false, amount: fpu.product(w, c) },
                UpdateModel { target: j, second: true, subtract: false, amount: fpu.sum(fpu.product(wd, c), fpu.product(fpu.product(w, fpu.calc(FloatOp::Sinh, u, ZERO)), du)) },
            ]
        },
        UnaryOp::Sin => {
            let c = fpu.calc(FloatOp::Cos, u, ZERO);
            seq![
                UpdateModel { target: j, second: false, subtract: false, amount: fpu.product(w, c) },
                UpdateModel { target: j, second: true, subtract: false, amount: fpu.sum(fpu.product(wd, c), fpu.product(fpu.product(w, negated(fpu.calc(FloatOp::Sin, u, ZERO))), du)) },
            ]
        },
        UnaryOp::Log10 => {
            seq![
                UpdateModel { target: j, second: false, subtract: false, amount: fpu.quotient(w, fpu.product(u, LN_10)) },
                UpdateModel { target: j, second: true, subtract: false, amount: fpu.sum(fpu.quotient(wd, fpu.product(u, LN_10)), fpu.product(fpu.product(w, fpu.quotient(MINUS_ONE, fpu.product(fpu.product(u, u), LN_10))), du)) },
            ]
        },
        UnaryOp::Log => {
            seq![
                UpdateModel { target: j, second: false, subtract: false, amount: fpu.quotient(w, u) },
                UpdateModel { target: j, second: true, subtract: false, amount: fpu.sum(fpu.quotient(wd, u), fpu.product(fpu.product(w, fpu.quotient(MINUS_ONE, fpu.product(u, u))), du)) },
            ]
        },
        UnaryOp::Exp => {
            seq![
                UpdateModel { target: j, second: false, subtract: false, amount: fpu.product(w, y) },
                UpdateModel { target: j, second: true, subtract: false, amount: fpu.sum(fpu.product(wd, y), fpu.product(fpu.product(w, y), du)) },
            ]
        },
        UnaryOp::Cosh => {
            let s = fpu.calc(FloatOp::Sinh, u, ZERO);
            seq![
                UpdateModel { target: j, second: false, subtract: false, amount: fpu.product(w, s) },
                UpdateModel { target: j, second: true, subtract: false, amount: fpu.sum(fpu.product(wd, s), fpu.product(fpu.product(w, fpu.calc(FloatOp::Cosh, u, ZERO)), du)) },
            ]
        },
        UnaryOp::Cos => {
            let s = fpu.calc(FloatOp::Sin, u, ZERO);
            seq![
                UpdateModel { target: j, second: false, subtract: true, amount: fpu.product(w, s) },
                UpdateModel { target: j, second: true, subtract: false, amount: fpu.sum(fpu.product(wd, negated(s)), fpu.product(fpu.product(w, negated(fpu.calc(FloatOp::Cos, u, ZERO))), du)) },
            ]
        },
        UnaryOp::Atanh => {
            let d = fpu.difference(ONE, fpu.product(u, u));
            seq![
                UpdateModel { target: j, second: false, subtract: false, amount: fpu.quotient(w, d) },
                UpdateModel { target: j, second: true, subtract: false, amount: fpu.sum(fpu.quotient(wd, d), fpu.product(fpu.product(w, fpu.quotient(fpu.product(TWO, u), fpu.product(d, d))), du)) },
            ]
        },
        UnaryOp::Atan => {
            let d = fpu.sum(ONE, fpu.product(u, u));
            seq![
                UpdateModel { target: j, second: false, subtract: false, amount: fpu.quotient(w, d) },
                UpdateModel { target: j, second: true, subtract: false, amount: fpu.sum(fpu.quotient(wd, d), fpu.product(fpu.product(w, fpu.quotient(fpu.product(MINUS_TWO, u), fpu.product(d, d))), du)) },
            ]
        },
        UnaryOp::Asinh => {
            let s = fpu.calc(FloatOp::Sqrt, fpu.sum(fpu.product(u, u), ONE), ZERO);
            seq![
                UpdateModel { target: j, second: false, subtract: false, amount: fpu.quotient(w, s) },
                UpdateModel { target: j, second: true, subtract: false, amount: fpu.sum(fpu.quotient(wd, s), fpu.product(fpu.product(w, fpu.quotient(negated(u), fpu.product(fpu.product(s, s), s))), du)) },
            ]
        },
        UnaryOp::Asin => {
            let s = fpu.calc(FloatOp::Sqrt, fpu.difference(ONE, fpu.product(u, u)), ZERO);
            seq![
                UpdateModel { target: j, second: false, subtract: false, amount: fpu.quotient(w, s) },
                UpdateModel { target: j, second: true, subtract: false, amount: fpu.sum(fpu.quotient(wd, s), fpu.product(fpu.product(w, fpu.quotient(u, fpu.product(fpu.product(s, s), s))), du)) },
            ]
        },
        UnaryOp::Acosh => {
            let s = fpu.calc(FloatOp::Sqrt, fpu.difference(fpu.product(u, u), ONE), ZERO);
            seq![
                UpdateModel { target: j, second: false, subtract: false, amount: fpu.quotient(w, s) },
                UpdateModel { target: j, second: true, subtract: false, amount: fpu.sum(fpu.quotient(wd, s), fpu.product(fpu.product(w, fpu.quotient(negated(u), fpu.product(fpu.product(s, s), s))), du)) },
            ]
        },
        UnaryOp::Acos => {
            let s = fpu.calc(FloatOp::Sqrt, fpu.difference(ONE, fpu.product(u, u)), ZERO);
            seq![
                UpdateModel { target: j, second: false, subtract: true, amount: fpu.quotient(w, s) },
                UpdateModel { target: j, second: true, subtract: false, amount: fpu.sum(fpu.product(wd, fpu.quotient(MINUS_ONE, s)), fpu.product(fpu.product(w, fpu.quotient(negated(u), fpu.product(fpu.product(s, s), s))), du)) },
            ]
        },
    }
}

fn second_binary_updates<F: Fn(FloatOp, u64, u64) -> u64>(
    op: BinaryOp,
    l: usize,
    r: usize,
    w: u64,
    wd: u64,
    y: u64,
    lv: u64,
    rv: u64,
    dl: u64,
    dr: u64,
    fpu: &Fpu<F>,
) -> (out: Vec<Update>)
    requires
        fpu.sound(),
    ensures
        update_models(out@) == second_binary(
            op,
            l as int,
            r as int,
            w,
            wd,
            y,
            lv,
            rv,
            dl,
            dr,
            *fpu,
        ),
        forall|k: int|
            0 <= k < out@.len() ==> (#[trigger] out@[k]).target == l || out@[k].target == r,
{
    let mut out: Vec<Update> = Vec::new();
    assert(update_models(out@) =~= Seq::empty());
    match op {
        BinaryOp::Add => {
            push_update(&mut out, Update { target: l, second: false, subtract: false, amount: w });
            push_update(&mut out, Update { target: r, second: false, subtract: false, amount: w });
            push_update(&mut out, Update { target: l, second: true, subtract: false, amount: wd });
            push_update(&mut out, Update { target: r, second: true, subtract: false, amount: wd });
        },
        BinaryOp::Sub => {
            push_update(&mut out, Update { target: l, second: false, subtract: false, amount: w });
            push_update(&mut out, Update { target: r, second: false, subtract: true, amount: w });
            push_update(&mut out, Update { target: l, second: true, subtract: false, amount: wd });
            push_update(&mut out, Update { target: r, second: true, subtract: true, amount: wd });
        },
        BinaryOp::Mul => {
            push_update(&mut out, Update { target: l, second: false, subtract: false, amount: fpu.mul(w, rv) });
            push_update(&mut out, Update { target: r, second: false, subtract: false, amount: fpu.mul(w, lv) });
            push_update(&mut out, Update { target: l, second: true, subtract: false, amount: fpu.add(fpu.mul(wd, rv), fpu.mul(w, dr)) });
            push_update(&mut out, Update { target: r, second: true, subtract: false, amount: fpu.add(fpu.mul(wd, lv), fpu.mul(w, dl)) });
        },
        BinaryOp::Div => {
            let rv2: u64 = fpu.mul(rv, rv);
            let rv3: u64 = fpu.mul(rv2, rv);
            push_update(&mut out, Update { target: l, second: false, subtract: false, amount: fpu.div(w, rv) });
            push_update(&mut out, Update { target: l, second: true, subtract: false, amount: fpu.add(fpu.div(wd, rv), fpu.mul(w, fpu.div(neg(dr), rv2))) });
            push_update(&mut out, Update { target: r, second: false, subtract: false, amount: fpu.mul(w, fpu.div(neg(lv), rv2)) });
            push_update(&mut out, Update { target: r, second: true, subtract: false, amount: fpu.add(fpu.mul(wd, fpu.div(neg(lv), rv2)), fpu.mul(w, fpu.add(fpu.div(neg(dl), rv2), fpu.div(fpu.mul(fpu.mul(TWO, lv), dr), rv3)))) });
        },
        BinaryOp::Mod => {
            push_update(&mut out, Update { target: l, second: false, subtract: false, amount: w });
            push_update(&mut out, Update { target: l, second: true, subtract: false, amount: wd });
        },
        BinaryOp::Pow => {
            if !eq(rv, ZERO) {
                if !eq(lv, ZERO) {
                    let p: u64 = fpu.mul(rv, fpu.run(FloatOp::Pow, lv, fpu.sub(rv, ONE)));
                    push_update(&mut out, Update { target: l, second: false, subtract: false, amount: fpu.mul(w, p) });
                    if lt(ZERO, lv) {
                        push_update(&mut out, Update { target: l, second: true, subtract: false, amount: fpu.add(fpu.mul(wd, p), fpu.mul(w, fpu.add(fpu.mul(dr, fpu.run(FloatOp::Pow, lv, fpu.sub(rv, ONE))), fpu.mul(fpu.mul(rv, fpu.run(FloatOp::Pow, lv, fpu.sub(rv, ONE))), fpu.add(fpu.div(fpu.mul(fpu.sub(rv, ONE), dl), lv), fpu.mul(dr, fpu.run(FloatOp::Ln, lv, ZERO))))))) });
                    } else {
                        push_update(&mut out, Update { target: l, second: true, subtract: false, amount: fpu.add(fpu.mul(wd, p), fpu.mul(w, fpu.add(fpu.mul(dr, fpu.run(FloatOp::Pow, lv, fpu.sub(rv, ONE))), fpu.mul(fpu.mul(fpu.mul(rv, fpu.sub(rv, ONE)), fpu.run(FloatOp::Pow, lv, fpu.sub(rv, TWO))), dl)))) });
                    }
                } else {
                    if le(ONE, rv) {
                        let p: u64 = fpu.mul(rv, fpu.run(FloatOp::Pow, lv, fpu.sub(rv, ONE)));
                        push_update(&mut out, Update { target: l, second: false, subtract: false, amount: fpu.mul(w, p) });
                        let bend: u64 = if lt(rv, TWO) {
                            ZERO
                        } else if eq(rv, TWO) {
                            fpu.mul(TWO, dl)
                        } else {
                            fpu.mul(fpu.mul(fpu.mul(rv, fpu.sub(rv, ONE)), fpu.run(FloatOp::Pow, lv, fpu.sub(rv, TWO))), dl)
                        };
                        push_update(&mut out, Update { target: l, second: true, subtract: false, amount: fpu.add(fpu.mul(wd, p), fpu.mul(w, bend)) });
                    }
                }
            }
            if lt(ZERO, lv) {
                let ln_l: u64 = fpu.run(FloatOp::Ln, lv, ZERO);
                let q: u64 = fpu.mul(y, ln_l);
                push_update(&mut out, Update { target: r, second: false, subtract: false, amount: fpu.mul(w, q) });
                let dy: u64 = fpu.mul(y, fpu.add(fpu.div(fpu.mul(rv, dl), lv), fpu.mul(dr, ln_l)));
                push_update(&mut out, Update { target: r, second: true, subtract: false, amount: fpu.add(fpu.mul(wd, q), fpu.mul(w, fpu.add(fpu.mul(dy, ln_l), fpu.div(fpu.mul(y, dl), lv)))) });
            }
        },
        BinaryOp::Atan2 => {
            let d: u64 = fpu.add(fpu.mul(lv, lv), fpu.mul(rv, rv));
            if lt(ZERO, d) {
                let d2: u64 = fpu.mul(d, d);
                let dd: u64 = fpu.add(fpu.mul(fpu.mul(TWO, lv), dl), fpu.mul(fpu.mul(TWO, rv), dr));
                push_update(&mut out, Update { target: l, second: false, subtract: false, amount: fpu.div(fpu.mul(w, rv), d) });
                push_update(&mut out, Update { target: l, second: true, subtract: false, amount: fpu.add(fpu.div(fpu.mul(wd, rv), d), fpu.mul(w, fpu.div(fpu.sub(fpu.mul(dr, d), fpu.mul(rv, dd)), d2))) });
                push_update(&mut out, Update { target: r, second: false, subtract: false, amount: fpu.mul(w, fpu.div(neg(lv), d)) });
                push_update(&mut out, Update { target: r, second: true, subtract: false, amount: fpu.add(fpu.mul(wd, fpu.div(neg(lv), d)), fpu.mul(w, fpu.div(fpu.add(fpu.mul(neg(dl), d), fpu.mul(lv, dd)), d2))) });
            }
        },
        BinaryOp::Less => {
            if lt(lv, rv) {
                push_update(&mut out, Update { target: l, second: false, subtract: false, amount: w });
                push_update(&mut out, Update { target: l, second: true, subtract: false, amount: wd });
            } else {
                push_update(&mut out, Update { target: r, second: false, subtract: false, amount: w });
                push_update(&mut out, Update { target: r, second: true, subtract: false, amount: wd });
            }
        },
        BinaryOp::IntDiv => {
            push_update(&mut out, Update { target: l, second: false, subtract: false, amount: w });
            push_update(&mut out, Update { target: l, second: true, subtract: false, amount: wd });
        },
    }
    proof {
        lemma_targets_of_models(out@, l as int, r as int);
    }
    out
}

fn second_unary_updates<F: Fn(FloatOp, u64, u64) -> u64>(
    op: UnaryOp,
    j: usize,
    w: u64,
    wd: u64,
    y: u64,
    u: u64,
    du: u64,
    fpu: &Fpu<F>,
) -> (out: Vec<Update>)
    requires
        fpu.sound(),
    ensures
        update_models(out@) == second_unary(op, j as int, w, wd, y, u, du, *fpu),
        forall|k: int| 0 <= k < out@.len() ==> (#[trigger] out@[k]).target == j,
{
    let mut out: Vec<Update> = Vec::new();
    assert(update_models(out@) =~= Seq::empty());
    match op {
        UnaryOp::Abs => {
            if le(ZERO, u) {
                push_update(&mut out, Update { target: j, second: false, subtract: false, amount: fpu.mul(w, ONE) });
                push_update(&mut out, Update { target: j, second: true, subtract: false, amount: fpu.mul(wd, ONE) });
            } else {
                push_update(&mut out, Update { target: j, second: false, subtract: false, amount: fpu.mul(w, MINUS_ONE) });
                push_update(&mut out, Update { target: j, second: true, subtract: false, amount: fpu.mul(wd, MINUS_ONE) });
            }
        },
        UnaryOp::Neg => {
            push_update(&mut out, Update { target: j, second: false, subtract: true, amount: w });
            push_update(&mut out, Update { target: j, second: true, subtract: true, amount: wd });
        },
        UnaryOp::Floor => {
        },
        UnaryOp::Ceil => {
        },
        UnaryOp::Tanh => {
            let sech2: u64 = fpu.sub(ONE, fpu.mul(y, y));
            push_update(&mut out, Update { target: j, second: false, subtract: false, amount: fpu.mul(w, sech2) });
            push_update(&mut out, Update { target: j, second: true, subtract: false, amount: fpu.add(fpu.mul(wd, sech2), fpu.mul(fpu.mul(w, fpu.mul(fpu.mul(MINUS_TWO, y), sech2)), du)) });
        },
        UnaryOp::Tan => {
            let c: u64 = fpu.run(FloatOp::Cos, u, ZERO);
            let sec2: u64 = fpu.div(ONE, fpu.mul(c, c));
            let t: u64 = fpu.run(FloatOp::Tan, u, ZERO);
            push_update(&mut out, Update { target: j, second: false, subtract: false, amount: fpu.mul(w, sec2) });
            push_update(&mut out, Update { target: j, second: true, subtract: false, amount: fpu.add(fpu.mul(wd, sec2), fpu.mul(fpu.mul(fpu.mul(fpu.mul(w, TWO), t), sec2), du)) });
        },
        UnaryOp::Sqrt => {
            if lt(ZERO, y) {
                let fp: u64 = fpu.div(HALF, y);
                let fpp: u64 = fpu.div(MINUS_QUARTER, fpu.mul(u, y));
                push_update(&mut out, Update { target: j, second: false, subtract: false, amount: fpu.mul(w, fp) });
                push_update(&mut out, Update { target: j, second: true, subtract: false, amount: fpu.add(fpu.mul(wd, fp), fpu.mul(fpu.mul(w, fpp), du)) });
            }
        },
        UnaryOp::Sinh => {
            let c: u64 = fpu.run(FloatOp::Cosh, u, ZERO);
            push_update(&mut out, Update { target: j, second: false, subtract: false, amount: fpu.mul(w, c) });
            push_update(&mut out, Update { target: j, second: true, subtract: false, amount: fpu.add(fpu.mul(wd, c), fpu.mul(fpu.mul(w, fpu.run(FloatOp::Sinh, u, ZERO)), du)) });
        },
        UnaryOp::Sin => {
            let c: u64 = fpu.run(FloatOp::Cos, u, ZERO);
            push_update(&mut out, Update { target: j, second: false, subtract: false, amount: fpu.mul(w, c) });
            push_update(&mut out, Update { target: j, second: true, subtract: false, amount: fpu.add(fpu.mul(wd, c), fpu.mul(fpu.mul(w, neg(fpu.run(FloatOp::Sin, u, ZERO))), du)) });
        },
        UnaryOp::Log10 => {
            push_update(&mut out, Update { target: j, second: false, subtract: false, amount: fpu.div(w, fpu.mul(u, LN_10)) });
            push_update(&mut out, Update { target: j, second: true, subtract: false, amount: fpu.add(fpu.div(wd, fpu.mul(u, LN_10)), fpu.mul(fpu.mul(w, fpu.div(MINUS_ONE, fpu.mul(fpu.mul(u, u), LN_10))), du)) });
        },
        UnaryOp::Log => {
            push_update(&mut out, Update { target: j, second: false, subtract: false, amount: fpu.div(w, u) });
            push_update(&mut out, Update { target: j, second: true, subtract: false, amount: fpu.add(fpu.div(wd, u), fpu.mul(fpu.mul(w, fpu.div(MINUS_ONE, fpu.mul(u, u))), du)) });
        },
        UnaryOp::Exp => {
            push_update(&mut out, Update { target: j, second: false, subtract: false, amount: fpu.mul(w, y) });
            push_update(&mut out, Update { target: j, second: true, subtract: false, amount: fpu.add(fpu.mul(wd, y), fpu.mul(fpu.mul(w, y), du)) });
        },
        UnaryOp::Cosh => {
            let s: u64 = fpu.run(FloatOp::Sinh, u, ZERO);
            push_update(&mut out, Update { target: j, second: false, subtract: false, amount: fpu.mul(w, s) });
            push_update(&mut out, Update { target: j, second: true, subtract: false, amount: fpu.add(fpu.mul(wd, s), fpu.mul(fpu.mul(w, fpu.run(FloatOp::Cosh, u, ZERO)), du)) });
        },
        UnaryOp::Cos => {
            let s: u64 = fpu.run(FloatOp::Sin, u, ZERO);
            push_update(&mut out, Update { target: j, second: false, subtract: true, amount: fpu.mul(w, s) });
            push_update(&mut out, Update { target: j, second: true, subtract: false, amount: fpu.add(fpu.mul(wd, neg(s)), fpu.mul(fpu.mul(w, neg(fpu.run(FloatOp::Cos, u, ZERO))), du)) });
        },
        UnaryOp::Atanh => {
            let d: u64 = fpu.sub(ONE, fpu.mul(u, u));
            push_update(&mut out, Update { target: j, second: false, subtract: false, amount: fpu.div(w, d) });
            push_update(&mut out, Update { target: j, second: true, subtract: false, amount: fpu.add(fpu.div(wd, d), fpu.mul(fpu.mul(w, fpu.div(fpu.mul(TWO, u), fpu.mul(d, d))), du)) });
        },
        UnaryOp::Atan => {
            let d: u64 = fpu.add(ONE, fpu.mul(u, u));
            push_update(&mut out, Update { target: j, second: false, subtract: false, amount: fpu.div(w, d) });
            push_update(&mut out, Update { target: j, second: true, subtract: false, amount: fpu.add(fpu.div(wd, d), fpu.mul(fpu.mul(w, fpu.div(fpu.mul(MINUS_TWO, u), fpu.mul(d, d))), du)) });
        },
        UnaryOp::Asinh => {
            let s: u64 = fpu.run(FloatOp::Sqrt, fpu.add(fpu.mul(u, u), ONE), ZERO);
            push_update(&mut out, Update { target: j, second: false, subtract: false, amount: fpu.div(w, s) });
            push_update(&mut out, Update { target: j, second: true, subtract: false, amount: fpu.add(fpu.div(wd, s), fpu.mul(fpu.mul(w, fpu.div(neg(u), fpu.mul(fpu.mul(s, s), s))), du)) });
        },
        UnaryOp::Asin => {
            let s: u64 = fpu.run(FloatOp::Sqrt, fpu.sub(ONE, fpu.mul(u, u)), ZERO);
            push_update(&mut out, Update { target: j, second: false, subtract: false, amount: fpu.div(w, s) });
            push_update(&mut out, Update { target: j, second: true, subtract: false, amount: fpu.add(fpu.div(wd, s), fpu.mul(fpu.mul(w, fpu.div(u, fpu.mul(fpu.mul(s, s), s))), du)) });
        },
        UnaryOp::Acosh => {
            let s: u64 = fpu.run(FloatOp::Sqrt, fpu.sub(fpu.mul(u, u), ONE), ZERO);
            push_update(&mut out, Update { target: j, second: false, subtract: false, amount: fpu.div(w, s) });
            push_update(&mut out, Update { target: j, second: true, subtract: false, amount: fpu.add(fpu.div(wd, s), fpu.mul(fpu.mul(w, fpu.div(neg(u), fpu.mul(fpu.mul(s, s), s))), du)) });
        },
        UnaryOp::Acos => {
            let s: u64 = fpu.run(FloatOp::Sqrt, fpu.sub(ONE, fpu.mul(u, u)), ZERO);
            push_update(&mut out, Update { target: j, second: false, subtract: true, amount: fpu.div(w, s) });
            push_update(&mut out, Update { target: j, second: true, subtract: false, amount: fpu.add(fpu.mul(wd, fpu.div(MINUS_ONE, s)), fpu.mul(fpu.mul(w, fpu.div(neg(u), fpu.mul(fpu.mul(s, s), s))), du)) });
        },
    }
    proof {
        lemma_targets_of_models(out@, j as int, j as int);
    }
    out
}

/// Place of the second derivative by the real arguments `k` and `l`.
pub open spec fn packed_upper(k: int, l: int) -> int {
    if k <= l {
        k + triangle(l as nat)
    } else {
        l + triangle(k as nat)
    }
}

proof fn lemma_triangle_ascends(a: nat, b: nat)
    requires
        a <= b,
    ensures
        triangle(a) <= triangle(b),
    decreases b,
{
    if a < b {
        lemma_triangle_ascends(a, (b - 1) as nat);
    }
}

fn packed_upper_index(k: usize, l: usize) -> (p: usize)
    requires
        triangle((if k <= l { l } else { k }) as nat) + (if k <= l { k } else { l })
            <= usize::MAX,
        k < usize::MAX,
        l < usize::MAX,
    ensures
        p == packed_upper(k as int, l as int),
{
    let (lo, hi): (usize, usize) = if k <= l {
        (k, l)
    } else {
        (l, k)
    };
    proof {
        lemma_triangle(hi as nat);
        if hi % 2 == 0 {
            let h = hi as int / 2;
            assert(2 * (h * (hi + 1)) == hi * (hi + 1)) by (nonlinear_arith)
                requires
                    hi == 2 * h,
            ;
        } else {
            let h = (hi + 1) / 2;
            assert(2 * (hi * h) == hi * (hi + 1)) by (nonlinear_arith)
                requires
                    hi + 1 == 2 * h,
            ;
        }
    }
    let t: usize = if hi % 2 == 0 {
        (hi / 2) * (hi + 1)
    } else {
        hi * ((hi + 1) / 2)
    };
    lo + t
}

/// The updates of a call for its first `k` real arguments.
pub open spec fn second_call<F: Fn(FloatOp, u64, u64) -> u64>(
    targets: Seq<int>,
    derivs: Seq<u64>,
    hessian: Seq<u64>,
    w: u64,
    wd: u64,
    dot: Seq<u64>,
    k: nat,
    fpu: Fpu<F>,
) -> Seq<UpdateModel>
    decreases k,
{
    if k == 0 {
        Seq::empty()
    } else {
        let t = targets[k - 1];
        let curved = target_dot(
            |l: int| hessian[packed_upper(k - 1, l)],
            targets,
            dot,
            targets.len(),
            fpu,
        );
        second_call(targets, derivs, hessian, w, wd, dot, (k - 1) as nat, fpu).push(
            UpdateModel {
                target: t,
                second: false,
                subtract: false,
                amount: fpu.product(w, derivs[k - 1]),
            },
        ).push(
            UpdateModel {
                target: t,
                second: true,
                subtract: false,
                amount: fpu.sum(fpu.product(wd, derivs[k - 1]), fpu.product(w, curved)),
            },
        )
    }
}

/// What the operation at `i` adds to the adjoints of its operands and to their
/// derivatives along the direction.
pub open spec fn second_updates<
    F: Fn(FloatOp, u64, u64) -> u64,
    E: Fn(usize, &String, &Vec<ExternalArg>, bool, bool) -> ExternalValue,
>(
    op: OpModel,
    i: int,
    w: u64,
    wd: u64,
    vals: Seq<u64>,
    dot: Seq<u64>,
    fpu: Fpu<F>,
    ext: Externals<E>,
) -> Seq<UpdateModel> {
    match op {
        OpModel::Const(_) => Seq::empty(),
        OpModel::Var(_) => Seq::empty(),
        OpModel::Binary(o, l, r) => second_binary(
            o,
            l,
            r,
            w,
            wd,
            vals[i],
            vals[l],
            vals[r],
            dot[l],
            dot[r],
            fpu,
        ),
        OpModel::Unary(o, j) => second_unary(o, j, w, wd, vals[i], vals[j], dot[j], fpu),
        OpModel::Call(lib, n, args) => {
            let res = ext.result(lib as usize, n, arg_values(args, vals), true, true);
            second_call(
                real_targets(args),
                res.derivs,
                res.hessian,
                w,
                wd,
                dot,
                real_targets(args).len(),
                fpu,
            )
        },
    }
}

/// One row of the second derivatives of a call against the direction.
fn curved_sum<F: Fn(FloatOp, u64, u64) -> u64>(
    k: usize,
    targets: &Vec<usize>,
    hessian: &Vec<u64>,
    dot: &Vec<u64>,
    fpu: &Fpu<F>,
) -> (s: u64)
    requires
        fpu.sound(),
        k < targets@.len(),
        hessian@.len() == triangle(targets@.len()),
        forall|l: int| 0 <= l < targets@.len() ==> #[trigger] targets@[l] < dot@.len(),
    ensures
        s == target_dot(
            |l: int| hessian@[packed_upper(k as int, l)],
            targets@.map_values(|t: usize| t as int),
            dot@,
            targets@.len(),
            *fpu,
        ),
{
    let ghost list = targets@.map_values(|t: usize| t as int);
    let ghost coeffs = |l: int| hessian@[packed_upper(k as int, l)];
    let mut s: u64 = ZERO;
    for l in 0..targets.len()
        invariant
            fpu.sound(),
            k < targets@.len(),
            hessian@.len() == triangle(targets@.len()),
            forall|l: int| 0 <= l < targets@.len() ==> #[trigger] targets@[l] < dot@.len(),
            list == targets@.map_values(|t: usize| t as int),
            coeffs == (|l: int| hessian@[packed_upper(k as int, l)]),
            s == target_dot(coeffs, list, dot@, l as nat, *fpu),
    {
        let ghost hi = if k <= l {
            l as nat
        } else {
            k as nat
        };
        let size: usize = hessian.len();
        proof {
            lemma_triangle_ascends(hi + 1, targets@.len());
            assert(triangle(hi + 1) == triangle(hi) + hi + 1);
        }
        let h: u64 = hessian[packed_upper_index(k, l)];
        assert(h == coeffs(l as int));
        s = fpu.add(s, fpu.mul(h, dot[targets[l]]));
    }
    s
}

/// The second-order updates of the operation at `i`.
fn second_op_updates<
    F: Fn(FloatOp, u64, u64) -> u64,
    E: Fn(usize, &String, &Vec<ExternalArg>, bool, bool) -> ExternalValue,
>(
    op: &TapeOp,
    i: usize,
    w: u64,
    wd: u64,
    vals: &Vec<u64>,
    dot: &Vec<u64>,
    fpu: &Fpu<F>,
    ext: &Externals<E>,
) -> (out: Vec<Update>)
    requires
        fpu.sound(),
        ext.sound(),
        i < vals@.len(),
        i < dot@.len(),
        forall|t: int| #[trigger] reads(op_model(*op), t) ==> 0 <= t < i,
    ensures
        update_models(out@) == second_updates(
            op_model(*op),
            i as int,
            w,
            wd,
            vals@,
            dot@,
            *fpu,
            *ext,
        ),
        forall|k: int| 0 <= k < out@.len() ==> (#[trigger] out@[k]).target < i,
{
    let ghost m = op_model(*op);
    match shape(op) {
        OpShape::Const(_) => {
            let out: Vec<Update> = Vec::new();
            assert(update_models(out@) =~= Seq::empty());
            out
        },
        OpShape::Var(_) => {
            let out: Vec<Update> = Vec::new();
            assert(update_models(out@) =~= Seq::empty());
            out
        },
        OpShape::Binary(o, l, r) => {
            assert(reads(m, l as int) && reads(m, r as int));
            second_binary_updates(
                o,
                l,
                r,
                w,
                wd,
                vals[i],
                vals[l],
                vals[r],
                dot[l],
                dot[r],
                fpu,
            )
        },
        OpShape::Unary(o, j) => {
            assert(reads(m, j as int));
            second_unary_updates(o, j, w, wd, vals[i], vals[j], dot[j], fpu)
        },
        OpShape::Call(lib, name, args) => {
            proof {
                lemma_call_args_in_range(m, args@, lib as int, name@, i as int);
                lemma_real_targets(arg_models(args@), vals@);
            }
            let call_args: Vec<ExternalArg> = funcall_ext_args(args, vals);
            let res: ExternalValue = ext.call(lib, name, &call_args, true, true);
            let targets: Vec<usize> = real_args(args);
            let ghost list = real_targets(arg_models(args@));
            assert forall|l: int| 0 <= l < targets@.len() implies #[trigger] targets@[l] < i by {
                assert(list[l] == targets@[l]);
                assert(reads(m, list[l]));
            }
            let mut out: Vec<Update> = Vec::new();
            assert(update_models(out@) =~= Seq::empty());
            for k in 0..targets.len()
                invariant
                    fpu.sound(),
                    i < dot@.len(),
                    list == targets@.map_values(|t: usize| t as int),
                    targets@.len() == res.derivs@.len(),
                    res.hessian@.len() == triangle(targets@.len()),
                    forall|l: int| 0 <= l < targets@.len() ==> #[trigger] targets@[l] < i,
                    forall|p: int|
                        0 <= p < update_models(out@).len() ==> 0 <= (#[trigger] update_models(
                            out@,
                        )[p]).target < i,
                    update_models(out@) == second_call(
                        list,
                        res.derivs@,
                        res.hessian@,
                        w,
                        wd,
                        dot@,
                        k as nat,
                        *fpu,
                    ),
            {
                let t: usize = targets[k];
                assert(list[k as int] == t);
                push_update(
                    &mut out,
                    Update {
                        target: t,
                        second: false,
                        subtract: false,
                        amount: fpu.mul(w, res.derivs[k]),
                    },
                );
                let curved: u64 = curved_sum(k, &targets, &res.hessian, dot, fpu);
                push_update(
                    &mut out,
                    Update {
                        target: t,
                        second: true,
                        subtract: false,
                        amount: fpu.add(fpu.mul(wd, res.derivs[k]), fpu.mul(w, curved)),
                    },
                );
            }
            assert forall|k: int| 0 <= k < out@.len() implies (#[trigger] out@[k]).target < i by {
                assert(update_models(out@)[k].target == out@[k].target);
            }
            out
        },
    }
}

/// The problem variable `j` is on the tape.
pub open spec fn on_tape(ops: Seq<OpModel>, j: usize) -> bool {
    exists|i: int| 0 <= i < ops.len() && #[trigger] ops[i] == OpModel::Var(j as int)
}

/// The problem variables on the tape in increasing order.
pub open spec fn variable_list(ops: Seq<OpModel>) -> Seq<usize> {
    choose|v: Seq<usize>| #[trigger]
        increasing(v) && forall|j: usize| #[trigger] v.contains(j) <==> on_tape(ops, j)
}

/// Where the second derivative by the problem variables `k` and `j` is
/// gathered; `map` holds one table per row.
pub open spec fn slot(map: Seq<HashMap<usize, usize>>, k: int, j: int) -> Option<usize> {
    if 0 <= k < map.len() && map[k]@.contains_key(j as usize) {
        Some(map[k]@[j as usize])
    } else {
        None
    }
}

/// Adjoints, their derivatives along the direction, and the gathered second
/// derivatives of a second-order sweep.
pub struct SecondState {
    pub adj: Seq<u64>,
    pub adj_dot: Seq<u64>,
    pub out: Seq<u64>,
}

/// The second-order sweep in the direction of the problem variable `j` after
/// all operations from the last one down to `i`. Only second derivatives by
/// `j` and a variable that is not smaller are gathered, so that each pair
/// counts once.
pub open spec fn second_state<
    F: Fn(FloatOp, u64, u64) -> u64,
    E: Fn(usize, &String, &Vec<ExternalArg>, bool, bool) -> ExternalValue,
>(
    ops: Seq<OpModel>,
    vals: Seq<u64>,
    dot: Seq<u64>,
    j: int,
    weight: u64,
    map: Seq<HashMap<usize, usize>>,
    out: Seq<u64>,
    i: int,
    fpu: Fpu<F>,
    ext: Externals<E>,
) -> SecondState
    decreases ops.len() - i,
{
    if i >= ops.len() {
        SecondState {
            adj: Seq::new(ops.len(), |k: int| ZERO).update(ops.len() - 1, ONE),
            adj_dot: Seq::new(ops.len(), |k: int| ZERO),
            out,
        }
    } else {
        let st = second_state(ops, vals, dot, j, weight, map, out, i + 1, fpu, ext);
        let w = st.adj[i];
        let wd = st.adj_dot[i];
        if num_eq(w, ZERO) && num_eq(wd, ZERO) {
            st
        } else {
            match ops[i] {
                OpModel::Var(k) => SecondState {
                    adj: st.adj,
                    adj_dot: st.adj_dot,
                    out: if !num_eq(wd, ZERO) && k >= j {
                        match slot(map, k, j) {
                            Some(pos) => st.out.update(
                                pos as int,
                                fpu.sum(st.out[pos as int], fpu.product(weight, wd)),
                            ),
                            None => st.out,
                        }
                    } else {
                        st.out
                    },
                },
                _ => {
                    let ups = second_updates(ops[i], i, w, wd, vals, dot, fpu, ext);
                    SecondState {
                        adj: applied(st.adj, ups, ups.len(), false, fpu),
                        adj_dot: applied(st.adj_dot, ups, ups.len(), true, fpu),
                        out: st.out,
                    }
                },
            }
        }
    }
}

/// The gathered second derivatives after the sweeps in the directions of the
/// first `count` of the variables.
pub open spec fn hessian_state<
    F: Fn(FloatOp, u64, u64) -> u64,
    E: Fn(usize, &String, &Vec<ExternalArg>, bool, bool) -> ExternalValue,
>(
    ops: Seq<OpModel>,
    vals: Seq<u64>,
    vars: Seq<usize>,
    weight: u64,
    map: Seq<HashMap<usize, usize>>,
    out: Seq<u64>,
    count: nat,
    fpu: Fpu<F>,
    ext: Externals<E>,
) -> Seq<u64>
    decreases count,
{
    if count == 0 {
        out
    } else {
        let before = hessian_state(
            ops,
            vals,
            vars,
            weight,
            map,
            out,
            (count - 1) as nat,
            fpu,
            ext,
        );
        let j = vars[count - 1] as int;
        second_state(
            ops,
            vals,
            tangents(ops, j, vals, ops.len(), fpu, ext),
            j,
            weight,
            map,
            before,
            0,
            fpu,
            ext,
        ).out
    }
}

/// Every slot lies among the `len` gathered values.
pub open spec fn slots_below(map: Seq<HashMap<usize, usize>>, len: int) -> bool {
    forall|k: int, j: usize|
        0 <= k < map.len() && #[trigger] map[k]@.contains_key(j) ==> map[k]@[j] < len
}

impl Tape {
    /// The problem variables on the tape, in increasing order.
    pub fn variables(&self) -> (vars: Vec<usize>)
        ensures
            increasing(vars@),
            forall|j: usize| #[trigger] vars@.contains(j) <==> on_tape(self.model(), j),
            vars@ == variable_list(self.model()),
    {
        let ghost ops = self.model();
        let mut vars: Vec<usize> = Vec::new();
        for i in 0..self.ops.len()
            invariant
                ops == self.model(),
                increasing(vars@),
                forall|j: usize| #[trigger]
                    vars@.contains(j) <==> on_tape(ops.take(i as int), j),
        {
            let ghost before = vars@;
            let ghost m = op_model(self.ops@[i as int]);
            assert(m == ops[i as int]);
            if let OpShape::Var(j) = shape(&self.ops[i]) {
                insert(&mut vars, j);
            }
            assert forall|j: usize| #[trigger] vars@.contains(j) <==> on_tape(
                ops.take(i + 1),
                j,
            ) by {
                let now = ops.take(i + 1);
                let was = ops.take(i as int);
                if on_tape(was, j) {
                    let p = choose|p: int|
                        0 <= p < was.len() && #[trigger] was[p] == OpModel::Var(j as int);
                    assert(now[p] == OpModel::Var(j as int));
                }
                if on_tape(now, j) {
                    let p = choose|p: int|
                        0 <= p < now.len() && #[trigger] now[p] == OpModel::Var(j as int);
                    if p < i {
                        assert(was[p] == OpModel::Var(j as int));
                    }
                }
                if m == OpModel::Var(j as int) {
                    assert(now[i as int] == OpModel::Var(j as int));
                }
                assert(before.contains(j) <==> on_tape(was, j));
            }
        }
        assert(ops.take(ops.len() as int) =~= ops);
        proof {
            let v = variable_list(ops);
            assert(increasing(vars@) && forall|j: usize| #[trigger]
                vars@.contains(j) <==> on_tape(ops, j));
            lemma_increasing_unique(vars@, v);
        }
        vars
    }

    /// Derivatives of all operations by the problem variable `seed_var`.
    pub fn forward_tangent<
        F: Fn(FloatOp, u64, u64) -> u64,
        E: Fn(usize, &String, &Vec<ExternalArg>, bool, bool) -> ExternalValue,
    >(&self, vals: &Vec<u64>, seed_var: usize, fpu: &Fpu<F>, ext: &Externals<E>) -> (dot: Vec<u64>)
        requires
            ordered(self.model()),
            vals@.len() >= self.model().len(),
            fpu.sound(),
            ext.sound(),
        ensures
            dot@ == tangents(
                self.model(),
                seed_var as int,
                vals@,
                self.model().len(),
                *fpu,
                *ext,
            ),
            dot@.len() == self.ops@.len(),
    {
        let ghost ops = self.model();
        let mut dot: Vec<u64> = Vec::new();
        for i in 0..self.ops.len()
            invariant
                ops == self.model(),
                ordered(ops),
                vals@.len() >= ops.len(),
                fpu.sound(),
                ext.sound(),
                dot@.len() == i,
                dot@ == tangents(ops, seed_var as int, vals@, i as nat, *fpu, *ext),
        {
            let op: &TapeOp = &self.ops[i];
            let ghost m = op_model(*op);
            assert(m == ops[i as int]);
            proof {
                assert forall|t: int| #[trigger] reads(m, t) implies 0 <= t < i by {
                    assert(reads(ops[i as int], t));
                }
            }
            let d: u64 = match shape(op) {
                OpShape::Const(_) => ZERO,
                OpShape::Var(k) => if k == seed_var {
                    ONE
                } else {
                    ZERO
                },
                OpShape::Binary(o, l, r) => {
                    assert(reads(m, l as int) && reads(m, r as int));
                    eval_tangent_binary(o, vals[i], vals[l], vals[r], dot[l], dot[r], fpu)
                },
                OpShape::Unary(o, j) => {
                    assert(reads(m, j as int));
                    eval_tangent_unary(o, vals[i], vals[j], dot[j], fpu)
                },
                OpShape::Call(lib, name, args) => {
                    proof {
                        lemma_call_args_in_range(m, args@, lib as int, name@, i as int);
                        lemma_real_targets(arg_models(args@), vals@);
                    }
                    let call_args: Vec<ExternalArg> = funcall_ext_args(args, vals);
                    let res: ExternalValue = ext.call(lib, name, &call_args, true, false);
                    let targets: Vec<usize> = real_args(args);
                    let ghost list = real_targets(arg_models(args@));
                    let ghost coeffs = |k: int| res.derivs@[k];
                    let mut acc: u64 = ZERO;
                    for k in 0..targets.len()
                        invariant
                            fpu.sound(),
                            list == targets@.map_values(|t: usize| t as int),
                            list == real_targets(arg_models(args@)),
                            targets@.len() == res.derivs@.len(),
                            dot@.len() == i,
                            m == OpModel::Call(lib as int, name@, arg_models(args@)),
                            forall|t: int| #[trigger] reads(m, t) ==> 0 <= t < i,
                            forall|k: int|
                                0 <= k < list.len() ==> arg_models(args@).contains(
                                    ArgModel::Tape(#[trigger] list[k]),
                                ),
                            coeffs == (|k: int| res.derivs@[k]),
                            acc == target_dot(coeffs, list, dot@, k as nat, *fpu),
                    {
                        assert(list[k as int] == targets@[k as int]);
                        assert(reads(m, list[k as int]));
                        assert(coeffs(k as int) == res.derivs@[k as int]);
                        acc = fpu.add(acc, fpu.mul(res.derivs[k], dot[targets[k]]));
                    }
                    acc
                },
            };
            assert(d == tangent(m, i as int, seed_var as int, vals@, dot@, *fpu, *ext));
            dot.push(d);
        }
        dot
    }

    /// Adds `weight` times the second derivatives at `x` to `vals`, each at
    /// its slot in `hess_map`. A forward sweep in the direction of each problem
    /// variable is followed by a reverse sweep.
    pub fn hessian_accumulate<
        F: Fn(FloatOp, u64, u64) -> u64,
        E: Fn(usize, &String, &Vec<ExternalArg>, bool, bool) -> ExternalValue,
    >(
        &self,
        x: &[u64],
        weight: u64,
        hess_map: &Vec<HashMap<usize, usize>>,
        vals: &mut Vec<u64>,
        fpu: &Fpu<F>,
        ext: &Externals<E>,
    )
        requires
            ordered(self.model()),
            variables_below(self.model(), x@.len() as int),
            slots_below(hess_map@, old(vals)@.len() as int),
            fpu.sound(),
            ext.sound(),
        ensures
            final(vals)@.len() == old(vals)@.len(),
            final(vals)@ == if self.model().len() == 0 || num_eq(weight, ZERO) {
                old(vals)@
            } else {
                hessian_state(
                    self.model(),
                    run(self.model(), float_algebra(x@, *fpu, *ext)),
                    variable_list(self.model()),
                    weight,
                    hess_map@,
                    old(vals)@,
                    variable_list(self.model()).len(),
                    *fpu,
                    *ext,
                )
            },
    {
        let n: usize = self.ops.len();
        if n == 0 || eq(weight, ZERO) {
            return ;
        }
        let ghost ops = self.model();
        let ghost before = vals@;
        let v: Vec<u64> = self.forward(x, fpu, ext);
        let vars: Vec<usize> = self.variables();
        for c in 0..vars.len()
            invariant
                n == self.ops@.len() == ops.len(),
                n > 0,
                ops == self.model(),
                ordered(ops),
                v@.len() == n,
                slots_below(hess_map@, vals@.len() as int),
                fpu.sound(),
                ext.sound(),
                vals@.len() == before.len(),
                vals@ == hessian_state(
                    ops,
                    v@,
                    vars@,
                    weight,
                    hess_map@,
                    before,
                    c as nat,
                    *fpu,
                    *ext,
                ),
        {
            let j: usize = vars[c];
            let dot: Vec<u64> = self.forward_tangent(&v, j, fpu, ext);
            let mut adj: Vec<u64> = vec![ZERO; n];
            adj.set(n - 1, ONE);
            let mut adj_dot: Vec<u64> = vec![ZERO; n];
            let ghost start = vals@;
            assert(adj@ =~= Seq::new(ops.len(), |k: int| ZERO).update(ops.len() - 1, ONE));
            assert(adj_dot@ =~= Seq::new(ops.len(), |k: int| ZERO));
            let mut i: usize = n;
            while i > 0
                invariant
                    i <= n,
                    n == self.ops@.len() == ops.len(),
                    n > 0,
                    ops == self.model(),
                    ordered(ops),
                    v@.len() == n,
                    dot@.len() == n,
                    adj@.len() == n,
                    adj_dot@.len() == n,
                    slots_below(hess_map@, vals@.len() as int),
                    fpu.sound(),
                    ext.sound(),
                    vals@.len() == start.len(),
                    adj@ == second_state(
                        ops,
                        v@,
                        dot@,
                        j as int,
                        weight,
                        hess_map@,
                        start,
                        i as int,
                        *fpu,
                        *ext,
                    ).adj,
                    adj_dot@ == second_state(
                        ops,
                        v@,
                        dot@,
                        j as int,
                        weight,
                        hess_map@,
                        start,
                        i as int,
                        *fpu,
                        *ext,
                    ).adj_dot,
                    vals@ == second_state(
                        ops,
                        v@,
                        dot@,
                        j as int,
                        weight,
                        hess_map@,
                        start,
                        i as int,
                        *fpu,
                        *ext,
                    ).out,
                decreases i,
            {
                i = i - 1;
                let w: u64 = adj[i];
                let wd: u64 = adj_dot[i];
                let op: &TapeOp = &self.ops[i];
                assert(ops[i as int] == op_model(*op));
                if !(eq(w, ZERO) && eq(wd, ZERO)) {
                    match shape(op) {
                        OpShape::Var(k) => {
                            if !eq(wd, ZERO) && k >= j {
                                if k < hess_map.len() {
                                    match hess_map[k].get(&j) {
                                        Some(pos) => {
                                            let p: usize = *pos;
                                            assert(hess_map@[k as int]@.contains_key(j));
                                            let now: u64 = vals[p];
                                            vals.set(p, fpu.add(now, fpu.mul(weight, wd)));
                                        },
                                        None => {},
                                    }
                                }
                            }
                        },
                        _ => {
                            proof {
                                assert forall|t: int| #[trigger]
                                    reads(op_model(*op), t) implies 0 <= t < i by {
                                    assert(reads(ops[i as int], t));
                                }
                            }
                            let ups: Vec<Update> = second_op_updates(
                                op,
                                i,
                                w,
                                wd,
                                &v,
                                &dot,
                                fpu,
                                ext,
                            );
                            apply_updates(&mut adj, &ups, false, fpu);
                            apply_updates(&mut adj_dot, &ups, true, fpu);
                        },
                    }
                }
            }
        }
    }
}

proof fn lemma_absent_variable<
    F: Fn(FloatOp, u64, u64) -> u64,
    E: Fn(usize, &String, &Vec<ExternalArg>, bool, bool) -> ExternalValue,
>(
    ops: Seq<OpModel>,
    vals: Seq<u64>,
    grad: Seq<u64>,
    i: int,
    j: usize,
    fpu: Fpu<F>,
    ext: Externals<E>,
)
    requires
        0 <= i,
        !on_tape(ops, j),
        j < grad.len(),
        variables_counted(ops),
    ensures
        reverse_state(ops, vals, grad, i, fpu, ext).grad.len() == grad.len(),
        reverse_state(ops, vals, grad, i, fpu, ext).grad[j as int] == grad[j as int],
    decreases ops.len() - i,
{
    if i < ops.len() {
        lemma_absent_variable(ops, vals, grad, i + 1, j, fpu, ext);
        assert(match ops[i] {
            OpModel::Var(v) => 0 <= v,
            _ => true,
        });
        assert(ops[i] != OpModel::Var(j as int));
    }
}

/// The reverse sweep leaves the gradient by a variable that is not on the tape
/// as it was given, whatever the values and the arithmetic.
pub proof fn absent_variables_are_left<
    F: Fn(FloatOp, u64, u64) -> u64,
    E: Fn(usize, &String, &Vec<ExternalArg>, bool, bool) -> ExternalValue,
>(
    ops: Seq<OpModel>,
    vals: Seq<u64>,
    grad: Seq<u64>,
    j: usize,
    fpu: Fpu<F>,
    ext: Externals<E>,
)
    requires
        variables_counted(ops),
        j < grad.len(),
        !on_tape(ops, j),
    ensures
        reverse_state(ops, vals, grad, 0, fpu, ext).grad.len() == grad.len(),
        reverse_state(ops, vals, grad, 0, fpu, ext).grad[j as int] == grad[j as int],
{
    lemma_absent_variable(ops, vals, grad, 0, j, fpu, ext);
}

/// The gradient by a variable that is not on the tape is zero.
pub proof fn absent_variables_have_no_gradient<
    F: Fn(FloatOp, u64, u64) -> u64,
    E: Fn(usize, &String, &Vec<ExternalArg>, bool, bool) -> ExternalValue,
>(ops: Seq<OpModel>, x: Seq<u64>, j: usize, fpu: Fpu<F>, ext: Externals<E>)
    requires
        variables_below(ops, x.len() as int),
        j < x.len(),
        !on_tape(ops, j),
    ensures
        gradient_of(ops, x, x.len(), fpu, ext)[j as int] == ZERO,
{
    if ops.len() > 0 {
        assert(variables_counted(ops)) by {
            assert forall|i: int| 0 <= i < ops.len() implies match #[trigger] ops[i] {
                OpModel::Var(v) => 0 <= v,
                _ => true,
            } by {}
        }
        lemma_absent_variable(
            ops,
            run(ops, float_algebra(x, fpu, ext)),
            Seq::new(x.len(), |k: int| ZERO),
            0,
            j,
            fpu,
            ext,
        );
    }
}

} // verus!
