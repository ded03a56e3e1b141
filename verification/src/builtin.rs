//! The native procedures.
//!
//! Each takes its arguments as a list of values and checks their number and
//! kinds itself. Integer arithmetic wraps round; floating-point arithmetic
//! rounds to nearest.

use crate::eval::{answer, outcome, ErrorView, RuntimeError};
use crate::float::{
    add_bits, div_bits, float_difference, float_product, float_quotient, float_sum, is_zero,
    mul_bits, negate, negated, sub_bits, zero, ONE,
};
use crate::parser::ExprView;
use crate::scope::Scope;
use crate::semantics::{file_read, lists_of, map_rows, mapped, row, shortest, shown, spread};
use crate::special_forms::func_call;
use crate::text::{chars_of, parse_i64, parsed_int, string_of};
use crate::value::{clone_values, models, share, Value, ValueView};
use itertools::Itertools;
use std::rc::Rc;
use vstd::prelude::*;
use vstd::string::{StringExecFns, StringSliceAdditionalSpecFns};
use vstd::utf8::{decode_utf8, encode_utf8, is_char_boundary};

verus! {

/// The kinds of value that a native procedure may ask for.
#[derive(Clone, Copy, PartialEq, Eq, Structural)]
pub enum Kind {
    Int,
    Float,
    Text,
    Bool,
    List,
}

/// Whether `v` is of kind `kind`.
pub open spec fn is_kind(v: ValueView, kind: Kind) -> bool {
    match kind {
        Kind::Int => v is Int,
        Kind::Float => v is Float,
        Kind::Text => v is String,
        Kind::Bool => v is Bool,
        Kind::List => v is List,
    }
}

/// The first of `args` that is not of kind `kind`.
pub open spec fn offender(args: Seq<ValueView>, kind: Kind) -> Option<ValueView>
    decreases args.len(),
{
    if args.len() == 0 {
        None
    } else if !is_kind(args[0], kind) {
        Some(args[0])
    } else {
        offender(args.drop_first(), kind)
    }
}

/// The integers that `args` hold.
pub open spec fn ints(args: Seq<ValueView>) -> Seq<i64> {
    Seq::new(args.len(), |i: int| args[i]->Int_0)
}

/// The floats that `args` hold, as bits.
pub open spec fn floats(args: Seq<ValueView>) -> Seq<u64> {
    Seq::new(args.len(), |i: int| args[i]->Float_0)
}

/// The texts that `args` hold.
pub open spec fn strings(args: Seq<ValueView>) -> Seq<Seq<char>> {
    Seq::new(args.len(), |i: int| args[i]->String_0)
}

/// The truth values that `args` hold.
pub open spec fn bools(args: Seq<ValueView>) -> Seq<bool> {
    Seq::new(args.len(), |i: int| args[i]->Bool_0)
}

/// Where no value offends, every value is of the kind.
pub proof fn lemma_no_offender(args: Seq<ValueView>, kind: Kind)
    ensures
        offender(args, kind) is None <==> forall|i: int|
            0 <= i < args.len() ==> is_kind(#[trigger] args[i], kind),
        offender(args, kind) matches Some(v) ==> !is_kind(v, kind) && args.contains(v),
    decreases args.len(),
{
    if args.len() > 0 {
        lemma_no_offender(args.drop_first(), kind);
        let rest = args.drop_first();
        if is_kind(args[0], kind) {
            if offender(rest, kind) is None {
                assert forall|i: int| 0 <= i < args.len() implies is_kind(
                    #[trigger] args[i],
                    kind,
                ) by {
                    if i > 0 {
                        assert(args[i] == rest[i - 1]);
                    }
                }
            } else {
                let v = offender(rest, kind)->0;
                let j = choose|j: int| 0 <= j < rest.len() && rest[j] == v;
                assert(args[j + 1] == v);
            }
        } else {
            assert(args[0] == args[0]);
        }
    }
}

/// The integers of `params`, or the error for the first that is none.
fn values_to_ints(params: &[Value]) -> (r: Result<Vec<i64>, RuntimeError>)
    ensures
        match r {
            Ok(v) => offender(models(params@), Kind::Int) is None && v@ == ints(models(params@)),
            Err(e) => offender(models(params@), Kind::Int) matches Some(o) && e@
                == ErrorView::NumberExpected(o),
        },
{
    let ghost args = models(params@);
    let mut out: Vec<i64> = Vec::new();
    let mut i: usize = 0;
    assert(args.skip(0) =~= args);
    while i < params.len()
        invariant
            args == models(params@),
            i <= params.len(),
            out@ == ints(args.take(i as int)),
            offender(args, Kind::Int) == offender(args.skip(i as int), Kind::Int),
        decreases params.len() - i,
    {
        assert(args.skip(i as int).drop_first() =~= args.skip(i + 1));
        match &params[i] {
            Value::Int(number) => {
                out.push(*number);
                assert(out@ =~= ints(args.take(i + 1)));
            },
            other => {
                return Err(RuntimeError::NumberExpected(other.clone()));
            },
        }
        i += 1;
    }
    assert(args.take(params.len() as int) =~= args);
    Ok(out)
}


/// The floats of `params`, as bits, or the error for the first that is none.
fn values_to_floats(params: &Vec<Value>) -> (r: Result<Vec<u64>, RuntimeError>)
    ensures
        match r {
            Ok(v) => offender(models(params@), Kind::Float) is None && v@ == floats(
                models(params@),
            ),
            Err(e) => offender(models(params@), Kind::Float) matches Some(o) && e@
                == ErrorView::NumberExpected(o),
        },
{
    let ghost args = models(params@);
    let mut out: Vec<u64> = Vec::new();
    let mut i: usize = 0;
    assert(args.skip(0) =~= args);
    while i < params.len()
        invariant
            args == models(params@),
            i <= params.len(),
            out@ == floats(args.take(i as int)),
            offender(args, Kind::Float) == offender(args.skip(i as int), Kind::Float),
        decreases params.len() - i,
    {
        assert(args.skip(i as int).drop_first() =~= args.skip(i + 1));
        match &params[i] {
            Value::Float(number) => {
                out.push(*number);
                assert(out@ =~= floats(args.take(i + 1)));
            },
            other => {
                return Err(RuntimeError::NumberExpected(other.clone()));
            },
        }
        i += 1;
    }
    assert(args.take(params.len() as int) =~= args);
    Ok(out)
}

/// The texts of `params`, or the error for the first that is none.
fn values_to_strings(params: &Vec<Value>) -> (r: Result<Vec<Rc<String>>, RuntimeError>)
    ensures
        match r {
            Ok(v) => offender(models(params@), Kind::Text) is None && v@.len() == params@.len()
                && forall|i: int| 0 <= i < v@.len() ==> (#[trigger] v@[i])@ == strings(models(params@))[i],
            Err(e) => offender(models(params@), Kind::Text) matches Some(o) && e@
                == ErrorView::StringExpected(o),
        },
{
    let ghost args = models(params@);
    let mut out: Vec<Rc<String>> = Vec::new();
    let mut i: usize = 0;
    assert(args.skip(0) =~= args);
    while i < params.len()
        invariant
            args == models(params@),
            i <= params.len(),
            out@.len() == i,
            forall|j: int| 0 <= j < i ==> (#[trigger] out@[j])@ == strings(args)[j],
            offender(args, Kind::Text) == offender(args.skip(i as int), Kind::Text),
        decreases params.len() - i,
    {
        assert(args.skip(i as int).drop_first() =~= args.skip(i + 1));
        match &params[i] {
            Value::String(s) => {
                out.push(share(s));
            },
            other => {
                return Err(RuntimeError::StringExpected(other.clone()));
            },
        }
        i += 1;
    }
    Ok(out)
}

/// The truth values of `params`, or the error for the first that is none.
fn values_to_bool(params: &Vec<Value>) -> (r: Result<Vec<bool>, RuntimeError>)
    ensures
        match r {
            Ok(v) => offender(models(params@), Kind::Bool) is None && v@ == bools(models(params@)),
            Err(e) => offender(models(params@), Kind::Bool) matches Some(o) && e@
                == ErrorView::BooleanExpected(o),
        },
{
    let ghost args = models(params@);
    let mut out: Vec<bool> = Vec::new();
    let mut i: usize = 0;
    assert(args.skip(0) =~= args);
    while i < params.len()
        invariant
            args == models(params@),
            i <= params.len(),
            out@ == bools(args.take(i as int)),
            offender(args, Kind::Bool) == offender(args.skip(i as int), Kind::Bool),
        decreases params.len() - i,
    {
        assert(args.skip(i as int).drop_first() =~= args.skip(i + 1));
        match &params[i] {
            Value::Bool(b) => {
                out.push(*b);
                assert(out@ =~= bools(args.take(i + 1)));
            },
            other => {
                return Err(RuntimeError::BooleanExpected(other.clone()));
            },
        }
        i += 1;
    }
    assert(args.take(params.len() as int) =~= args);
    Ok(out)
}

/// The three operations that never fail.
#[derive(Clone, Copy, PartialEq, Eq, Structural)]
pub enum Operation {
    Add,
    Sub,
    Mul,
}

/// One step on integers: the operation, wrapping round at the ends of `i64`.
pub open spec fn int_step(op: Operation, a: i64, b: i64) -> i64 {
    match op {
        Operation::Add => a.wrapping_add(b),
        Operation::Sub => a.wrapping_sub(b),
        Operation::Mul => a.wrapping_mul(b),
    }
}

/// `acc op x0 op x1 ..`, from left to right.
pub open spec fn int_fold(op: Operation, acc: i64, xs: Seq<i64>) -> i64
    decreases xs.len(),
{
    if xs.len() == 0 {
        acc
    } else {
        int_fold(op, int_step(op, acc, xs[0]), xs.drop_first())
    }
}

/// One step on floats: the operation, rounded to nearest.
pub open spec fn float_step(op: Operation, a: u64, b: u64) -> u64 {
    match op {
        Operation::Add => float_sum(a, b),
        Operation::Sub => float_difference(a, b),
        Operation::Mul => float_product(a, b),
    }
}

/// `acc op x0 op x1 ..`, from left to right.
pub open spec fn float_fold(op: Operation, acc: u64, xs: Seq<u64>) -> u64
    decreases xs.len(),
{
    if xs.len() == 0 {
        acc
    } else {
        float_fold(op, float_step(op, acc, xs[0]), xs.drop_first())
    }
}

/// `acc / x0 / x1 ..`, from left to right, or `None` from the first
/// division that has no result: by zero, or of the least integer by -1.
pub open spec fn int_quotient(acc: i64, xs: Seq<i64>) -> Option<i64>
    decreases xs.len(),
{
    if xs.len() == 0 {
        Some(acc)
    } else {
        match acc.checked_div(xs[0]) {
            Some(q) => int_quotient(q, xs.drop_first()),
            None => None,
        }
    }
}

/// `acc / x0 / x1 ..`, from left to right, or `None` where a divisor is a
/// zero.
pub open spec fn float_quotients(acc: u64, xs: Seq<u64>) -> Option<u64>
    decreases xs.len(),
{
    if xs.len() == 0 {
        Some(acc)
    } else if is_zero(xs[0]) {
        None
    } else {
        float_quotients(float_quotient(acc, xs[0]), xs.drop_first())
    }
}

fn fold_ints(op: Operation, init: i64, xs: &Vec<i64>, from: usize) -> (r: i64)
    requires
        from <= xs.len(),
    ensures
        r == int_fold(op, init, xs@.skip(from as int)),
{
    let mut acc: i64 = init;
    let mut i: usize = from;
    while i < xs.len()
        invariant
            from <= i <= xs.len(),
            int_fold(op, init, xs@.skip(from as int)) == int_fold(op, acc, xs@.skip(i as int)),
        decreases xs.len() - i,
    {
        assert(xs@.skip(i as int).drop_first() =~= xs@.skip(i + 1));
        acc =
        match op {
            Operation::Add => acc.wrapping_add(xs[i]),
            Operation::Sub => acc.wrapping_sub(xs[i]),
            Operation::Mul => acc.wrapping_mul(xs[i]),
        };
        i += 1;
    }
    acc
}

fn fold_floats(op: Operation, init: u64, xs: &Vec<u64>, from: usize) -> (r: u64)
    requires
        from <= xs.len(),
    ensures
        r == float_fold(op, init, xs@.skip(from as int)),
{
    let mut acc: u64 = init;
    let mut i: usize = from;
    while i < xs.len()
        invariant
            from <= i <= xs.len(),
            float_fold(op, init, xs@.skip(from as int)) == float_fold(op, acc, xs@.skip(i as int)),
        decreases xs.len() - i,
    {
        assert(xs@.skip(i as int).drop_first() =~= xs@.skip(i + 1));
        acc =
        match op {
            Operation::Add => add_bits(acc, xs[i]),
            Operation::Sub => sub_bits(acc, xs[i]),
            Operation::Mul => mul_bits(acc, xs[i]),
        };
        i += 1;
    }
    acc
}

/// What `+` gives: 0 of no arguments, else the sum of integers or of floats,
/// as the first argument is one or the other.
pub open spec fn added(args: Seq<ValueView>) -> Result<ValueView, ErrorView> {
    if args.len() == 0 {
        Ok(ValueView::Int(0))
    } else {
        match args[0] {
            ValueView::Int(_) => match offender(args, Kind::Int) {
                Some(o) => Err(ErrorView::NumberExpected(o)),
                None => Ok(ValueView::Int(int_fold(Operation::Add, 0, ints(args)))),
            },
            ValueView::Float(first) => match offender(args, Kind::Float) {
                Some(o) => Err(ErrorView::NumberExpected(o)),
                None => Ok(
                    ValueView::Float(float_fold(Operation::Add, first, floats(args).drop_first())),
                ),
            },
            other => Err(ErrorView::NumberExpected(other)),
        }
    }
}

/// What `*` gives: 1 of no arguments, else the product of integers or of
/// floats, as the first argument is one or the other.
pub open spec fn multiplied(args: Seq<ValueView>) -> Result<ValueView, ErrorView> {
    if args.len() == 0 {
        Ok(ValueView::Int(1))
    } else {
        match args[0] {
            ValueView::Int(_) => match offender(args, Kind::Int) {
                Some(o) => Err(ErrorView::NumberExpected(o)),
                None => Ok(ValueView::Int(int_fold(Operation::Mul, 1, ints(args)))),
            },
            ValueView::Float(first) => match offender(args, Kind::Float) {
                Some(o) => Err(ErrorView::NumberExpected(o)),
                None => Ok(
                    ValueView::Float(float_fold(Operation::Mul, first, floats(args).drop_first())),
                ),
            },
            other => Err(ErrorView::NumberExpected(other)),
        }
    }
}

/// What `-` gives: of one number its negation, of more the first less each
/// of the others.
pub open spec fn subtracted(args: Seq<ValueView>) -> Result<ValueView, ErrorView> {
    if args.len() == 0 {
        Err(ErrorView::WrongNumberOfAgumentsPassed)
    } else {
        match args[0] {
            ValueView::Int(first) => match offender(args, Kind::Int) {
                Some(o) => Err(ErrorView::NumberExpected(o)),
                None => Ok(
                    ValueView::Int(
                        if args.len() == 1 {
                            0i64.wrapping_sub(first)
                        } else {
                            int_fold(Operation::Sub, first, ints(args).drop_first())
                        },
                    ),
                ),
            },
            ValueView::Float(first) => match offender(args, Kind::Float) {
                Some(o) => Err(ErrorView::NumberExpected(o)),
                None => Ok(
                    ValueView::Float(
                        if args.len() == 1 {
                            negated(first)
                        } else {
                            float_fold(Operation::Sub, first, floats(args).drop_first())
                        },
                    ),
                ),
            },
            other => Err(ErrorView::NumberExpected(other)),
        }
    }
}

/// What `/` gives: of one number its reciprocal, of more the first divided
/// by each of the others in turn; `DivideByZero` from the first division
/// that has no result.
pub open spec fn divided(args: Seq<ValueView>) -> Result<ValueView, ErrorView> {
    if args.len() == 0 {
        Err(ErrorView::WrongNumberOfAgumentsPassed)
    } else {
        match args[0] {
            ValueView::Int(first) => match offender(args, Kind::Int) {
                Some(o) => Err(ErrorView::NumberExpected(o)),
                None => match (if args.len() == 1 {
                    int_quotient(1, ints(args))
                } else {
                    int_quotient(first, ints(args).drop_first())
                }) {
                    Some(q) => Ok(ValueView::Int(q)),
                    None => Err(ErrorView::DivideByZero),
                },
            },
            ValueView::Float(first) => match offender(args, Kind::Float) {
                Some(o) => Err(ErrorView::NumberExpected(o)),
                None => match (if args.len() == 1 {
                    float_quotients(ONE, floats(args))
                } else {
                    float_quotients(first, floats(args).drop_first())
                }) {
                    Some(q) => Ok(ValueView::Float(q)),
                    None => Err(ErrorView::DivideByZero),
                },
            },
            other => Err(ErrorView::NumberExpected(other)),
        }
    }
}

pub fn op_add(params: Vec<Value>) -> (r: Result<Value, RuntimeError>)
    ensures
        answer(r) == added(models(params@)),
{
    if params.len() == 0 {
        return Ok(Value::Int(0));
    }
    match &params[0] {
        Value::Int(_) => {
            let ops = values_to_ints(params.as_slice())?;
            assert(ops@.skip(0) =~= ops@);
            Ok(Value::Int(fold_ints(Operation::Add, 0, &ops, 0)))
        },
        Value::Float(_) => {
            let ops = values_to_floats(&params)?;
            assert(ops@.skip(1) =~= ops@.drop_first());
            Ok(Value::Float(fold_floats(Operation::Add, ops[0], &ops, 1)))
        },
        other => Err(RuntimeError::NumberExpected(other.clone())),
    }
}

pub fn op_mul(params: Vec<Value>) -> (r: Result<Value, RuntimeError>)
    ensures
        answer(r) == multiplied(models(params@)),
{
    if params.len() == 0 {
        return Ok(Value::Int(1));
    }
    match &params[0] {
        Value::Int(_) => {
            let ops = values_to_ints(params.as_slice())?;
            assert(ops@.skip(0) =~= ops@);
            Ok(Value::Int(fold_ints(Operation::Mul, 1, &ops, 0)))
        },
        Value::Float(_) => {
            let ops = values_to_floats(&params)?;
            assert(ops@.skip(1) =~= ops@.drop_first());
            Ok(Value::Float(fold_floats(Operation::Mul, ops[0], &ops, 1)))
        },
        other => Err(RuntimeError::NumberExpected(other.clone())),
    }
}

pub fn op_sub(params: Vec<Value>) -> (r: Result<Value, RuntimeError>)
    ensures
        answer(r) == subtracted(models(params@)),
{
    if params.len() == 0 {
        return Err(RuntimeError::WrongNumberOfAgumentsPassed);
    }
    match &params[0] {
        Value::Int(_) => {
            let ops = values_to_ints(params.as_slice())?;
            assert(ops@.skip(1) =~= ops@.drop_first());
            if ops.len() == 1 {
                Ok(Value::Int(0i64.wrapping_sub(ops[0])))
            } else {
                Ok(Value::Int(fold_ints(Operation::Sub, ops[0], &ops, 1)))
            }
        },
        Value::Float(_) => {
            let ops = values_to_floats(&params)?;
            assert(ops@.skip(1) =~= ops@.drop_first());
            if ops.len() == 1 {
                Ok(Value::Float(negate(ops[0])))
            } else {
                Ok(Value::Float(fold_floats(Operation::Sub, ops[0], &ops, 1)))
            }
        },
        other => Err(RuntimeError::NumberExpected(other.clone())),
    }
}

fn divide_ints(init: i64, xs: &Vec<i64>, from: usize) -> (r: Option<i64>)
    requires
        from <= xs.len(),
    ensures
        r == int_quotient(init, xs@.skip(from as int)),
{
    let mut acc: i64 = init;
    let mut i: usize = from;
    while i < xs.len()
        invariant
            from <= i <= xs.len(),
            int_quotient(init, xs@.skip(from as int)) == int_quotient(acc, xs@.skip(i as int)),
        decreases xs.len() - i,
    {
        assert(xs@.skip(i as int).drop_first() =~= xs@.skip(i + 1));
        match acc.checked_div(xs[i]) {
            Some(q) => {
                acc = q;
            },
            None => {
                return None;
            },
        }
        i += 1;
    }
    Some(acc)
}

fn divide_floats(init: u64, xs: &Vec<u64>, from: usize) -> (r: Option<u64>)
    requires
        from <= xs.len(),
    ensures
        r == float_quotients(init, xs@.skip(from as int)),
{
    let mut acc: u64 = init;
    let mut i: usize = from;
    while i < xs.len()
        invariant
            from <= i <= xs.len(),
            float_quotients(init, xs@.skip(from as int)) == float_quotients(
                acc,
                xs@.skip(i as int),
            ),
        decreases xs.len() - i,
    {
        assert(xs@.skip(i as int).drop_first() =~= xs@.skip(i + 1));
        if zero(xs[i]) {
            return None;
        }
        acc = div_bits(acc, xs[i]);
        i += 1;
    }
    Some(acc)
}

pub fn op_div(params: Vec<Value>) -> (r: Result<Value, RuntimeError>)
    ensures
        answer(r) == divided(models(params@)),
{
    if params.len() == 0 {
        return Err(RuntimeError::WrongNumberOfAgumentsPassed);
    }
    match &params[0] {
        Value::Int(_) => {
            let ops = values_to_ints(params.as_slice())?;
            assert(ops@.skip(0) =~= ops@);
            assert(ops@.skip(1) =~= ops@.drop_first());
            let quotient = if ops.len() == 1 {
                divide_ints(1, &ops, 0)
            } else {
                divide_ints(ops[0], &ops, 1)
            };
            match quotient {
                Some(q) => Ok(Value::Int(q)),
                None => Err(RuntimeError::DivideByZero),
            }
        },
        Value::Float(_) => {
            let ops = values_to_floats(&params)?;
            assert(ops@.skip(0) =~= ops@);
            assert(ops@.skip(1) =~= ops@.drop_first());
            let quotient = if ops.len() == 1 {
                divide_floats(ONE, &ops, 0)
            } else {
                divide_floats(ops[0], &ops, 1)
            };
            match quotient {
                Some(q) => Ok(Value::Float(q)),
                None => Err(RuntimeError::DivideByZero),
            }
        },
        other => Err(RuntimeError::NumberExpected(other.clone())),
    }
}


/// What `mod` gives of two integers `a` and `b`: the remainder of `a + b`
/// by `b`, with the sign of `a + b`; the sum wraps round, and the remainder
/// by -1 is 0.
pub open spec fn remainder(args: Seq<ValueView>) -> Result<ValueView, ErrorView> {
    match offender(args, Kind::Int) {
        Some(o) => Err(ErrorView::NumberExpected(o)),
        None => if args.len() != 2 {
            Err(ErrorView::WrongNumberOfAgumentsPassed)
        } else {
            let a = args[0]->Int_0;
            let b = args[1]->Int_0;
            if b == 0 {
                Err(ErrorView::DivideByZero)
            } else {
                Ok(
                    ValueView::Int(
                        match a.wrapping_add(b).checked_rem(b) {
                            Some(r) => r,
                            None => 0,
                        },
                    ),
                )
            }
        },
    }
}

pub fn modulo(params: Vec<Value>) -> (r: Result<Value, RuntimeError>)
    ensures
        answer(r) == remainder(models(params@)),
{
    let ops = values_to_ints(params.as_slice())?;
    if ops.len() != 2 {
        return Err(RuntimeError::WrongNumberOfAgumentsPassed);
    }
    let a = ops[0];
    let b = ops[1];
    if b == 0 {
        Err(RuntimeError::DivideByZero)
    } else {
        match a.wrapping_add(b).checked_rem(b) {
            Some(r) => Ok(Value::Int(r)),
            None => Ok(Value::Int(0)),
        }
    }
}

/// Whether every one of `xs` equals the first.
pub open spec fn all_same<T>(xs: Seq<T>) -> bool {
    forall|i: int| 0 <= i < xs.len() ==> #[trigger] xs[i] == xs[0]
}

/// What `=` gives: whether all integers, or all texts, are the same.
pub open spec fn compared_equal(args: Seq<ValueView>) -> Result<ValueView, ErrorView> {
    if args.len() == 0 {
        Ok(ValueView::Bool(true))
    } else if offender(args, Kind::Int) is None {
        Ok(ValueView::Bool(all_same(ints(args))))
    } else if offender(args, Kind::Text) is None {
        Ok(ValueView::Bool(all_same(strings(args))))
    } else {
        Err(ErrorView::NumberExpected(args[0]))
    }
}

pub fn op_eq(params: Vec<Value>) -> (r: Result<Value, RuntimeError>)
    ensures
        answer(r) == compared_equal(models(params@)),
{
    if params.len() == 0 {
        return Ok(Value::Bool(true));
    }
    if let Ok(ops) = values_to_ints(params.as_slice()) {
        let mut same = true;
        let mut i: usize = 0;
        while i < ops.len()
            invariant
                i <= ops.len(),
                same <==> forall|j: int| 0 <= j < i ==> #[trigger] ops@[j] == ops@[0],
            decreases ops.len() - i,
        {
            if ops[i] != ops[0] {
                same = false;
            }
            i += 1;
        }
        return Ok(Value::Bool(same));
    }
    if let Ok(ops) = values_to_strings(&params) {
        let ghost texts = strings(models(params@));
        let mut same = true;
        let mut i: usize = 0;
        while i < ops.len()
            invariant
                i <= ops.len(),
                ops@.len() == texts.len(),
                forall|j: int| 0 <= j < ops@.len() ==> (#[trigger] ops@[j])@ == texts[j],
                same <==> forall|j: int| 0 <= j < i ==> #[trigger] texts[j] == texts[0],
            decreases ops.len() - i,
        {
            assert(ops@[i as int]@ == texts[i as int]);
            assert(ops@[0]@ == texts[0]);
            if *ops[i] != *ops[0] {
                same = false;
            }
            i += 1;
        }
        return Ok(Value::Bool(same));
    }
    Err(RuntimeError::NumberExpected(params[0].clone()))
}

/// The four orders that a chain of integers can be held to.
#[derive(Debug, Clone, Copy, PartialEq, Eq, Structural)]
pub enum Relation {
    LessEq,
    Less,
    GreaterEq,
    Greater,
}

/// Whether `a` stands to `b` as `relation` says.
pub open spec fn related(relation: Relation, a: i64, b: i64) -> bool {
    match relation {
        Relation::LessEq => a <= b,
        Relation::Less => a < b,
        Relation::GreaterEq => a >= b,
        Relation::Greater => a > b,
    }
}

/// Whether each of `xs` stands to the next as `relation` says.
pub open spec fn chained(relation: Relation, xs: Seq<i64>) -> bool {
    forall|i: int| #![trigger xs[i]] 0 <= i < xs.len() - 1 ==> related(relation, xs[i], xs[i + 1])
}

/// What a comparison gives: whether the integers form a chain.
pub open spec fn compared(relation: Relation, args: Seq<ValueView>) -> Result<
    ValueView,
    ErrorView,
> {
    match offender(args, Kind::Int) {
        Some(o) => Err(ErrorView::NumberExpected(o)),
        None => Ok(ValueView::Bool(chained(relation, ints(args)))),
    }
}

/// The neighbours that `xs` holds: each element paired with the next.
pub open spec fn neighbours(xs: Seq<i64>) -> Seq<(i64, i64)> {
    Seq::new(
        if xs.len() == 0 {
            0
        } else {
            (xs.len() - 1) as nat
        },
        |i: int| (xs[i], xs[i + 1]),
    )
}

/// Calls `Itertools::tuple_windows` for pairs on the elements in order, and
/// collects what it yields: every window of two neighbours, from the first
/// pair on, and nothing where there are fewer than two elements.
#[verifier::external_body]
fn adjacent_pairs(xs: Vec<i64>) -> (r: Vec<(i64, i64)>)
    ensures
        r@ == neighbours(xs@),
{
    xs.into_iter().tuple_windows().collect()
}

fn holds(relation: Relation, a: i64, b: i64) -> (r: bool)
    ensures
        r == related(relation, a, b),
{
    match relation {
        Relation::LessEq => a <= b,
        Relation::Less => a < b,
        Relation::GreaterEq => a >= b,
        Relation::Greater => a > b,
    }
}

/// Whether the integers `params` form a chain under `relation`.
pub fn pairwise_compare(params: &Vec<Value>, relation: Relation) -> (r: Result<
    Value,
    RuntimeError,
>)
    ensures
        answer(r) == compared(relation, models(params@)),
{
    let ops = values_to_ints(params.as_slice())?;
    let ghost xs = ops@;
    let pairs = adjacent_pairs(ops);
    let mut all = true;
    let mut i: usize = 0;
    while i < pairs.len()
        invariant
            i <= pairs.len(),
            pairs@ == neighbours(xs),
            all <==> forall|j: int| #![trigger xs[j]] 0 <= j < i ==> related(relation, xs[j], xs[j + 1]),
        decreases pairs.len() - i,
    {
        let (a, b) = pairs[i];
        assert(pairs@[i as int] == (xs[i as int], xs[i + 1]));
        if !holds(relation, a, b) {
            all = false;
        }
        i += 1;
    }
    Ok(Value::Bool(all))
}

pub fn op_leq(params: Vec<Value>) -> (r: Result<Value, RuntimeError>)
    ensures
        answer(r) == compared(Relation::LessEq, models(params@)),
{
    pairwise_compare(&params, Relation::LessEq)
}

pub fn list(params: Vec<Value>) -> (r: Result<Value, RuntimeError>)
    ensures
        answer(r) == Ok::<ValueView, ErrorView>(ValueView::List(models(params@))),
{
    let ghost args = models(params@);
    let r = Value::List(params);
    assert(r@->List_0 =~= args);
    Ok(r)
}

/// What `string-concatenate` gives: the texts, one after another.
pub open spec fn concatenated(args: Seq<ValueView>) -> Result<ValueView, ErrorView> {
    if args.len() == 0 {
        Err(ErrorView::WrongNumberOfAgumentsPassed)
    } else {
        match offender(args, Kind::Text) {
            Some(o) => Err(ErrorView::StringExpected(o)),
            None => Ok(ValueView::String(strings(args).flatten())),
        }
    }
}

pub fn string_concat(params: Vec<Value>) -> (r: Result<Value, RuntimeError>)
    ensures
        answer(r) == concatenated(models(params@)),
{
    if params.len() == 0 {
        return Err(RuntimeError::WrongNumberOfAgumentsPassed);
    }
    let args = values_to_strings(&params)?;
    let ghost texts = strings(models(params@));
    let mut ans = String::new();
    let mut i: usize = 0;
    assert(texts.take(0) =~= Seq::<Seq<char>>::empty());
    while i < args.len()
        invariant
            i <= args.len(),
            args@.len() == texts.len(),
            forall|j: int| 0 <= j < args@.len() ==> (#[trigger] args@[j])@ == texts[j],
            ans@ == texts.take(i as int).flatten(),
        decreases args.len() - i,
    {
        ans.append(args[i].as_str());
        proof {
            assert(args@[i as int]@ == texts[i as int]);
            assert(texts.take(i + 1) =~= texts.take(i as int).push(texts[i as int]));
            texts.take(i as int).lemma_flatten_push(texts[i as int]);
        }
        i += 1;
    }
    assert(texts.take(args.len() as int) =~= texts);
    Ok(Value::String(Rc::new(ans)))
}

/// What `and` gives: whether every truth value holds.
pub open spec fn conjoined(args: Seq<ValueView>) -> Result<ValueView, ErrorView> {
    match offender(args, Kind::Bool) {
        Some(o) => Err(ErrorView::BooleanExpected(o)),
        None => Ok(ValueView::Bool(forall|i: int| 0 <= i < args.len() ==> #[trigger] bools(args)[i])),
    }
}

/// What `or` gives: whether some truth value holds.
pub open spec fn disjoined(args: Seq<ValueView>) -> Result<ValueView, ErrorView> {
    match offender(args, Kind::Bool) {
        Some(o) => Err(ErrorView::BooleanExpected(o)),
        None => Ok(ValueView::Bool(exists|i: int| 0 <= i < args.len() && #[trigger] bools(args)[i])),
    }
}

/// What `not` gives: the other truth value.
pub open spec fn inverted(args: Seq<ValueView>) -> Result<ValueView, ErrorView> {
    match offender(args, Kind::Bool) {
        Some(o) => Err(ErrorView::BooleanExpected(o)),
        None => if args.len() != 1 {
            Err(ErrorView::WrongNumberOfAgumentsPassed)
        } else {
            Ok(ValueView::Bool(!args[0]->Bool_0))
        },
    }
}

pub fn and(params: Vec<Value>) -> (r: Result<Value, RuntimeError>)
    ensures
        answer(r) == conjoined(models(params@)),
{
    let ops = values_to_bool(&params)?;
    let mut all = true;
    let mut i: usize = 0;
    while i < ops.len()
        invariant
            i <= ops.len(),
            all <==> forall|j: int| 0 <= j < i ==> #[trigger] ops@[j],
        decreases ops.len() - i,
    {
        if !ops[i] {
            all = false;
        }
        i += 1;
    }
    Ok(Value::Bool(all))
}

pub fn or(params: Vec<Value>) -> (r: Result<Value, RuntimeError>)
    ensures
        answer(r) == disjoined(models(params@)),
{
    let ops = values_to_bool(&params)?;
    let mut any = false;
    let mut i: usize = 0;
    while i < ops.len()
        invariant
            i <= ops.len(),
            any <==> exists|j: int| 0 <= j < i && #[trigger] ops@[j],
        decreases ops.len() - i,
    {
        if ops[i] {
            any = true;
        }
        i += 1;
    }
    Ok(Value::Bool(any))
}

pub fn not(params: Vec<Value>) -> (r: Result<Value, RuntimeError>)
    ensures
        answer(r) == inverted(models(params@)),
{
    let ops = values_to_bool(&params)?;
    if ops.len() != 1 {
        return Err(RuntimeError::WrongNumberOfAgumentsPassed);
    }
    Ok(Value::Bool(!ops[0]))
}

/// What `string->int` gives: the integer that the text spells, or 0 where
/// it spells none.
pub open spec fn read_int(args: Seq<ValueView>) -> Result<ValueView, ErrorView> {
    match offender(args, Kind::Text) {
        Some(o) => Err(ErrorView::StringExpected(o)),
        None => if args.len() != 1 {
            Err(ErrorView::WrongNumberOfAgumentsPassed)
        } else {
            Ok(
                ValueView::Int(
                    match parsed_int(args[0]->String_0) {
                        Some(i) => i,
                        None => 0,
                    },
                ),
            )
        },
    }
}

pub fn parse_int(params: Vec<Value>) -> (r: Result<Value, RuntimeError>)
    ensures
        answer(r) == read_int(models(params@)),
{
    let texts = values_to_strings(&params)?;
    if texts.len() != 1 {
        return Err(RuntimeError::WrongNumberOfAgumentsPassed);
    }
    let chars = chars_of(texts[0].as_str());
    assert(chars@.subrange(0, chars@.len() as int) =~= chars@);
    match parse_i64(&chars, 0, chars.len()) {
        Some(i) => Ok(Value::Int(i)),
        None => Ok(Value::Int(0)),
    }
}


/// Whether `c` is ASCII white space: a space, a tab, a line feed, a form
/// feed or a carriage return.
pub open spec fn is_space(c: char) -> bool {
    c == ' ' || c == '\t' || c == '\n' || c == '\x0C' || c == '\r'
}

/// The words of `text[from..]`, a word being a longest run of characters
/// that are not white space; `start`, where it is some place, is where the
/// word that is being read began.
pub open spec fn words_from(text: Seq<char>, from: int, start: Option<int>) -> Seq<Seq<char>>
    decreases text.len() - from,
{
    if from >= text.len() {
        match start {
            Some(s) => seq![text.subrange(s, text.len() as int)],
            None => seq![],
        }
    } else if is_space(text[from]) {
        match start {
            Some(s) => seq![text.subrange(s, from)] + words_from(text, from + 1, None),
            None => words_from(text, from + 1, None),
        }
    } else {
        words_from(
            text,
            from + 1,
            if start is Some {
                start
            } else {
                Some(from)
            },
        )
    }
}

/// The words of `text`.
pub open spec fn words(text: Seq<char>) -> Seq<Seq<char>> {
    words_from(text, 0, None)
}

/// The texts as values.
pub open spec fn text_values(texts: Seq<Seq<char>>) -> Seq<ValueView> {
    Seq::new(texts.len(), |i: int| ValueView::String(texts[i]))
}

/// What `split-string` gives: the words of the text, as a list.
pub open spec fn split(args: Seq<ValueView>) -> Result<ValueView, ErrorView> {
    if args.len() != 1 {
        Err(ErrorView::WrongNumberOfAgumentsPassed)
    } else {
        match args[0] {
            ValueView::String(text) => Ok(ValueView::List(text_values(words(text)))),
            other => Err(ErrorView::StringExpected(other)),
        }
    }
}

pub fn split_string(params: Vec<Value>) -> (r: Result<Value, RuntimeError>)
    ensures
        answer(r) == split(models(params@)),
{
    if params.len() != 1 {
        return Err(RuntimeError::WrongNumberOfAgumentsPassed);
    }
    let text = match &params[0] {
        Value::String(s) => s,
        other => {
            return Err(RuntimeError::StringExpected(other.clone()));
        },
    };
    let chars = chars_of(text.as_str());
    let mut out: Vec<Value> = Vec::new();
    let ghost mut found: Seq<Seq<char>> = seq![];
    let mut start: Option<usize> = None;
    let mut i: usize = 0;
    while i < chars.len()
        invariant
            i <= chars.len(),
            start matches Some(s) ==> s < i,
            out@.len() == found.len(),
            models(out@) == text_values(found),
            words(chars@) == found + words_from(
                chars@,
                i as int,
                match start {
                    Some(s) => Some(s as int),
                    None => None,
                },
            ),
        decreases chars.len() - i,
    {
        let c = chars[i];
        if c == ' ' || c == '\t' || c == '\n' || c == '\x0C' || c == '\r' {
            match start {
                Some(s) => {
                    let ghost before = out@;
                    let piece = Value::String(Rc::new(string_of(&chars, s, i)));
                    assert(piece@ == ValueView::String(chars@.subrange(s as int, i as int)));
                    out.push(piece);
                    proof {
                        let word = chars@.subrange(s as int, i as int);
                        assert forall|j: int| 0 <= j < out@.len() implies models(out@)[j]
                            == text_values(found.push(word))[j] by {
                            if j < before.len() {
                                assert(models(before)[j] == text_values(found)[j]);
                            }
                        }
                        assert(models(out@) =~= text_values(found.push(word)));
                        assert(found.push(word) + words_from(chars@, i + 1, None) =~= found + (
                        seq![word] + words_from(chars@, i + 1, None)));
                        found = found.push(word);
                    }
                    start = None;
                },
                None => {},
            }
        } else if start.is_none() {
            start = Some(i);
        }
        i += 1;
    }
    match start {
        Some(s) => {
            let ghost before = out@;
            let piece = Value::String(Rc::new(string_of(&chars, s, chars.len())));
            assert(piece@ == ValueView::String(chars@.subrange(s as int, chars@.len() as int)));
            out.push(piece);
            proof {
                let word = chars@.subrange(s as int, chars@.len() as int);
                assert forall|j: int| 0 <= j < out@.len() implies models(out@)[j] == text_values(
                    found.push(word),
                )[j] by {
                    if j < before.len() {
                        assert(models(before)[j] == text_values(found)[j]);
                    }
                }
                assert(models(out@) =~= text_values(found.push(word)));
                assert(found.push(word) =~= found + seq![word]);
                found = found.push(word);
            }
        },
        None => {
            assert(found + Seq::<Seq<char>>::empty() =~= found);
        },
    }
    let r = Value::List(out);
    assert(r@->List_0 =~= models(out@));
    Ok(r)
}

/// The place in a text of `len` bytes that the index `i` names: itself
/// where it is not negative, else counted back from one past the end, so
/// that -1 names the end.
pub open spec fn place(len: int, i: i64) -> Option<int> {
    if i >= 0 {
        Some(i as int)
    } else if -i <= len + 1 {
        Some(len + 1 + i)
    } else {
        None
    }
}

/// What `substring` gives of a text and two indices into its UTF-8 bytes:
/// the text between the two places. An index that names no place, or a
/// place that is past the end, inside a character or before the start
/// place, is refused as `NumberExpected` with that index.
pub open spec fn sliced(args: Seq<ValueView>) -> Result<ValueView, ErrorView> {
    if args.len() == 0 {
        Err(ErrorView::WrongNumberOfAgumentsPassed)
    } else {
        match args[0] {
            ValueView::String(text) => match offender(args.drop_first(), Kind::Int) {
                Some(o) => Err(ErrorView::NumberExpected(o)),
                None => if args.len() != 3 {
                    Err(ErrorView::WrongNumberOfAgumentsPassed)
                } else {
                    let bytes = encode_utf8(text);
                    let len = bytes.len() as int;
                    match place(len, args[1]->Int_0) {
                        Some(from) => if from <= len && is_char_boundary(bytes, from) {
                            match place(len, args[2]->Int_0) {
                                Some(to) => if from <= to <= len && is_char_boundary(bytes, to) {
                                    Ok(ValueView::String(decode_utf8(bytes.subrange(from, to))))
                                } else {
                                    Err(ErrorView::NumberExpected(args[2]))
                                },
                                None => Err(ErrorView::NumberExpected(args[2])),
                            }
                        } else {
                            Err(ErrorView::NumberExpected(args[1]))
                        },
                        None => Err(ErrorView::NumberExpected(args[1])),
                    }
                },
            },
            other => Err(ErrorView::StringExpected(other)),
        }
    }
}

fn locate(len: usize, i: i64) -> (r: Option<usize>)
    ensures
        match r {
            Some(p) => place(len as int, i) == Some(p as int) && p <= len,
            None => place(len as int, i) matches Some(p) ==> p > len,
        },
{
    if i >= 0 {
        if (i as u64) <= (len as u64) {
            Some(i as usize)
        } else {
            None
        }
    } else {
        let back: u64 = if i == i64::MIN {
            0x8000_0000_0000_0000
        } else {
            (-i) as u64
        };
        if back - 1 <= (len as u64) {
            Some(len - ((back - 1) as usize))
        } else {
            None
        }
    }
}

pub fn substring(params: Vec<Value>) -> (r: Result<Value, RuntimeError>)
    ensures
        answer(r) == sliced(models(params@)),
{
    let ghost args = models(params@);
    if params.len() == 0 {
        return Err(RuntimeError::WrongNumberOfAgumentsPassed);
    }
    let text = match &params[0] {
        Value::String(s) => s,
        other => {
            return Err(RuntimeError::StringExpected(other.clone()));
        },
    };
    let rest = &params[1..params.len()];
    assert(models(rest@) =~= args.drop_first());
    let places = values_to_ints(rest)?;
    if places.len() != 2 {
        return Err(RuntimeError::WrongNumberOfAgumentsPassed);
    }
    let start = places[0];
    let end = places[1];
    assert(args[1] == ValueView::Int(start) && args[2] == ValueView::Int(end)) by {
        assert(args.drop_first()[0] == args[1]);
        assert(args.drop_first()[1] == args[2]);
        lemma_no_offender(args.drop_first(), Kind::Int);
    }
    let whole = text.as_str();
    let len = whole.as_bytes().len();
    let from = match locate(len, start) {
        Some(p) => p,
        None => {
            return Err(RuntimeError::NumberExpected(Value::Int(start)));
        },
    };
    if !whole.is_char_boundary(from) {
        return Err(RuntimeError::NumberExpected(Value::Int(start)));
    }
    let to = match locate(len, end) {
        Some(p) => p,
        None => {
            return Err(RuntimeError::NumberExpected(Value::Int(end)));
        },
    };
    if to < from || !whole.is_char_boundary(to) {
        return Err(RuntimeError::NumberExpected(Value::Int(end)));
    }
    let (head, _) = whole.split_at(to);
    proof {
        let bytes = whole.spec_bytes();
        let front = head.spec_bytes();
        vstd::utf8::encode_utf8_valid_utf8(whole@);
        vstd::utf8::valid_utf8_split(bytes, to as int);
        assert(front =~= bytes.subrange(0, to as int));
        if from == to {
            vstd::utf8::is_char_boundary_start_end_of_seq(front);
        } else {
            vstd::utf8::is_char_boundary_iff_not_is_continuation_byte(bytes, from as int);
            vstd::utf8::is_char_boundary_iff_not_is_continuation_byte(front, from as int);
            assert(front[from as int] == bytes[from as int]);
        }
    }
    let (_, part) = head.split_at(from);
    assert(part.spec_bytes() =~= whole.spec_bytes().subrange(from as int, to as int));
    proof {
        vstd::utf8::encode_utf8_decode_utf8(part@);
    }
    Ok(Value::String(Rc::new(part.to_owned())))
}


pub fn display(params: Vec<Value>, scope: &mut Scope) -> (r: Result<Value, RuntimeError>)
    ensures
        outcome(r, *final(scope)) == shown(models(params@), old(scope)@),
{
    if params.len() != 1 {
        Err(RuntimeError::WrongNumberOfAgumentsPassed)
    } else {
        scope.emit(params[0].clone());
        Ok(Value::Nil)
    }
}

pub fn read_file(params: Vec<Value>, scope: &mut Scope) -> (r: Result<Value, RuntimeError>)
    ensures
        outcome(r, *final(scope)) == file_read(models(params@), old(scope)@),
{
    if params.len() != 1 {
        return Err(RuntimeError::WrongNumberOfAgumentsPassed);
    }
    match &params[0] {
        Value::String(name) => match scope.file(name.as_str()) {
            Some(content) => Ok(Value::String(Rc::new(content))),
            None => {
                scope.miss(name.as_str());
                Err(RuntimeError::IO)
            },
        },
        other => Err(RuntimeError::StringExpected(other.clone())),
    }
}

/// The lists that `v` holds.
pub open spec fn columns<T>(v: Seq<Vec<T>>) -> Seq<Seq<T>> {
    Seq::new(v.len(), |j: int| v[j]@)
}

/// The rows of `v`: row `i` holds a clone of the element at place `i` of
/// each list, and there are as many rows as the shortest list is long.
pub fn zip_vecs<T: Clone>(v: &[Vec<T>]) -> (r: Vec<Vec<T>>)
    ensures
        r@.len() == shortest(columns(v@)),
        forall|i: int|
            0 <= i < r@.len() ==> {
                &&& (#[trigger] r@[i])@.len() == v@.len()
                &&& forall|j: int| 0 <= j < v@.len() ==> cloned(v@[j]@[i], #[trigger] r@[i]@[j])
            },
        forall|j: int| 0 <= j < v@.len() ==> r@.len() <= (#[trigger] v@[j])@.len(),
{
    let ghost lists = columns(v@);
    let mut min_len: usize = 0;
    let mut j: usize = 0;
    assert(lists.take(0).len() == 0);
    while j < v.len()
        invariant
            lists == columns(v@),
            j <= v.len(),
            min_len == shortest(lists.take(j as int)),
            forall|k: int| 0 <= k < j ==> min_len <= (#[trigger] v@[k]).len(),
        decreases v.len() - j,
    {
        assert(lists.take(j + 1).drop_last() =~= lists.take(j as int));
        assert(lists.take(j + 1).last().len() == v@[j as int].len());
        if j == 0 || v[j].len() < min_len {
            min_len = v[j].len();
        }
        j += 1;
    }
    assert(lists.take(v.len() as int) =~= lists);
    let mut rows: Vec<Vec<T>> = Vec::new();
    let mut i: usize = 0;
    while i < min_len
        invariant
            i <= min_len,
            rows@.len() == i,
            forall|k: int| 0 <= k < v@.len() ==> min_len <= (#[trigger] v@[k]).len(),
            forall|k: int|
                0 <= k < i ==> {
                    &&& (#[trigger] rows@[k])@.len() == v@.len()
                    &&& forall|j: int|
                        0 <= j < v@.len() ==> cloned(v@[j]@[k], #[trigger] rows@[k]@[j])
                },
        decreases min_len - i,
    {
        let mut one: Vec<T> = Vec::new();
        let mut j: usize = 0;
        while j < v.len()
            invariant
                i < min_len,
                j <= v.len(),
                one@.len() == j,
                forall|k: int| 0 <= k < v@.len() ==> min_len <= (#[trigger] v@[k]).len(),
                forall|k: int| 0 <= k < j ==> cloned(v@[k]@[i as int], #[trigger] one@[k]),
            decreases v.len() - j,
        {
            assert(i < v@[j as int].len());
            one.push(v[j][i].clone());
            j += 1;
        }
        rows.push(one);
        i += 1;
    }
    rows
}

/// The shortest of some lists is as long as the shortest of the lists of
/// their mathematical values.
proof fn lemma_shortest_of_views(lists: Seq<Vec<Value>>)
    ensures
        shortest(columns(lists)) == shortest(Seq::new(lists.len(), |j: int| models(lists[j]@))),
    decreases lists.len(),
{
    let plain = columns(lists);
    let views = Seq::new(lists.len(), |j: int| models(lists[j]@));
    if lists.len() > 1 {
        lemma_shortest_of_views(lists.drop_last());
        assert(columns(lists.drop_last()) =~= plain.drop_last());
        assert(Seq::new(lists.drop_last().len(), |j: int| models(lists.drop_last()[j]@))
            =~= views.drop_last());
    }
}

/// `(map func list1 list2 ..)`: applies `func` to each row of the lists.
pub fn map(params: Vec<Value>, scope: &mut Scope, fuel: usize) -> (r: Result<Value, RuntimeError>)
    ensures
        outcome(r, *final(scope)) == mapped(models(params@), old(scope)@, fuel as nat),
    decreases fuel, 1nat, Seq::<ExprView>::empty(), 0nat,
{
    let ghost args = models(params@);
    if params.len() < 2 {
        return Err(RuntimeError::WrongNumberOfAgumentsPassed);
    }
    let mut lists: Vec<Vec<Value>> = Vec::new();
    let mut i: usize = 1;
    assert(args.drop_first().skip(0) =~= args.drop_first());
    while i < params.len()
        invariant
            args == models(params@),
            1 <= i <= params.len(),
            lists@.len() == i - 1,
            forall|j: int| 1 <= j < i ==> (#[trigger] args[j]) is List,
            forall|j: int| 0 <= j < i - 1 ==> models(#[trigger] lists@[j]@) == args[j + 1]->List_0,
            offender(args.drop_first(), Kind::List) == offender(
                args.drop_first().skip(i - 1),
                Kind::List,
            ),
        decreases params.len() - i,
    {
        assert(args.drop_first().skip(i - 1).drop_first() =~= args.drop_first().skip(i as int));
        assert(args.drop_first().skip(i - 1)[0] == args[i as int]);
        match &params[i] {
            Value::List(l) => {
                let copy = clone_values(l);
                assert(args[i as int]->List_0 =~= models(l@));
                lists.push(copy);
            },
            other => {
                return Err(RuntimeError::ListExpected(other.clone()));
            },
        }
        i += 1;
    }
    assert(args.drop_first().skip(params.len() - 1).len() == 0);
    let ghost columns = lists_of(args.drop_first());
    let rows = zip_vecs(lists.as_slice());
    proof {
        lemma_shortest_of_views(lists@);
        assert(Seq::new(lists@.len(), |j: int| models(lists@[j]@)) =~= columns);
        assert forall|i: int| 0 <= i < rows@.len() implies models(#[trigger] rows@[i]@) == row(
            columns,
            i,
        ) by {
            assert forall|j: int| 0 <= j < lists@.len() implies models(rows@[i]@)[j] == row(
                columns,
                i,
            )[j] by {
                assert(cloned(lists@[j]@[i], rows@[i]@[j]));
            }
            assert(models(rows@[i]@) =~= row(columns, i));
        }
    }
    let ghost goal = map_rows(args[0], columns, 0, Seq::empty(), old(scope)@, fuel as nat);
    let mut ans: Vec<Value> = Vec::new();
    let mut k: usize = 0;
    let count = rows.len();
    assert(models(ans@) =~= Seq::<ValueView>::empty());
    assert(offender(args.drop_first(), Kind::List) is None);
    for one in it: rows
        invariant
            k == it.index(),
            count == rows@.len(),
            it.seq() == rows@,
            args == models(params@),
            params.len() >= 2,
            rows@.len() == shortest(columns),
            forall|i: int| 0 <= i < rows@.len() ==> models(#[trigger] rows@[i]@) == row(columns, i),
            offender(args.drop_first(), Kind::List) is None,
            columns == lists_of(args.drop_first()),
            goal == map_rows(args[0], columns, 0, Seq::empty(), old(scope)@, fuel as nat),
            goal == map_rows(args[0], columns, k as nat, models(ans@), scope@, fuel as nat),
    {
        if fuel == 0 {
            return Err(RuntimeError::OutOfFuel);
        }
        assert(models(one@) == row(columns, k as int));
        match func_call(&params[0], one, scope, fuel - 1) {
            Ok(v) => {
                let ghost before = models(ans@);
                ans.push(v);
                assert(models(ans@) =~= before.push(v@));
            },
            Err(e) => {
                return Err(e);
            },
        }
        k += 1;
    }
    let ghost values = models(ans@);
    let r = Value::List(ans);
    assert(r@->List_0 =~= values);
    Ok(r)
}

/// `(apply func list)`: applies `func` to the elements of `list`.
pub fn apply(params: Vec<Value>, scope: &mut Scope, fuel: usize) -> (r: Result<Value, RuntimeError>)
    ensures
        outcome(r, *final(scope)) == spread(models(params@), old(scope)@, fuel as nat),
    decreases fuel, 1nat, Seq::<ExprView>::empty(), 0nat,
{
    if params.len() != 2 {
        return Err(RuntimeError::WrongNumberOfAgumentsPassed);
    }
    match &params[1] {
        Value::List(list) => {
            if fuel == 0 {
                return Err(RuntimeError::OutOfFuel);
            }
            let args = clone_values(list);
            assert(models(params@)[1]->List_0 =~= models(list@));
            func_call(&params[0], args, scope, fuel - 1)
        },
        other => Err(RuntimeError::ListExpected(other.clone())),
    }
}

} // verus!
