//! Runtime values.

use crate::builtin::{
    and, apply, display, list, modulo, not, op_add, op_div, op_eq, op_leq, op_mul, op_sub, or,
    pairwise_compare, parse_int, read_file, split_string, string_concat, substring, Relation,
};
use crate::eval::{outcome, RuntimeError};
use crate::parser::{trees, Expr, ExprView};
use crate::scope::Scope;
use crate::semantics::{called, native};
use crate::special_forms::{bind_all, evaluate_list};
use std::rc::Rc;
use vstd::prelude::*;

verus! {

/// The native procedures. The set is closed: a program cannot add to it.
#[derive(Debug, Clone, Copy, PartialEq, Eq, Structural)]
pub enum Primitive {
    Add,
    Sub,
    Mul,
    Div,
    Modulo,
    Equal,
    LessEq,
    Less,
    GreaterEq,
    Greater,
    And,
    Or,
    Not,
    List,
    StringConcat,
    Display,
    MapList,
    Apply,
    ReadFile,
    SplitString,
    Substring,
    ParseInt,
}

/// A native procedure as a value.
#[derive(Debug, Clone, Copy)]
pub struct BuiltIn {
    func: Primitive,
}

impl View for BuiltIn {
    type V = Primitive;

    closed spec fn view(&self) -> Primitive {
        self.func
    }
}

impl BuiltIn {
    pub fn new(func: Primitive) -> (r: Self)
        ensures
            r@ == func,
    {
        Self { func }
    }

    /// Which native procedure this is.
    pub fn primitive(&self) -> (r: Primitive)
        ensures
            r == self@,
    {
        self.func
    }

    /// Calls the native procedure with `params`.
    pub fn call(&self, params: Vec<Value>, scope: &mut Scope, fuel: usize) -> (r: Result<
        Value,
        RuntimeError,
    >)
        ensures
            outcome(r, *final(scope)) == native(self@, models(params@), old(scope)@, fuel as nat),
        decreases fuel, 2nat, Seq::<ExprView>::empty(), 0nat,
    {
        match self.func {
            Primitive::Add => op_add(params),
            Primitive::Sub => op_sub(params),
            Primitive::Mul => op_mul(params),
            Primitive::Div => op_div(params),
            Primitive::Modulo => modulo(params),
            Primitive::Equal => op_eq(params),
            Primitive::LessEq => op_leq(params),
            Primitive::Less => pairwise_compare(&params, Relation::Less),
            Primitive::GreaterEq => pairwise_compare(&params, Relation::GreaterEq),
            Primitive::Greater => pairwise_compare(&params, Relation::Greater),
            Primitive::And => and(params),
            Primitive::Or => or(params),
            Primitive::Not => not(params),
            Primitive::List => list(params),
            Primitive::StringConcat => string_concat(params),
            Primitive::Display => display(params, scope),
            Primitive::MapList => crate::builtin::map(params, scope, fuel),
            Primitive::Apply => apply(params, scope, fuel),
            Primitive::ReadFile => read_file(params, scope),
            Primitive::SplitString => split_string(params),
            Primitive::Substring => substring(params),
            Primitive::ParseInt => parse_int(params),
        }
    }
}

/// A closure: parameter names, a body of one or more expressions, and the
/// frame in which it was made.
#[derive(Debug)]
pub struct Procedure {
    param_names: Vec<String>,
    body: Vec<Rc<Expr>>,
    scope: usize,
}

/// The mathematical value of a [`Procedure`].
pub struct ProcedureView {
    pub params: Seq<Seq<char>>,
    pub body: Seq<ExprView>,
    pub scope: nat,
}

/// The texts of a sequence of strings.
pub open spec fn texts(names: Seq<String>) -> Seq<Seq<char>> {
    Seq::new(names.len(), |i: int| names[i]@)
}

impl View for Procedure {
    type V = ProcedureView;

    closed spec fn view(&self) -> ProcedureView {
        ProcedureView {
            params: texts(self.param_names@),
            body: trees(self.body@),
            scope: self.scope as nat,
        }
    }
}

/// Another pointer to the same value.
///
/// Calls `Rc::clone`, which hands back a pointer to the same allocation:
/// the two point to one value.
#[verifier::external_body]
pub(crate) fn share<T>(pointer: &Rc<T>) -> (r: Rc<T>)
    ensures
        r == *pointer,
{
    Rc::clone(pointer)
}

/// Pointers to the same expressions, in the same order.
pub(crate) fn share_all(exprs: &Vec<Rc<Expr>>) -> (r: Vec<Rc<Expr>>)
    ensures
        r@ == exprs@,
{
    let mut out: Vec<Rc<Expr>> = Vec::new();
    let mut i: usize = 0;
    while i < exprs.len()
        invariant
            i <= exprs.len(),
            out@ == exprs@.take(i as int),
        decreases exprs.len() - i,
    {
        out.push(share(&exprs[i]));
        assert(out@ =~= exprs@.take(i + 1));
        i += 1;
    }
    assert(exprs@.take(exprs.len() as int) =~= exprs@);
    out
}

impl Procedure {
    pub fn new(param_names: Vec<String>, body: Vec<Rc<Expr>>, scope: usize) -> (r: Self)
        ensures
            r@ == (ProcedureView {
                params: texts(param_names@),
                body: trees(body@),
                scope: scope as nat,
            }),
    {
        Self { param_names, body, scope }
    }

    /// How many arguments a call must pass.
    pub fn arity(&self) -> (r: usize)
        ensures
            r == self@.params.len(),
    {
        self.param_names.len()
    }

    /// Calls the procedure with `params`, which must be as many as it has
    /// parameters: a new frame inside the captured one binds each parameter
    /// to its argument, and the body is evaluated in it. The call takes one
    /// unit of fuel.
    pub fn call(&self, params: Vec<Value>, scope: &mut Scope, fuel: usize) -> (r: Result<
        Value,
        RuntimeError,
    >)
        ensures
            outcome(r, *final(scope)) == called(self@, models(params@), old(scope)@, fuel as nat),
        decreases fuel, 2nat, Seq::<ExprView>::empty(), 0nat,
    {
        if self.param_names.len() != params.len() {
            return Err(RuntimeError::WrongNumberOfAgumentsPassed);
        }
        if fuel == 0 {
            return Err(RuntimeError::OutOfFuel);
        }
        let inner = scope.nest(self.scope);
        bind_all(scope, inner, &self.param_names, params);
        evaluate_list(self.body.as_slice(), 0, scope, inner, fuel - 1)
    }
}

impl Clone for Procedure {
    fn clone(&self) -> (r: Self)
        ensures
            r@ == self@,
    {
        let param_names = self.param_names.clone();
        assert(param_names@ =~= self.param_names@);
        Self { param_names, body: share_all(&self.body), scope: self.scope }
    }
}

/// A runtime value. A float is held as the bits of its IEEE-754 double.
#[derive(Debug)]
pub enum Value {
    Bool(bool),
    Int(i64),
    Float(u64),
    String(Rc<String>),
    List(Vec<Value>),
    BuiltIn(BuiltIn),
    Procedure(Procedure),
    Nil,
}

/// The mathematical value of a [`Value`].
pub enum ValueView {
    Bool(bool),
    Int(i64),
    Float(u64),
    String(Seq<char>),
    List(Seq<ValueView>),
    BuiltIn(Primitive),
    Procedure(ProcedureView),
    Nil,
}

impl Value {
    /// The mathematical value that this value stands for.
    pub open spec fn model(self) -> ValueView
        decreases self,
    {
        match self {
            Value::Bool(b) => ValueView::Bool(b),
            Value::Int(i) => ValueView::Int(i),
            Value::Float(f) => ValueView::Float(f),
            Value::String(s) => ValueView::String(s@),
            Value::List(l) => ValueView::List(
                Seq::new(
                    l@.len(),
                    |i: int|
                        if 0 <= i < l@.len() {
                            l@[i].model()
                        } else {
                            arbitrary()
                        },
                ),
            ),
            Value::BuiltIn(b) => ValueView::BuiltIn(b@),
            Value::Procedure(p) => ValueView::Procedure(p@),
            Value::Nil => ValueView::Nil,
        }
    }
}

impl View for Value {
    type V = ValueView;

    open spec fn view(&self) -> ValueView {
        self.model()
    }
}

/// The mathematical values of a sequence of values.
pub open spec fn models(values: Seq<Value>) -> Seq<ValueView> {
    Seq::new(values.len(), |i: int| values[i]@)
}

/// Whether a value counts as true: all but `Nil` and `Bool(false)` do.
pub open spec fn is_truthy(v: ValueView) -> bool {
    match v {
        ValueView::Nil => false,
        ValueView::Bool(b) => b,
        _ => true,
    }
}

impl Value {
    pub fn truthy(&self) -> (r: bool)
        ensures
            r == is_truthy(self@),
    {
        match self {
            Value::Nil => false,
            Value::Bool(b) => *b,
            _ => true,
        }
    }
}

/// Copies of the values, in the same order.
pub fn clone_values(values: &Vec<Value>) -> (r: Vec<Value>)
    ensures
        models(r@) == models(values@),
    decreases values,
{
    let mut out: Vec<Value> = Vec::new();
    let mut i: usize = 0;
    while i < values.len()
        invariant
            i <= values.len(),
            out@.len() == i,
            forall|j: int| 0 <= j < i ==> out@[j]@ == values@[j]@,
        decreases values.len() - i,
    {
        out.push(values[i].clone());
        i += 1;
    }
    assert(models(out@) =~= models(values@));
    out
}

impl Clone for Value {
    fn clone(&self) -> (r: Self)
        ensures
            r@ == self@,
        decreases self,
    {
        match self {
            Value::Bool(b) => Value::Bool(*b),
            Value::Int(i) => Value::Int(*i),
            Value::Float(f) => Value::Float(*f),
            Value::String(s) => Value::String(share(s)),
            Value::List(l) => {
                let copy = clone_values(l);
                assert(Value::List(copy)@ == self@) by {
                    assert(models(copy@) == models(l@));
                    assert(Value::List(copy)@->List_0 =~= models(copy@));
                    assert(self@->List_0 =~= models(l@));
                }
                Value::List(copy)
            },
            Value::BuiltIn(b) => Value::BuiltIn(*b),
            Value::Procedure(p) => Value::Procedure(p.clone()),
            Value::Nil => Value::Nil,
        }
    }
}

} // verus!
