//! The evaluator.

use crate::parser::{parse, program, trees, Expr, ParsingError};
use crate::scope::{Scope, ScopeView, GLOBAL};
use crate::semantics::{evaluated, Arguments, Outcome};
use crate::special_forms::{
    begin, define, define_variable, do_loop, if_statement, invoke, invoke_named_function, lambda,
    DefineBehavior,
};
use crate::tokenizer::{tokenize, tokenized, LexingError, Span, Token};
use crate::value::{models, share, Value, ValueView};
use std::rc::Rc;
use vstd::prelude::*;

verus! {

/// Why an evaluation stopped.
#[derive(Debug)]
pub enum RuntimeError {
    NotProcedure,
    UnboundVariable(String),
    IllFormedExpression,
    IllFormedSpecialForm,
    ParameterMustBeIdentifier,
    OperatorIsNotProcedure,
    NumberExpected(Value),
    StringExpected(Value),
    BooleanExpected(Value),
    WrongNumberOfAgumentsPassed,
    IdentifierExpected,
    DivideByZero,
    ListExpected(Value),
    IO,
    /// The evaluation needed more fuel than it was given.
    OutOfFuel,
}

/// The mathematical value of a [`RuntimeError`].
pub enum ErrorView {
    NotProcedure,
    UnboundVariable(Seq<char>),
    IllFormedExpression,
    IllFormedSpecialForm,
    ParameterMustBeIdentifier,
    OperatorIsNotProcedure,
    NumberExpected(ValueView),
    StringExpected(ValueView),
    BooleanExpected(ValueView),
    WrongNumberOfAgumentsPassed,
    IdentifierExpected,
    DivideByZero,
    ListExpected(ValueView),
    IO,
    OutOfFuel,
}

impl View for RuntimeError {
    type V = ErrorView;

    open spec fn view(&self) -> ErrorView {
        match self {
            RuntimeError::NotProcedure => ErrorView::NotProcedure,
            RuntimeError::UnboundVariable(n) => ErrorView::UnboundVariable(n@),
            RuntimeError::IllFormedExpression => ErrorView::IllFormedExpression,
            RuntimeError::IllFormedSpecialForm => ErrorView::IllFormedSpecialForm,
            RuntimeError::ParameterMustBeIdentifier => ErrorView::ParameterMustBeIdentifier,
            RuntimeError::OperatorIsNotProcedure => ErrorView::OperatorIsNotProcedure,
            RuntimeError::NumberExpected(v) => ErrorView::NumberExpected(v@),
            RuntimeError::StringExpected(v) => ErrorView::StringExpected(v@),
            RuntimeError::BooleanExpected(v) => ErrorView::BooleanExpected(v@),
            RuntimeError::WrongNumberOfAgumentsPassed => ErrorView::WrongNumberOfAgumentsPassed,
            RuntimeError::IdentifierExpected => ErrorView::IdentifierExpected,
            RuntimeError::DivideByZero => ErrorView::DivideByZero,
            RuntimeError::ListExpected(v) => ErrorView::ListExpected(v@),
            RuntimeError::IO => ErrorView::IO,
            RuntimeError::OutOfFuel => ErrorView::OutOfFuel,
        }
    }
}

/// What a result is as mathematical values.
pub open spec fn answer(r: Result<Value, RuntimeError>) -> Result<ValueView, ErrorView> {
    match r {
        Ok(v) => Ok(v@),
        Err(e) => Err(e@),
    }
}

/// What a call handed back, as mathematical values: its result and the
/// scope it left.
pub open spec fn outcome(r: Result<Value, RuntimeError>, scope: Scope) -> Outcome {
    Outcome { result: answer(r), scope: scope@ }
}

/// What an evaluation of arguments handed back, as mathematical values.
pub open spec fn arguments_of(r: Result<Vec<Value>, RuntimeError>, scope: Scope) -> Arguments {
    Arguments {
        result: match r {
            Ok(values) => Ok(models(values@)),
            Err(e) => Err(e@),
        },
        scope: scope@,
    }
}

/// Evaluates `expr` in the frame `frame` of `scope`.
///
/// A literal gives its value and a symbol what it is bound to. A list
/// whose head is a keyword is the special form of that keyword, which gets
/// the operands as they stand. Any other list is an application: the head
/// gives the callable, the operands are evaluated from left to right, and
/// the callable is applied to their values.
///
/// The first error ends the evaluation, and the scope stays as it was
/// when the error came. `fuel` bounds the evaluation: every call of a
/// procedure and every round of a loop takes one unit from what is handed
/// on, and an evaluation that needs more than it has ends with `OutOfFuel`.
pub fn evaluate(expr: &Rc<Expr>, scope: &mut Scope, frame: usize, fuel: usize) -> (r: Result<
    Value,
    RuntimeError,
>)
    ensures
        outcome(r, *final(scope)) == evaluated(expr@, frame as nat, old(scope)@, fuel as nat),
    decreases fuel, 5nat, expr@, 0nat,
{
    match &**expr {
        Expr::Token(token) => match token {
            Token::Symbol(symbol) => match scope.get(frame, symbol.as_str()) {
                Some(v) => Ok(v),
                None => Err(RuntimeError::UnboundVariable(symbol.clone())),
            },
            Token::Int(i) => Ok(Value::Int(*i)),
            Token::Float(f) => Ok(Value::Float(*f)),
            Token::StringLiteral(s) => Ok(Value::String(share(s))),
            Token::Bool(b) => Ok(Value::Bool(*b)),
            _ => Err(RuntimeError::IllFormedExpression),
        },
        Expr::List(list) => {
            if list.len() == 0 {
                assert(expr@->List_0.len() == 0);
                return Err(RuntimeError::IllFormedExpression);
            }
            let tail = &list[1..list.len()];
            assert(trees(tail@) =~= expr@->List_0.skip(1));
            assert(expr@->List_0[0] == list[0]@);
            match &*list[0] {
                Expr::List(_) => {
                    let func = evaluate(&list[0], scope, frame, fuel)?;
                    invoke(&func, tail, scope, frame, fuel)
                },
                Expr::Token(head) => match head {
                    Token::Begin => begin(tail, scope, frame, fuel),
                    Token::If => if_statement(tail, scope, frame, fuel),
                    Token::Lambda => lambda(tail, frame),
                    Token::Assign => define_variable(
                        tail,
                        scope,
                        frame,
                        DefineBehavior::SetValueOfExisting,
                        fuel,
                    ),
                    Token::Define => define(tail, scope, frame, fuel),
                    Token::Symbol(symbol) => invoke_named_function(
                        tail,
                        scope,
                        frame,
                        symbol.as_str(),
                        fuel,
                    ),
                    Token::Do => do_loop(tail, scope, frame, fuel),
                    Token::Int(_) | Token::Float(_) | Token::StringLiteral(_) | Token::Bool(_) => Err(
                        RuntimeError::OperatorIsNotProcedure,
                    ),
                    _ => Err(RuntimeError::IllFormedExpression),
                },
            }
        },
    }
}

/// Why a source text gave no value.
#[derive(Debug)]
pub enum Error {
    Lexing(Vec<(LexingError, Span)>),
    Parsing(ParsingError),
    Runtime(RuntimeError),
}

/// What running a source text gives, as mathematical values.
pub enum Verdict {
    Lexing(Seq<(LexingError, Span)>),
    Parsing(ParsingError),
    Runtime(ErrorView),
    Value(ValueView),
}

/// What a run handed back, as mathematical values.
pub open spec fn verdict(r: Result<Value, Error>) -> Verdict {
    match r {
        Ok(v) => Verdict::Value(v@),
        Err(Error::Lexing(errors)) => Verdict::Lexing(errors@),
        Err(Error::Parsing(e)) => Verdict::Parsing(e),
        Err(Error::Runtime(e)) => Verdict::Runtime(e@),
    }
}

/// What running `src` in the global frame gives, and the scope it leaves:
/// the source is split into tokens, the tokens are parsed, and the
/// expression is evaluated. A source that is no expression leaves the scope
/// as it is.
pub open spec fn interpreted(src: Seq<char>, scope: ScopeView, fuel: nat) -> (Verdict, ScopeView) {
    match tokenized(src) {
        Err(errors) => (Verdict::Lexing(errors), scope),
        Ok(tokens) => match program(tokens) {
            Err(e) => (Verdict::Parsing(e), scope),
            Ok(expr) => {
                let run = evaluated(expr, 0, scope, fuel);
                (
                    match run.result {
                        Ok(v) => Verdict::Value(v),
                        Err(e) => Verdict::Runtime(e),
                    },
                    run.scope,
                )
            },
        },
    }
}

/// Runs the source text `src` in the global frame of `scope`.
pub fn eval(src: &str, scope: &mut Scope, fuel: usize) -> (r: Result<Value, Error>)
    ensures
        (verdict(r), final(scope)@) == interpreted(src@, old(scope)@, fuel as nat),
{
    let tokens = match tokenize(src) {
        Ok(tokens) => tokens,
        Err(errors) => {
            return Err(Error::Lexing(errors));
        },
    };
    let expr = match parse(tokens) {
        Ok(expr) => expr,
        Err(e) => {
            return Err(Error::Parsing(e));
        },
    };
    match evaluate(&Rc::new(expr), scope, GLOBAL, fuel) {
        Ok(v) => Ok(v),
        Err(e) => Err(Error::Runtime(e)),
    }
}

} // verus!
