//! What evaluation means: the evaluator as a mathematical function.
//!
//! Every function here takes the scope as it is before and gives the result
//! together with the scope as it is after. `fuel` bounds how far an
//! evaluation may go: each call of a procedure, each round of a `do` loop
//! and each application that `map` or `apply` makes takes one unit from the
//! fuel that is handed on, and where none is left the result is
//! `OutOfFuel`. Literals, symbols, special forms and the other native
//! procedures take none.

use crate::builtin::{
    added, compared, compared_equal, concatenated, conjoined, disjoined, divided, inverted,
    multiplied, offender, read_int, remainder, sliced, split, subtracted, Kind, Relation,
};
use crate::eval::ErrorView;
use crate::parser::ExprView;
use crate::scope::ScopeView;
use crate::special_forms::DefineBehavior;
use crate::tokenizer::TokenView;
use crate::value::{is_truthy, Primitive, ProcedureView, ValueView};
use vstd::prelude::*;

verus! {

/// A result together with the scope that the evaluation left.
pub struct Outcome {
    pub result: Result<ValueView, ErrorView>,
    pub scope: ScopeView,
}

/// The values of some arguments, or the error that stopped their
/// evaluation, together with the scope that the evaluation left.
pub struct Arguments {
    pub result: Result<Seq<ValueView>, ErrorView>,
    pub scope: ScopeView,
}

/// The outcome that leaves `scope` as it is.
pub open spec fn pure(result: Result<ValueView, ErrorView>, scope: ScopeView) -> Outcome {
    Outcome { result, scope }
}

/// The outcome that fails with `error`.
pub open spec fn failed(error: ErrorView, scope: ScopeView) -> Outcome {
    Outcome { result: Err(error), scope }
}

/// The outcome that succeeds with `value`.
pub open spec fn returned(value: ValueView, scope: ScopeView) -> Outcome {
    Outcome { result: Ok(value), scope }
}

/// Whether `expr` is a symbol.
pub open spec fn is_symbol(expr: ExprView) -> bool {
    expr matches ExprView::Token(TokenView::Symbol(_))
}

/// The name of the symbol `expr`.
pub open spec fn symbol_name(expr: ExprView) -> Seq<char> {
    expr->Token_0->Symbol_0
}

/// Whether every one of `exprs` is a symbol.
pub open spec fn all_symbols(exprs: Seq<ExprView>) -> bool {
    forall|i: int| 0 <= i < exprs.len() ==> is_symbol(#[trigger] exprs[i])
}

/// The names of the symbols `exprs`.
pub open spec fn symbol_names(exprs: Seq<ExprView>) -> Seq<Seq<char>> {
    Seq::new(exprs.len(), |i: int| symbol_name(exprs[i]))
}

/// The scope after each of `names` is bound, in order, to the value at the
/// same place, in `frame` itself.
pub open spec fn bound(
    scope: ScopeView,
    frame: nat,
    names: Seq<Seq<char>>,
    values: Seq<ValueView>,
) -> ScopeView
    decreases names.len(),
{
    if names.len() == 0 || names.len() != values.len() {
        scope
    } else {
        bound(scope, frame, names.drop_last(), values.drop_last()).defined(
            frame,
            names.last(),
            values.last(),
        )
    }
}

/// The value of `(lambda (p1 p2 ..) body..)`, given its operands: a
/// procedure that captures `frame`.
pub open spec fn lambda_form(exprs: Seq<ExprView>, frame: nat) -> Result<ValueView, ErrorView> {
    if exprs.len() < 2 {
        Err(ErrorView::IllFormedSpecialForm)
    } else {
        match exprs[0] {
            ExprView::List(params) => if all_symbols(params) {
                Ok(
                    ValueView::Procedure(
                        ProcedureView {
                            params: symbol_names(params),
                            body: exprs.skip(1),
                            scope: frame,
                        },
                    ),
                )
            } else {
                Err(ErrorView::ParameterMustBeIdentifier)
            },
            ExprView::Token(_) => Err(ErrorView::IllFormedSpecialForm),
        }
    }
}

/// The outcome of `(define (name p1 p2 ..) body..)`, given its operands:
/// `name` is bound in `frame` itself to a procedure that captures `frame`.
pub open spec fn define_procedure_form(exprs: Seq<ExprView>, frame: nat, scope: ScopeView) -> Outcome {
    if exprs.len() == 0 {
        failed(ErrorView::IllFormedSpecialForm, scope)
    } else {
        match exprs[0] {
            ExprView::List(header) => if !all_symbols(header) {
                failed(ErrorView::ParameterMustBeIdentifier, scope)
            } else if header.len() == 0 {
                failed(ErrorView::IdentifierExpected, scope)
            } else if exprs.len() < 2 {
                failed(ErrorView::IllFormedSpecialForm, scope)
            } else {
                returned(
                    ValueView::Nil,
                    scope.defined(
                        frame,
                        symbol_name(header[0]),
                        ValueView::Procedure(
                            ProcedureView {
                                params: symbol_names(header.skip(1)),
                                body: exprs.skip(1),
                                scope: frame,
                            },
                        ),
                    ),
                )
            },
            ExprView::Token(_) => failed(ErrorView::IllFormedSpecialForm, scope),
        }
    }
}

/// The length of the shortest of `lists`, and 0 where there is none.
pub open spec fn shortest<T>(lists: Seq<Seq<T>>) -> nat
    decreases lists.len(),
{
    if lists.len() == 0 {
        0
    } else if lists.len() == 1 {
        lists[0].len()
    } else {
        let rest = shortest(lists.drop_last());
        if lists.last().len() < rest {
            lists.last().len()
        } else {
            rest
        }
    }
}

/// The elements at place `i` of each of `lists`.
pub open spec fn row(lists: Seq<Seq<ValueView>>, i: int) -> Seq<ValueView> {
    Seq::new(lists.len(), |j: int| lists[j][i])
}

/// The lists that `args` hold.
pub open spec fn lists_of(args: Seq<ValueView>) -> Seq<Seq<ValueView>> {
    Seq::new(args.len(), |i: int| args[i]->List_0)
}

/// What `display` does with its one argument: it puts it at the end of what
/// was displayed.
pub open spec fn shown(args: Seq<ValueView>, scope: ScopeView) -> Outcome {
    if args.len() != 1 {
        failed(ErrorView::WrongNumberOfAgumentsPassed, scope)
    } else {
        returned(ValueView::Nil, scope.displayed(args[0]))
    }
}

/// What `read-file` gives of one name: the text of the file of that name
/// that the host has handed in. Where there is none the read fails with
/// `IO` and the scope notes the name.
pub open spec fn file_read(args: Seq<ValueView>, scope: ScopeView) -> Outcome {
    if args.len() != 1 {
        failed(ErrorView::WrongNumberOfAgumentsPassed, scope)
    } else {
        match args[0] {
            ValueView::String(name) => if scope.files.contains_key(name) {
                returned(ValueView::String(scope.files[name]), scope)
            } else {
                failed(ErrorView::IO, scope.missed(name))
            },
            other => failed(ErrorView::StringExpected(other), scope),
        }
    }
}

/// The outcome of evaluating `expr` in `frame`.
pub open spec fn evaluated(expr: ExprView, frame: nat, scope: ScopeView, fuel: nat) -> Outcome
    decreases fuel, 5nat, expr, 0nat,
{
    match expr {
        ExprView::Token(token) => match token {
            TokenView::Symbol(name) => match scope.lookup(frame, name) {
                Some(v) => returned(v, scope),
                None => failed(ErrorView::UnboundVariable(name), scope),
            },
            TokenView::Int(i) => returned(ValueView::Int(i), scope),
            TokenView::Float(f) => returned(ValueView::Float(f), scope),
            TokenView::StringLiteral(s) => returned(ValueView::String(s), scope),
            TokenView::Bool(b) => returned(ValueView::Bool(b), scope),
            _ => failed(ErrorView::IllFormedExpression, scope),
        },
        ExprView::List(list) => if list.len() == 0 {
            failed(ErrorView::IllFormedExpression, scope)
        } else {
            let operands = list.skip(1);
            match list[0] {
                ExprView::List(_) => {
                    let callee = evaluated(list[0], frame, scope, fuel);
                    match callee.result {
                        Ok(func) => invoked(func, operands, frame, callee.scope, fuel),
                        Err(_) => callee,
                    }
                },
                ExprView::Token(head) => match head {
                    TokenView::Begin => begin_form(operands, frame, scope, fuel),
                    TokenView::If => if_form(operands, frame, scope, fuel),
                    TokenView::Lambda => pure(lambda_form(operands, frame), scope),
                    TokenView::Assign => define_variable_form(
                        operands,
                        DefineBehavior::SetValueOfExisting,
                        frame,
                        scope,
                        fuel,
                    ),
                    TokenView::Define => define_form(operands, frame, scope, fuel),
                    TokenView::Symbol(name) => invoke_named_form(operands, name, frame, scope, fuel),
                    TokenView::Do => do_form(operands, frame, scope, fuel),
                    TokenView::Int(_) | TokenView::Float(_) | TokenView::StringLiteral(_)
                    | TokenView::Bool(_) => failed(ErrorView::OperatorIsNotProcedure, scope),
                    _ => failed(ErrorView::IllFormedExpression, scope),
                },
            }
        },
    }
}

/// The values of `exprs[from..]`, evaluated from left to right and put
/// after `values`; the first error ends the evaluation.
pub open spec fn arguments(
    exprs: Seq<ExprView>,
    from: nat,
    values: Seq<ValueView>,
    frame: nat,
    scope: ScopeView,
    fuel: nat,
) -> Arguments
    decreases fuel, 5nat, exprs, exprs.len() - from,
{
    if from >= exprs.len() {
        Arguments { result: Ok(values), scope }
    } else {
        let one = evaluated(exprs[from as int], frame, scope, fuel);
        match one.result {
            Ok(v) => arguments(exprs, from + 1, values.push(v), frame, one.scope, fuel),
            Err(e) => Arguments { result: Err(e), scope: one.scope },
        }
    }
}

/// The outcome of evaluating `exprs[from..]` one after another: the value
/// of the last one, `last` being the value of the one before `from`. With
/// nothing evaluated at all the form is ill-formed.
pub open spec fn sequence(
    exprs: Seq<ExprView>,
    from: nat,
    last: Option<ValueView>,
    frame: nat,
    scope: ScopeView,
    fuel: nat,
) -> Outcome
    decreases fuel, 5nat, exprs, exprs.len() - from,
{
    if from >= exprs.len() {
        match last {
            Some(v) => returned(v, scope),
            None => failed(ErrorView::IllFormedSpecialForm, scope),
        }
    } else {
        let one = evaluated(exprs[from as int], frame, scope, fuel);
        match one.result {
            Ok(v) => sequence(exprs, from + 1, Some(v), frame, one.scope, fuel),
            Err(_) => one,
        }
    }
}

/// The outcome of `(begin e1 e2 ..)`, given its operands.
pub open spec fn begin_form(exprs: Seq<ExprView>, frame: nat, scope: ScopeView, fuel: nat) -> Outcome
    decreases fuel, 5nat, exprs, exprs.len() + 1,
{
    sequence(exprs, 0, None, frame, scope, fuel)
}

/// The outcome of `(if cond then else)`, given its operands.
pub open spec fn if_form(exprs: Seq<ExprView>, frame: nat, scope: ScopeView, fuel: nat) -> Outcome
    decreases fuel, 5nat, exprs, 0nat,
{
    if exprs.len() != 3 {
        failed(ErrorView::IllFormedSpecialForm, scope)
    } else {
        let cond = evaluated(exprs[0], frame, scope, fuel);
        match cond.result {
            Ok(v) => if is_truthy(v) {
                evaluated(exprs[1], frame, cond.scope, fuel)
            } else {
                evaluated(exprs[2], frame, cond.scope, fuel)
            },
            Err(_) => cond,
        }
    }
}

/// The outcome of `(define sym expr)` or `(set! sym expr)`, given its
/// operands: `define` binds in `frame` itself, `set!` rebinds in the nearest
/// frame that binds `sym` and fails where there is none.
pub open spec fn define_variable_form(
    exprs: Seq<ExprView>,
    behavior: DefineBehavior,
    frame: nat,
    scope: ScopeView,
    fuel: nat,
) -> Outcome
    decreases fuel, 5nat, exprs, 0nat,
{
    if exprs.len() == 0 {
        failed(ErrorView::IllFormedSpecialForm, scope)
    } else if !is_symbol(exprs[0]) {
        failed(ErrorView::IdentifierExpected, scope)
    } else if exprs.len() < 2 {
        failed(ErrorView::IllFormedSpecialForm, scope)
    } else {
        let name = symbol_name(exprs[0]);
        let rhs = evaluated(exprs[1], frame, scope, fuel);
        match rhs.result {
            Ok(v) => match behavior {
                DefineBehavior::DefineNew => returned(
                    ValueView::Nil,
                    rhs.scope.defined(frame, name, v),
                ),
                DefineBehavior::SetValueOfExisting => match rhs.scope.assigned(frame, name, v) {
                    Some(after) => returned(ValueView::Nil, after),
                    None => failed(ErrorView::UnboundVariable(name), rhs.scope),
                },
            },
            Err(_) => rhs,
        }
    }
}

/// The outcome of `(define ..)`, given its operands: of a variable where the
/// first is a token, of a procedure where it is a list.
pub open spec fn define_form(exprs: Seq<ExprView>, frame: nat, scope: ScopeView, fuel: nat) -> Outcome
    decreases fuel, 5nat, exprs, 1nat,
{
    if exprs.len() == 0 {
        failed(ErrorView::IllFormedSpecialForm, scope)
    } else {
        match exprs[0] {
            ExprView::Token(_) => define_variable_form(
                exprs,
                DefineBehavior::DefineNew,
                frame,
                scope,
                fuel,
            ),
            ExprView::List(_) => define_procedure_form(exprs, frame, scope),
        }
    }
}

/// The outcome of applying `func` to the values of `exprs`: the arguments
/// are evaluated from left to right, then `func` is applied to them.
pub open spec fn invoked(
    func: ValueView,
    exprs: Seq<ExprView>,
    frame: nat,
    scope: ScopeView,
    fuel: nat,
) -> Outcome
    decreases fuel, 5nat, exprs, exprs.len() + 1,
{
    let args = arguments(exprs, 0, Seq::empty(), frame, scope, fuel);
    match args.result {
        Ok(values) => applied(func, values, args.scope, fuel),
        Err(e) => failed(e, args.scope),
    }
}

/// The outcome of `(name e1 e2 ..)`, given its operands: `name` is resolved
/// first, then the arguments are evaluated.
pub open spec fn invoke_named_form(
    exprs: Seq<ExprView>,
    name: Seq<char>,
    frame: nat,
    scope: ScopeView,
    fuel: nat,
) -> Outcome
    decreases fuel, 5nat, exprs, exprs.len() + 2,
{
    match scope.lookup(frame, name) {
        Some(func) => invoked(func, exprs, frame, scope, fuel),
        None => failed(ErrorView::UnboundVariable(name), scope),
    }
}

/// Whether `binding` has the shape `(sym init step)`, whatever `sym` is.
pub open spec fn is_triple(binding: ExprView) -> bool {
    binding matches ExprView::List(parts) && parts.len() == 3
}

/// Whether every one of `bindings` is a triple.
pub open spec fn all_triples(bindings: Seq<ExprView>) -> bool {
    forall|i: int| 0 <= i < bindings.len() ==> is_triple(#[trigger] bindings[i])
}

/// The part at place `k` of the triple `binding`.
pub open spec fn part(binding: ExprView, k: int) -> ExprView {
    binding->List_0[k]
}

/// The names that the triples `bindings` bind.
pub open spec fn bound_names(bindings: Seq<ExprView>) -> Seq<Seq<char>> {
    Seq::new(bindings.len(), |i: int| symbol_name(part(bindings[i], 0)))
}

/// The outcome of `(do ((sym init step)..) (test result..) body..)`, given
/// its operands. The `init`s are evaluated in `frame`, from left to right;
/// then a new frame inside `frame` binds each `sym` to its value, and the
/// rounds run in it.
pub open spec fn do_form(exprs: Seq<ExprView>, frame: nat, scope: ScopeView, fuel: nat) -> Outcome
    decreases fuel, 5nat, exprs, 0nat,
{
    if exprs.len() < 2 {
        failed(ErrorView::IllFormedSpecialForm, scope)
    } else {
        match (exprs[0], exprs[1]) {
            (ExprView::List(bindings), ExprView::List(test)) => if !all_triples(bindings)
                || test.len() == 0 {
                failed(ErrorView::IllFormedSpecialForm, scope)
            } else {
                let inits = do_inits(bindings, 0, Seq::empty(), frame, scope, fuel);
                match inits.result {
                    Ok(values) => {
                        let inner = inits.scope.frames.len();
                        do_rounds(
                            bindings,
                            test,
                            exprs.skip(2),
                            inner,
                            bound(inits.scope.nested(frame), inner, bound_names(bindings), values),
                            fuel,
                        )
                    },
                    Err(e) => failed(e, inits.scope),
                }
            },
            _ => failed(ErrorView::IllFormedSpecialForm, scope),
        }
    }
}

/// The values of the `init`s of `bindings[from..]`, evaluated in `frame`
/// from left to right and put after `values`. A binding whose first part is
/// no symbol stops the evaluation with `IdentifierExpected`.
pub open spec fn do_inits(
    bindings: Seq<ExprView>,
    from: nat,
    values: Seq<ValueView>,
    frame: nat,
    scope: ScopeView,
    fuel: nat,
) -> Arguments
    decreases fuel, 5nat, bindings, bindings.len() - from,
{
    if from >= bindings.len() {
        Arguments { result: Ok(values), scope }
    } else if !is_triple(bindings[from as int]) {
        Arguments { result: Err(ErrorView::IllFormedSpecialForm), scope }
    } else if !is_symbol(part(bindings[from as int], 0)) {
        Arguments { result: Err(ErrorView::IdentifierExpected), scope }
    } else {
        let one = evaluated(part(bindings[from as int], 1), frame, scope, fuel);
        match one.result {
            Ok(v) => do_inits(bindings, from + 1, values.push(v), frame, one.scope, fuel),
            Err(e) => Arguments { result: Err(e), scope: one.scope },
        }
    }
}

/// The outcome of the `step`s of `bindings[from..]`: each is evaluated in
/// `frame` and its value assigned to its `sym` before the next one is
/// evaluated.
pub open spec fn do_steps(
    bindings: Seq<ExprView>,
    from: nat,
    frame: nat,
    scope: ScopeView,
    fuel: nat,
) -> Outcome
    decreases fuel, 5nat, bindings, bindings.len() - from,
{
    if from >= bindings.len() {
        returned(ValueView::Nil, scope)
    } else if !is_triple(bindings[from as int]) {
        failed(ErrorView::IllFormedSpecialForm, scope)
    } else if !is_symbol(part(bindings[from as int], 0)) {
        failed(ErrorView::IdentifierExpected, scope)
    } else {
        let name = symbol_name(part(bindings[from as int], 0));
        let one = evaluated(part(bindings[from as int], 2), frame, scope, fuel);
        match one.result {
            Ok(v) => match one.scope.assigned(frame, name, v) {
                Some(after) => do_steps(bindings, from + 1, frame, after, fuel),
                None => failed(ErrorView::UnboundVariable(name), one.scope),
            },
            Err(_) => one,
        }
    }
}

/// The outcome of the rounds of a `do` loop in its frame `frame`. A round
/// takes one unit of fuel. It evaluates the test; where that holds, the
/// loop ends with the value of the last `result`, or `Nil` where there is
/// none. Where it does not, the round evaluates the body, then the steps,
/// and the next round follows.
pub open spec fn do_rounds(
    bindings: Seq<ExprView>,
    test: Seq<ExprView>,
    body: Seq<ExprView>,
    frame: nat,
    scope: ScopeView,
    fuel: nat,
) -> Outcome
    decreases fuel, 4nat, Seq::<ExprView>::empty(), 0nat,
{
    if test.len() == 0 {
        failed(ErrorView::IllFormedSpecialForm, scope)
    } else if fuel == 0 {
        failed(ErrorView::OutOfFuel, scope)
    } else {
        let left = (fuel - 1) as nat;
        let tested = evaluated(test[0], frame, scope, left);
        match tested.result {
            Ok(v) => if is_truthy(v) {
                if test.len() > 1 {
                    sequence(test, 1, None, frame, tested.scope, left)
                } else {
                    returned(ValueView::Nil, tested.scope)
                }
            } else {
                let ran = if body.len() > 0 {
                    sequence(body, 0, None, frame, tested.scope, left)
                } else {
                    returned(ValueView::Nil, tested.scope)
                };
                match ran.result {
                    Ok(_) => {
                        let stepped = do_steps(bindings, 0, frame, ran.scope, left);
                        match stepped.result {
                            Ok(_) => do_rounds(bindings, test, body, frame, stepped.scope, left),
                            Err(_) => stepped,
                        }
                    },
                    Err(_) => ran,
                }
            },
            Err(_) => tested,
        }
    }
}

/// The outcome of applying the value `func` to `args`.
pub open spec fn applied(func: ValueView, args: Seq<ValueView>, scope: ScopeView, fuel: nat) -> Outcome
    decreases fuel, 3nat, Seq::<ExprView>::empty(), 0nat,
{
    match func {
        ValueView::BuiltIn(primitive) => native(primitive, args, scope, fuel),
        ValueView::Procedure(procedure) => called(procedure, args, scope, fuel),
        _ => failed(ErrorView::NotProcedure, scope),
    }
}

/// The outcome of calling `procedure` with `args`, which must be as many as
/// it has parameters: a new frame inside the frame that the procedure
/// captured binds each parameter to its argument, and the body is evaluated
/// in it. The call takes one unit of fuel.
pub open spec fn called(
    procedure: ProcedureView,
    args: Seq<ValueView>,
    scope: ScopeView,
    fuel: nat,
) -> Outcome
    decreases fuel, 2nat, Seq::<ExprView>::empty(), 0nat,
{
    if procedure.params.len() != args.len() {
        failed(ErrorView::WrongNumberOfAgumentsPassed, scope)
    } else if fuel == 0 {
        failed(ErrorView::OutOfFuel, scope)
    } else {
        let inner = scope.frames.len();
        sequence(
            procedure.body,
            0,
            None,
            inner,
            bound(scope.nested(procedure.scope), inner, procedure.params, args),
            (fuel - 1) as nat,
        )
    }
}

/// The outcome of calling the native procedure `primitive` with `args`.
pub open spec fn native(
    primitive: Primitive,
    args: Seq<ValueView>,
    scope: ScopeView,
    fuel: nat,
) -> Outcome
    decreases fuel, 2nat, Seq::<ExprView>::empty(), 0nat,
{
    match primitive {
        Primitive::Add => pure(added(args), scope),
        Primitive::Sub => pure(subtracted(args), scope),
        Primitive::Mul => pure(multiplied(args), scope),
        Primitive::Div => pure(divided(args), scope),
        Primitive::Modulo => pure(remainder(args), scope),
        Primitive::Equal => pure(compared_equal(args), scope),
        Primitive::LessEq => pure(compared(Relation::LessEq, args), scope),
        Primitive::Less => pure(compared(Relation::Less, args), scope),
        Primitive::GreaterEq => pure(compared(Relation::GreaterEq, args), scope),
        Primitive::Greater => pure(compared(Relation::Greater, args), scope),
        Primitive::And => pure(conjoined(args), scope),
        Primitive::Or => pure(disjoined(args), scope),
        Primitive::Not => pure(inverted(args), scope),
        Primitive::List => pure(Ok(ValueView::List(args)), scope),
        Primitive::StringConcat => pure(concatenated(args), scope),
        Primitive::Display => shown(args, scope),
        Primitive::MapList => mapped(args, scope, fuel),
        Primitive::Apply => spread(args, scope, fuel),
        Primitive::ReadFile => file_read(args, scope),
        Primitive::SplitString => pure(split(args), scope),
        Primitive::Substring => pure(sliced(args), scope),
        Primitive::ParseInt => pure(read_int(args), scope),
    }
}

/// What `map` gives of a callable and one or more lists: the list of what
/// the callable gives of each row, a row being the elements at one place of
/// every list, up to the end of the shortest list.
pub open spec fn mapped(args: Seq<ValueView>, scope: ScopeView, fuel: nat) -> Outcome
    decreases fuel, 1nat, Seq::<ExprView>::empty(), 0nat,
{
    if args.len() < 2 {
        failed(ErrorView::WrongNumberOfAgumentsPassed, scope)
    } else {
        match offender(args.drop_first(), Kind::List) {
            Some(o) => failed(ErrorView::ListExpected(o), scope),
            None => map_rows(args[0], lists_of(args.drop_first()), 0, Seq::empty(), scope, fuel),
        }
    }
}

/// The outcome of applying `func` to the rows of `lists` from row `from`
/// on, put after `values`. Each application takes one unit of fuel.
pub open spec fn map_rows(
    func: ValueView,
    lists: Seq<Seq<ValueView>>,
    from: nat,
    values: Seq<ValueView>,
    scope: ScopeView,
    fuel: nat,
) -> Outcome
    decreases fuel, 0nat, Seq::<ExprView>::empty(), shortest(lists) - from,
{
    if from >= shortest(lists) {
        returned(ValueView::List(values), scope)
    } else if fuel == 0 {
        failed(ErrorView::OutOfFuel, scope)
    } else {
        let one = applied(func, row(lists, from as int), scope, (fuel - 1) as nat);
        match one.result {
            Ok(v) => map_rows(func, lists, from + 1, values.push(v), one.scope, fuel),
            Err(_) => one,
        }
    }
}

/// What `apply` gives of a callable and a list: what the callable gives of
/// the elements of the list. The application takes one unit of fuel.
pub open spec fn spread(args: Seq<ValueView>, scope: ScopeView, fuel: nat) -> Outcome
    decreases fuel, 1nat, Seq::<ExprView>::empty(), 0nat,
{
    if args.len() != 2 {
        failed(ErrorView::WrongNumberOfAgumentsPassed, scope)
    } else {
        match args[1] {
            ValueView::List(list) => if fuel == 0 {
                failed(ErrorView::OutOfFuel, scope)
            } else {
                applied(args[0], list, scope, (fuel - 1) as nat)
            },
            other => failed(ErrorView::ListExpected(other), scope),
        }
    }
}

/// The outcome of `((head) e1 e2 ..)`: `head` is evaluated to a callable,
/// then the arguments, then the callable is applied.
pub open spec fn invoke_lambda_form(
    head: ExprView,
    exprs: Seq<ExprView>,
    frame: nat,
    scope: ScopeView,
    fuel: nat,
) -> Outcome {
    let callee = evaluated(head, frame, scope, fuel);
    match callee.result {
        Ok(func) => invoked(func, exprs, frame, callee.scope, fuel),
        Err(_) => callee,
    }
}

} // verus!
