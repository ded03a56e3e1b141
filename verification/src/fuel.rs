//! Fuel only bounds an evaluation: an evaluation that ends with anything
//! but `OutOfFuel` ends the same way, and leaves the same scope, with any
//! greater fuel.

use crate::builtin::{offender, Kind};
use crate::eval::ErrorView;
use crate::parser::ExprView;
use crate::scope::ScopeView;
use crate::semantics::{
    applied, arguments, begin_form, bound, bound_names, called, define_form,
    define_variable_form, do_form, do_inits, do_rounds, do_steps, evaluated, if_form,
    invoke_named_form, invoked, is_symbol, is_triple, lists_of, map_rows, native, part, row,
    sequence, shortest, symbol_name, Arguments, Outcome,
};
use crate::special_forms::DefineBehavior;
use crate::tokenizer::TokenView;
use crate::value::{is_truthy, Primitive, ProcedureView, ValueView};
use vstd::prelude::*;

verus! {

/// Whether an evaluation ended with anything but `OutOfFuel`.
pub open spec fn finished(outcome: Outcome) -> bool {
    outcome.result != Err::<ValueView, ErrorView>(ErrorView::OutOfFuel)
}

/// Whether an evaluation of arguments ended with anything but `OutOfFuel`.
pub open spec fn complete(args: Arguments) -> bool {
    args.result != Err::<Seq<ValueView>, ErrorView>(ErrorView::OutOfFuel)
}

/// An evaluation that finishes with `fuel` gives the same with `more`.
pub proof fn law_more_fuel_same_outcome(
    expr: ExprView,
    frame: nat,
    scope: ScopeView,
    fuel: nat,
    more: nat,
)
    requires
        fuel <= more,
        finished(evaluated(expr, frame, scope, fuel)),
    ensures
        evaluated(expr, frame, scope, more) == evaluated(expr, frame, scope, fuel),
    decreases fuel, 5nat, expr, 0nat,
{
    match expr {
        ExprView::Token(_) => {},
        ExprView::List(list) => {
            if list.len() > 0 {
                let operands = list.skip(1);
                match list[0] {
                    ExprView::List(_) => {
                        let callee = evaluated(list[0], frame, scope, fuel);
                        law_more_fuel_same_outcome(list[0], frame, scope, fuel, more);
                        match callee.result {
                            Ok(func) => {
                                lemma_invoked(func, operands, frame, callee.scope, fuel, more);
                            },
                            Err(_) => {},
                        }
                    },
                    ExprView::Token(head) => match head {
                        TokenView::Begin => {
                            assert(begin_form(operands, frame, scope, fuel) == sequence(
                                operands,
                                0,
                                None,
                                frame,
                                scope,
                                fuel,
                            ));
                            assert(begin_form(operands, frame, scope, more) == sequence(
                                operands,
                                0,
                                None,
                                frame,
                                scope,
                                more,
                            ));
                            lemma_sequence(operands, 0, None, frame, scope, fuel, more);
                        },
                        TokenView::If => {
                            lemma_if(operands, frame, scope, fuel, more);
                        },
                        TokenView::Assign => {
                            lemma_define_variable(
                                operands,
                                DefineBehavior::SetValueOfExisting,
                                frame,
                                scope,
                                fuel,
                                more,
                            );
                        },
                        TokenView::Define => {
                            let now = define_form(operands, frame, scope, fuel);
                            let later = define_form(operands, frame, scope, more);
                            assert(operands.len() > 0 && operands[0] is Token ==> now
                                == define_variable_form(
                                operands,
                                DefineBehavior::DefineNew,
                                frame,
                                scope,
                                fuel,
                            ) && later == define_variable_form(
                                operands,
                                DefineBehavior::DefineNew,
                                frame,
                                scope,
                                more,
                            ));
                            assert(!(operands.len() > 0 && operands[0] is Token) ==> now == later);
                            if operands.len() > 0 && operands[0] is Token {
                                lemma_define_variable(
                                    operands,
                                    DefineBehavior::DefineNew,
                                    frame,
                                    scope,
                                    fuel,
                                    more,
                                );
                            }
                        },
                        TokenView::Symbol(name) => {
                            let now = invoke_named_form(operands, name, frame, scope, fuel);
                            let later = invoke_named_form(operands, name, frame, scope, more);
                            assert(scope.lookup(frame, name) matches Some(func) ==> now == invoked(
                                func,
                                operands,
                                frame,
                                scope,
                                fuel,
                            ) && later == invoked(func, operands, frame, scope, more));
                            assert(scope.lookup(frame, name) is None ==> now == later);
                            match scope.lookup(frame, name) {
                                Some(func) => {
                                    lemma_invoked(func, operands, frame, scope, fuel, more);
                                },
                                None => {},
                            }
                        },
                        TokenView::Do => {
                            lemma_do_form(operands, frame, scope, fuel, more);
                        },
                        _ => {},
                    },
                }
            }
        },
    }
}

/// Arguments that are complete with `fuel` are the same with `more`.
pub proof fn lemma_arguments(
    exprs: Seq<ExprView>,
    from: nat,
    values: Seq<ValueView>,
    frame: nat,
    scope: ScopeView,
    fuel: nat,
    more: nat,
)
    requires
        fuel <= more,
        complete(arguments(exprs, from, values, frame, scope, fuel)),
    ensures
        arguments(exprs, from, values, frame, scope, more) == arguments(
            exprs,
            from,
            values,
            frame,
            scope,
            fuel,
        ),
    decreases fuel, 5nat, exprs, exprs.len() - from,
{
    if from < exprs.len() {
        let one = evaluated(exprs[from as int], frame, scope, fuel);
        law_more_fuel_same_outcome(exprs[from as int], frame, scope, fuel, more);
        match one.result {
            Ok(v) => {
                lemma_arguments(exprs, from + 1, values.push(v), frame, one.scope, fuel, more);
            },
            Err(_) => {},
        }
    }
}

/// A sequence that finishes with `fuel` gives the same with `more`.
pub proof fn lemma_sequence(
    exprs: Seq<ExprView>,
    from: nat,
    last: Option<ValueView>,
    frame: nat,
    scope: ScopeView,
    fuel: nat,
    more: nat,
)
    requires
        fuel <= more,
        finished(sequence(exprs, from, last, frame, scope, fuel)),
    ensures
        sequence(exprs, from, last, frame, scope, more) == sequence(
            exprs,
            from,
            last,
            frame,
            scope,
            fuel,
        ),
    decreases fuel, 5nat, exprs, exprs.len() - from,
{
    if from < exprs.len() {
        let one = evaluated(exprs[from as int], frame, scope, fuel);
        law_more_fuel_same_outcome(exprs[from as int], frame, scope, fuel, more);
        match one.result {
            Ok(v) => {
                lemma_sequence(exprs, from + 1, Some(v), frame, one.scope, fuel, more);
            },
            Err(_) => {},
        }
    }
}

/// An `if` that finishes with `fuel` gives the same with `more`.
pub proof fn lemma_if(exprs: Seq<ExprView>, frame: nat, scope: ScopeView, fuel: nat, more: nat)
    requires
        fuel <= more,
        finished(if_form(exprs, frame, scope, fuel)),
    ensures
        if_form(exprs, frame, scope, more) == if_form(exprs, frame, scope, fuel),
    decreases fuel, 5nat, exprs, 0nat,
{
    if exprs.len() == 3 {
        let cond = evaluated(exprs[0], frame, scope, fuel);
        law_more_fuel_same_outcome(exprs[0], frame, scope, fuel, more);
        match cond.result {
            Ok(v) => {
                if is_truthy(v) {
                    law_more_fuel_same_outcome(exprs[1], frame, cond.scope, fuel, more);
                } else {
                    law_more_fuel_same_outcome(exprs[2], frame, cond.scope, fuel, more);
                }
            },
            Err(_) => {},
        }
    }
}

/// A binding form that finishes with `fuel` gives the same with `more`.
pub proof fn lemma_define_variable(
    exprs: Seq<ExprView>,
    behavior: DefineBehavior,
    frame: nat,
    scope: ScopeView,
    fuel: nat,
    more: nat,
)
    requires
        fuel <= more,
        finished(define_variable_form(exprs, behavior, frame, scope, fuel)),
    ensures
        define_variable_form(exprs, behavior, frame, scope, more) == define_variable_form(
            exprs,
            behavior,
            frame,
            scope,
            fuel,
        ),
    decreases fuel, 5nat, exprs, 0nat,
{
    if exprs.len() >= 2 && is_symbol(exprs[0]) {
        law_more_fuel_same_outcome(exprs[1], frame, scope, fuel, more);
    }
}

/// An application that finishes with `fuel` gives the same with `more`.
pub proof fn lemma_invoked(
    func: ValueView,
    exprs: Seq<ExprView>,
    frame: nat,
    scope: ScopeView,
    fuel: nat,
    more: nat,
)
    requires
        fuel <= more,
        finished(invoked(func, exprs, frame, scope, fuel)),
    ensures
        invoked(func, exprs, frame, scope, more) == invoked(func, exprs, frame, scope, fuel),
    decreases fuel, 5nat, exprs, exprs.len() + 1,
{
    let args = arguments(exprs, 0, Seq::empty(), frame, scope, fuel);
    lemma_arguments(exprs, 0, Seq::empty(), frame, scope, fuel, more);
    match args.result {
        Ok(values) => {
            lemma_applied(func, values, args.scope, fuel, more);
        },
        Err(_) => {},
    }
}

/// A `do` loop that finishes with `fuel` gives the same with `more`.
pub proof fn lemma_do_form(exprs: Seq<ExprView>, frame: nat, scope: ScopeView, fuel: nat, more: nat)
    requires
        fuel <= more,
        finished(do_form(exprs, frame, scope, fuel)),
    ensures
        do_form(exprs, frame, scope, more) == do_form(exprs, frame, scope, fuel),
    decreases fuel, 5nat, exprs, 0nat,
{
    if exprs.len() >= 2 {
        match (exprs[0], exprs[1]) {
            (ExprView::List(bindings), ExprView::List(test)) => {
                if crate::semantics::all_triples(bindings) && test.len() > 0 {
                    let inits = do_inits(bindings, 0, Seq::empty(), frame, scope, fuel);
                    lemma_do_inits(bindings, 0, Seq::empty(), frame, scope, fuel, more);
                    match inits.result {
                        Ok(values) => {
                            let inner = inits.scope.frames.len();
                            lemma_do_rounds(
                                bindings,
                                test,
                                exprs.skip(2),
                                inner,
                                bound(
                                    inits.scope.nested(frame),
                                    inner,
                                    bound_names(bindings),
                                    values,
                                ),
                                fuel,
                                more,
                            );
                        },
                        Err(_) => {},
                    }
                }
            },
            _ => {},
        }
    }
}

/// Initial values that are complete with `fuel` are the same with `more`.
pub proof fn lemma_do_inits(
    bindings: Seq<ExprView>,
    from: nat,
    values: Seq<ValueView>,
    frame: nat,
    scope: ScopeView,
    fuel: nat,
    more: nat,
)
    requires
        fuel <= more,
        complete(do_inits(bindings, from, values, frame, scope, fuel)),
    ensures
        do_inits(bindings, from, values, frame, scope, more) == do_inits(
            bindings,
            from,
            values,
            frame,
            scope,
            fuel,
        ),
    decreases fuel, 5nat, bindings, bindings.len() - from,
{
    if from < bindings.len() && is_triple(bindings[from as int]) && is_symbol(
        part(bindings[from as int], 0),
    ) {
        let init = part(bindings[from as int], 1);
        let one = evaluated(init, frame, scope, fuel);
        law_more_fuel_same_outcome(init, frame, scope, fuel, more);
        match one.result {
            Ok(v) => {
                lemma_do_inits(bindings, from + 1, values.push(v), frame, one.scope, fuel, more);
            },
            Err(_) => {},
        }
    }
}

/// Steps that finish with `fuel` give the same with `more`.
pub proof fn lemma_do_steps(
    bindings: Seq<ExprView>,
    from: nat,
    frame: nat,
    scope: ScopeView,
    fuel: nat,
    more: nat,
)
    requires
        fuel <= more,
        finished(do_steps(bindings, from, frame, scope, fuel)),
    ensures
        do_steps(bindings, from, frame, scope, more) == do_steps(bindings, from, frame, scope, fuel),
    decreases fuel, 5nat, bindings, bindings.len() - from,
{
    if from < bindings.len() && is_triple(bindings[from as int]) && is_symbol(
        part(bindings[from as int], 0),
    ) {
        let name = symbol_name(part(bindings[from as int], 0));
        let step = part(bindings[from as int], 2);
        let one = evaluated(step, frame, scope, fuel);
        law_more_fuel_same_outcome(step, frame, scope, fuel, more);
        match one.result {
            Ok(v) => match one.scope.assigned(frame, name, v) {
                Some(after) => {
                    lemma_do_steps(bindings, from + 1, frame, after, fuel, more);
                },
                None => {},
            },
            Err(_) => {},
        }
    }
}

/// Rounds that finish with `fuel` give the same with `more`.
pub proof fn lemma_do_rounds(
    bindings: Seq<ExprView>,
    test: Seq<ExprView>,
    body: Seq<ExprView>,
    frame: nat,
    scope: ScopeView,
    fuel: nat,
    more: nat,
)
    requires
        fuel <= more,
        finished(do_rounds(bindings, test, body, frame, scope, fuel)),
    ensures
        do_rounds(bindings, test, body, frame, scope, more) == do_rounds(
            bindings,
            test,
            body,
            frame,
            scope,
            fuel,
        ),
    decreases fuel, 4nat, Seq::<ExprView>::empty(), 0nat,
{
    if test.len() > 0 && fuel > 0 {
        let left = (fuel - 1) as nat;
        let rest = (more - 1) as nat;
        let tested = evaluated(test[0], frame, scope, left);
        law_more_fuel_same_outcome(test[0], frame, scope, left, rest);
        match tested.result {
            Ok(v) => {
                if is_truthy(v) {
                    if test.len() > 1 {
                        lemma_sequence(test, 1, None, frame, tested.scope, left, rest);
                    }
                } else {
                    let ran = if body.len() > 0 {
                        sequence(body, 0, None, frame, tested.scope, left)
                    } else {
                        crate::semantics::returned(ValueView::Nil, tested.scope)
                    };
                    if body.len() > 0 {
                        lemma_sequence(body, 0, None, frame, tested.scope, left, rest);
                    }
                    match ran.result {
                        Ok(_) => {
                            let stepped = do_steps(bindings, 0, frame, ran.scope, left);
                            lemma_do_steps(bindings, 0, frame, ran.scope, left, rest);
                            match stepped.result {
                                Ok(_) => {
                                    lemma_do_rounds(
                                        bindings,
                                        test,
                                        body,
                                        frame,
                                        stepped.scope,
                                        left,
                                        rest,
                                    );
                                },
                                Err(_) => {},
                            }
                        },
                        Err(_) => {},
                    }
                }
            },
            Err(_) => {},
        }
    }
}

/// An application of a value that finishes with `fuel` gives the same with
/// `more`.
pub proof fn lemma_applied(
    func: ValueView,
    args: Seq<ValueView>,
    scope: ScopeView,
    fuel: nat,
    more: nat,
)
    requires
        fuel <= more,
        finished(applied(func, args, scope, fuel)),
    ensures
        applied(func, args, scope, more) == applied(func, args, scope, fuel),
    decreases fuel, 3nat, Seq::<ExprView>::empty(), 0nat,
{
    match func {
        ValueView::BuiltIn(primitive) => {
            lemma_native(primitive, args, scope, fuel, more);
        },
        ValueView::Procedure(procedure) => {
            lemma_called(procedure, args, scope, fuel, more);
        },
        _ => {},
    }
}

/// A call that finishes with `fuel` gives the same with `more`.
pub proof fn lemma_called(
    procedure: ProcedureView,
    args: Seq<ValueView>,
    scope: ScopeView,
    fuel: nat,
    more: nat,
)
    requires
        fuel <= more,
        finished(called(procedure, args, scope, fuel)),
    ensures
        called(procedure, args, scope, more) == called(procedure, args, scope, fuel),
    decreases fuel, 2nat, Seq::<ExprView>::empty(), 0nat,
{
    if procedure.params.len() == args.len() && fuel > 0 {
        let inner = scope.frames.len();
        lemma_sequence(
            procedure.body,
            0,
            None,
            inner,
            bound(scope.nested(procedure.scope), inner, procedure.params, args),
            (fuel - 1) as nat,
            (more - 1) as nat,
        );
    }
}

/// A native call that finishes with `fuel` gives the same with `more`.
pub proof fn lemma_native(
    primitive: Primitive,
    args: Seq<ValueView>,
    scope: ScopeView,
    fuel: nat,
    more: nat,
)
    requires
        fuel <= more,
        finished(native(primitive, args, scope, fuel)),
    ensures
        native(primitive, args, scope, more) == native(primitive, args, scope, fuel),
    decreases fuel, 2nat, Seq::<ExprView>::empty(), 0nat,
{
    match primitive {
        Primitive::MapList => {
            if args.len() >= 2 && offender(args.drop_first(), Kind::List) is None {
                lemma_map_rows(
                    args[0],
                    lists_of(args.drop_first()),
                    0,
                    Seq::empty(),
                    scope,
                    fuel,
                    more,
                );
            }
        },
        Primitive::Apply => {
            if args.len() == 2 && args[1] is List && fuel > 0 {
                lemma_applied(
                    args[0],
                    args[1]->List_0,
                    scope,
                    (fuel - 1) as nat,
                    (more - 1) as nat,
                );
            }
        },
        _ => {},
    }
}

/// Rows that finish with `fuel` give the same with `more`.
pub proof fn lemma_map_rows(
    func: ValueView,
    lists: Seq<Seq<ValueView>>,
    from: nat,
    values: Seq<ValueView>,
    scope: ScopeView,
    fuel: nat,
    more: nat,
)
    requires
        fuel <= more,
        finished(map_rows(func, lists, from, values, scope, fuel)),
    ensures
        map_rows(func, lists, from, values, scope, more) == map_rows(
            func,
            lists,
            from,
            values,
            scope,
            fuel,
        ),
    decreases fuel, 0nat, Seq::<ExprView>::empty(), shortest(lists) - from,
{
    if from < shortest(lists) && fuel > 0 {
        let one = applied(func, row(lists, from as int), scope, (fuel - 1) as nat);
        lemma_applied(func, row(lists, from as int), scope, (fuel - 1) as nat, (more - 1) as nat);
        match one.result {
            Ok(v) => {
                lemma_map_rows(func, lists, from + 1, values.push(v), one.scope, fuel, more);
            },
            Err(_) => {},
        }
    }
}

} // verus!
