//! An evaluation only adds: frames, bindings and output stay once they are
//! there.

use crate::builtin::{offender, Kind};
use crate::parser::ExprView;
use crate::scope::ScopeView;
use crate::semantics::{
    all_triples, applied, arguments, begin_form, bound, bound_names, called, define_form,
    define_procedure_form, define_variable_form, do_form, do_inits, do_rounds, do_steps,
    evaluated, file_read, if_form, invoke_named_form, invoked, is_symbol, is_triple, lists_of,
    map_rows, native, part, returned, row, sequence, shortest, shown, symbol_name,
};
use crate::special_forms::DefineBehavior;
use crate::tokenizer::TokenView;
use crate::value::{is_truthy, Primitive, ProcedureView, ValueView};
use vstd::prelude::*;

verus! {

/// Whether `after` keeps what `before` holds: every frame of `before` is a
/// frame of `after`, with the same frame around it and with every name still
/// bound that it bound; what was displayed is displayed still, ahead of
/// anything new; and the files are the same.
pub open spec fn keeps(before: ScopeView, after: ScopeView) -> bool {
    &&& before.frames.len() <= after.frames.len()
    &&& forall|i: int|
        0 <= i < before.frames.len() ==> (#[trigger] after.frames[i]).outer
            == before.frames[i].outer && before.frames[i].vars.dom().subset_of(
            after.frames[i].vars.dom(),
        )
    &&& before.output.is_prefix_of(after.output)
    &&& after.files == before.files
}

/// A scope keeps what it holds.
pub proof fn lemma_keeps_itself(scope: ScopeView)
    ensures
        keeps(scope, scope),
{
}

/// What is kept by each of two steps is kept by both.
pub proof fn lemma_keeps_on(first: ScopeView, second: ScopeView, third: ScopeView)
    requires
        keeps(first, second),
        keeps(second, third),
    ensures
        keeps(first, third),
{
    assert forall|i: int| 0 <= i < first.frames.len() implies (#[trigger] third.frames[i]).outer
        == first.frames[i].outer && first.frames[i].vars.dom().subset_of(
        third.frames[i].vars.dom(),
    ) by {
        assert(second.frames[i].outer == first.frames[i].outer);
    }
}

/// A definition, an assignment, a new frame, a display and a missed file
/// each keep what the scope holds.
pub proof fn lemma_steps_keep(scope: ScopeView, frame: nat, name: Seq<char>, value: ValueView)
    ensures
        keeps(scope, scope.defined(frame, name, value)),
        scope.assigned(frame, name, value) matches Some(after) ==> keeps(scope, after),
        keeps(scope, scope.nested(frame)),
        keeps(scope, scope.displayed(value)),
        keeps(scope, scope.missed(name)),
{
    match scope.holder(frame, name) {
        Some(h) => {
            assert(keeps(scope, scope.defined(h, name, value)));
        },
        None => {},
    }
}

/// Binding a list of names keeps what the scope holds.
pub proof fn lemma_bound_keeps(
    scope: ScopeView,
    frame: nat,
    names: Seq<Seq<char>>,
    values: Seq<ValueView>,
)
    ensures
        keeps(scope, bound(scope, frame, names, values)),
    decreases names.len(),
{
    if names.len() > 0 && names.len() == values.len() {
        let before = bound(scope, frame, names.drop_last(), values.drop_last());
        lemma_bound_keeps(scope, frame, names.drop_last(), values.drop_last());
        lemma_steps_keep(before, frame, names.last(), values.last());
        lemma_keeps_on(scope, before, before.defined(frame, names.last(), values.last()));
    }
}

/// Whatever an evaluation gives, the scope that it leaves keeps what the
/// scope held before: no frame goes, no frame moves, no binding goes, and
/// nothing that was displayed is taken back.
pub proof fn law_evaluation_only_adds(expr: ExprView, frame: nat, scope: ScopeView, fuel: nat)
    ensures
        keeps(scope, evaluated(expr, frame, scope, fuel).scope),
    decreases fuel, 5nat, expr, 0nat,
{
    match expr {
        ExprView::Token(_) => {},
        ExprView::List(list) => {
            if list.len() > 0 {
                let operands = list.skip(1);
                match list[0] {
                    ExprView::List(_) => {
                        let callee = evaluated(list[0], frame, scope, fuel);
                        law_evaluation_only_adds(list[0], frame, scope, fuel);
                        match callee.result {
                            Ok(func) => {
                                lemma_invoked_keeps(func, operands, frame, callee.scope, fuel);
                                lemma_keeps_on(
                                    scope,
                                    callee.scope,
                                    invoked(func, operands, frame, callee.scope, fuel).scope,
                                );
                            },
                            Err(_) => {},
                        }
                    },
                    ExprView::Token(head) => match head {
                        TokenView::Begin => {
                            assert(begin_form(operands, frame, scope, fuel) == sequence(
                                operands,
                                0,
                                None,
                                frame,
                                scope,
                                fuel,
                            ));
                            lemma_sequence_keeps(operands, 0, None, frame, scope, fuel);
                        },
                        TokenView::If => {
                            lemma_if_keeps(operands, frame, scope, fuel);
                        },
                        TokenView::Assign => {
                            lemma_define_variable_keeps(
                                operands,
                                DefineBehavior::SetValueOfExisting,
                                frame,
                                scope,
                                fuel,
                            );
                        },
                        TokenView::Define => {
                            let now = define_form(operands, frame, scope, fuel);
                            if operands.len() > 0 {
                                match operands[0] {
                                    ExprView::Token(_) => {
                                        assert(now == define_variable_form(
                                            operands,
                                            DefineBehavior::DefineNew,
                                            frame,
                                            scope,
                                            fuel,
                                        ));
                                        lemma_define_variable_keeps(
                                            operands,
                                            DefineBehavior::DefineNew,
                                            frame,
                                            scope,
                                            fuel,
                                        );
                                    },
                                    ExprView::List(header) => {
                                        assert(now == define_procedure_form(
                                            operands,
                                            frame,
                                            scope,
                                        ));
                                        if header.len() > 0 {
                                            lemma_steps_keep(
                                                scope,
                                                frame,
                                                symbol_name(header[0]),
                                                now.scope.frames[frame as int].vars[symbol_name(
                                                    header[0],
                                                )],
                                            );
                                        }
                                    },
                                }
                            }
                        },
                        TokenView::Symbol(name) => {
                            let now = invoke_named_form(operands, name, frame, scope, fuel);
                            match scope.lookup(frame, name) {
                                Some(func) => {
                                    assert(now == invoked(func, operands, frame, scope, fuel));
                                    lemma_invoked_keeps(func, operands, frame, scope, fuel);
                                },
                                None => {},
                            }
                        },
                        TokenView::Do => {
                            lemma_do_form_keeps(operands, frame, scope, fuel);
                        },
                        _ => {},
                    },
                }
            }
        },
    }
}

/// The evaluation of arguments only adds.
pub proof fn lemma_arguments_keep(
    exprs: Seq<ExprView>,
    from: nat,
    values: Seq<ValueView>,
    frame: nat,
    scope: ScopeView,
    fuel: nat,
)
    ensures
        keeps(scope, arguments(exprs, from, values, frame, scope, fuel).scope),
    decreases fuel, 5nat, exprs, exprs.len() - from,
{
    if from < exprs.len() {
        let one = evaluated(exprs[from as int], frame, scope, fuel);
        law_evaluation_only_adds(exprs[from as int], frame, scope, fuel);
        match one.result {
            Ok(v) => {
                lemma_arguments_keep(exprs, from + 1, values.push(v), frame, one.scope, fuel);
                lemma_keeps_on(
                    scope,
                    one.scope,
                    arguments(exprs, from + 1, values.push(v), frame, one.scope, fuel).scope,
                );
            },
            Err(_) => {},
        }
    }
}

/// The evaluation of a sequence only adds.
pub proof fn lemma_sequence_keeps(
    exprs: Seq<ExprView>,
    from: nat,
    last: Option<ValueView>,
    frame: nat,
    scope: ScopeView,
    fuel: nat,
)
    ensures
        keeps(scope, sequence(exprs, from, last, frame, scope, fuel).scope),
    decreases fuel, 5nat, exprs, exprs.len() - from,
{
    if from < exprs.len() {
        let one = evaluated(exprs[from as int], frame, scope, fuel);
        law_evaluation_only_adds(exprs[from as int], frame, scope, fuel);
        match one.result {
            Ok(v) => {
                lemma_sequence_keeps(exprs, from + 1, Some(v), frame, one.scope, fuel);
                lemma_keeps_on(
                    scope,
                    one.scope,
                    sequence(exprs, from + 1, Some(v), frame, one.scope, fuel).scope,
                );
            },
            Err(_) => {},
        }
    }
}

/// The evaluation of an `if` only adds.
pub proof fn lemma_if_keeps(exprs: Seq<ExprView>, frame: nat, scope: ScopeView, fuel: nat)
    ensures
        keeps(scope, if_form(exprs, frame, scope, fuel).scope),
    decreases fuel, 5nat, exprs, 0nat,
{
    if exprs.len() == 3 {
        let cond = evaluated(exprs[0], frame, scope, fuel);
        law_evaluation_only_adds(exprs[0], frame, scope, fuel);
        match cond.result {
            Ok(v) => {
                let taken = if is_truthy(v) {
                    exprs[1]
                } else {
                    exprs[2]
                };
                law_evaluation_only_adds(taken, frame, cond.scope, fuel);
                lemma_keeps_on(scope, cond.scope, evaluated(taken, frame, cond.scope, fuel).scope);
            },
            Err(_) => {},
        }
    }
}

/// The evaluation of a binding form only adds.
pub proof fn lemma_define_variable_keeps(
    exprs: Seq<ExprView>,
    behavior: DefineBehavior,
    frame: nat,
    scope: ScopeView,
    fuel: nat,
)
    ensures
        keeps(scope, define_variable_form(exprs, behavior, frame, scope, fuel).scope),
    decreases fuel, 5nat, exprs, 0nat,
{
    if exprs.len() >= 2 && is_symbol(exprs[0]) {
        let rhs = evaluated(exprs[1], frame, scope, fuel);
        law_evaluation_only_adds(exprs[1], frame, scope, fuel);
        match rhs.result {
            Ok(v) => {
                lemma_steps_keep(rhs.scope, frame, symbol_name(exprs[0]), v);
                lemma_keeps_on(
                    scope,
                    rhs.scope,
                    define_variable_form(exprs, behavior, frame, scope, fuel).scope,
                );
            },
            Err(_) => {},
        }
    }
}

/// An application to the values of expressions only adds.
pub proof fn lemma_invoked_keeps(
    func: ValueView,
    exprs: Seq<ExprView>,
    frame: nat,
    scope: ScopeView,
    fuel: nat,
)
    ensures
        keeps(scope, invoked(func, exprs, frame, scope, fuel).scope),
    decreases fuel, 5nat, exprs, exprs.len() + 1,
{
    let args = arguments(exprs, 0, Seq::empty(), frame, scope, fuel);
    lemma_arguments_keep(exprs, 0, Seq::empty(), frame, scope, fuel);
    match args.result {
        Ok(values) => {
            lemma_applied_keeps(func, values, args.scope, fuel);
            lemma_keeps_on(scope, args.scope, applied(func, values, args.scope, fuel).scope);
        },
        Err(_) => {},
    }
}

/// A `do` loop only adds.
pub proof fn lemma_do_form_keeps(exprs: Seq<ExprView>, frame: nat, scope: ScopeView, fuel: nat)
    ensures
        keeps(scope, do_form(exprs, frame, scope, fuel).scope),
    decreases fuel, 5nat, exprs, 0nat,
{
    if exprs.len() >= 2 {
        match (exprs[0], exprs[1]) {
            (ExprView::List(bindings), ExprView::List(test)) => {
                if all_triples(bindings) && test.len() > 0 {
                    let inits = do_inits(bindings, 0, Seq::empty(), frame, scope, fuel);
                    lemma_do_inits_keep(bindings, 0, Seq::empty(), frame, scope, fuel);
                    match inits.result {
                        Ok(values) => {
                            let inner = inits.scope.frames.len();
                            let nested = inits.scope.nested(frame);
                            let entered = bound(nested, inner, bound_names(bindings), values);
                            lemma_steps_keep(inits.scope, frame, Seq::empty(), ValueView::Nil);
                            lemma_bound_keeps(nested, inner, bound_names(bindings), values);
                            lemma_keeps_on(inits.scope, nested, entered);
                            lemma_keeps_on(scope, inits.scope, entered);
                            lemma_do_rounds_keep(
                                bindings,
                                test,
                                exprs.skip(2),
                                inner,
                                entered,
                                fuel,
                            );
                            lemma_keeps_on(
                                scope,
                                entered,
                                do_rounds(bindings, test, exprs.skip(2), inner, entered, fuel).scope,
                            );
                        },
                        Err(_) => {},
                    }
                }
            },
            _ => {},
        }
    }
}

/// The evaluation of initial values only adds.
pub proof fn lemma_do_inits_keep(
    bindings: Seq<ExprView>,
    from: nat,
    values: Seq<ValueView>,
    frame: nat,
    scope: ScopeView,
    fuel: nat,
)
    ensures
        keeps(scope, do_inits(bindings, from, values, frame, scope, fuel).scope),
    decreases fuel, 5nat, bindings, bindings.len() - from,
{
    if from < bindings.len() && is_triple(bindings[from as int]) && is_symbol(
        part(bindings[from as int], 0),
    ) {
        let init = part(bindings[from as int], 1);
        let one = evaluated(init, frame, scope, fuel);
        law_evaluation_only_adds(init, frame, scope, fuel);
        match one.result {
            Ok(v) => {
                lemma_do_inits_keep(bindings, from + 1, values.push(v), frame, one.scope, fuel);
                lemma_keeps_on(
                    scope,
                    one.scope,
                    do_inits(bindings, from + 1, values.push(v), frame, one.scope, fuel).scope,
                );
            },
            Err(_) => {},
        }
    }
}

/// The steps of a round only add.
pub proof fn lemma_do_steps_keep(
    bindings: Seq<ExprView>,
    from: nat,
    frame: nat,
    scope: ScopeView,
    fuel: nat,
)
    ensures
        keeps(scope, do_steps(bindings, from, frame, scope, fuel).scope),
    decreases fuel, 5nat, bindings, bindings.len() - from,
{
    if from < bindings.len() && is_triple(bindings[from as int]) && is_symbol(
        part(bindings[from as int], 0),
    ) {
        let name = symbol_name(part(bindings[from as int], 0));
        let step = part(bindings[from as int], 2);
        let one = evaluated(step, frame, scope, fuel);
        law_evaluation_only_adds(step, frame, scope, fuel);
        match one.result {
            Ok(v) => {
                lemma_steps_keep(one.scope, frame, name, v);
                match one.scope.assigned(frame, name, v) {
                    Some(after) => {
                        lemma_do_steps_keep(bindings, from + 1, frame, after, fuel);
                        lemma_keeps_on(scope, one.scope, after);
                        lemma_keeps_on(
                            scope,
                            after,
                            do_steps(bindings, from + 1, frame, after, fuel).scope,
                        );
                    },
                    None => {},
                }
            },
            Err(_) => {},
        }
    }
}

/// The rounds of a `do` loop only add.
pub proof fn lemma_do_rounds_keep(
    bindings: Seq<ExprView>,
    test: Seq<ExprView>,
    body: Seq<ExprView>,
    frame: nat,
    scope: ScopeView,
    fuel: nat,
)
    ensures
        keeps(scope, do_rounds(bindings, test, body, frame, scope, fuel).scope),
    decreases fuel, 4nat, Seq::<ExprView>::empty(), 0nat,
{
    if test.len() > 0 && fuel > 0 {
        let left = (fuel - 1) as nat;
        let tested = evaluated(test[0], frame, scope, left);
        law_evaluation_only_adds(test[0], frame, scope, left);
        match tested.result {
            Ok(v) => {
                if is_truthy(v) {
                    if test.len() > 1 {
                        lemma_sequence_keeps(test, 1, None, frame, tested.scope, left);
                        lemma_keeps_on(
                            scope,
                            tested.scope,
                            sequence(test, 1, None, frame, tested.scope, left).scope,
                        );
                    }
                } else {
                    let ran = if body.len() > 0 {
                        sequence(body, 0, None, frame, tested.scope, left)
                    } else {
                        returned(ValueView::Nil, tested.scope)
                    };
                    if body.len() > 0 {
                        lemma_sequence_keeps(body, 0, None, frame, tested.scope, left);
                    }
                    lemma_keeps_on(scope, tested.scope, ran.scope);
                    match ran.result {
                        Ok(_) => {
                            let stepped = do_steps(bindings, 0, frame, ran.scope, left);
                            lemma_do_steps_keep(bindings, 0, frame, ran.scope, left);
                            lemma_keeps_on(scope, ran.scope, stepped.scope);
                            match stepped.result {
                                Ok(_) => {
                                    lemma_do_rounds_keep(
                                        bindings,
                                        test,
                                        body,
                                        frame,
                                        stepped.scope,
                                        left,
                                    );
                                    lemma_keeps_on(
                                        scope,
                                        stepped.scope,
                                        do_rounds(bindings, test, body, frame, stepped.scope, left).scope,
                                    );
                                },
                                Err(_) => {},
                            }
                        },
                        Err(_) => {},
                    }
                }
            },
            Err(_) => {},
        }
    }
}

/// An application of a value only adds.
pub proof fn lemma_applied_keeps(
    func: ValueView,
    args: Seq<ValueView>,
    scope: ScopeView,
    fuel: nat,
)
    ensures
        keeps(scope, applied(func, args, scope, fuel).scope),
    decreases fuel, 3nat, Seq::<ExprView>::empty(), 0nat,
{
    match func {
        ValueView::BuiltIn(primitive) => {
            lemma_native_keeps(primitive, args, scope, fuel);
        },
        ValueView::Procedure(procedure) => {
            lemma_called_keeps(procedure, args, scope, fuel);
        },
        _ => {},
    }
}

/// A call of a procedure only adds.
pub proof fn lemma_called_keeps(
    procedure: ProcedureView,
    args: Seq<ValueView>,
    scope: ScopeView,
    fuel: nat,
)
    ensures
        keeps(scope, called(procedure, args, scope, fuel).scope),
    decreases fuel, 2nat, Seq::<ExprView>::empty(), 0nat,
{
    if procedure.params.len() == args.len() && fuel > 0 {
        let inner = scope.frames.len();
        let nested = scope.nested(procedure.scope);
        let entered = bound(nested, inner, procedure.params, args);
        lemma_steps_keep(scope, procedure.scope, Seq::empty(), ValueView::Nil);
        lemma_bound_keeps(nested, inner, procedure.params, args);
        lemma_keeps_on(scope, nested, entered);
        lemma_sequence_keeps(procedure.body, 0, None, inner, entered, (fuel - 1) as nat);
        lemma_keeps_on(
            scope,
            entered,
            sequence(procedure.body, 0, None, inner, entered, (fuel - 1) as nat).scope,
        );
    }
}

/// A call of a native procedure only adds.
pub proof fn lemma_native_keeps(
    primitive: Primitive,
    args: Seq<ValueView>,
    scope: ScopeView,
    fuel: nat,
)
    ensures
        keeps(scope, native(primitive, args, scope, fuel).scope),
    decreases fuel, 2nat, Seq::<ExprView>::empty(), 0nat,
{
    match primitive {
        Primitive::MapList => {
            if args.len() >= 2 && offender(args.drop_first(), Kind::List) is None {
                lemma_map_rows_keep(
                    args[0],
                    lists_of(args.drop_first()),
                    0,
                    Seq::empty(),
                    scope,
                    fuel,
                );
            }
        },
        Primitive::Apply => {
            if args.len() == 2 && args[1] is List && fuel > 0 {
                lemma_applied_keeps(args[0], args[1]->List_0, scope, (fuel - 1) as nat);
            }
        },
        Primitive::Display => {
            assert(native(primitive, args, scope, fuel) == shown(args, scope));
            if args.len() == 1 {
                lemma_steps_keep(scope, 0, Seq::empty(), args[0]);
            }
        },
        Primitive::ReadFile => {
            assert(native(primitive, args, scope, fuel) == file_read(args, scope));
            if args.len() == 1 && args[0] is String {
                lemma_steps_keep(scope, 0, args[0]->String_0, ValueView::Nil);
            }
        },
        _ => {},
    }
}

/// The applications that `map` makes only add.
pub proof fn lemma_map_rows_keep(
    func: ValueView,
    lists: Seq<Seq<ValueView>>,
    from: nat,
    values: Seq<ValueView>,
    scope: ScopeView,
    fuel: nat,
)
    ensures
        keeps(scope, map_rows(func, lists, from, values, scope, fuel).scope),
    decreases fuel, 0nat, Seq::<ExprView>::empty(), shortest(lists) - from,
{
    if from < shortest(lists) && fuel > 0 {
        let one = applied(func, row(lists, from as int), scope, (fuel - 1) as nat);
        lemma_applied_keeps(func, row(lists, from as int), scope, (fuel - 1) as nat);
        match one.result {
            Ok(v) => {
                lemma_map_rows_keep(func, lists, from + 1, values.push(v), one.scope, fuel);
                lemma_keeps_on(
                    scope,
                    one.scope,
                    map_rows(func, lists, from + 1, values.push(v), one.scope, fuel).scope,
                );
            },
            Err(_) => {},
        }
    }
}

} // verus!
