//! Laws of the evaluator: what holds of every expression, scope and fuel.

use crate::builtin::{
    divided, float_quotients, floats, int_quotient, ints, is_kind, offender, Kind,
};
use crate::eval::ErrorView;
use crate::float::is_zero;
use crate::parser::ExprView;
use crate::scope::ScopeView;
use crate::semantics::{
    applied, arguments, bound, called, define_variable_form, evaluated, failed, invoked,
    is_symbol, returned, sequence, symbol_name,
};
use crate::special_forms::DefineBehavior;
use crate::tokenizer::TokenView;
use crate::value::{ProcedureView, ValueView};
use vstd::prelude::*;

verus! {

/// The value that a literal token stands for.
pub open spec fn literal_value(token: TokenView) -> Option<ValueView> {
    match token {
        TokenView::Int(i) => Some(ValueView::Int(i)),
        TokenView::Float(f) => Some(ValueView::Float(f)),
        TokenView::StringLiteral(s) => Some(ValueView::String(s)),
        TokenView::Bool(b) => Some(ValueView::Bool(b)),
        _ => None,
    }
}

/// A literal evaluates to its value in every frame of every scope and with
/// any fuel, and leaves the scope as it is.
pub proof fn law_literal_is_its_value(token: TokenView, frame: nat, scope: ScopeView, fuel: nat)
    requires
        literal_value(token) is Some,
    ensures
        evaluated(ExprView::Token(token), frame, scope, fuel) == returned(
            literal_value(token)->0,
            scope,
        ),
{
}

/// Whether the way outward from `from` reaches `target` through frames that
/// do not bind `name`: `target` is `from` itself or a frame around it, and
/// no frame before `target` on the way shadows the name.
pub open spec fn unshadowed(scope: ScopeView, from: nat, target: nat, name: Seq<char>) -> bool
    decreases from,
{
    from == target || (scope.has_frame(from) && !scope.frames[from as int].vars.contains_key(name)
        && match scope.parent(from) {
        Some(p) => unshadowed(scope, p, target, name),
        None => false,
    })
}

/// A name that a frame binds is seen, with that binding, from the frame
/// itself and from every frame inside it that no binding of the name on the
/// way shadows. A frame inside another is the younger of the two.
pub proof fn law_binding_is_visible_inside(
    scope: ScopeView,
    from: nat,
    target: nat,
    name: Seq<char>,
)
    requires
        scope.has_frame(target),
        scope.frames[target as int].vars.contains_key(name),
        unshadowed(scope, from, target, name),
    ensures
        scope.holder(from, name) == Some(target),
        scope.lookup(from, name) == Some(scope.frames[target as int].vars[name]),
        from != target ==> target < from,
    decreases from,
{
    if from != target {
        law_binding_is_visible_inside(scope, scope.parent(from)->0, target, name);
    }
}

/// A definition in a frame changes nothing that is seen from an older
/// frame: a frame inside another is the younger of the two, so a name
/// defined again inside leaves the binding outside as it was.
pub proof fn law_shadowing_is_local(
    scope: ScopeView,
    inner: nat,
    name: Seq<char>,
    value: ValueView,
    outer: nat,
    seen: Seq<char>,
)
    requires
        outer < inner,
    ensures
        scope.defined(inner, name, value).holder(outer, seen) == scope.holder(outer, seen),
        scope.defined(inner, name, value).lookup(outer, seen) == scope.lookup(outer, seen),
        scope.has_frame(outer) ==> scope.defined(inner, name, value).frames[outer as int]
            == scope.frames[outer as int],
    decreases outer,
{
    let after = scope.defined(inner, name, value);
    if scope.has_frame(outer) && !scope.frames[outer as int].vars.contains_key(seen) {
        match scope.parent(outer) {
            Some(p) => {
                law_shadowing_is_local(scope, inner, name, value, p, seen);
            },
            None => {},
        }
    }
}

/// The frame around a frame is the older of the two.
pub proof fn law_parent_is_older(scope: ScopeView, frame: nat)
    ensures
        scope.parent(frame) matches Some(p) ==> p < frame,
{
}

/// An assignment binds no name that was not bound: where no frame on the
/// way outward binds the name there is no assignment, and where one does,
/// every frame binds the same names after it as before.
pub proof fn law_assignment_creates_no_binding(
    scope: ScopeView,
    frame: nat,
    name: Seq<char>,
    value: ValueView,
)
    ensures
        scope.lookup(frame, name) is None ==> scope.assigned(frame, name, value) is None,
        scope.assigned(frame, name, value) matches Some(after) ==> {
            &&& after.frames.len() == scope.frames.len()
            &&& forall|i: int|
                0 <= i < scope.frames.len() ==> (#[trigger] after.frames[i]).vars.dom()
                    == scope.frames[i].vars.dom() && after.frames[i].outer
                    == scope.frames[i].outer
            &&& after.lookup(frame, name) == Some(value)
        },
{
    match scope.holder(frame, name) {
        Some(h) => {
            lemma_holder_binds(scope, frame, name);
            let after = scope.defined(h, name, value);
            assert forall|i: int| 0 <= i < scope.frames.len() implies (#[trigger] after.frames[i]).vars.dom()
                == scope.frames[i].vars.dom() && after.frames[i].outer
                == scope.frames[i].outer by {
                if i == h {
                    assert(scope.frames[i].vars.insert(name, value).dom()
                        =~= scope.frames[i].vars.dom());
                }
            }
            lemma_holder_after_rebinding(scope, frame, name, value, h);
        },
        None => {},
    }
}

/// The frame that holds a name is a frame and binds the name.
pub proof fn lemma_holder_binds(scope: ScopeView, frame: nat, name: Seq<char>)
    ensures
        scope.holder(frame, name) matches Some(h) ==> h <= frame && scope.has_frame(h)
            && scope.frames[h as int].vars.contains_key(name),
    decreases frame,
{
    if scope.has_frame(frame) && !scope.frames[frame as int].vars.contains_key(name) {
        match scope.parent(frame) {
            Some(p) => {
                lemma_holder_binds(scope, p, name);
            },
            None => {},
        }
    }
}

/// Rebinding a name in the frame that holds it leaves that frame the
/// holder.
proof fn lemma_holder_after_rebinding(
    scope: ScopeView,
    frame: nat,
    name: Seq<char>,
    value: ValueView,
    h: nat,
)
    requires
        scope.holder(frame, name) == Some(h),
    ensures
        scope.defined(h, name, value).holder(frame, name) == Some(h),
        scope.defined(h, name, value).lookup(frame, name) == Some(value),
    decreases frame,
{
    lemma_holder_binds(scope, frame, name);
    if scope.has_frame(frame) && !scope.frames[frame as int].vars.contains_key(name) {
        match scope.parent(frame) {
            Some(p) => {
                lemma_holder_after_rebinding(scope, p, name, value, h);
            },
            None => {},
        }
    }
}

/// `(set! n e)` fails with `UnboundVariable(n)` where no frame from the
/// frame at hand outward binds `n` once `e` has its value, and it leaves
/// the scope as the evaluation of `e` left it.
pub proof fn law_set_of_unbound_fails(
    exprs: Seq<ExprView>,
    frame: nat,
    scope: ScopeView,
    fuel: nat,
)
    requires
        exprs.len() >= 2,
        is_symbol(exprs[0]),
        evaluated(exprs[1], frame, scope, fuel).result is Ok,
        evaluated(exprs[1], frame, scope, fuel).scope.lookup(frame, symbol_name(exprs[0])) is None,
    ensures
        define_variable_form(exprs, DefineBehavior::SetValueOfExisting, frame, scope, fuel)
            == failed(
            ErrorView::UnboundVariable(symbol_name(exprs[0])),
            evaluated(exprs[1], frame, scope, fuel).scope,
        ),
{
}

/// A procedure sees the frame that it captured as that frame is when the
/// procedure is called, not as it was when the procedure was made: a
/// procedure whose body is the one symbol `name` gives what `name` means in
/// the captured frame at the time of the call.
pub proof fn law_call_reads_scope_at_call_time(
    procedure: ProcedureView,
    name: Seq<char>,
    scope: ScopeView,
    fuel: nat,
)
    requires
        procedure.params.len() == 0,
        procedure.body == seq![ExprView::Token(TokenView::Symbol(name))],
        scope.has_frame(procedure.scope),
        fuel > 0,
    ensures
        called(procedure, Seq::empty(), scope, fuel).result == match scope.lookup(
            procedure.scope,
            name,
        ) {
            Some(v) => Ok::<ValueView, ErrorView>(v),
            None => Err::<ValueView, ErrorView>(ErrorView::UnboundVariable(name)),
        },
{
    let inner = scope.frames.len();
    let entered = scope.nested(procedure.scope);
    assert(bound(entered, inner, procedure.params, Seq::empty()) == entered);
    lemma_nested_sees_parent(scope, procedure.scope, name);
    let body = procedure.body;
    assert(body[0] == ExprView::Token(TokenView::Symbol(name)));
    let left = (fuel - 1) as nat;
    let first = evaluated(body[0], inner, entered, left);
    match scope.lookup(procedure.scope, name) {
        Some(v) => {
            assert(first == returned(v, entered));
            assert(sequence(body, 1, Some(v), inner, entered, left) == returned(v, entered));
            assert(sequence(body, 0, None, inner, entered, left) == returned(v, entered));
        },
        None => {
            assert(first == failed(ErrorView::UnboundVariable(name), entered));
            assert(sequence(body, 0, None, inner, entered, left) == first);
        },
    }
}

/// An assignment that is made after a procedure was made is seen by a
/// later call: a procedure whose body is the one symbol `name` gives, after
/// an assignment to `name` from the captured frame, the assigned value.
pub proof fn law_call_sees_later_assignment(
    procedure: ProcedureView,
    name: Seq<char>,
    value: ValueView,
    scope: ScopeView,
    fuel: nat,
)
    requires
        procedure.params.len() == 0,
        procedure.body == seq![ExprView::Token(TokenView::Symbol(name))],
        scope.assigned(procedure.scope, name, value) is Some,
        fuel > 0,
    ensures
        called(
            procedure,
            Seq::empty(),
            scope.assigned(procedure.scope, name, value)->0,
            fuel,
        ).result == Ok::<ValueView, ErrorView>(value),
{
    law_assignment_creates_no_binding(scope, procedure.scope, name, value);
    lemma_holder_binds(scope, procedure.scope, name);
    law_call_reads_scope_at_call_time(
        procedure,
        name,
        scope.assigned(procedure.scope, name, value)->0,
        fuel,
    );
}

/// A definition that is made in the captured frame after a procedure was
/// made is seen by a later call, as a procedure that calls itself by its
/// name needs it.
pub proof fn law_call_sees_later_definition(
    procedure: ProcedureView,
    name: Seq<char>,
    value: ValueView,
    scope: ScopeView,
    fuel: nat,
)
    requires
        procedure.params.len() == 0,
        procedure.body == seq![ExprView::Token(TokenView::Symbol(name))],
        scope.has_frame(procedure.scope),
        fuel > 0,
    ensures
        called(
            procedure,
            Seq::empty(),
            scope.defined(procedure.scope, name, value),
            fuel,
        ).result == Ok::<ValueView, ErrorView>(value),
{
    let after = scope.defined(procedure.scope, name, value);
    assert(after.frames[procedure.scope as int].vars.contains_key(name));
    assert(after.holder(procedure.scope, name) == Some(procedure.scope));
    law_call_reads_scope_at_call_time(procedure, name, after, fuel);
}

/// From a new frame, a name means what it means in the frame around it.
pub proof fn lemma_nested_sees_parent(scope: ScopeView, parent: nat, name: Seq<char>)
    requires
        scope.has_frame(parent),
    ensures
        scope.nested(parent).lookup(scope.frames.len(), name) == scope.lookup(parent, name),
{
    let inner = scope.nested(parent);
    lemma_older_frames_unchanged(scope, parent, parent, name);
    assert(inner.parent(scope.frames.len()) == Some(parent));
    assert(!inner.frames[scope.frames.len() as int].vars.contains_key(name));
}

/// A new frame changes nothing that is seen from the frames that were
/// there.
pub proof fn lemma_older_frames_unchanged(
    scope: ScopeView,
    parent: nat,
    from: nat,
    name: Seq<char>,
)
    requires
        scope.has_frame(from),
    ensures
        scope.nested(parent).holder(from, name) == scope.holder(from, name),
        scope.nested(parent).lookup(from, name) == scope.lookup(from, name),
    decreases from,
{
    let inner = scope.nested(parent);
    assert(inner.frames[from as int] == scope.frames[from as int]);
    if !scope.frames[from as int].vars.contains_key(name) {
        match scope.parent(from) {
            Some(p) => {
                lemma_older_frames_unchanged(scope, parent, p, name);
            },
            None => {},
        }
    }
}

/// A call that passes another number of arguments than the procedure has
/// parameters fails with `WrongNumberOfAgumentsPassed`, whatever the
/// arguments are, and leaves the scope as it is.
pub proof fn law_arity_mismatch_fails(
    procedure: ProcedureView,
    args: Seq<ValueView>,
    scope: ScopeView,
    fuel: nat,
)
    requires
        procedure.params.len() != args.len(),
    ensures
        called(procedure, args, scope, fuel) == failed(
            ErrorView::WrongNumberOfAgumentsPassed,
            scope,
        ),
        applied(ValueView::Procedure(procedure), args, scope, fuel) == failed(
            ErrorView::WrongNumberOfAgumentsPassed,
            scope,
        ),
{
}

/// Arguments that are evaluated without an error are as many as the
/// expressions that gave them.
pub proof fn lemma_arguments_count(
    exprs: Seq<ExprView>,
    from: nat,
    values: Seq<ValueView>,
    frame: nat,
    scope: ScopeView,
    fuel: nat,
)
    requires
        from <= exprs.len(),
    ensures
        arguments(exprs, from, values, frame, scope, fuel).result matches Ok(all) ==> all.len()
            == values.len() + exprs.len() - from,
    decreases exprs.len() - from,
{
    if from < exprs.len() {
        let one = evaluated(exprs[from as int], frame, scope, fuel);
        match one.result {
            Ok(v) => {
                lemma_arguments_count(exprs, from + 1, values.push(v), frame, one.scope, fuel);
            },
            Err(_) => {},
        }
    }
}

/// An application of a procedure to another number of operands than it has
/// parameters fails with `WrongNumberOfAgumentsPassed` once the operands
/// are evaluated, whatever their values are and whatever the fuel is.
pub proof fn law_call_site_arity_mismatch_fails(
    procedure: ProcedureView,
    exprs: Seq<ExprView>,
    frame: nat,
    scope: ScopeView,
    fuel: nat,
)
    requires
        procedure.params.len() != exprs.len(),
        arguments(exprs, 0, Seq::empty(), frame, scope, fuel).result is Ok,
    ensures
        invoked(ValueView::Procedure(procedure), exprs, frame, scope, fuel) == failed(
            ErrorView::WrongNumberOfAgumentsPassed,
            arguments(exprs, 0, Seq::empty(), frame, scope, fuel).scope,
        ),
{
    lemma_arguments_count(exprs, 0, Seq::empty(), frame, scope, fuel);
}

/// Where one of the divisors is zero, the division of integers has no
/// result.
pub proof fn lemma_int_quotient_by_zero(acc: i64, xs: Seq<i64>, at: int)
    requires
        0 <= at < xs.len(),
        xs[at] == 0,
    ensures
        int_quotient(acc, xs) is None,
    decreases xs.len(),
{
    if at > 0 {
        match acc.checked_div(xs[0]) {
            Some(q) => {
                lemma_int_quotient_by_zero(q, xs.drop_first(), at - 1);
            },
            None => {},
        }
    }
}

/// Where one of the divisors is a zero, the division of floats has no
/// result.
pub proof fn lemma_float_quotient_by_zero(acc: u64, xs: Seq<u64>, at: int)
    requires
        0 <= at < xs.len(),
        is_zero(xs[at]),
    ensures
        float_quotients(acc, xs) is None,
    decreases xs.len(),
{
    if at > 0 && !is_zero(xs[0]) {
        lemma_float_quotient_by_zero(
            crate::float::float_quotient(acc, xs[0]),
            xs.drop_first(),
            at - 1,
        );
    }
}

/// Whether `v` is the integer 0 or a float zero of either sign.
pub open spec fn is_zero_number(v: ValueView) -> bool {
    match v {
        ValueView::Int(i) => i == 0,
        ValueView::Float(f) => is_zero(f),
        _ => false,
    }
}

/// `/` fails with `DivideByZero` where it divides by zero: of one number
/// that is zero, and of more numbers of one kind where one behind the first
/// is zero.
pub proof fn law_division_by_zero_fails(args: Seq<ValueView>, at: int)
    requires
        args.len() > 0,
        offender(args, Kind::Int) is None || offender(args, Kind::Float) is None,
        0 <= at < args.len(),
        is_zero_number(args[at]),
        args.len() == 1 || at > 0,
    ensures
        divided(args) == Err::<ValueView, ErrorView>(ErrorView::DivideByZero),
{
    crate::builtin::lemma_no_offender(args, Kind::Int);
    crate::builtin::lemma_no_offender(args, Kind::Float);
    assert(is_kind(args[0], Kind::Int) || is_kind(args[0], Kind::Float));
    assert(is_kind(args[at], Kind::Int) || is_kind(args[at], Kind::Float));
    match args[0] {
        ValueView::Int(first) => {
            assert(offender(args, Kind::Int) is None);
            assert(is_kind(args[at], Kind::Int));
            if args.len() == 1 {
                lemma_int_quotient_by_zero(1, ints(args), 0);
            } else {
                assert(ints(args).drop_first()[at - 1] == ints(args)[at]);
                lemma_int_quotient_by_zero(first, ints(args).drop_first(), at - 1);
            }
        },
        ValueView::Float(first) => {
            assert(offender(args, Kind::Float) is None);
            assert(is_kind(args[at], Kind::Float));
            if args.len() == 1 {
                lemma_float_quotient_by_zero(crate::float::ONE, floats(args), 0);
            } else {
                assert(floats(args).drop_first()[at - 1] == floats(args)[at]);
                lemma_float_quotient_by_zero(first, floats(args).drop_first(), at - 1);
            }
        },
        _ => {},
    }
}

} // verus!
