//! The special forms and the application of procedures.

use crate::eval::{answer, arguments_of, evaluate, outcome, ErrorView, RuntimeError};
use crate::parser::{trees, Expr, ExprView};
use crate::scope::Scope;
use crate::semantics::{
    all_symbols, applied, arguments, begin_form, bound, bound_names, define_form,
    define_procedure_form, define_variable_form, do_form, do_inits, do_rounds, do_steps,
    evaluated, if_form, invoke_lambda_form, invoke_named_form, invoked, is_symbol, is_triple,
    lambda_form, part, sequence, symbol_name, symbol_names,
};
use crate::tokenizer::Token;
use crate::value::{models, share, texts, Procedure, Value, ValueView};
use std::rc::Rc;
use vstd::prelude::*;

verus! {

/// What a binding form does where the name is already bound.
#[derive(Debug, Clone, Copy, PartialEq, Eq, Structural)]
pub enum DefineBehavior {
    /// Bind in the frame at hand, over any binding it has.
    DefineNew,
    /// Rebind in the nearest frame that binds the name; fail where none does.
    SetValueOfExisting,
}

/// Applies the callable `func` to `params`.
pub fn func_call(func: &Value, params: Vec<Value>, scope: &mut Scope, fuel: usize) -> (r: Result<
    Value,
    RuntimeError,
>)
    ensures
        outcome(r, *final(scope)) == applied(func@, models(params@), old(scope)@, fuel as nat),
    decreases fuel, 3nat, Seq::<ExprView>::empty(), 0nat,
{
    match func {
        Value::BuiltIn(native) => native.call(params, scope, fuel),
        Value::Procedure(procedure) => procedure.call(params, scope, fuel),
        _ => Err(RuntimeError::NotProcedure),
    }
}

/// Evaluates `exprs[from..]` one after another and gives the value of the
/// last one.
pub fn evaluate_list(
    exprs: &[Rc<Expr>],
    from: usize,
    scope: &mut Scope,
    frame: usize,
    fuel: usize,
) -> (r: Result<Value, RuntimeError>)
    ensures
        outcome(r, *final(scope)) == sequence(
            trees(exprs@),
            from as nat,
            None,
            frame as nat,
            old(scope)@,
            fuel as nat,
        ),
    decreases fuel, 5nat, trees(exprs@), 0nat,
{
    let ghost all = trees(exprs@);
    let ghost goal = sequence(all, from as nat, None, frame as nat, old(scope)@, fuel as nat);
    let mut last: Option<Value> = None;
    let mut i: usize = from;
    while i < exprs.len()
        invariant
            all == trees(exprs@),
            from <= i,
            goal == sequence(all, from as nat, None, frame as nat, old(scope)@, fuel as nat),
            goal == sequence(
                all,
                i as nat,
                match last {
                    Some(v) => Some(v@),
                    None => None,
                },
                frame as nat,
                scope@,
                fuel as nat,
            ),
        decreases exprs.len() - i,
    {
        assert(all[i as int] == exprs[i as int]@);
        match evaluate(&exprs[i], scope, frame, fuel) {
            Ok(v) => {
                last = Some(v);
            },
            Err(e) => {
                return Err(e);
            },
        }
        i += 1;
    }
    match last {
        Some(v) => Ok(v),
        None => Err(RuntimeError::IllFormedSpecialForm),
    }
}

/// `(begin e1 e2 ..)`: evaluates the operands in order and gives the value
/// of the last.
pub fn begin(exprs: &[Rc<Expr>], scope: &mut Scope, frame: usize, fuel: usize) -> (r: Result<
    Value,
    RuntimeError,
>)
    ensures
        outcome(r, *final(scope)) == begin_form(
            trees(exprs@),
            frame as nat,
            old(scope)@,
            fuel as nat,
        ),
    decreases fuel, 5nat, trees(exprs@), 1nat,
{
    evaluate_list(exprs, 0, scope, frame, fuel)
}

/// `(if cond then else)`: evaluates `cond`, then the one branch that its
/// truth picks.
pub fn if_statement(exprs: &[Rc<Expr>], scope: &mut Scope, frame: usize, fuel: usize) -> (r:
    Result<Value, RuntimeError>)
    ensures
        outcome(r, *final(scope)) == if_form(trees(exprs@), frame as nat, old(scope)@, fuel as nat),
    decreases fuel, 5nat, trees(exprs@), 0nat,
{
    if exprs.len() != 3 {
        return Err(RuntimeError::IllFormedSpecialForm);
    }
    let cond = evaluate(&exprs[0], scope, frame, fuel)?.truthy();
    if cond {
        evaluate(&exprs[1], scope, frame, fuel)
    } else {
        evaluate(&exprs[2], scope, frame, fuel)
    }
}

/// The names of `params`, which must all be symbols.
fn extract_symbols(params: &[Rc<Expr>]) -> (r: Result<Vec<String>, RuntimeError>)
    ensures
        match r {
            Ok(names) => all_symbols(trees(params@)) && names@.len() == params@.len() && texts(
                names@,
            ) == symbol_names(trees(params@)),
            Err(e) => !all_symbols(trees(params@)) && e@ == ErrorView::ParameterMustBeIdentifier,
        },
{
    let ghost all = trees(params@);
    let mut names: Vec<String> = Vec::new();
    let mut i: usize = 0;
    while i < params.len()
        invariant
            all == trees(params@),
            i <= params.len(),
            names@.len() == i,
            forall|j: int| 0 <= j < i ==> is_symbol(#[trigger] all[j]),
            forall|j: int| 0 <= j < i ==> (#[trigger] names@[j])@ == symbol_name(all[j]),
        decreases params.len() - i,
    {
        assert(all[i as int] == params[i as int]@);
        match &*params[i] {
            Expr::Token(Token::Symbol(name)) => {
                names.push(name.clone());
            },
            _ => {
                assert(!is_symbol(all[i as int]));
                return Err(RuntimeError::ParameterMustBeIdentifier);
            },
        }
        i += 1;
    }
    assert(texts(names@) =~= symbol_names(all));
    Ok(names)
}

/// Pointers to `exprs[from..]`.
fn share_from(exprs: &[Rc<Expr>], from: usize) -> (r: Vec<Rc<Expr>>)
    requires
        from <= exprs.len(),
    ensures
        trees(r@) == trees(exprs@).skip(from as int),
{
    let mut out: Vec<Rc<Expr>> = Vec::new();
    let mut i: usize = from;
    while i < exprs.len()
        invariant
            from <= i <= exprs.len(),
            out@ == exprs@.subrange(from as int, i as int),
        decreases exprs.len() - i,
    {
        out.push(share(&exprs[i]));
        assert(out@ =~= exprs@.subrange(from as int, i + 1));
        i += 1;
    }
    assert(trees(out@) =~= trees(exprs@).skip(from as int));
    out
}

/// `(lambda (p1 p2 ..) body..)`: makes a procedure that captures `frame`.
pub fn lambda(exprs: &[Rc<Expr>], frame: usize) -> (r: Result<Value, RuntimeError>)
    ensures
        answer(r) == lambda_form(trees(exprs@), frame as nat),
{
    if exprs.len() < 2 {
        return Err(RuntimeError::IllFormedSpecialForm);
    }
    assert(trees(exprs@)[0] == exprs[0]@);
    match &*exprs[0] {
        Expr::List(params) => {
            assert(exprs[0]@->List_0 =~= trees(params@));
            let param_names = extract_symbols(params.as_slice())?;
            let body = share_from(exprs, 1);
            Ok(Value::Procedure(Procedure::new(param_names, body, frame)))
        },
        _ => Err(RuntimeError::IllFormedSpecialForm),
    }
}

/// `(define sym expr)` and `(set! sym expr)`: evaluates `expr`, then binds
/// `sym` as `behavior` says.
pub fn define_variable(
    exprs: &[Rc<Expr>],
    scope: &mut Scope,
    frame: usize,
    behavior: DefineBehavior,
    fuel: usize,
) -> (r: Result<Value, RuntimeError>)
    ensures
        outcome(r, *final(scope)) == define_variable_form(
            trees(exprs@),
            behavior,
            frame as nat,
            old(scope)@,
            fuel as nat,
        ),
    decreases fuel, 5nat, trees(exprs@), 0nat,
{
    if exprs.len() == 0 {
        return Err(RuntimeError::IllFormedSpecialForm);
    }
    assert(trees(exprs@)[0] == exprs[0]@);
    match &*exprs[0] {
        Expr::Token(Token::Symbol(symbol)) => {
            if exprs.len() < 2 {
                return Err(RuntimeError::IllFormedSpecialForm);
            }
            let rhs_val = evaluate(&exprs[1], scope, frame, fuel)?;
            match behavior {
                DefineBehavior::SetValueOfExisting => match scope.set(
                    frame,
                    symbol.as_str(),
                    rhs_val,
                ) {
                    Ok(_) => Ok(Value::Nil),
                    Err(_) => Err(RuntimeError::UnboundVariable(symbol.clone())),
                },
                DefineBehavior::DefineNew => {
                    scope.define(frame, symbol.as_str(), rhs_val);
                    Ok(Value::Nil)
                },
            }
        },
        _ => Err(RuntimeError::IdentifierExpected),
    }
}

/// `(define (name p1 p2 ..) body..)`: binds `name` to a procedure that
/// captures `frame`.
fn define_procedure(exprs: &[Rc<Expr>], scope: &mut Scope, frame: usize) -> (r: Result<
    Value,
    RuntimeError,
>)
    ensures
        outcome(r, *final(scope)) == define_procedure_form(
            trees(exprs@),
            frame as nat,
            old(scope)@,
        ),
{
    if exprs.len() == 0 {
        return Err(RuntimeError::IllFormedSpecialForm);
    }
    assert(trees(exprs@)[0] == exprs[0]@);
    match &*exprs[0] {
        Expr::List(header) => {
            assert(exprs[0]@->List_0 =~= trees(header@));
            let symbol_and_params = extract_symbols(header.as_slice())?;
            if symbol_and_params.len() == 0 {
                return Err(RuntimeError::IdentifierExpected);
            }
            let mut param_names: Vec<String> = Vec::new();
            let mut i: usize = 1;
            while i < symbol_and_params.len()
                invariant
                    1 <= i <= symbol_and_params.len(),
                    param_names@ == symbol_and_params@.subrange(1, i as int),
                decreases symbol_and_params.len() - i,
            {
                param_names.push(symbol_and_params[i].clone());
                assert(param_names@ =~= symbol_and_params@.subrange(1, i + 1));
                i += 1;
            }
            if exprs.len() < 2 {
                return Err(RuntimeError::IllFormedSpecialForm);
            }
            let body = share_from(exprs, 1);
            proof {
                let names = texts(symbol_and_params@);
                let rest = symbol_names(trees(header@).skip(1));
                assert(texts(param_names@).len() == rest.len());
                assert forall|j: int| 0 <= j < rest.len() implies texts(param_names@)[j]
                    == rest[j] by {
                    assert(param_names@[j] == symbol_and_params@[j + 1]);
                    assert(names[j + 1] == symbol_names(trees(header@))[j + 1]);
                }
                assert(texts(param_names@) =~= rest);
                assert(names[0] == symbol_names(trees(header@))[0]);
            }
            let procedure = Value::Procedure(Procedure::new(param_names, body, frame));
            scope.define(frame, symbol_and_params[0].as_str(), procedure);
            Ok(Value::Nil)
        },
        _ => Err(RuntimeError::IllFormedSpecialForm),
    }
}

/// `(define ..)`: of a variable where the first operand is a token, of a
/// procedure where it is a list.
pub fn define(exprs: &[Rc<Expr>], scope: &mut Scope, frame: usize, fuel: usize) -> (r: Result<
    Value,
    RuntimeError,
>)
    ensures
        outcome(r, *final(scope)) == define_form(
            trees(exprs@),
            frame as nat,
            old(scope)@,
            fuel as nat,
        ),
    decreases fuel, 5nat, trees(exprs@), 1nat,
{
    if exprs.len() == 0 {
        return Err(RuntimeError::IllFormedSpecialForm);
    }
    assert(trees(exprs@)[0] == exprs[0]@);
    match &*exprs[0] {
        Expr::Token(_) => define_variable(exprs, scope, frame, DefineBehavior::DefineNew, fuel),
        Expr::List(_) => define_procedure(exprs, scope, frame),
    }
}

/// The values of `exprs`, evaluated from left to right.
pub fn expr2params(exprs: &[Rc<Expr>], scope: &mut Scope, frame: usize, fuel: usize) -> (r: Result<
    Vec<Value>,
    RuntimeError,
>)
    ensures
        arguments_of(r, *final(scope)) == arguments(
            trees(exprs@),
            0,
            Seq::empty(),
            frame as nat,
            old(scope)@,
            fuel as nat,
        ),
    decreases fuel, 5nat, trees(exprs@), 0nat,
{
    let ghost all = trees(exprs@);
    let ghost goal = arguments(all, 0, Seq::empty(), frame as nat, old(scope)@, fuel as nat);
    let mut values: Vec<Value> = Vec::new();
    let mut i: usize = 0;
    assert(models(values@) =~= Seq::<ValueView>::empty());
    while i < exprs.len()
        invariant
            all == trees(exprs@),
            goal == arguments(all, 0, Seq::empty(), frame as nat, old(scope)@, fuel as nat),
            goal == arguments(all, i as nat, models(values@), frame as nat, scope@, fuel as nat),
        decreases exprs.len() - i,
    {
        assert(all[i as int] == exprs[i as int]@);
        match evaluate(&exprs[i], scope, frame, fuel) {
            Ok(v) => {
                let ghost before = models(values@);
                values.push(v);
                assert(models(values@) =~= before.push(v@));
            },
            Err(e) => {
                return Err(e);
            },
        }
        i += 1;
    }
    Ok(values)
}

/// Applies `func` to the values of `exprs`.
pub fn invoke(func: &Value, exprs: &[Rc<Expr>], scope: &mut Scope, frame: usize, fuel: usize) -> (r:
    Result<Value, RuntimeError>)
    ensures
        outcome(r, *final(scope)) == invoked(
            func@,
            trees(exprs@),
            frame as nat,
            old(scope)@,
            fuel as nat,
        ),
    decreases fuel, 5nat, trees(exprs@), 1nat,
{
    let params = expr2params(exprs, scope, frame, fuel)?;
    func_call(func, params, scope, fuel)
}

/// `(symbol e1 e2 ..)`: applies what `symbol` is bound to.
pub fn invoke_named_function(
    exprs: &[Rc<Expr>],
    scope: &mut Scope,
    frame: usize,
    symbol: &str,
    fuel: usize,
) -> (r: Result<Value, RuntimeError>)
    ensures
        outcome(r, *final(scope)) == invoke_named_form(
            trees(exprs@),
            symbol@,
            frame as nat,
            old(scope)@,
            fuel as nat,
        ),
    decreases fuel, 5nat, trees(exprs@), 2nat,
{
    match scope.get(frame, symbol) {
        Some(func) => invoke(&func, exprs, scope, frame, fuel),
        None => Err(RuntimeError::UnboundVariable(symbol.to_owned())),
    }
}

/// `((head) e1 e2 ..)`: applies what `body` evaluates to.
pub fn invoke_lambda(
    body: &Rc<Expr>,
    params: &[Rc<Expr>],
    scope: &mut Scope,
    frame: usize,
    fuel: usize,
) -> (r: Result<Value, RuntimeError>)
    ensures
        outcome(r, *final(scope)) == invoke_lambda_form(
            body@,
            trees(params@),
            frame as nat,
            old(scope)@,
            fuel as nat,
        ),
{
    let func = evaluate(body, scope, frame, fuel)?;
    invoke(&func, params, scope, frame, fuel)
}


/// Binds each of `names`, in order, to the value at the same place, in
/// `frame` itself. Where the two differ in number, nothing is bound.
pub fn bind_all(scope: &mut Scope, frame: usize, names: &Vec<String>, values: Vec<Value>)
    ensures
        final(scope)@ == bound(old(scope)@, frame as nat, texts(names@), models(values@)),
{
    if names.len() != values.len() {
        return ;
    }
    let ghost all_names = texts(names@);
    let ghost all_values = models(values@);
    let mut i: usize = 0;
    assert(all_names.take(0).len() == 0);
    for value in it: values
        invariant
            i == it.index(),
            it.seq() == values@,
            all_names == texts(names@),
            all_values == models(values@),
            names.len() == values.len(),
            scope@ == bound(
                old(scope)@,
                frame as nat,
                all_names.take(i as int),
                all_values.take(i as int),
            ),
    {
        proof {
            assert(all_names.take(i + 1).drop_last() =~= all_names.take(i as int));
            assert(all_values.take(i + 1).drop_last() =~= all_values.take(i as int));
            assert(all_names.take(i + 1).last() == names[i as int]@);
            assert(all_values.take(i + 1).last() == value@);
        }
        scope.define(frame, names[i].as_str(), value);
        i += 1;
    }
    assert(all_names.take(i as int) =~= all_names);
    assert(all_values.take(i as int) =~= all_values);
}

/// Where the `init`s give values, there is one for each binding, and each
/// binding starts with a symbol.
pub proof fn lemma_do_inits_ok(
    bindings: Seq<ExprView>,
    from: nat,
    values: Seq<ValueView>,
    frame: nat,
    scope: crate::scope::ScopeView,
    fuel: nat,
)
    requires
        from <= bindings.len(),
        do_inits(bindings, from, values, frame, scope, fuel).result is Ok,
    ensures
        do_inits(bindings, from, values, frame, scope, fuel).result->Ok_0.len() == values.len()
            + bindings.len() - from,
        forall|i: int|
            from <= i < bindings.len() ==> is_triple(#[trigger] bindings[i]) && is_symbol(
                part(bindings[i], 0),
            ),
    decreases bindings.len() - from,
{
    if from < bindings.len() {
        let one = evaluated(part(bindings[from as int], 1), frame, scope, fuel);
        lemma_do_inits_ok(bindings, from + 1, values.push(one.result->Ok_0), frame, one.scope, fuel);
    }
}

/// The values of the `init`s of `bindings`, evaluated in `frame` from left
/// to right.
fn do_initials(bindings: &[Rc<Expr>], scope: &mut Scope, frame: usize, fuel: usize) -> (r: Result<
    Vec<Value>,
    RuntimeError,
>)
    ensures
        arguments_of(r, *final(scope)) == do_inits(
            trees(bindings@),
            0,
            Seq::empty(),
            frame as nat,
            old(scope)@,
            fuel as nat,
        ),
    decreases fuel, 5nat, trees(bindings@), 0nat,
{
    let ghost all = trees(bindings@);
    let ghost goal = do_inits(all, 0, Seq::empty(), frame as nat, old(scope)@, fuel as nat);
    let mut values: Vec<Value> = Vec::new();
    let mut i: usize = 0;
    assert(models(values@) =~= Seq::<ValueView>::empty());
    while i < bindings.len()
        invariant
            all == trees(bindings@),
            goal == do_inits(all, 0, Seq::empty(), frame as nat, old(scope)@, fuel as nat),
            goal == do_inits(all, i as nat, models(values@), frame as nat, scope@, fuel as nat),
        decreases bindings.len() - i,
    {
        assert(all[i as int] == bindings[i as int]@);
        let parts = match &*bindings[i] {
            Expr::List(parts) => parts,
            _ => {
                return Err(RuntimeError::IllFormedSpecialForm);
            },
        };
        assert(all[i as int]->List_0 =~= trees(parts@));
        if parts.len() != 3 {
            return Err(RuntimeError::IllFormedSpecialForm);
        }
        assert(part(all[i as int], 0) == parts[0]@);
        assert(part(all[i as int], 1) == parts[1]@);
        match &*parts[0] {
            Expr::Token(Token::Symbol(_)) => {},
            _ => {
                return Err(RuntimeError::IdentifierExpected);
            },
        }
        match evaluate(&parts[1], scope, frame, fuel) {
            Ok(v) => {
                let ghost before = models(values@);
                values.push(v);
                assert(models(values@) =~= before.push(v@));
            },
            Err(e) => {
                return Err(e);
            },
        }
        i += 1;
    }
    Ok(values)
}

/// The names that `bindings` bind, given that each is a triple that starts
/// with a symbol.
fn binding_names(bindings: &[Rc<Expr>]) -> (r: Vec<String>)
    ensures
        r@.len() == bindings@.len(),
        forall|i: int|
            0 <= i < bindings@.len() && is_triple(#[trigger] trees(bindings@)[i]) && is_symbol(
                part(trees(bindings@)[i], 0),
            ) ==> r@[i]@ == symbol_name(part(trees(bindings@)[i], 0)),
{
    let ghost all = trees(bindings@);
    let mut names: Vec<String> = Vec::new();
    let mut i: usize = 0;
    while i < bindings.len()
        invariant
            all == trees(bindings@),
            i <= bindings.len(),
            names@.len() == i,
            forall|j: int|
                0 <= j < i && is_triple(#[trigger] all[j]) && is_symbol(part(all[j], 0))
                    ==> names@[j]@ == symbol_name(part(all[j], 0)),
        decreases bindings.len() - i,
    {
        assert(all[i as int] == bindings[i as int]@);
        let name = match &*bindings[i] {
            Expr::List(parts) => {
                assert(all[i as int]->List_0 =~= trees(parts@));
                if parts.len() == 3 {
                    assert(part(all[i as int], 0) == parts[0]@);
                    match &*parts[0] {
                        Expr::Token(Token::Symbol(name)) => name.clone(),
                        _ => String::new(),
                    }
                } else {
                    String::new()
                }
            },
            _ => String::new(),
        };
        names.push(name);
        i += 1;
    }
    names
}

/// Evaluates the `step` of each of `bindings` in `frame` and assigns its
/// value to the `sym` of the binding before it goes on to the next.
fn do_steps_in(bindings: &[Rc<Expr>], scope: &mut Scope, frame: usize, fuel: usize) -> (r: Result<
    Value,
    RuntimeError,
>)
    ensures
        outcome(r, *final(scope)) == do_steps(
            trees(bindings@),
            0,
            frame as nat,
            old(scope)@,
            fuel as nat,
        ),
    decreases fuel, 5nat, trees(bindings@), 0nat,
{
    let ghost all = trees(bindings@);
    let ghost goal = do_steps(all, 0, frame as nat, old(scope)@, fuel as nat);
    let mut i: usize = 0;
    while i < bindings.len()
        invariant
            all == trees(bindings@),
            goal == do_steps(all, 0, frame as nat, old(scope)@, fuel as nat),
            goal == do_steps(all, i as nat, frame as nat, scope@, fuel as nat),
        decreases bindings.len() - i,
    {
        assert(all[i as int] == bindings[i as int]@);
        let parts = match &*bindings[i] {
            Expr::List(parts) => parts,
            _ => {
                return Err(RuntimeError::IllFormedSpecialForm);
            },
        };
        assert(all[i as int]->List_0 =~= trees(parts@));
        if parts.len() != 3 {
            return Err(RuntimeError::IllFormedSpecialForm);
        }
        assert(part(all[i as int], 0) == parts[0]@);
        assert(part(all[i as int], 2) == parts[2]@);
        let symbol = match &*parts[0] {
            Expr::Token(Token::Symbol(symbol)) => symbol,
            _ => {
                return Err(RuntimeError::IdentifierExpected);
            },
        };
        let value = evaluate(&parts[2], scope, frame, fuel)?;
        match scope.set(frame, symbol.as_str(), value) {
            Ok(_) => {},
            Err(_) => {
                return Err(RuntimeError::UnboundVariable(symbol.clone()));
            },
        }
        i += 1;
    }
    Ok(Value::Nil)
}

/// Runs the rounds of a `do` loop in its frame `frame`.
fn do_rounds_in(
    bindings: &[Rc<Expr>],
    test: &[Rc<Expr>],
    body: &[Rc<Expr>],
    scope: &mut Scope,
    frame: usize,
    fuel: usize,
) -> (r: Result<Value, RuntimeError>)
    ensures
        outcome(r, *final(scope)) == do_rounds(
            trees(bindings@),
            trees(test@),
            trees(body@),
            frame as nat,
            old(scope)@,
            fuel as nat,
        ),
    decreases fuel, 4nat, Seq::<ExprView>::empty(), 0nat,
{
    if test.len() == 0 {
        return Err(RuntimeError::IllFormedSpecialForm);
    }
    let ghost goal = do_rounds(
        trees(bindings@),
        trees(test@),
        trees(body@),
        frame as nat,
        old(scope)@,
        fuel as nat,
    );
    let mut left: usize = fuel;
    loop
        invariant
            left <= fuel,
            test.len() > 0,
            goal == do_rounds(
                trees(bindings@),
                trees(test@),
                trees(body@),
                frame as nat,
                old(scope)@,
                fuel as nat,
            ),
            goal == do_rounds(
                trees(bindings@),
                trees(test@),
                trees(body@),
                frame as nat,
                scope@,
                left as nat,
            ),
        decreases left,
    {
        if left == 0 {
            return Err(RuntimeError::OutOfFuel);
        }
        left -= 1;
        assert(trees(test@)[0] == test[0]@);
        let terminate = evaluate(&test[0], scope, frame, left)?.truthy();
        if terminate {
            if test.len() > 1 {
                return evaluate_list(test, 1, scope, frame, left);
            } else {
                return Ok(Value::Nil);
            }
        }
        if body.len() > 0 {
            evaluate_list(body, 0, scope, frame, left)?;
        }
        do_steps_in(bindings, scope, frame, left)?;
    }
}

/// `(do ((sym init step)..) (test result..) body..)`: a loop with a frame
/// of its own.
pub fn do_loop(exprs: &[Rc<Expr>], scope: &mut Scope, frame: usize, fuel: usize) -> (r: Result<
    Value,
    RuntimeError,
>)
    ensures
        outcome(r, *final(scope)) == do_form(trees(exprs@), frame as nat, old(scope)@, fuel as nat),
    decreases fuel, 5nat, trees(exprs@), 0nat,
{
    if exprs.len() < 2 {
        return Err(RuntimeError::IllFormedSpecialForm);
    }
    let ghost all = trees(exprs@);
    assert(all[0] == exprs[0]@);
    assert(all[1] == exprs[1]@);
    let bindings = match &*exprs[0] {
        Expr::List(list) => list.as_slice(),
        _ => {
            return Err(RuntimeError::IllFormedSpecialForm);
        },
    };
    let test = match &*exprs[1] {
        Expr::List(list) => list.as_slice(),
        _ => {
            return Err(RuntimeError::IllFormedSpecialForm);
        },
    };
    assert(all[0]->List_0 =~= trees(bindings@));
    assert(all[1]->List_0 =~= trees(test@));
    let ghost triples = trees(bindings@);
    let mut i: usize = 0;
    while i < bindings.len()
        invariant
            triples == trees(bindings@),
            all == trees(exprs@),
            exprs.len() >= 2,
            all[0] == ExprView::List(triples),
            all[1] is List,
            *scope == *old(scope),
            i <= bindings.len(),
            forall|j: int| 0 <= j < i ==> is_triple(#[trigger] triples[j]),
        decreases bindings.len() - i,
    {
        assert(triples[i as int] == bindings[i as int]@);
        match &*bindings[i] {
            Expr::List(parts) => {
                assert(triples[i as int]->List_0 =~= trees(parts@));
                if parts.len() != 3 {
                    assert(!is_triple(triples[i as int]));
                    return Err(RuntimeError::IllFormedSpecialForm);
                }
            },
            _ => {
                assert(!is_triple(triples[i as int]));
                return Err(RuntimeError::IllFormedSpecialForm);
            },
        }
        i += 1;
    }
    if test.len() == 0 {
        return Err(RuntimeError::IllFormedSpecialForm);
    }
    let values = do_initials(bindings, scope, frame, fuel)?;
    let names = binding_names(bindings);
    proof {
        lemma_do_inits_ok(triples, 0, Seq::empty(), frame as nat, old(scope)@, fuel as nat);
        assert(texts(names@) =~= bound_names(triples));
    }
    let inner = scope.nest(frame);
    bind_all(scope, inner, &names, values);
    let body = &exprs[2..exprs.len()];
    assert(trees(body@) =~= all.skip(2));
    do_rounds_in(bindings, test, body, scope, inner, fuel)
}

} // verus!
