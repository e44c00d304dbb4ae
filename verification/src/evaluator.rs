//! The evaluator: what an object means as a program, in a scope.

use crate::builtins::{call_native, failure, native_model, result_value};
use crate::environment::{
    lemma_lookup_agrees, lookup, with_binding, with_child, Environment, Scope,
};
use crate::object::{
    clone_objects, lemma_lambda_value, lemma_list_value, values_of, EnvRef, Function, Object,
    Value,
};
use vstd::prelude::*;

verus! {

/// How deep lists and calls may nest within one evaluation, for callers
/// that have no limit of their own in mind.
pub const DEPTH_LIMIT: usize = 256;

/// What an evaluation leaves behind: its result and the scopes after it.
pub ghost struct Outcome {
    pub result: Result<Value, Value>,
    pub scopes: Seq<Scope>,
}

/// What evaluating a run of expressions leaves behind: their values in
/// order, or the first failure, and the scopes after it.
pub ghost struct SeqOutcome {
    pub result: Result<Seq<Value>, Value>,
    pub scopes: Seq<Scope>,
}

/// A list that starts with the symbol `define`.
pub open spec fn is_definition_model(exps: Seq<Value>) -> bool {
    exps.len() > 0 && exps[0] == Value::Symbol("define"@)
}

/// A list that starts with the symbol `lambda`.
pub open spec fn is_lambda_model(exps: Seq<Value>) -> bool {
    exps.len() > 0 && exps[0] == Value::Symbol("lambda"@)
}

/// Each of `items` is a symbol.
pub open spec fn all_symbols(items: Seq<Value>) -> bool {
    forall|i: int| 0 <= i < items.len() ==> items[i] is Symbol
}

/// What `(lambda (<parameter>...) <body>)` evaluates to in scope `env`: a
/// closure over that scope. The parameters must be a list of symbols, and
/// the body must be there; what follows the body counts for nothing.
pub open spec fn lambda_model(exps: Seq<Value>, env: int) -> Result<Value, Value> {
    if exps.len() < 2 {
        failure("arguments are not a list"@)
    } else {
        match exps[1] {
            Value::List(params) => if !all_symbols(params) {
                failure("arguments are not a list"@)
            } else if exps.len() < 3 {
                failure("not enough arguments"@)
            } else {
                Ok(Value::Lambda(params, Box::new(exps[2]), env))
            },
            _ => failure("arguments are not a list"@),
        }
    }
}

/// What a call binds in its own scope: each parameter that is a symbol to
/// the argument at its place.
pub open spec fn parameter_bindings(params: Seq<Value>, args: Seq<Value>) -> Map<Seq<char>, Value>
    decreases params.len(),
{
    if params.len() == 0 || args.len() != params.len() {
        Map::empty()
    } else {
        let before = parameter_bindings(params.drop_last(), args.drop_last());
        match params.last() {
            Value::Symbol(name) => before.insert(name, args.last()),
            _ => before,
        }
    }
}

/// The scopes at the start of a call's body: one more, inside the scope
/// that the closure was made in, with the parameters bound.
pub open spec fn call_scopes(
    scopes: Seq<Scope>,
    captured: int,
    params: Seq<Value>,
    args: Seq<Value>,
) -> Seq<Scope> {
    scopes.push(
        Scope {
            parent: with_child(scopes, captured).last().parent,
            bindings: parameter_bindings(params, args),
        },
    )
}

/// What evaluating `exp` in scope `env` gives, with lists and calls nested
/// at most `depth` deep: a list at depth 0 fails, and what a list is made
/// of and what it calls is evaluated one level further down. A program
/// that calls itself without end so comes to a failure, not to a halt of
/// the machine.
pub open spec fn eval_model(exp: Value, env: int, scopes: Seq<Scope>, depth: nat) -> Outcome
    decreases depth, 1nat, 0nat,
{
    match exp {
        Value::Symbol(name) => Outcome { result: Ok(lookup(scopes, env, name)), scopes },
        Value::List(exps) => {
            if depth == 0 {
                Outcome { result: failure("recursion limit reached"@), scopes }
            } else if is_definition_model(exps) {
                definition_model(exps, env, scopes, (depth - 1) as nat)
            } else if is_lambda_model(exps) {
                Outcome { result: lambda_model(exps, env), scopes }
            } else if exps.len() == 0 {
                Outcome { result: failure("cannot call non-function"@), scopes }
            } else {
                let head = eval_model(exps[0], env, scopes, (depth - 1) as nat);
                match head.result {
                    Err(_) => head,
                    Ok(procedure) => {
                        let rest = eval_all_model(
                            exps,
                            1,
                            env,
                            head.scopes,
                            (depth - 1) as nat,
                            Seq::empty(),
                        );
                        match rest.result {
                            Err(e) => Outcome { result: Err(e), scopes: rest.scopes },
                            Ok(args) => apply_model(
                                procedure,
                                args,
                                rest.scopes,
                                (depth - 1) as nat,
                            ),
                        }
                    },
                }
            }
        },
        _ => Outcome { result: Ok(exp), scopes },
    }
}

/// What evaluating `exps[from..]` from left to right gives, after the
/// values `done`: all the values, or the first failure, which ends it.
pub open spec fn eval_all_model(
    exps: Seq<Value>,
    from: int,
    env: int,
    scopes: Seq<Scope>,
    depth: nat,
    done: Seq<Value>,
) -> SeqOutcome
    decreases depth, 2nat, exps.len() - from,
{
    if from < 0 || from >= exps.len() {
        SeqOutcome { result: Ok(done), scopes }
    } else {
        let one = eval_model(exps[from], env, scopes, depth);
        match one.result {
            Err(e) => SeqOutcome { result: Err(e), scopes: one.scopes },
            Ok(v) => eval_all_model(exps, from + 1, env, one.scopes, depth, done.push(v)),
        }
    }
}

/// What `(define <symbol> <expr>)` does in scope `env`: it binds the symbol
/// there to the value of the expression, and gives `Nil`. It fails where
/// no symbol stands in the symbol's place, where the expression is missing
/// or fails, and where `env` names no scope.
pub open spec fn definition_model(exps: Seq<Value>, env: int, scopes: Seq<Scope>, depth: nat) -> Outcome
    decreases depth, 2nat, 0nat,
{
    if exps.len() < 2 {
        Outcome { result: failure("argument has wrong type"@), scopes }
    } else {
        match exps[1] {
            Value::Symbol(name) => if exps.len() < 3 {
                Outcome { result: failure("not enough arguments"@), scopes }
            } else {
                let value = eval_model(exps[2], env, scopes, depth);
                match value.result {
                    Err(_) => value,
                    Ok(v) => if 0 <= env < value.scopes.len() {
                        Outcome {
                            result: Ok(Value::Nil),
                            scopes: with_binding(value.scopes, env, name, v),
                        }
                    } else {
                        Outcome { result: failure("unknown environment"@), scopes: value.scopes }
                    },
                }
            },
            _ => Outcome { result: failure("argument has wrong type"@), scopes },
        }
    }
}

/// What applying `procedure` to `args` gives. A closure takes as many
/// arguments as it has parameters; its body runs in a new scope inside the
/// one that the closure was made in, whatever scope the call stands in.
pub open spec fn apply_model(
    procedure: Value,
    args: Seq<Value>,
    scopes: Seq<Scope>,
    depth: nat,
) -> Outcome
    decreases depth, 2nat, 0nat,
{
    match procedure {
        Value::Native(f) => Outcome { result: native_model(f, args), scopes },
        Value::Lambda(params, body, captured) => if params.len() != args.len() {
            Outcome { result: failure("wrong number of arguments"@), scopes }
        } else {
            eval_model(
                *body,
                scopes.len() as int,
                call_scopes(scopes, captured, params, args),
                depth,
            )
        },
        _ => Outcome { result: failure("cannot call non-function"@), scopes },
    }
}

/// A result and the scopes it was reached with, as one outcome.
pub open spec fn outcome_of(r: Result<Object, Object>, scopes: Seq<Scope>) -> Outcome {
    Outcome { result: result_value(r), scopes }
}

/// Whether the list `exps` is a definition.
fn is_definition(exps: &[Object]) -> (r: bool)
    ensures
        r == is_definition_model(values_of(exps@)),
{
    if exps.len() == 0 {
        return false;
    }
    match exps[0].has_symbol_value("define") {
        Some(b) => b,
        None => false,
    }
}

/// Whether the list `exps` makes a closure.
fn is_lambda(exps: &[Object]) -> (r: bool)
    ensures
        r == is_lambda_model(values_of(exps@)),
{
    if exps.len() == 0 {
        return false;
    }
    match exps[0].has_symbol_value("lambda") {
        Some(b) => b,
        None => false,
    }
}

/// Whether each of `items` is a symbol.
fn only_symbols(items: &Vec<Object>) -> (r: bool)
    ensures
        r == all_symbols(values_of(items@)),
{
    let mut i: usize = 0;
    while i < items.len()
        invariant
            i <= items.len(),
            forall|k: int| 0 <= k < i ==> items[k]@ is Symbol,
        decreases items.len() - i,
    {
        match &items[i] {
            Object::Symbol(_) => {},
            _ => {
                assert(!(values_of(items@)[i as int] is Symbol));
                return false;
            },
        }
        i += 1;
    }
    assert forall|k: int| 0 <= k < values_of(items@).len() implies values_of(items@)[k] is Symbol by {
        assert(items[k]@ is Symbol);
    }
    true
}

/// The closure that `(lambda (<parameter>...) <body>)` makes in scope `env`.
fn make_lambda(exps: &[Object], env: EnvRef) -> (r: Result<Object, Object>)
    ensures
        result_value(r) == lambda_model(values_of(exps@), env as int),
{
    if exps.len() < 2 {
        return Err(Object::new_error("arguments are not a list"));
    }
    let params = match &exps[1] {
        Object::List(params) => params,
        _ => {
            return Err(Object::new_error("arguments are not a list"));
        },
    };
    proof {
        lemma_list_value(*params);
    }
    if !only_symbols(params) {
        return Err(Object::new_error("arguments are not a list"));
    }
    if exps.len() < 3 {
        return Err(Object::new_error("not enough arguments"));
    }
    let formals = clone_objects(params);
    let body = Box::new(exps[2].clone());
    proof {
        lemma_lambda_value(formals, body, env);
    }
    Ok(Object::Callable(Function::Lambda(formals, body, env)))
}

/// Carries out `(define <symbol> <expr>)` in scope `env`.
fn make_definition(exps: &[Object], env: EnvRef, store: &mut Environment, depth: usize) -> (r:
    Result<Object, Object>)
    requires
        old(store).wf(),
    ensures
        final(store).wf(),
        outcome_of(r, final(store)@) == definition_model(
            values_of(exps@),
            env as int,
            old(store)@,
            depth as nat,
        ),
    decreases depth, 2nat, 0nat,
{
    if exps.len() < 2 {
        return Err(Object::new_error("argument has wrong type"));
    }
    let name = match &exps[1] {
        Object::Symbol(name) => name.clone(),
        _ => {
            return Err(Object::new_error("argument has wrong type"));
        },
    };
    if exps.len() < 3 {
        return Err(Object::new_error("not enough arguments"));
    }
    let value = match eval(exps[2].clone(), env, store, depth) {
        Ok(value) => value,
        Err(e) => {
            return Err(e);
        },
    };
    match store.define(env, name, value) {
        Ok(_) => Ok(Object::Nil),
        Err(e) => Err(e),
    }
}

/// Runs a closure on `args`: its body, in a new scope inside the one it was
/// made in, with each parameter bound to the argument at its place.
fn apply_lambda(
    params: &Vec<Object>,
    body: &Object,
    captured: EnvRef,
    args: &[Object],
    store: &mut Environment,
    depth: usize,
) -> (r: Result<Object, Object>)
    requires
        old(store).wf(),
    ensures
        final(store).wf(),
        outcome_of(r, final(store)@) == apply_model(
            Value::Lambda(values_of(params@), Box::new(body@), captured as int),
            values_of(args@),
            old(store)@,
            depth as nat,
        ),
    decreases depth, 2nat, 0nat,
{
    if params.len() != args.len() {
        return Err(Object::new_error("wrong number of arguments"));
    }
    let ghost base = store@;
    let ghost formals = values_of(params@);
    let ghost actuals = values_of(args@);
    let child: EnvRef = store.new_child(captured);
    let ghost link = with_child(base, captured as int).last().parent;
    assert(formals.take(0) =~= Seq::<Value>::empty());
    let mut i: usize = 0;
    while i < params.len()
        invariant
            i <= params.len(),
            params.len() == args.len(),
            formals == values_of(params@),
            actuals == values_of(args@),
            store.wf(),
            child == base.len(),
            store@ == base.push(
                Scope {
                    parent: link,
                    bindings: parameter_bindings(formals.take(i as int), actuals.take(i as int)),
                },
            ),
        decreases params.len() - i,
    {
        proof {
            assert(formals.take(i + 1).drop_last() == formals.take(i as int));
            assert(actuals.take(i + 1).drop_last() == actuals.take(i as int));
        }
        match &params[i] {
            Object::Symbol(name) => {
                let _ = store.define(child, name.clone(), args[i].clone());
            },
            _ => {},
        }
        assert(store@ =~= base.push(
            Scope {
                parent: link,
                bindings: parameter_bindings(formals.take(i + 1), actuals.take(i + 1)),
            },
        ));
        i += 1;
    }
    assert(formals.take(params.len() as int) == formals);
    assert(actuals.take(params.len() as int) == actuals);
    eval(body.clone(), child, store, depth)
}

/// Applies `procedure` to `args`: a native procedure is run on them, a
/// closure's body is evaluated with them bound to its parameters, of which
/// there must be as many. What is no procedure cannot be called. Lists and
/// calls in a closure's body may nest `depth` deep.
pub fn apply(
    procedure: &Object,
    args: &[Object],
    env: EnvRef,
    store: &mut Environment,
    depth: usize,
) -> (r: Result<Object, Object>)
    requires
        old(store).wf(),
    ensures
        final(store).wf(),
        outcome_of(r, final(store)@) == apply_model(
            procedure@,
            values_of(args@),
            old(store)@,
            depth as nat,
        ),
        extends(final(store)@, old(store)@),
    decreases depth, 3nat, 0nat,
{
    proof {
        law_apply_scopes_stay(procedure@, values_of(args@), store@, depth as nat);
    }
    match procedure {
        Object::Callable(func) => match func {
            Function::Native(builtin) => call_native(*builtin, args, env),
            Function::Lambda(params, body, captured) => {
                proof {
                    lemma_lambda_value(*params, *body, *captured);
                }
                apply_lambda(params, body, *captured, args, store, depth)
            },
        },
        _ => Err(Object::new_error("cannot call non-function")),
    }
}

/// Evaluates `exp` in scope `env`. Numbers, `Nil`, procedures and errors
/// are their own value; a symbol has the value that the scopes give it; a
/// list is a definition, a closure in the making, or a call. Lists and
/// calls may nest `depth` deep. The scopes that were there stay; a
/// definition binds a name in one, a call opens a new one.
pub fn eval(exp: Object, env: EnvRef, store: &mut Environment, depth: usize) -> (r: Result<
    Object,
    Object,
>)
    requires
        old(store).wf(),
    ensures
        final(store).wf(),
        outcome_of(r, final(store)@) == eval_model(exp@, env as int, old(store)@, depth as nat),
        exp@ is Nil || exp@ is Integer || exp@ is Error ==> r is Ok && r->Ok_0@ == exp@
            && final(store)@ == old(store)@,
        extends(final(store)@, old(store)@),
    decreases depth, 1nat, 0nat,
{
    proof {
        law_scopes_stay(exp@, env as int, store@, depth as nat);
    }
    match exp {
        Object::Symbol(name) => Ok(store.get(env, &name)),
        Object::List(elems) => {
            proof {
                lemma_list_value(elems);
            }
            if depth == 0 {
                return Err(Object::new_error("recursion limit reached"));
            }
            if is_definition(elems.as_slice()) {
                return make_definition(elems.as_slice(), env, store, depth - 1);
            }
            if is_lambda(elems.as_slice()) {
                return make_lambda(elems.as_slice(), env);
            }
            if elems.len() == 0 {
                return Err(Object::new_error("cannot call non-function"));
            }
            let ghost exps = values_of(elems@);
            let procedure = match eval(elems[0].clone(), env, store, depth - 1) {
                Ok(procedure) => procedure,
                Err(e) => {
                    return Err(e);
                },
            };
            let ghost after_head = store@;
            let ghost goal = eval_model(exp@, env as int, old(store)@, depth as nat);
            let ghost rest = eval_all_model(
                exps,
                1,
                env as int,
                after_head,
                (depth - 1) as nat,
                Seq::empty(),
            );
            assert(goal == match rest.result {
                Err(e) => Outcome { result: Err(e), scopes: rest.scopes },
                Ok(args) => apply_model(procedure@, args, rest.scopes, (depth - 1) as nat),
            });
            let mut args: Vec<Object> = Vec::new();
            let mut i: usize = 1;
            assert(values_of(args@) =~= Seq::<Value>::empty());
            while i < elems.len()
                invariant
                    1 <= i <= elems.len(),
                    depth > 0,
                    exps == values_of(elems@),
                    store.wf(),
                    eval_all_model(
                        exps,
                        i as int,
                        env as int,
                        store@,
                        (depth - 1) as nat,
                        values_of(args@),
                    ) == rest,
                    exp@ is List,
                    goal == eval_model(exp@, env as int, old(store)@, depth as nat),
                    extends(goal.scopes, old(store)@),
                    goal == match rest.result {
                        Err(e) => Outcome { result: Err(e), scopes: rest.scopes },
                        Ok(args) => apply_model(procedure@, args, rest.scopes, (depth - 1) as nat),
                    },
                decreases elems.len() - i,
            {
                let ghost before = values_of(args@);
                match eval(elems[i].clone(), env, store, depth - 1) {
                    Ok(value) => {
                        args.push(value);
                        assert(values_of(args@) =~= before.push(value@));
                    },
                    Err(e) => {
                        return Err(e);
                    },
                }
                i += 1;
            }
            apply(&procedure, args.as_slice(), env, store, depth - 1)
        },
        other => Ok(other),
    }
}

/// Self-evaluation. `Nil`, a number, a procedure and an error evaluate
/// to themselves in every scope and at every depth, and leave the scopes
/// as they were.
pub proof fn law_self_evaluating(exp: Value, env: int, scopes: Seq<Scope>, depth: nat)
    requires
        !(exp is Symbol),
        !(exp is List),
    ensures
        eval_model(exp, env, scopes, depth) == (Outcome { result: Ok(exp), scopes }),
{
}

/// Whether `name` is among the parameters.
pub open spec fn is_parameter(params: Seq<Value>, name: Seq<char>) -> bool {
    exists|i: int| 0 <= i < params.len() && params[i] == Value::Symbol(name)
}

/// A call binds its parameters and nothing else.
pub proof fn lemma_parameter_bindings_domain(
    params: Seq<Value>,
    args: Seq<Value>,
    name: Seq<char>,
)
    requires
        params.len() == args.len(),
    ensures
        parameter_bindings(params, args).contains_key(name) <==> is_parameter(params, name),
    decreases params.len(),
{
    if params.len() > 0 {
        let before = params.drop_last();
        lemma_parameter_bindings_domain(before, args.drop_last(), name);
        if is_parameter(before, name) {
            let i: int = choose|i: int| 0 <= i < before.len() && before[i] == Value::Symbol(name);
            assert(params[i] == Value::Symbol(name));
        }
        if is_parameter(params, name) {
            let i: int = choose|i: int| 0 <= i < params.len() && params[i] == Value::Symbol(name);
            if i < params.len() - 1 {
                assert(before[i] == Value::Symbol(name));
            }
        }
    }
}

/// Closure capture. A name that a closure's body uses and that is none of
/// its parameters has, in every call, the value that the scope gives it in
/// which the closure was made: as that scope is when the call is made,
/// and wherever the call stands.
pub proof fn law_closure_resolves_in_captured_scope(
    params: Seq<Value>,
    name: Seq<char>,
    captured: int,
    args: Seq<Value>,
    scopes: Seq<Scope>,
    depth: nat,
)
    requires
        params.len() == args.len(),
        0 <= captured < scopes.len(),
        !is_parameter(params, name),
    ensures
        apply_model(
            Value::Lambda(params, Box::new(Value::Symbol(name)), captured),
            args,
            scopes,
            depth,
        ).result == Ok::<Value, Value>(lookup(scopes, captured, name)),
{
    lemma_parameter_bindings_domain(params, args, name);
    let inside = call_scopes(scopes, captured, params, args);
    lemma_lookup_agrees(inside, scopes, captured, name);
}

/// A parameter has, in the body of a call, the value of the argument at
/// its place; of two parameters of one name the later counts.
pub proof fn law_parameter_is_bound_to_argument(
    params: Seq<Value>,
    i: int,
    captured: int,
    args: Seq<Value>,
    scopes: Seq<Scope>,
    depth: nat,
)
    requires
        params.len() == args.len(),
        0 <= i < params.len(),
        params[i] is Symbol,
        forall|j: int| i < j < params.len() ==> params[j] != params[i],
    ensures
        apply_model(Value::Lambda(params, Box::new(params[i]), captured), args, scopes, depth).result
            == Ok::<Value, Value>(args[i]),
{
    lemma_parameter_bindings_value(params, args, i);
}

proof fn lemma_parameter_bindings_value(params: Seq<Value>, args: Seq<Value>, i: int)
    requires
        params.len() == args.len(),
        0 <= i < params.len(),
        params[i] is Symbol,
        forall|j: int| i < j < params.len() ==> params[j] != params[i],
    ensures
        parameter_bindings(params, args).contains_key(params[i]->Symbol_0),
        parameter_bindings(params, args)[params[i]->Symbol_0] == args[i],
    decreases params.len(),
{
    if i < params.len() - 1 {
        lemma_parameter_bindings_value(params.drop_last(), args.drop_last(), i);
    }
}

/// The failure of an evaluation that came to the end of its depth.
pub open spec fn gave_up(failed: Value) -> bool {
    failed == Value::Error("recursion limit reached"@)
}

/// Depth decides nothing but whether an evaluation gives up. One that did
/// not give up within `depth` has the same result, and leaves the same
/// scopes, at every greater depth.
pub proof fn law_depth_only_limits(
    exp: Value,
    env: int,
    scopes: Seq<Scope>,
    depth: nat,
    deeper: nat,
)
    requires
        depth <= deeper,
        !(eval_model(exp, env, scopes, depth).result matches Err(e) && gave_up(e)),
    ensures
        eval_model(exp, env, scopes, deeper) == eval_model(exp, env, scopes, depth),
    decreases depth, 1nat, 0nat,
{
    match exp {
        Value::List(exps) => {
            if depth == 0 {
            } else if is_definition_model(exps) {
                lemma_definition_depth(exps, env, scopes, (depth - 1) as nat, (deeper - 1) as nat);
            } else if is_lambda_model(exps) {
            } else if exps.len() == 0 {
            } else {
                let below: nat = (depth - 1) as nat;
                let further: nat = (deeper - 1) as nat;
                law_depth_only_limits(exps[0], env, scopes, below, further);
                let head = eval_model(exps[0], env, scopes, below);
                match head.result {
                    Err(_) => {},
                    Ok(procedure) => {
                        lemma_all_depth(exps, 1, env, head.scopes, below, further, Seq::empty());
                        let rest = eval_all_model(exps, 1, env, head.scopes, below, Seq::empty());
                        match rest.result {
                            Err(_) => {},
                            Ok(args) => {
                                lemma_apply_depth(procedure, args, rest.scopes, below, further);
                            },
                        }
                    },
                }
            }
        },
        _ => {},
    }
}

proof fn lemma_all_depth(
    exps: Seq<Value>,
    from: int,
    env: int,
    scopes: Seq<Scope>,
    depth: nat,
    deeper: nat,
    done: Seq<Value>,
)
    requires
        depth <= deeper,
        !(eval_all_model(exps, from, env, scopes, depth, done).result matches Err(e) && gave_up(
            e,
        )),
    ensures
        eval_all_model(exps, from, env, scopes, deeper, done) == eval_all_model(
            exps,
            from,
            env,
            scopes,
            depth,
            done,
        ),
    decreases depth, 2nat, exps.len() - from,
{
    if 0 <= from < exps.len() {
        law_depth_only_limits(exps[from], env, scopes, depth, deeper);
        let one = eval_model(exps[from], env, scopes, depth);
        match one.result {
            Err(_) => {},
            Ok(v) => {
                lemma_all_depth(exps, from + 1, env, one.scopes, depth, deeper, done.push(v));
            },
        }
    }
}

proof fn lemma_definition_depth(
    exps: Seq<Value>,
    env: int,
    scopes: Seq<Scope>,
    depth: nat,
    deeper: nat,
)
    requires
        depth <= deeper,
        !(definition_model(exps, env, scopes, depth).result matches Err(e) && gave_up(e)),
    ensures
        definition_model(exps, env, scopes, deeper) == definition_model(exps, env, scopes, depth),
    decreases depth, 2nat, 0nat,
{
    if exps.len() >= 3 && exps[1] is Symbol {
        law_depth_only_limits(exps[2], env, scopes, depth, deeper);
    }
}

proof fn lemma_apply_depth(
    procedure: Value,
    args: Seq<Value>,
    scopes: Seq<Scope>,
    depth: nat,
    deeper: nat,
)
    requires
        depth <= deeper,
        !(apply_model(procedure, args, scopes, depth).result matches Err(e) && gave_up(e)),
    ensures
        apply_model(procedure, args, scopes, deeper) == apply_model(procedure, args, scopes, depth),
    decreases depth, 2nat, 0nat,
{
    match procedure {
        Value::Lambda(params, body, captured) => {
            if params.len() == args.len() {
                law_depth_only_limits(
                    *body,
                    scopes.len() as int,
                    call_scopes(scopes, captured, params, args),
                    depth,
                    deeper,
                );
            }
        },
        _ => {},
    }
}

/// `later` holds every scope of `earlier`, each inside the scope it was
/// inside before, and maybe more.
pub open spec fn extends(later: Seq<Scope>, earlier: Seq<Scope>) -> bool {
    &&& earlier.len() <= later.len()
    &&& forall|i: int| 0 <= i < earlier.len() ==> (#[trigger] later[i]).parent == earlier[i].parent
}

/// Scopes stay. An evaluation may bind names and open scopes; it closes
/// none and moves none, so that what named a scope before names it after.
pub proof fn law_scopes_stay(exp: Value, env: int, scopes: Seq<Scope>, depth: nat)
    ensures
        extends(eval_model(exp, env, scopes, depth).scopes, scopes),
    decreases depth, 1nat, 0nat,
{
    match exp {
        Value::List(exps) => {
            if depth == 0 {
            } else if is_definition_model(exps) {
                lemma_definition_scopes(exps, env, scopes, (depth - 1) as nat);
            } else if is_lambda_model(exps) {
            } else if exps.len() == 0 {
            } else {
                let below: nat = (depth - 1) as nat;
                law_scopes_stay(exps[0], env, scopes, below);
                let head = eval_model(exps[0], env, scopes, below);
                match head.result {
                    Err(_) => {},
                    Ok(procedure) => {
                        lemma_all_scopes(exps, 1, env, head.scopes, below, Seq::empty());
                        let rest = eval_all_model(exps, 1, env, head.scopes, below, Seq::empty());
                        match rest.result {
                            Err(_) => {},
                            Ok(args) => {
                                law_apply_scopes_stay(procedure, args, rest.scopes, below);
                            },
                        }
                    },
                }
            }
        },
        _ => {},
    }
}

proof fn lemma_all_scopes(
    exps: Seq<Value>,
    from: int,
    env: int,
    scopes: Seq<Scope>,
    depth: nat,
    done: Seq<Value>,
)
    ensures
        extends(eval_all_model(exps, from, env, scopes, depth, done).scopes, scopes),
    decreases depth, 2nat, exps.len() - from,
{
    if 0 <= from < exps.len() {
        law_scopes_stay(exps[from], env, scopes, depth);
        let one = eval_model(exps[from], env, scopes, depth);
        match one.result {
            Err(_) => {},
            Ok(v) => {
                lemma_all_scopes(exps, from + 1, env, one.scopes, depth, done.push(v));
            },
        }
    }
}

proof fn lemma_definition_scopes(exps: Seq<Value>, env: int, scopes: Seq<Scope>, depth: nat)
    ensures
        extends(definition_model(exps, env, scopes, depth).scopes, scopes),
    decreases depth, 2nat, 0nat,
{
    if exps.len() >= 3 && exps[1] is Symbol {
        law_scopes_stay(exps[2], env, scopes, depth);
    }
}

/// Scopes stay through a call as through any evaluation.
pub proof fn law_apply_scopes_stay(
    procedure: Value,
    args: Seq<Value>,
    scopes: Seq<Scope>,
    depth: nat,
)
    ensures
        extends(apply_model(procedure, args, scopes, depth).scopes, scopes),
    decreases depth, 2nat, 0nat,
{
    match procedure {
        Value::Lambda(params, body, captured) => {
            if params.len() == args.len() {
                law_scopes_stay(
                    *body,
                    scopes.len() as int,
                    call_scopes(scopes, captured, params, args),
                    depth,
                );
            }
        },
        _ => {},
    }
}

} // verus!
