//! The native procedures: arithmetic on integers, and making and taking
//! apart lists.

use crate::object::{lemma_list_value, values_of, BuiltinFunction, EnvRef, Object, Value};
use crate::wrapping::{
    lemma_wrap_add, lemma_wrap_fits, lemma_wrap_mul, lemma_wrap_sub, lemma_wrapping_add,
    lemma_wrapping_mul, lemma_wrapping_sub, wrap,
};
use vstd::prelude::*;

verus! {

/// The outcome of a computation as the contracts see it.
pub open spec fn result_value(r: Result<Object, Object>) -> Result<Value, Value> {
    match r {
        Ok(o) => Ok(o@),
        Err(e) => Err(e@),
    }
}

/// The failure that carries `message`.
pub open spec fn failure(message: Seq<char>) -> Result<Value, Value> {
    Err(Value::Error(message))
}

/// Each of `args` is a number.
pub open spec fn all_integers(args: Seq<Value>) -> bool {
    forall|i: int| 0 <= i < args.len() ==> args[i] is Integer
}

/// The number that `v` holds.
pub open spec fn number(v: Value) -> int {
    v->Integer_0
}

/// The sum of the numbers `args`.
pub open spec fn total(args: Seq<Value>) -> int
    decreases args.len(),
{
    if args.len() == 0 {
        0
    } else {
        total(args.drop_last()) + number(args.last())
    }
}

/// The product of the numbers `args`.
pub open spec fn product(args: Seq<Value>) -> int
    decreases args.len(),
{
    if args.len() == 0 {
        1
    } else {
        product(args.drop_last()) * number(args.last())
    }
}

/// `+`: the sum of the arguments in 64 bits that wrap around; a failure
/// where one of them is no number.
pub open spec fn plus_model(args: Seq<Value>) -> Result<Value, Value> {
    if all_integers(args) {
        Ok(Value::Integer(wrap(total(args)) as int))
    } else {
        failure("argument has wrong type"@)
    }
}

/// `-`: the first argument less all the others, in 64 bits that wrap
/// around; a failure on fewer than two arguments, and where one of them is
/// no number.
pub open spec fn minus_model(args: Seq<Value>) -> Result<Value, Value> {
    if args.len() < 2 {
        failure("not enough arguments"@)
    } else if all_integers(args) {
        Ok(Value::Integer(wrap(number(args[0]) - total(args.skip(1))) as int))
    } else {
        failure("argument has wrong type"@)
    }
}

/// `*`: the product of the arguments in 64 bits that wrap around; a
/// failure where one of them is no number.
pub open spec fn multiply_model(args: Seq<Value>) -> Result<Value, Value> {
    if all_integers(args) {
        Ok(Value::Integer(wrap(product(args)) as int))
    } else {
        failure("argument has wrong type"@)
    }
}

/// `list`: the arguments as a list.
pub open spec fn list_model(args: Seq<Value>) -> Result<Value, Value> {
    Ok(Value::List(args))
}

/// `cons`: the two arguments as a list of two; a failure on any other
/// number of arguments.
pub open spec fn cons_model(args: Seq<Value>) -> Result<Value, Value> {
    if args.len() != 2 {
        failure("wrong number of arguments"@)
    } else {
        Ok(Value::List(args))
    }
}

/// `car`: the first item of the one argument, a list that is not empty; a
/// failure otherwise.
pub open spec fn car_model(args: Seq<Value>) -> Result<Value, Value> {
    if args.len() != 1 {
        failure("wrong number of arguments"@)
    } else {
        match args[0] {
            Value::List(items) => if items.len() == 0 {
                failure("empty list"@)
            } else {
                Ok(items[0])
            },
            _ => failure("argument has wrong type"@),
        }
    }
}

/// What the native procedure `f` returns on `args`.
pub open spec fn native_model(f: BuiltinFunction, args: Seq<Value>) -> Result<Value, Value> {
    match f {
        BuiltinFunction::Plus => plus_model(args),
        BuiltinFunction::Minus => minus_model(args),
        BuiltinFunction::Multiply => multiply_model(args),
        BuiltinFunction::List => list_model(args),
        BuiltinFunction::Cons => cons_model(args),
        BuiltinFunction::Car => car_model(args),
    }
}

/// Where the first of `args` stands that is no integer, if there is one.
fn first_non_integer(args: &[Object]) -> (r: Option<usize>)
    ensures
        r is None <==> all_integers(values_of(args@)),
        r matches Some(i) ==> i < args.len() && !(args[i as int]@ is Integer),
{
    let mut i: usize = 0;
    while i < args.len()
        invariant
            i <= args.len(),
            forall|k: int| 0 <= k < i ==> args[k]@ is Integer,
        decreases args.len() - i,
    {
        match &args[i] {
            Object::Integer(_) => {},
            _ => {
                assert(!(values_of(args@)[i as int] is Integer));
                return Some(i);
            },
        }
        i += 1;
    }
    assert forall|k: int| 0 <= k < values_of(args@).len() implies values_of(args@)[k] is Integer by {
        assert(args[k]@ is Integer);
    }
    None
}

/// A copy of each of `args`, in order.
fn copy_all(args: &[Object]) -> (r: Vec<Object>)
    ensures
        values_of(r@) == values_of(args@),
{
    let mut out: Vec<Object> = Vec::new();
    let mut i: usize = 0;
    while i < args.len()
        invariant
            i <= args.len(),
            out.len() == i,
            forall|k: int| 0 <= k < i ==> out[k]@ == args[k]@,
        decreases args.len() - i,
    {
        out.push(args[i].clone());
        i += 1;
    }
    assert(values_of(out@) =~= values_of(args@));
    out
}

/// `+`: the sum of the arguments, 0 for none, in arithmetic that wraps
/// around. Fails where one of them is no integer.
pub fn plus(args: &[Object], _env: EnvRef) -> (r: Result<Object, Object>)
    ensures
        result_value(r) == plus_model(values_of(args@)),
{
    if first_non_integer(args).is_some() {
        return Err(Object::new_error("argument has wrong type"));
    }
    let ghost vals = values_of(args@);
    let mut sum: i64 = 0;
    let mut i: usize = 0;
    proof {
        lemma_wrap_fits(0);
    }
    while i < args.len()
        invariant
            i <= args.len(),
            vals == values_of(args@),
            all_integers(vals),
            sum == wrap(total(vals.take(i as int))),
        decreases args.len() - i,
    {
        assert(vals.take(i + 1).drop_last() == vals.take(i as int));
        assert(vals[i as int] is Integer);
        if let Object::Integer(val) = &args[i] {
            proof {
                lemma_wrapping_add(sum, *val);
                lemma_wrap_add(total(vals.take(i as int)), *val as int);
            }
            sum = sum.wrapping_add(*val);
        }
        i += 1;
    }
    assert(vals.take(args.len() as int) == vals);
    Ok(Object::Integer(sum))
}

/// `-`: the first argument less each of the others in turn, in arithmetic
/// that wraps around. Fails on fewer than two arguments, and where one of
/// them is no integer.
pub fn minus(args: &[Object], _env: EnvRef) -> (r: Result<Object, Object>)
    ensures
        result_value(r) == minus_model(values_of(args@)),
{
    if args.len() < 2 {
        return Err(Object::new_error("not enough arguments"));
    }
    if first_non_integer(args).is_some() {
        return Err(Object::new_error("argument has wrong type"));
    }
    let ghost vals = values_of(args@);
    assert(vals[0] is Integer);
    let mut sum: i64 = match &args[0] {
        Object::Integer(first) => *first,
        _ => 0,
    };
    let mut i: usize = 1;
    proof {
        lemma_wrap_fits(sum as int);
    }
    while i < args.len()
        invariant
            1 <= i <= args.len(),
            vals == values_of(args@),
            all_integers(vals),
            sum == wrap(number(vals[0]) - total(vals.subrange(1, i as int))),
        decreases args.len() - i,
    {
        assert(vals.subrange(1, i + 1).drop_last() == vals.subrange(1, i as int));
        assert(vals[i as int] is Integer);
        if let Object::Integer(val) = &args[i] {
            proof {
                lemma_wrapping_sub(sum, *val);
                lemma_wrap_sub(number(vals[0]) - total(vals.subrange(1, i as int)), *val as int);
            }
            sum = sum.wrapping_sub(*val);
        }
        i += 1;
    }
    assert(vals.subrange(1, args.len() as int) == vals.skip(1));
    Ok(Object::Integer(sum))
}

/// `*`: the product of the arguments, 1 for none, in arithmetic that wraps
/// around. Fails where one of them is no integer.
pub fn multiply(args: &[Object], _env: EnvRef) -> (r: Result<Object, Object>)
    ensures
        result_value(r) == multiply_model(values_of(args@)),
{
    if first_non_integer(args).is_some() {
        return Err(Object::new_error("argument has wrong type"));
    }
    let ghost vals = values_of(args@);
    let mut result: i64 = 1;
    let mut i: usize = 0;
    proof {
        lemma_wrap_fits(1);
    }
    while i < args.len()
        invariant
            i <= args.len(),
            vals == values_of(args@),
            all_integers(vals),
            result == wrap(product(vals.take(i as int))),
        decreases args.len() - i,
    {
        assert(vals.take(i + 1).drop_last() == vals.take(i as int));
        assert(vals[i as int] is Integer);
        if let Object::Integer(val) = &args[i] {
            proof {
                lemma_wrapping_mul(result, *val);
                lemma_wrap_mul(product(vals.take(i as int)), *val as int);
            }
            result = result.wrapping_mul(*val);
        }
        i += 1;
    }
    assert(vals.take(args.len() as int) == vals);
    Ok(Object::Integer(result))
}

/// `list`: the arguments as a list.
pub fn list(args: &[Object], _env: EnvRef) -> (r: Result<Object, Object>)
    ensures
        result_value(r) == list_model(values_of(args@)),
{
    let items = copy_all(args);
    proof {
        lemma_list_value(items);
    }
    Ok(Object::List(items))
}

/// `cons`: the two arguments as a list of two. Fails on any other number
/// of arguments.
pub fn cons(args: &[Object], _env: EnvRef) -> (r: Result<Object, Object>)
    ensures
        result_value(r) == cons_model(values_of(args@)),
{
    if args.len() != 2 {
        return Err(Object::new_error("wrong number of arguments"));
    }
    let items = copy_all(args);
    proof {
        lemma_list_value(items);
    }
    Ok(Object::List(items))
}

/// `car`: the first item of the one argument, a list. Fails on another
/// number of arguments, on what is no list, and on the empty list.
pub fn car(args: &[Object], _env: EnvRef) -> (r: Result<Object, Object>)
    ensures
        result_value(r) == car_model(values_of(args@)),
{
    if args.len() != 1 {
        return Err(Object::new_error("wrong number of arguments"));
    }
    let items = match &args[0] {
        Object::List(items) => items,
        _ => {
            return Err(Object::new_error("argument has wrong type"));
        },
    };
    proof {
        lemma_list_value(*items);
    }
    if items.len() == 0 {
        return Err(Object::new_error("empty list"));
    }
    Ok(items[0].clone())
}

/// Runs the native procedure `f` on `args`.
pub fn call_native(f: BuiltinFunction, args: &[Object], env: EnvRef) -> (r: Result<Object, Object>)
    ensures
        result_value(r) == native_model(f, values_of(args@)),
{
    match f {
        BuiltinFunction::Plus => plus(args, env),
        BuiltinFunction::Minus => minus(args, env),
        BuiltinFunction::Multiply => multiply(args, env),
        BuiltinFunction::List => list(args, env),
        BuiltinFunction::Cons => cons(args, env),
        BuiltinFunction::Car => car(args, env),
    }
}

} // verus!
