use minilisp::environment::Environment;
use minilisp::evaluator::{apply, eval, DEPTH_LIMIT};
use minilisp::object::{BuiltinFunction, Function, Object};
use minilisp::reader::read;

fn run_in(env: &mut Environment, input: &str) -> Result<Object, Object> {
    let root = env.root();
    let objects = read(input).unwrap();
    let mut result: Result<Object, Object> = Ok(Object::Nil);
    for exp in objects.into_iter() {
        result = eval(exp, root, env, DEPTH_LIMIT);
    }
    result
}

fn run(input: &str) -> Result<Object, Object> {
    let mut env = Environment::new();
    run_in(&mut env, input)
}

fn error(message: &str) -> Result<Object, Object> {
    Err(Object::Error(String::from(message)))
}

#[test]
fn test_self_evaluating() {
    assert_eq!(run("15"), Ok(Object::Integer(15)));
}

#[test]
fn test_eval_builtin_arithmetic() {
    assert_eq!(run("(+ 1 2 3)"), Ok(Object::Integer(6)));
    assert_eq!(run("(- 3 2 1)"), Ok(Object::Integer(0)));
    assert_eq!(run("(* 2 2 2)"), Ok(Object::Integer(8)));
}

#[test]
fn test_eval_builtin_list() {
    assert_eq!(
        run("(list 1 2 3)"),
        Ok(Object::List(vec![
            Object::Integer(1),
            Object::Integer(2),
            Object::Integer(3)
        ]))
    );
}

#[test]
fn test_eval_builtin_cons() {
    assert_eq!(
        run("(cons 1 2)"),
        Ok(Object::List(vec![Object::Integer(1), Object::Integer(2)]))
    );
}

#[test]
fn test_eval_builtin_car() {
    assert_eq!(run("(car (cons 1 2))"), Ok(Object::Integer(1)));
}

#[test]
fn test_eval_applying_non_callable() {
    assert_eq!(
        run("(1)"),
        Err(Object::Error(String::from("cannot call non-function")))
    );
}

#[test]
fn test_definitions() {
    assert_eq!(
        run("(define foobar 15)
            foobar"),
        Ok(Object::Integer(15))
    );

    assert_eq!(
        run("(define foobar (+ 1 2 3 4))
            foobar"),
        Ok(Object::Integer(10))
    );
}

#[test]
fn test_lambdas() {
    assert_eq!(run("((lambda (x) (+ x 1)) 2)"), Ok(Object::Integer(3)));
    assert_eq!(
        run("((lambda (a b c) (+ a b c)) 1 2 3)"),
        Ok(Object::Integer(6))
    );
}

#[test]
fn minus_needs_two_arguments() {
    assert_eq!(run("(- 5)"), error("not enough arguments"));
    assert_eq!(run("(-)"), error("not enough arguments"));
}

#[test]
fn car_of_empty_list_fails() {
    assert_eq!(run("(car (list))"), error("empty list"));
}

#[test]
fn arithmetic_on_what_is_no_number_fails() {
    assert_eq!(run("(+ 1 (list))"), error("argument has wrong type"));
    assert_eq!(run("(* 2 unbound)"), error("argument has wrong type"));
    assert_eq!(run("(- (list) 1)"), error("argument has wrong type"));
    assert_eq!(run("(- 1 (list))"), error("argument has wrong type"));
}

#[test]
fn empty_sum_and_product() {
    assert_eq!(run("(+)"), Ok(Object::Integer(0)));
    assert_eq!(run("(*)"), Ok(Object::Integer(1)));
}

#[test]
fn arithmetic_wraps_around() {
    assert_eq!(
        run("(+ 9223372036854775807 1)"),
        Ok(Object::Integer(i64::MIN))
    );
    assert_eq!(
        run("(- 0 9223372036854775807 2)"),
        Ok(Object::Integer(i64::MAX))
    );
    assert_eq!(
        run("(* 4611686018427387904 2)"),
        Ok(Object::Integer(i64::MIN))
    );
}

#[test]
fn self_evaluating_values_come_back_unchanged() {
    let mut env = Environment::new();
    let root = env.root();
    let before = env.len();
    assert_eq!(eval(Object::Nil, root, &mut env, 0), Ok(Object::Nil));
    assert_eq!(
        eval(Object::Integer(-7), root, &mut env, 0),
        Ok(Object::Integer(-7))
    );
    assert_eq!(
        eval(Object::new_error("boom"), root, &mut env, 0),
        Ok(Object::Error(String::from("boom")))
    );
    let child = env.new_child(root);
    assert_eq!(
        eval(Object::Integer(3), child, &mut env, DEPTH_LIMIT),
        Ok(Object::Integer(3))
    );
    assert_eq!(env.len(), before + 1);
}

#[test]
fn unbound_symbol_is_nil() {
    assert_eq!(run("nothing"), Ok(Object::Nil));
}

#[test]
fn symbol_evaluates_to_native_procedure() {
    assert_eq!(
        run("car"),
        Ok(Object::Callable(Function::Native(BuiltinFunction::Car)))
    );
}

#[test]
fn define_gives_nil_and_persists() {
    let mut env = Environment::new();
    assert_eq!(run_in(&mut env, "(define x 4)"), Ok(Object::Nil));
    assert_eq!(run_in(&mut env, "(* x x)"), Ok(Object::Integer(16)));
    assert_eq!(run_in(&mut env, "(define x 5)"), Ok(Object::Nil));
    assert_eq!(run_in(&mut env, "x"), Ok(Object::Integer(5)));
}

#[test]
fn define_rejects_what_is_no_symbol() {
    assert_eq!(run("(define 1 2)"), error("argument has wrong type"));
    assert_eq!(run("(define (x) 2)"), error("argument has wrong type"));
    assert_eq!(run("(define)"), error("argument has wrong type"));
    assert_eq!(run("(define x)"), error("not enough arguments"));
}

#[test]
fn define_passes_on_a_failure() {
    let mut env = Environment::new();
    assert_eq!(
        run_in(&mut env, "(define x (car (list)))"),
        error("empty list")
    );
    assert_eq!(run_in(&mut env, "x"), Ok(Object::Nil));
}

#[test]
fn lambda_rejects_bad_parameter_lists() {
    assert_eq!(run("(lambda x x)"), error("arguments are not a list"));
    assert_eq!(run("(lambda (1) 1)"), error("arguments are not a list"));
    assert_eq!(run("(lambda)"), error("arguments are not a list"));
    assert_eq!(run("(lambda (x))"), error("not enough arguments"));
}

#[test]
fn lambda_makes_a_closure_over_the_current_scope() {
    let mut env = Environment::new();
    let root = env.root();
    let child = env.new_child(root);
    let exp = read("(lambda (x) (+ x 1))").unwrap().remove(0);
    let made = eval(exp, child, &mut env, DEPTH_LIMIT);
    let body = read("(+ x 1)").unwrap().remove(0);
    assert_eq!(
        made,
        Ok(Object::Callable(Function::Lambda(
            vec![Object::Symbol(String::from("x"))],
            Box::new(body),
            child
        )))
    );
}

#[test]
fn closure_takes_as_many_arguments_as_parameters() {
    assert_eq!(
        run("((lambda (x y) (+ x y)) 1)"),
        error("wrong number of arguments")
    );
    assert_eq!(
        run("((lambda (x) x) 1 2)"),
        error("wrong number of arguments")
    );
}

#[test]
fn closure_keeps_the_scope_it_was_made_in() {
    let mut env = Environment::new();
    assert_eq!(
        run_in(
            &mut env,
            "(define adder (lambda (x) (lambda (y) (+ x y))))
             (define add2 (adder 2))
             (define add10 (adder 10))
             (define x 1000)
             (add2 3)"
        ),
        Ok(Object::Integer(5))
    );
    assert_eq!(run_in(&mut env, "(add10 3)"), Ok(Object::Integer(13)));
    assert_eq!(
        run("(((lambda (x) (lambda (y) (+ x y))) 4) 5)"),
        Ok(Object::Integer(9))
    );
}

#[test]
fn closure_sees_later_definitions_in_its_scope() {
    let mut env = Environment::new();
    assert_eq!(
        run_in(
            &mut env,
            "(define f (lambda (x) (+ x k)))
             (define k 7)
             (f 1)"
        ),
        Ok(Object::Integer(8))
    );
}

#[test]
fn each_call_gets_a_scope_of_its_own() {
    let mut env = Environment::new();
    let before = env.len();
    assert_eq!(
        run_in(
            &mut env,
            "(define f (lambda (x) (define y x)))
             (f 1)
             (f 2)
             y"
        ),
        Ok(Object::Nil)
    );
    assert_eq!(env.len(), before + 2);
}

#[test]
fn arguments_are_evaluated_left_to_right_and_stop_at_the_first_failure() {
    let mut env = Environment::new();
    assert_eq!(
        run_in(&mut env, "(list (define a 1) (car (list)) (define b 2))"),
        error("empty list")
    );
    assert_eq!(run_in(&mut env, "a"), Ok(Object::Integer(1)));
    assert_eq!(run_in(&mut env, "b"), Ok(Object::Nil));
}

#[test]
fn empty_list_cannot_be_called() {
    assert_eq!(run("()"), error("cannot call non-function"));
}

#[test]
fn endless_recursion_stops_at_the_depth_limit() {
    assert_eq!(
        run("(define f (lambda (x) (f x))) (f 1)"),
        error("recursion limit reached")
    );
}

#[test]
fn depth_counts_nested_lists() {
    let mut env = Environment::new();
    let root = env.root();
    let exp = read("(+ 1 (+ 2 3))").unwrap().remove(0);
    assert_eq!(
        eval(exp.clone(), root, &mut env, 1),
        error("recursion limit reached")
    );
    assert_eq!(eval(exp, root, &mut env, 2), Ok(Object::Integer(6)));
    let list = read("(list)").unwrap().remove(0);
    assert_eq!(
        eval(list, root, &mut env, 0),
        error("recursion limit reached")
    );
}

#[test]
fn apply_runs_natives_and_closures() {
    let mut env = Environment::new();
    let root = env.root();
    let plus = Object::Callable(Function::Native(BuiltinFunction::Plus));
    let args = vec![Object::Integer(20), Object::Integer(22)];
    assert_eq!(
        apply(&plus, &args, root, &mut env, DEPTH_LIMIT),
        Ok(Object::Integer(42))
    );
    let body = read("(* n n)").unwrap().remove(0);
    let square = Object::Callable(Function::Lambda(
        vec![Object::Symbol(String::from("n"))],
        Box::new(body),
        root,
    ));
    assert_eq!(
        apply(&square, &[Object::Integer(9)], root, &mut env, DEPTH_LIMIT),
        Ok(Object::Integer(81))
    );
    assert_eq!(
        apply(&Object::Integer(1), &[], root, &mut env, DEPTH_LIMIT),
        error("cannot call non-function")
    );
}

#[test]
fn closure_over_a_missing_scope_resolves_nothing() {
    let mut env = Environment::new();
    let root = env.root();
    let body = read("car").unwrap().remove(0);
    let lost = Object::Callable(Function::Lambda(vec![], Box::new(body), 99));
    assert_eq!(
        apply(&lost, &[], root, &mut env, DEPTH_LIMIT),
        Ok(Object::Nil)
    );
}

#[test]
fn car_after_cons_scenario() {
    assert_eq!(run("(car (cons 1 2))"), Ok(Object::Integer(1)));
    assert_eq!(run("(cons 1)"), error("wrong number of arguments"));
    assert_eq!(run("(car 1 2)"), error("wrong number of arguments"));
    assert_eq!(run("(car 1)"), error("argument has wrong type"));
}

#[test]
fn define_in_a_missing_scope_fails() {
    let mut env = Environment::new();
    let exp = read("(define x 1)").unwrap().remove(0);
    assert_eq!(
        eval(exp, 42, &mut env, DEPTH_LIMIT),
        error("unknown environment")
    );
    assert_eq!(env.len(), 1);
}

#[test]
fn later_parameter_of_the_same_name_counts() {
    assert_eq!(run("((lambda (x x) x) 1 2)"), Ok(Object::Integer(2)));
}

#[test]
fn greater_depth_gives_the_same_result() {
    let exp = read("((lambda (x) (list x (+ x (* 2 3)))) 4)")
        .unwrap()
        .remove(0);
    let expected = Ok(Object::List(vec![Object::Integer(4), Object::Integer(10)]));
    for depth in [4, 5, 17, DEPTH_LIMIT] {
        let mut env = Environment::new();
        let root = env.root();
        assert_eq!(eval(exp.clone(), root, &mut env, depth), expected);
        assert_eq!(env.len(), 2);
    }
    let mut env = Environment::new();
    let root = env.root();
    assert_eq!(
        eval(exp, root, &mut env, 3),
        error("recursion limit reached")
    );
}

#[test]
fn scopes_stay_where_they_are() {
    let mut env = Environment::new();
    let root = env.root();
    let child = env.new_child(root);
    let x = "x".to_string();
    env.define(child, x.clone(), Object::Integer(5)).unwrap();
    let exp = read("((lambda (y) (define x y)) 9)").unwrap().remove(0);
    assert_eq!(eval(exp, child, &mut env, DEPTH_LIMIT), Ok(Object::Nil));
    assert_eq!(env.get(child, &x), Object::Integer(5));
    assert_eq!(env.get(root, &x), Object::Nil);
    assert_eq!(env.get(2, &x), Object::Integer(9));
    assert_eq!(env.len(), 3);
}
