use minilisp::builtins::{car, cons, list, minus, multiply, plus};
use minilisp::environment::Environment;
use minilisp::object::{BuiltinFunction, Function, Object};
use minilisp::reader::read;

fn integer_vec(numbers: &[i64]) -> Vec<Object> {
    let mut temp_vec = Vec::new();
    for x in numbers {
        temp_vec.push(Object::Integer(*x));
    }
    temp_vec
}

#[test]
fn test_list_plus() {
    let args = integer_vec(&[1, 2, 3]);
    let sum = plus(&args, Environment::new().root());
    assert_eq!(sum, Ok(Object::Integer(6)));
}

#[test]
fn test_list_minus() {
    let args = integer_vec(&[8, 4, 2]);
    let result = minus(&args, Environment::new().root());
    assert_eq!(result, Ok(Object::Integer(2)));
}

#[test]
fn test_list_multiply() {
    let args = integer_vec(&[1, 2, 3]);
    let multiply_result = multiply(&args, Environment::new().root());
    assert_eq!(multiply_result, Ok(Object::Integer(6)));
}

#[test]
fn test_cons() {
    let args = integer_vec(&[1, 2]);
    let cons_result = cons(&args, Environment::new().root());
    assert_eq!(cons_result, Ok(Object::List(integer_vec(&[1, 2]))));

    let args = integer_vec(&[1, 2, 3, 4]);
    let cons_result = cons(&args, Environment::new().root());
    assert_eq!(
        cons_result,
        Err(Object::Error(String::from("wrong number of arguments")))
    );
}

#[test]
fn test_car() {
    let args = vec![Object::List(integer_vec(&[1, 2]))];
    let car_result = car(&args, Environment::new().root());
    assert_eq!(car_result, Ok(Object::Integer(1)));

    let args = vec![Object::List(Vec::new())];
    let car_result = car(&args, Environment::new().root());
    assert_eq!(car_result, Err(Object::Error(String::from("empty list"))));

    let args = vec![Object::Integer(1)];
    let car_result = car(&args, Environment::new().root());
    assert_eq!(
        car_result,
        Err(Object::Error(String::from("argument has wrong type")))
    );
}

#[test]
fn test_environment_get() {
    let mut env = Environment::new();
    let root = env.root();

    let name = "six".to_string();
    let result = env.define(root, name.clone(), Object::Integer(6));
    assert!(result.is_ok());
    assert_eq!(env.get(root, &name), Object::Integer(6));

    let name = "doesnotexist".to_string();
    assert_eq!(env.get(root, &name), Object::Nil);
}

#[test]
fn test_environment_get_with_parent() {
    let mut env = Environment::new();
    let parent = env.root();

    let only_in_parent = "inparent".to_string();
    let result = env.define(parent, only_in_parent.clone(), Object::Integer(6));
    assert!(result.is_ok());
    assert_eq!(env.get(parent, &only_in_parent), Object::Integer(6));

    let child = env.new_child(parent);
    assert_eq!(env.get(child, &only_in_parent), Object::Integer(6));

    let only_in_child = "inchild".to_string();
    let result = env.define(child, only_in_child.clone(), Object::Integer(99));
    assert!(result.is_ok());
    assert_eq!(env.get(child, &only_in_child), Object::Integer(99));
    assert_eq!(env.get(parent, &only_in_child), Object::Nil);
}

#[test]
fn list_keeps_its_arguments() {
    let args = vec![
        Object::Integer(1),
        Object::Symbol(String::from("a")),
        Object::List(vec![]),
    ];
    assert_eq!(list(&args, 0), Ok(Object::List(args.clone())));
    assert_eq!(list(&[], 0), Ok(Object::List(vec![])));
}

#[test]
fn minus_folds_from_the_left() {
    assert_eq!(
        minus(&integer_vec(&[10, 1, 2, 3]), 0),
        Ok(Object::Integer(4))
    );
    assert_eq!(minus(&integer_vec(&[1, 5]), 0), Ok(Object::Integer(-4)));
    assert_eq!(
        minus(&integer_vec(&[5]), 0),
        Err(Object::Error(String::from("not enough arguments")))
    );
}

#[test]
fn arithmetic_rejects_other_values() {
    let wrong = Err(Object::Error(String::from("argument has wrong type")));
    let mixed = vec![Object::Integer(1), Object::Nil, Object::Integer(2)];
    assert_eq!(plus(&mixed, 0), wrong);
    assert_eq!(multiply(&mixed, 0), wrong);
    assert_eq!(minus(&mixed, 0), wrong);
    let first = vec![Object::Nil, Object::Integer(2)];
    assert_eq!(minus(&first, 0), wrong);
}

#[test]
fn new_error_holds_its_message() {
    assert_eq!(
        Object::new_error("empty list"),
        Object::Error(String::from("empty list"))
    );
}

#[test]
fn has_symbol_value_compares_names() {
    let define = Object::Symbol(String::from("define"));
    assert_eq!(define.has_symbol_value("define"), Some(true));
    assert_eq!(define.has_symbol_value("lambda"), Some(false));
    assert_eq!(Object::Integer(1).has_symbol_value("define"), None);
    assert_eq!(Object::new_error("define").has_symbol_value("define"), None);
}

#[test]
fn clone_copies_the_whole_tree() {
    let body = Object::List(vec![
        Object::Symbol(String::from("+")),
        Object::Symbol(String::from("x")),
        Object::Integer(1),
    ]);
    let closure = Object::Callable(Function::Lambda(
        vec![Object::Symbol(String::from("x"))],
        Box::new(body),
        3,
    ));
    let tree = Object::List(vec![
        Object::Nil,
        Object::Integer(-5),
        closure,
        Object::Callable(Function::Native(BuiltinFunction::Cons)),
        Object::new_error("e"),
    ]);
    assert_eq!(tree.clone(), tree);
    let f = Function::Native(BuiltinFunction::Minus);
    assert_eq!(f.clone(), f);
}

#[test]
fn root_scope_binds_the_native_procedures() {
    let env = Environment::new();
    let root = env.root();
    assert_eq!(env.len(), 1);
    let expected = [
        ("+", BuiltinFunction::Plus),
        ("-", BuiltinFunction::Minus),
        ("*", BuiltinFunction::Multiply),
        ("list", BuiltinFunction::List),
        ("cons", BuiltinFunction::Cons),
        ("car", BuiltinFunction::Car),
    ];
    for (name, f) in expected {
        assert_eq!(
            env.get(root, &name.to_string()),
            Object::Callable(Function::Native(f))
        );
    }
}

#[test]
fn define_shadows_without_touching_the_parent() {
    let mut env = Environment::new();
    let parent = env.root();
    let x = "x".to_string();
    assert_eq!(
        env.define(parent, x.clone(), Object::Integer(1)),
        Ok(Object::Nil)
    );
    let child = env.new_child(parent);
    let sibling = env.new_child(parent);
    assert_eq!(
        env.define(child, x.clone(), Object::Integer(2)),
        Ok(Object::Nil)
    );
    assert_eq!(env.get(child, &x), Object::Integer(2));
    assert_eq!(env.get(parent, &x), Object::Integer(1));
    assert_eq!(env.get(sibling, &x), Object::Integer(1));
    let grandchild = env.new_child(child);
    assert_eq!(env.get(grandchild, &x), Object::Integer(2));
}

#[test]
fn define_overwrites_in_the_same_scope() {
    let mut env = Environment::new();
    let root = env.root();
    let x = "x".to_string();
    let y = "y".to_string();
    env.define(root, x.clone(), Object::Integer(1)).unwrap();
    env.define(root, y.clone(), Object::Integer(7)).unwrap();
    env.define(root, x.clone(), Object::Integer(2)).unwrap();
    assert_eq!(env.get(root, &x), Object::Integer(2));
    assert_eq!(env.get(root, &y), Object::Integer(7));
    env.define(root, "+".to_string(), Object::Nil).unwrap();
    assert_eq!(env.get(root, &"+".to_string()), Object::Nil);
}

#[test]
fn unknown_scope_binds_nothing() {
    let mut env = Environment::new();
    let x = "x".to_string();
    assert_eq!(
        env.define(5, x.clone(), Object::Integer(1)),
        Err(Object::Error(String::from("unknown environment")))
    );
    assert_eq!(env.len(), 1);
    assert_eq!(env.get(5, &x), Object::Nil);
    let orphan = env.new_child(17);
    assert_eq!(orphan, 1);
    assert_eq!(env.get(orphan, &"car".to_string()), Object::Nil);
}

#[test]
fn text_forms() {
    assert_eq!(Object::Nil.to_text(), "<nil>");
    assert_eq!(Object::Integer(0).to_text(), "0");
    assert_eq!(Object::Integer(1234567890).to_text(), "1234567890");
    assert_eq!(Object::Integer(-42).to_text(), "-42");
    assert_eq!(Object::Integer(i64::MAX).to_text(), "9223372036854775807");
    assert_eq!(Object::Integer(i64::MIN).to_text(), "-9223372036854775808");
    assert_eq!(Object::Symbol(String::from("list-one")).to_text(), "list-one");
    assert_eq!(Object::List(vec![]).to_text(), "()");
    assert_eq!(Object::List(vec![Object::Integer(1)]).to_text(), "(1)");
    assert_eq!(
        Object::Callable(Function::Native(BuiltinFunction::Plus)).to_text(),
        "<callable>"
    );
    assert_eq!(
        Object::Callable(Function::Lambda(vec![], Box::new(Object::Nil), 0)).to_text(),
        "<callable>"
    );
    assert_eq!(Object::new_error("empty list").to_text(), "Error(empty list)");
    let nested = read("(1 (2 3 (4 5)) x)").unwrap().remove(0);
    assert_eq!(nested.to_text(), "(1 (2 3 (4 5)) x)");
}

#[test]
fn text_form_reads_back_as_the_same_object() {
    let inputs = [
        "7",
        "foo",
        "()",
        "(+ 1 2 3)",
        "(define (f x) (* x (- 10 x)))",
        "(a (b (c (d))) 12 !?)",
    ];
    for input in inputs {
        let first = read(input).unwrap();
        assert_eq!(first.len(), 1);
        let text = first[0].to_text();
        let again = read(&text).unwrap();
        assert_eq!(again, first);
    }
}

#[test]
fn number_that_wrapped_below_zero_reads_back_as_a_symbol() {
    let first = read("9223372036854775808").unwrap();
    assert_eq!(first, vec![Object::Integer(i64::MIN)]);
    let text = first[0].to_text();
    assert_eq!(text, "-9223372036854775808");
    assert_eq!(read(&text), Ok(vec![Object::Symbol(text.clone())]));
}

#[test]
fn procedures_have_a_text_form_by_kind() {
    assert_eq!(
        Function::Native(BuiltinFunction::List).to_text(),
        "<native>"
    );
    assert_eq!(
        Function::Lambda(vec![], Box::new(Object::Nil), 0).to_text(),
        "<lambda>"
    );
}
