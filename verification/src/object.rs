//! The values of the language and their mathematical model.

use vstd::prelude::*;

verus! {

/// Names one scope of an [`Environment`].
pub type EnvRef = usize;

/// The procedures that the host provides.
#[derive(Clone, Copy, Debug, PartialEq, Eq, Structural)]
pub enum BuiltinFunction {
    Plus,
    Minus,
    Multiply,
    List,
    Cons,
    Car,
}

/// A procedure: one of the host's, or a closure.
#[derive(Debug, PartialEq)]
pub enum Function {
    Native(BuiltinFunction),
    /// Parameters, the body, and the scope in which the closure was made.
    Lambda(Vec<Object>, Box<Object>, EnvRef),
}

/// Every value of the language.
#[derive(Debug, PartialEq)]
pub enum Object {
    Nil,
    Integer(i64),
    Symbol(String),
    List(Vec<Object>),
    Callable(Function),
    Error(String),
}

/// What an [`Object`] stands for: the same tree over mathematical
/// integers and sequences.
pub ghost enum Value {
    Nil,
    Integer(int),
    Symbol(Seq<char>),
    List(Seq<Value>),
    Native(BuiltinFunction),
    Lambda(Seq<Value>, Box<Value>, int),
    Error(Seq<char>),
}

impl Object {
    /// The value that this object stands for.
    pub open spec fn value(&self) -> Value
        decreases self,
    {
        match self {
            Object::Nil => Value::Nil,
            Object::Integer(n) => Value::Integer(*n as int),
            Object::Symbol(s) => Value::Symbol(s@),
            Object::List(items) => Value::List(
                Seq::new(
                    items.len() as nat,
                    |i: int|
                        if 0 <= i < items.len() {
                            items[i].value()
                        } else {
                            Value::Nil
                        },
                ),
            ),
            Object::Callable(Function::Native(b)) => Value::Native(*b),
            Object::Callable(Function::Lambda(params, body, env)) => Value::Lambda(
                Seq::new(
                    params.len() as nat,
                    |i: int|
                        if 0 <= i < params.len() {
                            params[i].value()
                        } else {
                            Value::Nil
                        },
                ),
                Box::new(body.value()),
                *env as int,
            ),
            Object::Error(m) => Value::Error(m@),
        }
    }
}

/// The values of a sequence of objects, in order.
pub open spec fn values_of(items: Seq<Object>) -> Seq<Value> {
    Seq::new(items.len(), |i: int| items[i].value())
}

impl View for Object {
    type V = Value;

    open spec fn view(&self) -> Value {
        self.value()
    }
}

/// The value of a list is the list of its items' values.
pub proof fn lemma_list_value(items: Vec<Object>)
    ensures
        Object::List(items)@ == Value::List(values_of(items@)),
{
    assert(Object::List(items).value()->List_0 =~= values_of(items@));
}

/// The value of a closure holds its parameters' values, its body's value
/// and the scope it was made in.
pub proof fn lemma_lambda_value(params: Vec<Object>, body: Box<Object>, env: EnvRef)
    ensures
        Object::Callable(Function::Lambda(params, body, env))@ == Value::Lambda(
            values_of(params@),
            Box::new(body@),
            env as int,
        ),
{
    assert(Object::Callable(Function::Lambda(params, body, env)).value()->Lambda_0 =~= values_of(
        params@,
    ));
}

/// A copy of each object of `items`, in order.
pub fn clone_objects(items: &Vec<Object>) -> (r: Vec<Object>)
    ensures
        values_of(r@) == values_of(items@),
    decreases items, 0nat,
{
    let mut out: Vec<Object> = Vec::new();
    let mut i: usize = 0;
    while i < items.len()
        invariant
            i <= items.len(),
            out.len() == i,
            forall|k: int| 0 <= k < i ==> out[k]@ == items[k]@,
        decreases items.len() - i,
    {
        out.push(items[i].clone());
        i += 1;
    }
    assert(values_of(out@) =~= values_of(items@));
    out
}

impl Clone for Object {
    fn clone(&self) -> (r: Object)
        ensures
            r@ == self@,
        decreases self, 1nat,
    {
        match self {
            Object::Nil => Object::Nil,
            Object::Integer(n) => Object::Integer(*n),
            Object::Symbol(s) => Object::Symbol(s.clone()),
            Object::List(items) => {
                let copy = clone_objects(items);
                proof {
                    lemma_list_value(*items);
                    lemma_list_value(copy);
                }
                Object::List(copy)
            },
            Object::Callable(Function::Native(b)) => Object::Callable(Function::Native(*b)),
            Object::Callable(Function::Lambda(params, body, env)) => {
                let p = clone_objects(params);
                let b = Box::new((**body).clone());
                proof {
                    lemma_lambda_value(*params, *body, *env);
                    lemma_lambda_value(p, b, *env);
                }
                Object::Callable(Function::Lambda(p, b, *env))
            },
            Object::Error(m) => Object::Error(m.clone()),
        }
    }
}

impl Clone for Function {
    fn clone(&self) -> (r: Function)
        ensures
            Object::Callable(r)@ == Object::Callable(*self)@,
    {
        match self {
            Function::Native(b) => Function::Native(*b),
            Function::Lambda(params, body, env) => {
                let p = clone_objects(params);
                let b = Box::new((**body).clone());
                proof {
                    lemma_lambda_value(*params, *body, *env);
                    lemma_lambda_value(p, b, *env);
                }
                Function::Lambda(p, b, *env)
            },
        }
    }
}

impl Object {
    /// An error value that carries `message`.
    pub fn new_error(message: &str) -> (r: Object)
        ensures
            r@ == Value::Error(message@),
    {
        Object::Error(String::from_str(message))
    }

    /// Whether this symbol is named `s`; `None` for what is no symbol.
    pub fn has_symbol_value(&self, s: &str) -> (r: Option<bool>)
        ensures
            r == match self@ {
                Value::Symbol(name) => Some(name == s@),
                _ => None,
            },
    {
        match self {
            Object::Symbol(sym) => Some(*sym == String::from_str(s)),
            _ => None,
        }
    }
}

} // verus!
