//! The text form of each object.

use crate::object::{lemma_lambda_value, lemma_list_value, values_of, Function, Object, Value};
use vstd::prelude::*;

verus! {

/// The character for a digit.
pub open spec fn digit_char(d: nat) -> char {
    ((d + 48) as u8) as char
}

/// The decimal digits of `n`, without leading zeros.
pub open spec fn digits_of(n: nat) -> Seq<char>
    decreases n,
{
    if n < 10 {
        seq![digit_char(n)]
    } else {
        digits_of(n / 10).push(digit_char(n % 10))
    }
}

/// An integer in decimal, with a minus sign where it is negative.
pub open spec fn render_int(n: int) -> Seq<char> {
    if n < 0 {
        seq!['-'] + digits_of((-n) as nat)
    } else {
        digits_of(n as nat)
    }
}

/// The text form of a value: `<nil>`, a number in decimal, a symbol's
/// name, a list's items between parentheses with one space between them,
/// `<callable>` for a procedure, and an error's message inside `Error(` and
/// `)`.
pub open spec fn render(v: Value) -> Seq<char>
    decreases v, 0nat,
{
    match v {
        Value::Nil => "<nil>"@,
        Value::Integer(n) => render_int(n),
        Value::Symbol(name) => name,
        Value::List(items) => seq!['('] + render_items(items, items.len()) + seq![')'],
        Value::Native(_) => "<callable>"@,
        Value::Lambda(_, _, _) => "<callable>"@,
        Value::Error(m) => "Error("@ + m + seq![')'],
    }
}

/// The text forms of the first `n` of `items`, with one space between
/// them.
pub open spec fn render_items(items: Seq<Value>, n: nat) -> Seq<char>
    decreases items, n,
{
    if n == 0 || n > items.len() {
        Seq::empty()
    } else if n == 1 {
        render(items[0])
    } else {
        render_items(items, (n - 1) as nat) + seq![' '] + render(items[n - 1])
    }
}

/// The text for one digit.
fn digit_text(d: u64) -> (r: &'static str)
    requires
        d < 10,
    ensures
        r@ == seq![digit_char(d as nat)],
{
    proof {
        reveal_strlit("0");
        reveal_strlit("1");
        reveal_strlit("2");
        reveal_strlit("3");
        reveal_strlit("4");
        reveal_strlit("5");
        reveal_strlit("6");
        reveal_strlit("7");
        reveal_strlit("8");
        reveal_strlit("9");
    }
    let r = if d == 0 {
        "0"
    } else if d == 1 {
        "1"
    } else if d == 2 {
        "2"
    } else if d == 3 {
        "3"
    } else if d == 4 {
        "4"
    } else if d == 5 {
        "5"
    } else if d == 6 {
        "6"
    } else if d == 7 {
        "7"
    } else if d == 8 {
        "8"
    } else {
        "9"
    };
    assert(r@ =~= seq![digit_char(d as nat)]);
    r
}

/// Appends the decimal digits of `n` to `out`.
fn append_digits(out: &mut String, n: u64)
    ensures
        final(out)@ == old(out)@ + digits_of(n as nat),
    decreases n,
{
    if n >= 10 {
        append_digits(out, n / 10);
    }
    out.append(digit_text(n % 10));
    assert(out@ =~= old(out)@ + digits_of(n as nat));
}

/// Appends the text form of `n` to `out`.
fn append_integer(out: &mut String, n: i64)
    ensures
        final(out)@ == old(out)@ + render_int(n as int),
{
    if n < 0 {
        proof {
            reveal_strlit("-");
        }
        out.append("-");
        let magnitude: u64 = (-(n as i128)) as u64;
        append_digits(out, magnitude);
        assert(out@ =~= old(out)@ + render_int(n as int));
    } else {
        append_digits(out, n as u64);
    }
}

/// Appends the text forms of `items` to `out`, with one space between them.
fn append_items(out: &mut String, items: &Vec<Object>)
    ensures
        final(out)@ == old(out)@ + render_items(values_of(items@), items.len() as nat),
    decreases items, 0nat,
{
    let ghost vals = values_of(items@);
    let mut i: usize = 0;
    assert(out@ =~= old(out)@ + render_items(vals, 0));
    while i < items.len()
        invariant
            i <= items.len(),
            vals == values_of(items@),
            out@ == old(out)@ + render_items(vals, i as nat),
        decreases items.len() - i,
    {
        if i != 0 {
            proof {
                reveal_strlit(" ");
            }
            out.append(" ");
        }
        append_object(out, &items[i]);
        assert(out@ =~= old(out)@ + render_items(vals, (i + 1) as nat));
        i += 1;
    }
}

/// Appends the text form of `object` to `out`.
fn append_object(out: &mut String, object: &Object)
    ensures
        final(out)@ == old(out)@ + render(object@),
    decreases object, 1nat,
{
    match object {
        Object::Nil => {
            out.append("<nil>");
        },
        Object::Integer(n) => {
            append_integer(out, *n);
        },
        Object::Symbol(name) => {
            out.append(name.as_str());
        },
        Object::List(items) => {
            proof {
                reveal_strlit("(");
                reveal_strlit(")");
                lemma_list_value(*items);
            }
            out.append("(");
            append_items(out, items);
            out.append(")");
            assert(out@ =~= old(out)@ + render(object@));
        },
        Object::Callable(Function::Native(_)) => {
            out.append("<callable>");
        },
        Object::Callable(Function::Lambda(params, body, env)) => {
            proof {
                lemma_lambda_value(*params, *body, *env);
            }
            out.append("<callable>");
        },
        Object::Error(m) => {
            proof {
                reveal_strlit(")");
            }
            out.append("Error(");
            out.append(m.as_str());
            out.append(")");
            assert(out@ =~= old(out)@ + render(object@));
        },
    }
}

impl Function {
    /// The text form of a procedure by its kind: `<native>` or `<lambda>`.
    pub fn to_text(&self) -> (r: String)
        ensures
            r@ == (match self {
                Function::Native(_) => "<native>"@,
                Function::Lambda(_, _, _) => "<lambda>"@,
            }),
    {
        match self {
            Function::Native(_) => String::from_str("<native>"),
            Function::Lambda(_, _, _) => String::from_str("<lambda>"),
        }
    }
}

impl Object {
    /// The text form of this object.
    pub fn to_text(&self) -> (r: String)
        ensures
            r@ == render(self@),
    {
        let mut out = String::new();
        append_object(&mut out, self);
        assert(out@ =~= render(self@));
        out
    }
}

} // verus!
