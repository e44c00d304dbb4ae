//! Reading back what was written: the text form of a readable value reads
//! as that value again.

use crate::object::Value;
use crate::printer::{digit_char, digits_of, render, render_items};
use crate::reader::{
    decimal, digit_value, digits_end, is_blank, is_digit, lemma_symbol_end, parse_all,
    parse_items, parse_object, read_model, symbol_char, symbol_end,
};
use crate::wrapping::lemma_wrap_fits;
use vstd::prelude::*;

verus! {

/// A name that reads as one symbol: symbol characters, at least one, the
/// first of them no digit.
pub open spec fn symbol_name(name: Seq<char>) -> bool {
    &&& name.len() > 0
    &&& !is_digit(name[0])
    &&& forall|i: int| 0 <= i < name.len() ==> symbol_char(#[trigger] name[i])
}

/// A value that the reader can give: a 64-bit number, a symbol with a
/// name that reads as one, or a list of such values.
pub open spec fn datum(v: Value) -> bool
    decreases v,
{
    match v {
        Value::Integer(n) => i64::MIN <= n <= i64::MAX,
        Value::Symbol(name) => symbol_name(name),
        Value::List(items) => forall|i: int| 0 <= i < items.len() ==> datum(#[trigger] items[i]),
        _ => false,
    }
}

/// No number in `v`, at any depth, is negative.
pub open spec fn non_negative(v: Value) -> bool
    decreases v,
{
    match v {
        Value::Integer(n) => 0 <= n,
        Value::List(items) => forall|i: int|
            0 <= i < items.len() ==> non_negative(#[trigger] items[i]),
        _ => true,
    }
}

/// A value whose text form denotes it: one that the reader can give, with
/// no negative number in it. (A number is negative only where its digits
/// went beyond 64 bits; its minus sign would read as a symbol.)
pub open spec fn readable(v: Value) -> bool {
    datum(v) && non_negative(v)
}

/// The text `s` holds `part` from `pos` on.
pub open spec fn holds_at(s: Seq<char>, pos: int, part: Seq<char>) -> bool {
    &&& 0 <= pos
    &&& pos + part.len() <= s.len()
    &&& forall|i: int| 0 <= i < part.len() ==> s[pos + i] == #[trigger] part[i]
}

/// No token goes on at `end`: the text is over there, or what stands there
/// is no symbol character.
pub open spec fn ends_token(s: Seq<char>, end: int) -> bool {
    end == s.len() || (0 <= end < s.len() && !symbol_char(s[end]))
}

proof fn lemma_holds_split(s: Seq<char>, pos: int, a: Seq<char>, b: Seq<char>)
    requires
        holds_at(s, pos, a + b),
    ensures
        holds_at(s, pos, a),
        holds_at(s, pos + a.len(), b),
{
    let whole = a + b;
    assert forall|i: int| 0 <= i < a.len() implies s[pos + i] == #[trigger] a[i] by {
        assert(whole[i] == a[i]);
    }
    assert forall|i: int| 0 <= i < b.len() implies s[pos + a.len() + i] == #[trigger] b[i] by {
        assert(whole[a.len() + i] == b[i]);
    }
}

proof fn lemma_digit_char(d: nat)
    requires
        d < 10,
    ensures
        is_digit(digit_char(d)),
        digit_value(digit_char(d)) == d,
        symbol_char(digit_char(d)),
{
}

/// The decimal digits of a number are digits, at least one.
proof fn lemma_digits_of(n: nat)
    ensures
        digits_of(n).len() >= 1,
        forall|i: int| 0 <= i < digits_of(n).len() ==> is_digit(#[trigger] digits_of(n)[i]),
    decreases n,
{
    if n < 10 {
        lemma_digit_char(n);
    } else {
        lemma_digits_of(n / 10);
        lemma_digit_char(n % 10);
    }
}

/// The decimal digits of a number denote it.
pub proof fn lemma_decimal_of_digits(n: nat)
    ensures
        decimal(digits_of(n)) == n,
    decreases n,
{
    let ds = digits_of(n);
    if n < 10 {
        lemma_digit_char(n);
        assert(ds.drop_last() =~= Seq::<char>::empty());
        assert(decimal(ds.drop_last()) == 0);
        assert(ds.last() == digit_char(n));
    } else {
        lemma_decimal_of_digits(n / 10);
        lemma_digit_char(n % 10);
        assert(ds.drop_last() =~= digits_of(n / 10));
        assert(ds.last() == digit_char(n % 10));
    }
}

proof fn lemma_digits_run(s: Seq<char>, pos: int, end: int)
    requires
        0 <= pos <= end <= s.len(),
        forall|k: int| pos <= k < end ==> is_digit(#[trigger] s[k]),
        end == s.len() || !is_digit(s[end]),
    ensures
        digits_end(s, pos) == end,
    decreases end - pos,
{
    if pos < end {
        assert(is_digit(s[pos]));
        lemma_digits_run(s, pos + 1, end);
    }
}

proof fn lemma_symbol_run(s: Seq<char>, pos: int, end: int)
    requires
        0 <= pos <= end <= s.len(),
        forall|k: int| pos <= k < end ==> symbol_char(#[trigger] s[k]),
        end == s.len() || !symbol_char(s[end]),
    ensures
        symbol_end(s, pos) == end,
    decreases end - pos,
{
    if pos < end {
        assert(symbol_char(s[pos]));
        lemma_symbol_run(s, pos + 1, end);
    }
}

/// The text form of the items from the `k`-th on, each but the very first
/// with a space before it, and the parenthesis that closes the list.
pub open spec fn render_tail(items: Seq<Value>, k: nat) -> Seq<char>
    decreases items.len() - k,
{
    if k >= items.len() {
        seq![')']
    } else {
        (if k > 0 {
            seq![' ']
        } else {
            Seq::empty()
        }) + render(items[k as int]) + render_tail(items, k + 1)
    }
}

/// A list's text form is its first `k` items followed by the rest.
proof fn lemma_render_tail(items: Seq<Value>, k: nat)
    requires
        k <= items.len(),
    ensures
        render_items(items, k) + render_tail(items, k) == render_items(items, items.len())
            + seq![')'],
    decreases items.len() - k,
{
    if k < items.len() {
        lemma_render_tail(items, k + 1);
        assert(render_items(items, k) + render_tail(items, k) =~= render_items(items, k + 1)
            + render_tail(items, k + 1));
    }
}

/// The text form of a readable value starts with a character that tells
/// what it is, and that is neither blank nor a closing parenthesis.
proof fn lemma_first_char(v: Value)
    requires
        readable(v),
    ensures
        render(v).len() > 0,
        !is_blank(render(v)[0]),
        render(v)[0] != ')',
        v is Integer ==> is_digit(render(v)[0]),
        v is List ==> render(v)[0] == '(',
        v is Symbol ==> symbol_char(render(v)[0]) && !is_digit(render(v)[0]),
{
    match v {
        Value::Integer(n) => {
            lemma_digits_of(n as nat);
            assert(is_digit(digits_of(n as nat)[0]));
        },
        Value::Symbol(name) => {
            assert(symbol_char(name[0]));
        },
        _ => {},
    }
}

/// Where the text holds the text form of a readable value, and no token
/// goes on behind it, the value is read there.
proof fn lemma_read_back(v: Value, s: Seq<char>, pos: int)
    requires
        readable(v),
        holds_at(s, pos, render(v)),
        ends_token(s, pos + render(v).len()),
    ensures
        parse_object(s, pos) == Ok::<(Value, int), Seq<char>>((v, pos + render(v).len())),
    decreases v, 0nat,
{
    let text = render(v);
    let end: int = pos + text.len();
    lemma_first_char(v);
    assert(s[pos + 0] == text[0]);
    match v {
        Value::Integer(n) => {
            lemma_digits_of(n as nat);
            lemma_decimal_of_digits(n as nat);
            lemma_wrap_fits(n);
            assert forall|k: int| pos <= k < end implies is_digit(#[trigger] s[k]) by {
                assert(s[pos + (k - pos)] == text[k - pos]);
            }
            lemma_digits_run(s, pos, end);
            assert(s.subrange(pos, end) =~= text) by {
                assert forall|i: int| 0 <= i < text.len() implies s.subrange(pos, end)[i]
                    == text[i] by {
                    assert(s[pos + i] == text[i]);
                }
            }
        },
        Value::Symbol(name) => {
            assert forall|k: int| pos <= k < end implies symbol_char(#[trigger] s[k]) by {
                assert(s[pos + (k - pos)] == text[k - pos]);
            }
            lemma_symbol_run(s, pos, end);
            assert(s.subrange(pos, end) =~= name) by {
                assert forall|i: int| 0 <= i < text.len() implies s.subrange(pos, end)[i]
                    == text[i] by {
                    assert(s[pos + i] == text[i]);
                }
            }
        },
        Value::List(items) => {
            assert forall|i: int| 0 <= i < items.len() implies readable(#[trigger] items[i]) by {
                assert(datum(items[i]) && non_negative(items[i]));
            }
            lemma_render_tail(items, 0);
            assert(text =~= seq!['('] + render_tail(items, 0));
            lemma_holds_split(s, pos, seq!['('], render_tail(items, 0));
            lemma_read_items_back(items, 0, s, pos + 1, Seq::empty());
            assert(Seq::<Value>::empty() + items.subrange(0, items.len() as int) =~= items);
        },
        _ => {},
    }
}

/// Where the text holds the rest of a list of readable values, the rest is
/// read there, up to and with the parenthesis that closes the list.
proof fn lemma_read_items_back(
    items: Seq<Value>,
    k: nat,
    s: Seq<char>,
    pos: int,
    done: Seq<Value>,
)
    requires
        forall|i: int| 0 <= i < items.len() ==> readable(#[trigger] items[i]),
        k <= items.len(),
        holds_at(s, pos, render_tail(items, k)),
    ensures
        parse_items(s, pos, done) == Ok::<(Seq<Value>, int), Seq<char>>(
            (
                done + items.subrange(k as int, items.len() as int),
                pos + render_tail(items, k).len(),
            ),
        ),
    decreases items, items.len() - k,
{
    let tail = render_tail(items, k);
    if k >= items.len() {
        assert(s[pos + 0] == tail[0]);
        assert(done + items.subrange(k as int, items.len() as int) =~= done);
    } else {
        let item = items[k as int];
        let text = render(item);
        let rest = render_tail(items, k + 1);
        let start: int = if k > 0 {
            pos + 1
        } else {
            pos
        };
        lemma_first_char(item);
        if k > 0 {
            assert(tail =~= seq![' '] + (text + rest));
            lemma_holds_split(s, pos, seq![' '], text + rest);
            assert(s[pos + 0] == seq![' '][0]);
            assert(parse_items(s, pos, done) == parse_items(s, start, done));
        } else {
            assert(tail =~= text + rest);
        }
        lemma_holds_split(s, start, text, rest);
        assert(s[start + 0] == text[0]);
        let next: int = start + text.len();
        assert(s[next + 0] == rest[0]);
        assert(rest[0] == ')' || rest[0] == ' ');
        lemma_read_back(item, s, start);
        lemma_read_items_back(items, k + 1, s, next, done.push(item));
        assert(done.push(item) + items.subrange(k as int + 1, items.len() as int) =~= done
            + items.subrange(k as int, items.len() as int));
    }
}

/// Round trip. The text form of a readable value, read as a text of its
/// own, gives that value and nothing else.
pub proof fn law_round_trip(v: Value)
    requires
        readable(v),
    ensures
        read_model(render(v)) == Ok::<Seq<Value>, Seq<char>>(seq![v]),
{
    let s = render(v);
    lemma_first_char(v);
    lemma_read_back(v, s, 0);
    assert(Seq::<Value>::empty().push(v) =~= seq![v]);
    assert(parse_all(s, s.len() as int, seq![v]) == Ok::<Seq<Value>, Seq<char>>(seq![v]));
}

/// What is read at a place is a datum.
proof fn lemma_parse_gives_datum(s: Seq<char>, pos: int)
    ensures
        parse_object(s, pos) matches Ok((v, _)) ==> datum(v),
    decreases s.len() - pos, 0nat,
{
    if 0 <= pos < s.len() {
        if is_digit(s[pos]) {
        } else if s[pos] == '(' {
            lemma_items_are_data(s, pos + 1, Seq::empty());
        } else if symbol_char(s[pos]) {
            lemma_symbol_end(s, pos);
            let end: int = symbol_end(s, pos);
            let name = s.subrange(pos, end);
            assert(name[0] == s[pos]);
            assert forall|i: int| 0 <= i < name.len() implies symbol_char(#[trigger] name[i]) by {
                assert(name[i] == s[pos + i]);
            }
        }
    }
}

proof fn lemma_items_are_data(s: Seq<char>, pos: int, done: Seq<Value>)
    requires
        0 <= pos,
        forall|i: int| 0 <= i < done.len() ==> datum(#[trigger] done[i]),
    ensures
        parse_items(s, pos, done) matches Ok((items, _)) ==> forall|i: int|
            0 <= i < items.len() ==> datum(#[trigger] items[i]),
    decreases s.len() - pos, 1nat,
{
    if 0 <= pos < s.len() && s[pos] != ')' {
        if is_blank(s[pos]) {
            lemma_items_are_data(s, pos + 1, done);
        } else {
            lemma_parse_gives_datum(s, pos);
            match parse_object(s, pos) {
                Ok((item, next)) => {
                    if pos < next <= s.len() {
                        lemma_items_are_data(s, next, done.push(item));
                    }
                },
                Err(_) => {},
            }
        }
    }
}

proof fn lemma_all_are_data(s: Seq<char>, pos: int, done: Seq<Value>)
    requires
        0 <= pos,
        forall|i: int| 0 <= i < done.len() ==> datum(#[trigger] done[i]),
    ensures
        parse_all(s, pos, done) matches Ok(objects) ==> forall|i: int|
            0 <= i < objects.len() ==> datum(#[trigger] objects[i]),
    decreases s.len() - pos,
{
    if 0 <= pos < s.len() {
        if is_blank(s[pos]) {
            lemma_all_are_data(s, pos + 1, done);
        } else {
            lemma_parse_gives_datum(s, pos);
            match parse_object(s, pos) {
                Ok((item, next)) => {
                    if pos < next <= s.len() {
                        lemma_all_are_data(s, next, done.push(item));
                    }
                },
                Err(_) => {},
            }
        }
    }
}

/// Whatever the reader gives is a datum: a number, a symbol or a list of
/// data, never a procedure, an error or `Nil`.
pub proof fn law_read_gives_data(s: Seq<char>)
    ensures
        read_model(s) matches Ok(objects) ==> forall|i: int|
            0 <= i < objects.len() ==> datum(#[trigger] objects[i]),
{
    lemma_all_are_data(s, 0, Seq::empty());
}

/// Round trip of what was read. Each object that a text reads as has,
/// unless a number in it is negative, a text form that reads as that object
/// alone.
pub proof fn law_read_text_reads_back(s: Seq<char>, i: int)
    requires
        read_model(s) is Ok,
        0 <= i < read_model(s)->Ok_0.len(),
        non_negative(read_model(s)->Ok_0[i]),
    ensures
        read_model(render(read_model(s)->Ok_0[i])) == Ok::<Seq<Value>, Seq<char>>(
            seq![read_model(s)->Ok_0[i]],
        ),
{
    law_read_gives_data(s);
    law_round_trip(read_model(s)->Ok_0[i]);
}

} // verus!
