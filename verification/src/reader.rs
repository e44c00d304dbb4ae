//! The reader: from text to the objects it denotes.

use crate::object::{lemma_list_value, values_of, Object, Value};
use crate::wrapping::{lemma_wrap_add, lemma_wrap_fits, lemma_wrap_mul, lemma_wrapping_add, wrap};
use vstd::prelude::*;
use vstd::std_specs::iter::IteratorSpec;

verus! {

/// An ASCII decimal digit.
pub open spec fn is_digit(c: char) -> bool {
    48 <= c as u32 <= 57
}

/// What a digit counts for.
pub open spec fn digit_value(c: char) -> int {
    c as u32 - 48
}

/// A space or a line break: what may stand between tokens.
pub open spec fn is_blank(c: char) -> bool {
    c == ' ' || c == '\n'
}

/// An ASCII letter or digit.
pub open spec fn is_ascii_alphanumeric(c: char) -> bool {
    is_digit(c) || 65 <= c as u32 <= 90 || 97 <= c as u32 <= 122
}

/// An ASCII punctuation character.
pub open spec fn is_ascii_punctuation(c: char) -> bool {
    33 <= c as u32 <= 47 || 58 <= c as u32 <= 64 || 91 <= c as u32 <= 96 || 123 <= c as u32 <= 126
}

/// A character that may stand in a symbol: an ASCII letter, digit or
/// punctuation character other than a parenthesis.
pub open spec fn symbol_char(c: char) -> bool {
    c != '(' && c != ')' && (is_ascii_alphanumeric(c) || is_ascii_punctuation(c))
}

/// Where the run of digits that starts at `pos` ends.
pub open spec fn digits_end(s: Seq<char>, pos: int) -> int
    decreases s.len() - pos,
{
    if 0 <= pos < s.len() && is_digit(s[pos]) {
        digits_end(s, pos + 1)
    } else {
        pos
    }
}

/// Where the run of symbol characters that starts at `pos` ends.
pub open spec fn symbol_end(s: Seq<char>, pos: int) -> int
    decreases s.len() - pos,
{
    if 0 <= pos < s.len() && symbol_char(s[pos]) {
        symbol_end(s, pos + 1)
    } else {
        pos
    }
}

/// The number that a run of digits denotes in decimal.
pub open spec fn decimal(digits: Seq<char>) -> int
    decreases digits.len(),
{
    if digits.len() == 0 {
        0
    } else {
        decimal(digits.drop_last()) * 10 + digit_value(digits.last())
    }
}

/// The number that a run of digits reads as: what it denotes, in 64 bits
/// that wrap around.
pub open spec fn number_of(digits: Seq<char>) -> i64 {
    wrap(decimal(digits))
}

/// The object that starts at `pos`, and where the text goes on after it.
pub open spec fn parse_object(s: Seq<char>, pos: int) -> Result<(Value, int), Seq<char>>
    decreases s.len() - pos, 0nat,
{
    if !(0 <= pos < s.len()) {
        Err("unexpected end of input"@)
    } else if is_digit(s[pos]) {
        let end: int = digits_end(s, pos);
        Ok((Value::Integer(number_of(s.subrange(pos, end)) as int), end))
    } else if s[pos] == '(' {
        match parse_items(s, pos + 1, Seq::empty()) {
            Ok((items, next)) => Ok((Value::List(items), next)),
            Err(m) => Err(m),
        }
    } else if symbol_char(s[pos]) {
        let end: int = symbol_end(s, pos);
        Ok((Value::Symbol(s.subrange(pos, end)), end))
    } else {
        Err("unexpected character: "@.push(s[pos]))
    }
}

/// The items of a list from `pos` up to the parenthesis that closes it,
/// after the items `done`, and where the text goes on after that
/// parenthesis.
pub open spec fn parse_items(s: Seq<char>, pos: int, done: Seq<Value>) -> Result<
    (Seq<Value>, int),
    Seq<char>,
>
    decreases s.len() - pos, 1nat,
{
    if !(0 <= pos < s.len()) {
        Err("unterminated list"@)
    } else if s[pos] == ')' {
        Ok((done, pos + 1))
    } else if is_blank(s[pos]) {
        parse_items(s, pos + 1, done)
    } else {
        match parse_object(s, pos) {
            Ok((item, next)) => if pos < next <= s.len() {
                parse_items(s, next, done.push(item))
            } else {
                Err("unterminated list"@)
            },
            Err(m) => Err(m),
        }
    }
}

/// The objects from `pos` to the end of the text, after the objects `done`.
pub open spec fn parse_all(s: Seq<char>, pos: int, done: Seq<Value>) -> Result<
    Seq<Value>,
    Seq<char>,
>
    decreases s.len() - pos,
{
    if !(0 <= pos < s.len()) {
        Ok(done)
    } else if is_blank(s[pos]) {
        parse_all(s, pos + 1, done)
    } else {
        match parse_object(s, pos) {
            Ok((item, next)) => if pos < next <= s.len() {
                parse_all(s, next, done.push(item))
            } else {
                Ok(done)
            },
            Err(m) => Err(m),
        }
    }
}

/// What a text reads as: its objects in order, or why it cannot be read.
pub open spec fn read_model(s: Seq<char>) -> Result<Seq<Value>, Seq<char>> {
    parse_all(s, 0, Seq::empty())
}

/// What one step of the reader gave, as the contracts see it.
pub open spec fn step_value(r: Result<(Object, usize), String>) -> Result<(Value, int), Seq<char>> {
    match r {
        Ok((o, next)) => Ok((o@, next as int)),
        Err(m) => Err(m@),
    }
}

/// What the reader gave, as the contracts see it.
pub open spec fn read_value(r: Result<Vec<Object>, String>) -> Result<Seq<Value>, Seq<char>> {
    match r {
        Ok(objects) => Ok(values_of(objects@)),
        Err(m) => Err(m@),
    }
}

/// An object never ends before the character after the one it starts at,
/// nor beyond the text.
pub proof fn lemma_parse_advances(s: Seq<char>, pos: int)
    ensures
        parse_object(s, pos) matches Ok((_, next)) ==> pos < next <= s.len(),
    decreases s.len() - pos, 0nat,
{
    if 0 <= pos < s.len() {
        if is_digit(s[pos]) {
            lemma_digits_end(s, pos);
        } else if s[pos] == '(' {
            lemma_items_advance(s, pos + 1, Seq::empty());
        } else if symbol_char(s[pos]) {
            lemma_symbol_end(s, pos);
        }
    }
}

proof fn lemma_items_advance(s: Seq<char>, pos: int, done: Seq<Value>)
    requires
        0 <= pos,
    ensures
        parse_items(s, pos, done) matches Ok((_, next)) ==> pos < next <= s.len(),
    decreases s.len() - pos, 1nat,
{
    if 0 <= pos < s.len() && s[pos] != ')' {
        if is_blank(s[pos]) {
            lemma_items_advance(s, pos + 1, done);
        } else {
            lemma_parse_advances(s, pos);
            match parse_object(s, pos) {
                Ok((item, next)) => {
                    lemma_items_advance(s, next, done.push(item));
                },
                Err(_) => {},
            }
        }
    }
}

/// A run of digits ends within the text, on what is no digit.
pub proof fn lemma_digits_end(s: Seq<char>, pos: int)
    requires
        0 <= pos <= s.len(),
    ensures
        pos <= digits_end(s, pos) <= s.len(),
        forall|k: int| pos <= k < digits_end(s, pos) ==> is_digit(s[k]),
        digits_end(s, pos) < s.len() ==> !is_digit(s[digits_end(s, pos)]),
    decreases s.len() - pos,
{
    if pos < s.len() && is_digit(s[pos]) {
        lemma_digits_end(s, pos + 1);
    }
}

/// A run of symbol characters ends within the text, on what is none.
pub proof fn lemma_symbol_end(s: Seq<char>, pos: int)
    requires
        0 <= pos <= s.len(),
    ensures
        pos <= symbol_end(s, pos) <= s.len(),
        forall|k: int| pos <= k < symbol_end(s, pos) ==> symbol_char(s[k]),
        symbol_end(s, pos) < s.len() ==> !symbol_char(s[symbol_end(s, pos)]),
    decreases s.len() - pos,
{
    if pos < s.len() && symbol_char(s[pos]) {
        lemma_symbol_end(s, pos + 1);
    }
}

/// Whether `c` may stand in a symbol.
pub fn valid_symbol_char(c: &char) -> (r: bool)
    ensures
        r == symbol_char(*c),
{
    if *c == '(' || *c == ')' {
        return false;
    }
    let code: u32 = *c as u32;
    let alphanumeric = (48 <= code && code <= 57) || (65 <= code && code <= 90) || (97 <= code
        && code <= 122);
    let punctuation = (33 <= code && code <= 47) || (58 <= code && code <= 64) || (91 <= code
        && code <= 96) || (123 <= code && code <= 126);
    alphanumeric || punctuation
}

/// Whether `c` is a digit.
fn is_digit_char(c: char) -> (r: bool)
    ensures
        r == is_digit(c),
{
    let code: u32 = c as u32;
    48 <= code && code <= 57
}

/// The characters of `text`, in order.
fn characters(text: &str) -> (r: Vec<char>)
    ensures
        r@ == text@,
{
    broadcast use vstd::string::group_string_axioms;

    let mut out: Vec<char> = Vec::new();
    let mut it = text.chars();
    assert(out@ + it.remaining() =~= text@);
    loop
        invariant
            it.obeys_prophetic_iter_laws(),
            it.decrease() is Some,
            out@ + it.remaining() == text@,
        decreases it.decrease()->0,
    {
        match it.next() {
            Some(c) => {
                out.push(c);
                assert(out@ + it.remaining() =~= text@);
            },
            None => {
                assert(out@ =~= text@);
                return out;
            },
        }
    }
}

/// Reads the number that starts at `pos`: the digits from there on, as
/// many as there are. Digits beyond 64 bits wrap around.
fn read_integer(chars: &Vec<char>, pos: usize) -> (r: Result<(Object, usize), String>)
    requires
        pos < chars.len(),
        is_digit(chars[pos as int]),
    ensures
        step_value(r) == parse_object(chars@, pos as int),
{
    let ghost s = chars@;
    let mut number: i64 = 0;
    let mut i: usize = pos;
    assert(s.subrange(pos as int, pos as int) =~= Seq::<char>::empty());
    proof {
        lemma_wrap_fits(0);
    }
    while i < chars.len() && is_digit_char(chars[i])
        invariant
            s == chars@,
            pos <= i <= chars.len(),
            digits_end(s, i as int) == digits_end(s, pos as int),
            number == number_of(s.subrange(pos as int, i as int)),
        decreases chars.len() - i,
    {
        let digit: u32 = chars[i] as u32 - 48;
        proof {
            let before: int = decimal(s.subrange(pos as int, i as int));
            assert(s.subrange(pos as int, i + 1).drop_last() == s.subrange(pos as int, i as int));
            lemma_wrap_mul(before, 10);
            lemma_wrapping_add(number.wrapping_mul(10), digit as i64);
            lemma_wrap_add(before * 10, digit as int);
        }
        number = number.wrapping_mul(10).wrapping_add(digit as i64);
        i += 1;
    }
    Ok((Object::Integer(number), i))
}

/// Reads the symbol that starts at `pos`: the symbol characters from there
/// on, as many as there are.
fn read_symbol(text: &str, chars: &Vec<char>, pos: usize) -> (r: Result<(Object, usize), String>)
    requires
        chars@ == text@,
        pos < chars.len(),
        symbol_char(chars[pos as int]),
        !is_digit(chars[pos as int]),
    ensures
        step_value(r) == parse_object(chars@, pos as int),
{
    let ghost s = chars@;
    let mut i: usize = pos + 1;
    while i < chars.len() && valid_symbol_char(&chars[i])
        invariant
            s == chars@,
            pos < i <= chars.len(),
            symbol_end(s, i as int) == symbol_end(s, pos as int),
        decreases chars.len() - i,
    {
        i += 1;
    }
    let name = String::from_str(text.substring_char(pos, i));
    Ok((Object::Symbol(name), i))
}

/// Reads the list that opens at `pos`: its items up to the parenthesis
/// that closes it.
fn read_list(text: &str, chars: &Vec<char>, pos: usize) -> (r: Result<(Object, usize), String>)
    requires
        chars@ == text@,
        pos < chars.len(),
        chars[pos as int] == '(',
    ensures
        step_value(r) == parse_object(chars@, pos as int),
    decreases chars.len() - pos, 0nat,
{
    let ghost s = chars@;
    let mut items: Vec<Object> = Vec::new();
    let mut cur: usize = pos + 1;
    assert(values_of(items@) =~= Seq::<Value>::empty());
    loop
        invariant
            s == chars@,
            chars@ == text@,
            pos < cur <= chars.len(),
            chars[pos as int] == '(',
            parse_items(s, cur as int, values_of(items@)) == parse_items(
                s,
                pos + 1,
                Seq::empty(),
            ),
        decreases chars.len() - cur,
    {
        if cur >= chars.len() {
            return Err(String::from_str("unterminated list"));
        }
        let c = chars[cur];
        if c == ')' {
            proof {
                lemma_list_value(items);
            }
            return Ok((Object::List(items), cur + 1));
        }
        if c == ' ' || c == '\n' {
            cur += 1;
        } else {
            let ghost before = values_of(items@);
            proof {
                lemma_parse_advances(s, cur as int);
            }
            match read_object(text, chars, cur) {
                Ok((item, next)) => {
                    items.push(item);
                    assert(values_of(items@) =~= before.push(item@));
                    cur = next;
                },
                Err(m) => {
                    return Err(m);
                },
            }
        }
    }
}

/// Reads the object that starts at `pos`: a number, a list or a symbol,
/// told apart by their first character.
fn read_object(text: &str, chars: &Vec<char>, pos: usize) -> (r: Result<(Object, usize), String>)
    requires
        chars@ == text@,
        pos < chars.len(),
    ensures
        step_value(r) == parse_object(chars@, pos as int),
    decreases chars.len() - pos, 1nat,
{
    let c = chars[pos];
    if is_digit_char(c) {
        read_integer(chars, pos)
    } else if c == '(' {
        read_list(text, chars, pos)
    } else if valid_symbol_char(&c) {
        read_symbol(text, chars, pos)
    } else {
        let mut message = String::from_str("unexpected character: ");
        message.append(text.substring_char(pos, pos + 1));
        assert(message@ =~= "unexpected character: "@.push(chars[pos as int]));
        Err(message)
    }
}

/// Reads `code`: the objects it holds, in order. Spaces and line breaks
/// between them count for nothing; a text without objects holds none.
/// Fails on a character that can start no object and on a list that is
/// never closed.
pub fn read(code: &str) -> (r: Result<Vec<Object>, String>)
    ensures
        read_value(r) == read_model(code@),
{
    let chars = characters(code);
    let ghost s = chars@;
    let mut objects: Vec<Object> = Vec::new();
    let mut cur: usize = 0;
    assert(values_of(objects@) =~= Seq::<Value>::empty());
    while cur < chars.len()
        invariant
            s == chars@,
            chars@ == code@,
            cur <= chars.len(),
            parse_all(s, cur as int, values_of(objects@)) == read_model(s),
        decreases chars.len() - cur,
    {
        let c = chars[cur];
        if c == ' ' || c == '\n' {
            cur += 1;
        } else {
            let ghost before = values_of(objects@);
            proof {
                lemma_parse_advances(s, cur as int);
            }
            match read_object(code, &chars, cur) {
                Ok((object, next)) => {
                    objects.push(object);
                    assert(values_of(objects@) =~= before.push(object@));
                    cur = next;
                },
                Err(m) => {
                    return Err(m);
                },
            }
        }
    }
    Ok(objects)
}

} // verus!
