use minilisp::object::Object;
use minilisp::reader::{read, valid_symbol_char};
use std::ops::Deref;

#[test]
fn reading_single_numbers() {
    let objects = read("5").unwrap();

    let number = objects.first().unwrap();

    match number.deref() {
        Object::Integer(int) => assert_eq!(*int, 5),
        _ => assert!(false),
    }

    let objects = read("123456789").unwrap();

    let number = objects.first().unwrap();

    match number.deref() {
        Object::Integer(int) => assert_eq!(*int, 123456789),
        _ => assert!(false),
    }
}

#[test]
fn read_multiple_numbers() {
    let objects = read("5 5 5 5").unwrap();
    assert_eq!(objects.len(), 4);

    let number = objects.first().unwrap();

    match number.deref() {
        Object::Integer(int) => assert_eq!(*int, 5),
        _ => assert!(false),
    }
}

#[test]
fn reading_lists() {
    let objects = read("(1 2 3)").unwrap();
    assert_eq!(objects.len(), 1);
    assert_eq!(
        objects.first().unwrap(),
        &Object::List(vec![
            Object::Integer(1),
            Object::Integer(2),
            Object::Integer(3)
        ])
    );
}

#[test]
fn reading_lists_of_lists() {
    let objects = read("(1 (2 3 (4 5)))").unwrap();
    assert_eq!(objects.len(), 1);

    assert_eq!(
        objects.first().unwrap(),
        &Object::List(vec![
            Object::Integer(1),
            Object::List(vec![
                Object::Integer(2),
                Object::Integer(3),
                Object::List(vec![Object::Integer(4), Object::Integer(5)]),
            ]),
        ])
    );
}

#[test]
fn testing_valid_symbol_characters() {
    assert!(valid_symbol_char(&'a'));
    assert!(valid_symbol_char(&'z'));
    assert!(valid_symbol_char(&'A'));
    assert!(valid_symbol_char(&'Z'));
    assert!(valid_symbol_char(&'-'));
    assert!(valid_symbol_char(&'!'));
    assert!(valid_symbol_char(&'+'));

    assert!(!valid_symbol_char(&' '));
}

#[test]
fn reading_symbols() {
    let objects = read("(list)").unwrap();
    assert_eq!(objects.len(), 1);
    assert_eq!(
        objects.first().unwrap(),
        &Object::List(vec![Object::Symbol(String::from("list"))])
    );

    let objects = read("(list-one)").unwrap();
    assert_eq!(objects.len(), 1);
    assert_eq!(
        objects.first().unwrap(),
        &Object::List(vec![Object::Symbol(String::from("list-one"))])
    );

    let objects = read("(+ 1 2 3)").unwrap();
    assert_eq!(objects.len(), 1);
    assert_eq!(
        objects.first().unwrap(),
        &Object::List(vec![
            Object::Symbol(String::from("+")),
            Object::Integer(1),
            Object::Integer(2),
            Object::Integer(3)
        ])
    );
}

#[test]
fn symbol_characters_are_the_visible_ascii_ones_but_parentheses() {
    for code in 0u32..200 {
        let c = char::from_u32(code).unwrap();
        let expected =
            c != '(' && c != ')' && (c.is_ascii_alphanumeric() || c.is_ascii_punctuation());
        assert_eq!(valid_symbol_char(&c), expected);
    }
    assert!(!valid_symbol_char(&'('));
    assert!(!valid_symbol_char(&')'));
    assert!(!valid_symbol_char(&'\n'));
    assert!(!valid_symbol_char(&'é'));
    assert!(valid_symbol_char(&'7'));
}

#[test]
fn empty_and_blank_texts_hold_nothing() {
    assert_eq!(read(""), Ok(vec![]));
    assert_eq!(read("  \n \n"), Ok(vec![]));
}

#[test]
fn empty_list_is_read() {
    assert_eq!(read("()"), Ok(vec![Object::List(vec![])]));
    assert_eq!(read("( \n )"), Ok(vec![Object::List(vec![])]));
}

#[test]
fn several_top_level_forms() {
    assert_eq!(
        read("(define foobar 15)\n foobar"),
        Ok(vec![
            Object::List(vec![
                Object::Symbol(String::from("define")),
                Object::Symbol(String::from("foobar")),
                Object::Integer(15),
            ]),
            Object::Symbol(String::from("foobar")),
        ])
    );
    assert_eq!(
        read("(+ 1 2) 3"),
        Ok(vec![
            Object::List(vec![
                Object::Symbol(String::from("+")),
                Object::Integer(1),
                Object::Integer(2),
            ]),
            Object::Integer(3),
        ])
    );
}

#[test]
fn tokens_end_where_their_characters_end() {
    assert_eq!(
        read("12ab"),
        Ok(vec![
            Object::Integer(12),
            Object::Symbol(String::from("ab"))
        ])
    );
    assert_eq!(
        read("ab12(c)d"),
        Ok(vec![
            Object::Symbol(String::from("ab12")),
            Object::List(vec![Object::Symbol(String::from("c"))]),
            Object::Symbol(String::from("d")),
        ])
    );
    assert_eq!(read("-5"), Ok(vec![Object::Symbol(String::from("-5"))]));
    assert_eq!(read("007"), Ok(vec![Object::Integer(7)]));
}

#[test]
fn numbers_wrap_around() {
    assert_eq!(
        read("9223372036854775807"),
        Ok(vec![Object::Integer(i64::MAX)])
    );
    assert_eq!(
        read("9223372036854775808"),
        Ok(vec![Object::Integer(i64::MIN)])
    );
    assert_eq!(read("18446744073709551616"), Ok(vec![Object::Integer(0)]));
    assert_eq!(read("18446744073709551621"), Ok(vec![Object::Integer(5)]));
}

#[test]
fn unterminated_list_is_an_error() {
    assert_eq!(read("(1 2"), Err(String::from("unterminated list")));
    assert_eq!(read("("), Err(String::from("unterminated list")));
    assert_eq!(read("(a (b)"), Err(String::from("unterminated list")));
}

#[test]
fn unexpected_characters_are_errors() {
    assert_eq!(read(")"), Err(String::from("unexpected character: )")));
    assert_eq!(read("a\tb"), Err(String::from("unexpected character: \t")));
    assert_eq!(read("(1 é)"), Err(String::from("unexpected character: é")));
    assert_eq!(read("(1 2))"), Err(String::from("unexpected character: )")));
}

#[test]
fn text_beyond_ascii_keeps_its_positions() {
    assert_eq!(
        read("é abc"),
        Err(String::from("unexpected character: é"))
    );
    assert_eq!(
        read("abc é"),
        Err(String::from("unexpected character: é"))
    );
}
