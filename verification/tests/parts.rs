use std::num::IntErrorKind;

use gate_lexer::chars::{chars_of, push_decimal, skip_run, string_of, to_upper, CharClass};
use gate_lexer::rules::next_lexeme;
use gate_lexer::{Gate, LexingError, Token};

fn chars(s: &str) -> Vec<char> {
    s.chars().collect()
}

#[test]
fn test_char_classes() {
    for c in ['0', '5', '9'] {
        assert!(CharClass::Digit.contains(c));
        assert!(!CharClass::Letter.contains(c));
        assert!(!CharClass::Blank.contains(c));
    }
    for c in ['a', 'z', 'A', 'Z', 'm'] {
        assert!(CharClass::Letter.contains(c));
        assert!(!CharClass::Digit.contains(c));
        assert!(!CharClass::Blank.contains(c));
    }
    for c in [' ', '\t', '\n', '\u{c}'] {
        assert!(CharClass::Blank.contains(c));
        assert!(!CharClass::Digit.contains(c));
        assert!(!CharClass::Letter.contains(c));
    }
    for c in ['/', ':', '@', '[', '`', '{', '\r', '\u{b}', '_', '\u{e9}', '\u{663}'] {
        assert!(!CharClass::Digit.contains(c));
        assert!(!CharClass::Letter.contains(c));
        assert!(!CharClass::Blank.contains(c));
    }
}

#[test]
fn test_to_upper() {
    assert_eq!(to_upper('a'), 'A');
    assert_eq!(to_upper('z'), 'Z');
    assert_eq!(to_upper('Q'), 'Q');
    assert_eq!(to_upper('7'), '7');
    assert_eq!(to_upper('{'), '{');
    assert_eq!(to_upper('\u{e9}'), '\u{e9}');
    for c in 'a'..='z' {
        assert_eq!(to_upper(c), c.to_ascii_uppercase());
    }
}

#[test]
fn test_skip_run() {
    let text = chars("123abc  x");
    assert_eq!(skip_run(&text, 0, CharClass::Digit), 3);
    assert_eq!(skip_run(&text, 1, CharClass::Digit), 3);
    assert_eq!(skip_run(&text, 0, CharClass::Letter), 0);
    assert_eq!(skip_run(&text, 3, CharClass::Letter), 6);
    assert_eq!(skip_run(&text, 6, CharClass::Blank), 8);
    assert_eq!(skip_run(&text, 8, CharClass::Letter), 9);
    assert_eq!(skip_run(&text, 9, CharClass::Letter), 9);
    assert_eq!(skip_run(&text, 20, CharClass::Letter), 20);
}

#[test]
fn test_chars_of_and_string_of() {
    assert_eq!(chars_of(""), Vec::<char>::new());
    assert_eq!(chars_of("a(1"), vec!['a', '(', '1']);
    assert_eq!(chars_of("\u{e9}x"), vec!['\u{e9}', 'x']);
    let text = chars("hello");
    assert_eq!(string_of(&text), "hello");
    assert_eq!(string_of(&text[1..3]), "el");
    assert_eq!(string_of(&text[2..2]), "");
}

#[test]
fn test_push_decimal() {
    for (n, digits) in [(0u16, "0"), (7, "7"), (10, "10"), (909, "909"), (65535, "65535")] {
        let mut out = String::from("#");
        push_decimal(&mut out, n);
        assert_eq!(out, format!("#{}", digits));
    }
}

#[test]
fn test_gate_names() {
    assert_eq!(Gate::And.name(), "AND");
    assert_eq!(Gate::Or.name(), "OR");
    assert_eq!(Gate::Not.name(), "NOT");
    assert_eq!(Gate::Nand.name(), "NAND");
    assert_eq!(Gate::Nor.name(), "NOR");
    assert_eq!(Gate::Xor.name(), "XOR");
}

#[test]
fn test_gate_lookup_is_exact() {
    assert_eq!(Gate::lookup(&chars("AND")), Some(Gate::And));
    assert_eq!(Gate::lookup(&chars("OR")), Some(Gate::Or));
    assert_eq!(Gate::lookup(&chars("NOT")), Some(Gate::Not));
    assert_eq!(Gate::lookup(&chars("NAND")), Some(Gate::Nand));
    assert_eq!(Gate::lookup(&chars("NOR")), Some(Gate::Nor));
    assert_eq!(Gate::lookup(&chars("XOR")), Some(Gate::Xor));
    assert_eq!(Gate::lookup(&chars("and")), None);
    assert_eq!(Gate::lookup(&chars("")), None);
    assert_eq!(Gate::lookup(&chars("XNOR")), None);
    assert_eq!(Gate::lookup(&chars("NO")), None);
    assert_eq!(Gate::lookup(&chars("ANDS")), None);
}

#[test]
fn test_gate_classify() {
    assert_eq!(Gate::classify("and"), Ok(Gate::And));
    assert_eq!(Gate::classify("Or"), Ok(Gate::Or));
    assert_eq!(Gate::classify("nOt"), Ok(Gate::Not));
    assert_eq!(Gate::classify("NAND"), Ok(Gate::Nand));
    assert_eq!(Gate::classify("noR"), Ok(Gate::Nor));
    assert_eq!(Gate::classify("XoR"), Ok(Gate::Xor));
    assert_eq!(Gate::classify("xnor"), Err(LexingError::NoSuchGate("XNOR".to_string())));
    assert_eq!(Gate::classify(""), Err(LexingError::NoSuchGate(String::new())));
    assert_eq!(
        Gate::classify_chars(&chars("Buffer")),
        Err(LexingError::NoSuchGate("BUFFER".to_string()))
    );
    assert_eq!(Gate::classify_chars(&chars("nand")), Ok(Gate::Nand));
}

#[test]
fn test_token_text() {
    assert_eq!(Token::ParenOpen.text(), "(");
    assert_eq!(Token::ParenClose.text(), ")");
    assert_eq!(Token::TerminalId(0).text(), "0");
    assert_eq!(Token::TerminalId(69).text(), "69");
    assert_eq!(Token::TerminalId(65535).text(), "65535");
    assert_eq!(Token::Gate(Gate::And).text(), "AND");
    assert_eq!(Token::Gate(Gate::Nand).text(), "NAND");
    assert_eq!(Token::Gate(Gate::Xor).text(), "XOR");
}

#[test]
fn test_token_from_parsed() {
    assert_eq!(Token::from_parsed("12".parse::<u16>()), Ok(Token::TerminalId(12)));
    let overflow = "70000".parse::<u16>().unwrap_err();
    assert_eq!(
        Token::from_parsed(Err(overflow.clone())),
        Err(LexingError::ParseIntError(overflow))
    );
    let empty = "".parse::<u16>().unwrap_err();
    match Token::from_parsed(Err(empty)) {
        Err(LexingError::ParseIntError(e)) => assert_eq!(e.kind(), &IntErrorKind::Empty),
        other => panic!("unexpected result {:?}", other),
    }
}

#[test]
fn test_error_default_and_from() {
    assert_eq!(LexingError::default(), LexingError::Other);
    let overflow = "70000".parse::<u16>().unwrap_err();
    assert_eq!(
        LexingError::from(overflow.clone()),
        LexingError::ParseIntError(overflow)
    );
}

#[test]
fn test_next_lexeme() {
    let text = chars("(12 nand\t\n)#");
    assert_eq!(next_lexeme(&text, 0), Ok((Some(Token::ParenOpen), 1)));
    assert_eq!(next_lexeme(&text, 1), Ok((Some(Token::TerminalId(12)), 3)));
    assert_eq!(next_lexeme(&text, 2), Ok((Some(Token::TerminalId(2)), 3)));
    assert_eq!(next_lexeme(&text, 3), Ok((None, 4)));
    assert_eq!(next_lexeme(&text, 4), Ok((Some(Token::Gate(Gate::Nand)), 8)));
    assert_eq!(next_lexeme(&text, 5), Ok((Some(Token::Gate(Gate::And)), 8)));
    assert_eq!(next_lexeme(&text, 8), Ok((None, 10)));
    assert_eq!(next_lexeme(&text, 10), Ok((Some(Token::ParenClose), 11)));
    assert_eq!(next_lexeme(&text, 11), Err(LexingError::Other));
    assert_eq!(next_lexeme(&text, 12), Ok((None, 12)));
    assert_eq!(next_lexeme(&text, 40), Ok((None, 40)));
}

#[test]
fn test_next_lexeme_errors() {
    let text = chars("65536 nan");
    match next_lexeme(&text, 0) {
        Err(LexingError::ParseIntError(e)) => assert_eq!(e.kind(), &IntErrorKind::PosOverflow),
        other => panic!("unexpected result {:?}", other),
    }
    assert_eq!(next_lexeme(&text, 1), Ok((Some(Token::TerminalId(5536)), 5)));
    assert_eq!(
        next_lexeme(&text, 6),
        Err(LexingError::NoSuchGate("NAN".to_string()))
    );
}
