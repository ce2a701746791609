use lume::{lex, Token};

fn float_of(t: &Token) -> Option<f64> {
    match t {
        Token::Float(text) => text.parse::<f64>().ok(),
        _ => None,
    }
}

#[test]
fn test_shebang() {
    let input = "#!/usr/bin/env lume\nlet x = 1;";
    let tokens = lex(input, "test").unwrap();
    assert!(matches!(tokens[0].0, Token::Let));
}

#[test]
fn test_numbers() {
    let int_cases = vec![
        ("42", 42i64),
        ("0x2A", 42),
        ("0Xff", 255),
        ("0b1010", 10),
        ("0o77", 63),
        ("1_000", 1000),
    ];
    for (input, expected) in int_cases {
        let tokens = lex(input, "test").unwrap();
        assert_eq!(tokens[0].0, Token::Int(expected), "failed for {}", input);
    }
    let float_cases = vec![("3.14", 3.14f64), ("1e5", 100000.0), ("1.23e-4", 0.000123)];
    for (input, expected) in float_cases {
        let tokens = lex(input, "test").unwrap();
        assert_eq!(float_of(&tokens[0].0), Some(expected), "failed for {}", input);
    }
}

#[test]
fn test_prefixed_string() {
    let input = r#"r"hello\nworld" sql"SELECT * FROM users""#;
    let tokens = lex(input, "test").unwrap();
    assert!(
        matches!(tokens[0].0, Token::PrefixedStr(ref p, ref s) if p == "r" && s == "hello\\nworld")
    );
    assert!(
        matches!(tokens[1].0, Token::PrefixedStr(ref p, ref s) if p == "sql" && s == "SELECT * FROM users")
    );
}

#[test]
fn test_char_literal() {
    let cases = vec![
        ("'a'", 'a'),
        ("'\\n'", '\n'),
        ("'中'", '中'),
        ("'\\u{1F600}'", '\u{1F600}'),
    ];
    for (input, expected) in cases {
        let tokens = lex(input, "test").unwrap();
        assert!(
            matches!(tokens[0].0, Token::Char(c) if c == expected),
            "failed for {}",
            input
        );
    }
}

#[test]
fn test_prefixed_char() {
    let cases = vec![
        ("r'a'", "r", 'a'),
        ("sql'\\n'", "sql", '\n'),
        ("regex'中'", "regex", '中'),
        ("u'\\u{1F600}'", "u", '\u{1F600}'),
    ];
    for (input, expected_prefix, expected_char) in cases {
        let tokens = lex(input, "test").unwrap();
        assert!(
            matches!(tokens[0].0, Token::PrefixedChar(ref p, c) if p == expected_prefix && c == expected_char),
            "failed for {}",
            input
        );
    }
}

#[test]
fn test_prefixed_char_errors() {
    assert!(lex("r''", "test").is_err());
    assert!(lex("r'ab'", "test").is_err());
    assert!(lex("r'\\u{D800}'", "test").is_err());
}

#[test]
fn test_comments() {
    let input = "/* block */ let x = 1; // inline\n/// doc";
    let tokens = lex(input, "test").unwrap();
    assert!(matches!(tokens[0].0, Token::Let));
}

#[test]
fn test_unicode_ident() {
    let input = "let café = 1;";
    let tokens = lex(input, "test").unwrap();
    assert!(matches!(tokens[1].0, Token::Ident(ref s) if s == "café"));
}

#[test]
fn test_reject_symbolic_logic() {
    // `&&` is two bitwise-and tokens: only a standalone `!` is rejected.
    assert!(lex("!a", "test").is_err());
}

#[test]
fn test_bitwise_and_compound_assign() {
    let input = "& | ^= <<= >>= += -= *= /= %= &= |=";
    let tokens = lex(input, "test").unwrap();
    assert_eq!(tokens[0].0, Token::Amp);
    assert_eq!(tokens[1].0, Token::Pipe);
    assert_eq!(tokens[2].0, Token::CaretEq);
    assert_eq!(tokens[3].0, Token::ShlEq);
    assert_eq!(tokens[4].0, Token::ShrEq);
    assert_eq!(tokens[5].0, Token::PlusEq);
    assert_eq!(tokens[6].0, Token::MinusEq);
    assert_eq!(tokens[7].0, Token::StarEq);
    assert_eq!(tokens[8].0, Token::SlashEq);
    assert_eq!(tokens[9].0, Token::PercentEq);
    assert_eq!(tokens[10].0, Token::AmpEq);
    assert_eq!(tokens[11].0, Token::PipeEq);
}

#[test]
fn test_shift_operators() {
    let input = "<< >>";
    let tokens = lex(input, "test").unwrap();
    assert_eq!(tokens[0].0, Token::Shl);
    assert_eq!(tokens[1].0, Token::Shr);
}
