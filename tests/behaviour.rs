use lume::{i64_from_radix, keyword_or_ident, lex, LumeError, Span, Token};

fn kinds(src: &str) -> Vec<Token> {
    lex(src, "t").unwrap().into_iter().map(|(t, _)| t).collect()
}

fn lexical_error(src: &str) -> (String, usize, usize) {
    match lex(src, "t") {
        Err(LumeError::Lexical { msg, span }) => (msg, span.start, span.end),
        other => panic!("expected a lexical error, got {:?}", other),
    }
}

#[test]
fn spans_are_ordered_and_well_formed() {
    let toks = lex("let café = 'x' + r\"a\\b\" /* c */ >>= 12.5e3;", "f.lume").unwrap();
    for (_, sp) in &toks {
        assert!(sp.start <= sp.end);
        assert_eq!(sp.file, "f.lume");
    }
    for w in toks.windows(2) {
        assert!(w[0].1.start <= w[1].1.start);
    }
    // `café` is five bytes long
    assert_eq!((toks[1].1.start, toks[1].1.end), (4, 9));
}

#[test]
fn decimal_round_trip() {
    for v in [0i64, 7, 10, 42, 123456789, i64::MAX] {
        let text = v.to_string();
        assert_eq!(kinds(&text), vec![Token::Int(v), Token::Eof]);
    }
}

#[test]
fn one_past_i64_max_is_too_large() {
    let (msg, start, end) = lexical_error("9223372036854775808");
    assert_eq!(msg, "integer literal too large");
    assert_eq!((start, end), (0, 19));
}

#[test]
fn bases_agree() {
    for src in ["0x2A", "0b101010", "0o52", "42"] {
        assert_eq!(kinds(src), vec![Token::Int(42), Token::Eof], "{}", src);
    }
}

#[test]
fn separators_are_transparent() {
    assert_eq!(kinds("1_000")[0], Token::Int(1000));
    assert_eq!(kinds("0xF_F")[0], Token::Int(255));
    assert_eq!(kinds("1_0.5_0")[0], Token::Float("10.50".to_string()));
}

#[test]
fn escapes_round_trip() {
    assert_eq!(kinds("\"\\n\"")[0], Token::Str("\n".to_string()));
    assert_eq!(kinds("'\\u{1F600}'")[0], Token::Char('\u{1F600}'));
    assert_eq!(kinds("'\\u{41}'")[0], Token::Char('A'));
    let (msg, _, _) = lexical_error("'\\u{D800}'");
    assert_eq!(msg, "invalid unicode codepoint");
}

#[test]
fn raw_prefix_keeps_backslashes() {
    assert_eq!(
        kinds("r\"Raw\\nString\"")[0],
        Token::PrefixedStr("r".to_string(), "Raw\\nString".to_string())
    );
}

#[test]
fn nested_comment_is_one_unit() {
    assert_eq!(kinds("/* a /* b */ c */ let x = 1;"), kinds("let x = 1;"));
}

#[test]
fn not_equal_is_accepted() {
    assert_eq!(
        kinds("a != b"),
        vec![
            Token::Ident("a".to_string()),
            Token::Neq,
            Token::Ident("b".to_string()),
            Token::Eof
        ]
    );
    let (msg, start, end) = lexical_error("!a");
    assert_eq!(msg, "unexpected '!'; logical NOT is written as 'not'");
    assert_eq!((start, end), (0, 1));
}

#[test]
fn empty_input_gives_only_eof() {
    let toks = lex("", "t").unwrap();
    assert_eq!(toks.len(), 1);
    assert_eq!(toks[0].0, Token::Eof);
    assert_eq!((toks[0].1.start, toks[0].1.end), (0, 0));
    let toks = lex("x // end", "t").unwrap();
    assert_eq!(toks.last().unwrap().0, Token::Eof);
    assert_eq!((toks[1].1.start, toks[1].1.end), (8, 8));
}

#[test]
fn unterminated_string_spans_to_end() {
    let (msg, start, end) = lexical_error("\"abc");
    assert_eq!(msg, "unterminated string literal");
    assert_eq!((start, end), (0, 4));
}

#[test]
fn shebang_shifts_offsets() {
    let toks = lex("#!x\nlet", "t").unwrap();
    assert_eq!(toks[0].0, Token::Let);
    assert_eq!((toks[0].1.start, toks[0].1.end), (0, 3));
    assert_eq!(kinds("#! only"), vec![Token::Eof]);
}

#[test]
fn lifetimes_and_chars() {
    assert_eq!(kinds("'static")[0], Token::Lifetime("static".to_string()));
    assert_eq!(kinds("'中文 x")[0], Token::Lifetime("中文".to_string()));
    assert_eq!(kinds("'a'")[0], Token::Char('a'));
    assert_eq!(kinds("'1'")[0], Token::Char('1'));
    let (msg, _, _) = lexical_error("'");
    assert_eq!(msg, "unexpected end of input after quote");
    let (msg, _, _) = lexical_error("'a");
    assert_eq!(msg, "unexpected end of input after quote");
}

#[test]
fn error_messages() {
    assert_eq!(lexical_error("0x").0, "invalid integer literal");
    assert_eq!(lexical_error("1e").0, "invalid exponent");
    assert_eq!(lexical_error("1e_").0, "invalid exponent");
    assert_eq!(lexical_error("''").0, "empty character literal");
    assert_eq!(lexical_error("'1b'").0, "character literal must contain exactly one character");
    assert_eq!(lexical_error("'\\").0, "unterminated escape sequence");
    assert_eq!(lexical_error("\"\\q\"").0, "unknown escape sequence \\q");
    assert_eq!(lexical_error("\"\\u41\"").0, "expected '{' after \\u");
    assert_eq!(lexical_error("\"\\u{4g}\"").0, "invalid hex digit in \\u{...}");
    assert_eq!(lexical_error("\"\\u{}\"").0, "unicode escape must have 1-6 hex digits");
    assert_eq!(lexical_error("\"\\u{1234567}\"").0, "unicode escape must have 1-6 hex digits");
    assert_eq!(lexical_error("\"\\u{110000}\"").0, "invalid unicode codepoint");
    assert_eq!(lexical_error("@").0, "unexpected character: '@'");
    let (msg, start, end) = lexical_error("x /* a /* b */");
    assert_eq!(msg, "unterminated block comment");
    assert_eq!((start, end), (2, 14));
}

#[test]
fn prefix_wins_over_fraction() {
    assert_eq!(
        kinds("0x1.5"),
        vec![Token::Int(1), Token::Dot, Token::Int(5), Token::Eof]
    );
    assert_eq!(kinds("1.foo")[0..2], [Token::Int(1), Token::Dot]);
    assert_eq!(kinds("6.022e23")[0], Token::Float("6.022e23".to_string()));
}

#[test]
fn operators_longest_match() {
    assert_eq!(
        kinds("== => = <= < >= > -> - / /= ? :"),
        vec![
            Token::EqEq,
            Token::FatArrow,
            Token::Eq,
            Token::Le,
            Token::Lt,
            Token::Ge,
            Token::Gt,
            Token::Arrow,
            Token::Minus,
            Token::Slash,
            Token::SlashEq,
            Token::Question,
            Token::Colon,
            Token::Eof
        ]
    );
}

#[test]
fn radix_parsing() {
    assert_eq!(i64_from_radix("ff", 16), Ok(255));
    assert_eq!(i64_from_radix("-80", 16), Ok(-128));
    assert_eq!(i64_from_radix("+7", 8), Ok(7));
    assert_eq!(i64_from_radix("-9223372036854775808", 10), Ok(i64::MIN));
    assert_eq!(i64_from_radix("9223372036854775808", 10), Err(()));
    assert_eq!(i64_from_radix("", 10), Err(()));
    assert_eq!(i64_from_radix("-", 10), Err(()));
    assert_eq!(i64_from_radix("12", 2), Err(()));
    assert_eq!(i64_from_radix("1_0", 10), Err(()));
}

#[test]
fn keywords_and_words() {
    assert_eq!(keyword_or_ident("throws"), Token::Throws);
    assert_eq!(keyword_or_ident("true"), Token::Bool(true));
    assert_eq!(keyword_or_ident("not"), Token::Not);
    assert_eq!(keyword_or_ident("lets"), Token::Ident("lets".to_string()));
}

#[test]
fn error_text_and_span() {
    let e = LumeError::Syntax { msg: "bad".to_string(), span: Span::new(1, 2, "m") };
    assert_eq!(e.to_string(), "Syntax error: bad");
    let sp = Span::new(3, 5, "file");
    assert_eq!((sp.start, sp.end, sp.file.as_str()), (3, 5, "file"));
    let e = lex("!", "t").unwrap_err();
    assert_eq!(e.to_string(), "Lexical error: unexpected '!'; logical NOT is written as 'not'");
}

#[test]
fn identifiers_take_only_letters_digits_and_underscore() {
    let (msg, start, end) = lexical_error("a→b");
    assert_eq!(msg, "unexpected character: '→'");
    assert_eq!((start, end), (1, 4));
    let (msg, start, end) = lexical_error("€");
    assert_eq!(msg, "unexpected character: '€'");
    assert_eq!((start, end), (0, 3));
    let (msg, _, _) = lexical_error("x\u{A0}y");
    assert_eq!(msg, "unexpected character: '\u{A0}'");
    assert_eq!(kinds("x٣ _9")[0..2], [Token::Ident("x٣".to_string()), Token::Ident("_9".to_string())]);
    assert_eq!(lexical_error("٣").0, "unexpected character: '٣'");
}

#[test]
fn double_ampersand_is_two_tokens() {
    assert_eq!(
        kinds("a && b"),
        vec![
            Token::Ident("a".to_string()),
            Token::Amp,
            Token::Amp,
            Token::Ident("b".to_string()),
            Token::Eof
        ]
    );
}

#[test]
fn inserted_separator_keeps_the_value() {
    let pairs = [("123", "1_23"), ("0x1F", "0x1_F"), ("12.5e10", "1_2.5e10"), ("12.5e10", "12.5_e10"), ("12.5e10", "12.5e1_0"), ("1e", "1_e"), ("99999999999999999999", "9_9999999999999999999")];
    for (plain, separated) in pairs {
        let a = lex(plain, "t");
        let b = lex(separated, "t");
        match (a, b) {
            (Ok(x), Ok(y)) => {
                let fx = super_float(&x[0].0);
                let fy = super_float(&y[0].0);
                if fx.is_some() {
                    assert_eq!(fx, fy, "{}", separated);
                } else {
                    assert_eq!(x[0].0, y[0].0, "{}", separated);
                }
                assert_eq!(x[0].1.end + 1, y[0].1.end);
            }
            (Err(LumeError::Lexical { msg: m1, span: s1 }), Err(LumeError::Lexical { msg: m2, span: s2 })) => {
                assert_eq!(m1, m2);
                assert_eq!(s1.end + 1, s2.end);
            }
            (x, y) => panic!("{:?} vs {:?}", x, y),
        }
    }
}

fn super_float(t: &Token) -> Option<f64> {
    match t {
        Token::Float(text) => text.parse::<f64>().ok(),
        _ => None,
    }
}

#[test]
fn unterminated_string_with_escapes_spans_to_end() {
    let (msg, start, end) = lexical_error("x \"a\\nb");
    assert_eq!(msg, "unterminated string literal");
    assert_eq!((start, end), (2, 7));
}
