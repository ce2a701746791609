use lume::{lex, Token};

#[test]
fn test_comprehensive_lexer() {
    let input = r#"#!/usr/bin/env lume
// This is a comprehensive test for the Lume lexer

/// A doc comment for main
func main() -> int throws MyError {
// Numbers
let dec = 123;
let hex = 0xFF;
let bin = 0b1010_1010;
let oct = 0o755;
let float1 = 3.1415;
let float2 = 1.23e-4;
let float3 = 6.022e23;

// Strings and prefixed strings
let normal = "Hello, world!\n";
let raw = r"Raw\nString";
let sql_query = sql"SELECT * FROM users WHERE id = $1";

// Character literals
let ch1 = 'A';
let ch2 = '\n';
let ch3 = '中';
let ch4 = '\u{1F600}';

// Boolean and logic
let t = true;
let f = false;
if t and not f or (dec > 0) => println("OK");

// Operators and compound assignment
let mut x = 10;
x += 5;
x <<= 2;
x &= 0xF;

// Lifetimes and references
let ref_to_x: 'static &int = &x;

// Optional and error handling syntax (just tokens)
let opt = some_val on None => recover 0;
if result is Error { code: 404 } => return MyError { myMessage: "Not Found", myCode: 404 };

// Match and case
match color {
    case Red => 1;
    case Blue => 2;
    case _ => 0;
};

// Return with error
return MyError { myMessage: "Oops", myCode: -1 };
}

/* Block comment with /* nested */ comment */
import { foo, bar } from "./mod.lume" with { link: "dynamic" };

export class MyClass {
value: int;
};

// Test bitwise and shift
let a = b & c | d ^ e;
let shifted = x << 4 >> 2;

// Unicode identifier
let café_latte = 42;

// Edge cases that should error are tested separately
"#;

    let tokens = match lex(input, "comprehensive_test.lume") {
        Ok(tokens) => tokens,
        Err(e) => {
            panic!("Lexing failed with error: {:#?}", e);
        }
    };

    // We don't assert every token by index (too brittle), but check key ones exist in order

    let expected_tokens = vec![
        Token::Func,
        Token::Ident("main".into()),
        Token::LParen,
        Token::RParen,
        Token::Arrow,
        Token::Ident("int".into()),
        Token::Throws,
        Token::Ident("MyError".into()),
        Token::LBrace,
        Token::Let,
        Token::Ident("dec".into()),
        Token::Eq,
        Token::Int(123),
        Token::Semicolon,
        Token::Let,
        Token::Ident("hex".into()),
        Token::Eq,
        Token::Int(255),
        Token::Semicolon,
        Token::Let,
        Token::Ident("bin".into()),
        Token::Eq,
        Token::Int(170),
        Token::Semicolon,
        Token::Let,
        Token::Ident("oct".into()),
        Token::Eq,
        Token::Int(493),
        Token::Semicolon,
        Token::Let,
        Token::Ident("float1".into()),
        Token::Eq,
        Token::Float(String::new()),
        Token::Semicolon,
        Token::Let,
        Token::Ident("float2".into()),
        Token::Eq,
        Token::Float(String::new()),
        Token::Semicolon,
        Token::Let,
        Token::Ident("float3".into()),
        Token::Eq,
        Token::Float(String::new()),
        Token::Semicolon,
        Token::Let,
        Token::Ident("normal".into()),
        Token::Eq,
        Token::Str("Hello, world!\n".into()),
        Token::Semicolon,
        Token::Let,
        Token::Ident("raw".into()),
        Token::Eq,
        Token::PrefixedStr("r".into(), "Raw\\nString".into()),
        Token::Semicolon,
        Token::Let,
        Token::Ident("sql_query".into()),
        Token::Eq,
        Token::PrefixedStr("sql".into(), "SELECT * FROM users WHERE id = $1".into()),
        Token::Semicolon,
        Token::Let,
        Token::Ident("ch1".into()),
        Token::Eq,
        Token::Char('A'),
        Token::Semicolon,
        Token::Let,
        Token::Ident("ch2".into()),
        Token::Eq,
        Token::Char('\n'),
        Token::Semicolon,
        Token::Let,
        Token::Ident("ch3".into()),
        Token::Eq,
        Token::Char('中'),
        Token::Semicolon,
        Token::Let,
        Token::Ident("ch4".into()),
        Token::Eq,
        Token::Char('\u{1F600}'),
        Token::Semicolon,
        Token::Let,
        Token::Ident("t".into()),
        Token::Eq,
        Token::Bool(true),
        Token::Semicolon,
        Token::Let,
        Token::Ident("f".into()),
        Token::Eq,
        Token::Bool(false),
        Token::Semicolon,
        Token::If,
        Token::Ident("t".into()),
        Token::And,
        Token::Not,
        Token::Ident("f".into()),
        Token::Or,
        Token::LParen,
        Token::Ident("dec".into()),
        Token::Gt,
        Token::Int(0),
        Token::RParen,
        Token::FatArrow,
        Token::Ident("println".into()),
        Token::LParen,
        Token::Str("OK".into()),
        Token::RParen,
        Token::Semicolon,
        Token::Let,
        Token::Mut,
        Token::Ident("x".into()),
        Token::Eq,
        Token::Int(10),
        Token::Semicolon,
        Token::Ident("x".into()),
        Token::PlusEq,
        Token::Int(5),
        Token::Semicolon,
        Token::Ident("x".into()),
        Token::ShlEq,
        Token::Int(2),
        Token::Semicolon,
        Token::Ident("x".into()),
        Token::AmpEq,
        Token::Int(15),
        Token::Semicolon,
        Token::Let,
        Token::Ident("ref_to_x".into()),
        Token::Colon,
        Token::Lifetime("static".into()),
        Token::Amp,
        Token::Ident("int".into()),
        Token::Eq,
        Token::Amp,
        Token::Ident("x".into()),
        Token::Semicolon,
        Token::Let,
        Token::Ident("opt".into()),
        Token::Eq,
        Token::Ident("some_val".into()),
        Token::On,
        Token::Ident("None".into()),
        Token::FatArrow,
        Token::Recover,
        Token::Int(0),
        Token::Semicolon,
        Token::If,
        Token::Ident("result".into()),
        Token::Is,
        Token::Ident("Error".into()),
        Token::LBrace,
        Token::Ident("code".into()),
        Token::Colon,
        Token::Int(404),
        Token::RBrace,
        Token::FatArrow,
        Token::Return,
        Token::Ident("MyError".into()),
        Token::LBrace,
        Token::Ident("myMessage".into()),
        Token::Colon,
        Token::Str("Not Found".into()),
        Token::Comma,
        Token::Ident("myCode".into()),
        Token::Colon,
        Token::Int(404),
        Token::RBrace,
        Token::Semicolon,
        Token::Match,
        Token::Ident("color".into()),
        Token::LBrace,
        Token::Case,
        Token::Ident("Red".into()),
        Token::FatArrow,
        Token::Int(1),
        Token::Semicolon,
        Token::Case,
        Token::Ident("Blue".into()),
        Token::FatArrow,
        Token::Int(2),
        Token::Semicolon,
        Token::Case,
        Token::Ident("_".into()),
        Token::FatArrow,
        Token::Int(0),
        Token::Semicolon,
        Token::RBrace,
        Token::Semicolon,
        Token::Return,
        Token::Ident("MyError".into()),
        Token::LBrace,
        Token::Ident("myMessage".into()),
        Token::Colon,
        Token::Str("Oops".into()),
        Token::Comma,
        Token::Ident("myCode".into()),
        Token::Colon,
        Token::Minus,
        Token::Int(1),
        Token::RBrace,
        Token::Semicolon,
        Token::RBrace, // end of main
        Token::Import,
        Token::LBrace,
        Token::Ident("foo".into()),
        Token::Comma,
        Token::Ident("bar".into()),
        Token::RBrace,
        Token::From,
        Token::Str("./mod.lume".into()),
        Token::With,
        Token::LBrace,
        Token::Ident("link".into()),
        Token::Colon,
        Token::Str("dynamic".into()),
        Token::RBrace,
        Token::Semicolon,
        Token::Export,
        Token::Class,
        Token::Ident("MyClass".into()),
        Token::LBrace,
        Token::Ident("value".into()),
        Token::Colon,
        Token::Ident("int".into()),
        Token::Semicolon,
        Token::RBrace,
        Token::Semicolon,
        Token::Let,
        Token::Ident("a".into()),
        Token::Eq,
        Token::Ident("b".into()),
        Token::Amp,
        Token::Ident("c".into()),
        Token::Pipe,
        Token::Ident("d".into()),
        Token::Caret,
        Token::Ident("e".into()),
        Token::Semicolon,
        Token::Let,
        Token::Ident("shifted".into()),
        Token::Eq,
        Token::Ident("x".into()),
        Token::Shl,
        Token::Int(4),
        Token::Shr,
        Token::Int(2),
        Token::Semicolon,
        Token::Let,
        Token::Ident("café_latte".into()),
        Token::Eq,
        Token::Int(42),
        Token::Semicolon,
    ];

    // For robustness, we extract just the token variants (ignoring spans and string content where possible)
    let actual_simple: Vec<Token> = tokens
        .iter()
        .map(|(tok, _)| {
            // Normalize string/char content for comparison where needed
            match tok {
                Token::Str(_) => Token::Str("...".into()),
                Token::PrefixedStr(p, _) => Token::PrefixedStr(p.clone(), "...".into()),
                Token::Char(_) => Token::Char('?'),
                Token::PrefixedChar(p, _) => Token::PrefixedChar(p.clone(), '?'),
                Token::Int(_) => Token::Int(0),
                Token::Float(_) => Token::Float(String::new()),
                Token::Ident(s) => Token::Ident(s.clone()),
                Token::Lifetime(s) => Token::Lifetime(s.clone()),
                _ => tok.clone(),
            }
        })
        .filter(|t| !matches!(t, Token::Eof)) // ignore EOF for this check
        .collect();

    // Instead of full equality (fragile), verify sequence contains expected patterns
    // Here we do a simplified check: ensure key tokens appear in correct relative order
    let mut actual_iter = actual_simple.iter();
    for expected in &expected_tokens {
        // Skip comments, whitespace etc. — our lexer already skips them
        loop {
            match actual_iter.next() {
                Some(actual) => {
                    // Special handling for normalized values
                    let matches = match (expected, actual) {
                        (Token::Int(_), Token::Int(_)) => true,
                        (Token::Float(_), Token::Float(_)) => true,
                        (Token::Str(_), Token::Str(_)) => true,
                        (Token::PrefixedStr(ep, _), Token::PrefixedStr(ap, _)) => ep == ap,
                        (Token::Char(_), Token::Char(_)) => true,
                        (Token::PrefixedChar(ep, _), Token::PrefixedChar(ap, _)) => ep == ap,
                        (Token::Ident(ei), Token::Ident(ai)) => ei == ai,
                        (Token::Lifetime(el), Token::Lifetime(al)) => el == al,
                        _ => expected == actual,
                    };
                    if matches {
                        break;
                    }
                    // else continue skipping unexpected (shouldn't happen in well-formed input)
                }
                None => panic!("Expected token {:?} not found", expected),
            }
        }
    }

    // Also ensure no lexical errors were produced
}
