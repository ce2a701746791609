//! The tokens of the language and its keyword table.
use vstd::prelude::*;
use crate::text::chars_of;

verus! {

/// One lexical unit. `Float` holds the literal's text with its digit
/// separators removed (for example `1.23e-4`), which is exactly what a
/// 64-bit float parser reads.
#[derive(Debug, Clone, PartialEq)]
pub enum Token {
    // Keywords
    Let,
    Mut,
    Func,
    If,
    Else,
    Match,
    Case,
    On,
    Own,
    Throws,
    Recover,
    Return,
    Import,
    Export,
    From,
    Enum,
    Class,
    With,
    Type,
    Is,
    // Literals
    Int(i64),
    Float(String),
    Str(String),
    PrefixedStr(String, String),
    Char(char),
    PrefixedChar(String, char),
    Bool(bool),
    // Identifiers
    Ident(String),
    Lifetime(String),
    // Operators
    Plus,
    Minus,
    Star,
    Slash,
    Eq,
    EqEq,
    Neq,
    Percent,
    PercentEq,
    Lt,
    Gt,
    Le,
    Ge,
    And,
    Or,
    Not,
    // Bitwise operators
    Amp,
    Pipe,
    Caret,
    Shl,
    Shr,
    // Compound assignment
    PlusEq,
    MinusEq,
    StarEq,
    SlashEq,
    AmpEq,
    PipeEq,
    CaretEq,
    ShlEq,
    ShrEq,
    // Delimiters
    LParen,
    RParen,
    LBrace,
    RBrace,
    LBracket,
    RBracket,
    Comma,
    Semicolon,
    Dot,
    Colon,
    Arrow,
    // Special
    Question,
    FatArrow,
    Eof,
}

/// The token a reserved word stands for, or `None` for any other word.
pub open spec fn keyword_of(w: Seq<char>) -> Option<Token> {
    if w == "let"@ { Some(Token::Let) }
    else if w == "mut"@ { Some(Token::Mut) }
    else if w == "func"@ { Some(Token::Func) }
    else if w == "if"@ { Some(Token::If) }
    else if w == "else"@ { Some(Token::Else) }
    else if w == "match"@ { Some(Token::Match) }
    else if w == "case"@ { Some(Token::Case) }
    else if w == "on"@ { Some(Token::On) }
    else if w == "own"@ { Some(Token::Own) }
    else if w == "throws"@ { Some(Token::Throws) }
    else if w == "recover"@ { Some(Token::Recover) }
    else if w == "return"@ { Some(Token::Return) }
    else if w == "import"@ { Some(Token::Import) }
    else if w == "export"@ { Some(Token::Export) }
    else if w == "from"@ { Some(Token::From) }
    else if w == "enum"@ { Some(Token::Enum) }
    else if w == "class"@ { Some(Token::Class) }
    else if w == "with"@ { Some(Token::With) }
    else if w == "type"@ { Some(Token::Type) }
    else if w == "is"@ { Some(Token::Is) }
    else if w == "and"@ { Some(Token::And) }
    else if w == "or"@ { Some(Token::Or) }
    else if w == "not"@ { Some(Token::Not) }
    else if w == "true"@ { Some(Token::Bool(true)) }
    else if w == "false"@ { Some(Token::Bool(false)) }
    else { None }
}

/// The token for the word `w`: a keyword or boolean where the table has
/// one, otherwise an identifier holding `w`.
pub open spec fn word_token_matches(w: Seq<char>, t: Token) -> bool {
    match keyword_of(w) {
        Some(k) => t == k,
        None => t matches Token::Ident(s) && s@ == w,
    }
}

fn same_chars(v: &Vec<char>, w: &str) -> (r: bool)
    ensures
        r == (v@ == w@),
{
    let n = w.unicode_len();
    if v.len() != n {
        return false;
    }
    let mut i: usize = 0;
    while i < n
        invariant
            n == w@.len(),
            v@.len() == n,
            i <= n,
            forall|k: int| 0 <= k < i ==> v@[k] == w@[k],
        decreases n - i,
    {
        if v[i] != w.get_char(i) {
            return false;
        }
        i = i + 1;
    }
    assert(v@ =~= w@);
    true
}

/// Classifies a word against the keyword table.
pub fn keyword_or_ident(ident: &str) -> (r: Token)
    ensures
        word_token_matches(ident@, r),
{
    let v = chars_of(ident);
    if same_chars(&v, "let") { Token::Let }
    else if same_chars(&v, "mut") { Token::Mut }
    else if same_chars(&v, "func") { Token::Func }
    else if same_chars(&v, "if") { Token::If }
    else if same_chars(&v, "else") { Token::Else }
    else if same_chars(&v, "match") { Token::Match }
    else if same_chars(&v, "case") { Token::Case }
    else if same_chars(&v, "on") { Token::On }
    else if same_chars(&v, "own") { Token::Own }
    else if same_chars(&v, "throws") { Token::Throws }
    else if same_chars(&v, "recover") { Token::Recover }
    else if same_chars(&v, "return") { Token::Return }
    else if same_chars(&v, "import") { Token::Import }
    else if same_chars(&v, "export") { Token::Export }
    else if same_chars(&v, "from") { Token::From }
    else if same_chars(&v, "enum") { Token::Enum }
    else if same_chars(&v, "class") { Token::Class }
    else if same_chars(&v, "with") { Token::With }
    else if same_chars(&v, "type") { Token::Type }
    else if same_chars(&v, "is") { Token::Is }
    else if same_chars(&v, "and") { Token::And }
    else if same_chars(&v, "or") { Token::Or }
    else if same_chars(&v, "not") { Token::Not }
    else if same_chars(&v, "true") { Token::Bool(true) }
    else if same_chars(&v, "false") { Token::Bool(false) }
    else { Token::Ident(ident.to_owned()) }
}

} // verus!
