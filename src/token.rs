//! The vocabulary shared by the scanner and the parser.
use vstd::prelude::*;
use crate::number::{Num, Rat};

verus! {

/// The kind of a token.
#[allow(non_camel_case_types)]
#[derive(Clone, Copy, Debug, PartialEq, Eq, Structural)]
pub enum TokenType {
    // single character tokens
    LEFT_PAREN,
    RIGHT_PAREN,
    LEFT_BRACE,
    RIGHT_BRACE,
    COMMA,
    DOT,
    MINUS,
    PLUS,
    SEMICOLON,
    COLON,
    SLASH,
    STAR,
    QUESTION,
    // one or two character tokens
    BANG,
    BANG_EQUAL,
    EQUAL,
    EQUAL_EQUAL,
    GREATER,
    GREATER_EQUAL,
    LESS,
    LESS_EQUAL,
    // literals
    IDENTIFIER,
    STRING,
    NUMBER,
    // keywords
    AND,
    CLASS,
    ELSE,
    FALSE,
    FUN,
    FOR,
    IF,
    NIL,
    OR,
    PRINT,
    RETURN,
    SUPER,
    THIS,
    TRUE,
    VAR,
    WHILE,
    // end of input
    EOF,
}

impl TokenType {
    /// The name of the kind, as it is written in the enumeration.
    pub open spec fn name(self) -> Seq<char> {
        match self {
            TokenType::LEFT_PAREN => "LEFT_PAREN"@,
            TokenType::RIGHT_PAREN => "RIGHT_PAREN"@,
            TokenType::LEFT_BRACE => "LEFT_BRACE"@,
            TokenType::RIGHT_BRACE => "RIGHT_BRACE"@,
            TokenType::COMMA => "COMMA"@,
            TokenType::DOT => "DOT"@,
            TokenType::MINUS => "MINUS"@,
            TokenType::PLUS => "PLUS"@,
            TokenType::SEMICOLON => "SEMICOLON"@,
            TokenType::COLON => "COLON"@,
            TokenType::SLASH => "SLASH"@,
            TokenType::STAR => "STAR"@,
            TokenType::QUESTION => "QUESTION"@,
            TokenType::BANG => "BANG"@,
            TokenType::BANG_EQUAL => "BANG_EQUAL"@,
            TokenType::EQUAL => "EQUAL"@,
            TokenType::EQUAL_EQUAL => "EQUAL_EQUAL"@,
            TokenType::GREATER => "GREATER"@,
            TokenType::GREATER_EQUAL => "GREATER_EQUAL"@,
            TokenType::LESS => "LESS"@,
            TokenType::LESS_EQUAL => "LESS_EQUAL"@,
            TokenType::IDENTIFIER => "IDENTIFIER"@,
            TokenType::STRING => "STRING"@,
            TokenType::NUMBER => "NUMBER"@,
            TokenType::AND => "AND"@,
            TokenType::CLASS => "CLASS"@,
            TokenType::ELSE => "ELSE"@,
            TokenType::FALSE => "FALSE"@,
            TokenType::FUN => "FUN"@,
            TokenType::FOR => "FOR"@,
            TokenType::IF => "IF"@,
            TokenType::NIL => "NIL"@,
            TokenType::OR => "OR"@,
            TokenType::PRINT => "PRINT"@,
            TokenType::RETURN => "RETURN"@,
            TokenType::SUPER => "SUPER"@,
            TokenType::THIS => "THIS"@,
            TokenType::TRUE => "TRUE"@,
            TokenType::VAR => "VAR"@,
            TokenType::WHILE => "WHILE"@,
            TokenType::EOF => "EOF"@,
        }
    }

    pub fn to_string(&self) -> (r: &'static str)
        ensures
            r@ == self.name(),
    {
        match self {
            TokenType::LEFT_PAREN => "LEFT_PAREN",
            TokenType::RIGHT_PAREN => "RIGHT_PAREN",
            TokenType::LEFT_BRACE => "LEFT_BRACE",
            TokenType::RIGHT_BRACE => "RIGHT_BRACE",
            TokenType::COMMA => "COMMA",
            TokenType::DOT => "DOT",
            TokenType::MINUS => "MINUS",
            TokenType::PLUS => "PLUS",
            TokenType::SEMICOLON => "SEMICOLON",
            TokenType::COLON => "COLON",
            TokenType::SLASH => "SLASH",
            TokenType::STAR => "STAR",
            TokenType::QUESTION => "QUESTION",
            TokenType::BANG => "BANG",
            TokenType::BANG_EQUAL => "BANG_EQUAL",
            TokenType::EQUAL => "EQUAL",
            TokenType::EQUAL_EQUAL => "EQUAL_EQUAL",
            TokenType::GREATER => "GREATER",
            TokenType::GREATER_EQUAL => "GREATER_EQUAL",
            TokenType::LESS => "LESS",
            TokenType::LESS_EQUAL => "LESS_EQUAL",
            TokenType::IDENTIFIER => "IDENTIFIER",
            TokenType::STRING => "STRING",
            TokenType::NUMBER => "NUMBER",
            TokenType::AND => "AND",
            TokenType::CLASS => "CLASS",
            TokenType::ELSE => "ELSE",
            TokenType::FALSE => "FALSE",
            TokenType::FUN => "FUN",
            TokenType::FOR => "FOR",
            TokenType::IF => "IF",
            TokenType::NIL => "NIL",
            TokenType::OR => "OR",
            TokenType::PRINT => "PRINT",
            TokenType::RETURN => "RETURN",
            TokenType::SUPER => "SUPER",
            TokenType::THIS => "THIS",
            TokenType::TRUE => "TRUE",
            TokenType::VAR => "VAR",
            TokenType::WHILE => "WHILE",
            TokenType::EOF => "EOF",
        }
    }
}

/// The keyword that a word spells, if any.
pub open spec fn keyword(s: Seq<char>) -> Option<TokenType> {
    if s == "and"@ {
        Some(TokenType::AND)
    } else if s == "class"@ {
        Some(TokenType::CLASS)
    } else if s == "else"@ {
        Some(TokenType::ELSE)
    } else if s == "false"@ {
        Some(TokenType::FALSE)
    } else if s == "fun"@ {
        Some(TokenType::FUN)
    } else if s == "for"@ {
        Some(TokenType::FOR)
    } else if s == "if"@ {
        Some(TokenType::IF)
    } else if s == "nil"@ {
        Some(TokenType::NIL)
    } else if s == "or"@ {
        Some(TokenType::OR)
    } else if s == "print"@ {
        Some(TokenType::PRINT)
    } else if s == "return"@ {
        Some(TokenType::RETURN)
    } else if s == "super"@ {
        Some(TokenType::SUPER)
    } else if s == "this"@ {
        Some(TokenType::THIS)
    } else if s == "true"@ {
        Some(TokenType::TRUE)
    } else if s == "var"@ {
        Some(TokenType::VAR)
    } else if s == "while"@ {
        Some(TokenType::WHILE)
    } else {
        None
    }
}

/// Whether a string holds the same characters as a literal.
pub fn same_text(a: &String, b: &str) -> (r: bool)
    ensures
        r == (a@ == b@),
{
    let t = String::from_str(b);
    a.eq(&t)
}

/// Looks a word up among the keywords.
pub fn keyword_of(text: &String) -> (r: Option<TokenType>)
    ensures
        r == keyword(text@),
{
    proof {
        reveal_strlit("and");
        reveal_strlit("class");
        reveal_strlit("else");
        reveal_strlit("false");
        reveal_strlit("fun");
        reveal_strlit("for");
        reveal_strlit("if");
        reveal_strlit("nil");
        reveal_strlit("or");
        reveal_strlit("print");
        reveal_strlit("return");
        reveal_strlit("super");
        reveal_strlit("this");
        reveal_strlit("true");
        reveal_strlit("var");
        reveal_strlit("while");
    }
    if same_text(text, "and") {
        return Some(TokenType::AND);
    }
    if same_text(text, "class") {
        return Some(TokenType::CLASS);
    }
    if same_text(text, "else") {
        return Some(TokenType::ELSE);
    }
    if same_text(text, "false") {
        return Some(TokenType::FALSE);
    }
    if same_text(text, "fun") {
        return Some(TokenType::FUN);
    }
    if same_text(text, "for") {
        return Some(TokenType::FOR);
    }
    if same_text(text, "if") {
        return Some(TokenType::IF);
    }
    if same_text(text, "nil") {
        return Some(TokenType::NIL);
    }
    if same_text(text, "or") {
        return Some(TokenType::OR);
    }
    if same_text(text, "print") {
        return Some(TokenType::PRINT);
    }
    if same_text(text, "return") {
        return Some(TokenType::RETURN);
    }
    if same_text(text, "super") {
        return Some(TokenType::SUPER);
    }
    if same_text(text, "this") {
        return Some(TokenType::THIS);
    }
    if same_text(text, "true") {
        return Some(TokenType::TRUE);
    }
    if same_text(text, "var") {
        return Some(TokenType::VAR);
    }
    if same_text(text, "while") {
        return Some(TokenType::WHILE);
    }
    None
}

/// A literal value as it stands in the source.
#[derive(Debug)]
pub enum Literal {
    Number(Num),
    Str(String),
    Bool(bool),
    Nil,
}

impl Clone for Literal {
    fn clone(&self) -> (r: Self)
        ensures
            r == *self,
    {
        match self {
            Literal::Number(n) => Literal::Number(n.clone()),
            Literal::Str(s) => Literal::Str(s.clone()),
            Literal::Bool(b) => Literal::Bool(*b),
            Literal::Nil => Literal::Nil,
        }
    }
}

/// The model of a literal.
pub enum LiteralV {
    Number(Rat),
    Str(Seq<char>),
    Bool(bool),
    Nil,
}

impl View for Literal {
    type V = LiteralV;

    open spec fn view(&self) -> LiteralV {
        match self {
            Literal::Number(n) => LiteralV::Number(n@),
            Literal::Str(s) => LiteralV::Str(s@),
            Literal::Bool(b) => LiteralV::Bool(*b),
            Literal::Nil => LiteralV::Nil,
        }
    }
}

/// The text of a boolean.
pub open spec fn bool_text(b: bool) -> Seq<char> {
    if b {
        "true"@
    } else {
        "false"@
    }
}

pub fn bool_to_string(b: bool) -> (r: String)
    ensures
        r@ == bool_text(b),
{
    if b {
        String::from_str("true")
    } else {
        String::from_str("false")
    }
}

impl LiteralV {
    /// The text of a literal: a string stands for itself.
    pub open spec fn text(self) -> Seq<char> {
        match self {
            LiteralV::Bool(b) => bool_text(b),
            LiteralV::Nil => "Nil"@,
            LiteralV::Number(n) => n.text(),
            LiteralV::Str(s) => s,
        }
    }
}

impl Literal {
    pub fn to_string(&self) -> (r: String)
        ensures
            r@ == self@.text(),
    {
        match self {
            Literal::Bool(b) => bool_to_string(*b),
            Literal::Nil => String::from_str("Nil"),
            Literal::Number(n) => n.to_string(),
            Literal::Str(s) => s.clone(),
        }
    }
}

/// A token: its kind, the text it was scanned from, its literal value and
/// the line it ends on.
#[derive(Debug)]
pub struct Token {
    pub token_type: TokenType,
    pub lexeme: String,
    pub literal: Option<Literal>,
    pub line: usize,
}

impl Clone for Token {
    fn clone(&self) -> (r: Self)
        ensures
            r == *self,
    {
        let literal = match &self.literal {
            Some(l) => Some(l.clone()),
            None => None,
        };
        Token {
            token_type: self.token_type,
            lexeme: self.lexeme.clone(),
            literal,
            line: self.line,
        }
    }
}

/// The model of a token.
pub struct TokenV {
    pub kind: TokenType,
    pub lexeme: Seq<char>,
    pub literal: Option<LiteralV>,
    pub line: nat,
}

impl View for Token {
    type V = TokenV;

    open spec fn view(&self) -> TokenV {
        TokenV {
            kind: self.token_type,
            lexeme: self.lexeme@,
            literal: match self.literal {
                Some(l) => Some(l@),
                None => None,
            },
            line: self.line as nat,
        }
    }
}

impl TokenV {
    /// `(KIND | lexeme | literal)`, with `LitNone` for a token without a literal.
    pub open spec fn text(self) -> Seq<char> {
        let lit = match self.literal {
            Some(l) => l.text(),
            None => "LitNone"@,
        };
        "("@ + self.kind.name() + " | "@ + self.lexeme + " | "@ + lit + ")"@
    }
}

impl Token {
    pub fn new(token_type: TokenType, lexeme: &str, literal: Option<Literal>, line: usize) -> (r: Self)
        ensures
            r.token_type == token_type,
            r.lexeme@ == lexeme@,
            r.literal == literal,
            r.line == line,
    {
        Token { token_type, lexeme: lexeme.to_owned(), literal, line }
    }

    pub fn to_string(&self) -> (r: String)
        ensures
            r@ == self@.text(),
    {
        let lit = match &self.literal {
            Some(l) => l.to_string(),
            None => String::from_str("LitNone"),
        };
        let mut s = String::from_str("(");
        s.append(self.token_type.to_string());
        s.append(" | ");
        s.append(self.lexeme.as_str());
        s.append(" | ");
        s.append(lit.as_str());
        s.append(")");
        s
    }
}

} // verus!
