use vstd::prelude::*;

use crate::location::{Location, LocationRange, default_range};
use crate::text::{int_text, push_char, push_int, push_str};

verus! {

/// A token produced by the lexer: its kind and the source range it spans.
#[derive(Debug, Clone)]
pub struct Token {
    pub kind: TokenKind,
    pub loc: LocationRange,
}

#[derive(Debug, Clone)]
pub enum TokenKind {
    Unknown,
    EndOfFile,
    Literal(Literal),
    Keyword(Keyword),
    LiteralKeyword(LiteralKeyword),
    TypeKeyword(TypeKeyword),
    Identifier(Identifier),
    Delimiter(Delimiter),
    Operator(Operator),
}

/// An identifier's text. All identifiers count as one token class.
#[derive(Debug, Clone)]
pub struct Identifier(pub String);

#[derive(Debug, Clone, Copy, PartialEq, Eq, Structural)]
pub enum Literal {
    Int(i64),
}

#[derive(Debug, Clone, Copy, PartialEq, Eq, Structural, Hash)]
pub enum LiteralKeyword {
    True,
    False,
}

#[derive(Debug, Clone, Copy, PartialEq, Eq, Structural, Hash)]
pub enum Keyword {
    Pub,
    Extern,
    Func,
    Let,
    If,
    Else,
    Return,
    As,
    Loop,
}

#[derive(Debug, Clone, Copy, PartialEq, Eq, Structural, Hash)]
pub enum TypeKeyword {
    Bool,
    Int,
}

#[derive(Debug, Clone, Copy, PartialEq, Eq, Structural, Hash)]
pub enum Delimiter {
    ParenOpen,
    ParenClose,
    BraceOpen,
    BraceClose,
    BracketOpen,
    BracketClose,
    Colon,
    Semicolon,
    Comma,
}

#[derive(Debug, Clone, Copy, PartialEq, Eq, Structural, Hash)]
pub enum OperatorChar {
    Equal,
    Plus,
    Minus,
    Less,
    Greater,
    Exclaimation,
    Ampersand,
    Pipe,
}

#[derive(Debug, Clone, Copy, PartialEq, Eq, Structural, Hash)]
pub enum Operator {
    Assign,
    Add,
    Sub,
    And,
    Or,
    Not,
    Equal,
    NotEqual,
    Less,
    LessEqual,
    Greater,
    GreaterEqual,
}

/// The mathematical value of a token kind: identifiers by their text.
pub enum TokenKindView {
    Unknown,
    EndOfFile,
    Literal(Literal),
    Keyword(Keyword),
    LiteralKeyword(LiteralKeyword),
    TypeKeyword(TypeKeyword),
    Identifier(Seq<char>),
    Delimiter(Delimiter),
    Operator(Operator),
}

pub struct TokenView {
    pub kind: TokenKindView,
    pub loc: LocationRange,
}

impl View for TokenKind {
    type V = TokenKindView;

    open spec fn view(&self) -> TokenKindView {
        match self {
            TokenKind::Unknown => TokenKindView::Unknown,
            TokenKind::EndOfFile => TokenKindView::EndOfFile,
            TokenKind::Literal(l) => TokenKindView::Literal(*l),
            TokenKind::Keyword(k) => TokenKindView::Keyword(*k),
            TokenKind::LiteralKeyword(k) => TokenKindView::LiteralKeyword(*k),
            TokenKind::TypeKeyword(k) => TokenKindView::TypeKeyword(*k),
            TokenKind::Identifier(i) => TokenKindView::Identifier(i.0@),
            TokenKind::Delimiter(d) => TokenKindView::Delimiter(*d),
            TokenKind::Operator(o) => TokenKindView::Operator(*o),
        }
    }
}

impl View for Token {
    type V = TokenView;

    open spec fn view(&self) -> TokenView {
        TokenView { kind: self.kind@, loc: self.loc }
    }
}

/// Two token kinds are of the same class when they are equal, except that all
/// identifiers form one class and all literals form one class.
pub open spec fn same_class(a: TokenKindView, b: TokenKindView) -> bool {
    match (a, b) {
        (TokenKindView::Identifier(_), TokenKindView::Identifier(_)) => true,
        (TokenKindView::Literal(_), TokenKindView::Literal(_)) => true,
        (TokenKindView::Identifier(_), _) => false,
        (TokenKindView::Literal(_), _) => false,
        _ => a == b,
    }
}

impl PartialEq for TokenKind {
    fn eq(&self, other: &Self) -> (r: bool) {
        match (self, other) {
            (TokenKind::Unknown, TokenKind::Unknown) => true,
            (TokenKind::EndOfFile, TokenKind::EndOfFile) => true,
            (TokenKind::Literal(_), TokenKind::Literal(_)) => true,
            (TokenKind::Keyword(a), TokenKind::Keyword(b)) => *a == *b,
            (TokenKind::LiteralKeyword(a), TokenKind::LiteralKeyword(b)) => *a == *b,
            (TokenKind::TypeKeyword(a), TokenKind::TypeKeyword(b)) => *a == *b,
            (TokenKind::Identifier(_), TokenKind::Identifier(_)) => true,
            (TokenKind::Delimiter(a), TokenKind::Delimiter(b)) => *a == *b,
            (TokenKind::Operator(a), TokenKind::Operator(b)) => *a == *b,
            _ => false,
        }
    }
}

impl vstd::std_specs::cmp::PartialEqSpecImpl for TokenKind {
    open spec fn obeys_eq_spec() -> bool {
        true
    }

    open spec fn eq_spec(&self, other: &TokenKind) -> bool {
        same_class(self@, other@)
    }
}

impl TokenKind {
    /// A copy of this token kind (identifier text included).
    pub fn duplicate(&self) -> (r: TokenKind)
        ensures
            r@ == self@,
    {
        match self {
            TokenKind::Unknown => TokenKind::Unknown,
            TokenKind::EndOfFile => TokenKind::EndOfFile,
            TokenKind::Literal(l) => TokenKind::Literal(*l),
            TokenKind::Keyword(k) => TokenKind::Keyword(*k),
            TokenKind::LiteralKeyword(k) => TokenKind::LiteralKeyword(*k),
            TokenKind::TypeKeyword(k) => TokenKind::TypeKeyword(*k),
            TokenKind::Identifier(i) => TokenKind::Identifier(Identifier(i.0.clone())),
            TokenKind::Delimiter(d) => TokenKind::Delimiter(*d),
            TokenKind::Operator(o) => TokenKind::Operator(*o),
        }
    }

    /// Whether two kinds are of the same token class (see `same_class`).
    pub fn same_class_as(&self, other: &TokenKind) -> (r: bool)
        ensures
            r == same_class(self@, other@),
    {
        *self == *other
    }

    pub fn is_end_of_file(&self) -> (r: bool)
        ensures
            r == (self@ is EndOfFile),
    {
        match self {
            TokenKind::EndOfFile => true,
            _ => false,
        }
    }
}

impl Token {
    /// A token of the given kind with a temporary (empty) location.
    pub fn temp(kind: TokenKind) -> (r: Self)
        ensures
            r.kind == kind,
            r.loc == default_range(),
    {
        Token { kind, loc: Location::default().into_range() }
    }

    pub fn duplicate(&self) -> (r: Token)
        ensures
            r@ == self@,
    {
        Token { kind: self.kind.duplicate(), loc: self.loc }
    }
}

/// Compares a slice of characters with a string, character by character.
pub fn chars_eq_str(s: &[char], t: &str) -> (r: bool)
    ensures
        r == (s@ == t@),
{
    let n = t.unicode_len();
    if s.len() != n {
        return false;
    }
    let mut i: usize = 0;
    while i < n
        invariant
            n == s@.len(),
            n == t@.len(),
            i <= n,
            forall|j: int| 0 <= j < i ==> s@[j] == t@[j],
        decreases n - i,
    {
        if s[i] != t.get_char(i) {
            return false;
        }
        i = i + 1;
    }
    assert(s@ =~= t@);
    true
}

impl Literal {
    /// The literal as it is shown: an integer in decimal.
    pub open spec fn text(self) -> Seq<char> {
        match self {
            Literal::Int(v) => int_text(v as int),
        }
    }

    pub fn to_string(&self) -> (r: String)
        ensures
            r@ == self.text(),
    {
        let mut s = String::new();
        match self {
            Literal::Int(v) => push_int(&mut s, *v),
        }
        assert(s@ =~= self.text());
        s
    }
}

/// How a token kind is named in messages: literals and literal keywords as written, the
/// others quoted and, for keywords, type keywords and operators, followed by what they
/// are.
pub open spec fn token_kind_text(k: TokenKindView) -> Seq<char> {
    match k {
        TokenKindView::Unknown => "unknown"@,
        TokenKindView::EndOfFile => "EOF"@,
        TokenKindView::Literal(l) => l.text(),
        TokenKindView::LiteralKeyword(l) => l.text(),
        TokenKindView::Keyword(kw) => "'"@ + kw.text() + "' keyword"@,
        TokenKindView::TypeKeyword(kw) => "'"@ + kw.text() + "' type"@,
        TokenKindView::Identifier(name) => "'"@ + name + "'"@,
        TokenKindView::Delimiter(d) => "'"@ + seq![d.spec_char()] + "'"@,
        TokenKindView::Operator(op) => "'"@ + op.text() + "' operator"@,
    }
}

impl TokenKind {
    /// How the token kind is named in messages (see `token_kind_text`).
    pub fn to_string(&self) -> (r: String)
        ensures
            r@ == token_kind_text(self@),
    {
        let mut s = String::new();
        match self {
            TokenKind::Unknown => push_str(&mut s, "unknown"),
            TokenKind::EndOfFile => push_str(&mut s, "EOF"),
            TokenKind::Literal(l) => {
                let t = l.to_string();
                push_str(&mut s, t.as_str());
            },
            TokenKind::LiteralKeyword(l) => push_str(&mut s, l.as_str()),
            TokenKind::Keyword(kw) => {
                push_str(&mut s, "'");
                push_str(&mut s, kw.as_str());
                push_str(&mut s, "' keyword");
            },
            TokenKind::TypeKeyword(kw) => {
                push_str(&mut s, "'");
                push_str(&mut s, kw.as_str());
                push_str(&mut s, "' type");
            },
            TokenKind::Identifier(name) => {
                push_str(&mut s, "'");
                push_str(&mut s, name.0.as_str());
                push_str(&mut s, "'");
            },
            TokenKind::Delimiter(d) => {
                push_str(&mut s, "'");
                push_char(&mut s, d.as_char());
                push_str(&mut s, "'");
            },
            TokenKind::Operator(op) => {
                push_str(&mut s, "'");
                push_str(&mut s, op.as_str());
                push_str(&mut s, "' operator");
            },
        }
        assert(s@ =~= token_kind_text(self@));
        s
    }
}

impl LiteralKeyword {
    pub open spec fn text(self) -> Seq<char> {
        match self {
            LiteralKeyword::True => seq!['t', 'r', 'u', 'e'],
            LiteralKeyword::False => seq!['f', 'a', 'l', 's', 'e'],
        }
    }

    /// The keyword's source text.
    pub fn as_str(&self) -> (r: &'static str)
        ensures
            r@ == self.text(),
    {
        proof {
            reveal_strlit("true");
            reveal_strlit("false");
        }
        match self {
            LiteralKeyword::True => "true",
            LiteralKeyword::False => "false",
        }
    }

    pub open spec fn spec_from_text(s: Seq<char>) -> Option<LiteralKeyword> {
        if s == LiteralKeyword::True.text() {
            Some(LiteralKeyword::True)
        } else if s == LiteralKeyword::False.text() {
            Some(LiteralKeyword::False)
        } else {
            None
        }
    }

    /// The literal keyword whose text is `s`, if any.
    pub fn from_chars(s: &[char]) -> (r: Option<LiteralKeyword>)
        ensures
            r == LiteralKeyword::spec_from_text(s@),
    {
        let all = [LiteralKeyword::True, LiteralKeyword::False];
        let mut i: usize = 0;
        while i < 2
            invariant
                i <= 2,
                all@ == seq![LiteralKeyword::True, LiteralKeyword::False],
                forall|j: int| 0 <= j < i ==> all@[j].text() != s@,
            decreases 2 - i,
        {
            if chars_eq_str(s, all[i].as_str()) {
                assert(i == 1 ==> LiteralKeyword::True.text() != LiteralKeyword::False.text());
                return Some(all[i]);
            }
            i = i + 1;
        }
        assert forall|k: LiteralKeyword| k.text() != s@ by {
            match k {
                LiteralKeyword::True => assert(all@[0] == k),
                LiteralKeyword::False => assert(all@[1] == k),
            }
        }
        None
    }
}

impl Keyword {
    pub open spec fn text(self) -> Seq<char> {
        match self {
            Keyword::Pub => seq!['p', 'u', 'b'],
            Keyword::Extern => seq!['e', 'x', 't', 'e', 'r', 'n'],
            Keyword::Func => seq!['f', 'u', 'n', 'c'],
            Keyword::Let => seq!['l', 'e', 't'],
            Keyword::If => seq!['i', 'f'],
            Keyword::Else => seq!['e', 'l', 's', 'e'],
            Keyword::Return => seq!['r', 'e', 't', 'u', 'r', 'n'],
            Keyword::As => seq!['a', 's'],
            Keyword::Loop => seq!['l', 'o', 'o', 'p'],
        }
    }

    pub open spec fn all() -> Seq<Keyword> {
        seq![
            Keyword::Pub,
            Keyword::Extern,
            Keyword::Func,
            Keyword::Let,
            Keyword::If,
            Keyword::Else,
            Keyword::Return,
            Keyword::As,
            Keyword::Loop,
        ]
    }

    /// The keyword's source text.
    pub fn as_str(&self) -> (r: &'static str)
        ensures
            r@ == self.text(),
    {
        proof {
            reveal_strlit("pub");
            reveal_strlit("extern");
            reveal_strlit("func");
            reveal_strlit("let");
            reveal_strlit("if");
            reveal_strlit("else");
            reveal_strlit("return");
            reveal_strlit("as");
            reveal_strlit("loop");
        }
        match self {
            Keyword::Pub => "pub",
            Keyword::Extern => "extern",
            Keyword::Func => "func",
            Keyword::Let => "let",
            Keyword::If => "if",
            Keyword::Else => "else",
            Keyword::Return => "return",
            Keyword::As => "as",
            Keyword::Loop => "loop",
        }
    }

    pub open spec fn spec_from_text(s: Seq<char>) -> Option<Keyword> {
        if s == Keyword::Pub.text() {
            Some(Keyword::Pub)
        } else if s == Keyword::Extern.text() {
            Some(Keyword::Extern)
        } else if s == Keyword::Func.text() {
            Some(Keyword::Func)
        } else if s == Keyword::Let.text() {
            Some(Keyword::Let)
        } else if s == Keyword::If.text() {
            Some(Keyword::If)
        } else if s == Keyword::Else.text() {
            Some(Keyword::Else)
        } else if s == Keyword::Return.text() {
            Some(Keyword::Return)
        } else if s == Keyword::As.text() {
            Some(Keyword::As)
        } else if s == Keyword::Loop.text() {
            Some(Keyword::Loop)
        } else {
            None
        }
    }

    /// The keyword whose text is `s`, if any.
    pub fn from_chars(s: &[char]) -> (r: Option<Keyword>)
        ensures
            r == Keyword::spec_from_text(s@),
    {
        let all = [
            Keyword::Pub,
            Keyword::Extern,
            Keyword::Func,
            Keyword::Let,
            Keyword::If,
            Keyword::Else,
            Keyword::Return,
            Keyword::As,
            Keyword::Loop,
        ];
        assert(all@ == Keyword::all());
        let mut i: usize = 0;
        while i < 9
            invariant
                i <= 9,
                all@ == Keyword::all(),
                forall|j: int| 0 <= j < i ==> all@[j].text() != s@,
            decreases 9 - i,
        {
            if chars_eq_str(s, all[i].as_str()) {
                proof {
                    lemma_keyword_text_injective_all(all[i as int], s@);
                }
                return Some(all[i]);
            }
            i = i + 1;
        }
        assert forall|k: Keyword| k.text() != s@ by {
            match k {
                Keyword::Pub => assert(all@[0] == k),
                Keyword::Extern => assert(all@[1] == k),
                Keyword::Func => assert(all@[2] == k),
                Keyword::Let => assert(all@[3] == k),
                Keyword::If => assert(all@[4] == k),
                Keyword::Else => assert(all@[5] == k),
                Keyword::Return => assert(all@[6] == k),
                Keyword::As => assert(all@[7] == k),
                Keyword::Loop => assert(all@[8] == k),
            }
        }
        None
    }
}

impl TypeKeyword {
    pub open spec fn text(self) -> Seq<char> {
        match self {
            TypeKeyword::Bool => seq!['b', 'o', 'o', 'l'],
            TypeKeyword::Int => seq!['i', 'n', 't'],
        }
    }

    /// The type keyword's source text.
    pub fn as_str(&self) -> (r: &'static str)
        ensures
            r@ == self.text(),
    {
        proof {
            reveal_strlit("bool");
            reveal_strlit("int");
        }
        match self {
            TypeKeyword::Bool => "bool",
            TypeKeyword::Int => "int",
        }
    }

    pub open spec fn spec_from_text(s: Seq<char>) -> Option<TypeKeyword> {
        if s == TypeKeyword::Bool.text() {
            Some(TypeKeyword::Bool)
        } else if s == TypeKeyword::Int.text() {
            Some(TypeKeyword::Int)
        } else {
            None
        }
    }

    /// The type keyword whose text is `s`, if any.
    pub fn from_chars(s: &[char]) -> (r: Option<TypeKeyword>)
        ensures
            r == TypeKeyword::spec_from_text(s@),
    {
        if chars_eq_str(s, TypeKeyword::Bool.as_str()) {
            Some(TypeKeyword::Bool)
        } else if chars_eq_str(s, TypeKeyword::Int.as_str()) {
            Some(TypeKeyword::Int)
        } else {
            None
        }
    }
}

impl Delimiter {
    pub open spec fn spec_char(self) -> char {
        match self {
            Delimiter::ParenOpen => '(',
            Delimiter::ParenClose => ')',
            Delimiter::BraceOpen => '{',
            Delimiter::BraceClose => '}',
            Delimiter::BracketOpen => '[',
            Delimiter::BracketClose => ']',
            Delimiter::Colon => ':',
            Delimiter::Semicolon => ';',
            Delimiter::Comma => ',',
        }
    }

    pub open spec fn spec_from_char(c: char) -> Option<Delimiter> {
        if c == '(' {
            Some(Delimiter::ParenOpen)
        } else if c == ')' {
            Some(Delimiter::ParenClose)
        } else if c == '{' {
            Some(Delimiter::BraceOpen)
        } else if c == '}' {
            Some(Delimiter::BraceClose)
        } else if c == '[' {
            Some(Delimiter::BracketOpen)
        } else if c == ']' {
            Some(Delimiter::BracketClose)
        } else if c == ':' {
            Some(Delimiter::Colon)
        } else if c == ';' {
            Some(Delimiter::Semicolon)
        } else if c == ',' {
            Some(Delimiter::Comma)
        } else {
            None
        }
    }

    /// The delimiter's character.
    pub fn as_char(&self) -> (r: char)
        ensures
            r == self.spec_char(),
    {
        match self {
            Delimiter::ParenOpen => '(',
            Delimiter::ParenClose => ')',
            Delimiter::BraceOpen => '{',
            Delimiter::BraceClose => '}',
            Delimiter::BracketOpen => '[',
            Delimiter::BracketClose => ']',
            Delimiter::Colon => ':',
            Delimiter::Semicolon => ';',
            Delimiter::Comma => ',',
        }
    }

    /// The delimiter written as `c`, if any.
    pub fn from_char(c: char) -> (r: Option<Delimiter>)
        ensures
            r == Delimiter::spec_from_char(c),
    {
        if c == '(' {
            Some(Delimiter::ParenOpen)
        } else if c == ')' {
            Some(Delimiter::ParenClose)
        } else if c == '{' {
            Some(Delimiter::BraceOpen)
        } else if c == '}' {
            Some(Delimiter::BraceClose)
        } else if c == '[' {
            Some(Delimiter::BracketOpen)
        } else if c == ']' {
            Some(Delimiter::BracketClose)
        } else if c == ':' {
            Some(Delimiter::Colon)
        } else if c == ';' {
            Some(Delimiter::Semicolon)
        } else if c == ',' {
            Some(Delimiter::Comma)
        } else {
            None
        }
    }
}

impl OperatorChar {
    pub open spec fn spec_char(self) -> char {
        match self {
            OperatorChar::Equal => '=',
            OperatorChar::Plus => '+',
            OperatorChar::Minus => '-',
            OperatorChar::Less => '<',
            OperatorChar::Greater => '>',
            OperatorChar::Exclaimation => '!',
            OperatorChar::Ampersand => '&',
            OperatorChar::Pipe => '|',
        }
    }

    pub open spec fn spec_from_char(c: char) -> Option<OperatorChar> {
        if c == '=' {
            Some(OperatorChar::Equal)
        } else if c == '+' {
            Some(OperatorChar::Plus)
        } else if c == '-' {
            Some(OperatorChar::Minus)
        } else if c == '<' {
            Some(OperatorChar::Less)
        } else if c == '>' {
            Some(OperatorChar::Greater)
        } else if c == '!' {
            Some(OperatorChar::Exclaimation)
        } else if c == '&' {
            Some(OperatorChar::Ampersand)
        } else if c == '|' {
            Some(OperatorChar::Pipe)
        } else {
            None
        }
    }

    pub fn as_char(&self) -> (r: char)
        ensures
            r == self.spec_char(),
    {
        match self {
            OperatorChar::Equal => '=',
            OperatorChar::Plus => '+',
            OperatorChar::Minus => '-',
            OperatorChar::Less => '<',
            OperatorChar::Greater => '>',
            OperatorChar::Exclaimation => '!',
            OperatorChar::Ampersand => '&',
            OperatorChar::Pipe => '|',
        }
    }

    /// The operator character `c` stands for, if any.
    pub fn from_char(c: char) -> (r: Option<OperatorChar>)
        ensures
            r == OperatorChar::spec_from_char(c),
    {
        if c == '=' {
            Some(OperatorChar::Equal)
        } else if c == '+' {
            Some(OperatorChar::Plus)
        } else if c == '-' {
            Some(OperatorChar::Minus)
        } else if c == '<' {
            Some(OperatorChar::Less)
        } else if c == '>' {
            Some(OperatorChar::Greater)
        } else if c == '!' {
            Some(OperatorChar::Exclaimation)
        } else if c == '&' {
            Some(OperatorChar::Ampersand)
        } else if c == '|' {
            Some(OperatorChar::Pipe)
        } else {
            None
        }
    }
}

impl Operator {
    pub open spec fn text(self) -> Seq<char> {
        match self {
            Operator::Assign => seq!['='],
            Operator::Add => seq!['+'],
            Operator::Sub => seq!['-'],
            Operator::And => seq!['&', '&'],
            Operator::Or => seq!['|', '|'],
            Operator::Not => seq!['!'],
            Operator::Equal => seq!['=', '='],
            Operator::NotEqual => seq!['!', '='],
            Operator::Less => seq!['<'],
            Operator::LessEqual => seq!['<', '='],
            Operator::Greater => seq!['>'],
            Operator::GreaterEqual => seq!['>', '='],
        }
    }

    /// The operator written as `s`, if any.
    pub open spec fn spec_from_text(s: Seq<char>) -> Option<Operator> {
        if s.len() == 1 {
            if s[0] == '=' {
                Some(Operator::Assign)
            } else if s[0] == '+' {
                Some(Operator::Add)
            } else if s[0] == '-' {
                Some(Operator::Sub)
            } else if s[0] == '!' {
                Some(Operator::Not)
            } else if s[0] == '<' {
                Some(Operator::Less)
            } else if s[0] == '>' {
                Some(Operator::Greater)
            } else {
                None
            }
        } else if s.len() == 2 && s[1] == '=' {
            if s[0] == '=' {
                Some(Operator::Equal)
            } else if s[0] == '!' {
                Some(Operator::NotEqual)
            } else if s[0] == '<' {
                Some(Operator::LessEqual)
            } else if s[0] == '>' {
                Some(Operator::GreaterEqual)
            } else {
                None
            }
        } else if s.len() == 2 && s[0] == '&' && s[1] == '&' {
            Some(Operator::And)
        } else if s.len() == 2 && s[0] == '|' && s[1] == '|' {
            Some(Operator::Or)
        } else {
            None
        }
    }

    /// The operator's source text.
    pub fn as_str(&self) -> (r: &'static str)
        ensures
            r@ == self.text(),
    {
        proof {
            reveal_strlit("=");
            reveal_strlit("+");
            reveal_strlit("-");
            reveal_strlit("&&");
            reveal_strlit("||");
            reveal_strlit("!");
            reveal_strlit("==");
            reveal_strlit("!=");
            reveal_strlit("<");
            reveal_strlit("<=");
            reveal_strlit(">");
            reveal_strlit(">=");
        }
        match self {
            Operator::Assign => "=",
            Operator::Add => "+",
            Operator::Sub => "-",
            Operator::And => "&&",
            Operator::Or => "||",
            Operator::Not => "!",
            Operator::Equal => "==",
            Operator::NotEqual => "!=",
            Operator::Less => "<",
            Operator::LessEqual => "<=",
            Operator::Greater => ">",
            Operator::GreaterEqual => ">=",
        }
    }

    /// The operator written as the characters `s[from..to]`, if any.
    pub fn from_chars(s: &[char], from: usize, to: usize) -> (r: Option<Operator>)
        requires
            from <= to <= s@.len(),
        ensures
            r == Operator::spec_from_text(s@.subrange(from as int, to as int)),
    {
        let n = to - from;
        if n == 1 {
            let c = s[from];
            if c == '=' {
                Some(Operator::Assign)
            } else if c == '+' {
                Some(Operator::Add)
            } else if c == '-' {
                Some(Operator::Sub)
            } else if c == '!' {
                Some(Operator::Not)
            } else if c == '<' {
                Some(Operator::Less)
            } else if c == '>' {
                Some(Operator::Greater)
            } else {
                None
            }
        } else if n == 2 && s[from + 1] == '=' {
            let c = s[from];
            if c == '=' {
                Some(Operator::Equal)
            } else if c == '!' {
                Some(Operator::NotEqual)
            } else if c == '<' {
                Some(Operator::LessEqual)
            } else if c == '>' {
                Some(Operator::GreaterEqual)
            } else {
                None
            }
        } else if n == 2 && s[from] == '&' && s[from + 1] == '&' {
            Some(Operator::And)
        } else if n == 2 && s[from] == '|' && s[from + 1] == '|' {
            Some(Operator::Or)
        } else {
            None
        }
    }
}

/// Reading an operator's own text gives the operator back, and no other text reads as it:
/// the operator table is a bijection between operators and their texts.
pub proof fn lemma_operator_text_roundtrip(op: Operator, s: Seq<char>)
    ensures
        Operator::spec_from_text(op.text()) == Some(op),
        Operator::spec_from_text(s) == Some(op) ==> s == op.text(),
{
    if Operator::spec_from_text(s) == Some(op) {
        assert(s =~= op.text());
    }
}

/// Keyword texts are pairwise distinct, so looking a keyword's text up gives that keyword.
pub proof fn lemma_keyword_text_injective(a: Keyword, b: Keyword)
    ensures
        a.text() == b.text() ==> a == b,
{
    if a.text() == b.text() {
        assert(a.text().len() == b.text().len());
        assert(a.text()[0] == b.text()[0]);
        assert(a.text()[1] == b.text()[1]);
    }
}

/// A keyword's text reads back as that keyword.
pub proof fn lemma_keyword_text_injective_all(k: Keyword, s: Seq<char>)
    requires
        k.text() == s,
    ensures
        Keyword::spec_from_text(s) == Some(k),
{
    match k {
        Keyword::Pub => {},
        Keyword::Extern => {},
        Keyword::Func => {},
        Keyword::Let => {},
        Keyword::If => {},
        Keyword::Else => {},
        Keyword::Return => {},
        Keyword::As => {},
        Keyword::Loop => {},
    }
}

/// Delimiter characters are pairwise distinct: reading a delimiter's character gives it back.
pub proof fn lemma_delimiter_char_roundtrip(d: Delimiter)
    ensures
        Delimiter::spec_from_char(d.spec_char()) == Some(d),
{
}

/// Operator characters are pairwise distinct: reading one gives it back.
pub proof fn lemma_operator_char_roundtrip(o: OperatorChar)
    ensures
        OperatorChar::spec_from_char(o.spec_char()) == Some(o),
{
}

} // verus!
