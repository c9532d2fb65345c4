use whiskc::lexer::{lexes_completely, Lexer};
use whiskc::location::{Location, LocationRange};
use whiskc::token::{
    Delimiter, Keyword, Literal, LiteralKeyword, Operator, TokenKind, TypeKeyword,
};

fn chars(s: &str) -> Vec<char> {
    s.chars().collect()
}

fn kinds(src: &str) -> Vec<TokenKind> {
    let v = chars(src);
    assert!(lexes_completely(&v));
    let mut lexer = Lexer::new(&v);
    let mut out = Vec::new();
    loop {
        let t = lexer.next_token();
        let end = matches!(t.kind, TokenKind::EndOfFile);
        out.push(t.kind);
        if end {
            break;
        }
    }
    out
}

#[test]
fn lexes_a_function_head() {
    let k = kinds("func main(x: int) bool {");
    assert_eq!(k.len(), 10);
    assert!(matches!(k[0], TokenKind::Keyword(Keyword::Func)));
    assert!(matches!(&k[1], TokenKind::Identifier(id) if id.0 == "main"));
    assert!(matches!(k[2], TokenKind::Delimiter(Delimiter::ParenOpen)));
    assert!(matches!(&k[3], TokenKind::Identifier(id) if id.0 == "x"));
    assert!(matches!(k[4], TokenKind::Delimiter(Delimiter::Colon)));
    assert!(matches!(k[5], TokenKind::TypeKeyword(TypeKeyword::Int)));
    assert!(matches!(k[6], TokenKind::Delimiter(Delimiter::ParenClose)));
    assert!(matches!(k[7], TokenKind::TypeKeyword(TypeKeyword::Bool)));
    assert!(matches!(k[8], TokenKind::Delimiter(Delimiter::BraceOpen)));
    assert!(matches!(k[9], TokenKind::EndOfFile));
}

#[test]
fn lexes_operators_longest_first() {
    let k = kinds("a <= b == !c != d >= e && f || g = -1");
    assert!(matches!(k[1], TokenKind::Operator(Operator::LessEqual)));
    assert!(matches!(k[3], TokenKind::Operator(Operator::Equal)));
    assert!(matches!(k[4], TokenKind::Operator(Operator::Not)));
    assert!(matches!(k[6], TokenKind::Operator(Operator::NotEqual)));
    assert!(matches!(k[8], TokenKind::Operator(Operator::GreaterEqual)));
    assert!(matches!(k[10], TokenKind::Operator(Operator::And)));
    assert!(matches!(k[12], TokenKind::Operator(Operator::Or)));
    assert!(matches!(k[14], TokenKind::Operator(Operator::Assign)));
    assert!(matches!(k[15], TokenKind::Operator(Operator::Sub)));
    assert!(matches!(k[16], TokenKind::Literal(Literal::Int(1))));
}

#[test]
fn lexes_literals_and_keywords() {
    let k = kinds("true false 42 let if else return loop pub extern");
    assert!(matches!(k[0], TokenKind::LiteralKeyword(LiteralKeyword::True)));
    assert!(matches!(k[1], TokenKind::LiteralKeyword(LiteralKeyword::False)));
    assert!(matches!(k[2], TokenKind::Literal(Literal::Int(42))));
    assert!(matches!(k[3], TokenKind::Keyword(Keyword::Let)));
    assert!(matches!(k[4], TokenKind::Keyword(Keyword::If)));
    assert!(matches!(k[5], TokenKind::Keyword(Keyword::Else)));
    assert!(matches!(k[6], TokenKind::Keyword(Keyword::Return)));
    assert!(matches!(k[7], TokenKind::Keyword(Keyword::Loop)));
    assert!(matches!(k[8], TokenKind::Keyword(Keyword::Pub)));
    assert!(matches!(k[9], TokenKind::Keyword(Keyword::Extern)));
    assert!(matches!(k[10], TokenKind::EndOfFile));
}

#[test]
fn skips_comments() {
    let k = kinds("// a line comment\nx /* a block\n comment */ y");
    assert_eq!(k.len(), 3);
    assert!(matches!(&k[0], TokenKind::Identifier(id) if id.0 == "x"));
    assert!(matches!(&k[1], TokenKind::Identifier(id) if id.0 == "y"));
}

#[test]
fn empty_source_gives_end_of_file() {
    let k = kinds("");
    assert_eq!(k.len(), 1);
    assert!(matches!(k[0], TokenKind::EndOfFile));
    let k = kinds("   \n\t ");
    assert_eq!(k.len(), 1);
}

#[test]
fn unknown_character_gives_unknown_token() {
    let k = kinds("a $ b");
    assert!(matches!(k[1], TokenKind::Unknown));
    assert!(matches!(&k[2], TokenKind::Identifier(id) if id.0 == "b"));
}

#[test]
fn token_locations_count_lines_and_columns_from_one() {
    let v = chars("func\n  main");
    let mut lexer = Lexer::new(&v);
    let t = lexer.next_token();
    assert_eq!(t.loc.start, Location { line: 1, col: 1 });
    assert_eq!(t.loc.end, Location { line: 1, col: 4 });
    let t = lexer.next_token();
    assert_eq!(t.loc.start, Location { line: 2, col: 3 });
    assert_eq!(t.loc.end, Location { line: 2, col: 6 });
    assert_eq!(*lexer.get_prev_loc(), LocationRange { start: Location { line: 2, col: 3 }, end: Location { line: 2, col: 6 } });
}

#[test]
fn peeking_does_not_consume() {
    let v = chars("a b c");
    let mut lexer = Lexer::new(&v);
    // Whatever is asked ahead, the next token is what a peek gives.
    assert!(matches!(lexer.peek_token_kind(2), TokenKind::Identifier(id) if id.0 == "a"));
    assert!(matches!(lexer.peek_token_kind(0), TokenKind::Identifier(id) if id.0 == "a"));
    let t = lexer.next_token();
    assert!(matches!(t.kind, TokenKind::Identifier(id) if id.0 == "a"));
    let t = lexer.next_token();
    assert!(matches!(t.kind, TokenKind::Identifier(id) if id.0 == "b"));
}

#[test]
fn end_of_file_repeats() {
    let v = chars("x");
    let mut lexer = Lexer::new(&v);
    lexer.next_token();
    assert!(lexer.is_eof());
    assert!(matches!(lexer.next_token().kind, TokenKind::EndOfFile));
    assert!(matches!(lexer.next_token().kind, TokenKind::EndOfFile));
}

#[test]
fn sources_that_do_not_lex_are_detected() {
    assert!(!lexes_completely(&chars("a & b")));
    assert!(!lexes_completely(&chars("a | b")));
    assert!(!lexes_completely(&chars("/* open")));
    assert!(!lexes_completely(&chars("99999999999999999999")));
    assert!(lexes_completely(&chars("a && b || c")));
}

#[test]
fn keyword_texts_round_trip() {
    assert_eq!(Keyword::Func.as_str(), "func");
    assert_eq!(Keyword::from_chars(&chars("extern")), Some(Keyword::Extern));
    assert_eq!(Keyword::from_chars(&chars("funcs")), None);
    assert_eq!(TypeKeyword::from_chars(&chars("bool")), Some(TypeKeyword::Bool));
    assert_eq!(LiteralKeyword::True.as_str(), "true");
    assert_eq!(Delimiter::from_char(';'), Some(Delimiter::Semicolon));
    assert_eq!(Delimiter::Comma.as_char(), ',');
}

#[test]
fn location_order_and_combine() {
    let a = Location { line: 1, col: 5 };
    let b = Location { line: 2, col: 1 };
    assert!(a.lt(&b));
    assert!(!b.lt(&a));
    assert_eq!(a.compare(&b), std::cmp::Ordering::Less);
    assert_eq!(a.compare(&a), std::cmp::Ordering::Equal);
    assert_eq!(a.front(), Location { line: 1, col: 4 });
    assert_eq!(Location { line: 3, col: 0 }.front(), Location { line: 3, col: 0 });
    let r1 = LocationRange { start: a, end: a };
    let r2 = LocationRange { start: b, end: Location { line: 2, col: 7 } };
    let c = LocationRange::combine(r1, r2);
    assert_eq!(c, LocationRange { start: a, end: Location { line: 2, col: 7 } });
    assert_eq!(r1.partial_compare(&r2), Some(std::cmp::Ordering::Less));
    assert_eq!(r2.partial_compare(&r1), Some(std::cmp::Ordering::Greater));
    assert_eq!(c.partial_compare(&r1), None);
    assert_eq!(r1.partial_compare(&r1), Some(std::cmp::Ordering::Equal));
}

#[test]
fn token_kinds_are_named_for_messages() {
    assert_eq!(TokenKind::Unknown.to_string(), "unknown");
    assert_eq!(TokenKind::EndOfFile.to_string(), "EOF");
    assert_eq!(TokenKind::Literal(Literal::Int(-12)).to_string(), "-12");
    assert_eq!(TokenKind::LiteralKeyword(LiteralKeyword::False).to_string(), "false");
    assert_eq!(TokenKind::Keyword(Keyword::Let).to_string(), "'let' keyword");
    assert_eq!(TokenKind::TypeKeyword(TypeKeyword::Int).to_string(), "'int' type");
    assert_eq!(
        TokenKind::Identifier(whiskc::token::Identifier("abc".to_owned())).to_string(),
        "'abc'"
    );
    assert_eq!(TokenKind::Delimiter(Delimiter::BraceOpen).to_string(), "'{'");
    assert_eq!(TokenKind::Operator(Operator::LessEqual).to_string(), "'<=' operator");
}

#[test]
fn locations_are_shown_as_line_and_column() {
    let a = Location { line: 3, col: 14 };
    let b = Location { line: 4, col: 2 };
    assert_eq!(a.to_text(), "3:14");
    assert_eq!(Location { line: 0, col: 5 }.to_text(), "-");
    assert_eq!(LocationRange { start: a, end: a }.to_text(), "[3:14]");
    assert_eq!(LocationRange { start: a, end: b }.to_text(), "[3:14-4:2]");
    assert_eq!(LocationRange::default().to_text(), "[-]");
}

#[test]
fn the_end_of_file_token_repeats_with_its_range() {
    let v = chars("a  ");
    let mut lexer = Lexer::new(&v);
    let a = lexer.next_token();
    assert!(matches!(a.kind, TokenKind::Identifier(_)));
    assert!(!(a.loc.end.col < a.loc.start.col && a.loc.end.line == a.loc.start.line));
    let e1 = lexer.next_token();
    let e2 = lexer.next_token();
    assert!(matches!(e1.kind, TokenKind::EndOfFile));
    assert!(matches!(e2.kind, TokenKind::EndOfFile));
    assert_eq!(e1.loc.start, e2.loc.start);
    assert_eq!(e1.loc.end, e2.loc.end);
}
