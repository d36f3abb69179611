use ruscom::token::{tokenize, Token, TokenKind, Tokens};

fn kinds(source: &str) -> Vec<TokenKind> {
    tokenize(source).unwrap().into_iter().map(|t| t.kind).collect()
}

fn op(text: &str) -> TokenKind {
    TokenKind::TokenOp(text.to_string())
}

fn idt(text: &str) -> TokenKind {
    TokenKind::TokenIdt(text.to_string())
}

fn rsv(text: &str) -> TokenKind {
    TokenKind::TokenRsv(text.to_string())
}

fn positions(tokens: &[Token]) -> Vec<usize> {
    tokens.iter().map(|t| t.pos).collect()
}

#[test]
fn tokenize_simple_function() {
    let tokens = tokenize("fn main() { return 1 + 2; }").unwrap();
    assert_eq!(positions(&tokens), vec![0, 3, 7, 8, 10, 12, 19, 21, 23, 24, 26, 27]);
    let found: Vec<TokenKind> = tokens.into_iter().map(|t| t.kind).collect();
    assert_eq!(
        found,
        vec![
            rsv("fn"),
            idt("main"),
            op("("),
            op(")"),
            op("{"),
            rsv("return"),
            TokenKind::TokenNum(1),
            op("+"),
            TokenKind::TokenNum(2),
            op(";"),
            op("}"),
            TokenKind::TokenEnd,
        ]
    );
}

#[test]
fn tokenize_empty_source_is_the_end_token() {
    let tokens = tokenize("").unwrap();
    assert_eq!(tokens.len(), 1);
    assert_eq!(tokens[0].kind, TokenKind::TokenEnd);
    assert_eq!(tokens[0].pos, 0);
}

#[test]
fn tokenize_reserved_words_and_identifiers() {
    let reserved = [
        "fn", "let", "static", "if", "else", "for", "while", "break", "continue", "return", "i8",
        "i16", "i32", "i64", "u8", "u16", "u32", "u64", "bool", "str", "true", "false",
    ];
    for word in reserved.iter() {
        assert_eq!(kinds(word), vec![rsv(word), TokenKind::TokenEnd]);
    }
    assert_eq!(kinds("fnx"), vec![idt("fnx"), TokenKind::TokenEnd]);
    assert_eq!(kinds("_a1 B_2"), vec![idt("_a1"), idt("B_2"), TokenKind::TokenEnd]);
    assert_eq!(kinds("i128"), vec![idt("i128"), TokenKind::TokenEnd]);
}

#[test]
fn tokenize_operator_runs() {
    assert_eq!(
        kinds("a<=b>=c==d!=e<f>g=h"),
        vec![
            idt("a"),
            op("<="),
            idt("b"),
            op(">="),
            idt("c"),
            op("=="),
            idt("d"),
            op("!="),
            idt("e"),
            op("<"),
            idt("f"),
            op(">"),
            idt("g"),
            op("="),
            idt("h"),
            TokenKind::TokenEnd,
        ]
    );
    assert_eq!(kinds("->"), vec![op("->"), TokenKind::TokenEnd]);
    assert_eq!(kinds("- >"), vec![op("-"), op(">"), TokenKind::TokenEnd]);
    assert_eq!(kinds("->>"), vec![op("->>"), TokenKind::TokenEnd]);
    assert_eq!(kinds("=!<"), vec![op("=!<"), TokenKind::TokenEnd]);
    assert_eq!(kinds("1-2"), vec![TokenKind::TokenNum(1), op("-"), TokenKind::TokenNum(2), TokenKind::TokenEnd]);
    assert_eq!(kinds("4/2"), vec![TokenKind::TokenNum(4), op("/"), TokenKind::TokenNum(2), TokenKind::TokenEnd]);
    assert_eq!(
        kinds("+*()[]{}&,:;"),
        vec![
            op("+"),
            op("*"),
            op("("),
            op(")"),
            op("["),
            op("]"),
            op("{"),
            op("}"),
            op("&"),
            op(","),
            op(":"),
            op(";"),
            TokenKind::TokenEnd,
        ]
    );
}

#[test]
fn tokenize_numbers() {
    assert_eq!(kinds("0"), vec![TokenKind::TokenNum(0), TokenKind::TokenEnd]);
    assert_eq!(kinds("007"), vec![TokenKind::TokenNum(7), TokenKind::TokenEnd]);
    assert_eq!(kinds("4294967295"), vec![TokenKind::TokenNum(4294967295), TokenKind::TokenEnd]);
    assert_eq!(kinds("12ab"), vec![TokenKind::TokenNum(12), idt("ab"), TokenKind::TokenEnd]);
}

#[test]
fn tokenize_refuses_a_number_that_is_too_large() {
    let e = tokenize("a = 4294967296;").unwrap_err();
    assert_eq!(e.pos, 4);
    assert_eq!(e.to_string(), "    ^ Cannot tokenize!");
    assert!(tokenize("99999999999999999999999999").is_err());
}

#[test]
fn tokenize_string_literals() {
    let tokens = tokenize("s = \"hi there\";").unwrap();
    assert_eq!(tokens[2].kind, TokenKind::TokenStr("hi there".to_string()));
    assert_eq!(tokens[2].pos, 4);
    assert_eq!(tokens[3].kind, op(";"));
    assert_eq!(tokens[3].pos, 14);
    // Text that is not ASCII is kept as it is, and offsets count bytes.
    let tokens = tokenize("\"h\u{e9}llo \u{1f600}\" x").unwrap();
    assert_eq!(tokens[0].kind, TokenKind::TokenStr("h\u{e9}llo \u{1f600}".to_string()));
    assert_eq!(tokens[1].kind, idt("x"));
    assert_eq!(tokens[1].pos, 14);
}

#[test]
fn tokenize_string_literal_edges() {
    // A literal holds at least the byte after its opening quote.
    assert_eq!(
        kinds("\"\"a\" b"),
        vec![TokenKind::TokenStr("\"a".to_string()), idt("b"), TokenKind::TokenEnd]
    );
    // The end of the source closes a literal; the end token then lies past it.
    let tokens = tokenize("\"abc").unwrap();
    assert_eq!(tokens[0].kind, TokenKind::TokenStr("abc".to_string()));
    assert_eq!(tokens[1].kind, TokenKind::TokenEnd);
    assert_eq!(tokens[1].pos, 5);
    // A quote that is the last byte opens nothing.
    let e = tokenize("a \"").unwrap_err();
    assert_eq!(e.pos, 2);
}

#[test]
fn tokenize_comments() {
    assert_eq!(kinds("a // b c\nd"), vec![idt("a"), idt("d"), TokenKind::TokenEnd]);
    assert_eq!(kinds("a /* b\nc */ d"), vec![idt("a"), idt("d"), TokenKind::TokenEnd]);
    assert_eq!(kinds("a /**/ d"), vec![idt("a"), idt("d"), TokenKind::TokenEnd]);
    assert_eq!(kinds("a /* * / */ d"), vec![idt("a"), idt("d"), TokenKind::TokenEnd]);
    assert_eq!(kinds("a /* \u{e9} */ d"), vec![idt("a"), idt("d"), TokenKind::TokenEnd]);
    // Comments that the end of the source closes.
    let tokens = tokenize("a // b").unwrap();
    assert_eq!(positions(&tokens), vec![0, 7]);
    let tokens = tokenize("a /* b").unwrap();
    assert_eq!(positions(&tokens), vec![0, 8]);
    let tokens = tokenize("a /* b *").unwrap();
    assert_eq!(positions(&tokens), vec![0, 9]);
    // A slash that is the last byte starts nothing.
    assert_eq!(tokenize("a /").unwrap_err().pos, 2);
}

#[test]
fn tokenize_reports_the_first_byte_that_starts_no_token() {
    assert_eq!(tokenize("a = b # c $").unwrap_err().pos, 6);
    assert_eq!(tokenize("\r\n").unwrap_err().pos, 0);
    assert_eq!(tokenize("a \u{e9}").unwrap_err().pos, 2);
    assert_eq!(tokenize("  @").unwrap_err().to_string(), "  ^ Cannot tokenize!");
}

#[test]
fn cursor_takes_only_what_is_expected() {
    let mut tokens = Tokens::new(tokenize("let a1 : 12 \"s\" true false ;").unwrap());
    assert!(tokens.has_next());
    assert_eq!(tokens.head(), 0);
    assert_eq!(tokens.head_before(0), Some(0));
    assert_eq!(tokens.head_before(1), None);
    assert_eq!(tokens.expect_num(), None);
    assert_eq!(tokens.expect_idt(), None);
    assert_eq!(tokens.expect_str(), None);
    assert_eq!(tokens.expect_bl(), None);
    assert!(!tokens.expect_op("let"));
    assert!(!tokens.expect_rsv("fn"));
    assert!(tokens.expect_rsv("let"));
    assert_eq!(tokens.head(), 4);
    assert!(!tokens.expect_rsv("a1"));
    assert_eq!(tokens.expect_idt(), Some("a1"));
    assert!(!tokens.expect_op(";"));
    assert!(tokens.expect_op(":"));
    assert_eq!(tokens.expect_num(), Some(12));
    assert_eq!(tokens.expect_str(), Some("s"));
    assert_eq!(tokens.expect_bl(), Some(true));
    assert_eq!(tokens.expect_bl(), Some(false));
    assert_eq!(tokens.head_before(2), Some(16));
    assert_eq!(tokens.head_before(8), None);
    assert!(tokens.expect_op(";"));
    assert!(!tokens.has_next());
    assert_eq!(tokens.head(), 28);
    // Nothing is taken at the end token.
    assert!(!tokens.expect_op(";"));
    assert_eq!(tokens.expect_num(), None);
    assert_eq!(tokens.head(), 28);
}
