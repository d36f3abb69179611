use ruscom::parse::{
    type_size, BinaryOpKind, Node, ParseError, ParseErrorKind, Parser, Type, UnaryOpKind,
};
use ruscom::token::{tokenize, Tokens};

fn show_type(ty: &Type) -> String {
    match ty {
        Type::Int8 => "i8".to_string(),
        Type::Int16 => "i16".to_string(),
        Type::Int32 => "i32".to_string(),
        Type::Int64 => "i64".to_string(),
        Type::Bool => "bool".to_string(),
        Type::Str => "str".to_string(),
        Type::Ptr(ty) => format!("ptr({})", show_type(ty)),
        Type::Slc(ty) => format!("slc({})", show_type(ty)),
        Type::Ary(ty, len) => format!("[{}; {}]", show_type(ty), len),
    }
}

fn show_all(nodes: &[Box<Node>]) -> String {
    nodes.iter().map(|n| show(n)).collect::<Vec<String>>().join(" ")
}

/// A tree written out in brackets.
fn show(node: &Node) -> String {
    match node {
        Node::BinaryOperator { kind, lhs, rhs } => {
            let op = match kind {
                BinaryOpKind::BinaryOpAdd => "+",
                BinaryOpKind::BinaryOpSub => "-",
                BinaryOpKind::BinaryOpMul => "*",
                BinaryOpKind::BinaryOpDiv => "/",
                BinaryOpKind::BinaryOpEq => "==",
                BinaryOpKind::BinaryOpNe => "!=",
                BinaryOpKind::BinaryOpGr => "<",
                BinaryOpKind::BinaryOpGe => "<=",
                BinaryOpKind::BinaryOpAsn => "=",
            };
            format!("({} {} {})", op, show(lhs), show(rhs))
        }
        Node::UnaryOperator { kind, rhs } => match kind {
            UnaryOpKind::UnaryOpRf => format!("(ref {})", show(rhs)),
            UnaryOpKind::UnaryOpDrf => format!("(deref {})", show(rhs)),
        },
        Node::Number { val } => format!("{}", val),
        Node::Bool { bl } => format!("{}", bl),
        Node::StrLiteral { s, label } => format!("(str {:?} {})", s, label),
        Node::LocalVariable { offset, ty } => format!("(local {} {})", offset, show_type(ty)),
        Node::DeclareLocal { offset, ty } => format!("(let {} {})", offset, show_type(ty)),
        Node::GlobalVariable { name, offset, ty } => {
            format!("(global {} {} {})", name, offset, show_type(ty))
        }
        Node::DeclareGlobal { name, size, ty } => {
            format!("(static {} {} {})", name, size, show_type(ty))
        }
        Node::Block { nodes } => format!("{{{}}}", show_all(nodes)),
        Node::Function { name, args, stack, block } => {
            format!("(fn {} [{}] {} {})", name, show_all(args), stack, show(block))
        }
        Node::Call { name, args, ty } => {
            format!("(call {} [{}] {})", name, show_all(args), show_type(ty))
        }
        Node::If { cond, ibody } => format!("(if {} {})", show(cond), show(ibody)),
        Node::IfElse { cond, ibody, ebody } => {
            format!("(if {} {} {})", show(cond), show(ibody), show(ebody))
        }
        Node::While { cond, body } => format!("(while {} {})", show(cond), show(body)),
        Node::Return { rhs, ty } => format!("(return {} {})", show(rhs), show_type(ty)),
    }
}

fn parse(source: &str) -> Result<String, ParseError> {
    let mut tokens = Tokens::new(tokenize(source).unwrap());
    let mut parser = Parser::new();
    let nodes = parser.program(&mut tokens)?;
    assert!(!tokens.has_next());
    Ok(show_all(&nodes))
}

/// The tree of the statements `body` of a function `main`.
fn parse_body(body: &str) -> String {
    let shown = parse(&format!("fn main() {{ {} }}", body)).unwrap();
    let start = shown.find('{').unwrap();
    shown[start + 1..shown.len() - 2].to_string()
}

fn parse_error(source: &str) -> (ParseErrorKind, usize) {
    let e = parse(source).unwrap_err();
    (e.error, e.pos)
}

#[test]
fn parse_empty_program() {
    assert_eq!(parse("").unwrap(), "");
    assert_eq!(parse("  // nothing\n").unwrap(), "");
}

#[test]
fn parse_precedence_and_associativity() {
    assert_eq!(parse_body("return 2 * 3 + 6 / 2;"), "(return (+ (* 2 3) (/ 6 2)) i8)");
    assert_eq!(parse_body("return 2 * (3 + 6) / 3;"), "(return (/ (* 2 (+ 3 6)) 3) i8)");
    assert_eq!(parse_body("return -1 + 2;"), "(return (+ (- 0 1) 2) i8)");
    assert_eq!(parse_body("return 1 - 2 - 3;"), "(return (- (- 1 2) 3) i8)");
    assert_eq!(parse_body("return 8 / 4 / 2;"), "(return (/ (/ 8 4) 2) i8)");
    assert_eq!(parse_body("return 1 + 2 < 3 * 4 == true;"), "(return (== (< (+ 1 2) (* 3 4)) true) i8)");
    assert_eq!(parse_body("return 1 == 2 != 3;"), "(return (!= (== 1 2) 3) i8)");
    assert_eq!(parse_body("return -(1 + 2) + 4;"), "(return (+ (- 0 (+ 1 2)) 4) i8)");
}

#[test]
fn parse_greater_swaps_the_operands() {
    assert_eq!(parse_body("return 1 > 2;"), parse_body("return 2 < 1;"));
    assert_eq!(parse_body("return 1 >= 2;"), parse_body("return 2 <= 1;"));
    assert_eq!(parse_body("return 1 > 2;"), "(return (< 2 1) i8)");
    assert_eq!(parse_body("return 1 >= 2;"), "(return (<= 2 1) i8)");
    assert_eq!(parse_body("return 1 < 2;"), "(return (< 1 2) i8)");
    assert_eq!(parse_body("return 1 <= 2;"), "(return (<= 1 2) i8)");
    assert_eq!(parse_body("return 1 + 2 > 3 * 4;"), parse_body("return 3 * 4 < 1 + 2;"));
    // The operators of one level are taken from left to right.
    assert_eq!(parse_body("return 1 < 2 > 3;"), "(return (< 3 (< 1 2)) i8)");
}

#[test]
fn parse_assignment_associates_to_the_right() {
    assert_eq!(
        parse_body("let a: i32; let b: i32; a = b = 1;"),
        "(let 4 i32) (let 8 i32) (= (local 4 i32) (= (local 8 i32) 1))"
    );
}

#[test]
fn parse_unary_operators() {
    assert_eq!(
        parse_body("let a: i32; let b: &i32; b = &a; *b = 3; return **&b;"),
        "(let 4 i32) (let 16 ptr(i32)) (= (local 16 ptr(i32)) (ref (local 4 i32))) \
         (= (deref (local 16 ptr(i32))) 3) (return (deref (deref (ref (local 16 ptr(i32))))) i8)"
    );
}

#[test]
fn parse_frame_layout() {
    assert_eq!(
        parse("fn f() { let a: i8; let b: i32; let c: [i16; 3]; let d: &str; let e: bool; let f: i64; }")
            .unwrap(),
        "(fn f [] 48 {(let 1 i8) (let 8 i32) (let 14 [i16; 3]) (let 32 slc(str)) (let 33 bool) \
         (let 48 i64)})"
    );
    assert_eq!(parse("fn f() { }").unwrap(), "(fn f [] 0 {})");
    assert_eq!(parse("fn f() { let a: [i8; 16]; }").unwrap(), "(fn f [] 16 {(let 16 [i8; 16])})");
    assert_eq!(parse("fn f() { let a: [i8; 17]; }").unwrap(), "(fn f [] 32 {(let 17 [i8; 17])})");
}

#[test]
fn parse_types() {
    assert_eq!(
        parse_body("let a: &i8; let b: &&i8; let c: &str; let d: &[i32; 2]; let e: &&str; let f: [[i8; 2]; 3]; let g: [&i8; 2];"),
        "(let 8 ptr(i8)) (let 16 ptr(ptr(i8))) (let 32 slc(str)) (let 48 slc([i32; 2])) \
         (let 56 ptr(slc(str))) (let 62 [[i8; 2]; 3]) (let 80 [ptr(i8); 2])"
    );
    assert_eq!(type_size(&Type::Int8), 1);
    assert_eq!(type_size(&Type::Int16), 2);
    assert_eq!(type_size(&Type::Int32), 4);
    assert_eq!(type_size(&Type::Int64), 8);
    assert_eq!(type_size(&Type::Bool), 1);
    assert_eq!(type_size(&Type::Ptr(Box::new(Type::Str))), 8);
    assert_eq!(type_size(&Type::Slc(Box::new(Type::Str))), 16);
    assert_eq!(type_size(&Type::Ary(Box::new(Type::Int32), 10)), 40);
    assert_eq!(type_size(&Type::Ary(Box::new(Type::Int32), 0)), 0);
}

#[test]
fn parse_scopes_of_two_functions_do_not_meet() {
    assert_eq!(
        parse("fn foo() { let a: i8; a = 1; } fn bar() { let b: i64; let a: i32; a = 2; }").unwrap(),
        "(fn foo [] 16 {(let 1 i8) (= (local 1 i8) 1)}) \
         (fn bar [] 16 {(let 8 i64) (let 12 i32) (= (local 12 i32) 2)})"
    );
    // A local of an earlier function is unknown in a later one.
    assert_eq!(
        parse_error("fn foo() { let a: i8; } fn bar() { a = 1; }"),
        (ParseErrorKind::UnknownVariable, 35)
    );
}

#[test]
fn parse_first_declaration_of_a_name_wins() {
    assert_eq!(
        parse_body("let a: i8; let a: i32; a = 1;"),
        "(let 1 i8) (let 8 i32) (= (local 1 i8) 1)"
    );
    // A local hides a global of its name.
    assert_eq!(
        parse("static a: i64; fn main() { a = 1; let a: i8; a = 2; }").unwrap(),
        "(static a 8 i64) (fn main [] 16 {(= (global a 0 i64) 1) (let 1 i8) (= (local 1 i8) 2)})"
    );
}

#[test]
fn parse_globals_and_indexing() {
    assert_eq!(
        parse("static a: [i32; 10]; static b: i8; fn main() { a[8] = 1; b = a[9]; return a[0]; }")
            .unwrap(),
        "(static a 40 [i32; 10]) (static b 1 i8) (fn main [] 0 {(= (global a 32 i32) 1) \
         (= (global b 0 i8) (global a 36 i32)) (return (global a 0 i32) i8)})"
    );
    assert_eq!(
        parse_body("let x: i64; let a: [i32; 10]; a[0] = 1; a[9] = 2; let b: [[i8; 2]; 3]; b[2] = 3;"),
        "(let 8 i64) (let 48 [i32; 10]) (= (local 48 i32) 1) (= (local 12 i32) 2) \
         (let 54 [[i8; 2]; 3]) (= (local 50 [i8; 2]) 3)"
    );
    // An index past the array is taken as it is, as long as it stays in the frame.
    assert_eq!(
        parse_body("let x: i64; let a: [i32; 2]; a[4] = 1;"),
        "(let 8 i64) (let 16 [i32; 2]) (= (local 0 i32) 1)"
    );
    assert_eq!(
        parse_error("fn main() { let a: [i32; 2]; a[3] = 1; }"),
        (ParseErrorKind::TypeInvalid, 29)
    );
}

#[test]
fn parse_functions_parameters_and_calls() {
    assert_eq!(
        parse("fn foo(a: i32, b: &str c: i8) -> i64 { return a; } fn main() { return foo(1, 2 3) + bar(); }")
            .unwrap(),
        "(fn foo [(local 4 i32) (local 24 slc(str)) (local 25 i8)] 32 {(return (local 4 i32) i64)}) \
         (fn main [] 0 {(return (+ (call foo [1 2 3] i64) (call bar [] i8)) i8)})"
    );
    // A function knows itself in its own block, and the first of a name is the one found.
    assert_eq!(
        parse("fn f() -> i32 { return f(); } fn f() -> i64 { return f(); }").unwrap(),
        "(fn f [] 0 {(return (call f [] i32) i32)}) (fn f [] 0 {(return (call f [] i32) i64)})"
    );
    assert_eq!(
        parse("fn f() -> &str { return \"a\"; }").unwrap(),
        "(fn f [] 0 {(return (str \"a\" 0) slc(str))})"
    );
}

#[test]
fn parse_control_flow() {
    assert_eq!(
        parse_body("if 1 { 2; } else 3; while true if false return 4; else { }"),
        "(if 1 {2} 3) (while true (if false (return 4 i8) {}))"
    );
    assert_eq!(parse_body("if 1 == 2 { } if 3 { }"), "(if (== 1 2) {}) (if 3 {})");
}

#[test]
fn parse_string_literal_pool() {
    let mut tokens = Tokens::new(
        tokenize("fn main() { let a: &str; a = \"one\"; a = \"two\"; a = \"one\"; }").unwrap(),
    );
    let mut parser = Parser::new();
    let nodes = parser.program(&mut tokens).unwrap();
    assert_eq!(
        show_all(&nodes),
        "(fn main [] 16 {(let 16 slc(str)) (= (local 16 slc(str)) (str \"one\" 0)) \
         (= (local 16 slc(str)) (str \"two\" 1)) (= (local 16 slc(str)) (str \"one\" 2))})"
    );
    assert_eq!(parser.literals(), &vec!["one".to_string(), "two".to_string(), "one".to_string()]);
    // The pool goes on where a second program is parsed by the same parser.
    let mut tokens = Tokens::new(tokenize("fn f() { return \"x\"; }").unwrap());
    let nodes = parser.program(&mut tokens).unwrap();
    assert_eq!(show_all(&nodes), "(fn f [] 0 {(return (str \"x\" 3) i8)})");
    assert_eq!(parser.literals().len(), 4);
}

#[test]
fn parse_missing_semicolon_points_at_the_next_token() {
    assert_eq!(parse_error("fn main() { return 1 }"), (ParseErrorKind::ScolonExpected, 21));
    assert_eq!(
        parse_error("fn main() { let a: i32\n    a = 1; }"),
        (ParseErrorKind::ScolonExpected, 27)
    );
    assert_eq!(parse_error("fn main() { 1 + 2 return 3; }"), (ParseErrorKind::ScolonExpected, 18));
    assert_eq!(parse_error("static a: i32 fn main() { }"), (ParseErrorKind::ScolonExpected, 14));
    assert_eq!(parse_error("fn main() { return 1"), (ParseErrorKind::ScolonExpected, 20));
    assert_eq!(parse_error("static a: [i32 3];"), (ParseErrorKind::ScolonExpected, 15));
    let e = parse("fn main() { return 1 }").unwrap_err();
    assert_eq!(e.to_string(), "                     ^ Semicolon is needed!");
}

/// The error of parsing `source`, and the offset of the token under the
/// cursor after it.
fn parse_failure(source: &str) -> (ParseErrorKind, usize) {
    let mut tokens = Tokens::new(tokenize(source).unwrap());
    let e = Parser::new().program(&mut tokens).unwrap_err();
    (e.error, tokens.head())
}

#[test]
fn parse_failure_leaves_the_cursor_on_the_token_found() {
    assert_eq!(parse_failure("return 1;"), (ParseErrorKind::NotInTop, 0));
    assert_eq!(parse_failure("fn f() { } let a: i8;"), (ParseErrorKind::NotInTop, 11));
    assert_eq!(parse_failure("fn main() { return 1 } fn g() { }"), (ParseErrorKind::ScolonExpected, 21));
    assert_eq!(parse_failure("static a i32; fn g() { }"), (ParseErrorKind::ColonExpected, 9));
    assert_eq!(parse_failure("fn main() { return (1 + 2; }"), (ParseErrorKind::ParenExpected, 25));
    // These point back at the name, and stop after what was read of it.
    assert_eq!(parse_error("fn main() { return x; }"), (ParseErrorKind::UnknownVariable, 19));
    assert_eq!(parse_failure("fn main() { return x; }"), (ParseErrorKind::UnknownVariable, 20));
    assert_eq!(parse_failure("fn main() { let a: i32; a[1] = 2; }"), (ParseErrorKind::TypeInvalid, 29));
    assert_eq!(parse_failure("fn main() { let a: str; }"), (ParseErrorKind::TypeInvalid, 22));
}

#[test]
fn parse_slots_are_aligned() {
    assert_eq!(
        parse_body("let a: i8; let b: i16; let c: i8; let d: i32; let e: i8; let f: i64; let g: i8; let h: &i8; let i: i8; let j: &str; let k: i8; let l: [i16; 3]; let m: [i8; 3];"),
        "(let 1 i8) (let 4 i16) (let 5 i8) (let 12 i32) (let 13 i8) (let 24 i64) (let 25 i8) \
         (let 40 ptr(i8)) (let 41 i8) (let 64 slc(str)) (let 65 i8) (let 72 [i16; 3]) \
         (let 75 [i8; 3])"
    );
}

#[test]
fn parse_errors_of_every_kind() {
    assert_eq!(parse_error("static a: [i32; x];"), (ParseErrorKind::NumberExpected, 16));
    assert_eq!(parse_error("fn main() { let a: [i8; 2]; a[b] = 1; }"), (ParseErrorKind::NumberExpected, 30));
    assert_eq!(parse_error("fn 1() { }"), (ParseErrorKind::FuncExpected, 3));
    assert_eq!(parse_error("fn main() { let 1: i8; }"), (ParseErrorKind::VariableExpected, 16));
    assert_eq!(parse_error("fn f(1) { }"), (ParseErrorKind::VariableExpected, 5));
    assert_eq!(parse_error("static a: 5;"), (ParseErrorKind::TypeExpected, 10));
    assert_eq!(parse_error("static a: u8;"), (ParseErrorKind::TypeExpected, 10));
    assert_eq!(parse_error("fn f() -> { }"), (ParseErrorKind::TypeExpected, 10));
    assert_eq!(parse_error("fn f { }"), (ParseErrorKind::ArgExpected, 5));
    assert_eq!(parse_error("fn main() { return (1 + 2; }"), (ParseErrorKind::ParenExpected, 25));
    assert_eq!(parse_error("fn main() { let a: [i8; 2]; a[1 = 1; }"), (ParseErrorKind::ParenExpected, 32));
    assert_eq!(parse_error("static a: [i32; 3;"), (ParseErrorKind::ParenExpected, 17));
    assert_eq!(parse_error("static a i32;"), (ParseErrorKind::ColonExpected, 9));
    assert_eq!(parse_error("fn f() return 1;"), (ParseErrorKind::BlockExpected, 7));
    assert_eq!(parse_error("fn f() -> i8 ;"), (ParseErrorKind::BlockExpected, 13));
    assert_eq!(parse_error("fn main() { let a: i32; a[1] = 2; }"), (ParseErrorKind::TypeInvalid, 24));
    assert_eq!(parse_error("static a: i32; fn main() { a[1] = 2; }"), (ParseErrorKind::TypeInvalid, 27));
    assert_eq!(parse_error("fn main() { return x; }"), (ParseErrorKind::UnknownVariable, 19));
    assert_eq!(parse_error("return 1;"), (ParseErrorKind::NotInTop, 0));
    assert_eq!(parse_error("fn f() { } let a: i8;"), (ParseErrorKind::NotInTop, 11));
    assert_eq!(parse_error("fn main() { return ; }"), (ParseErrorKind::ExprInvalid, 19));
    assert_eq!(parse_error("fn main() { static a: i8; }"), (ParseErrorKind::ExprInvalid, 12));
    assert_eq!(parse_error("fn main() { f(1, }"), (ParseErrorKind::ExprInvalid, 17));
    assert_eq!(parse_error("fn main() {"), (ParseErrorKind::ExprInvalid, 11));
    assert_eq!(parse_error("fn main() { 1 + ; }"), (ParseErrorKind::ExprInvalid, 16));
}

#[test]
fn parse_refuses_what_has_no_size() {
    assert_eq!(parse_error("static a: str;"), (ParseErrorKind::TypeInvalid, 13));
    assert_eq!(parse_error("fn main() { let a: str; }"), (ParseErrorKind::TypeInvalid, 22));
    assert_eq!(parse_error("fn main() { let a: [str; 2]; }"), (ParseErrorKind::TypeInvalid, 27));
    assert_eq!(parse_error("fn f(a: str) { }"), (ParseErrorKind::TypeInvalid, 11));
    // A local takes at least a byte, so that its offset is its own.
    assert_eq!(parse_error("fn main() { let a: [i32; 0]; }"), (ParseErrorKind::TypeInvalid, 27));
    assert_eq!(parse_error("fn f(a: [[i8; 0]; 4]) { }"), (ParseErrorKind::TypeInvalid, 20));
    assert_eq!(parse("static a: [i32; 0];").unwrap(), "(static a 0 [i32; 0])");
    // Arrays whose size cannot be held.
    assert_eq!(
        parse_error("static a: [[[[i64; 4294967295]; 4294967295]; 4294967295]; 4294967295];"),
        (ParseErrorKind::TypeInvalid, 69)
    );
    assert_eq!(
        parse("static a: [[i64; 65536]; 65536];").unwrap(),
        "(static a 34359738368 [[i64; 65536]; 65536])"
    );
}

#[test]
fn parse_error_messages() {
    let text = |kind: ParseErrorKind| ParseError { error: kind, pos: 2 }.to_string();
    assert_eq!(text(ParseErrorKind::NumberExpected), "  ^ Number is expected here!");
    assert_eq!(text(ParseErrorKind::FuncExpected), "  ^ Function is expected here!");
    assert_eq!(text(ParseErrorKind::VariableExpected), "  ^ Variable is expected here!");
    assert_eq!(text(ParseErrorKind::TypeExpected), "  ^ Type is expected here!");
    assert_eq!(text(ParseErrorKind::ArgExpected), "  ^ Arguments are needed!");
    assert_eq!(text(ParseErrorKind::ParenExpected), "  ^ Parentheses are not closed!");
    assert_eq!(text(ParseErrorKind::ScolonExpected), "  ^ Semicolon is needed!");
    assert_eq!(text(ParseErrorKind::ColonExpected), "  ^ Colon is needed!");
    assert_eq!(text(ParseErrorKind::BlockExpected), "  ^ Block is expected here!");
    assert_eq!(text(ParseErrorKind::TypeInvalid), "  ^ Invalid Type!");
    assert_eq!(text(ParseErrorKind::UnknownVariable), "  ^ Unknown variable!");
    assert_eq!(text(ParseErrorKind::NotInTop), "  ^ Cannot use in top level");
    assert_eq!(text(ParseErrorKind::ExprInvalid), "  ^ Invalid expression!");
    assert_eq!(ParseError { error: ParseErrorKind::NotInTop, pos: 0 }.to_string(), "^ Cannot use in top level");
}
