use ruscom::assembly::{is_call, is_slice, lval_size, lval_type, AsmError, AsmGenerator};
use ruscom::compile;
use ruscom::parse::{BinaryOpKind, Node, Type, UnaryOpKind};
use ruscom::CompileError;

const HEAD: &str = ".intel_syntax noprefix\n.section .rodata\n";

const MAIN: &str = ".text\n.global main\nmain:\n    push rbp\n    mov rbp, rsp\n";

/// What closes every function: the teardown of the frame and an empty line.
const END: &str = "    mov rsp, rbp\n    pop rbp\n    ret\n\n";

fn listing(source: &str) -> String {
    match compile(source) {
        Ok(text) => text,
        Err(e) => panic!("{}", e.to_string()),
    }
}

/// The code of the statements `body` of a function `main` without locals.
fn code(body: &str) -> String {
    let text = listing(&format!("fn main() {{ {} }}", body));
    let start = format!("{}{}    sub rsp, 0\n", HEAD, MAIN);
    assert!(text.starts_with(&start), "{}", text);
    assert!(text.ends_with(END), "{}", text);
    text[start.len()..text.len() - END.len()].to_string()
}

fn asm_error(source: &str) -> AsmError {
    match compile(source) {
        Err(CompileError::Asm(e)) => e,
        other => panic!("{:?}", other),
    }
}

fn number(val: u32) -> Box<Node> {
    Box::new(Node::Number { val })
}

fn local(offset: usize, ty: Type) -> Box<Node> {
    Box::new(Node::LocalVariable { offset, ty })
}

fn generate(nodes: Vec<Box<Node>>) -> Result<String, AsmError> {
    AsmGenerator::new().gen_asm(&nodes, &Vec::new())
}

#[test]
fn listing_of_an_empty_program() {
    assert_eq!(listing(""), HEAD);
}

#[test]
fn listing_of_a_sum() {
    assert_eq!(
        listing("fn main() { return 1 + 2; }"),
        ".intel_syntax noprefix\n.section .rodata\n.text\n.global main\nmain:\n    push rbp\n    \
         mov rbp, rsp\n    sub rsp, 0\n    push 1\n    push 2\n    pop rdi\n    pop rax\n    \
         add rax, rdi\n    push rax\n\n    pop rax\n    mov rsp, rbp\n    pop rbp\n    ret\n    \
         mov rsp, rbp\n    pop rbp\n    ret\n\n"
    );
}

#[test]
fn code_of_literals() {
    assert_eq!(code("0;"), "    push 0\n");
    assert_eq!(code("4294967295;"), "    push 4294967295\n");
    assert_eq!(code("true;"), "    push 1\n");
    assert_eq!(code("false;"), "    push 0\n");
    assert_eq!(code(""), "");
}

#[test]
fn code_of_binary_operators() {
    let pops = "    push 6\n    push 3\n    pop rdi\n    pop rax\n";
    assert_eq!(code("6 + 3;"), format!("{}    add rax, rdi\n    push rax\n\n", pops));
    assert_eq!(code("6 - 3;"), format!("{}    sub rax, rdi\n    push rax\n\n", pops));
    assert_eq!(code("6 * 3;"), format!("{}    imul rax, rdi\n    push rax\n\n", pops));
    assert_eq!(code("6 / 3;"), format!("{}    cqo\n    idiv rdi\n    push rax\n\n", pops));
    let compare = |set: &str| {
        format!("{}    cmp rax, rdi\n    {} al\n    movzb rax, al\n    push rax\n\n", pops, set)
    };
    assert_eq!(code("6 == 3;"), compare("sete"));
    assert_eq!(code("6 != 3;"), compare("setne"));
    assert_eq!(code("6 < 3;"), compare("setl"));
    assert_eq!(code("6 <= 3;"), compare("setle"));
    assert_eq!(code("3 > 6;"), compare("setl"));
    assert_eq!(code("3 >= 6;"), compare("setle"));
    assert_eq!(code("3 > 6;"), code("6 < 3;"));
    assert_eq!(
        code("-5;"),
        "    push 0\n    push 5\n    pop rdi\n    pop rax\n    sub rax, rdi\n    push rax\n\n"
    );
}

#[test]
fn listing_of_a_global_array() {
    assert_eq!(
        listing("static a: [i16; 4]; fn main() { a[2] = 5; return a[2]; }"),
        format!(
            "{}.bss\n.global a\na:\n    .zero 8\n\n{}    sub rsp, 0\n    \
             lea rax, QWORD PTR a[rip+4]\n    push rax\n    push 5\n    pop rdi\n    pop rax\n    \
             mov WORD PTR [rax], di\n    lea rax, QWORD PTR a[rip+4]\n    push rax\n    \
             pop rax\n\n    movsx rax, WORD PTR [rax]\n    push rax\n    pop rax\n    \
             mov rsp, rbp\n    pop rbp\n    ret\n{}",
            HEAD, MAIN, END
        )
    );
}

#[test]
fn code_of_loads_and_stores_by_width() {
    let store = |ty: &str, at: usize, instruction: &str| {
        let text = listing(&format!("fn main() {{ let a: {}; a = 7; }}", ty));
        let expected = format!(
            "    mov rax, rbp\n    sub rax, {}\n    push rax\n    push 7\n    pop rdi\n    \
             pop rax\n    {}\n{}",
            at, instruction, END
        );
        assert!(text.ends_with(&expected), "{}", text);
    };
    store("i8", 1, "mov BYTE PTR [rax], dil");
    store("bool", 1, "mov BYTE PTR [rax], dil");
    store("i16", 2, "mov WORD PTR [rax], di");
    store("i32", 4, "mov DWORD PTR [rax], edi");
    store("i64", 8, "mov QWORD PTR [rax], rdi");
    store("&i8", 8, "mov QWORD PTR [rax], rdi");
    let load = |ty: &str, at: usize, instruction: &str| {
        let text = listing(&format!("fn main() {{ let a: {}; a; }}", ty));
        let expected = format!(
            "    mov rax, rbp\n    sub rax, {}\n    push rax\n    pop rax\n\n    {}\n    \
             push rax\n{}",
            at, instruction, END
        );
        assert!(text.ends_with(&expected), "{}", text);
    };
    load("i8", 1, "movsx rax, BYTE PTR [rax]");
    load("bool", 1, "movsx rax, BYTE PTR [rax]");
    load("i16", 2, "movsx rax, WORD PTR [rax]");
    load("i32", 4, "movsxd rax, DWORD PTR [rax]");
    load("i64", 8, "mov rax, QWORD PTR [rax]");
}

#[test]
fn code_of_references() {
    let text = listing("fn main() { let a: i32; let b: &i32; b = &a; *b = 3; return *b; }");
    let expected = "    sub rsp, 16\n\
        \x20   mov rax, rbp\n    sub rax, 16\n    push rax\n\
        \x20   mov rax, rbp\n    sub rax, 4\n    push rax\n\
        \x20   pop rdi\n    pop rax\n    mov QWORD PTR [rax], rdi\n\
        \x20   mov rax, rbp\n    sub rax, 16\n    push rax\n    pop rax\n\n\
        \x20   mov rax, QWORD PTR [rax]\n    push rax\n\
        \x20   push 3\n    pop rdi\n    pop rax\n    mov DWORD PTR [rax], edi\n\
        \x20   mov rax, rbp\n    sub rax, 16\n    push rax\n    pop rax\n\n\
        \x20   mov rax, QWORD PTR [rax]\n    push rax\n\
        \x20   pop rax\n\n    movsxd rax, DWORD PTR [rax]\n    push rax\n\
        \x20   pop rax\n    mov rsp, rbp\n    pop rbp\n    ret\n\
        \x20   mov rsp, rbp\n    pop rbp\n    ret\n\n";
    assert!(text.ends_with(expected), "{}", text);
}

#[test]
fn code_of_reading_through_a_pointer_goes_by_what_it_points_to() {
    let read = |ty: &str, load: &str| {
        let text = listing(&format!("fn main() {{ let p: &{}; *p; }}", ty));
        let expected = format!(
            "    mov rax, rbp\n    sub rax, 8\n    push rax\n    pop rax\n\n    \
             mov rax, QWORD PTR [rax]\n    push rax\n    pop rax\n\n{}{}",
            load, END
        );
        assert!(text.ends_with(&expected), "{}", text);
    };
    read("i8", "    movsx rax, BYTE PTR [rax]\n    push rax\n");
    read("i16", "    movsx rax, WORD PTR [rax]\n    push rax\n");
    read("i32", "    movsxd rax, DWORD PTR [rax]\n    push rax\n");
    read("i64", "    mov rax, QWORD PTR [rax]\n    push rax\n");
    read("&i8", "    mov rax, QWORD PTR [rax]\n    push rax\n");
    read(
        "&str",
        "    mov rdi, QWORD PTR [rax]\n    mov rax, QWORD PTR [rax+8]\n    push rdi\n    push rax\n",
    );
    // Of what names no place nothing is known, and a word is read.
    assert_eq!(
        code("*f();"),
        "    call f@PLT\n    push rax\n    pop rax\n    mov rax, QWORD PTR [rax]\n    push rax\n"
    );
}

#[test]
fn code_of_conditionals_and_loops_numbers_its_labels() {
    assert_eq!(
        code("if 1 { } else { } while 0 { } if 2 { }"),
        "    push 1\n    pop rax\n    cmp rax, 0\n    je  .Lelse0\n    jmp  .Lend0\n.Lelse0:\n\
         .Lend0:\n.Lbegin1:\n    push 0\n    pop rax\n    cmp rax, 0\n    je  .Lend1\n    \
         jmp  .Lbegin1\n.Lend1:\n    push 2\n    pop rax\n    cmp rax, 0\n    je  .Lend2\n.Lend2:\n"
    );
    // A conditional within another takes the number after it.
    assert_eq!(
        code("if 1 { if 2 { 3; } } if 4 { }"),
        "    push 1\n    pop rax\n    cmp rax, 0\n    je  .Lend0\n    push 2\n    pop rax\n    \
         cmp rax, 0\n    je  .Lend1\n    push 3\n.Lend1:\n.Lend0:\n    push 4\n    pop rax\n    \
         cmp rax, 0\n    je  .Lend2\n.Lend2:\n"
    );
}

#[test]
fn labels_are_set_once() {
    let text = listing(
        "fn f() { if 1 { while 2 { if 3 { } else { } } } if 4 { } }\
         fn g() { while 5 { if 6 { } } if 7 { } else { if 8 { } } }",
    );
    let mut labels: Vec<&str> =
        text.lines().filter(|l| l.starts_with(".L") && l.ends_with(':')).collect();
    assert_eq!(labels.len(), 8 + 2 + 2);
    for n in 0..8 {
        assert!(labels.contains(&format!(".Lend{}:", n).as_str()));
    }
    labels.sort();
    labels.dedup();
    assert_eq!(labels.len(), 12);
}

#[test]
fn generator_goes_on_counting() {
    let nodes = vec![Box::new(Node::If { cond: number(1), ibody: number(2) })];
    let mut generator = AsmGenerator::new();
    let first = generator.gen_asm(&nodes, &Vec::new()).unwrap();
    let second = generator.gen_asm(&nodes, &Vec::new()).unwrap();
    assert_eq!(
        first,
        format!("{}    push 1\n    pop rax\n    cmp rax, 0\n    je  .Lend0\n    push 2\n.Lend0:\n", HEAD)
    );
    assert_eq!(second, first.replace(".Lend0", ".Lend1"));
}

#[test]
fn code_of_calls() {
    assert_eq!(
        code("foo(1, 2); return foo(3);"),
        "    push 1\n    pop rax\n    mov r10, rax\n    push 2\n    pop rax\n    mov rsi, rax\n    \
         mov rdi, r10\n    call foo@PLT\n    push 3\n    pop rax\n    mov r10, rax\n    \
         mov rdi, r10\n    call foo@PLT\n    push rax\n    pop rax\n    mov rsp, rbp\n    \
         pop rbp\n    ret\n"
    );
    assert_eq!(code("foo();"), "    call foo@PLT\n");
    assert_eq!(
        code("f(1, 2, 3, 4, 5, 6);"),
        "    push 1\n    pop rax\n    mov r10, rax\n    push 2\n    pop rax\n    mov rsi, rax\n    \
         push 3\n    pop rax\n    mov rdx, rax\n    push 4\n    pop rax\n    mov rcx, rax\n    \
         push 5\n    pop rax\n    mov r8, rax\n    push 6\n    pop rax\n    mov r9, rax\n    \
         mov rdi, r10\n    call f@PLT\n"
    );
}

#[test]
fn code_of_parameters() {
    let text = listing("fn f(a: i8, b: i16, c: i32, d: i64, e: i8, f: i16) { }");
    let slot = |at: usize, store: &str| {
        format!("    mov rax, rbp\n    sub rax, {}\n    push rax\n    pop rax\n    {}\n", at, store)
    };
    assert_eq!(
        text,
        format!(
            "{}.text\n.global f\nf:\n    push rbp\n    mov rbp, rsp\n    sub rsp, 32\n{}{}{}{}{}{}{}",
            HEAD,
            slot(1, "mov BYTE PTR [rax], dil"),
            slot(4, "mov WORD PTR [rax], si"),
            slot(8, "mov DWORD PTR [rax], edx"),
            slot(16, "mov QWORD PTR [rax], rcx"),
            slot(17, "mov BYTE PTR [rax], r8b"),
            slot(20, "mov WORD PTR [rax], r9w"),
            END,
        )
    );
    let text = listing("fn f(a: i32, b: i32, c: i32, d: i32, e: i32, f: i32) { }");
    assert!(text.contains("    mov DWORD PTR [rax], edi\n"));
    assert!(text.contains("    mov DWORD PTR [rax], esi\n"));
    assert!(text.contains("    mov DWORD PTR [rax], ecx\n"));
    assert!(text.contains("    mov DWORD PTR [rax], r8d\n"));
    assert!(text.contains("    mov DWORD PTR [rax], r9d\n"));
}

#[test]
fn code_of_slices() {
    let text = listing("fn f(s: &str, n: i32) -> &str { s = \"h\u{e9}llo\"; g(s, 1); return s; }");
    assert_eq!(
        text,
        ".intel_syntax noprefix\n.section .rodata\n.LC0:\n    .ascii \"h\u{e9}llo\"\n\
         .text\n.global f\nf:\n    push rbp\n    mov rbp, rsp\n    sub rsp, 32\n\
         \x20   mov rax, rbp\n    sub rax, 16\n    push rax\n    pop rax\n\
         \x20   mov QWORD PTR [rax], rdi\n    mov QWORD PTR [rax+8], rsi\n\
         \x20   mov rax, rbp\n    sub rax, 20\n    push rax\n    pop rax\n\
         \x20   mov DWORD PTR [rax], edx\n\
         \x20   mov rax, rbp\n    sub rax, 16\n    push rax\n\
         \x20   lea rax, QWORD PTR .LC0[rip]\n    push rax\n    push 6\n\
         \x20   pop rdx\n    pop rdi\n    pop rax\n\
         \x20   mov QWORD PTR [rax], rdi\n    mov QWORD PTR [rax+8], rdx\n\
         \x20   mov rax, rbp\n    sub rax, 16\n    push rax\n    pop rax\n\
         \x20   mov rdi, QWORD PTR [rax]\n    mov rsi, QWORD PTR [rax+8]\n\
         \x20   push 1\n    pop rax\n    mov rdx, rax\n\
         \x20   call g@PLT\n\
         \x20   mov rax, rbp\n    sub rax, 16\n    push rax\n    pop rax\n\n\
         \x20   mov rdi, QWORD PTR [rax]\n    mov rax, QWORD PTR [rax+8]\n\
         \x20   push rdi\n    push rax\n\
         \x20   pop rax\n    pop rdx\n    mov rsp, rbp\n    pop rbp\n    ret\n\
         \x20   mov rsp, rbp\n    pop rbp\n    ret\n\n"
    );
    // The result of a call that returns a slice takes two words.
    let text = listing("fn f() -> &str { return f(); }");
    assert!(text.contains("    call f@PLT\n    push rdx\n    push rax\n    pop rax\n    pop rdx\n"));
}

#[test]
fn string_literals_are_data_in_the_order_met() {
    let text = listing("fn f() { \"b\"; \"\u{1f600} x\"; } fn g() { \"b\"; }");
    assert!(text.starts_with(
        ".intel_syntax noprefix\n.section .rodata\n.LC0:\n    .ascii \"b\"\n.LC1:\n    \
         .ascii \"\u{1f600} x\"\n.LC2:\n    .ascii \"b\"\n.text\n"
    ));
    assert!(text.contains("    lea rax, QWORD PTR .LC1[rip]\n    push rax\n    push 6\n"));
    assert!(text.contains("    lea rax, QWORD PTR .LC2[rip]\n    push rax\n    push 1\n"));
}

#[test]
fn what_is_no_lvalue_cannot_be_assigned_or_referenced() {
    assert_eq!(asm_error("fn main() { 1 = 2; }"), AsmError::Context);
    assert_eq!(asm_error("fn main() { let a: i32; a + 1 = 2; }"), AsmError::Context);
    assert_eq!(asm_error("fn main() { let a: i32; &a = 2; }"), AsmError::Context);
    assert_eq!(asm_error("fn main() { return &1; }"), AsmError::Context);
    assert_eq!(asm_error("fn main() { f() = 1; }"), AsmError::Context);
    assert_eq!(AsmError::Context.to_string(), "Lvalue is not assignable!");
}

#[test]
fn what_is_no_pointer_cannot_be_stored_through() {
    assert_eq!(asm_error("fn main() { let a: i32; *a = 1; }"), AsmError::DrfErr);
    assert_eq!(asm_error("fn main() { let a: &i32; **a = 1; }"), AsmError::DrfErr);
    assert_eq!(asm_error("fn main() { *1 = 1; }"), AsmError::DrfErr);
    assert_eq!(AsmError::DrfErr.to_string(), "Dereference target in not pointer type!");
    // What is no pointer cannot be read through either.
    assert_eq!(asm_error("fn main() { let a: i32; return *a; }"), AsmError::DrfErr);
    assert_eq!(asm_error("fn main() { let a: &i32; return **a; }"), AsmError::DrfErr);
    assert_eq!(asm_error("static g: [i8; 2]; fn main() { return *g[1]; }"), AsmError::DrfErr);
    assert!(compile("fn main() { let a: &i32; return *a; }").is_ok());
    assert!(compile("fn main() { let a: &&i32; return **a; }").is_ok());
}

#[test]
fn what_no_instruction_moves_is_refused() {
    assert_eq!(asm_error("fn main() { let a: [i8; 3]; return a; }"), AsmError::Context);
    assert_eq!(asm_error("fn main() { let a: [i32; 4]; a = 1; }"), AsmError::Context);
    assert_eq!(asm_error("fn f(a: [i8; 3]) { }"), AsmError::Context);
    // An array of the width of a word is moved as a word.
    assert!(compile("fn main() { let a: [i8; 4]; a = 1; return a; }").is_ok());
    assert_eq!(generate(vec![local(8, Type::Str)]), Err(AsmError::Context));
}

#[test]
fn more_arguments_than_registers_are_refused() {
    assert_eq!(asm_error("fn main() { f(1, 2, 3, 4, 5, 6, 7); }"), AsmError::Context);
    assert_eq!(
        asm_error("fn f(a: i8, b: i8, c: i8, d: i8, e: i8, f: i8, g: i8) { }"),
        AsmError::Context
    );
    assert_eq!(
        asm_error("fn main() { let s: &str; f(1, 2, 3, 4, 5, s); }"),
        AsmError::Context
    );
    assert!(compile("fn main() { let s: &str; f(1, 2, 3, 4, s); }").is_ok());
    assert!(compile("fn main() { let s: &str; f(s, s, s); }").is_ok());
    assert_eq!(asm_error("fn main() { let s: &str; f(s, s, s, 1); }"), AsmError::Context);
}

#[test]
fn first_error_in_the_order_of_the_tree_wins() {
    assert_eq!(asm_error("fn main() { let a: i32; *a = (1 = 2); }"), AsmError::Context);
    assert_eq!(asm_error("fn main() { let a: i32; 1 = (*a = 2); }"), AsmError::Context);
    assert_eq!(asm_error("fn main() { let a: i32; *a = 1; 1 = 2; }"), AsmError::DrfErr);
}

#[test]
fn a_function_without_return_tears_its_frame_down() {
    assert_eq!(
        listing("fn f() { }"),
        format!(
            "{}.text\n.global f\nf:\n    push rbp\n    mov rbp, rsp\n    sub rsp, 0\n    \
             mov rsp, rbp\n    pop rbp\n    ret\n\n",
            HEAD
        )
    );
    let function = Box::new(Node::Function {
        name: "g".to_string(),
        args: Vec::new(),
        stack: 16,
        block: Box::new(Node::Block { nodes: vec![number(1)] }),
    });
    assert_eq!(
        generate(vec![function]).unwrap(),
        format!(
            "{}.text\n.global g\ng:\n    push rbp\n    mov rbp, rsp\n    sub rsp, 16\n    \
             push 1\n    mov rsp, rbp\n    pop rbp\n    ret\n\n",
            HEAD
        )
    );
}

#[test]
fn lvalues_of_hand_made_trees() {
    let pointer = Type::Ptr(Box::new(Type::Int16));
    let deref = Node::UnaryOperator { kind: UnaryOpKind::UnaryOpDrf, rhs: local(8, pointer) };
    assert!(matches!(lval_type(&deref), Ok(Type::Int16)));
    assert_eq!(lval_size(&deref), Ok(2));
    assert!(!is_slice(&deref));
    let slice = Node::GlobalVariable {
        name: "s".to_string(),
        offset: 0,
        ty: Type::Slc(Box::new(Type::Str)),
    };
    assert!(is_slice(&slice));
    assert_eq!(lval_size(&slice), Err(AsmError::Context));
    let reference = Node::UnaryOperator { kind: UnaryOpKind::UnaryOpRf, rhs: local(4, Type::Int32) };
    assert!(matches!(lval_type(&reference), Err(AsmError::Context)));
    assert!(matches!(lval_type(&Node::Number { val: 1 }), Err(AsmError::Context)));
    let twice = Node::UnaryOperator { kind: UnaryOpKind::UnaryOpDrf, rhs: Box::new(deref) };
    assert!(matches!(lval_type(&twice), Err(AsmError::DrfErr)));
    assert_eq!(lval_size(&twice), Err(AsmError::DrfErr));
    assert!(!is_slice(&twice));
    let call = Node::Call { name: "f".to_string(), args: Vec::new(), ty: Type::Int8 };
    assert!(is_call(&call));
    assert!(!is_call(&slice));
}

#[test]
fn hand_made_trees() {
    let sum = Box::new(Node::BinaryOperator {
        kind: BinaryOpKind::BinaryOpAdd,
        lhs: number(1),
        rhs: local(8, Type::Int64),
    });
    assert_eq!(
        generate(vec![sum]).unwrap(),
        format!(
            "{}    push 1\n    mov rax, rbp\n    sub rax, 8\n    push rax\n    pop rax\n\n    \
             mov rax, QWORD PTR [rax]\n    push rax\n    pop rdi\n    pop rax\n    \
             add rax, rdi\n    push rax\n\n",
            HEAD
        )
    );
    let literals = vec!["a\"b".to_string(), String::new()];
    assert_eq!(
        AsmGenerator::new().gen_asm(&Vec::new(), &literals).unwrap(),
        format!("{}.LC0:\n    .ascii \"a\"b\"\n.LC1:\n    .ascii \"\"\n", HEAD)
    );
}
