//! The assembly listing that the code generator writes for a syntax tree,
//! as functions from the tree to the text.
//!
//! The code is that of a stack machine: the code of an expression leaves one
//! word on the stack, or two (pointer, then length) where it is a slice, and
//! every instruction that uses operands pops them in the reverse order.
//! Every conditional and loop takes one number for its labels; the code of a
//! tree that holds `n` of them uses the numbers from its base up to base +
//! `n`, so no two of them share a label.

use vstd::prelude::*;
use vstd::utf8::encode_utf8;
use crate::ast::{labels_in, labels_in_all, Ast, BinaryOpKind, UnaryOpKind};
use crate::text::decimal;
use crate::types::{has_size, size_of, Type};

verus! {

/// Why no code can be written for a tree.
#[derive(Debug, PartialEq, Eq, Clone, Copy, Structural)]
pub enum AsmError {
    /// A node stands where the code generator cannot use it: what is
    /// assigned to, referenced or bound to a parameter is no variable and no
    /// dereference, a variable read or written has no width that an
    /// instruction moves, or a call takes more than the six argument
    /// registers.
    Context,
    /// What is dereferenced is no pointer.
    DrfErr,
}

/// The listing so far, or the first error.
pub type Code = Result<Seq<char>, AsmError>;

/// `first` and then `second`; the first error wins.
pub open spec fn then(first: Code, second: Code) -> Code {
    match first {
        Ok(a) => match second {
            Ok(b) => Ok(a + b),
            Err(e) => Err(e),
        },
        Err(e) => Err(e),
    }
}

/// The text `text`, which always can be written.
pub open spec fn text(text: Seq<char>) -> Code {
    Ok(text)
}

/// The type of the place that an lvalue names: the type of a variable, and
/// for a dereference what its operand points to.
pub open spec fn lval_type_of(ast: Ast) -> Result<Type, AsmError>
    decreases ast,
{
    match ast {
        Ast::LocalVariable { offset, ty } => Ok(ty),
        Ast::GlobalVariable { name, offset, ty } => Ok(ty),
        Ast::UnaryOperator { kind: UnaryOpKind::UnaryOpDrf, rhs } => match lval_type_of(*rhs) {
            Ok(Type::Ptr(ty)) => Ok(*ty),
            _ => Err(AsmError::DrfErr),
        },
        _ => Err(AsmError::Context),
    }
}

/// Whether `ast` has the shape of what names a place: a variable or a
/// dereference. Code that needs an address can be written for nothing else.
pub open spec fn names_place(ast: Ast) -> bool {
    ast is LocalVariable || ast is GlobalVariable || (ast matches Ast::UnaryOperator {
        kind: UnaryOpKind::UnaryOpDrf,
        ..
    })
}

/// Whether `ast` names a place that holds a slice.
pub open spec fn is_slice_of(ast: Ast) -> bool {
    lval_type_of(ast) matches Ok(Type::Slc(_))
}

/// The width in bytes of the place that an lvalue names, where one
/// instruction moves it: 1, 2, 4 or 8.
pub open spec fn width_of(ast: Ast) -> Result<nat, AsmError> {
    match lval_type_of(ast) {
        Ok(ty) => if has_size(ty) && (size_of(ty) == 1 || size_of(ty) == 2 || size_of(ty) == 4
            || size_of(ty) == 8) {
            Ok(size_of(ty))
        } else {
            Err(AsmError::Context)
        },
        Err(e) => Err(e),
    }
}

/// The name of argument register `index` at `width` bytes.
pub open spec fn arg_reg(width: nat, index: nat) -> Seq<char> {
    if width == 8 {
        if index == 0 {
            "rdi"@
        } else if index == 1 {
            "rsi"@
        } else if index == 2 {
            "rdx"@
        } else if index == 3 {
            "rcx"@
        } else if index == 4 {
            "r8"@
        } else {
            "r9"@
        }
    } else if width == 4 {
        if index == 0 {
            "edi"@
        } else if index == 1 {
            "esi"@
        } else if index == 2 {
            "edx"@
        } else if index == 3 {
            "ecx"@
        } else if index == 4 {
            "r8d"@
        } else {
            "r9d"@
        }
    } else if width == 2 {
        if index == 0 {
            "di"@
        } else if index == 1 {
            "si"@
        } else if index == 2 {
            "dx"@
        } else if index == 3 {
            "cx"@
        } else if index == 4 {
            "r8w"@
        } else {
            "r9w"@
        }
    } else {
        if index == 0 {
            "dil"@
        } else if index == 1 {
            "sil"@
        } else if index == 2 {
            "dl"@
        } else if index == 3 {
            "cl"@
        } else if index == 4 {
            "r8b"@
        } else {
            "r9b"@
        }
    }
}

/// The operand that names `width` bytes of memory at the address in `rax`.
pub open spec fn memory_at_rax(width: nat) -> Seq<char> {
    if width == 8 {
        "QWORD PTR [rax]"@
    } else if width == 4 {
        "DWORD PTR [rax]"@
    } else if width == 2 {
        "WORD PTR [rax]"@
    } else {
        "BYTE PTR [rax]"@
    }
}

/// Stores `width` bytes of register `reg` at the address in `rax`.
pub open spec fn store(width: nat, reg: Seq<char>) -> Seq<char> {
    "    mov "@ + memory_at_rax(width) + ", "@ + reg + "\n"@
}

/// Loads the `width` bytes at the address in `rax` into `rax`. A value
/// narrower than the register is extended with its sign into the whole of
/// it.
pub open spec fn load(width: nat) -> Seq<char> {
    if width == 8 {
        "    mov rax, QWORD PTR [rax]\n"@
    } else if width == 4 {
        "    movsxd rax, DWORD PTR [rax]\n"@
    } else if width == 2 {
        "    movsx rax, WORD PTR [rax]\n"@
    } else {
        "    movsx rax, BYTE PTR [rax]\n"@
    }
}

/// Stores the pointer in `first` and the length in `second` as the slice at
/// the address in `rax`.
pub open spec fn store_slice(first: Seq<char>, second: Seq<char>) -> Seq<char> {
    "    mov QWORD PTR [rax], "@ + first + "\n"@ + "    mov QWORD PTR [rax+8], "@ + second
        + "\n"@
}

/// Pushes the number `n`.
pub open spec fn push_number(n: nat) -> Seq<char> {
    "    push "@ + decimal(n) + "\n"@
}

/// Pushes the address of local slot `offset` below the frame base.
pub open spec fn local_address(offset: nat) -> Seq<char> {
    "    mov rax, rbp\n"@ + "    sub rax, "@ + decimal(offset) + "\n"@ + "    push rax\n"@
}

/// Pushes the address `offset` bytes into the global `name`, found relative
/// to the instruction pointer.
pub open spec fn global_address(name: Seq<char>, offset: nat) -> Seq<char> {
    "    lea rax, QWORD PTR "@ + name + "[rip+"@ + decimal(offset) + "]\n"@ + "    push rax\n"@
}

/// Pushes the slice of string literal `label`: its address and its length
/// in bytes.
pub open spec fn literal_slice(label: nat, len: nat) -> Seq<char> {
    "    lea rax, QWORD PTR .LC"@ + decimal(label) + "[rip]\n"@ + "    push rax\n"@
        + push_number(len)
}

/// Pops the value at the address on the stack and pushes it: both words of
/// a slice, or the one word loaded at the width of the place.
pub open spec fn fetch(ast: Ast) -> Code {
    if is_slice_of(ast) {
        text(
            "    pop rax\n\n"@ + "    mov rdi, QWORD PTR [rax]\n"@
                + "    mov rax, QWORD PTR [rax+8]\n"@ + "    push rdi\n"@ + "    push rax\n"@,
        )
    } else {
        match width_of(ast) {
            Ok(width) => text("    pop rax\n\n"@ + load(width) + "    push rax\n"@),
            Err(e) => Err(e),
        }
    }
}

/// The label `stem` with number `n`.
pub open spec fn label(stem: Seq<char>, n: nat) -> Seq<char> {
    stem + decimal(n)
}

/// The line that sets label `stem` `n`.
pub open spec fn label_line(stem: Seq<char>, n: nat) -> Seq<char> {
    label(stem, n) + ":\n"@
}

/// Pops a value and jumps to label `stem` `n` where it is zero.
pub open spec fn jump_if_zero(stem: Seq<char>, n: nat) -> Seq<char> {
    "    pop rax\n"@ + "    cmp rax, 0\n"@ + "    je  "@ + label(stem, n) + "\n"@
}

/// Jumps to label `stem` `n`.
pub open spec fn jump(stem: Seq<char>, n: nat) -> Seq<char> {
    "    jmp  "@ + label(stem, n) + "\n"@
}

/// Sets `rax` to 1 where `rax` and `rdi` compare as `set` asks, else to 0.
pub open spec fn compare(set: Seq<char>) -> Seq<char> {
    "    cmp rax, rdi\n"@ + "    "@ + set + " al\n"@ + "    movzb rax, al\n"@
}

/// The instructions that combine `rax` and `rdi` into `rax`.
pub open spec fn arithmetic(kind: BinaryOpKind) -> Seq<char> {
    match kind {
        BinaryOpKind::BinaryOpAdd => "    add rax, rdi\n"@,
        BinaryOpKind::BinaryOpSub => "    sub rax, rdi\n"@,
        BinaryOpKind::BinaryOpMul => "    imul rax, rdi\n"@,
        BinaryOpKind::BinaryOpDiv => "    cqo\n"@ + "    idiv rdi\n"@,
        BinaryOpKind::BinaryOpEq => compare("sete"@),
        BinaryOpKind::BinaryOpNe => compare("setne"@),
        BinaryOpKind::BinaryOpGr => compare("setl"@),
        BinaryOpKind::BinaryOpGe => compare("setle"@),
        BinaryOpKind::BinaryOpAsn => Seq::empty(),
    }
}

/// Pops the operands of a binary operator: the right one into `rdi` (a
/// slice into `rdi` and `rdx`), the left one into `rax`.
pub open spec fn pop_operands(slice: bool) -> Seq<char> {
    if slice {
        "    pop rdx\n"@ + "    pop rdi\n"@ + "    pop rax\n"@
    } else {
        "    pop rdi\n"@ + "    pop rax\n"@
    }
}

/// Stores the value popped into the place whose address was popped.
pub open spec fn assignment(target: Ast) -> Code {
    if is_slice_of(target) {
        text(store_slice("rdi"@, "rdx"@))
    } else {
        match width_of(target) {
            Ok(width) => text(store(width, arg_reg(width, 0))),
            Err(e) => Err(e),
        }
    }
}

/// Pushes the result of a call: `rax`, and for a slice `rdx` before it.
pub open spec fn push_result(ty: Type) -> Seq<char> {
    if ty is Slc {
        "    push rdx\n"@ + "    push rax\n"@
    } else {
        "    push rax\n"@
    }
}

/// Pops the value returned into `rax` (and `rdx` for a slice), tears the
/// frame down and returns.
pub open spec fn leave(ty: Type) -> Seq<char> {
    (if ty is Slc {
        "    pop rax\n"@ + "    pop rdx\n"@
    } else {
        "    pop rax\n"@
    }) + epilogue()
}

/// Opens the function `name`: its symbol, the saved frame pointer and
/// `stack` bytes for its locals.
pub open spec fn prologue(name: Seq<char>, stack: nat) -> Seq<char> {
    ".text\n"@ + ".global "@ + name + "\n"@ + name + ":\n"@ + "    push rbp\n"@
        + "    mov rbp, rsp\n"@ + "    sub rsp, "@ + decimal(stack) + "\n"@
}

/// The zero-filled storage of the global `name` of `size` bytes.
pub open spec fn global_storage(name: Seq<char>, size: nat) -> Seq<char> {
    ".bss\n"@ + ".global "@ + name + "\n"@ + name + ":\n"@ + "    .zero "@ + decimal(size)
        + "\n"@ + "\n"@
}

/// The number of argument registers that the value of `arg` takes: two for
/// a slice, the pointer and the length, else one.
pub open spec fn regs_of(arg: Ast) -> nat {
    if is_slice_of(arg) {
        2
    } else {
        1
    }
}

/// Moves the argument whose code has just run into its registers. A slice
/// is read through its address into two registers. Another value goes to
/// its register, but the first: it waits in `r10`, since the code of the
/// arguments after it may use `rdi`.
pub open spec fn place_argument(arg: Ast, index: nat) -> Code {
    if is_slice_of(arg) {
        if index + 1 < 6 {
            text(
                "    pop rax\n"@ + "    mov "@ + arg_reg(8, index) + ", QWORD PTR [rax]\n"@
                    + "    mov "@ + arg_reg(8, index + 1) + ", QWORD PTR [rax+8]\n"@,
            )
        } else {
            Err(AsmError::Context)
        }
    } else if index == 0 {
        text("    pop rax\n"@ + "    mov r10, rax\n"@)
    } else if index < 6 {
        text("    pop rax\n"@ + "    mov "@ + arg_reg(8, index) + ", rax\n"@)
    } else {
        Err(AsmError::Context)
    }
}

/// Copies the parameter that arrived in argument register `index` into its
/// slot, whose address has just been pushed.
pub open spec fn bind_parameter(param: Ast, index: nat) -> Code {
    if is_slice_of(param) {
        if index + 1 < 6 {
            text("    pop rax\n"@ + store_slice(arg_reg(8, index), arg_reg(8, index + 1)))
        } else {
            Err(AsmError::Context)
        }
    } else {
        match width_of(param) {
            Ok(width) => if index < 6 {
                text("    pop rax\n"@ + store(width, arg_reg(width, index)))
            } else {
                Err(AsmError::Context)
            },
            Err(e) => Err(e),
        }
    }
}

/// The code of a binary operator from the codes of its operands: they run,
/// the operands are popped and combined, and the result is pushed. An
/// assignment stores the right operand into the place whose address the
/// left one left, and pushes nothing.
pub open spec fn binary_code(kind: BinaryOpKind, lhs: Ast, left: Code, right: Code) -> Code {
    then(
        then(then(left, right), text(pop_operands(is_slice_of(lhs)) + arithmetic(kind))),
        if kind == BinaryOpKind::BinaryOpAsn {
            assignment(lhs)
        } else {
            text("    push rax\n\n"@)
        },
    )
}

/// The code that reads through a pointer, from the code of the pointer.
/// Where the operand names a place, its type decides: what a pointer points
/// to is loaded at its own width, both words where it is a slice, and what
/// is no pointer cannot be read through. Where the operand names no place,
/// nothing is known of what it points to, and a word is loaded.
pub open spec fn deref_code(ast: Ast, operand: Ast, pointer: Code) -> Code {
    if lval_type_of(operand) is Ok {
        then(pointer, fetch(ast))
    } else {
        then(
            pointer,
            text("    pop rax\n"@ + "    mov rax, QWORD PTR [rax]\n"@ + "    push rax\n"@),
        )
    }
}

/// Tears the frame down and returns, with the value to return in `rax`.
pub open spec fn epilogue() -> Seq<char> {
    "    mov rsp, rbp\n"@ + "    pop rbp\n"@ + "    ret\n"@
}

/// The code of a function from the codes of its parts: the prologue, the
/// copies of the parameters, the block, the teardown for a block that ends
/// without `return`, and an empty line.
pub open spec fn function_code(name: Seq<char>, stack: nat, params: Code, block: Code) -> Code {
    then(then(then(text(prologue(name, stack)), params), block), text(epilogue() + "\n"@))
}

/// The code of `if` from the codes of its parts, with label number `n`: the
/// body is jumped over where the condition is zero.
pub open spec fn if_code(cond: Code, ibody: Code, n: nat) -> Code {
    then(then(then(cond, text(jump_if_zero(".Lend"@, n))), ibody), text(label_line(".Lend"@, n)))
}

/// The code of `if` with `else` from the codes of its parts, with label
/// number `n`.
pub open spec fn if_else_code(cond: Code, ibody: Code, ebody: Code, n: nat) -> Code {
    then(
        then(
            then(
                then(then(cond, text(jump_if_zero(".Lelse"@, n))), ibody),
                text(jump(".Lend"@, n) + label_line(".Lelse"@, n)),
            ),
            ebody,
        ),
        text(label_line(".Lend"@, n)),
    )
}

/// The code of `while` from the codes of its parts, with label number `n`:
/// the condition is tested before every round.
pub open spec fn while_code(cond: Code, body: Code, n: nat) -> Code {
    then(
        then(then(then(text(label_line(".Lbegin"@, n)), cond), text(jump_if_zero(".Lend"@, n))), body),
        text(jump(".Lbegin"@, n) + label_line(".Lend"@, n)),
    )
}

/// The code of a call from the code that loads its arguments: the first
/// argument, where it is no slice, comes from `r10` at last.
pub open spec fn call_code(name: Seq<char>, args: Seq<Ast>, loaded: Code) -> Code {
    then(
        loaded,
        text(
            (if args.len() > 0 && !is_slice_of(args[0]) {
                "    mov rdi, r10\n"@
            } else {
                Seq::empty()
            }) + "    call "@ + name + "@PLT\n"@,
        ),
    )
}

/// The code that leaves the value of `ast` on the stack, with the labels
/// numbered from `base`.
#[verifier::opaque]
pub open spec fn code_node(ast: Ast, base: nat) -> Code
    decreases ast, 1int, 0int,
{
    match ast {
        Ast::Number { val } => text(push_number(val as nat)),
        Ast::Bool { bl } => text(
            if bl {
                "    push 1\n"@
            } else {
                "    push 0\n"@
            },
        ),
        Ast::StrLiteral { s, label } => text(literal_slice(label as nat, encode_utf8(s).len())),
        Ast::BinaryOperator { kind, lhs, rhs } => binary_code(
            kind,
            *lhs,
            if kind == BinaryOpKind::BinaryOpAsn {
                code_lval(*lhs, base)
            } else {
                code_node(*lhs, base)
            },
            code_node(*rhs, base + labels_in(*lhs)),
        ),
        Ast::UnaryOperator { kind: UnaryOpKind::UnaryOpRf, rhs } => code_lval(*rhs, base),
        Ast::UnaryOperator { kind: UnaryOpKind::UnaryOpDrf, rhs } => deref_code(
            ast,
            *rhs,
            code_node(*rhs, base),
        ),
        Ast::LocalVariable { offset, ty } => then(code_lval(ast, base), fetch(ast)),
        Ast::GlobalVariable { name, offset, ty } => then(code_lval(ast, base), fetch(ast)),
        Ast::DeclareLocal { offset, ty } => text(Seq::empty()),
        Ast::DeclareGlobal { name, size, ty } => text(global_storage(name, size as nat)),
        Ast::Block { nodes } => code_stream(nodes, 0, base),
        Ast::Function { name, args, stack, block } => function_code(
            name,
            stack as nat,
            code_params(args, 0, base, 0),
            code_node(*block, base + labels_in_all(args)),
        ),
        Ast::Call { name, args, ty } => then(code_call(name, args, base), text(push_result(ty))),
        Ast::If { cond, ibody } => if_code(
            code_node(*cond, base + 1),
            code_node(*ibody, base + 1 + labels_in(*cond)),
            base,
        ),
        Ast::IfElse { cond, ibody, ebody } => if_else_code(
            code_node(*cond, base + 1),
            code_node(*ibody, base + 1 + labels_in(*cond)),
            code_node(*ebody, base + 1 + labels_in(*cond) + labels_in(*ibody)),
            base,
        ),
        Ast::While { cond, body } => while_code(
            code_node(*cond, base + 1),
            code_node(*body, base + 1 + labels_in(*cond)),
            base,
        ),
        Ast::Return { rhs, ty } => then(code_node(*rhs, base), text(leave(ty))),
    }
}

/// The code that leaves the address of the place that `ast` names on the
/// stack: the address of a variable, or the value of the pointer that is
/// dereferenced.
#[verifier::opaque]
pub open spec fn code_lval(ast: Ast, base: nat) -> Code
    decreases ast, 0int, 0int,
{
    match ast {
        Ast::LocalVariable { offset, ty } => text(local_address(offset as nat)),
        Ast::GlobalVariable { name, offset, ty } => text(global_address(name, offset as nat)),
        Ast::UnaryOperator { kind: UnaryOpKind::UnaryOpDrf, rhs } => code_node(*rhs, base),
        _ => Err(AsmError::Context),
    }
}

/// The code that loads the arguments `args` and calls `name`. It leaves
/// nothing on the stack: the result is in `rax` (and `rdx`).
#[verifier::opaque]
pub open spec fn code_call(name: Seq<char>, args: Seq<Ast>, base: nat) -> Code
    decreases args, 1int, 0int,
{
    call_code(name, args, code_args(args, 0, base, 0))
}

/// The code that loads the arguments `args` from argument `from` on, from
/// left to right, into the argument registers from `reg` on.
#[verifier::opaque]
pub open spec fn code_args(args: Seq<Ast>, from: int, base: nat, reg: nat) -> Code
    decreases args, 0int, args.len() - from,
{
    if 0 <= from < args.len() {
        let arg = args[from];
        then(
            then(
                if is_slice_of(arg) {
                    code_lval(arg, base)
                } else {
                    code_node(arg, base)
                },
                place_argument(arg, reg),
            ),
            code_args(args, from + 1, base + labels_in(arg), reg + regs_of(arg)),
        )
    } else {
        text(Seq::empty())
    }
}

/// The code that copies the parameters `params`, from parameter `from` on,
/// out of the argument registers from `reg` on into their slots.
#[verifier::opaque]
pub open spec fn code_params(params: Seq<Ast>, from: int, base: nat, reg: nat) -> Code
    decreases params, 0int, params.len() - from,
{
    if 0 <= from < params.len() {
        let param = params[from];
        then(
            then(code_lval(param, base), bind_parameter(param, reg)),
            code_params(params, from + 1, base + labels_in(param), reg + regs_of(param)),
        )
    } else {
        text(Seq::empty())
    }
}

/// The code of one node of a list: of a call, the code that drops its
/// result; of another node, its code.
#[verifier::opaque]
pub open spec fn code_item(ast: Ast, base: nat) -> Code
    decreases ast, 2int, 0int,
{
    match ast {
        Ast::Call { name, args, ty } => code_call(name, args, base),
        _ => code_node(ast, base),
    }
}

/// The code of the nodes of a list from node `from` on, one after the
/// other.
#[verifier::opaque]
pub open spec fn code_stream(nodes: Seq<Ast>, from: int, base: nat) -> Code
    decreases nodes, 0int, nodes.len() - from,
{
    if 0 <= from < nodes.len() {
        then(
            code_item(nodes[from], base),
            code_stream(nodes, from + 1, base + labels_in(nodes[from])),
        )
    } else {
        text(Seq::empty())
    }
}

/// What [`code_lval`] is of each tree.
pub proof fn lemma_unfold_lval(ast: Ast, base: nat)
    ensures
        code_lval(ast, base) == match ast {
            Ast::LocalVariable { offset, ty } => text(local_address(offset as nat)),
            Ast::GlobalVariable { name, offset, ty } => text(global_address(name, offset as nat)),
            Ast::UnaryOperator { kind: UnaryOpKind::UnaryOpDrf, rhs } => code_node(*rhs, base),
            _ => Err(AsmError::Context),
        },
{
    reveal_with_fuel(code_lval, 1);
    reveal_with_fuel(code_node, 1);
}

/// What [`code_item`] is of each tree.
pub proof fn lemma_unfold_item(ast: Ast, base: nat)
    ensures
        code_item(ast, base) == match ast {
            Ast::Call { name, args, ty } => code_call(name, args, base),
            _ => code_node(ast, base),
        },
{
    reveal_with_fuel(code_item, 1);
    reveal_with_fuel(code_call, 1);
    reveal_with_fuel(code_node, 1);
}

/// What [`code_call`] is.
pub proof fn lemma_unfold_call(name: Seq<char>, args: Seq<Ast>, base: nat)
    ensures
        code_call(name, args, base) == call_code(name, args, code_args(args, 0, base, 0)),
{
    reveal_with_fuel(code_call, 1);
    reveal_with_fuel(code_args, 1);
}

/// What [`code_args`] is: the code of the first argument and of the rest.
pub proof fn lemma_unfold_args(args: Seq<Ast>, from: int, base: nat, reg: nat)
    ensures
        code_args(args, from, base, reg) == if 0 <= from < args.len() {
            then(
                then(
                    if is_slice_of(args[from]) {
                        code_lval(args[from], base)
                    } else {
                        code_node(args[from], base)
                    },
                    place_argument(args[from], reg),
                ),
                code_args(
                    args,
                    from + 1,
                    base + labels_in(args[from]),
                    reg + regs_of(args[from]),
                ),
            )
        } else {
            text(Seq::empty())
        },
{
    reveal_with_fuel(code_args, 1);
    reveal_with_fuel(code_lval, 1);
    reveal_with_fuel(code_node, 1);
}

/// What [`code_params`] is: the code of the first parameter and of the
/// rest.
pub proof fn lemma_unfold_params(params: Seq<Ast>, from: int, base: nat, reg: nat)
    ensures
        code_params(params, from, base, reg) == if 0 <= from < params.len() {
            then(
                then(code_lval(params[from], base), bind_parameter(params[from], reg)),
                code_params(
                    params,
                    from + 1,
                    base + labels_in(params[from]),
                    reg + regs_of(params[from]),
                ),
            )
        } else {
            text(Seq::empty())
        },
{
    reveal_with_fuel(code_params, 1);
    reveal_with_fuel(code_lval, 1);
}

/// What [`code_stream`] is: the code of the first node and of the rest.
pub proof fn lemma_unfold_stream(nodes: Seq<Ast>, from: int, base: nat)
    ensures
        code_stream(nodes, from, base) == if 0 <= from < nodes.len() {
            then(
                code_item(nodes[from], base),
                code_stream(nodes, from + 1, base + labels_in(nodes[from])),
            )
        } else {
            text(Seq::empty())
        },
{
    reveal_with_fuel(code_stream, 1);
    reveal_with_fuel(code_item, 1);
}

/// The read-only data of the string literals: literal `i` under the label
/// `.LC` `i`, for the first `upto` of them.
pub open spec fn literal_data(literals: Seq<Seq<char>>, upto: int) -> Seq<char>
    decreases upto,
{
    if 0 < upto <= literals.len() {
        literal_data(literals, upto - 1) + label_line(".LC"@, (upto - 1) as nat)
            + "    .ascii \""@ + literals[upto - 1] + "\"\n"@
    } else {
        Seq::empty()
    }
}

/// The whole listing of a program: the syntax directive, the string
/// literals as read-only data, and the code of the declarations.
pub open spec fn listing(nodes: Seq<Ast>, literals: Seq<Seq<char>>, base: nat) -> Code {
    then(
        text(
            ".intel_syntax noprefix\n"@ + ".section .rodata\n"@ + literal_data(
                literals,
                literals.len() as int,
            ),
        ),
        code_stream(nodes, 0, base),
    )
}

/// Writing a text, another text and then more is writing the two texts
/// joined and then more.
pub proof fn lemma_then_text(first: Seq<char>, second: Seq<char>, more: Code)
    ensures
        then(text(first), then(text(second), more)) == then(text(first + second), more),
{
    match more {
        Ok(t) => {
            assert(first + (second + t) =~= (first + second) + t);
        },
        Err(_) => {},
    }
}

/// The conditionals and loops of a list are those of its first nodes and
/// those of the rest.
pub proof fn lemma_labels_prefix(nodes: Seq<Ast>, upto: int)
    requires
        0 <= upto <= nodes.len(),
    ensures
        labels_in_all(nodes.subrange(0, upto)) <= labels_in_all(nodes),
        upto < nodes.len() ==> labels_in_all(nodes.subrange(0, upto + 1)) == labels_in_all(
            nodes.subrange(0, upto),
        ) + labels_in(nodes[upto]),
    decreases nodes.len() - upto,
{
    if upto == nodes.len() {
        assert(nodes.subrange(0, upto) =~= nodes);
    } else {
        let longer = nodes.subrange(0, upto + 1);
        assert(longer.drop_last() =~= nodes.subrange(0, upto));
        assert(longer.last() == nodes[upto]);
        lemma_labels_prefix(nodes, upto + 1);
    }
}

} // verus!
