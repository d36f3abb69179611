//! The code generator: from the syntax tree to the assembly listing.

use vstd::prelude::*;
use vstd::string::*;
use vstd::utf8::encode_utf8;
use crate::ast::{asts_of, labels_in, labels_in_all, Ast, BinaryOpKind, Node, UnaryOpKind};
use crate::listing::{
    arg_reg, arithmetic, assignment, bind_parameter, code_args, code_call, code_item, code_lval,
    code_node, code_params, code_stream, compare, epilogue, fetch, global_address,
    global_storage, names_place,
    is_slice_of, jump, jump_if_zero, label, label_line, leave, lemma_labels_prefix,
    lemma_then_text, lemma_unfold_args, lemma_unfold_call, lemma_unfold_item, lemma_unfold_lval,
    lemma_unfold_params, lemma_unfold_stream, listing, literal_data, literal_slice, load,
    local_address, lval_type_of, place_argument, pop_operands, prologue, push_number, push_result,
    regs_of, store, store_slice, text, then, width_of, Code, binary_code, call_code, deref_code,
    function_code, if_code, if_else_code, while_code,
};
use crate::text::{decimal, push_decimal, push_str};
use crate::types::{checked_type_size, Type};

pub use crate::listing::AsmError;

verus! {

/// What the diagnostic says of each error.
pub open spec fn asm_error_text(e: AsmError) -> Seq<char> {
    match e {
        AsmError::Context => "Lvalue is not assignable!"@,
        AsmError::DrfErr => "Dereference target in not pointer type!"@,
    }
}

impl AsmError {
    /// The diagnostic of this error.
    pub fn to_string(&self) -> (line: String)
        ensures
            line@ == asm_error_text(*self),
    {
        match self {
            AsmError::Context => "Lvalue is not assignable!".to_owned(),
            AsmError::DrfErr => "Dereference target in not pointer type!".to_owned(),
        }
    }
}

/// Whether `node` is a call.
pub fn is_call(node: &Node) -> (r: bool)
    ensures
        r == (node@ is Call),
{
    match node {
        Node::Call { name: _, args: _, ty: _ } => true,
        _ => false,
    }
}

/// The type of the place that the lvalue `node` names.
pub fn lval_type(node: &Node) -> (r: Result<&Type, AsmError>)
    ensures
        match lval_type_of(node@) {
            Ok(ty) => r matches Ok(t) && *t == ty,
            Err(e) => r matches Err(f) && f == e,
        },
    decreases node,
{
    match node {
        Node::LocalVariable { offset: _, ty } => Ok(ty),
        Node::GlobalVariable { name: _, offset: _, ty } => Ok(ty),
        Node::UnaryOperator { kind, rhs } => {
            match kind {
                UnaryOpKind::UnaryOpDrf => {
                    match lval_type(&**rhs) {
                        Ok(Type::Ptr(ty)) => Ok(&**ty),
                        _ => Err(AsmError::DrfErr),
                    }
                },
                _ => Err(AsmError::Context),
            }
        },
        _ => Err(AsmError::Context),
    }
}

/// Whether `node` names a place that holds a slice.
pub fn is_slice(node: &Node) -> (r: bool)
    ensures
        r == is_slice_of(node@),
{
    match lval_type(node) {
        Ok(ty) => match ty {
            Type::Slc(_) => true,
            _ => false,
        },
        Err(_) => false,
    }
}

/// The width in bytes at which the place that `node` names is read and
/// written.
pub fn lval_size(node: &Node) -> (r: Result<usize, AsmError>)
    ensures
        match width_of(node@) {
            Ok(width) => r matches Ok(w) && w == width,
            Err(e) => r matches Err(f) && f == e,
        },
{
    let ty = lval_type(node)?;
    match checked_type_size(ty) {
        Some(size) => if size == 1 || size == 2 || size == 4 || size == 8 {
            Ok(size)
        } else {
            Err(AsmError::Context)
        },
        None => Err(AsmError::Context),
    }
}

/// What a step of code generation leaves behind: where `code` is a text,
/// success, the text added to the listing and the label counter at `label`;
/// where it is an error, that error.
pub open spec fn generated(
    code: Code,
    res: Result<(), AsmError>,
    before: Seq<char>,
    after: Seq<char>,
    expected: int,
    label: usize,
) -> bool {
    match code {
        Ok(t) => res is Ok && after == before + t && label == expected,
        Err(e) => res matches Err(f) && f == e,
    }
}

/// What a step that writes text, and takes no label, leaves behind.
pub open spec fn written(
    code: Code,
    res: Result<(), AsmError>,
    before: Seq<char>,
    after: Seq<char>,
) -> bool {
    match code {
        Ok(t) => res is Ok && after == before + t,
        Err(e) => res matches Err(f) && f == e,
    }
}

/// Adding to a listing in two steps adds the two texts, joined.
pub proof fn lemma_added(start: Seq<char>, first: Seq<char>, second: Seq<char>)
    ensures
        (start + first) + second == start + (first + second),
{
    assert((start + first) + second =~= start + (first + second));
}

fn arg_register(width: usize, index: usize) -> (r: &'static str)
    ensures
        r@ == arg_reg(width as nat, index as nat),
{
    if width == 8 {
        if index == 0 {
            "rdi"
        } else if index == 1 {
            "rsi"
        } else if index == 2 {
            "rdx"
        } else if index == 3 {
            "rcx"
        } else if index == 4 {
            "r8"
        } else {
            "r9"
        }
    } else if width == 4 {
        if index == 0 {
            "edi"
        } else if index == 1 {
            "esi"
        } else if index == 2 {
            "edx"
        } else if index == 3 {
            "ecx"
        } else if index == 4 {
            "r8d"
        } else {
            "r9d"
        }
    } else if width == 2 {
        if index == 0 {
            "di"
        } else if index == 1 {
            "si"
        } else if index == 2 {
            "dx"
        } else if index == 3 {
            "cx"
        } else if index == 4 {
            "r8w"
        } else {
            "r9w"
        }
    } else {
        if index == 0 {
            "dil"
        } else if index == 1 {
            "sil"
        } else if index == 2 {
            "dl"
        } else if index == 3 {
            "cl"
        } else if index == 4 {
            "r8b"
        } else {
            "r9b"
        }
    }
}

fn emit_store(out: &mut String, width: usize, reg: &str)
    ensures
        final(out)@ == old(out)@ + store(width as nat, reg@),
{
    let ghost start = out@;
    push_str(out, "    mov ");
    if width == 8 {
        push_str(out, "QWORD PTR [rax]");
    } else if width == 4 {
        push_str(out, "DWORD PTR [rax]");
    } else if width == 2 {
        push_str(out, "WORD PTR [rax]");
    } else {
        push_str(out, "BYTE PTR [rax]");
    }
    push_str(out, ", ");
    push_str(out, reg);
    push_str(out, "\n");
    assert(out@ =~= start + store(width as nat, reg@));
}

fn emit_load(out: &mut String, width: usize)
    ensures
        final(out)@ == old(out)@ + load(width as nat),
{
    if width == 8 {
        push_str(out, "    mov rax, QWORD PTR [rax]\n");
    } else if width == 4 {
        push_str(out, "    movsxd rax, DWORD PTR [rax]\n");
    } else if width == 2 {
        push_str(out, "    movsx rax, WORD PTR [rax]\n");
    } else {
        push_str(out, "    movsx rax, BYTE PTR [rax]\n");
    }
}

fn emit_store_slice(out: &mut String, first: &str, second: &str)
    ensures
        final(out)@ == old(out)@ + store_slice(first@, second@),
{
    let ghost start = out@;
    push_str(out, "    mov QWORD PTR [rax], ");
    push_str(out, first);
    push_str(out, "\n");
    push_str(out, "    mov QWORD PTR [rax+8], ");
    push_str(out, second);
    push_str(out, "\n");
    assert(out@ =~= start + store_slice(first@, second@));
}

fn emit_push_number(out: &mut String, n: usize)
    ensures
        final(out)@ == old(out)@ + push_number(n as nat),
{
    let ghost start = out@;
    push_str(out, "    push ");
    push_decimal(out, n);
    push_str(out, "\n");
    assert(out@ =~= start + push_number(n as nat));
}

fn emit_local_address(out: &mut String, offset: usize)
    ensures
        final(out)@ == old(out)@ + local_address(offset as nat),
{
    let ghost start = out@;
    push_str(out, "    mov rax, rbp\n");
    push_str(out, "    sub rax, ");
    push_decimal(out, offset);
    push_str(out, "\n");
    push_str(out, "    push rax\n");
    assert(out@ =~= start + local_address(offset as nat));
}

fn emit_global_address(out: &mut String, name: &str, offset: usize)
    ensures
        final(out)@ == old(out)@ + global_address(name@, offset as nat),
{
    let ghost start = out@;
    push_str(out, "    lea rax, QWORD PTR ");
    push_str(out, name);
    push_str(out, "[rip+");
    push_decimal(out, offset);
    push_str(out, "]\n");
    push_str(out, "    push rax\n");
    assert(out@ =~= start + global_address(name@, offset as nat));
}

fn emit_literal_slice(out: &mut String, label: usize, len: usize)
    ensures
        final(out)@ == old(out)@ + literal_slice(label as nat, len as nat),
{
    let ghost start = out@;
    push_str(out, "    lea rax, QWORD PTR .LC");
    push_decimal(out, label);
    push_str(out, "[rip]\n");
    push_str(out, "    push rax\n");
    let ghost pushed = out@;
    emit_push_number(out, len);
    assert(pushed =~= start + ("    lea rax, QWORD PTR .LC"@ + decimal(label as nat) + "[rip]\n"@
        + "    push rax\n"@));
    assert(out@ =~= start + literal_slice(label as nat, len as nat));
}

/// Pops the address of the place that `node` names and pushes its value.
fn emit_fetch(out: &mut String, node: &Node) -> (res: Result<(), AsmError>)
    ensures
        written(fetch(node@), res, old(out)@, final(out)@),
{
    let ghost start = out@;
    if is_slice(node) {
        push_str(out, "    pop rax\n\n");
        push_str(out, "    mov rdi, QWORD PTR [rax]\n");
        push_str(out, "    mov rax, QWORD PTR [rax+8]\n");
        push_str(out, "    push rdi\n");
        push_str(out, "    push rax\n");
        assert(out@ =~= start + fetch(node@)->Ok_0);
    } else {
        let width = lval_size(node)?;
        push_str(out, "    pop rax\n\n");
        emit_load(out, width);
        push_str(out, "    push rax\n");
        assert(out@ =~= start + fetch(node@)->Ok_0);
    }
    Ok(())
}

fn emit_label(out: &mut String, stem: &str, n: usize)
    ensures
        final(out)@ == old(out)@ + label(stem@, n as nat),
{
    let ghost start = out@;
    push_str(out, stem);
    push_decimal(out, n);
    assert(out@ =~= start + label(stem@, n as nat));
}

fn emit_label_line(out: &mut String, stem: &str, n: usize)
    ensures
        final(out)@ == old(out)@ + label_line(stem@, n as nat),
{
    let ghost start = out@;
    emit_label(out, stem, n);
    push_str(out, ":\n");
    assert(out@ =~= start + label_line(stem@, n as nat));
}

fn emit_jump_if_zero(out: &mut String, stem: &str, n: usize)
    ensures
        final(out)@ == old(out)@ + jump_if_zero(stem@, n as nat),
{
    let ghost start = out@;
    push_str(out, "    pop rax\n");
    push_str(out, "    cmp rax, 0\n");
    push_str(out, "    je  ");
    let ghost head = out@;
    emit_label(out, stem, n);
    push_str(out, "\n");
    assert(head =~= start + ("    pop rax\n"@ + "    cmp rax, 0\n"@ + "    je  "@));
    assert(out@ =~= start + jump_if_zero(stem@, n as nat));
}

fn emit_jump(out: &mut String, stem: &str, n: usize)
    ensures
        final(out)@ == old(out)@ + jump(stem@, n as nat),
{
    let ghost start = out@;
    push_str(out, "    jmp  ");
    emit_label(out, stem, n);
    push_str(out, "\n");
    assert(out@ =~= start + jump(stem@, n as nat));
}

fn emit_compare(out: &mut String, set: &str)
    ensures
        final(out)@ == old(out)@ + compare(set@),
{
    let ghost start = out@;
    push_str(out, "    cmp rax, rdi\n");
    push_str(out, "    ");
    push_str(out, set);
    push_str(out, " al\n");
    push_str(out, "    movzb rax, al\n");
    assert(out@ =~= start + compare(set@));
}

fn emit_arithmetic(out: &mut String, kind: BinaryOpKind)
    ensures
        final(out)@ == old(out)@ + arithmetic(kind),
{
    let ghost start = out@;
    match kind {
        BinaryOpKind::BinaryOpAdd => {
            push_str(out, "    add rax, rdi\n");
        },
        BinaryOpKind::BinaryOpSub => {
            push_str(out, "    sub rax, rdi\n");
        },
        BinaryOpKind::BinaryOpMul => {
            push_str(out, "    imul rax, rdi\n");
        },
        BinaryOpKind::BinaryOpDiv => {
            push_str(out, "    cqo\n");
            push_str(out, "    idiv rdi\n");
            assert(out@ =~= start + arithmetic(kind));
        },
        BinaryOpKind::BinaryOpEq => {
            emit_compare(out, "sete");
        },
        BinaryOpKind::BinaryOpNe => {
            emit_compare(out, "setne");
        },
        BinaryOpKind::BinaryOpGr => {
            emit_compare(out, "setl");
        },
        BinaryOpKind::BinaryOpGe => {
            emit_compare(out, "setle");
        },
        BinaryOpKind::BinaryOpAsn => {
            assert(out@ =~= start + arithmetic(kind));
        },
    }
}

fn emit_pop_operands(out: &mut String, slice: bool)
    ensures
        final(out)@ == old(out)@ + pop_operands(slice),
{
    let ghost start = out@;
    if slice {
        push_str(out, "    pop rdx\n");
        push_str(out, "    pop rdi\n");
    } else {
        push_str(out, "    pop rdi\n");
    }
    push_str(out, "    pop rax\n");
    assert(out@ =~= start + pop_operands(slice));
}

/// Stores the value popped into the place that `target` names.
fn emit_assignment(out: &mut String, target: &Node) -> (res: Result<(), AsmError>)
    ensures
        written(assignment(target@), res, old(out)@, final(out)@),
{
    if is_slice(target) {
        emit_store_slice(out, "rdi", "rdx");
    } else {
        let width = lval_size(target)?;
        emit_store(out, width, arg_register(width, 0));
    }
    Ok(())
}

fn emit_push_result(out: &mut String, ty: &Type)
    ensures
        final(out)@ == old(out)@ + push_result(*ty),
{
    let ghost start = out@;
    if let Type::Slc(_) = ty {
        push_str(out, "    push rdx\n");
        push_str(out, "    push rax\n");
        assert(out@ =~= start + push_result(*ty));
    } else {
        push_str(out, "    push rax\n");
    }
}

fn emit_epilogue(out: &mut String)
    ensures
        final(out)@ == old(out)@ + epilogue(),
{
    let ghost start = out@;
    push_str(out, "    mov rsp, rbp\n");
    push_str(out, "    pop rbp\n");
    push_str(out, "    ret\n");
    assert(out@ =~= start + epilogue());
}

fn emit_leave(out: &mut String, ty: &Type)
    ensures
        final(out)@ == old(out)@ + leave(*ty),
{
    let ghost start = out@;
    if let Type::Slc(_) = ty {
        push_str(out, "    pop rax\n");
        push_str(out, "    pop rdx\n");
    } else {
        push_str(out, "    pop rax\n");
    }
    emit_epilogue(out);
    assert(out@ =~= start + leave(*ty));
}

fn emit_prologue(out: &mut String, name: &str, stack: usize)
    ensures
        final(out)@ == old(out)@ + prologue(name@, stack as nat),
{
    let ghost start = out@;
    push_str(out, ".text\n");
    push_str(out, ".global ");
    push_str(out, name);
    push_str(out, "\n");
    push_str(out, name);
    push_str(out, ":\n");
    let ghost head = out@;
    push_str(out, "    push rbp\n");
    push_str(out, "    mov rbp, rsp\n");
    push_str(out, "    sub rsp, ");
    push_decimal(out, stack);
    push_str(out, "\n");
    assert(head =~= start + (".text\n"@ + ".global "@ + name@ + "\n"@ + name@ + ":\n"@));
    assert(out@ =~= start + prologue(name@, stack as nat));
}

fn emit_global_storage(out: &mut String, name: &str, size: usize)
    ensures
        final(out)@ == old(out)@ + global_storage(name@, size as nat),
{
    let ghost start = out@;
    push_str(out, ".bss\n");
    push_str(out, ".global ");
    push_str(out, name);
    push_str(out, "\n");
    push_str(out, name);
    push_str(out, ":\n");
    let ghost head = out@;
    push_str(out, "    .zero ");
    push_decimal(out, size);
    push_str(out, "\n");
    push_str(out, "\n");
    assert(head =~= start + (".bss\n"@ + ".global "@ + name@ + "\n"@ + name@ + ":\n"@));
    assert(out@ =~= start + global_storage(name@, size as nat));
}

/// Moves the argument whose code has just run into its registers.
fn emit_place_argument(out: &mut String, arg: &Node, index: usize) -> (res: Result<(), AsmError>)
    requires
        index <= usize::MAX - 1,
    ensures
        written(place_argument(arg@, index as nat), res, old(out)@, final(out)@),
{
    let ghost start = out@;
    if is_slice(arg) {
        if index + 1 >= 6 {
            return Err(AsmError::Context);
        }
        push_str(out, "    pop rax\n");
        push_str(out, "    mov ");
        push_str(out, arg_register(8, index));
        push_str(out, ", QWORD PTR [rax]\n");
        let ghost head = out@;
        push_str(out, "    mov ");
        push_str(out, arg_register(8, index + 1));
        push_str(out, ", QWORD PTR [rax+8]\n");
        assert(head =~= start + ("    pop rax\n"@ + "    mov "@ + arg_reg(8, index as nat)
            + ", QWORD PTR [rax]\n"@));
        assert(out@ =~= start + place_argument(arg@, index as nat)->Ok_0);
    } else if index == 0 {
        push_str(out, "    pop rax\n");
        push_str(out, "    mov r10, rax\n");
        assert(out@ =~= start + place_argument(arg@, index as nat)->Ok_0);
    } else if index < 6 {
        push_str(out, "    pop rax\n");
        push_str(out, "    mov ");
        push_str(out, arg_register(8, index));
        push_str(out, ", rax\n");
        assert(out@ =~= start + place_argument(arg@, index as nat)->Ok_0);
    } else {
        return Err(AsmError::Context);
    }
    Ok(())
}

/// Copies the parameter that arrived in argument register `index` into its
/// slot.
fn emit_bind_parameter(out: &mut String, param: &Node, index: usize) -> (res: Result<
    (),
    AsmError,
>)
    requires
        index <= usize::MAX - 1,
    ensures
        written(bind_parameter(param@, index as nat), res, old(out)@, final(out)@),
{
    let ghost start = out@;
    if is_slice(param) {
        if index + 1 >= 6 {
            return Err(AsmError::Context);
        }
        push_str(out, "    pop rax\n");
        emit_store_slice(out, arg_register(8, index), arg_register(8, index + 1));
        assert(out@ =~= start + bind_parameter(param@, index as nat)->Ok_0);
    } else {
        let width = lval_size(param)?;
        if index >= 6 {
            return Err(AsmError::Context);
        }
        push_str(out, "    pop rax\n");
        emit_store(out, width, arg_register(width, index));
        assert(out@ =~= start + bind_parameter(param@, index as nat)->Ok_0);
    }
    Ok(())
}


/// The code generator. It owns the counter from which the labels of
/// conditionals and loops take their numbers; the counter only grows, so
/// no number is given twice.
pub struct AsmGenerator {
    pub label_count: usize,
}

/// The text that was added to `before` to give `after`.
pub open spec fn added(before: Seq<char>, after: Seq<char>) -> Seq<char> {
    after.subrange(before.len() as int, after.len() as int)
}

/// What was added to a listing is what it was extended by.
pub proof fn lemma_added_text(before: Seq<char>, piece: Seq<char>)
    ensures
        added(before, before + piece) == piece,
{
    assert(added(before, before + piece) =~= piece);
}

impl AsmGenerator {
    /// Writes the code that loads the arguments of the call `node` and
    /// calls it.
    fn gen_asm_call(&mut self, out: &mut String, node: &Node) -> (res: Result<(), AsmError>)
        requires
            node@ is Call,
            old(self).label_count + labels_in(node@) <= usize::MAX,
        ensures
            node@ matches Ast::Call { name, args, ty } && generated(
                code_call(name, args, old(self).label_count as nat),
                res,
                old(out)@,
                final(out)@,
                old(self).label_count + labels_in(node@),
                final(self).label_count,
            ),
        decreases node, 0int,
    {
        match node {
            Node::Call { name, args, ty: _ } => {
                let ghost asts = asts_of(args@);
                let ghost base = self.label_count as nat;
                let ghost start = out@;
                let ghost whole = code_args(asts, 0, base, 0);
                let ghost mut emitted: Seq<char> = Seq::empty();
                let mut swap = false;
                let mut index: usize = 0;
                let mut i: usize = 0;
                proof {
                    lemma_unfold_call(name@, asts, base);
                    assert(asts.subrange(0, 0) =~= Seq::<Ast>::empty());
                    assert(start + emitted =~= start);
                }
                while i < args.len()
                    invariant
                        i <= args@.len(),
                        asts == asts_of(args@),
                        *node == (Node::Call { name: *name, args: *args, ty: node->Call_ty }),
                        index <= 6,
                        (i == 0) == (index == 0),
                        base == old(self).label_count,
                        start == old(out)@,
                        out@ == start + emitted,
                        then(
                            text(emitted),
                            code_args(asts, i as int, self.label_count as nat, index as nat),
                        ) == whole,
                        self.label_count == base + labels_in_all(asts.subrange(0, i as int)),
                        base + labels_in_all(asts) <= usize::MAX,
                        swap == (i > 0 && !is_slice_of(asts[0])),
                        code_call(name@, asts, base) == call_code(name@, asts, whole),
                    decreases args@.len() - i,
                {
                    let arg = &args[i];
                    let ghost label = self.label_count as nat;
                    let ghost before = out@;
                    proof {
                        lemma_labels_prefix(asts, i as int);
                        lemma_labels_prefix(asts, i + 1);
                        assert(asts[i as int] == arg@);
                        lemma_unfold_args(asts, i as int, label, index as nat);
                    }
                    let slice = is_slice(arg);
                    if slice {
                        self.gen_asm_lval(out, arg)?;
                    } else {
                        self.gen_asm_node(out, arg)?;
                    }
                    let ghost loaded = out@;
                    emit_place_argument(out, arg, index)?;
                    if !slice && index == 0 {
                        swap = true;
                    }
                    proof {
                        let item = added(before, loaded);
                        let placed = added(loaded, out@);
                        let rest = code_args(
                            asts,
                            i + 1,
                            label + labels_in(arg@),
                            index as nat + regs_of(arg@),
                        );
                        lemma_added_text(
                            before,
                            if slice {
                                code_lval(arg@, label)->Ok_0
                            } else {
                                code_node(arg@, label)->Ok_0
                            },
                        );
                        lemma_added_text(loaded, place_argument(arg@, index as nat)->Ok_0);
                        lemma_added(start, emitted, item);
                        lemma_added(start, emitted + item, placed);
                        lemma_then_text(emitted, item + placed, rest);
                        assert(emitted + (item + placed) =~= (emitted + item) + placed);
                        emitted = (emitted + item) + placed;
                    }
                    index = index + if slice {
                        2
                    } else {
                        1
                    };
                    i += 1;
                }
                proof {
                    lemma_unfold_args(asts, i as int, self.label_count as nat, index as nat);
                    assert(asts.subrange(0, i as int) =~= asts);
                    assert(emitted + Seq::<char>::empty() =~= emitted);
                }
                let ghost loaded = out@;
                if swap {
                    push_str(out, "    mov rdi, r10\n");
                }
                push_str(out, "    call ");
                push_str(out, name.as_str());
                push_str(out, "@PLT\n");
                proof {
                    let tail = (if asts.len() > 0 && !is_slice_of(asts[0]) {
                        "    mov rdi, r10\n"@
                    } else {
                        Seq::empty()
                    }) + "    call "@ + name@ + "@PLT\n"@;
                    assert(out@ =~= loaded + tail);
                    lemma_added(start, emitted, tail);
                }
                Ok(())
            },
            _ => Err(AsmError::Context),
        }
    }

    /// Writes the code that pushes the address of the place that `node`
    /// names.
    fn gen_asm_lval(&mut self, out: &mut String, node: &Node) -> (res: Result<(), AsmError>)
        requires
            old(self).label_count + labels_in(node@) <= usize::MAX,
        ensures
            generated(
                code_lval(node@, old(self).label_count as nat),
                res,
                old(out)@,
                final(out)@,
                old(self).label_count + labels_in(node@),
                final(self).label_count,
            ),
            !names_place(node@) ==> final(out)@ == old(out)@ && final(self).label_count == old(
                self,
            ).label_count,
        decreases node, 0int,
    {
        proof {
            lemma_unfold_lval(node@, self.label_count as nat);
        }
        match node {
            Node::LocalVariable { offset, ty: _ } => {
                emit_local_address(out, *offset);
                Ok(())
            },
            Node::GlobalVariable { name, offset, ty: _ } => {
                emit_global_address(out, name.as_str(), *offset);
                Ok(())
            },
            Node::UnaryOperator { kind, rhs } => {
                match kind {
                    UnaryOpKind::UnaryOpDrf => {
                        self.gen_asm_node(out, &**rhs)?;
                        Ok(())
                    },
                    _ => Err(AsmError::Context),
                }
            },
            _ => Err(AsmError::Context),
        }
    }

    /// Writes the code of a binary operator.
    fn gen_asm_binary(&mut self, out: &mut String, node: &Node) -> (res: Result<(), AsmError>)
        requires
            node@ is BinaryOperator,
            old(self).label_count + labels_in(node@) <= usize::MAX,
        ensures
            generated(
                code_node(node@, old(self).label_count as nat),
                res,
                old(out)@,
                final(out)@,
                old(self).label_count + labels_in(node@),
                final(self).label_count,
            ),
        decreases node, 0int,
    {
        match node {
            Node::BinaryOperator { kind, lhs, rhs } => {
                let ghost start = out@;
                let ghost base = self.label_count as nat;
                let store = *kind == BinaryOpKind::BinaryOpAsn;
                let ghost left = if store {
                    code_lval(lhs@, base)
                } else {
                    code_node(lhs@, base)
                };
                let ghost right = code_node(rhs@, base + labels_in(lhs@));
                assert(code_node(node@, base) == binary_code(*kind, lhs@, left, right)) by {
                    reveal_with_fuel(code_node, 1);
                    reveal_with_fuel(code_lval, 1);
                }
                if store {
                    self.gen_asm_lval(out, &**lhs)?;
                } else {
                    self.gen_asm_node(out, &**lhs)?;
                }
                self.gen_asm_node(out, &**rhs)?;
                let ghost second = out@;
                emit_pop_operands(out, is_slice(&**lhs));
                emit_arithmetic(out, *kind);
                if store {
                    emit_assignment(out, &**lhs)?;
                } else {
                    push_str(out, "    push rax\n\n");
                }
                proof {
                    let a = left->Ok_0;
                    let b = right->Ok_0;
                    let c = pop_operands(is_slice_of(lhs@)) + arithmetic(*kind);
                    let d = if store {
                        assignment(lhs@)->Ok_0
                    } else {
                        "    push rax\n\n"@
                    };
                    lemma_added(second, pop_operands(is_slice_of(lhs@)), arithmetic(*kind));
                    lemma_added(start, a, b);
                    lemma_added(start, a + b, c);
                    lemma_added(start, (a + b) + c, d);
                }
                Ok(())
            },
            _ => Err(AsmError::Context),
        }
    }

    /// Writes the code of a function: its prologue, the copies of its
    /// parameters into their slots, and its block.
    fn gen_asm_function(&mut self, out: &mut String, node: &Node) -> (res: Result<(), AsmError>)
        requires
            node@ is Function,
            old(self).label_count + labels_in(node@) <= usize::MAX,
        ensures
            generated(
                code_node(node@, old(self).label_count as nat),
                res,
                old(out)@,
                final(out)@,
                old(self).label_count + labels_in(node@),
                final(self).label_count,
            ),
        decreases node, 0int,
    {
        match node {
            Node::Function { name, args, stack, block } => {
                let ghost asts = asts_of(args@);
                let ghost base = self.label_count as nat;
                let ghost origin = out@;
                let ghost whole = code_params(asts, 0, base, 0);
                let ghost body = code_node(block@, base + labels_in_all(asts));
                assert(code_node(node@, base) == function_code(
                    name@,
                    *stack as nat,
                    whole,
                    body,
                )) by {
                    reveal_with_fuel(code_node, 1);
                    reveal_with_fuel(code_params, 1);
                }
                emit_prologue(out, name.as_str(), *stack);
                let ghost start = out@;
                let ghost mut emitted: Seq<char> = Seq::empty();
                let mut index: usize = 0;
                let mut i: usize = 0;
                proof {
                    assert(asts.subrange(0, 0) =~= Seq::<Ast>::empty());
                    assert(start + emitted =~= start);
                }
                while i < args.len()
                    invariant
                        i <= args@.len(),
                        asts == asts_of(args@),
                        *node == (Node::Function {
                            name: *name,
                            args: *args,
                            stack: *stack,
                            block: *block,
                        }),
                        index <= 6,
                        base == old(self).label_count,
                        origin == old(out)@,
                        start == origin + prologue(name@, *stack as nat),
                        out@ == start + emitted,
                        then(
                            text(emitted),
                            code_params(asts, i as int, self.label_count as nat, index as nat),
                        ) == whole,
                        self.label_count == base + labels_in_all(asts.subrange(0, i as int)),
                        base + labels_in_all(asts) + labels_in(block@) <= usize::MAX,
                        code_node(node@, base) == function_code(name@, *stack as nat, whole, body),
                    decreases args@.len() - i,
                {
                    let param = &args[i];
                    let ghost label = self.label_count as nat;
                    let ghost before = out@;
                    proof {
                        lemma_labels_prefix(asts, i as int);
                        lemma_labels_prefix(asts, i + 1);
                        assert(asts[i as int] == param@);
                        lemma_unfold_params(asts, i as int, label, index as nat);
                    }
                    self.gen_asm_lval(out, param)?;
                    let ghost loaded = out@;
                    emit_bind_parameter(out, param, index)?;
                    proof {
                        let item = added(before, loaded);
                        let bound = added(loaded, out@);
                        let rest = code_params(
                            asts,
                            i + 1,
                            label + labels_in(param@),
                            index as nat + regs_of(param@),
                        );
                        lemma_added_text(before, code_lval(param@, label)->Ok_0);
                        lemma_added_text(loaded, bind_parameter(param@, index as nat)->Ok_0);
                        lemma_added(start, emitted, item);
                        lemma_added(start, emitted + item, bound);
                        lemma_then_text(emitted, item + bound, rest);
                        assert(emitted + (item + bound) =~= (emitted + item) + bound);
                        emitted = (emitted + item) + bound;
                    }
                    index = index + if is_slice(param) {
                        2
                    } else {
                        1
                    };
                    i += 1;
                }
                proof {
                    lemma_unfold_params(asts, i as int, self.label_count as nat, index as nat);
                    assert(asts.subrange(0, i as int) =~= asts);
                    assert(emitted + Seq::<char>::empty() =~= emitted);
                }
                self.gen_asm_node(out, &**block)?;
                let ghost built = out@;
                emit_epilogue(out);
                push_str(out, "\n");
                proof {
                    let p = prologue(name@, *stack as nat);
                    let b = body->Ok_0;
                    lemma_added(origin, p, emitted);
                    lemma_added(origin, p + emitted, b);
                    lemma_added(built, epilogue(), "\n"@);
                    lemma_added(origin, (p + emitted) + b, epilogue() + "\n"@);
                }
                Ok(())
            },
            _ => Err(AsmError::Context),
        }
    }

    /// Writes the code of `if`, which takes the next label number.
    fn gen_asm_if(&mut self, out: &mut String, node: &Node) -> (res: Result<(), AsmError>)
        requires
            node@ is If,
            old(self).label_count + labels_in(node@) <= usize::MAX,
        ensures
            generated(
                code_node(node@, old(self).label_count as nat),
                res,
                old(out)@,
                final(out)@,
                old(self).label_count + labels_in(node@),
                final(self).label_count,
            ),
        decreases node, 0int,
    {
        match node {
            Node::If { cond, ibody } => {
                let ghost start = out@;
                let ghost base = self.label_count as nat;
                let ghost c = code_node(cond@, base + 1);
                let ghost i = code_node(ibody@, base + 1 + labels_in(cond@));
                assert(code_node(node@, base) == if_code(c, i, base)) by {
                    reveal_with_fuel(code_node, 1);
                }
                let lcnt = self.label_count;
                self.label_count += 1;
                self.gen_asm_node(out, &**cond)?;
                emit_jump_if_zero(out, ".Lend", lcnt);
                self.gen_asm_node(out, &**ibody)?;
                emit_label_line(out, ".Lend", lcnt);
                proof {
                    let b = jump_if_zero(".Lend"@, base);
                    let d = label_line(".Lend"@, base);
                    assert(out@ =~= start + (((c->Ok_0 + b) + i->Ok_0) + d));
                }
                Ok(())
            },
            _ => Err(AsmError::Context),
        }
    }

    /// Writes the code of `if` with `else`, which takes the next label
    /// number.
    fn gen_asm_if_else(&mut self, out: &mut String, node: &Node) -> (res: Result<(), AsmError>)
        requires
            node@ is IfElse,
            old(self).label_count + labels_in(node@) <= usize::MAX,
        ensures
            generated(
                code_node(node@, old(self).label_count as nat),
                res,
                old(out)@,
                final(out)@,
                old(self).label_count + labels_in(node@),
                final(self).label_count,
            ),
        decreases node, 0int,
    {
        match node {
            Node::IfElse { cond, ibody, ebody } => {
                let ghost start = out@;
                let ghost base = self.label_count as nat;
                let ghost c = code_node(cond@, base + 1);
                let ghost i = code_node(ibody@, base + 1 + labels_in(cond@));
                let ghost e = code_node(
                    ebody@,
                    base + 1 + labels_in(cond@) + labels_in(ibody@),
                );
                assert(code_node(node@, base) == if_else_code(c, i, e, base)) by {
                    reveal_with_fuel(code_node, 1);
                }
                let lcnt = self.label_count;
                self.label_count += 1;
                self.gen_asm_node(out, &**cond)?;
                emit_jump_if_zero(out, ".Lelse", lcnt);
                self.gen_asm_node(out, &**ibody)?;
                let ghost third = out@;
                emit_jump(out, ".Lend", lcnt);
                emit_label_line(out, ".Lelse", lcnt);
                let ghost fourth = out@;
                self.gen_asm_node(out, &**ebody)?;
                emit_label_line(out, ".Lend", lcnt);
                proof {
                    let b = jump_if_zero(".Lelse"@, base);
                    let d = jump(".Lend"@, base) + label_line(".Lelse"@, base);
                    let f = label_line(".Lend"@, base);
                    assert(third =~= start + ((c->Ok_0 + b) + i->Ok_0));
                    assert(fourth =~= third + d);
                    assert(fourth =~= start + (((c->Ok_0 + b) + i->Ok_0) + d));
                    assert(out@ =~= start + (((((c->Ok_0 + b) + i->Ok_0) + d) + e->Ok_0) + f));
                }
                Ok(())
            },
            _ => Err(AsmError::Context),
        }
    }

    /// Writes the code of `while`, which takes the next label number.
    fn gen_asm_while(&mut self, out: &mut String, node: &Node) -> (res: Result<(), AsmError>)
        requires
            node@ is While,
            old(self).label_count + labels_in(node@) <= usize::MAX,
        ensures
            generated(
                code_node(node@, old(self).label_count as nat),
                res,
                old(out)@,
                final(out)@,
                old(self).label_count + labels_in(node@),
                final(self).label_count,
            ),
        decreases node, 0int,
    {
        match node {
            Node::While { cond, body } => {
                let ghost start = out@;
                let ghost base = self.label_count as nat;
                let ghost c = code_node(cond@, base + 1);
                let ghost w = code_node(body@, base + 1 + labels_in(cond@));
                assert(code_node(node@, base) == while_code(c, w, base)) by {
                    reveal_with_fuel(code_node, 1);
                }
                let lcnt = self.label_count;
                self.label_count += 1;
                emit_label_line(out, ".Lbegin", lcnt);
                self.gen_asm_node(out, &**cond)?;
                emit_jump_if_zero(out, ".Lend", lcnt);
                self.gen_asm_node(out, &**body)?;
                let ghost third = out@;
                emit_jump(out, ".Lbegin", lcnt);
                emit_label_line(out, ".Lend", lcnt);
                proof {
                    let o = label_line(".Lbegin"@, base);
                    let b = jump_if_zero(".Lend"@, base);
                    let d = jump(".Lbegin"@, base) + label_line(".Lend"@, base);
                    assert(third =~= start + (((o + c->Ok_0) + b) + w->Ok_0));
                    assert(out@ =~= third + d);
                    assert(out@ =~= start + ((((o + c->Ok_0) + b) + w->Ok_0) + d));
                }
                Ok(())
            },
            _ => Err(AsmError::Context),
        }
    }

    /// Writes the code that leaves the value of `node` on the stack.
    fn gen_asm_node(&mut self, out: &mut String, node: &Node) -> (res: Result<(), AsmError>)
        requires
            old(self).label_count + labels_in(node@) <= usize::MAX,
        ensures
            generated(
                code_node(node@, old(self).label_count as nat),
                res,
                old(out)@,
                final(out)@,
                old(self).label_count + labels_in(node@),
                final(self).label_count,
            ),
        decreases node, 1int,
    {
        let ghost start = out@;
        let ghost base = self.label_count as nat;
        match node {
            Node::Number { val } => {
                assert(code_node(node@, base) == text(push_number(*val as nat))) by {
                    reveal_with_fuel(code_node, 1);
                }
                emit_push_number(out, *val as usize);
            },
            Node::Bool { bl } => {
                assert(code_node(node@, base) == text(
                    if *bl {
                        "    push 1\n"@
                    } else {
                        "    push 0\n"@
                    },
                )) by {
                    reveal_with_fuel(code_node, 1);
                }
                if *bl {
                    push_str(out, "    push 1\n");
                } else {
                    push_str(out, "    push 0\n");
                }
            },
            Node::StrLiteral { s, label } => {
                assert(code_node(node@, base) == text(
                    literal_slice(*label as nat, encode_utf8(s@).len()),
                )) by {
                    reveal_with_fuel(code_node, 1);
                }
                emit_literal_slice(out, *label, s.as_str().as_bytes().len());
            },
            Node::BinaryOperator { kind: _, lhs: _, rhs: _ } => {
                self.gen_asm_binary(out, node)?;
            },
            Node::UnaryOperator { kind, rhs } => {
                match kind {
                    UnaryOpKind::UnaryOpRf => {
                        assert(code_node(node@, base) == code_lval(rhs@, base)) by {
                            reveal_with_fuel(code_node, 1);
                            reveal_with_fuel(code_lval, 1);
                        }
                        self.gen_asm_lval(out, &**rhs)?;
                    },
                    UnaryOpKind::UnaryOpDrf => {
                        let ghost p = code_node(rhs@, base);
                        assert(code_node(node@, base) == deref_code(node@, rhs@, p)) by {
                            reveal_with_fuel(code_node, 1);
                        }
                        let typed = lval_type(&**rhs).is_ok();
                        self.gen_asm_node(out, &**rhs)?;
                        if typed {
                            emit_fetch(out, node)?;
                            proof {
                                lemma_added(start, p->Ok_0, fetch(node@)->Ok_0);
                            }
                        } else {
                            push_str(out, "    pop rax\n");
                            push_str(out, "    mov rax, QWORD PTR [rax]\n");
                            push_str(out, "    push rax\n");
                            assert(out@ =~= start + (p->Ok_0 + ("    pop rax\n"@
                                + "    mov rax, QWORD PTR [rax]\n"@ + "    push rax\n"@)));
                        }
                    },
                }
            },
            Node::LocalVariable { offset: _, ty: _ } => {
                assert(code_node(node@, base) == then(code_lval(node@, base), fetch(node@))) by {
                    reveal_with_fuel(code_node, 1);
                    reveal_with_fuel(code_lval, 1);
                }
                self.gen_asm_lval(out, node)?;
                emit_fetch(out, node)?;
                proof {
                    lemma_added(start, code_lval(node@, base)->Ok_0, fetch(node@)->Ok_0);
                }
            },
            Node::DeclareLocal { offset: _, ty: _ } => {
                assert(code_node(node@, base) == text(Seq::empty())) by {
                    reveal_with_fuel(code_node, 1);
                }
                assert(out@ =~= start + Seq::<char>::empty());
            },
            Node::GlobalVariable { name: _, offset: _, ty: _ } => {
                assert(code_node(node@, base) == then(code_lval(node@, base), fetch(node@))) by {
                    reveal_with_fuel(code_node, 1);
                    reveal_with_fuel(code_lval, 1);
                }
                self.gen_asm_lval(out, node)?;
                emit_fetch(out, node)?;
                proof {
                    lemma_added(start, code_lval(node@, base)->Ok_0, fetch(node@)->Ok_0);
                }
            },
            Node::DeclareGlobal { name, size, ty: _ } => {
                assert(code_node(node@, base) == text(global_storage(name@, *size as nat))) by {
                    reveal_with_fuel(code_node, 1);
                }
                emit_global_storage(out, name.as_str(), *size);
            },
            Node::Block { nodes } => {
                assert(code_node(node@, base) == code_stream(asts_of(nodes@), 0, base)) by {
                    reveal_with_fuel(code_node, 1);
                    reveal_with_fuel(code_stream, 1);
                }
                self.gen_asm_node_stream(out, nodes)?;
            },
            Node::Function { name: _, args: _, stack: _, block: _ } => {
                self.gen_asm_function(out, node)?;
            },
            Node::Call { name, args, ty } => {
                let ghost call = code_call(name@, asts_of(args@), base);
                assert(code_node(node@, base) == then(call, text(push_result(*ty)))) by {
                    reveal_with_fuel(code_node, 1);
                    reveal_with_fuel(code_call, 1);
                }
                self.gen_asm_call(out, node)?;
                emit_push_result(out, ty);
                proof {
                    lemma_added(start, call->Ok_0, push_result(*ty));
                }
            },
            Node::If { cond: _, ibody: _ } => {
                self.gen_asm_if(out, node)?;
            },
            Node::IfElse { cond: _, ibody: _, ebody: _ } => {
                self.gen_asm_if_else(out, node)?;
            },
            Node::While { cond: _, body: _ } => {
                self.gen_asm_while(out, node)?;
            },
            Node::Return { rhs, ty } => {
                let ghost value = code_node(rhs@, base);
                assert(code_node(node@, base) == then(value, text(leave(*ty)))) by {
                    reveal_with_fuel(code_node, 1);
                }
                self.gen_asm_node(out, &**rhs)?;
                emit_leave(out, ty);
                proof {
                    lemma_added(start, value->Ok_0, leave(*ty));
                }
            },
        }
        Ok(())
    }

    /// Writes the code of the nodes of a list, one after the other. The
    /// result of a call that stands alone is dropped.
    fn gen_asm_node_stream(&mut self, out: &mut String, nodes: &Vec<Box<Node>>) -> (res: Result<
        (),
        AsmError,
    >)
        requires
            old(self).label_count + labels_in_all(asts_of(nodes@)) <= usize::MAX,
        ensures
            generated(
                code_stream(asts_of(nodes@), 0, old(self).label_count as nat),
                res,
                old(out)@,
                final(out)@,
                old(self).label_count + labels_in_all(asts_of(nodes@)),
                final(self).label_count,
            ),
        decreases nodes, 2int,
    {
        let ghost asts = asts_of(nodes@);
        let ghost base = self.label_count as nat;
        let ghost start = out@;
        let ghost whole = code_stream(asts, 0, base);
        let ghost mut emitted: Seq<char> = Seq::empty();
        let mut i: usize = 0;
        proof {
            assert(asts.subrange(0, 0) =~= Seq::<Ast>::empty());
            assert(start + emitted =~= start);
        }
        while i < nodes.len()
            invariant
                i <= nodes@.len(),
                asts == asts_of(nodes@),
                base == old(self).label_count,
                start == old(out)@,
                whole == code_stream(asts, 0, base),
                out@ == start + emitted,
                then(text(emitted), code_stream(asts, i as int, self.label_count as nat)) == whole,
                self.label_count == base + labels_in_all(asts.subrange(0, i as int)),
                base + labels_in_all(asts) <= usize::MAX,
            decreases nodes@.len() - i,
        {
            let node = &nodes[i];
            let ghost label = self.label_count as nat;
            let ghost before = out@;
            proof {
                lemma_labels_prefix(asts, i as int);
                lemma_labels_prefix(asts, i + 1);
                assert(asts[i as int] == node@);
                lemma_unfold_stream(asts, i as int, label);
                lemma_unfold_item(node@, label);
            }
            if is_call(node) {
                self.gen_asm_call(out, node)?;
            } else {
                self.gen_asm_node(out, node)?;
            }
            proof {
                let item = added(before, out@);
                let rest = code_stream(asts, i + 1, label + labels_in(node@));
                lemma_added_text(before, code_item(node@, label)->Ok_0);
                lemma_added(start, emitted, item);
                lemma_then_text(emitted, item, rest);
                emitted = emitted + item;
            }
            i += 1;
        }
        proof {
            lemma_unfold_stream(asts, i as int, self.label_count as nat);
            assert(asts.subrange(0, i as int) =~= asts);
            assert(emitted + Seq::<char>::empty() =~= emitted);
        }
        Ok(())
    }

    /// Writes the assembly listing of a program: the syntax directive, the
    /// string literals `literals` as read-only data, and the code of the
    /// declarations `nodes`.
    ///
    /// The listing is the text that [`listing`] defines, with labels
    /// numbered from the counter; the counter then stands behind the last
    /// number used. Where no code can be written for a node, the first error
    /// in the order of the tree is returned, and no listing.
    pub fn gen_asm(&mut self, nodes: &Vec<Box<Node>>, literals: &Vec<String>) -> (res: Result<
        String,
        AsmError,
    >)
        requires
            old(self).label_count + labels_in_all(asts_of(nodes@)) <= usize::MAX,
        ensures
            match listing(
                asts_of(nodes@),
                Seq::new(literals@.len(), |i: int| literals@[i]@),
                old(self).label_count as nat,
            ) {
                Ok(t) => res matches Ok(s) && s@ == t && final(self).label_count == old(
                    self,
                ).label_count + labels_in_all(asts_of(nodes@)),
                Err(e) => res matches Err(f) && f == e,
            },
    {
        let ghost texts = Seq::new(literals@.len(), |i: int| literals@[i]@);
        let mut out = String::new();
        push_str(&mut out, ".intel_syntax noprefix\n");
        push_str(&mut out, ".section .rodata\n");
        let ghost head = out@;
        let mut i: usize = 0;
        assert(head =~= ".intel_syntax noprefix\n"@ + ".section .rodata\n"@);
        assert(out@ =~= head + literal_data(texts, 0));
        while i < literals.len()
            invariant
                i <= literals@.len(),
                texts == Seq::new(literals@.len(), |i: int| literals@[i]@),
                out@ == head + literal_data(texts, i as int),
            decreases literals@.len() - i,
        {
            emit_label_line(&mut out, ".LC", i);
            push_str(&mut out, "    .ascii \"");
            push_str(&mut out, literals[i].as_str());
            push_str(&mut out, "\"\n");
            i += 1;
            assert(out@ =~= head + literal_data(texts, i as int));
        }
        let ghost data = out@;
        self.gen_asm_node_stream(&mut out, nodes)?;
        proof {
            assert(data =~= ".intel_syntax noprefix\n"@ + ".section .rodata\n"@ + literal_data(
                texts,
                texts.len() as int,
            ));
        }
        Ok(out)
    }

    /// A code generator whose labels start at 0.
    pub fn new() -> (r: Self)
        ensures
            r.label_count == 0,
    {
        AsmGenerator { label_count: 0 }
    }
}

} // verus!
