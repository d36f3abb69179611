//! The grammar of the language, as functions from a token stream to the
//! syntax tree that it writes. The parser is proved to compute them.
//!
//! The functions named `g_` and a production are the productions. Every
//! one takes the declarations made so far, the stream and the index of the
//! token to start at, and gives the value parsed, the declarations after it
//! and the index of the token after it, or the first fault.

use vstd::prelude::*;
use crate::ast::{labels_in, Ast, BinaryOpKind, UnaryOpKind};
use crate::parse::ParseErrorKind;
use crate::token::{is_op_at, is_rsv_at, kind_at, pos_at, Lexed, Lexeme};
use crate::types::{
    align_of, aligned, has_size, lemma_rounded_up, lemma_size_aligned, max_frame, rounded_up,
    size_of, Type,
};

verus! {

/// A local variable: its name, its type and the offset of its slot below
/// the frame base.
pub struct Local {
    pub name: Seq<char>,
    pub ty: Type,
    pub offset: usize,
}

/// A global variable: its name and its type.
pub struct Global {
    pub name: Seq<char>,
    pub ty: Type,
}

/// A function that has been seen: its name and the type that it returns.
pub struct Signature {
    pub name: Seq<char>,
    pub ty: Type,
}

/// What the parser knows at one point of the source.
pub struct Scope {
    /// The locals of the function being parsed, in the order declared.
    pub locals: Seq<Local>,
    /// The globals declared so far.
    pub globals: Seq<Global>,
    /// The functions seen so far.
    pub funcs: Seq<Signature>,
    /// The string literals met so far; a literal's index is its label.
    pub literals: Seq<Seq<char>>,
    /// The return type of the function being parsed.
    pub cur_type: Type,
}

/// A parse error: its kind, the byte offset that it points at, and the
/// index of the token at which the parser stops. No token from there on
/// has been read.
pub struct Fault {
    pub kind: ParseErrorKind,
    pub pos: nat,
    pub at: int,
}

/// What a successful parse gives.
pub struct Parsed<T> {
    pub value: T,
    pub scope: Scope,
    pub next: int,
}

/// A fault found at the token at `at`, which points at it.
pub open spec fn fault(kind: ParseErrorKind, ts: Seq<Lexed>, at: int) -> Fault {
    Fault { kind, pos: pos_at(ts, at), at }
}

/// A fault found at the token at `at`, which points at the token `back`
/// tokens before it, or at offset 0 where there is none.
pub open spec fn fault_before(kind: ParseErrorKind, ts: Seq<Lexed>, at: int, back: int) -> Fault {
    Fault {
        kind,
        pos: if back <= at {
            pos_at(ts, at - back)
        } else {
            0
        },
        at,
    }
}

/// `r`, where it moved forward from `from` and stayed within `len` tokens.
/// Every parse does (see [`crate::laws::lemma_parse_advances`]), so this
/// changes nothing; it is what shows that the grammar is well founded.
pub open spec fn advanced<T>(r: Result<Parsed<T>, Fault>, from: int, len: nat) -> Result<
    Parsed<T>,
    Fault,
> {
    match r {
        Ok(p) => if from < p.next <= len {
            r
        } else {
            Err(Fault { kind: ParseErrorKind::ExprInvalid, pos: 0, at: 0 })
        },
        Err(_) => r,
    }
}

/// The type `&ty`: a slice where `ty` is `str` or an array, else a pointer.
pub open spec fn reference_to(ty: Type) -> Type {
    match ty {
        Type::Str | Type::Ary(_, _) => Type::Slc(Box::new(ty)),
        _ => Type::Ptr(Box::new(ty)),
    }
}

/// The primitive type that the reserved word at `at` names.
pub open spec fn primitive_at(ts: Seq<Lexed>, at: int) -> Option<Type> {
    if is_rsv_at(ts, at, "i8"@) {
        Some(Type::Int8)
    } else if is_rsv_at(ts, at, "i16"@) {
        Some(Type::Int16)
    } else if is_rsv_at(ts, at, "i32"@) {
        Some(Type::Int32)
    } else if is_rsv_at(ts, at, "i64"@) {
        Some(Type::Int64)
    } else if is_rsv_at(ts, at, "bool"@) {
        Some(Type::Bool)
    } else if is_rsv_at(ts, at, "str"@) {
        Some(Type::Str)
    } else {
        None
    }
}

/// A type: `&` and a type, `[` type `;` number `]`, or a primitive.
pub open spec fn g_typ(ts: Seq<Lexed>, at: int) -> Result<(Type, int), Fault>
    decreases ts.len() - at,
{
    if is_op_at(ts, at, "&"@) {
        match g_typ(ts, at + 1) {
            Ok((ty, next)) => Ok((reference_to(ty), next)),
            Err(e) => Err(e),
        }
    } else if is_op_at(ts, at, "["@) {
        match g_typ(ts, at + 1) {
            Ok((ty, next)) => if !is_op_at(ts, next, ";"@) {
                Err(fault(ParseErrorKind::ScolonExpected, ts, next))
            } else {
                match kind_at(ts, next + 1) {
                    Lexeme::Num(len) => if is_op_at(ts, next + 2, "]"@) {
                        Ok((Type::Ary(Box::new(ty), len as usize), next + 3))
                    } else {
                        Err(fault(ParseErrorKind::ParenExpected, ts, next + 2))
                    },
                    _ => Err(fault(ParseErrorKind::NumberExpected, ts, next + 1)),
                }
            },
            Err(e) => Err(e),
        }
    } else {
        match primitive_at(ts, at) {
            Some(ty) => Ok((ty, at + 1)),
            None => Err(fault(ParseErrorKind::TypeExpected, ts, at)),
        }
    }
}

/// A binding: a name, `:` and a type.
pub open spec fn g_bind(ts: Seq<Lexed>, at: int) -> Result<(Seq<char>, Type, int), Fault> {
    match kind_at(ts, at) {
        Lexeme::Idt(name) => if is_op_at(ts, at + 1, ":"@) {
            match g_typ(ts, at + 2) {
                Ok((ty, next)) => Ok((name, ty, next)),
                Err(e) => Err(e),
            }
        } else {
            Err(fault(ParseErrorKind::ColonExpected, ts, at + 1))
        },
        _ => Err(fault(ParseErrorKind::VariableExpected, ts, at)),
    }
}

/// The first local named `name`.
pub open spec fn find_local(locals: Seq<Local>, name: Seq<char>) -> Option<Local>
    decreases locals.len(),
{
    if locals.len() == 0 {
        None
    } else if locals[0].name == name {
        Some(locals[0])
    } else {
        find_local(locals.drop_first(), name)
    }
}

/// The first global named `name`.
pub open spec fn find_global(globals: Seq<Global>, name: Seq<char>) -> Option<Global>
    decreases globals.len(),
{
    if globals.len() == 0 {
        None
    } else if globals[0].name == name {
        Some(globals[0])
    } else {
        find_global(globals.drop_first(), name)
    }
}

/// The return type of the first function named `name`; `i8` where none has
/// been seen.
pub open spec fn func_type(funcs: Seq<Signature>, name: Seq<char>) -> Type
    decreases funcs.len(),
{
    if funcs.len() == 0 {
        Type::Int8
    } else if funcs[0].name == name {
        funcs[0].ty
    } else {
        func_type(funcs.drop_first(), name)
    }
}

/// How far element `index` lies from the start of an array of `elem`: the
/// size of an element times the index, where that can be held.
pub open spec fn element_offset(elem: Type, index: u32) -> Option<usize> {
    if has_size(elem) && size_of(elem) * index <= usize::MAX {
        Some((size_of(elem) * index) as usize)
    } else {
        None
    }
}

/// The variable that `[` number `]` after a local picks: the element's slot
/// lies the element offset above the array's, so its offset below the frame
/// base is that much smaller.
pub open spec fn local_element(l: Local, index: u32) -> Option<Ast> {
    match l.ty {
        Type::Ary(elem, _) => match element_offset(*elem, index) {
            Some(delta) => if delta <= l.offset {
                Some(Ast::LocalVariable { offset: (l.offset - delta) as usize, ty: *elem })
            } else {
                None
            },
            None => None,
        },
        _ => None,
    }
}

/// The variable that `[` number `]` after a global picks.
pub open spec fn global_element(g: Global, index: u32) -> Option<Ast> {
    match g.ty {
        Type::Ary(elem, _) => match element_offset(*elem, index) {
            Some(delta) => Some(Ast::GlobalVariable { name: g.name, offset: delta, ty: *elem }),
            None => None,
        },
        _ => None,
    }
}

/// The index that may follow a variable: `[`, a number and `]`. Gives the
/// number and the token after, or nothing where no `[` stands at `at`.
pub open spec fn g_index(ts: Seq<Lexed>, at: int) -> Result<Option<(u32, int)>, Fault> {
    if is_op_at(ts, at, "["@) {
        match kind_at(ts, at + 1) {
            Lexeme::Num(index) => if is_op_at(ts, at + 2, "]"@) {
                Ok(Some((index, at + 3)))
            } else {
                Err(fault(ParseErrorKind::ParenExpected, ts, at + 2))
            },
            _ => Err(fault(ParseErrorKind::NumberExpected, ts, at + 1)),
        }
    } else {
        Ok(None)
    }
}

/// A use of the variable `name`, whose name has just been read: the first
/// local of that name, else the first global, with the element that an
/// index picks.
pub open spec fn g_var(sc: Scope, ts: Seq<Lexed>, at: int, name: Seq<char>) -> Result<
    (Ast, int),
    Fault,
> {
    match find_local(sc.locals, name) {
        Some(l) => match g_index(ts, at) {
            Ok(Some((index, next))) => match local_element(l, index) {
                Some(node) => Ok((node, next)),
                None => Err(fault_before(ParseErrorKind::TypeInvalid, ts, next, 4)),
            },
            Ok(None) => Ok((Ast::LocalVariable { offset: l.offset, ty: l.ty }, at)),
            Err(e) => Err(e),
        },
        None => match find_global(sc.globals, name) {
            Some(g) => match g_index(ts, at) {
                Ok(Some((index, next))) => match global_element(g, index) {
                    Some(node) => Ok((node, next)),
                    None => Err(fault_before(ParseErrorKind::TypeInvalid, ts, next, 4)),
                },
                Ok(None) => Ok((Ast::GlobalVariable { name: g.name, offset: 0, ty: g.ty }, at)),
                Err(e) => Err(e),
            },
            None => Err(fault_before(ParseErrorKind::UnknownVariable, ts, at, 1)),
        },
    }
}

/// The infix operators that associate to the left.
pub enum Infix {
    Mul,
    Div,
    Add,
    Sub,
    Less,
    LessEq,
    Greater,
    GreaterEq,
    Equal,
    NotEqual,
}

/// The node of which `kind` is the operator.
pub open spec fn binary(kind: BinaryOpKind, lhs: Ast, rhs: Ast) -> Ast {
    Ast::BinaryOperator { kind, lhs: Box::new(lhs), rhs: Box::new(rhs) }
}

/// The node for `left op right`. The tree knows "less" and "less or equal"
/// only: `>` and `>=` swap their operands.
pub open spec fn infix_node(op: Infix, left: Ast, right: Ast) -> Ast {
    match op {
        Infix::Mul => binary(BinaryOpKind::BinaryOpMul, left, right),
        Infix::Div => binary(BinaryOpKind::BinaryOpDiv, left, right),
        Infix::Add => binary(BinaryOpKind::BinaryOpAdd, left, right),
        Infix::Sub => binary(BinaryOpKind::BinaryOpSub, left, right),
        Infix::Less => binary(BinaryOpKind::BinaryOpGr, left, right),
        Infix::LessEq => binary(BinaryOpKind::BinaryOpGe, left, right),
        Infix::Greater => binary(BinaryOpKind::BinaryOpGr, right, left),
        Infix::GreaterEq => binary(BinaryOpKind::BinaryOpGe, right, left),
        Infix::Equal => binary(BinaryOpKind::BinaryOpEq, left, right),
        Infix::NotEqual => binary(BinaryOpKind::BinaryOpNe, left, right),
    }
}

/// An infix node holds the conditionals and loops of its operands.
pub proof fn lemma_infix_labels(op: Infix, left: Ast, right: Ast)
    ensures
        labels_in(infix_node(op, left, right)) == labels_in(left) + labels_in(right),
{
}

/// The levels of precedence of the infix operators, from the one that binds
/// tightest.
pub enum Level {
    Multiplicative,
    Additive,
    Relational,
    Equality,
}

/// The place of a level among the levels.
pub open spec fn rank(level: Level) -> nat {
    match level {
        Level::Multiplicative => 0,
        Level::Additive => 1,
        Level::Relational => 2,
        Level::Equality => 3,
    }
}

/// The infix operator of precedence `level` at `at`.
pub open spec fn infix_at(level: Level, ts: Seq<Lexed>, at: int) -> Option<Infix> {
    match level {
        Level::Multiplicative => if is_op_at(ts, at, "*"@) {
            Some(Infix::Mul)
        } else if is_op_at(ts, at, "/"@) {
            Some(Infix::Div)
        } else {
            None
        },
        Level::Additive => if is_op_at(ts, at, "+"@) {
            Some(Infix::Add)
        } else if is_op_at(ts, at, "-"@) {
            Some(Infix::Sub)
        } else {
            None
        },
        Level::Relational => if is_op_at(ts, at, "<"@) {
            Some(Infix::Less)
        } else if is_op_at(ts, at, "<="@) {
            Some(Infix::LessEq)
        } else if is_op_at(ts, at, ">"@) {
            Some(Infix::Greater)
        } else if is_op_at(ts, at, ">="@) {
            Some(Infix::GreaterEq)
        } else {
            None
        },
        Level::Equality => if is_op_at(ts, at, "=="@) {
            Some(Infix::Equal)
        } else if is_op_at(ts, at, "!="@) {
            Some(Infix::NotEqual)
        } else {
            None
        },
    }
}

/// A primary expression: a number, `true` or `false`, a string literal, a
/// call, a variable, or an expression in parentheses. A string literal joins
/// the pool, and its label is its index there.
#[verifier::opaque]
pub open spec fn g_primary(sc: Scope, ts: Seq<Lexed>, at: int) -> Result<Parsed<Ast>, Fault>
    decreases ts.len() - at, 0int,
{
    match kind_at(ts, at) {
        Lexeme::Num(val) => Ok(Parsed { value: Ast::Number { val }, scope: sc, next: at + 1 }),
        Lexeme::Str(s) => Ok(
            Parsed {
                value: Ast::StrLiteral { s, label: sc.literals.len() as usize },
                scope: Scope { literals: sc.literals.push(s), ..sc },
                next: at + 1,
            },
        ),
        Lexeme::Idt(name) => if is_op_at(ts, at + 1, "("@) {
            match g_args(sc, ts, at + 2, Seq::empty()) {
                Ok(p) => Ok(
                    Parsed {
                        value: Ast::Call {
                            name,
                            args: p.value,
                            ty: func_type(p.scope.funcs, name),
                        },
                        scope: p.scope,
                        next: p.next,
                    },
                ),
                Err(e) => Err(e),
            }
        } else {
            match g_var(sc, ts, at + 1, name) {
                Ok((node, next)) => Ok(Parsed { value: node, scope: sc, next }),
                Err(e) => Err(e),
            }
        },
        _ => if is_rsv_at(ts, at, "true"@) {
            Ok(Parsed { value: Ast::Bool { bl: true }, scope: sc, next: at + 1 })
        } else if is_rsv_at(ts, at, "false"@) {
            Ok(Parsed { value: Ast::Bool { bl: false }, scope: sc, next: at + 1 })
        } else if is_op_at(ts, at, "("@) {
            match advanced(g_expr(sc, ts, at + 1), at, ts.len()) {
                Ok(p) => if is_op_at(ts, p.next, ")"@) {
                    Ok(Parsed { value: p.value, scope: p.scope, next: p.next + 1 })
                } else {
                    Err(fault(ParseErrorKind::ParenExpected, ts, p.next))
                },
                Err(e) => Err(e),
            }
        } else {
            Err(fault(ParseErrorKind::ExprInvalid, ts, at))
        },
    }
}

/// The arguments of a call, after its `(`: expressions up to the `)`, each
/// of which a `,` may follow. `done` holds the arguments read so far.
#[verifier::opaque]
pub open spec fn g_args(sc: Scope, ts: Seq<Lexed>, at: int, done: Seq<Ast>) -> Result<
    Parsed<Seq<Ast>>,
    Fault,
>
    decreases ts.len() - at, 40int,
{
    if is_op_at(ts, at, ")"@) {
        Ok(Parsed { value: done, scope: sc, next: at + 1 })
    } else {
        match advanced(g_expr(sc, ts, at), at, ts.len()) {
            Ok(p) => g_args(
                p.scope,
                ts,
                if is_op_at(ts, p.next, ","@) {
                    p.next + 1
                } else {
                    p.next
                },
                done.push(p.value),
            ),
            Err(e) => Err(e),
        }
    }
}

/// A unary expression: `&` or `*` and a unary expression, `-` and a primary
/// expression, which stands for 0 minus it, or a primary expression.
#[verifier::opaque]
pub open spec fn g_unary(sc: Scope, ts: Seq<Lexed>, at: int) -> Result<Parsed<Ast>, Fault>
    decreases ts.len() - at, 1int,
{
    if is_op_at(ts, at, "&"@) {
        match g_unary(sc, ts, at + 1) {
            Ok(p) => Ok(
                Parsed {
                    value: Ast::UnaryOperator {
                        kind: UnaryOpKind::UnaryOpRf,
                        rhs: Box::new(p.value),
                    },
                    scope: p.scope,
                    next: p.next,
                },
            ),
            Err(e) => Err(e),
        }
    } else if is_op_at(ts, at, "*"@) {
        match g_unary(sc, ts, at + 1) {
            Ok(p) => Ok(
                Parsed {
                    value: Ast::UnaryOperator {
                        kind: UnaryOpKind::UnaryOpDrf,
                        rhs: Box::new(p.value),
                    },
                    scope: p.scope,
                    next: p.next,
                },
            ),
            Err(e) => Err(e),
        }
    } else if is_op_at(ts, at, "-"@) {
        match g_primary(sc, ts, at + 1) {
            Ok(p) => Ok(
                Parsed {
                    value: binary(BinaryOpKind::BinaryOpSub, Ast::Number { val: 0 }, p.value),
                    scope: p.scope,
                    next: p.next,
                },
            ),
            Err(e) => Err(e),
        }
    } else {
        g_primary(sc, ts, at)
    }
}

/// An operand of the infix operators of precedence `level`: a unary
/// expression for the tightest, else the expression of the level below.
#[verifier::opaque]
pub open spec fn g_operand(level: Level, sc: Scope, ts: Seq<Lexed>, at: int) -> Result<
    Parsed<Ast>,
    Fault,
>
    decreases ts.len() - at, 2 * rank(level) + 2,
{
    match level {
        Level::Multiplicative => g_unary(sc, ts, at),
        Level::Additive => g_infix(Level::Multiplicative, sc, ts, at),
        Level::Relational => g_infix(Level::Additive, sc, ts, at),
        Level::Equality => g_infix(Level::Relational, sc, ts, at),
    }
}

/// An expression of precedence `level`: operands joined by the operators of
/// the level, which associate to the left.
#[verifier::opaque]
pub open spec fn g_infix(level: Level, sc: Scope, ts: Seq<Lexed>, at: int) -> Result<
    Parsed<Ast>,
    Fault,
>
    decreases ts.len() - at, 2 * rank(level) + 3,
{
    match advanced(g_operand(level, sc, ts, at), at, ts.len()) {
        Ok(p) => g_infix_rest(level, p.scope, ts, p.next, p.value),
        Err(e) => Err(e),
    }
}

/// What follows the operand `left` in an expression of precedence `level`.
#[verifier::opaque]
pub open spec fn g_infix_rest(
    level: Level,
    sc: Scope,
    ts: Seq<Lexed>,
    at: int,
    left: Ast,
) -> Result<Parsed<Ast>, Fault>
    decreases ts.len() - at, 2 * rank(level) + 3,
{
    match infix_at(level, ts, at) {
        Some(op) => match advanced(g_operand(level, sc, ts, at + 1), at, ts.len()) {
            Ok(p) => g_infix_rest(level, p.scope, ts, p.next, infix_node(op, left, p.value)),
            Err(e) => Err(e),
        },
        None => Ok(Parsed { value: left, scope: sc, next: at }),
    }
}

/// An assignment: an equality, and where `=` follows, the assignment that is
/// stored into it. It associates to the right.
#[verifier::opaque]
pub open spec fn g_assign(sc: Scope, ts: Seq<Lexed>, at: int) -> Result<Parsed<Ast>, Fault>
    decreases ts.len() - at, 20int,
{
    match advanced(g_infix(Level::Equality, sc, ts, at), at, ts.len()) {
        Ok(p) => if is_op_at(ts, p.next, "="@) {
            match g_assign(p.scope, ts, p.next + 1) {
                Ok(q) => Ok(
                    Parsed {
                        value: binary(BinaryOpKind::BinaryOpAsn, p.value, q.value),
                        scope: q.scope,
                        next: q.next,
                    },
                ),
                Err(e) => Err(e),
            }
        } else {
            Ok(p)
        },
        Err(e) => Err(e),
    }
}

/// An expression.
#[verifier::opaque]
pub open spec fn g_expr(sc: Scope, ts: Seq<Lexed>, at: int) -> Result<Parsed<Ast>, Fault>
    decreases ts.len() - at, 21int,
{
    g_assign(sc, ts, at)
}

/// The `;` that closes a statement: the token after it, or the fault that
/// points at the token found in its place.
pub open spec fn g_semicolon(ts: Seq<Lexed>, at: int) -> Result<int, Fault> {
    if is_op_at(ts, at, ";"@) {
        Ok(at + 1)
    } else {
        Err(fault(ParseErrorKind::ScolonExpected, ts, at))
    }
}

/// `p`, closed by a `;`.
pub open spec fn closed(p: Parsed<Ast>, ts: Seq<Lexed>) -> Result<Parsed<Ast>, Fault> {
    match g_semicolon(ts, p.next) {
        Ok(next) => Ok(Parsed { value: p.value, scope: p.scope, next }),
        Err(e) => Err(e),
    }
}

/// The bytes of the frame that the locals take. The slots lie one after
/// the other in the order declared, each starting at the next multiple of
/// the alignment of its type, so the frame holds the sizes of the locals
/// and the padding between them.
pub open spec fn frame_size(locals: Seq<Local>) -> nat
    decreases locals.len(),
{
    if locals.len() == 0 {
        0
    } else {
        slot_end(frame_size(locals.drop_last()), locals.last().ty)
    }
}

/// Where the slot of a local of type `ty` ends that is declared when the
/// frame holds `frame` bytes: the frame is rounded up to the alignment of
/// the type, and the slot follows.
pub open spec fn slot_end(frame: nat, ty: Type) -> nat {
    rounded_up(frame, align_of(ty)) + size_of(ty)
}

/// Whether a local of type `ty` can join `locals`: a value of the type
/// takes at least a byte, so that the local has a slot of its own, and the
/// frame with it can still be rounded up to two words.
pub open spec fn fits_frame(locals: Seq<Local>, ty: Type) -> bool {
    has_size(ty) && size_of(ty) > 0 && slot_end(frame_size(locals), ty) <= max_frame()
}

/// The local that declaring `name` of type `ty` after `locals` makes: its
/// offset below the frame base is where its slot ends, a multiple of the
/// alignment of its type.
pub open spec fn new_local(locals: Seq<Local>, name: Seq<char>, ty: Type) -> Local {
    Local { name, ty, offset: slot_end(frame_size(locals), ty) as usize }
}

/// The declaration of a local, after `let`: a binding.
pub open spec fn g_locl(sc: Scope, ts: Seq<Lexed>, at: int) -> Result<Parsed<Ast>, Fault> {
    match g_bind(ts, at) {
        Ok((name, ty, next)) => if fits_frame(sc.locals, ty) {
            let l = new_local(sc.locals, name, ty);
            Ok(
                Parsed {
                    value: Ast::DeclareLocal { offset: l.offset, ty },
                    scope: Scope { locals: sc.locals.push(l), ..sc },
                    next,
                },
            )
        } else {
            Err(fault(ParseErrorKind::TypeInvalid, ts, next))
        },
        Err(e) => Err(e),
    }
}

/// The body of `if` or `while`: a block in braces, or one statement.
#[verifier::opaque]
pub open spec fn g_body(sc: Scope, ts: Seq<Lexed>, at: int) -> Result<Parsed<Ast>, Fault>
    decreases ts.len() - at, 33int,
{
    if is_op_at(ts, at, "{"@) {
        g_blk(sc, ts, at + 1, Seq::empty())
    } else {
        g_stmt(sc, ts, at)
    }
}

/// A conditional, after `if`: a condition, a body, and where `else` follows,
/// the body for the other case.
#[verifier::opaque]
pub open spec fn g_ifel(sc: Scope, ts: Seq<Lexed>, at: int) -> Result<Parsed<Ast>, Fault>
    decreases ts.len() - at, 34int,
{
    match advanced(g_expr(sc, ts, at), at, ts.len()) {
        Ok(c) => match advanced(g_body(c.scope, ts, c.next), c.next, ts.len()) {
            Ok(i) => if is_rsv_at(ts, i.next, "else"@) {
                match g_body(i.scope, ts, i.next + 1) {
                    Ok(e) => Ok(
                        Parsed {
                            value: Ast::IfElse {
                                cond: Box::new(c.value),
                                ibody: Box::new(i.value),
                                ebody: Box::new(e.value),
                            },
                            scope: e.scope,
                            next: e.next,
                        },
                    ),
                    Err(e) => Err(e),
                }
            } else {
                Ok(
                    Parsed {
                        value: Ast::If { cond: Box::new(c.value), ibody: Box::new(i.value) },
                        scope: i.scope,
                        next: i.next,
                    },
                )
            },
            Err(e) => Err(e),
        },
        Err(e) => Err(e),
    }
}

/// A loop, after `while`: a condition and a body.
#[verifier::opaque]
pub open spec fn g_whl(sc: Scope, ts: Seq<Lexed>, at: int) -> Result<Parsed<Ast>, Fault>
    decreases ts.len() - at, 34int,
{
    match advanced(g_expr(sc, ts, at), at, ts.len()) {
        Ok(c) => match g_body(c.scope, ts, c.next) {
            Ok(b) => Ok(
                Parsed {
                    value: Ast::While { cond: Box::new(c.value), body: Box::new(b.value) },
                    scope: b.scope,
                    next: b.next,
                },
            ),
            Err(e) => Err(e),
        },
        Err(e) => Err(e),
    }
}

/// A statement: a conditional, a loop, or a declaration, a `return` or an
/// expression closed by `;`. A `return` carries the return type of the
/// function that it stands in.
#[verifier::opaque]
pub open spec fn g_stmt(sc: Scope, ts: Seq<Lexed>, at: int) -> Result<Parsed<Ast>, Fault>
    decreases ts.len() - at, 30int,
{
    if is_rsv_at(ts, at, "if"@) {
        g_ifel(sc, ts, at + 1)
    } else if is_rsv_at(ts, at, "while"@) {
        g_whl(sc, ts, at + 1)
    } else if is_rsv_at(ts, at, "let"@) {
        match g_locl(sc, ts, at + 1) {
            Ok(p) => closed(p, ts),
            Err(e) => Err(e),
        }
    } else if is_rsv_at(ts, at, "return"@) {
        match g_expr(sc, ts, at + 1) {
            Ok(p) => closed(
                Parsed {
                    value: Ast::Return { rhs: Box::new(p.value), ty: p.scope.cur_type },
                    scope: p.scope,
                    next: p.next,
                },
                ts,
            ),
            Err(e) => Err(e),
        }
    } else {
        match g_expr(sc, ts, at) {
            Ok(p) => closed(p, ts),
            Err(e) => Err(e),
        }
    }
}

/// A block, after its `{`: statements up to the `}`. `done` holds the
/// statements read so far.
#[verifier::opaque]
pub open spec fn g_blk(sc: Scope, ts: Seq<Lexed>, at: int, done: Seq<Ast>) -> Result<
    Parsed<Ast>,
    Fault,
>
    decreases ts.len() - at, 31int,
{
    if is_op_at(ts, at, "}"@) {
        Ok(Parsed { value: Ast::Block { nodes: done }, scope: sc, next: at + 1 })
    } else {
        match advanced(g_stmt(sc, ts, at), at, ts.len()) {
            Ok(p) => g_blk(p.scope, ts, p.next, done.push(p.value)),
            Err(e) => Err(e),
        }
    }
}


/// A type ends after the token at which it starts, within the stream.
pub proof fn lemma_typ_advances(ts: Seq<Lexed>, at: int)
    ensures
        g_typ(ts, at) matches Ok((_, next)) ==> at < next <= ts.len(),
    decreases ts.len() - at,
{
    if is_op_at(ts, at, "&"@) || is_op_at(ts, at, "["@) {
        lemma_typ_advances(ts, at + 1);
    }
}

/// A binding ends after the token at which it starts, within the stream.
pub proof fn lemma_bind_advances(ts: Seq<Lexed>, at: int)
    ensures
        g_bind(ts, at) matches Ok((_, _, next)) ==> at < next <= ts.len(),
{
    lemma_typ_advances(ts, at + 2);
}

/// The use of a variable ends at or after the token at which it starts,
/// within the stream when it starts there.
pub proof fn lemma_var_advances(sc: Scope, ts: Seq<Lexed>, at: int, name: Seq<char>)
    ensures
        g_var(sc, ts, at, name) matches Ok((_, next)) ==> at <= next && (at <= ts.len() ==> next
            <= ts.len()),
{
}

/// The parameters of a function, after its `(`: bindings up to the `)`,
/// each of which a `,` may follow. Each parameter is a local of the
/// function; its node is the use of the variable of its name. `done` holds
/// the nodes of the parameters read so far.
#[verifier::opaque]
pub open spec fn g_params(sc: Scope, ts: Seq<Lexed>, at: int, done: Seq<Ast>) -> Result<
    Parsed<Seq<Ast>>,
    Fault,
>
    decreases ts.len() - at,
{
    if is_op_at(ts, at, ")"@) {
        Ok(Parsed { value: done, scope: sc, next: at + 1 })
    } else {
        match g_bind(ts, at) {
            Ok((name, ty, named)) => if fits_frame(sc.locals, ty) {
                let declared = Scope {
                    locals: sc.locals.push(new_local(sc.locals, name, ty)),
                    ..sc
                };
                match g_var(declared, ts, named, name) {
                    Ok((node, used)) => {
                        proof {
                            lemma_bind_advances(ts, at);
                            lemma_var_advances(declared, ts, named, name);
                        }
                        g_params(
                            declared,
                            ts,
                            if is_op_at(ts, used, ","@) {
                                used + 1
                            } else {
                                used
                            },
                            done.push(node),
                        )
                    },
                    Err(e) => Err(e),
                }
            } else {
                Err(fault(ParseErrorKind::TypeInvalid, ts, named))
            },
            Err(e) => Err(e),
        }
    }
}

/// The return type of a function: the type after `->`, or `i8` where no
/// `->` stands at `at`.
pub open spec fn g_return_type(ts: Seq<Lexed>, at: int) -> Result<(Type, int), Fault> {
    if is_op_at(ts, at, "->"@) {
        g_typ(ts, at + 1)
    } else {
        Ok((Type::Int8, at))
    }
}

/// A function, after `fn`: its name, its parameters in parentheses, its
/// return type and its block. The function is known by its name from its
/// block on. Its frame is what the slots of its locals take, the padding
/// before them included, rounded up to two words; its locals end with it.
#[verifier::opaque]
pub open spec fn g_func(sc: Scope, ts: Seq<Lexed>, at: int) -> Result<Parsed<Ast>, Fault> {
    match kind_at(ts, at) {
        Lexeme::Idt(name) => if is_op_at(ts, at + 1, "("@) {
            match g_params(sc, ts, at + 2, Seq::empty()) {
                Ok(ps) => match g_return_type(ts, ps.next) {
                    Ok((ty, typed)) => if is_op_at(ts, typed, "{"@) {
                        let inside = Scope {
                            cur_type: ty,
                            funcs: ps.scope.funcs.push(Signature { name, ty }),
                            ..ps.scope
                        };
                        match g_blk(inside, ts, typed + 1, Seq::empty()) {
                            Ok(b) => Ok(
                                Parsed {
                                    value: Ast::Function {
                                        name,
                                        args: ps.value,
                                        stack: aligned(frame_size(b.scope.locals)) as usize,
                                        block: Box::new(b.value),
                                    },
                                    scope: Scope { locals: Seq::empty(), ..b.scope },
                                    next: b.next,
                                },
                            ),
                            Err(e) => Err(e),
                        }
                    } else {
                        Err(fault(ParseErrorKind::BlockExpected, ts, typed))
                    },
                    Err(e) => Err(e),
                },
                Err(e) => Err(e),
            }
        } else {
            Err(fault(ParseErrorKind::ArgExpected, ts, at + 1))
        },
        _ => Err(fault(ParseErrorKind::FuncExpected, ts, at)),
    }
}

/// The declaration of a global, after `static`: a binding of a type that
/// has a size.
pub open spec fn g_glbl(sc: Scope, ts: Seq<Lexed>, at: int) -> Result<Parsed<Ast>, Fault> {
    match g_bind(ts, at) {
        Ok((name, ty, next)) => if has_size(ty) {
            Ok(
                Parsed {
                    value: Ast::DeclareGlobal { name, size: size_of(ty) as usize, ty },
                    scope: Scope { globals: sc.globals.push(Global { name, ty }), ..sc },
                    next,
                },
            )
        } else {
            Err(fault(ParseErrorKind::TypeInvalid, ts, next))
        },
        Err(e) => Err(e),
    }
}

/// A declaration of the top level: a function, or a global closed by `;`.
pub open spec fn g_top(sc: Scope, ts: Seq<Lexed>, at: int) -> Result<Parsed<Ast>, Fault> {
    if is_rsv_at(ts, at, "fn"@) {
        g_func(sc, ts, at + 1)
    } else if is_rsv_at(ts, at, "static"@) {
        match g_glbl(sc, ts, at + 1) {
            Ok(p) => closed(p, ts),
            Err(e) => Err(e),
        }
    } else {
        Err(fault(ParseErrorKind::NotInTop, ts, at))
    }
}

/// A program: declarations of the top level up to the end token. `done`
/// holds the declarations read so far.
#[verifier::opaque]
pub open spec fn g_program(sc: Scope, ts: Seq<Lexed>, at: int, done: Seq<Ast>) -> Result<
    Parsed<Seq<Ast>>,
    Fault,
>
    decreases ts.len() - at,
{
    if kind_at(ts, at) is End {
        Ok(Parsed { value: done, scope: sc, next: at })
    } else {
        match advanced(g_top(sc, ts, at), at, ts.len()) {
            Ok(p) => g_program(p.scope, ts, p.next, done.push(p.value)),
            Err(e) => Err(e),
        }
    }
}


/// The frame of a function is laid out well when every local takes at
/// least a byte, the slot of each ends where the frame ended once it was
/// declared, and the whole can be rounded up to two words.
pub open spec fn frame_wf(locals: Seq<Local>) -> bool {
    &&& frame_size(locals) <= max_frame()
    &&& forall|i: int|
        0 <= i < locals.len() ==> has_size(#[trigger] locals[i].ty) && size_of(locals[i].ty) > 0
            && locals[i].offset == frame_size(locals.subrange(0, i + 1))
}

/// The frame grows with every local: the locals up to `upto` take no more
/// than all of them, and local `upto` adds its slot.
pub proof fn lemma_frame_prefix(locals: Seq<Local>, upto: int)
    requires
        0 <= upto <= locals.len(),
    ensures
        frame_size(locals.subrange(0, upto)) <= frame_size(locals),
        upto < locals.len() ==> frame_size(locals.subrange(0, upto + 1)) == slot_end(
            frame_size(locals.subrange(0, upto)),
            locals[upto].ty,
        ),
    decreases locals.len() - upto,
{
    if upto == locals.len() {
        assert(locals.subrange(0, upto) =~= locals);
    } else {
        let longer = locals.subrange(0, upto + 1);
        assert(longer.drop_last() =~= locals.subrange(0, upto));
        assert(longer.last() == locals[upto]);
        lemma_size_aligned(locals[upto].ty);
        lemma_rounded_up(frame_size(locals.subrange(0, upto)), align_of(locals[upto].ty));
        lemma_frame_prefix(locals, upto + 1);
    }
}

/// Declaring a local that fits keeps the frame laid out well.
pub proof fn lemma_frame_push(locals: Seq<Local>, name: Seq<char>, ty: Type)
    requires
        frame_wf(locals),
        fits_frame(locals, ty),
    ensures
        frame_wf(locals.push(new_local(locals, name, ty))),
        frame_size(locals.push(new_local(locals, name, ty))) == slot_end(frame_size(locals), ty),
{
    let l = new_local(locals, name, ty);
    let grown = locals.push(l);
    assert(grown.drop_last() =~= locals);
    assert forall|i: int| 0 <= i < grown.len() implies has_size(#[trigger] grown[i].ty)
        && size_of(grown[i].ty) > 0 && grown[i].offset == frame_size(
        grown.subrange(0, i + 1),
    ) by {
        if i < locals.len() {
            assert(grown[i] == locals[i]);
            assert(has_size(locals[i].ty));
            assert(grown.subrange(0, i + 1) =~= locals.subrange(0, i + 1));
        } else {
            assert(grown.subrange(0, i + 1) =~= grown);
        }
    }
}

} // verus!
