//! Laws of the grammar, of the layout of frames and of the numbering of
//! labels, proved for all token streams, declarations and trees.

use vstd::prelude::*;
use crate::ast::{labels_in, labels_in_all, lemma_labels_push, Ast, BinaryOpKind};
use crate::grammar::{
    advanced, binary, closed, find_global, find_local, fits_frame, frame_size, frame_wf, g_args, g_assign,
    g_bind, g_blk, g_body, g_expr, g_func, g_ifel, g_infix, g_infix_rest, g_locl, g_operand,
    g_params, g_primary, g_program, g_return_type, g_semicolon, g_stmt, g_top, g_unary, g_var, g_whl, infix_at,
    infix_node, lemma_bind_advances, lemma_frame_prefix, lemma_frame_push, lemma_infix_labels,
    lemma_typ_advances, lemma_var_advances, local_element, new_local, Fault, Global, Infix, Level,
    Local, Parsed, Scope,
};
use crate::listing::{code_lval, code_node, lval_type_of, text, then, while_code};
use crate::parse::ParseErrorKind;
use crate::token::{is_op_at, is_rsv_at, kind_at, pos_at, Lexed, Lexeme};
use crate::types::{align_of, has_size, lemma_rounded_up, lemma_size_aligned, size_of, Type};

verus! {

/// `a > b` is `b < a`, and `a >= b` is `b <= a`: the tree of the one is the
/// tree of the other, and so is the code written for it.
pub proof fn lemma_comparison_symmetry(a: Ast, b: Ast)
    ensures
        infix_node(Infix::Greater, a, b) == infix_node(Infix::Less, b, a),
        infix_node(Infix::GreaterEq, a, b) == infix_node(Infix::LessEq, b, a),
{
}

/// What is parsed and not closed by a `;` is refused with a fault that
/// points at the token that stands where the `;` should, and that token is
/// not read.
pub proof fn lemma_missing_semicolon(p: Parsed<Ast>, ts: Seq<Lexed>)
    requires
        !is_op_at(ts, p.next, ";"@),
    ensures
        closed(p, ts) == Err::<Parsed<Ast>, Fault>(
            Fault { kind: ParseErrorKind::ScolonExpected, pos: pos_at(ts, p.next), at: p.next },
        ),
{
}

/// Whether `after` holds the declarations of `before` and at most more
/// string literals: what an expression leaves of the declarations.
pub open spec fn kept_by_expr(before: Scope, after: Scope) -> bool {
    &&& after.locals == before.locals
    &&& after.globals == before.globals
    &&& after.funcs == before.funcs
    &&& after.cur_type == before.cur_type
    &&& before.literals.is_prefix_of(after.literals)
}

/// Whether `after` holds the declarations of `before` and at most more
/// locals and string literals, with the frame still laid out well where it
/// was: what a statement leaves of the declarations.
pub open spec fn kept_by_stmt(before: Scope, after: Scope) -> bool {
    &&& before.locals.is_prefix_of(after.locals)
    &&& frame_wf(before.locals) ==> frame_wf(after.locals)
    &&& after.globals == before.globals
    &&& after.funcs == before.funcs
    &&& after.cur_type == before.cur_type
    &&& before.literals.is_prefix_of(after.literals)
}

/// What holds of every parse of an expression: it ends after the token at
/// which it starts, within the stream; it declares nothing but string
/// literals; its tree holds no conditional and no loop.
pub open spec fn expr_law(sc: Scope, ts: Seq<Lexed>, at: int, r: Result<Parsed<Ast>, Fault>) -> bool {
    r matches Ok(p) ==> at < p.next <= ts.len() && kept_by_expr(sc, p.scope) && labels_in(p.value)
        == 0
}

/// What holds of every parse of a statement: it ends after the token at
/// which it starts, within the stream; it declares nothing but locals and
/// string literals; its tree holds no more conditionals and loops than it
/// has tokens.
pub open spec fn stmt_law(sc: Scope, ts: Seq<Lexed>, at: int, r: Result<Parsed<Ast>, Fault>) -> bool {
    r matches Ok(p) ==> at < p.next <= ts.len() && kept_by_stmt(sc, p.scope) && labels_in(p.value)
        <= p.next - at
}

/// A sequence that starts another that starts a third starts the third.
pub proof fn lemma_prefix_chain<T>(a: Seq<T>, b: Seq<T>, c: Seq<T>)
    requires
        a.is_prefix_of(b),
        b.is_prefix_of(c),
    ensures
        a.is_prefix_of(c),
{
    assert(c.subrange(0, a.len() as int) =~= b.subrange(0, a.len() as int));
}

/// A sequence starts itself, and itself with one more.
pub proof fn lemma_prefix_push<T>(a: Seq<T>, x: T)
    ensures
        a.is_prefix_of(a),
        a.is_prefix_of(a.push(x)),
{
    assert(a.subrange(0, a.len() as int) =~= a);
    assert(a.push(x).subrange(0, a.len() as int) =~= a);
}

/// The law of expressions, for a primary expression.
pub proof fn lemma_primary(sc: Scope, ts: Seq<Lexed>, at: int)
    ensures
        expr_law(sc, ts, at, g_primary(sc, ts, at)),
    decreases ts.len() - at, 0int,
{
    reveal_with_fuel(g_primary, 1);
    reveal_with_fuel(g_args, 1);
    reveal_with_fuel(g_expr, 1);
    lemma_prefix_push(sc.literals, Seq::<char>::empty());
    match kind_at(ts, at) {
        Lexeme::Str(s) => {
            lemma_prefix_push(sc.literals, s);
        },
        Lexeme::Idt(name) => {
            if is_op_at(ts, at + 1, "("@) {
                lemma_args(sc, ts, at + 2, Seq::empty());
                assert(labels_in_all(Seq::<Ast>::empty()) == 0);
            } else {
                lemma_var_advances(sc, ts, at + 1, name);
            }
        },
        Lexeme::Num(_) => {},
        _ => {
            if is_op_at(ts, at, "("@) {
                lemma_expr(sc, ts, at + 1);
            }
        },
    }
}

/// The law of expressions, for the arguments of a call: they end after the
/// token at which they start, and add trees without conditionals and loops
/// to those read before.
pub proof fn lemma_args(sc: Scope, ts: Seq<Lexed>, at: int, done: Seq<Ast>)
    ensures
        g_args(sc, ts, at, done) matches Ok(p) ==> at < p.next <= ts.len() && kept_by_expr(
            sc,
            p.scope,
        ) && labels_in_all(p.value) == labels_in_all(done),
    decreases ts.len() - at, 40int,
{
    reveal_with_fuel(g_args, 1);
    reveal_with_fuel(g_expr, 1);
    lemma_prefix_push(sc.literals, Seq::<char>::empty());
    if !is_op_at(ts, at, ")"@) {
        lemma_expr(sc, ts, at);
        match advanced(g_expr(sc, ts, at), at, ts.len()) {
            Ok(p) => {
                let next = if is_op_at(ts, p.next, ","@) {
                    p.next + 1
                } else {
                    p.next
                };
                lemma_args(p.scope, ts, next, done.push(p.value));
                lemma_labels_push(done, p.value);
                match g_args(p.scope, ts, next, done.push(p.value)) {
                    Ok(q) => {
                        lemma_prefix_chain(sc.literals, p.scope.literals, q.scope.literals);
                    },
                    Err(_) => {},
                }
            },
            Err(_) => {},
        }
    }
}

/// The law of expressions, for a unary expression.
pub proof fn lemma_unary(sc: Scope, ts: Seq<Lexed>, at: int)
    ensures
        expr_law(sc, ts, at, g_unary(sc, ts, at)),
    decreases ts.len() - at, 1int,
{
    reveal_with_fuel(g_unary, 1);
    reveal_with_fuel(g_primary, 1);
    if is_op_at(ts, at, "&"@) || is_op_at(ts, at, "*"@) {
        lemma_unary(sc, ts, at + 1);
    } else if is_op_at(ts, at, "-"@) {
        lemma_primary(sc, ts, at + 1);
        assert(labels_in(Ast::Number { val: 0 }) == 0);
    } else {
        lemma_primary(sc, ts, at);
    }
}

/// The law of expressions, for an operand of precedence `level`.
pub proof fn lemma_operand(level: Level, sc: Scope, ts: Seq<Lexed>, at: int)
    ensures
        expr_law(sc, ts, at, g_operand(level, sc, ts, at)),
    decreases ts.len() - at, 2 * crate::grammar::rank(level) + 2,
{
    reveal_with_fuel(g_operand, 1);
    reveal_with_fuel(g_unary, 1);
    reveal_with_fuel(g_infix, 1);
    match level {
        Level::Multiplicative => lemma_unary(sc, ts, at),
        Level::Additive => lemma_infix(Level::Multiplicative, sc, ts, at),
        Level::Relational => lemma_infix(Level::Additive, sc, ts, at),
        Level::Equality => lemma_infix(Level::Relational, sc, ts, at),
    }
}

/// The law of expressions, for an expression of precedence `level`.
pub proof fn lemma_infix(level: Level, sc: Scope, ts: Seq<Lexed>, at: int)
    ensures
        expr_law(sc, ts, at, g_infix(level, sc, ts, at)),
    decreases ts.len() - at, 2 * crate::grammar::rank(level) + 3,
{
    reveal_with_fuel(g_infix, 1);
    reveal_with_fuel(g_infix_rest, 1);
    reveal_with_fuel(g_operand, 1);
    lemma_operand(level, sc, ts, at);
    match advanced(g_operand(level, sc, ts, at), at, ts.len()) {
        Ok(p) => {
            lemma_infix_rest(level, p.scope, ts, p.next, p.value);
            match g_infix_rest(level, p.scope, ts, p.next, p.value) {
                Ok(q) => {
                    lemma_prefix_chain(sc.literals, p.scope.literals, q.scope.literals);
                },
                Err(_) => {},
            }
        },
        Err(_) => {},
    }
}

/// The law of expressions, for what follows the operand `left`: it ends at
/// or after the token at which it starts.
pub proof fn lemma_infix_rest(level: Level, sc: Scope, ts: Seq<Lexed>, at: int, left: Ast)
    requires
        at <= ts.len(),
        labels_in(left) == 0,
    ensures
        g_infix_rest(level, sc, ts, at, left) matches Ok(p) ==> at <= p.next <= ts.len()
            && kept_by_expr(sc, p.scope) && labels_in(p.value) == 0,
    decreases ts.len() - at, 2 * crate::grammar::rank(level) + 3,
{
    reveal_with_fuel(g_infix_rest, 1);
    reveal_with_fuel(g_operand, 1);
    lemma_prefix_push(sc.literals, Seq::<char>::empty());
    match infix_at(level, ts, at) {
        Some(op) => {
            lemma_operand(level, sc, ts, at + 1);
            match advanced(g_operand(level, sc, ts, at + 1), at, ts.len()) {
                Ok(p) => {
                    lemma_infix_labels(op, left, p.value);
                    lemma_infix_rest(level, p.scope, ts, p.next, infix_node(op, left, p.value));
                    match g_infix_rest(level, p.scope, ts, p.next, infix_node(op, left, p.value)) {
                        Ok(q) => {
                            lemma_prefix_chain(sc.literals, p.scope.literals, q.scope.literals);
                        },
                        Err(_) => {},
                    }
                },
                Err(_) => {},
            }
        },
        None => {},
    }
}

/// The law of expressions, for an assignment.
pub proof fn lemma_assign(sc: Scope, ts: Seq<Lexed>, at: int)
    ensures
        expr_law(sc, ts, at, g_assign(sc, ts, at)),
    decreases ts.len() - at, 20int,
{
    reveal_with_fuel(g_assign, 1);
    reveal_with_fuel(g_infix, 1);
    lemma_infix(Level::Equality, sc, ts, at);
    match advanced(g_infix(Level::Equality, sc, ts, at), at, ts.len()) {
        Ok(p) => {
            if is_op_at(ts, p.next, "="@) {
                lemma_assign(p.scope, ts, p.next + 1);
                match g_assign(p.scope, ts, p.next + 1) {
                    Ok(q) => {
                        lemma_prefix_chain(sc.literals, p.scope.literals, q.scope.literals);
                    },
                    Err(_) => {},
                }
            }
        },
        Err(_) => {},
    }
}

/// The law of expressions: an expression ends after the token at which it
/// starts, within the stream; it declares nothing but string literals; its
/// tree holds no conditional and no loop.
pub proof fn lemma_expr(sc: Scope, ts: Seq<Lexed>, at: int)
    ensures
        expr_law(sc, ts, at, g_expr(sc, ts, at)),
    decreases ts.len() - at, 21int,
{
    reveal_with_fuel(g_expr, 1);
    reveal_with_fuel(g_assign, 1);
    lemma_assign(sc, ts, at);
}


/// What an expression leaves of the declarations, a statement may leave.
pub proof fn lemma_expr_kept_is_stmt_kept(before: Scope, after: Scope)
    requires
        kept_by_expr(before, after),
    ensures
        kept_by_stmt(before, after),
{
    assert(before.locals.subrange(0, before.locals.len() as int) =~= before.locals);
}

/// What one statement leaves, and another after it, the two leave.
pub proof fn lemma_stmt_kept_chain(a: Scope, b: Scope, c: Scope)
    requires
        kept_by_stmt(a, b),
        kept_by_stmt(b, c),
    ensures
        kept_by_stmt(a, c),
{
    lemma_prefix_chain(a.locals, b.locals, c.locals);
    lemma_prefix_chain(a.literals, b.literals, c.literals);
}

/// The law of statements, for the declaration of a local.
pub proof fn lemma_locl(sc: Scope, ts: Seq<Lexed>, at: int)
    ensures
        stmt_law(sc, ts, at, g_locl(sc, ts, at)),
{
    lemma_bind_advances(ts, at);
    match g_bind(ts, at) {
        Ok((name, ty, next)) => {
            lemma_prefix_push(sc.locals, new_local(sc.locals, name, ty));
            lemma_prefix_push(sc.literals, Seq::<char>::empty());
            if frame_wf(sc.locals) && fits_frame(sc.locals, ty) {
                lemma_frame_push(sc.locals, name, ty);
            }
        },
        Err(_) => {},
    }
}

/// The law of statements, for the body of `if` or `while`.
pub proof fn lemma_body(sc: Scope, ts: Seq<Lexed>, at: int)
    ensures
        stmt_law(sc, ts, at, g_body(sc, ts, at)),
    decreases ts.len() - at, 33int,
{
    reveal_with_fuel(g_body, 1);
    reveal_with_fuel(g_blk, 1);
    reveal_with_fuel(g_stmt, 1);
    if is_op_at(ts, at, "{"@) {
        lemma_blk(sc, ts, at + 1, Seq::empty());
        assert(labels_in_all(Seq::<Ast>::empty()) == 0);
    } else {
        lemma_stmt(sc, ts, at);
    }
}

/// The law of statements, for a conditional after its `if`.
pub proof fn lemma_ifel(sc: Scope, ts: Seq<Lexed>, at: int)
    ensures
        stmt_law(sc, ts, at, g_ifel(sc, ts, at)),
    decreases ts.len() - at, 34int,
{
    reveal_with_fuel(g_ifel, 1);
    reveal_with_fuel(g_body, 1);
    lemma_expr(sc, ts, at);
    match advanced(g_expr(sc, ts, at), at, ts.len()) {
        Ok(c) => {
            lemma_expr_kept_is_stmt_kept(sc, c.scope);
            lemma_body(c.scope, ts, c.next);
            match advanced(g_body(c.scope, ts, c.next), c.next, ts.len()) {
                Ok(i) => {
                    lemma_stmt_kept_chain(sc, c.scope, i.scope);
                    if is_rsv_at(ts, i.next, "else"@) {
                        lemma_body(i.scope, ts, i.next + 1);
                        match g_body(i.scope, ts, i.next + 1) {
                            Ok(e) => {
                                lemma_stmt_kept_chain(sc, i.scope, e.scope);
                            },
                            Err(_) => {},
                        }
                    }
                },
                Err(_) => {},
            }
        },
        Err(_) => {},
    }
}

/// The law of statements, for a loop after its `while`.
pub proof fn lemma_whl(sc: Scope, ts: Seq<Lexed>, at: int)
    ensures
        stmt_law(sc, ts, at, g_whl(sc, ts, at)),
    decreases ts.len() - at, 34int,
{
    reveal_with_fuel(g_whl, 1);
    reveal_with_fuel(g_body, 1);
    lemma_expr(sc, ts, at);
    match advanced(g_expr(sc, ts, at), at, ts.len()) {
        Ok(c) => {
            lemma_expr_kept_is_stmt_kept(sc, c.scope);
            lemma_body(c.scope, ts, c.next);
            match g_body(c.scope, ts, c.next) {
                Ok(b) => {
                    lemma_stmt_kept_chain(sc, c.scope, b.scope);
                },
                Err(_) => {},
            }
        },
        Err(_) => {},
    }
}

/// The law of statements: a statement ends after the token at which it
/// starts, within the stream; it declares nothing but locals and string
/// literals; its tree holds no more conditionals and loops than it has
/// tokens.
pub proof fn lemma_stmt(sc: Scope, ts: Seq<Lexed>, at: int)
    ensures
        stmt_law(sc, ts, at, g_stmt(sc, ts, at)),
    decreases ts.len() - at, 30int,
{
    reveal_with_fuel(g_stmt, 1);
    reveal_with_fuel(g_ifel, 1);
    reveal_with_fuel(g_whl, 1);
    if is_rsv_at(ts, at, "if"@) {
        lemma_ifel(sc, ts, at + 1);
    } else if is_rsv_at(ts, at, "while"@) {
        lemma_whl(sc, ts, at + 1);
    } else if is_rsv_at(ts, at, "let"@) {
        lemma_locl(sc, ts, at + 1);
    } else if is_rsv_at(ts, at, "return"@) {
        lemma_expr(sc, ts, at + 1);
        match g_expr(sc, ts, at + 1) {
            Ok(p) => {
                lemma_expr_kept_is_stmt_kept(sc, p.scope);
            },
            Err(_) => {},
        }
    } else {
        lemma_expr(sc, ts, at);
        match g_expr(sc, ts, at) {
            Ok(p) => {
                lemma_expr_kept_is_stmt_kept(sc, p.scope);
            },
            Err(_) => {},
        }
    }
}

/// The law of statements, for a block after its `{`: it ends after the
/// token at which it starts, and is a block of the statements read before
/// and more, which hold no more conditionals and loops than they have
/// tokens.
pub proof fn lemma_blk(sc: Scope, ts: Seq<Lexed>, at: int, done: Seq<Ast>)
    ensures
        g_blk(sc, ts, at, done) matches Ok(p) ==> at < p.next <= ts.len() && kept_by_stmt(
            sc,
            p.scope,
        ) && labels_in(p.value) + 1 <= labels_in_all(done) + (p.next - at),
    decreases ts.len() - at, 31int,
{
    reveal_with_fuel(g_blk, 1);
    reveal_with_fuel(g_stmt, 1);
    lemma_prefix_push(sc.locals, new_local(sc.locals, Seq::empty(), Type::Int8));
    lemma_prefix_push(sc.literals, Seq::<char>::empty());
    if !is_op_at(ts, at, "}"@) {
        lemma_stmt(sc, ts, at);
        match advanced(g_stmt(sc, ts, at), at, ts.len()) {
            Ok(p) => {
                lemma_blk(p.scope, ts, p.next, done.push(p.value));
                lemma_labels_push(done, p.value);
                match g_blk(p.scope, ts, p.next, done.push(p.value)) {
                    Ok(q) => {
                        lemma_stmt_kept_chain(sc, p.scope, q.scope);
                    },
                    Err(_) => {},
                }
            },
            Err(_) => {},
        }
    }
}

/// The law of the parameters of a function: they end after the token at
/// which they start, declare nothing but locals, and add trees without
/// conditionals and loops to those read before.
pub proof fn lemma_params(sc: Scope, ts: Seq<Lexed>, at: int, done: Seq<Ast>)
    ensures
        g_params(sc, ts, at, done) matches Ok(p) ==> at < p.next <= ts.len() && kept_by_stmt(
            sc,
            p.scope,
        ) && labels_in_all(p.value) == labels_in_all(done),
    decreases ts.len() - at,
{
    reveal_with_fuel(g_params, 1);
    lemma_prefix_push(sc.locals, new_local(sc.locals, Seq::empty(), Type::Int8));
    lemma_prefix_push(sc.literals, Seq::<char>::empty());
    if !is_op_at(ts, at, ")"@) {
        lemma_bind_advances(ts, at);
        match g_bind(ts, at) {
            Ok((name, ty, named)) => {
                if fits_frame(sc.locals, ty) {
                    let declared = Scope {
                        locals: sc.locals.push(new_local(sc.locals, name, ty)),
                        ..sc
                    };
                    lemma_prefix_push(sc.locals, new_local(sc.locals, name, ty));
                    if frame_wf(sc.locals) {
                        lemma_frame_push(sc.locals, name, ty);
                    }
                    lemma_var_advances(declared, ts, named, name);
                    match g_var(declared, ts, named, name) {
                        Ok((node, used)) => {
                            let next = if is_op_at(ts, used, ","@) {
                                used + 1
                            } else {
                                used
                            };
                            lemma_params(declared, ts, next, done.push(node));
                            lemma_labels_push(done, node);
                            match g_params(declared, ts, next, done.push(node)) {
                                Ok(q) => {
                                    lemma_stmt_kept_chain(sc, declared, q.scope);
                                },
                                Err(_) => {},
                            }
                        },
                        Err(_) => {},
                    }
                }
            },
            Err(_) => {},
        }
    }
}

/// Whether `after` holds what a declaration of the top level may leave of
/// `before`: the globals, the functions and the string literals of before,
/// and at most more of each; and no locals where there were none.
pub open spec fn kept_by_top(before: Scope, after: Scope) -> bool {
    &&& before.globals.is_prefix_of(after.globals)
    &&& before.funcs.is_prefix_of(after.funcs)
    &&& before.literals.is_prefix_of(after.literals)
    &&& before.locals.len() == 0 ==> after.locals.len() == 0
}

/// Whether `ast` is a declaration of the top level: a function or a global.
pub open spec fn is_declaration(ast: Ast) -> bool {
    ast is Function || ast is DeclareGlobal
}

/// The law of functions: a function ends after the token at which it
/// starts; it leaves no locals behind and declares no global; it is known
/// after it; its tree holds no more conditionals and loops than it has
/// tokens; its frame, what the slots of its locals take rounded up, is a
/// multiple of 16 bytes.
pub proof fn lemma_func(sc: Scope, ts: Seq<Lexed>, at: int)
    ensures
        g_func(sc, ts, at) matches Ok(p) ==> {
            &&& at < p.next <= ts.len()
            &&& p.scope.locals == Seq::<Local>::empty()
            &&& p.scope.globals == sc.globals
            &&& p.scope.funcs.len() == sc.funcs.len() + 1
            &&& kept_by_top(sc, p.scope)
            &&& labels_in(p.value) <= p.next - at
            &&& p.value is Function
            &&& frame_wf(sc.locals) ==> (p.value matches Ast::Function { stack, .. } && stack
                % 16 == 0)
        },
{
    reveal_with_fuel(g_func, 1);
    match kind_at(ts, at) {
        Lexeme::Idt(name) => {
            if is_op_at(ts, at + 1, "("@) {
                lemma_params(sc, ts, at + 2, Seq::empty());
                assert(labels_in_all(Seq::<Ast>::empty()) == 0);
                match g_params(sc, ts, at + 2, Seq::empty()) {
                    Ok(ps) => {
                        lemma_typ_advances(ts, ps.next + 1);
                        match g_return_type(ts, ps.next) {
                            Ok((ty, typed)) => {
                                let sig = crate::grammar::Signature { name, ty };
                                let inside = Scope {
                                    cur_type: ty,
                                    funcs: ps.scope.funcs.push(sig),
                                    ..ps.scope
                                };
                                lemma_prefix_push(sc.funcs, sig);
                                lemma_prefix_push(sc.globals, Global { name, ty });
                                lemma_blk(inside, ts, typed + 1, Seq::empty());
                                match g_blk(inside, ts, typed + 1, Seq::empty()) {
                                    Ok(b) => {
                                        lemma_prefix_chain(
                                            sc.literals,
                                            ps.scope.literals,
                                            b.scope.literals,
                                        );
                                        crate::types::lemma_aligned(frame_size(b.scope.locals));
                                    },
                                    Err(_) => {},
                                }
                            },
                            Err(_) => {},
                        }
                    },
                    Err(_) => {},
                }
            }
        },
        _ => {},
    }
}

/// The law of the top level: a declaration ends after the token at which
/// it starts; it keeps the globals, the functions and the string literals
/// declared before, and leaves no locals where there were none; its tree
/// holds no more conditionals and loops than it has tokens.
pub proof fn lemma_top(sc: Scope, ts: Seq<Lexed>, at: int)
    ensures
        g_top(sc, ts, at) matches Ok(p) ==> at < p.next <= ts.len() && kept_by_top(sc, p.scope)
            && labels_in(p.value) <= p.next - at && is_declaration(p.value),
{
    if is_rsv_at(ts, at, "fn"@) {
        lemma_func(sc, ts, at + 1);
    } else if is_rsv_at(ts, at, "static"@) {
        lemma_bind_advances(ts, at + 1);
        match g_bind(ts, at + 1) {
            Ok((name, ty, next)) => {
                lemma_prefix_push(sc.globals, Global { name, ty });
                lemma_prefix_push(sc.funcs, crate::grammar::Signature { name, ty });
                lemma_prefix_push(sc.literals, Seq::<char>::empty());
            },
            Err(_) => {},
        }
    }
}

/// The law of programs: a program ends at the end token; it keeps what was
/// declared before it, and leaves no locals where there were none; its
/// trees are functions and globals, as far as those read before were, and
/// hold no more conditionals and loops than it has tokens.
pub proof fn lemma_program(sc: Scope, ts: Seq<Lexed>, at: int, done: Seq<Ast>)
    ensures
        g_program(sc, ts, at, done) matches Ok(p) ==> at <= p.next && kind_at(ts, p.next) is End
            && kept_by_top(sc, p.scope) && labels_in_all(p.value) <= labels_in_all(done) + (p.next
            - at) && ((forall|i: int| 0 <= i < done.len() ==> is_declaration(#[trigger] done[i]))
            ==> (forall|i: int| 0 <= i < p.value.len() ==> is_declaration(#[trigger] p.value[i]))),
    decreases ts.len() - at,
{
    reveal_with_fuel(g_program, 1);
    lemma_prefix_push(sc.globals, Global { name: Seq::empty(), ty: Type::Int8 });
    lemma_prefix_push(sc.funcs, crate::grammar::Signature { name: Seq::empty(), ty: Type::Int8 });
    lemma_prefix_push(sc.literals, Seq::<char>::empty());
    if !(kind_at(ts, at) is End) {
        lemma_top(sc, ts, at);
        match advanced(g_top(sc, ts, at), at, ts.len()) {
            Ok(p) => {
                lemma_program(p.scope, ts, p.next, done.push(p.value));
                lemma_labels_push(done, p.value);
                match g_program(p.scope, ts, p.next, done.push(p.value)) {
                    Ok(q) => {
                        lemma_prefix_chain(sc.globals, p.scope.globals, q.scope.globals);
                        lemma_prefix_chain(sc.funcs, p.scope.funcs, q.scope.funcs);
                        lemma_prefix_chain(sc.literals, p.scope.literals, q.scope.literals);
                    },
                    Err(_) => {},
                }
            },
            Err(_) => {},
        }
    }
}

/// Every parse moves forward within the stream, so the condition under
/// which the grammar takes a parse up, [`advanced`], leaves every parse as
/// it is.
pub proof fn lemma_parse_advances(level: Level, sc: Scope, ts: Seq<Lexed>, at: int, from: int)
    requires
        from <= at,
    ensures
        advanced(g_expr(sc, ts, at), from, ts.len()) == g_expr(sc, ts, at),
        advanced(g_operand(level, sc, ts, at), from, ts.len()) == g_operand(level, sc, ts, at),
        advanced(g_infix(level, sc, ts, at), from, ts.len()) == g_infix(level, sc, ts, at),
        advanced(g_body(sc, ts, at), from, ts.len()) == g_body(sc, ts, at),
        advanced(g_stmt(sc, ts, at), from, ts.len()) == g_stmt(sc, ts, at),
        advanced(g_top(sc, ts, at), from, ts.len()) == g_top(sc, ts, at),
{
    lemma_expr(sc, ts, at);
    lemma_operand(level, sc, ts, at);
    lemma_infix(level, sc, ts, at);
    lemma_body(sc, ts, at);
    lemma_stmt(sc, ts, at);
    lemma_top(sc, ts, at);
}

/// A function leaves no local behind: the locals of one function are
/// unknown to the next, which lays out its frame from the start.
pub proof fn lemma_scope_isolation(sc: Scope, ts: Seq<Lexed>, at: int)
    ensures
        g_func(sc, ts, at) matches Ok(p) ==> p.scope.locals.len() == 0 && frame_size(
            p.scope.locals,
        ) == 0,
        sc.locals.len() == 0 ==> (g_program(sc, ts, at, Seq::empty()) matches Ok(p)
            ==> p.scope.locals.len() == 0),
{
    lemma_func(sc, ts, at);
    lemma_program(sc, ts, at, Seq::empty());
}

/// A global stays what it is: once `name` is declared, its first
/// declaration is found whatever is declared after it.
pub proof fn lemma_global_persists(before: Seq<Global>, after: Seq<Global>, name: Seq<char>)
    requires
        before.is_prefix_of(after),
        find_global(before, name) is Some,
    ensures
        find_global(after, name) == find_global(before, name),
    decreases before.len(),
{
    if before.len() > 0 {
        assert(after[0] == after.subrange(0, before.len() as int)[0]);
        if before[0].name != name {
            assert(after.drop_first().subrange(0, before.len() - 1) =~= before.drop_first());
            lemma_global_persists(before.drop_first(), after.drop_first(), name);
        }
    }
}

/// The globals declared before a program are found after it as they were:
/// what one function stores in a global, a later one reads from the same
/// place.
pub proof fn lemma_global_persistence(sc: Scope, ts: Seq<Lexed>, at: int, name: Seq<char>)
    requires
        find_global(sc.globals, name) is Some,
    ensures
        g_program(sc, ts, at, Seq::empty()) matches Ok(p) ==> find_global(p.scope.globals, name)
            == find_global(sc.globals, name),
        g_top(sc, ts, at) matches Ok(p) ==> find_global(p.scope.globals, name) == find_global(
            sc.globals,
            name,
        ),
{
    lemma_program(sc, ts, at, Seq::empty());
    lemma_top(sc, ts, at);
    match g_program(sc, ts, at, Seq::empty()) {
        Ok(p) => lemma_global_persists(sc.globals, p.scope.globals, name),
        Err(_) => {},
    }
    match g_top(sc, ts, at) {
        Ok(p) => lemma_global_persists(sc.globals, p.scope.globals, name),
        Err(_) => {},
    }
}


/// In a frame that is laid out well, every local has its slot to itself:
/// the slot of a local ends where it was declared to end, below the frame
/// base by its offset, and the slot of a local declared later lies wholly
/// below it.
pub proof fn lemma_slots_apart(locals: Seq<Local>, i: int, j: int)
    requires
        frame_wf(locals),
        0 <= i < j < locals.len(),
    ensures
        size_of(locals[i].ty) <= locals[i].offset,
        locals[i].offset + size_of(locals[j].ty) <= locals[j].offset,
{
    let upto_j = locals.subrange(0, j);
    lemma_frame_prefix(locals, i);
    lemma_frame_prefix(locals, j);
    lemma_frame_prefix(upto_j, i + 1);
    assert(upto_j.subrange(0, i + 1) =~= locals.subrange(0, i + 1));
    assert(has_size(locals[i].ty));
    assert(has_size(locals[j].ty));
}

/// The elements of a local array lie within its slot and apart from each
/// other: element `j` is found `j` elements above the start of the slot,
/// and a later element lies wholly above an earlier one.
pub proof fn lemma_elements_apart(l: Local, elem: Type, len: usize, i: u32, j: u32)
    requires
        l.ty == Type::Ary(Box::new(elem), len),
        has_size(l.ty),
        size_of(l.ty) <= l.offset,
        i < j < len,
    ensures
        local_element(l, i) == Some(
            Ast::LocalVariable { offset: (l.offset - size_of(elem) * i) as usize, ty: elem },
        ),
        local_element(l, j) == Some(
            Ast::LocalVariable { offset: (l.offset - size_of(elem) * j) as usize, ty: elem },
        ),
        l.offset - size_of(elem) * i <= l.offset,
        l.offset - size_of(elem) * j + size_of(elem) <= l.offset - size_of(elem) * i,
        l.offset - size_of(l.ty) + size_of(elem) <= l.offset - size_of(elem) * j,
{
    let size = size_of(elem) as int;
    assert(size * i + size <= size * j && size * j + size <= size * len && 0 <= size * i) by (nonlinear_arith)
        requires
            0 <= size,
            0 <= i < j < len,
    ;
}

/// The elements of a global array lie within its storage and apart from
/// each other.
pub proof fn lemma_global_elements_apart(g: Global, elem: Type, len: usize, i: u32, j: u32)
    requires
        g.ty == Type::Ary(Box::new(elem), len),
        has_size(g.ty),
        i < j < len,
    ensures
        crate::grammar::global_element(g, i) == Some(
            Ast::GlobalVariable { name: g.name, offset: (size_of(elem) * i) as usize, ty: elem },
        ),
        crate::grammar::global_element(g, j) == Some(
            Ast::GlobalVariable { name: g.name, offset: (size_of(elem) * j) as usize, ty: elem },
        ),
        size_of(elem) * i + size_of(elem) <= size_of(elem) * j,
        size_of(elem) * j + size_of(elem) <= size_of(g.ty),
{
    let size = size_of(elem) as int;
    assert(size * i + size <= size * j && size * j + size <= size * len && 0 <= size * i) by (nonlinear_arith)
        requires
            0 <= size,
            0 <= i < j < len,
    ;
}

/// The numbers that the conditionals and loops of a tree take for their
/// labels, in the order in which the code generator comes to them, where
/// it starts counting at `base`: a conditional or loop takes the next
/// number, and then its parts take theirs, from left to right.
pub open spec fn label_numbers(ast: Ast, base: nat) -> Seq<nat>
    decreases ast, 1int, 0int,
{
    match ast {
        Ast::BinaryOperator { kind, lhs, rhs } => label_numbers(*lhs, base) + label_numbers(
            *rhs,
            base + labels_in(*lhs),
        ),
        Ast::UnaryOperator { kind, rhs } => label_numbers(*rhs, base),
        Ast::Block { nodes } => label_numbers_all(nodes, 0, base),
        Ast::Function { name, args, stack, block } => label_numbers_all(args, 0, base)
            + label_numbers(*block, base + labels_in_all(args)),
        Ast::Call { name, args, ty } => label_numbers_all(args, 0, base),
        Ast::If { cond, ibody } => seq![base] + label_numbers(*cond, base + 1) + label_numbers(
            *ibody,
            base + 1 + labels_in(*cond),
        ),
        Ast::IfElse { cond, ibody, ebody } => seq![base] + label_numbers(*cond, base + 1)
            + label_numbers(*ibody, base + 1 + labels_in(*cond)) + label_numbers(
            *ebody,
            base + 1 + labels_in(*cond) + labels_in(*ibody),
        ),
        Ast::While { cond, body } => seq![base] + label_numbers(*cond, base + 1) + label_numbers(
            *body,
            base + 1 + labels_in(*cond),
        ),
        Ast::Return { rhs, ty } => label_numbers(*rhs, base),
        _ => Seq::empty(),
    }
}

/// The numbers that the conditionals and loops of the nodes of a list take,
/// from node `from` on.
pub open spec fn label_numbers_all(nodes: Seq<Ast>, from: int, base: nat) -> Seq<nat>
    decreases nodes, 0int, nodes.len() - from,
{
    if 0 <= from < nodes.len() {
        label_numbers(nodes[from], base) + label_numbers_all(
            nodes,
            from + 1,
            base + labels_in(nodes[from]),
        )
    } else {
        Seq::empty()
    }
}

/// The `count` numbers from `base` on.
pub open spec fn count_up(base: nat, count: nat) -> Seq<nat> {
    Seq::new(count, |i: int| (base + i) as nat)
}

/// Counting on from where a count ended gives the longer count.
pub proof fn lemma_count_on(base: nat, first: nat, second: nat)
    ensures
        count_up(base, first) + count_up(base + first, second) == count_up(base, first + second),
{
    assert(count_up(base, first) + count_up(base + first, second) =~= count_up(
        base,
        first + second,
    ));
}

/// The conditionals and loops of a list from node `from` on are those of
/// node `from` and those after it.
pub proof fn lemma_labels_from(nodes: Seq<Ast>, from: int)
    requires
        0 <= from < nodes.len(),
    ensures
        labels_in_all(nodes.subrange(from, nodes.len() as int)) == labels_in(nodes[from])
            + labels_in_all(nodes.subrange(from + 1, nodes.len() as int)),
    decreases nodes.len() - from,
{
    let rest = nodes.subrange(from, nodes.len() as int);
    if from + 1 == nodes.len() {
        assert(rest.drop_last() =~= Seq::<Ast>::empty());
        assert(nodes.subrange(from + 1, nodes.len() as int) =~= Seq::<Ast>::empty());
        assert(labels_in_all(Seq::<Ast>::empty()) == 0);
    } else {
        let shorter = nodes.drop_last();
        lemma_labels_from(shorter, from);
        assert(shorter.subrange(from, shorter.len() as int) =~= rest.drop_last());
        assert(shorter.subrange(from + 1, shorter.len() as int) =~= nodes.subrange(
            from + 1,
            nodes.len() as int,
        ).drop_last());
        assert(rest.last() == nodes.last());
        assert(nodes.subrange(from + 1, nodes.len() as int).last() == nodes.last());
    }
}

/// The labels of a tree are numbered without gap and without repeat: its
/// conditionals and loops take the numbers from `base` on, one each.
pub proof fn lemma_label_numbers(ast: Ast, base: nat)
    ensures
        label_numbers(ast, base) == count_up(base, labels_in(ast)),
    decreases ast, 1int, 0int,
{
    match ast {
        Ast::BinaryOperator { kind, lhs, rhs } => {
            lemma_label_numbers(*lhs, base);
            lemma_label_numbers(*rhs, base + labels_in(*lhs));
            lemma_count_on(base, labels_in(*lhs), labels_in(*rhs));
        },
        Ast::UnaryOperator { kind, rhs } => {
            lemma_label_numbers(*rhs, base);
        },
        Ast::Block { nodes } => {
            lemma_label_numbers_all(nodes, 0, base);
            assert(nodes.subrange(0, nodes.len() as int) =~= nodes);
        },
        Ast::Function { name, args, stack, block } => {
            lemma_label_numbers_all(args, 0, base);
            assert(args.subrange(0, args.len() as int) =~= args);
            lemma_label_numbers(*block, base + labels_in_all(args));
            lemma_count_on(base, labels_in_all(args), labels_in(*block));
        },
        Ast::Call { name, args, ty } => {
            lemma_label_numbers_all(args, 0, base);
            assert(args.subrange(0, args.len() as int) =~= args);
        },
        Ast::If { cond, ibody } => {
            lemma_label_numbers(*cond, base + 1);
            lemma_label_numbers(*ibody, base + 1 + labels_in(*cond));
            assert(seq![base] =~= count_up(base, 1));
            lemma_count_on(base, 1, labels_in(*cond));
            lemma_count_on(base, 1 + labels_in(*cond), labels_in(*ibody));
        },
        Ast::IfElse { cond, ibody, ebody } => {
            lemma_label_numbers(*cond, base + 1);
            lemma_label_numbers(*ibody, base + 1 + labels_in(*cond));
            lemma_label_numbers(*ebody, base + 1 + labels_in(*cond) + labels_in(*ibody));
            assert(seq![base] =~= count_up(base, 1));
            lemma_count_on(base, 1, labels_in(*cond));
            lemma_count_on(base, 1 + labels_in(*cond), labels_in(*ibody));
            lemma_count_on(
                base,
                1 + labels_in(*cond) + labels_in(*ibody),
                labels_in(*ebody),
            );
        },
        Ast::While { cond, body } => {
            lemma_label_numbers(*cond, base + 1);
            lemma_label_numbers(*body, base + 1 + labels_in(*cond));
            assert(seq![base] =~= count_up(base, 1));
            lemma_count_on(base, 1, labels_in(*cond));
            lemma_count_on(base, 1 + labels_in(*cond), labels_in(*body));
        },
        Ast::Return { rhs, ty } => {
            lemma_label_numbers(*rhs, base);
        },
        _ => {
            assert(label_numbers(ast, base) =~= count_up(base, 0));
        },
    }
}

/// The labels of the nodes of a list are numbered without gap and without
/// repeat, one node after the other.
pub proof fn lemma_label_numbers_all(nodes: Seq<Ast>, from: int, base: nat)
    requires
        0 <= from <= nodes.len(),
    ensures
        label_numbers_all(nodes, from, base) == count_up(
            base,
            labels_in_all(nodes.subrange(from, nodes.len() as int)),
        ),
    decreases nodes, 0int, nodes.len() - from,
{
    if from < nodes.len() {
        lemma_label_numbers(nodes[from], base);
        lemma_label_numbers_all(nodes, from + 1, base + labels_in(nodes[from]));
        lemma_labels_from(nodes, from);
        lemma_count_on(
            base,
            labels_in(nodes[from]),
            labels_in_all(nodes.subrange(from + 1, nodes.len() as int)),
        );
    } else {
        assert(nodes.subrange(from, nodes.len() as int) =~= Seq::<Ast>::empty());
        assert(labels_in_all(Seq::<Ast>::empty()) == 0);
        assert(label_numbers_all(nodes, from, base) =~= count_up(base, 0));
    }
}

/// No two conditionals or loops of a tree share a label number, and every
/// number lies between the counter before the tree and the counter after
/// it.
pub proof fn lemma_labels_distinct(ast: Ast, base: nat)
    ensures
        label_numbers(ast, base).no_duplicates(),
        forall|i: int|
            0 <= i < label_numbers(ast, base).len() ==> base <= #[trigger] label_numbers(
                ast,
                base,
            )[i] < base + labels_in(ast),
        label_numbers(ast, base).len() == labels_in(ast),
{
    lemma_label_numbers(ast, base);
}

/// The conditionals and loops of two nodes of a list take numbers apart:
/// those of the earlier node are all smaller than those of the later one.
pub proof fn lemma_sibling_labels_apart(nodes: Seq<Ast>, i: int, j: int, base: nat)
    requires
        0 <= i < j < nodes.len(),
    ensures
        base + labels_in_all(nodes.subrange(0, i)) + labels_in(nodes[i]) <= base + labels_in_all(
            nodes.subrange(0, j),
        ),
{
    let upto_j = nodes.subrange(0, j);
    crate::listing::lemma_labels_prefix(nodes, i);
    crate::listing::lemma_labels_prefix(upto_j, i + 1);
    assert(upto_j.subrange(0, i + 1) =~= nodes.subrange(0, i + 1));
}


/// A program that parses is read to the end token, and holds functions and
/// globals and nothing else.
pub proof fn lemma_program_shape(sc: Scope, ts: Seq<Lexed>, at: int)
    ensures
        g_program(sc, ts, at, Seq::empty()) matches Ok(p) ==> kind_at(ts, p.next) is End
            && forall|i: int| 0 <= i < p.value.len() ==> is_declaration(#[trigger] p.value[i]),
{
    lemma_program(sc, ts, at, Seq::empty());
}

/// In a frame that is laid out well, no two locals have the same offset.
pub proof fn lemma_offsets_unique(locals: Seq<Local>, i: int, j: int)
    requires
        frame_wf(locals),
        0 <= i < locals.len(),
        0 <= j < locals.len(),
        i != j,
    ensures
        locals[i].offset != locals[j].offset,
{
    if i < j {
        lemma_slots_apart(locals, i, j);
        assert(size_of(locals[j].ty) > 0);
    } else {
        lemma_slots_apart(locals, j, i);
        assert(size_of(locals[i].ty) > 0);
    }
}

/// In a frame that is laid out well, the offset of every local is a
/// multiple of the alignment of its type.
pub proof fn lemma_slot_aligned(locals: Seq<Local>, i: int)
    requires
        frame_wf(locals),
        0 <= i < locals.len(),
    ensures
        locals[i].offset % (align_of(locals[i].ty) as usize) == 0,
{
    let ty = locals[i].ty;
    let a = align_of(ty) as int;
    let before = frame_size(locals.subrange(0, i));
    lemma_frame_prefix(locals, i);
    lemma_frame_prefix(locals, i + 1);
    lemma_size_aligned(ty);
    lemma_rounded_up(before, align_of(ty));
    assert(has_size(ty));
    let start = crate::types::rounded_up(before, align_of(ty)) as int;
    let size = size_of(ty) as int;
    vstd::arithmetic::div_mod::lemma_fundamental_div_mod(start, a);
    vstd::arithmetic::div_mod::lemma_fundamental_div_mod(size, a);
    let q = start / a + size / a;
    assert(start + size == q * a) by (nonlinear_arith)
        requires
            start == a * (start / a),
            size == a * (size / a),
            q == start / a + size / a,
    ;
    vstd::arithmetic::div_mod::lemma_mod_multiples_basic(q, a);
    assert(locals[i].offset == start + size);
}

/// `left > right` is parsed as `right < left`, and `left >= right` as
/// `right <= left`: after the operand `left`, the operator and the operand
/// after it give the node of "less" or of "less or equal" with the operands
/// swapped.
pub proof fn lemma_greater_parses_as_less(sc: Scope, ts: Seq<Lexed>, at: int, left: Ast)
    ensures
        is_op_at(ts, at, ">"@) ==> g_infix_rest(Level::Relational, sc, ts, at, left) == (
        match g_operand(Level::Relational, sc, ts, at + 1) {
            Ok(p) => g_infix_rest(
                Level::Relational,
                p.scope,
                ts,
                p.next,
                binary(BinaryOpKind::BinaryOpGr, p.value, left),
            ),
            Err(e) => Err(e),
        }),
        is_op_at(ts, at, ">="@) ==> g_infix_rest(Level::Relational, sc, ts, at, left) == (
        match g_operand(Level::Relational, sc, ts, at + 1) {
            Ok(p) => g_infix_rest(
                Level::Relational,
                p.scope,
                ts,
                p.next,
                binary(BinaryOpKind::BinaryOpGe, p.value, left),
            ),
            Err(e) => Err(e),
        }),
        is_op_at(ts, at, "<"@) ==> g_infix_rest(Level::Relational, sc, ts, at, left) == (
        match g_operand(Level::Relational, sc, ts, at + 1) {
            Ok(p) => g_infix_rest(
                Level::Relational,
                p.scope,
                ts,
                p.next,
                binary(BinaryOpKind::BinaryOpGr, left, p.value),
            ),
            Err(e) => Err(e),
        }),
        is_op_at(ts, at, "<="@) ==> g_infix_rest(Level::Relational, sc, ts, at, left) == (
        match g_operand(Level::Relational, sc, ts, at + 1) {
            Ok(p) => g_infix_rest(
                Level::Relational,
                p.scope,
                ts,
                p.next,
                binary(BinaryOpKind::BinaryOpGe, left, p.value),
            ),
            Err(e) => Err(e),
        }),
{
    reveal_with_fuel(g_infix_rest, 1);
    reveal_with_fuel(g_operand, 1);
    reveal_strlit("<");
    reveal_strlit("<=");
    reveal_strlit(">");
    reveal_strlit(">=");
    assert("<"@[0] != ">"@[0]);
    assert("<"@.len() != "<="@.len());
    assert("<="@[0] != ">"@[0]);
    assert("<="@[0] != ">="@[0]);
    assert("<"@.len() != ">="@.len());
    assert(">"@.len() != ">="@.len());
    lemma_operand(Level::Relational, sc, ts, at + 1);
}

/// A name that no local bears, used without an index, is the first global
/// of that name, at the start of its storage, whatever function it is used
/// in.
pub proof fn lemma_global_use(sc: Scope, ts: Seq<Lexed>, at: int, name: Seq<char>)
    requires
        find_local(sc.locals, name) is None,
        find_global(sc.globals, name) is Some,
        !is_op_at(ts, at, "["@),
    ensures
        g_var(sc, ts, at, name) == Ok::<(Ast, int), Fault>(
            (
                Ast::GlobalVariable {
                    name: find_global(sc.globals, name)->Some_0.name,
                    offset: 0,
                    ty: find_global(sc.globals, name)->Some_0.ty,
                },
                at,
            ),
        ),
{
}


/// Whether every string literal of `ast` is found in `pool` under its
/// label: the label is an index of the pool, and the text there is the
/// text of the literal.
pub open spec fn literals_in_pool(ast: Ast, pool: Seq<Seq<char>>) -> bool
    decreases ast, 1int,
{
    match ast {
        Ast::StrLiteral { s, label } => label < pool.len() && pool[label as int] == s,
        Ast::BinaryOperator { kind, lhs, rhs } => literals_in_pool(*lhs, pool)
            && literals_in_pool(*rhs, pool),
        Ast::UnaryOperator { kind, rhs } => literals_in_pool(*rhs, pool),
        Ast::Block { nodes } => all_in_pool(nodes, pool),
        Ast::Function { name, args, stack, block } => all_in_pool(args, pool)
            && literals_in_pool(*block, pool),
        Ast::Call { name, args, ty } => all_in_pool(args, pool),
        Ast::If { cond, ibody } => literals_in_pool(*cond, pool) && literals_in_pool(*ibody, pool),
        Ast::IfElse { cond, ibody, ebody } => literals_in_pool(*cond, pool) && literals_in_pool(
            *ibody,
            pool,
        ) && literals_in_pool(*ebody, pool),
        Ast::While { cond, body } => literals_in_pool(*cond, pool) && literals_in_pool(
            *body,
            pool,
        ),
        Ast::Return { rhs, ty } => literals_in_pool(*rhs, pool),
        _ => true,
    }
}

/// Whether every string literal of the trees `nodes` is found in `pool`
/// under its label.
pub open spec fn all_in_pool(nodes: Seq<Ast>, pool: Seq<Seq<char>>) -> bool
    decreases nodes, 0int,
{
    forall|i: int| 0 <= i < nodes.len() ==> literals_in_pool(#[trigger] nodes[i], pool)
}

/// Whether the string literals of `ast` are found under their labels in
/// the pool of `sc`, as far as the pool is no longer than a label can
/// count.
pub open spec fn pooled(ast: Ast, sc: Scope) -> bool {
    sc.literals.len() <= usize::MAX ==> literals_in_pool(ast, sc.literals)
}

/// As [`pooled`], of every tree of `nodes`.
pub open spec fn pooled_all(nodes: Seq<Ast>, sc: Scope) -> bool {
    sc.literals.len() <= usize::MAX ==> all_in_pool(nodes, sc.literals)
}

/// A literal that is found in a pool is found in every pool that the pool
/// starts.
pub proof fn lemma_pool_grows(ast: Ast, pool: Seq<Seq<char>>, larger: Seq<Seq<char>>)
    requires
        literals_in_pool(ast, pool),
        pool.is_prefix_of(larger),
    ensures
        literals_in_pool(ast, larger),
    decreases ast, 1int,
{
    match ast {
        Ast::StrLiteral { s, label } => {
            assert(larger.subrange(0, pool.len() as int)[label as int] == larger[label as int]);
        },
        Ast::BinaryOperator { kind, lhs, rhs } => {
            lemma_pool_grows(*lhs, pool, larger);
            lemma_pool_grows(*rhs, pool, larger);
        },
        Ast::UnaryOperator { kind, rhs } => {
            lemma_pool_grows(*rhs, pool, larger);
        },
        Ast::Block { nodes } => {
            lemma_pool_grows_all(nodes, pool, larger);
        },
        Ast::Function { name, args, stack, block } => {
            lemma_pool_grows_all(args, pool, larger);
            lemma_pool_grows(*block, pool, larger);
        },
        Ast::Call { name, args, ty } => {
            lemma_pool_grows_all(args, pool, larger);
        },
        Ast::If { cond, ibody } => {
            lemma_pool_grows(*cond, pool, larger);
            lemma_pool_grows(*ibody, pool, larger);
        },
        Ast::IfElse { cond, ibody, ebody } => {
            lemma_pool_grows(*cond, pool, larger);
            lemma_pool_grows(*ibody, pool, larger);
            lemma_pool_grows(*ebody, pool, larger);
        },
        Ast::While { cond, body } => {
            lemma_pool_grows(*cond, pool, larger);
            lemma_pool_grows(*body, pool, larger);
        },
        Ast::Return { rhs, ty } => {
            lemma_pool_grows(*rhs, pool, larger);
        },
        _ => {},
    }
}

/// As [`lemma_pool_grows`], of every tree of `nodes`.
pub proof fn lemma_pool_grows_all(nodes: Seq<Ast>, pool: Seq<Seq<char>>, larger: Seq<Seq<char>>)
    requires
        all_in_pool(nodes, pool),
        pool.is_prefix_of(larger),
    ensures
        all_in_pool(nodes, larger),
    decreases nodes, 0int,
{
    assert forall|i: int| 0 <= i < nodes.len() implies literals_in_pool(
        #[trigger] nodes[i],
        larger,
    ) by {
        lemma_pool_grows(nodes[i], pool, larger);
    }
}

/// What is found in the pool of `a` is found in the pool of `b`, where the
/// pool of `b` goes on from that of `a`.
pub proof fn lemma_pooled_grows(ast: Ast, a: Scope, b: Scope)
    requires
        pooled(ast, a),
        a.literals.is_prefix_of(b.literals),
    ensures
        pooled(ast, b),
{
    if b.literals.len() <= usize::MAX {
        lemma_pool_grows(ast, a.literals, b.literals);
    }
}

/// As [`lemma_pooled_grows`], of every tree of `nodes`.
pub proof fn lemma_pooled_all_grows(nodes: Seq<Ast>, a: Scope, b: Scope)
    requires
        pooled_all(nodes, a),
        a.literals.is_prefix_of(b.literals),
    ensures
        pooled_all(nodes, b),
{
    if b.literals.len() <= usize::MAX {
        lemma_pool_grows_all(nodes, a.literals, b.literals);
    }
}

/// The pool law, for a primary expression.
pub proof fn lemma_pool_primary(sc: Scope, ts: Seq<Lexed>, at: int)
    ensures
        g_primary(sc, ts, at) matches Ok(p) ==> pooled(p.value, p.scope),
    decreases ts.len() - at, 0int,
{
    reveal_with_fuel(g_primary, 1);
    reveal_with_fuel(g_args, 1);
    reveal_with_fuel(g_expr, 1);
    match kind_at(ts, at) {
        Lexeme::Idt(name) => {
            if is_op_at(ts, at + 1, "("@) {
                lemma_pool_args(sc, ts, at + 2, Seq::empty());
            }
        },
        Lexeme::Str(_) => {},
        Lexeme::Num(_) => {},
        _ => {
            if is_op_at(ts, at, "("@) {
                lemma_pool_expr(sc, ts, at + 1);
            }
        },
    }
}

/// The pool law, for the arguments of a call.
pub proof fn lemma_pool_args(sc: Scope, ts: Seq<Lexed>, at: int, done: Seq<Ast>)
    ensures
        g_args(sc, ts, at, done) matches Ok(p) ==> (pooled_all(done, sc) ==> pooled_all(
            p.value,
            p.scope,
        )),
    decreases ts.len() - at, 40int,
{
    reveal_with_fuel(g_args, 1);
    reveal_with_fuel(g_expr, 1);
    if !is_op_at(ts, at, ")"@) {
        lemma_expr(sc, ts, at);
        lemma_pool_expr(sc, ts, at);
        match advanced(g_expr(sc, ts, at), at, ts.len()) {
            Ok(p) => {
                let next = if is_op_at(ts, p.next, ","@) {
                    p.next + 1
                } else {
                    p.next
                };
                lemma_pool_args(p.scope, ts, next, done.push(p.value));
                if pooled_all(done, sc) {
                    lemma_pooled_all_grows(done, sc, p.scope);
                }
            },
            Err(_) => {},
        }
    }
}

/// The pool law, for a unary expression.
pub proof fn lemma_pool_unary(sc: Scope, ts: Seq<Lexed>, at: int)
    ensures
        g_unary(sc, ts, at) matches Ok(p) ==> pooled(p.value, p.scope),
    decreases ts.len() - at, 1int,
{
    reveal_with_fuel(g_unary, 1);
    reveal_with_fuel(g_primary, 1);
    if is_op_at(ts, at, "&"@) || is_op_at(ts, at, "*"@) {
        lemma_pool_unary(sc, ts, at + 1);
    } else if is_op_at(ts, at, "-"@) {
        lemma_pool_primary(sc, ts, at + 1);
        match g_primary(sc, ts, at + 1) {
            Ok(p) => {
                assert(literals_in_pool(Ast::Number { val: 0 }, p.scope.literals));
            },
            Err(_) => {},
        }
    } else {
        lemma_pool_primary(sc, ts, at);
    }
}

/// The pool law, for an operand of precedence `level`.
pub proof fn lemma_pool_operand(level: Level, sc: Scope, ts: Seq<Lexed>, at: int)
    ensures
        g_operand(level, sc, ts, at) matches Ok(p) ==> pooled(p.value, p.scope),
    decreases ts.len() - at, 2 * crate::grammar::rank(level) + 2,
{
    reveal_with_fuel(g_operand, 1);
    reveal_with_fuel(g_unary, 1);
    reveal_with_fuel(g_infix, 1);
    match level {
        Level::Multiplicative => lemma_pool_unary(sc, ts, at),
        Level::Additive => lemma_pool_infix(Level::Multiplicative, sc, ts, at),
        Level::Relational => lemma_pool_infix(Level::Additive, sc, ts, at),
        Level::Equality => lemma_pool_infix(Level::Relational, sc, ts, at),
    }
}

/// The pool law, for an expression of precedence `level`.
pub proof fn lemma_pool_infix(level: Level, sc: Scope, ts: Seq<Lexed>, at: int)
    ensures
        g_infix(level, sc, ts, at) matches Ok(p) ==> pooled(p.value, p.scope),
    decreases ts.len() - at, 2 * crate::grammar::rank(level) + 3,
{
    reveal_with_fuel(g_infix, 1);
    reveal_with_fuel(g_infix_rest, 1);
    reveal_with_fuel(g_operand, 1);
    lemma_operand(level, sc, ts, at);
    lemma_pool_operand(level, sc, ts, at);
    match advanced(g_operand(level, sc, ts, at), at, ts.len()) {
        Ok(p) => {
            lemma_pool_infix_rest(level, p.scope, ts, p.next, p.value);
        },
        Err(_) => {},
    }
}

/// The pool law, for what follows the operand `left`.
pub proof fn lemma_pool_infix_rest(level: Level, sc: Scope, ts: Seq<Lexed>, at: int, left: Ast)
    requires
        at <= ts.len(),
    ensures
        g_infix_rest(level, sc, ts, at, left) matches Ok(p) ==> (pooled(left, sc) ==> pooled(
            p.value,
            p.scope,
        )),
    decreases ts.len() - at, 2 * crate::grammar::rank(level) + 3,
{
    reveal_with_fuel(g_infix_rest, 1);
    reveal_with_fuel(g_operand, 1);
    match infix_at(level, ts, at) {
        Some(op) => {
            lemma_operand(level, sc, ts, at + 1);
            lemma_pool_operand(level, sc, ts, at + 1);
            match advanced(g_operand(level, sc, ts, at + 1), at, ts.len()) {
                Ok(p) => {
                    lemma_pool_infix_rest(
                        level,
                        p.scope,
                        ts,
                        p.next,
                        infix_node(op, left, p.value),
                    );
                    if pooled(left, sc) {
                        lemma_pooled_grows(left, sc, p.scope);
                    }
                },
                Err(_) => {},
            }
        },
        None => {},
    }
}

/// The pool law, for an assignment.
pub proof fn lemma_pool_assign(sc: Scope, ts: Seq<Lexed>, at: int)
    ensures
        g_assign(sc, ts, at) matches Ok(p) ==> pooled(p.value, p.scope),
    decreases ts.len() - at, 20int,
{
    reveal_with_fuel(g_assign, 1);
    reveal_with_fuel(g_infix, 1);
    lemma_infix(Level::Equality, sc, ts, at);
    lemma_pool_infix(Level::Equality, sc, ts, at);
    match advanced(g_infix(Level::Equality, sc, ts, at), at, ts.len()) {
        Ok(p) => {
            if is_op_at(ts, p.next, "="@) {
                lemma_assign(p.scope, ts, p.next + 1);
                lemma_pool_assign(p.scope, ts, p.next + 1);
                match g_assign(p.scope, ts, p.next + 1) {
                    Ok(q) => {
                        lemma_pooled_grows(p.value, p.scope, q.scope);
                    },
                    Err(_) => {},
                }
            }
        },
        Err(_) => {},
    }
}

/// The pool law, for an expression: every string literal of its tree is
/// found in the pool under its label.
pub proof fn lemma_pool_expr(sc: Scope, ts: Seq<Lexed>, at: int)
    ensures
        g_expr(sc, ts, at) matches Ok(p) ==> pooled(p.value, p.scope),
    decreases ts.len() - at, 21int,
{
    reveal_with_fuel(g_expr, 1);
    reveal_with_fuel(g_assign, 1);
    lemma_pool_assign(sc, ts, at);
}

/// The pool law, for the body of `if` or `while`.
pub proof fn lemma_pool_body(sc: Scope, ts: Seq<Lexed>, at: int)
    ensures
        g_body(sc, ts, at) matches Ok(p) ==> pooled(p.value, p.scope),
    decreases ts.len() - at, 33int,
{
    reveal_with_fuel(g_body, 1);
    reveal_with_fuel(g_blk, 1);
    reveal_with_fuel(g_stmt, 1);
    if is_op_at(ts, at, "{"@) {
        lemma_pool_blk(sc, ts, at + 1, Seq::empty());
    } else {
        lemma_pool_stmt(sc, ts, at);
    }
}

/// The pool law, for a conditional after its `if`.
pub proof fn lemma_pool_ifel(sc: Scope, ts: Seq<Lexed>, at: int)
    ensures
        g_ifel(sc, ts, at) matches Ok(p) ==> pooled(p.value, p.scope),
    decreases ts.len() - at, 34int,
{
    reveal_with_fuel(g_ifel, 1);
    reveal_with_fuel(g_body, 1);
    lemma_expr(sc, ts, at);
    lemma_pool_expr(sc, ts, at);
    match advanced(g_expr(sc, ts, at), at, ts.len()) {
        Ok(c) => {
            lemma_body(c.scope, ts, c.next);
            lemma_pool_body(c.scope, ts, c.next);
            match advanced(g_body(c.scope, ts, c.next), c.next, ts.len()) {
                Ok(i) => {
                    lemma_pooled_grows(c.value, c.scope, i.scope);
                    if is_rsv_at(ts, i.next, "else"@) {
                        lemma_body(i.scope, ts, i.next + 1);
                        lemma_pool_body(i.scope, ts, i.next + 1);
                        match g_body(i.scope, ts, i.next + 1) {
                            Ok(e) => {
                                lemma_pooled_grows(c.value, i.scope, e.scope);
                                lemma_pooled_grows(i.value, i.scope, e.scope);
                            },
                            Err(_) => {},
                        }
                    }
                },
                Err(_) => {},
            }
        },
        Err(_) => {},
    }
}

/// The pool law, for a loop after its `while`.
pub proof fn lemma_pool_whl(sc: Scope, ts: Seq<Lexed>, at: int)
    ensures
        g_whl(sc, ts, at) matches Ok(p) ==> pooled(p.value, p.scope),
    decreases ts.len() - at, 34int,
{
    reveal_with_fuel(g_whl, 1);
    reveal_with_fuel(g_body, 1);
    lemma_expr(sc, ts, at);
    lemma_pool_expr(sc, ts, at);
    match advanced(g_expr(sc, ts, at), at, ts.len()) {
        Ok(c) => {
            lemma_body(c.scope, ts, c.next);
            lemma_pool_body(c.scope, ts, c.next);
            match g_body(c.scope, ts, c.next) {
                Ok(b) => {
                    lemma_pooled_grows(c.value, c.scope, b.scope);
                },
                Err(_) => {},
            }
        },
        Err(_) => {},
    }
}

/// The pool law, for a statement.
pub proof fn lemma_pool_stmt(sc: Scope, ts: Seq<Lexed>, at: int)
    ensures
        g_stmt(sc, ts, at) matches Ok(p) ==> pooled(p.value, p.scope),
    decreases ts.len() - at, 30int,
{
    reveal_with_fuel(g_stmt, 1);
    reveal_with_fuel(g_ifel, 1);
    reveal_with_fuel(g_whl, 1);
    if is_rsv_at(ts, at, "if"@) {
        lemma_pool_ifel(sc, ts, at + 1);
    } else if is_rsv_at(ts, at, "while"@) {
        lemma_pool_whl(sc, ts, at + 1);
    } else if is_rsv_at(ts, at, "let"@) {
    } else if is_rsv_at(ts, at, "return"@) {
        lemma_pool_expr(sc, ts, at + 1);
    } else {
        lemma_pool_expr(sc, ts, at);
    }
}

/// The pool law, for a block after its `{`.
pub proof fn lemma_pool_blk(sc: Scope, ts: Seq<Lexed>, at: int, done: Seq<Ast>)
    ensures
        g_blk(sc, ts, at, done) matches Ok(p) ==> (pooled_all(done, sc) ==> pooled(
            p.value,
            p.scope,
        )),
    decreases ts.len() - at, 31int,
{
    reveal_with_fuel(g_blk, 1);
    reveal_with_fuel(g_stmt, 1);
    if !is_op_at(ts, at, "}"@) {
        lemma_stmt(sc, ts, at);
        lemma_pool_stmt(sc, ts, at);
        match advanced(g_stmt(sc, ts, at), at, ts.len()) {
            Ok(p) => {
                lemma_pool_blk(p.scope, ts, p.next, done.push(p.value));
                if pooled_all(done, sc) {
                    lemma_pooled_all_grows(done, sc, p.scope);
                }
            },
            Err(_) => {},
        }
    }
}

/// The pool law, for the parameters of a function.
pub proof fn lemma_pool_params(sc: Scope, ts: Seq<Lexed>, at: int, done: Seq<Ast>)
    ensures
        g_params(sc, ts, at, done) matches Ok(p) ==> (pooled_all(done, sc) ==> pooled_all(
            p.value,
            p.scope,
        )) && p.scope.literals == sc.literals,
    decreases ts.len() - at,
{
    reveal_with_fuel(g_params, 1);
    if !is_op_at(ts, at, ")"@) {
        lemma_bind_advances(ts, at);
        match g_bind(ts, at) {
            Ok((name, ty, named)) => {
                if fits_frame(sc.locals, ty) {
                    let declared = Scope {
                        locals: sc.locals.push(new_local(sc.locals, name, ty)),
                        ..sc
                    };
                    lemma_var_advances(declared, ts, named, name);
                    match g_var(declared, ts, named, name) {
                        Ok((node, used)) => {
                            let next = if is_op_at(ts, used, ","@) {
                                used + 1
                            } else {
                                used
                            };
                            lemma_pool_params(declared, ts, next, done.push(node));
                        },
                        Err(_) => {},
                    }
                }
            },
            Err(_) => {},
        }
    }
}

/// The pool law, for a declaration of the top level.
pub proof fn lemma_pool_top(sc: Scope, ts: Seq<Lexed>, at: int)
    ensures
        g_top(sc, ts, at) matches Ok(p) ==> pooled(p.value, p.scope),
{
    reveal_with_fuel(g_func, 1);
    if is_rsv_at(ts, at, "fn"@) {
        match kind_at(ts, at + 1) {
            Lexeme::Idt(name) => {
                if is_op_at(ts, at + 2, "("@) {
                    lemma_pool_params(sc, ts, at + 3, Seq::empty());
                    match g_params(sc, ts, at + 3, Seq::empty()) {
                        Ok(ps) => {
                            match g_return_type(ts, ps.next) {
                                Ok((ty, typed)) => {
                                    let sig = crate::grammar::Signature { name, ty };
                                    let inside = Scope {
                                        cur_type: ty,
                                        funcs: ps.scope.funcs.push(sig),
                                        ..ps.scope
                                    };
                                    lemma_blk(inside, ts, typed + 1, Seq::empty());
                                    lemma_pool_blk(inside, ts, typed + 1, Seq::empty());
                                    match g_blk(inside, ts, typed + 1, Seq::empty()) {
                                        Ok(b) => {
                                            lemma_pooled_all_grows(ps.value, inside, b.scope);
                                            let after = Scope {
                                                locals: Seq::empty(),
                                                ..b.scope
                                            };
                                            assert(pooled_all(ps.value, after));
                                            assert(pooled(b.value, after));
                                        },
                                        Err(_) => {},
                                    }
                                },
                                Err(_) => {},
                            }
                        },
                        Err(_) => {},
                    }
                }
            },
            _ => {},
        }
    }
}

/// The pool law: in a program that parses, every string literal is found
/// in the pool under its label, as far as those of the trees read before
/// were. The label of a literal is the index of its own text.
pub proof fn lemma_pool_program(sc: Scope, ts: Seq<Lexed>, at: int, done: Seq<Ast>)
    ensures
        g_program(sc, ts, at, done) matches Ok(p) ==> (pooled_all(done, sc) ==> pooled_all(
            p.value,
            p.scope,
        )),
    decreases ts.len() - at,
{
    reveal_with_fuel(g_program, 1);
    if !(kind_at(ts, at) is End) {
        lemma_top(sc, ts, at);
        lemma_pool_top(sc, ts, at);
        match advanced(g_top(sc, ts, at), at, ts.len()) {
            Ok(p) => {
                lemma_pool_program(p.scope, ts, p.next, done.push(p.value));
                if pooled_all(done, sc) {
                    lemma_pooled_all_grows(done, sc, p.scope);
                }
            },
            Err(_) => {},
        }
    }
}

/// In a program that parses, the label of every string literal is the
/// index of the literal's own text in the pool.
pub proof fn lemma_literal_labels(sc: Scope, ts: Seq<Lexed>, at: int)
    ensures
        g_program(sc, ts, at, Seq::empty()) matches Ok(p) ==> (p.scope.literals.len()
            <= usize::MAX ==> all_in_pool(p.value, p.scope.literals)),
{
    lemma_pool_program(sc, ts, at, Seq::empty());
}


/// The `;` that closes a statement is read where it stands; where another
/// token stands in its place, the fault points at that token, and the token
/// is not read.
pub proof fn lemma_semicolon(ts: Seq<Lexed>, at: int)
    ensures
        g_semicolon(ts, at) == if is_op_at(ts, at, ";"@) {
            Ok::<int, Fault>(at + 1)
        } else {
            Err::<int, Fault>(
                Fault { kind: ParseErrorKind::ScolonExpected, pos: pos_at(ts, at), at },
            )
        },
{
}

/// The value of a variable of one or two bytes is read by one load of that
/// width, which extends it with its sign into the whole of `rax`: the word
/// pushed holds nothing of the bytes beside the variable.
pub proof fn lemma_narrow_load(ast: Ast, base: nat)
    requires
        ast is LocalVariable || ast is GlobalVariable,
        lval_type_of(ast) matches Ok(ty) && has_size(ty) && (size_of(ty) == 1 || size_of(ty) == 2),
    ensures
        code_node(ast, base) == then(
            code_lval(ast, base),
            text(
                "    pop rax\n\n"@ + (if size_of(lval_type_of(ast)->Ok_0) == 1 {
                    "    movsx rax, BYTE PTR [rax]\n"@
                } else {
                    "    movsx rax, WORD PTR [rax]\n"@
                }) + "    push rax\n"@,
            ),
        ),
        code_lval(ast, base) is Ok,
{
    reveal_with_fuel(code_node, 1);
    reveal_with_fuel(code_lval, 1);
}

/// The code of a loop: the label of its start, the condition, the jump to
/// its end where the condition is zero, the body, the jump back to the
/// start, and the label of its end. The condition is tested before every
/// round, and the loop takes a label number of its own.
pub proof fn lemma_while_shape(cond: Ast, body: Ast, base: nat)
    ensures
        code_node(Ast::While { cond: Box::new(cond), body: Box::new(body) }, base) == while_code(
            code_node(cond, base + 1),
            code_node(body, base + 1 + labels_in(cond)),
            base,
        ),
        labels_in(Ast::While { cond: Box::new(cond), body: Box::new(body) }) == 1 + labels_in(
            cond,
        ) + labels_in(body),
{
    reveal_with_fuel(code_node, 1);
}

} // verus!
