//! The parser: from a token stream to the syntax tree, in one pass, with
//! names bound and frame slots laid out on the way.

use vstd::prelude::*;
use vstd::string::*;
use crate::ast::{
    asts_of, lemma_asts_push, new_node_bl, new_node_blk, new_node_bop, new_node_call,
    new_node_decg, new_node_decl, new_node_func, new_node_gvar, new_node_if, new_node_ifel,
    new_node_lvar, new_node_num, new_node_ret, new_node_str, new_node_uop, new_node_whl, Ast,
    labels_in, labels_in_all, lemma_labels_push,
};
use crate::grammar::{
    closed, element_offset, fault, fault_before, find_global, find_local, fits_frame, frame_size,
    frame_wf, func_type, g_args, g_assign, g_bind, g_blk, g_body, g_expr, g_func, g_glbl, g_ifel,
    g_index, g_infix, g_infix_rest, g_locl, g_operand, g_params, g_primary, g_program,
    g_semicolon, g_stmt, g_top, g_typ, g_unary, g_var, g_whl, global_element,
    infix_at, infix_node, lemma_frame_prefix, lemma_typ_advances, lemma_frame_push,
    lemma_infix_labels, local_element, new_local, rank, reference_to, Fault, Global, Infix, Level,
    Local, Parsed, Scope, Signature,
};
use crate::text::str_eq;
use crate::token::{caret_line, caret_message, is_op_at, Tokens};
use crate::types::{
    align_double_word, align_of, checked_type_size, has_size, lemma_rounded_up,
    lemma_size_aligned, round_up, size_of, type_align,
};

pub use crate::ast::{BinaryOpKind, Node, UnaryOpKind};
pub use crate::types::{type_size, Type};

verus! {

/// What the parser can find wrong.
#[derive(Debug, PartialEq, Eq, Clone, Copy, Structural)]
pub enum ParseErrorKind {
    NumberExpected,
    FuncExpected,
    VariableExpected,
    TypeExpected,
    ArgExpected,
    ParenExpected,
    ScolonExpected,
    ColonExpected,
    BlockExpected,
    TypeInvalid,
    UnknownVariable,
    NotInTop,
    ExprInvalid,
}


/// A parse error: what is wrong, and the byte offset of the token at which
/// it was found.
#[derive(Debug)]
pub struct ParseError {
    pub error: ParseErrorKind,
    pub pos: usize,
}

/// What the diagnostic says of each kind of error.
pub open spec fn error_text(kind: ParseErrorKind) -> Seq<char> {
    match kind {
        ParseErrorKind::NumberExpected => "Number is expected here!"@,
        ParseErrorKind::FuncExpected => "Function is expected here!"@,
        ParseErrorKind::VariableExpected => "Variable is expected here!"@,
        ParseErrorKind::TypeExpected => "Type is expected here!"@,
        ParseErrorKind::ArgExpected => "Arguments are needed!"@,
        ParseErrorKind::ParenExpected => "Parentheses are not closed!"@,
        ParseErrorKind::ScolonExpected => "Semicolon is needed!"@,
        ParseErrorKind::ColonExpected => "Colon is needed!"@,
        ParseErrorKind::BlockExpected => "Block is expected here!"@,
        ParseErrorKind::TypeInvalid => "Invalid Type!"@,
        ParseErrorKind::UnknownVariable => "Unknown variable!"@,
        ParseErrorKind::NotInTop => "Cannot use in top level"@,
        ParseErrorKind::ExprInvalid => "Invalid expression!"@,
    }
}

impl ParseError {
    /// Whether this error is the fault `f`.
    pub open spec fn is(&self, f: Fault) -> bool {
        self.error == f.kind && self.pos == f.pos
    }

    /// An error at the token under the cursor.
    pub fn new(e: ParseErrorKind, toks: &Tokens) -> (r: Self)
        requires
            toks.wf(),
        ensures
            r.is(fault(e, toks.stream(), toks.current as int)),
    {
        ParseError { error: e, pos: toks.head() }
    }

    /// An error at the token `offset` tokens before the cursor.
    pub fn new_with_offset(e: ParseErrorKind, toks: &Tokens, offset: usize) -> (r: Self)
        requires
            toks.wf(),
        ensures
            r.is(fault_before(e, toks.stream(), toks.current as int, offset as int)),
    {
        let pos = match toks.head_before(offset) {
            Some(p) => p,
            None => 0,
        };
        ParseError { error: e, pos: pos }
    }

    /// The diagnostic line for this error.
    pub fn to_string(&self) -> (line: String)
        ensures
            line@ == caret_line(self.pos as nat, error_text(self.error)),
    {
        let text = match self.error {
            ParseErrorKind::NumberExpected => "Number is expected here!",
            ParseErrorKind::FuncExpected => "Function is expected here!",
            ParseErrorKind::VariableExpected => "Variable is expected here!",
            ParseErrorKind::TypeExpected => "Type is expected here!",
            ParseErrorKind::ArgExpected => "Arguments are needed!",
            ParseErrorKind::ParenExpected => "Parentheses are not closed!",
            ParseErrorKind::ScolonExpected => "Semicolon is needed!",
            ParseErrorKind::ColonExpected => "Colon is needed!",
            ParseErrorKind::BlockExpected => "Block is expected here!",
            ParseErrorKind::TypeInvalid => "Invalid Type!",
            ParseErrorKind::UnknownVariable => "Unknown variable!",
            ParseErrorKind::NotInTop => "Cannot use in top level",
            ParseErrorKind::ExprInvalid => "Invalid expression!",
        };
        caret_message(self.pos, text)
    }
}

/// A local variable of the function being parsed.
pub struct Lvar {
    pub name: String,
    pub ty: Type,
    pub offset: usize,
}

/// A global variable.
pub struct Gvar {
    pub name: String,
    pub ty: Type,
}

/// A function that has been seen.
pub struct Func {
    pub name: String,
    pub ty: Type,
}

/// A name bound to a type.
pub struct VarInfo {
    pub name: String,
    pub ty: Type,
}

impl View for Lvar {
    type V = Local;

    open spec fn view(&self) -> Local {
        Local { name: self.name@, ty: self.ty, offset: self.offset }
    }
}

impl View for Gvar {
    type V = Global;

    open spec fn view(&self) -> Global {
        Global { name: self.name@, ty: self.ty }
    }
}

impl View for Func {
    type V = Signature;

    open spec fn view(&self) -> Signature {
        Signature { name: self.name@, ty: self.ty }
    }
}

pub open spec fn locals_of(list: Seq<Lvar>) -> Seq<Local> {
    Seq::new(list.len(), |i: int| list[i]@)
}

pub open spec fn globals_of(list: Seq<Gvar>) -> Seq<Global> {
    Seq::new(list.len(), |i: int| list[i]@)
}

pub open spec fn signatures_of(list: Seq<Func>) -> Seq<Signature> {
    Seq::new(list.len(), |i: int| list[i]@)
}

pub open spec fn texts_of(list: Seq<String>) -> Seq<Seq<char>> {
    Seq::new(list.len(), |i: int| list[i]@)
}

/// The parser. It owns what has been declared: the locals of the function
/// being parsed, the globals, the functions seen and the pool of string
/// literals.
pub struct Parser {
    pub lvar_list: Vec<Lvar>,
    pub gvar_list: Vec<Gvar>,
    pub literal_list: Vec<String>,
    pub func_list: Vec<Func>,
    pub cur_type: Type,
}

impl View for Parser {
    type V = Scope;

    open spec fn view(&self) -> Scope {
        Scope {
            locals: locals_of(self.lvar_list@),
            globals: globals_of(self.gvar_list@),
            funcs: signatures_of(self.func_list@),
            literals: texts_of(self.literal_list@),
            cur_type: self.cur_type,
        }
    }
}

/// Whether the result `res`, the declarations `state` and the cursor
/// `cursor` after a parse are what the grammar gives: on success the node
/// of the tree parsed, the declarations and the token after it; on failure
/// the fault, with the cursor on the token at which it was found.
pub open spec fn node_parsed(
    expected: Result<Parsed<Ast>, Fault>,
    res: Result<Box<Node>, ParseError>,
    state: Scope,
    cursor: int,
) -> bool {
    match expected {
        Ok(p) => res matches Ok(node) && node@ == p.value && state == p.scope && cursor == p.next,
        Err(f) => res matches Err(e) && e.is(f) && cursor == f.at,
    }
}

/// As [`node_parsed`], for a parse that changes no declaration.
pub open spec fn plain_parsed<T>(
    expected: Result<(T, int), Fault>,
    res: Result<T, ParseError>,
    cursor: int,
) -> bool {
    match expected {
        Ok((value, next)) => res matches Ok(v) && v == value && cursor == next,
        Err(f) => res matches Err(e) && e.is(f) && cursor == f.at,
    }
}

/// The type `&ty`.
fn reference(ty: Type) -> (r: Type)
    ensures
        r == reference_to(ty),
{
    let fat = match &ty {
        Type::Str => true,
        Type::Ary(_, _) => true,
        _ => false,
    };
    if fat {
        Type::Slc(Box::new(ty))
    } else {
        Type::Ptr(Box::new(ty))
    }
}

/// The index that may follow a variable: `[`, a number and `]`.
fn index(tokens: &mut Tokens) -> (res: Result<Option<u32>, ParseError>)
    requires
        old(tokens).wf(),
    ensures
        final(tokens).wf(),
        final(tokens).list == old(tokens).list,
        match g_index(old(tokens).stream(), old(tokens).current as int) {
            Ok(Some((number, next))) => res == Ok::<Option<u32>, ParseError>(Some(number))
                && final(tokens).current == next,
            Ok(None) => res == Ok::<Option<u32>, ParseError>(None) && final(tokens).current
                == old(tokens).current,
            Err(f) => res matches Err(e) && e.is(f) && final(tokens).current == f.at,
        },
{
    if tokens.expect_op("[") {
        let num = match tokens.expect_num() {
            Some(n) => n,
            None => {
                return Err(ParseError::new(ParseErrorKind::NumberExpected, tokens));
            },
        };
        if !tokens.expect_op("]") {
            return Err(ParseError::new(ParseErrorKind::ParenExpected, tokens));
        }
        Ok(Some(num))
    } else {
        Ok(None)
    }
}

/// How far element `index` lies from the start of an array of `elem`.
fn element_delta(elem: &Type, index: u32) -> (r: Option<usize>)
    ensures
        r == element_offset(*elem, index),
{
    match checked_type_size(elem) {
        Some(size) => {
            let r = size.checked_mul(index as usize);
            assert(size * (index as usize) == size_of(*elem) * index);
            r
        },
        None => None,
    }
}

/// The element of the local array `lv` that `index` picks.
fn local_item(lv: &Lvar, index: u32) -> (r: Option<Box<Node>>)
    ensures
        match local_element(lv@, index) {
            Some(node) => r matches Some(n) && n@ == node,
            None => r is None,
        },
{
    match &lv.ty {
        Type::Ary(ty, _) => match element_delta(&**ty, index) {
            Some(delta) => if delta <= lv.offset {
                Some(new_node_lvar(lv.offset - delta, (&**ty).clone()))
            } else {
                None
            },
            None => None,
        },
        _ => None,
    }
}

/// The element of the global array `gv` that `index` picks.
fn global_item(gv: &Gvar, index: u32) -> (r: Option<Box<Node>>)
    ensures
        match global_element(gv@, index) {
            Some(node) => r matches Some(n) && n@ == node,
            None => r is None,
        },
{
    match &gv.ty {
        Type::Ary(ty, _) => match element_delta(&**ty, index) {
            Some(delta) => Some(new_node_gvar(gv.name.as_str(), delta, (&**ty).clone())),
            None => None,
        },
        _ => None,
    }
}

/// What a parsing method leaves behind: a well-formed parser, the cursor
/// over the same tokens, and what the grammar gives. Where it parsed a
/// node, the cursor has moved forward.
pub open spec fn parsed_as(
    expected: Result<Parsed<Ast>, Fault>,
    res: Result<Box<Node>, ParseError>,
    before: Tokens,
    parser: Parser,
    tokens: Tokens,
) -> bool {
    &&& parser.wf()
    &&& tokens.wf()
    &&& tokens.list == before.list
    &&& node_parsed(expected, res, parser@, tokens.current as int)
    &&& res is Ok ==> before.current < tokens.current
}

/// What a method that parses an expression leaves behind: as
/// [`parsed_as`], and a node that holds no conditional and no loop.
pub open spec fn expr_parsed_as(
    expected: Result<Parsed<Ast>, Fault>,
    res: Result<Box<Node>, ParseError>,
    before: Tokens,
    parser: Parser,
    tokens: Tokens,
) -> bool {
    &&& parsed_as(expected, res, before, parser, tokens)
    &&& res matches Ok(node) ==> labels_in(node@) == 0
}

/// What a method that parses a statement or a declaration leaves behind:
/// as [`parsed_as`], and a node that holds no more conditionals and loops
/// than tokens were read for it.
pub open spec fn stmt_parsed_as(
    expected: Result<Parsed<Ast>, Fault>,
    res: Result<Box<Node>, ParseError>,
    before: Tokens,
    parser: Parser,
    tokens: Tokens,
) -> bool {
    &&& parsed_as(expected, res, before, parser, tokens)
    &&& res matches Ok(node) ==> labels_in(node@) <= tokens.current - before.current
}

/// The operator of precedence `level` under the cursor, if there is one.
fn infix_operator(level: &Level, tokens: &mut Tokens) -> (r: Option<Infix>)
    requires
        old(tokens).wf(),
    ensures
        final(tokens).wf(),
        final(tokens).list == old(tokens).list,
        r == infix_at(*level, old(tokens).stream(), old(tokens).current as int),
        final(tokens).current == old(tokens).current + if r is Some {
            1int
        } else {
            0int
        },
{
    match level {
        Level::Multiplicative => if tokens.expect_op("*") {
            Some(Infix::Mul)
        } else if tokens.expect_op("/") {
            Some(Infix::Div)
        } else {
            None
        },
        Level::Additive => if tokens.expect_op("+") {
            Some(Infix::Add)
        } else if tokens.expect_op("-") {
            Some(Infix::Sub)
        } else {
            None
        },
        Level::Relational => if tokens.expect_op("<") {
            Some(Infix::Less)
        } else if tokens.expect_op("<=") {
            Some(Infix::LessEq)
        } else if tokens.expect_op(">") {
            Some(Infix::Greater)
        } else if tokens.expect_op(">=") {
            Some(Infix::GreaterEq)
        } else {
            None
        },
        Level::Equality => if tokens.expect_op("==") {
            Some(Infix::Equal)
        } else if tokens.expect_op("!=") {
            Some(Infix::NotEqual)
        } else {
            None
        },
    }
}

/// The node for `left op right`.
fn new_node_infix(op: Infix, left: Box<Node>, right: Box<Node>) -> (r: Box<Node>)
    ensures
        r@ == infix_node(op, left@, right@),
{
    match op {
        Infix::Mul => new_node_bop(BinaryOpKind::BinaryOpMul, left, right),
        Infix::Div => new_node_bop(BinaryOpKind::BinaryOpDiv, left, right),
        Infix::Add => new_node_bop(BinaryOpKind::BinaryOpAdd, left, right),
        Infix::Sub => new_node_bop(BinaryOpKind::BinaryOpSub, left, right),
        Infix::Less => new_node_bop(BinaryOpKind::BinaryOpGr, left, right),
        Infix::LessEq => new_node_bop(BinaryOpKind::BinaryOpGe, left, right),
        Infix::Greater => new_node_bop(BinaryOpKind::BinaryOpGr, right, left),
        Infix::GreaterEq => new_node_bop(BinaryOpKind::BinaryOpGe, right, left),
        Infix::Equal => new_node_bop(BinaryOpKind::BinaryOpEq, left, right),
        Infix::NotEqual => new_node_bop(BinaryOpKind::BinaryOpNe, left, right),
    }
}

impl Parser {
    /// The declarations are well formed: the frame is laid out well.
    pub open spec fn wf(&self) -> bool {
        frame_wf(self@.locals)
    }

    /// The pool of string literals: the literal with label `i` is at `i`.
    pub fn literals(&self) -> (r: &Vec<String>)
        ensures
            texts_of(r@) == self@.literals,
    {
        &self.literal_list
    }

    /// The bytes that the locals declared so far take in the frame.
    fn stack_size(&self) -> (total: usize)
        requires
            self.wf(),
        ensures
            total == frame_size(self@.locals),
    {
        let mut total: usize = 0;
        let mut i: usize = 0;
        while i < self.lvar_list.len()
            invariant
                self.wf(),
                i <= self.lvar_list@.len(),
                total == frame_size(self@.locals.subrange(0, i as int)),
            decreases self.lvar_list@.len() - i,
        {
            proof {
                lemma_frame_prefix(self@.locals, i as int);
                lemma_frame_prefix(self@.locals, i + 1);
                assert(has_size(self@.locals[i as int].ty));
                lemma_size_aligned(self@.locals[i as int].ty);
                lemma_rounded_up(total as nat, align_of(self@.locals[i as int].ty));
            }
            let ty = &self.lvar_list[i].ty;
            total = round_up(total, type_align(ty)) + type_size(ty);
            i += 1;
        }
        assert(self@.locals.subrange(0, i as int) =~= self@.locals);
        total
    }

    fn consume_semicolon(&self, tokens: &mut Tokens) -> (res: Result<(), ParseError>)
        requires
            old(tokens).wf(),
        ensures
            final(tokens).wf(),
            final(tokens).list == old(tokens).list,
            match g_semicolon(old(tokens).stream(), old(tokens).current as int) {
                Ok(next) => res is Ok && final(tokens).current == next,
                Err(f) => res matches Err(e) && e.is(f) && final(tokens).current == f.at,
            },
    {
        if tokens.expect_op(";") {
            Ok(())
        } else {
            Err(ParseError::new(ParseErrorKind::ScolonExpected, tokens))
        }
    }

    fn consume_colon(&self, tokens: &mut Tokens) -> (res: Result<(), ParseError>)
        requires
            old(tokens).wf(),
        ensures
            final(tokens).wf(),
            final(tokens).list == old(tokens).list,
            match res {
                Ok(_) => is_op_at(old(tokens).stream(), old(tokens).current as int, ":"@)
                    && final(tokens).current == old(tokens).current + 1,
                Err(e) => !is_op_at(old(tokens).stream(), old(tokens).current as int, ":"@)
                    && e.is(
                    fault(
                        ParseErrorKind::ColonExpected,
                        old(tokens).stream(),
                        old(tokens).current as int,
                    ),
                ) && final(tokens).current == old(tokens).current,
            },
    {
        if tokens.expect_op(":") {
            Ok(())
        } else {
            Err(ParseError::new(ParseErrorKind::ColonExpected, tokens))
        }
    }

    /// The return type of the function `name`, as far as it has been seen.
    fn func_type(&self, name: &str) -> (ty: Type)
        ensures
            ty == func_type(self@.funcs, name@),
    {
        let mut i: usize = 0;
        assert(self@.funcs.subrange(0, self@.funcs.len() as int) =~= self@.funcs);
        while i < self.func_list.len()
            invariant
                i <= self.func_list@.len(),
                func_type(self@.funcs, name@) == func_type(
                    self@.funcs.subrange(i as int, self@.funcs.len() as int),
                    name@,
                ),
            decreases self.func_list@.len() - i,
        {
            let ghost rest = self@.funcs.subrange(i as int, self@.funcs.len() as int);
            assert(rest[0] == self.func_list@[i as int]@);
            assert(rest.drop_first() =~= self@.funcs.subrange(i + 1, self@.funcs.len() as int));
            if str_eq(self.func_list[i].name.as_str(), name) {
                return self.func_list[i].ty.clone();
            }
            i += 1;
        }
        Type::Int8
    }

    /// The use of the variable `name`, whose name has just been read.
    fn var(&self, name: &str, tokens: &mut Tokens) -> (res: Result<Box<Node>, ParseError>)
        requires
            old(tokens).wf(),
        ensures
            final(tokens).wf(),
            final(tokens).list == old(tokens).list,
            match g_var(self@, old(tokens).stream(), old(tokens).current as int, name@) {
                Ok((node, next)) => res matches Ok(n) && n@ == node && final(tokens).current
                    == next,
                Err(f) => res matches Err(e) && e.is(f) && final(tokens).current == f.at,
            },
            res matches Ok(n) ==> labels_in(n@) == 0,
            res is Ok ==> old(tokens).current <= final(tokens).current,
    {
        let mut i: usize = 0;
        assert(self@.locals.subrange(0, self@.locals.len() as int) =~= self@.locals);
        while i < self.lvar_list.len()
            invariant
                tokens.wf(),
                *tokens == *old(tokens),
                i <= self.lvar_list@.len(),
                find_local(self@.locals, name@) == find_local(
                    self@.locals.subrange(i as int, self@.locals.len() as int),
                    name@,
                ),
            decreases self.lvar_list@.len() - i,
        {
            let ghost rest = self@.locals.subrange(i as int, self@.locals.len() as int);
            assert(rest[0] == self.lvar_list@[i as int]@);
            assert(rest.drop_first() =~= self@.locals.subrange(
                i + 1,
                self@.locals.len() as int,
            ));
            let lv = &self.lvar_list[i];
            if str_eq(lv.name.as_str(), name) {
                return match index(tokens)? {
                    Some(num) => match local_item(lv, num) {
                        Some(node) => Ok(node),
                        None => Err(
                            ParseError::new_with_offset(ParseErrorKind::TypeInvalid, tokens, 4),
                        ),
                    },
                    None => Ok(new_node_lvar(lv.offset, lv.ty.clone())),
                };
            }
            i += 1;
        }
        let mut j: usize = 0;
        assert(self@.globals.subrange(0, self@.globals.len() as int) =~= self@.globals);
        while j < self.gvar_list.len()
            invariant
                tokens.wf(),
                *tokens == *old(tokens),
                j <= self.gvar_list@.len(),
                find_local(self@.locals, name@) is None,
                find_global(self@.globals, name@) == find_global(
                    self@.globals.subrange(j as int, self@.globals.len() as int),
                    name@,
                ),
            decreases self.gvar_list@.len() - j,
        {
            let ghost rest = self@.globals.subrange(j as int, self@.globals.len() as int);
            assert(rest[0] == self.gvar_list@[j as int]@);
            assert(rest.drop_first() =~= self@.globals.subrange(
                j + 1,
                self@.globals.len() as int,
            ));
            let gv = &self.gvar_list[j];
            if str_eq(gv.name.as_str(), name) {
                return match index(tokens)? {
                    Some(num) => match global_item(gv, num) {
                        Some(node) => Ok(node),
                        None => Err(
                            ParseError::new_with_offset(ParseErrorKind::TypeInvalid, tokens, 4),
                        ),
                    },
                    None => Ok(new_node_gvar(gv.name.as_str(), 0, gv.ty.clone())),
                };
            }
            j += 1;
        }
        Err(ParseError::new_with_offset(ParseErrorKind::UnknownVariable, tokens, 1))
    }

    /// A binding: a name, `:` and a type.
    fn bind(&self, tokens: &mut Tokens) -> (res: Result<VarInfo, ParseError>)
        requires
            old(tokens).wf(),
        ensures
            final(tokens).wf(),
            final(tokens).list == old(tokens).list,
            match g_bind(old(tokens).stream(), old(tokens).current as int) {
                Ok((name, ty, next)) => res matches Ok(vi) && vi.name@ == name && vi.ty == ty
                    && final(tokens).current == next,
                Err(f) => res matches Err(e) && e.is(f) && final(tokens).current == f.at,
            },
            res is Ok ==> old(tokens).current < final(tokens).current,
    {
        let name = match tokens.expect_idt() {
            Some(s) => s.to_owned(),
            None => {
                return Err(ParseError::new(ParseErrorKind::VariableExpected, tokens));
            },
        };
        self.consume_colon(tokens)?;
        let ty = self.typ(tokens)?;
        Ok(VarInfo { name: name, ty: ty })
    }

    /// A type.
    fn typ(&self, tokens: &mut Tokens) -> (res: Result<Type, ParseError>)
        requires
            old(tokens).wf(),
        ensures
            final(tokens).wf(),
            final(tokens).list == old(tokens).list,
            plain_parsed(
                g_typ(old(tokens).stream(), old(tokens).current as int),
                res,
                final(tokens).current as int,
            ),
            res is Ok ==> old(tokens).current < final(tokens).current,
        decreases old(tokens).list@.len() - old(tokens).current,
    {
        proof {
            lemma_typ_advances(tokens.stream(), tokens.current as int);
        }
        if tokens.expect_op("&") {
            let ty = self.typ(tokens)?;
            Ok(reference(ty))
        } else if tokens.expect_op("[") {
            let ty = self.typ(tokens)?;
            self.consume_semicolon(tokens)?;
            let num = match tokens.expect_num() {
                Some(n) => n,
                None => {
                    return Err(ParseError::new(ParseErrorKind::NumberExpected, tokens));
                },
            };
            if !tokens.expect_op("]") {
                return Err(ParseError::new(ParseErrorKind::ParenExpected, tokens));
            }
            Ok(Type::Ary(Box::new(ty), num as usize))
        } else {
            if tokens.expect_rsv("i8") {
                Ok(Type::Int8)
            } else if tokens.expect_rsv("i16") {
                Ok(Type::Int16)
            } else if tokens.expect_rsv("i32") {
                Ok(Type::Int32)
            } else if tokens.expect_rsv("i64") {
                Ok(Type::Int64)
            } else if tokens.expect_rsv("bool") {
                Ok(Type::Bool)
            } else if tokens.expect_rsv("str") {
                Ok(Type::Str)
            } else {
                Err(ParseError::new(ParseErrorKind::TypeExpected, tokens))
            }
        }
    }

    /// The arguments of a call, after its `(`.
    fn call_args(&mut self, tokens: &mut Tokens) -> (res: Result<Vec<Box<Node>>, ParseError>)
        requires
            old(self).wf(),
            old(tokens).wf(),
        ensures
            final(self).wf(),
            final(tokens).wf(),
            final(tokens).list == old(tokens).list,
            match g_args(
                old(self)@,
                old(tokens).stream(),
                old(tokens).current as int,
                Seq::empty(),
            ) {
                Ok(p) => res matches Ok(args) && asts_of(args@) == p.value && final(self)@
                    == p.scope && final(tokens).current == p.next,
                Err(f) => res matches Err(e) && e.is(f) && final(tokens).current == f.at,
            },
            res matches Ok(args) ==> old(tokens).current < final(tokens).current
                && labels_in_all(asts_of(args@)) == 0,
        decreases old(tokens).list@.len() - old(tokens).current, 40int,
    {
        proof {
            reveal_with_fuel(g_args, 1);
            reveal_with_fuel(g_expr, 1);
        }
        let ghost ts = tokens.stream();
        let ghost at = tokens.current as int;
        let ghost whole = g_args(self@, ts, at, Seq::empty());
        let mut args: Vec<Box<Node>> = Vec::new();
        assert(asts_of(args@) =~= Seq::empty());
        loop
            invariant_except_break
                g_args(self@, ts, tokens.current as int, asts_of(args@)) == whole,
            invariant
                self.wf(),
                tokens.wf(),
                tokens.list == old(tokens).list,
                ts == old(tokens).stream(),
                at == old(tokens).current,
                at <= tokens.current,
                whole == g_args(old(self)@, ts, at, Seq::empty()),
                labels_in_all(asts_of(args@)) == 0,
            ensures
                at < tokens.current,
                whole == Ok::<Parsed<Seq<Ast>>, Fault>(
                    Parsed { value: asts_of(args@), scope: self@, next: tokens.current as int },
                ),
            decreases tokens.list@.len() - tokens.current,
        {
            proof {
                reveal_with_fuel(g_args, 1);
                reveal_with_fuel(g_expr, 1);
            }
            if tokens.expect_op(")") {
                break;
            }
            let arg = self.expr(tokens)?;
            proof {
                lemma_asts_push(args@, arg);
                lemma_labels_push(asts_of(args@), arg@);
            }
            args.push(arg);
            if tokens.expect_op(",") {
                continue;
            }
        }
        Ok(args)
    }

    /// A primary expression.
    fn primary(&mut self, tokens: &mut Tokens) -> (res: Result<Box<Node>, ParseError>)
        requires
            old(self).wf(),
            old(tokens).wf(),
        ensures
            expr_parsed_as(
                g_primary(old(self)@, old(tokens).stream(), old(tokens).current as int),
                res,
                *old(tokens),
                *final(self),
                *final(tokens),
            ),
        decreases old(tokens).list@.len() - old(tokens).current, 0int,
    {
        proof {
            reveal_with_fuel(g_primary, 1);
            reveal_with_fuel(g_args, 1);
            reveal_with_fuel(g_expr, 1);
        }
        if let Some(num) = tokens.expect_num() {
            return Ok(new_node_num(num));
        }
        if let Some(bl) = tokens.expect_bl() {
            return Ok(new_node_bl(bl));
        }
        let slit = match tokens.expect_str() {
            Some(s) => Some(s.to_owned()),
            None => None,
        };
        if let Some(slit) = slit {
            let label = self.literal_list.len();
            let node = new_node_str(slit.as_str(), label);
            let ghost before = self@;
            self.literal_list.push(slit);
            assert(self@.literals =~= before.literals.push(slit@));
            assert(self@ == (Scope { literals: before.literals.push(slit@), ..before }));
            return Ok(node);
        }
        let name = match tokens.expect_idt() {
            Some(s) => Some(s.to_owned()),
            None => None,
        };
        if let Some(name) = name {
            if tokens.expect_op("(") {
                let args = self.call_args(tokens)?;
                let ty = self.func_type(name.as_str());
                Ok(new_node_call(name.as_str(), args, ty))
            } else {
                self.var(name.as_str(), tokens)
            }
        } else if tokens.expect_op("(") {
            let node = self.expr(tokens)?;
            if !tokens.expect_op(")") {
                return Err(ParseError::new(ParseErrorKind::ParenExpected, tokens));
            }
            Ok(node)
        } else {
            Err(ParseError::new(ParseErrorKind::ExprInvalid, tokens))
        }
    }

    /// A unary expression.
    fn unary(&mut self, tokens: &mut Tokens) -> (res: Result<Box<Node>, ParseError>)
        requires
            old(self).wf(),
            old(tokens).wf(),
        ensures
            expr_parsed_as(
                g_unary(old(self)@, old(tokens).stream(), old(tokens).current as int),
                res,
                *old(tokens),
                *final(self),
                *final(tokens),
            ),
        decreases old(tokens).list@.len() - old(tokens).current, 1int,
    {
        proof {
            reveal_with_fuel(g_unary, 1);
            reveal_with_fuel(g_primary, 1);
        }
        if tokens.expect_op("&") {
            match self.unary(tokens) {
                Ok(rhs) => Ok(new_node_uop(UnaryOpKind::UnaryOpRf, rhs)),
                Err(e) => Err(e),
            }
        } else if tokens.expect_op("*") {
            match self.unary(tokens) {
                Ok(rhs) => Ok(new_node_uop(UnaryOpKind::UnaryOpDrf, rhs)),
                Err(e) => Err(e),
            }
        } else if tokens.expect_op("-") {
            match self.primary(tokens) {
                Ok(rhs) => {
                    assert(labels_in(Ast::Number { val: 0 }) == 0);
                    Ok(new_node_bop(BinaryOpKind::BinaryOpSub, new_node_num(0), rhs))
                },
                Err(e) => Err(e),
            }
        } else {
            self.primary(tokens)
        }
    }

    /// An operand of the operators of precedence `level`.
    fn operand(&mut self, level: &Level, tokens: &mut Tokens) -> (res: Result<
        Box<Node>,
        ParseError,
    >)
        requires
            old(self).wf(),
            old(tokens).wf(),
        ensures
            expr_parsed_as(
                g_operand(*level, old(self)@, old(tokens).stream(), old(tokens).current as int),
                res,
                *old(tokens),
                *final(self),
                *final(tokens),
            ),
        decreases old(tokens).list@.len() - old(tokens).current, 2 * rank(*level) + 2,
    {
        proof {
            reveal_with_fuel(g_operand, 1);
            reveal_with_fuel(g_unary, 1);
            reveal_with_fuel(g_infix, 1);
        }
        match level {
            Level::Multiplicative => self.unary(tokens),
            Level::Additive => self.infix(&Level::Multiplicative, tokens),
            Level::Relational => self.infix(&Level::Additive, tokens),
            Level::Equality => self.infix(&Level::Relational, tokens),
        }
    }

    /// An expression of precedence `level`.
    fn infix(&mut self, level: &Level, tokens: &mut Tokens) -> (res: Result<Box<Node>, ParseError>)
        requires
            old(self).wf(),
            old(tokens).wf(),
        ensures
            expr_parsed_as(
                g_infix(*level, old(self)@, old(tokens).stream(), old(tokens).current as int),
                res,
                *old(tokens),
                *final(self),
                *final(tokens),
            ),
        decreases old(tokens).list@.len() - old(tokens).current, 2 * rank(*level) + 3,
    {
        proof {
            reveal_with_fuel(g_infix, 1);
            reveal_with_fuel(g_infix_rest, 1);
            reveal_with_fuel(g_operand, 1);
        }
        let ghost ts = tokens.stream();
        let ghost at = tokens.current as int;
        let ghost whole = g_infix(*level, self@, ts, at);
        let mut node = self.operand(level, tokens)?;
        loop
            invariant
                self.wf(),
                tokens.wf(),
                tokens.list == old(tokens).list,
                ts == old(tokens).stream(),
                at == old(tokens).current,
                at < tokens.current,
                g_infix_rest(*level, self@, ts, tokens.current as int, node@) == whole,
                whole == g_infix(*level, old(self)@, ts, at),
                labels_in(node@) == 0,
            ensures
                at < tokens.current,
                whole == Ok::<Parsed<Ast>, Fault>(
                    Parsed { value: node@, scope: self@, next: tokens.current as int },
                ),
            decreases tokens.list@.len() - tokens.current,
        {
            proof {
                reveal_with_fuel(g_infix_rest, 1);
                reveal_with_fuel(g_operand, 1);
            }
            if !tokens.has_next() {
                break;
            }
            match infix_operator(level, tokens) {
                Some(op) => {
                    let rhs = self.operand(level, tokens)?;
                    proof {
                        lemma_infix_labels(op, node@, rhs@);
                    }
                    node = new_node_infix(op, node, rhs);
                },
                None => {
                    break;
                },
            }
        }
        Ok(node)
    }

    fn mul(&mut self, tokens: &mut Tokens) -> (res: Result<Box<Node>, ParseError>)
        requires
            old(self).wf(),
            old(tokens).wf(),
        ensures
            expr_parsed_as(
                g_infix(
                    Level::Multiplicative,
                    old(self)@,
                    old(tokens).stream(),
                    old(tokens).current as int,
                ),
                res,
                *old(tokens),
                *final(self),
                *final(tokens),
            ),
        decreases old(tokens).list@.len() - old(tokens).current, 10int,
    {
        self.infix(&Level::Multiplicative, tokens)
    }

    fn add(&mut self, tokens: &mut Tokens) -> (res: Result<Box<Node>, ParseError>)
        requires
            old(self).wf(),
            old(tokens).wf(),
        ensures
            expr_parsed_as(
                g_infix(
                    Level::Additive,
                    old(self)@,
                    old(tokens).stream(),
                    old(tokens).current as int,
                ),
                res,
                *old(tokens),
                *final(self),
                *final(tokens),
            ),
        decreases old(tokens).list@.len() - old(tokens).current, 10int,
    {
        self.infix(&Level::Additive, tokens)
    }

    fn relational(&mut self, tokens: &mut Tokens) -> (res: Result<Box<Node>, ParseError>)
        requires
            old(self).wf(),
            old(tokens).wf(),
        ensures
            expr_parsed_as(
                g_infix(
                    Level::Relational,
                    old(self)@,
                    old(tokens).stream(),
                    old(tokens).current as int,
                ),
                res,
                *old(tokens),
                *final(self),
                *final(tokens),
            ),
        decreases old(tokens).list@.len() - old(tokens).current, 10int,
    {
        self.infix(&Level::Relational, tokens)
    }

    fn equality(&mut self, tokens: &mut Tokens) -> (res: Result<Box<Node>, ParseError>)
        requires
            old(self).wf(),
            old(tokens).wf(),
        ensures
            expr_parsed_as(
                g_infix(
                    Level::Equality,
                    old(self)@,
                    old(tokens).stream(),
                    old(tokens).current as int,
                ),
                res,
                *old(tokens),
                *final(self),
                *final(tokens),
            ),
        decreases old(tokens).list@.len() - old(tokens).current, 10int,
    {
        self.infix(&Level::Equality, tokens)
    }

    /// An assignment.
    fn assign(&mut self, tokens: &mut Tokens) -> (res: Result<Box<Node>, ParseError>)
        requires
            old(self).wf(),
            old(tokens).wf(),
        ensures
            expr_parsed_as(
                g_assign(old(self)@, old(tokens).stream(), old(tokens).current as int),
                res,
                *old(tokens),
                *final(self),
                *final(tokens),
            ),
        decreases old(tokens).list@.len() - old(tokens).current, 20int,
    {
        proof {
            reveal_with_fuel(g_assign, 1);
            reveal_with_fuel(g_infix, 1);
        }
        let node = self.equality(tokens)?;
        if tokens.expect_op("=") {
            match self.assign(tokens) {
                Ok(rhs) => Ok(new_node_bop(BinaryOpKind::BinaryOpAsn, node, rhs)),
                Err(e) => Err(e),
            }
        } else {
            Ok(node)
        }
    }

    /// An expression.
    fn expr(&mut self, tokens: &mut Tokens) -> (res: Result<Box<Node>, ParseError>)
        requires
            old(self).wf(),
            old(tokens).wf(),
        ensures
            expr_parsed_as(
                g_expr(old(self)@, old(tokens).stream(), old(tokens).current as int),
                res,
                *old(tokens),
                *final(self),
                *final(tokens),
            ),
        decreases old(tokens).list@.len() - old(tokens).current, 21int,
    {
        proof {
            reveal_with_fuel(g_expr, 1);
            reveal_with_fuel(g_assign, 1);
        }
        self.assign(tokens)
    }

    /// Declares the local `name` of type `ty`, and gives the offset of its
    /// slot.
    fn declare(&mut self, name: String, ty: Type, tokens: &Tokens) -> (res: Result<
        usize,
        ParseError,
    >)
        requires
            old(self).wf(),
            tokens.wf(),
        ensures
            final(self).wf(),
            if fits_frame(old(self)@.locals, ty) {
                &&& res == Ok::<usize, ParseError>(new_local(old(self)@.locals, name@, ty).offset)
                &&& final(self)@ == (Scope {
                    locals: old(self)@.locals.push(new_local(old(self)@.locals, name@, ty)),
                    ..old(self)@
                })
            } else {
                &&& res matches Err(e)
                &&& e.is(
                    fault(ParseErrorKind::TypeInvalid, tokens.stream(), tokens.current as int),
                )
                &&& final(self)@ == old(self)@
            },
    {
        let size = match checked_type_size(&ty) {
            Some(size) => size,
            None => {
                return Err(ParseError::new(ParseErrorKind::TypeInvalid, tokens));
            },
        };
        proof {
            lemma_size_aligned(ty);
            lemma_rounded_up(frame_size(self@.locals), align_of(ty));
        }
        let start = round_up(self.stack_size(), type_align(&ty));
        if size == 0 || start > usize::MAX - 15 || size > usize::MAX - 15 - start {
            return Err(ParseError::new(ParseErrorKind::TypeInvalid, tokens));
        }
        let offset = start + size;
        proof {
            lemma_frame_push(self@.locals, name@, ty);
        }
        let ghost before = self@;
        self.lvar_list.push(Lvar { name: name, ty: ty, offset: offset });
        assert(self@.locals =~= before.locals.push(new_local(before.locals, name@, ty)));
        Ok(offset)
    }

    /// A block, after its `{`.
    fn blk(&mut self, tokens: &mut Tokens) -> (res: Result<Box<Node>, ParseError>)
        requires
            old(self).wf(),
            old(tokens).wf(),
        ensures
            stmt_parsed_as(
                g_blk(
                    old(self)@,
                    old(tokens).stream(),
                    old(tokens).current as int,
                    Seq::empty(),
                ),
                res,
                *old(tokens),
                *final(self),
                *final(tokens),
            ),
        decreases old(tokens).list@.len() - old(tokens).current, 31int,
    {
        proof {
            reveal_with_fuel(g_blk, 1);
            reveal_with_fuel(g_stmt, 1);
        }
        let ghost ts = tokens.stream();
        let ghost at = tokens.current as int;
        let ghost whole = g_blk(self@, ts, at, Seq::empty());
        let mut nodes: Vec<Box<Node>> = Vec::new();
        assert(asts_of(nodes@) =~= Seq::empty());
        loop
            invariant_except_break
                g_blk(self@, ts, tokens.current as int, asts_of(nodes@)) == whole,
                labels_in_all(asts_of(nodes@)) <= tokens.current - at,
            invariant
                self.wf(),
                tokens.wf(),
                tokens.list == old(tokens).list,
                ts == old(tokens).stream(),
                at == old(tokens).current,
                at <= tokens.current,
                whole == g_blk(old(self)@, ts, at, Seq::empty()),
            ensures
                at < tokens.current,
                whole == Ok::<Parsed<Ast>, Fault>(
                    Parsed {
                        value: Ast::Block { nodes: asts_of(nodes@) },
                        scope: self@,
                        next: tokens.current as int,
                    },
                ),
                labels_in_all(asts_of(nodes@)) < tokens.current - at,
            decreases tokens.list@.len() - tokens.current,
        {
            proof {
                reveal_with_fuel(g_blk, 1);
                reveal_with_fuel(g_stmt, 1);
            }
            if tokens.expect_op("}") {
                break;
            }
            match self.stmt(tokens) {
                Ok(node) => {
                    proof {
                        lemma_asts_push(nodes@, node);
                        lemma_labels_push(asts_of(nodes@), node@);
                    }
                    nodes.push(node)
                },
                Err(e) => {
                    return Err(e);
                },
            }
        }
        Ok(new_node_blk(nodes))
    }

    /// The parameters of a function, after its `(`.
    fn params(&mut self, tokens: &mut Tokens) -> (res: Result<Vec<Box<Node>>, ParseError>)
        requires
            old(self).wf(),
            old(tokens).wf(),
        ensures
            final(self).wf(),
            final(tokens).wf(),
            final(tokens).list == old(tokens).list,
            match g_params(
                old(self)@,
                old(tokens).stream(),
                old(tokens).current as int,
                Seq::empty(),
            ) {
                Ok(p) => res matches Ok(args) && asts_of(args@) == p.value && final(self)@
                    == p.scope && final(tokens).current == p.next,
                Err(f) => res matches Err(e) && e.is(f) && final(tokens).current == f.at,
            },
            res matches Ok(args) ==> old(tokens).current < final(tokens).current
                && labels_in_all(asts_of(args@)) == 0,
    {
        proof {
            reveal_with_fuel(g_params, 1);
        }
        let ghost ts = tokens.stream();
        let ghost at = tokens.current as int;
        let ghost whole = g_params(self@, ts, at, Seq::empty());
        let mut args: Vec<Box<Node>> = Vec::new();
        assert(asts_of(args@) =~= Seq::empty());
        loop
            invariant_except_break
                g_params(self@, ts, tokens.current as int, asts_of(args@)) == whole,
            invariant
                self.wf(),
                tokens.wf(),
                tokens.list == old(tokens).list,
                ts == old(tokens).stream(),
                at == old(tokens).current,
                at <= tokens.current,
                whole == g_params(old(self)@, ts, at, Seq::empty()),
                labels_in_all(asts_of(args@)) == 0,
            ensures
                at < tokens.current,
                whole == Ok::<Parsed<Seq<Ast>>, Fault>(
                    Parsed { value: asts_of(args@), scope: self@, next: tokens.current as int },
                ),
            decreases tokens.list@.len() - tokens.current,
        {
            proof {
                reveal_with_fuel(g_params, 1);
            }
            if tokens.expect_op(")") {
                break;
            }
            let vi = self.bind(tokens)?;
            self.declare(vi.name.clone(), vi.ty, tokens)?;
            let node = self.var(vi.name.as_str(), tokens)?;
            proof {
                lemma_asts_push(args@, node);
                lemma_labels_push(asts_of(args@), node@);
            }
            args.push(node);
            if tokens.expect_op(",") {
                continue;
            }
        }
        Ok(args)
    }

    /// A function, after `fn`.
    fn func(&mut self, tokens: &mut Tokens) -> (res: Result<Box<Node>, ParseError>)
        requires
            old(self).wf(),
            old(tokens).wf(),
        ensures
            stmt_parsed_as(
                g_func(old(self)@, old(tokens).stream(), old(tokens).current as int),
                res,
                *old(tokens),
                *final(self),
                *final(tokens),
            ),
    {
        proof {
            reveal_with_fuel(g_func, 1);
        }
        let name = match tokens.expect_idt() {
            Some(s) => s.to_owned(),
            None => {
                return Err(ParseError::new(ParseErrorKind::FuncExpected, tokens));
            },
        };
        if !tokens.expect_op("(") {
            return Err(ParseError::new(ParseErrorKind::ArgExpected, tokens));
        }
        let args = self.params(tokens)?;
        let ghost declared = self@;
        self.cur_type = if tokens.expect_op("->") {
            self.typ(tokens)?
        } else {
            Type::Int8
        };
        let new = Func { name: name.clone(), ty: self.cur_type.clone() };
        self.func_list.push(new);
        assert(self@.funcs =~= declared.funcs.push(
            Signature { name: name@, ty: self.cur_type },
        ));
        if !tokens.expect_op("{") {
            return Err(ParseError::new(ParseErrorKind::BlockExpected, tokens));
        }
        let block = self.blk(tokens)?;
        let stack = align_double_word(self.stack_size());
        let ghost closed = self@;
        self.lvar_list.clear();
        assert(self@.locals =~= Seq::empty());
        assert(self@ == (Scope { locals: Seq::empty(), ..closed }));
        Ok(new_node_func(name.as_str(), args, stack, block))
    }

    /// The body of `if` or `while`.
    fn body(&mut self, tokens: &mut Tokens) -> (res: Result<Box<Node>, ParseError>)
        requires
            old(self).wf(),
            old(tokens).wf(),
        ensures
            stmt_parsed_as(
                g_body(old(self)@, old(tokens).stream(), old(tokens).current as int),
                res,
                *old(tokens),
                *final(self),
                *final(tokens),
            ),
        decreases old(tokens).list@.len() - old(tokens).current, 33int,
    {
        proof {
            reveal_with_fuel(g_body, 1);
            reveal_with_fuel(g_blk, 1);
            reveal_with_fuel(g_stmt, 1);
        }
        if tokens.expect_op("{") {
            self.blk(tokens)
        } else {
            self.stmt(tokens)
        }
    }

    /// A conditional, after `if`.
    fn ifel(&mut self, tokens: &mut Tokens) -> (res: Result<Box<Node>, ParseError>)
        requires
            old(self).wf(),
            old(tokens).wf(),
        ensures
            parsed_as(
                g_ifel(old(self)@, old(tokens).stream(), old(tokens).current as int),
                res,
                *old(tokens),
                *final(self),
                *final(tokens),
            ),
            res matches Ok(node) ==> labels_in(node@) <= final(tokens).current - old(tokens).current,
        decreases old(tokens).list@.len() - old(tokens).current, 34int,
    {
        proof {
            reveal_with_fuel(g_ifel, 1);
            reveal_with_fuel(g_body, 1);
        }
        let cond = self.expr(tokens)?;
        let ibody = self.body(tokens)?;
        if tokens.expect_rsv("else") {
            let ebody = self.body(tokens)?;
            Ok(new_node_ifel(cond, ibody, ebody))
        } else {
            Ok(new_node_if(cond, ibody))
        }
    }

    /// A loop, after `while`.
    fn whl(&mut self, tokens: &mut Tokens) -> (res: Result<Box<Node>, ParseError>)
        requires
            old(self).wf(),
            old(tokens).wf(),
        ensures
            parsed_as(
                g_whl(old(self)@, old(tokens).stream(), old(tokens).current as int),
                res,
                *old(tokens),
                *final(self),
                *final(tokens),
            ),
            res matches Ok(node) ==> labels_in(node@) <= final(tokens).current - old(tokens).current,
        decreases old(tokens).list@.len() - old(tokens).current, 34int,
    {
        proof {
            reveal_with_fuel(g_whl, 1);
            reveal_with_fuel(g_body, 1);
        }
        let cond = self.expr(tokens)?;
        let body = self.body(tokens)?;
        Ok(new_node_whl(cond, body))
    }

    /// The declaration of a local, after `let`.
    fn locl(&mut self, tokens: &mut Tokens) -> (res: Result<Box<Node>, ParseError>)
        requires
            old(self).wf(),
            old(tokens).wf(),
        ensures
            stmt_parsed_as(
                g_locl(old(self)@, old(tokens).stream(), old(tokens).current as int),
                res,
                *old(tokens),
                *final(self),
                *final(tokens),
            ),
            res is Err ==> final(self)@ == old(self)@,
    {
        let vi = self.bind(tokens)?;
        let offset = self.declare(vi.name, vi.ty.clone(), tokens)?;
        Ok(new_node_decl(offset, vi.ty))
    }

    /// A statement.
    fn stmt(&mut self, tokens: &mut Tokens) -> (res: Result<Box<Node>, ParseError>)
        requires
            old(self).wf(),
            old(tokens).wf(),
        ensures
            stmt_parsed_as(
                g_stmt(old(self)@, old(tokens).stream(), old(tokens).current as int),
                res,
                *old(tokens),
                *final(self),
                *final(tokens),
            ),
        decreases old(tokens).list@.len() - old(tokens).current, 30int,
    {
        proof {
            reveal_with_fuel(g_stmt, 1);
            reveal_with_fuel(g_ifel, 1);
            reveal_with_fuel(g_whl, 1);
        }
        let node: Box<Node>;
        if tokens.expect_rsv("if") {
            node = self.ifel(tokens)?;
        } else if tokens.expect_rsv("while") {
            node = self.whl(tokens)?;
        } else if tokens.expect_rsv("let") {
            node = self.locl(tokens)?;
            self.consume_semicolon(tokens)?;
        } else if tokens.expect_rsv("return") {
            let rhs = self.expr(tokens)?;
            node = new_node_ret(rhs, self.cur_type.clone());
            self.consume_semicolon(tokens)?;
        } else {
            node = self.expr(tokens)?;
            self.consume_semicolon(tokens)?;
        }
        Ok(node)
    }

    /// The declaration of a global, after `static`.
    fn glbl(&mut self, tokens: &mut Tokens) -> (res: Result<Box<Node>, ParseError>)
        requires
            old(self).wf(),
            old(tokens).wf(),
        ensures
            stmt_parsed_as(
                g_glbl(old(self)@, old(tokens).stream(), old(tokens).current as int),
                res,
                *old(tokens),
                *final(self),
                *final(tokens),
            ),
    {
        let vi = self.bind(tokens)?;
        let size = match checked_type_size(&vi.ty) {
            Some(size) => size,
            None => {
                return Err(ParseError::new(ParseErrorKind::TypeInvalid, tokens));
            },
        };
        let ghost before = self@;
        let new = Gvar { name: vi.name.clone(), ty: vi.ty.clone() };
        self.gvar_list.push(new);
        assert(self@.globals =~= before.globals.push(Global { name: vi.name@, ty: vi.ty }));
        Ok(new_node_decg(vi.name.as_str(), size, vi.ty))
    }

    /// A declaration of the top level.
    fn top(&mut self, tokens: &mut Tokens) -> (res: Result<Box<Node>, ParseError>)
        requires
            old(self).wf(),
            old(tokens).wf(),
        ensures
            stmt_parsed_as(
                g_top(old(self)@, old(tokens).stream(), old(tokens).current as int),
                res,
                *old(tokens),
                *final(self),
                *final(tokens),
            ),
    {
        if tokens.expect_rsv("fn") {
            self.func(tokens)
        } else if tokens.expect_rsv("static") {
            let node = self.glbl(tokens)?;
            self.consume_semicolon(tokens)?;
            Ok(node)
        } else {
            Err(ParseError::new(ParseErrorKind::NotInTop, tokens))
        }
    }

    /// Parses a program: every declaration of the top level, in the order
    /// of the source, up to the end token.
    ///
    /// The result is what [`g_program`] gives for the tokens from the cursor
    /// on: the nodes of the trees, with the parser holding the declarations
    /// made and the cursor at the end token, or the first fault. The nodes
    /// hold no more conditionals and loops than tokens were read.
    pub fn program(&mut self, tokens: &mut Tokens) -> (res: Result<Vec<Box<Node>>, ParseError>)
        requires
            old(self).wf(),
            old(tokens).wf(),
        ensures
            final(self).wf(),
            final(tokens).wf(),
            final(tokens).list == old(tokens).list,
            match g_program(
                old(self)@,
                old(tokens).stream(),
                old(tokens).current as int,
                Seq::empty(),
            ) {
                Ok(p) => res matches Ok(nodes) && asts_of(nodes@) == p.value && final(self)@
                    == p.scope && final(tokens).current == p.next,
                Err(f) => res matches Err(e) && e.is(f) && final(tokens).current == f.at,
            },
            res matches Ok(nodes) ==> labels_in_all(asts_of(nodes@)) <= final(tokens).current
                - old(tokens).current,
    {
        proof {
            reveal_with_fuel(g_program, 1);
        }
        let ghost ts = tokens.stream();
        let ghost at = tokens.current as int;
        let ghost whole = g_program(self@, ts, at, Seq::empty());
        let mut nodes: Vec<Box<Node>> = Vec::new();
        assert(asts_of(nodes@) =~= Seq::empty());
        while tokens.has_next()
            invariant
                self.wf(),
                tokens.wf(),
                tokens.list == old(tokens).list,
                ts == old(tokens).stream(),
                at == old(tokens).current,
                at <= tokens.current,
                g_program(self@, ts, tokens.current as int, asts_of(nodes@)) == whole,
                whole == g_program(old(self)@, ts, at, Seq::empty()),
                labels_in_all(asts_of(nodes@)) <= tokens.current - at,
            decreases tokens.list@.len() - tokens.current,
        {
            proof {
                reveal_with_fuel(g_program, 1);
            }
            match self.top(tokens) {
                Ok(node) => {
                    proof {
                        lemma_asts_push(nodes@, node);
                        lemma_labels_push(asts_of(nodes@), node@);
                    }
                    nodes.push(node)
                },
                Err(e) => {
                    return Err(e);
                },
            }
        }
        Ok(nodes)
    }

    /// A new parser, with nothing declared.
    pub fn new() -> (r: Self)
        ensures
            r.wf(),
            r@ == (Scope {
                locals: Seq::empty(),
                globals: Seq::empty(),
                funcs: Seq::empty(),
                literals: Seq::empty(),
                cur_type: Type::Int8,
            }),
    {
        let r = Parser {
            lvar_list: Vec::new(),
            gvar_list: Vec::new(),
            literal_list: Vec::new(),
            func_list: Vec::new(),
            cur_type: Type::Int8,
        };
        assert(r@.locals =~= Seq::empty());
        assert(r@.globals =~= Seq::empty());
        assert(r@.funcs =~= Seq::empty());
        assert(r@.literals =~= Seq::empty());
        r
    }
}

} // verus!
