//! The syntax tree that the parser builds and the code generator walks.

use vstd::prelude::*;
use crate::types::Type;

verus! {

/// The binary operators. `>` and `>=` have no kind of their own: the parser
/// swaps their operands.
#[derive(Debug, PartialEq, Eq, Clone, Copy, Structural)]
pub enum BinaryOpKind {
    BinaryOpAdd,
    BinaryOpSub,
    BinaryOpMul,
    BinaryOpDiv,
    BinaryOpEq,
    BinaryOpNe,
    /// Less than.
    BinaryOpGr,
    /// Less than or equal.
    BinaryOpGe,
    BinaryOpAsn,
}

/// The unary operators: address-of and dereference.
#[derive(Debug, PartialEq, Eq, Clone, Copy, Structural)]
pub enum UnaryOpKind {
    UnaryOpRf,
    UnaryOpDrf,
}

/// A node of the syntax tree. Each node owns its children.
#[derive(Debug)]
#[allow(inconsistent_fields)]
pub enum Node {
    BinaryOperator { kind: BinaryOpKind, lhs: Box<Node>, rhs: Box<Node> },
    UnaryOperator { kind: UnaryOpKind, rhs: Box<Node> },
    Number { val: u32 },
    Bool { bl: bool },
    StrLiteral { s: String, label: usize },
    LocalVariable { offset: usize, ty: Type },
    DeclareLocal { offset: usize, ty: Type },
    GlobalVariable { name: String, offset: usize, ty: Type },
    DeclareGlobal { name: String, size: usize, ty: Type },
    Block { nodes: Vec<Box<Node>> },
    Function { name: String, args: Vec<Box<Node>>, stack: usize, block: Box<Node> },
    Call { name: String, args: Vec<Box<Node>>, ty: Type },
    If { cond: Box<Node>, ibody: Box<Node> },
    IfElse { cond: Box<Node>, ibody: Box<Node>, ebody: Box<Node> },
    While { cond: Box<Node>, body: Box<Node> },
    Return { rhs: Box<Node>, ty: Type },
}

/// The mathematical content of a [`Node`]: the same tree, with sequences of
/// characters for its strings and sequences of trees for its lists.
#[allow(inconsistent_fields)]
pub enum Ast {
    BinaryOperator { kind: BinaryOpKind, lhs: Box<Ast>, rhs: Box<Ast> },
    UnaryOperator { kind: UnaryOpKind, rhs: Box<Ast> },
    Number { val: u32 },
    Bool { bl: bool },
    StrLiteral { s: Seq<char>, label: usize },
    LocalVariable { offset: usize, ty: Type },
    DeclareLocal { offset: usize, ty: Type },
    GlobalVariable { name: Seq<char>, offset: usize, ty: Type },
    DeclareGlobal { name: Seq<char>, size: usize, ty: Type },
    Block { nodes: Seq<Ast> },
    Function { name: Seq<char>, args: Seq<Ast>, stack: usize, block: Box<Ast> },
    Call { name: Seq<char>, args: Seq<Ast>, ty: Type },
    If { cond: Box<Ast>, ibody: Box<Ast> },
    IfElse { cond: Box<Ast>, ibody: Box<Ast>, ebody: Box<Ast> },
    While { cond: Box<Ast>, body: Box<Ast> },
    Return { rhs: Box<Ast>, ty: Type },
}

/// The tree that `node` stands for.
pub open spec fn ast_of(node: Node) -> Ast
    decreases node,
{
    match node {
        Node::BinaryOperator { kind, lhs, rhs } => Ast::BinaryOperator {
            kind,
            lhs: Box::new(ast_of(*lhs)),
            rhs: Box::new(ast_of(*rhs)),
        },
        Node::UnaryOperator { kind, rhs } => Ast::UnaryOperator {
            kind,
            rhs: Box::new(ast_of(*rhs)),
        },
        Node::Number { val } => Ast::Number { val },
        Node::Bool { bl } => Ast::Bool { bl },
        Node::StrLiteral { s, label } => Ast::StrLiteral { s: s@, label },
        Node::LocalVariable { offset, ty } => Ast::LocalVariable { offset, ty },
        Node::DeclareLocal { offset, ty } => Ast::DeclareLocal { offset, ty },
        Node::GlobalVariable { name, offset, ty } => Ast::GlobalVariable {
            name: name@,
            offset,
            ty,
        },
        Node::DeclareGlobal { name, size, ty } => Ast::DeclareGlobal { name: name@, size, ty },
        Node::Block { nodes } => Ast::Block { nodes: asts_of(nodes@) },
        Node::Function { name, args, stack, block } => Ast::Function {
            name: name@,
            args: asts_of(args@),
            stack,
            block: Box::new(ast_of(*block)),
        },
        Node::Call { name, args, ty } => Ast::Call { name: name@, args: asts_of(args@), ty },
        Node::If { cond, ibody } => Ast::If {
            cond: Box::new(ast_of(*cond)),
            ibody: Box::new(ast_of(*ibody)),
        },
        Node::IfElse { cond, ibody, ebody } => Ast::IfElse {
            cond: Box::new(ast_of(*cond)),
            ibody: Box::new(ast_of(*ibody)),
            ebody: Box::new(ast_of(*ebody)),
        },
        Node::While { cond, body } => Ast::While {
            cond: Box::new(ast_of(*cond)),
            body: Box::new(ast_of(*body)),
        },
        Node::Return { rhs, ty } => Ast::Return { rhs: Box::new(ast_of(*rhs)), ty },
    }
}

/// The trees that a list of nodes stands for.
pub open spec fn asts_of(nodes: Seq<Box<Node>>) -> Seq<Ast>
    decreases nodes,
{
    Seq::new(
        nodes.len(),
        |i: int|
            if 0 <= i < nodes.len() {
                ast_of(*nodes[i])
            } else {
                Ast::Bool { bl: false }
            },
    )
}

impl View for Node {
    type V = Ast;

    open spec fn view(&self) -> Ast {
        ast_of(*self)
    }
}

/// The number of conditionals and loops in a tree. The code generator gives
/// each of them a label number of its own.
pub open spec fn labels_in(ast: Ast) -> nat
    decreases ast,
{
    match ast {
        Ast::BinaryOperator { kind, lhs, rhs } => labels_in(*lhs) + labels_in(*rhs),
        Ast::UnaryOperator { kind, rhs } => labels_in(*rhs),
        Ast::Block { nodes } => labels_in_all(nodes),
        Ast::Function { name, args, stack, block } => labels_in_all(args) + labels_in(*block),
        Ast::Call { name, args, ty } => labels_in_all(args),
        Ast::If { cond, ibody } => 1 + labels_in(*cond) + labels_in(*ibody),
        Ast::IfElse { cond, ibody, ebody } => 1 + labels_in(*cond) + labels_in(*ibody)
            + labels_in(*ebody),
        Ast::While { cond, body } => 1 + labels_in(*cond) + labels_in(*body),
        Ast::Return { rhs, ty } => labels_in(*rhs),
        _ => 0,
    }
}

/// The number of conditionals and loops in a list of trees.
pub open spec fn labels_in_all(nodes: Seq<Ast>) -> nat
    decreases nodes,
{
    if nodes.len() == 0 {
        0
    } else {
        labels_in_all(nodes.drop_last()) + labels_in(nodes.last())
    }
}

/// Adding a tree to a list adds its conditionals and loops to those of the
/// list.
pub proof fn lemma_labels_push(nodes: Seq<Ast>, ast: Ast)
    ensures
        labels_in_all(nodes.push(ast)) == labels_in_all(nodes) + labels_in(ast),
{
    assert(nodes.push(ast).drop_last() =~= nodes);
}

/// Adding a node to a list adds its tree to the trees of the list.
pub proof fn lemma_asts_push(nodes: Seq<Box<Node>>, node: Box<Node>)
    ensures
        asts_of(nodes.push(node)) == asts_of(nodes).push(node@),
{
    assert(asts_of(nodes.push(node)) =~= asts_of(nodes).push(node@));
}

pub fn new_node_bop(kind: BinaryOpKind, lhs: Box<Node>, rhs: Box<Node>) -> (r: Box<Node>)
    ensures
        r@ == (Ast::BinaryOperator { kind, lhs: Box::new(lhs@), rhs: Box::new(rhs@) }),
{
    let node = Node::BinaryOperator { kind: kind, lhs: lhs, rhs: rhs };
    Box::new(node)
}

pub fn new_node_uop(kind: UnaryOpKind, rhs: Box<Node>) -> (r: Box<Node>)
    ensures
        r@ == (Ast::UnaryOperator { kind, rhs: Box::new(rhs@) }),
{
    let node = Node::UnaryOperator { kind: kind, rhs: rhs };
    Box::new(node)
}

pub fn new_node_num(val: u32) -> (r: Box<Node>)
    ensures
        r@ == (Ast::Number { val }),
{
    let node = Node::Number { val: val };
    Box::new(node)
}

pub fn new_node_bl(bl: bool) -> (r: Box<Node>)
    ensures
        r@ == (Ast::Bool { bl }),
{
    let node = Node::Bool { bl: bl };
    Box::new(node)
}

pub fn new_node_str(s: &str, label: usize) -> (r: Box<Node>)
    ensures
        r@ == (Ast::StrLiteral { s: s@, label }),
{
    let node = Node::StrLiteral { s: s.to_owned(), label: label };
    Box::new(node)
}

pub fn new_node_lvar(offset: usize, ty: Type) -> (r: Box<Node>)
    ensures
        r@ == (Ast::LocalVariable { offset, ty }),
{
    let node = Node::LocalVariable { offset: offset, ty: ty };
    Box::new(node)
}

pub fn new_node_decl(offset: usize, ty: Type) -> (r: Box<Node>)
    ensures
        r@ == (Ast::DeclareLocal { offset, ty }),
{
    let node = Node::DeclareLocal { offset: offset, ty: ty };
    Box::new(node)
}

pub fn new_node_gvar(name: &str, offset: usize, ty: Type) -> (r: Box<Node>)
    ensures
        r@ == (Ast::GlobalVariable { name: name@, offset, ty }),
{
    let node = Node::GlobalVariable { name: name.to_owned(), offset: offset, ty: ty };
    Box::new(node)
}

pub fn new_node_decg(name: &str, size: usize, ty: Type) -> (r: Box<Node>)
    ensures
        r@ == (Ast::DeclareGlobal { name: name@, size, ty }),
{
    let node = Node::DeclareGlobal { name: name.to_owned(), size: size, ty: ty };
    Box::new(node)
}

pub fn new_node_blk(nodes: Vec<Box<Node>>) -> (r: Box<Node>)
    ensures
        r@ == (Ast::Block { nodes: asts_of(nodes@) }),
{
    let node = Node::Block { nodes: nodes };
    Box::new(node)
}

pub fn new_node_func(name: &str, args: Vec<Box<Node>>, stack: usize, block: Box<Node>) -> (r:
    Box<Node>)
    ensures
        r@ == (Ast::Function {
            name: name@,
            args: asts_of(args@),
            stack,
            block: Box::new(block@),
        }),
{
    let node = Node::Function { name: name.to_owned(), args: args, stack: stack, block: block };
    Box::new(node)
}

pub fn new_node_call(name: &str, args: Vec<Box<Node>>, ty: Type) -> (r: Box<Node>)
    ensures
        r@ == (Ast::Call { name: name@, args: asts_of(args@), ty }),
{
    let node = Node::Call { name: name.to_owned(), args: args, ty: ty };
    Box::new(node)
}

pub fn new_node_if(cond: Box<Node>, ibody: Box<Node>) -> (r: Box<Node>)
    ensures
        r@ == (Ast::If { cond: Box::new(cond@), ibody: Box::new(ibody@) }),
{
    let node = Node::If { cond: cond, ibody: ibody };
    Box::new(node)
}

pub fn new_node_ifel(cond: Box<Node>, ibody: Box<Node>, ebody: Box<Node>) -> (r: Box<Node>)
    ensures
        r@ == (Ast::IfElse {
            cond: Box::new(cond@),
            ibody: Box::new(ibody@),
            ebody: Box::new(ebody@),
        }),
{
    let node = Node::IfElse { cond: cond, ibody: ibody, ebody: ebody };
    Box::new(node)
}

pub fn new_node_whl(cond: Box<Node>, body: Box<Node>) -> (r: Box<Node>)
    ensures
        r@ == (Ast::While { cond: Box::new(cond@), body: Box::new(body@) }),
{
    let node = Node::While { cond: cond, body: body };
    Box::new(node)
}

pub fn new_node_ret(rhs: Box<Node>, ty: Type) -> (r: Box<Node>)
    ensures
        r@ == (Ast::Return { rhs: Box::new(rhs@), ty }),
{
    let node = Node::Return { rhs: rhs, ty: ty };
    Box::new(node)
}

} // verus!
