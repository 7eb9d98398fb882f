//! The syntax tree that the parser builds, the analyzer annotates and the
//! interpreter walks.

use vstd::prelude::*;
use crate::symbols::{clone_procedure_symbol, procedure_symbol_view, ProcedureSymbol, ProcedureSymbolView};
use crate::tokens::{Token, TokenView, Value, ValueView};

verus! {

/// A node of the syntax tree.
#[derive(Debug, PartialEq)]
pub enum Node {
    BinOp(Box<Node>, Token, Box<Node>),
    Num(Value),
    UnaryOp(Token, Box<Node>),
    Compound(Compound),
    Assign(Var, Token, Box<Node>),
    Var(Var),
    Program(String, Box<Block>),
    VarDecl(Var, Type),
    ProcedureDecl(String, Box<Block>, Vec<Param>),
    ProcedureCall(ProcedureCall),
    NoOp,
}

/// Declarations followed by the statements they serve.
#[derive(Debug, PartialEq)]
pub struct Block {
    pub declarations: Vec<Node>,
    pub compound_statement: Node,
}

/// The name of a type, as written.
#[derive(Debug, PartialEq)]
pub struct Type {
    pub value: Value,
}

/// An identifier with the token it came from.
#[derive(Debug, PartialEq)]
pub struct Var {
    pub token: Token,
    pub value: Value,
}

/// A `BEGIN ... END` list of statements.
#[derive(Debug, PartialEq)]
pub struct Compound {
    pub children: Vec<Node>,
}

/// A formal parameter of a procedure.
#[derive(Debug, PartialEq)]
pub struct Param {
    pub var_node: Var,
    pub type_node: Type,
}

/// A call of a procedure. `proc_symbol` is empty until the analyzer resolves
/// the call.
#[derive(Debug, PartialEq)]
pub struct ProcedureCall {
    pub proc_name: String,
    pub actual_params: Vec<Node>,
    pub token: Token,
    pub proc_symbol: Option<ProcedureSymbol>,
}

/// The mathematical content of a [`Node`], with sequences for vectors and
/// characters for strings.
pub enum NodeView {
    BinOp(Box<NodeView>, TokenView, Box<NodeView>),
    Num(ValueView),
    UnaryOp(TokenView, Box<NodeView>),
    Compound(CompoundView),
    Assign(VarView, TokenView, Box<NodeView>),
    Var(VarView),
    Program(Seq<char>, Box<BlockView>),
    VarDecl(VarView, TypeView),
    ProcedureDecl(Seq<char>, Box<BlockView>, Seq<ParamView>),
    ProcedureCall(ProcedureCallView),
    NoOp,
}

/// The mathematical content of a [`Block`].
pub struct BlockView {
    pub declarations: Seq<NodeView>,
    pub compound_statement: NodeView,
}

/// The mathematical content of a [`Type`].
pub struct TypeView {
    pub value: ValueView,
}

/// The mathematical content of a [`Var`].
pub struct VarView {
    pub token: TokenView,
    pub value: ValueView,
}

/// The mathematical content of a [`Compound`].
pub struct CompoundView {
    pub children: Seq<NodeView>,
}

/// The mathematical content of a [`Param`].
pub struct ParamView {
    pub var_node: VarView,
    pub type_node: TypeView,
}

/// The mathematical content of a [`ProcedureCall`].
pub struct ProcedureCallView {
    pub proc_name: Seq<char>,
    pub actual_params: Seq<NodeView>,
    pub token: TokenView,
    pub proc_symbol: Option<ProcedureSymbolView>,
}

/// The views of a list of nodes, in order.
pub open spec fn nodes_view(nodes: Vec<Node>) -> Seq<NodeView>
    decreases nodes,
{
    Seq::new(
        nodes@.len(),
        |i: int|
            if 0 <= i < nodes@.len() {
                node_view(nodes@[i])
            } else {
                NodeView::NoOp
            },
    )
}

/// The view of a tree.
pub open spec fn node_view(node: Node) -> NodeView
    decreases node,
{
    match node {
        Node::BinOp(left, op, right) => NodeView::BinOp(
            Box::new(node_view(*left)),
            op@,
            Box::new(node_view(*right)),
        ),
        Node::Num(value) => NodeView::Num(value@),
        Node::UnaryOp(op, operand) => NodeView::UnaryOp(op@, Box::new(node_view(*operand))),
        Node::Compound(compound) => NodeView::Compound(
            CompoundView { children: nodes_view(compound.children) },
        ),
        Node::Assign(target, op, right) => NodeView::Assign(
            target@,
            op@,
            Box::new(node_view(*right)),
        ),
        Node::Var(var) => NodeView::Var(var@),
        Node::Program(name, block) => NodeView::Program(name@, Box::new(block_view(*block))),
        Node::VarDecl(var, type_node) => NodeView::VarDecl(var@, type_node@),
        Node::ProcedureDecl(name, block, params) => NodeView::ProcedureDecl(
            name@,
            Box::new(block_view(*block)),
            params@.map_values(|param: Param| param@),
        ),
        Node::ProcedureCall(call) => NodeView::ProcedureCall(procedure_call_view(call)),
        Node::NoOp => NodeView::NoOp,
    }
}

/// The view of a block.
pub open spec fn block_view(block: Block) -> BlockView
    decreases block,
{
    BlockView {
        declarations: nodes_view(block.declarations),
        compound_statement: node_view(block.compound_statement),
    }
}

/// The view of a call.
pub open spec fn procedure_call_view(call: ProcedureCall) -> ProcedureCallView
    decreases call,
{
    ProcedureCallView {
        proc_name: call.proc_name@,
        actual_params: nodes_view(call.actual_params),
        token: call.token@,
        proc_symbol: match call.proc_symbol {
            Some(symbol) => Some(procedure_symbol_view(symbol)),
            None => None,
        },
    }
}

/// Copies of the trees, in order.
pub(crate) fn clone_nodes(nodes: &Vec<Node>) -> (copy: Vec<Node>)
    ensures
        nodes_view(copy) == nodes_view(*nodes),
    decreases nodes,
{
    let mut copy: Vec<Node> = Vec::new();
    let mut i: usize = 0;
    while i < nodes.len()
        invariant
            i <= nodes.len(),
            copy@.len() == i,
            forall|j: int| 0 <= j < i ==> node_view(#[trigger] copy@[j]) == node_view(nodes@[j]),
        decreases nodes.len() - i,
    {
        copy.push(clone_node(&nodes[i]));
        i += 1;
    }
    assert(nodes_view(copy) =~= nodes_view(*nodes));
    copy
}

/// A copy of the tree.
pub(crate) fn clone_node(node: &Node) -> (copy: Node)
    ensures
        copy@ == node@,
    decreases node,
{
    match node {
        Node::BinOp(left, op, right) => Node::BinOp(
            Box::new(clone_node(left)),
            op.clone(),
            Box::new(clone_node(right)),
        ),
        Node::Num(value) => Node::Num(value.clone()),
        Node::UnaryOp(op, operand) => Node::UnaryOp(op.clone(), Box::new(clone_node(operand))),
        Node::Compound(compound) => Node::Compound(
            Compound { children: clone_nodes(&compound.children) },
        ),
        Node::Assign(target, op, right) => Node::Assign(
            target.clone(),
            op.clone(),
            Box::new(clone_node(right)),
        ),
        Node::Var(var) => Node::Var(var.clone()),
        Node::Program(name, block) => Node::Program(name.clone(), Box::new(clone_block(block))),
        Node::VarDecl(var, type_node) => Node::VarDecl(var.clone(), type_node.clone()),
        Node::ProcedureDecl(name, block, params) => {
            let mut copy: Vec<Param> = Vec::new();
            let mut i: usize = 0;
            while i < params.len()
                invariant
                    i <= params.len(),
                    copy@.len() == i,
                    forall|j: int| 0 <= j < i ==> (#[trigger] copy@[j])@ == params@[j]@,
                decreases params.len() - i,
            {
                copy.push(params[i].clone());
                i += 1;
            }
            assert(copy@.map_values(|param: Param| param@) =~= params@.map_values(
                |param: Param| param@,
            ));
            Node::ProcedureDecl(name.clone(), Box::new(clone_block(block)), copy)
        },
        Node::ProcedureCall(call) => Node::ProcedureCall(clone_procedure_call(call)),
        Node::NoOp => Node::NoOp,
    }
}

/// A copy of the block.
pub(crate) fn clone_block(block: &Block) -> (copy: Block)
    ensures
        copy@ == block@,
    decreases block,
{
    Block {
        declarations: clone_nodes(&block.declarations),
        compound_statement: clone_node(&block.compound_statement),
    }
}

/// A copy of the call, with what it was resolved to.
pub(crate) fn clone_procedure_call(call: &ProcedureCall) -> (copy: ProcedureCall)
    ensures
        copy@ == call@,
    decreases call,
{
    ProcedureCall {
        proc_name: call.proc_name.clone(),
        actual_params: clone_nodes(&call.actual_params),
        token: call.token.clone(),
        proc_symbol: match &call.proc_symbol {
            Some(symbol) => Some(clone_procedure_symbol(symbol)),
            None => None,
        },
    }
}

impl Clone for Node {
    fn clone(&self) -> (copy: Node)
        ensures
            copy@ == self@,
    {
        clone_node(self)
    }
}

impl Clone for Block {
    fn clone(&self) -> (copy: Block)
        ensures
            copy@ == self@,
    {
        clone_block(self)
    }
}

impl Clone for Type {
    fn clone(&self) -> (copy: Type)
        ensures
            copy@ == self@,
    {
        Type { value: self.value.clone() }
    }
}

impl Clone for Var {
    fn clone(&self) -> (copy: Var)
        ensures
            copy@ == self@,
    {
        Var { token: self.token.clone(), value: self.value.clone() }
    }
}

impl Clone for Compound {
    fn clone(&self) -> (copy: Compound)
        ensures
            copy@ == self@,
    {
        Compound { children: clone_nodes(&self.children) }
    }
}

impl Clone for Param {
    fn clone(&self) -> (copy: Param)
        ensures
            copy@ == self@,
    {
        Param { var_node: self.var_node.clone(), type_node: self.type_node.clone() }
    }
}

impl Clone for ProcedureCall {
    fn clone(&self) -> (copy: ProcedureCall)
        ensures
            copy@ == self@,
    {
        clone_procedure_call(self)
    }
}

impl Block {
    /// A block of the given declarations and statements.
    pub fn new(declarations: Vec<Node>, compound_statement: Node) -> (block: Block)
        ensures
            block == (Block { declarations, compound_statement }),
    {
        Block { declarations, compound_statement }
    }
}

impl Type {
    /// The type that `token` names.
    pub fn new(token: Token) -> (type_node: Type)
        ensures
            type_node == (Type { value: token.value }),
    {
        Type { value: token.value }
    }
}

impl Var {
    /// The identifier that `token` holds.
    pub fn new(token: Token) -> (var: Var)
        ensures
            var.token == token,
            var.value@ == token.value@,
    {
        Var { value: token.value.clone(), token }
    }
}

impl Compound {
    /// A list without statements.
    pub fn new() -> (compound: Compound)
        ensures
            compound.children@ == Seq::<Node>::empty(),
    {
        Compound { children: Vec::new() }
    }

    /// Appends a statement.
    pub fn push_child(&mut self, child: Node)
        ensures
            final(self).children@ == old(self).children@.push(child),
    {
        self.children.push(child);
    }
}

impl Param {
    /// The parameter of the given name and type.
    pub fn new(var_node: Var, type_node: Type) -> (param: Param)
        ensures
            param == (Param { var_node, type_node }),
    {
        Param { var_node, type_node }
    }
}

impl ProcedureCall {
    /// A call that has not been resolved yet.
    pub fn new(proc_name: String, actual_params: Vec<Node>, token: Token) -> (call: ProcedureCall)
        ensures
            call == (ProcedureCall { proc_name, actual_params, token, proc_symbol: None }),
            call@ == (ProcedureCallView {
                proc_name: proc_name@,
                actual_params: nodes_view(actual_params),
                token: token@,
                proc_symbol: None,
            }),
    {
        ProcedureCall { proc_name, actual_params, token, proc_symbol: None }
    }
}

impl View for Node {
    type V = NodeView;

    open spec fn view(&self) -> NodeView {
        node_view(*self)
    }
}

impl View for Block {
    type V = BlockView;

    open spec fn view(&self) -> BlockView {
        block_view(*self)
    }
}

impl View for Type {
    type V = TypeView;

    open spec fn view(&self) -> TypeView {
        TypeView { value: self.value@ }
    }
}

impl View for Var {
    type V = VarView;

    open spec fn view(&self) -> VarView {
        VarView { token: self.token@, value: self.value@ }
    }
}

impl View for Compound {
    type V = CompoundView;

    open spec fn view(&self) -> CompoundView {
        CompoundView { children: nodes_view(self.children) }
    }
}

impl View for Param {
    type V = ParamView;

    open spec fn view(&self) -> ParamView {
        ParamView { var_node: self.var_node@, type_node: self.type_node@ }
    }
}

impl View for ProcedureCall {
    type V = ProcedureCallView;

    open spec fn view(&self) -> ProcedureCallView {
        procedure_call_view(*self)
    }
}

/// The text of an identifier.
pub open spec fn identifier(value: ValueView) -> Seq<char> {
    match value {
        ValueView::String(name) => name,
        _ => Seq::empty(),
    }
}

/// Whether every identifier in the tree is text.
pub open spec fn well_formed(node: NodeView) -> bool
    decreases node,
{
    match node {
        NodeView::BinOp(left, _, right) => well_formed(*left) && well_formed(*right),
        NodeView::Num(_) => true,
        NodeView::UnaryOp(_, operand) => well_formed(*operand),
        NodeView::Compound(compound) => all_well_formed(compound.children),
        NodeView::Assign(target, _, right) => target.value is String && well_formed(*right),
        NodeView::Var(var) => var.value is String,
        NodeView::Program(_, block) => block_well_formed(*block),
        NodeView::VarDecl(var, type_node) => var.value is String && type_node.value is String,
        NodeView::ProcedureDecl(_, block, params) => block_well_formed(*block) && forall|
            i: int,
        |
            0 <= i < params.len() ==> (#[trigger] params[i]).var_node.value is String
                && params[i].type_node.value is String,
        NodeView::ProcedureCall(call) => all_well_formed(call.actual_params),
        NodeView::NoOp => true,
    }
}

/// Whether every identifier in each of the trees is text.
pub open spec fn all_well_formed(nodes: Seq<NodeView>) -> bool
    decreases nodes,
{
    forall|i: int| 0 <= i < nodes.len() ==> well_formed(#[trigger] nodes[i])
}

/// Whether every identifier in the block is text.
pub open spec fn block_well_formed(block: BlockView) -> bool
    decreases block,
{
    all_well_formed(block.declarations) && well_formed(block.compound_statement)
}

/// Appends a tree to a list of trees.
pub(crate) fn push_node(nodes: &mut Vec<Node>, node: Node)
    ensures
        nodes_view(*final(nodes)) == nodes_view(*old(nodes)).push(node@),
        all_well_formed(nodes_view(*old(nodes))) && well_formed(node@) ==> all_well_formed(
            nodes_view(*final(nodes)),
        ),
{
    nodes.push(node);
    assert(nodes_view(*nodes) =~= nodes_view(*old(nodes)).push(node@));
    proof {
        if all_well_formed(nodes_view(*old(nodes))) && well_formed(node@) {
            assert forall|i: int| 0 <= i < nodes_view(*nodes).len() implies well_formed(
                #[trigger] nodes_view(*nodes)[i],
            ) by {
                if i < nodes_view(*old(nodes)).len() {
                    assert(nodes_view(*nodes)[i] == nodes_view(*old(nodes))[i]);
                }
            }
        }
    }
}

} // verus!
