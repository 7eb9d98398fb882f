//! Symbols and scoped symbol tables for analysis; activation records and the
//! call stack for execution.

use vstd::prelude::*;
use crate::ast::{
    all_well_formed, block_view, block_well_formed, clone_block, identifier, nodes_view,
    well_formed, Block, BlockView, Compound, Node, NodeView, ProcedureCall, Type, Var, VarView,
};
use crate::dictionary::Dictionary;
use crate::error::{failure, name_token, ErrorCode, SemanticError, SemanticErrorView};
use crate::interpreter::NodeVisitor;
use crate::text::{lowercase, to_lowercase};
use crate::tokens::{Token, TokenType, Value, ValueView};

verus! {

/// The runtime stack of activation records, the innermost call last.
#[derive(Debug, PartialEq)]
pub struct CallStack {
    pub records: Vec<ActivationRecord>,
}

impl View for CallStack {
    type V = Seq<ActivationRecordView>;

    open spec fn view(&self) -> Seq<ActivationRecordView> {
        self.records@.map_values(|record: ActivationRecord| record@)
    }
}

impl CallStack {
    /// A stack without records.
    pub fn new() -> (stack: CallStack)
        ensures
            stack@ == Seq::<ActivationRecordView>::empty(),
    {
        let stack = CallStack { records: Vec::new() };
        assert(stack@ =~= Seq::<ActivationRecordView>::empty());
        stack
    }

    /// Puts `ar` on top.
    pub fn push(&mut self, ar: ActivationRecord)
        ensures
            final(self)@ == old(self)@.push(ar@),
    {
        self.records.push(ar);
        assert(self@ =~= old(self)@.push(ar@));
    }

    /// Takes the top record off, if there is one.
    pub fn pop(&mut self) -> (top: Option<ActivationRecord>)
        ensures
            match top {
                Some(record) => old(self)@.len() > 0 && record@ == old(self)@.last()
                    && final(self)@ == old(self)@.drop_last(),
                None => old(self)@.len() == 0 && final(self)@ == old(self)@,
            },
    {
        let top = self.records.pop();
        assert(top is Some ==> self@ =~= old(self)@.drop_last());
        top
    }

    /// The top record, for reading and writing.
    pub fn peek(&mut self) -> (top: Option<&mut ActivationRecord>)
        ensures
            match top {
                Some(record) => old(self)@.len() > 0 && record@ == old(self)@.last()
                    && final(self)@ == old(self)@.update(
                    old(self)@.len() - 1,
                    final(record)@,
                ),
                None => old(self)@.len() == 0 && final(self)@ == old(self)@,
            },
    {
        let depth = self.records.len();
        if depth == 0 {
            None
        } else {
            let record = &mut self.records[depth - 1];
            Some(record)
        }
    }

    /// The number of records on the stack.
    pub fn len(&self) -> (depth: usize)
        ensures
            depth == self@.len(),
    {
        self.records.len()
    }

    /// The top record, for reading.
    pub fn top(&self) -> (top: Option<&ActivationRecord>)
        ensures
            match top {
                Some(record) => self@.len() > 0 && record@ == self@.last(),
                None => self@.len() == 0,
            },
    {
        let depth = self.records.len();
        if depth == 0 {
            None
        } else {
            Some(&self.records[depth - 1])
        }
    }
}

/// What an activation record was pushed for.
#[derive(Debug, PartialEq, Eq, Clone, Copy, Structural)]
pub enum ARType {
    Program,
    Procedure,
}

/// The frame of one active call: the values of the names its body may use.
/// `nesting_level` is the depth of the call on the stack, which is not the
/// lexical depth of the scope.
#[derive(Debug, PartialEq)]
pub struct ActivationRecord {
    pub name: String,
    pub type_: ARType,
    pub nesting_level: usize,
    pub members: Dictionary<Value>,
}

/// The mathematical content of an [`ActivationRecord`].
pub struct ActivationRecordView {
    pub name: Seq<char>,
    pub type_: ARType,
    pub nesting_level: usize,
    pub members: Map<Seq<char>, ValueView>,
}

impl View for ActivationRecord {
    type V = ActivationRecordView;

    open spec fn view(&self) -> ActivationRecordView {
        ActivationRecordView {
            name: self.name@,
            type_: self.type_,
            nesting_level: self.nesting_level,
            members: self.members@.map_values(|value: Value| value@),
        }
    }
}

impl ActivationRecordView {
    /// The record with `key` bound to `value`.
    pub open spec fn set(self, key: Seq<char>, value: ValueView) -> ActivationRecordView {
        ActivationRecordView { members: self.members.insert(key, value), ..self }
    }

    /// What `key` is bound to.
    pub open spec fn get(self, key: Seq<char>) -> Option<ValueView> {
        if self.members.contains_key(key) {
            Some(self.members[key])
        } else {
            None
        }
    }
}

impl ActivationRecord {
    /// A record without bindings.
    pub fn new(name: String, type_: ARType, nesting_level: usize) -> (record: ActivationRecord)
        ensures
            record@ == (ActivationRecordView {
                name: name@,
                type_,
                nesting_level,
                members: Map::empty(),
            }),
    {
        let record = ActivationRecord { name, type_, nesting_level, members: Dictionary::new() };
        assert(record@.members =~= Map::empty());
        record
    }

    /// Binds `key` to `value`, whether or not it was bound before.
    pub fn set(&mut self, key: String, value: Value)
        ensures
            final(self)@ == old(self)@.set(key@, value@),
    {
        self.members.insert(key, value);
        assert(self@.members =~= old(self)@.members.insert(key@, value@));
    }

    /// What `key` is bound to.
    pub fn get(&self, key: String) -> (found: Option<&Value>)
        ensures
            match found {
                Some(value) => self@.get(key@) == Some(value@),
                None => self@.get(key@) is None,
            },
    {
        self.members.get(&key)
    }
}

/// The names declared in one lexical scope, with the table of the scope that
/// encloses it. Names are looked up in lower case.
#[derive(Debug, PartialEq)]
pub struct SymbolTable {
    pub symbols: Dictionary<Symbol>,
    pub scope_level: usize,
    pub scope_name: String,
    pub enclosing_scope: Option<Box<SymbolTable>>,
}

/// The mathematical content of a [`SymbolTable`].
pub struct SymbolTableView {
    pub symbols: Map<Seq<char>, SymbolView>,
    pub scope_level: usize,
    pub scope_name: Seq<char>,
    pub enclosing_scope: Option<Box<SymbolTableView>>,
}

/// The view of a table and of the tables around it.
pub open spec fn symbol_table_view(table: SymbolTable) -> SymbolTableView
    decreases table,
{
    SymbolTableView {
        symbols: table.symbols@.map_values(|symbol: Symbol| symbol@),
        scope_level: table.scope_level,
        scope_name: table.scope_name@,
        enclosing_scope: match table.enclosing_scope {
            Some(outer) => Some(Box::new(symbol_table_view(*outer))),
            None => None,
        },
    }
}

impl View for SymbolTable {
    type V = SymbolTableView;

    open spec fn view(&self) -> SymbolTableView {
        symbol_table_view(*self)
    }
}

/// The symbols that every scope starts with: the types `INTEGER` and `REAL`.
pub open spec fn builtin_symbols() -> Map<Seq<char>, SymbolView> {
    Map::<Seq<char>, SymbolView>::empty().insert(
        lowercase("INTEGER"@),
        SymbolView::Builtin("INTEGER"@),
    ).insert(lowercase("REAL"@), SymbolView::Builtin("REAL"@))
}

impl SymbolTableView {
    /// The table with `symbol` stored under `key`.
    pub open spec fn insert_under(self, key: Seq<char>, symbol: SymbolView) -> SymbolTableView {
        SymbolTableView { symbols: self.symbols.insert(key, symbol), ..self }
    }

    /// The table with `symbol` stored under its name in lower case.
    pub open spec fn insert(self, symbol: SymbolView) -> SymbolTableView {
        self.insert_under(lowercase(symbol.name()), symbol)
    }

    /// The nearest symbol stored under `key`: that of this table, or else,
    /// unless `current_scope_only`, the nearest of the enclosing tables.
    pub open spec fn lookup_key(self, key: Seq<char>, current_scope_only: bool) -> Option<
        SymbolView,
    >
        decreases self,
    {
        if self.symbols.contains_key(key) {
            Some(self.symbols[key])
        } else if current_scope_only {
            None
        } else {
            match self.enclosing_scope {
                Some(outer) => outer.lookup_key(key, false),
                None => None,
            }
        }
    }

    /// The nearest symbol declared under `name`, whatever its case.
    pub open spec fn lookup(self, name: Seq<char>, current_scope_only: bool) -> Option<
        SymbolView,
    > {
        self.lookup_key(lowercase(name), current_scope_only)
    }
}

impl SymbolTable {
    /// A table that holds the builtin types and nothing else.
    pub fn new(scope_name: String, scope_level: usize, enclosing_scope: Option<SymbolTable>) -> (table:
        SymbolTable)
        ensures
            table@ == (SymbolTableView {
                symbols: builtin_symbols(),
                scope_level,
                scope_name: scope_name@,
                enclosing_scope: match enclosing_scope {
                    Some(outer) => Some(Box::new(outer@)),
                    None => None,
                },
            }),
    {
        let mut table = SymbolTable {
            symbols: Dictionary::new(),
            scope_level,
            scope_name,
            enclosing_scope: match enclosing_scope {
                Some(outer) => Some(Box::new(outer)),
                None => None,
            },
        };
        assert(table@.symbols =~= Map::<Seq<char>, SymbolView>::empty());
        table.init_builtins();
        table
    }

    fn init_builtins(&mut self)
        ensures
            final(self)@ == old(self)@.insert(SymbolView::Builtin("INTEGER"@)).insert(
                SymbolView::Builtin("REAL"@),
            ),
    {
        self.insert(Symbol::Builtin(String::from_str("INTEGER")));
        self.insert(Symbol::Builtin(String::from_str("REAL")));
    }

    /// Stores `symbol` under its name in lower case, replacing what was
    /// stored there. Enclosing tables are not touched.
    pub fn insert(&mut self, symbol: Symbol)
        ensures
            final(self)@ == old(self)@.insert(symbol@),
    {
        let name = symbol.name();
        let key = to_lowercase(&name);
        self.insert_under(key, symbol);
    }

    /// Stores `symbol` under `key` as it is given.
    pub fn insert_under(&mut self, key: String, symbol: Symbol)
        ensures
            final(self)@ == old(self)@.insert_under(key@, symbol@),
    {
        self.symbols.insert(key, symbol);
        assert(self@.symbols =~= old(self)@.symbols.insert(key@, symbol@));
    }

    /// The nearest symbol declared under `name`, whatever its case.
    pub fn lookup(&self, name: String, current_scope_only: bool) -> (found: Option<&Symbol>)
        ensures
            match found {
                Some(symbol) => self@.lookup(name@, current_scope_only) == Some(symbol@),
                None => self@.lookup(name@, current_scope_only) is None,
            },
    {
        let key = to_lowercase(&name);
        self.lookup_key(&key, current_scope_only)
    }

    /// The nearest symbol stored under `key` as it is given.
    pub fn lookup_key(&self, key: &String, current_scope_only: bool) -> (found: Option<&Symbol>)
        ensures
            match found {
                Some(symbol) => self@.lookup_key(key@, current_scope_only) == Some(symbol@),
                None => self@.lookup_key(key@, current_scope_only) is None,
            },
    {
        let mut scope: &SymbolTable = self;
        loop
            invariant
                self@.lookup_key(key@, current_scope_only) == scope@.lookup_key(
                    key@,
                    current_scope_only,
                ),
            decreases scope,
        {
            match scope.symbols.get(key) {
                Some(symbol) => {
                    return Some(symbol);
                },
                None => {},
            }
            if current_scope_only {
                return None;
            }
            match &scope.enclosing_scope {
                Some(outer) => {
                    scope = &**outer;
                },
                None => {
                    return None;
                },
            }
        }
    }
}

/// What is declared is found: after a symbol has been inserted, a lookup of
/// its name in the table itself finds it, whatever the case of the name.
pub proof fn lemma_lookup_finds_inserted(
    table: SymbolTableView,
    symbol: SymbolView,
    name: Seq<char>,
    current_scope_only: bool,
)
    requires
        lowercase(name) == lowercase(symbol.name()),
    ensures
        table.insert(symbol).lookup(name, current_scope_only) == Some(symbol),
{
}

/// An insertion changes the lookup of no other name.
pub proof fn lemma_insert_is_local(
    table: SymbolTableView,
    symbol: SymbolView,
    name: Seq<char>,
    current_scope_only: bool,
)
    requires
        lowercase(name) != lowercase(symbol.name()),
    ensures
        table.insert(symbol).lookup(name, current_scope_only) == table.lookup(
            name,
            current_scope_only,
        ),
{
}

/// A lookup goes by the lower-case form of the name alone.
pub proof fn lemma_lookup_ignores_case(
    table: SymbolTableView,
    name: Seq<char>,
    other: Seq<char>,
    current_scope_only: bool,
)
    requires
        lowercase(name) == lowercase(other),
    ensures
        table.lookup(name, current_scope_only) == table.lookup(other, current_scope_only),
{
}

/// What the table itself holds hides what the tables around it hold under
/// the same name, and what it does not hold is looked up around it.
pub proof fn lemma_lookup_prefers_the_inner_scope(
    table: SymbolTableView,
    name: Seq<char>,
)
    ensures
        table.lookup(name, true) is Some ==> table.lookup(name, false) == table.lookup(name, true),
        table.lookup(name, true) is None ==> table.lookup(name, false) == match table.enclosing_scope {
            Some(outer) => outer.lookup(name, false),
            None => None,
        },
{
}

/// What a declared name stands for.
#[derive(Debug, PartialEq)]
pub enum Symbol {
    Builtin(String),
    Var(Box<VarSymbol>),
    Procedure(ProcedureSymbol),
}

/// A variable with the symbol of its type.
#[derive(Debug, PartialEq)]
pub struct VarSymbol {
    pub name: String,
    pub type_: Symbol,
}

/// A procedure with its formal parameters, in order, and its body.
///
/// The body is there once the procedure has been analyzed, with the calls in
/// it resolved; while the body is still being analyzed, the symbol stands
/// without it. `scope_level` is the lexical level of the procedure's own
/// scope: with the name it tells the procedure from every other that can be
/// running at the same time.
#[derive(Debug, PartialEq)]
pub struct ProcedureSymbol {
    pub name: String,
    pub formal_params: Vec<VarSymbol>,
    pub block_ast: Option<Box<Block>>,
    pub scope_level: usize,
}

/// The mathematical content of a [`Symbol`].
pub enum SymbolView {
    Builtin(Seq<char>),
    Var(Box<VarSymbolView>),
    Procedure(ProcedureSymbolView),
}

/// The mathematical content of a [`VarSymbol`].
pub struct VarSymbolView {
    pub name: Seq<char>,
    pub type_: SymbolView,
}

/// The mathematical content of a [`ProcedureSymbol`].
pub struct ProcedureSymbolView {
    pub name: Seq<char>,
    pub formal_params: Seq<VarSymbolView>,
    pub block_ast: Option<Box<BlockView>>,
    pub scope_level: usize,
}

/// The view of a symbol.
pub open spec fn symbol_view(symbol: Symbol) -> SymbolView
    decreases symbol,
{
    match symbol {
        Symbol::Builtin(name) => SymbolView::Builtin(name@),
        Symbol::Var(var) => SymbolView::Var(Box::new(var_symbol_view(*var))),
        Symbol::Procedure(procedure) => SymbolView::Procedure(procedure_symbol_view(procedure)),
    }
}

/// The view of the symbol of a variable.
pub open spec fn var_symbol_view(var: VarSymbol) -> VarSymbolView
    decreases var,
{
    VarSymbolView { name: var.name@, type_: symbol_view(var.type_) }
}

/// The views of the symbols of variables, in order.
pub open spec fn var_symbols_view(vars: Vec<VarSymbol>) -> Seq<VarSymbolView>
    decreases vars,
{
    Seq::new(
        vars@.len(),
        |i: int|
            if 0 <= i < vars@.len() {
                var_symbol_view(vars@[i])
            } else {
                VarSymbolView { name: Seq::empty(), type_: SymbolView::Builtin(Seq::empty()) }
            },
    )
}

/// The view of the symbol of a procedure.
pub open spec fn procedure_symbol_view(procedure: ProcedureSymbol) -> ProcedureSymbolView
    decreases procedure,
{
    ProcedureSymbolView {
        name: procedure.name@,
        formal_params: var_symbols_view(procedure.formal_params),
        block_ast: match procedure.block_ast {
            Some(block) => Some(Box::new(block_view(*block))),
            None => None,
        },
        scope_level: procedure.scope_level,
    }
}

/// A copy of the symbol.
pub(crate) fn clone_symbol(symbol: &Symbol) -> (copy: Symbol)
    ensures
        copy@ == symbol@,
    decreases symbol,
{
    match symbol {
        Symbol::Builtin(name) => Symbol::Builtin(name.clone()),
        Symbol::Var(var) => Symbol::Var(Box::new(clone_var_symbol(var))),
        Symbol::Procedure(procedure) => Symbol::Procedure(clone_procedure_symbol(procedure)),
    }
}

/// A copy of the symbol.
pub(crate) fn clone_var_symbol(var: &VarSymbol) -> (copy: VarSymbol)
    ensures
        copy@ == var@,
    decreases var,
{
    VarSymbol { name: var.name.clone(), type_: clone_symbol(&var.type_) }
}

/// A copy of the symbol, with the body of the procedure.
pub(crate) fn clone_procedure_symbol(procedure: &ProcedureSymbol) -> (copy: ProcedureSymbol)
    ensures
        copy@ == procedure@,
    decreases procedure,
{
    let mut params: Vec<VarSymbol> = Vec::new();
    let mut i: usize = 0;
    while i < procedure.formal_params.len()
        invariant
            i <= procedure.formal_params.len(),
            params@.len() == i,
            forall|j: int|
                0 <= j < i ==> var_symbol_view(#[trigger] params@[j]) == var_symbol_view(
                    procedure.formal_params@[j],
                ),
        decreases procedure.formal_params.len() - i,
    {
        params.push(clone_var_symbol(&procedure.formal_params[i]));
        i += 1;
    }
    assert(var_symbols_view(params) =~= var_symbols_view(procedure.formal_params));
    ProcedureSymbol {
        name: procedure.name.clone(),
        formal_params: params,
        block_ast: match &procedure.block_ast {
            Some(block) => Some(Box::new(clone_block(block))),
            None => None,
        },
        scope_level: procedure.scope_level,
    }
}

impl Clone for Symbol {
    fn clone(&self) -> (copy: Symbol)
        ensures
            copy@ == self@,
    {
        clone_symbol(self)
    }
}

impl Clone for VarSymbol {
    fn clone(&self) -> (copy: VarSymbol)
        ensures
            copy@ == self@,
    {
        clone_var_symbol(self)
    }
}

impl Clone for ProcedureSymbol {
    fn clone(&self) -> (copy: ProcedureSymbol)
        ensures
            copy@ == self@,
    {
        clone_procedure_symbol(self)
    }
}

impl VarSymbol {
    /// The variable of the given name and type.
    pub fn new(name: String, type_: Symbol) -> (var: VarSymbol)
        ensures
            var == (VarSymbol { name, type_ }),
    {
        VarSymbol { name, type_ }
    }
}

impl ProcedureSymbol {
    /// A procedure whose body is not known yet, at level 0.
    pub fn new(name: String, formal_params: Vec<VarSymbol>) -> (procedure: ProcedureSymbol)
        ensures
            procedure == (ProcedureSymbol {
                name,
                formal_params,
                block_ast: None,
                scope_level: 0,
            }),
    {
        ProcedureSymbol { name, formal_params, block_ast: None, scope_level: 0 }
    }
}

impl Symbol {
    /// The name under which the symbol was declared.
    pub fn name(&self) -> (name: String)
        ensures
            name@ == self@.name(),
    {
        match self {
            Symbol::Builtin(name) => name.clone(),
            Symbol::Var(var) => var.name.clone(),
            Symbol::Procedure(procedure) => procedure.name.clone(),
        }
    }
}

impl SymbolView {
    /// The name under which the symbol was declared.
    pub open spec fn name(self) -> Seq<char> {
        match self {
            SymbolView::Builtin(name) => name,
            SymbolView::Var(var) => var.name,
            SymbolView::Procedure(procedure) => procedure.name,
        }
    }
}

impl View for Symbol {
    type V = SymbolView;

    open spec fn view(&self) -> SymbolView {
        symbol_view(*self)
    }
}

impl View for VarSymbol {
    type V = VarSymbolView;

    open spec fn view(&self) -> VarSymbolView {
        var_symbol_view(*self)
    }
}

impl View for ProcedureSymbol {
    type V = ProcedureSymbolView;

    open spec fn view(&self) -> ProcedureSymbolView {
        procedure_symbol_view(*self)
    }
}

/// The error for the use of a variable that has not been declared.
pub open spec fn undeclared(var: VarView) -> SemanticErrorView {
    SemanticErrorView {
        message: "Use of undeclared variable: "@ + identifier(var.value),
        error_code: ErrorCode::IDNotFound,
        token: var.token,
    }
}

/// The table that the declarations of a tree produce from `table`, or the
/// error for the first variable that is used without a declaration. All
/// names go into the one table; procedures are passed over.
pub open spec fn build(node: NodeView, table: SymbolTableView) -> Result<
    SymbolTableView,
    SemanticErrorView,
>
    decreases node,
{
    match node {
        NodeView::BinOp(left, _, right) => match build(*left, table) {
            Err(error) => Err(error),
            Ok(after) => build(*right, after),
        },
        NodeView::UnaryOp(_, operand) => build(*operand, table),
        NodeView::Compound(compound) => build_all(compound.children, table),
        NodeView::Assign(target, _, right) => if table.lookup(identifier(target.value), false)
            is None {
            Err(undeclared(target))
        } else {
            build(*right, table)
        },
        NodeView::Var(var) => if table.lookup(identifier(var.value), false) is None {
            Err(undeclared(var))
        } else {
            Ok(table)
        },
        NodeView::Program(_, block) => build_block(*block, table),
        NodeView::VarDecl(var, type_node) => match table.lookup(
            identifier(type_node.value),
            false,
        ) {
            None => Err(failure(ErrorCode::IDNotFound, name_token(type_node.value, var.token))),
            Some(type_symbol) => Ok(
                table.insert(
                    SymbolView::Var(
                        Box::new(
                            VarSymbolView { name: identifier(var.value), type_: type_symbol },
                        ),
                    ),
                ),
            ),
        },
        _ => Ok(table),
    }
}

/// The table that the declarations of the trees produce, one after the other.
pub open spec fn build_all(nodes: Seq<NodeView>, table: SymbolTableView) -> Result<
    SymbolTableView,
    SemanticErrorView,
>
    decreases nodes,
{
    if nodes.len() == 0 {
        Ok(table)
    } else {
        match build(nodes.first(), table) {
            Err(error) => Err(error),
            Ok(after) => build_all(nodes.drop_first(), after),
        }
    }
}

/// The table that the declarations of a block produce.
pub open spec fn build_block(block: BlockView, table: SymbolTableView) -> Result<
    SymbolTableView,
    SemanticErrorView,
>
    decreases block,
{
    match build_all(block.declarations, table) {
        Err(error) => Err(error),
        Ok(declared) => build(block.compound_statement, declared),
    }
}

/// Whether what the builder did is what `expected` describes.
pub open spec fn built(
    table: SymbolTableView,
    result: Result<(), SemanticError>,
    expected: Result<SymbolTableView, SemanticErrorView>,
) -> bool {
    match expected {
        Ok(after) => result is Ok && table == after,
        Err(error) => result matches Err(raised) && raised@ == error,
    }
}

/// Fills one symbol table from the variable declarations of a tree and
/// rejects the use of a variable that has no declaration.
pub struct SymbolTableBuilder {
    pub symtab: SymbolTable,
}

impl SymbolTableBuilder {
    /// Declares and checks the names of a tree.
    pub fn visit(&mut self, node: &Node) -> (result: Result<(), SemanticError>)
        requires
            well_formed(node@),
        ensures
            built(final(self).symtab@, result, build(node@, old(self).symtab@)),
        decreases node, 1nat,
    {
        match node {
            Node::BinOp(..) => self.visit_bin_op(node),
            Node::UnaryOp(..) => self.visit_unary_op(node),
            Node::Num(..) => self.visit_num(node),
            Node::Compound(compound) => self.visit_compound(compound),
            Node::Assign(..) => self.visit_assign(node),
            Node::Var(var) => self.visit_var(var),
            Node::Program(..) => self.visit_program(node),
            Node::VarDecl(..) => self.visit_var_decl(node),
            Node::ProcedureDecl(..) => self.visit_procedure_decl(node),
            Node::ProcedureCall(call) => self.visit_procedure_call(call),
            Node::NoOp => Ok(()),
        }
    }

    /// A literal names nothing.
    pub fn visit_num(&mut self, num: &Node) -> (result: Result<(), SemanticError>)
        requires
            num is Num,
        ensures
            *final(self) == *old(self),
            result is Ok,
    {
        Ok(())
    }

    /// Both operands are checked, the left one first.
    pub fn visit_bin_op(&mut self, bin_op: &Node) -> (result: Result<(), SemanticError>)
        requires
            bin_op is BinOp,
            well_formed(bin_op@),
        ensures
            built(final(self).symtab@, result, build(bin_op@, old(self).symtab@)),
        decreases bin_op, 0nat,
    {
        match bin_op {
            Node::BinOp(left, _, right) => {
                match self.visit(left) {
                    Ok(_) => {},
                    Err(error) => {
                        return Err(error);
                    },
                }
                self.visit(right)
            },
            _ => Ok(()),
        }
    }

    /// The operand is checked.
    pub fn visit_unary_op(&mut self, unary_op: &Node) -> (result: Result<(), SemanticError>)
        requires
            unary_op is UnaryOp,
            well_formed(unary_op@),
        ensures
            built(final(self).symtab@, result, build(unary_op@, old(self).symtab@)),
        decreases unary_op, 0nat,
    {
        match unary_op {
            Node::UnaryOp(_, operand) => self.visit(operand),
            _ => Ok(()),
        }
    }

    /// The statements are checked in order.
    pub fn visit_compound(&mut self, compound: &Compound) -> (result: Result<(), SemanticError>)
        requires
            all_well_formed(compound@.children),
        ensures
            built(final(self).symtab@, result, build_all(compound@.children, old(self).symtab@)),
        decreases compound, 0nat,
    {
        self.visit_all(&compound.children)
    }

    /// Checks the trees in order.
    fn visit_all(&mut self, nodes: &Vec<Node>) -> (result: Result<(), SemanticError>)
        requires
            all_well_formed(nodes_view(*nodes)),
        ensures
            built(final(self).symtab@, result, build_all(nodes_view(*nodes), old(self).symtab@)),
        decreases nodes, 0nat,
    {
        let ghost views = nodes_view(*nodes);
        assert(views.skip(0) =~= views);
        let mut i: usize = 0;
        while i < nodes.len()
            invariant
                i <= nodes.len(),
                views == nodes_view(*nodes),
                all_well_formed(views),
                build_all(views, old(self).symtab@) == build_all(views.skip(i as int), self.symtab@),
            decreases nodes.len() - i,
        {
            assert(views.skip(i as int).first() == nodes@[i as int]@);
            assert(views.skip(i as int).drop_first() =~= views.skip(i + 1));
            assert(well_formed(views[i as int]));
            match self.visit(&nodes[i]) {
                Ok(_) => {},
                Err(error) => {
                    return Err(error);
                },
            }
            i += 1;
        }
        assert(views.skip(i as int).len() == 0);
        Ok(())
    }

    /// The target must be declared; then the right side is checked.
    pub fn visit_assign(&mut self, assign: &Node) -> (result: Result<(), SemanticError>)
        requires
            assign is Assign,
            well_formed(assign@),
        ensures
            built(final(self).symtab@, result, build(assign@, old(self).symtab@)),
        decreases assign, 0nat,
    {
        match assign {
            Node::Assign(left, _, right) => {
                match self.visit_var(left) {
                    Ok(_) => {},
                    Err(error) => {
                        return Err(error);
                    },
                }
                self.visit(right)
            },
            _ => Ok(()),
        }
    }

    /// The name must be declared.
    pub fn visit_var(&mut self, var: &Var) -> (result: Result<(), SemanticError>)
        requires
            var@.value is String,
        ensures
            final(self).symtab@ == old(self).symtab@,
            built(final(self).symtab@, result, build(NodeView::Var(var@), old(self).symtab@)),
    {
        let var_name = var.value.expect_string();
        if self.symtab.lookup(var_name.clone(), false).is_some() {
            Ok(())
        } else {
            SemanticError::new(
                String::from_str("Use of undeclared variable: ").concat(var_name.as_str()),
                ErrorCode::IDNotFound,
                var.token.clone(),
            ).throw()
        }
    }

    /// The block of the program is checked.
    pub fn visit_program(&mut self, program: &Node) -> (result: Result<(), SemanticError>)
        requires
            program is Program,
            well_formed(program@),
        ensures
            built(final(self).symtab@, result, build(program@, old(self).symtab@)),
        decreases program, 0nat,
    {
        match program {
            Node::Program(_, block) => self.visit_block(block),
            _ => Ok(()),
        }
    }

    /// The declarations are taken in order, then the statements are checked.
    pub fn visit_block(&mut self, block: &Block) -> (result: Result<(), SemanticError>)
        requires
            block_well_formed(block@),
        ensures
            built(final(self).symtab@, result, build_block(block@, old(self).symtab@)),
        decreases block, 0nat,
    {
        match self.visit_all(&block.declarations) {
            Ok(_) => {},
            Err(error) => {
                return Err(error);
            },
        }
        self.visit(&block.compound_statement)
    }

    /// The type must be declared; the variable is then declared, whether or
    /// not its name was declared before.
    pub fn visit_var_decl(&mut self, var_decl: &Node) -> (result: Result<(), SemanticError>)
        requires
            var_decl is VarDecl,
            well_formed(var_decl@),
        ensures
            built(final(self).symtab@, result, build(var_decl@, old(self).symtab@)),
    {
        match var_decl {
            Node::VarDecl(var_node, type_node) => {
                let type_symbol = match self.symtab.lookup(type_node.value.expect_string(), false) {
                    Some(symbol) => symbol.clone(),
                    None => {
                        return SemanticError::new(
                            ErrorCode::IDNotFound.message(),
                            ErrorCode::IDNotFound,
                            Token::new(
                                TokenType::ID,
                                type_node.value.clone(),
                                var_node.token.lineno,
                                var_node.token.column,
                            ),
                        ).throw();
                    },
                };
                let var_symbol = VarSymbol::new(var_node.value.expect_string(), type_symbol);
                self.symtab.insert(Symbol::Var(Box::new(var_symbol)));
                Ok(())
            },
            _ => Ok(()),
        }
    }

    /// The name of a type declares nothing.
    pub fn visit_type(&mut self, type_: &Type) -> (result: Result<(), SemanticError>)
        ensures
            *final(self) == *old(self),
            result is Ok,
    {
        Ok(())
    }

    /// Procedures are passed over.
    pub fn visit_procedure_decl(&mut self, procedure_decl: &Node) -> (result: Result<
        (),
        SemanticError,
    >)
        requires
            procedure_decl is ProcedureDecl,
        ensures
            *final(self) == *old(self),
            result is Ok,
    {
        Ok(())
    }

    /// Calls are passed over.
    pub fn visit_procedure_call(&mut self, procedure_call: &ProcedureCall) -> (result: Result<
        (),
        SemanticError,
    >)
        ensures
            *final(self) == *old(self),
            result is Ok,
    {
        Ok(())
    }
}

impl NodeVisitor for SymbolTableBuilder {
    type Output = Result<(), SemanticError>;

    open spec fn accepts(&self, node: Node) -> bool {
        well_formed(node@)
    }

    open spec fn visited(
        &self,
        node: Node,
        after: &Self,
        left: Node,
        output: Result<(), SemanticError>,
    ) -> bool {
        left == node && built(after.symtab@, output, build(node@, self.symtab@))
    }

    fn visit(&mut self, node: &mut Node) -> (output: Result<(), SemanticError>) {
        SymbolTableBuilder::visit(self, node)
    }
}

} // verus!
