//! The semantic analyzer: one walk over the tree that declares every name in
//! its scope, rejects what is undeclared, declared twice or called with the
//! wrong number of arguments, and resolves every call.
//!
//! A program and each procedure have a scope of their own, nested in the
//! scope where they stand. A call is resolved by copying the procedure's
//! symbol onto the call. The symbol of a procedure holds its body with the
//! calls in it resolved, so that a call carries all that is needed to run it,
//! calls inside calls included.
//!
//! A procedure is announced in the scope around its own before its body is
//! analyzed, so that the body may call it. The symbol is then still without
//! the body, which cannot hold a copy of itself: a call of a procedure from
//! inside its own body, or from the body of a procedure nested in it, takes
//! the body at run time from the procedure that is running.
//!
//! Only variables are held against their scope for a second declaration:
//! a parameter or a procedure replaces what its scope held under the name.

use vstd::prelude::*;
use crate::ast::{
    all_well_formed, block_well_formed, clone_block, identifier, nodes_view, well_formed, Block,
    BlockView, Compound, CompoundView, Node, NodeView, Param, ParamView, ProcedureCall,
    ProcedureCallView, Type, TypeView, Var, VarView,
};
use crate::error::{failure, name_token, ErrorCode, SemanticError, SemanticErrorView};
use crate::interpreter::NodeVisitor;
use crate::symbols::{
    builtin_symbols, var_symbols_view, ProcedureSymbol, ProcedureSymbolView, Symbol, SymbolTable,
    SymbolTableView, SymbolView, VarSymbol, VarSymbolView,
};
use crate::text::lowercase;
use crate::tokens::{Token, TokenType, ValueView};

verus! {

/// The level of a scope nested in one of level `level`.
pub open spec fn nested_level(level: usize) -> usize {
    if level < usize::MAX {
        (level + 1) as usize
    } else {
        level
    }
}

/// The fresh scope named `name` inside `outer`.
pub open spec fn child_scope(name: Seq<char>, outer: SymbolTableView) -> SymbolTableView {
    SymbolTableView {
        symbols: builtin_symbols(),
        scope_level: nested_level(outer.scope_level),
        scope_name: name,
        enclosing_scope: Some(Box::new(outer)),
    }
}

/// The scope that one returns to on leaving `inner`.
pub open spec fn parent_scope(inner: SymbolTableView) -> SymbolTableView {
    match inner.enclosing_scope {
        Some(outer) => *outer,
        None => SymbolTableView {
            symbols: builtin_symbols(),
            scope_level: 0,
            scope_name: Seq::empty(),
            enclosing_scope: None,
        },
    }
}

/// What the use of a variable comes to: nothing if its name is declared in
/// `scope` or in a scope around it, and the error otherwise.
pub open spec fn resolve_variable(var: VarView, scope: SymbolTableView) -> Option<
    SemanticErrorView,
> {
    if scope.lookup(identifier(var.value), false) is Some {
        None
    } else {
        Some(failure(ErrorCode::IDNotFound, var.token))
    }
}

/// The scope with the variable declared. Its type must be declared in the
/// scope or around it, and its own name must be new in the scope itself.
pub open spec fn declare_variable(
    var: VarView,
    type_node: TypeView,
    scope: SymbolTableView,
) -> Result<SymbolTableView, SemanticErrorView> {
    match scope.lookup(identifier(type_node.value), false) {
        None => Err(failure(ErrorCode::IDNotFound, name_token(type_node.value, var.token))),
        Some(type_symbol) => if scope.lookup(identifier(var.value), true) is Some {
            Err(failure(ErrorCode::DuplicateID, var.token))
        } else {
            Ok(
                scope.insert(
                    SymbolView::Var(
                        Box::new(
                            VarSymbolView { name: identifier(var.value), type_: type_symbol },
                        ),
                    ),
                ),
            )
        },
    }
}

/// The symbols of the first `count` parameters and the scope with them
/// declared. The type of each must be declared; a parameter may repeat the
/// name of one before it, which it then replaces in the scope.
pub open spec fn declare_parameters(
    params: Seq<ParamView>,
    count: nat,
    scope: SymbolTableView,
) -> Result<(Seq<VarSymbolView>, SymbolTableView), SemanticErrorView>
    decreases count,
{
    if count == 0 {
        Ok((Seq::empty(), scope))
    } else {
        match declare_parameters(params, (count - 1) as nat, scope) {
            Err(error) => Err(error),
            Ok((symbols, declared)) => {
                let param = params[count - 1];
                match declared.lookup(identifier(param.type_node.value), false) {
                    None => Err(
                        failure(
                            ErrorCode::IDNotFound,
                            name_token(param.type_node.value, param.var_node.token),
                        ),
                    ),
                    Some(type_symbol) => {
                        let symbol = VarSymbolView {
                            name: identifier(param.var_node.value),
                            type_: type_symbol,
                        };
                        Ok(
                            (
                                symbols.push(symbol),
                                declared.insert(SymbolView::Var(Box::new(symbol))),
                            ),
                        )
                    },
                }
            },
        }
    }
}

/// The scope `inner` with `symbol` declared in the scope around it.
pub open spec fn declare_outside(inner: SymbolTableView, symbol: SymbolView) -> SymbolTableView {
    match inner.enclosing_scope {
        Some(outer) => SymbolTableView {
            enclosing_scope: Some(Box::new(outer.insert(symbol))),
            ..inner
        },
        None => inner,
    }
}

/// The symbol of a procedure while its body is analyzed: the body is still
/// to come. Calls of the procedure from inside its own body are resolved to
/// this symbol, and find the body when they run.
pub open spec fn announced(
    name: Seq<char>,
    formal_params: Seq<VarSymbolView>,
    level: usize,
) -> SymbolView {
    SymbolView::Procedure(
        ProcedureSymbolView { name, formal_params, block_ast: None, scope_level: level },
    )
}

/// The symbol of a procedure once its body has been analyzed: it holds the
/// body with the calls in it resolved.
pub open spec fn resolved(
    name: Seq<char>,
    formal_params: Seq<VarSymbolView>,
    level: usize,
    body: BlockView,
) -> SymbolView {
    SymbolView::Procedure(
        ProcedureSymbolView {
            name,
            formal_params,
            block_ast: Some(Box::new(body)),
            scope_level: level,
        },
    )
}

/// The outcome of the analysis of a tree in a scope: the tree with its calls
/// resolved and the scope with the tree's declarations, or the first error.
pub open spec fn analyze(node: NodeView, scope: SymbolTableView) -> Result<
    (NodeView, SymbolTableView),
    SemanticErrorView,
>
    decreases node, 0nat,
{
    match node {
        NodeView::Num(_) => Ok((node, scope)),
        NodeView::BinOp(left, op, right) => match analyze(*left, scope) {
            Err(error) => Err(error),
            Ok((l, first)) => match analyze(*right, first) {
                Err(error) => Err(error),
                Ok((r, second)) => Ok((NodeView::BinOp(Box::new(l), op, Box::new(r)), second)),
            },
        },
        NodeView::UnaryOp(op, operand) => match analyze(*operand, scope) {
            Err(error) => Err(error),
            Ok((o, after)) => Ok((NodeView::UnaryOp(op, Box::new(o)), after)),
        },
        NodeView::Compound(compound) => match analyze_all(compound.children, scope) {
            Err(error) => Err(error),
            Ok((children, after)) => Ok(
                (NodeView::Compound(CompoundView { children }), after),
            ),
        },
        NodeView::Assign(target, op, right) => match analyze(*right, scope) {
            Err(error) => Err(error),
            Ok((r, after)) => match resolve_variable(target, after) {
                Some(error) => Err(error),
                None => Ok((NodeView::Assign(target, op, Box::new(r)), after)),
            },
        },
        NodeView::Var(var) => match resolve_variable(var, scope) {
            Some(error) => Err(error),
            None => Ok((node, scope)),
        },
        NodeView::Program(name, block) => match analyze_block(
            *block,
            child_scope("global"@, scope),
        ) {
            Err(error) => Err(error),
            Ok((b, inner)) => Ok((NodeView::Program(name, Box::new(b)), parent_scope(inner))),
        },
        NodeView::VarDecl(var, type_node) => match declare_variable(var, type_node, scope) {
            Err(error) => Err(error),
            Ok(declared) => Ok((node, declared)),
        },
        NodeView::ProcedureDecl(name, block, params) => match declare_parameters(
            params,
            params.len(),
            child_scope(name, scope),
        ) {
            Err(error) => Err(error),
            Ok((formal_params, inner)) => {
                let level = nested_level(scope.scope_level);
                match analyze_block(
                    *block,
                    declare_outside(inner, announced(name, formal_params, level)),
                ) {
                    Err(error) => Err(error),
                    Ok((b, done)) => Ok(
                        (
                            NodeView::ProcedureDecl(name, Box::new(b), params),
                            parent_scope(done).insert(resolved(name, formal_params, level, b)),
                        ),
                    ),
                }
            },
        },
        NodeView::ProcedureCall(call) => match analyze_call(call, scope) {
            Err(error) => Err(error),
            Ok((resolved, after)) => Ok((NodeView::ProcedureCall(resolved), after)),
        },
        NodeView::NoOp => Ok((node, scope)),
    }
}

/// The outcome of the analysis of a call: the procedure is looked up by name
/// through the scopes, the number of arguments is held against the number of
/// its parameters, the arguments are analyzed, and the call gets a copy of
/// the procedure's symbol.
pub open spec fn analyze_call(call: ProcedureCallView, scope: SymbolTableView) -> Result<
    (ProcedureCallView, SymbolTableView),
    SemanticErrorView,
>
    decreases call, 0nat,
{
    match scope.lookup(call.proc_name, false) {
        Some(SymbolView::Procedure(procedure)) => if procedure.formal_params.len()
            != call.actual_params.len() {
            Err(failure(ErrorCode::WrongParamsNum, call.token))
        } else {
            match analyze_all(call.actual_params, scope) {
                Err(error) => Err(error),
                Ok((actual_params, after)) => Ok(
                    (
                        ProcedureCallView {
                            proc_name: call.proc_name,
                            actual_params,
                            token: call.token,
                            proc_symbol: Some(procedure),
                        },
                        after,
                    ),
                ),
            }
        },
        _ => Err(failure(ErrorCode::IDNotFound, call.token)),
    }
}

/// The outcome of the analysis of a block: the declarations, in order, and
/// then the statements.
pub open spec fn analyze_block(block: BlockView, scope: SymbolTableView) -> Result<
    (BlockView, SymbolTableView),
    SemanticErrorView,
>
    decreases block, 0nat,
{
    match analyze_all(block.declarations, scope) {
        Err(error) => Err(error),
        Ok((declarations, declared)) => match analyze(block.compound_statement, declared) {
            Err(error) => Err(error),
            Ok((compound_statement, after)) => Ok(
                (BlockView { declarations, compound_statement }, after),
            ),
        },
    }
}

/// The outcome of the analysis of the first `count` trees, one after the other.
pub open spec fn analyze_first(nodes: Seq<NodeView>, count: nat, scope: SymbolTableView) -> Result<
    (Seq<NodeView>, SymbolTableView),
    SemanticErrorView,
>
    decreases nodes, count,
{
    if count == 0 || count > nodes.len() {
        Ok((Seq::empty(), scope))
    } else {
        match analyze_first(nodes, (count - 1) as nat, scope) {
            Err(error) => Err(error),
            Ok((done, before)) => match analyze(nodes[count - 1], before) {
                Err(error) => Err(error),
                Ok((node, after)) => Ok((done.push(node), after)),
            },
        }
    }
}

/// The outcome of the analysis of the trees, one after the other.
pub open spec fn analyze_all(nodes: Seq<NodeView>, scope: SymbolTableView) -> Result<
    (Seq<NodeView>, SymbolTableView),
    SemanticErrorView,
>
    decreases nodes, nodes.len() + 1,
{
    analyze_first(nodes, nodes.len(), scope)
}

/// Once the analysis of the first trees has failed, the analysis of more of
/// them fails in the same way.
pub proof fn lemma_first_error_stays(
    nodes: Seq<NodeView>,
    failed: nat,
    count: nat,
    scope: SymbolTableView,
)
    requires
        failed <= count <= nodes.len(),
        analyze_first(nodes, failed, scope) is Err,
    ensures
        analyze_first(nodes, count, scope) == analyze_first(nodes, failed, scope),
    decreases count,
{
    if failed < count {
        lemma_first_error_stays(nodes, failed, (count - 1) as nat, scope);
    }
}

/// Once the declaration of the first parameters has failed, the declaration
/// of more of them fails in the same way.
pub proof fn lemma_parameter_error_stays(
    params: Seq<ParamView>,
    failed: nat,
    count: nat,
    scope: SymbolTableView,
)
    requires
        failed <= count,
        declare_parameters(params, failed, scope) is Err,
    ensures
        declare_parameters(params, count, scope) == declare_parameters(params, failed, scope),
    decreases count,
{
    if failed < count {
        lemma_parameter_error_stays(params, failed, (count - 1) as nat, scope);
    }
}

/// Whether the callee of a call is found as a procedure with as many
/// parameters as the call has arguments.
pub open spec fn callee_fits(call: ProcedureCallView, scope: SymbolTableView) -> bool {
    scope.lookup(call.proc_name, false) matches Some(SymbolView::Procedure(procedure))
        && procedure.formal_params.len() == call.actual_params.len()
}

/// Whether the analysis of the tree can only fail before it has changed
/// anything: the tree is the use or the declaration of a variable, or a call
/// whose callee is not found or does not fit.
pub open spec fn fails_untouched(node: NodeView, scope: SymbolTableView) -> bool {
    match node {
        NodeView::Var(_) => true,
        NodeView::VarDecl(_, _) => true,
        NodeView::ProcedureCall(call) => !callee_fits(call, scope),
        _ => false,
    }
}

/// Whether what the analyzer did is what `expected` describes: on success the
/// tree and the scope are as given; on an error the error is the one given.
pub open spec fn accords<T>(
    scope: SymbolTableView,
    result: Result<(), SemanticError>,
    tree: T,
    expected: Result<(T, SymbolTableView), SemanticErrorView>,
) -> bool {
    match expected {
        Ok((resolved, after)) => result is Ok && tree == resolved && scope == after,
        Err(error) => result matches Err(raised) && raised@ == error,
    }
}

/// The analyzer, with the scope it is in.
pub struct SemanticAnalyzer {
    current_scope: SymbolTable,
}

impl SemanticAnalyzer {
    /// The scope that the analyzer is in.
    pub closed spec fn scope(&self) -> SymbolTableView {
        self.current_scope@
    }

    /// The scope that an analyzer starts in: it is named `global`, has
    /// level 1, holds the builtin types and has no scope around it.
    pub open spec fn global_scope() -> SymbolTableView {
        SymbolTableView {
            symbols: builtin_symbols(),
            scope_level: 1,
            scope_name: "global"@,
            enclosing_scope: None,
        }
    }

    /// An analyzer in the global scope.
    pub fn new() -> (analyzer: Self)
        ensures
            analyzer.scope() == Self::global_scope(),
    {
        SemanticAnalyzer { current_scope: SymbolTable::new(String::from_str("global"), 1, None) }
    }

    /// The scope that the analyzer is in.
    pub fn current_scope(&self) -> (scope: &SymbolTable)
        ensures
            scope@ == self.scope(),
    {
        &self.current_scope
    }

    /// The error with the given code at the given token.
    fn error<T>(error_code: ErrorCode, token: Token) -> (raised: Result<T, SemanticError>)
        ensures
            raised matches Err(error) && error@ == failure(error_code, token@),
    {
        SemanticError::new(error_code.message(), error_code, token).throw()
    }

    /// Goes into a fresh scope inside the current one.
    fn enter_scope(&mut self, name: String)
        ensures
            final(self).scope() == child_scope(name@, old(self).scope()),
    {
        let level: usize = if self.current_scope.scope_level < usize::MAX {
            self.current_scope.scope_level + 1
        } else {
            self.current_scope.scope_level
        };
        let mut outer = SymbolTable::new(String::new(), 0, None);
        core::mem::swap(&mut self.current_scope, &mut outer);
        self.current_scope = SymbolTable::new(name, level, Some(outer));
    }

    /// Goes back to the scope around the current one.
    fn leave_scope(&mut self)
        ensures
            final(self).scope() == parent_scope(old(self).scope()),
    {
        let mut inner = SymbolTable::new(String::new(), 0, None);
        core::mem::swap(&mut self.current_scope, &mut inner);
        match inner.enclosing_scope {
            Some(outer) => {
                self.current_scope = *outer;
            },
            None => {
                proof {
                    reveal_strlit("");
                }
                assert(self.current_scope@.scope_name =~= Seq::<char>::empty());
            },
        }
    }

    /// Declares `symbol` in the scope around the current one.
    fn declare_outside(&mut self, symbol: Symbol)
        ensures
            final(self).scope() == declare_outside(old(self).scope(), symbol@),
    {
        match &mut self.current_scope.enclosing_scope {
            Some(outer) => {
                outer.insert(symbol);
            },
            None => {},
        }
    }

    /// Analyzes a tree in the current scope.
    pub fn visit(&mut self, node: &mut Node) -> (result: Result<(), SemanticError>)
        requires
            well_formed(old(node)@),
        ensures
            accords(
                final(self).scope(),
                result,
                final(node)@,
                analyze(old(node)@, old(self).scope()),
            ),
            result is Err && fails_untouched(old(node)@, old(self).scope()) ==> final(node)@
                == old(node)@ && final(self).scope() == old(self).scope(),
        decreases old(node)@, 1nat,
    {
        match node {
            Node::BinOp(..) => self.visit_bin_op(node),
            Node::UnaryOp(..) => self.visit_unary_op(node),
            Node::Num(..) => self.visit_num(node),
            Node::Compound(compound) => self.visit_compound(compound),
            Node::Assign(..) => self.visit_assign(node),
            Node::Var(var) => self.visit_var(var),
            Node::Program(..) => self.visit_program(node),
            Node::VarDecl(..) => self.visit_var_decl(node),
            Node::ProcedureDecl(..) => self.visit_procedure_decl(node),
            Node::ProcedureCall(call) => self.visit_procedure_call(call),
            Node::NoOp => Ok(()),
        }
    }

    /// A literal needs no analysis.
    pub fn visit_num(&mut self, num: &mut Node) -> (result: Result<(), SemanticError>)
        requires
            *old(num) is Num,
        ensures
            *final(self) == *old(self),
            *final(num) == *old(num),
            result is Ok,
    {
        Ok(())
    }

    /// Both operands are analyzed, the left one first.
    pub fn visit_bin_op(&mut self, bin_op: &mut Node) -> (result: Result<(), SemanticError>)
        requires
            *old(bin_op) is BinOp,
            well_formed(old(bin_op)@),
        ensures
            accords(
                final(self).scope(),
                result,
                final(bin_op)@,
                analyze(old(bin_op)@, old(self).scope()),
            ),
        decreases old(bin_op)@, 0nat,
    {
        match bin_op {
            Node::BinOp(left, _, right) => {
                match self.visit(left) {
                    Ok(_) => {},
                    Err(error) => {
                        return Err(error);
                    },
                }
                self.visit(right)
            },
            _ => Ok(()),
        }
    }

    /// The operand is analyzed.
    pub fn visit_unary_op(&mut self, unary_op: &mut Node) -> (result: Result<(), SemanticError>)
        requires
            *old(unary_op) is UnaryOp,
            well_formed(old(unary_op)@),
        ensures
            accords(
                final(self).scope(),
                result,
                final(unary_op)@,
                analyze(old(unary_op)@, old(self).scope()),
            ),
        decreases old(unary_op)@, 0nat,
    {
        match unary_op {
            Node::UnaryOp(_, operand) => self.visit(operand),
            _ => Ok(()),
        }
    }

    /// The statements are analyzed in order.
    pub fn visit_compound(&mut self, compound: &mut Compound) -> (result: Result<
        (),
        SemanticError,
    >)
        requires
            all_well_formed(old(compound)@.children),
        ensures
            accords(
                final(self).scope(),
                result,
                final(compound)@.children,
                analyze_all(old(compound)@.children, old(self).scope()),
            ),
        decreases old(compound)@, 0nat,
    {
        self.visit_all(&mut compound.children)
    }

    /// Analyzes the trees in order.
    fn visit_all(&mut self, nodes: &mut Vec<Node>) -> (result: Result<(), SemanticError>)
        requires
            all_well_formed(nodes_view(*old(nodes))),
        ensures
            accords(
                final(self).scope(),
                result,
                nodes_view(*final(nodes)),
                analyze_all(nodes_view(*old(nodes)), old(self).scope()),
            ),
        decreases nodes_view(*old(nodes)), 0nat,
    {
        let ghost before = nodes_view(*nodes);
        let ghost start = self.scope();
        let mut i: usize = 0;
        assert(nodes_view(*nodes).take(0) =~= Seq::<NodeView>::empty());
        while i < nodes.len()
            invariant
                i <= nodes.len(),
                nodes.len() == before.len(),
                before == nodes_view(*old(nodes)),
                start == old(self).scope(),
                all_well_formed(before),
                forall|j: int| i <= j < nodes.len() ==> (#[trigger] nodes@[j])@ == before[j],
                analyze_first(before, i as nat, start) == Ok::<
                    (Seq<NodeView>, SymbolTableView),
                    SemanticErrorView,
                >((nodes_view(*nodes).take(i as int), self.scope())),
            decreases nodes.len() - i,
        {
            let ghost done = nodes_view(*nodes).take(i as int);
            assert(nodes@[i as int]@ == before[i as int]);
            match self.visit(&mut nodes[i]) {
                Ok(_) => {},
                Err(error) => {
                    proof {
                        lemma_first_error_stays(before, (i + 1) as nat, before.len(), start);
                    }
                    return Err(error);
                },
            }
            assert(nodes_view(*nodes).take(i + 1) =~= done.push(nodes@[i as int]@));
            i += 1;
        }
        assert(nodes_view(*nodes).take(i as int) =~= nodes_view(*nodes));
        Ok(())
    }

    /// The right side is analyzed; then the target must be declared.
    pub fn visit_assign(&mut self, assign: &mut Node) -> (result: Result<(), SemanticError>)
        requires
            *old(assign) is Assign,
            well_formed(old(assign)@),
        ensures
            accords(
                final(self).scope(),
                result,
                final(assign)@,
                analyze(old(assign)@, old(self).scope()),
            ),
        decreases old(assign)@, 0nat,
    {
        match assign {
            Node::Assign(left, _, right) => {
                match self.visit(right) {
                    Ok(_) => {},
                    Err(error) => {
                        return Err(error);
                    },
                }
                self.visit_var(left)
            },
            _ => Ok(()),
        }
    }

    /// The name must be declared in the current scope or in one around it.
    pub fn visit_var(&mut self, var: &Var) -> (result: Result<(), SemanticError>)
        requires
            var@.value is String,
        ensures
            final(self).scope() == old(self).scope(),
            match resolve_variable(var@, old(self).scope()) {
                Some(error) => result matches Err(raised) && raised@ == error,
                None => result is Ok,
            },
    {
        let var_name = var.value.expect_string();
        if self.current_scope.lookup(var_name, false).is_some() {
            Ok(())
        } else {
            Self::error(ErrorCode::IDNotFound, var.token.clone())
        }
    }

    /// The block is analyzed in a fresh scope named `global`, which is left
    /// afterwards.
    pub fn visit_program(&mut self, program: &mut Node) -> (result: Result<(), SemanticError>)
        requires
            *old(program) is Program,
            well_formed(old(program)@),
        ensures
            accords(
                final(self).scope(),
                result,
                final(program)@,
                analyze(old(program)@, old(self).scope()),
            ),
        decreases old(program)@, 0nat,
    {
        match program {
            Node::Program(_, block) => {
                self.enter_scope(String::from_str("global"));
                match self.visit_block(block) {
                    Ok(_) => {},
                    Err(error) => {
                        return Err(error);
                    },
                }
                self.leave_scope();
                Ok(())
            },
            _ => Ok(()),
        }
    }

    /// The declarations are analyzed in order, then the statements.
    pub fn visit_block(&mut self, block: &mut Block) -> (result: Result<(), SemanticError>)
        requires
            block_well_formed(old(block)@),
        ensures
            accords(
                final(self).scope(),
                result,
                final(block)@,
                analyze_block(old(block)@, old(self).scope()),
            ),
        decreases old(block)@, 0nat,
    {
        match self.visit_all(&mut block.declarations) {
            Ok(_) => {},
            Err(error) => {
                return Err(error);
            },
        }
        self.visit(&mut block.compound_statement)
    }

    /// The type must be declared, and the name must be new in the current
    /// scope; the variable is then declared there. If the declaration is
    /// rejected, nothing is declared.
    pub fn visit_var_decl(&mut self, var_decl: &mut Node) -> (result: Result<(), SemanticError>)
        requires
            *old(var_decl) is VarDecl,
            well_formed(old(var_decl)@),
        ensures
            accords(
                final(self).scope(),
                result,
                final(var_decl)@,
                analyze(old(var_decl)@, old(self).scope()),
            ),
            result is Err ==> final(var_decl)@ == old(var_decl)@ && final(self).scope() == old(self).scope(),
    {
        match var_decl {
            Node::VarDecl(var_node, type_node) => {
                let type_symbol = match self.current_scope.lookup(
                    type_node.value.expect_string(),
                    false,
                ) {
                    Some(symbol) => symbol.clone(),
                    None => {
                        return Self::error(
                            ErrorCode::IDNotFound,
                            Token::new(
                                TokenType::ID,
                                type_node.value.clone(),
                                var_node.token.lineno,
                                var_node.token.column,
                            ),
                        );
                    },
                };
                let var_name = var_node.value.expect_string();
                if self.current_scope.lookup(var_name.clone(), true).is_some() {
                    return Self::error(ErrorCode::DuplicateID, var_node.token.clone());
                }
                self.current_scope.insert(
                    Symbol::Var(Box::new(VarSymbol::new(var_name, type_symbol))),
                );
                Ok(())
            },
            _ => Ok(()),
        }
    }

    /// The name of a type needs no analysis.
    pub fn visit_type(&mut self, type_: &mut Type) -> (result: Result<(), SemanticError>)
        ensures
            *final(self) == *old(self),
            *final(type_) == *old(type_),
            result is Ok,
    {
        Ok(())
    }

    /// The parameters are declared in a fresh scope named after the
    /// procedure, the procedure is announced in the scope around it, and the
    /// body is analyzed in the fresh scope, which is left afterwards. The
    /// procedure is then declared in the scope around it with its body as
    /// the analysis has left it.
    pub fn visit_procedure_decl(&mut self, procedure_decl: &mut Node) -> (result: Result<
        (),
        SemanticError,
    >)
        requires
            *old(procedure_decl) is ProcedureDecl,
            well_formed(old(procedure_decl)@),
        ensures
            accords(
                final(self).scope(),
                result,
                final(procedure_decl)@,
                analyze(old(procedure_decl)@, old(self).scope()),
            ),
        decreases old(procedure_decl)@, 0nat,
    {
        match procedure_decl {
            Node::ProcedureDecl(name, block, params) => {
                let ghost views = params@.map_values(|param: Param| param@);
                self.enter_scope(name.clone());
                let ghost start = self.scope();
                let mut formal_params: Vec<VarSymbol> = Vec::new();
                let mut i: usize = 0;
                assert(var_symbols_view(formal_params) =~= Seq::<VarSymbolView>::empty());
                while i < params.len()
                    invariant
                        i <= params.len(),
                        views == params@.map_values(|param: Param| param@),
                        old(procedure_decl)@ matches NodeView::ProcedureDecl(n, _, p) && p == views
                            && start == child_scope(n, old(self).scope()),
                        forall|j: int|
                            0 <= j < views.len() ==> (#[trigger] views[j]).var_node.value is String
                                && views[j].type_node.value is String,
                        declare_parameters(views, i as nat, start) == Ok::<
                            (Seq<VarSymbolView>, SymbolTableView),
                            SemanticErrorView,
                        >((var_symbols_view(formal_params), self.scope())),
                    decreases params.len() - i,
                {
                    let param = &params[i];
                    assert(param@ == views[i as int]);
                    let ghost declared = var_symbols_view(formal_params);
                    let type_symbol = match self.current_scope.lookup(
                        param.type_node.value.expect_string(),
                        false,
                    ) {
                        Some(symbol) => symbol.clone(),
                        None => {
                            proof {
                                lemma_parameter_error_stays(
                                    views,
                                    (i + 1) as nat,
                                    views.len(),
                                    start,
                                );
                            }
                            return Self::error(
                                ErrorCode::IDNotFound,
                                Token::new(
                                    TokenType::ID,
                                    param.type_node.value.clone(),
                                    param.var_node.token.lineno,
                                    param.var_node.token.column,
                                ),
                            );
                        },
                    };
                    let var_symbol = VarSymbol::new(
                        param.var_node.value.expect_string(),
                        type_symbol,
                    );
                    self.current_scope.insert(Symbol::Var(Box::new(var_symbol.clone())));
                    formal_params.push(var_symbol);
                    assert(var_symbols_view(formal_params) =~= declared.push(var_symbol@));
                    i += 1;
                }
                proof {
                    lemma_parameters_keep_surroundings(views, views.len(), start);
                }
                let ghost formals = var_symbols_view(formal_params);
                let mut proc_symbol = ProcedureSymbol::new(name.clone(), formal_params);
                proc_symbol.scope_level = self.current_scope.scope_level;
                assert(Symbol::Procedure(proc_symbol)@ == announced(
                    name@,
                    formals,
                    nested_level(old(self).scope().scope_level),
                ));
                let mut complete = proc_symbol.clone();
                self.declare_outside(Symbol::Procedure(proc_symbol));
                match self.visit_block(block) {
                    Ok(_) => {},
                    Err(error) => {
                        return Err(error);
                    },
                }
                self.leave_scope();
                complete.block_ast = Some(Box::new(clone_block(block)));
                assert(Symbol::Procedure(complete)@ == resolved(
                    name@,
                    formals,
                    nested_level(old(self).scope().scope_level),
                    block@,
                ));
                self.current_scope.insert(Symbol::Procedure(complete));
                Ok(())
            },
            _ => Ok(()),
        }
    }

    /// The procedure is looked up by name through the scopes, the number of
    /// arguments is held against the number of its parameters, the arguments
    /// are analyzed, and the call gets a copy of the procedure's symbol. If
    /// the procedure is not found or the numbers differ, the call and the
    /// scope stay as they are.
    pub fn visit_procedure_call(&mut self, procedure_call: &mut ProcedureCall) -> (result: Result<
        (),
        SemanticError,
    >)
        requires
            all_well_formed(old(procedure_call)@.actual_params),
        ensures
            accords(
                final(self).scope(),
                result,
                final(procedure_call)@,
                analyze_call(old(procedure_call)@, old(self).scope()),
            ),
            !callee_fits(old(procedure_call)@, old(self).scope()) ==> final(procedure_call)@
                == old(procedure_call)@ && final(self).scope() == old(self).scope(),
        decreases old(procedure_call)@, 0nat,
    {
        let symbol = match self.current_scope.lookup(procedure_call.proc_name.clone(), false) {
            Some(Symbol::Procedure(procedure)) => procedure.clone(),
            _ => {
                return Self::error(ErrorCode::IDNotFound, procedure_call.token.clone());
            },
        };
        if symbol.formal_params.len() != procedure_call.actual_params.len() {
            return Self::error(ErrorCode::WrongParamsNum, procedure_call.token.clone());
        }
        match self.visit_all(&mut procedure_call.actual_params) {
            Ok(_) => {},
            Err(error) => {
                return Err(error);
            },
        }
        procedure_call.proc_symbol = Some(symbol);
        Ok(())
    }
}

impl NodeVisitor for SemanticAnalyzer {
    type Output = Result<(), SemanticError>;

    open spec fn accepts(&self, node: Node) -> bool {
        well_formed(node@)
    }

    open spec fn visited(
        &self,
        node: Node,
        after: &Self,
        left: Node,
        output: Result<(), SemanticError>,
    ) -> bool {
        &&& accords(after.scope(), output, left@, analyze(node@, self.scope()))
        &&& output is Err && fails_untouched(node@, self.scope()) ==> left@ == node@
            && after.scope() == self.scope()
    }

    fn visit(&mut self, node: &mut Node) -> (output: Result<(), SemanticError>) {
        SemanticAnalyzer::visit(self, node)
    }
}

/// Whether two scopes are the same but for the symbols of the innermost table.
pub open spec fn same_surroundings(before: SymbolTableView, after: SymbolTableView) -> bool {
    &&& after.scope_level == before.scope_level
    &&& after.scope_name == before.scope_name
    &&& after.enclosing_scope == before.enclosing_scope
}

/// A name that is declared twice in one scope is rejected: once a variable
/// is declared, the declaration in the same scope of a variable whose name
/// is the same but for case fails with `DuplicateID`, provided that its type
/// is declared (the type is looked up first).
pub proof fn lemma_redeclaration_is_rejected(
    first: VarView,
    first_type: TypeView,
    second: VarView,
    second_type: TypeView,
    scope: SymbolTableView,
)
    requires
        declare_variable(first, first_type, scope) is Ok,
        lowercase(identifier(second.value)) == lowercase(identifier(first.value)),
        declare_variable(first, first_type, scope)->Ok_0.lookup(
            identifier(second_type.value),
            false,
        ) is Some,
    ensures
        declare_variable(second, second_type, declare_variable(first, first_type, scope)->Ok_0)
            == Err::<SymbolTableView, SemanticErrorView>(
            failure(ErrorCode::DuplicateID, second.token),
        ),
{
}

/// A name of an outer scope may be declared again in a nested one: in a
/// scope that has just been entered, the declaration of a variable with a
/// declared type succeeds whatever the scopes around it hold, unless the
/// name is that of a builtin type.
pub proof fn lemma_shadowing_is_accepted(
    var: VarView,
    type_node: TypeView,
    name: Seq<char>,
    outer: SymbolTableView,
)
    requires
        child_scope(name, outer).lookup(identifier(type_node.value), false) is Some,
        !builtin_symbols().contains_key(lowercase(identifier(var.value))),
    ensures
        declare_variable(var, type_node, child_scope(name, outer)) is Ok,
{
}

/// A call with the wrong number of arguments is rejected: if the name of
/// the call is that of a procedure and the numbers differ, the analysis of
/// the call fails with `WrongParamsNum` at the call's token.
pub proof fn lemma_wrong_argument_count_is_rejected(call: ProcedureCallView, scope: SymbolTableView)
    requires
        scope.lookup(call.proc_name, false) matches Some(SymbolView::Procedure(procedure))
            && procedure.formal_params.len() != call.actual_params.len(),
    ensures
        analyze_call(call, scope) == Err::<(ProcedureCallView, SymbolTableView), SemanticErrorView>(
            failure(ErrorCode::WrongParamsNum, call.token),
        ),
{
}

/// A variable that is declared in no scope is rejected with `IDNotFound`.
pub proof fn lemma_undeclared_variable_is_rejected(var: VarView, scope: SymbolTableView)
    requires
        scope.lookup(identifier(var.value), false) is None,
    ensures
        analyze(NodeView::Var(var), scope) == Err::<(NodeView, SymbolTableView), SemanticErrorView>(
            failure(ErrorCode::IDNotFound, var.token),
        ),
{
}

/// A call of a name that is no procedure in any scope is rejected with
/// `IDNotFound`.
pub proof fn lemma_undeclared_procedure_is_rejected(call: ProcedureCallView, scope: SymbolTableView)
    requires
        !(scope.lookup(call.proc_name, false) matches Some(SymbolView::Procedure(_))),
    ensures
        analyze_call(call, scope) == Err::<(ProcedureCallView, SymbolTableView), SemanticErrorView>(
            failure(ErrorCode::IDNotFound, call.token),
        ),
{
}

/// Declaring parameters changes the symbols of the innermost table only.
pub proof fn lemma_parameters_keep_surroundings(
    params: Seq<ParamView>,
    count: nat,
    scope: SymbolTableView,
)
    ensures
        declare_parameters(params, count, scope) matches Ok((_, after)) ==> same_surroundings(
            scope,
            after,
        ),
    decreases count,
{
    if count > 0 {
        lemma_parameters_keep_surroundings(params, (count - 1) as nat, scope);
    }
}

/// The analysis of a tree changes the symbols of the scope it runs in and
/// nothing else: the scopes around it, its level and its name stay, and a
/// scope that was entered for a program or a procedure has been left again.
pub proof fn lemma_analysis_keeps_surroundings(node: NodeView, scope: SymbolTableView)
    ensures
        analyze(node, scope) matches Ok((_, after)) ==> same_surroundings(scope, after),
    decreases node, 0nat,
{
    match node {
        NodeView::BinOp(left, _, right) => {
            lemma_analysis_keeps_surroundings(*left, scope);
            if let Ok((_, first)) = analyze(*left, scope) {
                lemma_analysis_keeps_surroundings(*right, first);
            }
        },
        NodeView::UnaryOp(_, operand) => {
            lemma_analysis_keeps_surroundings(*operand, scope);
        },
        NodeView::Compound(compound) => {
            lemma_analysis_of_all_keeps_surroundings(
                compound.children,
                compound.children.len(),
                scope,
            );
            assert(analyze_all(compound.children, scope) == analyze_first(
                compound.children,
                compound.children.len(),
                scope,
            ));
            assert(analyze(node, scope) matches Ok((_, after)) ==> same_surroundings(
                scope,
                after,
            ));
        },
        NodeView::Assign(_, _, right) => {
            lemma_analysis_keeps_surroundings(*right, scope);
        },
        NodeView::Program(_, block) => {
            lemma_block_analysis_keeps_surroundings(*block, child_scope("global"@, scope));
        },
        NodeView::ProcedureDecl(name, block, params) => {
            let entered = child_scope(name, scope);
            lemma_parameters_keep_surroundings(params, params.len(), entered);
            if let Ok((formal_params, inner)) = declare_parameters(params, params.len(), entered) {
                let symbol = announced(name, formal_params, nested_level(scope.scope_level));
                let declared = declare_outside(inner, symbol);
                lemma_block_analysis_keeps_surroundings(*block, declared);
                if let Ok((_, done)) = analyze_block(*block, declared) {
                    assert(inner.enclosing_scope == Some(Box::new(scope)));
                    assert(done.enclosing_scope == declared.enclosing_scope);
                    assert(parent_scope(done) == scope.insert(symbol));
                }
            }
        },
        NodeView::ProcedureCall(call) => {
            lemma_analysis_of_all_keeps_surroundings(
                call.actual_params,
                call.actual_params.len(),
                scope,
            );
            assert(analyze_all(call.actual_params, scope) == analyze_first(
                call.actual_params,
                call.actual_params.len(),
                scope,
            ));
            assert(analyze_call(call, scope) matches Ok((_, after)) ==> same_surroundings(
                scope,
                after,
            ));
            assert(analyze(node, scope) matches Ok((_, after)) ==> same_surroundings(
                scope,
                after,
            ));
        },
        NodeView::VarDecl(var, type_node) => {
            assert(declare_variable(var, type_node, scope) matches Ok(after) ==> same_surroundings(
                scope,
                after,
            ));
        },
        _ => {},
    }
}

/// The analysis of a block changes the symbols of the scope it runs in and
/// nothing else.
pub proof fn lemma_block_analysis_keeps_surroundings(block: BlockView, scope: SymbolTableView)
    ensures
        analyze_block(block, scope) matches Ok((_, after)) ==> same_surroundings(scope, after),
    decreases block, 0nat,
{
    lemma_analysis_of_all_keeps_surroundings(block.declarations, block.declarations.len(), scope);
    if let Ok((_, declared)) = analyze_all(block.declarations, scope) {
        lemma_analysis_keeps_surroundings(block.compound_statement, declared);
    }
}

/// The analysis of trees one after the other changes the symbols of the
/// scope it runs in and nothing else.
pub proof fn lemma_analysis_of_all_keeps_surroundings(
    nodes: Seq<NodeView>,
    count: nat,
    scope: SymbolTableView,
)
    ensures
        analyze_first(nodes, count, scope) matches Ok((_, after)) ==> same_surroundings(
            scope,
            after,
        ),
    decreases nodes, count,
{
    if count > 0 && count <= nodes.len() {
        lemma_analysis_of_all_keeps_surroundings(nodes, (count - 1) as nat, scope);
        if let Ok((_, before)) = analyze_first(nodes, (count - 1) as nat, scope) {
            lemma_analysis_keeps_surroundings(nodes[count - 1], before);
        }
    }
}

/// The analysis of a program leaves the scope it started in as it was: what
/// the program declares is gone with the program's own scope.
pub proof fn lemma_program_leaves_scope(name: Seq<char>, block: BlockView, scope: SymbolTableView)
    ensures
        analyze(NodeView::Program(name, Box::new(block)), scope) matches Ok((_, after)) ==> after
            == scope,
{
    lemma_block_analysis_keeps_surroundings(block, child_scope("global"@, scope));
}

/// The form in which the name held by `value` is looked up.
pub open spec fn name_key(value: ValueView) -> Seq<char> {
    lowercase(identifier(value))
}

/// Whether a symbol is stored under `key` in the scope or in one around it.
pub open spec fn visible(scope: SymbolTableView, key: Seq<char>) -> bool {
    scope.lookup_key(key, false) is Some
}

/// Whether the tree reads or assigns a variable that is looked up under
/// `key`. What a call was resolved to does not count.
pub open spec fn mentions(node: NodeView, key: Seq<char>) -> bool
    decreases node,
{
    match node {
        NodeView::BinOp(left, _, right) => mentions(*left, key) || mentions(*right, key),
        NodeView::UnaryOp(_, operand) => mentions(*operand, key),
        NodeView::Compound(compound) => any_mentions(compound.children, key),
        NodeView::Assign(target, _, right) => name_key(target.value) == key || mentions(
            *right,
            key,
        ),
        NodeView::Var(var) => name_key(var.value) == key,
        NodeView::Program(_, block) => block_mentions(*block, key),
        NodeView::ProcedureDecl(_, block, _) => block_mentions(*block, key),
        NodeView::ProcedureCall(call) => any_mentions(call.actual_params, key),
        _ => false,
    }
}

/// Whether one of the trees reads or assigns a variable that is looked up
/// under `key`.
pub open spec fn any_mentions(nodes: Seq<NodeView>, key: Seq<char>) -> bool
    decreases nodes,
{
    exists|i: int| 0 <= i < nodes.len() && mentions(#[trigger] nodes[i], key)
}

/// Whether the block reads or assigns a variable that is looked up under
/// `key`.
pub open spec fn block_mentions(block: BlockView, key: Seq<char>) -> bool
    decreases block,
{
    any_mentions(block.declarations, key) || mentions(block.compound_statement, key)
}

/// Whether one of the parameters is stored under `key`.
pub open spec fn params_declare(params: Seq<ParamView>, key: Seq<char>) -> bool {
    exists|i: int| 0 <= i < params.len() && name_key((#[trigger] params[i]).var_node.value) == key
}

/// Whether the tree declares, anywhere in it, a variable, a parameter or a
/// procedure that is stored under `key`.
pub open spec fn declares(node: NodeView, key: Seq<char>) -> bool
    decreases node,
{
    match node {
        NodeView::BinOp(left, _, right) => declares(*left, key) || declares(*right, key),
        NodeView::UnaryOp(_, operand) => declares(*operand, key),
        NodeView::Compound(compound) => any_declares(compound.children, key),
        NodeView::Assign(_, _, right) => declares(*right, key),
        NodeView::Program(_, block) => block_declares(*block, key),
        NodeView::VarDecl(var, _) => name_key(var.value) == key,
        NodeView::ProcedureDecl(name, block, params) => lowercase(name) == key || params_declare(
            params,
            key,
        ) || block_declares(*block, key),
        NodeView::ProcedureCall(call) => any_declares(call.actual_params, key),
        _ => false,
    }
}

/// Whether one of the trees declares something that is stored under `key`.
pub open spec fn any_declares(nodes: Seq<NodeView>, key: Seq<char>) -> bool
    decreases nodes,
{
    exists|i: int| 0 <= i < nodes.len() && declares(#[trigger] nodes[i], key)
}

/// Whether the block declares something that is stored under `key`.
pub open spec fn block_declares(block: BlockView, key: Seq<char>) -> bool
    decreases block,
{
    any_declares(block.declarations, key) || declares(block.compound_statement, key)
}

/// Whether `key` may be known in a scope that has grown from `scope` by the
/// declarations `declared`: it was visible before, it has been declared, or
/// it is the key of a builtin type, which every scope holds from the start.
pub open spec fn accounted_for(scope: SymbolTableView, declared: bool, key: Seq<char>) -> bool {
    visible(scope, key) || declared || builtin_symbols().contains_key(key)
}

/// A key is visible in a scope if it is stored in the scope's own table or
/// visible in the scope around it.
pub proof fn lemma_visible_here_or_around(scope: SymbolTableView, key: Seq<char>)
    ensures
        visible(scope, key) <==> scope.symbols.contains_key(key) || (scope.enclosing_scope matches Some(
            outer,
        ) && visible(*outer, key)),
{
}

/// What the declaration of parameters makes visible is what was visible
/// before and the parameters.
pub proof fn lemma_parameters_are_accounted_for(
    params: Seq<ParamView>,
    count: nat,
    scope: SymbolTableView,
    key: Seq<char>,
)
    requires
        count <= params.len(),
        declare_parameters(params, count, scope) is Ok,
    ensures
        visible(declare_parameters(params, count, scope)->Ok_0.1, key) ==> visible(scope, key)
            || params_declare(params, key),
    decreases count,
{
    if count > 0 {
        lemma_parameters_are_accounted_for(params, (count - 1) as nat, scope, key);
        let declared = declare_parameters(params, (count - 1) as nat, scope)->Ok_0.1;
        let after = declare_parameters(params, count, scope)->Ok_0.1;
        lemma_visible_here_or_around(after, key);
        lemma_visible_here_or_around(declared, key);
        lemma_parameters_keep_surroundings(params, (count - 1) as nat, scope);
        if visible(after, key) && !visible(declared, key) {
            assert(name_key(params[count - 1].var_node.value) == key);
        }
    }
}

/// In a tree that passes the analysis, every variable that is read or
/// assigned is accounted for: it is visible in the scope where the analysis
/// starts, declared somewhere in the tree, or the name of a builtin type.
/// The same holds of everything that is visible in the scope that the
/// analysis ends in.
pub proof fn lemma_names_are_accounted_for(node: NodeView, scope: SymbolTableView, key: Seq<char>)
    requires
        analyze(node, scope) is Ok,
    ensures
        mentions(node, key) ==> accounted_for(scope, declares(node, key), key),
        visible(analyze(node, scope)->Ok_0.1, key) ==> accounted_for(
            scope,
            declares(node, key),
            key,
        ),
    decreases node, 0nat,
{
    match node {
        NodeView::BinOp(left, _, right) => {
            lemma_names_are_accounted_for(*left, scope, key);
            let first = analyze(*left, scope)->Ok_0.1;
            lemma_names_are_accounted_for(*right, first, key);
        },
        NodeView::UnaryOp(_, operand) => {
            lemma_names_are_accounted_for(*operand, scope, key);
        },
        NodeView::Compound(compound) => {
            assert(analyze_all(compound.children, scope) == analyze_first(
                compound.children,
                compound.children.len(),
                scope,
            ));
            lemma_all_names_are_accounted_for(
                compound.children,
                compound.children.len(),
                scope,
                key,
            );
            assert(compound.children.take(compound.children.len() as int) =~= compound.children);
        },
        NodeView::Assign(_, _, right) => {
            lemma_names_are_accounted_for(*right, scope, key);
        },
        NodeView::Program(_, block) => {
            let entered = child_scope("global"@, scope);
            lemma_block_names_are_accounted_for(*block, entered, key);
            lemma_block_analysis_keeps_surroundings(*block, entered);
            lemma_visible_here_or_around(entered, key);
            assert(parent_scope(analyze_block(*block, entered)->Ok_0.1) == scope);
        },
        NodeView::ProcedureDecl(name, block, params) => {
            let entered = child_scope(name, scope);
            lemma_parameters_are_accounted_for(params, params.len(), entered, key);
            lemma_parameters_keep_surroundings(params, params.len(), entered);
            let (formal_params, inner) = declare_parameters(params, params.len(), entered)->Ok_0;
            let level = nested_level(scope.scope_level);
            let symbol = announced(name, formal_params, level);
            let declared = declare_outside(inner, symbol);
            lemma_block_names_are_accounted_for(*block, declared, key);
            lemma_block_analysis_keeps_surroundings(*block, declared);
            let done = analyze_block(*block, declared)->Ok_0.1;
            assert(inner.enclosing_scope == Some(Box::new(scope)));
            assert(done.enclosing_scope == declared.enclosing_scope);
            assert(parent_scope(done) == scope.insert(symbol));
            lemma_visible_here_or_around(declared, key);
            lemma_visible_here_or_around(inner, key);
            lemma_visible_here_or_around(entered, key);
            lemma_visible_here_or_around(scope.insert(symbol), key);
            lemma_visible_here_or_around(scope, key);
            assert(visible(declared, key) ==> visible(inner, key) || lowercase(name) == key);
            assert(visible(inner, key) ==> visible(scope, key) || params_declare(params, key)
                || builtin_symbols().contains_key(key));
            assert(visible(parent_scope(done), key) ==> visible(scope, key) || lowercase(name) == key);
            let body = analyze_block(*block, declared)->Ok_0.0;
            let after = parent_scope(done).insert(resolved(name, formal_params, level, body));
            lemma_visible_here_or_around(after, key);
            lemma_visible_here_or_around(parent_scope(done), key);
        },
        NodeView::ProcedureCall(call) => {
            assert(analyze_all(call.actual_params, scope) == analyze_first(
                call.actual_params,
                call.actual_params.len(),
                scope,
            ));
            assert(analyze_call(call, scope) is Ok);
            lemma_all_names_are_accounted_for(
                call.actual_params,
                call.actual_params.len(),
                scope,
                key,
            );
            assert(call.actual_params.take(call.actual_params.len() as int)
                =~= call.actual_params);
        },
        NodeView::VarDecl(var, type_node) => {
            let after = declare_variable(var, type_node, scope)->Ok_0;
            lemma_visible_here_or_around(after, key);
            lemma_visible_here_or_around(scope, key);
        },
        _ => {},
    }
}

/// In a block that passes the analysis, every variable that is read or
/// assigned is accounted for, and so is everything that is visible in the
/// scope that the analysis ends in.
pub proof fn lemma_block_names_are_accounted_for(
    block: BlockView,
    scope: SymbolTableView,
    key: Seq<char>,
)
    requires
        analyze_block(block, scope) is Ok,
    ensures
        block_mentions(block, key) ==> accounted_for(scope, block_declares(block, key), key),
        visible(analyze_block(block, scope)->Ok_0.1, key) ==> accounted_for(
            scope,
            block_declares(block, key),
            key,
        ),
    decreases block, 0nat,
{
    assert(analyze_all(block.declarations, scope) == analyze_first(
        block.declarations,
        block.declarations.len(),
        scope,
    ));
    lemma_all_names_are_accounted_for(block.declarations, block.declarations.len(), scope, key);
    assert(block.declarations.take(block.declarations.len() as int) =~= block.declarations);
    let declared = analyze_all(block.declarations, scope)->Ok_0.1;
    lemma_names_are_accounted_for(block.compound_statement, declared, key);
}

/// In trees that pass the analysis one after the other, every variable that
/// is read or assigned is accounted for, and so is everything that is
/// visible in the scope that the analysis ends in.
pub proof fn lemma_all_names_are_accounted_for(
    nodes: Seq<NodeView>,
    count: nat,
    scope: SymbolTableView,
    key: Seq<char>,
)
    requires
        count <= nodes.len(),
        analyze_first(nodes, count, scope) is Ok,
    ensures
        any_mentions(nodes.take(count as int), key) ==> accounted_for(
            scope,
            any_declares(nodes.take(count as int), key),
            key,
        ),
        visible(analyze_first(nodes, count, scope)->Ok_0.1, key) ==> accounted_for(
            scope,
            any_declares(nodes.take(count as int), key),
            key,
        ),
    decreases nodes, count,
{
    if count > 0 {
        let fewer = nodes.take(count - 1);
        let these = nodes.take(count as int);
        lemma_all_names_are_accounted_for(nodes, (count - 1) as nat, scope, key);
        let before = analyze_first(nodes, (count - 1) as nat, scope)->Ok_0.1;
        let last = nodes[count - 1];
        lemma_names_are_accounted_for(last, before, key);
        assert(these[count - 1] == last);
        assert forall|i: int| 0 <= i < fewer.len() implies fewer[i] == these[i] by {}
        if any_declares(fewer, key) {
            let i = choose|i: int| 0 <= i < fewer.len() && declares(#[trigger] fewer[i], key);
            assert(declares(these[i], key));
        }
        if declares(last, key) {
            assert(declares(these[count - 1], key));
        }
        if any_mentions(these, key) {
            let i = choose|i: int| 0 <= i < these.len() && mentions(#[trigger] these[i], key);
            if i < count - 1 {
                assert(mentions(fewer[i], key));
            }
        }
    }
}

/// A variable that is declared nowhere is rejected: if a tree reads or
/// assigns a variable whose name is not visible where the analysis starts,
/// is declared nowhere in the tree and is not the name of a builtin type,
/// then the analysis of the tree fails.
pub proof fn lemma_undeclared_name_is_rejected(node: NodeView, scope: SymbolTableView, key: Seq<char>)
    requires
        mentions(node, key),
        !declares(node, key),
        !visible(scope, key),
        !builtin_symbols().contains_key(key),
    ensures
        analyze(node, scope) is Err,
{
    if analyze(node, scope) is Ok {
        lemma_names_are_accounted_for(node, scope, key);
    }
}

/// Declaring parameters removes nothing from the scope.
pub proof fn lemma_parameters_keep_declarations(
    params: Seq<ParamView>,
    count: nat,
    scope: SymbolTableView,
    key: Seq<char>,
)
    requires
        scope.symbols.contains_key(key),
    ensures
        declare_parameters(params, count, scope) matches Ok((_, after))
            ==> after.symbols.contains_key(key),
    decreases count,
{
    if count > 0 {
        lemma_parameters_keep_declarations(params, (count - 1) as nat, scope, key);
    }
}

/// What is declared stays declared: the analysis of a tree removes nothing
/// from the scope it runs in.
pub proof fn lemma_analysis_keeps_declarations(
    node: NodeView,
    scope: SymbolTableView,
    key: Seq<char>,
)
    requires
        scope.symbols.contains_key(key),
    ensures
        analyze(node, scope) matches Ok((_, after)) ==> after.symbols.contains_key(key),
    decreases node, 0nat,
{
    match node {
        NodeView::BinOp(left, _, right) => {
            lemma_analysis_keeps_declarations(*left, scope, key);
            if let Ok((_, first)) = analyze(*left, scope) {
                lemma_analysis_keeps_declarations(*right, first, key);
            }
        },
        NodeView::UnaryOp(_, operand) => {
            lemma_analysis_keeps_declarations(*operand, scope, key);
        },
        NodeView::Compound(compound) => {
            assert(analyze_all(compound.children, scope) == analyze_first(
                compound.children,
                compound.children.len(),
                scope,
            ));
            lemma_analysis_of_first_keeps_declarations(
                compound.children,
                0,
                compound.children.len(),
                scope,
                key,
            );
        },
        NodeView::Assign(_, _, right) => {
            lemma_analysis_keeps_declarations(*right, scope, key);
        },
        NodeView::Program(name, block) => {
            lemma_program_leaves_scope(name, *block, scope);
        },
        NodeView::ProcedureDecl(name, block, params) => {
            let entered = child_scope(name, scope);
            lemma_parameters_keep_surroundings(params, params.len(), entered);
            if let Ok((formal_params, inner)) = declare_parameters(params, params.len(), entered) {
                let symbol = announced(name, formal_params, nested_level(scope.scope_level));
                let declared = declare_outside(inner, symbol);
                lemma_block_analysis_keeps_surroundings(*block, declared);
                if let Ok((_, done)) = analyze_block(*block, declared) {
                    assert(inner.enclosing_scope == Some(Box::new(scope)));
                    assert(done.enclosing_scope == declared.enclosing_scope);
                    assert(parent_scope(done) == scope.insert(symbol));
                }
            }
        },
        NodeView::ProcedureCall(call) => {
            assert(analyze_all(call.actual_params, scope) == analyze_first(
                call.actual_params,
                call.actual_params.len(),
                scope,
            ));
            lemma_analysis_of_first_keeps_declarations(
                call.actual_params,
                0,
                call.actual_params.len(),
                scope,
                key,
            );
            assert(analyze_call(call, scope) matches Ok((_, after))
                ==> after.symbols.contains_key(key));
        },
        NodeView::VarDecl(var, type_node) => {
            assert(declare_variable(var, type_node, scope) matches Ok(after)
                ==> after.symbols.contains_key(key));
        },
        _ => {},
    }
}

/// What the scope holds after the first `from` of the trees it still holds
/// after the first `count` of them.
pub proof fn lemma_analysis_of_first_keeps_declarations(
    nodes: Seq<NodeView>,
    from: nat,
    count: nat,
    scope: SymbolTableView,
    key: Seq<char>,
)
    requires
        from <= count <= nodes.len(),
        analyze_first(nodes, from, scope) matches Ok((_, before)) && before.symbols.contains_key(
            key,
        ),
    ensures
        analyze_first(nodes, count, scope) matches Ok((_, after)) ==> after.symbols.contains_key(
            key,
        ),
    decreases nodes, count,
{
    if from < count {
        lemma_analysis_of_first_keeps_declarations(nodes, from, (count - 1) as nat, scope, key);
        if let Ok((_, before)) = analyze_first(nodes, (count - 1) as nat, scope) {
            lemma_analysis_keeps_declarations(nodes[count - 1], before, key);
        }
    }
}

/// If the analysis of the first trees succeeds, so does that of fewer.
pub proof fn lemma_fewer_succeed(
    nodes: Seq<NodeView>,
    fewer: nat,
    count: nat,
    scope: SymbolTableView,
)
    requires
        fewer <= count <= nodes.len(),
        analyze_first(nodes, count, scope) is Ok,
    ensures
        analyze_first(nodes, fewer, scope) is Ok,
{
    if analyze_first(nodes, fewer, scope) is Err {
        lemma_first_error_stays(nodes, fewer, count, scope);
    }
}

/// A variable that is declared twice in one scope is rejected: if two of the
/// trees that are analyzed one after the other in a scope declare variables
/// whose names are the same but for case, the analysis fails, whatever stands
/// between the two.
pub proof fn lemma_double_declaration_is_rejected(
    nodes: Seq<NodeView>,
    first: int,
    second: int,
    scope: SymbolTableView,
)
    requires
        0 <= first < second < nodes.len(),
        nodes[first] matches NodeView::VarDecl(one, _) && nodes[second] matches NodeView::VarDecl(
            other,
            _,
        ) && name_key(one.value) == name_key(other.value),
    ensures
        analyze_all(nodes, scope) is Err,
{
    if analyze_all(nodes, scope) is Ok {
        let key = name_key(nodes[first]->VarDecl_0.value);
        lemma_fewer_succeed(nodes, (second + 1) as nat, nodes.len(), scope);
        lemma_fewer_succeed(nodes, (first + 1) as nat, (second + 1) as nat, scope);
        lemma_fewer_succeed(nodes, first as nat, (first + 1) as nat, scope);
        let start = analyze_first(nodes, first as nat, scope)->Ok_0.1;
        let declared = analyze_first(nodes, (first + 1) as nat, scope)->Ok_0.1;
        assert(analyze(nodes[first], start) is Ok);
        assert(declare_variable(nodes[first]->VarDecl_0, nodes[first]->VarDecl_1, start)
            == Ok::<SymbolTableView, SemanticErrorView>(declared));
        assert(declared.symbols.contains_key(key));
        lemma_analysis_of_first_keeps_declarations(
            nodes,
            (first + 1) as nat,
            second as nat,
            scope,
            key,
        );
        let before = analyze_first(nodes, second as nat, scope)->Ok_0.1;
        assert(before.symbols.contains_key(key));
        assert(analyze(nodes[second], before) is Err);
    }
}

/// A declared procedure is found with its body resolved: after the
/// declaration of a procedure has passed the analysis, a lookup of its name
/// in the scope finds the procedure's symbol, and the body that the symbol
/// holds is the body as the analysis has left it, with the calls in it
/// resolved. Every call that is analyzed later gets a copy of this symbol.
pub proof fn lemma_declared_procedure_holds_its_body(
    name: Seq<char>,
    block: BlockView,
    params: Seq<ParamView>,
    scope: SymbolTableView,
    current_scope_only: bool,
)
    ensures
        analyze(NodeView::ProcedureDecl(name, Box::new(block), params), scope) matches Ok(
            (NodeView::ProcedureDecl(_, body, _), after),
        ) ==> after.lookup(name, current_scope_only) matches Some(
            SymbolView::Procedure(procedure),
        ) && procedure.block_ast == Some(body) && procedure.name == name
            && procedure.formal_params.len() == params.len(),
{
    let entered = child_scope(name, scope);
    lemma_parameters_have_the_length(params, params.len(), entered);
}

/// As many symbols as parameters are declared.
pub proof fn lemma_parameters_have_the_length(
    params: Seq<ParamView>,
    count: nat,
    scope: SymbolTableView,
)
    ensures
        declare_parameters(params, count, scope) matches Ok((symbols, _)) ==> symbols.len()
            == count,
    decreases count,
{
    if count > 0 {
        lemma_parameters_have_the_length(params, (count - 1) as nat, scope);
    }
}

/// Whether every call in the tree carries the symbol of a procedure with as
/// many parameters as the call has arguments.
pub open spec fn calls_resolved(node: NodeView) -> bool
    decreases node,
{
    match node {
        NodeView::BinOp(left, _, right) => calls_resolved(*left) && calls_resolved(*right),
        NodeView::UnaryOp(_, operand) => calls_resolved(*operand),
        NodeView::Compound(compound) => all_calls_resolved(compound.children),
        NodeView::Assign(_, _, right) => calls_resolved(*right),
        NodeView::Program(_, block) => block_calls_resolved(*block),
        NodeView::ProcedureDecl(_, block, _) => block_calls_resolved(*block),
        NodeView::ProcedureCall(call) => call.proc_symbol matches Some(procedure)
            && procedure.formal_params.len() == call.actual_params.len() && all_calls_resolved(
            call.actual_params,
        ),
        _ => true,
    }
}

/// Whether every call in the trees is resolved.
pub open spec fn all_calls_resolved(nodes: Seq<NodeView>) -> bool
    decreases nodes,
{
    forall|i: int| 0 <= i < nodes.len() ==> calls_resolved(#[trigger] nodes[i])
}

/// Whether every call in the block is resolved.
pub open spec fn block_calls_resolved(block: BlockView) -> bool
    decreases block,
{
    all_calls_resolved(block.declarations) && calls_resolved(block.compound_statement)
}

/// Every call site holds its procedure: in the tree that the analysis
/// returns, every call carries the symbol of its callee, whose parameters
/// are as many as the arguments of the call.
pub proof fn lemma_analysis_resolves_every_call(node: NodeView, scope: SymbolTableView)
    ensures
        analyze(node, scope) matches Ok((tree, _)) ==> calls_resolved(tree),
    decreases node, 0nat,
{
    match node {
        NodeView::BinOp(left, _, right) => {
            lemma_analysis_resolves_every_call(*left, scope);
            if let Ok((_, first)) = analyze(*left, scope) {
                lemma_analysis_resolves_every_call(*right, first);
            }
        },
        NodeView::UnaryOp(_, operand) => {
            lemma_analysis_resolves_every_call(*operand, scope);
        },
        NodeView::Compound(compound) => {
            assert(analyze_all(compound.children, scope) == analyze_first(
                compound.children,
                compound.children.len(),
                scope,
            ));
            lemma_analysis_of_first_resolves_every_call(
                compound.children,
                compound.children.len(),
                scope,
            );
        },
        NodeView::Assign(_, _, right) => {
            lemma_analysis_resolves_every_call(*right, scope);
        },
        NodeView::Program(_, block) => {
            lemma_block_analysis_resolves_every_call(*block, child_scope("global"@, scope));
        },
        NodeView::ProcedureDecl(name, block, params) => {
            if let Ok((formal_params, inner)) = declare_parameters(
                params,
                params.len(),
                child_scope(name, scope),
            ) {
                lemma_block_analysis_resolves_every_call(
                    *block,
                    declare_outside(
                        inner,
                        announced(name, formal_params, nested_level(scope.scope_level)),
                    ),
                );
            }
        },
        NodeView::ProcedureCall(call) => {
            assert(analyze_all(call.actual_params, scope) == analyze_first(
                call.actual_params,
                call.actual_params.len(),
                scope,
            ));
            lemma_analysis_of_first_resolves_every_call(
                call.actual_params,
                call.actual_params.len(),
                scope,
            );
            lemma_analysis_keeps_the_count(call.actual_params, call.actual_params.len(), scope);
            assert(analyze_call(call, scope) matches Ok((resolved, _)) ==> calls_resolved(
                NodeView::ProcedureCall(resolved),
            ));
        },
        _ => {},
    }
}

/// The analysis of trees one after the other returns as many trees.
pub proof fn lemma_analysis_keeps_the_count(
    nodes: Seq<NodeView>,
    count: nat,
    scope: SymbolTableView,
)
    requires
        count <= nodes.len(),
    ensures
        analyze_first(nodes, count, scope) matches Ok((trees, _)) ==> trees.len() == count,
    decreases count,
{
    if count > 0 {
        lemma_analysis_keeps_the_count(nodes, (count - 1) as nat, scope);
    }
}

/// In the block that the analysis returns, every call is resolved.
pub proof fn lemma_block_analysis_resolves_every_call(block: BlockView, scope: SymbolTableView)
    ensures
        analyze_block(block, scope) matches Ok((tree, _)) ==> block_calls_resolved(tree),
    decreases block, 0nat,
{
    assert(analyze_all(block.declarations, scope) == analyze_first(
        block.declarations,
        block.declarations.len(),
        scope,
    ));
    lemma_analysis_of_first_resolves_every_call(
        block.declarations,
        block.declarations.len(),
        scope,
    );
    if let Ok((_, declared)) = analyze_all(block.declarations, scope) {
        lemma_analysis_resolves_every_call(block.compound_statement, declared);
    }
}

/// In the trees that the analysis returns, every call is resolved.
pub proof fn lemma_analysis_of_first_resolves_every_call(
    nodes: Seq<NodeView>,
    count: nat,
    scope: SymbolTableView,
)
    ensures
        analyze_first(nodes, count, scope) matches Ok((trees, _)) ==> all_calls_resolved(trees),
    decreases nodes, count,
{
    if count > 0 && count <= nodes.len() {
        lemma_analysis_of_first_resolves_every_call(nodes, (count - 1) as nat, scope);
        if let Ok((done, before)) = analyze_first(nodes, (count - 1) as nat, scope) {
            lemma_analysis_resolves_every_call(nodes[count - 1], before);
            if let Ok((tree, _)) = analyze(nodes[count - 1], before) {
                assert forall|i: int| 0 <= i < done.push(tree).len() implies calls_resolved(
                    #[trigger] done.push(tree)[i],
                ) by {
                    if i < done.len() {
                        assert(done.push(tree)[i] == done[i]);
                    }
                }
            }
        }
    }
}

} // verus!
