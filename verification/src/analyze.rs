//! The semantic analyzer: per-branch symbol tables, linear (consume
//! exactly once) variable use, and control-flow shape over the statement
//! tree.

use vstd::prelude::*;

use crate::ast::Expression;
use crate::ast::Factor;
use crate::ast::Location;
use crate::ast::StackParam;
use crate::ast::Statement;
use crate::ast::Target;
use crate::ast::Type;
use crate::semantics::branch_after;
use crate::semantics::branch_after_stmt;
use crate::semantics::build_scopes;
use crate::semantics::build_table_from;
use crate::semantics::consume_refs;
use crate::semantics::flow_step;
use crate::semantics::lemma_branch_after_ge;
use crate::semantics::lemma_branch_after_stmt_ge;
use crate::semantics::lemma_build_scopes_err;
use crate::semantics::lemma_run_block_ok;
use crate::semantics::entries_distinct;
use crate::semantics::expr_refs;
use crate::semantics::factor_refs;
use crate::semantics::factors_refs;
use crate::semantics::lemma_consume_refs_append;
use crate::semantics::lemma_map_of_contains;
use crate::semantics::lemma_map_of_index;
use crate::semantics::lemma_map_of_push;
use crate::semantics::lemma_map_of_update;
use crate::semantics::map_of;
use crate::semantics::pair_refs;
use crate::semantics::run_block;
use crate::semantics::run_stmts;
use crate::semantics::set_returned;
use crate::semantics::set_table;
use crate::source::CompileError;
use crate::source::ErrorKind;

verus! {

/// One named, typed slot of a branch's declared stack, with its use
/// counter. `consume_count` starts at 0 and may only ever move to 1.
#[derive(Clone, Copy)]
pub struct Symbol {
    /// The declared type of the variable.
    pub ty: Type,
    /// How many times the variable has been consumed; enforces the
    /// use-exactly-once rule.
    pub consume_count: usize,
    /// The initial depth on the stack (0 = top, so the slot declared last
    /// is nearest the top).
    pub stack_position: usize,
}

/// A symbol table for one branch: identifiers mapped to symbols. Stored
/// as an entry list whose identifiers are pairwise distinct; viewed as a
/// map from character sequences to symbols.
pub struct SymbolTable {
    entries: Vec<(String, Symbol)>,
}

impl View for SymbolTable {
    type V = Map<Seq<char>, Symbol>;

    closed spec fn view(&self) -> Map<Seq<char>, Symbol> {
        map_of(self.entries@)
    }
}

impl SymbolTable {
    /// The entry list never declares an identifier twice.
    pub closed spec fn wf(&self) -> bool {
        entries_distinct(self.entries@)
    }

    /// An empty table.
    pub fn new() -> (r: SymbolTable)
        ensures
            r.wf(),
            r@ == Map::<Seq<char>, Symbol>::empty(),
    {
        SymbolTable { entries: Vec::new() }
    }

    /// Looks an identifier up.
    pub fn get(&self, id: &String) -> (r: Option<&Symbol>)
        requires
            self.wf(),
        ensures
            match r {
                Some(sym) => self@.contains_key(id@) && *sym == self@[id@],
                None => !self@.contains_key(id@),
            },
    {
        let n = self.entries.len();
        let mut i: usize = 0;
        while i < n
            invariant
                i <= n,
                n == self.entries@.len(),
                self.wf(),
                forall|j: int| 0 <= j < i ==> self.entries@[j].0@ != id@,
            decreases n - i,
        {
            if self.entries[i].0 == *id {
                proof {
                    lemma_map_of_index(self.entries@, i as int);
                }
                return Some(&self.entries[i].1);
            }
            i += 1;
        }
        proof {
            lemma_map_of_contains(self.entries@, id@);
        }
        None
    }

    /// Binds an identifier, replacing any binding it already has.
    pub fn insert(&mut self, id: String, sym: Symbol)
        requires
            old(self).wf(),
        ensures
            final(self).wf(),
            final(self)@ == old(self)@.insert(id@, sym),
    {
        let n = self.entries.len();
        let mut i: usize = 0;
        while i < n
            invariant
                i <= n,
                n == self.entries@.len(),
                self.wf(),
                self.entries@ == old(self).entries@,
                forall|j: int| 0 <= j < i ==> self.entries@[j].0@ != id@,
            decreases n - i,
        {
            if self.entries[i].0 == id {
                proof {
                    lemma_map_of_update(self.entries@, i as int, id, sym);
                }
                self.entries[i] = (id, sym);
                return ;
            }
            i += 1;
        }
        proof {
            lemma_map_of_push(self.entries@, id, sym);
            lemma_map_of_contains(self.entries@, id@);
        }
        self.entries.push((id, sym));
    }

    /// The number of declared identifiers.
    pub fn len(&self) -> (n: usize)
        requires
            self.wf(),
        ensures
            n == self@.dom().len(),
    {
        proof {
            Self::lemma_distinct_len(self.entries@);
        }
        self.entries.len()
    }

    /// With distinct identifiers, the map has exactly one key per entry.
    proof fn lemma_distinct_len(entries: Seq<(String, Symbol)>)
        requires
            entries_distinct(entries),
        ensures
            map_of(entries).dom().len() == entries.len(),
            map_of(entries).dom().finite(),
        decreases entries.len(),
    {
        if entries.len() == 0 {
            assert(map_of(entries).dom() =~= Set::<Seq<char>>::empty());
        } else {
            Self::lemma_distinct_len(entries.drop_last());
            lemma_map_of_contains(entries.drop_last(), entries.last().0@);
        }
    }
}

/// All the contextual state of one branch: its symbol table, its index,
/// and whether its terminal value has been produced yet.
pub struct Scope {
    /// The symbol table of the variables this branch's stack declares.
    pub symbol_table: SymbolTable,
    /// Which declared input stack this scope belongs to.
    pub branch: usize,
    /// Whether this path has already produced its terminal value.
    pub return_value: bool,
}

/// The mathematical value of a [`Scope`].
pub ghost struct ScopeView {
    pub table: Map<Seq<char>, Symbol>,
    pub branch: nat,
    pub return_value: bool,
}

impl View for Scope {
    type V = ScopeView;

    open spec fn view(&self) -> ScopeView {
        ScopeView {
            table: self.symbol_table@,
            branch: self.branch as nat,
            return_value: self.return_value,
        }
    }
}

impl Scope {
    /// A well-formed scope carries a well-formed table.
    pub open spec fn wf(&self) -> bool {
        self.symbol_table.wf()
    }
}

/// Builds the symbol table of one branch from its declared stack: the
/// parameters are entered from the last declared (top of stack, position
/// 0) down to the first, each with a use count of 0, and an identifier
/// declared twice within the branch is a fatal duplicate-variable error
/// reported at the earlier declaration.
pub fn build_symbol_table(stack_vec: &Vec<StackParam>) -> (r: Result<SymbolTable, CompileError>)
    ensures
        match r {
            Ok(table) => {
                &&& table.wf()
                &&& crate::semantics::build_table(stack_vec@) == Ok::<_, crate::source::ErrorView>(
                    table@,
                )
            },
            Err(e) => crate::semantics::build_table(stack_vec@) == Err::<
                Map<Seq<char>, Symbol>,
                _,
            >(e@),
        },
{
    let n = stack_vec.len();
    let mut table = SymbolTable::new();
    let mut i: usize = n;
    while i > 0
        invariant
            i <= n,
            n == stack_vec@.len(),
            table.wf(),
            build_table_from(stack_vec@, n - i) == Ok::<_, crate::source::ErrorView>(table@),
        decreases i,
    {
        i = i - 1;
        let item = &stack_vec[i];
        if table.get(&item.identifier.0).is_some() {
            proof {
                crate::semantics::lemma_build_err_propagates(stack_vec@, n - i, n as int);
            }
            return Err(
                CompileError {
                    loc: item.loc,
                    kind: ErrorKind::DuplicateVariable(item.identifier.0.clone()),
                },
            );
        }
        table.insert(item.identifier.0.clone(), Symbol {
            ty: item.ty,
            consume_count: 0,
            stack_position: n - 1 - i,
        });
    }
    Ok(table)
}

/// The scope list as mathematical values.
pub open spec fn views_of(ss: Seq<Scope>) -> Seq<ScopeView> {
    ss.map_values(|s: Scope| s@)
}

/// Replacing one scope replaces one view.
proof fn lemma_views_update(ss: Seq<Scope>, i: int, sc: Scope)
    requires
        0 <= i < ss.len(),
    ensures
        views_of(ss.update(i, sc)) == views_of(ss).update(i, sc@),
{
    assert(views_of(ss.update(i, sc)) =~= views_of(ss).update(i, sc@));
}

/// The source span of one statement.
pub fn stmt_location(s: &Statement) -> (l: Location)
    ensures
        l == crate::ast::stmt_loc(*s),
{
    match s {
        Statement::IfStatement { loc, .. } => *loc,
        Statement::LocktimeStatement { loc, .. } => *loc,
        Statement::VerifyStatement(loc, _) => *loc,
        Statement::ExpressionStatement(loc, _) => *loc,
    }
}

/// Walks one expression left to right, verifying that every variable it
/// references is declared and still unconsumed, and marking each one
/// consumed. The table afterwards, and the first failure if any, are
/// exactly what consuming [`expr_refs`]`(*expression)` one reference at a
/// time gives.
pub fn check_variable(expression: &Expression, symbol_table: &mut SymbolTable) -> (r: Result<
    (),
    CompileError,
>)
    requires
        old(symbol_table).wf(),
    ensures
        final(symbol_table).wf(),
        ({
            let step = consume_refs(old(symbol_table)@, expr_refs(*expression));
            &&& final(symbol_table)@ == step.0
            &&& match r {
                Ok(_) => step.1 is Ok,
                Err(e) => step.1 == Err::<(), crate::source::ErrorView>(e@),
            }
        }),
    decreases *expression,
{
    match expression {
        Expression::Variable(loc, id) => {
            proof {
                reveal_with_fuel(consume_refs, 2);
            }
            let sym: Symbol = match symbol_table.get(&id.0) {
                None => {
                    return Err(
                        CompileError {
                            loc: *loc,
                            kind: ErrorKind::UndefinedVariable(id.0.clone()),
                        },
                    );
                },
                Some(s) => *s,
            };
            if sym.consume_count != 0 {
                return Err(
                    CompileError { loc: *loc, kind: ErrorKind::VariableConsumed(id.0.clone()) },
                );
            }
            symbol_table.insert(id.0.clone(), Symbol {
                ty: sym.ty,
                consume_count: 1,
                stack_position: sym.stack_position,
            });
            Ok(())
        },
        Expression::NumberLiteral(_, _) => { return Ok(()); },
        Expression::BooleanLiteral(_, _) => { return Ok(()); },
        Expression::StringLiteral(_, _) => { return Ok(()); },
        Expression::LogicalExpression { lhs, rhs, .. } => {
            proof {
                lemma_consume_refs_append(symbol_table@, expr_refs(**lhs), expr_refs(**rhs));
            }
            if let Err(e) = check_variable(&**lhs, symbol_table) {
                return Err(e);
            }
            return check_variable(&**rhs, symbol_table);
        },
        Expression::CompareExpression { lhs, rhs, .. } => {
            proof {
                lemma_consume_refs_append(symbol_table@, expr_refs(**lhs), expr_refs(**rhs));
            }
            if let Err(e) = check_variable(&**lhs, symbol_table) {
                return Err(e);
            }
            return check_variable(&**rhs, symbol_table);
        },
        Expression::UnaryMathExpression { operand, .. } => {
            return check_variable(&**operand, symbol_table);
        },
        Expression::BinaryMathExpression { lhs, rhs, .. } => {
            proof {
                lemma_consume_refs_append(symbol_table@, expr_refs(**lhs), expr_refs(**rhs));
            }
            if let Err(e) = check_variable(&**lhs, symbol_table) {
                return Err(e);
            }
            return check_variable(&**rhs, symbol_table);
        },
        Expression::UnaryCryptoExpression { operand, .. } => {
            return check_variable(&**operand, symbol_table);
        },
        Expression::ByteExpression { operand, .. } => {
            return check_variable(&**operand, symbol_table);
        },
        Expression::CheckSigExpression { operand, .. } => match &**operand {
            Factor::SingleSigFactor { sig, pubkey, .. } => {
                proof {
                    assert(*expression is CheckSigExpression);
                    assert(**operand is SingleSigFactor);
                    assert(expr_refs(*expression) == factor_refs(**operand));
                    assert(factor_refs(**operand) == expr_refs(**sig) + expr_refs(**pubkey));
                    lemma_consume_refs_append(symbol_table@, expr_refs(**sig), expr_refs(**pubkey));
                }
                if let Err(e) = check_variable(&**sig, symbol_table) {
                    return Err(e);
                }
                return check_variable(&**pubkey, symbol_table);
            },
            Factor::MultiSigFactor { n, .. } => {
                let ghost t0 = symbol_table@;
                let len = n.len();
                let mut i: usize = 0;
                proof {
                    assert(*expression is CheckSigExpression);
                    assert(**operand is MultiSigFactor);
                    assert(expr_refs(*expression) == factor_refs(**operand));
                    assert(factor_refs(**operand) == factors_refs(n@));
                    assert(n@.subrange(0, len as int) =~= n@);
                }
                #[verifier::loop_isolation(false)]
                while i < len
                    invariant
                        i <= len,
                        len == n@.len(),
                        symbol_table.wf(),
                        consume_refs(t0, factors_refs(n@)) == consume_refs(
                            symbol_table@,
                            factors_refs(n@.subrange(i as int, len as int)),
                        ),
                    decreases len - i,
                {
                    proof {
                        assert(n@.subrange(i as int, len as int)[0] == n@[i as int]);
                        assert(n@.subrange(i as int, len as int).drop_first() =~= n@.subrange(
                            i + 1,
                            len as int,
                        ));
                        lemma_consume_refs_append(
                            symbol_table@,
                            pair_refs(n@[i as int]),
                            factors_refs(n@.subrange(i + 1, len as int)),
                        );
                    }
                    match &n[i] {
                        Factor::SingleSigFactor { sig, pubkey, .. } => {
                            proof {
                                assert(decreases_to!(n@ => n@[i as int]));
                                assert(decreases_to!(
                                    n@[i as int] => n@[i as int]->SingleSigFactor_sig
                                ));
                                assert(decreases_to!(
                                    n@[i as int] => n@[i as int]->SingleSigFactor_pubkey
                                ));
                                lemma_consume_refs_append(
                                    symbol_table@,
                                    expr_refs(**sig),
                                    expr_refs(**pubkey),
                                );
                            }
                            if let Err(e) = check_variable(&**sig, symbol_table) {
                                return Err(e);
                            }
                            if let Err(e) = check_variable(&**pubkey, symbol_table) {
                                return Err(e);
                            }
                        },
                        Factor::MultiSigFactor { .. } => {},
                    }
                    i += 1;
                }
                proof {
                    assert(n@.subrange(len as int, len as int) =~= Seq::<Factor>::empty());
                }
                return Ok(());
            },
        },
    }
}

/// The control-flow validation step for one statement: a branch beyond
/// the first may only proceed once its predecessor branch has recorded
/// its terminal value, and within one branch only one expression
/// statement may produce that value; checking the expression statement
/// records it.
pub fn check_flow(
    statement: &Statement,
    loc: Location,
    scope_vec: &mut Vec<Scope>,
    branch: usize,
) -> (r: Result<(), CompileError>)
    requires
        branch < old(scope_vec)@.len(),
        forall|k: int| 0 <= k < old(scope_vec)@.len() ==> old(scope_vec)@[k].wf(),
    ensures
        final(scope_vec)@.len() == old(scope_vec)@.len(),
        forall|k: int| 0 <= k < final(scope_vec)@.len() ==> final(scope_vec)@[k].wf(),
        ({
            let fs = flow_step(*statement, loc, views_of(old(scope_vec)@), branch as int);
            &&& views_of(final(scope_vec)@) == fs.0
            &&& match r {
                Ok(_) => fs.1 is Ok,
                Err(e) => fs.1 == Err::<(), crate::source::ErrorView>(e@),
            }
        }),
{
    if branch != 0 && !scope_vec[branch - 1].return_value {
        return Err(CompileError { loc, kind: ErrorKind::NoReturn });
    }
    match statement {
        Statement::ExpressionStatement(loc2, _) => {
            if scope_vec[branch].return_value {
                return Err(CompileError { loc: *loc2, kind: ErrorKind::MultipleReturn });
            }
            let ghost before = scope_vec@;
            let scope = &mut scope_vec[branch];
            scope.return_value = true;
            proof {
                lemma_views_update(before, branch as int, scope_vec@[branch as int]);
                assert(views_of(scope_vec@) =~= set_returned(views_of(before), branch as int));
            }
            Ok(())
        },
        _ => Ok(()),
    }
}

/// Walks one statement list, fail-fast, starting at the given branch:
/// verifies variable use against the current branch's table, validates
/// control-flow shape, analyzes an `if` block in the current branch, and
/// an `else` block in the next free branch; returns the next free branch
/// index. The statement walk, its scope updates, and its first failure
/// are exactly [`run_block`] on the list.
pub fn analyze_statement(
    ast: &Vec<Statement>,
    scope_vec: &mut Vec<Scope>,
    target: &Target,
    branch: usize,
) -> (r: Result<usize, CompileError>)
    requires
        forall|k: int| 0 <= k < old(scope_vec)@.len() ==> old(scope_vec)@[k].wf(),
        ast@.len() == 0 || branch_after(ast@, branch as int) < old(scope_vec)@.len(),
    ensures
        final(scope_vec)@.len() == old(scope_vec)@.len(),
        forall|k: int| 0 <= k < final(scope_vec)@.len() ==> final(scope_vec)@[k].wf(),
        ({
            let out = run_block(ast@, views_of(old(scope_vec)@), branch as int);
            &&& views_of(final(scope_vec)@) == out.scopes
            &&& match r {
                Ok(b) => out.res == Ok::<int, crate::source::ErrorView>(b as int),
                Err(e) => out.res == Err::<int, crate::source::ErrorView>(e@),
            }
        }),
    decreases ast@,
{
    let n = ast.len();
    if n > 0 {
        let closes = match &ast[n - 1] {
            Statement::IfStatement { .. } => true,
            Statement::ExpressionStatement(_, _) => true,
            _ => false,
        };
        if !closes {
            let last_loc = stmt_location(&ast[n - 1]);
            return Err(CompileError { loc: last_loc, kind: ErrorKind::UnreachableCode });
        }
    }
    proof {
        assert(ast@.subrange(0, n as int) =~= ast@);
        lemma_branch_after_ge(ast@, branch as int);
    }
    let mut b: usize = branch;
    let mut i: usize = 0;
    #[verifier::loop_isolation(false)]
    while i < n
        invariant
            i <= n,
            scope_vec@.len() == old(scope_vec)@.len(),
            forall|k: int| 0 <= k < scope_vec@.len() ==> scope_vec@[k].wf(),
            branch_after(ast@.subrange(i as int, n as int), b as int) == branch_after(
                ast@,
                branch as int,
            ),
            b as int <= branch_after(ast@, branch as int),
            run_stmts(ast@.subrange(i as int, n as int), views_of(scope_vec@), b as int)
                == run_block(ast@, views_of(old(scope_vec)@), branch as int),
        decreases n - i,
    {
        let ghost sub = ast@.subrange(i as int, n as int);
        proof {
            assert(sub[0] == ast@[i as int]);
            assert(sub.drop_first() =~= ast@.subrange(i as int + 1, n as int));
            assert(sub.last() == ast@[n - 1]);
            lemma_branch_after_ge(sub.drop_first(), branch_after_stmt(sub[0], b as int));
            lemma_branch_after_stmt_ge(sub[0], b as int);
        }
        match &ast[i] {
            Statement::LocktimeStatement { .. } => {},
            Statement::VerifyStatement(_, expr) => {
                let ghost before = scope_vec@;
                let scope = &mut scope_vec[b];
                let res = check_variable(expr, &mut scope.symbol_table);
                proof {
                    lemma_views_update(before, b as int, scope_vec@[b as int]);
                    assert(views_of(scope_vec@) =~= set_table(
                        views_of(before),
                        b as int,
                        consume_refs(views_of(before)[b as int].table, expr_refs(*expr)).0,
                    ));
                }
                if let Err(e) = res {
                    return Err(e);
                }
            },
            Statement::ExpressionStatement(loc, expr) => {
                if let Err(e) = check_flow(&ast[i], *loc, scope_vec, b) {
                    return Err(e);
                }
                let ghost before = scope_vec@;
                let scope = &mut scope_vec[b];
                let res = check_variable(expr, &mut scope.symbol_table);
                proof {
                    lemma_views_update(before, b as int, scope_vec@[b as int]);
                    assert(views_of(scope_vec@) =~= set_table(
                        views_of(before),
                        b as int,
                        consume_refs(views_of(before)[b as int].table, expr_refs(*expr)).0,
                    ));
                }
                if let Err(e) = res {
                    return Err(e);
                }
            },
            Statement::IfStatement { condition_expr, if_block, else_block, .. } => {
                if i + 1 != n {
                    let last_loc = stmt_location(&ast[n - 1]);
                    return Err(CompileError { loc: last_loc, kind: ErrorKind::UnreachableCode });
                }
                proof {
                    assert(sub.drop_first().len() == 0);
                    lemma_branch_after_ge(if_block@, b as int);
                    if let Some(eb) = ast@[i as int]->else_block {
                        lemma_branch_after_ge(eb@, branch_after(if_block@, b as int) + 1);
                    }
                }
                let ghost before = scope_vec@;
                let scope = &mut scope_vec[b];
                let res = check_variable(condition_expr, &mut scope.symbol_table);
                proof {
                    lemma_views_update(before, b as int, scope_vec@[b as int]);
                    assert(views_of(scope_vec@) =~= set_table(
                        views_of(before),
                        b as int,
                        consume_refs(
                            views_of(before)[b as int].table,
                            expr_refs(*condition_expr),
                        ).0,
                    ));
                }
                if let Err(e) = res {
                    return Err(e);
                }
                let ghost b_if: int = b as int;
                proof {
                    lemma_run_block_ok(if_block@, views_of(scope_vec@), b_if);
                }
                b = match analyze_statement(if_block, scope_vec, target, b) {
                    Ok(b1) => b1,
                    Err(e) => {
                        return Err(e);
                    },
                };
                if let Some(eb) = else_block {
                    let scope_count = scope_vec.len();
                    proof {
                        assert(b as int == branch_after(if_block@, b_if));
                        assert(branch_after_stmt(sub[0], b_if) == branch_after(eb@, b as int + 1));
                        assert(b as int + 1 <= branch_after(ast@, branch as int));
                        assert(branch_after(ast@, branch as int) < scope_count as int);
                        assert(b < usize::MAX);
                        lemma_run_block_ok(eb@, views_of(scope_vec@), b as int + 1);
                    }
                    b = match analyze_statement(eb, scope_vec, target, b + 1) {
                        Ok(b2) => b2,
                        Err(e) => {
                            return Err(e);
                        },
                    };
                }
            },
        }
        i += 1;
    }
    proof {
        assert(ast@.subrange(n as int, n as int) =~= Seq::<Statement>::empty());
    }
    Ok(b)
}

/// The analysis driver: builds one scope per declared input stack, then
/// walks the statement tree from branch 0. On success the finished
/// scopes are returned, with the final consume state of every symbol.
pub fn analyze(ast: &Vec<Statement>, input: &Vec<Vec<StackParam>>, target: &Target) -> (r: Result<
    Vec<Scope>,
    CompileError,
>)
    requires
        ast@.len() == 0 || branch_after(ast@, 0) < input@.len(),
    ensures
        match build_scopes(input@) {
            Err(ev) => r matches Err(e) && e@ == ev,
            Ok(scopes0) => {
                let out = run_block(ast@, scopes0, 0);
                match r {
                    Ok(scopes) => {
                        &&& out.res is Ok
                        &&& scopes@.len() == input@.len()
                        &&& views_of(scopes@) == out.scopes
                        &&& forall|k: int| 0 <= k < scopes@.len() ==> scopes@[k].wf()
                    },
                    Err(e) => out.res == Err::<int, crate::source::ErrorView>(e@),
                }
            },
        },
{
    let m = input.len();
    let mut scope_vec: Vec<Scope> = Vec::new();
    let mut branch: usize = 0;
    proof {
        assert(input@.subrange(0, 0) =~= Seq::<Vec<StackParam>>::empty());
        assert(views_of(scope_vec@) =~= Seq::<ScopeView>::empty());
    }
    #[verifier::loop_isolation(false)]
    while branch < m
        invariant
            branch <= m,
            scope_vec@.len() == branch,
            forall|k: int| 0 <= k < scope_vec@.len() ==> scope_vec@[k].wf(),
            build_scopes(input@.subrange(0, branch as int)) == Ok::<_, crate::source::ErrorView>(
                views_of(scope_vec@),
            ),
        decreases m - branch,
    {
        let ghost prefix = input@.subrange(0, branch as int + 1);
        proof {
            assert(prefix.drop_last() =~= input@.subrange(0, branch as int));
            assert(prefix.last() == input@[branch as int]);
        }
        let table = match build_symbol_table(&input[branch]) {
            Ok(t) => t,
            Err(e) => {
                proof {
                    lemma_build_scopes_err(input@, branch as int + 1);
                }
                return Err(e);
            },
        };
        let ghost before = scope_vec@;
        scope_vec.push(Scope { symbol_table: table, branch, return_value: false });
        proof {
            assert(views_of(scope_vec@) =~= views_of(before).push(scope_vec@.last()@));
        }
        branch = branch + 1;
    }
    proof {
        assert(input@.subrange(0, m as int) =~= input@);
    }
    match analyze_statement(ast, &mut scope_vec, target, 0) {
        Ok(_) => Ok(scope_vec),
        Err(e) => Err(e),
    }
}

/// The type of each operand is fixed by the grammar's shape for every
/// operator, so no separate type pass runs on the expression tree.
pub fn check_type(expression: &Expression) {
}

/// The analyzer keys every guarantee to the explicit rules of the other
/// passes; no heuristic vulnerability scan runs beside them.
pub fn check_security() {
}

/// Checks the consensus rules of the target dialect, per spending path:
/// peak stack depth over the declared witness items, opcode count,
/// serialized script size under the target's ceiling, signature
/// operations, and opcodes the target disables. Unlike the fail-fast
/// passes, every violation of every path is collected and returned
/// together; an empty list means the script respects every limit.
/// Literal pushes are priced at their minimal encodings, so a parsed
/// tree cannot carry a non-minimal push; that variant of the error
/// taxonomy is left to checks on raw emitted bytes.
pub fn check_consensus(ast: &Vec<Statement>, input: &Vec<Vec<StackParam>>, target: &Target) -> (r:
    Vec<CompileError>)
    requires
        ast@.len() == 0 || branch_after(ast@, 0) < input@.len(),
    ensures
        crate::compile::errs_view(r@) == spec_check_consensus(ast@, *target, crate::compile::stack_counts(input@)),
{
    let mut errs: Vec<CompileError> = Vec::new();
    if ast.len() == 0 {
        proof {
            assert(crate::compile::errs_view(errs@) =~= Seq::<crate::source::ErrorView>::empty());
        }
        return errs;
    }
    let ghost before = errs@;
    let _last = crate::compile::consensus_stmts(
        ast,
        input,
        target,
        0,
        crate::compile::PathCost {
            ops: 0,
            size: 0,
            sigops: 0,
            depth: 0,
            peak: 0,
            loc: Location { start: 0, end: 0, line: 0, column: 0 },
        },
        &mut errs,
    );
    proof {
        assert(crate::compile::errs_view(before) =~= Seq::<crate::source::ErrorView>::empty());
        assert(crate::compile::errs_view(errs@) =~= crate::compile::errs_view(before)
            + spec_check_consensus(ast@, *target, crate::compile::stack_counts(input@)));
    }
    errs
}

/// What [`check_consensus`] returns: nothing for an empty script, and
/// the priced walk of every path from branch 0 otherwise.
pub open spec fn spec_check_consensus(
    stmts: Seq<Statement>,
    target: Target,
    counts: Seq<usize>,
) -> Seq<crate::source::ErrorView> {
    if stmts.len() == 0 {
        Seq::empty()
    } else {
        crate::compile::cons_stmts(
            stmts,
            target,
            0,
            crate::compile::spec_empty_path(),
            counts,
        ).0
    }
}

/// Fee estimation belongs to the wallet layer that assembles the
/// transaction, not to script analysis.
pub fn check_fee() {
}

} // verus!
