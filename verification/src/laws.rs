//! The analyzer's guarantees, stated and proved once and for all: linear
//! consumption, scope isolation, duplicate rejection, terminal placement,
//! and dead code after a branch.

use vstd::prelude::*;

use crate::ast::Expression;
use crate::ast::Factor;
use crate::ast::Statement;

verus! {

use crate::analyze::ScopeView;
use crate::analyze::Symbol;
use crate::semantics::branch_after;
use crate::semantics::branch_after_stmt;
use crate::semantics::build_table;
use crate::semantics::build_table_from;
use crate::semantics::consume_name;
use crate::semantics::consume_refs;
use crate::semantics::expr_refs;
use crate::semantics::factor_refs;
use crate::semantics::factors_refs;
use crate::semantics::lemma_branch_after_ge;
use crate::semantics::lemma_branch_after_stmt_ge;
use crate::semantics::may_close_block;
use crate::semantics::pair_refs;
use crate::semantics::run_block;
use crate::semantics::run_stmts;
use crate::semantics::set_returned;
use crate::semantics::set_table;
use crate::semantics::VarRef;

/// Whether some reference in the list uses a name.
pub open spec fn refs_use(rs: Seq<VarRef>, k: Seq<char>) -> bool {
    exists|i: int| 0 <= i < rs.len() && rs[i].name == k
}

/// Linearity, part one: consuming references never removes a symbol,
/// never changes its type or stack position, and never moves its use
/// count downwards — the only transition is 0 to 1.
pub proof fn lemma_consume_refs_linear(t: Map<Seq<char>, Symbol>, rs: Seq<VarRef>, k: Seq<char>)
    requires
        t.contains_key(k),
    ensures
        ({
            let t2 = consume_refs(t, rs).0;
            &&& t2.contains_key(k)
            &&& t2[k].ty == t[k].ty
            &&& t2[k].stack_position == t[k].stack_position
            &&& t2[k].consume_count >= t[k].consume_count
            &&& (t2[k].consume_count == t[k].consume_count || (t[k].consume_count == 0
                && t2[k].consume_count == 1))
        }),
    decreases rs.len(),
{
    if rs.len() > 0 {
        let r = rs[0];
        if t.contains_key(r.name) && t[r.name].consume_count == 0 {
            lemma_consume_refs_linear(consume_name(t, r.name), rs.drop_first(), k);
        }
    }
}

/// Linearity, part two: a walk that succeeds referenced pairwise distinct
/// names, found each declared and unconsumed, and left each of them — and
/// nothing else — with a use count of 1.
pub proof fn lemma_consume_refs_success(t: Map<Seq<char>, Symbol>, rs: Seq<VarRef>)
    requires
        consume_refs(t, rs).1 is Ok,
    ensures
        forall|i: int, j: int| 0 <= i < j < rs.len() ==> rs[i].name != rs[j].name,
        forall|i: int|
            0 <= i < rs.len() ==> t.contains_key(#[trigger] rs[i].name)
                && t[rs[i].name].consume_count == 0,
        forall|k: Seq<char>|
            t.contains_key(k) ==> #[trigger] consume_refs(t, rs).0[k] == (if refs_use(rs, k) {
                Symbol { ty: t[k].ty, consume_count: 1, stack_position: t[k].stack_position }
            } else {
                t[k]
            }),
        consume_refs(t, rs).0.dom() == t.dom(),
    decreases rs.len(),
{
    if rs.len() == 0 {
        assert(forall|k: Seq<char>| !refs_use(rs, k));
    } else {
        let r = rs[0];
        let t1 = consume_name(t, r.name);
        lemma_consume_refs_success(t1, rs.drop_first());
        assert(t1.dom() =~= t.dom());
        assert forall|i: int| 0 <= i < rs.len() implies t.contains_key(#[trigger] rs[i].name)
            && t[rs[i].name].consume_count == 0 by {
            if i > 0 {
                assert(rs.drop_first()[i - 1] == rs[i]);
                assert(t1[rs[i].name].consume_count == 0);
                assert(rs[i].name != r.name);
            }
        }
        assert forall|i: int, j: int| 0 <= i < j < rs.len() implies rs[i].name != rs[j].name by {
            if i > 0 {
                assert(rs.drop_first()[i - 1] == rs[i]);
                assert(rs.drop_first()[j - 1] == rs[j]);
            } else {
                assert(rs.drop_first()[j - 1] == rs[j]);
                assert(t1[rs[j].name].consume_count == 0);
            }
        }
        assert forall|k: Seq<char>| t.contains_key(k) implies #[trigger] consume_refs(
            t,
            rs,
        ).0[k] == (if refs_use(rs, k) {
            Symbol { ty: t[k].ty, consume_count: 1, stack_position: t[k].stack_position }
        } else {
            t[k]
        }) by {
            if refs_use(rs, k) {
                let i = choose|i: int| 0 <= i < rs.len() && rs[i].name == k;
                if k == r.name {
                    assert(!refs_use(rs.drop_first(), k));
                } else {
                    assert(rs.drop_first()[i - 1] == rs[i]);
                    assert(refs_use(rs.drop_first(), k));
                }
            } else {
                assert(!refs_use(rs.drop_first(), k)) by {
                    if refs_use(rs.drop_first(), k) {
                        let i = choose|i: int|
                            0 <= i < rs.drop_first().len() && rs.drop_first()[i].name == k;
                        assert(rs[i + 1].name == k);
                    }
                }
                assert(k != r.name);
            }
        }
    }
}

/// Referencing the same name twice never passes the checker.
pub proof fn lemma_reused_reference_fails(
    t: Map<Seq<char>, Symbol>,
    rs: Seq<VarRef>,
    i: int,
    j: int,
)
    requires
        0 <= i < j < rs.len(),
        rs[i].name == rs[j].name,
    ensures
        consume_refs(t, rs).1 is Err,
{
    if consume_refs(t, rs).1 is Ok {
        lemma_consume_refs_success(t, rs);
    }
}

/// At the moment a reference reaches a symbol whose count is already 1,
/// the walk stops with a consumed-variable report naming that symbol.
pub proof fn lemma_consumed_reference_kind(t: Map<Seq<char>, Symbol>, rs: Seq<VarRef>)
    requires
        rs.len() > 0,
        t.contains_key(rs[0].name),
        t[rs[0].name].consume_count != 0,
    ensures
        consume_refs(t, rs).1 == Err::<(), crate::source::ErrorView>(
            crate::source::ErrorView {
                loc: rs[0].loc,
                kind: crate::source::ErrorKindView::VariableConsumed(rs[0].name),
            },
        ),
{
}

/// Linearity over a whole walk: no statement walk ever removes a symbol,
/// renames it, changes its type or stack position, moves its branch, or
/// lowers its use count.
pub proof fn lemma_run_shape_preserved(
    stmts: Seq<Statement>,
    scopes: Seq<ScopeView>,
    b: int,
    i: int,
    k: Seq<char>,
)
    requires
        0 <= b,
        branch_after(stmts, b) < scopes.len(),
        0 <= i < scopes.len(),
        scopes[i].table.contains_key(k),
    ensures
        ({
            let r = run_block(stmts, scopes, b);
            &&& r.scopes.len() == scopes.len()
            &&& r.scopes[i].branch == scopes[i].branch
            &&& r.scopes[i].table.contains_key(k)
            &&& r.scopes[i].table[k].ty == scopes[i].table[k].ty
            &&& r.scopes[i].table[k].stack_position == scopes[i].table[k].stack_position
            &&& r.scopes[i].table[k].consume_count >= scopes[i].table[k].consume_count
        }),
    decreases stmts, 1int,
{
    crate::semantics::lemma_run_block_ok(stmts, scopes, b);
    if !(stmts.len() > 0 && !may_close_block(stmts.last())) {
        lemma_run_shape_preserved_stmts(stmts, scopes, b, i, k);
    }
}

/// As [`lemma_run_shape_preserved`], for the statement walk after the
/// block shape check.
proof fn lemma_run_shape_preserved_stmts(
    stmts: Seq<Statement>,
    scopes: Seq<ScopeView>,
    b: int,
    i: int,
    k: Seq<char>,
)
    requires
        0 <= b,
        branch_after(stmts, b) < scopes.len(),
        0 <= i < scopes.len(),
        scopes[i].table.contains_key(k),
    ensures
        ({
            let r = run_stmts(stmts, scopes, b);
            &&& r.scopes.len() == scopes.len()
            &&& r.scopes[i].branch == scopes[i].branch
            &&& r.scopes[i].table.contains_key(k)
            &&& r.scopes[i].table[k].ty == scopes[i].table[k].ty
            &&& r.scopes[i].table[k].stack_position == scopes[i].table[k].stack_position
            &&& r.scopes[i].table[k].consume_count >= scopes[i].table[k].consume_count
        }),
    decreases stmts, 0int,
{
    crate::semantics::lemma_run_stmts_ok(stmts, scopes, b);
    lemma_branch_after_ge(stmts, b);
    if stmts.len() > 0 {
        lemma_branch_after_stmt_ge(stmts[0], b);
        lemma_branch_after_ge(stmts.drop_first(), branch_after_stmt(stmts[0], b));
        match stmts[0] {
            Statement::LocktimeStatement { .. } => {
                lemma_run_shape_preserved_stmts(stmts.drop_first(), scopes, b, i, k);
            },
            Statement::VerifyStatement(_, e) => {
                let step = consume_refs(scopes[b].table, expr_refs(e));
                let scopes2 = set_table(scopes, b, step.0);
                if i == b {
                    lemma_consume_refs_linear(scopes[b].table, expr_refs(e), k);
                }
                if step.1 is Ok {
                    lemma_run_shape_preserved_stmts(stmts.drop_first(), scopes2, b, i, k);
                }
            },
            Statement::ExpressionStatement(_, e) => {
                if !(b != 0 && !scopes[b - 1].return_value) && !scopes[b].return_value {
                    let scopes1 = set_returned(scopes, b);
                    let step = consume_refs(scopes1[b].table, expr_refs(e));
                    let scopes2 = set_table(scopes1, b, step.0);
                    if i == b {
                        lemma_consume_refs_linear(scopes1[b].table, expr_refs(e), k);
                    }
                    if step.1 is Ok {
                        lemma_run_shape_preserved_stmts(stmts.drop_first(), scopes2, b, i, k);
                    }
                }
            },
            Statement::IfStatement { condition_expr, if_block, else_block, .. } => {
                if stmts.len() == 1 {
                    let step = consume_refs(scopes[b].table, expr_refs(condition_expr));
                    let scopes2 = set_table(scopes, b, step.0);
                    if i == b {
                        lemma_consume_refs_linear(scopes[b].table, expr_refs(condition_expr), k);
                    }
                    if step.1 is Ok {
                        assert(stmts.drop_first().len() == 0);
                        lemma_branch_after_ge(if_block@, b);
                        if let Some(eb) = else_block {
                            lemma_branch_after_ge(eb@, branch_after(if_block@, b) + 1);
                        }
                        crate::semantics::lemma_run_block_ok(if_block@, scopes2, b);
                        lemma_run_shape_preserved(if_block@, scopes2, b, i, k);
                        let r1 = run_block(if_block@, scopes2, b);
                        if let Ok(b1) = r1.res {
                            if let Some(eb) = else_block {
                                lemma_run_shape_preserved(eb@, r1.scopes, b1 + 1, i, k);
                            }
                        }
                    }
                }
            },
        }
    }
}

/// Scope isolation: walking statements from branch `b` never changes any
/// scope before `b`. Together with `check_variable` taking one branch's
/// table alone, consuming a variable in one branch cannot change the
/// identically named symbol of another.
pub proof fn lemma_scope_isolation(stmts: Seq<Statement>, scopes: Seq<ScopeView>, b: int, i: int)
    requires
        0 <= b,
        branch_after(stmts, b) < scopes.len(),
        0 <= i < b,
    ensures
        run_block(stmts, scopes, b).scopes[i] == scopes[i],
    decreases stmts, 1int,
{
    if !(stmts.len() > 0 && !may_close_block(stmts.last())) {
        lemma_scope_isolation_stmts(stmts, scopes, b, i);
    }
}

/// As [`lemma_scope_isolation`], for the statement walk after the block
/// shape check.
pub proof fn lemma_scope_isolation_stmts(
    stmts: Seq<Statement>,
    scopes: Seq<ScopeView>,
    b: int,
    i: int,
)
    requires
        0 <= b,
        branch_after(stmts, b) < scopes.len(),
        0 <= i < b,
    ensures
        run_stmts(stmts, scopes, b).scopes[i] == scopes[i],
    decreases stmts, 0int,
{
    lemma_branch_after_ge(stmts, b);
    if stmts.len() > 0 {
        lemma_branch_after_stmt_ge(stmts[0], b);
        lemma_branch_after_ge(stmts.drop_first(), branch_after_stmt(stmts[0], b));
        match stmts[0] {
            Statement::LocktimeStatement { .. } => {
                lemma_scope_isolation_stmts(stmts.drop_first(), scopes, b, i);
            },
            Statement::VerifyStatement(_, e) => {
                let step = consume_refs(scopes[b].table, expr_refs(e));
                let scopes2 = set_table(scopes, b, step.0);
                if step.1 is Ok {
                    lemma_scope_isolation_stmts(stmts.drop_first(), scopes2, b, i);
                }
            },
            Statement::ExpressionStatement(_, e) => {
                if !(b != 0 && !scopes[b - 1].return_value) && !scopes[b].return_value {
                    let scopes1 = set_returned(scopes, b);
                    let step = consume_refs(scopes1[b].table, expr_refs(e));
                    let scopes2 = set_table(scopes1, b, step.0);
                    if step.1 is Ok {
                        lemma_scope_isolation_stmts(stmts.drop_first(), scopes2, b, i);
                    }
                }
            },
            Statement::IfStatement { condition_expr, if_block, else_block, .. } => {
                if stmts.len() == 1 {
                    let step = consume_refs(scopes[b].table, expr_refs(condition_expr));
                    let scopes2 = set_table(scopes, b, step.0);
                    if step.1 is Ok {
                        assert(stmts.drop_first().len() == 0);
                        lemma_branch_after_ge(if_block@, b);
                        if let Some(eb) = else_block {
                            lemma_branch_after_ge(eb@, branch_after(if_block@, b) + 1);
                        }
                        crate::semantics::lemma_run_block_ok(if_block@, scopes2, b);
                        lemma_scope_isolation(if_block@, scopes2, b, i);
                        let r1 = run_block(if_block@, scopes2, b);
                        if let Ok(b1) = r1.res {
                            if let Some(eb) = else_block {
                                lemma_scope_isolation(eb@, r1.scopes, b1 + 1, i);
                            }
                        }
                    }
                }
            },
        }
    }
}

/// Every failure of the symbol-table builder is a duplicate-variable
/// report.
pub proof fn lemma_build_err_kind(params: Seq<crate::ast::StackParam>, k: int)
    requires
        build_table_from(params, k) is Err,
    ensures
        build_table_from(params, k) matches Err(ev) ==> ev.kind is DuplicateVariable,
    decreases k,
{
    if k > 0 {
        if build_table_from(params, k - 1) is Err {
            lemma_build_err_kind(params, k - 1);
        }
    }
}

/// A successful build saw pairwise distinct identifiers in the processed
/// suffix, and its table binds each of them.
proof fn lemma_build_ok_distinct(params: Seq<crate::ast::StackParam>, k: int)
    requires
        0 <= k <= params.len(),
        build_table_from(params, k) is Ok,
    ensures
        forall|i: int, j: int|
            params.len() - k <= i < j < params.len() ==> params[i].identifier.0@
                != params[j].identifier.0@,
        forall|i: int|
            params.len() - k <= i < params.len() ==> build_table_from(
                params,
                k,
            )->Ok_0.contains_key(#[trigger] params[i].identifier.0@),
    decreases k,
{
    if k > 0 {
        lemma_build_ok_distinct(params, k - 1);
    }
}

/// Duplicate rejection: a declared stack in which any two parameters
/// share an identifier never builds, whatever the parameters' types, and
/// the failure is always a duplicate-variable report.
pub proof fn lemma_duplicate_rejected(params: Seq<crate::ast::StackParam>)
    requires
        exists|i: int, j: int|
            0 <= i < j < params.len() && params[i].identifier.0@ == params[j].identifier.0@,
    ensures
        build_table(params) is Err,
        build_table(params) matches Err(ev) ==> ev.kind is DuplicateVariable,
{
    if build_table(params) is Ok {
        lemma_build_ok_distinct(params, params.len() as int);
    } else {
        lemma_build_err_kind(params, params.len() as int);
    }
}

/// Terminal placement, failure direction: a block whose last statement is
/// neither an `if` nor an expression statement always fails as
/// unreachable code, at that statement, whatever the scopes hold.
pub proof fn lemma_terminal_misplaced(stmts: Seq<Statement>, scopes: Seq<ScopeView>, b: int)
    requires
        stmts.len() > 0,
        !(stmts.last() is IfStatement),
        !(stmts.last() is ExpressionStatement),
    ensures
        run_block(stmts, scopes, b).scopes == scopes,
        run_block(stmts, scopes, b).res matches Err(ev) && ev.kind is UnreachableCode
            && ev.loc == crate::ast::stmt_loc(stmts.last()),
{
}

/// The references a flat statement makes: a verify or expression
/// statement contributes its expression's, a locktime statement none,
/// an `if` its condition's.
pub open spec fn stmt_refs(s: Statement) -> Seq<VarRef> {
    match s {
        Statement::LocktimeStatement { .. } => Seq::empty(),
        Statement::VerifyStatement(_, e) => expr_refs(e),
        Statement::ExpressionStatement(_, e) => expr_refs(e),
        Statement::IfStatement { condition_expr, .. } => expr_refs(condition_expr),
    }
}

/// The references a flat statement list makes, in order.
pub open spec fn stmts_refs(stmts: Seq<Statement>) -> Seq<VarRef>
    decreases stmts,
{
    if stmts.len() == 0 {
        Seq::empty()
    } else {
        stmt_refs(stmts[0]) + stmts_refs(stmts.drop_first())
    }
}

/// Terminal placement, success direction: a script of any number of
/// verify statements closed by exactly one expression statement passes
/// the walk on branch 0, provided its variable references consume
/// cleanly and branch 0 has not yet returned.
pub proof fn lemma_terminal_in_place(stmts: Seq<Statement>, scopes: Seq<ScopeView>)
    requires
        stmts.len() > 0,
        forall|i: int| 0 <= i < stmts.len() - 1 ==> stmts[i] is VerifyStatement,
        stmts.last() is ExpressionStatement,
        scopes.len() > 0,
        !scopes[0].return_value,
        consume_refs(scopes[0].table, stmts_refs(stmts)).1 is Ok,
    ensures
        run_block(stmts, scopes, 0).res == Ok::<int, crate::source::ErrorView>(0int),
    decreases stmts.len(),
{
    assert(may_close_block(stmts.last()));
    lemma_run_verify_prefix(stmts, scopes, 0);
}

/// The inductive core of [`lemma_terminal_in_place`], over the statement
/// walk.
proof fn lemma_run_verify_prefix(stmts: Seq<Statement>, scopes: Seq<ScopeView>, b: int)
    requires
        stmts.len() > 0,
        forall|i: int| 0 <= i < stmts.len() - 1 ==> stmts[i] is VerifyStatement,
        stmts.last() is ExpressionStatement,
        0 <= b < scopes.len(),
        b == 0,
        !scopes[b].return_value,
        consume_refs(scopes[b].table, stmts_refs(stmts)).1 is Ok,
    ensures
        run_stmts(stmts, scopes, b).res == Ok::<int, crate::source::ErrorView>(b),
    decreases stmts.len(),
{
    let s0 = stmts[0];
    crate::semantics::lemma_consume_refs_append(
        scopes[b].table,
        stmt_refs(s0),
        stmts_refs(stmts.drop_first()),
    );
    if stmts.len() == 1 {
        assert(stmts_refs(stmts.drop_first()).len() == 0);
        assert(stmt_refs(s0) + stmts_refs(stmts.drop_first()) =~= stmt_refs(s0));
        let scopes1 = set_returned(scopes, b);
        assert(scopes1[b].table == scopes[b].table);
        let step = consume_refs(scopes1[b].table, stmt_refs(s0));
        assert(step.1 is Ok);
        let scopes2 = set_table(scopes1, b, step.0);
        assert(run_stmts(stmts.drop_first(), scopes2, b).res == Ok::<
            int,
            crate::source::ErrorView,
        >(b));
    } else {
        assert(stmts.drop_first().last() == stmts.last());
        assert(forall|i: int|
            0 <= i < stmts.drop_first().len() - 1 ==> stmts.drop_first()[i] is VerifyStatement);
        assert(stmt_refs(s0) + stmts_refs(stmts.drop_first()) =~= stmts_refs(stmts));
        let step = consume_refs(scopes[b].table, stmt_refs(s0));
        assert(step.1 is Ok);
        let scopes2 = set_table(scopes, b, step.0);
        assert(scopes2[b].table == step.0);
        assert(!scopes2[b].return_value);
        lemma_run_verify_prefix(stmts.drop_first(), scopes2, b);
    }
}

/// Dead code after a branch: any statement standing after an `if`/`else`
/// fails as unreachable code, reported at the list's last statement,
/// whatever kind that statement has.
pub proof fn lemma_dead_code_after_branch(stmts: Seq<Statement>, scopes: Seq<ScopeView>, b: int)
    requires
        stmts.len() >= 2,
        stmts[0] is IfStatement,
    ensures
        run_block(stmts, scopes, b).res matches Err(ev) && ev.kind is UnreachableCode
            && ev.loc == crate::ast::stmt_loc(stmts.last()),
{
}

/// A single-sig pair whose signature and public key are bare variables.
pub open spec fn is_simple_pair(f: Factor) -> bool {
    f matches Factor::SingleSigFactor { sig, pubkey, .. } && *sig is Variable
        && *pubkey is Variable
}

/// Multisig traversal: a signature check over an m-of-n list whose
/// elements are single-sig pairs of bare variables references exactly
/// two variables per pair, signature before public key.
pub proof fn lemma_multisig_refs(e: Expression)
    requires
        e is CheckSigExpression,
        (*e->CheckSigExpression_operand) is MultiSigFactor,
        forall|k: int|
            0 <= k < e->CheckSigExpression_operand->MultiSigFactor_n@.len() ==> is_simple_pair(
                #[trigger] e->CheckSigExpression_operand->MultiSigFactor_n@[k],
            ),
    ensures
        expr_refs(e).len() == 2 * e->CheckSigExpression_operand->MultiSigFactor_n@.len(),
{
    let f = *e->CheckSigExpression_operand;
    assert(expr_refs(e) == factor_refs(f));
    lemma_simple_factors_len(f->MultiSigFactor_n@);
}

/// Each single-sig pair of bare variables contributes exactly two
/// references.
proof fn lemma_simple_factors_len(fs: Seq<Factor>)
    requires
        forall|k: int| 0 <= k < fs.len() ==> is_simple_pair(#[trigger] fs[k]),
    ensures
        factors_refs(fs).len() == 2 * fs.len(),
    decreases fs,
{
    if fs.len() > 0 {
        assert(is_simple_pair(fs[0]));
        assert(pair_refs(fs[0]).len() == 2);
        assert(forall|k: int|
            0 <= k < fs.drop_first().len() ==> #[trigger] fs.drop_first()[k] == fs[k + 1]);
        lemma_simple_factors_len(fs.drop_first());
    }
}

} // verus!

