//! The mathematical model the analyzer is verified against: symbol tables
//! as maps from identifiers to symbols, the left-to-right sequence of
//! variable references an expression makes, and the effect of consuming
//! those references one by one.

use vstd::prelude::*;

use crate::ast::Expression;
use crate::ast::Factor;
use crate::ast::Location;
use crate::ast::StackParam;
use crate::ast::Statement;
use crate::source::ErrorKindView;
use crate::source::ErrorView;

verus! {

use crate::analyze::ScopeView;
use crate::analyze::Symbol;

/// One variable reference: where it stands in the source and the name it
/// uses.
pub ghost struct VarRef {
    pub loc: Location,
    pub name: Seq<char>,
}

/// A symbol table as a mathematical value: the identifiers of the entry
/// list, later entries overriding earlier ones.
pub open spec fn map_of(entries: Seq<(String, Symbol)>) -> Map<Seq<char>, Symbol>
    decreases entries.len(),
{
    if entries.len() == 0 {
        Map::empty()
    } else {
        map_of(entries.drop_last()).insert(entries.last().0@, entries.last().1)
    }
}

/// Entry lists with pairwise distinct identifiers.
pub open spec fn entries_distinct(entries: Seq<(String, Symbol)>) -> bool {
    forall|i: int, j: int|
        0 <= i < j < entries.len() ==> entries[i].0@ != entries[j].0@
}

/// A key is in the map exactly when some entry carries it.
pub proof fn lemma_map_of_contains(entries: Seq<(String, Symbol)>, k: Seq<char>)
    ensures
        map_of(entries).contains_key(k) <==> exists|i: int|
            0 <= i < entries.len() && entries[i].0@ == k,
    decreases entries.len(),
{
    if entries.len() > 0 {
        lemma_map_of_contains(entries.drop_last(), k);
        if entries.last().0@ == k {
            assert(entries[entries.len() - 1].0@ == k);
        } else if map_of(entries).contains_key(k) {
            let i = choose|i: int| 0 <= i < entries.len() - 1 && entries.drop_last()[i].0@ == k;
            assert(entries[i].0@ == k);
        } else if exists|i: int| 0 <= i < entries.len() && entries[i].0@ == k {
            let i = choose|i: int| 0 <= i < entries.len() && entries[i].0@ == k;
            assert(entries.drop_last()[i].0@ == k);
        }
    }
}

/// An entry whose identifier no later entry repeats gives the map's value
/// at that identifier.
pub proof fn lemma_map_of_index(entries: Seq<(String, Symbol)>, i: int)
    requires
        0 <= i < entries.len(),
        forall|j: int| i < j < entries.len() ==> entries[j].0@ != entries[i].0@,
    ensures
        map_of(entries).contains_key(entries[i].0@),
        map_of(entries)[entries[i].0@] == entries[i].1,
    decreases entries.len(),
{
    if i == entries.len() - 1 {
    } else {
        assert(entries.drop_last()[i] == entries[i]);
        lemma_map_of_index(entries.drop_last(), i);
    }
}

/// Appending an entry inserts its binding.
pub proof fn lemma_map_of_push(entries: Seq<(String, Symbol)>, id: String, sym: Symbol)
    ensures
        map_of(entries.push((id, sym))) == map_of(entries).insert(id@, sym),
{
    assert(entries.push((id, sym)).drop_last() =~= entries);
}

/// Replacing the entry that carries a key updates the map at that key
/// alone.
pub proof fn lemma_map_of_update(entries: Seq<(String, Symbol)>, i: int, id: String, sym: Symbol)
    requires
        entries_distinct(entries),
        0 <= i < entries.len(),
        entries[i].0@ == id@,
    ensures
        map_of(entries.update(i, (id, sym))) == map_of(entries).insert(id@, sym),
    decreases entries.len(),
{
    let upd = entries.update(i, (id, sym));
    if i == entries.len() - 1 {
        assert(upd.drop_last() =~= entries.drop_last());
        assert(map_of(entries).insert(id@, sym) =~= map_of(entries.drop_last()).insert(id@, sym));
    } else {
        assert(upd.drop_last() =~= entries.drop_last().update(i, (id, sym)));
        assert(entries.drop_last()[i] == entries[i]);
        lemma_map_of_update(entries.drop_last(), i, id, sym);
        assert(upd.last() == entries.last());
        assert(map_of(upd) == map_of(entries.drop_last()).insert(id@, sym).insert(
            entries.last().0@,
            entries.last().1,
        ));
        assert(entries.last().0@ != id@);
        assert(map_of(entries.drop_last()).insert(id@, sym).insert(
            entries.last().0@,
            entries.last().1,
        ) =~= map_of(entries).insert(id@, sym));
    }
}

/// The variable references an expression makes, in the order the checker
/// visits them: operands left to right, a single-sig factor's signature
/// before its public key, a multisig list in list order with nested
/// multisig elements skipped.
pub open spec fn expr_refs(e: Expression) -> Seq<VarRef>
    decreases e,
{
    match e {
        Expression::Variable(loc, id) => seq![VarRef { loc, name: id.0@ }],
        Expression::NumberLiteral(_, _) => Seq::empty(),
        Expression::BooleanLiteral(_, _) => Seq::empty(),
        Expression::StringLiteral(_, _) => Seq::empty(),
        Expression::LogicalExpression { lhs, rhs, .. } => expr_refs(*lhs) + expr_refs(*rhs),
        Expression::CompareExpression { lhs, rhs, .. } => expr_refs(*lhs) + expr_refs(*rhs),
        Expression::UnaryMathExpression { operand, .. } => expr_refs(*operand),
        Expression::BinaryMathExpression { lhs, rhs, .. } => expr_refs(*lhs) + expr_refs(*rhs),
        Expression::UnaryCryptoExpression { operand, .. } => expr_refs(*operand),
        Expression::CheckSigExpression { operand, .. } => factor_refs(*operand),
        Expression::ByteExpression { operand, .. } => expr_refs(*operand),
    }
}

/// The references a signature-check factor makes.
pub open spec fn factor_refs(f: Factor) -> Seq<VarRef>
    decreases f,
{
    match f {
        Factor::SingleSigFactor { sig, pubkey, .. } => expr_refs(*sig) + expr_refs(*pubkey),
        Factor::MultiSigFactor { n, .. } => factors_refs(n@),
    }
}

/// The references of a multisig element list, in list order.
pub open spec fn factors_refs(fs: Seq<Factor>) -> Seq<VarRef>
    decreases fs,
{
    if fs.len() == 0 {
        Seq::empty()
    } else {
        pair_refs(fs[0]) + factors_refs(fs.drop_first())
    }
}

/// The references of one multisig element: a single-sig pair contributes
/// its signature and public key, anything else is skipped.
pub open spec fn pair_refs(f: Factor) -> Seq<VarRef>
    decreases f,
{
    match f {
        Factor::SingleSigFactor { sig, pubkey, .. } => expr_refs(*sig) + expr_refs(*pubkey),
        Factor::MultiSigFactor { .. } => Seq::empty(),
    }
}

/// Marking one name consumed.
pub open spec fn consume_name(t: Map<Seq<char>, Symbol>, name: Seq<char>) -> Map<Seq<char>, Symbol> {
    t.insert(
        name,
        Symbol { ty: t[name].ty, consume_count: 1, stack_position: t[name].stack_position },
    )
}

/// Consuming a sequence of references left to right: each one must be
/// declared and still unconsumed, and flips its symbol's count to 1; the
/// first failing reference stops the walk and names its error.
pub open spec fn consume_refs(t: Map<Seq<char>, Symbol>, rs: Seq<VarRef>) -> (
    Map<Seq<char>, Symbol>,
    Result<(), ErrorView>,
)
    decreases rs.len(),
{
    if rs.len() == 0 {
        (t, Ok(()))
    } else {
        let r = rs[0];
        if !t.contains_key(r.name) {
            (t, Err(ErrorView { loc: r.loc, kind: ErrorKindView::UndefinedVariable(r.name) }))
        } else if t[r.name].consume_count != 0 {
            (t, Err(ErrorView { loc: r.loc, kind: ErrorKindView::VariableConsumed(r.name) }))
        } else {
            consume_refs(consume_name(t, r.name), rs.drop_first())
        }
    }
}

/// Consuming a concatenation is consuming the first part, then (if it
/// succeeded) the second from where the first left off.
pub proof fn lemma_consume_refs_append(t: Map<Seq<char>, Symbol>, a: Seq<VarRef>, b: Seq<VarRef>)
    ensures
        consume_refs(t, a + b) == ({
            let (t1, r1) = consume_refs(t, a);
            if r1 is Err {
                (t1, r1)
            } else {
                consume_refs(t1, b)
            }
        }),
    decreases a.len(),
{
    if a.len() == 0 {
        assert(a + b =~= b);
        assert(consume_refs(t, a) == (t, Result::<(), ErrorView>::Ok(())));
    } else {
        assert((a + b)[0] == a[0]);
        assert((a + b).drop_first() =~= a.drop_first() + b);
        let r = a[0];
        if t.contains_key(r.name) && t[r.name].consume_count == 0 {
            lemma_consume_refs_append(consume_name(t, r.name), a.drop_first(), b);
        }
    }
}

/// The reference-sequence model of the symbol table the driver builds for
/// one branch: parameters are entered from the last declared (top of
/// stack, position 0) down to the first, and meeting an identifier twice
/// is a duplicate-variable error at the earlier declaration.
pub open spec fn build_table_from(params: Seq<StackParam>, i: int) -> Result<
    Map<Seq<char>, Symbol>,
    ErrorView,
>
    decreases i,
{
    if i <= 0 {
        Ok(Map::empty())
    } else {
        match build_table_from(params, i - 1) {
            Err(e) => Err(e),
            Ok(t) => {
                let p = params[params.len() - i];
                if t.contains_key(p.identifier.0@) {
                    Err(
                        ErrorView {
                            loc: p.loc,
                            kind: ErrorKindView::DuplicateVariable(p.identifier.0@),
                        },
                    )
                } else {
                    Ok(
                        t.insert(
                            p.identifier.0@,
                            Symbol {
                                ty: p.ty,
                                consume_count: 0,
                                stack_position: (i - 1) as usize,
                            },
                        ),
                    )
                }
            },
        }
    }
}

/// The table (or failure) one branch's declared stack gives.
pub open spec fn build_table(params: Seq<StackParam>) -> Result<Map<Seq<char>, Symbol>, ErrorView> {
    build_table_from(params, params.len() as int)
}

/// The outcome of walking statements: the scope list afterwards, and
/// either the next free branch index or the first failure.
pub ghost struct RunOutcome {
    pub scopes: Seq<ScopeView>,
    pub res: Result<int, ErrorView>,
}

/// The scope list with one branch's table replaced.
pub open spec fn set_table(
    scopes: Seq<ScopeView>,
    b: int,
    t: Map<Seq<char>, Symbol>,
) -> Seq<ScopeView> {
    scopes.update(
        b,
        ScopeView { table: t, branch: scopes[b].branch, return_value: scopes[b].return_value },
    )
}

/// The scope list with one branch marked as having produced its terminal
/// value.
pub open spec fn set_returned(scopes: Seq<ScopeView>, b: int) -> Seq<ScopeView> {
    scopes.update(
        b,
        ScopeView { table: scopes[b].table, branch: scopes[b].branch, return_value: true },
    )
}

/// The control-flow step one statement makes before its expression is
/// checked: a branch beyond the first demands that its predecessor has
/// already produced a terminal value; an expression statement then
/// demands that its own branch has not, and marks it as having done so.
pub open spec fn flow_step(s: Statement, loc: Location, scopes: Seq<ScopeView>, b: int) -> (
    Seq<ScopeView>,
    Result<(), ErrorView>,
) {
    if b != 0 && !scopes[b - 1].return_value {
        (scopes, Err(ErrorView { loc, kind: ErrorKindView::NoReturn }))
    } else {
        match s {
            Statement::ExpressionStatement(loc2, _) => {
                if scopes[b].return_value {
                    (scopes, Err(ErrorView { loc: loc2, kind: ErrorKindView::MultipleReturn }))
                } else {
                    (set_returned(scopes, b), Ok(()))
                }
            },
            _ => (scopes, Ok(())),
        }
    }
}

/// The branch index reached after structurally walking a statement list
/// that starts at branch `b`: every `else` block claims the next index.
pub open spec fn branch_after(stmts: Seq<Statement>, b: int) -> int
    decreases stmts,
{
    if stmts.len() == 0 {
        b
    } else {
        branch_after(stmts.drop_first(), branch_after_stmt(stmts[0], b))
    }
}

/// The branch index reached after one statement.
pub open spec fn branch_after_stmt(s: Statement, b: int) -> int
    decreases s,
{
    match s {
        Statement::IfStatement { if_block, else_block, .. } => {
            let b1 = branch_after(if_block@, b);
            match else_block {
                Some(eb) => branch_after(eb@, b1 + 1),
                None => b1,
            }
        },
        _ => b,
    }
}

/// Walking from a later branch lands on a later (or the same) branch.
pub proof fn lemma_branch_after_mono(stmts: Seq<Statement>, b1: int, b2: int)
    requires
        b1 <= b2,
    ensures
        branch_after(stmts, b1) <= branch_after(stmts, b2),
    decreases stmts, 0int,
{
    if stmts.len() > 0 {
        lemma_branch_after_stmt_mono(stmts[0], b1, b2);
        lemma_branch_after_mono(
            stmts.drop_first(),
            branch_after_stmt(stmts[0], b1),
            branch_after_stmt(stmts[0], b2),
        );
    }
}

/// As [`lemma_branch_after_mono`], for one statement.
pub proof fn lemma_branch_after_stmt_mono(s: Statement, b1: int, b2: int)
    requires
        b1 <= b2,
    ensures
        branch_after_stmt(s, b1) <= branch_after_stmt(s, b2),
    decreases s, 1int,
{
    if let Statement::IfStatement { if_block, else_block, .. } = s {
        lemma_branch_after_mono(if_block@, b1, b2);
        if let Some(eb) = else_block {
            lemma_branch_after_mono(eb@, branch_after(if_block@, b1) + 1, branch_after(if_block@, b2) + 1);
        }
    }
}

/// Walking never moves the branch index backwards.
pub proof fn lemma_branch_after_ge(stmts: Seq<Statement>, b: int)
    ensures
        branch_after(stmts, b) >= b,
    decreases stmts, 0int,
{
    if stmts.len() > 0 {
        lemma_branch_after_stmt_ge(stmts[0], b);
        lemma_branch_after_ge(stmts.drop_first(), branch_after_stmt(stmts[0], b));
    }
}

/// One statement never moves the branch index backwards.
pub proof fn lemma_branch_after_stmt_ge(s: Statement, b: int)
    ensures
        branch_after_stmt(s, b) >= b,
    decreases s, 1int,
{
    if let Statement::IfStatement { if_block, else_block, .. } = s {
        lemma_branch_after_ge(if_block@, b);
        if let Some(eb) = else_block {
            lemma_branch_after_ge(eb@, branch_after(if_block@, b) + 1);
        }
    }
}

/// Whether a statement may close a block: only an `if`/`else` (whose
/// nested blocks carry the real terminal statements) or an expression
/// statement may stand last.
pub open spec fn may_close_block(s: Statement) -> bool {
    s is IfStatement || s is ExpressionStatement
}

/// One block of statements: the last statement must be able to close the
/// block, then the statements run in order.
pub open spec fn run_block(stmts: Seq<Statement>, scopes: Seq<ScopeView>, b: int) -> RunOutcome
    decreases stmts, 1int,
{
    if stmts.len() > 0 && !may_close_block(stmts.last()) {
        RunOutcome {
            scopes,
            res: Err(
                ErrorView { loc: crate::ast::stmt_loc(stmts.last()), kind: ErrorKindView::UnreachableCode },
            ),
        }
    } else {
        run_stmts(stmts, scopes, b)
    }
}

/// Statements in order, fail-fast. A locktime statement carries no
/// variable references and passes; a verify statement consumes its
/// expression's references against the current branch; an expression
/// statement first asks the previous branch to have returned and this
/// branch not to have, marks this branch returned, and then consumes its
/// references; an `if` must be the last statement of its list, consumes
/// its condition's references, runs the `if` block in the same branch,
/// and runs the `else` block (if any) in the next free branch.
pub open spec fn run_stmts(stmts: Seq<Statement>, scopes: Seq<ScopeView>, b: int) -> RunOutcome
    decreases stmts, 0int,
{
    if stmts.len() == 0 {
        RunOutcome { scopes, res: Ok(b) }
    } else {
        match stmts[0] {
            Statement::LocktimeStatement { .. } => run_stmts(stmts.drop_first(), scopes, b),
            Statement::VerifyStatement(_, e) => {
                let step = consume_refs(scopes[b].table, expr_refs(e));
                let scopes2 = set_table(scopes, b, step.0);
                match step.1 {
                    Err(ev) => RunOutcome { scopes: scopes2, res: Err(ev) },
                    Ok(_) => run_stmts(stmts.drop_first(), scopes2, b),
                }
            },
            Statement::ExpressionStatement(loc, e) => {
                if b != 0 && !scopes[b - 1].return_value {
                    RunOutcome {
                        scopes,
                        res: Err(ErrorView { loc, kind: ErrorKindView::NoReturn }),
                    }
                } else if scopes[b].return_value {
                    RunOutcome {
                        scopes,
                        res: Err(ErrorView { loc, kind: ErrorKindView::MultipleReturn }),
                    }
                } else {
                    let scopes1 = set_returned(scopes, b);
                    let step = consume_refs(scopes1[b].table, expr_refs(e));
                    let scopes2 = set_table(scopes1, b, step.0);
                    match step.1 {
                        Err(ev) => RunOutcome { scopes: scopes2, res: Err(ev) },
                        Ok(_) => run_stmts(stmts.drop_first(), scopes2, b),
                    }
                }
            },
            Statement::IfStatement { condition_expr, if_block, else_block, .. } => {
                if stmts.len() > 1 {
                    RunOutcome {
                        scopes,
                        res: Err(
                            ErrorView {
                                loc: crate::ast::stmt_loc(stmts.last()),
                                kind: ErrorKindView::UnreachableCode,
                            },
                        ),
                    }
                } else {
                    let step = consume_refs(scopes[b].table, expr_refs(condition_expr));
                    let scopes2 = set_table(scopes, b, step.0);
                    match step.1 {
                        Err(ev) => RunOutcome { scopes: scopes2, res: Err(ev) },
                        Ok(_) => {
                            let r1 = run_block(if_block@, scopes2, b);
                            match r1.res {
                                Err(_) => r1,
                                Ok(b1) => match else_block {
                                    None => r1,
                                    Some(eb) => run_block(eb@, r1.scopes, b1 + 1),
                                },
                            }
                        },
                    }
                }
            },
        }
    }
}

/// A successful walk lands exactly on the structurally computed branch
/// index, and keeps the number of scopes.
pub proof fn lemma_run_stmts_ok(stmts: Seq<Statement>, scopes: Seq<ScopeView>, b: int)
    requires
        0 <= b,
        branch_after(stmts, b) < scopes.len(),
    ensures
        run_stmts(stmts, scopes, b).scopes.len() == scopes.len(),
        run_stmts(stmts, scopes, b).res matches Ok(b2) ==> b2 == branch_after(stmts, b),
    decreases stmts, 0int,
{
    lemma_branch_after_ge(stmts, b);
    if stmts.len() > 0 {
        lemma_branch_after_stmt_ge(stmts[0], b);
        lemma_branch_after_ge(stmts.drop_first(), branch_after_stmt(stmts[0], b));
        match stmts[0] {
            Statement::LocktimeStatement { .. } => {
                lemma_run_stmts_ok(stmts.drop_first(), scopes, b);
            },
            Statement::VerifyStatement(_, e) => {
                let step = consume_refs(scopes[b].table, expr_refs(e));
                let scopes2 = set_table(scopes, b, step.0);
                if step.1 is Ok {
                    lemma_run_stmts_ok(stmts.drop_first(), scopes2, b);
                }
            },
            Statement::ExpressionStatement(_, e) => {
                if !(b != 0 && !scopes[b - 1].return_value) && !scopes[b].return_value {
                    let scopes1 = set_returned(scopes, b);
                    let step = consume_refs(scopes1[b].table, expr_refs(e));
                    let scopes2 = set_table(scopes1, b, step.0);
                    if step.1 is Ok {
                        lemma_run_stmts_ok(stmts.drop_first(), scopes2, b);
                    }
                }
            },
            Statement::IfStatement { condition_expr, if_block, else_block, .. } => {
                if stmts.len() == 1 {
                    let step = consume_refs(scopes[b].table, expr_refs(condition_expr));
                    let scopes2 = set_table(scopes, b, step.0);
                    if step.1 is Ok {
                        assert(stmts.drop_first().len() == 0);
                        lemma_branch_after_ge(if_block@, b);
                        if let Some(eb) = else_block {
                            lemma_branch_after_ge(eb@, branch_after(if_block@, b) + 1);
                        }
                        lemma_run_block_ok(if_block@, scopes2, b);
                        let r1 = run_block(if_block@, scopes2, b);
                        if let Ok(b1) = r1.res {
                            if let Some(eb) = else_block {
                                lemma_run_block_ok(eb@, r1.scopes, b1 + 1);
                            }
                        }
                    }
                }
            },
        }
    }
}

/// As [`lemma_run_stmts_ok`], for a whole block.
pub proof fn lemma_run_block_ok(stmts: Seq<Statement>, scopes: Seq<ScopeView>, b: int)
    requires
        0 <= b,
        branch_after(stmts, b) < scopes.len(),
    ensures
        run_block(stmts, scopes, b).scopes.len() == scopes.len(),
        run_block(stmts, scopes, b).res matches Ok(b2) ==> b2 == branch_after(stmts, b),
    decreases stmts, 1int,
{
    if !(stmts.len() > 0 && !may_close_block(stmts.last())) {
        lemma_run_stmts_ok(stmts, scopes, b);
    }
}

/// The scopes the driver builds before the walk: one per declared input
/// stack, in declaration order, each with a fresh table and an unset
/// return flag; the first stack that fails to build fails the whole
/// analysis.
pub open spec fn build_scopes(inputs: Seq<Vec<StackParam>>) -> Result<Seq<ScopeView>, ErrorView>
    decreases inputs.len(),
{
    if inputs.len() == 0 {
        Ok(Seq::empty())
    } else {
        match build_scopes(inputs.drop_last()) {
            Err(e) => Err(e),
            Ok(svs) => match build_table(inputs.last()@) {
                Err(e) => Err(e),
                Ok(t) => Ok(
                    svs.push(
                        ScopeView {
                            table: t,
                            branch: (inputs.len() - 1) as nat,
                            return_value: false,
                        },
                    ),
                ),
            },
        }
    }
}

/// Once one input stack fails to build, the whole scope list keeps that
/// failure.
pub proof fn lemma_build_scopes_err(inputs: Seq<Vec<StackParam>>, k: int)
    requires
        0 <= k <= inputs.len(),
        build_scopes(inputs.subrange(0, k)) is Err,
    ensures
        build_scopes(inputs) == build_scopes(inputs.subrange(0, k)),
    decreases inputs.len(),
{
    if inputs.len() > k {
        assert(inputs.drop_last() =~= inputs.subrange(0, inputs.len() - 1));
        assert(inputs.subrange(0, inputs.len() - 1).subrange(0, k) =~= inputs.subrange(0, k));
        lemma_build_scopes_err(inputs.subrange(0, inputs.len() - 1), k);
    } else {
        assert(inputs.subrange(0, k) =~= inputs);
    }
}

/// Once the build fails, processing further parameters keeps the same
/// failure.
pub proof fn lemma_build_err_propagates(params: Seq<StackParam>, k: int, k2: int)
    requires
        k <= k2,
        build_table_from(params, k) is Err,
    ensures
        build_table_from(params, k2) == build_table_from(params, k),
    decreases k2 - k,
{
    if k2 > k {
        lemma_build_err_propagates(params, k, k2 - 1);
    }
}

} // verus!

