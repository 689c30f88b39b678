//! The diagnostics substrate: structured error kinds with their source
//! locations, and the line-index pass that turns byte offsets into
//! 1-based line and column numbers.

use vstd::prelude::*;

use crate::ast::Location;
use crate::ast::Statement;

verus! {

/// The closed set of analysis failures. The variants that name a variable
/// carry the offending identifier; the consensus variants carry the branch
/// they were found on and the computed value that broke the limit.
#[derive(Debug)]
pub enum ErrorKind {
    DuplicateVariable(String),
    UndefinedVariable(String),
    VariableConsumed(String),
    UnreachableCode,
    MultipleReturn,
    NoReturn,
    StackDepthExceeded { branch: usize, depth: usize },
    OpcodeCountExceeded { branch: usize, count: usize },
    ScriptSizeExceeded { branch: usize, size: usize },
    SigOpLimitExceeded { branch: usize, count: usize },
    NonMinimalPush,
    DisabledOpcodeForTarget,
}

/// One structured analysis failure: where it was found and what it is.
#[derive(Debug)]
pub struct CompileError {
    pub loc: Location,
    pub kind: ErrorKind,
}

/// The mathematical value of an [`ErrorKind`]: identifiers become
/// character sequences.
pub ghost enum ErrorKindView {
    DuplicateVariable(Seq<char>),
    UndefinedVariable(Seq<char>),
    VariableConsumed(Seq<char>),
    UnreachableCode,
    MultipleReturn,
    NoReturn,
    StackDepthExceeded { branch: nat, depth: nat },
    OpcodeCountExceeded { branch: nat, count: nat },
    ScriptSizeExceeded { branch: nat, size: nat },
    SigOpLimitExceeded { branch: nat, count: nat },
    NonMinimalPush,
    DisabledOpcodeForTarget,
}

/// The mathematical value of a [`CompileError`].
pub ghost struct ErrorView {
    pub loc: Location,
    pub kind: ErrorKindView,
}

impl View for ErrorKind {
    type V = ErrorKindView;

    open spec fn view(&self) -> ErrorKindView {
        match self {
            ErrorKind::DuplicateVariable(id) => ErrorKindView::DuplicateVariable(id@),
            ErrorKind::UndefinedVariable(id) => ErrorKindView::UndefinedVariable(id@),
            ErrorKind::VariableConsumed(id) => ErrorKindView::VariableConsumed(id@),
            ErrorKind::UnreachableCode => ErrorKindView::UnreachableCode,
            ErrorKind::MultipleReturn => ErrorKindView::MultipleReturn,
            ErrorKind::NoReturn => ErrorKindView::NoReturn,
            ErrorKind::StackDepthExceeded { branch, depth } => ErrorKindView::StackDepthExceeded {
                branch: *branch as nat,
                depth: *depth as nat,
            },
            ErrorKind::OpcodeCountExceeded { branch, count } => ErrorKindView::OpcodeCountExceeded {
                branch: *branch as nat,
                count: *count as nat,
            },
            ErrorKind::ScriptSizeExceeded { branch, size } => ErrorKindView::ScriptSizeExceeded {
                branch: *branch as nat,
                size: *size as nat,
            },
            ErrorKind::SigOpLimitExceeded { branch, count } => ErrorKindView::SigOpLimitExceeded {
                branch: *branch as nat,
                count: *count as nat,
            },
            ErrorKind::NonMinimalPush => ErrorKindView::NonMinimalPush,
            ErrorKind::DisabledOpcodeForTarget => ErrorKindView::DisabledOpcodeForTarget,
        }
    }
}

impl View for CompileError {
    type V = ErrorView;

    open spec fn view(&self) -> ErrorView {
        ErrorView { loc: self.loc, kind: self.kind@ }
    }
}

/// The starting offsets of the lines of a source prefix of `n` bytes:
/// offset 0, then the offset just after each newline byte.
pub open spec fn line_starts_upto(s: Seq<u8>, n: int) -> Seq<usize>
    decreases n,
{
    if n <= 0 {
        seq![0usize]
    } else if s[n - 1] == 10u8 {
        line_starts_upto(s, n - 1).push(n as usize)
    } else {
        line_starts_upto(s, n - 1)
    }
}

/// The starting offsets of all lines of a source.
pub open spec fn line_starts(s: Seq<u8>) -> Seq<usize> {
    line_starts_upto(s, s.len() as int)
}

/// What a usable line index looks like: it starts with offset 0 and is
/// strictly increasing.
pub open spec fn wf_line_index(ix: Seq<usize>) -> bool {
    &&& ix.len() >= 1
    &&& ix[0] == 0
    &&& forall|i: int, j: int| 0 <= i < j < ix.len() ==> ix[i] < ix[j]
}

/// A built line index is usable, and never points past the prefix it was
/// built from.
pub proof fn lemma_line_starts_wf(s: Seq<u8>, n: int)
    requires
        0 <= n <= s.len(),
        n <= usize::MAX,
    ensures
        wf_line_index(line_starts_upto(s, n)),
        forall|k: int|
            0 <= k < line_starts_upto(s, n).len() ==> #[trigger] line_starts_upto(s, n)[k] <= n,
    decreases n,
{
    if n > 0 {
        lemma_line_starts_wf(s, n - 1);
        let prev = line_starts_upto(s, n - 1);
        let cur = line_starts_upto(s, n);
        if s[n - 1] == 10u8 {
            assert(cur == prev.push(n as usize));
            assert(cur[0] == prev[0]);
            assert forall|i: int, j: int| 0 <= i < j < cur.len() implies cur[i] < cur[j] by {
                assert(cur[i] == prev[i]);
                if j < cur.len() - 1 {
                    assert(cur[j] == prev[j]);
                } else {
                    assert(cur[j] == n as usize);
                    assert(prev[i] <= n - 1);
                }
            }
            assert forall|k: int| 0 <= k < cur.len() implies cur[k] <= n by {
                if k < cur.len() - 1 {
                    assert(cur[k] == prev[k]);
                }
            }
        }
    }
}

/// Builds the index of the starting byte offset of each line of the
/// source. Meant to be called once per source.
pub fn build_line_index(source: &Vec<u8>) -> (r: Vec<usize>)
    ensures
        r@ == line_starts(source@),
        wf_line_index(r@),
{
    let n = source.len();
    let mut r: Vec<usize> = Vec::new();
    r.push(0);
    let mut i: usize = 0;
    proof {
        assert(r@ =~= line_starts_upto(source@, 0));
    }
    while i < n
        invariant
            i <= n,
            n == source@.len(),
            r@ == line_starts_upto(source@, i as int),
        decreases n - i,
    {
        if source[i] == 10u8 {
            r.push(i + 1);
        }
        i += 1;
    }
    proof {
        lemma_line_starts_wf(source@, n as int);
    }
    r
}

/// The position in the line index of the line that holds a byte offset:
/// the last entry at or before the offset.
pub open spec fn line_index_at(ix: Seq<usize>, off: usize) -> int
    decreases ix.len(),
{
    if ix.len() <= 1 {
        0
    } else if ix.last() <= off {
        ix.len() - 1
    } else {
        line_index_at(ix.drop_last(), off)
    }
}

/// The entry found by scanning from the end is the one
/// [`line_index_at`] names.
proof fn lemma_line_index_at(ix: Seq<usize>, off: usize, i: int)
    requires
        0 <= i < ix.len(),
        ix[i] <= off,
        forall|j: int| i < j < ix.len() ==> ix[j] > off,
    ensures
        line_index_at(ix, off) == i,
    decreases ix.len(),
{
    if ix.len() > 1 && ix.last() > off {
        assert(ix.drop_last()[i] == ix[i]);
        lemma_line_index_at(ix.drop_last(), off, i);
    }
}

/// Finds the 1-based line and column of a byte offset, using a line
/// index built by [`build_line_index`].
pub fn get_line_and_column(line_index: &Vec<usize>, byte_offset: usize) -> (r: (usize, usize))
    requires
        wf_line_index(line_index@),
        byte_offset < usize::MAX,
    ensures
        r.0 == line_index_at(line_index@, byte_offset) + 1,
        r.1 == byte_offset - line_index@[line_index_at(line_index@, byte_offset)] + 1,
{
    let n = line_index.len();
    let mut i: usize = n;
    while i > 0
        invariant
            i <= n,
            n == line_index@.len(),
            wf_line_index(line_index@),
            byte_offset < usize::MAX,
            forall|j: int| i <= j < n ==> line_index@[j] > byte_offset,
        decreases i,
    {
        i = i - 1;
        if line_index[i] <= byte_offset {
            proof {
                lemma_line_index_at(line_index@, byte_offset, i as int);
            }
            return (i + 1, byte_offset - line_index[i] + 1);
        }
    }
    proof {
        assert(line_index@[0] > byte_offset);
        assert(false);
    }
    (1, 1)
}

/// A location with its line and column back-filled from its starting
/// byte offset.
pub open spec fn located(ix: Seq<usize>, loc: Location) -> Location {
    Location {
        start: loc.start,
        end: loc.end,
        line: (line_index_at(ix, loc.start) + 1) as usize,
        column: (loc.start - ix[line_index_at(ix, loc.start)] + 1) as usize,
    }
}

/// Whether `b` is `a` with every statement location back-filled from the
/// line index, blocks included; expressions keep their spans untouched.
pub open spec fn stmt_located(a: Statement, b: Statement, ix: Seq<usize>) -> bool
    decreases a,
{
    match (a, b) {
        (
            Statement::IfStatement { loc, condition_expr, if_block, else_block },
            Statement::IfStatement {
                loc: loc2,
                condition_expr: condition_expr2,
                if_block: if_block2,
                else_block: else_block2,
            },
        ) => {
            &&& loc2 == located(ix, loc)
            &&& condition_expr2 == condition_expr
            &&& stmts_located(if_block@, if_block2@, ix)
            &&& match (else_block, else_block2) {
                (Some(eb), Some(eb2)) => stmts_located(eb@, eb2@, ix),
                (None, None) => true,
                _ => false,
            }
        },
        (
            Statement::LocktimeStatement { loc, operand, op },
            Statement::LocktimeStatement { loc: loc2, operand: operand2, op: op2 },
        ) => loc2 == located(ix, loc) && operand2 == operand && op2 == op,
        (Statement::VerifyStatement(loc, e), Statement::VerifyStatement(loc2, e2)) => loc2
            == located(ix, loc) && e2 == e,
        (Statement::ExpressionStatement(loc, e), Statement::ExpressionStatement(loc2, e2)) => loc2
            == located(ix, loc) && e2 == e,
        _ => false,
    }
}

/// As [`stmt_located`], for whole statement lists.
pub open spec fn stmts_located(a: Seq<Statement>, b: Seq<Statement>, ix: Seq<usize>) -> bool
    decreases a,
{
    &&& a.len() == b.len()
    &&& forall|i: int| 0 <= i < a.len() ==> stmt_located(#[trigger] a[i], b[i], ix)
}

/// Whether a statement's spans can be located without arithmetic
/// overflow: every starting offset leaves room for a 1-based column.
pub open spec fn stmt_start_ok(s: Statement) -> bool
    decreases s,
{
    &&& crate::ast::stmt_loc(s).start < usize::MAX
    &&& match s {
        Statement::IfStatement { if_block, else_block, .. } => {
            &&& stmts_start_ok(if_block@)
            &&& match else_block {
                Some(eb) => stmts_start_ok(eb@),
                None => true,
            }
        },
        _ => true,
    }
}

/// As [`stmt_start_ok`], for whole statement lists.
pub open spec fn stmts_start_ok(ss: Seq<Statement>) -> bool
    decreases ss,
{
    forall|i: int| 0 <= i < ss.len() ==> stmt_start_ok(#[trigger] ss[i])
}

/// One statement rebuilt with its locations back-filled.
fn relocate_stmt(s: Statement, line_index: &Vec<usize>) -> (r: Statement)
    requires
        wf_line_index(line_index@),
        stmt_start_ok(s),
    ensures
        stmt_located(s, r, line_index@),
    decreases s,
{
    match s {
        Statement::IfStatement { loc, condition_expr, if_block, else_block } => {
            let (line, column) = get_line_and_column(line_index, loc.start);
            let new_loc = Location { start: loc.start, end: loc.end, line, column };
            let new_if_block = relocate_block(if_block, line_index);
            let new_else_block = match else_block {
                Some(eb) => Some(relocate_block(eb, line_index)),
                None => None,
            };
            Statement::IfStatement {
                loc: new_loc,
                condition_expr,
                if_block: new_if_block,
                else_block: new_else_block,
            }
        },
        Statement::LocktimeStatement { loc, operand, op } => {
            let (line, column) = get_line_and_column(line_index, loc.start);
            Statement::LocktimeStatement {
                loc: Location { start: loc.start, end: loc.end, line, column },
                operand,
                op,
            }
        },
        Statement::VerifyStatement(loc, e) => {
            let (line, column) = get_line_and_column(line_index, loc.start);
            Statement::VerifyStatement(Location { start: loc.start, end: loc.end, line, column }, e)
        },
        Statement::ExpressionStatement(loc, e) => {
            let (line, column) = get_line_and_column(line_index, loc.start);
            Statement::ExpressionStatement(
                Location { start: loc.start, end: loc.end, line, column },
                e,
            )
        },
    }
}

/// One block rebuilt with its locations back-filled.
fn relocate_block(stmts: Vec<Statement>, line_index: &Vec<usize>) -> (r: Vec<Statement>)
    requires
        wf_line_index(line_index@),
        stmts_start_ok(stmts@),
    ensures
        stmts_located(stmts@, r@, line_index@),
    decreases stmts,
{
    let ghost orig = stmts@;
    let mut rest = stmts;
    let mut out: Vec<Statement> = Vec::new();
    proof {
        assert(orig.subrange(0, orig.len() as int) =~= orig);
    }
    #[verifier::loop_isolation(false)]
    while rest.len() > 0
        invariant
            out@.len() + rest@.len() == orig.len(),
            rest@ == orig.subrange(out@.len() as int, orig.len() as int),
            stmts_located(orig.subrange(0, out@.len() as int), out@, line_index@),
        decreases rest@.len(),
    {
        let ghost k = out@.len() as int;
        proof {
            assert(rest@[0] == orig[k]);
            assert(decreases_to!(orig => orig[k]));
        }
        let s = rest.remove(0);
        let r = relocate_stmt(s, line_index);
        out.push(r);
        proof {
            assert(rest@ =~= orig.subrange(k + 1, orig.len() as int));
            assert(orig.subrange(0, k + 1).drop_last() =~= orig.subrange(0, k));
            assert forall|i: int| 0 <= i < k + 1 implies stmt_located(
                #[trigger] orig.subrange(0, k + 1)[i],
                out@[i],
                line_index@,
            ) by {
                if i < k {
                    assert(orig.subrange(0, k)[i] == orig.subrange(0, k + 1)[i]);
                }
            }
        }
    }
    proof {
        assert(orig.subrange(0, orig.len() as int) =~= orig);
    }
    out
}

/// Recursively walks the statement tree and back-fills the 1-based line
/// and column of every statement from its starting byte offset.
pub fn set_stmt_location(ast: &mut Vec<Statement>, line_index: &Vec<usize>)
    requires
        wf_line_index(line_index@),
        stmts_start_ok(old(ast)@),
    ensures
        stmts_located(old(ast)@, final(ast)@, line_index@),
{
    let mut taken: Vec<Statement> = Vec::new();
    core::mem::swap(ast, &mut taken);
    let relocated = relocate_block(taken, line_index);
    *ast = relocated;
}

} // verus!