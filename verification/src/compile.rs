//! The opcode cost table and the consensus rule checker: per spending
//! path, the analyzer bounds stack depth, opcode count, serialized size
//! and signature operations, and rejects constructs the target dialect
//! disables. The table assigns each construct the cost of its compiled
//! form, with every literal push priced at its minimal encoding.

use vstd::prelude::*;

use crate::ast::Expression;
use crate::ast::Factor;
use crate::ast::Location;
use crate::ast::StackParam;
use crate::ast::Statement;
use crate::ast::Target;
use crate::ast::Type;
use crate::source::CompileError;
use crate::source::ErrorKind;
use crate::source::ErrorKindView;
use crate::source::ErrorView;

verus! {

use crate::semantics::branch_after;
use crate::semantics::branch_after_stmt;
use crate::semantics::lemma_branch_after_ge;
use crate::semantics::lemma_branch_after_stmt_ge;

/// The network's cap on stack items during execution.
pub const MAX_STACK_DEPTH: usize = 1000;

/// The cap on opcodes executed along one path.
pub const MAX_OPS_PER_PATH: usize = 201;

/// The cap on signature operations counted along one path.
pub const MAX_SIGOPS_PER_PATH: usize = 20;

/// The serialized size ceiling of a legacy redeem script.
pub const MAX_SCRIPT_SIZE_LEGACY: usize = 520;

/// The serialized size ceiling of a witness script.
pub const MAX_SCRIPT_SIZE_WITNESS: usize = 10000;

/// Addition that stops at the largest representable count; the limits
/// all lie far below it, so a saturated count still breaks them.
pub open spec fn sat_add(a: usize, b: usize) -> usize {
    if a + b > usize::MAX {
        usize::MAX
    } else {
        (a + b) as usize
    }
}

/// The larger of two counts.
pub open spec fn max_usize(a: usize, b: usize) -> usize {
    if a >= b {
        a
    } else {
        b
    }
}

/// What one compiled construct costs: opcodes emitted, serialized bytes,
/// stack items it reads and removes, and stack items it leaves behind.
#[derive(Clone, Copy, PartialEq, Eq, Structural)]
pub struct OpCost {
    pub ops: usize,
    pub size: usize,
    pub pops: usize,
    pub pushes: usize,
}

/// The bytes of the minimal encoding of an integer push: one opcode for
/// -1 through 16, otherwise a length-prefixed little-endian number with
/// its sign packed into the top bit.
pub open spec fn spec_int_push_len(v: i64) -> usize {
    if -1 <= v <= 16 {
        1
    } else if -0x7f <= v <= 0x7f {
        2
    } else if -0x7fff <= v <= 0x7fff {
        3
    } else if -0x7fffff <= v <= 0x7fffff {
        4
    } else if -0x7fffffff <= v <= 0x7fffffff {
        5
    } else if -0x7fffffffff <= v <= 0x7fffffffff {
        6
    } else if -0x7fffffffffff <= v <= 0x7fffffffffff {
        7
    } else if -0x7fffffffffffff <= v <= 0x7fffffffffffff {
        8
    } else if -0x7fffffffffffffff <= v <= 0x7fffffffffffffff {
        9
    } else {
        10
    }
}

/// The bytes of the minimal encoding of a data push of `len` bytes: the
/// shortest push opcode, then the data.
pub open spec fn spec_data_push_len(len: usize) -> usize {
    if len < 76 {
        sat_add(1, len)
    } else if len < 0x100 {
        sat_add(2, len)
    } else if len < 0x10000 {
        sat_add(3, len)
    } else {
        sat_add(5, len)
    }
}

/// The cost of pushing one integer literal.
pub open spec fn spec_push_int(v: i64) -> OpCost {
    OpCost { ops: 1, size: spec_int_push_len(v), pops: 0, pushes: 1 }
}

/// The cost of pushing `len` bytes of data.
pub open spec fn spec_push_bytes(len: usize) -> OpCost {
    OpCost { ops: 1, size: spec_data_push_len(len), pops: 0, pushes: 1 }
}

/// Saturating addition on counts.
pub fn add_sat(a: usize, b: usize) -> (r: usize)
    ensures
        r == sat_add(a, b),
{
    a.saturating_add(b)
}

/// The larger of two counts.
pub fn max_count(a: usize, b: usize) -> (r: usize)
    ensures
        r == max_usize(a, b),
{
    if a >= b {
        a
    } else {
        b
    }
}

/// Minimal integer pushes: OP_1NEGATE and OP_0 through OP_16 for the
/// small range, a length-prefixed number push otherwise.
pub fn push_int(value: i64) -> (c: OpCost)
    ensures
        c == spec_push_int(value),
{
    let size: usize = if -1 <= value && value <= 16 {
        1
    } else if -0x7f <= value && value <= 0x7f {
        2
    } else if -0x7fff <= value && value <= 0x7fff {
        3
    } else if -0x7fffff <= value && value <= 0x7fffff {
        4
    } else if -0x7fffffff <= value && value <= 0x7fffffff {
        5
    } else if -0x7fffffffff <= value && value <= 0x7fffffffff {
        6
    } else if -0x7fffffffffff <= value && value <= 0x7fffffffffff {
        7
    } else if -0x7fffffffffffff <= value && value <= 0x7fffffffffffff {
        8
    } else if -0x7fffffffffffffff <= value && value <= 0x7fffffffffffffff {
        9
    } else {
        10
    };
    OpCost { ops: 1, size, pops: 0, pushes: 1 }
}

/// A data push of `len` bytes in its minimal form.
pub fn push_bytes(len: usize) -> (c: OpCost)
    ensures
        c == spec_push_bytes(len),
{
    let size: usize = if len < 76 {
        add_sat(1, len)
    } else if len < 0x100 {
        add_sat(2, len)
    } else if len < 0x10000 {
        add_sat(3, len)
    } else {
        add_sat(5, len)
    };
    OpCost { ops: 1, size, pops: 0, pushes: 1 }
}

/// A control opcode: it examines and removes the top stack item.
pub fn push_control() -> (c: OpCost)
    ensures
        c == (OpCost { ops: 1, size: 1, pops: 1, pushes: 0 }),
{
    OpCost { ops: 1, size: 1, pops: 1, pushes: 0 }
}

/// The byte-length opcode: it examines the top item and pushes one new
/// item beside it.
pub fn push_bytes_len() -> (c: OpCost)
    ensures
        c == (OpCost { ops: 1, size: 1, pops: 0, pushes: 1 }),
{
    OpCost { ops: 1, size: 1, pops: 0, pushes: 1 }
}

/// A comparison opcode: it removes the top two items and pushes the
/// verdict.
pub fn push_compare() -> (c: OpCost)
    ensures
        c == (OpCost { ops: 1, size: 1, pops: 2, pushes: 1 }),
{
    OpCost { ops: 1, size: 1, pops: 2, pushes: 1 }
}

/// A unary arithmetic opcode: it replaces the top item.
pub fn push_math_unary() -> (c: OpCost)
    ensures
        c == (OpCost { ops: 1, size: 1, pops: 1, pushes: 1 }),
{
    OpCost { ops: 1, size: 1, pops: 1, pushes: 1 }
}

/// A binary arithmetic opcode: it removes the top two items and pushes
/// the result.
pub fn push_math_binary() -> (c: OpCost)
    ensures
        c == (OpCost { ops: 1, size: 1, pops: 2, pushes: 1 }),
{
    OpCost { ops: 1, size: 1, pops: 2, pushes: 1 }
}

/// A ternary arithmetic opcode: it removes the top three items and
/// pushes the result.
pub fn push_math_ternary() -> (c: OpCost)
    ensures
        c == (OpCost { ops: 1, size: 1, pops: 3, pushes: 1 }),
{
    OpCost { ops: 1, size: 1, pops: 3, pushes: 1 }
}

/// A cryptographic opcode: it replaces the top item with its digest or
/// verdict.
pub fn push_crypto() -> (c: OpCost)
    ensures
        c == (OpCost { ops: 1, size: 1, pops: 1, pushes: 1 }),
{
    OpCost { ops: 1, size: 1, pops: 1, pushes: 1 }
}

/// A locktime opcode: it examines and removes the top item.
pub fn push_locktime() -> (c: OpCost)
    ensures
        c == (OpCost { ops: 1, size: 1, pops: 1, pushes: 0 }),
{
    OpCost { ops: 1, size: 1, pops: 1, pushes: 0 }
}

/// The emission layer rewrites compiled opcodes to resolve stack
/// accesses; the analyzer's verdict does not depend on it.
pub fn stack_resolver() {
}

/// The emission layer fuses opcode pairs after compilation; the
/// analyzer's verdict does not depend on it.
pub fn opcode_optimizer() {
}

/// A cross-branch lookup from identifier to declared type, built once
/// for a whole declared stack; a later declaration shadows an earlier
/// one when the list is searched from the end.
pub fn stack_table(stack: &Vec<StackParam>) -> (r: Vec<(String, Type)>)
    ensures
        r@.len() == stack@.len(),
        forall|i: int|
            0 <= i < stack@.len() ==> (#[trigger] r@[i]).0@ == stack@[i].identifier.0@ && r@[i].1
                == stack@[i].ty,
{
    let n = stack.len();
    let mut r: Vec<(String, Type)> = Vec::new();
    let mut i: usize = 0;
    while i < n
        invariant
            i <= n,
            n == stack@.len(),
            r@.len() == i,
            forall|k: int|
                0 <= k < i ==> (#[trigger] r@[k]).0@ == stack@[k].identifier.0@ && r@[k].1
                    == stack@[k].ty,
        decreases n - i,
    {
        let item = &stack[i];
        r.push((item.identifier.0.clone(), item.ty));
        i += 1;
    }
    r
}

/// What one expression costs along a path: opcodes, serialized bytes,
/// signature operations, the peak number of stack items its evaluation
/// holds above the path's running depth, and the target-legality
/// verdicts found inside it.
pub ghost struct ExprCons {
    pub ops: usize,
    pub size: usize,
    pub sigops: usize,
    pub peak: usize,
    pub errs: Seq<ErrorView>,
}

/// The running cost of a multisig element list: the pair costs so far,
/// the number of items already pushed, and the peak reached.
pub ghost struct FactorsCons {
    pub ops: usize,
    pub size: usize,
    pub sigops: usize,
    pub peak: usize,
    pub pushed: usize,
    pub errs: Seq<ErrorView>,
}

/// The views of a list of collected errors.
pub open spec fn errs_view(es: Seq<CompileError>) -> Seq<ErrorView> {
    es.map_values(|e: CompileError| e@)
}

/// Two operands evaluated left to right, then one opcode over both.
pub open spec fn combine2(l: ExprCons, r: ExprCons) -> ExprCons {
    ExprCons {
        ops: sat_add(sat_add(l.ops, r.ops), 1),
        size: sat_add(sat_add(l.size, r.size), 1),
        sigops: sat_add(l.sigops, r.sigops),
        peak: max_usize(l.peak, sat_add(r.peak, 1)),
        errs: l.errs + r.errs,
    }
}

/// One operand, then one opcode that replaces the top item.
pub open spec fn combine1(o: ExprCons) -> ExprCons {
    ExprCons {
        ops: sat_add(o.ops, 1),
        size: sat_add(o.size, 1),
        sigops: o.sigops,
        peak: o.peak,
        errs: o.errs,
    }
}

/// One multisig element added to the running list cost: a single-sig
/// pair pushes its signature and public key; a nested list compiles to
/// nothing here, as the use checker skips it.
pub open spec fn factor_step(acc: FactorsCons, f: Factor, target: Target) -> FactorsCons
    decreases f,
{
    match f {
        Factor::SingleSigFactor { sig, pubkey, .. } => {
            let s = expr_cons(*sig, target);
            let p = expr_cons(*pubkey, target);
            FactorsCons {
                ops: sat_add(acc.ops, sat_add(s.ops, p.ops)),
                size: sat_add(acc.size, sat_add(s.size, p.size)),
                sigops: sat_add(acc.sigops, sat_add(s.sigops, p.sigops)),
                peak: max_usize(
                    acc.peak,
                    max_usize(
                        sat_add(acc.pushed, s.peak),
                        sat_add(sat_add(acc.pushed, 1), p.peak),
                    ),
                ),
                pushed: sat_add(acc.pushed, 2),
                errs: acc.errs + s.errs + p.errs,
            }
        },
        Factor::MultiSigFactor { .. } => acc,
    }
}

/// A multisig element list folded left to right.
pub open spec fn factors_cons(fs: Seq<Factor>, target: Target, acc: FactorsCons) -> FactorsCons
    decreases fs,
{
    if fs.len() == 0 {
        acc
    } else {
        factors_cons(fs.drop_first(), target, factor_step(acc, fs[0], target))
    }
}

/// The cost of one expression under a target: every literal push priced
/// at its minimal encoding, every operator at one opcode and one byte, a
/// signature check at one signature operation, and a multisig check at
/// one per listed key — flagged as a disabled opcode under Taproot.
pub open spec fn expr_cons(e: Expression, target: Target) -> ExprCons
    decreases e,
{
    match e {
        Expression::Variable(_, _) => ExprCons {
            ops: 0,
            size: 0,
            sigops: 0,
            peak: 1,
            errs: Seq::empty(),
        },
        Expression::NumberLiteral(_, v) => ExprCons {
            ops: 1,
            size: spec_int_push_len(v),
            sigops: 0,
            peak: 1,
            errs: Seq::empty(),
        },
        Expression::BooleanLiteral(_, _) => ExprCons {
            ops: 1,
            size: 1,
            sigops: 0,
            peak: 1,
            errs: Seq::empty(),
        },
        Expression::StringLiteral(_, s) => ExprCons {
            ops: 1,
            size: spec_data_push_len(s@.len() as usize),
            sigops: 0,
            peak: 1,
            errs: Seq::empty(),
        },
        Expression::LogicalExpression { lhs, rhs, .. } => combine2(
            expr_cons(*lhs, target),
            expr_cons(*rhs, target),
        ),
        Expression::CompareExpression { lhs, rhs, .. } => combine2(
            expr_cons(*lhs, target),
            expr_cons(*rhs, target),
        ),
        Expression::UnaryMathExpression { operand, .. } => combine1(expr_cons(*operand, target)),
        Expression::BinaryMathExpression { lhs, rhs, .. } => combine2(
            expr_cons(*lhs, target),
            expr_cons(*rhs, target),
        ),
        Expression::UnaryCryptoExpression { operand, .. } => combine1(expr_cons(*operand, target)),
        Expression::ByteExpression { operand, .. } => {
            let o = expr_cons(*operand, target);
            ExprCons {
                ops: sat_add(o.ops, 1),
                size: sat_add(o.size, 1),
                sigops: o.sigops,
                peak: max_usize(o.peak, 2),
                errs: o.errs,
            }
        },
        Expression::CheckSigExpression { loc, operand, .. } => match *operand {
            Factor::SingleSigFactor { sig, pubkey, .. } => {
                let c = combine2(expr_cons(*sig, target), expr_cons(*pubkey, target));
                ExprCons {
                    ops: c.ops,
                    size: c.size,
                    sigops: sat_add(c.sigops, 1),
                    peak: c.peak,
                    errs: c.errs,
                }
            },
            Factor::MultiSigFactor { n, .. } => {
                let l = factors_cons(
                    n@,
                    target,
                    FactorsCons {
                        ops: 0,
                        size: 0,
                        sigops: 0,
                        peak: 0,
                        pushed: 0,
                        errs: Seq::empty(),
                    },
                );
                let flagged = if target is Taproot {
                    l.errs + seq![ErrorView { loc, kind: ErrorKindView::DisabledOpcodeForTarget }]
                } else {
                    l.errs
                };
                ExprCons {
                    ops: sat_add(l.ops, 4),
                    size: sat_add(l.size, 4),
                    sigops: sat_add(l.sigops, n@.len() as usize),
                    peak: max_usize(l.peak, sat_add(l.pushed, 3)),
                    errs: flagged,
                }
            },
        },
    }
}

/// What one expression costs, as computed by the checker.
#[derive(Clone, Copy, PartialEq, Eq, Structural)]
pub struct ConsCost {
    pub ops: usize,
    pub size: usize,
    pub sigops: usize,
    pub peak: usize,
}

/// Prices one expression and collects its target-legality verdicts; the
/// counts and the appended verdicts are exactly [`expr_cons`].
#[verifier::rlimit(60)]
pub fn expr_consensus(e: &Expression, target: &Target, errs: &mut Vec<CompileError>) -> (c:
    ConsCost)
    ensures
        ({
            let sc = expr_cons(*e, *target);
            &&& c.ops == sc.ops
            &&& c.size == sc.size
            &&& c.sigops == sc.sigops
            &&& c.peak == sc.peak
            &&& errs_view(final(errs)@) == errs_view(old(errs)@) + sc.errs
        }),
    decreases *e,
{
    match e {
        Expression::Variable(_, _) => {
            proof {
                assert(errs_view(errs@) =~= errs_view(errs@) + Seq::<ErrorView>::empty());
            }
            ConsCost { ops: 0, size: 0, sigops: 0, peak: 1 }
        },
        Expression::NumberLiteral(_, v) => {
            let p = push_int(*v);
            proof {
                assert(errs_view(errs@) =~= errs_view(errs@) + Seq::<ErrorView>::empty());
            }
            ConsCost { ops: p.ops, size: p.size, sigops: 0, peak: 1 }
        },
        Expression::BooleanLiteral(_, _) => {
            proof {
                assert(errs_view(errs@) =~= errs_view(errs@) + Seq::<ErrorView>::empty());
            }
            ConsCost { ops: 1, size: 1, sigops: 0, peak: 1 }
        },
        Expression::StringLiteral(_, s) => {
            let p = push_bytes(s.as_str().unicode_len());
            proof {
                assert(errs_view(errs@) =~= errs_view(errs@) + Seq::<ErrorView>::empty());
            }
            ConsCost { ops: p.ops, size: p.size, sigops: 0, peak: 1 }
        },
        Expression::LogicalExpression { lhs, rhs, .. } => {
            let l = expr_consensus(&**lhs, target, errs);
            let r = expr_consensus(&**rhs, target, errs);
            proof {
                assert(errs_view(errs@) =~= errs_view(old(errs)@) + (expr_cons(
                    **lhs,
                    *target,
                ).errs + expr_cons(**rhs, *target).errs));
            }
            ConsCost {
                ops: add_sat(add_sat(l.ops, r.ops), 1),
                size: add_sat(add_sat(l.size, r.size), 1),
                sigops: add_sat(l.sigops, r.sigops),
                peak: max_count(l.peak, add_sat(r.peak, 1)),
            }
        },
        Expression::CompareExpression { lhs, rhs, .. } => {
            let l = expr_consensus(&**lhs, target, errs);
            let r = expr_consensus(&**rhs, target, errs);
            proof {
                assert(errs_view(errs@) =~= errs_view(old(errs)@) + (expr_cons(
                    **lhs,
                    *target,
                ).errs + expr_cons(**rhs, *target).errs));
            }
            ConsCost {
                ops: add_sat(add_sat(l.ops, r.ops), 1),
                size: add_sat(add_sat(l.size, r.size), 1),
                sigops: add_sat(l.sigops, r.sigops),
                peak: max_count(l.peak, add_sat(r.peak, 1)),
            }
        },
        Expression::UnaryMathExpression { operand, .. } => {
            let o = expr_consensus(&**operand, target, errs);
            let op = push_math_unary();
            ConsCost {
                ops: add_sat(o.ops, op.ops),
                size: add_sat(o.size, op.size),
                sigops: o.sigops,
                peak: o.peak,
            }
        },
        Expression::BinaryMathExpression { lhs, rhs, .. } => {
            let l = expr_consensus(&**lhs, target, errs);
            let r = expr_consensus(&**rhs, target, errs);
            proof {
                assert(errs_view(errs@) =~= errs_view(old(errs)@) + (expr_cons(
                    **lhs,
                    *target,
                ).errs + expr_cons(**rhs, *target).errs));
            }
            ConsCost {
                ops: add_sat(add_sat(l.ops, r.ops), 1),
                size: add_sat(add_sat(l.size, r.size), 1),
                sigops: add_sat(l.sigops, r.sigops),
                peak: max_count(l.peak, add_sat(r.peak, 1)),
            }
        },
        Expression::UnaryCryptoExpression { operand, .. } => {
            let o = expr_consensus(&**operand, target, errs);
            let op = push_crypto();
            ConsCost {
                ops: add_sat(o.ops, op.ops),
                size: add_sat(o.size, op.size),
                sigops: o.sigops,
                peak: o.peak,
            }
        },
        Expression::ByteExpression { operand, .. } => {
            let o = expr_consensus(&**operand, target, errs);
            let op = push_bytes_len();
            ConsCost {
                ops: add_sat(o.ops, op.ops),
                size: add_sat(o.size, op.size),
                sigops: o.sigops,
                peak: max_count(o.peak, 2),
            }
        },
        Expression::CheckSigExpression { loc, operand, .. } => match &**operand {
            Factor::SingleSigFactor { sig, pubkey, .. } => {
                proof {
                    assert(*e is CheckSigExpression);
                    assert(**operand is SingleSigFactor);
                }
                let l = expr_consensus(&**sig, target, errs);
                let r = expr_consensus(&**pubkey, target, errs);
                let op = push_crypto();
                proof {
                    assert(errs_view(errs@) =~= errs_view(old(errs)@) + (expr_cons(
                        **sig,
                        *target,
                    ).errs + expr_cons(**pubkey, *target).errs));
                }
                ConsCost {
                    ops: add_sat(add_sat(l.ops, r.ops), op.ops),
                    size: add_sat(add_sat(l.size, r.size), op.size),
                    sigops: add_sat(add_sat(l.sigops, r.sigops), 1),
                    peak: max_count(l.peak, add_sat(r.peak, 1)),
                }
            },
            Factor::MultiSigFactor { n, .. } => {
                let ghost acc0 = FactorsCons {
                    ops: 0,
                    size: 0,
                    sigops: 0,
                    peak: 0,
                    pushed: 0,
                    errs: Seq::<ErrorView>::empty(),
                };
                let mut ops: usize = 0;
                let mut size: usize = 0;
                let mut sigops: usize = 0;
                let mut peak: usize = 0;
                let mut pushed: usize = 0;
                let ghost mut gerrs = Seq::<ErrorView>::empty();
                let len = n.len();
                let mut i: usize = 0;
                proof {
                    assert(*e is CheckSigExpression);
                    assert(**operand is MultiSigFactor);
                    assert(expr_cons(*e, *target).ops == sat_add(
                        factors_cons(n@, *target, acc0).ops,
                        4,
                    ));
                    assert(n@.subrange(0, len as int) =~= n@);
                    assert(errs_view(errs@) =~= errs_view(errs@) + gerrs);
                }
                #[verifier::loop_isolation(false)]
                while i < len
                    invariant
                        i <= len,
                        len == n@.len(),
                        factors_cons(n@, *target, acc0) == factors_cons(
                            n@.subrange(i as int, len as int),
                            *target,
                            FactorsCons { ops, size, sigops, peak, pushed, errs: gerrs },
                        ),
                        errs_view(errs@) == errs_view(old(errs)@) + gerrs,
                    decreases len - i,
                {
                    let ghost sub = n@.subrange(i as int, len as int);
                    let ghost acc_head = FactorsCons { ops, size, sigops, peak, pushed, errs: gerrs };
                    proof {
                        assert(sub[0] == n@[i as int]);
                        assert(sub.drop_first() =~= n@.subrange(i as int + 1, len as int));
                    }
                    match &n[i] {
                        Factor::SingleSigFactor { sig, pubkey, .. } => {
                            proof {
                                assert(decreases_to!(n@ => n@[i as int]));
                                assert(decreases_to!(
                                    n@[i as int] => n@[i as int]->SingleSigFactor_sig
                                ));
                                assert(decreases_to!(
                                    n@[i as int] => n@[i as int]->SingleSigFactor_pubkey
                                ));
                            }
                            let s = expr_consensus(&**sig, target, errs);
                            let p = expr_consensus(&**pubkey, target, errs);
                            let new_peak = max_count(
                                peak,
                                max_count(
                                    add_sat(pushed, s.peak),
                                    add_sat(add_sat(pushed, 1), p.peak),
                                ),
                            );
                            ops = add_sat(ops, add_sat(s.ops, p.ops));
                            size = add_sat(size, add_sat(s.size, p.size));
                            sigops = add_sat(sigops, add_sat(s.sigops, p.sigops));
                            peak = new_peak;
                            pushed = add_sat(pushed, 2);
                            proof {
                                let se = expr_cons(**sig, *target).errs;
                                let pe = expr_cons(**pubkey, *target).errs;
                                assert(errs_view(errs@) =~= errs_view(old(errs)@) + (gerrs + se
                                    + pe));
                                gerrs = gerrs + se + pe;
                                assert(FactorsCons { ops, size, sigops, peak, pushed, errs: gerrs }
                                    == factor_step(acc_head, n@[i as int], *target));
                            }
                        },
                        Factor::MultiSigFactor { .. } => {
                            proof {
                                assert(FactorsCons { ops, size, sigops, peak, pushed, errs: gerrs }
                                    == factor_step(acc_head, n@[i as int], *target));
                            }
                        },
                    }
                    i += 1;
                }
                proof {
                    assert(n@.subrange(len as int, len as int) =~= Seq::<Factor>::empty());
                }
                if matches!(target, Target::Taproot) {
                    let ghost pre = errs@;
                    errs.push(CompileError { loc: *loc, kind: ErrorKind::DisabledOpcodeForTarget });
                    proof {
                        assert(errs_view(errs@) =~= errs_view(pre) + seq![
                            ErrorView { loc: *loc, kind: ErrorKindView::DisabledOpcodeForTarget },
                        ]);
                        assert(errs_view(errs@) =~= errs_view(old(errs)@) + (gerrs + seq![
                            ErrorView { loc: *loc, kind: ErrorKindView::DisabledOpcodeForTarget },
                        ]));
                    }
                } else {
                    proof {
                        assert(!(*target is Taproot));
                    }
                }
                ConsCost {
                    ops: add_sat(ops, 4),
                    size: add_sat(size, 4),
                    sigops: add_sat(sigops, n.len()),
                    peak: max_count(peak, add_sat(pushed, 3)),
                }
            },
        },
    }
}

/// The running cost of one spending path: opcodes, bytes, signature
/// operations, the path's current net stack growth, the peak growth
/// seen, and the span of the last statement priced (where the path's
/// verdicts are reported).
#[derive(Clone, Copy, PartialEq, Eq, Structural)]
pub struct PathCost {
    pub ops: usize,
    pub size: usize,
    pub sigops: usize,
    pub depth: usize,
    pub peak: usize,
    pub loc: Location,
}

/// A fresh path cost, before any statement is priced.
pub open spec fn spec_empty_path() -> PathCost {
    PathCost {
        ops: 0,
        size: 0,
        sigops: 0,
        depth: 0,
        peak: 0,
        loc: Location { start: 0, end: 0, line: 0, column: 0 },
    }
}

/// How many witness items each declared input stack provides.
pub open spec fn stack_counts(inputs: Seq<Vec<StackParam>>) -> Seq<usize> {
    inputs.map_values(|v: Vec<StackParam>| v@.len() as usize)
}

/// The size ceiling of the target dialect.
pub open spec fn spec_size_cap(target: Target) -> usize {
    if target is Legacy {
        MAX_SCRIPT_SIZE_LEGACY
    } else {
        MAX_SCRIPT_SIZE_WITNESS
    }
}

/// The verdicts of one finished path: its peak stack depth on top of the
/// declared witness items, its opcode count, its serialized size under
/// the target's ceiling, and its signature operations, each reported at
/// the path's last span when its limit is broken.
pub open spec fn path_verdicts(acc: PathCost, b: int, count: usize, target: Target) -> Seq<
    ErrorView,
> {
    let depth_abs = sat_add(count, acc.peak);
    (if depth_abs > MAX_STACK_DEPTH {
        seq![
            ErrorView {
                loc: acc.loc,
                kind: ErrorKindView::StackDepthExceeded { branch: b as nat, depth: depth_abs as nat },
            },
        ]
    } else {
        Seq::empty()
    }) + (if acc.ops > MAX_OPS_PER_PATH {
        seq![
            ErrorView {
                loc: acc.loc,
                kind: ErrorKindView::OpcodeCountExceeded { branch: b as nat, count: acc.ops as nat },
            },
        ]
    } else {
        Seq::empty()
    }) + (if acc.size > spec_size_cap(target) {
        seq![
            ErrorView {
                loc: acc.loc,
                kind: ErrorKindView::ScriptSizeExceeded { branch: b as nat, size: acc.size as nat },
            },
        ]
    } else {
        Seq::empty()
    }) + (if acc.sigops > MAX_SIGOPS_PER_PATH {
        seq![
            ErrorView {
                loc: acc.loc,
                kind: ErrorKindView::SigOpLimitExceeded { branch: b as nat, count: acc.sigops as nat },
            },
        ]
    } else {
        Seq::empty()
    })
}

/// A locktime statement priced onto the path: a minimal push of its
/// operand, the locktime opcode and a drop.
pub open spec fn locktime_cost(acc: PathCost, operand: u32, loc: Location) -> PathCost {
    PathCost {
        ops: sat_add(acc.ops, 3),
        size: sat_add(acc.size, sat_add(spec_int_push_len(operand as i64), 2)),
        sigops: acc.sigops,
        depth: acc.depth,
        peak: max_usize(acc.peak, sat_add(acc.depth, 1)),
        loc,
    }
}

/// A verify statement priced onto the path: its expression, then the
/// verify opcode, which consumes the produced value.
pub open spec fn verify_cost(acc: PathCost, c: ExprCons, loc: Location) -> PathCost {
    PathCost {
        ops: sat_add(acc.ops, sat_add(c.ops, 1)),
        size: sat_add(acc.size, sat_add(c.size, 1)),
        sigops: sat_add(acc.sigops, c.sigops),
        depth: acc.depth,
        peak: max_usize(acc.peak, sat_add(acc.depth, c.peak)),
        loc,
    }
}

/// A terminal expression statement priced onto the path: its produced
/// value stays on the stack.
pub open spec fn terminal_cost(acc: PathCost, c: ExprCons, loc: Location) -> PathCost {
    PathCost {
        ops: sat_add(acc.ops, c.ops),
        size: sat_add(acc.size, c.size),
        sigops: sat_add(acc.sigops, c.sigops),
        depth: sat_add(acc.depth, 1),
        peak: max_usize(acc.peak, sat_add(acc.depth, c.peak)),
        loc,
    }
}

/// An `if` condition priced onto the path, with the branching opcodes:
/// two for a lone `if`, three when an `else` joins it.
pub open spec fn cond_cost(acc: PathCost, c: ExprCons, loc: Location, with_else: bool) -> PathCost {
    let extra: usize = if with_else {
        3
    } else {
        2
    };
    PathCost {
        ops: sat_add(acc.ops, sat_add(c.ops, extra)),
        size: sat_add(acc.size, sat_add(c.size, extra)),
        sigops: sat_add(acc.sigops, c.sigops),
        depth: acc.depth,
        peak: max_usize(acc.peak, sat_add(acc.depth, c.peak)),
        loc,
    }
}

/// Statements priced along every path they open. A list that ends
/// without an `if` finishes one path and yields its verdicts; an `if`
/// forks: its block continues the current branch and an `else` block
/// opens the next one, both from the cost accumulated so far. Statements
/// standing after an `if` are not priced: the control-flow validator
/// rejects such trees before this pass runs.
pub open spec fn cons_stmts(
    stmts: Seq<Statement>,
    target: Target,
    b: int,
    acc: PathCost,
    counts: Seq<usize>,
) -> (Seq<ErrorView>, int)
    decreases stmts,
{
    if stmts.len() == 0 {
        (path_verdicts(acc, b, counts[b], target), b)
    } else {
        match stmts[0] {
            Statement::LocktimeStatement { loc, operand, .. } => cons_stmts(
                stmts.drop_first(),
                target,
                b,
                locktime_cost(acc, operand, loc),
                counts,
            ),
            Statement::VerifyStatement(loc, e) => {
                let c = expr_cons(e, target);
                let rest = cons_stmts(
                    stmts.drop_first(),
                    target,
                    b,
                    verify_cost(acc, c, loc),
                    counts,
                );
                (c.errs + rest.0, rest.1)
            },
            Statement::ExpressionStatement(loc, e) => {
                let c = expr_cons(e, target);
                let rest = cons_stmts(
                    stmts.drop_first(),
                    target,
                    b,
                    terminal_cost(acc, c, loc),
                    counts,
                );
                (c.errs + rest.0, rest.1)
            },
            Statement::IfStatement { loc, condition_expr, if_block, else_block } => {
                let c = expr_cons(condition_expr, target);
                match else_block {
                    None => {
                        let r1 = cons_stmts(
                            if_block@,
                            target,
                            b,
                            cond_cost(acc, c, loc, false),
                            counts,
                        );
                        (c.errs + r1.0, r1.1)
                    },
                    Some(eb) => {
                        let base = cond_cost(acc, c, loc, true);
                        let r1 = cons_stmts(if_block@, target, b, base, counts);
                        let r2 = cons_stmts(eb@, target, r1.1 + 1, base, counts);
                        (c.errs + r1.0 + r2.0, r2.1)
                    },
                }
            },
        }
    }
}

/// The branch a priced walk ends on never runs past the structurally
/// computed bound.
pub proof fn lemma_cons_next(
    stmts: Seq<Statement>,
    target: Target,
    b: int,
    acc: PathCost,
    counts: Seq<usize>,
)
    ensures
        b <= cons_stmts(stmts, target, b, acc, counts).1 <= branch_after(stmts, b),
    decreases stmts,
{
    lemma_branch_after_ge(stmts, b);
    if stmts.len() > 0 {
        lemma_branch_after_stmt_ge(stmts[0], b);
        lemma_branch_after_ge(stmts.drop_first(), branch_after_stmt(stmts[0], b));
        match stmts[0] {
            Statement::LocktimeStatement { loc, operand, .. } => {
                lemma_cons_next(stmts.drop_first(), target, b, locktime_cost(acc, operand, loc), counts);
            },
            Statement::VerifyStatement(loc, e) => {
                let c = expr_cons(e, target);
                lemma_cons_next(stmts.drop_first(), target, b, verify_cost(acc, c, loc), counts);
                crate::semantics::lemma_branch_after_mono(stmts.drop_first(), b, branch_after_stmt(stmts[0], b));
            },
            Statement::ExpressionStatement(loc, e) => {
                let c = expr_cons(e, target);
                lemma_cons_next(stmts.drop_first(), target, b, terminal_cost(acc, c, loc), counts);
                crate::semantics::lemma_branch_after_mono(stmts.drop_first(), b, branch_after_stmt(stmts[0], b));
            },
            Statement::IfStatement { loc, condition_expr, if_block, else_block } => {
                let c = expr_cons(condition_expr, target);
                match else_block {
                    None => {
                        lemma_cons_next(if_block@, target, b, cond_cost(acc, c, loc, false), counts);
                        crate::semantics::lemma_branch_after_mono(
                            stmts.drop_first(),
                            b,
                            branch_after_stmt(stmts[0], b),
                        );
                        if let Some(_) = else_block {
                        } else {
                            lemma_branch_after_ge(if_block@, b);
                        }
                    },
                    Some(eb) => {
                        let base = cond_cost(acc, c, loc, true);
                        lemma_cons_next(if_block@, target, b, base, counts);
                        let r1 = cons_stmts(if_block@, target, b, base, counts);
                        lemma_cons_next(eb@, target, r1.1 + 1, base, counts);
                        crate::semantics::lemma_branch_after_mono(eb@, r1.1 + 1, branch_after(if_block@, b) + 1);
                        crate::semantics::lemma_branch_after_mono(
                            stmts.drop_first(),
                            b,
                            branch_after_stmt(stmts[0], b),
                        );
                    },
                }
            },
        }
    }
}

/// Appends one finished path's verdicts.
fn finalize_path(
    acc: PathCost,
    branch: usize,
    count: usize,
    target: &Target,
    errs: &mut Vec<CompileError>,
)
    ensures
        errs_view(final(errs)@) == errs_view(old(errs)@) + path_verdicts(
            acc,
            branch as int,
            count,
            *target,
        ),
{
    let ghost mut gerrs = Seq::<ErrorView>::empty();
    proof {
        assert(errs_view(errs@) =~= errs_view(errs@) + gerrs);
    }
    let depth_abs = add_sat(count, acc.peak);
    if depth_abs > MAX_STACK_DEPTH {
        let ghost pre = errs@;
        errs.push(
            CompileError {
                loc: acc.loc,
                kind: ErrorKind::StackDepthExceeded { branch, depth: depth_abs },
            },
        );
        proof {
            assert(errs_view(errs@) =~= errs_view(pre) + seq![errs@.last()@]);
            gerrs = gerrs + seq![errs@.last()@];
            assert(errs_view(errs@) =~= errs_view(old(errs)@) + gerrs);
        }
    }
    if acc.ops > MAX_OPS_PER_PATH {
        let ghost pre = errs@;
        errs.push(
            CompileError {
                loc: acc.loc,
                kind: ErrorKind::OpcodeCountExceeded { branch, count: acc.ops },
            },
        );
        proof {
            assert(errs_view(errs@) =~= errs_view(pre) + seq![errs@.last()@]);
            gerrs = gerrs + seq![errs@.last()@];
            assert(errs_view(errs@) =~= errs_view(old(errs)@) + gerrs);
        }
    }
    let cap = if matches!(target, Target::Legacy) {
        MAX_SCRIPT_SIZE_LEGACY
    } else {
        MAX_SCRIPT_SIZE_WITNESS
    };
    if acc.size > cap {
        let ghost pre = errs@;
        errs.push(
            CompileError { loc: acc.loc, kind: ErrorKind::ScriptSizeExceeded { branch, size: acc.size } },
        );
        proof {
            assert(errs_view(errs@) =~= errs_view(pre) + seq![errs@.last()@]);
            gerrs = gerrs + seq![errs@.last()@];
            assert(errs_view(errs@) =~= errs_view(old(errs)@) + gerrs);
        }
    }
    if acc.sigops > MAX_SIGOPS_PER_PATH {
        let ghost pre = errs@;
        errs.push(
            CompileError {
                loc: acc.loc,
                kind: ErrorKind::SigOpLimitExceeded { branch, count: acc.sigops },
            },
        );
        proof {
            assert(errs_view(errs@) =~= errs_view(pre) + seq![errs@.last()@]);
            gerrs = gerrs + seq![errs@.last()@];
            assert(errs_view(errs@) =~= errs_view(old(errs)@) + gerrs);
        }
    }
    proof {
        assert(gerrs =~= path_verdicts(acc, branch as int, count, *target));
    }
}

/// Prices one statement list along every path it opens, appending each
/// finished path's verdicts and each expression's target-legality
/// verdicts; returns the next free branch. The appended sequence and the
/// returned branch are exactly [`cons_stmts`].
#[verifier::rlimit(60)]
pub fn consensus_stmts(
    ast: &Vec<Statement>,
    input: &Vec<Vec<StackParam>>,
    target: &Target,
    branch: usize,
    acc: PathCost,
    errs: &mut Vec<CompileError>,
) -> (b: usize)
    requires
        branch_after(ast@, branch as int) < input@.len(),
    ensures
        ({
            let out = cons_stmts(ast@, *target, branch as int, acc, stack_counts(input@));
            &&& errs_view(final(errs)@) == errs_view(old(errs)@) + out.0
            &&& b as int == out.1
        }),
    decreases ast@,
{
    let ghost counts = stack_counts(input@);
    let n = ast.len();
    let mut bcur = branch;
    let mut acc_cur = acc;
    let mut i: usize = 0;
    let ghost mut gerrs = Seq::<ErrorView>::empty();
    proof {
        assert(ast@.subrange(0, n as int) =~= ast@);
        assert(errs_view(errs@) =~= errs_view(errs@) + gerrs);
        lemma_branch_after_ge(ast@, branch as int);
    }
    #[verifier::loop_isolation(false)]
    while i < n
        invariant
            i <= n,
            bcur as int <= branch_after(ast@, branch as int),
            branch_after(ast@.subrange(i as int, n as int), bcur as int) == branch_after(
                ast@,
                branch as int,
            ),
            errs_view(errs@) == errs_view(old(errs)@) + gerrs,
            cons_stmts(ast@, *target, branch as int, acc, counts) == ({
                let rest = cons_stmts(
                    ast@.subrange(i as int, n as int),
                    *target,
                    bcur as int,
                    acc_cur,
                    counts,
                );
                (gerrs + rest.0, rest.1)
            }),
        decreases n - i,
    {
        let ghost sub = ast@.subrange(i as int, n as int);
        proof {
            assert(sub[0] == ast@[i as int]);
            assert(sub.drop_first() =~= ast@.subrange(i as int + 1, n as int));
            lemma_branch_after_stmt_ge(sub[0], bcur as int);
            lemma_branch_after_ge(sub.drop_first(), branch_after_stmt(sub[0], bcur as int));
        }
        match &ast[i] {
            Statement::LocktimeStatement { loc, operand, .. } => {
                let p = push_int(*operand as i64);
                acc_cur = PathCost {
                    ops: add_sat(acc_cur.ops, 3),
                    size: add_sat(acc_cur.size, add_sat(p.size, 2)),
                    sigops: acc_cur.sigops,
                    depth: acc_cur.depth,
                    peak: max_count(acc_cur.peak, add_sat(acc_cur.depth, 1)),
                    loc: *loc,
                };
            },
            Statement::VerifyStatement(loc, e) => {
                let c = expr_consensus(e, target, errs);
                proof {
                    let ce = expr_cons(*e, *target).errs;
                    assert(errs_view(errs@) =~= errs_view(old(errs)@) + (gerrs + ce));
                    gerrs = gerrs + ce;
                }
                acc_cur = PathCost {
                    ops: add_sat(acc_cur.ops, add_sat(c.ops, 1)),
                    size: add_sat(acc_cur.size, add_sat(c.size, 1)),
                    sigops: add_sat(acc_cur.sigops, c.sigops),
                    depth: acc_cur.depth,
                    peak: max_count(acc_cur.peak, add_sat(acc_cur.depth, c.peak)),
                    loc: *loc,
                };
                proof {
                    assert(gerrs + (cons_stmts(sub.drop_first(), *target, bcur as int, acc_cur, counts).0)
                        =~= (gerrs + cons_stmts(sub.drop_first(), *target, bcur as int, acc_cur, counts).0));
                }
            },
            Statement::ExpressionStatement(loc, e) => {
                let c = expr_consensus(e, target, errs);
                proof {
                    let ce = expr_cons(*e, *target).errs;
                    assert(errs_view(errs@) =~= errs_view(old(errs)@) + (gerrs + ce));
                    gerrs = gerrs + ce;
                }
                acc_cur = PathCost {
                    ops: add_sat(acc_cur.ops, c.ops),
                    size: add_sat(acc_cur.size, c.size),
                    sigops: add_sat(acc_cur.sigops, c.sigops),
                    depth: add_sat(acc_cur.depth, 1),
                    peak: max_count(acc_cur.peak, add_sat(acc_cur.depth, c.peak)),
                    loc: *loc,
                };
            },
            Statement::IfStatement { loc, condition_expr, if_block, else_block, .. } => {
                proof {
                    lemma_branch_after_ge(if_block@, bcur as int);
                    if let Some(eb) = ast@[i as int]->else_block {
                        lemma_branch_after_ge(eb@, branch_after(if_block@, bcur as int) + 1);
                    }
                }
                let c = expr_consensus(condition_expr, target, errs);
                proof {
                    let ce = expr_cons(*condition_expr, *target).errs;
                    assert(errs_view(errs@) =~= errs_view(old(errs)@) + (gerrs + ce));
                    gerrs = gerrs + ce;
                }
                let with_else = match else_block {
                    Some(_) => true,
                    None => false,
                };
                let extra: usize = if with_else {
                    3
                } else {
                    2
                };
                let base = PathCost {
                    ops: add_sat(acc_cur.ops, add_sat(c.ops, extra)),
                    size: add_sat(acc_cur.size, add_sat(c.size, extra)),
                    sigops: add_sat(acc_cur.sigops, c.sigops),
                    depth: acc_cur.depth,
                    peak: max_count(acc_cur.peak, add_sat(acc_cur.depth, c.peak)),
                    loc: *loc,
                };
                let b1 = consensus_stmts(if_block, input, target, bcur, base, errs);
                proof {
                    let r1 = cons_stmts(if_block@, *target, bcur as int, base, counts);
                    assert(errs_view(errs@) =~= errs_view(old(errs)@) + (gerrs + r1.0));
                    gerrs = gerrs + r1.0;
                }
                match else_block {
                    None => {
                        return b1;
                    },
                    Some(eb) => {
                        let ghost r1 = cons_stmts(if_block@, *target, bcur as int, base, counts);
                        let scope_count = input.len();
                        proof {
                            lemma_cons_next(if_block@, *target, bcur as int, base, counts);
                            crate::semantics::lemma_branch_after_mono(
                                eb@,
                                r1.1 + 1,
                                branch_after(if_block@, bcur as int) + 1,
                            );
                            assert(branch_after(eb@, r1.1 + 1) < scope_count as int);
                            assert(b1 < usize::MAX);
                        }
                        let b2 = consensus_stmts(eb, input, target, b1 + 1, base, errs);
                        proof {
                            let r2 = cons_stmts(eb@, *target, b1 as int + 1, base, counts);
                            assert(errs_view(errs@) =~= errs_view(old(errs)@) + (gerrs + r2.0));
                            gerrs = gerrs + r2.0;
                        }
                        return b2;
                    },
                }
            },
        }
        i += 1;
    }
    proof {
        assert(ast@.subrange(n as int, n as int) =~= Seq::<Statement>::empty());
        assert((bcur as int) < input@.len());
        assert(counts =~= Seq::new(input@.len(), |k: int| input@[k]@.len() as usize));
    }
    let count = input[bcur].len();
    proof {
        assert(counts[bcur as int] == count);
    }
    finalize_path(acc_cur, bcur, count, target, errs);
    proof {
        assert(errs_view(errs@) =~= errs_view(old(errs)@) + (gerrs + path_verdicts(
            acc_cur,
            bcur as int,
            count,
            *target,
        )));
    }
    bcur
}

} // verus!