use bithoven::analyze::check_consensus;
use bithoven::ast::CheckSigOp;
use bithoven::ast::Expression;
use bithoven::ast::Factor;
use bithoven::ast::Identifier;
use bithoven::ast::Location;
use bithoven::ast::StackParam;
use bithoven::ast::Statement;
use bithoven::ast::Target;
use bithoven::ast::Type;
use bithoven::compile::push_bytes;
use bithoven::compile::push_int;
use bithoven::compile::stack_table;
use bithoven::source::ErrorKind;

fn loc(start: usize) -> Location {
    Location { start, end: start + 1, line: 0, column: 0 }
}

fn param(name: &str, ty: Type) -> StackParam {
    StackParam { loc: loc(0), identifier: Identifier(name.to_string()), ty, value: None }
}

fn var(name: &str) -> Expression {
    Expression::Variable(loc(0), Identifier(name.to_string()))
}

fn num(v: i64) -> Expression {
    Expression::NumberLiteral(loc(0), v)
}

fn expr_stmt(e: Expression) -> Statement {
    Statement::ExpressionStatement(loc(0), e)
}

fn two_of_two(names: [&str; 4]) -> Expression {
    Expression::CheckSigExpression {
        loc: loc(0),
        operand: Box::new(Factor::MultiSigFactor {
            loc: loc(0),
            m: 2,
            n: vec![
                Factor::SingleSigFactor {
                    loc: loc(0),
                    sig: Box::new(var(names[0])),
                    pubkey: Box::new(var(names[1])),
                },
                Factor::SingleSigFactor {
                    loc: loc(0),
                    sig: Box::new(var(names[2])),
                    pubkey: Box::new(var(names[3])),
                },
            ],
        }),
        op: CheckSigOp::CheckSig,
    }
}

#[test]
fn integer_pushes_are_priced_minimally() {
    assert_eq!(push_int(0).size, 1);
    assert_eq!(push_int(16).size, 1);
    assert_eq!(push_int(-1).size, 1);
    assert_eq!(push_int(17).size, 2);
    assert_eq!(push_int(-2).size, 2);
    assert_eq!(push_int(0x7f).size, 2);
    assert_eq!(push_int(0x80).size, 3);
    assert_eq!(push_int(0x7fff).size, 3);
    assert_eq!(push_int(0x8000).size, 4);
    assert_eq!(push_int(0x7fffffff).size, 5);
}

#[test]
fn data_pushes_are_priced_minimally() {
    assert_eq!(push_bytes(0).size, 1);
    assert_eq!(push_bytes(75).size, 76);
    assert_eq!(push_bytes(76).size, 78);
    assert_eq!(push_bytes(255).size, 257);
    assert_eq!(push_bytes(256).size, 259);
}

#[test]
fn a_small_script_breaks_no_limit() {
    let input = vec![vec![param("p", Type::String)]];
    let ast = vec![expr_stmt(var("p"))];
    let errs = check_consensus(&ast, &input, &Target::Legacy);
    assert!(errs.is_empty());
}

#[test]
fn multisig_is_disabled_under_taproot() {
    let input = vec![vec![
        param("s1", Type::Signature),
        param("k1", Type::String),
        param("s2", Type::Signature),
        param("k2", Type::String),
    ]];
    let ast = vec![expr_stmt(two_of_two(["s1", "k1", "s2", "k2"]))];
    let errs = check_consensus(&ast, &input, &Target::Taproot);
    assert!(errs.iter().any(|e| matches!(e.kind, ErrorKind::DisabledOpcodeForTarget)));
    let errs_legacy = check_consensus(&ast, &input, &Target::Legacy);
    assert!(!errs_legacy.iter().any(|e| matches!(e.kind, ErrorKind::DisabledOpcodeForTarget)));
}

#[test]
fn a_long_literal_breaks_the_legacy_size_ceiling_only() {
    let input = vec![vec![param("p", Type::String)]];
    let big = "x".repeat(600);
    let ast = vec![expr_stmt(Expression::StringLiteral(loc(0), big))];
    let errs = check_consensus(&ast, &input, &Target::Legacy);
    match errs.iter().find(|e| matches!(e.kind, ErrorKind::ScriptSizeExceeded { .. })) {
        Some(e) => match e.kind {
            ErrorKind::ScriptSizeExceeded { branch, size } => {
                assert_eq!(branch, 0);
                // 600 data bytes behind a three-byte push prefix.
                assert_eq!(size, 603);
            }
            _ => unreachable!(),
        },
        None => panic!("600 pushed bytes must break the 520-byte legacy ceiling"),
    }
    let errs_segwit = check_consensus(&ast, &input, &Target::Segwit);
    assert!(!errs_segwit.iter().any(|e| matches!(e.kind, ErrorKind::ScriptSizeExceeded { .. })));
}

#[test]
fn a_deep_operator_chain_breaks_the_opcode_ceiling() {
    let input = vec![vec![param("p", Type::String)]];
    let mut e = var("p");
    for _ in 0..250 {
        e = Expression::UnaryMathExpression {
            loc: loc(0),
            operand: Box::new(e),
            op: bithoven::ast::UnaryMathOp::Negate,
        };
    }
    let ast = vec![expr_stmt(e)];
    let errs = check_consensus(&ast, &input, &Target::Segwit);
    match errs.iter().find(|e| matches!(e.kind, ErrorKind::OpcodeCountExceeded { .. })) {
        Some(e) => match e.kind {
            ErrorKind::OpcodeCountExceeded { branch, count } => {
                assert_eq!(branch, 0);
                assert_eq!(count, 250);
            }
            _ => unreachable!(),
        },
        None => panic!("250 opcodes must break the 201-opcode ceiling"),
    }
}

#[test]
fn a_right_deep_expression_breaks_the_stack_ceiling() {
    let input = vec![vec![param("p", Type::String)]];
    let mut e = var("p");
    for _ in 0..1100 {
        e = Expression::BinaryMathExpression {
            loc: loc(0),
            lhs: Box::new(num(1)),
            op: bithoven::ast::BinaryMathOp::Add,
            rhs: Box::new(e),
        };
    }
    let ast = vec![expr_stmt(e)];
    let errs = check_consensus(&ast, &input, &Target::Segwit);
    assert!(errs.iter().any(|e| matches!(e.kind, ErrorKind::StackDepthExceeded { .. })));
}

#[test]
fn too_many_signature_checks_break_the_sigop_ceiling() {
    let mut stack = Vec::new();
    let mut stmts = Vec::new();
    for i in 0..21 {
        let s = format!("s{i}");
        let k = format!("k{i}");
        stack.push(param(&s, Type::Signature));
        stack.push(param(&k, Type::String));
        let cs = Expression::CheckSigExpression {
            loc: loc(0),
            operand: Box::new(Factor::SingleSigFactor {
                loc: loc(0),
                sig: Box::new(var(&s)),
                pubkey: Box::new(var(&k)),
            }),
            op: CheckSigOp::CheckSig,
        };
        if i < 20 {
            stmts.push(Statement::VerifyStatement(loc(0), cs));
        } else {
            stmts.push(expr_stmt(cs));
        }
    }
    let input = vec![stack];
    let errs = check_consensus(&stmts, &input, &Target::Legacy);
    match errs.iter().find(|e| matches!(e.kind, ErrorKind::SigOpLimitExceeded { .. })) {
        Some(e) => match e.kind {
            ErrorKind::SigOpLimitExceeded { branch, count } => {
                assert_eq!(branch, 0);
                assert_eq!(count, 21);
            }
            _ => unreachable!(),
        },
        None => panic!("21 signature checks must break the 20-sigop ceiling"),
    }
}

#[test]
fn each_branch_is_judged_on_its_own() {
    let input = vec![vec![param("c", Type::Boolean)], vec![param("q", Type::String)]];
    let big = "y".repeat(600);
    // The if path pushes far more than the else path.
    let ast = vec![Statement::IfStatement {
        loc: loc(0),
        condition_expr: var("c"),
        if_block: vec![expr_stmt(Expression::StringLiteral(loc(0), big))],
        else_block: Some(vec![expr_stmt(num(1))]),
    }];
    let errs = check_consensus(&ast, &input, &Target::Legacy);
    let broken: Vec<usize> = errs
        .iter()
        .filter_map(|e| match e.kind {
            ErrorKind::ScriptSizeExceeded { branch, .. } => Some(branch),
            _ => None,
        })
        .collect();
    assert_eq!(broken, vec![0]);
}

#[test]
fn stack_table_keeps_names_and_types() {
    let stack = vec![param("a", Type::Number), param("b", Type::Boolean)];
    let table = stack_table(&stack);
    assert_eq!(table.len(), 2);
    assert_eq!(table[0].0, "a");
    assert!(matches!(table[0].1, Type::Number));
    assert_eq!(table[1].0, "b");
    assert!(matches!(table[1].1, Type::Boolean));
}
