use bithoven::analyze::analyze;
use bithoven::analyze::build_symbol_table;
use bithoven::analyze::check_variable;
use bithoven::ast::BinaryCompareOp;
use bithoven::ast::CheckSigOp;
use bithoven::ast::Expression;
use bithoven::ast::Factor;
use bithoven::ast::Identifier;
use bithoven::ast::Location;
use bithoven::ast::LocktimeOp;
use bithoven::ast::StackParam;
use bithoven::ast::Statement;
use bithoven::ast::Target;
use bithoven::ast::Type;
use bithoven::source::ErrorKind;

fn loc(start: usize) -> Location {
    Location { start, end: start + 1, line: 0, column: 0 }
}

fn param(name: &str, ty: Type) -> StackParam {
    StackParam { loc: loc(0), identifier: Identifier(name.to_string()), ty, value: None }
}

fn var(name: &str) -> Expression {
    Expression::Variable(loc(0), Identifier(name.to_string()))
}

fn num(v: i64) -> Expression {
    Expression::NumberLiteral(loc(0), v)
}

fn boolean(v: bool) -> Expression {
    Expression::BooleanLiteral(loc(0), v)
}

fn checksig(sig: Expression, pubkey: Expression) -> Expression {
    Expression::CheckSigExpression {
        loc: loc(0),
        operand: Box::new(Factor::SingleSigFactor {
            loc: loc(0),
            sig: Box::new(sig),
            pubkey: Box::new(pubkey),
        }),
        op: CheckSigOp::CheckSig,
    }
}

fn expr_stmt(e: Expression) -> Statement {
    Statement::ExpressionStatement(loc(0), e)
}

fn verify_stmt(e: Expression) -> Statement {
    Statement::VerifyStatement(loc(0), e)
}

#[test]
fn symbol_table_positions_count_from_the_top() {
    let stack = vec![param("a", Type::Number), param("b", Type::Signature)];
    let table = build_symbol_table(&stack).unwrap_or_else(|_| panic!("build failed"));
    let a = table.get(&"a".to_string()).copied().expect("a declared");
    let b = table.get(&"b".to_string()).copied().expect("b declared");
    assert_eq!(a.consume_count, 0);
    assert_eq!(b.consume_count, 0);
    // The slot declared last is nearest the top of the stack.
    assert_eq!(b.stack_position, 0);
    assert_eq!(a.stack_position, 1);
    assert!(matches!(a.ty, Type::Number));
    assert!(matches!(b.ty, Type::Signature));
}

#[test]
fn duplicate_identifier_is_rejected_whatever_the_types() {
    let stack = vec![param("x", Type::Number), param("x", Type::Boolean)];
    match build_symbol_table(&stack) {
        Err(e) => match e.kind {
            ErrorKind::DuplicateVariable(name) => assert_eq!(name, "x"),
            _ => panic!("expected a duplicate-variable error"),
        },
        Ok(_) => panic!("duplicate identifiers must not build"),
    }
}

#[test]
fn undefined_variable_is_reported_by_name() {
    let stack = vec![param("a", Type::Number)];
    let mut table = build_symbol_table(&stack).unwrap_or_else(|_| panic!("build failed"));
    match check_variable(&var("ghost_item"), &mut table) {
        Err(e) => match e.kind {
            ErrorKind::UndefinedVariable(name) => assert_eq!(name, "ghost_item"),
            _ => panic!("expected an undefined-variable error"),
        },
        Ok(()) => panic!("an undeclared name must not check"),
    }
}

#[test]
fn second_use_of_a_variable_is_consumed() {
    let stack = vec![param("p", Type::String)];
    let mut table = build_symbol_table(&stack).unwrap_or_else(|_| panic!("build failed"));
    assert!(check_variable(&var("p"), &mut table).is_ok());
    assert_eq!(table.get(&"p".to_string()).copied().expect("p declared").consume_count, 1);
    match check_variable(&var("p"), &mut table) {
        Err(e) => match e.kind {
            ErrorKind::VariableConsumed(name) => assert_eq!(name, "p"),
            _ => panic!("expected a consumed-variable error"),
        },
        Ok(()) => panic!("a consumed name must not check again"),
    }
}

#[test]
fn multisig_consumes_two_variables_per_pair() {
    let stack = vec![
        param("s1", Type::Signature),
        param("k1", Type::String),
        param("s2", Type::Signature),
        param("k2", Type::String),
    ];
    let mut table = build_symbol_table(&stack).unwrap_or_else(|_| panic!("build failed"));
    let multi = Expression::CheckSigExpression {
        loc: loc(0),
        operand: Box::new(Factor::MultiSigFactor {
            loc: loc(0),
            m: 2,
            n: vec![
                Factor::SingleSigFactor {
                    loc: loc(0),
                    sig: Box::new(var("s1")),
                    pubkey: Box::new(var("k1")),
                },
                Factor::SingleSigFactor {
                    loc: loc(0),
                    sig: Box::new(var("s2")),
                    pubkey: Box::new(var("k2")),
                },
            ],
        }),
        op: CheckSigOp::CheckSig,
    };
    assert!(check_variable(&multi, &mut table).is_ok());
    for name in ["s1", "k1", "s2", "k2"] {
        let sym = table.get(&name.to_string()).copied().expect("declared");
        assert_eq!(sym.consume_count, 1, "{name} must be consumed exactly once");
    }
}

#[test]
fn multisig_reusing_a_pubkey_across_pairs_fails_consumed() {
    let stack = vec![
        param("s1", Type::Signature),
        param("k1", Type::String),
        param("s2", Type::Signature),
    ];
    let mut table = build_symbol_table(&stack).unwrap_or_else(|_| panic!("build failed"));
    let multi = Expression::CheckSigExpression {
        loc: loc(0),
        operand: Box::new(Factor::MultiSigFactor {
            loc: loc(0),
            m: 2,
            n: vec![
                Factor::SingleSigFactor {
                    loc: loc(0),
                    sig: Box::new(var("s1")),
                    pubkey: Box::new(var("k1")),
                },
                Factor::SingleSigFactor {
                    loc: loc(0),
                    sig: Box::new(var("s2")),
                    pubkey: Box::new(var("k1")),
                },
            ],
        }),
        op: CheckSigOp::CheckSig,
    };
    match check_variable(&multi, &mut table) {
        Err(e) => match e.kind {
            ErrorKind::VariableConsumed(name) => assert_eq!(name, "k1"),
            _ => panic!("expected a consumed-variable error"),
        },
        Ok(()) => panic!("a reused public key must not check"),
    }
}

#[test]
fn verify_then_one_terminal_expression_succeeds() {
    let input = vec![vec![param("s", Type::Signature), param("p", Type::String)]];
    let ast = vec![
        verify_stmt(checksig(var("s"), bithoven::ast::Expression::StringLiteral(
            loc(0),
            "03ab".to_string(),
        ))),
        expr_stmt(var("p")),
    ];
    let scopes = analyze(&ast, &input, &Target::Legacy).unwrap_or_else(|_| panic!("must pass"));
    assert_eq!(scopes.len(), 1);
    let s = scopes[0].symbol_table.get(&"s".to_string()).copied().expect("s declared");
    let p = scopes[0].symbol_table.get(&"p".to_string()).copied().expect("p declared");
    assert_eq!(s.consume_count, 1);
    assert_eq!(p.consume_count, 1);
    assert!(scopes[0].return_value);
}

#[test]
fn second_terminal_statement_is_multiple_return() {
    let input = vec![vec![param("s", Type::Signature), param("p", Type::String)]];
    let ast = vec![
        verify_stmt(checksig(var("s"), num(3))),
        expr_stmt(var("p")),
        expr_stmt(var("s")),
    ];
    match analyze(&ast, &input, &Target::Legacy) {
        Err(e) => assert!(matches!(e.kind, ErrorKind::MultipleReturn)),
        Ok(_) => panic!("two terminal statements must not pass"),
    }
}

#[test]
fn consumed_variable_in_terminal_position() {
    let input = vec![vec![param("p", Type::String)]];
    let ast = vec![verify_stmt(var("p")), expr_stmt(var("p"))];
    match analyze(&ast, &input, &Target::Legacy) {
        Err(e) => match e.kind {
            ErrorKind::VariableConsumed(name) => assert_eq!(name, "p"),
            _ => panic!("expected a consumed-variable error"),
        },
        Ok(_) => panic!("a doubly used variable must not pass"),
    }
}

#[test]
fn script_ending_in_verify_fails_shape() {
    let input = vec![vec![param("p", Type::String)]];
    let ast = vec![expr_stmt(var("p")), verify_stmt(boolean(true))];
    match analyze(&ast, &input, &Target::Legacy) {
        Err(e) => assert!(matches!(e.kind, ErrorKind::UnreachableCode)),
        Ok(_) => panic!("a script ending in verify must not pass"),
    }
}

#[test]
fn script_ending_in_locktime_fails_shape() {
    let input = vec![vec![param("p", Type::String)]];
    let ast = vec![
        expr_stmt(var("p")),
        Statement::LocktimeStatement { loc: loc(9), operand: 500_000, op: LocktimeOp::Cltv },
    ];
    match analyze(&ast, &input, &Target::Legacy) {
        Err(e) => assert!(matches!(e.kind, ErrorKind::UnreachableCode)),
        Ok(_) => panic!("a script ending in a locktime must not pass"),
    }
}

#[test]
fn locktime_before_the_terminal_expression_is_fine() {
    let input = vec![vec![param("p", Type::String)]];
    let ast = vec![
        Statement::LocktimeStatement { loc: loc(0), operand: 144, op: LocktimeOp::Csv },
        expr_stmt(var("p")),
    ];
    assert!(analyze(&ast, &input, &Target::Legacy).is_ok());
}

#[test]
fn statement_after_a_branch_is_unreachable() {
    let input = vec![vec![param("c", Type::Boolean), param("p", Type::String)]];
    for trailing in [
        expr_stmt(num(1)),
        verify_stmt(boolean(true)),
        Statement::LocktimeStatement { loc: loc(7), operand: 1, op: LocktimeOp::Cltv },
    ] {
        let ast = vec![
            Statement::IfStatement {
                loc: loc(0),
                condition_expr: var("c"),
                if_block: vec![expr_stmt(var("p"))],
                else_block: None,
            },
            trailing,
        ];
        match analyze(&ast, &input, &Target::Legacy) {
            Err(e) => assert!(matches!(e.kind, ErrorKind::UnreachableCode)),
            Ok(_) => panic!("code after an if must not pass"),
        }
    }
}

#[test]
fn branches_use_their_own_declared_stacks() {
    let input = vec![vec![param("a", Type::Number)], vec![param("b", Type::Signature)]];
    // Referencing `b` inside the `if` block: the block runs in branch 0,
    // whose stack declares only `a`.
    let ast = vec![Statement::IfStatement {
        loc: loc(0),
        condition_expr: Expression::CompareExpression {
            loc: loc(0),
            lhs: Box::new(var("a")),
            op: BinaryCompareOp::Greater,
            rhs: Box::new(num(1)),
        },
        if_block: vec![expr_stmt(var("b"))],
        else_block: Some(vec![expr_stmt(num(0))]),
    }];
    match analyze(&ast, &input, &Target::Legacy) {
        Err(e) => match e.kind {
            ErrorKind::UndefinedVariable(name) => assert_eq!(name, "b"),
            _ => panic!("expected an undefined-variable error"),
        },
        Ok(_) => panic!("branch 0 must not see branch 1's stack"),
    }

    // Referencing `a` inside the `else` block: the block runs in branch 1,
    // whose stack declares only `b`.
    let ast2 = vec![Statement::IfStatement {
        loc: loc(0),
        condition_expr: boolean(true),
        if_block: vec![expr_stmt(var("a"))],
        else_block: Some(vec![expr_stmt(var("a"))]),
    }];
    match analyze(&ast2, &input, &Target::Legacy) {
        Err(e) => match e.kind {
            ErrorKind::UndefinedVariable(name) => assert_eq!(name, "a"),
            _ => panic!("expected an undefined-variable error"),
        },
        Ok(_) => panic!("branch 1 must not see branch 0's stack"),
    }
}

#[test]
fn consuming_in_one_branch_leaves_the_other_untouched() {
    let input = vec![vec![param("x", Type::Number)], vec![param("x", Type::Number)]];
    let ast = vec![Statement::IfStatement {
        loc: loc(0),
        condition_expr: boolean(true),
        if_block: vec![expr_stmt(var("x"))],
        else_block: Some(vec![expr_stmt(var("x"))]),
    }];
    let scopes = analyze(&ast, &input, &Target::Legacy).unwrap_or_else(|_| panic!("must pass"));
    assert_eq!(scopes.len(), 2);
    assert_eq!(scopes[0].symbol_table.get(&"x".to_string()).copied().unwrap().consume_count, 1);
    assert_eq!(scopes[1].symbol_table.get(&"x".to_string()).copied().unwrap().consume_count, 1);
}

#[test]
fn empty_if_block_leaves_its_branch_unreturned() {
    let input: Vec<Vec<StackParam>> = vec![vec![], vec![]];
    let ast = vec![Statement::IfStatement {
        loc: loc(0),
        condition_expr: boolean(true),
        if_block: vec![],
        else_block: Some(vec![expr_stmt(num(1))]),
    }];
    match analyze(&ast, &input, &Target::Legacy) {
        Err(e) => assert!(matches!(e.kind, ErrorKind::NoReturn)),
        Ok(_) => panic!("a later branch must wait for the earlier one to return"),
    }
}
