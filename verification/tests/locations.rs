use bithoven::ast::Expression;
use bithoven::ast::Identifier;
use bithoven::ast::Location;
use bithoven::ast::Statement;
use bithoven::source::build_line_index;
use bithoven::source::get_line_and_column;
use bithoven::source::set_stmt_location;

#[test]
fn line_index_marks_the_start_of_each_line() {
    let source = b"ab\ncd\n\nef".to_vec();
    let index = build_line_index(&source);
    assert_eq!(index, vec![0, 3, 6, 7]);
}

#[test]
fn offsets_resolve_to_one_based_lines_and_columns() {
    let source = b"ab\ncd\n\nef".to_vec();
    let index = build_line_index(&source);
    assert_eq!(get_line_and_column(&index, 0), (1, 1));
    assert_eq!(get_line_and_column(&index, 1), (1, 2));
    assert_eq!(get_line_and_column(&index, 3), (2, 1));
    assert_eq!(get_line_and_column(&index, 4), (2, 2));
    assert_eq!(get_line_and_column(&index, 7), (4, 1));
    assert_eq!(get_line_and_column(&index, 8), (4, 2));
}

#[test]
fn statement_locations_are_back_filled_recursively() {
    let source = b"if c\n  x\nelse\n  y\n".to_vec();
    let index = build_line_index(&source);
    let var = |start: usize, name: &str| {
        Expression::Variable(
            Location { start, end: start + 1, line: 0, column: 0 },
            Identifier(name.to_string()),
        )
    };
    let mut ast = vec![Statement::IfStatement {
        loc: Location { start: 0, end: 17, line: 0, column: 0 },
        condition_expr: var(3, "c"),
        if_block: vec![Statement::ExpressionStatement(
            Location { start: 7, end: 8, line: 0, column: 0 },
            var(7, "x"),
        )],
        else_block: Some(vec![Statement::ExpressionStatement(
            Location { start: 16, end: 17, line: 0, column: 0 },
            var(16, "y"),
        )]),
    }];
    set_stmt_location(&mut ast, &index);
    match &ast[0] {
        Statement::IfStatement { loc, if_block, else_block, .. } => {
            assert_eq!((loc.line, loc.column), (1, 1));
            match &if_block[0] {
                Statement::ExpressionStatement(l, _) => {
                    assert_eq!((l.line, l.column), (2, 3));
                }
                _ => panic!("unexpected statement"),
            }
            match &else_block.as_ref().unwrap()[0] {
                Statement::ExpressionStatement(l, _) => {
                    assert_eq!((l.line, l.column), (4, 3));
                }
                _ => panic!("unexpected statement"),
            }
        }
        _ => panic!("unexpected statement"),
    }
}
