use ldscript::clear_state;
use ldscript::evaluate_expression;
use ldscript::expression;
use ldscript::AssignOperator;
use ldscript::BinaryOperator;
use ldscript::EvalError;
use ldscript::Expression;
use ldscript::ParseState;
use ldscript::Region;
use ldscript::RootItem;
use ldscript::Statement;

#[test]
fn test_evaluate_expression() {
    let state = ParseState { items: Vec::new() };
    assert_eq!(evaluate_expression(&state, Expression::Number(42)), Ok(42));

    assert_eq!(
        evaluate_expression(
            &state,
            Expression::BinaryOp {
                left: Box::new(Expression::Number(42)),
                operator: BinaryOperator::Plus,
                right: Box::new(Expression::Number(42)),
            }
        ),
        Ok(84)
    );
    assert_eq!(
        evaluate_expression(
            &state,
            Expression::BinaryOp {
                left: Box::new(Expression::Number(42)),
                operator: BinaryOperator::Minus,
                right: Box::new(Expression::Number(42)),
            }
        ),
        Ok(0)
    );
    assert_eq!(
        evaluate_expression(
            &state,
            Expression::BinaryOp {
                left: Box::new(Expression::Number(42)),
                operator: BinaryOperator::Multiply,
                right: Box::new(Expression::Number(42)),
            }
        ),
        Ok(1764)
    );
    assert_eq!(
        evaluate_expression(
            &state,
            Expression::BinaryOp {
                left: Box::new(Expression::Number(42)),
                operator: BinaryOperator::Divide,
                right: Box::new(Expression::Number(42)),
            }
        ),
        Ok(1)
    );
}

fn expr_result(state: &ParseState, input: &str, expected: u64) {
    let (e, np) = expression(input, 0).expect("expression should parse");
    assert_eq!(np, input.len());
    assert_eq!(evaluate_expression(state, e), Ok(expected));
}

#[test]
fn test_parsed_expressions() {
    let mut state = ParseState { items: Vec::new() };
    expr_result(&state, "42 - (20 + 21)", 1);
    expr_result(&state, "42 - (4 * 8)", 10);
    expr_result(&state, "42", 42);
    expr_result(&state, "42 + 42", 84);
    expr_result(&state, "42 - 42", 0);
    expr_result(&state, "42 * 42", 1764);
    expr_result(&state, "42 / 42", 1);
    expr_result(&state, "0x2000000 + (4k * 4)", 0x2000000 + (4 * 1024 * 4));

    clear_state(&mut state);
    state.items.push(RootItem::Statement(Statement::Assign {
        name: "A".into(),
        operator: AssignOperator::Equals,
        expression: Box::new(Expression::Number(11)),
    }));
    expr_result(&state, "A * 2", 22);
    state.items.push(RootItem::Statement(Statement::Assign {
        name: "B".into(),
        operator: AssignOperator::Equals,
        expression: Box::new(Expression::BinaryOp {
            left: Box::new(Expression::Number(2)),
            operator: BinaryOperator::Plus,
            right: Box::new(Expression::Number(4)),
        }),
    }));
    expr_result(&state, "A * B", 66);
    state.items.push(RootItem::Memory {
        regions: vec![Region {
            name: String::from("AA"),
            origin: 66,
            length: 12,
        }],
    });
    expr_result(&state, "ORIGIN(AA)", 66);
    expr_result(&state, "LENGTH(AA)", 12);
}

#[test]
fn number_forms() {
    let state = ParseState { items: Vec::new() };
    expr_result(&state, "4k", 4096);
    expr_result(&state, "4K", 4096);
    expr_result(&state, "2m", 2097152);
    expr_result(&state, "2M", 2097152);
    expr_result(&state, "0x10", 16);
    expr_result(&state, "0xff", 255);
    expr_result(&state, "0", 0);
}

#[test]
fn arithmetic_wraps() {
    let state = ParseState { items: Vec::new() };
    expr_result(&state, "0 - 1", u64::MAX);
    expr_result(&state, "0xffffffffffffffff + 2", 1);
}

#[test]
fn division_by_zero_yields_zero() {
    let state = ParseState { items: Vec::new() };
    expr_result(&state, "5 / 0", 0);
    expr_result(&state, "5 / (2 - 2)", 0);
}

#[test]
fn unknown_variable_is_an_error() {
    let state = ParseState { items: Vec::new() };
    let (e, _) = expression("Z", 0).unwrap();
    assert_eq!(
        evaluate_expression(&state, e),
        Err(EvalError::VariableNotFound("Z".to_string()))
    );
}

#[test]
fn unknown_function_is_an_error() {
    let state = ParseState { items: Vec::new() };
    let (e, _) = expression("FOO(x)", 0).unwrap();
    assert_eq!(
        evaluate_expression(&state, e),
        Err(EvalError::UnknownFunction("FOO".to_string()))
    );
}

#[test]
fn builtin_arity_and_shape_are_checked() {
    let state = ParseState { items: Vec::new() };
    let (e, _) = expression("ORIGIN(a, b)", 0).unwrap();
    assert_eq!(
        evaluate_expression(&state, e),
        Err(EvalError::WrongArgumentCount("ORIGIN".to_string()))
    );
    let (e, _) = expression("LENGTH(1 + 2)", 0).unwrap();
    assert_eq!(
        evaluate_expression(&state, e),
        Err(EvalError::BadArgument("LENGTH".to_string()))
    );
}

#[test]
fn cyclic_bindings_are_detected() {
    let items = ldscript::parse("A = A;").unwrap();
    let state = ParseState { items };
    let (e, _) = expression("A", 0).unwrap();
    assert_eq!(
        evaluate_expression(&state, e),
        Err(EvalError::CycleDetected("A".to_string()))
    );
}

#[test]
fn first_assignment_wins() {
    let items = ldscript::parse("A = 1;\nA = 2;").unwrap();
    let state = ParseState { items };
    let (e, _) = expression("A", 0).unwrap();
    assert_eq!(evaluate_expression(&state, e), Ok(1));
}
