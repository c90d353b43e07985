use erdb::common::DbError;
use erdb::executor::{project, trim_newline, Executor, ProjectionExecutor, ValuesExecutor};
use erdb::expr::{BinaryOperator, Expr};
use erdb::tuple::{Schema, Tuple, Value};

fn select(left: Value, op: BinaryOperator, right: Value) -> Option<Result<Tuple, DbError>> {
    let child = ValuesExecutor::new(vec![Tuple::new(Vec::new())], Schema::new(Vec::new()));
    let expr = Expr::Binary(Box::new(Expr::Constant(left)), op, Box::new(Expr::Constant(right)));
    let mut executor = ProjectionExecutor::new(child, vec![expr], Schema::new(Vec::new()));
    let first = executor.next();
    assert!(executor.next().is_none());
    first
}

fn execute_query_expect_single_tuple(left: Value, op: BinaryOperator, right: Value, expected: Value) {
    let tuple = select(left, op, right).unwrap().unwrap();
    let values = tuple.values();
    assert_eq!(values.len(), 1);
    assert_eq!(values[0], expected, "when evaluating {:?}", op);
}

#[test]
fn can_execute_comparison_expressions() {
    let arg_op_expected_result = [
        (Value::Integer(42), BinaryOperator::Eq, Value::Boolean(true)),
        (Value::Integer(42), BinaryOperator::NotEq, Value::Boolean(false)),
        (Value::Integer(42), BinaryOperator::Less, Value::Boolean(false)),
        (Value::Integer(42), BinaryOperator::LessEq, Value::Boolean(true)),
        (Value::Integer(42), BinaryOperator::Greater, Value::Boolean(false)),
        (Value::Integer(42), BinaryOperator::GreaterEq, Value::Boolean(true)),
        (Value::Null, BinaryOperator::Eq, Value::Null),
        (Value::Integer(21), BinaryOperator::Less, Value::Boolean(true)),
    ];

    for (arg, op, expected) in arg_op_expected_result {
        execute_query_expect_single_tuple(arg, op, Value::Integer(42), expected);
    }
}

#[test]
fn can_execute_arithmetic_expressions() {
    let left_op_right_result = vec![
        (Value::Integer(1), BinaryOperator::Plus, Value::Integer(2), Value::Integer(3)),
        (Value::Integer(21), BinaryOperator::Multiply, Value::Integer(2), Value::Integer(42)),
        (Value::Integer(42), BinaryOperator::Divide, Value::Integer(2), Value::Integer(21)),
        (Value::Integer(17), BinaryOperator::Minus, Value::Integer(21), Value::Integer(-4)),
        (Value::Integer(3), BinaryOperator::Modulo, Value::Integer(2), Value::Integer(1)),
        (Value::Integer(4), BinaryOperator::Modulo, Value::Integer(2), Value::Integer(0)),
    ];

    for (left, op, right, expected) in left_op_right_result {
        execute_query_expect_single_tuple(left, op, right, expected);
    }
}

#[test]
fn can_execute_or_and_expressions() {
    let left_op_right_result = vec![
        (Value::Boolean(true), BinaryOperator::And, Value::Boolean(true), Value::Boolean(true)),
        (Value::Boolean(false), BinaryOperator::And, Value::Boolean(true), Value::Boolean(false)),
        (Value::Boolean(false), BinaryOperator::Or, Value::Boolean(true), Value::Boolean(true)),
        (Value::Boolean(false), BinaryOperator::Or, Value::Boolean(false), Value::Boolean(false)),
        (Value::Boolean(false), BinaryOperator::Or, Value::Null, Value::Null),
    ];

    for (left, op, right, expected) in left_op_right_result {
        execute_query_expect_single_tuple(left, op, right, expected);
    }
}

#[test]
fn three_valued_logic_and_errors() {
    execute_query_expect_single_tuple(Value::Null, BinaryOperator::And, Value::Boolean(false), Value::Boolean(false));
    execute_query_expect_single_tuple(Value::Null, BinaryOperator::Or, Value::Boolean(true), Value::Boolean(true));
    execute_query_expect_single_tuple(Value::Null, BinaryOperator::And, Value::Boolean(true), Value::Null);
    execute_query_expect_single_tuple(Value::Integer(-7), BinaryOperator::Divide, Value::Integer(2), Value::Integer(-3));
    execute_query_expect_single_tuple(Value::Integer(-7), BinaryOperator::Modulo, Value::Integer(2), Value::Integer(-1));
    execute_query_expect_single_tuple(
        Value::String("ab".to_owned()),
        BinaryOperator::Eq,
        Value::String("ab".to_owned()),
        Value::Boolean(true),
    );
    assert_eq!(
        select(Value::Integer(1), BinaryOperator::Divide, Value::Integer(0)).unwrap().err(),
        Some(DbError::DivisionByZero)
    );
    assert_eq!(
        select(Value::Integer(1), BinaryOperator::Modulo, Value::Integer(0)).unwrap().err(),
        Some(DbError::DivisionByZero)
    );
    assert_eq!(
        select(Value::Integer(i32::MAX), BinaryOperator::Plus, Value::Integer(1)).unwrap().err(),
        Some(DbError::IntegerOverflow)
    );
    assert_eq!(
        select(Value::Integer(i32::MIN), BinaryOperator::Divide, Value::Integer(-1)).unwrap().err(),
        Some(DbError::IntegerOverflow)
    );
    assert_eq!(
        select(Value::Integer(1), BinaryOperator::And, Value::Boolean(true)).unwrap().err(),
        Some(DbError::TypeMismatch)
    );
}

#[test]
fn projection_reads_columns_of_the_row() {
    let row = Tuple::new(vec![Value::Integer(5), Value::Integer(7)]);
    let exprs = vec![
        Expr::Column(1),
        Expr::Binary(Box::new(Expr::Column(0)), BinaryOperator::Multiply, Box::new(Expr::Column(1))),
    ];
    let out = project(&exprs, &row).unwrap();
    assert_eq!(out.values, vec![Value::Integer(7), Value::Integer(35)]);
    let bad = vec![Expr::Column(2)];
    assert_eq!(project(&bad, &row).err(), Some(DbError::NoSuchColumn));
}

#[test]
fn rewinding_starts_over() {
    let child = ValuesExecutor::new(vec![Tuple::new(vec![Value::Integer(1)])], Schema::new(Vec::new()));
    let mut executor = ProjectionExecutor::new(child, vec![Expr::Column(0)], Schema::new(Vec::new()));
    assert!(executor.next().is_some());
    assert!(executor.next().is_none());
    executor.rewind().unwrap();
    assert!(executor.next().is_some());
    assert_eq!(executor.schema().columns().len(), 0);
}

#[test]
fn trim_newline_removes_one_line_break() {
    let mut a = "select 1\r\n".to_owned();
    trim_newline(&mut a);
    assert_eq!(a, "select 1");
    let mut b = ".tables\n".to_owned();
    trim_newline(&mut b);
    assert_eq!(b, ".tables");
    let mut c = "no break".to_owned();
    trim_newline(&mut c);
    assert_eq!(c, "no break");
    let mut d = "two\n\n".to_owned();
    trim_newline(&mut d);
    assert_eq!(d, "two\n");
}
