use vstd::prelude::*;

use crate::common::DbError;
use crate::tuple::Value;

verus! {

/// Operators of binary expressions.
#[derive(Clone, Copy, Debug, PartialEq, Eq, Structural)]
pub enum BinaryOperator {
    Eq,
    NotEq,
    Less,
    LessEq,
    Greater,
    GreaterEq,
    Plus,
    Minus,
    Multiply,
    Divide,
    Modulo,
    And,
    Or,
}

/// An expression over the values of one row.
#[derive(Debug)]
pub enum Expr {
    /// a literal value
    Constant(Value),
    /// the value of the row's column with this index
    Column(usize),
    /// an operator applied to two expressions
    Binary(Box<Expr>, BinaryOperator, Box<Expr>),
}

/// Quotient rounded toward zero.
pub open spec fn trunc_div(x: int, d: int) -> int {
    if x >= 0 && d > 0 {
        x / d
    } else if x < 0 && d < 0 {
        (-x) / (-d)
    } else if x < 0 {
        -((-x) / d)
    } else {
        -(x / (-d))
    }
}

/// Remainder with the sign of the dividend.
pub open spec fn trunc_rem(x: int, d: int) -> int {
    x - d * trunc_div(x, d)
}

pub open spec fn int_result(v: int) -> Result<Value, DbError> {
    if i32::MIN <= v <= i32::MAX {
        Ok(Value::Integer(v as i32))
    } else {
        Err(DbError::IntegerOverflow)
    }
}

pub open spec fn compare_ints(op: BinaryOperator, x: int, y: int) -> bool {
    match op {
        BinaryOperator::Eq => x == y,
        BinaryOperator::NotEq => x != y,
        BinaryOperator::Less => x < y,
        BinaryOperator::LessEq => x <= y,
        BinaryOperator::Greater => x > y,
        _ => x >= y,
    }
}

pub open spec fn is_comparison(op: BinaryOperator) -> bool {
    op == BinaryOperator::Eq || op == BinaryOperator::NotEq || op == BinaryOperator::Less || op
        == BinaryOperator::LessEq || op == BinaryOperator::Greater || op
        == BinaryOperator::GreaterEq
}

pub open spec fn is_arithmetic(op: BinaryOperator) -> bool {
    op == BinaryOperator::Plus || op == BinaryOperator::Minus || op == BinaryOperator::Multiply
        || op == BinaryOperator::Divide || op == BinaryOperator::Modulo
}

/// A value as a truth value: `Some(None)` for NULL, `None` if it is no boolean.
pub open spec fn truth(v: Value) -> Option<Option<bool>> {
    match v {
        Value::Null => Some(None),
        Value::Boolean(b) => Some(Some(b)),
        _ => None,
    }
}

/// The value of `a op b`. NULL in a comparison or arithmetic gives NULL; `AND`
/// and `OR` follow three-valued logic; integer results that do not fit and
/// division by zero are errors.
pub open spec fn eval_binary(a: Value, op: BinaryOperator, b: Value) -> Result<Value, DbError> {
    if op == BinaryOperator::And || op == BinaryOperator::Or {
        match (truth(a), truth(b)) {
            (Some(x), Some(y)) => {
                let dominant = op == BinaryOperator::Or;
                if x == Some(dominant) || y == Some(dominant) {
                    Ok(Value::Boolean(dominant))
                } else if x is None || y is None {
                    Ok(Value::Null)
                } else {
                    Ok(Value::Boolean(!dominant))
                }
            },
            _ => Err(DbError::TypeMismatch),
        }
    } else if a is Null || b is Null {
        Ok(Value::Null)
    } else if is_comparison(op) {
        match (a, b) {
            (Value::Integer(x), Value::Integer(y)) => Ok(
                Value::Boolean(compare_ints(op, x as int, y as int)),
            ),
            (Value::Boolean(x), Value::Boolean(y)) => Ok(
                Value::Boolean(
                    compare_ints(op, if x { 1 } else { 0 }, if y { 1 } else { 0 }),
                ),
            ),
            (Value::String(x), Value::String(y)) => if op == BinaryOperator::Eq {
                Ok(Value::Boolean(x@ == y@))
            } else if op == BinaryOperator::NotEq {
                Ok(Value::Boolean(x@ != y@))
            } else {
                Err(DbError::TypeMismatch)
            },
            _ => Err(DbError::TypeMismatch),
        }
    } else {
        match (a, b) {
            (Value::Integer(x), Value::Integer(y)) => {
                let (x, y) = (x as int, y as int);
                match op {
                    BinaryOperator::Plus => int_result(x + y),
                    BinaryOperator::Minus => int_result(x - y),
                    BinaryOperator::Multiply => int_result(x * y),
                    BinaryOperator::Divide => if y == 0 {
                        Err(DbError::DivisionByZero)
                    } else {
                        int_result(trunc_div(x, y))
                    },
                    _ => if y == 0 {
                        Err(DbError::DivisionByZero)
                    } else if x == i32::MIN && y == -1 {
                        Err(DbError::IntegerOverflow)
                    } else {
                        int_result(trunc_rem(x, y))
                    },
                }
            },
            _ => Err(DbError::TypeMismatch),
        }
    }
}

/// The value of `e` on a row.
pub open spec fn eval(e: Expr, row: Seq<Value>) -> Result<Value, DbError>
    decreases e,
{
    match e {
        Expr::Constant(v) => Ok(v),
        Expr::Column(i) => if i < row.len() {
            Ok(row[i as int])
        } else {
            Err(DbError::NoSuchColumn)
        },
        Expr::Binary(l, op, r) => match eval(*l, row) {
            Err(x) => Err(x),
            Ok(a) => match eval(*r, row) {
                Err(x) => Err(x),
                Ok(b) => eval_binary(a, op, b),
            },
        },
    }
}

fn truth_of(v: &Value) -> (r: Option<Option<bool>>)
    ensures
        r == truth(*v),
{
    match v {
        Value::Null => Some(None),
        Value::Boolean(b) => Some(Some(*b)),
        _ => None,
    }
}

fn compare(op: BinaryOperator, x: i32, y: i32) -> (r: bool)
    ensures
        is_comparison(op) ==> r == compare_ints(op, x as int, y as int),
{
    match op {
        BinaryOperator::Eq => x == y,
        BinaryOperator::NotEq => x != y,
        BinaryOperator::Less => x < y,
        BinaryOperator::LessEq => x <= y,
        BinaryOperator::Greater => x > y,
        _ => x >= y,
    }
}

fn arithmetic(op: BinaryOperator, x: i32, y: i32) -> (r: Result<Value, DbError>)
    requires
        is_arithmetic(op),
    ensures
        r == eval_binary(Value::Integer(x), op, Value::Integer(y)),
{
    let out = match op {
        BinaryOperator::Plus => x.checked_add(y),
        BinaryOperator::Minus => x.checked_sub(y),
        BinaryOperator::Multiply => x.checked_mul(y),
        BinaryOperator::Divide => {
            if y == 0 {
                return Err(DbError::DivisionByZero);
            }
            x.checked_div(y)
        },
        _ => {
            if y == 0 {
                return Err(DbError::DivisionByZero);
            }
            if x == i32::MIN && y == -1 {
                return Err(DbError::IntegerOverflow);
            }
            x.checked_rem(y)
        },
    };
    proof {
        let (a, b) = (x as int, y as int);
        if op == BinaryOperator::Modulo && b != 0 {
            assert(trunc_rem(a, b) == if a == 0 {
                0
            } else if a > 0 && b > 0 {
                a % b
            } else if a < 0 && b < 0 {
                ((a * -1) % (b * -1)) * -1
            } else if a < 0 {
                ((a * -1) % b) * -1
            } else {
                a % (b * -1)
            }) by (nonlinear_arith)
                requires
                    b != 0,
                    trunc_rem(a, b) == a - b * trunc_div(a, b),
                    trunc_div(a, b) == if a >= 0 && b > 0 {
                        a / b
                    } else if a < 0 && b < 0 {
                        (-a) / (-b)
                    } else if a < 0 {
                        -((-a) / b)
                    } else {
                        -(a / (-b))
                    },
            ;
        }
    }
    match out {
        Some(v) => Ok(Value::Integer(v)),
        None => Err(DbError::IntegerOverflow),
    }
}

/// The value of `a op b`.
pub fn evaluate_binary(a: &Value, op: BinaryOperator, b: &Value) -> (r: Result<Value, DbError>)
    ensures
        r == eval_binary(*a, op, *b),
{
    match op {
        BinaryOperator::And | BinaryOperator::Or => {
            let dominant = match op {
                BinaryOperator::Or => true,
                _ => false,
            };
            match (truth_of(a), truth_of(b)) {
                (Some(x), Some(y)) => {
                    let x_dom = match x {
                        Some(v) => v == dominant,
                        None => false,
                    };
                    let y_dom = match y {
                        Some(v) => v == dominant,
                        None => false,
                    };
                    let x_null = match x {
                        None => true,
                        Some(_) => false,
                    };
                    let y_null = match y {
                        None => true,
                        Some(_) => false,
                    };
                    if x_dom || y_dom {
                        Ok(Value::Boolean(dominant))
                    } else if x_null || y_null {
                        Ok(Value::Null)
                    } else {
                        Ok(Value::Boolean(!dominant))
                    }
                },
                _ => Err(DbError::TypeMismatch),
            }
        },
        _ => {
            if a.is_null() || b.is_null() {
                return Ok(Value::Null);
            }
            match op {
                BinaryOperator::Plus | BinaryOperator::Minus | BinaryOperator::Multiply
                | BinaryOperator::Divide | BinaryOperator::Modulo => match (a, b) {
                    (Value::Integer(x), Value::Integer(y)) => arithmetic(op, *x, *y),
                    _ => Err(DbError::TypeMismatch),
                },
                _ => match (a, b) {
                    (Value::Integer(x), Value::Integer(y)) => Ok(Value::Boolean(compare(op, *x, *y))),
                    (Value::Boolean(x), Value::Boolean(y)) => Ok(
                        Value::Boolean(
                            compare(op, if *x { 1 } else { 0 }, if *y { 1 } else { 0 }),
                        ),
                    ),
                    (Value::String(x), Value::String(y)) => {
                        let same = x.eq(y);
                        assert(same == (x@ == y@));
                        match op {
                            BinaryOperator::Eq => Ok(Value::Boolean(same)),
                            BinaryOperator::NotEq => Ok(Value::Boolean(!same)),
                            _ => Err(DbError::TypeMismatch),
                        }
                    },
                    _ => Err(DbError::TypeMismatch),
                },
            }
        },
    }
}

impl Expr {
    /// The value of this expression on `row`.
    pub fn evaluate(&self, row: &Vec<Value>) -> (r: Result<Value, DbError>)
        ensures
            r == eval(*self, row@),
        decreases self,
    {
        match self {
            Expr::Constant(v) => Ok(v.clone()),
            Expr::Column(i) => {
                if *i < row.len() {
                    Ok(row[*i].clone())
                } else {
                    Err(DbError::NoSuchColumn)
                }
            },
            Expr::Binary(l, op, r) => {
                let a = l.evaluate(row)?;
                let b = r.evaluate(row)?;
                evaluate_binary(&a, *op, &b)
            },
        }
    }
}

} // verus!
