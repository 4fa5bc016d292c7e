use rq::array::{Array, ArrayRef};
use rq::batch::{Field, RecordBatch, Schema};
use rq::error::Error;
use rq::expr::{BinaryExpr, Column, Expr, Operator};
use rq::scalar::{LogicalType, ScalarValue};
use std::rc::Rc;

fn int64_batch(name: &str, values: Vec<i64>) -> RecordBatch {
    let col: ArrayRef = Rc::new(Array::new_int64(values));
    let schema = Schema::new(vec![Field::new(name.to_string(), LogicalType::Int64)]);
    RecordBatch::new(schema, vec![col]).unwrap()
}

fn two_int64_batch(a: Vec<i64>, b: Vec<i64>) -> RecordBatch {
    let ca: ArrayRef = Rc::new(Array::new_int64(a));
    let cb: ArrayRef = Rc::new(Array::new_int64(b));
    let schema = Schema::new(vec![
        Field::new("a".to_string(), LogicalType::Int64),
        Field::new("b".to_string(), LogicalType::Int64),
    ]);
    RecordBatch::new(schema, vec![ca, cb]).unwrap()
}

#[test]
fn test_column_expr_evaluate() {
    let input = int64_batch("id", vec![1, 2, 3, 4, 5]);
    let expr = Column::new(0);
    assert!(expr.evaluate(&input).is_ok());
    assert!(expr.evaluate(&input).unwrap().get_value(0).unwrap() == ScalarValue::Int64(1));
}

#[test]
fn test_column_expr_to_string() {
    let expr = Column::new(0);
    assert_eq!(expr.to_string(), "#0");
}

#[test]
fn test_scalar_value_expr_evaluate() {
    let input = int64_batch("id", vec![1]);
    let expr = ScalarValue::Int64(1);
    assert!(expr.evaluate(&input).is_ok());
    assert!(expr.evaluate(&input).unwrap().get_value(0).unwrap() == ScalarValue::Int64(1));
}

#[test]
fn test_scalar_value_expr_to_string() {
    let expr = ScalarValue::Int64(1);
    assert_eq!(expr.to_string().unwrap(), "1");
}

#[test]
fn column_evaluate_keeps_values_and_type() {
    let input = int64_batch("id", vec![1, 2, 3, 4, 5]);
    let out = Column::new(0).evaluate(&input).unwrap();
    assert_eq!(out.size(), 5);
    assert_eq!(out.get_type(), LogicalType::Int64);
    for i in 0..5 {
        assert_eq!(out.get_value(i).unwrap(), ScalarValue::Int64(i as i64 + 1));
    }
}

#[test]
fn column_out_of_range_fails() {
    let input = int64_batch("id", vec![1, 2]);
    assert!(matches!(
        Column::new(3).evaluate(&input),
        Err(Error::ColumnIndexOutOfRange)
    ));
}

#[test]
fn literal_broadcasts_over_row_count() {
    let input = int64_batch("id", vec![1, 2, 3, 4, 5]);
    let out = ScalarValue::Int64(1).evaluate(&input).unwrap();
    assert_eq!(out.size(), 5);
    for i in 0..5 {
        assert_eq!(out.get_value(i).unwrap(), ScalarValue::Int64(1));
    }
    let text = ScalarValue::Utf8("x".to_string()).evaluate(&input).unwrap();
    assert_eq!(text.size(), 5);
    assert_eq!(text.get_type(), LogicalType::Utf8);
    assert_eq!(
        text.get_value(4).unwrap(),
        ScalarValue::Utf8("x".to_string())
    );
}

#[test]
fn binary_add_sums_two_columns() {
    let input = two_int64_batch(vec![1, 2, 3], vec![10, 20, 30]);
    let expr = Expr::BinaryExpr(BinaryExpr {
        op: Operator::Add,
        left: Box::new(Expr::Column(Column::new(0))),
        right: Box::new(Expr::Column(Column::new(1))),
    });
    let out = expr.evaluate(&input).unwrap();
    assert_eq!(out.size(), 3);
    assert_eq!(out.get_type(), LogicalType::Int64);
    assert_eq!(out.get_value(0).unwrap(), ScalarValue::Int64(11));
    assert_eq!(out.get_value(1).unwrap(), ScalarValue::Int64(22));
    assert_eq!(out.get_value(2).unwrap(), ScalarValue::Int64(33));
}

#[test]
fn binary_add_rejects_differing_types() {
    let input = int64_batch("id", vec![1, 2, 3]);
    let expr = Expr::BinaryExpr(BinaryExpr {
        op: Operator::Add,
        left: Box::new(Expr::Column(Column::new(0))),
        right: Box::new(Expr::Literal(ScalarValue::Utf8("x".to_string()))),
    });
    assert!(matches!(expr.evaluate(&input), Err(Error::TypeMismatch)));
}

#[test]
fn unimplemented_operator_fails_fast() {
    let input = two_int64_batch(vec![1], vec![2]);
    let expr = Expr::BinaryExpr(BinaryExpr {
        op: Operator::Subtract,
        left: Box::new(Expr::Column(Column::new(0))),
        right: Box::new(Expr::Column(Column::new(1))),
    });
    assert!(matches!(expr.evaluate(&input), Err(Error::NotImplemented)));
    assert!(matches!(expr.to_string(), Err(Error::NotImplemented)));
}

#[test]
fn float_addition_is_an_unimplemented_path() {
    let bits = 1.5f32.to_bits();
    let col: ArrayRef = Rc::new(Array::new_float32_bits(vec![bits, bits]));
    let schema = Schema::new(vec![Field::new("f".to_string(), LogicalType::Float32)]);
    let input = RecordBatch::new(schema, vec![col]).unwrap();
    let expr = Expr::BinaryExpr(BinaryExpr {
        op: Operator::Add,
        left: Box::new(Expr::Column(Column::new(0))),
        right: Box::new(Expr::Column(Column::new(0))),
    });
    assert!(matches!(expr.evaluate(&input), Err(Error::NotImplemented)));
    assert_eq!(
        input.field(0).get_value(1).unwrap(),
        ScalarValue::Float32Bits(bits)
    );
}

#[test]
fn expr_to_string_forms() {
    assert_eq!(Column::new(2).to_string(), "#2");
    assert_eq!(ScalarValue::Int64(7).to_string().unwrap(), "7");
    assert_eq!(
        ScalarValue::Utf8("x".to_string()).to_string().unwrap(),
        "'x'"
    );
    let expr = Expr::BinaryExpr(BinaryExpr {
        op: Operator::Add,
        left: Box::new(Expr::Column(Column::new(0))),
        right: Box::new(Expr::Literal(ScalarValue::Int64(1))),
    });
    assert_eq!(expr.to_string().unwrap(), "#0 + 1");
    assert_eq!(ScalarValue::Int64(-42).to_string().unwrap(), "-42");
    assert_eq!(ScalarValue::Int64(0).to_string().unwrap(), "0");
    assert_eq!(
        ScalarValue::Int64(i64::MIN).to_string().unwrap(),
        "-9223372036854775808"
    );
    assert!(ScalarValue::Float64Bits(0).to_string().is_err());
}

#[test]
fn array_get_value_out_of_range() {
    let a = Array::new_int64(vec![5, 6]);
    assert!(matches!(a.get_value(2), Err(Error::OutOfRange)));
    assert_eq!(a.get_value(1).unwrap(), ScalarValue::Int64(6));
}

#[test]
fn batch_constructor_enforces_types_and_lengths() {
    let col: ArrayRef = Rc::new(Array::new_int64(vec![1, 2]));
    let bad_schema = Schema::new(vec![Field::new("id".to_string(), LogicalType::Utf8)]);
    assert!(matches!(
        RecordBatch::new(bad_schema, vec![Rc::clone(&col)]),
        Err(Error::TypeMismatch)
    ));
    let schema = Schema::new(vec![
        Field::new("a".to_string(), LogicalType::Int64),
        Field::new("b".to_string(), LogicalType::Int64),
    ]);
    let short: ArrayRef = Rc::new(Array::new_int64(vec![1]));
    assert!(matches!(
        RecordBatch::new(schema, vec![col, short]),
        Err(Error::TypeMismatch)
    ));
}

#[test]
fn error_messages_name_their_kind() {
    assert_eq!(Error::TypeMismatch.message(), "type mismatch");
    assert_eq!(Error::OutOfRange.message(), "row index out of range");
    assert_eq!(
        Error::ColumnIndexOutOfRange.message(),
        "column index out of range"
    );
    assert_eq!(Error::NotImplemented.message(), "not implemented");
}

#[test]
fn utf8_columns_round_trip() {
    let vals = vec!["north".to_string(), "south".to_string()];
    let col: ArrayRef = Rc::new(Array::new_utf8(vals));
    let schema = Schema::new(vec![Field::new("dir".to_string(), LogicalType::Utf8)]);
    let input = RecordBatch::new(schema, vec![col]).unwrap();
    let out = Column::new(0).evaluate(&input).unwrap();
    assert_eq!(out.get_type(), LogicalType::Utf8);
    assert_eq!(
        out.get_value(1).unwrap(),
        ScalarValue::Utf8("south".to_string())
    );
}
