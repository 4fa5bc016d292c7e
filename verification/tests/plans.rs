use rq::array::{Array, ArrayRef};
use rq::batch::{Field, RecordBatch, Schema};
use rq::error::Error;
use rq::expr::{BinaryExpr, Column, Expr, Operator};
use rq::plan::{Plan, Projection, Scan, Selection};
use rq::scalar::{LogicalType, ScalarValue};
use std::rc::Rc;

fn two_column_scan() -> Scan {
    let a: ArrayRef = Rc::new(Array::new_int64(vec![1, 2, 3, 4]));
    let b: ArrayRef = Rc::new(Array::new_int64(vec![0, 1, 0, 1]));
    let schema = Schema::new(vec![
        Field::new("v".to_string(), LogicalType::Int64),
        Field::new("flag".to_string(), LogicalType::Int64),
    ]);
    let batch = RecordBatch::new(schema, vec![a, b]).unwrap();
    let schema = Schema::new(vec![
        Field::new("v".to_string(), LogicalType::Int64),
        Field::new("flag".to_string(), LogicalType::Int64),
    ]);
    Scan { schema, batches: vec![batch], projection: None }
}

#[test]
fn scan_passes_batches_through() {
    let mut stream = Plan::Scan(two_column_scan()).execute().unwrap();
    let batch = stream.next_batch().unwrap();
    assert_eq!(batch.row_count(), 4);
    assert_eq!(batch.column_count(), 2);
    assert_eq!(batch.field(0).get_value(2).unwrap(), ScalarValue::Int64(3));
    assert!(stream.next_batch().is_none());
}

#[test]
fn projection_computes_named_columns() {
    let plan = Plan::Projection(Projection {
        child: Box::new(Plan::Scan(two_column_scan())),
        exprs: vec![Expr::BinaryExpr(BinaryExpr {
            op: Operator::Add,
            left: Box::new(Expr::Column(Column::new(0))),
            right: Box::new(Expr::Literal(ScalarValue::Int64(100))),
        })],
        names: vec!["shifted".to_string()],
    });
    let schema = plan.schema().unwrap();
    assert_eq!(schema.fields.len(), 1);
    assert_eq!(schema.fields[0].name, "shifted");
    assert_eq!(schema.fields[0].data_type, LogicalType::Int64);
    let mut stream = plan.execute().unwrap();
    let batch = stream.next_batch().unwrap();
    assert_eq!(batch.row_count(), 4);
    assert_eq!(batch.column_count(), 1);
    for i in 0..4 {
        assert_eq!(
            batch.field(0).get_value(i).unwrap(),
            ScalarValue::Int64(101 + i as i64)
        );
    }
    assert!(stream.next_batch().is_none());
}

#[test]
fn selection_keeps_rows_where_predicate_is_nonzero() {
    let plan = Plan::Selection(Selection {
        child: Box::new(Plan::Scan(two_column_scan())),
        predicate: Expr::Column(Column::new(1)),
    });
    let schema = plan.schema().unwrap();
    assert_eq!(schema.fields.len(), 2);
    let mut stream = plan.execute().unwrap();
    let batch = stream.next_batch().unwrap();
    assert_eq!(batch.row_count(), 2);
    assert_eq!(batch.field(0).get_value(0).unwrap(), ScalarValue::Int64(2));
    assert_eq!(batch.field(0).get_value(1).unwrap(), ScalarValue::Int64(4));
    assert_eq!(batch.field(1).get_value(0).unwrap(), ScalarValue::Int64(1));
    assert!(stream.next_batch().is_none());
}

#[test]
fn selection_rejects_non_integer_predicate() {
    let plan = Plan::Selection(Selection {
        child: Box::new(Plan::Scan(two_column_scan())),
        predicate: Expr::Literal(ScalarValue::Utf8("yes".to_string())),
    });
    // the schema passes the child's through unchanged ...
    let schema = plan.schema().unwrap();
    assert_eq!(schema.fields.len(), 2);
    assert_eq!(schema.fields[0].name, "v");
    // ... and execution is where the predicate type is demanded
    assert!(matches!(plan.execute(), Err(Error::TypeMismatch)));
}

#[test]
fn projection_surfaces_bad_column_reference() {
    let plan = Plan::Projection(Projection {
        child: Box::new(Plan::Scan(two_column_scan())),
        exprs: vec![Expr::Column(Column::new(9))],
        names: vec!["broken".to_string()],
    });
    assert!(matches!(plan.schema(), Err(Error::ColumnIndexOutOfRange)));
}

#[test]
fn children_match_declared_arity() {
    let scan = Plan::Scan(two_column_scan());
    assert_eq!(scan.children().len(), 0);
    let selection = Plan::Selection(Selection {
        child: Box::new(scan),
        predicate: Expr::Column(Column::new(1)),
    });
    assert_eq!(selection.children().len(), 1);
    let projection = Plan::Projection(Projection {
        child: Box::new(selection),
        exprs: vec![Expr::Column(Column::new(0))],
        names: vec!["v".to_string()],
    });
    assert_eq!(projection.children().len(), 1);
}

#[test]
fn pretty_prints_one_line_per_node() {
    let plan = Plan::Projection(Projection {
        child: Box::new(Plan::Selection(Selection {
            child: Box::new(Plan::Scan(two_column_scan())),
            predicate: Expr::Column(Column::new(1)),
        })),
        exprs: vec![
            Expr::Column(Column::new(0)),
            Expr::Literal(ScalarValue::Int64(7)),
        ],
        names: vec!["v".to_string(), "seven".to_string()],
    });
    let text = plan.pretty(0).unwrap();
    assert_eq!(text, "Projection: #0, 7\n\tSelection: #1\n\t\tScan\n");
    assert_eq!(text.lines().count(), 3);
    assert_eq!(plan.to_string().unwrap(), "Projection: #0, 7");
}

#[test]
fn filtering_a_literal_column_keeps_its_constant() {
    let ids: ArrayRef = Rc::new(Array::new_int64(vec![0, 5, 0]));
    let tag: ArrayRef = Rc::new(Array::new_literal(ScalarValue::Utf8("tag".to_string()), 3));
    let schema = Schema::new(vec![
        Field::new("flag".to_string(), LogicalType::Int64),
        Field::new("tag".to_string(), LogicalType::Utf8),
    ]);
    let batch = RecordBatch::new(schema, vec![ids, tag]).unwrap();
    let schema = Schema::new(vec![
        Field::new("flag".to_string(), LogicalType::Int64),
        Field::new("tag".to_string(), LogicalType::Utf8),
    ]);
    let plan = Plan::Selection(Selection {
        child: Box::new(Plan::Scan(Scan { schema, batches: vec![batch], projection: None })),
        predicate: Expr::Column(Column::new(0)),
    });
    let mut stream = plan.execute().unwrap();
    let batch = stream.next_batch().unwrap();
    assert_eq!(batch.row_count(), 1);
    assert_eq!(batch.field(0).get_value(0).unwrap(), ScalarValue::Int64(5));
    assert_eq!(
        batch.field(1).get_value(0).unwrap(),
        ScalarValue::Utf8("tag".to_string())
    );
}

#[test]
fn execute_is_repeatable_batch_for_batch() {
    let plan = Plan::Projection(Projection {
        child: Box::new(Plan::Scan(two_column_scan())),
        exprs: vec![Expr::Column(Column::new(0))],
        names: vec!["v".to_string()],
    });
    let mut s1 = plan.execute().unwrap();
    let b1 = s1.next_batch().unwrap();
    assert!(s1.next_batch().is_none());
    // the same plan value executes again, from the beginning
    let mut s2 = plan.execute().unwrap();
    let b2 = s2.next_batch().unwrap();
    assert_eq!(b1.row_count(), b2.row_count());
    for i in 0..b1.row_count() {
        assert_eq!(
            b1.field(0).get_value(i).unwrap(),
            b2.field(0).get_value(i).unwrap()
        );
    }
    assert!(s2.next_batch().is_none());
}

#[test]
fn scan_projection_subsets_columns_by_name() {
    let mut scan = two_column_scan();
    scan.projection = Some(vec!["flag".to_string()]);
    let plan = Plan::Scan(scan);
    let schema = plan.schema().unwrap();
    assert_eq!(schema.fields.len(), 1);
    assert_eq!(schema.fields[0].name, "flag");
    let mut stream = plan.execute().unwrap();
    let batch = stream.next_batch().unwrap();
    assert_eq!(batch.column_count(), 1);
    assert_eq!(batch.row_count(), 4);
    assert_eq!(batch.field(0).get_value(1).unwrap(), ScalarValue::Int64(1));
    assert!(stream.next_batch().is_none());
}

#[test]
fn scan_projection_rejects_unknown_name() {
    let mut scan = two_column_scan();
    scan.projection = Some(vec!["missing".to_string()]);
    let plan = Plan::Scan(scan);
    assert!(matches!(plan.schema(), Err(Error::ColumnIndexOutOfRange)));
    let mut scan = two_column_scan();
    scan.projection = Some(vec!["missing".to_string()]);
    assert!(matches!(Plan::Scan(scan).execute(), Err(Error::ColumnIndexOutOfRange)));
}
