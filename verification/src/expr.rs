use vstd::prelude::*;

use crate::array::{Array, ArrayRef, share};
use crate::batch::{BatchVal, Field, RecordBatch};
use crate::error::Error;
use crate::scalar::{nat_dec, scalar_display, LogicalType, ScalarVal, ScalarValue};
use std::rc::Rc;

verus! {

/// The binary operators of the expression language. Only `Add` is
/// implemented; the rest are declared extension points whose evaluation and
/// rendering fail fast with `NotImplemented`.
#[derive(Clone, Copy, Debug, PartialEq, Eq, Structural)]
pub enum Operator {
    Add,
    Subtract,
    Multiply,
    Divide,
    Eq,
    Neq,
    Gt,
    GtEq,
    Lt,
    LtEq,
    And,
    Or,
}

/// A reference to the input batch's column at a fixed position.
pub struct Column {
    pub i: usize,
}

/// A binary operation over two subexpressions.
pub struct BinaryExpr {
    pub op: Operator,
    pub left: Box<Expr>,
    pub right: Box<Expr>,
}

/// A physical expression: evaluated against a record batch, it produces a
/// new column array of the batch's row count.
pub enum Expr {
    Column(Column),
    Literal(ScalarValue),
    BinaryExpr(BinaryExpr),
}

/// What evaluating an expression denotes: a typed sequence of row values.
pub struct EvalOut {
    pub ty: LogicalType,
    pub vals: Seq<ScalarVal>,
}

/// The integer behind a sixty-four-bit integer scalar.
pub open spec fn as_i64(v: ScalarVal) -> i64 {
    v->Int64_0
}

/// Sixty-four-bit integer addition, wrapping around on overflow.
pub open spec fn wrap_add_i64(x: i64, y: i64) -> i64 {
    if x + y > i64::MAX {
        (x + y - 0x1_0000_0000_0000_0000) as i64
    } else if x + y < i64::MIN {
        (x + y + 0x1_0000_0000_0000_0000) as i64
    } else {
        (x + y) as i64
    }
}

/// The meaning of evaluation: a column reference yields the input's column
/// unchanged; a literal broadcasts its constant over the input's row count;
/// a binary expression evaluates both operands against the same input,
/// requires their types to agree, and applies the operator row by row.
/// Failures are reported in this order: a failing left operand, a failing
/// right operand, operand type disagreement, an unimplemented operator, an
/// unimplemented element type. Floating-point arithmetic cannot be computed
/// in this core, which carries floats only as bit patterns: an `Add` over
/// float columns is an unimplemented element type here, and an adapter above
/// the core supplies it.
pub open spec fn eval(e: Expr, b: BatchVal) -> Result<EvalOut, Error>
    decreases e,
{
    match e {
        Expr::Column(c) => if c.i < b.fields.len() {
            Ok(EvalOut { ty: b.fields[c.i as int].data_type, vals: b.cols[c.i as int] })
        } else {
            Err(Error::ColumnIndexOutOfRange)
        },
        Expr::Literal(v) => Ok(EvalOut { ty: v@.ty(), vals: Seq::new(b.rows, |i: int| v@) }),
        Expr::BinaryExpr(be) => {
            let l = eval(*be.left, b);
            let r = eval(*be.right, b);
            if l is Err {
                l
            } else if r is Err {
                r
            } else {
                let lo = l->Ok_0;
                let ro = r->Ok_0;
                if lo.ty != ro.ty {
                    Err(Error::TypeMismatch)
                } else if be.op != Operator::Add {
                    Err(Error::NotImplemented)
                } else if lo.ty == LogicalType::Int64 {
                    Ok(
                        EvalOut {
                            ty: LogicalType::Int64,
                            vals: Seq::new(
                                lo.vals.len(),
                                |i: int| ScalarVal::Int64(
                                    wrap_add_i64(as_i64(lo.vals[i]), as_i64(ro.vals[i])),
                                ),
                            ),
                        },
                    )
                } else {
                    Err(Error::NotImplemented)
                }
            }
        },
    }
}

/// The output type of an expression against a field list alone: the type
/// half of `eval`, which depends on no row data.
pub open spec fn expr_ty(e: Expr, fields: Seq<Field>) -> Result<LogicalType, Error>
    decreases e,
{
    match e {
        Expr::Column(c) => if c.i < fields.len() {
            Ok(fields[c.i as int].data_type)
        } else {
            Err(Error::ColumnIndexOutOfRange)
        },
        Expr::Literal(v) => Ok(v@.ty()),
        Expr::BinaryExpr(be) => {
            let l = expr_ty(*be.left, fields);
            let r = expr_ty(*be.right, fields);
            if l is Err {
                l
            } else if r is Err {
                r
            } else if l->Ok_0 != r->Ok_0 {
                Err(Error::TypeMismatch)
            } else if be.op != Operator::Add {
                Err(Error::NotImplemented)
            } else if l->Ok_0 == LogicalType::Int64 {
                Ok(LogicalType::Int64)
            } else {
                Err(Error::NotImplemented)
            }
        },
    }
}

impl Clone for Expr {
    /// The clone is the same expression tree.
    fn clone(&self) -> (r: Self)
        ensures
            r == *self,
        decreases *self,
    {
        match self {
            Expr::Column(c) => Expr::Column(Column { i: c.i }),
            Expr::Literal(v) => Expr::Literal(v.clone()),
            Expr::BinaryExpr(be) => Expr::BinaryExpr(
                BinaryExpr {
                    op: be.op,
                    left: Box::new((*be.left).clone()),
                    right: Box::new((*be.right).clone()),
                },
            ),
        }
    }
}

/// Success is owed exactly where the fields admit the expression: against a
/// well-formed batch, evaluation returns `Ok` if and only if `expr_ty` does
/// on the batch's fields, with that type, one value per input row, and every
/// value of that type; and it fails with exactly the error `expr_ty` names.
pub proof fn lemma_eval_wrt_schema(e: Expr, b: BatchVal)
    requires
        b.wf(),
    ensures
        match expr_ty(e, b.fields) {
            Ok(t) => {
                &&& eval(e, b) is Ok
                &&& eval(e, b)->Ok_0.ty == t
                &&& eval(e, b)->Ok_0.vals.len() == b.rows
                &&& forall|j: int|
                    0 <= j < b.rows ==> (#[trigger] eval(e, b)->Ok_0.vals[j]).ty() == t
            },
            Err(er) => eval(e, b) == Err::<EvalOut, Error>(er),
        },
    decreases e,
{
    match e {
        Expr::Column(_) => {
        },
        Expr::Literal(_) => {
        },
        Expr::BinaryExpr(be) => {
            lemma_eval_wrt_schema(*be.left, b);
            lemma_eval_wrt_schema(*be.right, b);
        },
    }
}

/// How an executable evaluation result realizes the denoted column: the
/// same error, or an array carrying the denoted type and values.
pub open spec fn result_matches(r: Result<ArrayRef, Error>, m: Result<EvalOut, Error>) -> bool {
    match m {
        Ok(o) => {
            &&& r is Ok
            &&& (*r->Ok_0).ty() == o.ty
            &&& (*r->Ok_0).vals() == o.vals
        },
        Err(e) => r == Err::<ArrayRef, Error>(e),
    }
}

impl Column {
    pub fn new(i: usize) -> (c: Column)
        ensures
            c.i == i,
    {
        Column { i }
    }

    /// Returns the input's `i`-th column, shared and uncopied;
    /// `ColumnIndexOutOfRange` when the index exceeds the schema.
    pub fn evaluate(&self, input: &RecordBatch) -> (r: Result<ArrayRef, Error>)
        requires
            input.well_formed(),
        ensures
            result_matches(r, eval(Expr::Column(*self), input.model())),
    {
        if self.i < input.column_count() {
            Ok(share(input.field(self.i)))
        } else {
            Err(Error::ColumnIndexOutOfRange)
        }
    }

    /// Renders as `#` followed by the column index.
    pub fn to_string(&self) -> (s: String)
        ensures
            s@ == seq!['#'] + nat_dec(self.i as nat),
    {
        let mut s = "#".to_owned();
        proof {
            reveal_strlit("#");
        }
        let d = crate::scalar::fmt_u64(self.i as u64);
        s.append(d.as_str());
        proof {
            assert(s@ =~= seq!['#'] + nat_dec(self.i as nat));
        }
        s
    }
}

impl ScalarValue {
    /// Broadcasts this constant over the input's row count.
    pub fn evaluate(&self, input: &RecordBatch) -> (r: Result<ArrayRef, Error>)
        ensures
            result_matches(r, eval(Expr::Literal(*self), input.model())),
    {
        let a = Array::new_literal(self.clone(), input.row_count());
        proof {
            assert(a.vals() =~= Seq::new(input.model().rows, |i: int| self@));
        }
        Ok(Rc::new(a))
    }
}

impl BinaryExpr {
    /// Evaluates both operands against the same input, demands equal operand
    /// types, and applies the operator row by row, materializing a new
    /// column of the operands' type.
    pub fn evaluate(&self, input: &RecordBatch) -> (r: Result<ArrayRef, Error>)
        requires
            input.well_formed(),
        ensures
            result_matches(r, eval(Expr::BinaryExpr(*self), input.model())),
        decreases *self,
    {
        proof {
            input.lemma_model_wf();
            lemma_eval_wrt_schema(*self.left, input.model());
            lemma_eval_wrt_schema(*self.right, input.model());
        }
        let l = self.left.evaluate(input)?;
        let r = self.right.evaluate(input)?;
        let lt = l.get_type();
        let rt = r.get_type();
        if lt != rt {
            return Err(Error::TypeMismatch);
        }
        match self.op {
            Operator::Add => {
                if lt == LogicalType::Int64 {
                    let ghost lo = eval(*self.left, input.model())->Ok_0;
                    let ghost ro = eval(*self.right, input.model())->Ok_0;
                    let n = l.size();
                    proof {
                        assert(ro.vals.len() == n);
                    }
                    let mut out: Vec<i64> = Vec::new();
                    for idx in 0..n
                        invariant
                            n == lo.vals.len(),
                            n == ro.vals.len(),
                            (*l).vals() == lo.vals,
                            (*r).vals() == ro.vals,
                            (*l).ty() == LogicalType::Int64,
                            (*r).ty() == LogicalType::Int64,
                            out@.len() == idx,
                            forall|j: int|
                                0 <= j < idx ==> out@[j] == wrap_add_i64(
                                    as_i64(lo.vals[j]),
                                    as_i64(ro.vals[j]),
                                ),
                    {
                        proof {
                            l.lemma_vals_typed(idx as int);
                            r.lemma_vals_typed(idx as int);
                        }
                        let lv = l.value_at(idx);
                        let rv = r.value_at(idx);
                        let x = match lv {
                            ScalarValue::Int64(x) => x,
                            _ => {
                                // the operand column is integer-typed, so
                                // this arm cannot be reached
                                proof {
                                    assert(false);
                                }
                                0i64
                            },
                        };
                        let y = match rv {
                            ScalarValue::Int64(y) => y,
                            _ => {
                                // the operand column is integer-typed, so
                                // this arm cannot be reached
                                proof {
                                    assert(false);
                                }
                                0i64
                            },
                        };
                        out.push(x.wrapping_add(y));
                    }
                    let arr = Array::new_int64(out);
                    proof {
                        assert(arr.vals() =~= Seq::new(
                            lo.vals.len(),
                            |i: int| ScalarVal::Int64(
                                wrap_add_i64(as_i64(lo.vals[i]), as_i64(ro.vals[i])),
                            ),
                        ));
                    }
                    Ok(Rc::new(arr))
                } else {
                    Err(Error::NotImplemented)
                }
            },
            _ => Err(Error::NotImplemented),
        }
    }
}

/// The canonical rendering of an expression: `#i` for a column reference,
/// literal syntax for a constant, `left + right` for an addition. Rendering
/// an unimplemented operator, or a float literal, fails fast.
pub open spec fn expr_display(e: Expr) -> Result<Seq<char>, Error>
    decreases e,
{
    match e {
        Expr::Column(c) => Ok(seq!['#'] + nat_dec(c.i as nat)),
        Expr::Literal(v) => scalar_display(v@),
        Expr::BinaryExpr(be) => if be.op != Operator::Add {
            Err(Error::NotImplemented)
        } else {
            let l = expr_display(*be.left);
            if l is Err {
                l
            } else {
                let r = expr_display(*be.right);
                if r is Err {
                    r
                } else {
                    Ok(l->Ok_0 + seq![' ', '+', ' '] + r->Ok_0)
                }
            }
        },
    }
}

impl BinaryExpr {
    /// Renders as `left + right`; unimplemented operators fail fast.
    pub fn to_string(&self) -> (r: Result<String, Error>)
        ensures
            match expr_display(Expr::BinaryExpr(*self)) {
                Ok(t) => r is Ok && r->Ok_0@ == t,
                Err(e) => r == Err::<String, Error>(e),
            },
        decreases *self,
    {
        match self.op {
            Operator::Add => {
                let mut s = self.left.to_string()?;
                let rs = self.right.to_string()?;
                s.append(" + ");
                proof {
                    reveal_strlit(" + ");
                }
                s.append(rs.as_str());
                proof {
                    assert(s@ =~= expr_display(Expr::BinaryExpr(*self))->Ok_0);
                }
                Ok(s)
            },
            _ => Err(Error::NotImplemented),
        }
    }
}

impl Expr {
    /// Renders this expression in its canonical form.
    pub fn to_string(&self) -> (r: Result<String, Error>)
        ensures
            match expr_display(*self) {
                Ok(t) => r is Ok && r->Ok_0@ == t,
                Err(e) => r == Err::<String, Error>(e),
            },
        decreases *self,
    {
        match self {
            Expr::Column(column) => Ok(column.to_string()),
            Expr::Literal(literal) => literal.to_string(),
            Expr::BinaryExpr(binary_expr) => binary_expr.to_string(),
        }
    }

    /// Evaluates this expression against a record batch, producing a column
    /// array of the batch's row count, or the first failure encountered.
    pub fn evaluate(&self, input: &RecordBatch) -> (r: Result<ArrayRef, Error>)
        requires
            input.well_formed(),
        ensures
            result_matches(r, eval(*self, input.model())),
        decreases *self,
    {
        match self {
            Expr::Column(column) => column.evaluate(input),
            Expr::Literal(literal) => literal.evaluate(input),
            Expr::BinaryExpr(binary_expr) => binary_expr.evaluate(input),
        }
    }
}

/// A column expression yields the input's column unchanged: one value per
/// input row, the field's declared logical type, and the column's values,
/// index for index.
pub proof fn lemma_column_evaluate(b: BatchVal, i: usize)
    requires
        b.wf(),
        i < b.fields.len(),
    ensures
        ({
            let m = eval(Expr::Column(Column { i }), b);
            &&& m is Ok
            &&& m->Ok_0.vals == b.cols[i as int]
            &&& m->Ok_0.vals.len() == b.rows
            &&& m->Ok_0.ty == b.fields[i as int].data_type
        }),
{
}

/// A literal expression yields a column of the input's row count whose value
/// at every index is the literal itself.
pub proof fn lemma_literal_evaluate(b: BatchVal, v: ScalarValue)
    ensures
        ({
            let m = eval(Expr::Literal(v), b);
            &&& m is Ok
            &&& m->Ok_0.ty == v@.ty()
            &&& m->Ok_0.vals.len() == b.rows
            &&& forall|i: int| 0 <= i < b.rows ==> m->Ok_0.vals[i] == v@
        }),
{
}

/// Adding the two integer columns of a two-column batch yields, at each row,
/// the arithmetic sum of the two input values, with the result typed as the
/// operands are; stated for the batches whose row sums stay in range, since
/// the addition wraps outside it.
pub proof fn lemma_binary_add_columns(b: BatchVal, e: BinaryExpr)
    requires
        b.wf(),
        b.fields.len() == 2,
        b.fields[0].data_type == LogicalType::Int64,
        b.fields[1].data_type == LogicalType::Int64,
        e.op == Operator::Add,
        *e.left == Expr::Column(Column { i: 0 }),
        *e.right == Expr::Column(Column { i: 1 }),
        forall|i: int|
            0 <= i < b.rows ==> i64::MIN <= as_i64(#[trigger] b.cols[0][i]) + as_i64(b.cols[1][i])
                <= i64::MAX,
    ensures
        ({
            let m = eval(Expr::BinaryExpr(e), b);
            &&& m is Ok
            &&& m->Ok_0.ty == LogicalType::Int64
            &&& m->Ok_0.vals.len() == b.rows
            &&& forall|i: int|
                0 <= i < b.rows ==> m->Ok_0.vals[i] == ScalarVal::Int64(
                    (as_i64(b.cols[0][i]) + as_i64(b.cols[1][i])) as i64,
                )
        }),
{
    lemma_column_evaluate(b, 0);
    lemma_column_evaluate(b, 1);
    let ml = eval(*e.left, b);
    let mr = eval(*e.right, b);
    assert(ml->Ok_0.vals == b.cols[0]);
    assert(mr->Ok_0.vals == b.cols[1]);
    assert(ml->Ok_0.ty == LogicalType::Int64);
    assert(mr->Ok_0.ty == LogicalType::Int64);
    let m = eval(Expr::BinaryExpr(e), b);
    assert(m is Ok);
    assert(m->Ok_0.vals == Seq::new(
        ml->Ok_0.vals.len(),
        |i: int| ScalarVal::Int64(wrap_add_i64(as_i64(ml->Ok_0.vals[i]), as_i64(mr->Ok_0.vals[i]))),
    ));
    assert forall|i: int| 0 <= i < b.rows implies m->Ok_0.vals[i] == ScalarVal::Int64(
        (as_i64(b.cols[0][i]) + as_i64(b.cols[1][i])) as i64,
    ) by {
        assert(m->Ok_0.vals[i] == ScalarVal::Int64(
            wrap_add_i64(as_i64(b.cols[0][i]), as_i64(b.cols[1][i])),
        ));
    }
}

/// Binary addition over operands of differing logical types fails with
/// `TypeMismatch`; it never silently coerces.
pub proof fn lemma_add_type_mismatch(b: BatchVal, e: BinaryExpr)
    requires
        e.op == Operator::Add,
        eval(*e.left, b) is Ok,
        eval(*e.right, b) is Ok,
        eval(*e.left, b)->Ok_0.ty != eval(*e.right, b)->Ok_0.ty,
    ensures
        eval(Expr::BinaryExpr(e), b) == Err::<EvalOut, Error>(Error::TypeMismatch),
{
}

} // verus!
