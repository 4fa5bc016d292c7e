use vstd::prelude::*;

use crate::error::Error;
use crate::scalar::{LogicalType, ScalarVal, ScalarValue};
use std::rc::Rc;

verus! {

/// A materialized sixty-four-bit integer column, keeping its values in an
/// arrow `Int64Array`. The backing array is opaque here; the wrappers below
/// state what arrow does with it.
#[verifier::external_body]
pub struct Int64Column {
    arr: arrow::array::Int64Array,
}

/// What the backing arrow `Int64Array` holds, in order.
pub uninterp spec fn int64_column_vals(a: Int64Column) -> Seq<i64>;

/// Relies on arrow's `From<Vec<i64>> for Int64Array`: the array stores
/// exactly the given values, in order, without nulls.
#[verifier::external_body]
fn int64_column_from_vec(v: Vec<i64>) -> (a: Int64Column)
    ensures
        int64_column_vals(a) == v@,
{
    Int64Column { arr: arrow::array::Int64Array::from(v) }
}

/// Relies on arrow's `Array::len`: the number of stored values.
#[verifier::external_body]
fn int64_column_len(a: &Int64Column) -> (n: usize)
    ensures
        n == int64_column_vals(*a).len(),
{
    arrow::array::Array::len(&a.arr)
}

/// Relies on arrow's `PrimitiveArray::value`: the value stored at `i`
/// (arrow panics on an out-of-bounds index, so that input is excluded).
#[verifier::external_body]
fn int64_column_value(a: &Int64Column, i: usize) -> (r: i64)
    requires
        i < int64_column_vals(*a).len(),
    ensures
        r == int64_column_vals(*a)[i as int],
{
    a.arr.value(i)
}

/// Relies on `Rc::clone`: the clone points at the same value.
#[verifier::external_body]
fn rc_clone<T>(r: &Rc<T>) -> (s: Rc<T>)
    ensures
        s == *r,
{
    Rc::clone(r)
}

/// The native per-row storage of a materialized column, one backing per
/// logical type. Sixty-four-bit integer columns keep their values in an
/// arrow array; floating-point columns carry IEEE-754 bit patterns.
pub enum ColumnData {
    Utf8(Vec<String>),
    Int64(Int64Column),
    Float32Bits(Vec<u32>),
    Float64Bits(Vec<u64>),
}

/// A read-only column of homogeneous values: either materialized per-row
/// storage, or one constant logically repeated over a row count without
/// per-row storage.
pub enum Array {
    Materialized(ColumnData),
    Literal(ScalarValue, usize),
}

/// A shared, immutable reference to a column array.
pub type ArrayRef = Rc<Array>;

impl Array {
    /// The logical element type, fixed for the array's lifetime.
    pub open spec fn ty(&self) -> LogicalType {
        match self {
            Array::Materialized(ColumnData::Utf8(_)) => LogicalType::Utf8,
            Array::Materialized(ColumnData::Int64(_)) => LogicalType::Int64,
            Array::Materialized(ColumnData::Float32Bits(_)) => LogicalType::Float32,
            Array::Materialized(ColumnData::Float64Bits(_)) => LogicalType::Float64,
            Array::Literal(v, _) => v@.ty(),
        }
    }

    /// The sequence of values this column presents, position by position.
    pub open spec fn vals(&self) -> Seq<ScalarVal> {
        match self {
            Array::Materialized(ColumnData::Utf8(v)) => v@.map(
                |i: int, s: String| ScalarVal::Utf8(s@),
            ),
            Array::Materialized(ColumnData::Int64(a)) => int64_column_vals(*a).map(
                |i: int, x: i64| ScalarVal::Int64(x),
            ),
            Array::Materialized(ColumnData::Float32Bits(v)) => v@.map(
                |i: int, x: u32| ScalarVal::Float32Bits(x),
            ),
            Array::Materialized(ColumnData::Float64Bits(v)) => v@.map(
                |i: int, x: u64| ScalarVal::Float64Bits(x),
            ),
            Array::Literal(v, n) => Seq::new(*n as nat, |i: int| v@),
        }
    }

    /// The row count.
    pub open spec fn len(&self) -> nat {
        self.vals().len()
    }

    /// Every value of a column inhabits the column's own logical type.
    pub proof fn lemma_vals_typed(&self, i: int)
        requires
            0 <= i < self.len(),
        ensures
            self.vals()[i].ty() == self.ty(),
    {
    }

    /// Builds a materialized text column.
    pub fn new_utf8(v: Vec<String>) -> (a: Array)
        ensures
            a.ty() == LogicalType::Utf8,
            a.len() == v@.len(),
            forall|i: int| 0 <= i < v@.len() ==> a.vals()[i] == ScalarVal::Utf8(v@[i]@),
    {
        Array::Materialized(ColumnData::Utf8(v))
    }

    /// Builds a materialized sixty-four-bit integer column.
    pub fn new_int64(v: Vec<i64>) -> (a: Array)
        ensures
            a.ty() == LogicalType::Int64,
            a.len() == v@.len(),
            forall|i: int| 0 <= i < v@.len() ==> a.vals()[i] == ScalarVal::Int64(v@[i]),
    {
        let arr = int64_column_from_vec(v);
        Array::Materialized(ColumnData::Int64(arr))
    }

    /// Builds a materialized single-precision column of bit patterns.
    pub fn new_float32_bits(v: Vec<u32>) -> (a: Array)
        ensures
            a.ty() == LogicalType::Float32,
            a.len() == v@.len(),
            forall|i: int| 0 <= i < v@.len() ==> a.vals()[i] == ScalarVal::Float32Bits(v@[i]),
    {
        Array::Materialized(ColumnData::Float32Bits(v))
    }

    /// Builds a materialized double-precision column of bit patterns.
    pub fn new_float64_bits(v: Vec<u64>) -> (a: Array)
        ensures
            a.ty() == LogicalType::Float64,
            a.len() == v@.len(),
            forall|i: int| 0 <= i < v@.len() ==> a.vals()[i] == ScalarVal::Float64Bits(v@[i]),
    {
        Array::Materialized(ColumnData::Float64Bits(v))
    }

    /// Builds a broadcast column: `value` repeated over `rows` rows.
    pub fn new_literal(value: ScalarValue, rows: usize) -> (a: Array)
        ensures
            a.ty() == value@.ty(),
            a.len() == rows,
            forall|i: int| 0 <= i < rows ==> a.vals()[i] == value@,
    {
        Array::Literal(value, rows)
    }

    /// The row count.
    pub fn size(&self) -> (n: usize)
        ensures
            n == self.len(),
    {
        match self {
            Array::Materialized(ColumnData::Utf8(v)) => v.len(),
            Array::Materialized(ColumnData::Int64(a)) => int64_column_len(a),
            Array::Materialized(ColumnData::Float32Bits(v)) => v.len(),
            Array::Materialized(ColumnData::Float64Bits(v)) => v.len(),
            Array::Literal(_, n) => *n,
        }
    }

    /// The logical element type.
    pub fn get_type(&self) -> (t: LogicalType)
        ensures
            t == self.ty(),
    {
        match self {
            Array::Materialized(ColumnData::Utf8(_)) => LogicalType::Utf8,
            Array::Materialized(ColumnData::Int64(_)) => LogicalType::Int64,
            Array::Materialized(ColumnData::Float32Bits(_)) => LogicalType::Float32,
            Array::Materialized(ColumnData::Float64Bits(_)) => LogicalType::Float64,
            Array::Literal(v, _) => v.logical_type(),
        }
    }

    /// The value at a position known to be in bounds.
    pub fn value_at(&self, i: usize) -> (v: ScalarValue)
        requires
            i < self.len(),
        ensures
            v@ == self.vals()[i as int],
    {
        match self {
            Array::Materialized(ColumnData::Utf8(v)) => ScalarValue::Utf8(v[i].clone()),
            Array::Materialized(ColumnData::Int64(a)) => ScalarValue::Int64(
                int64_column_value(a, i),
            ),
            Array::Materialized(ColumnData::Float32Bits(v)) => ScalarValue::Float32Bits(v[i]),
            Array::Materialized(ColumnData::Float64Bits(v)) => ScalarValue::Float64Bits(v[i]),
            Array::Literal(v, _) => v.clone(),
        }
    }

    /// The dynamically typed value at `i`, or `OutOfRange` past the end.
    pub fn get_value(&self, i: usize) -> (r: Result<ScalarValue, Error>)
        ensures
            match r {
                Ok(v) => i < self.len() && v@ == self.vals()[i as int],
                Err(e) => i >= self.len() && e == Error::OutOfRange,
            },
    {
        if i < self.size() {
            Ok(self.value_at(i))
        } else {
            Err(Error::OutOfRange)
        }
    }
}

/// Shares an array: the returned reference presents the same column.
pub fn share(a: &ArrayRef) -> (r: ArrayRef)
    ensures
        r == *a,
{
    rc_clone(a)
}

/// The boolean reading of a row of a selection mask: any nonzero integer
/// keeps the row.
pub open spec fn keep(v: ScalarVal) -> bool {
    v != ScalarVal::Int64(0i64)
}

/// The rows of `c` kept by the mask `m`, in order.
pub open spec fn filter_by_mask(c: Seq<ScalarVal>, m: Seq<ScalarVal>) -> Seq<ScalarVal>
    decreases c.len(),
{
    if c.len() == 0 || m.len() == 0 {
        Seq::empty()
    } else {
        let rest = filter_by_mask(c.drop_first(), m.drop_first());
        if keep(m.first()) {
            seq![c.first()] + rest
        } else {
            rest
        }
    }
}

/// The number of rows a mask keeps.
pub open spec fn count_keep(m: Seq<ScalarVal>) -> nat
    decreases m.len(),
{
    if m.len() == 0 {
        0
    } else {
        (if keep(m.first()) {
            1nat
        } else {
            0nat
        }) + count_keep(m.drop_first())
    }
}

pub proof fn lemma_filter_snoc(c: Seq<ScalarVal>, m: Seq<ScalarVal>, x: ScalarVal, y: ScalarVal)
    requires
        c.len() == m.len(),
    ensures
        filter_by_mask(c.push(x), m.push(y)) == filter_by_mask(c, m) + (if keep(y) {
            seq![x]
        } else {
            Seq::<ScalarVal>::empty()
        }),
    decreases c.len(),
{
    let tail = (if keep(y) {
        seq![x]
    } else {
        Seq::<ScalarVal>::empty()
    });
    if c.len() == 0 {
        let cs = c.push(x);
        let ms = m.push(y);
        assert(cs.len() == 1);
        assert(cs.first() == x);
        assert(ms.first() == y);
        assert(cs.drop_first() =~= Seq::<ScalarVal>::empty());
        assert(ms.drop_first() =~= Seq::<ScalarVal>::empty());
        assert(filter_by_mask(Seq::<ScalarVal>::empty(), Seq::<ScalarVal>::empty())
            == Seq::<ScalarVal>::empty());
        assert(filter_by_mask(cs, ms) =~= filter_by_mask(c, m) + tail);
    } else {
        assert(c.push(x).drop_first() =~= c.drop_first().push(x));
        assert(m.push(y).drop_first() =~= m.drop_first().push(y));
        lemma_filter_snoc(c.drop_first(), m.drop_first(), x, y);
        assert(c.push(x).first() == c.first());
        assert(m.push(y).first() == m.first());
        if keep(m.first()) {
            assert(seq![c.first()] + (filter_by_mask(c.drop_first(), m.drop_first()) + tail)
                =~= (seq![c.first()] + filter_by_mask(c.drop_first(), m.drop_first())) + tail);
        }
        assert(filter_by_mask(c.push(x), m.push(y)) =~= filter_by_mask(c, m) + tail);
    }
}

pub proof fn lemma_count_snoc(m: Seq<ScalarVal>, y: ScalarVal)
    ensures
        count_keep(m.push(y)) == count_keep(m) + (if keep(y) {
            1nat
        } else {
            0nat
        }),
    decreases m.len(),
{
    if m.len() == 0 {
        let ms = m.push(y);
        assert(ms.len() == 1);
        assert(ms.first() == y);
        assert(ms.drop_first() =~= Seq::<ScalarVal>::empty());
        assert(count_keep(Seq::<ScalarVal>::empty()) == 0);
    } else {
        assert(m.push(y).drop_first() =~= m.drop_first().push(y));
        lemma_count_snoc(m.drop_first(), y);
        assert(m.push(y).first() == m.first());
    }
}

/// Every column filtered by one mask keeps the same number of rows.
pub proof fn lemma_filter_len(c: Seq<ScalarVal>, m: Seq<ScalarVal>)
    requires
        c.len() == m.len(),
    ensures
        filter_by_mask(c, m).len() == count_keep(m),
    decreases c.len(),
{
    if c.len() > 0 {
        lemma_filter_len(c.drop_first(), m.drop_first());
    }
}

/// Filtering keeps every value's type.
pub proof fn lemma_filter_typed(c: Seq<ScalarVal>, m: Seq<ScalarVal>, t: LogicalType)
    requires
        c.len() == m.len(),
        forall|j: int| 0 <= j < c.len() ==> (#[trigger] c[j]).ty() == t,
    ensures
        forall|j: int|
            0 <= j < filter_by_mask(c, m).len() ==> (#[trigger] filter_by_mask(c, m)[j]).ty() == t,
    decreases c.len(),
{
    if c.len() > 0 {
        assert(forall|j: int|
            0 <= j < c.drop_first().len() ==> (#[trigger] c.drop_first()[j]).ty() == t);
        lemma_filter_typed(c.drop_first(), m.drop_first(), t);
    }
}

/// Filtering a constant column keeps it constant.
pub proof fn lemma_filter_const(v: ScalarVal, m: Seq<ScalarVal>)
    ensures
        filter_by_mask(Seq::new(m.len(), |i: int| v), m) == Seq::new(count_keep(m), |i: int| v),
    decreases m.len(),
{
    let c = Seq::new(m.len(), |i: int| v);
    if m.len() == 0 {
        assert(filter_by_mask(c, m) =~= Seq::new(count_keep(m), |i: int| v));
    } else {
        assert(c.drop_first() =~= Seq::new(m.drop_first().len(), |i: int| v));
        lemma_filter_const(v, m.drop_first());
        assert(c.first() == v);
        assert(filter_by_mask(c, m) =~= Seq::new(count_keep(m), |i: int| v));
    }
}

/// Reads one row of an integer mask as a boolean.
fn mask_keep(mask: &Array, i: usize) -> (b: bool)
    requires
        mask.ty() == LogicalType::Int64,
        i < mask.len(),
    ensures
        b == keep(mask.vals()[i as int]),
{
    proof {
        mask.lemma_vals_typed(i as int);
    }
    match mask.value_at(i) {
        ScalarValue::Int64(x) => x != 0,
        _ => {
            // the mask is integer-typed, so this arm cannot be reached
            proof {
                assert(false);
            }
            false
        },
    }
}

/// Counts the rows an integer mask keeps.
pub fn count_kept(mask: &Array) -> (n: usize)
    requires
        mask.ty() == LogicalType::Int64,
    ensures
        n == count_keep(mask.vals()),
{
    let len = mask.size();
    let mut n: usize = 0;
    for i in 0..len
        invariant
            len == mask.len(),
            mask.ty() == LogicalType::Int64,
            n == count_keep(mask.vals().take(i as int)),
            n <= i,
    {
        proof {
            assert(mask.vals().take(i + 1 as int) =~= mask.vals().take(i as int).push(
                mask.vals()[i as int],
            ));
            lemma_count_snoc(mask.vals().take(i as int), mask.vals()[i as int]);
        }
        if mask_keep(mask, i) {
            n = n + 1;
        }
    }
    proof {
        assert(mask.vals().take(len as int) =~= mask.vals());
    }
    n
}

impl Array {
    /// Compacts this column by a row mask: the result keeps, in order,
    /// exactly the rows at whose index the mask holds a nonzero integer.
    pub fn filter(&self, mask: &Array) -> (r: Array)
        requires
            mask.ty() == LogicalType::Int64,
            mask.len() == self.len(),
        ensures
            r.ty() == self.ty(),
            r.vals() == filter_by_mask(self.vals(), mask.vals()),
    {
        let len = self.size();
        match self {
            Array::Materialized(ColumnData::Utf8(v)) => {
                let mut out: Vec<String> = Vec::new();
                for i in 0..len
                    invariant
                        len == self.len(),
                        len == v@.len(),
                        len == mask.len(),
                        mask.ty() == LogicalType::Int64,
                        *self == Array::Materialized(ColumnData::Utf8(*v)),
                        out@.map(|k: int, s: String| ScalarVal::Utf8(s@)) =~= filter_by_mask(
                            self.vals().take(i as int),
                            mask.vals().take(i as int),
                        ),
                {
                    proof {
                        assert(self.vals().take(i + 1 as int) =~= self.vals().take(i as int).push(
                            self.vals()[i as int],
                        ));
                        assert(mask.vals().take(i + 1 as int) =~= mask.vals().take(i as int).push(
                            mask.vals()[i as int],
                        ));
                        lemma_filter_snoc(
                            self.vals().take(i as int),
                            mask.vals().take(i as int),
                            self.vals()[i as int],
                            mask.vals()[i as int],
                        );
                    }
                    if mask_keep(mask, i) {
                        out.push(v[i].clone());
                    }
                    proof {
                        assert(out@.map(|k: int, s: String| ScalarVal::Utf8(s@)) =~= filter_by_mask(
                            self.vals().take(i + 1 as int),
                            mask.vals().take(i + 1 as int),
                        ));
                    }
                }
                let r = Array::Materialized(ColumnData::Utf8(out));
                proof {
                    assert(self.vals().take(len as int) =~= self.vals());
                    assert(mask.vals().take(len as int) =~= mask.vals());
                    assert(r.vals() =~= filter_by_mask(self.vals(), mask.vals()));
                }
                r
            },
            Array::Materialized(ColumnData::Int64(a)) => {
                let mut out: Vec<i64> = Vec::new();
                for i in 0..len
                    invariant
                        len == self.len(),
                        len == mask.len(),
                        mask.ty() == LogicalType::Int64,
                        *self == Array::Materialized(ColumnData::Int64(*a)),
                        int64_column_vals(*a).len() == len,
                        out@.map(|k: int, x: i64| ScalarVal::Int64(x)) =~= filter_by_mask(
                            self.vals().take(i as int),
                            mask.vals().take(i as int),
                        ),
                {
                    proof {
                        assert(self.vals().take(i + 1 as int) =~= self.vals().take(i as int).push(
                            self.vals()[i as int],
                        ));
                        assert(mask.vals().take(i + 1 as int) =~= mask.vals().take(i as int).push(
                            mask.vals()[i as int],
                        ));
                        lemma_filter_snoc(
                            self.vals().take(i as int),
                            mask.vals().take(i as int),
                            self.vals()[i as int],
                            mask.vals()[i as int],
                        );
                    }
                    if mask_keep(mask, i) {
                        out.push(int64_column_value(a, i));
                    }
                    proof {
                        assert(out@.map(|k: int, x: i64| ScalarVal::Int64(x)) =~= filter_by_mask(
                            self.vals().take(i + 1 as int),
                            mask.vals().take(i + 1 as int),
                        ));
                    }
                }
                let arr = int64_column_from_vec(out);
                let r = Array::Materialized(ColumnData::Int64(arr));
                proof {
                    assert(self.vals().take(len as int) =~= self.vals());
                    assert(mask.vals().take(len as int) =~= mask.vals());
                    assert(r.vals() =~= filter_by_mask(self.vals(), mask.vals()));
                }
                r
            },
            Array::Materialized(ColumnData::Float32Bits(v)) => {
                let mut out: Vec<u32> = Vec::new();
                for i in 0..len
                    invariant
                        len == self.len(),
                        len == v@.len(),
                        len == mask.len(),
                        mask.ty() == LogicalType::Int64,
                        *self == Array::Materialized(ColumnData::Float32Bits(*v)),
                        out@.map(|k: int, x: u32| ScalarVal::Float32Bits(x)) =~= filter_by_mask(
                            self.vals().take(i as int),
                            mask.vals().take(i as int),
                        ),
                {
                    proof {
                        assert(self.vals().take(i + 1 as int) =~= self.vals().take(i as int).push(
                            self.vals()[i as int],
                        ));
                        assert(mask.vals().take(i + 1 as int) =~= mask.vals().take(i as int).push(
                            mask.vals()[i as int],
                        ));
                        lemma_filter_snoc(
                            self.vals().take(i as int),
                            mask.vals().take(i as int),
                            self.vals()[i as int],
                            mask.vals()[i as int],
                        );
                    }
                    if mask_keep(mask, i) {
                        out.push(v[i]);
                    }
                    proof {
                        assert(out@.map(|k: int, x: u32| ScalarVal::Float32Bits(x))
                            =~= filter_by_mask(
                            self.vals().take(i + 1 as int),
                            mask.vals().take(i + 1 as int),
                        ));
                    }
                }
                let r = Array::Materialized(ColumnData::Float32Bits(out));
                proof {
                    assert(self.vals().take(len as int) =~= self.vals());
                    assert(mask.vals().take(len as int) =~= mask.vals());
                    assert(r.vals() =~= filter_by_mask(self.vals(), mask.vals()));
                }
                r
            },
            Array::Materialized(ColumnData::Float64Bits(v)) => {
                let mut out: Vec<u64> = Vec::new();
                for i in 0..len
                    invariant
                        len == self.len(),
                        len == v@.len(),
                        len == mask.len(),
                        mask.ty() == LogicalType::Int64,
                        *self == Array::Materialized(ColumnData::Float64Bits(*v)),
                        out@.map(|k: int, x: u64| ScalarVal::Float64Bits(x)) =~= filter_by_mask(
                            self.vals().take(i as int),
                            mask.vals().take(i as int),
                        ),
                {
                    proof {
                        assert(self.vals().take(i + 1 as int) =~= self.vals().take(i as int).push(
                            self.vals()[i as int],
                        ));
                        assert(mask.vals().take(i + 1 as int) =~= mask.vals().take(i as int).push(
                            mask.vals()[i as int],
                        ));
                        lemma_filter_snoc(
                            self.vals().take(i as int),
                            mask.vals().take(i as int),
                            self.vals()[i as int],
                            mask.vals()[i as int],
                        );
                    }
                    if mask_keep(mask, i) {
                        out.push(v[i]);
                    }
                    proof {
                        assert(out@.map(|k: int, x: u64| ScalarVal::Float64Bits(x))
                            =~= filter_by_mask(
                            self.vals().take(i + 1 as int),
                            mask.vals().take(i + 1 as int),
                        ));
                    }
                }
                let r = Array::Materialized(ColumnData::Float64Bits(out));
                proof {
                    assert(self.vals().take(len as int) =~= self.vals());
                    assert(mask.vals().take(len as int) =~= mask.vals());
                    assert(r.vals() =~= filter_by_mask(self.vals(), mask.vals()));
                }
                r
            },
            Array::Literal(v, _) => {
                let n = count_kept(mask);
                let r = Array::Literal(v.clone(), n);
                proof {
                    lemma_filter_const(v@, mask.vals());
                    assert(self.vals() =~= Seq::new(mask.vals().len(), |i: int| v@));
                    assert(r.vals() =~= filter_by_mask(self.vals(), mask.vals()));
                }
                r
            },
        }
    }
}

} // verus!
