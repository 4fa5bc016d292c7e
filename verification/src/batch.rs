use vstd::prelude::*;

use crate::array::{Array, ArrayRef};
use crate::error::Error;
use crate::scalar::{LogicalType, ScalarVal};

verus! {

/// One named, typed column position of a schema.
pub struct Field {
    pub name: String,
    pub data_type: LogicalType,
}

impl Field {
    pub fn new(name: String, data_type: LogicalType) -> (f: Field)
        ensures
            f.name == name,
            f.data_type == data_type,
    {
        Field { name, data_type }
    }
}

/// An ordered sequence of fields; identifies columns by position.
pub struct Schema {
    pub fields: Vec<Field>,
}

impl Schema {
    pub fn new(fields: Vec<Field>) -> (s: Schema)
        ensures
            s.fields == fields,
    {
        Schema { fields }
    }

    /// The logical types of the fields, in order.
    pub open spec fn tys(&self) -> Seq<LogicalType> {
        self.fields@.map(|i: int, f: Field| f.data_type)
    }

    /// The number of fields.
    pub fn len(&self) -> (n: usize)
        ensures
            n == self.fields@.len(),
    {
        self.fields.len()
    }
}

/// The mathematical value of a record batch: its fields, the value sequence
/// of each column, and the common row count.
pub struct BatchVal {
    pub fields: Seq<Field>,
    pub cols: Seq<Seq<ScalarVal>>,
    pub rows: nat,
}

impl BatchVal {
    /// Well-formedness at the model level: one column per field, every
    /// column of the common row count, every value of its column's type.
    pub open spec fn wf(&self) -> bool {
        &&& self.cols.len() == self.fields.len()
        &&& forall|i: int| 0 <= i < self.cols.len() ==> (#[trigger] self.cols[i]).len() == self.rows
        &&& forall|i: int, j: int|
            0 <= i < self.cols.len() && 0 <= j < self.rows ==> (#[trigger] self.cols[i][j]).ty()
                == self.fields[i].data_type
    }
}

/// An immutable table slice: a schema plus one column array per field. The
/// constructor establishes, and every batch thereafter maintains, that the
/// column count equals the field count, that each column's runtime logical
/// type equals its field's declared type, and that all columns share one row
/// count.
pub struct RecordBatch {
    pub schema: Schema,
    pub columns: Vec<ArrayRef>,
    pub row_count: usize,
}

impl RecordBatch {
    /// The schema of this batch.
    pub open spec fn spec_schema(&self) -> Schema {
        self.schema
    }

    /// The columns of this batch, as arrays.
    pub open spec fn cols(&self) -> Seq<Array> {
        self.columns@.map(|i: int, r: ArrayRef| *r)
    }

    /// The common row count of all columns.
    pub open spec fn rows(&self) -> nat {
        self.row_count as nat
    }

    /// The construction invariant of every batch.
    pub open spec fn well_formed(&self) -> bool {
        &&& self.cols().len() == self.schema.fields@.len()
        &&& forall|i: int|
            0 <= i < self.cols().len() ==> (#[trigger] self.cols()[i]).ty()
                == self.schema.fields@[i].data_type
        &&& forall|i: int|
            0 <= i < self.cols().len() ==> (#[trigger] self.cols()[i]).len() == self.rows()
    }

    /// Whether a schema and a column list fit together: equal counts, each
    /// column of its field's type, all columns of one shared row count.
    pub open spec fn fits(schema: Schema, columns: Seq<Array>) -> bool {
        &&& columns.len() == schema.fields@.len()
        &&& forall|i: int|
            0 <= i < columns.len() ==> (#[trigger] columns[i]).ty()
                == schema.fields@[i].data_type
        &&& forall|i: int|
            0 <= i < columns.len() ==> (#[trigger] columns[i]).len() == (if columns.len() == 0 {
                0
            } else {
                columns[0].len()
            })
    }

    /// Builds a batch, enforcing the invariant: `TypeMismatch` when the
    /// columns do not fit the schema.
    pub fn new(schema: Schema, columns: Vec<ArrayRef>) -> (r: Result<RecordBatch, Error>)
        ensures
            match r {
                Ok(b) => {
                    &&& Self::fits(schema, columns@.map(|i: int, c: ArrayRef| *c))
                    &&& b.well_formed()
                    &&& b.spec_schema() == schema
                    &&& b.cols() == columns@.map(|i: int, c: ArrayRef| *c)
                    &&& b.rows() == (if columns@.len() == 0 {
                        0
                    } else {
                        (*columns@[0]).len()
                    })
                },
                Err(e) => {
                    &&& !Self::fits(schema, columns@.map(|i: int, c: ArrayRef| *c))
                    &&& e == Error::TypeMismatch
                },
            },
    {
        if columns.len() != schema.fields.len() {
            return Err(Error::TypeMismatch);
        }
        let row_count: usize = if columns.len() == 0 {
            0
        } else {
            columns[0].size()
        };
        let n = columns.len();
        for i in 0..n
            invariant
                n == columns@.len(),
                n == schema.fields@.len(),
                row_count as nat == (if n == 0 {
                    0nat
                } else {
                    (*columns@[0]).len()
                }),
                forall|j: int|
                    0 <= j < i ==> (#[trigger] (*columns@[j]).ty())
                        == schema.fields@[j].data_type,
                forall|j: int| 0 <= j < i ==> (#[trigger] (*columns@[j]).len()) == row_count,
        {
            let ft = schema.fields[i].data_type;
            if columns[i].get_type() != ft {
                proof {
                    let cs = columns@.map(|k: int, c: ArrayRef| *c);
                    assert(cs[i as int] == *columns@[i as int]);
                    assert(!Self::fits(schema, cs));
                }
                return Err(Error::TypeMismatch);
            }
            if columns[i].size() != row_count {
                proof {
                    let cs = columns@.map(|k: int, c: ArrayRef| *c);
                    assert(cs[i as int] == *columns@[i as int]);
                    assert(cs[0] == *columns@[0]);
                    assert(!Self::fits(schema, cs));
                }
                return Err(Error::TypeMismatch);
            }
        }
        let b = RecordBatch { schema, columns, row_count };
        proof {
            assert(b.cols() =~= b.columns@.map(|i: int, r: ArrayRef| *r));
        }
        Ok(b)
    }

    /// The schema.
    pub fn schema(&self) -> (s: &Schema)
        ensures
            *s == self.spec_schema(),
    {
        &self.schema
    }

    /// The number of columns.
    pub fn column_count(&self) -> (n: usize)
        ensures
            n == self.cols().len(),
    {
        self.columns.len()
    }

    /// The common row count.
    pub fn row_count(&self) -> (n: usize)
        ensures
            n as nat == self.rows(),
    {
        self.row_count
    }

    /// The `i`-th column array, shared and uncopied.
    pub fn field(&self, i: usize) -> (c: &ArrayRef)
        requires
            i < self.cols().len(),
        ensures
            **c == self.cols()[i as int],
    {
        &self.columns[i]
    }

    /// The mathematical value of this batch.
    pub open spec fn model(&self) -> BatchVal {
        BatchVal {
            fields: self.schema.fields@,
            cols: self.cols().map(|i: int, a: Array| a.vals()),
            rows: self.rows(),
        }
    }

    /// Hands this batch out once more: the schema is copied, the column
    /// arrays are shared, not copied.
    pub fn duplicate(&self) -> (r: RecordBatch)
        ensures
            r.model() == self.model(),
            r.well_formed() == self.well_formed(),
    {
        let n = self.schema.fields.len();
        let mut fs: Vec<Field> = Vec::new();
        for i in 0..n
            invariant
                n == self.schema.fields@.len(),
                fs@ =~= self.schema.fields@.take(i as int),
        {
            let f = &self.schema.fields[i];
            fs.push(Field { name: f.name.clone(), data_type: f.data_type });
            proof {
                assert(fs@ =~= self.schema.fields@.take(i + 1 as int));
            }
        }
        let m = self.columns.len();
        let mut cols: Vec<ArrayRef> = Vec::new();
        for i in 0..m
            invariant
                m == self.columns@.len(),
                cols@ =~= self.columns@.take(i as int),
        {
            cols.push(crate::array::share(&self.columns[i]));
            proof {
                assert(cols@ =~= self.columns@.take(i + 1 as int));
            }
        }
        let r = RecordBatch { schema: Schema { fields: fs }, columns: cols, row_count: self.row_count };
        proof {
            assert(fs@ =~= self.schema.fields@);
            assert(cols@ =~= self.columns@);
            assert(r.cols() =~= self.cols());
            assert(r.model().cols =~= self.model().cols);
        }
        r
    }

    /// A well-formed batch has a well-formed model.
    pub proof fn lemma_model_wf(&self)
        requires
            self.well_formed(),
        ensures
            self.model().wf(),
    {
        let m = self.model();
        assert forall|i: int, j: int|
            0 <= i < m.cols.len() && 0 <= j < m.rows implies (#[trigger] m.cols[i][j]).ty()
            == m.fields[i].data_type by {
            self.cols()[i].lemma_vals_typed(j);
        }
    }
}

} // verus!
