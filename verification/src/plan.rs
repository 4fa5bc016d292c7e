use vstd::prelude::*;

use crate::array::{count_keep, filter_by_mask, ArrayRef};
use crate::batch::{BatchVal, Field, RecordBatch, Schema};
use crate::error::Error;
use crate::expr::{eval, expr_display, expr_ty, lemma_eval_wrt_schema, Expr};
use crate::scalar::LogicalType;
use std::rc::Rc;

verus! {

/// A leaf operator: produces the batches of an external data source, which
/// an adapter materializes into this node before execution, applying an
/// optional column-name subset to each batch, or passing batches through
/// unfiltered when none is requested.
pub struct Scan {
    pub schema: Schema,
    pub batches: Vec<RecordBatch>,
    pub projection: Option<Vec<String>>,
}

/// The first position in `fields` whose name reads as `name`, searched from
/// `from` on; a name of no field is a `ColumnIndexOutOfRange` failure.
pub open spec fn field_index(fields: Seq<Field>, name: Seq<char>, from: int) -> Result<int, Error>
    decreases fields.len() - from,
{
    if from < 0 || from >= fields.len() {
        Err(Error::ColumnIndexOutOfRange)
    } else if fields[from].name@ == name {
        Ok(from)
    } else {
        field_index(fields, name, from + 1)
    }
}

/// The field positions a name list selects, in the list's order, from `k`
/// on; the first name found in no field decides the error.
pub open spec fn resolve_names(fields: Seq<Field>, names: Seq<String>, k: int) -> Result<
    Seq<int>,
    Error,
>
    decreases names.len() - k,
{
    if k < 0 || k >= names.len() {
        Ok(Seq::empty())
    } else {
        match field_index(fields, names[k]@, 0) {
            Err(e) => Err(e),
            Ok(i) => match resolve_names(fields, names, k + 1) {
                Err(e) => Err(e),
                Ok(rest) => Ok(seq![i] + rest),
            },
        }
    }
}

/// The fields a scan produces: its source's, subset by the requested
/// column names where a subset is requested.
pub open spec fn scan_fields(s: Scan) -> Result<Seq<Field>, Error> {
    match s.projection {
        Option::None => Ok(s.schema.fields@),
        Option::Some(names) => match resolve_names(s.schema.fields@, names@, 0) {
            Err(e) => Err(e),
            Ok(idxs) => Ok(idxs.map(|k: int, i: int| s.schema.fields@[i])),
        },
    }
}

/// One batch subset to the fields of `sf` at positions `idxs`.
pub open spec fn subset_batch_m(sf: Seq<Field>, idxs: Seq<int>, bm: BatchVal) -> BatchVal {
    BatchVal {
        fields: idxs.map(|k: int, i: int| sf[i]),
        cols: idxs.map(|k: int, i: int| bm.cols[i]),
        rows: bm.rows,
    }
}

proof fn lemma_field_index_bound(fields: Seq<Field>, name: Seq<char>, from: int)
    requires
        0 <= from,
        field_index(fields, name, from) is Ok,
    ensures
        from <= field_index(fields, name, from)->Ok_0 < fields.len(),
    decreases fields.len() - from,
{
    if from < fields.len() && !(fields[from].name@ == name) {
        lemma_field_index_bound(fields, name, from + 1);
    }
}

proof fn lemma_resolve_shape(fields: Seq<Field>, names: Seq<String>, k: int)
    requires
        0 <= k <= names.len(),
        resolve_names(fields, names, k) is Ok,
    ensures
        ({
            let r = resolve_names(fields, names, k)->Ok_0;
            &&& r.len() == names.len() - k
            &&& forall|j: int| 0 <= j < r.len() ==> 0 <= #[trigger] r[j] < fields.len()
        }),
    decreases names.len() - k,
{
    if k < names.len() {
        lemma_field_index_bound(fields, names[k]@, 0);
        lemma_resolve_shape(fields, names, k + 1);
    }
}

/// A unary operator: computes one output column per expression from each
/// batch of its child, under the given output names.
pub struct Projection {
    pub child: Box<Plan>,
    pub exprs: Vec<Expr>,
    pub names: Vec<String>,
}

/// A unary operator: keeps only the rows of each child batch on which the
/// predicate evaluates to a nonzero integer, consistently across columns.
pub struct Selection {
    pub child: Box<Plan>,
    pub predicate: Expr,
}

/// An executable operator tree that produces record batches on demand.
pub enum Plan {
    Scan(Scan),
    Projection(Projection),
    Selection(Selection),
}

impl Plan {
    /// Structural well-formedness: every scan batch is well formed and
    /// carries the scan's own schema, fields and names alike; a projection
    /// names each of its expressions.
    pub open spec fn wf(&self) -> bool
        decreases self,
    {
        match self {
            Plan::Scan(s) => forall|i: int|
                0 <= i < s.batches@.len() ==> (#[trigger] s.batches@[i]).well_formed()
                    && s.batches@[i].spec_schema().fields@ == s.schema.fields@,
            Plan::Projection(p) => p.child.wf() && p.exprs@.len() == p.names@.len(),
            Plan::Selection(s) => s.child.wf(),
        }
    }

    /// The number of nodes in this subtree.
    pub open spec fn size(&self) -> nat
        decreases self,
    {
        match self {
            Plan::Scan(_) => 1,
            Plan::Projection(p) => 1 + p.child.size(),
            Plan::Selection(s) => 1 + s.child.size(),
        }
    }

    /// The height of this subtree.
    pub open spec fn height(&self) -> nat
        decreases self,
    {
        match self {
            Plan::Scan(_) => 1,
            Plan::Projection(p) => 1 + p.child.height(),
            Plan::Selection(s) => 1 + s.child.height(),
        }
    }
}

/// The fields a projection produces: one per expression, carrying the given
/// output name and the expression's output type against the child's fields,
/// from position `k` on. The first failing expression decides the error.
pub open spec fn proj_fields_from(
    exprs: Seq<Expr>,
    names: Seq<String>,
    cf: Seq<Field>,
    k: int,
) -> Result<Seq<Field>, Error>
    decreases exprs.len() - k,
{
    if k < 0 || k >= exprs.len() {
        Ok(Seq::empty())
    } else {
        match expr_ty(exprs[k], cf) {
            Err(e) => Err(e),
            Ok(t) => match proj_fields_from(exprs, names, cf, k + 1) {
                Err(e) => Err(e),
                Ok(rest) => Ok(seq![Field { name: names[k], data_type: t }] + rest),
            },
        }
    }
}

/// The schema a plan produces, or the first failure met while computing it:
/// a scan's own, possibly column-subsetted, schema; a projection's named
/// expression types against its child; a selection passes its child's
/// schema through unchanged.
pub open spec fn plan_fields(p: Plan) -> Result<Seq<Field>, Error>
    decreases p,
{
    match p {
        Plan::Scan(s) => scan_fields(s),
        Plan::Projection(pr) => match plan_fields(*pr.child) {
            Err(e) => Err(e),
            Ok(cf) => proj_fields_from(pr.exprs@, pr.names@, cf, 0),
        },
        Plan::Selection(sel) => plan_fields(*sel.child),
    }
}

/// What starting an execution demands, node by node from the leaves up:
/// everything the schema computation demands, and an integer-typed
/// predicate on every selection. Returns the plan's fields, which equal
/// `plan_fields` wherever both succeed.
pub open spec fn plan_check(p: Plan) -> Result<Seq<Field>, Error>
    decreases p,
{
    match p {
        Plan::Scan(s) => scan_fields(s),
        Plan::Projection(pr) => match plan_check(*pr.child) {
            Err(e) => Err(e),
            Ok(cf) => proj_fields_from(pr.exprs@, pr.names@, cf, 0),
        },
        Plan::Selection(sel) => match plan_check(*sel.child) {
            Err(e) => Err(e),
            Ok(cf) => match expr_ty(sel.predicate, cf) {
                Err(e) => Err(e),
                Ok(t) => if t == LogicalType::Int64 {
                    Ok(cf)
                } else {
                    Err(Error::TypeMismatch)
                },
            },
        },
    }
}

/// A plan that execution admits has a schema, and the same one.
pub proof fn lemma_plan_check_fields(p: Plan)
    requires
        plan_check(p) is Ok,
    ensures
        plan_fields(p) == plan_check(p),
    decreases p,
{
    match p {
        Plan::Scan(_) => {
        },
        Plan::Projection(pr) => {
            lemma_plan_check_fields(*pr.child);
        },
        Plan::Selection(sel) => {
            lemma_plan_check_fields(*sel.child);
        },
    }
}

/// Computes an expression's output type against a schema, mirroring
/// `expr_ty` exactly.
pub fn expr_ty_exec(e: &Expr, s: &Schema) -> (r: Result<LogicalType, Error>)
    ensures
        match expr_ty(*e, s.fields@) {
            Ok(t) => r == Ok::<LogicalType, Error>(t),
            Err(er) => r == Err::<LogicalType, Error>(er),
        },
    decreases *e,
{
    match e {
        Expr::Column(c) => if c.i < s.fields.len() {
            Ok(s.fields[c.i].data_type)
        } else {
            Err(Error::ColumnIndexOutOfRange)
        },
        Expr::Literal(v) => Ok(v.logical_type()),
        Expr::BinaryExpr(be) => {
            let l = expr_ty_exec(&be.left, s)?;
            let r = expr_ty_exec(&be.right, s)?;
            if l != r {
                Err(Error::TypeMismatch)
            } else {
                match be.op {
                    crate::expr::Operator::Add => if l == LogicalType::Int64 {
                        Ok(LogicalType::Int64)
                    } else {
                        Err(Error::NotImplemented)
                    },
                    _ => Err(Error::NotImplemented),
                }
            }
        },
    }
}

fn proj_schema_exec(exprs: &Vec<Expr>, names: &Vec<String>, cs: &Schema, k: usize) -> (r: Result<
    Vec<Field>,
    Error,
>)
    requires
        k <= exprs@.len(),
        exprs@.len() == names@.len(),
    ensures
        match proj_fields_from(exprs@, names@, cs.fields@, k as int) {
            Ok(fs) => r is Ok && r->Ok_0@ == fs,
            Err(e) => r == Err::<Vec<Field>, Error>(e),
        },
    decreases exprs@.len() - k,
{
    if k == exprs.len() {
        Ok(Vec::new())
    } else {
        let t = expr_ty_exec(&exprs[k], cs)?;
        let mut rest = proj_schema_exec(exprs, names, cs, k + 1)?;
        rest.insert(0, Field { name: names[k].clone(), data_type: t });
        proof {
            assert(rest@ =~= proj_fields_from(exprs@, names@, cs.fields@, k as int)->Ok_0);
        }
        Ok(rest)
    }
}

fn field_index_exec(fields: &Vec<Field>, name: &String, from: usize) -> (r: Result<usize, Error>)
    requires
        from <= fields@.len(),
    ensures
        match field_index(fields@, name@, from as int) {
            Ok(i) => r is Ok && r->Ok_0 == i,
            Err(e) => r == Err::<usize, Error>(e),
        },
    decreases fields@.len() - from,
{
    if from == fields.len() {
        Err(Error::ColumnIndexOutOfRange)
    } else if fields[from].name == *name {
        Ok(from)
    } else {
        field_index_exec(fields, name, from + 1)
    }
}

fn resolve_names_exec(fields: &Vec<Field>, names: &Vec<String>, k: usize) -> (r: Result<
    Vec<usize>,
    Error,
>)
    requires
        k <= names@.len(),
    ensures
        match resolve_names(fields@, names@, k as int) {
            Ok(idxs) => {
                &&& r is Ok
                &&& r->Ok_0@.len() == idxs.len()
                &&& forall|j: int| 0 <= j < idxs.len() ==> r->Ok_0@[j] as int == idxs[j]
            },
            Err(e) => r == Err::<Vec<usize>, Error>(e),
        },
    decreases names@.len() - k,
{
    if k == names.len() {
        Ok(Vec::new())
    } else {
        let i = field_index_exec(fields, &names[k], 0)?;
        let mut rest = resolve_names_exec(fields, names, k + 1)?;
        rest.insert(0, i);
        proof {
            let idxs = resolve_names(fields@, names@, k as int)->Ok_0;
            assert(idxs == seq![field_index(fields@, names@[k as int]@, 0)->Ok_0] + resolve_names(
                fields@,
                names@,
                k + 1 as int,
            )->Ok_0);
            assert forall|j: int| 0 <= j < idxs.len() implies rest@[j] as int == idxs[j] by {
                if j > 0 {
                    assert(rest@[j] == rest@.subrange(1, rest@.len() as int)[j - 1]);
                }
            }
        }
        Ok(rest)
    }
}

impl Plan {
    /// The schema this plan produces, computed from the plan structure
    /// alone, deterministically; the first failure met surfaces here.
    pub fn schema(&self) -> (r: Result<Schema, Error>)
        requires
            self.wf(),
        ensures
            match plan_fields(*self) {
                Ok(fs) => r is Ok && r->Ok_0.fields@ == fs,
                Err(e) => r == Err::<Schema, Error>(e),
            },
        decreases *self,
    {
        match self {
            Plan::Scan(s) => {
                match &s.projection {
                    Option::None => {
                        let n = s.schema.fields.len();
                        let mut fs: Vec<Field> = Vec::new();
                        for i in 0..n
                            invariant
                                n == s.schema.fields@.len(),
                                fs@ =~= s.schema.fields@.take(i as int),
                        {
                            let f = &s.schema.fields[i];
                            fs.push(Field { name: f.name.clone(), data_type: f.data_type });
                            proof {
                                assert(fs@ =~= s.schema.fields@.take(i + 1 as int));
                            }
                        }
                        proof {
                            assert(fs@ =~= s.schema.fields@);
                        }
                        Ok(Schema { fields: fs })
                    },
                    Option::Some(names) => {
                        let idxs = resolve_names_exec(&s.schema.fields, names, 0)?;
                        let ghost si = resolve_names(s.schema.fields@, names@, 0)->Ok_0;
                        proof {
                            lemma_resolve_shape(s.schema.fields@, names@, 0);
                        }
                        let n = idxs.len();
                        let mut fs: Vec<Field> = Vec::new();
                        for j in 0..n
                            invariant
                                n == idxs@.len(),
                                n == si.len(),
                                forall|jj: int|
                                    0 <= jj < n ==> #[trigger] idxs@[jj] as int == si[jj] && 0
                                        <= si[jj] < s.schema.fields@.len(),
                                fs@.len() == j,
                                forall|jj: int|
                                    0 <= jj < j ==> #[trigger] fs@[jj]
                                        == s.schema.fields@[si[jj]],
                        {
                            let f = &s.schema.fields[idxs[j]];
                            fs.push(Field { name: f.name.clone(), data_type: f.data_type });
                        }
                        proof {
                            assert(fs@ =~= si.map(|k: int, i: int| s.schema.fields@[i]));
                        }
                        Ok(Schema { fields: fs })
                    },
                }
            },
            Plan::Projection(pr) => {
                let cs = pr.child.schema()?;
                let fs = proj_schema_exec(&pr.exprs, &pr.names, &cs, 0)?;
                Ok(Schema { fields: fs })
            },
            Plan::Selection(sel) => sel.child.schema(),
        }
    }

    /// The direct children of this node, enabling uniform tree walks: none
    /// for a scan, exactly the one child for a projection or a selection.
    pub fn children(&self) -> (v: Vec<&Plan>)
        ensures
            match self {
                Plan::Scan(_) => v@.len() == 0,
                Plan::Projection(p) => v@.len() == 1 && *v@[0] == *p.child,
                Plan::Selection(s) => v@.len() == 1 && *v@[0] == *s.child,
            },
    {
        let mut v: Vec<&Plan> = Vec::new();
        match self {
            Plan::Scan(_) => {
            },
            Plan::Projection(p) => {
                v.push(&*p.child);
            },
            Plan::Selection(s) => {
                v.push(&*s.child);
            },
        }
        v
    }
}

proof fn lemma_proj_fields_ok(es: Seq<Expr>, ns: Seq<String>, cf: Seq<Field>, k: int)
    requires
        0 <= k <= es.len(),
        forall|j: int| k <= j < es.len() ==> expr_ty(#[trigger] es[j], cf) is Ok,
    ensures
        proj_fields_from(es, ns, cf, k) is Ok,
    decreases es.len() - k,
{
    if k < es.len() {
        lemma_proj_fields_ok(es, ns, cf, k + 1);
    }
}

proof fn lemma_proj_fields_err(es: Seq<Expr>, ns: Seq<String>, cf: Seq<Field>, k: int, i: int)
    requires
        0 <= k <= i < es.len(),
        forall|j: int| k <= j < i ==> expr_ty(#[trigger] es[j], cf) is Ok,
        expr_ty(es[i], cf) is Err,
    ensures
        proj_fields_from(es, ns, cf, k) == Err::<Seq<Field>, Error>(expr_ty(es[i], cf)->Err_0),
    decreases i - k,
{
    if k < i {
        lemma_proj_fields_err(es, ns, cf, k + 1, i);
    }
}

proof fn lemma_proj_fields_shape(es: Seq<Expr>, ns: Seq<String>, cf: Seq<Field>, k: int)
    requires
        0 <= k <= es.len(),
        proj_fields_from(es, ns, cf, k) is Ok,
    ensures
        ({
            let fs = proj_fields_from(es, ns, cf, k)->Ok_0;
            &&& fs.len() == es.len() - k
            &&& forall|j: int|
                k <= j < es.len() ==> expr_ty(#[trigger] es[j], cf) is Ok && fs[j - k] == (Field {
                    name: ns[j],
                    data_type: expr_ty(es[j], cf)->Ok_0,
                })
        }),
    decreases es.len() - k,
{
    if k < es.len() {
        lemma_proj_fields_shape(es, ns, cf, k + 1);
    }
}

/// What a projection makes of one input batch: one output column per
/// expression, named as given, over the input's row count.
pub open spec fn proj_batch_m(exprs: Seq<Expr>, names: Seq<String>, bm: BatchVal) -> BatchVal {
    BatchVal {
        fields: Seq::new(
            exprs.len(),
            |i: int| Field { name: names[i], data_type: expr_ty(exprs[i], bm.fields)->Ok_0 },
        ),
        cols: Seq::new(exprs.len(), |i: int| eval(exprs[i], bm)->Ok_0.vals),
        rows: bm.rows,
    }
}

/// What a selection makes of one input batch: the same schema, every column
/// compacted by the predicate's mask, the row count the mask's keep count.
pub open spec fn filter_batch_m(pred: Expr, bm: BatchVal) -> BatchVal {
    let mask = eval(pred, bm)->Ok_0.vals;
    BatchVal {
        fields: bm.fields,
        cols: Seq::new(bm.cols.len(), |i: int| filter_by_mask(bm.cols[i], mask)),
        rows: count_keep(mask),
    }
}

/// The batches a plan produces, batch for batch: a scan's own batches, a
/// projection's transformation of each child batch, a selection's
/// compaction of each child batch.
pub open spec fn plan_out(p: Plan) -> Seq<BatchVal>
    decreases p,
{
    match p {
        Plan::Scan(s) => match s.projection {
            Option::None => s.batches@.map(|i: int, b: RecordBatch| b.model()),
            Option::Some(names) => match resolve_names(s.schema.fields@, names@, 0) {
                Err(_) => Seq::empty(),
                Ok(idxs) => s.batches@.map(
                    |i: int, b: RecordBatch| subset_batch_m(s.schema.fields@, idxs, b.model()),
                ),
            },
        },
        Plan::Projection(pr) => plan_out(*pr.child).map(
            |i: int, bm: BatchVal| proj_batch_m(pr.exprs@, pr.names@, bm),
        ),
        Plan::Selection(sel) => plan_out(*sel.child).map(
            |i: int, bm: BatchVal| filter_batch_m(sel.predicate, bm),
        ),
    }
}

/// Schema propagation: every batch a plan that execution admits produces
/// is well formed and carries exactly the plan's computed fields, names
/// included.
pub proof fn lemma_plan_out_fields(p: Plan)
    requires
        p.wf(),
        plan_check(p) is Ok,
    ensures
        forall|k: int|
            0 <= k < plan_out(p).len() ==> (#[trigger] plan_out(p)[k]).wf()
                && plan_out(p)[k].fields == plan_check(p)->Ok_0,
    decreases p,
{
    match p {
        Plan::Scan(s) => {
            match s.projection {
                Option::None => {
                    assert forall|k: int| 0 <= k < plan_out(p).len() implies (
                    #[trigger] plan_out(p)[k]).wf() && plan_out(p)[k].fields == plan_check(
                        p,
                    )->Ok_0 by {
                        assert(plan_out(p)[k] == s.batches@[k].model());
                        s.batches@[k].lemma_model_wf();
                    }
                },
                Option::Some(names) => {
                    let sf = s.schema.fields@;
                    let idxs = resolve_names(sf, names@, 0)->Ok_0;
                    lemma_resolve_shape(sf, names@, 0);
                    assert forall|k: int| 0 <= k < plan_out(p).len() implies (
                    #[trigger] plan_out(p)[k]).wf() && plan_out(p)[k].fields == plan_check(
                        p,
                    )->Ok_0 by {
                        s.batches@[k].lemma_model_wf();
                        let bm = s.batches@[k].model();
                        let ob = subset_batch_m(sf, idxs, bm);
                        assert(plan_out(p)[k] == ob);
                        assert(bm.fields == sf);
                        assert forall|jj: int| 0 <= jj < ob.cols.len() implies ({
                            &&& (#[trigger] ob.cols[jj]).len() == ob.rows
                            &&& forall|r: int|
                                0 <= r < ob.rows ==> (#[trigger] ob.cols[jj][r]).ty()
                                    == ob.fields[jj].data_type
                        }) by {
                            let idx = idxs[jj];
                            assert(ob.cols[jj] == bm.cols[idx]);
                            assert(ob.fields[jj] == sf[idx]);
                            assert forall|r: int| 0 <= r < ob.rows implies (
                            #[trigger] ob.cols[jj][r]).ty() == ob.fields[jj].data_type by {
                                assert(ob.cols[jj][r] == bm.cols[idx][r]);
                                assert(bm.cols[idx][r].ty() == bm.fields[idx].data_type);
                            }
                        }
                        assert(ob.wf());
                        assert(ob.fields =~= plan_check(p)->Ok_0);
                    }
                },
            }
        },
        Plan::Projection(pr) => {
            lemma_plan_out_fields(*pr.child);
            let cf = plan_check(*pr.child)->Ok_0;
            lemma_proj_fields_shape(pr.exprs@, pr.names@, cf, 0);
            let fs = plan_check(p)->Ok_0;
            assert forall|k: int| 0 <= k < plan_out(p).len() implies (#[trigger] plan_out(p)[k]).wf()
                && plan_out(p)[k].fields == fs by {
                let bm = plan_out(*pr.child)[k];
                assert(bm.wf() && bm.fields == cf);
                let ob = proj_batch_m(pr.exprs@, pr.names@, bm);
                assert(plan_out(p)[k] == ob);
                assert forall|i: int| 0 <= i < pr.exprs@.len() implies ({
                    &&& eval(#[trigger] pr.exprs@[i], bm) is Ok
                    &&& eval(pr.exprs@[i], bm)->Ok_0.ty == expr_ty(pr.exprs@[i], cf)->Ok_0
                    &&& eval(pr.exprs@[i], bm)->Ok_0.vals.len() == bm.rows
                    &&& forall|j: int|
                        0 <= j < bm.rows ==> (#[trigger] eval(pr.exprs@[i], bm)->Ok_0.vals[j]).ty()
                            == expr_ty(pr.exprs@[i], cf)->Ok_0
                }) by {
                    lemma_eval_wrt_schema(pr.exprs@[i], bm);
                }
                assert(ob.wf());
                assert(ob.fields =~= fs);
            }
        },
        Plan::Selection(sel) => {
            lemma_plan_out_fields(*sel.child);
            let cf = plan_check(*sel.child)->Ok_0;
            assert forall|k: int| 0 <= k < plan_out(p).len() implies (#[trigger] plan_out(p)[k]).wf()
                && plan_out(p)[k].fields == plan_check(p)->Ok_0 by {
                let bm = plan_out(*sel.child)[k];
                assert(bm.wf() && bm.fields == cf);
                lemma_eval_wrt_schema(sel.predicate, bm);
                let mask = eval(sel.predicate, bm)->Ok_0.vals;
                let ob = filter_batch_m(sel.predicate, bm);
                assert(plan_out(p)[k] == ob);
                assert forall|i: int| 0 <= i < bm.cols.len() implies ({
                    &&& (#[trigger] ob.cols[i]).len() == ob.rows
                    &&& forall|j: int|
                        0 <= j < ob.rows ==> (#[trigger] ob.cols[i][j]).ty()
                            == bm.fields[i].data_type
                }) by {
                    crate::array::lemma_filter_len(bm.cols[i], mask);
                    crate::array::lemma_filter_typed(bm.cols[i], mask, bm.fields[i].data_type);
                    crate::array::lemma_filter_len(mask, mask);
                }
                assert(ob.wf());
            }
        },
    }
}

/// The comma-separated rendering of an expression list, from position `k`
/// on; the first failing expression decides the error.
pub open spec fn exprs_display_from(es: Seq<Expr>, k: int) -> Result<Seq<char>, Error>
    decreases es.len() - k,
{
    if k < 0 || k >= es.len() {
        Ok(Seq::empty())
    } else if k == es.len() - 1 {
        expr_display(es[k])
    } else {
        match expr_display(es[k]) {
            Err(e) => Err(e),
            Ok(h) => match exprs_display_from(es, k + 1) {
                Err(e) => Err(e),
                Ok(t) => Ok(h + seq![',', ' '] + t),
            },
        }
    }
}

/// The one-line rendering of a plan node, holding no newline of its own.
pub open spec fn plan_display(p: Plan) -> Result<Seq<char>, Error> {
    match p {
        Plan::Scan(_) => Ok("Scan"@),
        Plan::Projection(pr) => match exprs_display_from(pr.exprs@, 0) {
            Err(e) => Err(e),
            Ok(t) => Ok("Projection: "@ + t),
        },
        Plan::Selection(sel) => match expr_display(sel.predicate) {
            Err(e) => Err(e),
            Ok(t) => Ok("Selection: "@ + t),
        },
    }
}

/// `n` tab characters.
pub open spec fn tabs(n: nat) -> Seq<char> {
    Seq::new(n, |i: int| '\t')
}

/// The depth-first rendering of a plan tree: each node on one line,
/// indented by one tab per level of depth.
pub open spec fn pretty_spec(p: Plan, indent: nat) -> Result<Seq<char>, Error>
    decreases p,
{
    match plan_display(p) {
        Err(e) => Err(e),
        Ok(line) => {
            let head = tabs(indent) + line + seq!['\n'];
            match p {
                Plan::Scan(_) => Ok(head),
                Plan::Projection(pr) => match pretty_spec(*pr.child, indent + 1) {
                    Err(e) => Err(e),
                    Ok(t) => Ok(head + t),
                },
                Plan::Selection(sel) => match pretty_spec(*sel.child, indent + 1) {
                    Err(e) => Err(e),
                    Ok(t) => Ok(head + t),
                },
            }
        },
    }
}

fn exprs_to_string(es: &Vec<Expr>, k: usize) -> (r: Result<String, Error>)
    requires
        k <= es@.len(),
    ensures
        match exprs_display_from(es@, k as int) {
            Ok(t) => r is Ok && r->Ok_0@ == t,
            Err(e) => r == Err::<String, Error>(e),
        },
    decreases es@.len() - k,
{
    if k == es.len() {
        Ok(String::new())
    } else if k + 1 == es.len() {
        es[k].to_string()
    } else {
        let mut s = es[k].to_string()?;
        let rest = exprs_to_string(es, k + 1)?;
        s.append(", ");
        proof {
            reveal_strlit(", ");
        }
        s.append(rest.as_str());
        proof {
            assert(s@ =~= exprs_display_from(es@, k as int)->Ok_0);
        }
        Ok(s)
    }
}

impl Plan {
    /// The one-line rendering of this node.
    pub fn to_string(&self) -> (r: Result<String, Error>)
        ensures
            match plan_display(*self) {
                Ok(t) => r is Ok && r->Ok_0@ == t,
                Err(e) => r == Err::<String, Error>(e),
            },
    {
        match self {
            Plan::Scan(_) => {
                proof {
                    reveal_strlit("Scan");
                }
                Ok("Scan".to_owned())
            },
            Plan::Projection(pr) => {
                let t = exprs_to_string(&pr.exprs, 0)?;
                let mut s = "Projection: ".to_owned();
                proof {
                    reveal_strlit("Projection: ");
                }
                s.append(t.as_str());
                proof {
                    assert(s@ =~= plan_display(*self)->Ok_0);
                }
                Ok(s)
            },
            Plan::Selection(sel) => {
                let t = sel.predicate.to_string()?;
                let mut s = "Selection: ".to_owned();
                proof {
                    reveal_strlit("Selection: ");
                }
                s.append(t.as_str());
                proof {
                    assert(s@ =~= plan_display(*self)->Ok_0);
                }
                Ok(s)
            },
        }
    }

    /// Renders the subtree depth-first, one line per node, each line
    /// indented by one tab per level below the start.
    pub fn pretty(&self, indent: usize) -> (r: Result<String, Error>)
        requires
            indent + self.height() <= usize::MAX,
        ensures
            match pretty_spec(*self, indent as nat) {
                Ok(t) => r is Ok && r->Ok_0@ == t,
                Err(e) => r == Err::<String, Error>(e),
            },
        decreases *self,
    {
        let mut s = String::new();
        for k in 0..indent
            invariant
                s@ =~= tabs(k as nat),
        {
            s.append("\t");
            proof {
                reveal_strlit("\t");
                assert(s@ =~= tabs((k + 1) as nat));
            }
        }
        let line = self.to_string()?;
        s.append(line.as_str());
        s.append("\n");
        proof {
            reveal_strlit("\n");
            assert(s@ =~= tabs(indent as nat) + plan_display(*self)->Ok_0 + seq!['\n']);
        }
        match self {
            Plan::Scan(_) => Ok(s),
            Plan::Projection(pr) => {
                let t = pr.child.pretty(indent + 1)?;
                s.append(t.as_str());
                proof {
                    assert(s@ =~= pretty_spec(*self, indent as nat)->Ok_0);
                }
                Ok(s)
            },
            Plan::Selection(sel) => {
                let t = sel.child.pretty(indent + 1)?;
                s.append(t.as_str());
                proof {
                    assert(s@ =~= pretty_spec(*self, indent as nat)->Ok_0);
                }
                Ok(s)
            },
        }
    }
}

/// The lazy sequence of batches one execution of a plan produces: an
/// explicit cursor, pulled one batch at a time until exhaustion. Each
/// execution owns its cursor exclusively; dropping it early is harmless.
pub enum BatchStream {
    Scan { batches: Vec<RecordBatch>, pos: usize, projection: Option<ScanProjection> },
    Projection { child: Box<BatchStream>, exprs: Vec<Expr>, names: Vec<String> },
    Selection { child: Box<BatchStream>, predicate: Expr },
}

/// A scan's column subset, resolved once at the start of execution: the
/// source positions to keep and the fields the kept columns carry.
pub struct ScanProjection {
    pub idxs: Vec<usize>,
    pub fields: Vec<Field>,
}

impl BatchStream {
    /// The batches this cursor has yet to produce.
    pub open spec fn out(self) -> Seq<BatchVal>
        decreases self,
    {
        match self {
            BatchStream::Scan { batches, pos, projection } => {
                let ms = batches@.map(|i: int, b: RecordBatch| b.model()).skip(pos as int);
                match projection {
                    Option::None => ms,
                    Option::Some(sp) => ms.map(
                        |i: int, bm: BatchVal| BatchVal {
                            fields: sp.fields@,
                            cols: sp.idxs@.map(|k: int, idx: usize| bm.cols[idx as int]),
                            rows: bm.rows,
                        },
                    ),
                }
            },
            BatchStream::Projection { child, exprs, names } => child.out().map(
                |i: int, bm: BatchVal| proj_batch_m(exprs@, names@, bm),
            ),
            BatchStream::Selection { child, predicate } => child.out().map(
                |i: int, bm: BatchVal| filter_batch_m(predicate, bm),
            ),
        }
    }

    /// The cursor invariant: the remaining source batches are well formed,
    /// and every remaining batch admits the transformations above it.
    pub open spec fn svalid(self) -> bool
        decreases self,
    {
        match self {
            BatchStream::Scan { batches, pos, projection } => {
                &&& pos <= batches@.len()
                &&& forall|i: int|
                    pos <= i < batches@.len() ==> (#[trigger] batches@[i]).well_formed()
                &&& match projection {
                    Option::None => true,
                    Option::Some(sp) => {
                        &&& sp.idxs@.len() == sp.fields@.len()
                        &&& forall|i: int, j: int|
                            pos <= i < batches@.len() && 0 <= j < sp.idxs@.len() ==> ((
                            #[trigger] sp.idxs@[j]) as int) < (#[trigger] batches@[i]).cols().len()
                                && sp.fields@[j].data_type == batches@[i].model().fields[sp.idxs@[j] as int].data_type
                    },
                }
            },
            BatchStream::Projection { child, exprs, names } => {
                &&& child.svalid()
                &&& exprs@.len() == names@.len()
                &&& forall|k: int, i: int|
                    0 <= k < child.out().len() && 0 <= i < exprs@.len() ==> expr_ty(
                        #[trigger] exprs@[i],
                        (#[trigger] child.out()[k]).fields,
                    ) is Ok
            },
            BatchStream::Selection { child, predicate } => {
                &&& child.svalid()
                &&& forall|k: int|
                    0 <= k < child.out().len() ==> expr_ty(
                        predicate,
                        (#[trigger] child.out()[k]).fields,
                    ) == Ok::<LogicalType, Error>(LogicalType::Int64)
            },
        }
    }

    /// Produces the next batch, or `None` once the sequence is exhausted.
    /// Every batch produced is well formed and is exactly the next batch
    /// the stream's meaning lists.
    pub fn next_batch(&mut self) -> (r: Option<RecordBatch>)
        requires
            old(self).svalid(),
        ensures
            final(self).svalid(),
            match r {
                Some(b) => {
                    &&& old(self).out().len() > 0
                    &&& b.well_formed()
                    &&& b.model() == old(self).out()[0]
                    &&& final(self).out() == old(self).out().drop_first()
                },
                None => old(self).out().len() == 0 && final(self).out() == old(self).out(),
            },
        decreases *old(self),
    {
        match self {
            BatchStream::Scan { batches, pos, projection } => {
                if *pos < batches.len() {
                    let nb = match projection {
                        Option::None => batches[*pos].duplicate(),
                        Option::Some(sp) => {
                            let src = &batches[*pos];
                            let ghost bm = src.model();
                            let n = sp.idxs.len();
                            let mut fs: Vec<Field> = Vec::new();
                            let mut cols: Vec<ArrayRef> = Vec::new();
                            for j in 0..n
                                invariant
                                    n == sp.idxs@.len(),
                                    n == sp.fields@.len(),
                                    src.well_formed(),
                                    bm == src.model(),
                                    forall|jj: int|
                                        0 <= jj < n ==> ((#[trigger] sp.idxs@[jj]) as int)
                                            < src.cols().len() && sp.fields@[jj].data_type
                                            == bm.fields[sp.idxs@[jj] as int].data_type,
                                    fs@.len() == j,
                                    cols@.len() == j,
                                    forall|jj: int| 0 <= jj < j ==> #[trigger] fs@[jj] == sp.fields@[jj],
                                    forall|jj: int|
                                        0 <= jj < j ==> (*(#[trigger] cols@[jj])) == src.cols()[sp.idxs@[jj] as int],
                            {
                                let f = &sp.fields[j];
                                fs.push(Field { name: f.name.clone(), data_type: f.data_type });
                                cols.push(crate::array::share(src.field(sp.idxs[j])));
                            }
                            let rc = src.row_count();
                            let nb = RecordBatch {
                                schema: Schema { fields: fs },
                                columns: cols,
                                row_count: rc,
                            };
                            proof {
                                assert(nb.model().fields =~= sp.fields@);
                                assert(nb.model().cols =~= sp.idxs@.map(
                                    |k: int, idx: usize| bm.cols[idx as int],
                                ));
                                assert forall|jj: int| 0 <= jj < nb.cols().len() implies (
                                #[trigger] nb.cols()[jj]).ty() == nb.schema.fields@[jj].data_type
                                    && nb.cols()[jj].len() == nb.rows() by {
                                    let idx = sp.idxs@[jj] as int;
                                    assert(nb.cols()[jj] == src.cols()[idx]);
                                    assert(bm.fields[idx].data_type == src.schema.fields@[idx].data_type);
                                }
                                assert(nb.well_formed());
                            }
                            nb
                        },
                    };
                    *pos = *pos + 1;
                    proof {
                        let ms = batches@.map(|i: int, bb: RecordBatch| bb.model());
                        assert(ms.skip(*pos as int) =~= ms.skip(*pos - 1).drop_first());
                        match projection {
                            Option::None => {
                            },
                            Option::Some(sp) => {
                                let f = |i: int, bmm: BatchVal| BatchVal {
                                    fields: sp.fields@,
                                    cols: sp.idxs@.map(|k: int, idx: usize| bmm.cols[idx as int]),
                                    rows: bmm.rows,
                                };
                                assert(ms.skip(*pos as int).map(f) =~= ms.skip(*pos - 1).map(
                                    f,
                                ).drop_first());
                            },
                        }
                    }
                    Some(nb)
                } else {
                    None
                }
            },
            BatchStream::Projection { child, exprs, names } => {
                let ghost co = child.out();
                match child.next_batch() {
                    None => None,
                    Some(cb) => {
                        let ghost bm = cb.model();
                        proof {
                            cb.lemma_model_wf();
                            assert(bm == co[0]);
                        }
                        let m = exprs.len();
                        let mut fs: Vec<Field> = Vec::new();
                        let mut cols: Vec<ArrayRef> = Vec::new();
                        for i in 0..m
                            invariant
                                m == exprs@.len(),
                                m == names@.len(),
                                cb.well_formed(),
                                bm == cb.model(),
                                bm.wf(),
                                forall|ii: int|
                                    0 <= ii < m ==> expr_ty(#[trigger] exprs@[ii], bm.fields) is Ok,
                                fs@.len() == i,
                                cols@.len() == i,
                                forall|j: int|
                                    0 <= j < i ==> fs@[j] == (Field {
                                        name: names@[j],
                                        data_type: expr_ty(exprs@[j], bm.fields)->Ok_0,
                                    }),
                                forall|j: int|
                                    0 <= j < i ==> (*(#[trigger] cols@[j])).vals() == eval(
                                        exprs@[j],
                                        bm,
                                    )->Ok_0.vals && (*cols@[j]).ty() == expr_ty(
                                        exprs@[j],
                                        bm.fields,
                                    )->Ok_0,
                        {
                            proof {
                                lemma_eval_wrt_schema(exprs@[i as int], bm);
                            }
                            let arr = match exprs[i].evaluate(&cb) {
                                Ok(a) => a,
                                Err(_) => {
                                    // the stream invariant rules this arm out
                                    proof {
                                        assert(false);
                                    }
                                    return None;
                                },
                            };
                            let t = arr.get_type();
                            fs.push(Field { name: names[i].clone(), data_type: t });
                            cols.push(arr);
                        }
                        let rc = cb.row_count();
                        let nb = RecordBatch {
                            schema: Schema { fields: fs },
                            columns: cols,
                            row_count: rc,
                        };
                        proof {
                            let ob = proj_batch_m(exprs@, names@, bm);
                            assert(nb.model().fields =~= ob.fields);
                            assert(nb.model().cols =~= ob.cols);
                            assert(nb.model().rows == ob.rows);
                            assert forall|ii: int| 0 <= ii < nb.cols().len() implies (
                            #[trigger] nb.cols()[ii]).ty() == nb.schema.fields@[ii].data_type && nb.cols()[ii].len()
                                == nb.rows() by {
                                lemma_eval_wrt_schema(exprs@[ii], bm);
                            }
                            assert(nb.well_formed());
                            assert(child.out() == co.drop_first());
                            let f = |i: int, bmm: BatchVal| proj_batch_m(exprs@, names@, bmm);
                            assert(child.out().map(f) =~= co.map(f).drop_first());
                        }
                        Some(nb)
                    },
                }
            },
            BatchStream::Selection { child, predicate } => {
                let ghost co = child.out();
                match child.next_batch() {
                    None => None,
                    Some(cb) => {
                        let ghost bm = cb.model();
                        proof {
                            cb.lemma_model_wf();
                            assert(bm == co[0]);
                            lemma_eval_wrt_schema(*predicate, bm);
                        }
                        let mask_ref = match predicate.evaluate(&cb) {
                            Ok(a) => a,
                            Err(_) => {
                                // the stream invariant rules this arm out
                                proof {
                                    assert(false);
                                }
                                return None;
                            },
                        };
                        let ghost mask = eval(*predicate, bm)->Ok_0.vals;
                        let cnt = crate::array::count_kept(&mask_ref);
                        let n = cb.column_count();
                        let mut cols: Vec<ArrayRef> = Vec::new();
                        for i in 0..n
                            invariant
                                n == cb.cols().len(),
                                cb.well_formed(),
                                bm == cb.model(),
                                bm.wf(),
                                (*mask_ref).ty() == LogicalType::Int64,
                                (*mask_ref).vals() == mask,
                                mask.len() == bm.rows,
                                cols@.len() == i,
                                forall|j: int|
                                    0 <= j < i ==> (*(#[trigger] cols@[j])).vals() == filter_by_mask(
                                        bm.cols[j],
                                        mask,
                                    ) && (*cols@[j]).ty() == cb.cols()[j].ty(),
                        {
                            let fref = cb.field(i);
                            let filtered = fref.filter(&mask_ref);
                            cols.push(Rc::new(filtered));
                        }
                        let nb = RecordBatch {
                            schema: cb.schema,
                            columns: cols,
                            row_count: cnt,
                        };
                        proof {
                            let ob = filter_batch_m(*predicate, bm);
                            assert(nb.model().fields =~= ob.fields);
                            assert(nb.model().cols =~= ob.cols);
                            assert(nb.model().rows == ob.rows);
                            assert forall|ii: int| 0 <= ii < nb.cols().len() implies (
                            #[trigger] nb.cols()[ii]).ty() == nb.schema.fields@[ii].data_type && nb.cols()[ii].len()
                                == nb.rows() by {
                                crate::array::lemma_filter_len(bm.cols[ii], mask);
                            }
                            assert(nb.well_formed());
                            assert(child.out() == co.drop_first());
                            let f = |i: int, bmm: BatchVal| filter_batch_m(*predicate, bmm);
                            assert(child.out().map(f) =~= co.map(f).drop_first());
                        }
                        Some(nb)
                    },
                }
            },
        }
    }
}

impl Plan {
    /// Starts one execution of this plan. The checks that execution demands
    /// run first, child before parent, and the first failure met surfaces
    /// here; an admitted plan's cursor then produces exactly the batches the
    /// plan's meaning lists, and never fails while being pulled. The plan is
    /// not consumed or changed: each call returns a fresh, independent,
    /// exclusively-owned cursor starting from the beginning.
    pub fn execute(&self) -> (r: Result<BatchStream, Error>)
        requires
            self.wf(),
        ensures
            match r {
                Ok(st) => {
                    &&& plan_check(*self) is Ok
                    &&& st.svalid()
                    &&& st.out() == plan_out(*self)
                },
                Err(e) => plan_check(*self) == Err::<Seq<Field>, Error>(e),
            },
        decreases *self,
    {
        let ghost p = *self;
        match self {
            Plan::Scan(s) => {
                match &s.projection {
                    Option::None => {
                        let bs = duplicate_batches(&s.batches);
                        let st = BatchStream::Scan {
                            batches: bs,
                            pos: 0,
                            projection: Option::None,
                        };
                        proof {
                            assert(st.out() =~= plan_out(p));
                        }
                        Ok(st)
                    },
                    Option::Some(names) => {
                        let idxs = resolve_names_exec(&s.schema.fields, names, 0)?;
                        let ghost si = resolve_names(s.schema.fields@, names@, 0)->Ok_0;
                        proof {
                            lemma_resolve_shape(s.schema.fields@, names@, 0);
                        }
                        let n = idxs.len();
                        let mut fs: Vec<Field> = Vec::new();
                        for j in 0..n
                            invariant
                                n == idxs@.len(),
                                n == si.len(),
                                forall|jj: int|
                                    0 <= jj < n ==> #[trigger] idxs@[jj] as int == si[jj] && 0
                                        <= si[jj] < s.schema.fields@.len(),
                                fs@.len() == j,
                                forall|jj: int|
                                    0 <= jj < j ==> #[trigger] fs@[jj]
                                        == s.schema.fields@[si[jj]],
                        {
                            let f = &s.schema.fields[idxs[j]];
                            fs.push(Field { name: f.name.clone(), data_type: f.data_type });
                        }
                        let bs = duplicate_batches(&s.batches);
                        let st = BatchStream::Scan {
                            batches: bs,
                            pos: 0,
                            projection: Option::Some(ScanProjection { idxs, fields: fs }),
                        };
                        proof {
                            let sf = p->Scan_0.schema.fields@;
                            assert(fs@ =~= si.map(|k: int, i: int| sf[i]));
                            assert forall|i: int, j: int|
                                0 <= i < bs@.len() && 0 <= j < si.len() implies ((
                            #[trigger] si[j]) < (#[trigger] bs@[i]).cols().len())
                                && fs@[j].data_type
                                == bs@[i].model().fields[si[j]].data_type by {
                                assert(bs@[i].model() == p->Scan_0.batches@[i].model());
                                assert(bs@[i].model().fields == sf);
                                assert(bs@[i].well_formed());
                                assert(bs@[i].cols().len() == sf.len());
                            }
                            assert(st.svalid());
                            assert forall|k: int| 0 <= k < bs@.len() implies st.out()[k]
                                == plan_out(p)[k] by {
                                let bm = p->Scan_0.batches@[k].model();
                                assert(bs@[k].model() == bm);
                                assert(st.out()[k].fields == fs@);
                                assert(plan_out(p)[k] == subset_batch_m(sf, si, bm));
                                assert(st.out()[k].cols =~= subset_batch_m(sf, si, bm).cols);
                                assert(st.out()[k].fields =~= subset_batch_m(sf, si, bm).fields);
                            }
                            assert(st.out() =~= plan_out(p));
                        }
                        Ok(st)
                    },
                }
            },
            Plan::Projection(pr) => {
                let cs_res = pr.child.schema();
                let cst = pr.child.execute()?;
                proof {
                    lemma_plan_check_fields(*pr.child);
                }
                let cs = match cs_res {
                    Ok(cs) => cs,
                    Err(_) => {
                        // execution admitted the child, so its schema exists
                        proof {
                            assert(false);
                        }
                        return Err(Error::NotImplemented);
                    },
                };
                let m = pr.exprs.len();
                for i in 0..m
                    invariant
                        p == Plan::Projection(*pr),
                        p == *self,
                        m == pr.exprs@.len(),
                        m == pr.names@.len(),
                        cs.fields@ == plan_check(*pr.child)->Ok_0,
                        plan_check(*pr.child) is Ok,
                        forall|j: int| 0 <= j < i ==> expr_ty(#[trigger] pr.exprs@[j], cs.fields@) is Ok,
                {
                    match expr_ty_exec(&pr.exprs[i], &cs) {
                        Ok(_) => {
                        },
                        Err(e) => {
                            proof {
                                lemma_proj_fields_err(
                                    pr.exprs@,
                                    pr.names@,
                                    cs.fields@,
                                    0,
                                    i as int,
                                );
                                assert(plan_check(p) == Err::<Seq<Field>, Error>(e));
                            }
                            return Err(e);
                        },
                    }
                }
                proof {
                    lemma_proj_fields_ok(pr.exprs@, pr.names@, cs.fields@, 0);
                }
                let exprs2 = duplicate_exprs(&pr.exprs);
                let names2 = duplicate_names(&pr.names);
                let st = BatchStream::Projection {
                    child: Box::new(cst),
                    exprs: exprs2,
                    names: names2,
                };
                proof {
                    let cp = *pr.child;
                    lemma_plan_out_fields(cp);
                    assert forall|k: int, i: int|
                        0 <= k < plan_out(cp).len() && 0 <= i < pr.exprs@.len() implies expr_ty(
                        #[trigger] pr.exprs@[i],
                        (#[trigger] plan_out(cp)[k]).fields,
                    ) is Ok by {
                        assert(plan_out(cp)[k].fields == cs.fields@);
                    }
                    assert(st.svalid());
                    assert(st.out() =~= plan_out(p));
                }
                Ok(st)
            },
            Plan::Selection(sel) => {
                let cs_res = sel.child.schema();
                let cst = sel.child.execute()?;
                proof {
                    lemma_plan_check_fields(*sel.child);
                }
                let cs = match cs_res {
                    Ok(cs) => cs,
                    Err(_) => {
                        // execution admitted the child, so its schema exists
                        proof {
                            assert(false);
                        }
                        return Err(Error::NotImplemented);
                    },
                };
                let t = expr_ty_exec(&sel.predicate, &cs)?;
                if t != LogicalType::Int64 {
                    return Err(Error::TypeMismatch);
                }
                let pred = sel.predicate.clone();
                let st = BatchStream::Selection { child: Box::new(cst), predicate: pred };
                proof {
                    let cp = *sel.child;
                    lemma_plan_out_fields(cp);
                    assert forall|k: int| 0 <= k < plan_out(cp).len() implies expr_ty(
                        p->Selection_0.predicate,
                        (#[trigger] plan_out(cp)[k]).fields,
                    ) == Ok::<LogicalType, Error>(LogicalType::Int64) by {
                        assert(plan_out(cp)[k].fields == cs.fields@);
                    }
                    assert(st.svalid());
                    assert(st.out() =~= plan_out(p));
                }
                Ok(st)
            },
        }
    }
}

/// Copies of the given batches: schemas copied, column arrays shared.
fn duplicate_batches(batches: &Vec<RecordBatch>) -> (r: Vec<RecordBatch>)
    ensures
        r@.len() == batches@.len(),
        forall|i: int|
            0 <= i < batches@.len() ==> (#[trigger] r@[i]).model() == batches@[i].model()
                && r@[i].well_formed() == batches@[i].well_formed()
                && r@[i].spec_schema().fields@ == batches@[i].spec_schema().fields@,
{
    let n = batches.len();
    let mut r: Vec<RecordBatch> = Vec::new();
    for i in 0..n
        invariant
            n == batches@.len(),
            r@.len() == i,
            forall|j: int|
                0 <= j < i ==> (#[trigger] r@[j]).model() == batches@[j].model()
                    && r@[j].well_formed() == batches@[j].well_formed()
                    && r@[j].spec_schema().fields@ == batches@[j].spec_schema().fields@,
    {
        r.push(batches[i].duplicate());
    }
    r
}

/// Copies of the given expressions.
fn duplicate_exprs(exprs: &Vec<Expr>) -> (r: Vec<Expr>)
    ensures
        r@ == exprs@,
{
    let n = exprs.len();
    let mut r: Vec<Expr> = Vec::new();
    for i in 0..n
        invariant
            n == exprs@.len(),
            r@ =~= exprs@.take(i as int),
    {
        r.push(exprs[i].clone());
        proof {
            assert(r@ =~= exprs@.take(i + 1 as int));
        }
    }
    proof {
        assert(r@ =~= exprs@);
    }
    r
}

/// Copies of the given names.
fn duplicate_names(names: &Vec<String>) -> (r: Vec<String>)
    ensures
        r@ == names@,
{
    let n = names.len();
    let mut r: Vec<String> = Vec::new();
    for i in 0..n
        invariant
            n == names@.len(),
            r@ =~= names@.take(i as int),
    {
        r.push(names[i].clone());
        proof {
            assert(r@ =~= names@.take(i + 1 as int));
        }
    }
    proof {
        assert(r@ =~= names@);
    }
    r
}

/// The number of newline characters in a character sequence.
pub open spec fn nl_count(s: Seq<char>) -> nat
    decreases s.len(),
{
    if s.len() == 0 {
        0
    } else {
        (if s[0] == '\n' {
            1nat
        } else {
            0nat
        }) + nl_count(s.drop_first())
    }
}

proof fn lemma_nl_count_concat(a: Seq<char>, b: Seq<char>)
    ensures
        nl_count(a + b) == nl_count(a) + nl_count(b),
    decreases a.len(),
{
    if a.len() == 0 {
        assert(a + b =~= b);
    } else {
        assert((a + b).drop_first() =~= a.drop_first() + b);
        lemma_nl_count_concat(a.drop_first(), b);
        assert((a + b)[0] == a[0]);
    }
}

proof fn lemma_nl_count_tabs(n: nat)
    ensures
        nl_count(tabs(n)) == 0,
    decreases n,
{
    if n > 0 {
        assert(tabs(n).drop_first() =~= tabs((n - 1) as nat));
        lemma_nl_count_tabs((n - 1) as nat);
        assert(tabs(n)[0] == '\t');
    }
}

/// Whether every node of the subtree renders to a line without a newline of
/// its own. This can fail only through a text literal that embeds a newline.
pub open spec fn displays_line_shaped(p: Plan) -> bool
    decreases p,
{
    &&& (plan_display(p) is Ok ==> nl_count(plan_display(p)->Ok_0) == 0)
    &&& match p {
        Plan::Scan(_) => true,
        Plan::Projection(pr) => displays_line_shaped(*pr.child),
        Plan::Selection(sel) => displays_line_shaped(*sel.child),
    }
}

/// The pretty rendering of a subtree holds exactly one line per node: its
/// newline count equals the subtree's node count.
pub proof fn lemma_pretty_line_count(p: Plan, indent: nat)
    requires
        pretty_spec(p, indent) is Ok,
        displays_line_shaped(p),
    ensures
        nl_count(pretty_spec(p, indent)->Ok_0) == p.size(),
    decreases p,
{
    let line = plan_display(p)->Ok_0;
    let head = tabs(indent) + line + seq!['\n'];
    lemma_nl_count_tabs(indent);
    lemma_nl_count_concat(tabs(indent), line);
    lemma_nl_count_concat(tabs(indent) + line, seq!['\n']);
    assert(nl_count(seq!['\n']) == 1) by {
        let one = seq!['\n'];
        assert(one.len() == 1);
        assert(one[0] == '\n');
        assert(one.drop_first() =~= Seq::<char>::empty());
        assert(nl_count(one.drop_first()) == 0);
    }
    assert(nl_count(head) == 1);
    match p {
        Plan::Scan(_) => {
        },
        Plan::Projection(pr) => {
            lemma_pretty_line_count(*pr.child, indent + 1);
            lemma_nl_count_concat(head, pretty_spec(*pr.child, indent + 1)->Ok_0);
        },
        Plan::Selection(sel) => {
            lemma_pretty_line_count(*sel.child, indent + 1);
            lemma_nl_count_concat(head, pretty_spec(*sel.child, indent + 1)->Ok_0);
        },
    }
}

} // verus!
