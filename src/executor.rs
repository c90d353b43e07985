use vstd::prelude::*;

use crate::common::DbError;
use crate::expr::{eval, Expr};
use crate::tuple::{Schema, Tuple, Value};

verus! {

/// A source of rows for query execution, pulled one row at a time.
pub trait Executor {
    /// The next row, `None` when there are no more.
    fn next(&mut self) -> Option<Result<Tuple, DbError>>;

    /// Starts over from the first row.
    fn rewind(&mut self) -> Result<(), DbError>;

    /// The columns of the rows it produces.
    fn schema(&self) -> &Schema;
}

/// Yields a fixed list of rows.
pub struct ValuesExecutor {
    rows: Vec<Tuple>,
    position: usize,
    schema: Schema,
}

impl ValuesExecutor {
    /// The rows not yet handed out.
    pub closed spec fn remaining(&self) -> Seq<Tuple> {
        self.rows@.subrange(self.position as int, self.rows@.len() as int)
    }

    pub fn new(rows: Vec<Tuple>, schema: Schema) -> (r: Self)
        ensures
            r.remaining() == rows@,
    {
        let r = ValuesExecutor { rows, position: 0, schema };
        assert(r.rows@.subrange(0, r.rows@.len() as int) =~= r.rows@);
        r
    }
}

impl Executor for ValuesExecutor {
    fn next(&mut self) -> Option<Result<Tuple, DbError>> {
        if self.position < self.rows.len() {
            let row = self.rows[self.position].clone();
            self.position = self.position + 1;
            Some(Ok(row))
        } else {
            None
        }
    }

    fn rewind(&mut self) -> Result<(), DbError> {
        self.position = 0;
        Ok(())
    }

    fn schema(&self) -> &Schema {
        &self.schema
    }
}

/// The row that `projections` make of `row`: one value per expression, or the
/// first error met from left to right.
pub open spec fn projected(projections: Seq<Expr>, row: Seq<Value>) -> Result<Seq<Value>, DbError>
    decreases projections.len(),
{
    if projections.len() == 0 {
        Ok(Seq::empty())
    } else {
        match projected(projections.drop_last(), row) {
            Err(e) => Err(e),
            Ok(vs) => match eval(projections.last(), row) {
                Err(e) => Err(e),
                Ok(v) => Ok(vs.push(v)),
            },
        }
    }
}

/// Evaluates each projection on `tuple`.
pub fn project(projections: &Vec<Expr>, tuple: &Tuple) -> (r: Result<Tuple, DbError>)
    ensures
        r is Ok <==> projected(projections@, tuple.values@) is Ok,
        r matches Ok(t) ==> projected(projections@, tuple.values@) == Ok::<Seq<Value>, DbError>(
            t.values@,
        ),
        r matches Err(e) ==> projected(projections@, tuple.values@) == Err::<Seq<Value>, DbError>(e),
{
    let mut values: Vec<Value> = Vec::new();
    let mut i: usize = 0;
    while i < projections.len()
        invariant
            0 <= i <= projections@.len(),
            projected(projections@.subrange(0, i as int), tuple.values@) == Ok::<
                Seq<Value>,
                DbError,
            >(values@),
        decreases projections@.len() - i,
    {
        proof {
            assert(projections@.subrange(0, i + 1).drop_last() =~= projections@.subrange(0, i as int));
        }
        match projections[i].evaluate(&tuple.values) {
            Err(e) => {
                proof {
                    lemma_projected_error(projections@, tuple.values@, i as int, e);
                }
                return Err(e);
            },
            Ok(v) => {
                values.push(v);
            },
        }
        i = i + 1;
    }
    assert(projections@.subrange(0, i as int) =~= projections@);
    Ok(Tuple::new(values))
}

proof fn lemma_projected_error(ps: Seq<Expr>, row: Seq<Value>, i: int, e: DbError)
    requires
        0 <= i < ps.len(),
        projected(ps.subrange(0, i), row) is Ok,
        eval(ps[i], row) == Err::<Value, DbError>(e),
    ensures
        projected(ps, row) == Err::<Seq<Value>, DbError>(e),
    decreases ps.len() - i,
{
    assert(ps.subrange(0, i + 1).drop_last() =~= ps.subrange(0, i));
    lemma_projected_error_extends(ps, row, i + 1, e);
}

proof fn lemma_projected_error_extends(ps: Seq<Expr>, row: Seq<Value>, j: int, e: DbError)
    requires
        0 < j <= ps.len(),
        projected(ps.subrange(0, j), row) == Err::<Seq<Value>, DbError>(e),
    ensures
        projected(ps, row) == Err::<Seq<Value>, DbError>(e),
    decreases ps.len() - j,
{
    if j == ps.len() {
        assert(ps.subrange(0, j) =~= ps);
    } else {
        assert(ps.subrange(0, j + 1).drop_last() =~= ps.subrange(0, j));
        lemma_projected_error_extends(ps, row, j + 1, e);
    }
}

/// Computes a list of expressions over each row of its child.
pub struct ProjectionExecutor<E: Executor> {
    child: E,
    projections: Vec<Expr>,
    output_schema: Schema,
}

impl<E: Executor> ProjectionExecutor<E> {
    /// The expressions computed for each row.
    pub closed spec fn spec_projections(&self) -> Seq<Expr> {
        self.projections@
    }

    pub fn new(child: E, projections: Vec<Expr>, output_schema: Schema) -> (r: Self)
        ensures
            r.spec_projections() == projections@,
    {
        ProjectionExecutor { child, projections, output_schema }
    }
}

impl<E: Executor> Executor for ProjectionExecutor<E> {
    fn next(&mut self) -> Option<Result<Tuple, DbError>> {
        match self.child.next() {
            None => None,
            Some(Err(e)) => Some(Err(e)),
            Some(Ok(tuple)) => Some(project(&self.projections, &tuple)),
        }
    }

    fn rewind(&mut self) -> Result<(), DbError> {
        self.child.rewind()
    }

    fn schema(&self) -> &Schema {
        &self.output_schema
    }
}

/// Removes one trailing line break, `\r\n` or `\n`, from `s`.
pub fn trim_newline(s: &mut String)
    ensures
        final(s)@ == if old(s)@.len() >= 2 && old(s)@[old(s)@.len() - 2] == '\r' && old(s)@[old(
            s,
        )@.len() - 1] == '\n' {
            old(s)@.subrange(0, old(s)@.len() - 2)
        } else if old(s)@.len() >= 1 && old(s)@[old(s)@.len() - 1] == '\n' {
            old(s)@.subrange(0, old(s)@.len() - 1)
        } else {
            old(s)@
        },
{
    let n = s.as_str().unicode_len();
    let cut: usize = if n >= 2 && s.as_str().get_char(n - 2) == '\r' && s.as_str().get_char(n - 1)
        == '\n' {
        2
    } else if n >= 1 && s.as_str().get_char(n - 1) == '\n' {
        1
    } else {
        0
    };
    if cut > 0 {
        let kept = s.as_str().substring_char(0, n - cut).to_owned();
        *s = kept;
    }
}

} // verus!
