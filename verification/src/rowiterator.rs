//! The sequence of rows a query produced, handed out one at a time.
//! Every row shares one reference-counted column index; nothing is
//! copied per row.

use vstd::prelude::*;
use std::rc::Rc;
use crate::json::{Json, JsonSpec, view_elems};
use crate::row::{Row, ColumnIndex};

verus! {

/// The rows of one result set, in order, and the column index they
/// share.
#[derive(Debug)]
pub struct RowIterator {
    rows: Vec<Vec<Json>>,
    header: Rc<ColumnIndex>,
}

/// Relies on std's `Rc::clone`: the clone is a second handle to the
/// same shared value.
#[verifier::external_body]
fn rc_clone(rc: &Rc<ColumnIndex>) -> (r: Rc<ColumnIndex>)
    ensures
        r == *rc,
{
    Rc::clone(rc)
}

impl RowIterator {
    /// The models of the rows not yet handed out, in order.
    pub closed spec fn remaining(&self) -> Seq<Seq<JsonSpec>> {
        Seq::new(self.rows@.len(), |i: int| view_elems(self.rows@[self.rows@.len() - 1 - i]@))
    }

    /// The model of the shared column index.
    pub closed spec fn header_cols(&self) -> Seq<(Seq<char>, int)> {
        self.header@
    }

    /// Wraps the rows of a result set and their column index.
    pub fn new(rows: Vec<Vec<Json>>, header: ColumnIndex) -> (r: RowIterator)
        ensures
            r.remaining().len() == rows@.len(),
            forall|i: int|
                0 <= i < rows@.len() ==> #[trigger] r.remaining()[i] == view_elems(rows@[i]@),
            r.header_cols() == header@,
    {
        let mut rev: Vec<Vec<Json>> = Vec::new();
        let mut rows = rows;
        let ghost rows0 = rows@;
        while rows.len() > 0
            invariant
                rows@.len() + rev@.len() == rows0.len(),
                rows@ == rows0.take(rows@.len() as int),
                forall|i: int|
                    0 <= i < rev@.len() ==> #[trigger] rev@[i]@ == rows0[rows0.len() - 1 - i]@,
            decreases rows@.len(),
        {
            match rows.pop() {
                Some(last) => {
                    proof {
                        assert(rows0.take((rows@.len() + 1) as int).last() == rows0[rows@.len() as int]);
                        assert(rows0.take((rows@.len() + 1) as int).drop_last() =~= rows0.take(
                            rows@.len() as int,
                        ));
                    }
                    rev.push(last);
                },
                None => {
                    proof {
                        assert(false);
                    }
                },
            }
        }
        let r = RowIterator { rows: rev, header: Rc::new(header) };
        proof {
            assert(forall|i: int|
                0 <= i < rows0.len() ==> #[trigger] r.remaining()[i] == view_elems(rows0[i]@));
        }
        r
    }

    /// How many rows have not been handed out yet.
    pub fn len(&self) -> (r: usize)
        ensures
            r == self.remaining().len(),
    {
        self.rows.len()
    }

    /// The next row: its values are the first remaining row, and it
    /// shares this iterator's column index. `None` once every row has
    /// been handed out.
    pub fn next(&mut self) -> (r: Option<Row>)
        ensures
            old(self).remaining().len() == 0 ==> r is None && final(self).remaining()
                == old(self).remaining(),
            old(self).remaining().len() > 0 ==> match r {
                Some(row) => row.values() == old(self).remaining()[0] && row.cols() == old(
                    self,
                ).header_cols() && final(self).remaining() == old(self).remaining().drop_first()
                    && final(self).header_cols() == old(self).header_cols(),
                None => false,
            },
    {
        match self.rows.pop() {
            Some(vals) => {
                let hdr = rc_clone(&self.header);
                let row = Row::new(vals, hdr);
                proof {
                    crate::json::lemma_view_elems(old(self).rows@.last()@);
                    assert(self.remaining() =~= old(self).remaining().drop_first());
                }
                Some(row)
            },
            None => None,
        }
    }
}

} // verus!
