//! The selection/projection engine.
//!
//! A `Selector` holds a resolved column mapping — a presence bitmap for cut
//! mode, an ordered 1-based index list for reorder mode — and projects one
//! record at a time. A record is an ordered sequence of byte-string fields;
//! projection never mutates its input, it builds a fresh output record.

use vstd::prelude::*;

use crate::bytes::copy_bytes;
use crate::errors::ProjectionError;

verus! {

/// One row of the delimited stream: an ordered sequence of byte-string
/// fields.
pub type Record = Vec<Vec<u8>>;

/// Whether 0-based position `i` is selected by the presence bitmap. A
/// position beyond the bitmap is never selected.
pub open spec fn selected(bm: Seq<usize>, i: int) -> bool {
    0 <= i < bm.len() && bm[i] == 1
}

/// The cut-mode projection of a row: the fields at selected positions, in
/// input order.
pub open spec fn spec_cut(bm: Seq<usize>, row: Seq<Seq<u8>>) -> Seq<Seq<u8>>
    decreases row.len(),
{
    if row.len() == 0 {
        Seq::empty()
    } else {
        spec_cut(bm, row.drop_last()) + if selected(bm, row.len() - 1) {
            seq![row.last()]
        } else {
            Seq::empty()
        }
    }
}

/// The reorder-mode projection of a row: field `cols[j] - 1` at output
/// position `j`, so the output has exactly `cols.len()` fields in the given
/// order, repeats included.
pub open spec fn spec_reorder_project(cols: Seq<usize>, row: Seq<Seq<u8>>) -> Seq<Seq<u8>>
    recommends
        forall|j: int| 0 <= j < cols.len() ==> 1 <= #[trigger] cols[j] <= row.len(),
{
    Seq::new(cols.len(), |j: int| row[cols[j] - 1])
}

/// Projects one record in cut mode: keeps the fields whose 0-based position
/// is marked in the bitmap, in input order. Positions beyond the bitmap are
/// simply not selected, and a bitmap longer than the record never matches
/// beyond the record: no input is an error.
pub fn project_cut(bitmap: &Vec<usize>, record: &Record) -> (out: Record)
    ensures
        out.deep_view() == spec_cut(bitmap@, record.deep_view()),
{
    let ghost rowv = record.deep_view();
    let mut out: Record = Vec::new();
    let mut i: usize = 0;
    proof {
        assert(out.deep_view() =~~= spec_cut(bitmap@, rowv.take(0)));
    }
    while i < record.len()
        invariant
            i <= record@.len(),
            rowv == record.deep_view(),
            rowv.len() == record@.len(),
            out.deep_view() == spec_cut(bitmap@, rowv.take(i as int)),
        decreases record@.len() - i,
    {
        let ghost prior = out.deep_view();
        proof {
            assert(rowv.take(i + 1).drop_last() =~= rowv.take(i as int));
            assert(rowv.take(i + 1).last() == rowv[i as int]);
        }
        if i < bitmap.len() && bitmap[i] == 1 {
            out.push(copy_bytes(&record[i]));
            proof {
                assert(record@[i as int]@ == rowv[i as int]);
                assert(out.deep_view() =~~= prior + seq![rowv[i as int]]);
            }
        } else {
            proof {
                assert(out.deep_view() =~~= prior + Seq::<Seq<u8>>::empty());
            }
        }
        i = i + 1;
    }
    proof {
        assert(rowv.take(rowv.len() as int) =~= rowv);
    }
    out
}

/// Projects one record in reorder mode: output position `j` is the record's
/// field at 1-based column `cols[j]`. A column beyond the record's width is
/// a per-record fatal error naming the first such column; nothing is
/// returned for that record.
pub fn project_reorder(columns: &Vec<usize>, record: &Record) -> (r: Result<
    Record,
    ProjectionError,
>)
    requires
        forall|j: int| 0 <= j < columns@.len() ==> columns@[j] >= 1,
    ensures
        match r {
            Ok(out) => (forall|j: int| 0 <= j < columns@.len() ==> columns@[j] <= record@.len())
                && out.deep_view() == spec_reorder_project(columns@, record.deep_view()),
            Err(e) => exists|j: int|
                {
                    &&& 0 <= j < columns@.len()
                    &&& #[trigger] columns@[j] > record@.len()
                    &&& e == ProjectionError::ColumnOutOfRange(columns@[j])
                    &&& forall|k: int| 0 <= k < j ==> columns@[k] <= record@.len()
                },
        },
{
    let ghost rowv = record.deep_view();
    let mut out: Record = Vec::new();
    let mut j: usize = 0;
    while j < columns.len()
        invariant
            j <= columns@.len(),
            rowv == record.deep_view(),
            rowv.len() == record@.len(),
            forall|k: int| 0 <= k < columns@.len() ==> columns@[k] >= 1,
            forall|k: int| 0 <= k < j ==> columns@[k] <= record@.len(),
            out.deep_view().len() == j,
            forall|k: int|
                0 <= k < j ==> out.deep_view()[k] == rowv[#[trigger] columns@[k] - 1],
        decreases columns@.len() - j,
    {
        let c = columns[j];
        if c > record.len() {
            return Err(ProjectionError::ColumnOutOfRange(c));
        }
        let ghost prior = out.deep_view();
        out.push(copy_bytes(&record[c - 1]));
        proof {
            assert(record@[c - 1]@ == rowv[c - 1]);
            assert(out.deep_view() =~~= prior.push(rowv[c - 1]));
        }
        j = j + 1;
    }
    proof {
        assert(out.deep_view() =~~= spec_reorder_project(columns@, rowv));
    }
    Ok(out)
}

/// The resolved, mode-tagged column mapping: a presence bitmap for cut, an
/// ordered 1-based index list for reorder.
pub enum ColumnSpec {
    Cut(Vec<usize>),
    Reorder(Vec<usize>),
}

/// A selector is well formed when a reorder mapping is 1-based: no entry is
/// zero. Any bitmap is a valid cut mapping.
pub open spec fn spec_wf(mapping: &ColumnSpec) -> bool {
    match mapping {
        ColumnSpec::Cut(_) => true,
        ColumnSpec::Reorder(cols) => forall|j: int| 0 <= j < cols@.len() ==> cols@[j] >= 1,
    }
}

/// Holds the column mapping resolved once before streaming starts and
/// applies it to one record per call.
pub struct Selector {
    pub mapping: ColumnSpec,
}

impl Selector {
    /// The selector's mapping is well formed.
    pub open spec fn wf(&self) -> bool {
        spec_wf(&self.mapping)
    }

    /// A cut-mode selector over a presence bitmap.
    pub fn for_cut(bitmap: Vec<usize>) -> (s: Selector)
        ensures
            s.wf(),
            s.mapping == ColumnSpec::Cut(bitmap),
    {
        Selector { mapping: ColumnSpec::Cut(bitmap) }
    }

    /// A reorder-mode selector over an ordered list of 1-based columns.
    pub fn for_reorder(columns: Vec<usize>) -> (s: Selector)
        requires
            forall|j: int| 0 <= j < columns@.len() ==> columns@[j] >= 1,
        ensures
            s.wf(),
            s.mapping == ColumnSpec::Reorder(columns),
    {
        Selector { mapping: ColumnSpec::Reorder(columns) }
    }

    /// Projects one record with the resolved mapping. Cut mode cannot fail;
    /// reorder mode fails on the first column beyond the record's width.
    pub fn project(&self, record: &Record) -> (r: Result<Record, ProjectionError>)
        requires
            self.wf(),
        ensures
            match self.mapping {
                ColumnSpec::Cut(bm) => r is Ok && r->Ok_0.deep_view() == spec_cut(
                    bm@,
                    record.deep_view(),
                ),
                ColumnSpec::Reorder(cols) => match r {
                    Ok(out) => (forall|j: int|
                        0 <= j < cols@.len() ==> cols@[j] <= record@.len())
                        && out.deep_view() == spec_reorder_project(cols@, record.deep_view()),
                    Err(e) => exists|j: int|
                        {
                            &&& 0 <= j < cols@.len()
                            &&& #[trigger] cols@[j] > record@.len()
                            &&& e == ProjectionError::ColumnOutOfRange(cols@[j])
                            &&& forall|k: int| 0 <= k < j ==> cols@[k] <= record@.len()
                        },
                },
            },
    {
        match &self.mapping {
            ColumnSpec::Cut(bitmap) => Ok(project_cut(bitmap, record)),
            ColumnSpec::Reorder(columns) => project_reorder(columns, record),
        }
    }
}

} // verus!
