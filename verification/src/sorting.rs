//! The sort engine: a type-aware row comparator and an in-place, parallel
//! reordering of all rows by one column.

use vstd::prelude::*;
use crate::numeric::num_key_cmp;
use crate::textops::text_cmp;
use crate::table::{ColType, CsvTable};

verus! {

/// Direction of a sort.
#[derive(Debug, Clone, Copy, PartialEq, Eq, Structural)]
pub enum SortOrder {
    /// Smallest first.
    Ascending,
    /// Largest first.
    Descending,
}

/// The cell a comparator reads: the column's value, or the empty string for
/// a row too short to have it.
pub open spec fn spec_cell(row: Seq<Seq<char>>, col: int) -> Seq<char> {
    if 0 <= col < row.len() {
        row[col]
    } else {
        Seq::empty()
    }
}

/// Three-way comparison of two rows by one column: numeric cells compare by
/// value with numbers before non-numbers, text cells compare
/// lexicographically; a descending order reverses the result.
pub open spec fn row_cmp(
    a: Seq<Seq<char>>,
    b: Seq<Seq<char>>,
    col: int,
    numeric: bool,
    ascending: bool,
) -> int {
    let base = if numeric {
        num_key_cmp(spec_cell(a, col), spec_cell(b, col))
    } else {
        text_cmp(spec_cell(a, col), spec_cell(b, col))
    };
    if ascending {
        base
    } else {
        -base
    }
}

/// Every pair of rows is in comparator order.
pub open spec fn rows_sorted(
    rows: Seq<Seq<Seq<char>>>,
    col: int,
    numeric: bool,
    ascending: bool,
) -> bool {
    forall|i: int, j: int|
        0 <= i < j < rows.len() ==> row_cmp(#[trigger] rows[i], #[trigger] rows[j], col, numeric, ascending)
            <= 0
}

/// Three-way comparison of two rows by one column, under the column's
/// advisory type and the requested order.
pub fn compare_rows(
    a: &Vec<String>,
    b: &Vec<String>,
    column: usize,
    numeric: bool,
    ascending: bool,
) -> (r: i8)
    ensures
        r as int == row_cmp(a.deep_view(), b.deep_view(), column as int, numeric, ascending),
        -1 <= r <= 1,
{
    proof {
        reveal_strlit("");
        assert(""@ =~= Seq::<char>::empty());
    }
    let av: &str = if column < a.len() {
        a[column].as_str()
    } else {
        ""
    };
    let bv: &str = if column < b.len() {
        b[column].as_str()
    } else {
        ""
    };
    let base: i8 = if numeric {
        crate::numeric::cmp_numeric(av, bv)
    } else {
        crate::textops::str_cmp(av, bv)
    };
    if ascending {
        base
    } else {
        -base
    }
}

/// Relies on rayon's `par_sort_unstable_by` on a mutable slice: it reorders
/// the rows in place — the same rows come back, as a multiset — and leaves
/// them sorted by the comparator it is handed.  The comparator here is the
/// verified `compare_rows`, whose order is a total preorder
/// (`lemma_row_cmp_antisym`, `lemma_row_cmp_trans` below), so the sorted
/// outcome is the one rayon documents.
#[verifier::external_body]
fn par_sort_rows(data: &mut Vec<Vec<String>>, column: usize, numeric: bool, ascending: bool)
    ensures
        final (data).deep_view().to_multiset() == old(data).deep_view().to_multiset(),
        final (data)@.len() == old(data)@.len(),
        rows_sorted(final (data).deep_view(), column as int, numeric, ascending),
{
    rayon::slice::ParallelSliceMut::par_sort_unstable_by(
        data.as_mut_slice(),
        |a, b| match compare_rows(a, b, column, numeric, ascending) {
            -1 => std::cmp::Ordering::Less,
            0 => std::cmp::Ordering::Equal,
            _ => std::cmp::Ordering::Greater,
        },
    )
}

impl CsvTable {
    /// Reorders all rows in place by one column, numerically or textually
    /// per the column's advisory type, clearing any active filter.  Sorting
    /// an empty table succeeds and changes nothing; a column index at or
    /// beyond the column count is an error with nothing changed.
    pub fn sort_by_column(&mut self, column: usize, order: SortOrder) -> (r: Result<(), String>)
        ensures
            final (self).headers_model() == old(self).headers_model(),
            final (self).types_model() == old(self).types_model(),
            final (self).same_history(old(self)),
            old(self).rows_model().len() == 0 ==> r is Ok && final (self).rows_model() == old(
                self,
            ).rows_model() && final (self).filter_model() == old(self).filter_model(),
            old(self).rows_model().len() > 0 ==> (r is Err <==> column as nat >= old(
                self,
            ).spec_col_count()),
            old(self).rows_model().len() > 0 && r is Err ==> final (self).rows_model() == old(
                self,
            ).rows_model() && final (self).filter_model() == old(self).filter_model(),
            old(self).rows_model().len() > 0 && r is Ok ==> ({
                let numeric = column < old(self).types_model().len() && old(self).types_model()[
                    column as int] == ColType::Number;
                &&& final (self).filter_model() is None
                &&& final (self).rows_model().to_multiset() == old(self).rows_model().to_multiset()
                &&& rows_sorted(
                    final (self).rows_model(),
                    column as int,
                    numeric,
                    order == SortOrder::Ascending,
                )
            }),
    {
        if self.data.len() == 0 {
            return Ok(());
        }
        let cc = self.column_count();
        if column >= cc {
            return Err(column_oob_msg());
        }
        let numeric = column < self.col_types.len() && matches!(
            self.col_types[column],
            ColType::Number,
        );
        self.filtered_indices = None;
        par_sort_rows(&mut self.data, column, numeric, matches!(order, SortOrder::Ascending));
        Ok(())
    }
}

/// The row comparator is antisymmetric: swapping the rows flips the sign.
/// With transitivity below, it is a total preorder, which is what the
/// parallel sort's contract rests on.
pub proof fn lemma_row_cmp_antisym(
    a: Seq<Seq<char>>,
    b: Seq<Seq<char>>,
    col: int,
    numeric: bool,
    ascending: bool,
)
    ensures
        row_cmp(a, b, col, numeric, ascending) == -row_cmp(b, a, col, numeric, ascending),
{
    if numeric {
        crate::numeric::lemma_num_key_cmp_antisym(spec_cell(a, col), spec_cell(b, col));
    } else {
        crate::textops::lemma_lex_cmp_antisym(spec_cell(a, col), spec_cell(b, col), 0);
    }
}

/// The row comparator is transitive, both in its strict-or-equal and its
/// equal form, ascending or descending.
pub proof fn lemma_row_cmp_trans(
    a: Seq<Seq<char>>,
    b: Seq<Seq<char>>,
    c: Seq<Seq<char>>,
    col: int,
    numeric: bool,
    ascending: bool,
)
    ensures
        row_cmp(a, b, col, numeric, ascending) <= 0 && row_cmp(b, c, col, numeric, ascending) <= 0
            ==> row_cmp(a, c, col, numeric, ascending) <= 0,
        row_cmp(a, b, col, numeric, ascending) == 0 && row_cmp(b, c, col, numeric, ascending) == 0
            ==> row_cmp(a, c, col, numeric, ascending) == 0,
{
    if numeric {
        crate::numeric::lemma_num_key_cmp_trans(
            spec_cell(a, col),
            spec_cell(b, col),
            spec_cell(c, col),
        );
        crate::numeric::lemma_num_key_cmp_trans(
            spec_cell(c, col),
            spec_cell(b, col),
            spec_cell(a, col),
        );
        crate::numeric::lemma_num_key_cmp_antisym(spec_cell(a, col), spec_cell(b, col));
        crate::numeric::lemma_num_key_cmp_antisym(spec_cell(b, col), spec_cell(c, col));
        crate::numeric::lemma_num_key_cmp_antisym(spec_cell(a, col), spec_cell(c, col));
    } else {
        crate::textops::lemma_lex_cmp_trans(
            spec_cell(a, col),
            spec_cell(b, col),
            spec_cell(c, col),
            0,
        );
        crate::textops::lemma_lex_cmp_trans(
            spec_cell(c, col),
            spec_cell(b, col),
            spec_cell(a, col),
            0,
        );
        crate::textops::lemma_lex_cmp_antisym(spec_cell(a, col), spec_cell(b, col), 0);
        crate::textops::lemma_lex_cmp_antisym(spec_cell(b, col), spec_cell(c, col), 0);
        crate::textops::lemma_lex_cmp_antisym(spec_cell(a, col), spec_cell(c, col), 0);
    }
}

/// The message reported for a sort on a column index out of bounds.
fn column_oob_msg() -> (r: String) {
    "column index out of bounds".to_owned()
}

} // verus!
