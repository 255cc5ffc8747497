//! The type inferencer: samples rows to classify each column as text or
//! number.

use vstd::prelude::*;
use crate::numeric::{is_number, is_number_str};
use crate::textops::{all_space, is_blank_str};
use crate::table::{ColType, CsvTable};

verus! {

/// How many rows inference samples when no cap is given.
pub const TYPE_INFERENCE_SAMPLE_SIZE: usize = 10000;

/// A cell does not rule out a numeric column: it is missing from the row,
/// blank, or a number.
pub open spec fn cell_ok(row: Seq<Seq<char>>, j: int) -> bool {
    0 <= j < row.len() ==> (all_space(row[j]) || is_number(row[j]))
}

/// Every sampled cell of column `j` among the first `n` rows is blank or a
/// number: the column classifies as numeric.
pub open spec fn col_ok(rows: Seq<Seq<Seq<char>>>, j: int, n: int) -> bool {
    forall|i: int| 0 <= i < n ==> cell_ok(#[trigger] rows[i], j)
}

/// The column types inference assigns: number where every sampled non-blank
/// cell parses, text elsewhere.
pub open spec fn inferred_types(rows: Seq<Seq<Seq<char>>>, cc: nat, sample: int) -> Seq<ColType> {
    Seq::new(
        cc,
        |j: int|
            if col_ok(rows, j, sample) {
                ColType::Number
            } else {
                ColType::Text
            },
    )
}

/// The number of rows inference reads: the whole table, capped by the
/// sample size.
pub open spec fn spec_sample(rows: nat, sample_size: Option<usize>, dflt: nat) -> int {
    let cap = match sample_size {
        Some(s) => s as nat,
        None => dflt,
    };
    if rows < cap {
        rows as int
    } else {
        cap as int
    }
}

impl CsvTable {
    /// Classifies each column by scanning up to `sample_size` rows (ten
    /// thousand by default): a column whose sampled non-blank cells all
    /// parse as numbers becomes `Number`, every other column `Text`, and
    /// the whole type vector is replaced.  A table without columns is left
    /// untouched.
    pub fn infer_column_types(&mut self, sample_size: Option<usize>)
        ensures
            final (self).headers_model() == old(self).headers_model(),
            final (self).rows_model() == old(self).rows_model(),
            final (self).filter_model() == old(self).filter_model(),
            final (self).same_history(old(self)),
            old(self).spec_col_count() == 0 ==> final (self).types_model() == old(
                self,
            ).types_model(),
            old(self).spec_col_count() > 0 ==> final (self).types_model() == inferred_types(
                old(self).rows_model(),
                old(self).spec_col_count(),
                spec_sample(
                    old(self).rows_model().len(),
                    sample_size,
                    TYPE_INFERENCE_SAMPLE_SIZE as nat,
                ),
            ),
    {
        let col_count = self.column_count();
        if col_count == 0 {
            return ;
        }
        let cap = match sample_size {
            Some(s) => s,
            None => TYPE_INFERENCE_SAMPLE_SIZE,
        };
        let rows_to_check = if self.data.len() < cap {
            self.data.len()
        } else {
            cap
        };
        let ghost sample = spec_sample(
            self.rows_model().len(),
            sample_size,
            TYPE_INFERENCE_SAMPLE_SIZE as nat,
        );
        assert(rows_to_check as int == sample);

        let mut flags: Vec<bool> = Vec::new();
        let mut t: usize = 0;
        while t < col_count
            invariant
                t <= col_count,
                flags@.len() == t,
                forall|j: int| 0 <= j < t ==> flags@[j] == true,
            decreases col_count - t,
        {
            flags.push(true);
            t = t + 1;
        }

        let mut r: usize = 0;
        while r < rows_to_check
            invariant
                r <= rows_to_check,
                rows_to_check <= self.data@.len(),
                flags@.len() == col_count,
                forall|j: int| 0 <= j < col_count ==> flags@[j] == col_ok(self.rows_model(), j, r as int),
            decreases rows_to_check - r,
        {
            let row = &self.data[r];
            let rlen = row.len();
            let lim = if rlen < col_count {
                rlen
            } else {
                col_count
            };
            let mut j: usize = 0;
            while j < lim
                invariant
                    j <= lim,
                    lim <= col_count,
                    lim == (if rlen < col_count {
                        rlen as int
                    } else {
                        col_count as int
                    }),
                    rlen == row@.len(),
                    r < self.data@.len(),
                    row.deep_view() == self.rows_model()[r as int],
                    flags@.len() == col_count,
                    forall|u: int|
                        j <= u < col_count ==> flags@[u] == col_ok(self.rows_model(), u, r as int),
                    forall|u: int|
                        0 <= u < j ==> flags@[u] == col_ok(self.rows_model(), u, r + 1),
                decreases lim - j,
            {
                if !flags[j] {
                    proof {
                        assert(!col_ok(self.rows_model(), j as int, r as int));
                        let w = choose|i: int|
                            0 <= i < r && !cell_ok(#[trigger] self.rows_model()[i], j as int);
                        assert(0 <= w < r + 1 && !cell_ok(self.rows_model()[w], j as int));
                        assert(!col_ok(self.rows_model(), j as int, r + 1));
                    }
                } else {
                    let cell = &row[j];
                    let ok = if is_blank_str(cell.as_str()) {
                        true
                    } else {
                        is_number_str(cell.as_str())
                    };
                    if ok {
                        proof {
                            assert(cell_ok(self.rows_model()[r as int], j as int));
                            assert forall|i: int|
                                0 <= i < r + 1 implies cell_ok(
                                #[trigger] self.rows_model()[i],
                                j as int,
                            ) by {}
                            assert(col_ok(self.rows_model(), j as int, r + 1));
                        }
                    } else {
                        flags[j] = false;
                        proof {
                            assert(!cell_ok(self.rows_model()[r as int], j as int));
                            assert(!col_ok(self.rows_model(), j as int, r + 1));
                        }
                    }
                }
                j = j + 1;
            }
            proof {
                assert forall|u: int| lim <= u < col_count implies flags@[u] == col_ok(
                    self.rows_model(),
                    u,
                    r + 1,
                ) by {
                    assert(cell_ok(self.rows_model()[r as int], u));
                    assert(col_ok(self.rows_model(), u, r + 1) == col_ok(
                        self.rows_model(),
                        u,
                        r as int,
                    ));
                }
            }
            r = r + 1;
        }

        let mut new_types: Vec<ColType> = Vec::new();
        let mut j: usize = 0;
        while j < col_count
            invariant
                j <= col_count,
                flags@.len() == col_count,
                new_types@.len() == j,
                forall|u: int| 0 <= u < col_count ==> flags@[u] == col_ok(self.rows_model(), u, sample),
                forall|u: int|
                    0 <= u < j ==> new_types@[u] == (if col_ok(self.rows_model(), u, sample) {
                        ColType::Number
                    } else {
                        ColType::Text
                    }),
            decreases col_count - j,
        {
            if flags[j] {
                new_types.push(ColType::Number);
            } else {
                new_types.push(ColType::Text);
            }
            j = j + 1;
        }
        self.col_types = new_types;
        proof {
            assert(self.types_model() =~~= inferred_types(
                self.rows_model(),
                old(self).spec_col_count(),
                sample,
            ));
        }
    }
}

} // verus!
