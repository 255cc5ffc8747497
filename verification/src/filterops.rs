//! The filter engine: per-condition matching against a row, combination
//! with all/any logic, and the projection of matching row indices.

use vstd::prelude::*;
use crate::numeric::{is_number, num_key_cmp, is_number_str, cmp_numeric};
use crate::textops::{
    lower_of,
    contains_sub,
    is_prefix_of,
    is_suffix_of,
    lowercase,
    contains_str,
    starts_with_str,
    ends_with_str,
    str_eq,
};
use crate::table::{ColType, CsvTable};

verus! {

/// How a condition compares a cell against its literal.
#[derive(Debug, Clone, PartialEq, Eq, Structural)]
pub enum FilterOperator {
    /// Case-insensitive match on text columns; equal numeric value on
    /// number columns.
    Equals,
    /// The negation of `Equals`.
    NotEquals,
    /// Case-insensitive substring test, whatever the column type.
    Contains,
    /// The negation of `Contains`.
    NotContains,
    /// Case-insensitive prefix test.
    StartsWith,
    /// Case-insensitive suffix test.
    EndsWith,
    /// Numeric: both sides must be numbers, and the cell greater.
    GreaterThan,
    /// Numeric: both sides must be numbers, and the cell smaller.
    LessThan,
    /// Numeric: both sides must be numbers, and the cell not smaller.
    GreaterOrEqual,
    /// Numeric: both sides must be numbers, and the cell not greater.
    LessOrEqual,
}

/// How several conditions combine.
#[derive(Debug, Clone, Copy, PartialEq, Eq, Structural)]
pub enum FilterLogic {
    /// Every condition must match.
    All,
    /// At least one condition must match.
    Any,
}

/// One filter condition: a column, an operator, and the literal compared
/// against.
#[derive(Debug, Clone)]
pub struct FilterCondition {
    /// Column index the condition reads.
    pub column: usize,
    /// Comparison operator.
    pub operator: FilterOperator,
    /// Value compared against.
    pub value: String,
}

impl FilterCondition {
    /// The mathematical form of this condition.
    pub open spec fn model(&self) -> (int, FilterOperator, Seq<char>) {
        (self.column as int, self.operator, self.value@)
    }

    /// Creates a filter condition.
    pub fn new(column: usize, operator: FilterOperator, value: String) -> (r: Self)
        ensures
            r.model() == (column as int, operator, value@),
    {
        Self { column, operator, value }
    }

    /// Whether a row matches this condition, under the advisory column
    /// types.
    pub fn matches(&self, row: &Vec<String>, col_types: &Vec<ColType>) -> (r: bool)
        ensures
            r == cond_matches(
                row.deep_view(),
                col_types@,
                self.column as int,
                self.operator,
                self.value@,
            ),
    {
        if self.column >= row.len() {
            return false;
        }
        let cell = &row[self.column];
        let numeric = self.column < col_types.len() && matches!(
            col_types[self.column],
            ColType::Number,
        );
        match self.operator {
            FilterOperator::Equals => {
                if numeric {
                    is_number_str(cell.as_str()) && is_number_str(self.value.as_str())
                        && cmp_numeric(cell.as_str(), self.value.as_str()) == 0
                } else {
                    let lc = lowercase(cell.as_str());
                    let lv = lowercase(self.value.as_str());
                    lc == lv
                }
            },
            FilterOperator::NotEquals => {
                if numeric {
                    !(is_number_str(cell.as_str()) && is_number_str(self.value.as_str())
                        && cmp_numeric(cell.as_str(), self.value.as_str()) == 0)
                } else {
                    let lc = lowercase(cell.as_str());
                    let lv = lowercase(self.value.as_str());
                    !(lc == lv)
                }
            },
            FilterOperator::Contains => {
                let lc = lowercase(cell.as_str());
                let lv = lowercase(self.value.as_str());
                contains_str(lc.as_str(), lv.as_str())
            },
            FilterOperator::NotContains => {
                let lc = lowercase(cell.as_str());
                let lv = lowercase(self.value.as_str());
                !contains_str(lc.as_str(), lv.as_str())
            },
            FilterOperator::StartsWith => {
                let lc = lowercase(cell.as_str());
                let lv = lowercase(self.value.as_str());
                starts_with_str(lc.as_str(), lv.as_str())
            },
            FilterOperator::EndsWith => {
                let lc = lowercase(cell.as_str());
                let lv = lowercase(self.value.as_str());
                ends_with_str(lc.as_str(), lv.as_str())
            },
            FilterOperator::GreaterThan => is_number_str(cell.as_str()) && is_number_str(
                self.value.as_str(),
            ) && cmp_numeric(cell.as_str(), self.value.as_str()) > 0,
            FilterOperator::LessThan => is_number_str(cell.as_str()) && is_number_str(
                self.value.as_str(),
            ) && cmp_numeric(cell.as_str(), self.value.as_str()) < 0,
            FilterOperator::GreaterOrEqual => is_number_str(cell.as_str()) && is_number_str(
                self.value.as_str(),
            ) && cmp_numeric(cell.as_str(), self.value.as_str()) >= 0,
            FilterOperator::LessOrEqual => is_number_str(cell.as_str()) && is_number_str(
                self.value.as_str(),
            ) && cmp_numeric(cell.as_str(), self.value.as_str()) <= 0,
        }
    }
}

/// Whether a row matches one condition.  A column beyond the row's width
/// never matches; a column without an advisory type counts as text.
pub open spec fn cond_matches(
    row: Seq<Seq<char>>,
    types: Seq<ColType>,
    column: int,
    op: FilterOperator,
    val: Seq<char>,
) -> bool {
    if !(0 <= column < row.len()) {
        false
    } else {
        let cell = row[column];
        let numeric = 0 <= column < types.len() && types[column] == ColType::Number;
        match op {
            FilterOperator::Equals => if numeric {
                is_number(cell) && is_number(val) && num_key_cmp(cell, val) == 0
            } else {
                lower_of(cell) == lower_of(val)
            },
            FilterOperator::NotEquals => if numeric {
                !(is_number(cell) && is_number(val) && num_key_cmp(cell, val) == 0)
            } else {
                lower_of(cell) != lower_of(val)
            },
            FilterOperator::Contains => contains_sub(lower_of(cell), lower_of(val)),
            FilterOperator::NotContains => !contains_sub(lower_of(cell), lower_of(val)),
            FilterOperator::StartsWith => is_prefix_of(lower_of(val), lower_of(cell)),
            FilterOperator::EndsWith => is_suffix_of(lower_of(val), lower_of(cell)),
            FilterOperator::GreaterThan => is_number(cell) && is_number(val) && num_key_cmp(
                cell,
                val,
            ) > 0,
            FilterOperator::LessThan => is_number(cell) && is_number(val) && num_key_cmp(cell, val)
                < 0,
            FilterOperator::GreaterOrEqual => is_number(cell) && is_number(val) && num_key_cmp(
                cell,
                val,
            ) >= 0,
            FilterOperator::LessOrEqual => is_number(cell) && is_number(val) && num_key_cmp(
                cell,
                val,
            ) <= 0,
        }
    }
}

/// The mathematical form of a list of conditions.
pub open spec fn conds_model(cs: Seq<FilterCondition>) -> Seq<(int, FilterOperator, Seq<char>)> {
    Seq::new(cs.len(), |i: int| cs[i].model())
}

/// Whether a row matches the combined predicate, condition by condition:
/// every condition under `All`, at least one under `Any`.
pub open spec fn row_matches(
    row: Seq<Seq<char>>,
    types: Seq<ColType>,
    cs: Seq<(int, FilterOperator, Seq<char>)>,
    logic: FilterLogic,
) -> bool
    decreases cs.len(),
{
    if cs.len() == 0 {
        logic == FilterLogic::All
    } else {
        let first = cond_matches(row, types, cs[0].0, cs[0].1, cs[0].2);
        let rest = row_matches(row, types, cs.drop_first(), logic);
        if logic == FilterLogic::All {
            first && rest
        } else {
            first || rest
        }
    }
}

/// The ascending indices of the rows below `n` that match the combined
/// predicate.
pub open spec fn matching_upto(
    rows: Seq<Seq<Seq<char>>>,
    types: Seq<ColType>,
    cs: Seq<(int, FilterOperator, Seq<char>)>,
    logic: FilterLogic,
    n: int,
) -> Seq<int>
    decreases n,
{
    if n <= 0 {
        Seq::empty()
    } else {
        let p = matching_upto(rows, types, cs, logic, n - 1);
        if row_matches(rows[n - 1], types, cs, logic) {
            p.push(n - 1)
        } else {
            p
        }
    }
}

/// The ascending indices of all rows matching the combined predicate.
pub open spec fn matching_indices(
    rows: Seq<Seq<Seq<char>>>,
    types: Seq<ColType>,
    cs: Seq<(int, FilterOperator, Seq<char>)>,
    logic: FilterLogic,
) -> Seq<int> {
    matching_upto(rows, types, cs, logic, rows.len() as int)
}

/// The matching indices are ascending, unique, in range, and hold exactly
/// the matching rows.
pub broadcast proof fn lemma_matching_upto(
    rows: Seq<Seq<Seq<char>>>,
    types: Seq<ColType>,
    cs: Seq<(int, FilterOperator, Seq<char>)>,
    logic: FilterLogic,
    n: int,
)
    requires
        0 <= n <= rows.len(),
    ensures
        #![trigger matching_upto(rows, types, cs, logic, n)]
        ({
            let m = matching_upto(rows, types, cs, logic, n);
            &&& m.len() <= n
            &&& forall|i: int| 0 <= i < m.len() ==> 0 <= #[trigger] m[i] < n
            &&& forall|i: int, j: int| 0 <= i < j < m.len() ==> m[i] < m[j]
            &&& forall|i: int| 0 <= i < m.len() ==> row_matches(rows[#[trigger] m[i]], types, cs, logic)
            &&& forall|v: int|
                0 <= v < n && row_matches(#[trigger] rows[v], types, cs, logic) ==> m.contains(v)
        }),
    decreases n,
{
    if n > 0 {
        lemma_matching_upto(rows, types, cs, logic, n - 1);
        let p = matching_upto(rows, types, cs, logic, n - 1);
        let m = matching_upto(rows, types, cs, logic, n);
        assert forall|v: int|
            0 <= v < n && row_matches(#[trigger] rows[v], types, cs, logic) implies m.contains(
            v,
        ) by {
            if v < n - 1 {
                assert(p.contains(v));
                let i = choose|i: int| 0 <= i < p.len() && p[i] == v;
                assert(m[i] == v);
            } else {
                assert(m[m.len() - 1] == v);
            }
        }
    }
}

/// Whether a row matches the combined predicate of the conditions.
fn row_matches_exec(
    row: &Vec<String>,
    col_types: &Vec<ColType>,
    conditions: &Vec<FilterCondition>,
    logic: FilterLogic,
) -> (r: bool)
    ensures
        r == row_matches(row.deep_view(), col_types@, conds_model(conditions@), logic),
{
    let ghost cm = conds_model(conditions@);
    let ncond = conditions.len();
    let all = matches!(logic, FilterLogic::All);
    let mut ok = all;
    let mut k: usize = 0;
    proof {
        assert(cm.skip(0) =~~= cm);
    }
    while k < ncond && ok == all
        invariant
            k <= ncond,
            ncond == conditions@.len(),
            cm == conds_model(conditions@),
            all == (logic == FilterLogic::All),
            row_matches(row.deep_view(), col_types@, cm, logic) == if all {
                ok && row_matches(row.deep_view(), col_types@, cm.skip(k as int), logic)
            } else {
                ok || row_matches(row.deep_view(), col_types@, cm.skip(k as int), logic)
            },
        decreases ncond - k + (if ok == all {
            1int
        } else {
            0int
        }),
    {
        proof {
            assert(cm[k as int] == conditions@[k as int].model());
            assert(cm.skip(k as int)[0] == cm[k as int]);
            assert(cm.skip(k as int).drop_first() =~~= cm.skip(k + 1));
        }
        let hit = conditions[k].matches(row, col_types);
        if hit != all {
            ok = !all;
        } else {
            k = k + 1;
        }
    }
    proof {
        assert(cm.skip(ncond as int) =~~= Seq::<(int, FilterOperator, Seq<char>)>::empty());
    }
    ok
}

/// Law of the collapse rule: when every row matches the combined predicate
/// the matching indices are the whole row set, and when no row matches they
/// are empty — in either case `apply_filters` stores no projection, so
/// `is_filtered` is false afterward.
pub proof fn lemma_filter_collapse(
    rows: Seq<Seq<Seq<char>>>,
    types: Seq<ColType>,
    cs: Seq<(int, FilterOperator, Seq<char>)>,
    logic: FilterLogic,
)
    ensures
        (forall|v: int| 0 <= v < rows.len() ==> row_matches(#[trigger] rows[v], types, cs, logic))
            ==> matching_indices(rows, types, cs, logic).len() == rows.len(),
        (forall|v: int| 0 <= v < rows.len() ==> !row_matches(#[trigger] rows[v], types, cs, logic))
            ==> matching_indices(rows, types, cs, logic).len() == 0,
{
    lemma_collapse_upto(rows, types, cs, logic, rows.len() as int);
}

proof fn lemma_collapse_upto(
    rows: Seq<Seq<Seq<char>>>,
    types: Seq<ColType>,
    cs: Seq<(int, FilterOperator, Seq<char>)>,
    logic: FilterLogic,
    n: int,
)
    requires
        0 <= n <= rows.len(),
    ensures
        (forall|v: int| 0 <= v < n ==> row_matches(#[trigger] rows[v], types, cs, logic))
            ==> matching_upto(rows, types, cs, logic, n).len() == n,
        (forall|v: int| 0 <= v < n ==> !row_matches(#[trigger] rows[v], types, cs, logic))
            ==> matching_upto(rows, types, cs, logic, n).len() == 0,
    decreases n,
{
    if n > 0 {
        lemma_collapse_upto(rows, types, cs, logic, n - 1);
    }
}

impl CsvTable {
    /// Evaluates the conditions against every row and installs the
    /// projection of matching indices.  An empty condition list clears the
    /// filter; so does a predicate that every row matches, or that no row
    /// matches.
    pub fn apply_filters(&mut self, conditions: &Vec<FilterCondition>, logic: FilterLogic)
        ensures
            final (self).headers_model() == old(self).headers_model(),
            final (self).rows_model() == old(self).rows_model(),
            final (self).types_model() == old(self).types_model(),
            final (self).same_history(old(self)),
            ({
                let m = matching_indices(
                    old(self).rows_model(),
                    old(self).types_model(),
                    conds_model(conditions@),
                    logic,
                );
                final (self).filter_model() == if conditions@.len() == 0 {
                    None::<Seq<int>>
                } else if m.len() == 0 || m.len() == old(self).rows_model().len() {
                    None::<Seq<int>>
                } else {
                    Some(m)
                }
            }),
            final (self).filter_model() matches Some(f) ==> ({
                let nrows = final (self).rows_model().len();
                &&& 0 < f.len() < nrows
                &&& forall|i: int| 0 <= i < f.len() ==> 0 <= #[trigger] f[i] < nrows
                &&& forall|i: int, j: int| 0 <= i < j < f.len() ==> f[i] < f[j]
            }),
    {
        let ghost cm = conds_model(conditions@);
        if conditions.len() == 0 {
            self.filtered_indices = None;
            return ;
        }
        let mut matching: Vec<usize> = Vec::new();
        let n = self.data.len();
        let ncond = conditions.len();
        let mut idx: usize = 0;
        while idx < n
            invariant
                idx <= n,
                n == self.data@.len(),
                ncond == conditions@.len(),
                cm == conds_model(conditions@),
                matching@.len() <= idx,
                Seq::new(matching@.len(), |i: int| matching@[i] as int) =~~= matching_upto(
                    self.rows_model(),
                    self.types_model(),
                    cm,
                    logic,
                    idx as int,
                ),
            decreases n - idx,
        {
            let row = &self.data[idx];
            let is_match = row_matches_exec(row, &self.col_types, conditions, logic);
            if is_match {
                matching.push(idx);
                proof {
                    assert(Seq::new(matching@.len(), |i: int| matching@[i] as int) =~~= Seq::new(
                        matching@.drop_last().len(),
                        |i: int| matching@.drop_last()[i] as int,
                    ).push(idx as int));
                }
            }
            idx = idx + 1;
        }
        proof {
            lemma_matching_upto(self.rows_model(), self.types_model(), cm, logic, n as int);
        }
        let total = self.data.len();
        let match_count = matching.len();
        if match_count == 0 || match_count == total {
            self.filtered_indices = None;
        } else {
            self.filtered_indices = Some(matching);
        }
    }
}

/// The display name of a filter operator.
pub fn operator_to_string(op: FilterOperator) -> (r: &'static str)
    ensures
        r@ == op_name(op),
{
    match op {
        FilterOperator::Equals => "Equals",
        FilterOperator::NotEquals => "NotEquals",
        FilterOperator::Contains => "Contains",
        FilterOperator::NotContains => "NotContains",
        FilterOperator::StartsWith => "StartsWith",
        FilterOperator::EndsWith => "EndsWith",
        FilterOperator::GreaterThan => "GreaterThan",
        FilterOperator::LessThan => "LessThan",
        FilterOperator::GreaterOrEqual => "GreaterOrEqual",
        FilterOperator::LessOrEqual => "LessOrEqual",
    }
}

/// The display name of each operator.
pub open spec fn op_name(op: FilterOperator) -> Seq<char> {
    match op {
        FilterOperator::Equals => "Equals"@,
        FilterOperator::NotEquals => "NotEquals"@,
        FilterOperator::Contains => "Contains"@,
        FilterOperator::NotContains => "NotContains"@,
        FilterOperator::StartsWith => "StartsWith"@,
        FilterOperator::EndsWith => "EndsWith"@,
        FilterOperator::GreaterThan => "GreaterThan"@,
        FilterOperator::LessThan => "LessThan"@,
        FilterOperator::GreaterOrEqual => "GreaterOrEqual"@,
        FilterOperator::LessOrEqual => "LessOrEqual"@,
    }
}

/// The operator named by a string; an unknown name falls back to `Equals`.
pub open spec fn op_of_name(s: Seq<char>) -> FilterOperator {
    if s == "NotEquals"@ {
        FilterOperator::NotEquals
    } else if s == "Contains"@ {
        FilterOperator::Contains
    } else if s == "NotContains"@ {
        FilterOperator::NotContains
    } else if s == "StartsWith"@ {
        FilterOperator::StartsWith
    } else if s == "EndsWith"@ {
        FilterOperator::EndsWith
    } else if s == "GreaterThan"@ {
        FilterOperator::GreaterThan
    } else if s == "LessThan"@ {
        FilterOperator::LessThan
    } else if s == "GreaterOrEqual"@ {
        FilterOperator::GreaterOrEqual
    } else if s == "LessOrEqual"@ {
        FilterOperator::LessOrEqual
    } else {
        FilterOperator::Equals
    }
}

/// Parses a display name back to its operator; an unknown name falls back
/// to `Equals`.
pub fn string_to_operator(s: &str) -> (r: FilterOperator)
    ensures
        r == op_of_name(s@),
{
    if str_eq(s, "NotEquals") {
        FilterOperator::NotEquals
    } else if str_eq(s, "Contains") {
        FilterOperator::Contains
    } else if str_eq(s, "NotContains") {
        FilterOperator::NotContains
    } else if str_eq(s, "StartsWith") {
        FilterOperator::StartsWith
    } else if str_eq(s, "EndsWith") {
        FilterOperator::EndsWith
    } else if str_eq(s, "GreaterThan") {
        FilterOperator::GreaterThan
    } else if str_eq(s, "LessThan") {
        FilterOperator::LessThan
    } else if str_eq(s, "GreaterOrEqual") {
        FilterOperator::GreaterOrEqual
    } else if str_eq(s, "LessOrEqual") {
        FilterOperator::LessOrEqual
    } else {
        FilterOperator::Equals
    }
}

} // verus!
