//! The table store: header row, row data, advisory column types, the
//! optional filter projection, and the edit history, with bounds-checked
//! accessors and mutators.

use vstd::prelude::*;
use crate::history::{Act, EditAction, History, entries_model, invert_act, push_capped};

verus! {

/// Advisory classification of a column, driving comparison semantics only.
#[derive(Debug, Clone, Copy, PartialEq, Eq, Structural)]
pub enum ColType {
    /// Sorted and matched as text.
    Text,
    /// Sorted and matched as a number.
    Number,
}

impl Default for ColType {
    /// Columns are text until inference says otherwise.
    fn default() -> (r: Self)
        ensures
            r == ColType::Text,
    {
        ColType::Text
    }
}

/// In-memory tabular data: optional headers, rows of string cells, advisory
/// column types, an optional projection of visible rows, and the undo/redo
/// history of cell edits.
#[derive(Debug, Clone)]
pub struct CsvTable {
    /// The header row, if the dataset has one.
    pub headers: Option<Vec<String>>,
    /// All rows; each row holds one string per column.
    pub data: Vec<Vec<String>>,
    /// When a filter is active, the ascending absolute indices of the
    /// visible rows; `None` shows every row.
    pub filtered_indices: Option<Vec<usize>>,
    /// One advisory type per column.
    pub col_types: Vec<ColType>,
    /// The undo/redo history of cell edits.
    pub history: History,
}

impl CsvTable {
    /// The rows as sequences of character sequences.
    pub open spec fn rows_model(&self) -> Seq<Seq<Seq<char>>> {
        self.data.deep_view()
    }

    /// The headers as character sequences, if present.
    pub open spec fn headers_model(&self) -> Option<Seq<Seq<char>>> {
        match self.headers {
            Some(h) => Some(h.deep_view()),
            None => None,
        }
    }

    /// The filter projection as mathematical integers, if present.
    pub open spec fn filter_model(&self) -> Option<Seq<int>> {
        match self.filtered_indices {
            Some(v) => Some(Seq::new(v@.len(), |i: int| v@[i] as int)),
            None => None,
        }
    }

    /// The advisory column types.
    pub open spec fn types_model(&self) -> Seq<ColType> {
        self.col_types@
    }

    /// The number of columns: header length when headers are present, else
    /// the first row's length, else zero.
    pub open spec fn spec_col_count(&self) -> nat {
        match self.headers {
            Some(h) => h@.len(),
            None => if self.data@.len() > 0 {
                self.data@[0]@.len()
            } else {
                0
            },
        }
    }

    /// The absolute indices of the visible rows: the projection when a
    /// filter is active, else every row index in order.
    pub open spec fn spec_visible(&self) -> Seq<int> {
        match self.filter_model() {
            Some(f) => f,
            None => Seq::new(self.data@.len(), |i: int| i),
        }
    }

    /// Everything but the rows and the history is unchanged.
    pub open spec fn same_frame(&self, other: &Self) -> bool {
        &&& self.headers_model() == other.headers_model()
        &&& self.filter_model() == other.filter_model()
        &&& self.types_model() == other.types_model()
    }

    /// The history is unchanged at the model level.
    pub open spec fn same_history(&self, other: &Self) -> bool {
        &&& self.history.undo_model() == other.history.undo_model()
        &&& self.history.redo_model() == other.history.redo_model()
        &&& self.history.capacity() == other.history.capacity()
    }

    /// Creates an empty table: no headers, no rows, no filter, a default
    /// history.
    pub fn new() -> (r: Self)
        ensures
            r.headers_model() is None,
            r.rows_model() == Seq::<Seq<Seq<char>>>::empty(),
            r.filter_model() is None,
            r.types_model() == Seq::<ColType>::empty(),
            r.history.undo_model() == Seq::<Act>::empty(),
            r.history.redo_model() == Seq::<Act>::empty(),
            r.history.capacity() == 100,
    {
        let r = Self {
            headers: None,
            data: Vec::new(),
            filtered_indices: None,
            col_types: Vec::new(),
            history: History::default(),
        };
        proof {
            assert(r.rows_model() =~~= Seq::<Seq<Seq<char>>>::empty());
        }
        r
    }

    /// Creates a table with the given headers and one advisory text type per
    /// header.
    pub fn with_headers(headers: Vec<String>) -> (r: Self)
        ensures
            r.headers_model() == Some(headers.deep_view()),
            r.rows_model() == Seq::<Seq<Seq<char>>>::empty(),
            r.filter_model() is None,
            r.types_model() == Seq::new(headers@.len(), |i: int| ColType::Text),
            r.spec_col_count() == headers@.len(),
            r.history.undo_model() == Seq::<Act>::empty(),
            r.history.redo_model() == Seq::<Act>::empty(),
            r.history.capacity() == 100,
    {
        let col_count = headers.len();
        let mut col_types: Vec<ColType> = Vec::new();
        let mut i: usize = 0;
        while i < col_count
            invariant
                i <= col_count,
                col_types@.len() == i,
                forall|j: int| 0 <= j < i ==> col_types@[j] == ColType::Text,
            decreases col_count - i,
        {
            col_types.push(ColType::Text);
            i = i + 1;
        }
        let r = Self {
            headers: Some(headers),
            data: Vec::new(),
            filtered_indices: None,
            col_types,
            history: History::default(),
        };
        proof {
            assert(r.rows_model() =~~= Seq::<Seq<Seq<char>>>::empty());
            assert(r.types_model() =~~= Seq::new(r.headers->Some_0@.len(), |i: int| ColType::Text));
        }
        r
    }

    /// The number of columns: header length when headers are present, else
    /// the first row's length, else zero.
    pub fn column_count(&self) -> (r: usize)
        ensures
            r as nat == self.spec_col_count(),
    {
        match &self.headers {
            Some(h) => h.len(),
            None => {
                if self.data.len() > 0 {
                    self.data[0].len()
                } else {
                    0
                }
            },
        }
    }

    /// The total number of rows, filtered or not.
    pub fn row_count(&self) -> (r: usize)
        ensures
            r as nat == self.rows_model().len(),
    {
        self.data.len()
    }

    /// The number of visible rows: the projection's length when a filter is
    /// active, else the row count.
    pub fn visible_row_count(&self) -> (r: usize)
        ensures
            r as nat == self.spec_visible().len(),
    {
        match &self.filtered_indices {
            Some(indices) => indices.len(),
            None => self.data.len(),
        }
    }

    /// A filter is currently active.
    pub fn is_filtered(&self) -> (r: bool)
        ensures
            r == (self.filter_model() is Some),
    {
        self.filtered_indices.is_some()
    }

    /// Drops any active filter, showing all rows.
    pub fn clear_filter(&mut self)
        ensures
            final (self).filter_model() is None,
            final (self).headers_model() == old(self).headers_model(),
            final (self).rows_model() == old(self).rows_model(),
            final (self).types_model() == old(self).types_model(),
            final (self).same_history(old(self)),
    {
        self.filtered_indices = None;
    }

    /// The row at an absolute index, when it is in range.
    pub fn get_row(&self, index: usize) -> (r: Option<&Vec<String>>)
        ensures
            match r {
                Some(row) => index < self.rows_model().len() && row.deep_view()
                    == self.rows_model()[index as int],
                None => index >= self.rows_model().len(),
            },
    {
        if index < self.data.len() {
            Some(&self.data[index])
        } else {
            None
        }
    }

    /// The row at a visible index, resolved through the projection when a
    /// filter is active; `None` when the visible index, or the projected
    /// absolute index, is out of range.
    pub fn get_visible_row(&self, visible_index: usize) -> (r: Option<&Vec<String>>)
        ensures
            match r {
                Some(row) => visible_index < self.spec_visible().len() && 0 <= self.spec_visible(
                )[visible_index as int] < self.rows_model().len() && row.deep_view()
                    == self.rows_model()[self.spec_visible()[visible_index as int]],
                None => visible_index >= self.spec_visible().len() || self.spec_visible(
                )[visible_index as int] >= self.rows_model().len(),
            },
    {
        match &self.filtered_indices {
            Some(indices) => {
                if visible_index < indices.len() {
                    let idx = indices[visible_index];
                    self.get_row(idx)
                } else {
                    None
                }
            },
            None => self.get_row(visible_index),
        }
    }

    /// The cell at a row and column, when both are in range.
    pub fn get_cell(&self, row: usize, col: usize) -> (r: Option<&str>)
        ensures
            match r {
                Some(cell) => row < self.rows_model().len() && col < self.rows_model()[
                    row as int].len() && cell@ == self.rows_model()[row as int][col as int],
                None => row >= self.rows_model().len() || col >= self.rows_model()[
                    row as int].len(),
            },
    {
        if row < self.data.len() {
            let row_data = &self.data[row];
            if col < row_data.len() {
                Some(row_data[col].as_str())
            } else {
                None
            }
        } else {
            None
        }
    }

    /// Sets one cell and records the edit in the history; `false`, with
    /// nothing changed, when the row or column is out of range.
    pub fn set_cell(&mut self, row: usize, col: usize, value: String) -> (r: bool)
        ensures
            r == (row < old(self).rows_model().len() && col < old(self).rows_model()[
                row as int].len()),
            final (self).same_frame(old(self)),
            r ==> final (self).rows_model() == old(self).rows_model().update(
                row as int,
                old(self).rows_model()[row as int].update(col as int, value@),
            ),
            r ==> final (self).history.undo_model() == push_capped(
                old(self).history.undo_model(),
                Act::Cell {
                    row: row as int,
                    col: col as int,
                    was: old(self).rows_model()[row as int][col as int],
                    now: value@,
                },
                old(self).history.capacity(),
            ),
            r ==> final (self).history.redo_model() == Seq::<Act>::empty(),
            !r ==> final (self).rows_model() == old(self).rows_model(),
            !r ==> final (self).same_history(old(self)),
            final (self).history.capacity() == old(self).history.capacity(),
    {
        if row < self.data.len() {
            if col < self.data[row].len() {
                let old_value = self.data[row][col].clone();
                set_row_cell(&mut self.data, row, col, value.clone());
                let action = EditAction::set_cell(row, col, old_value, value);
                self.history.push(action);
                return true;
            }
        }
        false
    }
}

/// One change applied to the rows: the cell at `(e.0, e.1)` set to `e.3`
/// when both are in range, else `None`.
pub open spec fn apply_entry_spec(rows: Seq<Seq<Seq<char>>>, e: (int, int, Seq<char>, Seq<char>)) -> Option<
    Seq<Seq<Seq<char>>>,
> {
    if 0 <= e.0 < rows.len() && 0 <= e.1 < rows[e.0].len() {
        Some(rows.update(e.0, rows[e.0].update(e.1, e.3)))
    } else {
        None
    }
}

/// A list of changes applied in order, stopping at the first out-of-range
/// entry: the rows reached, and whether every entry applied.
pub open spec fn apply_entries_spec(
    rows: Seq<Seq<Seq<char>>>,
    cells: Seq<(int, int, Seq<char>, Seq<char>)>,
) -> (Seq<Seq<Seq<char>>>, bool)
    decreases cells.len(),
{
    if cells.len() == 0 {
        (rows, true)
    } else {
        match apply_entry_spec(rows, cells[0]) {
            Some(r2) => apply_entries_spec(r2, cells.drop_first()),
            None => (rows, false),
        }
    }
}

/// An action applied to the rows: the rows reached, and whether it applied
/// in full.  A grouped action that fails midway leaves its earlier entries
/// applied.
pub open spec fn apply_act_spec(rows: Seq<Seq<Seq<char>>>, a: Act) -> (Seq<Seq<Seq<char>>>, bool) {
    match a {
        Act::Cell { row, col, was, now } => match apply_entry_spec(rows, (row, col, was, now)) {
            Some(r2) => (r2, true),
            None => (rows, false),
        },
        Act::Multi { cells } => apply_entries_spec(rows, cells),
    }
}

/// The mathematical form of a list of requested changes.
pub open spec fn changes_model(s: Seq<(usize, usize, String)>) -> Seq<(int, int, Seq<char>)> {
    Seq::new(s.len(), |i: int| (s[i].0 as int, s[i].1 as int, s[i].2@))
}

/// A batch of requested changes folded over the rows: out-of-range entries
/// are skipped; the result is the rows reached and the entries actually
/// applied, each with the value it overwrote.
pub open spec fn fold_changes(rows: Seq<Seq<Seq<char>>>, cs: Seq<(int, int, Seq<char>)>) -> (
    Seq<Seq<Seq<char>>>,
    Seq<(int, int, Seq<char>, Seq<char>)>,
)
    decreases cs.len(),
{
    if cs.len() == 0 {
        (rows, Seq::empty())
    } else {
        let c = cs[0];
        if 0 <= c.0 < rows.len() && 0 <= c.1 < rows[c.0].len() {
            let e = (c.0, c.1, rows[c.0][c.1], c.2);
            let r2 = rows.update(c.0, rows[c.0].update(c.1, c.2));
            let rest = fold_changes(r2, cs.drop_first());
            (rest.0, seq![e] + rest.1)
        } else {
            fold_changes(rows, cs.drop_first())
        }
    }
}

impl CsvTable {
    /// Sets several cells as one undo unit.  Out-of-range entries are
    /// skipped; the count of entries actually applied is returned, and when
    /// at least one applied, one grouped action holding exactly those
    /// entries is recorded.
    pub fn set_cells(&mut self, changes: Vec<(usize, usize, String)>) -> (r: usize)
        ensures
            final (self).same_frame(old(self)),
            final (self).history.capacity() == old(self).history.capacity(),
            ({
                let folded = fold_changes(old(self).rows_model(), changes_model(changes@));
                &&& final (self).rows_model() == folded.0
                &&& r as int == folded.1.len()
                &&& folded.1.len() > 0 ==> final (self).history.undo_model() == push_capped(
                    old(self).history.undo_model(),
                    Act::Multi { cells: folded.1 },
                    old(self).history.capacity(),
                ) && final (self).history.redo_model() == Seq::<Act>::empty()
                &&& folded.1.len() == 0 ==> final (self).same_history(old(self))
            }),
    {
        let ghost cm = changes_model(changes@);
        let ghost folded = fold_changes(old(self).rows_model(), cm);
        let mut successful: Vec<(usize, usize, String, String)> = Vec::new();
        let mut count: usize = 0;
        let n = changes.len();
        let mut i: usize = 0;
        proof {
            assert(cm.skip(0) =~~= cm);
        }
        while i < n
            invariant
                i <= n,
                n == changes@.len(),
                cm == changes_model(changes@),
                folded == fold_changes(old(self).rows_model(), cm),
                count as int == successful@.len(),
                count <= i,
                self.same_frame(old(self)),
                self.same_history(old(self)),
                ({
                    let t = fold_changes(self.rows_model(), cm.skip(i as int));
                    folded.0 == t.0 && folded.1 == entries_model(successful@) + t.1
                }),
            decreases n - i,
        {
            let ghost pre_rows = self.rows_model();
            let ghost c = cm[i as int];
            proof {
                assert(cm.skip(i as int)[0] == c);
                assert(cm.skip(i as int).drop_first() =~~= cm.skip(i + 1));
            }
            let (row, col, new_value) = {
                let e = &changes[i];
                (e.0, e.1, e.2.clone())
            };
            if row < self.data.len() {
                if col < self.data[row].len() {
                    let old_value = self.data[row][col].clone();
                    set_row_cell(&mut self.data, row, col, new_value.clone());
                    successful.push((row, col, old_value, new_value));
                    count = count + 1;
                    proof {
                        assert(entries_model(successful@) =~~= entries_model(
                            successful@.drop_last(),
                        ) + seq![(c.0, c.1, pre_rows[c.0][c.1], c.2)]);
                        assert(entries_model(successful@.drop_last()) + (seq![
                            (c.0, c.1, pre_rows[c.0][c.1], c.2),
                        ] + fold_changes(self.rows_model(), cm.skip(i + 1)).1) =~~= (entries_model(
                            successful@.drop_last(),
                        ) + seq![(c.0, c.1, pre_rows[c.0][c.1], c.2)]) + fold_changes(
                            self.rows_model(),
                            cm.skip(i + 1),
                        ).1);
                    }
                } else {
                    proof {
                        assert(fold_changes(self.rows_model(), cm.skip(i as int)) == fold_changes(
                            self.rows_model(),
                            cm.skip(i + 1),
                        ));
                    }
                }
            } else {
                proof {
                    assert(fold_changes(self.rows_model(), cm.skip(i as int)) == fold_changes(
                        self.rows_model(),
                        cm.skip(i + 1),
                    ));
                }
            }
            i = i + 1;
        }
        proof {
            assert(cm.skip(n as int) =~~= Seq::<(int, int, Seq<char>)>::empty());
            assert(folded.1 =~~= entries_model(successful@));
        }
        if successful.len() > 0 {
            let action = EditAction::multi_set(successful);
            self.history.push(action);
        }
        count
    }

    /// Undoes the most recent edit: applies its inverse and moves the
    /// original action to the redo stack.  An empty undo stack is an error
    /// with nothing changed; an action referencing a cell that is out of
    /// range is an error, reported after the in-range part of its inverse
    /// has been applied, and the action is dropped.
    pub fn undo(&mut self) -> (r: Result<(), String>)
        ensures
            final (self).same_frame(old(self)),
            final (self).history.capacity() == old(self).history.capacity(),
            old(self).history.undo_model().len() == 0 ==> r is Err && final (self).rows_model()
                == old(self).rows_model() && final (self).same_history(old(self)),
            old(self).history.undo_model().len() > 0 ==> ({
                let a = old(self).history.undo_model().last();
                let applied = apply_act_spec(old(self).rows_model(), invert_act(a));
                &&& final (self).rows_model() == applied.0
                &&& final (self).history.undo_model() == old(self).history.undo_model().drop_last()
                &&& (r is Ok <==> applied.1)
                &&& applied.1 ==> final (self).history.redo_model() == push_capped(
                    old(self).history.redo_model(),
                    a,
                    old(self).history.capacity(),
                )
                &&& !applied.1 ==> final (self).history.redo_model() == old(
                    self,
                ).history.redo_model()
            }),
    {
        match self.history.pop_undo() {
            Some(action) => {
                let inverse = action.inverse();
                match apply_action(&mut self.data, &inverse) {
                    Ok(_) => {
                        self.history.push_redo(action);
                        Ok(())
                    },
                    Err(e) => Err(e),
                }
            },
            None => Err(not_available()),
        }
    }

    /// Redoes the most recently undone edit: applies it forward and moves it
    /// back to the undo stack.  An empty redo stack is an error with nothing
    /// changed; an out-of-range action is an error, reported after its
    /// in-range prefix has been applied, and the action is dropped.
    pub fn redo(&mut self) -> (r: Result<(), String>)
        ensures
            final (self).same_frame(old(self)),
            final (self).history.capacity() == old(self).history.capacity(),
            old(self).history.redo_model().len() == 0 ==> r is Err && final (self).rows_model()
                == old(self).rows_model() && final (self).same_history(old(self)),
            old(self).history.redo_model().len() > 0 ==> ({
                let a = old(self).history.redo_model().last();
                let applied = apply_act_spec(old(self).rows_model(), a);
                &&& final (self).rows_model() == applied.0
                &&& final (self).history.redo_model() == old(self).history.redo_model().drop_last()
                &&& (r is Ok <==> applied.1)
                &&& applied.1 ==> final (self).history.undo_model() == push_capped(
                    old(self).history.undo_model(),
                    a,
                    old(self).history.capacity(),
                )
                &&& !applied.1 ==> final (self).history.undo_model() == old(
                    self,
                ).history.undo_model()
            }),
    {
        match self.history.pop_redo() {
            Some(action) => {
                match apply_action(&mut self.data, &action) {
                    Ok(_) => {
                        self.history.push_undo(action);
                        Ok(())
                    },
                    Err(e) => Err(e),
                }
            },
            None => Err(not_available()),
        }
    }

    /// There is an edit to undo.
    pub fn can_undo(&self) -> (r: bool)
        ensures
            r == (self.history.undo_model().len() > 0),
    {
        self.history.can_undo()
    }

    /// There is an undone edit to redo.
    pub fn can_redo(&self) -> (r: bool)
        ensures
            r == (self.history.redo_model().len() > 0),
    {
        self.history.can_redo()
    }

    /// The absolute indices of the visible rows, in order: the projection
    /// when a filter is active, else `0..row_count`.
    pub fn visible_indices(&self) -> (r: Vec<usize>)
        ensures
            r@.len() == self.spec_visible().len(),
            forall|i: int| 0 <= i < r@.len() ==> r@[i] as int == self.spec_visible()[i],
    {
        match &self.filtered_indices {
            Some(indices) => {
                let mut out: Vec<usize> = Vec::new();
                let n = indices.len();
                let mut i: usize = 0;
                while i < n
                    invariant
                        i <= n,
                        n == indices@.len(),
                        out@.len() == i,
                        forall|j: int| 0 <= j < i ==> out@[j] == indices@[j],
                    decreases n - i,
                {
                    out.push(indices[i]);
                    i = i + 1;
                }
                out
            },
            None => {
                let mut out: Vec<usize> = Vec::new();
                let n = self.data.len();
                let mut i: usize = 0;
                while i < n
                    invariant
                        i <= n,
                        out@.len() == i,
                        forall|j: int| 0 <= j < i ==> out@[j] as int == j,
                    decreases n - i,
                {
                    out.push(i);
                    i = i + 1;
                }
                out
            },
        }
    }
}

/// The message reported when there is nothing to undo or redo.
fn not_available() -> (r: String) {
    "nothing to apply".to_owned()
}

/// Applies an action to the rows, entry by entry, stopping with an error at
/// the first out-of-range entry; earlier entries stay applied.
fn apply_action(data: &mut Vec<Vec<String>>, action: &EditAction) -> (r: Result<(), String>)
    ensures
        ({
            let applied = apply_act_spec(old(data).deep_view(), action.model());
            &&& final (data).deep_view() == applied.0
            &&& (r is Ok <==> applied.1)
        }),
{
    match action {
        EditAction::SetCell { row, col, new_value, .. } => {
            if *row < data.len() {
                if *col < data[*row].len() {
                    set_row_cell(data, *row, *col, new_value.clone());
                    return Ok(());
                }
            }
            Err(oob_msg())
        },
        EditAction::MultiSet(changes) => {
            let ghost cells = entries_model(changes@);
            let n = changes.len();
            let mut i: usize = 0;
            proof {
                assert(cells.skip(0) =~~= cells);
            }
            while i < n
                invariant
                    i <= n,
                    n == changes@.len(),
                    cells == entries_model(changes@),
                    ({
                        let whole = apply_act_spec(old(data).deep_view(), action.model());
                        let t = apply_entries_spec(data.deep_view(), cells.skip(i as int));
                        whole.0 == t.0 && whole.1 == t.1
                    }),
                decreases n - i,
            {
                proof {
                    assert(cells.skip(i as int)[0] == cells[i as int]);
                    assert(cells.skip(i as int).drop_first() =~~= cells.skip(i + 1));
                }
                let e = &changes[i];
                let row = e.0;
                let col = e.1;
                if row < data.len() {
                    if col < data[row].len() {
                        let nv = e.3.clone();
                        set_row_cell(data, row, col, nv);
                        i = i + 1;
                        continue ;
                    }
                }
                return Err(oob_msg());
            }
            proof {
                assert(cells.skip(n as int) =~~= Seq::<(int, int, Seq<char>, Seq<char>)>::empty());
            }
            Ok(())
        },
    }
}

/// The message reported for an action referencing a cell out of range.
fn oob_msg() -> (r: String) {
    "cell reference out of bounds".to_owned()
}

/// Replaces the cell at `data[row][col]`.
fn set_row_cell(data: &mut Vec<Vec<String>>, row: usize, col: usize, value: String)
    requires
        row < old(data)@.len(),
        col < old(data)@[row as int]@.len(),
    ensures
        final (data).deep_view() == old(data).deep_view().update(
            row as int,
            old(data).deep_view()[row as int].update(col as int, value@),
        ),
{
    let row_ref = &mut data[row];
    row_ref[col] = value;
    proof {
        assert(data.deep_view() =~~= old(data).deep_view().update(
            row as int,
            old(data).deep_view()[row as int].update(col as int, value@),
        ));
    }
}

} // verus!
