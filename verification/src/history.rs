//! Reversible cell edits and the bounded undo/redo history.
//!
//! An edit action records one cell change, or a group of them applied and
//! reverted as one unit.  The history holds two bounded stacks of actions;
//! pushing beyond capacity evicts the oldest entry, and a fresh edit clears
//! the redo stack.

use vstd::prelude::*;

verus! {

/// A single edit action that can be undone and redone.
#[derive(Debug, Clone)]
pub enum EditAction {
    /// One cell set to a new value, remembering the old one.
    SetCell { row: usize, col: usize, old_value: String, new_value: String },
    /// Several cells set at once, one undo unit; each entry is
    /// `(row, col, old value, new value)`.
    MultiSet(Vec<(usize, usize, String, String)>),
}

/// The mathematical form of an edit action.
pub enum Act {
    Cell { row: int, col: int, was: Seq<char>, now: Seq<char> },
    Multi { cells: Seq<(int, int, Seq<char>, Seq<char>)> },
}

/// The mathematical form of one `(row, col, old, new)` entry.
pub open spec fn entry_model(e: (usize, usize, String, String)) -> (int, int, Seq<char>, Seq<char>) {
    (e.0 as int, e.1 as int, e.2@, e.3@)
}

/// The mathematical form of a list of entries.
pub open spec fn entries_model(s: Seq<(usize, usize, String, String)>) -> Seq<
    (int, int, Seq<char>, Seq<char>),
> {
    Seq::new(s.len(), |i: int| entry_model(s[i]))
}

/// One entry with old and new values swapped.
pub open spec fn invert_entry(e: (int, int, Seq<char>, Seq<char>)) -> (int, int, Seq<char>, Seq<char>) {
    (e.0, e.1, e.3, e.2)
}

/// A list of entries, each with old and new values swapped.
pub open spec fn invert_entries(s: Seq<(int, int, Seq<char>, Seq<char>)>) -> Seq<
    (int, int, Seq<char>, Seq<char>),
> {
    Seq::new(s.len(), |i: int| invert_entry(s[i]))
}

/// The inverse action: old and new values swapped throughout.
pub open spec fn invert_act(a: Act) -> Act {
    match a {
        Act::Cell { row, col, was, now } => Act::Cell { row, col, was: now, now: was },
        Act::Multi { cells } => Act::Multi { cells: invert_entries(cells) },
    }
}

impl EditAction {
    /// The mathematical form of this action.
    pub open spec fn model(&self) -> Act {
        match self {
            EditAction::SetCell { row, col, old_value, new_value } => Act::Cell {
                row: *row as int,
                col: *col as int,
                was: old_value@,
                now: new_value@,
            },
            EditAction::MultiSet(changes) => Act::Multi { cells: entries_model(changes@) },
        }
    }

    /// Creates a single-cell action.
    pub fn set_cell(row: usize, col: usize, old_value: String, new_value: String) -> (r: Self)
        ensures
            r.model() == (Act::Cell {
                row: row as int,
                col: col as int,
                was: old_value@,
                now: new_value@,
            }),
    {
        EditAction::SetCell { row, col, old_value, new_value }
    }

    /// Creates a grouped action from a list of cell changes.
    pub fn multi_set(changes: Vec<(usize, usize, String, String)>) -> (r: Self)
        ensures
            r.model() == (Act::Multi { cells: entries_model(changes@) }),
    {
        EditAction::MultiSet(changes)
    }

    /// The action that exactly reverts this one: old and new values swapped,
    /// entry by entry.
    pub fn inverse(&self) -> (r: Self)
        ensures
            r.model() == invert_act(self.model()),
    {
        match self {
            EditAction::SetCell { row, col, old_value, new_value } => EditAction::SetCell {
                row: *row,
                col: *col,
                old_value: new_value.clone(),
                new_value: old_value.clone(),
            },
            EditAction::MultiSet(changes) => {
                let mut inverted: Vec<(usize, usize, String, String)> = Vec::new();
                let n = changes.len();
                let mut i: usize = 0;
                while i < n
                    invariant
                        i <= n,
                        n == changes@.len(),
                        inverted@.len() == i,
                        forall|j: int|
                            0 <= j < i ==> entry_model(#[trigger] inverted@[j]) == invert_entry(
                                entry_model(changes@[j]),
                            ),
                    decreases n - i,
                {
                    let e = &changes[i];
                    let nv = e.3.clone();
                    let ov = e.2.clone();
                    inverted.push((e.0, e.1, nv, ov));
                    i = i + 1;
                }
                let r = EditAction::MultiSet(inverted);
                proof {
                    assert(entries_model(inverted@) =~~= invert_entries(entries_model(changes@)));
                }
                r
            },
        }
    }
}

/// A stack after a bounded push: the action appended, and the oldest entry
/// evicted when the stack would exceed the capacity.
pub open spec fn push_capped(s: Seq<Act>, a: Act, cap: nat) -> Seq<Act> {
    let s2 = s.push(a);
    if s2.len() > cap {
        s2.drop_first()
    } else {
        s2
    }
}

/// The mathematical form of a stack of actions, oldest first.
pub open spec fn acts_model(s: Seq<EditAction>) -> Seq<Act> {
    Seq::new(s.len(), |i: int| s[i].model())
}

/// Undo/redo history: two stacks of edit actions, bounded by a fixed
/// capacity.
#[derive(Debug, Clone)]
pub struct History {
    undo_stack: Vec<EditAction>,
    redo_stack: Vec<EditAction>,
    max_history: usize,
}

impl History {
    /// The actions that can be undone, oldest first.
    pub closed spec fn undo_model(&self) -> Seq<Act> {
        acts_model(self.undo_stack@)
    }

    /// The actions that can be redone, oldest first.
    pub closed spec fn redo_model(&self) -> Seq<Act> {
        acts_model(self.redo_stack@)
    }

    /// The bound on each stack.
    pub closed spec fn capacity(&self) -> nat {
        self.max_history as nat
    }

    /// Creates a history able to hold `max_history` actions.
    pub fn new(max_history: usize) -> (r: Self)
        ensures
            r.undo_model() == Seq::<Act>::empty(),
            r.redo_model() == Seq::<Act>::empty(),
            r.capacity() == max_history as nat,
    {
        let r = Self { undo_stack: Vec::new(), redo_stack: Vec::new(), max_history };
        proof {
            assert(r.undo_model() =~~= Seq::<Act>::empty());
            assert(r.redo_model() =~~= Seq::<Act>::empty());
        }
        r
    }

    /// Appends an action to the undo stack, evicting the oldest entry over
    /// capacity, and clears the redo stack: a new edit invalidates the redo
    /// chain.
    pub fn push(&mut self, action: EditAction)
        ensures
            final (self).undo_model() == push_capped(
                old(self).undo_model(),
                action.model(),
                old(self).capacity(),
            ),
            final (self).redo_model() == Seq::<Act>::empty(),
            final (self).capacity() == old(self).capacity(),
    {
        proof {
            assert(acts_model(old(self).undo_stack@.push(action)) =~~= acts_model(
                old(self).undo_stack@,
            ).push(action.model()));
        }
        self.undo_stack.push(action);
        let ghost pre = self.undo_stack@;
        if self.undo_stack.len() > self.max_history {
            self.undo_stack.remove(0);
            proof {
                assert(self.undo_stack@ =~~= pre.drop_first());
                assert(acts_model(pre.drop_first()) =~~= acts_model(pre).drop_first());
            }
        }
        self.redo_stack.clear();
        proof {
            assert(self.redo_model() =~~= Seq::<Act>::empty());
        }
    }

    /// There is an action to undo.
    pub fn can_undo(&self) -> (r: bool)
        ensures
            r == (self.undo_model().len() > 0),
    {
        self.undo_stack.len() > 0
    }

    /// There is an action to redo.
    pub fn can_redo(&self) -> (r: bool)
        ensures
            r == (self.redo_model().len() > 0),
    {
        self.redo_stack.len() > 0
    }

    /// Takes the most recent undoable action off the undo stack.
    pub(crate) fn pop_undo(&mut self) -> (r: Option<EditAction>)
        ensures
            final (self).redo_model() == old(self).redo_model(),
            final (self).capacity() == old(self).capacity(),
            match r {
                Some(a) => old(self).undo_model().len() > 0 && a.model() == old(
                    self,
                ).undo_model().last() && final (self).undo_model() == old(
                    self,
                ).undo_model().drop_last(),
                None => old(self).undo_model().len() == 0 && final (self).undo_model() == old(
                    self,
                ).undo_model(),
            },
    {
        let r = self.undo_stack.pop();
        proof {
            if old(self).undo_stack@.len() > 0 {
                assert(acts_model(old(self).undo_stack@.drop_last()) =~~= acts_model(
                    old(self).undo_stack@,
                ).drop_last());
            }
        }
        r
    }

    /// Takes the most recent redoable action off the redo stack.
    pub(crate) fn pop_redo(&mut self) -> (r: Option<EditAction>)
        ensures
            final (self).undo_model() == old(self).undo_model(),
            final (self).capacity() == old(self).capacity(),
            match r {
                Some(a) => old(self).redo_model().len() > 0 && a.model() == old(
                    self,
                ).redo_model().last() && final (self).redo_model() == old(
                    self,
                ).redo_model().drop_last(),
                None => old(self).redo_model().len() == 0 && final (self).redo_model() == old(
                    self,
                ).redo_model(),
            },
    {
        let r = self.redo_stack.pop();
        proof {
            if old(self).redo_stack@.len() > 0 {
                assert(acts_model(old(self).redo_stack@.drop_last()) =~~= acts_model(
                    old(self).redo_stack@,
                ).drop_last());
            }
        }
        r
    }

    /// Appends an undone action to the redo stack, bounded by the capacity.
    pub(crate) fn push_redo(&mut self, action: EditAction)
        ensures
            final (self).undo_model() == old(self).undo_model(),
            final (self).capacity() == old(self).capacity(),
            final (self).redo_model() == push_capped(
                old(self).redo_model(),
                action.model(),
                old(self).capacity(),
            ),
    {
        proof {
            assert(acts_model(old(self).redo_stack@.push(action)) =~~= acts_model(
                old(self).redo_stack@,
            ).push(action.model()));
        }
        self.redo_stack.push(action);
        let ghost pre = self.redo_stack@;
        if self.redo_stack.len() > self.max_history {
            self.redo_stack.remove(0);
            proof {
                assert(self.redo_stack@ =~~= pre.drop_first());
                assert(acts_model(pre.drop_first()) =~~= acts_model(pre).drop_first());
            }
        }
    }

    /// Appends a redone action back onto the undo stack, bounded by the
    /// capacity; the redo stack is left alone.
    pub(crate) fn push_undo(&mut self, action: EditAction)
        ensures
            final (self).redo_model() == old(self).redo_model(),
            final (self).capacity() == old(self).capacity(),
            final (self).undo_model() == push_capped(
                old(self).undo_model(),
                action.model(),
                old(self).capacity(),
            ),
    {
        proof {
            assert(acts_model(old(self).undo_stack@.push(action)) =~~= acts_model(
                old(self).undo_stack@,
            ).push(action.model()));
        }
        self.undo_stack.push(action);
        let ghost pre = self.undo_stack@;
        if self.undo_stack.len() > self.max_history {
            self.undo_stack.remove(0);
            proof {
                assert(self.undo_stack@ =~~= pre.drop_first());
                assert(acts_model(pre.drop_first()) =~~= acts_model(pre).drop_first());
            }
        }
    }

    /// Empties both stacks.
    pub fn clear(&mut self)
        ensures
            final (self).undo_model() == Seq::<Act>::empty(),
            final (self).redo_model() == Seq::<Act>::empty(),
            final (self).capacity() == old(self).capacity(),
    {
        self.undo_stack.clear();
        self.redo_stack.clear();
        proof {
            assert(self.undo_model() =~~= Seq::<Act>::empty());
            assert(self.redo_model() =~~= Seq::<Act>::empty());
        }
    }
}

impl Default for History {
    /// A history with room for one hundred actions.
    fn default() -> (r: Self)
        ensures
            r.undo_model() == Seq::<Act>::empty(),
            r.redo_model() == Seq::<Act>::empty(),
            r.capacity() == 100,
    {
        Self::new(100)
    }
}

} // verus!
