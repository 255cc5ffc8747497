//! Laws of the edit history, proved over the model transitions that the
//! table operations' contracts are stated in: sequential edits undo back to
//! the original rows and redo forward again, and a history pushed beyond
//! its capacity keeps exactly the newest actions.

use vstd::prelude::*;
use crate::history::{Act, invert_act, push_capped};
use crate::table::apply_act_spec;

verus! {

/// The model of an engine's mutable state: the rows and the edit history.
pub struct EngineState {
    pub rows: Seq<Seq<Seq<char>>>,
    pub undo: Seq<Act>,
    pub redo: Seq<Act>,
    pub cap: nat,
}

/// The state after a successful single-cell edit, as `set_cell` ensures it:
/// the cell updated, the action recorded, the redo chain invalidated.
pub open spec fn st_set_cell(s: EngineState, r: int, c: int, v: Seq<char>) -> EngineState {
    EngineState {
        rows: s.rows.update(r, s.rows[r].update(c, v)),
        undo: push_capped(
            s.undo,
            Act::Cell { row: r, col: c, was: s.rows[r][c], now: v },
            s.cap,
        ),
        redo: Seq::empty(),
        cap: s.cap,
    }
}

/// The state after a successful undo, as `undo` ensures it: the inverse of
/// the most recent action applied, the action moved to the redo stack.
pub open spec fn st_undo(s: EngineState) -> EngineState {
    let a = s.undo.last();
    EngineState {
        rows: apply_act_spec(s.rows, invert_act(a)).0,
        undo: s.undo.drop_last(),
        redo: push_capped(s.redo, a, s.cap),
        cap: s.cap,
    }
}

/// The state after a successful redo, as `redo` ensures it: the most
/// recently undone action applied forward and moved back to the undo stack.
pub open spec fn st_redo(s: EngineState) -> EngineState {
    let a = s.redo.last();
    EngineState {
        rows: apply_act_spec(s.rows, a).0,
        undo: push_capped(s.undo, a, s.cap),
        redo: s.redo.drop_last(),
        cap: s.cap,
    }
}

/// A run of single-cell edits on one cell, oldest first.
pub open spec fn st_edit_n(s: EngineState, r: int, c: int, vals: Seq<Seq<char>>) -> EngineState
    decreases vals.len(),
{
    if vals.len() == 0 {
        s
    } else {
        st_edit_n(st_set_cell(s, r, c, vals[0]), r, c, vals.drop_first())
    }
}

/// `k` undos in a row.
pub open spec fn st_undo_n(s: EngineState, k: nat) -> EngineState
    decreases k,
{
    if k == 0 {
        s
    } else {
        st_undo(st_undo_n(s, (k - 1) as nat))
    }
}

/// `k` redos in a row.
pub open spec fn st_redo_n(s: EngineState, k: nat) -> EngineState
    decreases k,
{
    if k == 0 {
        s
    } else {
        st_redo_n(st_redo(s), (k - 1) as nat)
    }
}

/// Law: `n` sequential single-cell edits on one in-range cell, on a history
/// with room for them, can be undone `n` times, and doing so restores the
/// rows — the cell's original value among them — and the original undo
/// stack.
pub proof fn lemma_edits_then_undos_restore(s: EngineState, r: int, c: int, vals: Seq<Seq<char>>)
    requires
        0 <= r < s.rows.len(),
        0 <= c < s.rows[r].len(),
        s.undo.len() + vals.len() <= s.cap,
    ensures
        st_undo_n(st_edit_n(s, r, c, vals), vals.len()).rows == s.rows,
        st_undo_n(st_edit_n(s, r, c, vals), vals.len()).undo == s.undo,
        st_undo_n(st_edit_n(s, r, c, vals), vals.len()).cap == s.cap,
    decreases vals.len(),
{
    if vals.len() == 0 {
    } else {
        let a = Act::Cell { row: r, col: c, was: s.rows[r][c], now: vals[0] };
        let s1 = st_set_cell(s, r, c, vals[0]);
        assert(s1.undo =~= s.undo.push(a));
        lemma_edits_then_undos_restore(s1, r, c, vals.drop_first());
        let t = st_undo_n(st_edit_n(s1, r, c, vals.drop_first()), vals.drop_first().len());
        assert(st_edit_n(s, r, c, vals) == st_edit_n(s1, r, c, vals.drop_first()));
        assert(st_undo_n(st_edit_n(s, r, c, vals), vals.len()) == st_undo(t));
        assert(t.undo.last() == a);
        assert(apply_act_spec(t.rows, invert_act(a)).0 =~~= s.rows) by {
            assert(s1.rows[r].update(c, s.rows[r][c]) =~~= s.rows[r]);
            assert(s1.rows.update(r, s1.rows[r].update(c, s.rows[r][c])) =~~= s.rows);
        }
        assert(st_undo(t).undo =~= s.undo);
    }
}

/// One undo followed by one redo puts rows and both stacks back exactly,
/// when the most recent action is a single-cell edit in range whose
/// recorded new value is the cell's current value — as a recorded history
/// always has it — and both stacks have room.
pub proof fn lemma_undo_then_redo_roundtrip(s: EngineState)
    requires
        s.undo.len() > 0,
        s.undo.len() <= s.cap,
        s.redo.len() < s.cap,
        (s.undo.last() matches Act::Cell { row, col, was, now } && 0 <= row < s.rows.len() && 0
            <= col < s.rows[row].len() && s.rows[row][col] == now),
    ensures
        st_redo(st_undo(s)).rows == s.rows,
        st_redo(st_undo(s)).undo == s.undo,
        st_redo(st_undo(s)).redo == s.redo,
        st_redo(st_undo(s)).cap == s.cap,
{
    let a = s.undo.last();
    let u = st_undo(s);
    assert(u.redo =~= s.redo.push(a));
    assert(u.redo.last() == a);
    match a {
        Act::Cell { row, col, was, now } => {
            assert(st_redo(u).rows =~~= s.rows) by {
                let r1 = s.rows.update(row, s.rows[row].update(col, was));
                assert(r1[row].update(col, now) =~~= s.rows[row].update(col, now));
                assert(r1.update(row, r1[row].update(col, now)) =~~= s.rows.update(
                    row,
                    s.rows[row].update(col, now),
                ));
                assert(s.rows[row].update(col, now) =~~= s.rows[row]) by {
                    assert(s.rows[row][col] == now);
                }
                assert(s.rows.update(row, s.rows[row]) =~~= s.rows);
            }
            assert(st_redo(u).undo =~= s.undo);
            assert(st_redo(u).redo =~= s.redo);
        },
        Act::Multi { cells } => {
            assert(false);
        },
    }
}

/// The actions a run of single-cell edits records, newest first.
pub open spec fn run_acts_rev(s: EngineState, r: int, c: int, vals: Seq<Seq<char>>) -> Seq<Act>
    decreases vals.len(),
{
    if vals.len() == 0 {
        Seq::empty()
    } else {
        run_acts_rev(st_set_cell(s, r, c, vals[0]), r, c, vals.drop_first()) + seq![
            Act::Cell { row: r, col: c, was: s.rows[r][c], now: vals[0] },
        ]
    }
}

proof fn lemma_run_acts_rev_len(s: EngineState, r: int, c: int, vals: Seq<Seq<char>>)
    ensures
        run_acts_rev(s, r, c, vals).len() == vals.len(),
    decreases vals.len(),
{
    if vals.len() > 0 {
        lemma_run_acts_rev_len(st_set_cell(s, r, c, vals[0]), r, c, vals.drop_first());
    }
}

/// Law: `n` sequential single-cell edits on one in-range cell, on a history
/// with room for them, undo `n` times back to the original rows, and from
/// there redo `n` times forward to the edited rows again, leaving the
/// history as each endpoint had it.
pub proof fn lemma_edits_undo_redo(s: EngineState, r: int, c: int, vals: Seq<Seq<char>>)
    requires
        0 <= r < s.rows.len(),
        0 <= c < s.rows[r].len(),
        s.undo.len() + vals.len() <= s.cap,
        vals.len() <= s.cap,
    ensures
        ({
            let t = st_edit_n(s, r, c, vals);
            let u = st_undo_n(t, vals.len());
            &&& u.rows == s.rows
            &&& u.undo == s.undo
            &&& vals.len() > 0 ==> u.redo == run_acts_rev(s, r, c, vals)
            &&& st_redo_n(u, vals.len()).rows == t.rows
            &&& st_redo_n(u, vals.len()).undo == t.undo
            &&& vals.len() > 0 ==> st_redo_n(u, vals.len()).redo == Seq::<Act>::empty()
        }),
    decreases vals.len(),
{
    lemma_edits_then_undos_restore(s, r, c, vals);
    if vals.len() > 0 {
        let n = vals.len();
        let a = Act::Cell { row: r, col: c, was: s.rows[r][c], now: vals[0] };
        let s1 = st_set_cell(s, r, c, vals[0]);
        let rest = vals.drop_first();
        lemma_edits_undo_redo(s1, r, c, rest);
        let t = st_edit_n(s, r, c, vals);
        let t1 = st_edit_n(s1, r, c, rest);
        assert(t == t1);
        let u = st_undo_n(t, n);
        let u1 = st_undo_n(t1, (n - 1) as nat);
        assert(u == st_undo(u1));
        assert(s1.undo =~= s.undo.push(a));
        lemma_run_acts_rev_len(s1, r, c, rest);

        // the redo stack after all undos: the recorded actions, newest first
        assert(u1.undo.last() == a);
        if rest.len() > 0 {
            assert(u1.redo == run_acts_rev(s1, r, c, rest));
            assert(u1.redo.len() == rest.len());
        } else {
            assert(u1 == t1);
            assert(t1 == s1);
            assert(u1.redo =~= Seq::<Act>::empty());
        }
        assert(u1.redo.len() + 1 <= s.cap);
        assert(u.redo =~= u1.redo.push(a));
        assert(u.redo =~= run_acts_rev(s, r, c, vals));

        // the first redo replays the first edit, reaching the state the
        // remaining edits started from with its own undos done
        assert(st_redo(u).rows =~~= s1.rows) by {
            assert(u.rows == s.rows);
            assert(u.redo.last() == a);
        }
        assert(st_redo(u).undo =~= s1.undo) by {
            assert(u.undo == s.undo);
            assert(s1.undo =~= s.undo.push(a));
        }
        assert(st_redo(u).redo =~= u1.redo);
        assert(st_redo(u) == u1) by {
            assert(st_redo(u).rows =~~= u1.rows);
            assert(st_redo(u).undo =~= u1.undo);
        }
        assert(st_redo_n(u, n) == st_redo_n(u1, (n - 1) as nat));
        assert(st_redo_n(u1, (n - 1) as nat).rows == t1.rows);
    }
}

/// A run of bounded pushes, oldest first.
pub open spec fn st_push_n(u: Seq<Act>, acts: Seq<Act>, cap: nat) -> Seq<Act>
    decreases acts.len(),
{
    if acts.len() == 0 {
        u
    } else {
        st_push_n(push_capped(u, acts[0], cap), acts.drop_first(), cap)
    }
}

/// Law: a stack within its capacity, after any run of pushes, holds exactly
/// the newest `cap` of the combined actions.  In particular, once more
/// actions than the capacity have been pushed, the oldest pushed actions
/// are no longer on the stack — and since undoing only pops, they are
/// permanently non-undoable.
pub proof fn lemma_history_capacity(u: Seq<Act>, acts: Seq<Act>, cap: nat)
    requires
        u.len() <= cap,
    ensures
        st_push_n(u, acts, cap) =~= (u + acts).skip(
            if u.len() + acts.len() <= cap {
                0
            } else {
                u.len() + acts.len() - cap
            },
        ),
        st_push_n(u, acts, cap).len() <= cap,
    decreases acts.len(),
{
    if acts.len() == 0 {
        assert(u + acts =~= u);
    } else {
        let u1 = push_capped(u, acts[0], cap);
        assert(u1.len() <= cap);
        lemma_history_capacity(u1, acts.drop_first(), cap);
        if u.len() + 1 <= cap {
            assert(u1 =~= u.push(acts[0]));
            assert(u1 + acts.drop_first() =~= u + acts);
        } else {
            assert(u.len() == cap);
            assert(u1 =~= u.push(acts[0]).drop_first());
            assert(u1 + acts.drop_first() =~= (u + acts).skip(1));
            assert((u + acts).skip(1).len() == u.len() + acts.len() - 1);
            if u1.len() + acts.drop_first().len() <= cap {
                assert(acts.len() == 1);
                assert((u + acts).skip(1) =~= (u + acts).skip(u.len() + acts.len() - cap));
            } else {
                assert(((u + acts).skip(1)).skip(u1.len() + acts.drop_first().len() - cap) =~= (u
                    + acts).skip(u.len() + acts.len() - cap));
            }
        }
    }
}

} // verus!
