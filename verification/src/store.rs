//! The task store: the ordered list, its three mutations, its rendering, and
//! the load/save pair over the persisted format.

use vstd::prelude::*;
use vstd::string::{StrSliceExecFns, StringExecFns};

use crate::codec::{deser, parse_all, parse_tasks, ser, serialize_tasks};
use crate::digits::{dec_rep, push_dec};
use crate::strutil::push_char;
use crate::task::{positions_ok, views, TaskView, ToDo};

verus! {

/// Failure to load or save the persisted representation.
#[derive(Debug, Clone, Copy, PartialEq, Eq, Structural)]
pub enum StorageError {
    /// The persisted file could not be opened, read, or written.
    Io,
    /// Persisted content was present but not parseable. Fatal: a corrupt
    /// store must not silently start fresh, to avoid masking data loss.
    Corrupt,
}

/// A task index outside `[0, len)`.
#[derive(Debug, Clone, Copy, PartialEq, Eq, Structural)]
pub struct IndexError;

/// The list after appending a new task with the given text: not done, placed
/// last, its position equal to the old length.
pub open spec fn insert_view(ts: Seq<TaskView>, item: Seq<char>) -> Seq<TaskView> {
    ts.push(TaskView { item, done: false, position: ts.len() })
}

/// The list after flipping the done flag of the task at `k`; no other field
/// of any task changes.
pub open spec fn toggle_view(ts: Seq<TaskView>, k: int) -> Seq<TaskView> {
    ts.update(k, TaskView { done: !ts[k].done, ..ts[k] })
}

/// The list after deleting the task at `k`: later tasks shift left one slot
/// and their positions drop by one; earlier tasks are untouched.
pub open spec fn remove_view(ts: Seq<TaskView>, k: int) -> Seq<TaskView> {
    Seq::new(
        (ts.len() - 1) as nat,
        |m: int|
            if m < k {
                ts[m]
            } else {
                TaskView { position: (ts[m + 1].position - 1) as nat, ..ts[m + 1] }
            },
    )
}

/// The ordered task list, owner of every task in it.
pub struct ToDos {
    pub todos: Vec<ToDo>,
}

impl View for ToDos {
    type V = Seq<TaskView>;

    open spec fn view(&self) -> Seq<TaskView> {
        views(self.todos@)
    }
}

impl ToDos {
    /// Well-formed: every task's position equals its index.
    pub open spec fn wf(&self) -> bool {
        positions_ok(self@)
    }

    /// Appends a new task with the given text, not done, placed last.
    pub fn insert(&mut self, item: String)
        ensures
            final(self)@ == insert_view(old(self)@, item@),
            old(self).wf() ==> final(self).wf(),
    {
        let size = self.todos.len();
        let ghost item_view = item@;
        self.todos.push(ToDo { item, done: false, position: size });
        proof {
            assert(self@ =~= insert_view(old(self)@, item_view));
        }
    }

    /// Flips the done flag of the task at `position`; fails, changing
    /// nothing, when `position` is outside `[0, len)`.
    pub fn update(&mut self, position: usize) -> (r: Result<(), IndexError>)
        ensures
            position < old(self)@.len() ==> r is Ok && final(self)@ == toggle_view(
                old(self)@,
                position as int,
            ),
            position >= old(self)@.len() ==> r is Err && final(self)@ == old(self)@,
            old(self).wf() ==> final(self).wf(),
    {
        if position < self.todos.len() {
            let was = self.todos[position].done;
            self.todos[position].done = !was;
            proof {
                assert(self@ =~= toggle_view(old(self)@, position as int));
            }
            Ok(())
        } else {
            Err(IndexError)
        }
    }

    /// Deletes the task at `position`, shifting later tasks left and
    /// renumbering them; fails, changing nothing, when `position` is outside
    /// `[0, len)`.
    pub fn remove(&mut self, position: usize) -> (r: Result<(), IndexError>)
        requires
            old(self).wf(),
        ensures
            position < old(self)@.len() ==> r is Ok && final(self)@ == remove_view(
                old(self)@,
                position as int,
            ),
            position >= old(self)@.len() ==> r is Err && final(self)@ == old(self)@,
            final(self).wf(),
    {
        if position >= self.todos.len() {
            return Err(IndexError);
        }
        let _ = self.todos.remove(position);
        let mut k: usize = position;
        while k < self.todos.len()
            invariant
                position <= k <= self.todos@.len(),
                self.todos@.len() + 1 == old(self).todos@.len(),
                position < old(self)@.len(),
                old(self).wf(),
                forall|m: int|
                    0 <= m < position ==> self.todos@[m] == old(self).todos@[m],
                forall|m: int|
                    position <= m < k ==> #[trigger] self.todos@[m]@ == remove_view(
                        old(self)@,
                        position as int,
                    )[m],
                forall|m: int|
                    k <= m < self.todos@.len() ==> self.todos@[m] == old(self).todos@[m + 1],
            decreases self.todos@.len() - k,
        {
            proof {
                assert(old(self)@[k + 1].position == k + 1);
                assert(old(self)@[k + 1] == old(self).todos@[k + 1]@);
            }
            let p = self.todos[k].position;
            self.todos[k].position = p - 1;
            proof {
                let rv = remove_view(old(self)@, position as int);
                assert(self.todos@[k as int]@ =~= rv[k as int]);
            }
            k = k + 1;
        }
        proof {
            assert(self@ =~= remove_view(old(self)@, position as int));
            assert forall|m: int| 0 <= m < self@.len() implies (#[trigger] self@[m]).position
                == m by {
                assert(old(self)@[if m < position { m } else { m + 1 }].position == if m
                    < position {
                    m
                } else {
                    m + 1
                });
            }
        }
        Ok(())
    }

    /// Decides well-formedness: whether every task's position equals its
    /// index.
    pub fn check_positions(&self) -> (r: bool)
        ensures
            r == self.wf(),
    {
        let mut k: usize = 0;
        while k < self.todos.len()
            invariant
                0 <= k <= self.todos@.len(),
                forall|m: int| 0 <= m < k ==> (#[trigger] self@[m]).position == m,
            decreases self.todos@.len() - k,
        {
            proof {
                assert(self@[k as int] == self.todos@[k as int]@);
            }
            if self.todos[k].position != k {
                return false;
            }
            k = k + 1;
        }
        true
    }

    /// Renders the current list in the persisted format.
    pub fn save(&self) -> (out: String)
        ensures
            out@ == ser(self@),
    {
        serialize_tasks(&self.todos)
    }

    /// Rebuilds a store from persisted text: empty text is an empty list, the
    /// canonical format is parsed back, and anything else is `Corrupt`. An
    /// `Io` failure can only arise before the text reaches the store.
    pub fn load(text: &str) -> (r: Result<ToDos, StorageError>)
        ensures
            text@.len() == 0 ==> (r matches Ok(s) && s@ == Seq::<TaskView>::empty()),
            text@.len() > 0 ==> match r {
                Ok(s) => deser(text@) == Some(s@),
                Err(e) => e == StorageError::Corrupt && deser(text@) is None,
            },
            r matches Ok(s) ==> s.wf(),
    {
        if text.unicode_len() == 0 {
            let s = ToDos { todos: Vec::new() };
            proof {
                assert(s@ =~= Seq::<TaskView>::empty());
            }
            return Ok(s);
        }
        let todos = match parse_tasks(text) {
            Some(v) => v,
            None => {
                return Err(StorageError::Corrupt);
            },
        };
        let mut k: usize = 0;
        while k < todos.len()
            invariant
                0 <= k <= todos@.len(),
                text@.len() > 0,
                parse_all(text@) == Some(views(todos@)),
                forall|m: int| 0 <= m < k ==> (#[trigger] views(todos@)[m]).position == m,
            decreases todos@.len() - k,
        {
            proof {
                assert(views(todos@)[k as int] == todos@[k as int]@);
            }
            if todos[k].position != k {
                proof {
                    assert(views(todos@)[k as int].position != k);
                    assert(!positions_ok(views(todos@)));
                }
                return Err(StorageError::Corrupt);
            }
            k = k + 1;
        }
        let s = ToDos { todos };
        Ok(s)
    }

    /// Renders a stable textual view: one line per task with its one-based
    /// ordinal, a completion marker, and its text, after a fixed heading.
    pub fn render(&self) -> (out: String)
        requires
            self.wf(),
        ensures
            out@ == render_view(self@),
    {
        let mut out = String::new();
        out.append("Todos: \n\nNr Done |  ToDo\n");
        proof {
            reveal_strlit("Todos: \n\nNr Done |  ToDo\n");
            assert(out@ =~= heading() + render_lines_upto(self@, 0));
        }
        let mut k: usize = 0;
        while k < self.todos.len()
            invariant
                0 <= k <= self.todos@.len(),
                self.wf(),
                out@ == heading() + render_lines_upto(self@, k as int),
            decreases self.todos@.len() - k,
        {
            proof {
                assert(self@[k as int].position == k);
                assert(self@[k as int] == self.todos@[k as int]@);
            }
            push_dec(&mut out, self.todos[k].position + 1);
            if self.todos[k].done {
                out.append(". [x]  |  ");
                proof {
                    reveal_strlit(". [x]  |  ");
                    assert((". [x]  |  "@) =~= marker(true));
                }
            } else {
                out.append(". [ ]  |  ");
                proof {
                    reveal_strlit(". [ ]  |  ");
                    assert((". [ ]  |  "@) =~= marker(false));
                }
            }
            out.append(self.todos[k].item.as_str());
            push_char(&mut out, '\n');
            proof {
                assert(out@ =~= heading() + render_lines_upto(self@, k + 1));
            }
            k = k + 1;
        }
        proof {
            lemma_render_lines_split(self@, self@.len() as int);
            assert(render_lines_upto(self@, self@.len() as int) + Seq::<char>::empty()
                =~= render_lines_upto(self@, self@.len() as int));
        }
        out
    }
}

/// Toggling the same index twice restores the original list: the done flag
/// returns to its value and nothing else changes.
pub proof fn lemma_toggle_twice(ts: Seq<TaskView>, k: int)
    requires
        0 <= k < ts.len(),
    ensures
        toggle_view(toggle_view(ts, k), k) == ts,
{
    let once = toggle_view(ts, k);
    assert(toggle_view(once, k)[k] =~= ts[k]);
    assert(toggle_view(once, k) =~= ts);
}

/// Removing a task and reloading the saved shortened list reproduces exactly
/// that list: one task shorter, the removed slot gone, every other text in
/// its original relative order.
pub proof fn lemma_remove_then_reload(ts: Seq<TaskView>, k: int)
    requires
        positions_ok(ts),
        ts.len() <= usize::MAX,
        0 <= k < ts.len(),
    ensures
        deser(ser(remove_view(ts, k))) == Some(remove_view(ts, k)),
        remove_view(ts, k).len() == ts.len() - 1,
        forall|m: int| 0 <= m < k ==> (#[trigger] remove_view(ts, k)[m]).item == ts[m].item,
        forall|m: int|
            k <= m < ts.len() - 1 ==> (#[trigger] remove_view(ts, k)[m]).item == ts[m + 1].item,
{
    let rs = remove_view(ts, k);
    assert forall|m: int| 0 <= m < rs.len() implies (#[trigger] rs[m]).position == m by {
        if m < k {
            assert(ts[m].position == m);
        } else {
            assert(ts[m + 1].position == m + 1);
        }
    }
    crate::codec::lemma_save_load_round_trip(rs);
}

/// The heading above the rendered list.
pub open spec fn heading() -> Seq<char> {
    "Todos: \n\nNr Done |  ToDo\n"@
}

/// The completion marker and surrounding separators of one rendered line.
pub open spec fn marker(done: bool) -> Seq<char> {
    if done {
        seq!['.', ' ', '[', 'x', ']', ' ', ' ', '|', ' ', ' ']
    } else {
        seq!['.', ' ', '[', ' ', ']', ' ', ' ', '|', ' ', ' ']
    }
}

/// One rendered line: one-based ordinal, completion marker, text, newline.
pub open spec fn render_line(t: TaskView) -> Seq<char> {
    dec_rep(t.position + 1) + marker(t.done) + t.item + seq!['\n']
}

/// The rendered lines of the tasks from index `k` on.
pub open spec fn render_lines(ts: Seq<TaskView>, k: int) -> Seq<char>
    decreases ts.len() - k,
    when 0 <= k <= ts.len()
{
    if k >= ts.len() {
        Seq::empty()
    } else {
        render_line(ts[k]) + render_lines(ts, k + 1)
    }
}

/// The rendered lines of the tasks before index `k`.
pub open spec fn render_lines_upto(ts: Seq<TaskView>, k: int) -> Seq<char>
    decreases k,
    when 0 <= k <= ts.len()
{
    if k <= 0 {
        Seq::empty()
    } else {
        render_lines_upto(ts, k - 1) + render_line(ts[k - 1])
    }
}

/// The lines before `k` and the lines from `k` on together make the whole
/// rendering.
pub proof fn lemma_render_lines_split(ts: Seq<TaskView>, k: int)
    requires
        0 <= k <= ts.len(),
    ensures
        render_lines(ts, 0) == render_lines_upto(ts, k) + render_lines(ts, k),
    decreases k,
{
    if k == 0 {
        assert(render_lines_upto(ts, 0) + render_lines(ts, 0) =~= render_lines(ts, 0));
    } else {
        lemma_render_lines_split(ts, k - 1);
        assert(render_lines(ts, k - 1) == render_line(ts[k - 1]) + render_lines(ts, k));
        assert(render_lines_upto(ts, k - 1) + (render_line(ts[k - 1]) + render_lines(ts, k))
            =~= (render_lines_upto(ts, k - 1) + render_line(ts[k - 1])) + render_lines(ts, k));
    }
}

/// The whole rendered view: heading, then one line per task in list order.
pub open spec fn render_view(ts: Seq<TaskView>) -> Seq<char> {
    heading() + render_lines(ts, 0)
}

} // verus!
