//! The task record and its mathematical view.

use vstd::prelude::*;

verus! {

/// Mathematical view of one task: its text as a character sequence, its
/// completion flag, and its position in the owning list.
#[verifier::ext_equal]
pub ghost struct TaskView {
    pub item: Seq<char>,
    pub done: bool,
    pub position: nat,
}

/// One to-do entry: human-readable text, a completion flag (false on
/// creation), and a zero-based position equal to the entry's index in the
/// owning list.
#[derive(Clone, Debug)]
pub struct ToDo {
    pub item: String,
    pub done: bool,
    pub position: usize,
}

impl View for ToDo {
    type V = TaskView;

    open spec fn view(&self) -> TaskView {
        TaskView { item: self.item@, done: self.done, position: self.position as nat }
    }
}

/// The views of a sequence of tasks.
pub open spec fn views(ts: Seq<ToDo>) -> Seq<TaskView> {
    ts.map_values(|t: ToDo| t@)
}

/// The position fields of a task sequence are exactly the indices: for a list
/// of N tasks they read 0..N-1 in list order, with no gaps or duplicates.
pub open spec fn positions_ok(ts: Seq<TaskView>) -> bool {
    forall|k: int| 0 <= k < ts.len() ==> (#[trigger] ts[k]).position == k
}

} // verus!
