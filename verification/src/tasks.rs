//! Tasks around the project itself.

use vstd::prelude::*;

verus! {

/// What is printed for a task; there is none yet.
pub open spec fn task_text(task: Seq<char>) -> Seq<char> {
    if task.len() == 0 {
        "usage: xtask <task>"@
    } else {
        "unknown task: "@ + task
    }
}

/// What is printed for a task.
pub fn dispatch(task: &str) -> (r: String)
    ensures
        r@ == task_text(task@),
{
    if task.is_empty() {
        "usage: xtask <task>".to_owned()
    } else {
        let mut s = "unknown task: ".to_owned();
        s.append(task);
        s
    }
}

} // verus!
