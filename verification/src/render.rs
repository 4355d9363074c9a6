use crate::digits::dec_digits;
use crate::digits::push_digits;
use crate::task::TaskList;
use crate::task::TaskView;
use vstd::prelude::*;
use vstd::string::StringExecFns;

verus! {

/// One line of the listing: the id, the completion box, the description.
pub open spec fn render_line(t: TaskView) -> Seq<char> {
    dec_digits(t.id) + ". "@ + (if t.completed {
        "[X]"@
    } else {
        "[ ]"@
    }) + " "@ + t.description + "\n"@
}

/// The lines of a non-empty listing, in order.
pub open spec fn render_items(l: Seq<TaskView>) -> Seq<char>
    decreases l.len(),
{
    if l.len() == 0 {
        Seq::empty()
    } else {
        render_items(l.drop_last()) + render_line(l.last())
    }
}

/// The whole listing: one line per task, or a fixed line for an empty list.
pub open spec fn spec_render(l: Seq<TaskView>) -> Seq<char> {
    if l.len() == 0 {
        "No tasks.\n"@
    } else {
        render_items(l)
    }
}

/// The fixed help text of the command surface.
pub open spec fn spec_help_text() -> Seq<char> {
    "Commands:\n  add <description>  Add a new task\n  list               List all tasks\n  complete <number>  Mark a task as completed\n  remove <number>    Remove a task\n  clear              Remove all tasks\n  help               Show this help message\n"@
}

/// The fixed reply to an unrecognized command.
pub open spec fn spec_unknown_text() -> Seq<char> {
    "Unknown command. Use 'todo help' for a list of commands.\n"@
}

/// The listing of a task list, as the `list` command prints it.
pub fn render_tasks(list: &TaskList) -> (r: String)
    ensures
        r@ == spec_render(list@),
{
    if list.tasks.len() == 0 {
        return String::from_str("No tasks.\n");
    }
    let mut out = String::new();
    let mut k: usize = 0;
    proof {
        assert(list@.subrange(0, 0) =~= Seq::<TaskView>::empty());
    }
    while k < list.tasks.len()
        invariant
            k <= list.tasks.len(),
            list@.len() == list.tasks.len(),
            out@ == render_items(list@.subrange(0, k as int)),
        decreases list.tasks.len() - k,
    {
        let t = &list.tasks[k];
        push_digits(&mut out, t.id);
        out.append(". ");
        if t.completed {
            out.append("[X]");
        } else {
            out.append("[ ]");
        }
        out.append(" ");
        out.append(t.description.as_str());
        out.append("\n");
        proof {
            let p = list@.subrange(0, k + 1);
            assert(p.drop_last() =~= list@.subrange(0, k as int));
            assert(p.last() == list@[k as int]);
            assert(out@ =~= render_items(p));
        }
        k = k + 1;
    }
    proof {
        assert(list@.subrange(0, list@.len() as int) =~= list@);
    }
    out
}

/// The help text, as the `help` command prints it.
pub fn help_text() -> (r: String)
    ensures
        r@ == spec_help_text(),
{
    String::from_str(
        "Commands:\n  add <description>  Add a new task\n  list               List all tasks\n  complete <number>  Mark a task as completed\n  remove <number>    Remove a task\n  clear              Remove all tasks\n  help               Show this help message\n",
    )
}

/// The reply to an unrecognized command.
pub fn unknown_text() -> (r: String)
    ensures
        r@ == spec_unknown_text(),
{
    String::from_str("Unknown command. Use 'todo help' for a list of commands.\n")
}

} // verus!
