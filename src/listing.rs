use vstd::prelude::*;

use crate::context::{lemma_filter_step, tasks_of};
use crate::task::{Priority, Task, TimeHorizon};

verus! {

/// `t` is shown under horizon `h` with priority `p`: completed tasks only
/// when `show_completed` holds.
pub open spec fn in_section(t: Task, h: TimeHorizon, show_completed: bool, p: Priority) -> bool {
    &&& t.time_horizon == h
    &&& show_completed || !t.completed
    &&& t.priority == p
}

/// The tasks shown under `p` within horizon `h`, in their order.
pub open spec fn section_part(
    tasks: Seq<Task>,
    h: TimeHorizon,
    show_completed: bool,
    p: Priority,
) -> Seq<Task> {
    tasks.filter(|t: Task| in_section(t, h, show_completed, p))
}

/// The tasks shown under horizon `h`: priorities descending, ties in their
/// order.
pub open spec fn section(tasks: Seq<Task>, h: TimeHorizon, show_completed: bool) -> Seq<Task> {
    section_part(tasks, h, show_completed, Priority::High) + section_part(
        tasks,
        h,
        show_completed,
        Priority::Medium,
    ) + section_part(tasks, h, show_completed, Priority::Low)
}

proof fn lemma_section_step(s: Seq<Task>, h: TimeHorizon, show: bool, p: Priority, i: int)
    requires
        0 <= i < s.len(),
    ensures
        section_part(s.subrange(0, i + 1), h, show, p) == if in_section(s[i], h, show, p) {
            section_part(s.subrange(0, i), h, show, p).push(s[i])
        } else {
            section_part(s.subrange(0, i), h, show, p)
        },
{
    lemma_filter_step(s, |t: Task| in_section(t, h, show, p), i);
}

fn append_part<'a>(
    tasks: &[&'a Task],
    h: TimeHorizon,
    show_completed: bool,
    p: Priority,
    out: &mut Vec<&'a Task>,
)
    ensures
        tasks_of(final(out)@) == tasks_of(old(out)@) + section_part(
            tasks_of(tasks@),
            h,
            show_completed,
            p,
        ),
{
    let ghost start = tasks_of(out@);
    let ghost all = tasks_of(tasks@);
    let mut i: usize = 0;
    while i < tasks.len()
        invariant
            all == tasks_of(tasks@),
            i <= tasks@.len(),
            tasks_of(out@) == start + section_part(all.subrange(0, i as int), h, show_completed, p),
        decreases tasks.len() - i,
    {
        proof {
            lemma_section_step(all, h, show_completed, p, i as int);
        }
        let t = tasks[i];
        if t.time_horizon == h && (show_completed || !t.completed) && t.priority == p {
            let ghost before = out@;
            out.push(t);
            assert(tasks_of(out@) =~= tasks_of(before).push(all[i as int]));
        }
        i = i + 1;
    }
    assert(all.subrange(0, all.len() as int) =~= all);
}

/// The tasks that a listing shows under horizon `horizon`: those of that
/// horizon, completed ones only when `show_completed` holds, ordered by
/// priority from high to low and otherwise in their given order.
pub fn horizon_section<'a>(tasks: &[&'a Task], horizon: TimeHorizon, show_completed: bool) -> (r:
    Vec<&'a Task>)
    ensures
        tasks_of(r@) == section(tasks_of(tasks@), horizon, show_completed),
{
    let mut r: Vec<&'a Task> = Vec::new();
    assert(tasks_of(r@) =~= Seq::<Task>::empty());
    append_part(tasks, horizon, show_completed, Priority::High, &mut r);
    append_part(tasks, horizon, show_completed, Priority::Medium, &mut r);
    append_part(tasks, horizon, show_completed, Priority::Low, &mut r);
    assert(tasks_of(r@) =~= section(tasks_of(tasks@), horizon, show_completed));
    r
}

} // verus!
