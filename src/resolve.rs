use vstd::prelude::*;

use crate::context::{first_with_id, has_id, Context};
use crate::error::AppError;
use crate::task::Task;
use crate::text::is_prefix;

verus! {

/// The ids of the tasks whose id starts with `p`, in task order.
pub open spec fn matching_ids(tasks: Seq<Task>, p: Seq<char>) -> Seq<Seq<char>> {
    tasks.filter(|t: Task| p.is_prefix_of(t.id@)).map_values(|t: Task| t.id@)
}

/// The texts of `s` joined with `sep` between neighbours.
pub open spec fn join(s: Seq<Seq<char>>, sep: Seq<char>) -> Seq<char>
    decreases s.len(),
{
    if s.len() == 0 {
        Seq::empty()
    } else if s.len() == 1 {
        s[0]
    } else {
        join(s.drop_last(), sep) + sep + s.last()
    }
}

/// The message for a prefix `p` that several ids start with.
pub open spec fn ambiguity_message(p: Seq<char>, ids: Seq<Seq<char>>) -> Seq<char> {
    "Ambiguous ID '"@ + p + "' matches multiple tasks: "@ + join(ids, ", "@)
}

proof fn lemma_match_step(s: Seq<Task>, p: Seq<char>, i: int)
    requires
        0 <= i < s.len(),
    ensures
        matching_ids(s.subrange(0, i + 1), p) == if p.is_prefix_of(s[i].id@) {
            matching_ids(s.subrange(0, i), p).push(s[i].id@)
        } else {
            matching_ids(s.subrange(0, i), p)
        },
{
    let pred = |t: Task| p.is_prefix_of(t.id@);
    reveal(Seq::filter);
    assert(s.subrange(0, i + 1).drop_last() =~= s.subrange(0, i));
    let f = s.subrange(0, i).filter(pred);
    assert(f.push(s[i]).map_values(|t: Task| t.id@) =~= f.map_values(|t: Task| t.id@).push(
        s[i].id@,
    ));
}

/// The full ids of the tasks of `context` whose id starts with `partial_id`.
fn matching_task_ids(context: &Context, partial_id: &str) -> (r: Vec<String>)
    ensures
        r@.map_values(|s: String| s@) == matching_ids(context.tasks@, partial_id@),
{
    let mut r: Vec<String> = Vec::new();
    let mut i: usize = 0;
    while i < context.tasks.len()
        invariant
            i <= context.tasks.len(),
            r@.map_values(|s: String| s@) == matching_ids(
                context.tasks@.subrange(0, i as int),
                partial_id@,
            ),
        decreases context.tasks.len() - i,
    {
        proof {
            lemma_match_step(context.tasks@, partial_id@, i as int);
        }
        if is_prefix(partial_id, context.tasks[i].id.as_str()) {
            let ghost before = r@;
            r.push(context.tasks[i].id.clone());
            assert(r@.map_values(|s: String| s@) =~= before.map_values(|s: String| s@).push(
                context.tasks@[i as int].id@,
            ));
        }
        i = i + 1;
    }
    assert(context.tasks@.subrange(0, context.tasks@.len() as int) =~= context.tasks@);
    r
}

/// The message that names an ambiguous prefix and every id it matched.
fn ambiguity_text(partial_id: &str, ids: &Vec<String>) -> (m: String)
    ensures
        m@ == ambiguity_message(partial_id@, ids@.map_values(|s: String| s@)),
{
    let mut m = String::from_str("Ambiguous ID '");
    m.append(partial_id);
    m.append("' matches multiple tasks: ");
    let ghost head = m@;
    let ghost views = ids@.map_values(|s: String| s@);
    let mut i: usize = 0;
    while i < ids.len()
        invariant
            i <= ids.len(),
            views == ids@.map_values(|s: String| s@),
            head == "Ambiguous ID '"@ + partial_id@ + "' matches multiple tasks: "@,
            m@ == head + join(views.subrange(0, i as int), ", "@),
        decreases ids.len() - i,
    {
        let ghost prev = m@;
        assert(views.subrange(0, i + 1).drop_last() =~= views.subrange(0, i as int));
        if i > 0 {
            m.append(", ");
        }
        m.append(ids[i].as_str());
        proof {
            if i == 0 {
                assert(join(views.subrange(0, 1), ", "@) == views[0]);
                assert(join(views.subrange(0, 0), ", "@) =~= Seq::<char>::empty());
                assert(m@ =~= head + join(views.subrange(0, 1), ", "@));
            } else {
                assert(m@ =~= head + join(views.subrange(0, i + 1), ", "@));
            }
        }
        i = i + 1;
    }
    assert(views.subrange(0, ids@.len() as int) =~= views);
    m
}

/// Resolves a prefix of a task id to the one full id that it starts. No
/// match, and more than one, are both reported as `TaskNotFound`; for more
/// than one the message lists every matching id.
pub fn find_task_id_by_partial(context: &Context, partial_id: &str) -> (r: Result<String, AppError>)
    ensures
        matching_ids(context.tasks@, partial_id@).len() == 1 ==> (r matches Ok(id) && id@
            == matching_ids(context.tasks@, partial_id@)[0]),
        matching_ids(context.tasks@, partial_id@).len() == 0 ==> (r matches Err(
            AppError::TaskNotFound(m),
        ) && m@ == partial_id@),
        matching_ids(context.tasks@, partial_id@).len() >= 2 ==> (r matches Err(
            AppError::TaskNotFound(m),
        ) && m@ == ambiguity_message(partial_id@, matching_ids(context.tasks@, partial_id@))),
{
    let ids = matching_task_ids(context, partial_id);
    if ids.len() == 0 {
        Err(AppError::TaskNotFound(partial_id.to_owned()))
    } else if ids.len() == 1 {
        Ok(ids[0].clone())
    } else {
        Err(AppError::TaskNotFound(ambiguity_text(partial_id, &ids)))
    }
}

pub proof fn lemma_match_is_task(tasks: Seq<Task>, p: Seq<char>)
    requires
        matching_ids(tasks, p).len() >= 1,
    ensures
        has_id(tasks, matching_ids(tasks, p)[0]),
{
    let pred = |t: Task| p.is_prefix_of(t.id@);
    let f = tasks.filter(pred);
    assert(f.contains(f[0]));
    tasks.lemma_filter_contains_rev(pred, f[0]);
    let j = choose|j: int| 0 <= j < tasks.len() && tasks[j] == f[0];
    assert(tasks[j].id@ == matching_ids(tasks, p)[0]);
}

/// Resolves a prefix of a task id as `find_task_id_by_partial` does, and
/// hands out the task it names for changing in place.
pub fn find_task_by_partial_id<'a>(context: &'a mut Context, partial_id: &str) -> (r: Result<
    &'a mut Task,
    AppError,
>)
    ensures
        final(context).name == old(context).name,
        matching_ids(old(context).tasks@, partial_id@).len() == 1 ==> (r matches Ok(t) && *t
            == old(context).tasks@[first_with_id(
            old(context).tasks@,
            matching_ids(old(context).tasks@, partial_id@)[0],
        )] && final(context).tasks@ == old(context).tasks@.update(
            first_with_id(old(context).tasks@, matching_ids(old(context).tasks@, partial_id@)[0]),
            *final(t),
        )),
        matching_ids(old(context).tasks@, partial_id@).len() == 0 ==> (r matches Err(
            AppError::TaskNotFound(m),
        ) && m@ == partial_id@),
        matching_ids(old(context).tasks@, partial_id@).len() >= 2 ==> (r matches Err(
            AppError::TaskNotFound(m),
        ) && m@ == ambiguity_message(
            partial_id@,
            matching_ids(old(context).tasks@, partial_id@),
        )),
        r is Err ==> *final(context) == *old(context),
{
    let full_id = match find_task_id_by_partial(context, partial_id) {
        Ok(id) => id,
        Err(e) => return Err(e),
    };
    proof {
        lemma_match_is_task(context.tasks@, partial_id@);
    }
    match context.find_task_mut(full_id.as_str()) {
        Some(t) => Ok(t),
        None => Err(AppError::TaskNotFound(partial_id.to_owned())),
    }
}

} // verus!
