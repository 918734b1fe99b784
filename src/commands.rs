use vstd::prelude::*;

use crate::context::{display_order, first_with_id, tasks_of, with_horizon, ContextManager};
use crate::error::AppError;
use crate::merge::{merged, ImportedContext};
use crate::resolve::{ambiguity_message, find_task_by_partial_id, find_task_id_by_partial, matching_ids};
use crate::task::{horizon_word, lower_of, priority_word, Priority, Task, TimeHorizon};

verus! {

/// The tasks of the active context.
pub open spec fn active_tasks(m: &ContextManager) -> Seq<Task> {
    m.contexts@[m.active_context@].1
}

/// The index of the one task that prefix `p` resolves to in `tasks`.
pub open spec fn resolved_index(tasks: Seq<Task>, p: Seq<char>) -> int {
    first_with_id(tasks, matching_ids(tasks, p)[0])
}

/// The active context of `after` is that of `before` with its tasks
/// replaced by `tasks`; every other context and the active name stay.
pub open spec fn active_tasks_become(
    before: &ContextManager,
    after: &ContextManager,
    tasks: Seq<Task>,
) -> bool {
    &&& after.wf()
    &&& after.active_context == before.active_context
    &&& after.contexts@ == before.contexts@.insert(
        before.active_context@,
        (before.contexts@[before.active_context@].0, tasks),
    )
}

/// `after` holds the same contexts and active name as `before`.
pub open spec fn same_state(before: &ContextManager, after: &ContextManager) -> bool {
    &&& after.active_context == before.active_context
    &&& after.contexts@ == before.contexts@
}

/// A resolution failure for prefix `p` over `tasks`: not found, or ambiguous.
pub open spec fn resolve_error(tasks: Seq<Task>, p: Seq<char>, e: AppError) -> bool {
    &&& matching_ids(tasks, p).len() == 0 ==> (e matches AppError::TaskNotFound(m) && m@ == p)
    &&& matching_ids(tasks, p).len() >= 2 ==> (e matches AppError::TaskNotFound(m) && m@
        == ambiguity_message(p, matching_ids(tasks, p)))
}

/// Builds a task from user text and appends it to the active context.
/// Returns the first six characters of the new id.
pub fn handle_add(
    manager: &mut ContextManager,
    description: String,
    horizon: String,
    priority: String,
) -> (r: Result<String, AppError>)
    requires
        old(manager).wf(),
    ensures
        final(manager).wf(),
        horizon_word(lower_of(horizon@)) is None ==> (r matches Err(
            AppError::InvalidTimeHorizon(m),
        ) && m@ == horizon@),
        horizon_word(lower_of(horizon@)) is Some && priority_word(lower_of(priority@)) is None ==> (
        r matches Err(AppError::InvalidPriority(m)) && m@ == priority@),
        r is Err ==> *final(manager) == *old(manager),
        horizon_word(lower_of(horizon@)) is Some && priority_word(lower_of(priority@)) is Some
            ==> r is Ok,
        r matches Ok(short) ==> exists|t: Task|
            {
                &&& t.description == description
                &&& t.time_horizon == horizon_word(lower_of(horizon@))->0
                &&& t.priority == priority_word(lower_of(priority@))->0
                &&& !t.completed
                &&& short@ == t.id@.subrange(0, 6)
                &&& active_tasks_become(old(manager), final(manager), active_tasks(old(manager)).push(t))
            },
{
    let h = match TimeHorizon::parse(horizon.as_str()) {
        Ok(h) => h,
        Err(e) => return Err(e),
    };
    let p = match Priority::parse(priority.as_str()) {
        Ok(p) => p,
        Err(e) => return Err(e),
    };
    let task = Task::new(description, h, p);
    let short = task.id.as_str().substring_char(0, 6).to_owned();
    let ghost t = task;
    manager.active_context_mut().add_task(task);
    assert(active_tasks_become(old(manager), manager, active_tasks(old(manager)).push(t)));
    Ok(short)
}

/// The tasks to list from the active context: those of one horizon, in
/// their order, when a horizon is given, and otherwise all in display order.
pub fn handle_list(manager: &ContextManager, horizon_filter: Option<String>) -> (r: Result<
    Vec<&Task>,
    AppError,
>)
    requires
        manager.wf(),
    ensures
        horizon_filter is None ==> (r matches Ok(v) && tasks_of(v@) == display_order(
            active_tasks(manager),
        )),
        horizon_filter matches Some(s) ==> (horizon_word(lower_of(s@)) matches Some(h) ==> (
        r matches Ok(v) && tasks_of(v@) == with_horizon(active_tasks(manager), h))),
        horizon_filter matches Some(s) ==> (horizon_word(lower_of(s@)) is None ==> (r matches Err(
            AppError::InvalidTimeHorizon(m),
        ) && m@ == s@)),
{
    let context = manager.active_context();
    match horizon_filter {
        Some(s) => match TimeHorizon::parse(s.as_str()) {
            Ok(h) => Ok(context.tasks_by_horizon(h)),
            Err(e) => Err(e),
        },
        None => Ok(context.sorted_tasks()),
    }
}

/// Marks complete the task of the active context that `id` resolves to;
/// returns its description.
pub fn handle_complete(manager: &mut ContextManager, id: String) -> (r: Result<String, AppError>)
    requires
        old(manager).wf(),
    ensures
        final(manager).wf(),
        matching_ids(active_tasks(old(manager)), id@).len() == 1 ==> ({
            let tasks = active_tasks(old(manager));
            let i = resolved_index(tasks, id@);
            &&& r matches Ok(d) && d == tasks[i].description
            &&& active_tasks_become(
                old(manager),
                final(manager),
                tasks.update(i, tasks[i].marked_complete()),
            )
        }),
        r matches Err(e) ==> resolve_error(active_tasks(old(manager)), id@, e) && same_state(
            old(manager),
            final(manager),
        ),
        matching_ids(active_tasks(old(manager)), id@).len() != 1 ==> r is Err,
{
    let ghost before = manager.contexts@;
    let ghost active = manager.active_context@;
    let context = manager.active_context_mut();
    match find_task_by_partial_id(context, id.as_str()) {
        Ok(task) => {
            task.mark_complete();
            Ok(task.description.clone())
        },
        Err(e) => {
            assert(before.insert(active, before[active]) =~= before);
            Err(e)
        },
    }
}

/// Updates the task of the active context that `id` resolves to with the
/// values given; horizon and priority text are read first, and an error in
/// them changes nothing. Returns the task's description afterwards.
pub fn handle_edit(
    manager: &mut ContextManager,
    id: String,
    description: Option<String>,
    horizon: Option<String>,
    priority: Option<String>,
) -> (r: Result<String, AppError>)
    requires
        old(manager).wf(),
    ensures
        final(manager).wf(),
        r is Err ==> same_state(old(manager), final(manager)),
        horizon matches Some(s) ==> (horizon_word(lower_of(s@)) is None ==> (r matches Err(
            AppError::InvalidTimeHorizon(m),
        ) && m@ == s@)),
        (horizon matches Some(s) ==> horizon_word(lower_of(s@)) is Some) ==> (priority matches Some(
            s,
        ) ==> (priority_word(lower_of(s@)) is None ==> (r matches Err(AppError::InvalidPriority(m))
            && m@ == s@))),
        ({
            &&& horizon matches Some(s) ==> horizon_word(lower_of(s@)) is Some
            &&& priority matches Some(s) ==> priority_word(lower_of(s@)) is Some
        }) ==> ({
            let tasks = active_tasks(old(manager));
            let i = resolved_index(tasks, id@);
            let h = match horizon {
                Some(s) => Some(horizon_word(lower_of(s@))->0),
                None => None,
            };
            let p = match priority {
                Some(s) => Some(priority_word(lower_of(s@))->0),
                None => None,
            };
            &&& matching_ids(tasks, id@).len() == 1 ==> (r matches Ok(d) && d == tasks[i].updated(
                description,
                h,
                p,
            ).description && active_tasks_become(
                old(manager),
                final(manager),
                tasks.update(i, tasks[i].updated(description, h, p)),
            ))
            &&& matching_ids(tasks, id@).len() != 1 ==> (r matches Err(e) && resolve_error(
                tasks,
                id@,
                e,
            ))
        }),
{
    let h = match horizon {
        Some(s) => match TimeHorizon::parse(s.as_str()) {
            Ok(h) => Some(h),
            Err(e) => return Err(e),
        },
        None => None,
    };
    let p = match priority {
        Some(s) => match Priority::parse(s.as_str()) {
            Ok(p) => Some(p),
            Err(e) => return Err(e),
        },
        None => None,
    };
    let ghost before = manager.contexts@;
    let ghost active = manager.active_context@;
    let context = manager.active_context_mut();
    match find_task_by_partial_id(context, id.as_str()) {
        Ok(task) => {
            task.update(description, h, p);
            Ok(task.description.clone())
        },
        Err(e) => {
            assert(before.insert(active, before[active]) =~= before);
            Err(e)
        },
    }
}

/// Deletes the task of the active context that `id` resolves to; the
/// other tasks keep their order. Returns the deleted task.
pub fn handle_delete(manager: &mut ContextManager, id: String) -> (r: Result<Task, AppError>)
    requires
        old(manager).wf(),
    ensures
        final(manager).wf(),
        matching_ids(active_tasks(old(manager)), id@).len() == 1 ==> ({
            let tasks = active_tasks(old(manager));
            let i = resolved_index(tasks, id@);
            &&& r matches Ok(t) && t == tasks[i]
            &&& active_tasks_become(old(manager), final(manager), tasks.remove(i))
        }),
        r matches Err(e) ==> resolve_error(active_tasks(old(manager)), id@, e) && *final(manager)
            == *old(manager),
        matching_ids(active_tasks(old(manager)), id@).len() != 1 ==> r is Err,
{
    let full_id = match find_task_id_by_partial(manager.active_context(), id.as_str()) {
        Ok(f) => f,
        Err(e) => return Err(e),
    };
    proof {
        crate::resolve::lemma_match_is_task(active_tasks(manager), id@);
    }
    manager.active_context_mut().remove_task(full_id.as_str())
}

/// What to do to the set of contexts.
#[derive(Debug, Clone, PartialEq, Eq)]
pub enum ContextAction {
    New { name: String },
    Switch { name: String },
    List,
    Delete { name: String },
}

/// What a context action did, for the caller to report.
#[derive(Debug, Clone, PartialEq, Eq)]
pub enum ContextOutcome {
    Created(String),
    Switched { name: String, task_count: usize },
    Listed { names: Vec<String>, active: String },
    Deleted(String),
}

/// Owned copies of borrowed texts, in the same order.
fn owned_names(v: Vec<&str>) -> (r: Vec<String>)
    ensures
        r@.map_values(|s: String| s@) == v@.map_values(|s: &str| s@),
{
    let mut r: Vec<String> = Vec::new();
    let mut i: usize = 0;
    while i < v.len()
        invariant
            i <= v.len(),
            r@.map_values(|s: String| s@) == v@.subrange(0, i as int).map_values(|s: &str| s@),
        decreases v.len() - i,
    {
        r.push(v[i].to_owned());
        assert(v@.subrange(0, i + 1).map_values(|s: &str| s@) =~= v@.subrange(0, i as int).map_values(
            |s: &str| s@,
        ).push(v@[i as int]@));
        assert(r@.map_values(|s: String| s@) =~= v@.subrange(0, i + 1).map_values(|s: &str| s@));
        i = i + 1;
    }
    assert(v@.subrange(0, v@.len() as int) =~= v@);
    r
}

/// Carries out a context action: create, switch to, list or delete a context.
pub fn handle_context(manager: &mut ContextManager, action: ContextAction) -> (r: Result<
    ContextOutcome,
    AppError,
>)
    requires
        old(manager).wf(),
    ensures
        final(manager).wf(),
        r is Err ==> same_state(old(manager), final(manager)),
        action matches ContextAction::New { name } ==> ({
            &&& old(manager).contexts@.dom().contains(name@) ==> (r matches Err(
                AppError::ContextAlreadyExists(m),
            ) && m@ == name@)
            &&& !old(manager).contexts@.dom().contains(name@) ==> (r matches Ok(
                ContextOutcome::Created(n),
            ) && n@ == name@ && final(manager).active_context == old(manager).active_context
                && final(manager).contexts@ == old(manager).contexts@.insert(
                name@,
                (name@, Seq::<Task>::empty()),
            ))
        }),
        action matches ContextAction::Switch { name } ==> ({
            &&& !old(manager).contexts@.dom().contains(name@) ==> (r matches Err(
                AppError::ContextNotFound(m),
            ) && m@ == name@)
            &&& old(manager).contexts@.dom().contains(name@) ==> (r matches Ok(
                ContextOutcome::Switched { name: n, task_count },
            ) && n@ == name@ && task_count == old(manager).contexts@[name@].1.len()
                && final(manager).active_context@ == name@ && final(manager).contexts
                == old(manager).contexts)
        }),
        action is List ==> *final(manager) == *old(manager) && (r matches Ok(
            ContextOutcome::Listed { names, active },
        ) && active@ == old(manager).active_context@ && names@.len()
            == old(manager).contexts@.len() && (forall|i: int|
            0 <= i < names@.len() ==> old(manager).contexts@.dom().contains(#[trigger] names@[i]@))
            && (forall|k: Seq<char>| #[trigger]
            old(manager).contexts@.dom().contains(k) ==> exists|i: int|
                0 <= i < names@.len() && names@[i]@ == k)),
        action matches ContextAction::Delete { name } ==> ({
            &&& !old(manager).contexts@.dom().contains(name@) ==> (r matches Err(
                AppError::ContextNotFound(m),
            ) && m@ == name@)
            &&& old(manager).contexts@.dom().contains(name@) && old(manager).contexts@.len() <= 1
                ==> r == Err::<ContextOutcome, AppError>(AppError::CannotDeleteLastContext)
            &&& old(manager).contexts@.dom().contains(name@) && old(manager).contexts@.len() > 1
                && old(manager).active_context@ == name@ ==> (r matches Err(
                AppError::ContextInUse(m),
            ) && m@ == name@)
            &&& (old(manager).contexts@.dom().contains(name@) && old(manager).contexts@.len() > 1
                && old(manager).active_context@ != name@) ==> (r matches Ok(
                ContextOutcome::Deleted(n),
            ) && n@ == name@ && final(manager).active_context == old(manager).active_context
                && final(manager).contexts@ == old(manager).contexts@.remove(name@))
        }),
{
    match action {
        ContextAction::New { name } => {
            let reported = name.clone();
            match manager.create_context(name) {
                Ok(()) => Ok(ContextOutcome::Created(reported)),
                Err(e) => Err(e),
            }
        },
        ContextAction::Switch { name } => {
            match manager.switch_context(name.as_str()) {
                Ok(()) => {
                    let task_count = manager.active_context().tasks.len();
                    Ok(ContextOutcome::Switched { name, task_count })
                },
                Err(e) => Err(e),
            }
        },
        ContextAction::List => {
            let listed = manager.list_contexts();
            let ghost lv = listed@;
            let names = owned_names(listed);
            proof {
                assert(names@.map_values(|s: String| s@).len() == names@.len());
                assert(lv.map_values(|s: &str| s@).len() == lv.len());
                assert(names@.len() == lv.len());
                assert forall|i: int| 0 <= i < names@.len() implies manager.contexts@.dom().contains(
                    #[trigger] names@[i]@,
                ) by {
                    assert(names@.map_values(|s: String| s@)[i] == names@[i]@);
                    assert(lv.map_values(|s: &str| s@)[i] == lv[i]@);
                }
                assert forall|k: Seq<char>| #[trigger]
                    manager.contexts@.dom().contains(k) implies exists|i: int|
                    0 <= i < names@.len() && names@[i]@ == k by {
                    let i = choose|i: int| 0 <= i < lv.len() && lv[i]@ == k;
                    assert(names@.map_values(|s: String| s@)[i] == names@[i]@);
                    assert(lv.map_values(|s: &str| s@)[i] == lv[i]@);
                }
            }
            Ok(ContextOutcome::Listed { names, active: manager.active_context.clone() })
        },
        ContextAction::Delete { name } => {
            match manager.delete_context(name.as_str()) {
                Ok(()) => Ok(ContextOutcome::Deleted(name)),
                Err(e) => Err(e),
            }
        },
    }
}

/// `report` lists each context of `m` once, stored under its own name, with
/// its number of tasks.
pub open spec fn lists_contexts(m: &ContextManager, report: Seq<ImportedContext>) -> bool {
    &&& report.len() == m.contexts@.len()
    &&& forall|i: int|
        0 <= i < report.len() ==> {
            let e = #[trigger] report[i];
            &&& m.contexts@.dom().contains(e.name@)
            &&& e.stored_as@ == e.name@
            &&& e.task_count == m.contexts@[e.name@].1.len()
        }
    &&& forall|i: int, j: int|
        0 <= i < report.len() && 0 <= j < report.len() && i != j ==> report[i].name@
            != report[j].name@
    &&& forall|k: Seq<char>| #[trigger]
        m.contexts@.dom().contains(k) ==> exists|i: int| 0 <= i < report.len() && report[i].name@ == k
}

/// Each context of `m`, stored under its own name, with its number of tasks.
fn context_report(m: &ContextManager) -> (r: Vec<ImportedContext>)
    requires
        m.wf(),
    ensures
        lists_contexts(m, r@),
{
    let names = m.list_contexts();
    let mut r: Vec<ImportedContext> = Vec::new();
    let mut i: usize = 0;
    while i < names.len()
        invariant
            m.wf(),
            names@.len() == m.contexts@.len(),
            forall|j: int| 0 <= j < names@.len() ==> m.contexts@.dom().contains(#[trigger] names@[j]@),
            forall|j: int, l: int|
                0 <= j < names@.len() && 0 <= l < names@.len() && j != l ==> names@[j]@ != names@[l]@,
            i <= names.len(),
            r@.len() == i,
            forall|j: int|
                0 <= j < i ==> {
                    let e = #[trigger] r@[j];
                    &&& e.name@ == names@[j]@
                    &&& e.stored_as@ == e.name@
                    &&& e.task_count == m.contexts@[e.name@].1.len()
                },
        decreases names.len() - i,
    {
        let name = names[i];
        let c = m.contexts.get(name).unwrap();
        r.push(ImportedContext {
            name: name.to_owned(),
            stored_as: name.to_owned(),
            task_count: c.tasks.len(),
        });
        i = i + 1;
    }
    proof {
        assert forall|k: Seq<char>| #[trigger]
            m.contexts@.dom().contains(k) implies exists|j: int| 0 <= j < r@.len() && r@[j].name@ == k by {
            let j = choose|j: int| 0 <= j < names@.len() && names@[j]@ == k;
            assert(r@[j].name@ == k);
        }
        assert forall|j: int| 0 <= j < r@.len() implies m.contexts@.dom().contains(
            (#[trigger] r@[j]).name@,
        ) by {
            assert(r@[j].name@ == names@[j]@);
        }
    }
    r
}

/// Brings in an imported manager. Merging keeps every existing context and
/// adds the imported ones, renaming on collision; otherwise the imported
/// manager replaces this one whole. The report says where each imported
/// context went and how many tasks it brought.
pub fn handle_import(manager: &mut ContextManager, imported: ContextManager, merge: bool) -> (r: Vec<
    ImportedContext,
>)
    requires
        old(manager).wf(),
        imported.wf(),
    ensures
        final(manager).wf(),
        merge ==> merged(old(manager), &imported, final(manager), r@),
        !merge ==> *final(manager) == imported && lists_contexts(&imported, r@),
{
    if merge {
        manager.merge_import(imported)
    } else {
        let report = context_report(&imported);
        *manager = imported;
        report
    }
}

} // verus!
