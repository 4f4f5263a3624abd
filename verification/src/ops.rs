//! The list operations: append, toggle done, mark removed, and the visible
//! listing. A position is a 1-based index into the full list, removed
//! entries included; removal never renumbers the tasks after it.

use vstd::prelude::*;

use crate::ext::{fresh_id, now_string};
use crate::task::{views, NotFoundError, Task, TaskView, ValidationError};

verus! {

/// The list after toggling the done flag at 1-based position `p`.
pub open spec fn toggled(s: Seq<TaskView>, p: int) -> Seq<TaskView> {
    s.update(
        p - 1,
        (TaskView {
            id: s[p - 1].id,
            description: s[p - 1].description,
            done: !s[p - 1].done,
            creation_date: s[p - 1].creation_date,
            removed: s[p - 1].removed,
        }),
    )
}

/// The list after marking the task at 1-based position `p` removed.
pub open spec fn marked_removed(s: Seq<TaskView>, p: int) -> Seq<TaskView> {
    s.update(
        p - 1,
        (TaskView {
            id: s[p - 1].id,
            description: s[p - 1].description,
            done: s[p - 1].done,
            creation_date: s[p - 1].creation_date,
            removed: true,
        }),
    )
}

/// Whitespace for the purpose of rejecting blank descriptions.
pub open spec fn is_space(c: char) -> bool {
    c == ' ' || c == '\t' || c == '\n' || c == '\r' || c == '\u{b}' || c == '\u{c}'
}

/// A description with no visible character at all; the empty string counts.
pub open spec fn all_spaces(s: Seq<char>) -> bool {
    forall|i: int| 0 <= i < s.len() ==> is_space(s[i])
}

/// Flips the done flag of the task at 1-based position `position`. Out of
/// range, the list is left untouched and the position is reported unknown.
pub fn finish_task(tasks: &mut Vec<Task>, position: usize) -> (r: Result<(), NotFoundError>)
    ensures
        r is Ok <==> 1 <= position <= old(tasks)@.len(),
        r is Ok ==> views(final(tasks)@) == toggled(views(old(tasks)@), position as int),
        r is Err ==> final(tasks)@ == old(tasks)@,
{
    if 1 <= position && position <= tasks.len() {
        let i = position - 1;
        let mut t = tasks.remove(i);
        t.done = !t.done;
        tasks.insert(i, t);
        proof {
            assert(views(tasks@) =~= toggled(views(old(tasks)@), position as int));
        }
        Ok(())
    } else {
        Err(NotFoundError)
    }
}

/// Sets the removed flag of the task at 1-based position `position`. Not a
/// toggle: marking an already removed task leaves the list as it was. Out
/// of range, the list is left untouched.
pub fn remove_task(tasks: &mut Vec<Task>, position: usize) -> (r: Result<(), NotFoundError>)
    ensures
        r is Ok <==> 1 <= position <= old(tasks)@.len(),
        r is Ok ==> views(final(tasks)@) == marked_removed(views(old(tasks)@), position as int),
        r is Err ==> final(tasks)@ == old(tasks)@,
{
    if 1 <= position && position <= tasks.len() {
        let i = position - 1;
        let mut t = tasks.remove(i);
        t.removed = true;
        tasks.insert(i, t);
        proof {
            assert(views(tasks@) =~= marked_removed(views(old(tasks)@), position as int));
        }
        Ok(())
    } else {
        Err(NotFoundError)
    }
}

/// True when the description holds at least one non-whitespace character.
pub fn has_content(description: &str) -> (r: bool)
    ensures
        r == !all_spaces(description@),
{
    let n = description.unicode_len();
    let mut i: usize = 0;
    while i < n
        invariant
            i <= n,
            n == description@.len(),
            forall|j: int| 0 <= j < i ==> is_space(description@[j]),
        decreases n - i,
    {
        let c = description.get_char(i);
        if !(c == ' ' || c == '\t' || c == '\n' || c == '\r' || c == '\u{b}' || c == '\u{c}') {
            return true;
        }
        i = i + 1;
    }
    false
}

/// Appends a task built from the given fields, provided the description is
/// not blank. Everything about the new entry is pinned by the arguments.
pub fn push_new_task(
    tasks: &mut Vec<Task>,
    description: String,
    id: String,
    creation_date: String,
) -> (r: Result<(), ValidationError>)
    ensures
        r is Ok <==> !all_spaces(description@),
        r is Ok ==> views(final(tasks)@) == views(old(tasks)@).push(
            (TaskView {
                id: id@,
                description: description@,
                done: false,
                creation_date: creation_date@,
                removed: false,
            }),
        ),
        r is Ok ==> final(tasks)@.len() == old(tasks)@.len() + 1 && final(tasks)@.drop_last()
            == old(tasks)@,
        r is Err ==> final(tasks)@ == old(tasks)@,
{
    if has_content(description.as_str()) {
        let t = Task::new(id, description, creation_date);
        tasks.push(t);
        proof {
            assert(views(tasks@) =~= views(old(tasks)@).push(t@));
            assert(tasks@.drop_last() =~= old(tasks)@);
        }
        Ok(())
    } else {
        Err(ValidationError)
    }
}

/// Appends a task with the given description, a fresh random id and the
/// current local time, provided the description is not blank. On rejection
/// the list is left untouched.
pub fn append_task(tasks: &mut Vec<Task>, description: String) -> (r: Result<
    (),
    ValidationError,
>)
    ensures
        r is Ok <==> !all_spaces(description@),
        r is Ok ==> {
            &&& final(tasks)@.len() == old(tasks)@.len() + 1
            &&& forall|i: int| 0 <= i < old(tasks)@.len() ==> final(tasks)@[i] == old(tasks)@[i]
            &&& final(tasks)@.last()@.description == description@
            &&& final(tasks)@.last()@.done == false
            &&& final(tasks)@.last()@.removed == false
        },
        r is Err ==> final(tasks)@ == old(tasks)@,
{
    let id = fresh_id();
    let creation_date = now_string();
    let r = push_new_task(tasks, description, id, creation_date);
    proof {
        if r is Ok {
            assert(views(tasks@).last() == tasks@.last()@);
            assert forall|i: int| 0 <= i < old(tasks)@.len() implies tasks@[i] == old(
                tasks,
            )@[i] by {
                assert(tasks@.drop_last()[i] == tasks@[i]);
            }
        }
    }
    r
}

/// The 1-based positions of the tasks that a listing shows: those not
/// removed, in order, each under the position it holds in the full list.
pub open spec fn visible_positions(s: Seq<TaskView>) -> Seq<int>
    decreases s.len(),
{
    if s.len() == 0 {
        Seq::empty()
    } else if s.last().removed {
        visible_positions(s.drop_last())
    } else {
        visible_positions(s.drop_last()).push(s.len() as int)
    }
}

/// The positions a listing of `tasks` shows, smallest first.
pub fn visible_positions_of(tasks: &Vec<Task>) -> (r: Vec<usize>)
    ensures
        r@.map_values(|p: usize| p as int) == visible_positions(views(tasks@)),
{
    let mut r: Vec<usize> = Vec::new();
    let mut i: usize = 0;
    proof {
        assert(r@.map_values(|p: usize| p as int) =~= visible_positions(
            views(tasks@.take(0)),
        ));
    }
    while i < tasks.len()
        invariant
            i <= tasks@.len(),
            r@.map_values(|p: usize| p as int) == visible_positions(views(tasks@.take(i as int))),
        decreases tasks@.len() - i,
    {
        proof {
            assert(views(tasks@.take(i + 1)).drop_last() =~= views(tasks@.take(i as int)));
            assert(views(tasks@.take(i + 1)).last() == tasks@[i as int]@);
        }
        if !tasks[i].removed {
            r.push(i + 1);
            proof {
                assert(r@.map_values(|p: usize| p as int) =~= visible_positions(
                    views(tasks@.take(i as int)),
                ).push(i + 1));
            }
        }
        i = i + 1;
    }
    proof {
        assert(tasks@.take(tasks@.len() as int) =~= tasks@);
    }
    r
}

/// A position is shown exactly when it addresses a task that is present
/// and not removed.
pub proof fn lemma_visible_positions(s: Seq<TaskView>)
    ensures
        forall|p: int| visible_positions(s).contains(p) <==> 1 <= p <= s.len() && !s[p - 1].removed,
    decreases s.len(),
{
    if s.len() > 0 {
        lemma_visible_positions(s.drop_last());
        assert forall|p: int|
            visible_positions(s).contains(p) <==> 1 <= p <= s.len() && !s[p - 1].removed by {
            if visible_positions(s).contains(p) {
                if s.last().removed {
                    assert(visible_positions(s.drop_last()).contains(p));
                } else {
                    if p != s.len() as int {
                        assert(visible_positions(s.drop_last()).contains(p));
                    }
                }
            }
            if 1 <= p <= s.len() && !s[p - 1].removed {
                if p < s.len() as int {
                    assert(visible_positions(s.drop_last()).contains(p));
                    if s.last().removed {
                    } else {
                        let q = visible_positions(s.drop_last());
                        let k = choose|k: int| 0 <= k < q.len() && q[k] == p;
                        assert(q.push(s.len() as int)[k] == p);
                    }
                } else {
                    assert(visible_positions(s).last() == p);
                }
            }
        }
    }
}

/// Toggling the same position twice restores the list exactly.
pub proof fn lemma_double_toggle(s: Seq<TaskView>, p: int)
    requires
        1 <= p <= s.len(),
    ensures
        toggled(toggled(s, p), p) == s,
{
    assert(toggled(toggled(s, p), p) =~= s);
}

/// A removed task is gone from the visible listing.
pub proof fn lemma_removed_hidden(s: Seq<TaskView>, p: int)
    requires
        1 <= p <= s.len(),
    ensures
        !visible_positions(marked_removed(s, p)).contains(p),
{
    lemma_visible_positions(marked_removed(s, p));
}

/// Marking an already removed position again changes nothing.
pub proof fn lemma_mark_removed_idempotent(s: Seq<TaskView>, p: int)
    requires
        1 <= p <= s.len(),
    ensures
        marked_removed(marked_removed(s, p), p) == marked_removed(s, p),
{
    assert(marked_removed(marked_removed(s, p), p) =~= marked_removed(s, p));
}

} // verus!
