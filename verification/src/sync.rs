//! What to do about an assignment, given the record of what was mirrored
//! before.
//!
//! An assignment without a record gets a task. One whose record holds the
//! same due timestamp is left alone. One whose due timestamp has changed
//! gets a new task, after the task made for it before is deleted. An
//! assignment whose due timestamp is absent or cannot be read is passed
//! over, whatever the record says.
//!
//! The task service's own identifier of a created task is not kept: a
//! deletion names the identifier that the record holds.

use vstd::prelude::*;
use vstd::string::*;
use crate::calendar::due_string;
use crate::calendar::due_string_of;
use crate::records::AssignmentRecord;
use crate::records::RecordStore;
use crate::records::RecordView;
use crate::short_name::get_short_class_name;
use crate::short_name::short_name;
use crate::text::make_task_content;
use crate::text::strip_marks;
use crate::text::task_content;
use crate::text::without_marks;

verus! {

/// An assignment as the learning-management system lists it.
#[derive(Clone, Debug, PartialEq, Eq)]
pub struct Assignment {
    pub id: String,
    pub name: String,
    pub due_at: Option<String>,
}

/// A request to the task service.
#[derive(Clone, Debug, PartialEq, Eq)]
pub enum TaskAction {
    /// Delete the task with this identifier.
    Delete { task_id: String },
    /// Create a task with this text, due on this date.
    Create { content: String, due_string: String },
}

/// A `TaskAction` as plain text.
pub ghost enum ActionView {
    Delete { task_id: Seq<char> },
    Create { content: Seq<char>, due_string: Seq<char> },
}

impl View for TaskAction {
    type V = ActionView;

    open spec fn view(&self) -> ActionView {
        match *self {
            TaskAction::Delete { task_id } => ActionView::Delete { task_id: task_id@ },
            TaskAction::Create { content, due_string } => ActionView::Create {
                content: content@,
                due_string: due_string@,
            },
        }
    }
}

/// A list of actions as plain text.
pub open spec fn actions_view(actions: Seq<TaskAction>) -> Seq<ActionView> {
    actions.map_values(|a: TaskAction| a@)
}

/// The due timestamp of an assignment, if it has one.
pub open spec fn due_text(a: Assignment) -> Option<Seq<char>> {
    match a.due_at {
        Some(t) => Some(t@),
        None => None,
    }
}

/// The assignment has a record, and the record holds its due timestamp.
pub open spec fn is_settled(store: Map<Seq<char>, RecordView>, a: Assignment) -> bool {
    store.contains_key(a.id@) && due_text(a) == Some(store[a.id@].due_date)
}

/// The due timestamp to act on: the assignment's, unless its record holds
/// the same one or no date can be read from it.
pub open spec fn due_to_act_on(store: Map<Seq<char>, RecordView>, a: Assignment) -> Option<
    Seq<char>,
> {
    if is_settled(store, a) {
        None
    } else {
        match due_text(a) {
            Some(t) => if due_string_of(t).is_some() {
                Some(t)
            } else {
                None
            },
            None => None,
        }
    }
}

/// The task to create for an assignment due at `t`.
pub open spec fn creation(short: Seq<char>, a: Assignment, t: Seq<char>) -> ActionView {
    ActionView::Create {
        content: task_content(short, a.name@),
        due_string: due_string_of(t).unwrap(),
    }
}

/// The requests that one assignment gives rise to.
pub open spec fn plan_one(store: Map<Seq<char>, RecordView>, short: Seq<char>, a: Assignment) -> Seq<
    ActionView,
> {
    match due_to_act_on(store, a) {
        Some(t) => if store.contains_key(a.id@) {
            seq![ActionView::Delete { task_id: store[a.id@].id }, creation(short, a, t)]
        } else {
            seq![creation(short, a, t)]
        },
        None => Seq::empty(),
    }
}

/// The record to keep of an assignment acted on with due timestamp `t`.
pub open spec fn record_for(store: Map<Seq<char>, RecordView>, a: Assignment, t: Seq<char>) -> RecordView {
    if store.contains_key(a.id@) {
        RecordView { id: store[a.id@].id, title: store[a.id@].title, due_date: t }
    } else {
        RecordView { id: a.id@, title: without_marks(a.name@), due_date: t }
    }
}

/// The records after one assignment.
pub open spec fn record_one(store: Map<Seq<char>, RecordView>, a: Assignment) -> Map<
    Seq<char>,
    RecordView,
> {
    match due_to_act_on(store, a) {
        Some(t) => store.insert(a.id@, record_for(store, a, t)),
        None => store,
    }
}

/// The records after a list of assignments, taken in order.
pub open spec fn records_after(store: Map<Seq<char>, RecordView>, items: Seq<Assignment>) -> Map<
    Seq<char>,
    RecordView,
>
    decreases items.len(),
{
    if items.len() == 0 {
        store
    } else {
        record_one(records_after(store, items.drop_last()), items.last())
    }
}

/// The requests that a list of assignments gives rise to, taken in order.
pub open spec fn plan(store: Map<Seq<char>, RecordView>, short: Seq<char>, items: Seq<Assignment>) -> Seq<
    ActionView,
>
    decreases items.len(),
{
    if items.len() == 0 {
        Seq::empty()
    } else {
        plan(store, short, items.drop_last()) + plan_one(
            records_after(store, items.drop_last()),
            short,
            items.last(),
        )
    }
}

/// Decides what to do about one assignment of the course with short name
/// `short`, and records what was decided.
pub fn sync_assignment(store: &mut RecordStore, short: &str, a: &Assignment) -> (actions: Vec<
    TaskAction,
>)
    requires
        old(store).wf(),
    ensures
        final(store).wf(),
        actions_view(actions@) == plan_one(old(store)@, short@, *a),
        final(store)@ == record_one(old(store)@, *a),
{
    let mut actions: Vec<TaskAction> = Vec::new();
    assert(actions_view(actions@) =~= Seq::<ActionView>::empty());
    let due_at: &String = match &a.due_at {
        Some(t) => t,
        None => {
            return actions;
        },
    };
    proof {
        store.lemma_keys_are_ids();
    }
    let prior: Option<AssignmentRecord> = match store.get(a.id.as_str()) {
        Some(rec) => {
            if rec.due_date == *due_at {
                return actions;
            }
            Some(rec.duplicate())
        },
        None => None,
    };
    let due: String = match due_string(due_at.as_str()) {
        Some(s) => s,
        None => {
            return actions;
        },
    };
    let create = TaskAction::Create {
        content: make_task_content(short, a.name.as_str()),
        due_string: due,
    };
    let rec: AssignmentRecord = match prior {
        Some(old_rec) => {
            actions.push(TaskAction::Delete { task_id: old_rec.id.clone() });
            AssignmentRecord { id: old_rec.id, title: old_rec.title, due_date: due_at.clone() }
        },
        None => AssignmentRecord {
            id: a.id.clone(),
            title: strip_marks(a.name.as_str()),
            due_date: due_at.clone(),
        },
    };
    actions.push(create);
    store.put(rec);
    assert(actions_view(actions@) =~= plan_one(old(store)@, short@, *a));
    actions
}

/// Decides what to do about the assignments of the course called
/// `course_name`, in the order given, and records what was decided.
pub fn sync_course(store: &mut RecordStore, course_name: &str, assignments: &Vec<Assignment>) -> (actions:
    Vec<TaskAction>)
    requires
        old(store).wf(),
    ensures
        final(store).wf(),
        actions_view(actions@) == plan(old(store)@, short_name(course_name@), assignments@),
        final(store)@ == records_after(old(store)@, assignments@),
{
    let short: &str = get_short_class_name(course_name);
    let mut actions: Vec<TaskAction> = Vec::new();
    let mut i: usize = 0;
    proof {
        assert(assignments@.take(0) =~= Seq::<Assignment>::empty());
        assert(actions_view(actions@) =~= Seq::<ActionView>::empty());
    }
    while i < assignments.len()
        invariant
            i <= assignments.len(),
            store.wf(),
            short@ == short_name(course_name@),
            actions_view(actions@) == plan(old(store)@, short@, assignments@.take(i as int)),
            store@ == records_after(old(store)@, assignments@.take(i as int)),
        decreases assignments.len() - i,
    {
        let ghost before = actions@;
        let mut more: Vec<TaskAction> = sync_assignment(store, short, &assignments[i]);
        let ghost added = more@;
        actions.append(&mut more);
        proof {
            assert(assignments@.take(i + 1).drop_last() =~= assignments@.take(i as int));
            assert(assignments@.take(i + 1).last() == assignments@[i as int]);
            assert(actions_view(before + added) =~= actions_view(before) + actions_view(added));
        }
        i += 1;
    }
    proof {
        assert(assignments@.take(assignments.len() as int) =~= assignments@);
    }
    actions
}

/// No two assignments of the list share an identifier.
pub open spec fn distinct_ids(items: Seq<Assignment>) -> bool {
    forall|i: int, j: int| 0 <= i < j < items.len() ==> items[i].id@ != items[j].id@
}

/// Nothing is to be done about the assignment.
pub open spec fn at_rest(store: Map<Seq<char>, RecordView>, a: Assignment) -> bool {
    due_to_act_on(store, a).is_none()
}

/// Whether a due date can be read from the assignment's due timestamp.
pub open spec fn has_due_date(a: Assignment) -> bool {
    match due_text(a) {
        Some(t) => due_string_of(t).is_some(),
        None => false,
    }
}

/// One task for each assignment of the list from whose due timestamp a due
/// date can be read, in the order of the list.
pub open spec fn creations(short: Seq<char>, items: Seq<Assignment>) -> Seq<ActionView>
    decreases items.len(),
{
    if items.len() == 0 {
        Seq::empty()
    } else if has_due_date(items.last()) {
        creations(short, items.drop_last()).push(
            creation(short, items.last(), due_text(items.last()).unwrap()),
        )
    } else {
        creations(short, items.drop_last())
    }
}

/// Once an assignment has been gone through, nothing is to be done about it.
pub proof fn lemma_rest_after_one(store: Map<Seq<char>, RecordView>, a: Assignment)
    ensures
        at_rest(record_one(store, a), a),
{
}

/// Going through one assignment does not disturb another that is at rest.
pub proof fn lemma_rest_kept(store: Map<Seq<char>, RecordView>, a: Assignment, b: Assignment)
    requires
        a.id@ != b.id@,
        at_rest(store, a),
    ensures
        at_rest(record_one(store, b), a),
{
}

/// After a list of assignments with distinct identifiers has been gone
/// through, each of them is at rest.
pub proof fn lemma_all_at_rest(store: Map<Seq<char>, RecordView>, items: Seq<Assignment>, k: int)
    requires
        distinct_ids(items),
        0 <= k < items.len(),
    ensures
        at_rest(records_after(store, items), items[k]),
    decreases items.len(),
{
    let front = items.drop_last();
    let mid = records_after(store, front);
    if k == items.len() - 1 {
        lemma_rest_after_one(mid, items.last());
    } else {
        assert(distinct_ids(front)) by {
            assert forall|i: int, j: int| 0 <= i < j < front.len() implies front[i].id@
                != front[j].id@ by {
                assert(front[i] == items[i] && front[j] == items[j]);
            }
        }
        lemma_all_at_rest(store, front, k);
        assert(front[k] == items[k]);
        lemma_rest_kept(mid, items[k], items.last());
    }
}

/// Where every assignment of a list is at rest, going through the list asks
/// for nothing and leaves the records as they are.
pub proof fn lemma_quiet(store: Map<Seq<char>, RecordView>, short: Seq<char>, items: Seq<Assignment>)
    requires
        forall|k: int| 0 <= k < items.len() ==> at_rest(store, #[trigger] items[k]),
    ensures
        plan(store, short, items) == Seq::<ActionView>::empty(),
        records_after(store, items) == store,
    decreases items.len(),
{
    if items.len() > 0 {
        let front = items.drop_last();
        assert forall|k: int| 0 <= k < front.len() implies at_rest(store, #[trigger] front[k]) by {
            assert(front[k] == items[k]);
        }
        lemma_quiet(store, short, front);
        assert(at_rest(store, items[items.len() - 1]));
        assert(plan(store, short, items) =~= Seq::<ActionView>::empty());
    }
}

/// Going through the same list of assignments a second time, with nothing
/// changed in between, asks for no task to be created or deleted and leaves
/// the records as the first time left them. The assignments of the list
/// have distinct identifiers.
pub proof fn lemma_second_run_is_quiet(
    store: Map<Seq<char>, RecordView>,
    short: Seq<char>,
    items: Seq<Assignment>,
)
    requires
        distinct_ids(items),
    ensures
        plan(records_after(store, items), short, items) == Seq::<ActionView>::empty(),
        records_after(records_after(store, items), items) == records_after(store, items),
{
    let done = records_after(store, items);
    assert forall|k: int| 0 <= k < items.len() implies at_rest(done, #[trigger] items[k]) by {
        lemma_all_at_rest(store, items, k);
    }
    lemma_quiet(done, short, items);
}

/// An assignment whose record holds another due timestamp than the one it
/// has now, and from whose new timestamp a due date can be read, has the
/// task made for it before deleted and one task created, in this order, and
/// its record then holds the new timestamp; nothing else in the records
/// changes.
pub proof fn lemma_changed_due_date(
    store: Map<Seq<char>, RecordView>,
    short: Seq<char>,
    a: Assignment,
    due: Seq<char>,
)
    requires
        store.contains_key(a.id@),
        due_text(a) == Some(due),
        store[a.id@].due_date != due,
        due_string_of(due).is_some(),
    ensures
        plan_one(store, short, a) == seq![
            ActionView::Delete { task_id: store[a.id@].id },
            ActionView::Create {
                content: task_content(short, a.name@),
                due_string: due_string_of(due).unwrap(),
            },
        ],
        record_one(store, a) == store.insert(
            a.id@,
            RecordView { id: store[a.id@].id, title: store[a.id@].title, due_date: due },
        ),
{
}

/// Every identifier with a record after a list of assignments had one
/// before or is that of an assignment of the list.
pub proof fn lemma_keys_after(store: Map<Seq<char>, RecordView>, items: Seq<Assignment>, key: Seq<char>)
    requires
        records_after(store, items).contains_key(key),
        !store.contains_key(key),
    ensures
        exists|i: int| 0 <= i < items.len() && (#[trigger] items[i]).id@ == key,
    decreases items.len(),
{
    if items.len() > 0 {
        let front = items.drop_last();
        if items.last().id@ == key {
            assert(items[items.len() - 1].id@ == key);
        } else {
            lemma_keys_after(store, front, key);
            let i = choose|i: int| 0 <= i < front.len() && (#[trigger] front[i]).id@ == key;
            assert(items[i] == front[i]);
        }
    }
}

/// Starting without records, a list of assignments with distinct
/// identifiers asks for exactly one task to be created for each assignment
/// from whose due timestamp a due date can be read, in the order of the
/// list, and for nothing else.
pub proof fn lemma_first_run(short: Seq<char>, items: Seq<Assignment>)
    requires
        distinct_ids(items),
    ensures
        plan(Map::<Seq<char>, RecordView>::empty(), short, items) == creations(short, items),
    decreases items.len(),
{
    let none = Map::<Seq<char>, RecordView>::empty();
    if items.len() > 0 {
        let front = items.drop_last();
        let last = items.last();
        let mid = records_after(none, front);
        assert(distinct_ids(front)) by {
            assert forall|i: int, j: int| 0 <= i < j < front.len() implies front[i].id@
                != front[j].id@ by {
                assert(front[i] == items[i] && front[j] == items[j]);
            }
        }
        lemma_first_run(short, front);
        if mid.contains_key(last.id@) {
            lemma_keys_after(none, front, last.id@);
            let i = choose|i: int| 0 <= i < front.len() && (#[trigger] front[i]).id@ == last.id@;
            assert(front[i] == items[i]);
            assert(items[items.len() - 1] == last);
            assert(false);
        }
        assert(plan(none, short, items) =~= creations(short, items));
    }
}

/// Going through two lists one after the other is going through both as one.
pub proof fn lemma_lists_in_turn(
    store: Map<Seq<char>, RecordView>,
    short: Seq<char>,
    first: Seq<Assignment>,
    second: Seq<Assignment>,
)
    ensures
        records_after(store, first + second) == records_after(records_after(store, first), second),
        plan(store, short, first + second) == plan(store, short, first) + plan(
            records_after(store, first),
            short,
            second,
        ),
    decreases second.len(),
{
    let both = first + second;
    if second.len() == 0 {
        assert(both =~= first);
        assert(plan(store, short, first) + Seq::<ActionView>::empty() =~= plan(store, short, first));
    } else {
        assert(both.drop_last() =~= first + second.drop_last());
        assert(both.last() == second.last());
        lemma_lists_in_turn(store, short, first, second.drop_last());
        let mid = records_after(store, first);
        assert(plan(store, short, both) =~= plan(store, short, first) + plan(mid, short, second));
    }
}

/// After a run over assignments with distinct identifiers, going through
/// any of them again, in any order and under any course name, asks for no
/// task to be created or deleted and leaves the records as they are.
pub proof fn lemma_later_run_is_quiet(
    store: Map<Seq<char>, RecordView>,
    all: Seq<Assignment>,
    short: Seq<char>,
    part: Seq<Assignment>,
)
    requires
        distinct_ids(all),
        forall|k: int| 0 <= k < part.len() ==> all.contains(#[trigger] part[k]),
    ensures
        plan(records_after(store, all), short, part) == Seq::<ActionView>::empty(),
        records_after(records_after(store, all), part) == records_after(store, all),
{
    let done = records_after(store, all);
    assert forall|k: int| 0 <= k < part.len() implies at_rest(done, #[trigger] part[k]) by {
        assert(all.contains(part[k]));
        let j = choose|j: int| 0 <= j < all.len() && all[j] == part[k];
        lemma_all_at_rest(store, all, j);
    }
    lemma_quiet(done, short, part);
}

} // verus!
