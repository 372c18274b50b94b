//! The address of a server as the user types it, and the bridge that carries
//! the outcome of background work to the one consumer.
//!
//! The bridge keeps the book, not the threads. A task is scheduled, starts to
//! run, and ends with a value or an error; at that moment its outcome is put
//! into the inbox, and the consumer takes the outcomes out on its own turn,
//! oldest first. Whoever runs the work tells the bridge of each step.

use crate::text::{joined, starts_with, trim, trimmed};
use vstd::prelude::*;

verus! {

/// `address` with `https://` in front, unless it names its scheme already.
pub open spec fn with_scheme(address: Seq<char>) -> Seq<char> {
    if "http://"@.is_prefix_of(address) || "https://"@.is_prefix_of(address) {
        address
    } else {
        "https://"@ + address
    }
}

/// The address that `input` stands for: trimmed, and with a scheme.
pub open spec fn normalized(input: Seq<char>) -> Seq<char> {
    with_scheme(trimmed(input))
}

/// Puts `https://` in front of an address that names no scheme.
pub fn ensure_scheme(address: &str) -> (r: String)
    ensures
        r@ == with_scheme(address@),
{
    if starts_with(address, "http://") || starts_with(address, "https://") {
        address.to_owned()
    } else {
        joined("https://", address)
    }
}

/// The address that `input` stands for: without the whitespace around it, and
/// with `https://` in front where it names no scheme.
pub fn normalize_url(input: &str) -> (r: String)
    ensures
        r@ == normalized(input@),
{
    ensure_scheme(trim(input))
}

/// Where a task stands.
#[derive(Debug, Clone, Copy, PartialEq, Eq, Structural)]
pub enum TaskState {
    Scheduled,
    Running,
    /// Ended with a value.
    Completed,
    /// Ended with an error.
    Failed,
}

/// Whether a task in this state has ended.
pub open spec fn ended(state: TaskState) -> bool {
    state == TaskState::Completed || state == TaskState::Failed
}

/// The outcome of a task on its way to the consumer.
#[derive(Debug, PartialEq, Eq)]
pub struct Delivery<T> {
    pub task: usize,
    pub outcome: Result<T, String>,
}

/// One for what holds, nothing for what does not.
pub open spec fn one(holds: bool) -> nat {
    if holds {
        1
    } else {
        0
    }
}

/// How many outcomes of `task` wait in `inbox`.
pub open spec fn waiting<T>(inbox: Seq<Delivery<T>>, task: int) -> nat
    decreases inbox.len(),
{
    if inbox.len() == 0 {
        0
    } else if inbox.last().task == task {
        waiting(inbox.drop_last(), task) + 1
    } else {
        waiting(inbox.drop_last(), task)
    }
}

/// What holds of the book at all times: every outcome in the inbox belongs to
/// a task, and a task has one outcome, waiting or handed over, if it has
/// ended, and none before.
pub open spec fn consistent<T>(
    states: Seq<TaskState>,
    handed: Seq<bool>,
    inbox: Seq<Delivery<T>>,
) -> bool {
    &&& handed.len() == states.len()
    &&& forall|i: int| 0 <= i < inbox.len() ==> (#[trigger] inbox[i]).task < states.len()
    &&& forall|task: int|
        0 <= task < states.len() ==> #[trigger] waiting(inbox, task) + one(handed[task]) == one(
            ended(states[task]),
        )
}

/// An outcome put into the inbox waits there, and changes nothing for other
/// tasks.
pub proof fn lemma_waiting_push<T>(inbox: Seq<Delivery<T>>, delivery: Delivery<T>, task: int)
    ensures
        waiting(inbox.push(delivery), task) == waiting(inbox, task) + one(delivery.task == task),
{
    assert(inbox.push(delivery).drop_last() =~= inbox);
}

/// Taking the oldest outcome out leaves the others waiting.
pub proof fn lemma_waiting_skip<T>(inbox: Seq<Delivery<T>>, task: int)
    requires
        inbox.len() > 0,
    ensures
        waiting(inbox, task) == waiting(inbox.skip(1), task) + one(inbox[0].task == task),
    decreases inbox.len(),
{
    if inbox.len() == 1 {
        assert(waiting(inbox.drop_last(), task) == 0);
        assert(waiting(inbox.skip(1), task) == 0);
        assert(inbox.last() == inbox[0]);
    } else {
        let rest = inbox.skip(1);
        lemma_waiting_skip(inbox.drop_last(), task);
        assert(inbox.drop_last().skip(1) =~= rest.drop_last());
        assert(rest.len() > 0);
        assert(rest.last() == inbox.last());
        assert(inbox.drop_last()[0] == inbox[0]);
        assert(waiting(rest, task) == waiting(rest.drop_last(), task) + one(
            rest.last().task == task,
        ));
    }
}

/// No outcome waits for a task that the inbox does not name.
pub proof fn lemma_waiting_none<T>(inbox: Seq<Delivery<T>>, task: int)
    requires
        forall|i: int| 0 <= i < inbox.len() ==> (#[trigger] inbox[i]).task != task,
    ensures
        waiting(inbox, task) == 0,
    decreases inbox.len(),
{
    if inbox.len() > 0 {
        assert forall|i: int| 0 <= i < inbox.drop_last().len() implies (
        #[trigger] inbox.drop_last()[i]).task != task by {
            assert(inbox.drop_last()[i] == inbox[i]);
        }
        lemma_waiting_none(inbox.drop_last(), task);
    }
}

/// A task has at most one outcome, and it is never both waiting and handed
/// over: before the task has ended there is none, and once it was handed over
/// none waits.
pub proof fn lemma_one_outcome<T>(
    states: Seq<TaskState>,
    handed: Seq<bool>,
    inbox: Seq<Delivery<T>>,
    task: int,
)
    requires
        consistent(states, handed, inbox),
        0 <= task < states.len(),
    ensures
        waiting(inbox, task) <= 1,
        !ended(states[task]) ==> waiting(inbox, task) == 0 && !handed[task],
        handed[task] ==> waiting(inbox, task) == 0 && ended(states[task]),
        ended(states[task]) && !handed[task] ==> waiting(inbox, task) == 1,
{
    assert(waiting(inbox, task) + one(handed[task]) == one(ended(states[task])));
}

/// The book of the tasks that were handed to the background and of their
/// outcomes on the way back.
pub struct TaskBridge<T> {
    states: Vec<TaskState>,
    handed: Vec<bool>,
    inbox: Vec<Delivery<T>>,
}

impl<T> TaskBridge<T> {
    /// The state of each task, by its number.
    pub closed spec fn states(&self) -> Seq<TaskState> {
        self.states@
    }

    /// For each task, whether its outcome was handed to the consumer.
    pub closed spec fn handed(&self) -> Seq<bool> {
        self.handed@
    }

    /// The outcomes that wait for the consumer, oldest first.
    pub closed spec fn inbox(&self) -> Seq<Delivery<T>> {
        self.inbox@
    }

    #[verifier::type_invariant]
    spec fn well_formed(self) -> bool {
        consistent(self.states@, self.handed@, self.inbox@)
    }

    /// A book without tasks.
    pub fn new() -> (r: TaskBridge<T>)
        ensures
            r.states() == Seq::<TaskState>::empty(),
            r.handed() == Seq::<bool>::empty(),
            r.inbox() == Seq::<Delivery<T>>::empty(),
            consistent(r.states(), r.handed(), r.inbox()),
    {
        TaskBridge { states: Vec::new(), handed: Vec::new(), inbox: Vec::new() }
    }

    /// The state of `task`, if there is such a task.
    pub fn state(&self, task: usize) -> (r: Option<TaskState>)
        ensures
            r == if task < self.states().len() {
                Some(self.states()[task as int])
            } else {
                None
            },
    {
        if task < self.states.len() {
            Some(self.states[task])
        } else {
            None
        }
    }

    /// Marks a scheduled task as running. Any other task is left as it is,
    /// and the answer is `false`.
    pub fn start(&mut self, task: usize) -> (r: bool)
        ensures
            r == (task < old(self).states().len() && old(self).states()[task as int]
                == TaskState::Scheduled),
            r ==> final(self).states() == old(self).states().update(
                task as int,
                TaskState::Running,
            ),
            !r ==> final(self).states() == old(self).states(),
            final(self).handed() == old(self).handed(),
            final(self).inbox() == old(self).inbox(),
            consistent(final(self).states(), final(self).handed(), final(self).inbox()),
    {
        proof {
            use_type_invariant(&*self);
        }
        if task < self.states.len() && self.states[task] == TaskState::Scheduled {
            let mut taken = TaskBridge::new();
            core::mem::swap(self, &mut taken);
            let mut states = taken.states;
            states[task] = TaskState::Running;
            *self = TaskBridge { states, handed: taken.handed, inbox: taken.inbox };
            proof {
                use_type_invariant(&*self);
            }
            true
        } else {
            false
        }
    }

    /// Ends a running task with `outcome` and puts the outcome into the
    /// inbox, behind those that wait there. Any other task is left as it is,
    /// nothing is put into the inbox, and the answer is `false`.
    pub fn finish(&mut self, task: usize, outcome: Result<T, String>) -> (r: bool)
        ensures
            r == (task < old(self).states().len() && old(self).states()[task as int]
                == TaskState::Running),
            r ==> final(self).states() == old(self).states().update(
                task as int,
                if outcome is Ok {
                    TaskState::Completed
                } else {
                    TaskState::Failed
                },
            ) && final(self).inbox() == old(self).inbox().push(Delivery { task, outcome }),
            !r ==> final(self).states() == old(self).states(),
            !r ==> final(self).inbox() == old(self).inbox(),
            final(self).handed() == old(self).handed(),
            consistent(final(self).states(), final(self).handed(), final(self).inbox()),
    {
        proof {
            use_type_invariant(&*self);
        }
        if task < self.states.len() && self.states[task] == TaskState::Running {
            let mut taken = TaskBridge::new();
            core::mem::swap(self, &mut taken);
            let mut states = taken.states;
            let mut inbox = taken.inbox;
            let reached = match &outcome {
                Ok(_) => TaskState::Completed,
                Err(_) => TaskState::Failed,
            };
            let delivery = Delivery { task, outcome };
            proof {
                assert forall|other: int| 0 <= other < states@.len() implies #[trigger] waiting(
                    inbox@.push(delivery),
                    other,
                ) + one(taken.handed@[other]) == one(ended(states@.update(task as int, reached)[other])) by {
                    lemma_waiting_push(inbox@, delivery, other);
                    assert(waiting(inbox@, other) + one(taken.handed@[other]) == one(
                        ended(states@[other]),
                    ));
                }
            }
            states[task] = reached;
            inbox.push(delivery);
            *self = TaskBridge { states, handed: taken.handed, inbox };
            proof {
                use_type_invariant(&*self);
            }
            true
        } else {
            false
        }
    }

    /// Takes the oldest outcome out of the inbox and marks it as handed
    /// over; `None` where nothing waits.
    pub fn deliver(&mut self) -> (r: Option<Delivery<T>>)
        ensures
            final(self).states() == old(self).states(),
            consistent(final(self).states(), final(self).handed(), final(self).inbox()),
            match r {
                Some(delivery) => {
                    &&& old(self).inbox().len() > 0
                    &&& delivery == old(self).inbox()[0]
                    &&& final(self).inbox() == old(self).inbox().skip(1)
                    &&& delivery.task < old(self).handed().len()
                    &&& !old(self).handed()[delivery.task as int]
                    &&& final(self).handed() == old(self).handed().update(delivery.task as int, true)
                    &&& ended(old(self).states()[delivery.task as int])
                    &&& waiting(final(self).inbox(), delivery.task as int) == 0
                },
                None => {
                    &&& old(self).inbox().len() == 0
                    &&& final(self).inbox() == old(self).inbox()
                    &&& final(self).handed() == old(self).handed()
                },
            },
    {
        proof {
            use_type_invariant(&*self);
        }
        if self.inbox.len() == 0 {
            return None;
        }
        let mut taken = TaskBridge::new();
        core::mem::swap(self, &mut taken);
        let states = taken.states;
        let mut handed = taken.handed;
        let mut inbox = taken.inbox;
        let ghost before = inbox@;
        let ghost marks = handed@;
        let delivery = inbox.remove(0);
        proof {
            assert(inbox@ =~= before.skip(1));
            assert(delivery == before[0]);
            lemma_waiting_skip(before, delivery.task as int);
            let task = delivery.task as int;
            assert(waiting(before, task) + one(marks[task]) == one(ended(states@[task])));
            assert forall|i: int| 0 <= i < inbox@.len() implies (#[trigger] inbox@[i]).task
                < states@.len() by {
                assert(inbox@[i] == before[i + 1]);
            }
            assert forall|other: int| 0 <= other < states@.len() implies #[trigger] waiting(
                inbox@,
                other,
            ) + one(marks.update(delivery.task as int, true)[other]) == one(ended(states@[other])) by {
                lemma_waiting_skip(before, other);
                assert(waiting(before, other) + one(marks[other]) == one(
                    ended(states@[other]),
                ));
            }
        }
        handed[delivery.task] = true;
        *self = TaskBridge { states, handed, inbox };
        proof {
            use_type_invariant(&*self);
        }
        Some(delivery)
    }
}

/// Schedules a task: it gets the next number and waits to be started.
pub fn spawn_async<T>(bridge: &mut TaskBridge<T>) -> (task: usize)
    ensures
        task == old(bridge).states().len(),
        final(bridge).states() == old(bridge).states().push(TaskState::Scheduled),
        final(bridge).handed() == old(bridge).handed().push(false),
        final(bridge).inbox() == old(bridge).inbox(),
        consistent(final(bridge).states(), final(bridge).handed(), final(bridge).inbox()),
{
    proof {
        use_type_invariant(&*bridge);
    }
    let mut taken = TaskBridge::new();
    core::mem::swap(bridge, &mut taken);
    let mut states = taken.states;
    let mut handed = taken.handed;
    let inbox = taken.inbox;
    let task = states.len();
    proof {
        lemma_waiting_none(inbox@, task as int);
    }
    states.push(TaskState::Scheduled);
    handed.push(false);
    *bridge = TaskBridge { states, handed, inbox };
    proof {
        use_type_invariant(&*bridge);
    }
    task
}

} // verus!
