//! A registry of background tasks keyed by id: each task is running with a
//! progress count, or completed with a result that it keeps from then on.

use vstd::prelude::*;
use std::collections::HashMap;
use vstd::std_specs::hash::group_hash_axioms;

verus! {

broadcast use group_hash_axioms;

/// Where one task stands.
pub enum TaskState<R> {
    Running(usize),
    Completed(R),
}

/// Why the registry refused a request.
#[derive(Clone, Copy, Debug, PartialEq, Eq, Structural)]
pub enum RegistryError {
    /// The id is already registered.
    DuplicateId,
    /// No task has this id.
    UnknownId,
    /// The task has completed already; its result stays.
    AlreadyCompleted,
}

/// How the registry may change between two moments: no task disappears, a
/// completed task keeps its result, and a running task's progress never goes down.
pub open spec fn evolves<R>(a: Map<u128, TaskState<R>>, b: Map<u128, TaskState<R>>) -> bool {
    forall|id: u128| #[trigger]
        a.contains_key(id) ==> {
            &&& b.contains_key(id)
            &&& a[id] is Completed ==> b[id] == a[id]
            &&& a[id] is Running && b[id] is Running ==> a[id]->Running_0 <= b[id]->Running_0
        }
}

/// Each state of `states` comes from the one before it as the registry allows.
pub open spec fn is_history<R>(states: Seq<Map<u128, TaskState<R>>>) -> bool {
    forall|i: int| 0 <= i < states.len() - 1 ==> evolves(#[trigger] states[i], states[i + 1])
}

pub proof fn lemma_evolves_transitive<R>(
    a: Map<u128, TaskState<R>>,
    b: Map<u128, TaskState<R>>,
    c: Map<u128, TaskState<R>>,
)
    requires
        evolves(a, b),
        evolves(b, c),
    ensures
        evolves(a, c),
{
    assert forall|id: u128| #[trigger] a.contains_key(id) implies {
        &&& c.contains_key(id)
        &&& a[id] is Completed ==> c[id] == a[id]
        &&& a[id] is Running && c[id] is Running ==> a[id]->Running_0 <= c[id]->Running_0
    } by {
        assert(b.contains_key(id));
    }
}

/// Along a history, a state is related by `evolves` to every later one.
pub proof fn lemma_history_evolves<R>(states: Seq<Map<u128, TaskState<R>>>, i: int, j: int)
    requires
        is_history(states),
        0 <= i <= j < states.len(),
    ensures
        evolves(states[i], states[j]),
    decreases j - i,
{
    if i == j {
    } else {
        lemma_history_evolves(states, i, j - 1);
        assert(evolves(states[j - 1], states[j]));
        lemma_evolves_transitive(states[i], states[j - 1], states[j]);
    }
}

/// Once a task has completed, every later state of the registry shows it
/// completed with the same result, so every later poll answers the same.
pub proof fn lemma_completed_is_final<R>(states: Seq<Map<u128, TaskState<R>>>, i: int, j: int, id: u128)
    requires
        is_history(states),
        0 <= i <= j < states.len(),
        states[i].contains_key(id),
        states[i][id] is Completed,
    ensures
        states[j].contains_key(id),
        states[j][id] == states[i][id],
{
    lemma_history_evolves(states, i, j);
}

/// The progress of a task, as seen at successive moments, never goes down.
pub proof fn lemma_progress_never_decreases<R>(
    states: Seq<Map<u128, TaskState<R>>>,
    i: int,
    j: int,
    id: u128,
)
    requires
        is_history(states),
        0 <= i <= j < states.len(),
        states[i].contains_key(id),
        states[i][id] is Running,
        states[j][id] is Running,
    ensures
        states[i][id]->Running_0 <= states[j][id]->Running_0,
{
    lemma_history_evolves(states, i, j);
}

pub struct TaskRegistry<R> {
    tasks: HashMap<u128, TaskState<R>>,
}

impl<R> View for TaskRegistry<R> {
    type V = Map<u128, TaskState<R>>;

    closed spec fn view(&self) -> Map<u128, TaskState<R>> {
        self.tasks@
    }
}

impl<R> TaskRegistry<R> {
    pub fn new() -> (t: Self)
        ensures
            t@ == Map::<u128, TaskState<R>>::empty(),
    {
        TaskRegistry { tasks: HashMap::new() }
    }

    /// Registers `id` as running with no progress; a registered id is refused.
    pub fn submit(&mut self, id: u128) -> (r: Result<(), RegistryError>)
        ensures
            evolves(old(self)@, final(self)@),
            old(self)@.contains_key(id) ==> r == Err::<(), RegistryError>(RegistryError::DuplicateId)
                && final(self)@ == old(self)@,
            !old(self)@.contains_key(id) ==> r is Ok && final(self)@ == old(self)@.insert(
                id,
                TaskState::Running(0),
            ),
    {
        if self.tasks.contains_key(&id) {
            return Err(RegistryError::DuplicateId);
        }
        self.tasks.insert(id, TaskState::Running(0));
        Ok(())
    }

    /// Whether `id` is registered.
    pub fn contains(&self, id: u128) -> (r: bool)
        ensures
            r == self@.contains_key(id),
    {
        self.tasks.contains_key(&id)
    }

    /// Where the task `id` stands, or `None` for an id never registered.
    pub fn poll(&self, id: u128) -> (r: Option<&TaskState<R>>)
        ensures
            r is None <==> !self@.contains_key(id),
            r matches Some(s) ==> *s == self@[id],
    {
        self.tasks.get(&id)
    }

    /// The progress of the running task `id` becomes the larger of its progress
    /// and `progress`; a completed task and an unknown id are left alone.
    pub fn report_progress(&mut self, id: u128, progress: usize)
        ensures
            evolves(old(self)@, final(self)@),
            old(self)@.contains_key(id) && old(self)@[id] is Running ==> {
                let p = old(self)@[id]->Running_0;
                final(self)@ == old(self)@.insert(id, TaskState::Running(if progress > p { progress } else { p }))
            },
            !(old(self)@.contains_key(id) && old(self)@[id] is Running) ==> final(self)@ == old(self)@,
    {
        let current = match self.tasks.get(&id) {
            Some(TaskState::Running(p)) => Some(*p),
            _ => None,
        };
        if let Some(p) = current {
            let next = if progress > p {
                progress
            } else {
                p
            };
            self.tasks.insert(id, TaskState::Running(next));
        }
    }

    /// Records the result of the running task `id`. The result of a completed
    /// task is never replaced.
    pub fn complete(&mut self, id: u128, result: R) -> (r: Result<(), RegistryError>)
        ensures
            evolves(old(self)@, final(self)@),
            !old(self)@.contains_key(id) ==> r == Err::<(), RegistryError>(RegistryError::UnknownId)
                && final(self)@ == old(self)@,
            old(self)@.contains_key(id) && old(self)@[id] is Completed ==> r == Err::<
                (),
                RegistryError,
            >(RegistryError::AlreadyCompleted) && final(self)@ == old(self)@,
            old(self)@.contains_key(id) && old(self)@[id] is Running ==> r is Ok && final(self)@
                == old(self)@.insert(id, TaskState::Completed(result)),
    {
        let running = match self.tasks.get(&id) {
            None => {
                return Err(RegistryError::UnknownId);
            },
            Some(TaskState::Completed(_)) => false,
            Some(TaskState::Running(_)) => true,
        };
        if !running {
            return Err(RegistryError::AlreadyCompleted);
        }
        self.tasks.insert(id, TaskState::Completed(result));
        Ok(())
    }
}

} // verus!
