//! The decisions of the command loop that owns the task registry: registering a
//! new analysis under a fresh id, and answering a poll.

use vstd::prelude::*;
use crate::engine::AnalysisError;
use crate::tasks::{evolves, RegistryError, TaskRegistry, TaskState};

verus! {

/// What an analysis task ends with: the groups of duplicate paths, or why it failed.
pub type TaskResult = Result<Vec<Vec<String>>, AnalysisError>;

/// The answer to a poll of a known task.
#[derive(Debug)]
pub enum PollReply {
    Pending(usize),
    Completed(Vec<Vec<String>>),
    Failed(String),
}

/// `a` and `b` list the same paths in the same groups.
pub open spec fn same_groups(a: Seq<Vec<String>>, b: Seq<Vec<String>>) -> bool {
    &&& a.len() == b.len()
    &&& forall|k: int| 0 <= k < a.len() ==> #[trigger] a[k]@.len() == b[k]@.len()
    &&& forall|k: int, m: int| 0 <= k < a.len() && 0 <= m < a[k]@.len() ==> #[trigger] a[k]@[m]@ == b[k]@[m]@
}

/// Relies on uuid's `Uuid::new_v4`: a random version-4 id, read as a `u128`.
/// Nothing is known of its value but the version and variant fields.
#[verifier::external_body]
fn fresh_task_id() -> (r: u128)
    ensures
        (r >> 76u128) & 0xfu128 == 4,
        (r >> 62u128) & 3u128 == 2,
{
    uuid::Uuid::new_v4().as_u128()
}

/// Registers a new running task under a freshly drawn id and returns the id.
/// An id that is already registered is an internal failure, and nothing changes.
pub fn register_task<R>(registry: &mut TaskRegistry<R>) -> (r: Result<u128, AnalysisError>)
    ensures
        evolves(old(registry)@, final(registry)@),
        r matches Ok(id) ==> !old(registry)@.contains_key(id) && final(registry)@ == old(
            registry,
        )@.insert(id, TaskState::Running(0)),
        r is Err ==> final(registry)@ == old(registry)@,
        r is Err ==> exists|id: u128| #[trigger] old(registry)@.contains_key(id) && (id >> 76u128) & 0xfu128 == 4,
        r matches Err(e) ==> e is Internal,
        old(registry)@.dom().is_empty() ==> r is Ok,
{
    let id = fresh_task_id();
    match registry.submit(id) {
        Ok(()) => Ok(id),
        Err(_) => Err(AnalysisError::Internal("task id already in use".to_string())),
    }
}

/// `reply` tells where a task in `state` stands.
pub open spec fn answers(state: TaskState<TaskResult>, reply: PollReply) -> bool {
    match state {
        TaskState::Running(p) => reply == PollReply::Pending(p),
        TaskState::Completed(Ok(g0)) => match reply {
            PollReply::Completed(g) => same_groups(g@, g0@),
            _ => false,
        },
        TaskState::Completed(Err(e)) => match reply {
            PollReply::Failed(msg) => msg@ == e.message_spec(),
            _ => false,
        },
    }
}

/// A copy of the groups `g`.
pub fn copy_groups(g: &Vec<Vec<String>>) -> (r: Vec<Vec<String>>)
    ensures
        same_groups(r@, g@),
{
    let mut out: Vec<Vec<String>> = Vec::new();
    let mut k: usize = 0;
    while k < g.len()
        invariant
            k <= g@.len(),
            out@.len() == k,
            forall|k2: int| 0 <= k2 < k ==> #[trigger] out@[k2]@.len() == g@[k2]@.len(),
            forall|k2: int, m: int|
                0 <= k2 < k && 0 <= m < out@[k2]@.len() ==> #[trigger] out@[k2]@[m]@ == g@[k2]@[m]@,
        decreases g@.len() - k,
    {
        let members = &g[k];
        let mut names: Vec<String> = Vec::new();
        let mut m: usize = 0;
        while m < members.len()
            invariant
                m <= members@.len(),
                names@.len() == m,
                forall|m2: int| 0 <= m2 < m ==> #[trigger] names@[m2]@ == members@[m2]@,
            decreases members@.len() - m,
        {
            names.push(members[m].clone());
            m = m + 1;
        }
        out.push(names);
        k = k + 1;
    }
    out
}

/// The answer to a poll of `id`: `None` for an id never registered; the progress
/// of a running task; the groups of a task that succeeded; the message of one
/// that failed.
pub fn poll_reply(registry: &TaskRegistry<TaskResult>, id: u128) -> (r: Option<PollReply>)
    ensures
        r is None <==> !registry@.contains_key(id),
        r matches Some(reply) ==> answers(registry@[id], reply),
{
    match registry.poll(id) {
        None => None,
        Some(TaskState::Running(p)) => Some(PollReply::Pending(*p)),
        Some(TaskState::Completed(Ok(g))) => Some(PollReply::Completed(copy_groups(g))),
        Some(TaskState::Completed(Err(e))) => Some(PollReply::Failed(e.message())),
    }
}

/// The registry's refusal, as a failure of the service.
pub fn registry_failure(e: RegistryError) -> (r: AnalysisError)
    ensures
        r is Internal,
{
    match e {
        RegistryError::DuplicateId => AnalysisError::Internal("task id already in use".to_string()),
        RegistryError::UnknownId => AnalysisError::Internal("no task has this id".to_string()),
        RegistryError::AlreadyCompleted => AnalysisError::Internal("task already completed".to_string()),
    }
}

} // verus!
