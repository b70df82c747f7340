use vstd::prelude::*;

verus! {

/// Identifier of a task: a 256-bit digest of its owner and provided id.
pub type TaskId = [u8; 32];

/// An account that owns tasks.
pub type AccountId = u64;

/// Seconds since the Unix epoch.
pub type UnixTime = u64;

/// An abstract measure of execution cost.
pub type Weight = u64;

/// The action that a task performs when it runs.
#[derive(Debug, Clone, PartialEq, Eq)]
pub enum Action {
    Notify { message: Vec<u8> },
}

/// Everything that is stored about a scheduled task.
#[derive(Debug, Clone, PartialEq, Eq)]
pub struct Task {
    pub owner_id: AccountId,
    pub provided_id: Vec<u8>,
    pub time: UnixTime,
    pub action: Action,
}

impl Task {
    /// A task that emits a notification carrying `message`.
    pub fn create_event_task(
        owner_id: AccountId,
        provided_id: Vec<u8>,
        time: UnixTime,
        message: Vec<u8>,
    ) -> (r: Task)
        ensures
            r.owner_id == owner_id,
            r.provided_id == provided_id,
            r.time == time,
            r.action == (Action::Notify { message }),
    {
        let action = Action::Notify { message };
        Task { owner_id, provided_id, time, action }
    }
}

/// The data a task identifier is derived from.
pub struct TaskHashInput {
    pub owner_id: AccountId,
    pub provided_id: Vec<u8>,
}

/// `n` little-endian base-256 digits of `x`.
pub open spec fn le_bytes(x: nat, n: nat) -> Seq<u8>
    decreases n,
{
    if n == 0 {
        Seq::empty()
    } else {
        seq![(x % 256) as u8] + le_bytes(x / 256, (n - 1) as nat)
    }
}

/// The bytes that are hashed to identify a task: the owner as eight
/// little-endian bytes, followed by the provided id.
pub open spec fn hash_input_bytes(owner_id: AccountId, provided_id: Seq<u8>) -> Seq<u8> {
    le_bytes(owner_id as nat, 8) + provided_id
}

impl TaskHashInput {
    pub fn create_hash_input(owner_id: AccountId, provided_id: Vec<u8>) -> (r: TaskHashInput)
        ensures
            r.owner_id == owner_id,
            r.provided_id == provided_id,
    {
        TaskHashInput { owner_id, provided_id }
    }

    /// The byte string that identifies this input.
    pub fn encode(&self) -> (r: Vec<u8>)
        ensures
            r@ == hash_input_bytes(self.owner_id, self.provided_id@),
    {
        let mut out: Vec<u8> = Vec::new();
        let mut rest: u64 = self.owner_id;
        let mut i: usize = 0;
        while i < 8
            invariant
                0 <= i <= 8,
                out@ + le_bytes(rest as nat, (8 - i) as nat) == le_bytes(self.owner_id as nat, 8),
            decreases 8 - i,
        {
            proof {
                let k = (8 - i) as nat;
                assert(le_bytes(rest as nat, k) == seq![(rest as nat % 256) as u8] + le_bytes(
                    rest as nat / 256,
                    (k - 1) as nat,
                ));
                assert(out@ + le_bytes(rest as nat, k) == out@.push((rest % 256) as u8)
                    + le_bytes((rest / 256) as nat, (k - 1) as nat));
            }
            out.push((rest % 256) as u8);
            rest = rest / 256;
            i = i + 1;
        }
        assert(le_bytes(rest as nat, 0) =~= Seq::empty());
        assert(out@ =~= le_bytes(self.owner_id as nat, 8));
        let mut j: usize = 0;
        while j < self.provided_id.len()
            invariant
                0 <= j <= self.provided_id@.len(),
                out@ == le_bytes(self.owner_id as nat, 8) + self.provided_id@.subrange(0, j as int),
            decreases self.provided_id@.len() - j,
        {
            out.push(self.provided_id[j]);
            j = j + 1;
            assert(out@ =~= le_bytes(self.owner_id as nat, 8) + self.provided_id@.subrange(
                0,
                j as int,
            ));
        }
        assert(self.provided_id@.subrange(0, j as int) =~= self.provided_id@);
        out
    }
}

/// Why a scheduling or cancellation call was refused.
#[derive(Debug, Clone, Copy, PartialEq, Eq, Structural)]
pub enum Error {
    /// Time must end in a whole minute.
    InvalidTime,
    /// Time must be in the future.
    PastTime,
    /// The message cannot be empty.
    EmptyMessage,
    /// The provided id cannot be empty.
    EmptyProvidedId,
    /// There can be no duplicate tasks.
    DuplicateTask,
    /// No more tasks can be scheduled for this time.
    TimeSlotFull,
    /// The caller is not the owner of the task.
    NotTaskOwner,
    /// The task does not exist.
    TaskDoesNotExist,
}

/// Notifications emitted by the scheduler.
#[derive(Debug, Clone, PartialEq, Eq)]
pub enum Event {
    TaskScheduled { who: AccountId, task_id: TaskId },
    TaskCancelled { who: AccountId, task_id: TaskId },
    Notify { message: Vec<u8> },
    TaskNotFound { task_id: TaskId },
}

} // verus!
