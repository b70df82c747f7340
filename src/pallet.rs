use vstd::prelude::*;

use crate::hashing::{hash_of, same_id, task_id_of};
use crate::model::{
    contains_id, cycle_budget, drain_weight, drained, in_minutes, lemma_next_minute, without_minutes, ids_view, index_of, keys_after, lemma_index_absent,
    lemma_index_index, lemma_index_keys, lemma_index_remove, lemma_index_update,
    lemma_registry_absent, lemma_registry_index, lemma_registry_len, lemma_registry_remove,
    registry_of, removed_first, run_budget, run_count, run_events, slot_len, slot_of, unique_ids, unique_times,
    update_weight, Slot,
};
use crate::task::{AccountId, Action, Error, Event, Task, TaskHashInput, TaskId, UnixTime, Weight};
use crate::weights::{
    BASE_WEIGHT, CYCLE_BASE_WEIGHT, ITERATION_WEIGHT, MAX_ITERATION_WEIGHT, MINUTE_WEIGHT,
    NOTIFY_WEIGHT, NOT_FOUND_WEIGHT,
};

verus! {

/// Settings of a scheduler.
pub struct Config {
    /// The most tasks that one time slot can hold.
    pub max_tasks_per_slot: u32,
    /// The weight granted to each cycle.
    pub max_weight: Weight,
}

/// The scheduler's state: registry, time-slot index, ready queue and cursor.
pub struct Pallet {
    max_tasks_per_slot: u32,
    max_weight: Weight,
    /// Milliseconds since the Unix epoch.
    now: u64,
    /// The registry, one entry per identifier.
    tasks: Vec<(TaskId, Task)>,
    /// The time-slot index, one entry per minute.
    scheduled: Vec<Slot>,
    /// The ready queue, front first.
    queue: Vec<TaskId>,
    /// The cursor.
    last_slot: UnixTime,
    events: Vec<Event>,
}

/// How cancelling the registered task `task_id` takes `pre` to `post`: the
/// identifier leaves the slot of the task's time, or, if that slot has been
/// drained, the ready queue; a `TaskNotFound` event is emitted if it is in
/// neither; the task leaves the registry and a `TaskCancelled` event is emitted.
pub open spec fn removes_task(pre: Pallet, post: Pallet, task_id: TaskId) -> bool {
    let id = task_id@;
    let task = pre.registry()[id];
    let index = pre.index();
    let found = if index.contains_key(task.time) {
        contains_id(index[task.time], id)
    } else {
        contains_id(pre.ready(), id)
    };
    &&& if index.contains_key(task.time) {
        let ids = index[task.time];
        &&& post.ready() == pre.ready()
        &&& if ids.len() == 1 && ids[0]@ == id {
            post.index() == index.remove(task.time)
        } else {
            &&& post.index().contains_key(task.time)
            &&& removed_first(ids, post.index()[task.time], id)
            &&& post.index() == index.insert(task.time, post.index()[task.time])
        }
    } else {
        &&& post.index() == index
        &&& removed_first(pre.ready(), post.ready(), id)
    }
    &&& post.emitted() == pre.emitted() + if found {
        Seq::<Event>::empty()
    } else {
        seq![Event::TaskNotFound { task_id }]
    } + seq![Event::TaskCancelled { who: task.owner_id, task_id }]
    &&& post.registry() == pre.registry().remove(id)
    &&& post.cursor() == pre.cursor()
    &&& post.clock() == pre.clock()
    &&& post.capacity() == pre.capacity()
    &&& post.weight_limit() == pre.weight_limit()
}

/// How a successful scheduling call takes `pre` to `post`: the identifier
/// derived from `who` and `provided_id` is appended to the slot for `time`,
/// the task is registered under it, and a `TaskScheduled` event is emitted.
pub open spec fn schedules(
    pre: Pallet,
    post: Pallet,
    who: AccountId,
    provided_id: Vec<u8>,
    time: UnixTime,
    message: Vec<u8>,
) -> bool {
    let id = task_id_of(who, provided_id@);
    let index = pre.index();
    let t = post.index()[time].last();
    &&& t@ == id
    &&& post.index() == index.insert(
        time,
        if index.contains_key(time) {
            index[time]
        } else {
            Seq::empty()
        }.push(t),
    )
    &&& post.registry() == pre.registry().insert(
        id,
        Task { owner_id: who, provided_id, time, action: Action::Notify { message } },
    )
    &&& post.emitted() == pre.emitted().push(Event::TaskScheduled { who, task_id: t })
    &&& post.ready() == pre.ready()
    &&& post.cursor() == pre.cursor()
    &&& post.clock() == pre.clock()
    &&& post.capacity() == pre.capacity()
    &&& post.weight_limit() == pre.weight_limit()
}

/// The ready queue after the queue update of a cycle run on `pre`: the old
/// queue followed by the identifiers of every slot from the cursor up to the
/// current minute, oldest first.
pub open spec fn due_queue(pre: Pallet) -> Seq<TaskId> {
    let slot = slot_of(pre.clock());
    let last = pre.cursor();
    pre.ready() + drained(pre.index(), last as int, ((slot - last) / 60) as nat)
}

/// How a cycle granted `max_weight` takes `pre` to `post` and reports the
/// weight `r` it used: every slot up to the current minute is drained into
/// the ready queue, the cursor moves to the current minute, and the front of
/// the queue is executed as far as the budget left after the update allows.
pub open spec fn runs_cycle(pre: Pallet, post: Pallet, max_weight: Weight, r: Weight) -> bool {
    let slot = slot_of(pre.clock());
    let last = pre.cursor();
    let due = due_queue(pre);
    let upd = update_weight(last as int, slot);
    let budget = cycle_budget(max_weight as int);
    &&& post.index() == keys_after(pre.index(), slot)
    &&& post.cursor() == slot
    &&& post.clock() == pre.clock()
    &&& post.capacity() == pre.capacity()
    &&& post.weight_limit() == pre.weight_limit()
    &&& if budget < upd + 2 * BASE_WEIGHT {
        &&& r == upd
        &&& post.ready() == due
        &&& post.registry() == pre.registry()
        &&& post.emitted() == pre.emitted()
    } else if due.len() == 0 {
        &&& r == max_weight - (budget - upd)
        &&& post.ready() == due
        &&& post.registry() == pre.registry()
        &&& post.emitted() == pre.emitted()
    } else {
        let k = run_count(budget - upd - BASE_WEIGHT, due.len() as int);
        let done = due.subrange(0, k);
        &&& r == max_weight - (budget - upd - 2 * BASE_WEIGHT - k * MAX_ITERATION_WEIGHT)
        &&& post.ready() == due.subrange(k, due.len() as int)
        &&& post.registry() == pre.registry().remove_keys(ids_view(done).to_set())
        &&& post.emitted() == pre.emitted() + run_events(pre.registry(), done)
    }
}

impl Pallet {
    /// The registry: identifier to task.
    pub closed spec fn registry(&self) -> Map<Seq<u8>, Task> {
        registry_of(self.tasks@)
    }

    /// The time-slot index: minute to the identifiers due then.
    pub closed spec fn index(&self) -> Map<UnixTime, Seq<TaskId>> {
        index_of(self.scheduled@)
    }

    /// The ready queue, front first.
    pub closed spec fn ready(&self) -> Seq<TaskId> {
        self.queue@
    }

    /// The cursor: the last minute merged into the ready queue.
    pub closed spec fn cursor(&self) -> UnixTime {
        self.last_slot
    }

    /// The clock, in milliseconds since the Unix epoch.
    pub closed spec fn clock(&self) -> u64 {
        self.now
    }

    /// Every event emitted so far, oldest first.
    pub closed spec fn emitted(&self) -> Seq<Event> {
        self.events@
    }

    /// The most identifiers that one slot can hold.
    pub closed spec fn capacity(&self) -> nat {
        self.max_tasks_per_slot as nat
    }

    /// The weight granted to each cycle.
    pub closed spec fn weight_limit(&self) -> Weight {
        self.max_weight
    }

    /// Identifiers are unique in the registry and minutes in the index; every
    /// index entry is a non-empty, capacity-bounded list at a whole minute
    /// after the cursor; the cursor is a whole minute not after the clock.
    pub closed spec fn wf(&self) -> bool {
        &&& unique_ids(self.tasks@)
        &&& unique_times(self.scheduled@)
        &&& forall|i: int|
            #![trigger self.scheduled@[i]]
            0 <= i < self.scheduled@.len() ==> {
                let slot = self.scheduled@[i];
                &&& 1 <= slot.task_ids@.len() <= self.max_tasks_per_slot
                &&& slot.time % 60 == 0
                &&& slot.time > self.last_slot
            }
        &&& self.last_slot % 60 == 0
        &&& self.last_slot <= slot_of(self.now)
    }

    /// Every slot of a well-formed scheduler is a whole minute after the
    /// cursor, and the cursor is a whole minute not after the clock.
    pub proof fn lemma_wf_index(&self)
        requires
            self.wf(),
        ensures
            forall|t: UnixTime| #[trigger]
                self.index().contains_key(t) ==> t % 60 == 0 && t > self.cursor(),
            self.cursor() % 60 == 0,
            self.cursor() <= slot_of(self.clock()),
    {
        assert forall|t: UnixTime| #[trigger] self.index().contains_key(t) implies t % 60 == 0 && t
            > self.cursor() by {
            lemma_index_keys(self.scheduled@, t);
        }
    }

    /// An empty scheduler with the settings of `config`.
    pub fn new(config: Config) -> (r: Pallet)
        ensures
            r.wf(),
            r.registry() == Map::<Seq<u8>, Task>::empty(),
            r.index() == Map::<UnixTime, Seq<TaskId>>::empty(),
            r.ready() == Seq::<TaskId>::empty(),
            r.cursor() == 0,
            r.clock() == 0,
            r.emitted() == Seq::<Event>::empty(),
            r.capacity() == config.max_tasks_per_slot,
            r.weight_limit() == config.max_weight,
    {
        Pallet {
            max_tasks_per_slot: config.max_tasks_per_slot,
            max_weight: config.max_weight,
            now: 0,
            tasks: Vec::new(),
            scheduled: Vec::new(),
            queue: Vec::new(),
            last_slot: 0,
            events: Vec::new(),
        }
    }

    /// Moves the clock (milliseconds) forward to `now`; an earlier reading is ignored.
    pub fn set_time(&mut self, now: u64)
        requires
            old(self).wf(),
        ensures
            final(self).wf(),
            final(self).clock() == if now > old(self).clock() { now } else { old(self).clock() },
            final(self).registry() == old(self).registry(),
            final(self).index() == old(self).index(),
            final(self).ready() == old(self).ready(),
            final(self).cursor() == old(self).cursor(),
            final(self).emitted() == old(self).emitted(),
            final(self).capacity() == old(self).capacity(),
            final(self).weight_limit() == old(self).weight_limit(),
    {
        if now > self.now {
            self.now = now;
        }
    }

    /// The minute that the clock falls in, in seconds.
    pub fn get_current_time_slot(&self) -> (r: UnixTime)
        ensures
            r == slot_of(self.clock()),
            r % 60 == 0,
    {
        let now = self.now / 1000;
        let diff_to_min = now % 60;
        now - diff_to_min
    }

    /// Whether `scheduled_time` is a whole minute after the current one.
    pub fn is_valid_time(&self, scheduled_time: UnixTime) -> (r: Result<(), Error>)
        ensures
            r == if scheduled_time % 60 != 0 {
                Err(Error::InvalidTime)
            } else if scheduled_time <= slot_of(self.clock()) {
                Err(Error::PastTime)
            } else {
                Ok(())
            },
    {
        let remainder = scheduled_time % 60;
        if remainder != 0 {
            return Err(Error::InvalidTime);
        }
        let current_time_slot = self.get_current_time_slot();
        if scheduled_time <= current_time_slot {
            return Err(Error::PastTime);
        }
        Ok(())
    }

    /// Position of the task `task_id` in the registry's list.
    fn find_task(&self, task_id: &TaskId) -> (r: Option<usize>)
        requires
            self.wf(),
        ensures
            match r {
                Some(i) => i < self.tasks@.len() && self.tasks@[i as int].0@ == task_id@,
                None => !self.registry().contains_key(task_id@),
            },
    {
        let mut i: usize = 0;
        while i < self.tasks.len()
            invariant
                0 <= i <= self.tasks@.len(),
                forall|j: int| 0 <= j < i ==> self.tasks@[j].0@ != task_id@,
            decreases self.tasks@.len() - i,
        {
            if same_id(&self.tasks[i].0, task_id) {
                return Some(i);
            }
            i = i + 1;
        }
        proof {
            lemma_registry_absent(self.tasks@, task_id@);
        }
        None
    }

    /// Position of the slot for `time` in the index's list.
    fn find_slot(&self, time: UnixTime) -> (r: Option<usize>)
        requires
            self.wf(),
        ensures
            match r {
                Some(i) => i < self.scheduled@.len() && self.scheduled@[i as int].time == time,
                None => !self.index().contains_key(time),
            },
    {
        let mut i: usize = 0;
        while i < self.scheduled.len()
            invariant
                0 <= i <= self.scheduled@.len(),
                forall|j: int| 0 <= j < i ==> self.scheduled@[j].time != time,
            decreases self.scheduled@.len() - i,
        {
            if self.scheduled[i].time == time {
                return Some(i);
            }
            i = i + 1;
        }
        proof {
            lemma_index_absent(self.scheduled@, time);
        }
        None
    }

    /// The task registered under `task_id`.
    pub fn get_task(&self, task_id: &TaskId) -> (r: Option<&Task>)
        requires
            self.wf(),
        ensures
            r == if self.registry().contains_key(task_id@) {
                Some(&self.registry()[task_id@])
            } else {
                None::<&Task>
            },
    {
        match self.find_task(task_id) {
            None => None,
            Some(i) => {
                proof {
                    lemma_registry_index(self.tasks@, i as int);
                }
                Some(&self.tasks[i].1)
            },
        }
    }

    /// Takes the slot at position `i` out of the index's list, leaving an
    /// empty one at `time` in its place.
    fn take_slot(&mut self, i: usize) -> (r: Slot)
        requires
            i < old(self).scheduled@.len(),
        ensures
            r == old(self).scheduled@[i as int],
            final(self).scheduled@ == old(self).scheduled@.update(
                i as int,
                final(self).scheduled@[i as int],
            ),
            final(self).scheduled@[i as int].time == r.time,
            final(self).tasks == old(self).tasks,
            final(self).queue == old(self).queue,
            final(self).events == old(self).events,
            final(self).now == old(self).now,
            final(self).last_slot == old(self).last_slot,
            final(self).max_tasks_per_slot == old(self).max_tasks_per_slot,
            final(self).max_weight == old(self).max_weight,
    {
        let time = self.scheduled[i].time;
        let mut slot = Slot { time, task_ids: Vec::new() };
        self.scheduled.set_and_swap(i, &mut slot);
        slot
    }

    /// Adds `task_id` derived from `owner_id` and `provided_id` to the slot
    /// for `time`, and returns it.
    pub fn schedule_task(&mut self, owner_id: AccountId, provided_id: Vec<u8>, time: u64) -> (r:
        Result<TaskId, Error>)
        requires
            old(self).wf(),
            time % 60 == 0,
            time > slot_of(old(self).clock()),
        ensures
            final(self).wf(),
            ({
                let id = task_id_of(owner_id, provided_id@);
                let index = old(self).index();
                if old(self).registry().contains_key(id) {
                    r == Err::<TaskId, Error>(Error::DuplicateTask) && *final(self) == *old(self)
                } else if slot_len(index, time) >= old(self).capacity() {
                    r == Err::<TaskId, Error>(Error::TimeSlotFull) && *final(self) == *old(self)
                } else {
                    &&& r is Ok
                    &&& r->Ok_0@ == id
                    &&& final(self).index() == index.insert(
                        time,
                        if index.contains_key(time) {
                            index[time]
                        } else {
                            Seq::empty()
                        }.push(r->Ok_0),
                    )
                    &&& final(self).registry() == old(self).registry()
                    &&& final(self).ready() == old(self).ready()
                    &&& final(self).cursor() == old(self).cursor()
                    &&& final(self).clock() == old(self).clock()
                    &&& final(self).emitted() == old(self).emitted()
                    &&& final(self).capacity() == old(self).capacity()
                    &&& final(self).weight_limit() == old(self).weight_limit()
                }
            }),
    {
        let task_hash_input = TaskHashInput::create_hash_input(owner_id, provided_id);
        let task_id = hash_of(&task_hash_input);
        if let Some(i) = self.find_task(&task_id) {
            proof {
                lemma_registry_index(self.tasks@, i as int);
            }
            return Err(Error::DuplicateTask);
        }
        match self.find_slot(time) {
            None => {
                let mut task_ids: Vec<TaskId> = Vec::new();
                task_ids.push(task_id);
                if self.max_tasks_per_slot == 0 {
                    return Err(Error::TimeSlotFull);
                }
                proof {
                    assert forall|j: int| 0 <= j < old(self).scheduled@.len() implies old(
                        self,
                    ).scheduled@[j].time != time by {
                        lemma_index_index(old(self).scheduled@, j);
                    }
                }
                self.scheduled.push(Slot { time, task_ids });
                proof {
                    assert forall|j: int| 0 <= j < self.scheduled@.len() implies {
                        let slot = #[trigger] self.scheduled@[j];
                        &&& 1 <= slot.task_ids@.len() <= self.max_tasks_per_slot
                        &&& slot.time % 60 == 0
                        &&& slot.time > self.last_slot
                    } by {
                        if j < old(self).scheduled@.len() {
                            assert(self.scheduled@[j] == old(self).scheduled@[j]);
                        }
                    }
                    assert(self.scheduled@.drop_last() == old(self).scheduled@);
                    assert(self.scheduled@.last().task_ids@ =~= Seq::<TaskId>::empty().push(task_id));
                }
            },
            Some(i) => {
                proof {
                    lemma_index_index(self.scheduled@, i as int);
                }
                if self.scheduled[i].task_ids.len() >= self.max_tasks_per_slot as usize {
                    return Err(Error::TimeSlotFull);
                }
                let mut slot = self.take_slot(i);
                slot.task_ids.push(task_id);
                self.scheduled.set(i, slot);
                proof {
                    lemma_index_update(old(self).scheduled@, i as int, slot);
                    assert(self.scheduled@ == old(self).scheduled@.update(i as int, slot));
                    assert forall|j: int| 0 <= j < self.scheduled@.len() implies {
                        let slot = #[trigger] self.scheduled@[j];
                        &&& 1 <= slot.task_ids@.len() <= self.max_tasks_per_slot
                        &&& slot.time % 60 == 0
                        &&& slot.time > self.last_slot
                    } by {
                        if j != i {
                            assert(self.scheduled@[j] == old(self).scheduled@[j]);
                        }
                    }
                }
            },
        }
        Ok(task_id)
    }

    /// Why scheduling `provided_id` at `time` with `message` is refused, if it is.
    pub open spec fn schedule_error(
        &self,
        who: AccountId,
        provided_id: Seq<u8>,
        time: UnixTime,
        message: Seq<u8>,
    ) -> Option<Error> {
        if provided_id.len() == 0 {
            Some(Error::EmptyProvidedId)
        } else if message.len() == 0 {
            Some(Error::EmptyMessage)
        } else if time % 60 != 0 {
            Some(Error::InvalidTime)
        } else if time <= slot_of(self.clock()) {
            Some(Error::PastTime)
        } else if self.registry().contains_key(task_id_of(who, provided_id)) {
            Some(Error::DuplicateTask)
        } else if slot_len(self.index(), time) >= self.capacity() {
            Some(Error::TimeSlotFull)
        } else {
            None
        }
    }

    /// Schedules a task for `who` that emits `message` at the minute `time`.
    ///
    /// On success the task is registered under the identifier derived from
    /// `who` and `provided_id`, which is appended to the slot for `time`, and
    /// a `TaskScheduled` event is emitted; the identifier is returned. On
    /// failure nothing changes.
    pub fn schedule_notify_task(
        &mut self,
        who: AccountId,
        provided_id: Vec<u8>,
        time: UnixTime,
        message: Vec<u8>,
    ) -> (r: Result<TaskId, Error>)
        requires
            old(self).wf(),
        ensures
            final(self).wf(),
            ({
                match old(self).schedule_error(who, provided_id@, time, message@) {
                    Some(e) => r == Err::<TaskId, Error>(e) && *final(self) == *old(self),
                    None => r is Ok && r->Ok_0 == final(self).index()[time].last() && schedules(
                        *old(self),
                        *final(self),
                        who,
                        provided_id,
                        time,
                        message,
                    ),
                }
            }),
    {
        if provided_id.len() == 0 {
            return Err(Error::EmptyProvidedId);
        }
        if message.len() == 0 {
            return Err(Error::EmptyMessage);
        }
        let valid = self.is_valid_time(time);
        if let Err(e) = valid {
            return Err(e);
        }
        let id_source = provided_id.clone();
        proof {
            assert(id_source@ =~= provided_id@);
        }
        let task_id = match self.schedule_task(who, id_source, time) {
            Ok(id) => id,
            Err(e) => {
                return Err(e);
            },
        };
        let ghost mid = *self;
        let task = Task::create_event_task(who, provided_id, time, message);
        proof {
            assert forall|j: int| 0 <= j < self.tasks@.len() implies self.tasks@[j].0@ != task_id@ by {
                lemma_registry_index(self.tasks@, j);
            }
        }
        self.tasks.push((task_id, task));
        proof {
            assert(self.tasks@.drop_last() == mid.tasks@);
        }
        self.events.push(Event::TaskScheduled { who, task_id });
        Ok(task_id)
    }

    /// Removes the task at position `i` of the registry's list from the
    /// registry and from the slot or queue that holds its identifier.
    fn remove_task(&mut self, i: usize)
        requires
            old(self).wf(),
            i < old(self).tasks@.len(),
        ensures
            final(self).wf(),
            old(self).registry().contains_key(old(self).tasks@[i as int].0@),
            removes_task(*old(self), *final(self), old(self).tasks@[i as int].0),
    {
        proof {
            lemma_registry_index(self.tasks@, i as int);
            lemma_registry_remove(self.tasks@, i as int);
        }
        let (task_id, task) = self.tasks.remove(i);
        let ghost after_registry = *self;
        let mut found_task: bool = false;
        match self.find_slot(task.time) {
            None => {
                match position(&self.queue, &task_id) {
                    None => {},
                    Some(j) => {
                        self.queue.remove(j);
                        found_task = true;
                        proof {
                            assert(contains_id(after_registry.queue@, task_id@));
                            assert(removed_first(after_registry.queue@, self.queue@, task_id@));
                        }
                    },
                }
            },
            Some(si) => {
                proof {
                    lemma_index_index(self.scheduled@, si as int);
                }
                match position(&self.scheduled[si].task_ids, &task_id) {
                    None => {},
                    Some(j) => {
                        if self.scheduled[si].task_ids.len() == 1 {
                            proof {
                                lemma_index_remove(self.scheduled@, si as int);
                            }
                            self.scheduled.remove(si);
                            proof {
                                assert(after_registry.index()[task.time][0]@ == task_id@);
                                assert forall|k: int| 0 <= k < self.scheduled@.len() implies {
                                    let slot = #[trigger] self.scheduled@[k];
                                    &&& 1 <= slot.task_ids@.len() <= self.max_tasks_per_slot
                                    &&& slot.time % 60 == 0
                                    &&& slot.time > self.last_slot
                                } by {
                                    if k < si {
                                        assert(self.scheduled@[k] == after_registry.scheduled@[k]);
                                    } else {
                                        assert(self.scheduled@[k] == after_registry.scheduled@[k + 1]);
                                    }
                                }
                            }
                        } else {
                            let mut slot = self.take_slot(si);
                            slot.task_ids.remove(j);
                            proof {
                                lemma_index_update(after_registry.scheduled@, si as int, slot);
                                assert(contains_id(after_registry.index()[task.time], task_id@));
                                assert(removed_first(
                                    after_registry.index()[task.time],
                                    slot.task_ids@,
                                    task_id@,
                                ));
                            }
                            self.scheduled.set(si, slot);
                            proof {
                                assert(self.scheduled@ == after_registry.scheduled@.update(si as int, slot));
                                assert forall|k: int| 0 <= k < self.scheduled@.len() implies {
                                    let slot = #[trigger] self.scheduled@[k];
                                    &&& 1 <= slot.task_ids@.len() <= self.max_tasks_per_slot
                                    &&& slot.time % 60 == 0
                                    &&& slot.time > self.last_slot
                                } by {
                                    if k != si {
                                        assert(self.scheduled@[k] == after_registry.scheduled@[k]);
                                    }
                                }
                                lemma_index_index(self.scheduled@, si as int);
                            }
                        }
                        found_task = true;
                    },
                }
            },
        }
        let ghost mid_events = self.events@;
        if !found_task {
            self.events.push(Event::TaskNotFound { task_id });
        }
        self.events.push(Event::TaskCancelled { who: task.owner_id, task_id });
        proof {
            let found = if after_registry.index().contains_key(task.time) {
                contains_id(after_registry.index()[task.time], task_id@)
            } else {
                contains_id(after_registry.queue@, task_id@)
            };
            assert(found == found_task);
            assert(mid_events == old(self).events@);
            assert(self.events@ =~= old(self).events@ + if found {
                Seq::<Event>::empty()
            } else {
                seq![Event::TaskNotFound { task_id }]
            } + seq![Event::TaskCancelled { who: task.owner_id, task_id }]);
            let pre = *old(self);
            let post = *self;
            assert(pre.registry()[task_id@] == task);
            assert(post.registry() == pre.registry().remove(task_id@));
            assert(post.cursor() == pre.cursor());
            assert(post.clock() == pre.clock());
            assert(post.capacity() == pre.capacity());
            assert(post.emitted() == pre.emitted() + if found {
                Seq::<Event>::empty()
            } else {
                seq![Event::TaskNotFound { task_id }]
            } + seq![Event::TaskCancelled { who: task.owner_id, task_id }]);
            if pre.index().contains_key(task.time) {
                assert(post.ready() == pre.ready());
                let ids = pre.index()[task.time];
                if ids.len() == 1 && ids[0]@ == task_id@ {
                    assert(post.index() == pre.index().remove(task.time));
                } else {
                    assert(post.index().contains_key(task.time));
                    assert(removed_first(ids, post.index()[task.time], task_id@));
                    assert(post.index() == pre.index().insert(task.time, post.index()[task.time]));
                }
            } else {
                assert(post.index() == pre.index());
                assert(removed_first(pre.ready(), post.ready(), task_id@));
            }
        }
    }

    /// Cancels the task `task_id` on behalf of its owner `who`.
    pub fn cancel_task(&mut self, who: AccountId, task_id: TaskId) -> (r: Result<(), Error>)
        requires
            old(self).wf(),
        ensures
            final(self).wf(),
            if !old(self).registry().contains_key(task_id@) {
                r == Err::<(), Error>(Error::TaskDoesNotExist) && *final(self) == *old(self)
            } else if old(self).registry()[task_id@].owner_id != who {
                r == Err::<(), Error>(Error::NotTaskOwner) && *final(self) == *old(self)
            } else {
                r is Ok && removes_task(*old(self), *final(self), task_id)
            },
    {
        match self.find_task(&task_id) {
            None => Err(Error::TaskDoesNotExist),
            Some(i) => {
                proof {
                    lemma_registry_index(self.tasks@, i as int);
                }
                if who != self.tasks[i].1.owner_id {
                    return Err(Error::NotTaskOwner);
                }
                assert(self.tasks@[i as int].0 =~= task_id);
                self.remove_task(i);
                Ok(())
            },
        }
    }

    /// Cancels the task `task_id` whoever owns it.
    pub fn force_cancel_task(&mut self, task_id: TaskId) -> (r: Result<(), Error>)
        requires
            old(self).wf(),
        ensures
            final(self).wf(),
            if !old(self).registry().contains_key(task_id@) {
                r == Err::<(), Error>(Error::TaskDoesNotExist) && *final(self) == *old(self)
            } else {
                r is Ok && removes_task(*old(self), *final(self), task_id)
            },
    {
        match self.find_task(&task_id) {
            None => Err(Error::TaskDoesNotExist),
            Some(i) => {
                assert(self.tasks@[i as int].0 =~= task_id);
                self.remove_task(i);
                Ok(())
            },
        }
    }

    /// Appends to `task_queue` the identifiers of the `diff` minutes after
    /// `last_time_slot`, oldest first, removing those slots from the index.
    /// Returns the weight of the work and the extended queue.
    fn append_to_task_queue(
        &mut self,
        mut task_queue: Vec<TaskId>,
        last_time_slot: UnixTime,
        diff: u64,
    ) -> (r: (Weight, Vec<TaskId>))
        requires
            old(self).wf(),
            last_time_slot + 60 * diff <= u64::MAX,
        ensures
            final(self).wf(),
            r.0 == drain_weight(diff as int),
            r.1@ == task_queue@ + drained(old(self).index(), last_time_slot as int, diff as nat),
            final(self).index() == without_minutes(
                old(self).index(),
                last_time_slot as int,
                diff as int,
            ),
            final(self).tasks == old(self).tasks,
            final(self).queue == old(self).queue,
            final(self).events == old(self).events,
            final(self).now == old(self).now,
            final(self).last_slot == old(self).last_slot,
            final(self).max_tasks_per_slot == old(self).max_tasks_per_slot,
            final(self).max_weight == old(self).max_weight,
    {
        let ghost index0 = self.index();
        let ghost queue0 = task_queue@;
        let ghost last = last_time_slot as int;
        proof {
            assert(self.index() =~= without_minutes(index0, last, 0));
        }
        let mut i: u64 = 0;
        while i < diff
            invariant
                self.wf(),
                0 <= i <= diff,
                last == last_time_slot as int,
                last_time_slot + 60 * diff <= u64::MAX,
                self.index() == without_minutes(index0, last, i as int),
                task_queue@ == queue0 + drained(index0, last, i as nat),
                self.tasks == old(self).tasks,
                self.queue == old(self).queue,
                self.events == old(self).events,
                self.now == old(self).now,
                self.last_slot == old(self).last_slot,
                self.max_tasks_per_slot == old(self).max_tasks_per_slot,
                self.max_weight == old(self).max_weight,
            decreases diff - i,
        {
            let new_time_slot = last_time_slot + 60 * (i + 1);
            let ghost before = *self;
            proof {
                assert(new_time_slot as int - last == 60 * (i as int + 1));
                assert((60 * (i as int + 1)) % 60 == 0) by (nonlinear_arith);
                assert(in_minutes(new_time_slot as int, last, i + 1));
                assert(!in_minutes(new_time_slot as int, last, i as int));
                assert forall|t: UnixTime|
                    in_minutes(t as int, last, i + 1) <==> (in_minutes(t as int, last, i as int) || t
                        == new_time_slot) by {
                    if last < t <= last + 60 * (i + 1) && (t - last) % 60 == 0 && t - last > 60 * i {
                        lemma_next_minute(t - last, i as int);
                    }
                }
                assert(without_minutes(index0, last, i as int).remove(new_time_slot)
                    =~= without_minutes(index0, last, i + 1));
                assert(self.index().contains_key(new_time_slot) == index0.contains_key(new_time_slot));
            }
            match self.find_slot(new_time_slot) {
                Some(si) => {
                    proof {
                        lemma_index_index(self.scheduled@, si as int);
                        lemma_index_remove(self.scheduled@, si as int);
                    }
                    let mut slot = self.scheduled.remove(si);
                    task_queue.append(&mut slot.task_ids);
                    proof {
                        assert forall|k: int| 0 <= k < self.scheduled@.len() implies {
                            let slot = #[trigger] self.scheduled@[k];
                            &&& 1 <= slot.task_ids@.len() <= self.max_tasks_per_slot
                            &&& slot.time % 60 == 0
                            &&& slot.time > self.last_slot
                        } by {
                            if k < si {
                                assert(self.scheduled@[k] == before.scheduled@[k]);
                            } else {
                                assert(self.scheduled@[k] == before.scheduled@[k + 1]);
                            }
                        }
                        assert(task_queue@ =~= queue0 + drained(index0, last, (i + 1) as nat));
                    }
                },
                None => {
                    proof {
                        assert(self.index().remove(new_time_slot) =~= self.index());
                        assert(task_queue@ =~= queue0 + drained(index0, last, (i + 1) as nat));
                    }
                },
            }
            i = i + 1;
        }
        let cost = if diff <= u64::MAX / MINUTE_WEIGHT {
            diff * MINUTE_WEIGHT
        } else {
            u64::MAX
        };
        (cost, task_queue)
    }

    /// Moves the identifiers of every slot from the cursor up to the current
    /// minute into the ready queue, oldest first, and advances the cursor to
    /// the current minute. Returns the weight of the work.
    fn update_task_queue(&mut self) -> (r: Weight)
        requires
            old(self).wf(),
        ensures
            final(self).wf(),
            ({
                let slot = slot_of(old(self).clock());
                let last = old(self).cursor();
                let diff = (slot - last) / 60;
                &&& r == update_weight(last as int, slot)
                &&& final(self).ready() == old(self).ready() + drained(
                    old(self).index(),
                    last as int,
                    diff as nat,
                )
                &&& final(self).index() == keys_after(old(self).index(), slot)
                &&& final(self).cursor() == slot
            }),
            final(self).registry() == old(self).registry(),
            final(self).tasks == old(self).tasks,
            final(self).events == old(self).events,
            final(self).now == old(self).now,
            final(self).max_tasks_per_slot == old(self).max_tasks_per_slot,
            final(self).max_weight == old(self).max_weight,
    {
        let base_weight = BASE_WEIGHT;
        let mut total_weight = base_weight;
        let time_slot = self.get_current_time_slot();
        let last_time_slot = self.last_slot;
        if time_slot != last_time_slot {
            let mut task_queue: Vec<TaskId> = Vec::new();
            core::mem::swap(&mut self.queue, &mut task_queue);
            let diff = (time_slot - last_time_slot) / 60;
            proof {
                assert(last_time_slot + 60 * diff == time_slot);
                assert(slot_of(self.now) <= u64::MAX / 1000);
            }
            let (append_weight, updated_task_queue) = self.append_to_task_queue(
                task_queue,
                last_time_slot,
                diff,
            );
            self.queue = updated_task_queue;
            total_weight = total_weight + append_weight + BASE_WEIGHT;
            proof {
                let index0 = old(self).index();
                assert forall|t: UnixTime| #[trigger] index0.contains_key(t) implies (in_minutes(
                    t as int,
                    last_time_slot as int,
                    diff as int,
                ) <==> t > time_slot) == false by {
                    lemma_index_keys(old(self).scheduled@, t);
                }
                assert(self.index() =~= keys_after(index0, time_slot as int));
            }
        } else {
            proof {
                assert(self.index() =~= keys_after(self.index(), time_slot as int)) by {
                    assert forall|t: UnixTime| #[trigger] self.index().contains_key(t) implies t
                        > time_slot by {
                        lemma_index_keys(self.scheduled@, t);
                    }
                }
                assert(self.queue@ =~= self.queue@ + drained(self.index(), last_time_slot as int, 0));
            }
        }
        self.last_slot = time_slot;
        proof {
            assert forall|k: int| 0 <= k < self.scheduled@.len() implies #[trigger] self.scheduled@[k].time > self.last_slot by {
                lemma_index_index(self.scheduled@, k);
            }
        }
        total_weight
    }




    /// Emits the notification of a notify action and returns its weight.
    fn run_notify_task(&mut self, message: Vec<u8>) -> (r: Weight)
        ensures
            r == NOTIFY_WEIGHT,
            final(self).events@ == old(self).events@.push(Event::Notify { message }),
            final(self).tasks == old(self).tasks,
            final(self).scheduled == old(self).scheduled,
            final(self).queue == old(self).queue,
            final(self).now == old(self).now,
            final(self).last_slot == old(self).last_slot,
            final(self).max_tasks_per_slot == old(self).max_tasks_per_slot,
            final(self).max_weight == old(self).max_weight,
    {
        self.events.push(Event::Notify { message });
        NOTIFY_WEIGHT
    }

    /// Runs the tasks of `task_ids` from the front for as long as
    /// `weight_left` covers the worst case of one more step. Each identifier
    /// taken on is dropped: its task runs and leaves the registry, or a
    /// `TaskNotFound` event is emitted. Returns the identifiers not taken on,
    /// in order, and the weight left.
    pub fn run_tasks(&mut self, mut task_ids: Vec<TaskId>, weight_left: Weight) -> (r: (
        Vec<TaskId>,
        Weight,
    ))
        requires
            old(self).wf(),
        ensures
            final(self).wf(),
            ({
                let k = run_count(weight_left as int, task_ids@.len() as int);
                let done = task_ids@.subrange(0, k);
                &&& r.0@ == task_ids@.subrange(k, task_ids@.len() as int)
                &&& r.1 == run_budget(weight_left as int) - k * MAX_ITERATION_WEIGHT
                &&& final(self).registry() == old(self).registry().remove_keys(
                    ids_view(done).to_set(),
                )
                &&& final(self).emitted() == old(self).emitted() + run_events(
                    old(self).registry(),
                    done,
                )
            }),
            final(self).index() == old(self).index(),
            final(self).ready() == old(self).ready(),
            final(self).cursor() == old(self).cursor(),
            final(self).clock() == old(self).clock(),
            final(self).capacity() == old(self).capacity(),
            final(self).weight_limit() == old(self).weight_limit(),
            weight_left < BASE_WEIGHT + MAX_ITERATION_WEIGHT ==> {
                &&& r.0@ == task_ids@
                &&& final(self).registry() == old(self).registry()
                &&& final(self).emitted() == old(self).emitted()
            },
    {
        let ghost w0 = weight_left;
        let mut weight_left = if weight_left >= BASE_WEIGHT {
            weight_left - BASE_WEIGHT
        } else {
            0
        };
        let ghost reg0 = self.registry();
        let ghost ev0 = self.events@;
        let ghost k = run_count(w0 as int, task_ids@.len() as int);
        let mut consumed_task_index: usize = 0;
        proof {
            assert(ids_view(task_ids@.subrange(0, 0)).to_set() =~= Set::<Seq<u8>>::empty());
            assert(reg0.remove_keys(Set::<Seq<u8>>::empty()) =~= reg0);
            assert(ev0 + run_events(reg0, task_ids@.subrange(0, 0)) =~= ev0);
        }
        while consumed_task_index < task_ids.len() && weight_left >= MAX_ITERATION_WEIGHT
            invariant
                self.wf(),
                0 <= consumed_task_index <= k,
                k == run_count(w0 as int, task_ids@.len() as int),
                weight_left == run_budget(w0 as int) - consumed_task_index * MAX_ITERATION_WEIGHT,
                self.registry() == reg0.remove_keys(
                    ids_view(task_ids@.subrange(0, consumed_task_index as int)).to_set(),
                ),
                self.events@ == ev0 + run_events(
                    reg0,
                    task_ids@.subrange(0, consumed_task_index as int),
                ),
                self.scheduled == old(self).scheduled,
                self.queue == old(self).queue,
                self.now == old(self).now,
                self.last_slot == old(self).last_slot,
                self.max_tasks_per_slot == old(self).max_tasks_per_slot,
                self.max_weight == old(self).max_weight,
            decreases task_ids@.len() - consumed_task_index,
        {
            let task_id = task_ids[consumed_task_index];
            let ghost i = consumed_task_index as int;
            let ghost before = *self;
            proof {
                let next = task_ids@.subrange(0, i + 1);
                assert(next.drop_last() =~= task_ids@.subrange(0, i));
                assert(next.last() == task_id);
                assert(ids_view(next).to_set() =~= ids_view(task_ids@.subrange(0, i)).to_set().insert(
                    task_id@,
                )) by {
                    assert(ids_view(next) =~= ids_view(task_ids@.subrange(0, i)).push(task_id@));
                    ids_view(task_ids@.subrange(0, i)).lemma_push_to_set_commute(task_id@);
                }
                assert(self.registry().remove(task_id@) =~= reg0.remove_keys(
                    ids_view(next).to_set(),
                ));
            }
            let action_weight = match self.find_task(&task_id) {
                None => {
                    self.events.push(Event::TaskNotFound { task_id });
                    proof {
                        assert(self.events@ =~= ev0 + run_events(reg0, task_ids@.subrange(0, i + 1)));
                        assert(before.registry().remove(task_id@) =~= before.registry());
                    }
                    NOT_FOUND_WEIGHT
                },
                Some(ti) => {
                    proof {
                        lemma_registry_index(self.tasks@, ti as int);
                        lemma_registry_remove(self.tasks@, ti as int);
                    }
                    let (_, task) = self.tasks.remove(ti);
                    match task.action {
                        Action::Notify { message } => {
                            let w = self.run_notify_task(message);
                            proof {
                                assert(self.events@ =~= ev0 + run_events(
                                    reg0,
                                    task_ids@.subrange(0, i + 1),
                                ));
                            }
                            w
                        },
                    }
                },
            };
            weight_left = weight_left - action_weight - ITERATION_WEIGHT;
            consumed_task_index = consumed_task_index + 1;
        }
        let tasks_left = task_ids.split_off(consumed_task_index);
        proof {
            if w0 < BASE_WEIGHT + MAX_ITERATION_WEIGHT {
                assert(consumed_task_index == 0);
                assert(task_ids@.subrange(0, task_ids@.len() as int) =~= task_ids@);
            }
        }
        (tasks_left, weight_left)
    }

    /// One cycle: updates the ready queue, then runs ready tasks within
    /// `max_weight`. Returns the weight used.
    pub fn trigger_tasks(&mut self, max_weight: Weight) -> (r: Weight)
        requires
            old(self).wf(),
        ensures
            final(self).wf(),
            runs_cycle(*old(self), *final(self), max_weight, r),
    {
        let mut weight_left: Weight = if max_weight >= CYCLE_BASE_WEIGHT {
            max_weight - CYCLE_BASE_WEIGHT
        } else {
            0
        };
        // The queue is brought up to date whatever it costs: a slot left
        // behind would never reach the queue.
        let update_weight = self.update_task_queue();
        if weight_left < update_weight + 2 * BASE_WEIGHT {
            return update_weight;
        }
        weight_left = weight_left - update_weight;
        if self.queue.len() > 0 {
            weight_left = weight_left - BASE_WEIGHT;
            let mut task_queue: Vec<TaskId> = Vec::new();
            core::mem::swap(&mut self.queue, &mut task_queue);
            let (tasks_left, new_weight_left) = self.run_tasks(task_queue, weight_left);
            self.queue = tasks_left;
            weight_left = new_weight_left;
        }
        max_weight - weight_left
    }

    /// The cycle run at the start of each block: runs `trigger_tasks` with
    /// the configured weight and reports that weight as used.
    pub fn on_initialize(&mut self) -> (r: Weight)
        requires
            old(self).wf(),
        ensures
            final(self).wf(),
            r == old(self).weight_limit(),
            exists|used: Weight| runs_cycle(*old(self), *final(self), old(self).weight_limit(), used),
    {
        let max_weight = self.max_weight;
        let _used = self.trigger_tasks(max_weight);
        max_weight
    }

    /// The identifiers in the slot for `time`.
    pub fn get_scheduled_tasks(&self, time: UnixTime) -> (r: Option<&Vec<TaskId>>)
        requires
            self.wf(),
        ensures
            match r {
                Some(ids) => self.index().contains_key(time) && ids@ == self.index()[time],
                None => !self.index().contains_key(time),
            },
    {
        match self.find_slot(time) {
            None => None,
            Some(i) => {
                proof {
                    lemma_index_index(self.scheduled@, i as int);
                }
                Some(&self.scheduled[i].task_ids)
            },
        }
    }

    /// The ready queue.
    pub fn get_task_queue(&self) -> (r: &Vec<TaskId>)
        ensures
            r@ == self.ready(),
    {
        &self.queue
    }

    /// The cursor: the last minute merged into the ready queue.
    pub fn get_last_slot(&self) -> (r: UnixTime)
        ensures
            r == self.cursor(),
    {
        self.last_slot
    }

    /// The clock, in milliseconds.
    pub fn get_time(&self) -> (r: u64)
        ensures
            r == self.clock(),
    {
        self.now
    }

    /// The events emitted so far, oldest first.
    pub fn get_events(&self) -> (r: &Vec<Event>)
        ensures
            r@ == self.emitted(),
    {
        &self.events
    }

    /// The number of registered tasks.
    pub fn task_count(&self) -> (r: usize)
        requires
            self.wf(),
        ensures
            r == self.registry().len(),
    {
        proof {
            lemma_registry_len(self.tasks@);
        }
        self.tasks.len()
    }
}

/// Position of the first occurrence of `id` in `ids`.
fn position(ids: &Vec<TaskId>, id: &TaskId) -> (r: Option<usize>)
    ensures
        match r {
            Some(i) => i < ids@.len() && ids@[i as int]@ == id@ && forall|j: int|
                0 <= j < i ==> ids@[j]@ != id@,
            None => !contains_id(ids@, id@),
        },
{
    let mut i: usize = 0;
    while i < ids.len()
        invariant
            0 <= i <= ids@.len(),
            forall|j: int| 0 <= j < i ==> ids@[j]@ != id@,
        decreases ids@.len() - i,
    {
        if same_id(&ids[i], id) {
            return Some(i);
        }
        i = i + 1;
    }
    None
}

} // verus!
