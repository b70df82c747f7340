//! The mathematical model of the scheduler's containers and of its work.

use vstd::prelude::*;

use crate::task::{Action, Event, Task, TaskId, UnixTime};
use crate::weights::{BASE_WEIGHT, CYCLE_BASE_WEIGHT, MAX_ITERATION_WEIGHT, MINUTE_WEIGHT};

verus! {

/// The tasks due at one minute.
pub struct Slot {
    pub time: UnixTime,
    pub task_ids: Vec<TaskId>,
}

/// The registry held by a list of (identifier, task) pairs.
pub open spec fn registry_of(s: Seq<(TaskId, Task)>) -> Map<Seq<u8>, Task>
    decreases s.len(),
{
    if s.len() == 0 {
        Map::empty()
    } else {
        registry_of(s.drop_last()).insert(s.last().0@, s.last().1)
    }
}

/// The time-slot index held by a list of slots.
pub open spec fn index_of(s: Seq<Slot>) -> Map<UnixTime, Seq<TaskId>>
    decreases s.len(),
{
    if s.len() == 0 {
        Map::empty()
    } else {
        index_of(s.drop_last()).insert(s.last().time, s.last().task_ids@)
    }
}

pub open spec fn unique_ids(s: Seq<(TaskId, Task)>) -> bool {
    forall|i: int, j: int| 0 <= i < j < s.len() ==> s[i].0@ != s[j].0@
}

pub open spec fn unique_times(s: Seq<Slot>) -> bool {
    forall|i: int, j: int| 0 <= i < j < s.len() ==> s[i].time != s[j].time
}

/// The minute that the clock reading `now` (milliseconds) falls in, in seconds.
pub open spec fn slot_of(now: u64) -> int {
    let secs = now as int / 1000;
    secs - secs % 60
}

/// Identifiers as byte strings.
pub open spec fn ids_view(s: Seq<TaskId>) -> Seq<Seq<u8>> {
    s.map_values(|x: TaskId| x@)
}

/// Whether `s` holds the identifier `id`.
pub open spec fn contains_id(s: Seq<TaskId>, id: Seq<u8>) -> bool {
    exists|j: int| 0 <= j < s.len() && s[j]@ == id
}

/// `new` is `old` without the first occurrence of `id`, if there is one.
pub open spec fn removed_first(old: Seq<TaskId>, new: Seq<TaskId>, id: Seq<u8>) -> bool {
    if contains_id(old, id) {
        exists|i: int|
            0 <= i < old.len() && old[i]@ == id && (forall|j: int| 0 <= j < i ==> old[j]@ != id)
                && new == old.remove(i)
    } else {
        new == old
    }
}

/// The identifiers that draining the `k` minutes after `last` moves into the
/// ready queue, oldest minute first.
pub open spec fn drained(index: Map<UnixTime, Seq<TaskId>>, last: int, k: nat) -> Seq<TaskId>
    decreases k,
{
    if k == 0 {
        Seq::empty()
    } else {
        let t = last + 60 * k;
        let prev = drained(index, last, (k - 1) as nat);
        if 0 <= t <= u64::MAX && index.contains_key(t as u64) {
            prev + index[t as u64]
        } else {
            prev
        }
    }
}

/// The entries of `index` at minutes after `bound`.
pub open spec fn keys_after(index: Map<UnixTime, Seq<TaskId>>, bound: int) -> Map<UnixTime, Seq<TaskId>> {
    index.restrict(Set::new(|t: UnixTime| t > bound))
}

/// Whether `t` is one of the `k` whole minutes after `last`.
pub open spec fn in_minutes(t: int, last: int, k: int) -> bool {
    last < t <= last + 60 * k && (t - last) % 60 == 0
}

/// `index` without the entries of the `k` whole minutes after `last`.
pub open spec fn without_minutes(index: Map<UnixTime, Seq<TaskId>>, last: int, k: int) -> Map<
    UnixTime,
    Seq<TaskId>,
> {
    index.restrict(Set::new(|t: UnixTime| !in_minutes(t as int, last, k)))
}

/// The weight of draining `diff` minutes, capped at the largest weight.
pub open spec fn drain_weight(diff: int) -> int {
    if diff * MINUTE_WEIGHT <= u64::MAX {
        diff * MINUTE_WEIGHT
    } else {
        u64::MAX as int
    }
}

/// The notifications that executing `ids` in order against `registry` emits.
pub open spec fn run_events(registry: Map<Seq<u8>, Task>, ids: Seq<TaskId>) -> Seq<Event>
    decreases ids.len(),
{
    if ids.len() == 0 {
        Seq::empty()
    } else {
        let before = ids.drop_last();
        let id = ids.last();
        let left = registry.remove_keys(ids_view(before).to_set());
        run_events(registry, before) + if left.contains_key(id@) {
            match left[id@].action {
                Action::Notify { message } => seq![Event::Notify { message }],
            }
        } else {
            seq![Event::TaskNotFound { task_id: id }]
        }
    }
}

/// How many identifiers the index holds for `time`.
pub open spec fn slot_len(index: Map<UnixTime, Seq<TaskId>>, time: UnixTime) -> nat {
    if index.contains_key(time) {
        index[time].len()
    } else {
        0
    }
}

/// The weight of a queue update that moves the cursor from `last` to `slot`.
pub open spec fn update_weight(last: int, slot: int) -> int {
    if slot != last {
        2 * BASE_WEIGHT + (slot - last) / 60 * MINUTE_WEIGHT
    } else {
        BASE_WEIGHT as int
    }
}

/// What a cycle granted `max_weight` has left after its fixed overhead.
pub open spec fn cycle_budget(max_weight: int) -> int {
    if max_weight >= CYCLE_BASE_WEIGHT {
        max_weight - CYCLE_BASE_WEIGHT
    } else {
        0
    }
}

/// How many ready identifiers the executor takes on with `weight_left`.
pub open spec fn run_count(weight_left: int, len: int) -> int {
    let k = run_budget(weight_left) / (MAX_ITERATION_WEIGHT as int);
    if k < len { k } else { len }
}

/// What the executor has left for its steps after its fixed overhead.
pub open spec fn run_budget(weight_left: int) -> int {
    if weight_left >= BASE_WEIGHT {
        weight_left - BASE_WEIGHT
    } else {
        0
    }
}

/// A multiple of 60 above `60 * i` and at most `60 * (i + 1)` is `60 * (i + 1)`.
pub(crate) proof fn lemma_next_minute(d: int, i: int)
    requires
        d % 60 == 0,
        60 * i < d <= 60 * i + 60,
    ensures
        d == 60 * (i + 1),
{
    let q = d / 60;
    assert(d == 60 * q);
    assert(i < q <= i + 1);
}

pub(crate) proof fn lemma_registry_index(s: Seq<(TaskId, Task)>, i: int)
    requires
        unique_ids(s),
        0 <= i < s.len(),
    ensures
        registry_of(s).contains_key(s[i].0@),
        registry_of(s)[s[i].0@] == s[i].1,
    decreases s.len(),
{
    if i < s.len() - 1 {
        lemma_registry_index(s.drop_last(), i);
    }
}

pub(crate) proof fn lemma_registry_len(s: Seq<(TaskId, Task)>)
    requires
        unique_ids(s),
    ensures
        registry_of(s).len() == s.len(),
        registry_of(s).dom().finite(),
    decreases s.len(),
{
    if s.len() > 0 {
        let t = s.drop_last();
        lemma_registry_len(t);
        assert forall|j: int| 0 <= j < t.len() implies t[j].0@ != s.last().0@ by {
            assert(t[j] == s[j]);
        }
        lemma_registry_absent(t, s.last().0@);
    }
}

pub(crate) proof fn lemma_registry_absent(s: Seq<(TaskId, Task)>, id: Seq<u8>)
    requires
        forall|j: int| 0 <= j < s.len() ==> s[j].0@ != id,
    ensures
        !registry_of(s).contains_key(id),
    decreases s.len(),
{
    if s.len() > 0 {
        lemma_registry_absent(s.drop_last(), id);
    }
}

pub(crate) proof fn lemma_registry_remove(s: Seq<(TaskId, Task)>, i: int)
    requires
        unique_ids(s),
        0 <= i < s.len(),
    ensures
        registry_of(s.remove(i)) == registry_of(s).remove(s[i].0@),
        unique_ids(s.remove(i)),
    decreases s.len(),
{
    if i == s.len() - 1 {
        assert(s.remove(i) =~= s.drop_last());
        lemma_registry_absent(s.drop_last(), s[i].0@);
        assert(registry_of(s.drop_last()) =~= registry_of(s).remove(s[i].0@));
    } else {
        lemma_registry_remove(s.drop_last(), i);
        assert(s.remove(i).drop_last() =~= s.drop_last().remove(i));
        assert(s.remove(i).last() == s.last());
        assert(registry_of(s.remove(i)) =~= registry_of(s).remove(s[i].0@));
    }
}

pub(crate) proof fn lemma_index_index(s: Seq<Slot>, i: int)
    requires
        unique_times(s),
        0 <= i < s.len(),
    ensures
        index_of(s).contains_key(s[i].time),
        index_of(s)[s[i].time] == s[i].task_ids@,
    decreases s.len(),
{
    if i < s.len() - 1 {
        lemma_index_index(s.drop_last(), i);
    }
}

pub(crate) proof fn lemma_index_absent(s: Seq<Slot>, t: UnixTime)
    requires
        forall|j: int| 0 <= j < s.len() ==> s[j].time != t,
    ensures
        !index_of(s).contains_key(t),
    decreases s.len(),
{
    if s.len() > 0 {
        lemma_index_absent(s.drop_last(), t);
    }
}

pub(crate) proof fn lemma_index_keys(s: Seq<Slot>, t: UnixTime)
    requires
        index_of(s).contains_key(t),
    ensures
        exists|j: int| 0 <= j < s.len() && s[j].time == t,
{
    if forall|j: int| 0 <= j < s.len() ==> s[j].time != t {
        lemma_index_absent(s, t);
    }
}

pub(crate) proof fn lemma_index_remove(s: Seq<Slot>, i: int)
    requires
        unique_times(s),
        0 <= i < s.len(),
    ensures
        index_of(s.remove(i)) == index_of(s).remove(s[i].time),
        unique_times(s.remove(i)),
    decreases s.len(),
{
    if i == s.len() - 1 {
        assert(s.remove(i) =~= s.drop_last());
        lemma_index_absent(s.drop_last(), s[i].time);
        assert(index_of(s.drop_last()) =~= index_of(s).remove(s[i].time));
    } else {
        lemma_index_remove(s.drop_last(), i);
        assert(s.remove(i).drop_last() =~= s.drop_last().remove(i));
        assert(s.remove(i).last() == s.last());
        assert(index_of(s.remove(i)) =~= index_of(s).remove(s[i].time));
    }
}

pub(crate) proof fn lemma_index_update(s: Seq<Slot>, i: int, slot: Slot)
    requires
        unique_times(s),
        0 <= i < s.len(),
        slot.time == s[i].time,
    ensures
        index_of(s.update(i, slot)) == index_of(s).insert(slot.time, slot.task_ids@),
        unique_times(s.update(i, slot)),
    decreases s.len(),
{
    if i == s.len() - 1 {
        assert(s.update(i, slot).drop_last() =~= s.drop_last());
        assert(index_of(s.update(i, slot)) =~= index_of(s).insert(slot.time, slot.task_ids@));
    } else {
        lemma_index_update(s.drop_last(), i, slot);
        assert(s.update(i, slot).drop_last() =~= s.drop_last().update(i, slot));
        assert(index_of(s.update(i, slot)) =~= index_of(s).insert(slot.time, slot.task_ids@));
    }
}

} // verus!
