use vstd::prelude::*;

use crate::hashing::task_id_of;
use crate::model::{
    contains_id, cycle_budget, drained, ids_view, removed_first, run_count, run_events, slot_len, slot_of,
    update_weight,
};
use crate::pallet::{due_queue, removes_task, runs_cycle, schedules, Pallet};
use crate::task::{AccountId, Error, Event, Task, TaskId, UnixTime, Weight};
use crate::weights::{BASE_WEIGHT, MAX_ITERATION_WEIGHT};

verus! {

/// Once a task is scheduled, scheduling the same owner and provided id again
/// is refused as a duplicate, whatever time and message the second call gives.
pub proof fn lemma_schedule_twice_is_duplicate(
    pre: Pallet,
    mid: Pallet,
    who: AccountId,
    provided_id: Vec<u8>,
    time: UnixTime,
    message: Vec<u8>,
    time2: UnixTime,
    message2: Vec<u8>,
)
    requires
        pre.schedule_error(who, provided_id@, time, message@) is None,
        schedules(pre, mid, who, provided_id, time, message),
        message2@.len() > 0,
        time2 % 60 == 0,
        time2 > slot_of(mid.clock()),
    ensures
        mid.schedule_error(who, provided_id@, time2, message2@) == Some(Error::DuplicateTask),
{
    assert(mid.registry().contains_key(task_id_of(who, provided_id@)));
}

/// A successful scheduling call adds exactly one identifier to its slot.
pub proof fn lemma_schedule_fills_slot(
    pre: Pallet,
    post: Pallet,
    who: AccountId,
    provided_id: Vec<u8>,
    time: UnixTime,
    message: Vec<u8>,
)
    requires
        schedules(pre, post, who, provided_id, time, message),
    ensures
        slot_len(post.index(), time) == slot_len(pre.index(), time) + 1,
        post.capacity() == pre.capacity(),
{
}

/// A new task that passes every other check is refused with `TimeSlotFull`
/// exactly when its slot already holds as many tasks as the capacity.
pub proof fn lemma_full_slot_refuses(
    p: Pallet,
    who: AccountId,
    provided_id: Seq<u8>,
    time: UnixTime,
    message: Seq<u8>,
)
    requires
        provided_id.len() > 0,
        message.len() > 0,
        time % 60 == 0,
        time > slot_of(p.clock()),
        !p.registry().contains_key(task_id_of(who, provided_id)),
    ensures
        p.schedule_error(who, provided_id, time, message) == if slot_len(p.index(), time)
            >= p.capacity() {
            Some(Error::TimeSlotFull)
        } else {
            None::<Error>
        },
{
}

/// Every identifier of the slot at `last + 60 * m`, for `1 <= m <= k`, is
/// among those that draining `k` minutes after `last` moves.
proof fn lemma_drained_holds(index: Map<UnixTime, Seq<TaskId>>, last: int, k: nat, m: nat, j: int)
    requires
        1 <= m <= k,
        0 <= last + 60 * m <= u64::MAX,
        index.contains_key((last + 60 * m) as u64),
        0 <= j < index[(last + 60 * m) as u64].len(),
    ensures
        exists|q: int|
            0 <= q < drained(index, last, k).len() && drained(index, last, k)[q]
                == index[(last + 60 * m) as u64][j],
    decreases k,
{
    let t = last + 60 * k;
    let prev = drained(index, last, (k - 1) as nat);
    if m == k {
        let q = prev.len() + j;
        assert(drained(index, last, k) == prev + index[t as u64]);
        assert(drained(index, last, k)[q] == index[(last + 60 * m) as u64][j]);
    } else {
        lemma_drained_holds(index, last, (k - 1) as nat, m, j);
        let q = choose|q: int| 0 <= q < prev.len() && prev[q] == index[(last + 60 * m) as u64][j];
        if 0 <= t <= u64::MAX && index.contains_key(t as u64) {
            assert(drained(index, last, k) == prev + index[t as u64]);
            assert(drained(index, last, k)[q] == prev[q]);
        } else {
            assert(drained(index, last, k) == prev);
        }
        assert(0 <= q < drained(index, last, k).len());
    }
}

/// After a cycle no slot at or before the current minute is left in the
/// index, and every identifier that such a slot held is in the ready queue
/// or no longer registered, having been executed.
pub proof fn lemma_cycle_leaves_no_due_slot(pre: Pallet, post: Pallet, max_weight: Weight, r: Weight)
    requires
        pre.wf(),
        runs_cycle(pre, post, max_weight, r),
    ensures
        forall|t: UnixTime| #[trigger] post.index().contains_key(t) ==> t > slot_of(pre.clock()),
        forall|t: UnixTime, j: int|
            pre.index().contains_key(t) && t <= slot_of(pre.clock()) && 0 <= j
                < pre.index()[t].len() ==> contains_id(post.ready(), #[trigger] pre.index()[t][j]@)
                || !post.registry().contains_key(pre.index()[t][j]@),
{
    pre.lemma_wf_index();
    let slot = slot_of(pre.clock());
    let last = pre.cursor();
    let k = ((slot - last) / 60) as nat;
    let due = due_queue(pre);
    assert forall|t: UnixTime, j: int|
        pre.index().contains_key(t) && t <= slot && 0 <= j
            < pre.index()[t].len() implies contains_id(post.ready(), #[trigger] pre.index()[t][j]@)
        || !post.registry().contains_key(pre.index()[t][j]@) by {
        let x = pre.index()[t][j];
        let m = ((t - last) / 60) as nat;
        assert(last + 60 * m == t);
        lemma_drained_holds(pre.index(), last as int, k, m, j);
        let q0 = choose|q: int|
            0 <= q < drained(pre.index(), last as int, k).len() && drained(
                pre.index(),
                last as int,
                k,
            )[q] == x;
        let q = pre.ready().len() + q0;
        assert(due[q] == x);
        let budget = cycle_budget(max_weight as int);
        let upd = update_weight(last as int, slot);
        if budget < upd + 2 * BASE_WEIGHT || due.len() == 0 {
            assert(post.ready()[q] == x);
        } else {
            let n = run_count(budget - upd - BASE_WEIGHT, due.len() as int);
            let done = due.subrange(0, n);
            if q < n {
                assert(done[q] == x);
                assert(ids_view(done)[q] == x@);
                assert(ids_view(done).to_set().contains(x@));
            } else {
                assert(post.ready()[q - n] == x);
            }
        }
    }
}

/// A cycle whose budget cannot cover the queue update and one task still
/// drains every due slot into the ready queue, and executes nothing: the
/// whole queue is kept for the next cycle.
pub proof fn lemma_tight_budget_runs_nothing(pre: Pallet, post: Pallet, max_weight: Weight, r: Weight)
    requires
        runs_cycle(pre, post, max_weight, r),
        cycle_budget(max_weight as int) < update_weight(pre.cursor() as int, slot_of(pre.clock()))
            + 2 * BASE_WEIGHT + MAX_ITERATION_WEIGHT,
    ensures
        post.ready() == due_queue(pre),
        post.registry() == pre.registry(),
        post.emitted() == pre.emitted(),
        forall|t: UnixTime| #[trigger] post.index().contains_key(t) ==> t > slot_of(pre.clock()),
        post.cursor() == slot_of(pre.clock()),
{
    let due = due_queue(pre);
    let budget = cycle_budget(max_weight as int);
    let upd = update_weight(pre.cursor() as int, slot_of(pre.clock()));
    if !(budget < upd + 2 * BASE_WEIGHT) && due.len() != 0 {
        let n = run_count(budget - upd - BASE_WEIGHT, due.len() as int);
        assert(n == 0);
        assert(due.subrange(0, 0) =~= Seq::<TaskId>::empty());
        assert(due.subrange(0, due.len() as int) =~= due);
        assert(ids_view(due.subrange(0, 0)).to_set() =~= Set::<Seq<u8>>::empty());
        assert(pre.registry().remove_keys(Set::<Seq<u8>>::empty()) =~= pre.registry());
        assert(pre.emitted() + run_events(pre.registry(), due.subrange(0, 0)) =~= pre.emitted());
    }
}

/// Whether `e` reports the identifier `id` missing.
pub open spec fn reports_missing(e: Event, id: Seq<u8>) -> bool {
    match e {
        Event::TaskNotFound { task_id } => task_id@ == id,
        _ => false,
    }
}

/// Whether no slot of `index` holds `id`.
pub open spec fn unindexed(index: Map<UnixTime, Seq<TaskId>>, id: Seq<u8>) -> bool {
    forall|t: UnixTime| #[trigger] index.contains_key(t) ==> !contains_id(index[t], id)
}

/// An identifier that no slot holds is not among those that draining moves.
proof fn lemma_drained_lacks(index: Map<UnixTime, Seq<TaskId>>, last: int, k: nat, id: Seq<u8>)
    requires
        unindexed(index, id),
    ensures
        !contains_id(drained(index, last, k), id),
    decreases k,
{
    if k > 0 {
        lemma_drained_lacks(index, last, (k - 1) as nat, id);
        let t = last + 60 * k;
        let prev = drained(index, last, (k - 1) as nat);
        if 0 <= t <= u64::MAX && index.contains_key(t as u64) {
            let all = prev + index[t as u64];
            assert forall|j: int| 0 <= j < all.len() implies all[j]@ != id by {
                if j >= prev.len() {
                    assert(all[j] == index[t as u64][j - prev.len()]);
                }
            }
        }
    }
}

/// Executing identifiers that do not include `id` reports nothing missing
/// under `id`.
proof fn lemma_run_events_lack(registry: Map<Seq<u8>, Task>, ids: Seq<TaskId>, id: Seq<u8>)
    requires
        !contains_id(ids, id),
    ensures
        forall|j: int|
            0 <= j < run_events(registry, ids).len() ==> !reports_missing(
                #[trigger] run_events(registry, ids)[j],
                id,
            ),
    decreases ids.len(),
{
    if ids.len() > 0 {
        let before = ids.drop_last();
        assert(!contains_id(before, id)) by {
            assert forall|j: int| 0 <= j < before.len() implies before[j]@ != id by {
                assert(before[j] == ids[j]);
            }
        }
        lemma_run_events_lack(registry, before, id);
        assert(ids.last()@ != id) by {
            assert(ids.last() == ids[ids.len() - 1]);
        }
        let prev = run_events(registry, before);
        let all = run_events(registry, ids);
        assert(all.len() == prev.len() + 1);
        assert forall|j: int| 0 <= j < all.len() implies !reports_missing(#[trigger] all[j], id) by {
            if j < prev.len() {
                assert(all[j] == prev[j]);
            } else {
                assert(j == prev.len());
            }
        }
    }
}

/// A task cancelled before any cycle runs is never executed or reported
/// missing: scheduling it and then cancelling it leaves its identifier in no
/// slot, out of the ready queue and out of the registry, so a following cycle
/// neither queues it nor emits `TaskNotFound` for it. The identifier is taken
/// to be in no slot and out of the queue beforehand, as it is whenever no
/// task under it is live.
pub proof fn lemma_cancelled_task_never_runs(
    p0: Pallet,
    p1: Pallet,
    p2: Pallet,
    p3: Pallet,
    who: AccountId,
    provided_id: Vec<u8>,
    time: UnixTime,
    message: Vec<u8>,
    task_id: TaskId,
    max_weight: Weight,
    used: Weight,
)
    requires
        unindexed(p0.index(), task_id_of(who, provided_id@)),
        !contains_id(p0.ready(), task_id_of(who, provided_id@)),
        p0.schedule_error(who, provided_id@, time, message@) is None,
        schedules(p0, p1, who, provided_id, time, message),
        task_id@ == task_id_of(who, provided_id@),
        removes_task(p1, p2, task_id),
        runs_cycle(p2, p3, max_weight, used),
    ensures
        unindexed(p2.index(), task_id@),
        !contains_id(p2.ready(), task_id@),
        !p2.registry().contains_key(task_id@),
        !contains_id(p3.ready(), task_id@),
        forall|j: int|
            p2.emitted().len() <= j < p3.emitted().len() ==> !reports_missing(
                #[trigger] p3.emitted()[j],
                task_id@,
            ),
{
    let id = task_id@;
    let idx0 = p0.index();
    let old_ids = if idx0.contains_key(time) { idx0[time] } else { Seq::<TaskId>::empty() };
    let t = p1.index()[time].last();
    let ids = old_ids.push(t);
    assert(p1.index()[time] == ids);
    assert(p1.registry()[id].time == time);
    assert(!contains_id(old_ids, id));
    assert(ids[ids.len() - 1]@ == id);
    assert(contains_id(ids, id));
    if ids.len() == 1 && ids[0]@ == id {
        assert(p2.index() == p1.index().remove(time));
    } else {
        let rest = p2.index()[time];
        assert(removed_first(ids, rest, id));
        let i = choose|i: int|
            0 <= i < ids.len() && ids[i]@ == id && (forall|j: int| 0 <= j < i ==> ids[j]@ != id)
                && rest == ids.remove(i);
        assert(i == ids.len() - 1) by {
            if i < ids.len() - 1 {
                assert(ids[i] == old_ids[i]);
            }
        }
        assert(rest =~= old_ids);
    }
    assert forall|u: UnixTime| #[trigger] p2.index().contains_key(u) implies !contains_id(p2.index()[u], id) by {
        if u != time {
            assert(p2.index()[u] == idx0[u]);
        }
    }
    assert(p2.ready() == p0.ready());
    let due = due_queue(p2);
    let slot = slot_of(p2.clock());
    let last = p2.cursor();
    lemma_drained_lacks(p2.index(), last as int, ((slot - last) / 60) as nat, id);
    assert(!contains_id(due, id)) by {
        let d = drained(p2.index(), last as int, ((slot - last) / 60) as nat);
        assert forall|j: int| 0 <= j < due.len() implies due[j]@ != id by {
            if j >= p2.ready().len() {
                assert(due[j] == d[j - p2.ready().len()]);
            }
        }
    }
    let budget = cycle_budget(max_weight as int);
    let upd = update_weight(last as int, slot);
    if !(budget < upd + 2 * BASE_WEIGHT) && due.len() != 0 {
        let n = run_count(budget - upd - BASE_WEIGHT, due.len() as int);
        let done = due.subrange(0, n);
        assert(!contains_id(done, id)) by {
            assert forall|j: int| 0 <= j < done.len() implies done[j]@ != id by {
                assert(done[j] == due[j]);
            }
        }
        lemma_run_events_lack(p2.registry(), done, id);
        let rem = due.subrange(n, due.len() as int);
        assert forall|j: int| 0 <= j < rem.len() implies rem[j]@ != id by {
            assert(rem[j] == due[j + n]);
        }
        assert forall|j: int|
            p2.emitted().len() <= j < p3.emitted().len() implies !reports_missing(
            #[trigger] p3.emitted()[j],
            id,
        ) by {
            assert(p3.emitted()[j] == run_events(p2.registry(), done)[j - p2.emitted().len()]);
        }
    }
}

} // verus!
