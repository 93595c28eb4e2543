//! The effect executor: the effects in flight, the clock, and what completes when.

use crate::effect::{Policy, Task, TaskId};
use vstd::prelude::*;

verus! {

/// An effect in flight: per part, the event it completed with, if it has.
pub struct Group<Ev> {
    pub id: u64,
    pub policy: Policy,
    pub slots: Vec<Option<Ev>>,
}

/// The mathematical content of a `Group`.
pub struct GroupModel<Ev> {
    pub id: u64,
    pub policy: Policy,
    pub slots: Seq<Option<Ev>>,
}

impl<Ev> View for Group<Ev> {
    type V = GroupModel<Ev>;

    open spec fn view(&self) -> GroupModel<Ev> {
        GroupModel { id: self.id, policy: self.policy, slots: self.slots@ }
    }
}

/// A timer that has not fired.
pub struct TimerEntry<Ev> {
    pub deadline: u64,
    pub task: TaskId,
    pub event: Ev,
}

/// An event on its way to its owner; a request carries the part that awaits the answer.
#[derive(Clone, Debug, PartialEq, Eq)]
pub struct Delivery<Ev> {
    pub event: Ev,
    pub reply_to: Option<TaskId>,
}

/// Work for the worker pool, and the part that awaits its answer.
#[derive(Clone, Debug, PartialEq, Eq)]
pub struct Job<Ev> {
    pub task: TaskId,
    pub job: Ev,
}

/// The mathematical content of an `Executor`.
pub struct ExecutorModel<Ev> {
    /// The clock.
    pub now: u64,
    /// The number that the next effect gets.
    pub next_id: u64,
    /// The effects in flight, oldest first.
    pub groups: Seq<GroupModel<Ev>>,
    /// The timers, soonest first; among equal deadlines, the one scheduled first.
    /// The timer of an effect that has left stays until it is due, and then fires nothing.
    pub timers: Seq<TimerEntry<Ev>>,
}

/// The events that the completed parts hold, in part order.
pub open spec fn somes<Ev>(slots: Seq<Option<Ev>>) -> Seq<Ev>
    decreases slots.len(),
{
    if slots.len() == 0 {
        Seq::empty()
    } else {
        match slots.last() {
            Some(event) => somes(slots.drop_last()).push(event),
            None => somes(slots.drop_last()),
        }
    }
}

/// Whether an effect has all it waits for: every part under `All`, any part
/// under `First`. An effect of no parts waits for nothing.
pub open spec fn resolved<Ev>(group: GroupModel<Ev>) -> bool {
    match group.policy {
        Policy::All => forall|i: int| 0 <= i < group.slots.len() ==> group.slots[i] is Some,
        Policy::First => group.slots.len() == 0 || exists|i: int|
            0 <= i < group.slots.len() && group.slots[i] is Some,
    }
}

/// Whether the group at position `i` is the effect numbered `id`.
pub open spec fn holds_at<Ev>(groups: Seq<GroupModel<Ev>>, id: u64, i: int) -> bool {
    0 <= i < groups.len() && groups[i].id == id
}

/// Whether the effect numbered `id` is in flight.
pub open spec fn pending<Ev>(groups: Seq<GroupModel<Ev>>, id: u64) -> bool {
    exists|i: int| holds_at(groups, id, i)
}

/// Where the effect numbered `id` stands among those in flight.
pub open spec fn position<Ev>(groups: Seq<GroupModel<Ev>>, id: u64) -> int {
    choose|i: int| holds_at(groups, id, i)
}

/// Whether a part is in flight and not complete.
pub open spec fn awaits<Ev>(groups: Seq<GroupModel<Ev>>, task: TaskId) -> bool {
    &&& pending(groups, task.effect)
    &&& task.part < groups[position(groups, task.effect)].slots.len()
    &&& groups[position(groups, task.effect)].slots[task.part as int] is None
}

/// The effects in flight after `task` completes with `event`, and the events
/// that this releases. A part that is not awaited changes nothing and
/// releases nothing.
pub open spec fn settled<Ev>(groups: Seq<GroupModel<Ev>>, task: TaskId, event: Ev) -> (
    Seq<GroupModel<Ev>>,
    Seq<Ev>,
) {
    if awaits(groups, task) {
        let i = position(groups, task.effect);
        let group = GroupModel {
            id: groups[i].id,
            policy: groups[i].policy,
            slots: groups[i].slots.update(task.part as int, Some(event)),
        };
        if resolved(group) {
            (groups.remove(i), somes(group.slots))
        } else {
            (groups.update(i, group), Seq::empty())
        }
    } else {
        (groups, Seq::empty())
    }
}

/// The effects in flight without the one numbered `id`.
pub open spec fn cancelled<Ev>(groups: Seq<GroupModel<Ev>>, id: u64) -> Seq<GroupModel<Ev>> {
    if pending(groups, id) {
        groups.remove(position(groups, id))
    } else {
        groups
    }
}

/// Timers stand in the order in which they fire.
pub open spec fn in_firing_order<Ev>(timers: Seq<TimerEntry<Ev>>) -> bool {
    forall|i: int, j: int|
        0 <= i < j < timers.len() ==> (#[trigger] timers[i]).deadline <= (
        #[trigger] timers[j]).deadline
}

/// Whether `i` is where a timer due at `deadline` goes: behind all that are due
/// no later, before all that are due later.
pub open spec fn is_rank<Ev>(timers: Seq<TimerEntry<Ev>>, deadline: u64, i: int) -> bool {
    &&& 0 <= i <= timers.len()
    &&& forall|j: int| 0 <= j < i ==> (#[trigger] timers[j]).deadline <= deadline
    &&& i < timers.len() ==> timers[i].deadline > deadline
}

/// Where a timer due at `deadline` goes.
pub open spec fn rank<Ev>(timers: Seq<TimerEntry<Ev>>, deadline: u64) -> int {
    choose|i: int| is_rank(timers, deadline, i)
}

/// The timers with one more.
pub open spec fn enlisted<Ev>(timers: Seq<TimerEntry<Ev>>, entry: TimerEntry<Ev>) -> Seq<
    TimerEntry<Ev>,
> {
    timers.insert(rank(timers, entry.deadline), entry)
}

/// The time `delay` units after `now`; the clock stops at its largest value.
pub open spec fn due(now: u64, delay: u64) -> u64 {
    if now + delay > u64::MAX {
        u64::MAX
    } else {
        (now + delay) as u64
    }
}

/// What starting the parts of an effect gives.
pub struct Launch<Ev> {
    /// Per part, its event if it was already resolved.
    pub slots: Seq<Option<Ev>>,
    /// The timers, with those of the new parts.
    pub timers: Seq<TimerEntry<Ev>>,
    /// The requests to deliver, in part order.
    pub requests: Seq<Delivery<Ev>>,
    /// The work to hand to the worker pool, in part order.
    pub jobs: Seq<Job<Ev>>,
}

/// Starts the parts of the effect numbered `id`, in order, at time `now`.
pub open spec fn launched<Ev>(
    parts: Seq<Task<Ev>>,
    id: u64,
    now: u64,
    timers: Seq<TimerEntry<Ev>>,
) -> Launch<Ev>
    decreases parts.len(),
{
    if parts.len() == 0 {
        Launch { slots: Seq::empty(), timers, requests: Seq::empty(), jobs: Seq::empty() }
    } else {
        let before = launched(parts.drop_last(), id, now, timers);
        let task = TaskId { effect: id, part: (parts.len() - 1) as usize };
        match parts.last() {
            Task::Immediate { event } => Launch {
                slots: before.slots.push(Some(event)),
                timers: before.timers,
                requests: before.requests,
                jobs: before.jobs,
            },
            Task::Timer { delay, event } => Launch {
                slots: before.slots.push(None),
                timers: enlisted(
                    before.timers,
                    TimerEntry { deadline: due(now, delay), task, event },
                ),
                requests: before.requests,
                jobs: before.jobs,
            },
            Task::Request { request } => Launch {
                slots: before.slots.push(None),
                timers: before.timers,
                requests: before.requests.push(Delivery { event: request, reply_to: Some(task) }),
                jobs: before.jobs,
            },
            Task::Offload { job } => Launch {
                slots: before.slots.push(None),
                timers: before.timers,
                requests: before.requests,
                jobs: before.jobs.push(Job { task, job }),
            },
        }
    }
}

/// What scheduling an effect gives.
pub struct Started<Ev> {
    pub model: ExecutorModel<Ev>,
    pub requests: Seq<Delivery<Ev>>,
    pub jobs: Seq<Job<Ev>>,
    /// The events released at once, where the effect was resolved from the start.
    pub events: Seq<Ev>,
}

/// Schedules an effect of the given parts. It gets the next number; if it is
/// resolved from the start it releases its events and is not kept.
pub open spec fn scheduled<Ev>(model: ExecutorModel<Ev>, policy: Policy, parts: Seq<Task<Ev>>) -> Started<
    Ev,
> {
    let launch = launched(parts, model.next_id, model.now, model.timers);
    let group = GroupModel { id: model.next_id, policy, slots: launch.slots };
    Started {
        model: ExecutorModel {
            now: model.now,
            next_id: (model.next_id + 1) as u64,
            groups: if resolved(group) {
                model.groups
            } else {
                model.groups.push(group)
            },
            timers: launch.timers,
        },
        requests: launch.requests,
        jobs: launch.jobs,
        events: if resolved(group) {
            somes(launch.slots)
        } else {
            Seq::empty()
        },
    }
}

/// What firing the due timers gives.
pub struct Fired<Ev> {
    pub groups: Seq<GroupModel<Ev>>,
    pub timers: Seq<TimerEntry<Ev>>,
    pub events: Seq<Ev>,
}

/// Fires the timers that are due at `now`, soonest first: each completes its
/// part, unless that part is no longer awaited.
pub open spec fn fired<Ev>(now: u64, groups: Seq<GroupModel<Ev>>, timers: Seq<TimerEntry<Ev>>) -> Fired<
    Ev,
>
    decreases timers.len(),
{
    if timers.len() > 0 && timers[0].deadline <= now {
        let first = settled(groups, timers[0].task, timers[0].event);
        let rest = fired(now, first.0, timers.subrange(1, timers.len() as int));
        Fired { groups: rest.groups, timers: rest.timers, events: first.1 + rest.events }
    } else {
        Fired { groups, timers, events: Seq::empty() }
    }
}

/// The state after the clock has moved on by `delta`, and the events released.
pub open spec fn advanced<Ev>(model: ExecutorModel<Ev>, delta: u64) -> (ExecutorModel<Ev>, Seq<Ev>) {
    let now = due(model.now, delta);
    let after = fired(now, model.groups, model.timers);
    (
        ExecutorModel { now, next_id: model.next_id, groups: after.groups, timers: after.timers },
        after.events,
    )
}

/// The invariant of an executor.
pub open spec fn model_wf<Ev>(model: ExecutorModel<Ev>) -> bool {
    &&& in_firing_order(model.timers)
    &&& forall|i: int, j: int|
        0 <= i < j < model.groups.len() ==> (#[trigger] model.groups[i]).id < (
        #[trigger] model.groups[j]).id
    &&& forall|i: int| 0 <= i < model.groups.len() ==> (#[trigger] model.groups[i]).id < model.next_id
    &&& forall|i: int| 0 <= i < model.groups.len() ==> !resolved(#[trigger] model.groups[i])
}

/// The deadline of the soonest timer whose part is still awaited.
pub open spec fn next_due<Ev>(groups: Seq<GroupModel<Ev>>, timers: Seq<TimerEntry<Ev>>) -> Option<u64>
    decreases timers.len(),
{
    if timers.len() == 0 {
        None
    } else if awaits(groups, timers[0].task) {
        Some(timers[0].deadline)
    } else {
        next_due(groups, timers.subrange(1, timers.len() as int))
    }
}

/// The effects in flight, the timers and the clock.
pub struct Executor<Ev> {
    now: u64,
    next_id: u64,
    groups: Vec<Group<Ev>>,
    timers: Vec<TimerEntry<Ev>>,
}

/// What scheduling an effect hands back.
pub struct Outcome<Ev> {
    /// The number of the effect: its handle for cancelling.
    pub id: u64,
    /// Requests to deliver.
    pub requests: Vec<Delivery<Ev>>,
    /// Work for the worker pool.
    pub jobs: Vec<Job<Ev>>,
    /// Events released at once.
    pub events: Vec<Ev>,
}

impl<Ev> View for Executor<Ev> {
    type V = ExecutorModel<Ev>;

    closed spec fn view(&self) -> ExecutorModel<Ev> {
        ExecutorModel {
            now: self.now,
            next_id: self.next_id,
            groups: self.groups@.map_values(|g: Group<Ev>| g@),
            timers: self.timers@,
        }
    }
}

/// Among groups numbered in rising order, a number is held at one position only.
pub proof fn lemma_position_unique<Ev>(groups: Seq<GroupModel<Ev>>, id: u64, i: int)
    requires
        forall|a: int, b: int|
            0 <= a < b < groups.len() ==> (#[trigger] groups[a]).id < (#[trigger] groups[b]).id,
        holds_at(groups, id, i),
    ensures
        pending(groups, id),
        position(groups, id) == i,
{
    let p = position(groups, id);
    assert(holds_at(groups, id, p));
    if p < i {
        assert(groups[p].id < groups[i].id);
    }
    if i < p {
        assert(groups[i].id < groups[p].id);
    }
}

/// A timer goes to one place only.
pub proof fn lemma_rank_unique<Ev>(timers: Seq<TimerEntry<Ev>>, deadline: u64, i: int)
    requires
        is_rank(timers, deadline, i),
    ensures
        rank(timers, deadline) == i,
{
    let r = rank(timers, deadline);
    assert(is_rank(timers, deadline, r));
    if r < i {
        assert(timers[r].deadline <= deadline);
    }
    if i < r {
        assert(timers[i].deadline <= deadline);
    }
}

/// Putting a timer in its place keeps the firing order.
pub proof fn lemma_enlisted_in_order<Ev>(timers: Seq<TimerEntry<Ev>>, entry: TimerEntry<Ev>, i: int)
    requires
        in_firing_order(timers),
        is_rank(timers, entry.deadline, i),
    ensures
        enlisted(timers, entry) == timers.insert(i, entry),
        in_firing_order(enlisted(timers, entry)),
{
    lemma_rank_unique(timers, entry.deadline, i);
    let after = timers.insert(i, entry);
    assert forall|a: int, b: int| 0 <= a < b < after.len() implies (#[trigger] after[a]).deadline <= (
    #[trigger] after[b]).deadline by {
        if a < i {
            assert(after[a] == timers[a]);
        } else if a > i {
            assert(after[a] == timers[a - 1]);
        }
        if b < i {
            assert(after[b] == timers[b]);
        } else if b > i {
            assert(after[b] == timers[b - 1]);
            if a == i {
                assert(timers[i].deadline <= timers[b - 1].deadline || i == b - 1);
            }
        }
    }
}

/// Moves the events of the completed parts out, in part order.
fn release<Ev>(slots: Vec<Option<Ev>>) -> (events: Vec<Ev>)
    ensures
        events@ == somes(slots@),
{
    let mut slots = slots;
    let ghost all = slots@;
    let total = slots.len();
    let mut events: Vec<Ev> = Vec::new();
    let mut k: usize = 0;
    while slots.len() > 0
        invariant
            all.len() == total,
            k + slots@.len() == all.len(),
            slots@ == all.subrange(k as int, all.len() as int),
            events@ == somes(all.take(k as int)),
        decreases slots@.len(),
    {
        let slot = slots.remove(0);
        proof {
            assert(slot == all[k as int]);
            assert(all.take(k + 1).drop_last() == all.take(k as int));
            assert(all.take(k + 1).last() == all[k as int]);
            assert(slots@ == all.subrange(k + 1, all.len() as int));
        }
        match slot {
            Some(event) => {
                events.push(event);
            },
            None => {},
        }
        k = k + 1;
    }
    proof {
        assert(all.take(k as int) == all);
    }
    events
}

/// Tells whether an effect has all it waits for.
fn is_resolved<Ev>(group: &Group<Ev>) -> (done: bool)
    ensures
        done == resolved(group@),
{
    let n = group.slots.len();
    let mut i: usize = 0;
    match group.policy {
        Policy::All => {
            while i < n
                invariant
                    group.policy == Policy::All,
                    n == group.slots@.len(),
                    i <= n,
                    forall|j: int| 0 <= j < i ==> group.slots@[j] is Some,
                decreases n - i,
            {
                if group.slots[i].is_none() {
                    assert(group@.slots[i as int] is None);
                    return false;
                }
                i = i + 1;
            }
            true
        },
        Policy::First => {
            while i < n
                invariant
                    group.policy == Policy::First,
                    n == group.slots@.len(),
                    i <= n,
                    forall|j: int| 0 <= j < i ==> group.slots@[j] is None,
                decreases n - i,
            {
                if group.slots[i].is_some() {
                    assert(group@.slots[i as int] is Some);
                    return true;
                }
                i = i + 1;
            }
            n == 0
        },
    }
}

/// Puts a timer in its place.
fn enlist<Ev>(timers: &mut Vec<TimerEntry<Ev>>, entry: TimerEntry<Ev>)
    requires
        in_firing_order(old(timers)@),
    ensures
        final(timers)@ == enlisted(old(timers)@, entry),
        in_firing_order(final(timers)@),
{
    let mut i: usize = 0;
    while i < timers.len() && timers[i].deadline <= entry.deadline
        invariant
            timers@ == old(timers)@,
            i <= timers@.len(),
            forall|j: int| 0 <= j < i ==> (#[trigger] timers@[j]).deadline <= entry.deadline,
        decreases timers@.len() - i,
    {
        i = i + 1;
    }
    proof {
        lemma_enlisted_in_order(timers@, entry, i as int);
    }
    timers.insert(i, entry);
}

impl<Ev> Executor<Ev> {
    /// The invariant: timers in firing order, effects numbered in rising order
    /// below the next number, and none in flight that is already resolved.
    pub open spec fn wf(&self) -> bool {
        model_wf(self@)
    }

    /// An executor with nothing in flight, its clock at zero.
    pub fn new() -> (executor: Self)
        ensures
            executor.wf(),
            executor@ == (ExecutorModel::<Ev> {
                now: 0,
                next_id: 0,
                groups: Seq::empty(),
                timers: Seq::empty(),
            }),
    {
        let executor = Executor { now: 0, next_id: 0, groups: Vec::new(), timers: Vec::new() };
        assert(executor@.groups =~= Seq::empty());
        executor
    }

    /// The clock.
    pub fn now(&self) -> (now: u64)
        ensures
            now == self@.now,
    {
        self.now
    }

    /// Whether nothing is in flight.
    pub fn is_idle(&self) -> (idle: bool)
        ensures
            idle == (self@.groups.len() == 0),
    {
        self.groups.len() == 0
    }

    /// The number of effects in flight.
    pub fn in_flight(&self) -> (n: usize)
        ensures
            n == self@.groups.len(),
    {
        self.groups.len()
    }

    fn find(&self, id: u64) -> (found: Option<usize>)
        requires
            self.wf(),
        ensures
            match found {
                Some(i) => holds_at(self@.groups, id, i as int) && position(self@.groups, id) == i,
                None => !pending(self@.groups, id),
            },
    {
        let mut i: usize = 0;
        while i < self.groups.len()
            invariant
                self.wf(),
                i <= self.groups@.len(),
                forall|j: int| 0 <= j < i ==> !holds_at(self@.groups, id, j),
            decreases self.groups@.len() - i,
        {
            if self.groups[i].id == id {
                proof {
                    assert(self@.groups[i as int] == self.groups@[i as int]@);
                    lemma_position_unique(self@.groups, id, i as int);
                }
                return Some(i);
            }
            assert(self@.groups[i as int] == self.groups@[i as int]@);
            i = i + 1;
        }
        None
    }

    /// Whether a part is in flight and not complete.
    pub fn is_awaited(&self, task: TaskId) -> (waiting: bool)
        requires
            self.wf(),
        ensures
            waiting == awaits(self@.groups, task),
    {
        match self.find(task.effect) {
            Some(i) => {
                assert(self@.groups[i as int] == self.groups@[i as int]@);
                task.part < self.groups[i].slots.len() && self.groups[i].slots[task.part].is_none()
            },
            None => false,
        }
    }

    /// Completes a part with its event, and hands back the events that this
    /// releases: those of its effect, once that has all it waits for. A part
    /// that is not awaited (cancelled, complete, unknown) releases nothing.
    pub fn complete(&mut self, task: TaskId, event: Ev) -> (events: Vec<Ev>)
        requires
            old(self).wf(),
        ensures
            final(self).wf(),
            final(self)@.now == old(self)@.now,
            final(self)@.next_id == old(self)@.next_id,
            final(self)@.timers == old(self)@.timers,
            (final(self)@.groups, events@) == settled(old(self)@.groups, task, event),
    {
        if !self.is_awaited(task) {
            return Vec::new();
        }
        let found = self.find(task.effect);
        let i = found.unwrap();
        let ghost before = self@.groups;
        let mut group = self.groups.remove(i);
        assert(group@ == before[i as int]);
        assert(self@.groups =~= before.remove(i as int));
        group.slots.set(task.part, Some(event));
        if is_resolved(&group) {
            release(group.slots)
        } else {
            let ghost after = group@;
            self.groups.insert(i, group);
            assert(self@.groups =~= before.update(i as int, after));
            Vec::new()
        }
    }

    /// Cancels an effect: it will release no event. Tells whether it was in flight.
    pub fn cancel(&mut self, id: u64) -> (was_pending: bool)
        requires
            old(self).wf(),
        ensures
            final(self).wf(),
            was_pending == pending(old(self)@.groups, id),
            final(self)@.now == old(self)@.now,
            final(self)@.next_id == old(self)@.next_id,
            final(self)@.timers == old(self)@.timers,
            final(self)@.groups == cancelled(old(self)@.groups, id),
    {
        match self.find(id) {
            Some(i) => {
                let ghost before = self@.groups;
                let _ = self.groups.remove(i);
                assert(self@.groups =~= before.remove(i as int));
                true
            },
            None => false,
        }
    }

    /// When the next timer fires that still matters, if there is one.
    pub fn next_deadline(&self) -> (deadline: Option<u64>)
        requires
            self.wf(),
        ensures
            deadline == next_due(self@.groups, self@.timers),
    {
        let mut i: usize = 0;
        assert(self@.timers.subrange(0, self@.timers.len() as int) == self@.timers);
        while i < self.timers.len()
            invariant
                self.wf(),
                i <= self.timers@.len(),
                next_due(self@.groups, self@.timers) == next_due(
                    self@.groups,
                    self@.timers.subrange(i as int, self@.timers.len() as int),
                ),
            decreases self.timers@.len() - i,
        {
            let ghost rest = self@.timers.subrange(i as int, self@.timers.len() as int);
            assert(rest[0] == self@.timers[i as int]);
            assert(rest.subrange(1, rest.len() as int) == self@.timers.subrange(
                i + 1,
                self@.timers.len() as int,
            ));
            if self.is_awaited(self.timers[i].task) {
                return Some(self.timers[i].deadline);
            }
            i = i + 1;
        }
        None
    }

    /// Schedules an effect of the given parts and hands back its number, the
    /// requests and jobs to pass on, and the events it releases at once.
    /// Gives `None`, and changes nothing, when the numbers have run out.
    pub fn schedule(&mut self, policy: Policy, parts: Vec<Task<Ev>>) -> (outcome: Option<Outcome<Ev>>)
        requires
            old(self).wf(),
        ensures
            final(self).wf(),
            outcome is Some == (old(self)@.next_id < u64::MAX),
            outcome is None ==> final(self)@ == old(self)@,
            outcome matches Some(o) ==> {
                let started = scheduled(old(self)@, policy, parts@);
                &&& final(self)@ == started.model
                &&& o.id == old(self)@.next_id
                &&& o.requests@ == started.requests
                &&& o.jobs@ == started.jobs
                &&& o.events@ == started.events
            },
    {
        if self.next_id == u64::MAX {
            return None;
        }
        let id = self.next_id;
        let now = self.now;
        let mut parts = parts;
        let ghost all = parts@;
        let ghost timers = self.timers@;
        let ghost groups = self@.groups;
        let total = parts.len();
        let mut slots: Vec<Option<Ev>> = Vec::new();
        let mut requests: Vec<Delivery<Ev>> = Vec::new();
        let mut jobs: Vec<Job<Ev>> = Vec::new();
        let mut k: usize = 0;
        while parts.len() > 0
            invariant
                all.len() == total,
                k + parts@.len() == all.len(),
                parts@ == all.subrange(k as int, all.len() as int),
                self.now == now,
                self.next_id == id,
                self@.groups == groups,
                in_firing_order(self.timers@),
                ({
                    let launch = launched(all.take(k as int), id, now, timers);
                    &&& slots@ == launch.slots
                    &&& self.timers@ == launch.timers
                    &&& requests@ == launch.requests
                    &&& jobs@ == launch.jobs
                }),
            decreases parts@.len(),
        {
            let part = parts.remove(0);
            proof {
                assert(part == all[k as int]);
                assert(all.take(k + 1).drop_last() == all.take(k as int));
                assert(all.take(k + 1).last() == all[k as int]);
                assert(parts@ == all.subrange(k + 1, all.len() as int));
            }
            let task = TaskId { effect: id, part: k };
            match part {
                Task::Immediate { event } => {
                    slots.push(Some(event));
                },
                Task::Timer { delay, event } => {
                    slots.push(None);
                    let deadline = if delay > u64::MAX - now {
                        u64::MAX
                    } else {
                        now + delay
                    };
                    enlist(&mut self.timers, TimerEntry { deadline, task, event });
                },
                Task::Request { request } => {
                    slots.push(None);
                    requests.push(Delivery { event: request, reply_to: Some(task) });
                },
                Task::Offload { job } => {
                    slots.push(None);
                    jobs.push(Job { task, job });
                },
            }
            k = k + 1;
        }
        proof {
            assert(all.take(k as int) == all);
        }
        let group = Group { id, policy, slots };
        self.next_id = id + 1;
        let events = if is_resolved(&group) {
            release(group.slots)
        } else {
            let ghost model = group@;
            self.groups.push(group);
            assert(self@.groups =~= groups.push(model));
            Vec::new()
        };
        Some(Outcome { id, requests, jobs, events })
    }

    /// Moves the clock on by `delta` (it stops at its largest value) and fires
    /// the timers that are then due, soonest first. Hands back the events that
    /// this releases, in the order of release.
    pub fn advance(&mut self, delta: u64) -> (events: Vec<Ev>)
        requires
            old(self).wf(),
        ensures
            final(self).wf(),
            (final(self)@, events@) == advanced(old(self)@, delta),
    {
        self.now = if delta > u64::MAX - self.now {
            u64::MAX
        } else {
            self.now + delta
        };
        let ghost start = self@;
        let mut events: Vec<Ev> = Vec::new();
        while self.timers.len() > 0 && self.timers[0].deadline <= self.now
            invariant
                self.wf(),
                self@.now == start.now,
                self@.next_id == start.next_id,
                ({
                    let all = fired(start.now, start.groups, start.timers);
                    let rest = fired(self@.now, self@.groups, self@.timers);
                    &&& all.groups == rest.groups
                    &&& all.timers == rest.timers
                    &&& all.events == events@ + rest.events
                }),
            decreases self.timers@.len(),
        {
            let ghost before = self@;
            let ghost sofar = events@;
            let entry = self.timers.remove(0);
            assert(self.timers@ == before.timers.subrange(1, before.timers.len() as int));
            assert(self@.groups == before.groups);
            let mut released = self.complete(entry.task, entry.event);
            events.append(&mut released);
            proof {
                let step = settled(before.groups, entry.task, entry.event);
                let rest = fired(self@.now, self@.groups, self@.timers);
                assert(fired(before.now, before.groups, before.timers).events == step.1
                    + rest.events);
                assert(sofar + (step.1 + rest.events) == (sofar + step.1) + rest.events);
            }
        }
        events
    }
}

/// Where every part is complete, the released events are those of all parts, in part order.
pub proof fn lemma_somes_of_all<Ev>(slots: Seq<Option<Ev>>)
    requires
        forall|i: int| 0 <= i < slots.len() ==> slots[i] is Some,
    ensures
        somes(slots).len() == slots.len(),
        forall|i: int| 0 <= i < slots.len() ==> somes(slots)[i] == slots[i]->0,
    decreases slots.len(),
{
    if slots.len() > 0 {
        lemma_somes_of_all(slots.drop_last());
    }
}

/// Where one part only is complete, its event is all that is released.
pub proof fn lemma_somes_of_one<Ev>(slots: Seq<Option<Ev>>, part: int)
    requires
        0 <= part < slots.len(),
        slots[part] is Some,
        forall|i: int| 0 <= i < slots.len() && i != part ==> slots[i] is None,
    ensures
        somes(slots) == seq![slots[part]->0],
    decreases slots.len(),
{
    let front = slots.drop_last();
    if part == slots.len() - 1 {
        lemma_somes_of_none(front);
    } else {
        lemma_somes_of_one(front, part);
    }
}

/// Where no part is complete, nothing is released.
pub proof fn lemma_somes_of_none<Ev>(slots: Seq<Option<Ev>>)
    requires
        forall|i: int| 0 <= i < slots.len() ==> slots[i] is None,
    ensures
        somes(slots) == Seq::<Ev>::empty(),
    decreases slots.len(),
{
    if slots.len() > 0 {
        lemma_somes_of_none(slots.drop_last());
    }
}

/// Fan-out and join. When a part of an effect that waits for all its parts
/// completes while another part is still awaited, nothing is released and
/// the effect stays in flight. When the last awaited part completes, the
/// effect leaves and releases one event per part, in part order, the event
/// just given among them.
pub proof fn lemma_join_releases_when_all_complete<Ev>(model: ExecutorModel<Ev>, task: TaskId, event: Ev)
    requires
        model_wf(model),
        awaits(model.groups, task),
        model.groups[position(model.groups, task.effect)].policy is All,
    ensures
        ({
            let group = model.groups[position(model.groups, task.effect)];
            let after = settled(model.groups, task, event);
            let another_awaited = exists|i: int|
                0 <= i < group.slots.len() && i != task.part && group.slots[i] is None;
            &&& another_awaited ==> after.1.len() == 0 && pending(after.0, task.effect)
                && after.0.len() == model.groups.len()
            &&& !another_awaited ==> {
                &&& !pending(after.0, task.effect)
                &&& after.1.len() == group.slots.len()
                &&& after.1[task.part as int] == event
                &&& forall|i: int|
                    0 <= i < group.slots.len() && i != task.part ==> group.slots[i] == Some(
                        after.1[i],
                    )
            }
        }),
{
    let at = position(model.groups, task.effect);
    let group = model.groups[at];
    let slots = group.slots.update(task.part as int, Some(event));
    let updated = GroupModel { id: group.id, policy: group.policy, slots };
    let after = settled(model.groups, task, event);
    assert(holds_at(model.groups, task.effect, at));
    if exists|i: int| 0 <= i < group.slots.len() && i != task.part && group.slots[i] is None {
        let other = choose|i: int| 0 <= i < group.slots.len() && i != task.part && group.slots[i] is None;
        assert(slots[other] is None);
        assert(!resolved(updated));
        assert(holds_at(after.0, task.effect, at));
    } else {
        assert forall|i: int| 0 <= i < slots.len() implies slots[i] is Some by {
            if i != task.part {
                assert(group.slots[i] is Some);
            }
        }
        assert(resolved(updated));
        lemma_somes_of_all(slots);
        lemma_gone_after_removal(model.groups, at);
        assert forall|i: int| 0 <= i < group.slots.len() && i != task.part implies group.slots[i]
            == Some(after.1[i]) by {
            assert(slots[i] == group.slots[i]);
        }
    }
}

/// Among groups numbered in rising order, the group taken out is no longer in flight,
/// and the others are.
pub proof fn lemma_gone_after_removal<Ev>(groups: Seq<GroupModel<Ev>>, at: int)
    requires
        0 <= at < groups.len(),
        forall|a: int, b: int|
            0 <= a < b < groups.len() ==> (#[trigger] groups[a]).id < (#[trigger] groups[b]).id,
    ensures
        !pending(groups.remove(at), groups[at].id),
{
    let rest = groups.remove(at);
    if pending(rest, groups[at].id) {
        let i = position(rest, groups[at].id);
        assert(holds_at(rest, groups[at].id, i));
        if i < at {
            assert(rest[i] == groups[i]);
            assert(groups[i].id < groups[at].id);
        } else {
            assert(rest[i] == groups[i + 1]);
            assert(groups[at].id < groups[i + 1].id);
        }
    }
}

/// First wins. When a part of an effect that waits for its first part
/// completes, the effect leaves and releases that part's event and nothing
/// else; what its other parts yield later is dropped.
pub proof fn lemma_race_goes_to_the_first<Ev>(model: ExecutorModel<Ev>, task: TaskId, event: Ev)
    requires
        model_wf(model),
        awaits(model.groups, task),
        model.groups[position(model.groups, task.effect)].policy is First,
    ensures
        settled(model.groups, task, event).1 == seq![event],
        !pending(settled(model.groups, task, event).0, task.effect),
        forall|late: TaskId, other: Ev|
            late.effect == task.effect ==> #[trigger] settled(
                settled(model.groups, task, event).0,
                late,
                other,
            ) == (settled(model.groups, task, event).0, Seq::<Ev>::empty()),
{
    let at = position(model.groups, task.effect);
    let group = model.groups[at];
    let slots = group.slots.update(task.part as int, Some(event));
    let updated = GroupModel { id: group.id, policy: group.policy, slots };
    assert(holds_at(model.groups, task.effect, at));
    assert(!resolved(group));
    assert(slots[task.part as int] is Some);
    assert(resolved(updated));
    assert forall|i: int| 0 <= i < slots.len() && i != task.part implies slots[i] is None by {
        if group.slots[i] is Some {
            assert(resolved(group));
        }
    }
    lemma_somes_of_one(slots, task.part as int);
    lemma_gone_after_removal(model.groups, at);
}

/// Cancellation. A cancelled effect is no longer in flight, and whatever
/// completes for it afterwards releases no event and changes nothing.
pub proof fn lemma_cancelled_releases_nothing<Ev>(model: ExecutorModel<Ev>, id: u64)
    requires
        model_wf(model),
    ensures
        !pending(cancelled(model.groups, id), id),
        forall|late: TaskId, event: Ev|
            late.effect == id ==> #[trigger] settled(cancelled(model.groups, id), late, event) == (
                cancelled(model.groups, id),
                Seq::<Ev>::empty(),
            ),
{
    if pending(model.groups, id) {
        let at = position(model.groups, id);
        assert(holds_at(model.groups, id, at));
        lemma_gone_after_removal(model.groups, at);
    }
}

/// A timer alone. On an executor that holds nothing else, an effect of one
/// timer is kept in flight; while the clock has moved on by less than the
/// delay nothing is released; once it has moved on by the delay or more, the
/// timer's event is released, once, and the executor holds nothing again.
pub proof fn lemma_timer_fires_once<Ev>(model: ExecutorModel<Ev>, delay: u64, event: Ev, delta: u64)
    requires
        model.groups.len() == 0,
        model.timers.len() == 0,
        model.next_id < u64::MAX,
        model.now + delay <= u64::MAX,
    ensures
        ({
            let started = scheduled(model, Policy::All, seq![Task::Timer { delay, event }]);
            let after = advanced(started.model, delta);
            &&& started.events.len() == 0
            &&& started.model.groups.len() == 1
            &&& delta < delay ==> after.1.len() == 0 && after.0.groups.len() == 1
            &&& delta >= delay ==> after.1 == seq![event] && after.0.groups.len() == 0
                && after.0.timers.len() == 0 && advanced(after.0, delta).1.len() == 0
        }),
{
    let parts = seq![Task::Timer { delay, event }];
    let task = TaskId { effect: model.next_id, part: 0 };
    let entry = TimerEntry { deadline: due(model.now, delay), task, event };
    assert(parts.drop_last() == Seq::<Task<Ev>>::empty());
    assert(parts.last() == Task::Timer { delay, event });
    reveal_with_fuel(launched, 2);
    let launch = launched(parts, model.next_id, model.now, model.timers);
    assert(is_rank(model.timers, entry.deadline, 0));
    lemma_rank_unique(model.timers, entry.deadline, 0);
    assert(launch.timers == seq![entry]);
    assert(launch.slots == seq![None::<Ev>]);
    let group = GroupModel { id: model.next_id, policy: Policy::All, slots: launch.slots };
    assert(group.slots[0] is None);
    assert(!resolved(group));
    let started = scheduled(model, Policy::All, parts);
    assert(started.model.groups == seq![group]);
    let now = due(started.model.now, delta);
    reveal_with_fuel(fired, 2);
    if delta >= delay {
        let groups = started.model.groups;
        assert(holds_at(groups, task.effect, 0));
        assert(pending(groups, task.effect));
        let at = position(groups, task.effect);
        assert(holds_at(groups, task.effect, at));
        assert(at == 0);
        assert(awaits(groups, task));
        let slots = group.slots.update(0, Some(event));
        assert(slots == seq![Some(event)]);
        assert(slots[0] is Some);
        let updated = GroupModel { id: group.id, policy: group.policy, slots };
        assert(resolved(updated));
        lemma_somes_of_all(slots);
        assert(somes(slots) == seq![event]);
        let first = settled(groups, task, event);
        assert(first.0 == groups.remove(0));
        assert(first.1 == seq![event]);
        let rest = launch.timers.subrange(1, 1);
        assert(rest.len() == 0);
        assert(seq![event] + Seq::<Ev>::empty() == seq![event]);
    }
}

} // verus!
