//! The reactor: it owns the components, the routing table, the event queue and
//! the effect executor, and drives the dispatch loop one event at a time.

use crate::components::Component;
use crate::effect::{Effect, EffectBuilder, EffectKinds, Effects, TaskId};
use crate::event::Event;
use crate::executor::{
    advanced, cancelled, model_wf, scheduled, settled, Delivery, Executor, ExecutorModel, Job,
};
use crate::routing::{built, Claim, RoutingError, RoutingTable};
use core::marker::PhantomData;
use std::collections::VecDeque;
use vstd::prelude::*;

verus! {

/// Where the dispatch loop stands.
#[derive(Clone, Copy, Debug, PartialEq, Eq, Structural)]
pub enum Phase {
    /// Events are accepted and dispatched.
    Running,
    /// No event is accepted from outside; what is queued and in flight is worked off.
    Draining,
    /// Nothing is queued, nothing is in flight, nothing happens any more.
    Stopped,
}

/// What waits in the queue.
pub enum Item<P> {
    /// An event for its owner.
    Deliver(Delivery<Event<P>>),
    /// The signal to shut down.
    Shutdown,
}

/// A violation of the contract between reactor and components. The reactor
/// notes the first one and starts to drain.
#[derive(Clone, Copy, Debug, PartialEq, Eq, Structural)]
pub enum Fault {
    /// An effect produced an event of a variant that is not registered.
    Unroutable { variant: usize },
    /// The numbers for effects have run out.
    Exhausted,
}

/// Why an event from outside was not accepted.
#[derive(Clone, Copy, Debug, PartialEq, Eq, Structural)]
pub enum InjectError {
    /// The reactor is draining or stopped.
    NotRunning,
    /// The event's variant is not registered.
    Unroutable { variant: usize },
}

/// What one turn of the dispatch loop did.
#[derive(Clone, Copy, Debug, PartialEq, Eq, Structural)]
pub enum Step {
    /// The reactor is stopped.
    Stopped,
    /// The queue was empty.
    Idle,
    /// The shutdown signal was taken from the queue.
    ShuttingDown,
    /// An event was handed to this component.
    Dispatched { component: usize },
}

/// The mathematical content of a `Reactor`.
pub struct ReactorModel<P, C> {
    pub components: Seq<C>,
    /// Per event variant, the position of its owner among the components.
    pub routes: Seq<usize>,
    pub kinds: EffectKinds,
    /// The queue, next item first.
    pub queue: Seq<Item<P>>,
    pub executor: ExecutorModel<Event<P>>,
    /// Work that the worker pool has not fetched yet.
    pub jobs: Seq<Job<Event<P>>>,
    pub phase: Phase,
    pub fault: Option<Fault>,
}

/// The state in which a reactor starts: running, its clock at zero, nothing
/// queued and nothing in flight.
pub open spec fn initial<P, C>(components: Seq<C>, routes: Seq<usize>, kinds: EffectKinds) -> ReactorModel<
    P,
    C,
> {
    ReactorModel {
        components,
        routes,
        kinds,
        queue: Seq::empty(),
        executor: ExecutorModel { now: 0, next_id: 0, groups: Seq::empty(), timers: Seq::empty() },
        jobs: Seq::empty(),
        phase: Phase::Running,
        fault: None,
    }
}

/// Starts to drain, if the reactor is running.
pub open spec fn draining<P, C>(m: ReactorModel<P, C>) -> ReactorModel<P, C> {
    ReactorModel {
        phase: if m.phase is Running {
            Phase::Draining
        } else {
            m.phase
        },
        ..m
    }
}

/// Notes a fault, unless one is noted already, and starts to drain.
pub open spec fn faulted<P, C>(m: ReactorModel<P, C>, fault: Fault) -> ReactorModel<P, C> {
    ReactorModel {
        fault: if m.fault is Some {
            m.fault
        } else {
            Some(fault)
        },
        ..draining(m)
    }
}

/// Appends an event to the queue; one of an unregistered variant is a fault instead.
pub open spec fn admitted_one<P, C>(m: ReactorModel<P, C>, delivery: Delivery<Event<P>>) -> ReactorModel<
    P,
    C,
> {
    if delivery.event.variant < m.routes.len() {
        ReactorModel { queue: m.queue.push(Item::Deliver(delivery)), ..m }
    } else {
        faulted(m, Fault::Unroutable { variant: delivery.event.variant })
    }
}

/// Appends events to the queue, in order.
pub open spec fn admitted<P, C>(m: ReactorModel<P, C>, deliveries: Seq<Delivery<Event<P>>>) -> ReactorModel<
    P,
    C,
>
    decreases deliveries.len(),
{
    if deliveries.len() == 0 {
        m
    } else {
        admitted_one(admitted(m, deliveries.drop_last()), deliveries.last())
    }
}

/// Events that answer no request.
pub open spec fn plain<P>(events: Seq<Event<P>>) -> Seq<Delivery<Event<P>>> {
    Seq::new(events.len(), |i: int| Delivery { event: events[i], reply_to: None })
}

/// Takes one effect in: deferred work is scheduled, its requests and the
/// events it releases at once are queued, its jobs are put out for the worker
/// pool; an answer completes the request it answers; the fatal effect starts
/// the drain.
pub open spec fn absorbed_one<P, C>(m: ReactorModel<P, C>, effect: Effect<Event<P>>) -> ReactorModel<
    P,
    C,
> {
    match effect {
        Effect::Run { policy, parts } => if m.executor.next_id == u64::MAX {
            faulted(m, Fault::Exhausted)
        } else {
            let started = scheduled(m.executor, policy, parts@);
            admitted(
                admitted(
                    ReactorModel { executor: started.model, jobs: m.jobs + started.jobs, ..m },
                    started.requests,
                ),
                plain(started.events),
            )
        },
        Effect::Respond { to, response } => {
            let after = settled(m.executor.groups, to, response);
            admitted(
                ReactorModel { executor: ExecutorModel { groups: after.0, ..m.executor }, ..m },
                plain(after.1),
            )
        },
        Effect::Fatal => draining(m),
    }
}

/// Takes effects in, in order.
pub open spec fn absorbed<P, C>(m: ReactorModel<P, C>, effects: Seq<Effect<Event<P>>>) -> ReactorModel<
    P,
    C,
>
    decreases effects.len(),
{
    if effects.len() == 0 {
        m
    } else {
        absorbed_one(absorbed(m, effects.drop_last()), effects.last())
    }
}

/// A draining reactor with nothing queued and nothing in flight stops.
pub open spec fn rested<P, C>(m: ReactorModel<P, C>) -> ReactorModel<P, C> {
    if m.phase is Draining && m.queue.len() == 0 && m.executor.groups.len() == 0 {
        ReactorModel { phase: Phase::Stopped, ..m }
    } else {
        m
    }
}

/// Hands an event to the component at `owner` and takes its effects in. Only
/// that component changes.
pub open spec fn delivered<P, C, R>(
    m: ReactorModel<P, C>,
    rng: R,
    owner: int,
    delivery: Delivery<Event<P>>,
) -> (ReactorModel<P, C>, R) where C: Component<Event<P>, R, Event = Event<P>> {
    let reaction = m.components[owner].reaction(m.kinds, delivery.reply_to, rng, delivery.event);
    (
        absorbed(
            ReactorModel { components: m.components.update(owner, reaction.component), ..m },
            reaction.effects,
        ),
        reaction.rng,
    )
}

/// One turn of the dispatch loop: the next item is taken from the queue; an
/// event goes to the owner of its variant, the shutdown signal starts the drain.
pub open spec fn stepped<P, C, R>(m: ReactorModel<P, C>, rng: R) -> (
    ReactorModel<P, C>,
    R,
) where C: Component<Event<P>, R, Event = Event<P>> {
    if m.phase is Stopped {
        (m, rng)
    } else if m.queue.len() == 0 {
        (rested(m), rng)
    } else {
        let rest = ReactorModel { queue: m.queue.subrange(1, m.queue.len() as int), ..m };
        match m.queue[0] {
            Item::Shutdown => (rested(draining(rest)), rng),
            Item::Deliver(delivery) => {
                let after = delivered(rest, rng, m.routes[delivery.event.variant as int] as int, delivery);
                (rested(after.0), after.1)
            },
        }
    }
}

/// What the turn is reported as.
pub open spec fn step_of<P, C>(m: ReactorModel<P, C>) -> Step {
    if m.phase is Stopped {
        Step::Stopped
    } else if m.queue.len() == 0 {
        Step::Idle
    } else {
        match m.queue[0] {
            Item::Shutdown => Step::ShuttingDown,
            Item::Deliver(delivery) => Step::Dispatched {
                component: m.routes[delivery.event.variant as int],
            },
        }
    }
}

/// Whether an item can be dispatched: its variant is registered.
pub open spec fn routable<P>(routes: Seq<usize>, item: Item<P>) -> bool {
    item matches Item::Deliver(delivery) ==> delivery.event.variant < routes.len()
}

/// The invariant of a reactor.
pub open spec fn model_ok<P, C, R>(m: ReactorModel<P, C>) -> bool where
    C: Component<Event<P>, R, Event = Event<P>>,
 {
    &&& model_wf(m.executor)
    &&& forall|v: int| 0 <= v < m.routes.len() ==> #[trigger] m.routes[v] < m.components.len()
    &&& forall|i: int| 0 <= i < m.components.len() ==> (#[trigger] m.components[i]).valid()
    &&& forall|i: int| 0 <= i < m.queue.len() ==> routable(m.routes, #[trigger] m.queue[i])
    &&& m.phase is Stopped ==> m.queue.len() == 0 && m.executor.groups.len() == 0
    &&& m.fault is Some ==> !(m.phase is Running)
}

/// The reactor.
pub struct Reactor<P, C, R> {
    components: Vec<C>,
    routes: RoutingTable,
    kinds: EffectKinds,
    queue: VecDeque<Item<P>>,
    executor: Executor<Event<P>>,
    jobs: Vec<Job<Event<P>>>,
    phase: Phase,
    fault: Option<Fault>,
    marker: PhantomData<R>,
}

impl<P, C, R> View for Reactor<P, C, R> {
    type V = ReactorModel<P, C>;

    closed spec fn view(&self) -> ReactorModel<P, C> {
        ReactorModel {
            components: self.components@,
            routes: self.routes@,
            kinds: self.kinds,
            queue: self.queue@,
            executor: self.executor@,
            jobs: self.jobs@,
            phase: self.phase,
            fault: self.fault,
        }
    }
}

impl<P, C, R> Reactor<P, C, R> where C: Component<Event<P>, R, Event = Event<P>> {
    /// The invariant: the executor's own; every route leads to a component;
    /// every component is valid; every queued event can be routed; a stopped
    /// reactor holds nothing; a fault ends the running phase.
    pub closed spec fn wf(&self) -> bool {
        &&& model_ok::<P, C, R>(self@)
        &&& self.routes.wf()
        &&& self.routes.components() == self.components@.len()
    }

    /// What `wf` says of the model.
    pub proof fn lemma_wf(&self)
        requires
            self.wf(),
        ensures
            model_ok::<P, C, R>(self@),
    {
    }

    /// Builds a running reactor from its components in their initial states,
    /// the number of event variants, the claims of ownership and the supported
    /// kinds of work. Fails unless every variant has exactly one owner.
    pub fn new(components: Vec<C>, variants: usize, claims: &Vec<Claim>, kinds: EffectKinds) -> (reactor: Result<
        Self,
        RoutingError,
    >)
        requires
            forall|i: int| 0 <= i < components@.len() ==> (#[trigger] components@[i]).valid(),
        ensures
            match reactor {
                Ok(r) => r.wf() && built(variants, components@.len() as usize, claims@) is Ok && r@
                    == initial::<P, C>(
                    components@,
                    built(variants, components@.len() as usize, claims@)->Ok_0,
                    kinds,
                ),
                Err(e) => built(variants, components@.len() as usize, claims@) == Err::<
                    Seq<usize>,
                    RoutingError,
                >(e),
            },
    {
        match RoutingTable::build(variants, components.len(), claims) {
            Err(e) => Err(e),
            Ok(routes) => {
                let reactor = Reactor {
                    components,
                    routes,
                    kinds,
                    queue: VecDeque::new(),
                    executor: Executor::new(),
                    jobs: Vec::new(),
                    phase: Phase::Running,
                    fault: None,
                    marker: PhantomData,
                };
                Ok(reactor)
            },
        }
    }

    /// The phase of the dispatch loop.
    pub fn phase(&self) -> (phase: Phase)
        ensures
            phase == self@.phase,
    {
        self.phase
    }

    /// The first contract violation, if there was one.
    pub fn fault(&self) -> (fault: Option<Fault>)
        ensures
            fault == self@.fault,
    {
        self.fault
    }

    /// The number of queued items.
    pub fn queued(&self) -> (n: usize)
        ensures
            n == self@.queue.len(),
    {
        self.queue.len()
    }

    /// The number of effects in flight.
    pub fn in_flight(&self) -> (n: usize)
        ensures
            n == self@.executor.groups.len(),
    {
        self.executor.in_flight()
    }

    /// The clock.
    pub fn now(&self) -> (now: u64)
        ensures
            now == self@.executor.now,
    {
        self.executor.now()
    }

    /// The number of components.
    pub fn components(&self) -> (n: usize)
        ensures
            n == self@.components.len(),
    {
        self.components.len()
    }

    /// A look at one component, for snapshots.
    pub fn component(&self, index: usize) -> (component: &C)
        requires
            index < self@.components.len(),
        ensures
            *component == self@.components[index as int],
    {
        &self.components[index]
    }

    /// Stops, if the reactor is draining and holds nothing.
    fn rest(&mut self)
        requires
            old(self).wf(),
        ensures
            final(self).wf(),
            final(self)@ == rested(old(self)@),
    {
        if self.phase == Phase::Draining && self.queue.len() == 0 && self.executor.is_idle() {
            self.phase = Phase::Stopped;
        }
    }

    /// Notes a fault and starts to drain.
    fn fail(&mut self, fault: Fault)
        requires
            old(self).wf(),
            !(old(self)@.phase is Stopped),
        ensures
            final(self).wf(),
            final(self)@ == faulted(old(self)@, fault),
            !(final(self)@.phase is Stopped),
    {
        if self.phase == Phase::Running {
            self.phase = Phase::Draining;
        }
        if self.fault.is_none() {
            self.fault = Some(fault);
        }
    }

    /// Queues events, in order.
    fn enqueue(&mut self, deliveries: Vec<Delivery<Event<P>>>)
        requires
            old(self).wf(),
            !(old(self)@.phase is Stopped),
        ensures
            final(self).wf(),
            final(self)@ == admitted(old(self)@, deliveries@),
            !(final(self)@.phase is Stopped),
    {
        let mut deliveries = deliveries;
        let ghost all = deliveries@;
        let ghost start = self@;
        let total = deliveries.len();
        let mut k: usize = 0;
        while deliveries.len() > 0
            invariant
                self.wf(),
                !(self@.phase is Stopped),
                all.len() == total,
                k + deliveries@.len() == all.len(),
                deliveries@ == all.subrange(k as int, all.len() as int),
                self@ == admitted(start, all.take(k as int)),
            decreases deliveries@.len(),
        {
            let delivery = deliveries.remove(0);
            proof {
                assert(delivery == all[k as int]);
                assert(all.take(k + 1).drop_last() == all.take(k as int));
                assert(all.take(k + 1).last() == all[k as int]);
                assert(deliveries@ == all.subrange(k + 1, all.len() as int));
            }
            if delivery.event.variant < self.routes.variants() {
                self.queue.push_back(Item::Deliver(delivery));
            } else {
                self.fail(Fault::Unroutable { variant: delivery.event.variant });
            }
            k = k + 1;
        }
        proof {
            assert(all.take(k as int) == all);
        }
    }
}

/// Wraps events that answer no request.
fn wrap<P>(events: Vec<Event<P>>) -> (deliveries: Vec<Delivery<Event<P>>>)
    ensures
        deliveries@ == plain(events@),
{
    let mut events = events;
    let ghost all = events@;
    let total = events.len();
    let mut deliveries: Vec<Delivery<Event<P>>> = Vec::new();
    let mut k: usize = 0;
    while events.len() > 0
        invariant
            all.len() == total,
            k + events@.len() == all.len(),
            events@ == all.subrange(k as int, all.len() as int),
            deliveries@ == plain(all.take(k as int)),
        decreases events@.len(),
    {
        let event = events.remove(0);
        proof {
            assert(event == all[k as int]);
            assert(events@ == all.subrange(k + 1, all.len() as int));
            assert(plain(all.take(k as int)).push(Delivery { event, reply_to: None }) == plain(
                all.take(k + 1),
            ));
        }
        deliveries.push(Delivery { event, reply_to: None });
        k = k + 1;
    }
    proof {
        assert(all.take(k as int) == all);
    }
    deliveries
}

impl<P, C, R> Reactor<P, C, R> where C: Component<Event<P>, R, Event = Event<P>> {
    /// Takes one effect in.
    fn absorb_one(&mut self, effect: Effect<Event<P>>)
        requires
            old(self).wf(),
            !(old(self)@.phase is Stopped),
        ensures
            final(self).wf(),
            final(self)@ == absorbed_one(old(self)@, effect),
            !(final(self)@.phase is Stopped),
    {
        match effect {
            Effect::Run { policy, parts } => {
                match self.executor.schedule(policy, parts) {
                    None => {
                        self.fail(Fault::Exhausted);
                    },
                    Some(outcome) => {
                        let mut jobs = outcome.jobs;
                        self.jobs.append(&mut jobs);
                        self.enqueue(outcome.requests);
                        self.enqueue(wrap(outcome.events));
                    },
                }
            },
            Effect::Respond { to, response } => {
                let released = self.executor.complete(to, response);
                self.enqueue(wrap(released));
            },
            Effect::Fatal => {
                if self.phase == Phase::Running {
                    self.phase = Phase::Draining;
                }
            },
        }
    }

    /// Takes in the effects that a component handed back, in order: it
    /// schedules deferred work, queues what is released at once, passes
    /// answers on, and starts the drain on the fatal effect. A stopped reactor
    /// takes nothing in.
    pub fn absorb(&mut self, effects: Effects<Event<P>>)
        requires
            old(self).wf(),
        ensures
            final(self).wf(),
            final(self)@ == (if old(self)@.phase is Stopped {
                old(self)@
            } else {
                absorbed(old(self)@, effects@)
            }),
            old(self)@.phase is Stopped == final(self)@.phase is Stopped,
    {
        if self.phase == Phase::Stopped {
            return ;
        }
        let mut effects = effects;
        let ghost all = effects@;
        let ghost start = self@;
        let total = effects.len();
        let mut k: usize = 0;
        while effects.len() > 0
            invariant
                self.wf(),
                !(self@.phase is Stopped),
                all.len() == total,
                k + effects@.len() == all.len(),
                effects@ == all.subrange(k as int, all.len() as int),
                self@ == absorbed(start, all.take(k as int)),
            decreases effects@.len(),
        {
            let effect = effects.remove(0);
            proof {
                assert(effect == all[k as int]);
                assert(all.take(k + 1).drop_last() == all.take(k as int));
                assert(all.take(k + 1).last() == all[k as int]);
                assert(effects@ == all.subrange(k + 1, all.len() as int));
            }
            self.absorb_one(effect);
            k = k + 1;
        }
        proof {
            assert(all.take(k as int) == all);
        }
    }

    /// Hands an event to one component and takes its effects in.
    fn deliver(&mut self, owner: usize, delivery: Delivery<Event<P>>, rng: &mut R)
        requires
            old(self).wf(),
            !(old(self)@.phase is Stopped),
            owner < old(self)@.components.len(),
        ensures
            final(self).wf(),
            (final(self)@, *final(rng)) == delivered(old(self)@, *old(rng), owner as int, delivery),
            !(final(self)@.phase is Stopped),
            final(self)@.components.len() == old(self)@.components.len(),
            forall|i: int|
                0 <= i < old(self)@.components.len() && i != owner ==> final(self)@.components[i]
                    == old(self)@.components[i],
            C::idempotent(delivery.event) && old(self)@.components[owner as int].seen(delivery.event)
                ==> final(self)@.components == old(self)@.components,
    {
        let builder = EffectBuilder::new(self.kinds, delivery.reply_to);
        let ghost before = self@;
        let mut component = self.components.remove(owner);
        let effects = component.handle_event(builder, rng, delivery.event);
        self.components.insert(owner, component);
        proof {
            assert(self@.components =~= before.components.update(owner as int, component));
            if C::idempotent(delivery.event) && before.components[owner as int].seen(delivery.event) {
                assert(self@.components =~= before.components);
            }
            assert forall|i: int| 0 <= i < self@.components.len() implies (
            #[trigger] self@.components[i]).valid() by {
                if i != owner {
                    assert(before.components[i].valid());
                }
            }
            assert forall|i: int| 0 <= i < self@.queue.len() implies routable(
                self@.routes,
                #[trigger] self@.queue[i],
            ) by {
                assert(routable(before.routes, before.queue[i]));
            }
        }
        let ghost handed = self@;
        self.absorb(effects);
        proof {
            lemma_absorbed_keeps_components(handed, effects@);
        }
    }

    /// One turn of the dispatch loop. It takes the next item from the queue:
    /// an event goes to the owner of its variant, whose effects are taken in;
    /// the shutdown signal starts the drain. A draining reactor that holds
    /// nothing afterwards stops. Only the owner changes; a second delivery of
    /// an event marked idempotent changes no component.
    pub fn step(&mut self, rng: &mut R) -> (outcome: Step)
        requires
            old(self).wf(),
        ensures
            final(self).wf(),
            (final(self)@, *final(rng)) == stepped(old(self)@, *old(rng)),
            outcome == step_of(old(self)@),
            final(self)@.components.len() == old(self)@.components.len(),
            forall|i: int|
                0 <= i < old(self)@.components.len() && outcome != (Step::Dispatched {
                    component: i as usize,
                }) ==> final(self)@.components[i] == old(self)@.components[i],
            outcome matches Step::Dispatched { component } ==> component < old(self)@.components.len()
                && old(self)@.queue.len() > 0 && (old(self)@.queue[0] matches Item::Deliver(d) && (
            C::idempotent(d.event) && old(self)@.components[component as int].seen(d.event)
                ==> final(self)@.components == old(self)@.components)),
    {
        if self.phase == Phase::Stopped {
            return Step::Stopped;
        }
        let ghost before = self@;
        match self.queue.pop_front() {
            None => {
                self.rest();
                Step::Idle
            },
            Some(Item::Shutdown) => {
                if self.phase == Phase::Running {
                    self.phase = Phase::Draining;
                }
                assert(forall|i: int|
                    0 <= i < self@.queue.len() ==> #[trigger] self@.queue[i] == before.queue[i + 1]);
                self.rest();
                Step::ShuttingDown
            },
            Some(Item::Deliver(delivery)) => {
                assert(routable(before.routes, before.queue[0]));
                assert(forall|i: int|
                    0 <= i < self@.queue.len() ==> #[trigger] self@.queue[i] == before.queue[i + 1]);
                let owner = self.routes.route(delivery.event.variant).unwrap();
                self.deliver(owner, delivery, rng);
                let ghost after = self@;
                self.rest();
                assert(self@.components == after.components);
                Step::Dispatched { component: owner }
            },
        }
    }

    /// Hands an event straight to the component at `component`, past the queue
    /// and the routing table, and takes its effects in. Gives `false`, and
    /// changes nothing, where there is no such component or the reactor is
    /// stopped. A second delivery of an event marked idempotent changes no
    /// component.
    pub fn inject_into(
        &mut self,
        component: usize,
        event: Event<P>,
        reply_to: Option<TaskId>,
        rng: &mut R,
    ) -> (taken: bool)
        requires
            old(self).wf(),
        ensures
            final(self).wf(),
            taken == (component < old(self)@.components.len() && !(old(self)@.phase is Stopped)),
            !taken ==> final(self)@ == old(self)@ && *final(rng) == *old(rng),
            taken ==> {
                let after = delivered(
                    old(self)@,
                    *old(rng),
                    component as int,
                    Delivery { event, reply_to },
                );
                final(self)@ == rested(after.0) && *final(rng) == after.1
            },
            taken && C::idempotent(event) && old(self)@.components[component as int].seen(event)
                ==> final(self)@.components == old(self)@.components,
    {
        if component >= self.components.len() || self.phase == Phase::Stopped {
            return false;
        }
        self.deliver(component, Delivery { event, reply_to }, rng);
        self.rest();
        true
    }

    /// Accepts an event from outside and queues it behind what is queued. A
    /// reactor that is not running accepts none; an event whose variant is not
    /// registered is refused.
    pub fn inject(&mut self, event: Event<P>) -> (accepted: Result<(), InjectError>)
        requires
            old(self).wf(),
        ensures
            final(self).wf(),
            accepted == (if !(old(self)@.phase is Running) {
                Err::<(), InjectError>(InjectError::NotRunning)
            } else if event.variant >= old(self)@.routes.len() {
                Err(InjectError::Unroutable { variant: event.variant })
            } else {
                Ok(())
            }),
            final(self)@ == injected(old(self)@, event),
    {
        if self.phase != Phase::Running {
            return Err(InjectError::NotRunning);
        }
        if event.variant >= self.routes.variants() {
            return Err(InjectError::Unroutable { variant: event.variant });
        }
        self.queue.push_back(Item::Deliver(Delivery { event, reply_to: None }));
        Ok(())
    }

    /// Queues the shutdown signal, if the reactor is running. When the loop
    /// comes to it, the reactor starts to drain.
    pub fn shutdown(&mut self) -> (accepted: bool)
        requires
            old(self).wf(),
        ensures
            final(self).wf(),
            accepted == (old(self)@.phase is Running),
            final(self)@ == signalled(old(self)@),
    {
        if self.phase != Phase::Running {
            return false;
        }
        self.queue.push_back(Item::Shutdown);
        true
    }

    /// Moves the clock on and queues the events of the timers that fire,
    /// soonest first. A stopped reactor has no clock to move.
    pub fn advance(&mut self, delta: u64)
        requires
            old(self).wf(),
        ensures
            final(self).wf(),
            final(self)@ == ticked(old(self)@, delta),
    {
        if self.phase == Phase::Stopped {
            return ;
        }
        let released = self.executor.advance(delta);
        self.enqueue(wrap(released));
        self.rest();
    }

    /// Takes the answer of the worker pool, or of any outside work, for one
    /// part. An answer for a part that is not awaited is dropped.
    pub fn complete(&mut self, task: TaskId, event: Event<P>)
        requires
            old(self).wf(),
        ensures
            final(self).wf(),
            final(self)@ == answered(old(self)@, task, event),
    {
        if self.phase == Phase::Stopped {
            return ;
        }
        let released = self.executor.complete(task, event);
        self.enqueue(wrap(released));
        self.rest();
    }

    /// Cancels an effect in flight: it will produce no event. Tells whether it
    /// was in flight.
    pub fn cancel(&mut self, effect: u64) -> (was_pending: bool)
        requires
            old(self).wf(),
        ensures
            final(self).wf(),
            was_pending == crate::executor::pending(old(self)@.executor.groups, effect),
            final(self)@ == dropped(old(self)@, effect),
    {
        if self.phase == Phase::Stopped {
            return false;
        }
        let was_pending = self.executor.cancel(effect);
        self.rest();
        was_pending
    }

    /// Hands out the work that waits for the worker pool.
    pub fn take_jobs(&mut self) -> (jobs: Vec<Job<Event<P>>>)
        requires
            old(self).wf(),
        ensures
            final(self).wf(),
            jobs@ == old(self)@.jobs,
            final(self)@ == (ReactorModel { jobs: Seq::empty(), ..old(self)@ }),
    {
        let mut jobs: Vec<Job<Event<P>>> = Vec::new();
        jobs.append(&mut self.jobs);
        jobs
    }

    /// When the next timer fires that still matters, if there is one.
    pub fn next_deadline(&self) -> (deadline: Option<u64>)
        requires
            self.wf(),
        ensures
            deadline == crate::executor::next_due(self@.executor.groups, self@.executor.timers),
    {
        self.executor.next_deadline()
    }
}

/// The state after an event has come from outside: a running reactor queues
/// it behind what is queued, if its variant is registered; otherwise nothing changes.
pub open spec fn injected<P, C>(m: ReactorModel<P, C>, event: Event<P>) -> ReactorModel<P, C> {
    if m.phase is Running && event.variant < m.routes.len() {
        ReactorModel {
            queue: m.queue.push(Item::Deliver(Delivery { event, reply_to: None })),
            ..m
        }
    } else {
        m
    }
}

/// The state after shutdown has been asked for: a running reactor queues the signal.
pub open spec fn signalled<P, C>(m: ReactorModel<P, C>) -> ReactorModel<P, C> {
    if m.phase is Running {
        ReactorModel { queue: m.queue.push(Item::Shutdown), ..m }
    } else {
        m
    }
}

/// The state after the clock has moved on.
pub open spec fn ticked<P, C>(m: ReactorModel<P, C>, delta: u64) -> ReactorModel<P, C> {
    if m.phase is Stopped {
        m
    } else {
        let after = advanced(m.executor, delta);
        rested(admitted(ReactorModel { executor: after.0, ..m }, plain(after.1)))
    }
}

/// The state after outside work has answered for a part.
pub open spec fn answered<P, C>(m: ReactorModel<P, C>, task: TaskId, event: Event<P>) -> ReactorModel<
    P,
    C,
> {
    if m.phase is Stopped {
        m
    } else {
        let after = settled(m.executor.groups, task, event);
        rested(
            admitted(
                ReactorModel { executor: ExecutorModel { groups: after.0, ..m.executor }, ..m },
                plain(after.1),
            ),
        )
    }
}

/// The state after an effect has been cancelled.
pub open spec fn dropped<P, C>(m: ReactorModel<P, C>, effect: u64) -> ReactorModel<P, C> {
    if m.phase is Stopped {
        m
    } else {
        rested(
            ReactorModel {
                executor: ExecutorModel {
                    groups: cancelled(m.executor.groups, effect),
                    ..m.executor
                },
                ..m
            },
        )
    }
}

/// First in, first out. Events of registered variants are queued behind what
/// is queued, in the order in which they were released, and nothing else changes.
pub proof fn lemma_admitted_in_order<P, C>(m: ReactorModel<P, C>, deliveries: Seq<Delivery<Event<P>>>)
    requires
        forall|i: int|
            0 <= i < deliveries.len() ==> (#[trigger] deliveries[i]).event.variant < m.routes.len(),
    ensures
        admitted(m, deliveries) == (ReactorModel {
            queue: m.queue + Seq::new(deliveries.len(), |i: int| Item::Deliver(deliveries[i])),
            ..m
        }),
    decreases deliveries.len(),
{
    let items = Seq::new(deliveries.len(), |i: int| Item::Deliver(deliveries[i]));
    if deliveries.len() == 0 {
        assert(m.queue + items == m.queue);
    } else {
        let front = deliveries.drop_last();
        lemma_admitted_in_order(m, front);
        let before = Seq::new(front.len(), |i: int| Item::Deliver(front[i]));
        assert((m.queue + before).push(Item::Deliver(deliveries.last())) == m.queue + items);
    }
}

/// Queueing events changes no component.
pub proof fn lemma_admitted_keeps_components<P, C>(
    m: ReactorModel<P, C>,
    deliveries: Seq<Delivery<Event<P>>>,
)
    ensures
        admitted(m, deliveries).components == m.components,
        admitted(m, deliveries).routes == m.routes,
        admitted(m, deliveries).kinds == m.kinds,
    decreases deliveries.len(),
{
    if deliveries.len() > 0 {
        lemma_admitted_keeps_components(m, deliveries.drop_last());
    }
}

/// Taking effects in changes no component: only entry points do.
pub proof fn lemma_absorbed_keeps_components<P, C>(m: ReactorModel<P, C>, effects: Seq<Effect<Event<P>>>)
    ensures
        absorbed(m, effects).components == m.components,
        absorbed(m, effects).routes == m.routes,
        absorbed(m, effects).kinds == m.kinds,
    decreases effects.len(),
{
    if effects.len() > 0 {
        lemma_absorbed_keeps_components(m, effects.drop_last());
        let before = absorbed(m, effects.drop_last());
        match effects.last() {
            Effect::Run { policy, parts } => {
                if before.executor.next_id != u64::MAX {
                    let started = scheduled(before.executor, policy, parts@);
                    let first = ReactorModel {
                        executor: started.model,
                        jobs: before.jobs + started.jobs,
                        ..before
                    };
                    lemma_admitted_keeps_components(first, started.requests);
                    lemma_admitted_keeps_components(
                        admitted(first, started.requests),
                        plain(started.events),
                    );
                }
            },
            Effect::Respond { to, response } => {
                let after = settled(before.executor.groups, to, response);
                lemma_admitted_keeps_components(
                    ReactorModel {
                        executor: ExecutorModel { groups: after.0, ..before.executor },
                        ..before
                    },
                    plain(after.1),
                );
            },
            Effect::Fatal => {},
        }
    }
}

} // verus!
