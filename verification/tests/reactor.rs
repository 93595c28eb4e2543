use node_reactor::components::{Component, Reaction};
use node_reactor::effect::{Effect, EffectBuilder, EffectKinds, Effects, TaskId};
use node_reactor::event::Event;
use node_reactor::reactor::{Fault, InjectError, Phase, Reactor, Step};
use node_reactor::replay::Input;
use node_reactor::routing::{Claim, RoutingError};
use rand::rngs::StdRng;
use rand::{CryptoRng, Rng, SeedableRng};

const PING: usize = 0;
const TICK: usize = 1;
const ASK: usize = 2;
const REPLY: usize = 3;
const GOSSIP: usize = 4;
const WORK: usize = 5;
const DONE: usize = 6;
const RACE: usize = 7;
const BREAK: usize = 8;
const STRAY: usize = 9;
const ROLL: usize = 10;
const VARIANTS: usize = 11;

/// A component for the tests. What it does depends on the variant of the event.
#[derive(Clone, Debug, PartialEq, Eq)]
struct Node {
    log: Vec<(usize, u64)>,
    gossip: Vec<u64>,
    rolls: Vec<u64>,
}

impl Node {
    fn new() -> Self {
        Node { log: Vec::new(), gossip: Vec::new(), rolls: Vec::new() }
    }
}

impl<R: Rng + CryptoRng> Component<Event<u64>, R> for Node {
    type Event = Event<u64>;

    fn valid(&self) -> bool {
        unreachable!()
    }

    fn idempotent(_event: Event<u64>) -> bool {
        unreachable!()
    }

    fn seen(&self, _event: Event<u64>) -> bool {
        unreachable!()
    }

    fn reaction(
        &self,
        _kinds: EffectKinds,
        _reply_to: Option<TaskId>,
        _rng: R,
        _event: Event<u64>,
    ) -> Reaction<Self, R, Event<u64>> {
        unreachable!()
    }

    fn handle_event(
        &mut self,
        effect_builder: EffectBuilder<Event<u64>>,
        rng: &mut R,
        event: Event<u64>,
    ) -> Effects<Event<u64>> {
        let mut effects = Vec::new();
        if event.variant == GOSSIP {
            if !self.gossip.contains(&event.payload) {
                self.gossip.push(event.payload);
            }
            return effects;
        }
        self.log.push((event.variant, event.payload));
        match event.variant {
            PING => {
                effects.extend(effect_builder.set_timeout(event.payload, Event::new(TICK, event.payload)));
            }
            ASK => {
                if effect_builder.current_request().is_some() {
                    effects.extend(effect_builder.respond(Event::new(REPLY, event.payload + 1)));
                } else {
                    effects.extend(effect_builder.make_request(Event::new(ASK, event.payload)));
                }
            }
            WORK => {
                let parts = vec![
                    effect_builder.job(Event::new(WORK, 1)).unwrap(),
                    effect_builder.job(Event::new(WORK, 2)).unwrap(),
                    effect_builder.job(Event::new(WORK, 3)).unwrap(),
                ];
                effects.push(effect_builder.join(parts));
            }
            RACE => {
                let parts = vec![
                    effect_builder.timer(10, Event::new(DONE, 'a' as u64)).unwrap(),
                    effect_builder.timer(50, Event::new(DONE, 'b' as u64)).unwrap(),
                ];
                effects.push(effect_builder.race(parts));
            }
            BREAK => {
                effects.push(effect_builder.fatal());
            }
            STRAY => {
                effects.push(effect_builder.immediately(Event::new(VARIANTS + 5, 0)));
            }
            ROLL => {
                let roll: u64 = rng.gen_range(0, 1_000_000);
                self.rolls.push(roll);
                effects.push(effect_builder.immediately(Event::new(DONE, roll)));
            }
            _ => {}
        }
        effects
    }
}

fn all_kinds() -> EffectKinds {
    EffectKinds { timers: true, requests: true, offloading: true }
}

/// Two components: the first owns the even variants, the second the odd ones.
fn claims() -> Vec<Claim> {
    (0..VARIANTS).map(|variant| Claim { variant, component: variant % 2 }).collect()
}

fn reactor() -> Reactor<u64, Node, StdRng> {
    match Reactor::new(vec![Node::new(), Node::new()], VARIANTS, &claims(), all_kinds()) {
        Ok(reactor) => reactor,
        Err(error) => panic!("no reactor: {:?}", error),
    }
}

fn build(variants: usize, components: usize, claims: Vec<Claim>) -> Result<(), RoutingError> {
    let nodes = (0..components).map(|_| Node::new()).collect();
    Reactor::<u64, Node, StdRng>::new(nodes, variants, &claims, all_kinds()).map(|_| ())
}

#[test]
fn a_variant_without_owner_fails_construction() {
    let mut some = claims();
    some.remove(3);
    assert_eq!(build(VARIANTS, 2, some), Err(RoutingError::Unroutable { variant: 3 }));
    assert_eq!(build(1, 1, vec![]), Err(RoutingError::Unroutable { variant: 0 }));
}

#[test]
fn a_variant_with_two_owners_fails_construction() {
    let mut twice = claims();
    twice.push(Claim { variant: 4, component: 1 });
    assert_eq!(build(VARIANTS, 2, twice), Err(RoutingError::Ambiguous { variant: 4 }));
}

#[test]
fn a_claim_for_an_unknown_component_or_variant_fails_construction() {
    assert_eq!(
        build(2, 1, vec![Claim { variant: 0, component: 0 }, Claim { variant: 1, component: 1 }]),
        Err(RoutingError::UnknownComponent { claim: 1 })
    );
    assert_eq!(
        build(1, 1, vec![Claim { variant: 1, component: 0 }]),
        Err(RoutingError::UnknownVariant { claim: 0 })
    );
}

#[test]
fn the_first_claim_that_cannot_stand_is_reported() {
    assert_eq!(
        build(
            3,
            1,
            vec![
                Claim { variant: 0, component: 0 },
                Claim { variant: 0, component: 0 },
                Claim { variant: 7, component: 0 },
            ]
        ),
        Err(RoutingError::Ambiguous { variant: 0 })
    );
}

#[test]
fn a_reactor_of_no_variants_and_no_components_is_built() {
    assert_eq!(build(0, 0, vec![]), Ok(()));
}

#[test]
fn events_reach_their_owners_in_arrival_order() {
    let mut reactor = reactor();
    let mut rng = StdRng::seed_from_u64(1);
    assert_eq!(reactor.inject(Event::new(DONE, 1)), Ok(()));
    assert_eq!(reactor.inject(Event::new(TICK, 2)), Ok(()));
    assert_eq!(reactor.inject(Event::new(DONE, 3)), Ok(()));
    assert_eq!(reactor.queued(), 3);
    assert_eq!(reactor.step(&mut rng), Step::Dispatched { component: 0 });
    assert_eq!(reactor.step(&mut rng), Step::Dispatched { component: 1 });
    assert_eq!(reactor.step(&mut rng), Step::Dispatched { component: 0 });
    assert_eq!(reactor.step(&mut rng), Step::Idle);
    assert_eq!(reactor.component(0).log, vec![(DONE, 1), (DONE, 3)]);
    assert_eq!(reactor.component(1).log, vec![(TICK, 2)]);
}

#[test]
fn an_unregistered_variant_is_refused_at_the_door() {
    let mut reactor = reactor();
    assert_eq!(
        reactor.inject(Event::new(VARIANTS, 0)),
        Err(InjectError::Unroutable { variant: VARIANTS })
    );
    assert_eq!(reactor.queued(), 0);
    assert_eq!(reactor.phase(), Phase::Running);
}

#[test]
fn timer_for_100_units_delivers_exactly_one_tick() {
    let mut reactor = reactor();
    let mut rng = StdRng::seed_from_u64(1);
    reactor.inject(Event::new(PING, 100)).unwrap();
    assert_eq!(reactor.step(&mut rng), Step::Dispatched { component: 0 });
    assert_eq!(reactor.in_flight(), 1);
    assert_eq!(reactor.next_deadline(), Some(100));
    reactor.advance(100);
    assert_eq!(reactor.queued(), 1);
    assert_eq!(reactor.step(&mut rng), Step::Dispatched { component: 1 });
    assert_eq!(reactor.component(1).log, vec![(TICK, 100)]);
    reactor.advance(100);
    reactor.advance(1000);
    assert_eq!(reactor.queued(), 0);
    assert_eq!(reactor.crank(10, &mut rng), 0);
    assert_eq!(reactor.component(1).log, vec![(TICK, 100)]);
}

#[test]
fn timer_does_not_fire_one_unit_early() {
    let mut reactor = reactor();
    let mut rng = StdRng::seed_from_u64(1);
    reactor.inject(Event::new(PING, 100)).unwrap();
    reactor.step(&mut rng);
    reactor.advance(99);
    assert_eq!(reactor.queued(), 0);
    assert_eq!(reactor.now(), 99);
    reactor.advance(1);
    assert_eq!(reactor.queued(), 1);
}

#[test]
fn join_of_three_with_two_complete_emits_no_event() {
    let mut reactor = reactor();
    let mut rng = StdRng::seed_from_u64(1);
    reactor.inject(Event::new(WORK, 0)).unwrap();
    reactor.step(&mut rng);
    let jobs = reactor.take_jobs();
    assert_eq!(jobs.len(), 3);
    assert_eq!(jobs[0].job, Event::new(WORK, 1));
    assert_eq!(jobs[2].job, Event::new(WORK, 3));
    assert!(reactor.take_jobs().is_empty());
    reactor.complete(jobs[2].task, Event::new(DONE, 30));
    reactor.complete(jobs[0].task, Event::new(DONE, 10));
    assert_eq!(reactor.queued(), 0);
    assert_eq!(reactor.in_flight(), 1);
    reactor.complete(jobs[1].task, Event::new(DONE, 20));
    assert_eq!(reactor.queued(), 3);
    assert_eq!(reactor.in_flight(), 0);
    assert_eq!(reactor.crank(10, &mut rng), 3);
    assert_eq!(reactor.component(0).log, vec![(DONE, 10), (DONE, 20), (DONE, 30)]);
    assert_eq!(reactor.component(1).log, vec![(WORK, 0)]);
}

#[test]
fn a_second_answer_for_a_part_is_dropped() {
    let mut reactor = reactor();
    let mut rng = StdRng::seed_from_u64(1);
    reactor.inject(Event::new(WORK, 0)).unwrap();
    reactor.step(&mut rng);
    let jobs = reactor.take_jobs();
    reactor.complete(jobs[0].task, Event::new(DONE, 10));
    reactor.complete(jobs[0].task, Event::new(DONE, 11));
    reactor.complete(jobs[1].task, Event::new(DONE, 20));
    reactor.complete(jobs[2].task, Event::new(DONE, 30));
    reactor.complete(jobs[2].task, Event::new(DONE, 31));
    reactor.crank(10, &mut rng);
    assert_eq!(reactor.component(0).log, vec![(DONE, 10), (DONE, 20), (DONE, 30)]);
    assert_eq!(reactor.component(1).log, vec![(WORK, 0)]);
}

#[test]
fn race_trace_holds_the_event_of_a_and_never_that_of_b() {
    let mut reactor = reactor();
    let mut rng = StdRng::seed_from_u64(1);
    reactor.inject(Event::new(RACE, 0)).unwrap();
    reactor.step(&mut rng);
    reactor.advance(10);
    assert_eq!(reactor.in_flight(), 0);
    assert_eq!(reactor.next_deadline(), None);
    reactor.crank(10, &mut rng);
    reactor.advance(40);
    reactor.advance(1000);
    reactor.crank(10, &mut rng);
    assert_eq!(reactor.component(0).log, vec![(DONE, 'a' as u64)]);
    assert_eq!(reactor.component(1).log, vec![(RACE, 0)]);
}

#[test]
fn cancelled_timer_produces_no_event() {
    let mut reactor = reactor();
    let mut rng = StdRng::seed_from_u64(1);
    reactor.inject(Event::new(PING, 5)).unwrap();
    reactor.step(&mut rng);
    assert!(reactor.cancel(0));
    assert!(!reactor.cancel(0));
    reactor.advance(5);
    assert_eq!(reactor.queued(), 0);
    assert_eq!(reactor.in_flight(), 0);
}

#[test]
fn request_is_answered_through_the_queue() {
    let mut reactor = reactor();
    let mut rng = StdRng::seed_from_u64(1);
    reactor.inject(Event::new(ASK, 41)).unwrap();
    assert_eq!(reactor.step(&mut rng), Step::Dispatched { component: 0 });
    assert_eq!(reactor.in_flight(), 1);
    assert_eq!(reactor.queued(), 1);
    assert_eq!(reactor.step(&mut rng), Step::Dispatched { component: 0 });
    assert_eq!(reactor.in_flight(), 0);
    assert_eq!(reactor.step(&mut rng), Step::Dispatched { component: 1 });
    assert_eq!(reactor.component(0).log, vec![(ASK, 41), (ASK, 41)]);
    assert_eq!(reactor.component(1).log, vec![(REPLY, 42)]);
}

#[test]
fn shutdown_drains_and_stops() {
    let mut reactor = reactor();
    let mut rng = StdRng::seed_from_u64(1);
    reactor.inject(Event::new(PING, 7)).unwrap();
    assert!(reactor.shutdown());
    reactor.inject(Event::new(DONE, 1)).unwrap();
    assert_eq!(reactor.step(&mut rng), Step::Dispatched { component: 0 });
    assert_eq!(reactor.step(&mut rng), Step::ShuttingDown);
    assert_eq!(reactor.phase(), Phase::Draining);
    assert_eq!(reactor.inject(Event::new(DONE, 2)), Err(InjectError::NotRunning));
    assert!(!reactor.shutdown());
    assert_eq!(reactor.step(&mut rng), Step::Dispatched { component: 0 });
    assert_eq!(reactor.step(&mut rng), Step::Idle);
    assert_eq!(reactor.phase(), Phase::Draining);
    reactor.advance(7);
    assert_eq!(reactor.phase(), Phase::Draining);
    assert_eq!(reactor.step(&mut rng), Step::Dispatched { component: 1 });
    assert_eq!(reactor.phase(), Phase::Stopped);
    assert_eq!(reactor.step(&mut rng), Step::Stopped);
    assert_eq!(reactor.component(1).log, vec![(TICK, 7)]);
    assert_eq!(reactor.fault(), None);
}

#[test]
fn shutdown_of_an_idle_reactor_stops_at_once() {
    let mut reactor = reactor();
    let mut rng = StdRng::seed_from_u64(1);
    assert!(reactor.shutdown());
    assert_eq!(reactor.step(&mut rng), Step::ShuttingDown);
    assert_eq!(reactor.phase(), Phase::Stopped);
    reactor.advance(10);
    assert_eq!(reactor.now(), 0);
    assert!(!reactor.inject_into(0, Event::new(DONE, 1), None, &mut rng));
}

#[test]
fn fatal_effect_drains_and_stops() {
    let mut reactor = reactor();
    let mut rng = StdRng::seed_from_u64(1);
    reactor.inject(Event::new(BREAK, 0)).unwrap();
    reactor.inject(Event::new(DONE, 9)).unwrap();
    assert_eq!(reactor.step(&mut rng), Step::Dispatched { component: 0 });
    assert_eq!(reactor.phase(), Phase::Draining);
    assert_eq!(reactor.inject(Event::new(DONE, 2)), Err(InjectError::NotRunning));
    assert_eq!(reactor.step(&mut rng), Step::Dispatched { component: 0 });
    assert_eq!(reactor.phase(), Phase::Stopped);
    assert_eq!(reactor.component(0).log, vec![(BREAK, 0), (DONE, 9)]);
}

#[test]
fn an_unroutable_event_from_an_effect_is_a_fault() {
    let mut reactor = reactor();
    let mut rng = StdRng::seed_from_u64(1);
    reactor.inject(Event::new(STRAY, 0)).unwrap();
    assert_eq!(reactor.step(&mut rng), Step::Dispatched { component: 1 });
    assert_eq!(reactor.fault(), Some(Fault::Unroutable { variant: VARIANTS + 5 }));
    assert_eq!(reactor.phase(), Phase::Stopped);
    assert_eq!(reactor.queued(), 0);
}

#[test]
fn a_repeated_gossip_announcement_leaves_the_component_unchanged() {
    let mut reactor = reactor();
    let mut rng = StdRng::seed_from_u64(1);
    reactor.inject(Event::new(GOSSIP, 77)).unwrap();
    reactor.step(&mut rng);
    let once = reactor.component(0).clone();
    assert_eq!(once.gossip, vec![77]);
    reactor.inject(Event::new(GOSSIP, 77)).unwrap();
    reactor.step(&mut rng);
    assert_eq!(*reactor.component(0), once);
    reactor.inject(Event::new(GOSSIP, 78)).unwrap();
    reactor.inject(Event::new(GOSSIP, 77)).unwrap();
    reactor.crank(10, &mut rng);
    assert_eq!(reactor.component(0).gossip, vec![77, 78]);
}

#[test]
fn an_event_can_be_handed_straight_to_a_component() {
    let mut reactor = reactor();
    let mut rng = StdRng::seed_from_u64(1);
    assert!(reactor.inject_into(1, Event::new(DONE, 5), None, &mut rng));
    assert_eq!(reactor.component(1).log, vec![(DONE, 5)]);
    assert!(reactor.component(0).log.is_empty());
    assert!(!reactor.inject_into(2, Event::new(DONE, 5), None, &mut rng));
    let task = TaskId { effect: 99, part: 0 };
    assert!(reactor.inject_into(0, Event::new(ASK, 1), Some(task), &mut rng));
    assert_eq!(reactor.queued(), 0);
}

fn trace() -> Vec<Input<u64>> {
    vec![
        Input::Event(Event::new(ROLL, 0)),
        Input::Event(Event::new(PING, 30)),
        Input::Turn,
        Input::Event(Event::new(ROLL, 0)),
        Input::Turn,
        Input::Tick(29),
        Input::Turn,
        Input::Turn,
        Input::Tick(1),
        Input::Event(Event::new(RACE, 0)),
        Input::Turn,
        Input::Turn,
        Input::Tick(10),
        Input::Cancel(0),
        Input::Turn,
        Input::Turn,
        Input::Shutdown,
        Input::Turn,
        Input::Turn,
    ]
}

#[test]
fn same_trace_and_same_seed_give_the_same_run() {
    let mut first = reactor();
    let mut second = reactor();
    let mut rng_a = StdRng::seed_from_u64(2020);
    let mut rng_b = StdRng::seed_from_u64(2020);
    first.run(trace(), &mut rng_a);
    for input in trace() {
        second.apply(input, &mut rng_b);
    }
    for i in 0..first.components() {
        assert_eq!(first.component(i), second.component(i));
    }
    assert_eq!(first.component(0).rolls.len(), 2);
    assert_eq!(first.phase(), second.phase());
    assert_eq!(first.queued(), second.queued());
    assert_eq!(first.now(), 40);
    assert_eq!(rng_a.gen::<u64>(), rng_b.gen::<u64>());
}

#[test]
fn another_seed_gives_other_rolls() {
    let mut first = reactor();
    let mut second = reactor();
    first.run(trace(), &mut StdRng::seed_from_u64(1));
    second.run(trace(), &mut StdRng::seed_from_u64(2));
    assert_ne!(first.component(0).rolls, second.component(0).rolls);
}

#[test]
fn crank_stops_at_its_limit() {
    let mut reactor = reactor();
    let mut rng = StdRng::seed_from_u64(1);
    for i in 0..5 {
        reactor.inject(Event::new(DONE, i)).unwrap();
    }
    assert_eq!(reactor.crank(3, &mut rng), 3);
    assert_eq!(reactor.queued(), 2);
    assert_eq!(reactor.crank(3, &mut rng), 2);
    assert_eq!(reactor.crank(3, &mut rng), 0);
}

#[test]
fn builder_refuses_kinds_that_are_not_supported() {
    let none = EffectKinds { timers: false, requests: false, offloading: false };
    let builder: EffectBuilder<Event<u64>> = EffectBuilder::new(none, None);
    assert!(builder.set_timeout(1, Event::new(TICK, 0)).is_none());
    assert!(builder.make_request(Event::new(ASK, 0)).is_none());
    assert!(builder.offload(Event::new(WORK, 0)).is_none());
    assert!(builder.respond(Event::new(REPLY, 0)).is_none());
    assert!(matches!(builder.immediately(Event::new(DONE, 0)), Effect::Run { .. }));
    let all: EffectBuilder<Event<u64>> =
        EffectBuilder::new(all_kinds(), Some(TaskId { effect: 3, part: 1 }));
    assert!(all.set_timeout(1, Event::new(TICK, 0)).is_some());
    assert!(all.make_request(Event::new(ASK, 0)).is_some());
    assert!(all.offload(Event::new(WORK, 0)).is_some());
    match all.respond(Event::new(REPLY, 0)) {
        Some(Effect::Respond { to, .. }) => assert_eq!(to, TaskId { effect: 3, part: 1 }),
        _ => panic!("no answer"),
    }
    assert!(matches!(all.fatal(), Effect::Fatal));
}

#[test]
fn every_variant_is_handled_in_every_state() {
    let mut reactor = reactor();
    let mut rng = StdRng::seed_from_u64(3);
    for round in 0..3 {
        for variant in 0..VARIANTS {
            if variant == BREAK || variant == STRAY || variant == GOSSIP {
                continue;
            }
            reactor.inject(Event::new(variant, 1000 + round)).unwrap();
            assert!(reactor.crank(100, &mut rng) >= 1);
            assert_eq!(reactor.queued(), 0);
            assert!(reactor.component(variant % 2).log.contains(&(variant, 1000 + round)));
        }
    }
    assert_eq!(reactor.phase(), Phase::Running);
    assert_eq!(reactor.fault(), None);
}

#[test]
fn events_of_one_effect_keep_their_order() {
    let mut reactor = reactor();
    let mut rng = StdRng::seed_from_u64(3);
    let builder: EffectBuilder<Event<u64>> = EffectBuilder::new(all_kinds(), None);
    let parts = vec![
        builder.ready(Event::new(DONE, 1)),
        builder.ready(Event::new(DONE, 2)),
        builder.ready(Event::new(DONE, 3)),
    ];
    reactor.inject(Event::new(DONE, 0)).unwrap();
    reactor.absorb(vec![builder.join(parts), builder.immediately(Event::new(DONE, 4))]);
    assert_eq!(reactor.queued(), 5);
    assert_eq!(reactor.crank(10, &mut rng), 5);
    assert_eq!(
        reactor.component(0).log,
        vec![(DONE, 0), (DONE, 1), (DONE, 2), (DONE, 3), (DONE, 4)]
    );
}

#[test]
fn an_answer_to_nobody_is_dropped() {
    let mut reactor = reactor();
    let builder: EffectBuilder<Event<u64>> =
        EffectBuilder::new(all_kinds(), Some(TaskId { effect: 5, part: 0 }));
    reactor.absorb(vec![builder.respond(Event::new(REPLY, 1)).unwrap()]);
    assert_eq!(reactor.queued(), 0);
    assert_eq!(reactor.phase(), Phase::Running);
}

#[test]
fn a_stopped_reactor_takes_nothing_in() {
    let mut reactor = reactor();
    let mut rng = StdRng::seed_from_u64(3);
    reactor.shutdown();
    reactor.step(&mut rng);
    assert_eq!(reactor.phase(), Phase::Stopped);
    let builder: EffectBuilder<Event<u64>> = EffectBuilder::new(all_kinds(), None);
    reactor.absorb(vec![builder.immediately(Event::new(DONE, 4))]);
    reactor.complete(TaskId { effect: 0, part: 0 }, Event::new(DONE, 1));
    assert!(!reactor.cancel(0));
    assert_eq!(reactor.queued(), 0);
    assert_eq!(reactor.in_flight(), 0);
    assert_eq!(reactor.crank(5, &mut rng), 0);
}
