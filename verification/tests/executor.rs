use node_reactor::components::{Component, Reaction};
use node_reactor::effect::{EffectBuilder, EffectKinds, Effects, Policy, Task, TaskId};
use node_reactor::executor::Executor;
use rand::rngs::StdRng;
use rand::{CryptoRng, Rng, SeedableRng};

struct Counter {
    total: u64,
}

impl<R: Rng + CryptoRng> Component<u64, R> for Counter {
    type Event = u64;

    fn valid(&self) -> bool {
        unreachable!()
    }

    fn idempotent(_event: u64) -> bool {
        unreachable!()
    }

    fn seen(&self, _event: u64) -> bool {
        unreachable!()
    }

    fn reaction(
        &self,
        _kinds: EffectKinds,
        _reply_to: Option<TaskId>,
        _rng: R,
        _event: u64,
    ) -> Reaction<Self, R, u64> {
        unreachable!()
    }

    fn handle_event(
        &mut self,
        effect_builder: EffectBuilder<u64>,
        rng: &mut R,
        event: u64,
    ) -> Effects<u64> {
        let jitter: u64 = rng.gen_range(0, 10);
        self.total += event;
        vec![effect_builder.immediately(self.total + jitter)]
    }
}

#[test]
fn a_component_draws_from_a_seeded_generator() {
    let kinds = EffectKinds { timers: true, requests: true, offloading: true };
    let mut first = Counter { total: 0 };
    let mut second = Counter { total: 0 };
    let mut rng_a = StdRng::seed_from_u64(7);
    let mut rng_b = StdRng::seed_from_u64(7);
    let a = first.handle_event(EffectBuilder::new(kinds, None), &mut rng_a, 5);
    let b = second.handle_event(EffectBuilder::new(kinds, None), &mut rng_b, 5);
    assert_eq!(a.len(), 1);
    assert_eq!(b.len(), 1);
    assert_eq!(first.total, 5);
    assert_eq!(second.total, 5);
}

#[test]
fn timer_fires_exactly_once_at_its_deadline() {
    let mut executor: Executor<&'static str> = Executor::new();
    let outcome = executor
        .schedule(Policy::All, vec![Task::Timer { delay: 100, event: "tick" }])
        .unwrap();
    assert!(outcome.events.is_empty());
    assert_eq!(executor.next_deadline(), Some(100));
    assert!(executor.advance(99).is_empty());
    assert_eq!(executor.advance(1), vec!["tick"]);
    assert!(executor.is_idle());
    assert!(executor.advance(1000).is_empty());
    assert_eq!(executor.next_deadline(), None);
}

#[test]
fn timer_scenario_advance_by_exactly_the_delay() {
    let mut executor: Executor<&'static str> = Executor::new();
    executor.schedule(Policy::All, vec![Task::Timer { delay: 100, event: "tick" }]);
    assert_eq!(executor.advance(100), vec!["tick"]);
    assert!(executor.advance(100).is_empty());
}

#[test]
fn join_of_three_emits_nothing_until_all_complete() {
    let mut executor: Executor<u32> = Executor::new();
    let outcome = executor
        .schedule(
            Policy::All,
            vec![
                Task::Offload { job: 1 },
                Task::Offload { job: 2 },
                Task::Offload { job: 3 },
            ],
        )
        .unwrap();
    assert_eq!(outcome.jobs.len(), 3);
    let id = outcome.id;
    assert!(executor.complete(TaskId { effect: id, part: 2 }, 30).is_empty());
    assert!(executor.complete(TaskId { effect: id, part: 0 }, 10).is_empty());
    assert!(!executor.is_idle());
    assert_eq!(executor.complete(TaskId { effect: id, part: 1 }, 20), vec![10, 20, 30]);
    assert!(executor.is_idle());
}

#[test]
fn race_first_wins_and_loser_is_cancelled() {
    let mut executor: Executor<&'static str> = Executor::new();
    executor.schedule(
        Policy::First,
        vec![
            Task::Timer { delay: 50, event: "b" },
            Task::Timer { delay: 10, event: "a" },
        ],
    );
    assert_eq!(executor.advance(10), vec!["a"]);
    assert!(executor.is_idle());
    assert!(executor.advance(40).is_empty());
    assert!(executor.advance(1000).is_empty());
}

#[test]
fn race_resolved_in_one_long_tick_still_goes_to_the_sooner() {
    let mut executor: Executor<&'static str> = Executor::new();
    executor.schedule(
        Policy::First,
        vec![
            Task::Timer { delay: 50, event: "b" },
            Task::Timer { delay: 10, event: "a" },
        ],
    );
    assert_eq!(executor.advance(60), vec!["a"]);
}

#[test]
fn cancelled_effect_releases_nothing() {
    let mut executor: Executor<&'static str> = Executor::new();
    let id = executor
        .schedule(Policy::All, vec![Task::Timer { delay: 5, event: "late" }])
        .unwrap()
        .id;
    assert!(executor.cancel(id));
    assert!(!executor.cancel(id));
    assert!(executor.advance(5).is_empty());
    assert!(executor.complete(TaskId { effect: id, part: 0 }, "x").is_empty());
}

#[test]
fn timers_fire_soonest_first_and_in_schedule_order_among_equals() {
    let mut executor: Executor<u8> = Executor::new();
    executor.schedule(Policy::All, vec![Task::Timer { delay: 30, event: 3 }]);
    executor.schedule(Policy::All, vec![Task::Timer { delay: 10, event: 1 }]);
    executor.schedule(Policy::All, vec![Task::Timer { delay: 30, event: 4 }]);
    executor.schedule(Policy::All, vec![Task::Timer { delay: 20, event: 2 }]);
    assert_eq!(executor.advance(30), vec![1, 2, 3, 4]);
}

#[test]
fn the_clock_stops_at_its_largest_value() {
    let mut executor: Executor<u8> = Executor::new();
    executor.advance(u64::MAX - 1);
    executor.schedule(Policy::All, vec![Task::Timer { delay: 10, event: 1 }]);
    assert_eq!(executor.next_deadline(), Some(u64::MAX));
    assert_eq!(executor.advance(5), vec![1]);
    assert_eq!(executor.now(), u64::MAX);
}

#[test]
fn immediate_parts_resolve_at_once() {
    let mut executor: Executor<u8> = Executor::new();
    let outcome = executor
        .schedule(
            Policy::All,
            vec![Task::Immediate { event: 1 }, Task::Immediate { event: 2 }],
        )
        .unwrap();
    assert_eq!(outcome.events, vec![1, 2]);
    assert!(executor.is_idle());
    let empty = executor.schedule(Policy::All, vec![]).unwrap();
    assert!(empty.events.is_empty());
    assert!(executor.is_idle());
}

#[test]
fn requests_and_jobs_are_handed_out_with_their_parts() {
    let mut executor: Executor<u8> = Executor::new();
    executor.schedule(Policy::All, vec![Task::Immediate { event: 0 }]);
    let outcome = executor
        .schedule(
            Policy::All,
            vec![
                Task::Request { request: 10 },
                Task::Immediate { event: 11 },
                Task::Offload { job: 12 },
            ],
        )
        .unwrap();
    assert_eq!(outcome.id, 1);
    assert_eq!(outcome.requests.len(), 1);
    assert_eq!(outcome.requests[0].event, 10);
    assert_eq!(outcome.requests[0].reply_to, Some(TaskId { effect: 1, part: 0 }));
    assert_eq!(outcome.jobs.len(), 1);
    assert_eq!(outcome.jobs[0].job, 12);
    assert_eq!(outcome.jobs[0].task, TaskId { effect: 1, part: 2 });
    assert!(outcome.events.is_empty());
    assert!(executor.is_awaited(TaskId { effect: 1, part: 0 }));
    assert!(!executor.is_awaited(TaskId { effect: 1, part: 1 }));
    assert!(!executor.is_awaited(TaskId { effect: 1, part: 3 }));
    assert!(!executor.is_awaited(TaskId { effect: 0, part: 0 }));
    assert!(executor.complete(TaskId { effect: 1, part: 2 }, 22).is_empty());
    assert_eq!(executor.complete(TaskId { effect: 1, part: 0 }, 20), vec![20, 11, 22]);
    assert_eq!(executor.in_flight(), 0);
}

#[test]
fn a_race_with_a_ready_part_resolves_at_once() {
    let mut executor: Executor<u8> = Executor::new();
    let outcome = executor
        .schedule(
            Policy::First,
            vec![Task::Timer { delay: 5, event: 1 }, Task::Immediate { event: 2 }],
        )
        .unwrap();
    assert_eq!(outcome.events, vec![2]);
    assert!(executor.is_idle());
    assert_eq!(executor.next_deadline(), None);
    assert!(executor.advance(5).is_empty());
}

#[test]
fn next_deadline_skips_timers_of_effects_that_have_left() {
    let mut executor: Executor<u8> = Executor::new();
    let first = executor
        .schedule(Policy::All, vec![Task::Timer { delay: 5, event: 1 }])
        .unwrap()
        .id;
    executor.schedule(Policy::All, vec![Task::Timer { delay: 9, event: 2 }]);
    assert_eq!(executor.next_deadline(), Some(5));
    executor.cancel(first);
    assert_eq!(executor.next_deadline(), Some(9));
    assert_eq!(executor.advance(9), vec![2]);
}
