//! Driving a reactor from a recorded trace: what comes from outside, in
//! order, with the turns of the loop and the ticks of the clock between.

use crate::components::Component;
use crate::effect::TaskId;
use crate::event::Event;
use crate::reactor::{
    answered, dropped, initial, injected, signalled, stepped, ticked, Reactor, ReactorModel,
};
use vstd::prelude::*;

verus! {

/// One thing that happens to a reactor from outside.
pub enum Input<P> {
    /// An event arrives.
    Event(Event<P>),
    /// Time passes.
    Tick(u64),
    /// Outside work answers for a part.
    Answer { task: TaskId, event: Event<P> },
    /// The handle of an effect is dropped.
    Cancel(u64),
    /// Shutdown is asked for.
    Shutdown,
    /// The loop takes its next turn.
    Turn,
}

/// The state and the generator after one input.
pub open spec fn applied<P, C, R>(m: ReactorModel<P, C>, rng: R, input: Input<P>) -> (
    ReactorModel<P, C>,
    R,
) where C: Component<Event<P>, R, Event = Event<P>> {
    match input {
        Input::Event(event) => (injected(m, event), rng),
        Input::Tick(delta) => (ticked(m, delta), rng),
        Input::Answer { task, event } => (answered(m, task, event), rng),
        Input::Cancel(effect) => (dropped(m, effect), rng),
        Input::Shutdown => (signalled(m), rng),
        Input::Turn => stepped(m, rng),
    }
}

/// The state and the generator after a trace of inputs.
pub open spec fn ran<P, C, R>(m: ReactorModel<P, C>, rng: R, inputs: Seq<Input<P>>) -> (
    ReactorModel<P, C>,
    R,
) where C: Component<Event<P>, R, Event = Event<P>>
    decreases inputs.len(),
{
    if inputs.len() == 0 {
        (m, rng)
    } else {
        let before = ran(m, rng, inputs.drop_last());
        applied(before.0, before.1, inputs.last())
    }
}

/// The state and the generator after a number of turns of the loop.
pub open spec fn turned<P, C, R>(m: ReactorModel<P, C>, rng: R, turns: nat) -> (
    ReactorModel<P, C>,
    R,
) where C: Component<Event<P>, R, Event = Event<P>>
    decreases turns,
{
    if turns == 0 {
        (m, rng)
    } else {
        let before = turned(m, rng, (turns - 1) as nat);
        stepped(before.0, before.1)
    }
}

impl<P, C, R> Reactor<P, C, R> where C: Component<Event<P>, R, Event = Event<P>> {
    /// Applies one input. What the reactor is afterwards, and the state in
    /// which the generator is left, is given by the state before, the
    /// generator and the input, and by nothing else.
    pub fn apply(&mut self, input: Input<P>, rng: &mut R)
        requires
            old(self).wf(),
        ensures
            final(self).wf(),
            (final(self)@, *final(rng)) == applied(old(self)@, *old(rng), input),
    {
        match input {
            Input::Event(event) => {
                let _ = self.inject(event);
            },
            Input::Tick(delta) => {
                self.advance(delta);
            },
            Input::Answer { task, event } => {
                self.complete(task, event);
            },
            Input::Cancel(effect) => {
                let _ = self.cancel(effect);
            },
            Input::Shutdown => {
                let _ = self.shutdown();
            },
            Input::Turn => {
                let _ = self.step(rng);
            },
        }
    }

    /// Applies a trace of inputs, in order.
    pub fn run(&mut self, inputs: Vec<Input<P>>, rng: &mut R)
        requires
            old(self).wf(),
        ensures
            final(self).wf(),
            (final(self)@, *final(rng)) == ran(old(self)@, *old(rng), inputs@),
    {
        let mut inputs = inputs;
        let ghost all = inputs@;
        let ghost start = (self@, *rng);
        let total = inputs.len();
        let mut k: usize = 0;
        while inputs.len() > 0
            invariant
                self.wf(),
                all.len() == total,
                k + inputs@.len() == all.len(),
                inputs@ == all.subrange(k as int, all.len() as int),
                (self@, *rng) == ran(start.0, start.1, all.take(k as int)),
            decreases inputs@.len(),
        {
            let input = inputs.remove(0);
            proof {
                assert(input == all[k as int]);
                assert(all.take(k + 1).drop_last() == all.take(k as int));
                assert(all.take(k + 1).last() == all[k as int]);
                assert(inputs@ == all.subrange(k + 1, all.len() as int));
            }
            self.apply(input, rng);
            k = k + 1;
        }
        proof {
            assert(all.take(k as int) == all);
        }
    }

    /// Turns the loop while something is queued, but at most `limit` times.
    /// Gives the number of turns taken.
    pub fn crank(&mut self, limit: usize, rng: &mut R) -> (turns: usize)
        requires
            old(self).wf(),
        ensures
            final(self).wf(),
            turns <= limit,
            (final(self)@, *final(rng)) == turned(old(self)@, *old(rng), turns as nat),
            turns < limit ==> final(self)@.queue.len() == 0,
            forall|n: nat| n < turns ==> (#[trigger] turned(old(self)@, *old(rng), n)).0.queue.len() > 0,
    {
        let ghost start = (self@, *rng);
        let mut turns: usize = 0;
        while turns < limit && self.queued() > 0
            invariant
                self.wf(),
                turns <= limit,
                (self@, *rng) == turned(start.0, start.1, turns as nat),
                forall|n: nat| n < turns ==> (#[trigger] turned(start.0, start.1, n)).0.queue.len() > 0,
            decreases limit - turns,
        {
            let _ = self.step(rng);
            turns = turns + 1;
        }
        turns
    }
}

/// Replay. Two runs that start from the same state, with the generator in the
/// same state, and take the same inputs in the same order end in the same
/// state, with every component, the queue, the effects in flight and the
/// generator the same; and so after every prefix of the inputs.
pub proof fn lemma_replay_is_deterministic<P, C, R>(
    first: ReactorModel<P, C>,
    first_rng: R,
    first_inputs: Seq<Input<P>>,
    second: ReactorModel<P, C>,
    second_rng: R,
    second_inputs: Seq<Input<P>>,
) where C: Component<Event<P>, R, Event = Event<P>>
    requires
        first == second,
        first_rng == second_rng,
        first_inputs == second_inputs,
    ensures
        ran(first, first_rng, first_inputs) == ran(second, second_rng, second_inputs),
        forall|n: int|
            0 <= n <= first_inputs.len() ==> #[trigger] ran(first, first_rng, first_inputs.take(n))
                == ran(second, second_rng, second_inputs.take(n)),
{
}

/// Two reactors built from the same components, routes and kinds of work,
/// and fed the same inputs with the same ticks of the clock, hold equal
/// components afterwards, one by one.
pub proof fn lemma_equal_reactors_reach_equal_snapshots<P, C, R>(
    components: Seq<C>,
    routes: Seq<usize>,
    kinds: crate::effect::EffectKinds,
    first_rng: R,
    second_rng: R,
    inputs: Seq<Input<P>>,
) where C: Component<Event<P>, R, Event = Event<P>>
    requires
        first_rng == second_rng,
    ensures
        ({
            let first = ran(initial::<P, C>(components, routes, kinds), first_rng, inputs).0;
            let second = ran(initial::<P, C>(components, routes, kinds), second_rng, inputs).0;
            &&& first.components.len() == second.components.len()
            &&& forall|i: int|
                0 <= i < first.components.len() ==> first.components[i] == second.components[i]
        }),
{
}

} // verus!
