//! Components
//!
//! Components are the building blocks of the whole application, wired together inside a reactor.
//! Each component has a unified interface, expressed by the `Component` trait.

use crate::effect::{Effect, EffectBuilder, EffectKinds, Effects, TaskId};
use vstd::prelude::*;

verus! {

/// What a component makes of one event: its next state, the state in which it
/// leaves the random generator, and the effects it hands back.
pub struct Reaction<C, R, Ev> {
    pub component: C,
    pub rng: R,
    pub effects: Seq<Effect<Ev>>,
}

/// Core Component.
///
/// A component implements a state machine, not unlike a Mealy automaton. Its inputs are
/// `Event`s, allowing it to perform work whenever an event is received, outputting `Effect`s
/// each time it is called.
///
/// # Error and halting states
///
/// Components are expected to handle every input in every state: `handle_event` asks for
/// nothing but a valid component. Invalid inputs are discarded, and the machine recovers from
/// any recoverable error state by itself. If a fatal error occurs that is not recoverable, the
/// reactor is notified with the fatal effect instead.
///
/// # Replay
///
/// What a component does is a function of its state, the builder, the state of the random
/// generator and the event: `reaction` names it, and `handle_event` computes it.
///
/// # Component events and reactor events
///
/// Each component has two events related to it: an associated `Event` and a reactor event
/// (`REv`). The `Event` type says what the component accepts; the builder it is handed makes
/// effects of reactor events.
///
/// An implementation draws from the generator through bounds on `R` that it states itself.
pub trait Component<REv, R>: Sized {
    /// Event associated with `Component`.
    ///
    /// The event type that is handled by the component.
    type Event;

    /// The component's own invariant.
    spec fn valid(&self) -> bool;

    /// Whether an event is marked idempotent.
    spec fn idempotent(event: Self::Event) -> bool;

    /// Whether the component has taken this event in before.
    spec fn seen(&self, event: Self::Event) -> bool;

    /// What the component makes of an event.
    spec fn reaction(
        &self,
        kinds: EffectKinds,
        reply_to: Option<TaskId>,
        rng: R,
        event: Self::Event,
    ) -> Reaction<Self, R, Self::Event>;

    /// Processes an event, outputting zero or more effects.
    ///
    /// This function must not ever perform any blocking or CPU intensive work, as it is expected
    /// to return very quickly.
    ///
    /// A second delivery of an event that is marked idempotent leaves the component as it is.
    fn handle_event(
        &mut self,
        effect_builder: EffectBuilder<REv>,
        rng: &mut R,
        event: Self::Event,
    ) -> (effects: Effects<Self::Event>)
        requires
            old(self).valid(),
        ensures
            final(self).valid(),
            ({
                let reaction = old(self).reaction(
                    effect_builder.kinds(),
                    effect_builder.reply_to(),
                    *old(rng),
                    event,
                );
                &&& *final(self) == reaction.component
                &&& *final(rng) == reaction.rng
                &&& effects@ == reaction.effects
            }),
            Self::idempotent(event) ==> final(self).seen(event),
            Self::idempotent(event) && old(self).seen(event) ==> *final(self) == *old(self),
            forall|earlier: Self::Event|
                Self::idempotent(earlier) && old(self).seen(earlier) ==> final(self).seen(earlier),
    ;
}

} // verus!
