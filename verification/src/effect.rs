//! Effects: descriptions of work to be done later, and the handle that a
//! component uses to build them while it handles one event.

use core::marker::PhantomData;
use vstd::prelude::*;

verus! {

/// Names one part of one scheduled effect.
#[derive(Clone, Copy, Debug, PartialEq, Eq, Structural)]
pub struct TaskId {
    /// The effect, as numbered when it was scheduled.
    pub effect: u64,
    /// The position of the part inside the effect.
    pub part: usize,
}

/// When an effect of several parts resolves.
#[derive(Clone, Copy, Debug, PartialEq, Eq, Structural)]
pub enum Policy {
    /// When every part is complete; it then yields the events of all parts, in part order.
    All,
    /// When the first part completes; it yields that part's event and the others are cancelled.
    First,
}

/// One unit of deferred work. On completion it yields one event.
pub enum Task<Ev> {
    /// Already resolved.
    Immediate { event: Ev },
    /// Resolves `delay` time units after it was scheduled.
    Timer { delay: u64, event: Ev },
    /// Delivers `request` to its owner and resolves with the response to it.
    Request { request: Ev },
    /// Work for the worker pool, which answers with an event.
    Offload { job: Ev },
}

/// What a component hands back from its entry point.
pub enum Effect<Ev> {
    /// Deferred work of zero or more parts.
    Run { policy: Policy, parts: Vec<Task<Ev>> },
    /// The answer to a request.
    Respond { to: TaskId, response: Ev },
    /// An unrecoverable condition: the reactor drains and stops.
    Fatal,
}

/// An ordered collection of effects.
pub type Effects<Ev> = Vec<Effect<Ev>>;

/// The kinds of outside work that a reactor supports.
#[derive(Clone, Copy, Debug, PartialEq, Eq, Structural)]
pub struct EffectKinds {
    pub timers: bool,
    pub requests: bool,
    pub offloading: bool,
}

/// The capability to build effects, good for one call of a component's entry point.
pub struct EffectBuilder<REv> {
    kinds: EffectKinds,
    reply_to: Option<TaskId>,
    marker: PhantomData<REv>,
}

impl<REv> EffectBuilder<REv> {
    /// The kinds of work this builder may describe.
    pub closed spec fn kinds(&self) -> EffectKinds {
        self.kinds
    }

    /// The request that the event being handled asks an answer to, if it is one.
    pub closed spec fn reply_to(&self) -> Option<TaskId> {
        self.reply_to
    }

    pub fn new(kinds: EffectKinds, reply_to: Option<TaskId>) -> (builder: Self)
        ensures
            builder.kinds() == kinds,
            builder.reply_to() == reply_to,
    {
        EffectBuilder { kinds, reply_to, marker: PhantomData }
    }

    /// The request being answered, if the event in hand is a request.
    pub fn current_request(&self) -> (task: Option<TaskId>)
        ensures
            task == self.reply_to(),
    {
        self.reply_to
    }

    /// A part that is already resolved.
    pub fn ready(&self, event: REv) -> (task: Task<REv>)
        ensures
            task == (Task::Immediate { event }),
    {
        Task::Immediate { event }
    }

    /// A timer part, where timers are supported.
    pub fn timer(&self, delay: u64, event: REv) -> (task: Option<Task<REv>>)
        ensures
            task == (if self.kinds().timers {
                Some(Task::Timer { delay, event })
            } else {
                None
            }),
    {
        if self.kinds.timers {
            Some(Task::Timer { delay, event })
        } else {
            None
        }
    }

    /// A request part, where requests are supported.
    pub fn request(&self, request: REv) -> (task: Option<Task<REv>>)
        ensures
            task == (if self.kinds().requests {
                Some(Task::Request { request })
            } else {
                None
            }),
    {
        if self.kinds.requests {
            Some(Task::Request { request })
        } else {
            None
        }
    }

    /// A part for the worker pool, where offloading is supported.
    pub fn job(&self, job: REv) -> (task: Option<Task<REv>>)
        ensures
            task == (if self.kinds().offloading {
                Some(Task::Offload { job })
            } else {
                None
            }),
    {
        if self.kinds.offloading {
            Some(Task::Offload { job })
        } else {
            None
        }
    }

    /// An effect of one part.
    pub fn single(&self, task: Task<REv>) -> (effect: Effect<REv>)
        ensures
            effect matches Effect::Run { policy, parts } && policy == Policy::All && parts@
                == seq![task],
    {
        let mut parts: Vec<Task<REv>> = Vec::new();
        parts.push(task);
        Effect::Run { policy: Policy::All, parts }
    }

    /// An effect that yields `event` on the next turn of the loop.
    pub fn immediately(&self, event: REv) -> (effect: Effect<REv>)
        ensures
            effect matches Effect::Run { policy, parts } && policy == Policy::All && parts@
                == seq![Task::Immediate { event }],
    {
        self.single(Task::Immediate { event })
    }

    /// An effect that yields `event` after `delay` time units, where timers are supported.
    pub fn set_timeout(&self, delay: u64, event: REv) -> (effect: Option<Effect<REv>>)
        ensures
            effect is Some == self.kinds().timers,
            effect matches Some(Effect::Run { policy, parts }) ==> policy == Policy::All && parts@
                == seq![Task::Timer { delay, event }],
            effect is Some ==> effect->0 is Run,
    {
        match self.timer(delay, event) {
            Some(task) => Some(self.single(task)),
            None => None,
        }
    }

    /// An effect that sends `request` and yields the response, where requests are supported.
    pub fn make_request(&self, request: REv) -> (effect: Option<Effect<REv>>)
        ensures
            effect is Some == self.kinds().requests,
            effect matches Some(Effect::Run { policy, parts }) ==> policy == Policy::All && parts@
                == seq![Task::Request { request }],
            effect is Some ==> effect->0 is Run,
    {
        match self.request(request) {
            Some(task) => Some(self.single(task)),
            None => None,
        }
    }

    /// An effect that hands `job` to the worker pool and yields its answer, where
    /// offloading is supported.
    pub fn offload(&self, job: REv) -> (effect: Option<Effect<REv>>)
        ensures
            effect is Some == self.kinds().offloading,
            effect matches Some(Effect::Run { policy, parts }) ==> policy == Policy::All && parts@
                == seq![Task::Offload { job }],
            effect is Some ==> effect->0 is Run,
    {
        match self.job(job) {
            Some(task) => Some(self.single(task)),
            None => None,
        }
    }

    /// The answer to the request being handled, if the event in hand is a request.
    pub fn respond(&self, response: REv) -> (effect: Option<Effect<REv>>)
        ensures
            effect == (match self.reply_to() {
                Some(to) => Some(Effect::Respond { to, response }),
                None => None,
            }),
    {
        match self.reply_to {
            Some(to) => Some(Effect::Respond { to, response }),
            None => None,
        }
    }

    /// An effect that resolves when all parts have, with the events of all of them.
    pub fn join(&self, parts: Vec<Task<REv>>) -> (effect: Effect<REv>)
        ensures
            effect == (Effect::Run { policy: Policy::All, parts }),
    {
        Effect::Run { policy: Policy::All, parts }
    }

    /// An effect that resolves with the first part to complete; the others are cancelled.
    pub fn race(&self, parts: Vec<Task<REv>>) -> (effect: Effect<REv>)
        ensures
            effect == (Effect::Run { policy: Policy::First, parts }),
    {
        Effect::Run { policy: Policy::First, parts }
    }

    /// The signal of an unrecoverable condition.
    pub fn fatal(&self) -> (effect: Effect<REv>)
        ensures
            effect == Effect::<REv>::Fatal,
    {
        Effect::Fatal
    }
}

} // verus!
