//! The update harness: runs update logic to quiescence and hands back exactly
//! the effects and events it produced.
use vstd::prelude::*;
use crate::codec::{bcs_string_encoded, encodable, encode_string};
use crate::command::{Callback, Command, ResolveError};
use crate::executor::{
    issued, lemma_quiescent_issues_nothing, lemma_woken_protocol_issues_next_step, quiescent, stepped, woken, Executor,
    Request, Task,
};
use crate::time::Response;

verus! {

/// The elements of `s` whose mark equals `keep`, in their original order.
pub open spec fn select<T>(s: Seq<T>, marks: Seq<bool>, keep: bool) -> Seq<T>
    decreases s.len(),
{
    if s.len() == 0 || marks.len() != s.len() {
        Seq::empty()
    } else {
        let front = select(s.drop_last(), marks.drop_last(), keep);
        if marks.last() == keep {
            front.push(s.last())
        } else {
            front
        }
    }
}

/// Interleaves `a` and `b`, taking from `a` where the mark is set and from `b`
/// where it is not.
pub open spec fn merge<T>(a: Seq<T>, b: Seq<T>, marks: Seq<bool>) -> Seq<T>
    decreases marks.len(),
{
    if marks.len() == 0 {
        Seq::empty()
    } else if marks.last() {
        merge(a.drop_last(), b, marks.drop_last()).push(a.last())
    } else {
        merge(a, b.drop_last(), marks.drop_last()).push(b.last())
    }
}

/// `matching` and `rest` split `s` by the answers `marks` that `predicate`
/// gave on each element.
pub open spec fn partitioned_by<T, P: Fn(&T) -> bool>(
    s: Seq<T>,
    predicate: P,
    marks: Seq<bool>,
    matching: Seq<T>,
    rest: Seq<T>,
) -> bool {
    &&& marks.len() == s.len()
    &&& forall|i: int| 0 <= i < s.len() ==> predicate.ensures((&s[i],), #[trigger] marks[i])
    &&& matching == select(s, marks, true)
    &&& rest == select(s, marks, false)
}

/// Taking out the effects that match a predicate and those that do not loses
/// nothing and reorders nothing: merging the two parts back by the
/// predicate's answers gives the original sequence.
pub proof fn lemma_partition_merges_back<T>(s: Seq<T>, marks: Seq<bool>)
    requires
        marks.len() == s.len(),
    ensures
        merge(select(s, marks, true), select(s, marks, false), marks) == s,
    decreases s.len(),
{
    if s.len() > 0 {
        let (s0, m0) = (s.drop_last(), marks.drop_last());
        lemma_partition_merges_back(s0, m0);
        let (a, b) = (select(s, marks, true), select(s, marks, false));
        if marks.last() {
            assert(a.drop_last() =~= select(s0, m0, true));
            assert(b == select(s0, m0, false));
        } else {
            assert(a == select(s0, m0, true));
            assert(b.drop_last() =~= select(s0, m0, false));
        }
        assert(s0.push(s.last()) =~= s);
    } else {
        assert(s =~= Seq::empty());
    }
}

/// Splitting by a predicate and by its negation: the part that the negation
/// takes is exactly the part the predicate leaves.
pub proof fn lemma_negated_split_takes_the_rest<T>(s: Seq<T>, marks: Seq<bool>, negated: Seq<bool>)
    requires
        marks.len() == s.len(),
        negated.len() == s.len(),
        forall|i: int| 0 <= i < s.len() ==> negated[i] == !marks[i],
    ensures
        select(s, negated, true) == select(s, marks, false),
    decreases s.len(),
{
    if s.len() > 0 {
        lemma_negated_split_takes_the_rest(s.drop_last(), marks.drop_last(), negated.drop_last());
    }
}

/// The effects requested and the events dispatched by one run of update
/// logic, each in the order they were produced.
pub struct Update<Ef, Ev> {
    pub effects: Vec<Ef>,
    pub events: Vec<Ev>,
}

impl<Ef, Ev> Update<Ef, Ev> {
    pub fn into_effects(self) -> (r: Vec<Ef>)
        ensures
            r == self.effects,
    {
        self.effects
    }

    pub fn effects(&self) -> (r: &Vec<Ef>)
        ensures
            r == &self.effects,
    {
        &self.effects
    }

    /// The effects, to edit in place; their number cannot change.
    pub fn effects_mut(&mut self) -> (r: &mut [Ef])
        ensures
            r@ == old(self).effects@,
            final(self).effects@ == final(r)@,
            final(self).events == old(self).events,
    {
        self.effects.as_mut_slice()
    }

    /// The single effect of an update that holds exactly one effect and no
    /// event; any other shape is a failed test assertion, left out here.
    pub fn expect_one_effect(self) -> (r: Ef)
        requires
            self.effects@.len() == 1,
            self.events@.len() == 0,
        ensures
            r == self.effects[0],
    {
        let mut effects = self.effects;
        effects.pop().unwrap()
    }

    /// The single event of an update that holds exactly one event and no
    /// effect; any other shape is a failed test assertion, left out here.
    pub fn expect_one_event(self) -> (r: Ev)
        requires
            self.effects@.len() == 0,
            self.events@.len() == 1,
        ensures
            r == self.events[0],
    {
        let mut events = self.events;
        events.pop().unwrap()
    }

    /// Consumes an update that holds no effect and no event; any other is a
    /// failed test assertion, left out here.
    pub fn assert_empty(self)
        requires
            self.effects@.len() == 0,
            self.events@.len() == 0,
    {
    }

    /// Takes every effect out, split into those matching `predicate` and the
    /// rest, each part in the original order. The update keeps no effect.
    pub fn take_effects_partitioned_by<P: Fn(&Ef) -> bool>(&mut self, predicate: P) -> (r: (Vec<Ef>, Vec<Ef>))
        requires
            forall|e: &Ef| predicate.requires((e,)),
        ensures
            final(self).effects@.len() == 0,
            final(self).events == old(self).events,
            exists|marks: Seq<bool>| partitioned_by(old(self).effects@, predicate, marks, r.0@, r.1@),
    {
        let mut taken: Vec<Ef> = Vec::new();
        core::mem::swap(&mut self.effects, &mut taken);
        let ghost orig = taken@;
        assert(orig == old(self).effects@);
        let ghost mut marks: Seq<bool> = Seq::empty();
        let mut matching: Vec<Ef> = Vec::new();
        let mut rest: Vec<Ef> = Vec::new();
        let n: usize = taken.len();
        let mut i: usize = 0;
        while taken.len() > 0
            invariant
                orig.len() == n,
                i + taken@.len() == n,
                taken@ == orig.subrange(i as int, n as int),
                marks.len() == i,
                forall|j: int| 0 <= j < i ==> predicate.ensures((&orig[j],), #[trigger] marks[j]),
                forall|e: &Ef| predicate.requires((e,)),
                matching@ == select(orig.subrange(0, i as int), marks, true),
                rest@ == select(orig.subrange(0, i as int), marks, false),
                self.effects@.len() == 0,
                self.events == old(self).events,
            decreases taken.len(),
        {
            let e = taken.remove(0);
            let keep = predicate(&e);
            let ghost prev_marks = marks;
            proof {
                marks = marks.push(keep);
                let prefix = orig.subrange(0, i as int);
                let next = orig.subrange(0, i + 1);
                assert(next.drop_last() =~= prefix);
                assert(marks.drop_last() =~= prev_marks);
                assert(next.last() == e);
            }
            if keep {
                matching.push(e);
            } else {
                rest.push(e);
            }
            i = i + 1;
        }
        assert(orig.subrange(0, n as int) =~= orig);
        let r = (matching, rest);
        assert(partitioned_by(old(self).effects@, predicate, marks, r.0@, r.1@));
        r
    }

    /// Takes the effects matching `predicate` out and returns them in order;
    /// the rest stay, in order.
    pub fn take_effects<P: Fn(&Ef) -> bool>(&mut self, predicate: P) -> (r: Vec<Ef>)
        requires
            forall|e: &Ef| predicate.requires((e,)),
        ensures
            final(self).events == old(self).events,
            exists|marks: Seq<bool>| partitioned_by(old(self).effects@, predicate, marks, r@, final(self).effects@),
    {
        let ghost before = self.effects@;
        let (matching, rest) = self.take_effects_partitioned_by(predicate);
        let ghost marks = choose|marks: Seq<bool>| partitioned_by(before, predicate, marks, matching@, rest@);
        self.effects = rest;
        assert(partitioned_by(before, predicate, marks, matching@, self.effects@));
        matching
    }
}

/// An application: its update function issues effects through the context.
pub trait App {
    type Event;
    type Model;
    type ViewModel;
    type Effect;
    type Continuation: Callback<Self::Event>;

    /// One run of `update` on `event` may take the model and the context from
    /// the two `before` values to the two `after` values.
    spec fn updated(
        &self,
        event: Self::Event,
        model_before: Self::Model,
        context_before: AppContext<Self::Effect, Self::Event, Self::Continuation>,
        model_after: Self::Model,
        context_after: AppContext<Self::Effect, Self::Event, Self::Continuation>,
    ) -> bool;

    fn update(
        &self,
        event: Self::Event,
        model: &mut Self::Model,
        context: &mut AppContext<Self::Effect, Self::Event, Self::Continuation>,
    )
        ensures
            self.updated(event, *old(model), *old(context), *final(model), *final(context)),
    ;

    /// `view` is what the application shows for `model`.
    spec fn viewed(&self, model: Self::Model, view: Self::ViewModel) -> bool;

    fn view(&self, model: &Self::Model) -> (r: Self::ViewModel)
        ensures
            self.viewed(*model, r),
    ;
}

/// The channels of one application: the requests issued and the events
/// dispatched since the last drain, and the executor of its protocols.
pub struct AppContext<Ef, Ev, K> {
    pub effects: Vec<Request<Ef, Ev, K>>,
    pub events: Vec<Ev>,
    pub executor: Executor<Ef, Ev, K>,
}

/// `r` is what draining `before` hands back, and `after` is `before` once
/// drained: the executor was run to quiescence, then both channels emptied.
pub open spec fn drained<Ef, Ev, K>(
    before: AppContext<Ef, Ev, K>,
    after: AppContext<Ef, Ev, K>,
    r: Update<Request<Ef, Ev, K>, Ev>,
) -> bool {
    &&& r.effects@ == before.effects@ + issued(before.executor.tasks@)
    &&& r.events == before.events
    &&& after.effects@.len() == 0
    &&& after.events@.len() == 0
    &&& after.executor.tasks@.len() == before.executor.tasks@.len()
    &&& forall|i: int| 0 <= i < before.executor.tasks@.len()
        ==> stepped(before.executor.tasks@[i], #[trigger] after.executor.tasks@[i])
    &&& quiescent(after.executor.tasks@)
}

impl<Ef, Ev, K: Callback<Ev>> AppContext<Ef, Ev, K> {
    /// Answering `request` resumes a protocol that has steps left, so its
    /// event goes to the protocol rather than to the application.
    pub open spec fn wakes_protocol(&self, request: &Request<Ef, Ev, K>) -> bool {
        match request.task {
            Some(t) => self.executor.tasks@[t as int].steps@.len() > 0,
            None => false,
        }
    }

    /// `after` is this context once `request` has been answered with the
    /// payload `value`: the protocol, if any, is woken, and the event goes to
    /// the application unless a protocol with steps left takes it.
    pub open spec fn answered(&self, request: &Request<Ef, Ev, K>, value: Seq<u8>, after: Self) -> bool {
        &&& after.effects == self.effects
        &&& after.executor.tasks@ == self.tasks_after(request)
        &&& self.wakes_protocol(request) ==> after.events == self.events
        &&& !self.wakes_protocol(request) ==> match request.command.resolve {
            Some(k) => exists|event: Ev| k.produces(value, event) && after.events@ == self.events@.push(event),
            None => false,
        }
    }

    /// Answering `request` successfully and draining leaves exactly one event
    /// and no effect.
    pub open spec fn answer_yields_one_event(&self, request: &Request<Ef, Ev, K>) -> bool {
        &&& self.effects@.len() == 0
        &&& issued(self.tasks_after(request)).len() == 0
        &&& self.wakes_protocol(request) ==> self.events@.len() == 1
        &&& !self.wakes_protocol(request) ==> self.events@.len() == 0
    }

    /// The protocols once `request` has been answered successfully.
    pub open spec fn tasks_after(&self, request: &Request<Ef, Ev, K>) -> Seq<Task<Ef, Ev, K>> {
        match request.task {
            Some(t) => woken(self.executor.tasks@, t),
            None => self.executor.tasks@,
        }
    }

    pub fn new() -> (r: Self)
        ensures
            r.effects@.len() == 0,
            r.events@.len() == 0,
            r.executor.tasks@.len() == 0,
    {
        AppContext { effects: Vec::new(), events: Vec::new(), executor: Executor::new() }
    }

    /// Issues a one-shot command; its answer is dispatched as an event.
    pub fn send(&mut self, command: Command<Ef, Ev, K>)
        ensures
            final(self).effects@ == old(self).effects@.push(Request { command, task: None }),
            final(self).events == old(self).events,
            final(self).executor == old(self).executor,
    {
        self.effects.push(Request { command, task: None });
    }

    /// Schedules a multi-step protocol: each step is issued once the previous
    /// one is answered, and the answer to the last one is dispatched.
    pub fn spawn(&mut self, steps: Vec<Command<Ef, Ev, K>>)
        ensures
            final(self).executor.tasks@ == old(self).executor.tasks@.push(Task { steps, waiting: false }),
            final(self).effects == old(self).effects,
            final(self).events == old(self).events,
    {
        self.executor.spawn(steps);
    }

    /// Dispatches an event to the application.
    pub fn dispatch(&mut self, event: Ev)
        ensures
            final(self).events@ == old(self).events@.push(event),
            final(self).effects == old(self).effects,
            final(self).executor == old(self).executor,
    {
        self.events.push(event);
    }

    /// Runs the executor to quiescence, then drains both channels in order.
    pub fn updates(&mut self) -> (r: Update<Request<Ef, Ev, K>, Ev>)
        ensures
            drained(*old(self), *final(self), r),
    {
        self.executor.run_all(&mut self.effects);
        proof {
            let (before, after) = (old(self).executor.tasks@, self.executor.tasks@);
            assert forall|i: int| 0 <= i < after.len() implies !(#[trigger] after[i]).runnable() by {
                assert(stepped(before[i], after[i]));
            }
        }
        let mut effects: Vec<Request<Ef, Ev, K>> = Vec::new();
        let mut events: Vec<Ev> = Vec::new();
        core::mem::swap(&mut self.effects, &mut effects);
        core::mem::swap(&mut self.events, &mut events);
        Update { effects, events }
    }

    /// Answers `request` with an encoded payload. A one-shot command's event
    /// is dispatched; a protocol is woken, and its event is dispatched only
    /// when the answered step was its last.
    pub fn resolve(&mut self, request: &Request<Ef, Ev, K>, value: &Vec<u8>) -> (r: Result<(), ResolveError>)
        requires
            request.command.wf(),
            request.command.resolve is Some,
            request.task matches Some(t) ==> t < old(self).executor.tasks@.len(),
        ensures
            request.command.resolve matches Some(k) ==> (r is Ok <==> k.accepts(value@)),
            request.command.resolve is Some ==> (r matches Err(e) ==> e == ResolveError::Decode),
            r is Err ==> *final(self) == *old(self),
            final(self).effects == old(self).effects,
            request.command.resolve matches Some(k) ==> r is Ok ==> {
                let woken = old(self).wakes_protocol(request);
                &&& woken ==> final(self).events == old(self).events
                &&& !woken ==> final(self).events@.len() == old(self).events@.len() + 1
                    && final(self).events@.drop_last() == old(self).events@
                    && k.produces(value@, final(self).events@.last())
                &&& final(self).executor.tasks@ == old(self).tasks_after(request)
            },
            r is Ok ==> old(self).answered(request, value@, *final(self)),
    {
        match request.command.resolve(value) {
            Ok(event) => {
                match request.task {
                    None => {
                        self.events.push(event);
                    },
                    Some(t) => {
                        let more = self.executor.wake(t);
                        if !more {
                            self.events.push(event);
                        }
                    },
                }
                Ok(())
            },
            Err(e) => Err(e),
        }
    }
}

/// An idle context: nothing queued, no event pending, no protocol runnable.
pub open spec fn idle<Ef, Ev, K>(context: AppContext<Ef, Ev, K>) -> bool {
    &&& context.effects@.len() == 0
    &&& context.events@.len() == 0
    &&& quiescent(context.executor.tasks@)
}

/// A one-shot command sent on an idle context is, after the drain, the one
/// effect of the update, and the update holds no event.
pub proof fn lemma_sent_command_is_the_only_effect<Ef, Ev, K>(
    before: AppContext<Ef, Ev, K>,
    sent: AppContext<Ef, Ev, K>,
    command: Command<Ef, Ev, K>,
    after: AppContext<Ef, Ev, K>,
    u: Update<Request<Ef, Ev, K>, Ev>,
)
    requires
        idle(before),
        sent.effects@ == before.effects@.push(Request { command, task: None }),
        sent.events == before.events,
        sent.executor == before.executor,
        drained(sent, after, u),
    ensures
        u.effects@ == seq![Request { command, task: None }],
        u.events@.len() == 0,
{
    lemma_quiescent_issues_nothing(before.executor.tasks@);
    assert(u.effects@ =~= seq![Request { command, task: None }]);
}

/// Answering a one-shot request on an idle context and draining gives no
/// effect and exactly one event: the continuation's result on the payload.
pub proof fn lemma_one_shot_answer_is_one_event<Ef, Ev, K: Callback<Ev>>(
    before: AppContext<Ef, Ev, K>,
    request: Request<Ef, Ev, K>,
    value: Seq<u8>,
    mid: AppContext<Ef, Ev, K>,
    after: AppContext<Ef, Ev, K>,
    u: Update<Request<Ef, Ev, K>, Ev>,
)
    requires
        idle(before),
        request.task is None,
        before.answered(&request, value, mid),
        drained(mid, after, u),
    ensures
        u.effects@.len() == 0,
        u.events@.len() == 1,
        request.command.resolve matches Some(k) && k.produces(value, u.events@[0]),
{
    lemma_quiescent_issues_nothing(before.executor.tasks@);
    let k = request.command.resolve->Some_0;
    let event = choose|event: Ev| k.produces(value, event) && mid.events@ == before.events@.push(event);
    assert(u.events@[0] == event);
}

/// Answering the suspended step of a protocol on an otherwise idle context
/// and draining issues exactly the protocol's next step, and no event.
pub proof fn lemma_answered_protocol_issues_next_step<Ef, Ev, K: Callback<Ev>>(
    before: AppContext<Ef, Ev, K>,
    request: Request<Ef, Ev, K>,
    t: usize,
    value: Seq<u8>,
    mid: AppContext<Ef, Ev, K>,
    after: AppContext<Ef, Ev, K>,
    u: Update<Request<Ef, Ev, K>, Ev>,
)
    requires
        idle(before),
        request.task == Some(t),
        t < before.executor.tasks@.len(),
        before.executor.tasks@[t as int].steps@.len() > 0,
        before.answered(&request, value, mid),
        drained(mid, after, u),
    ensures
        u.effects@ == seq![Request { command: before.executor.tasks@[t as int].steps@[0], task: Some(t) }],
        u.events@.len() == 0,
{
    lemma_woken_protocol_issues_next_step(before.executor.tasks@, t);
    assert(u.effects@ =~= seq![Request { command: before.executor.tasks@[t as int].steps@[0], task: Some(t) }]);
}

/// A simplified execution environment for an application, for tests: it runs
/// updates and resolutions and hands back the resulting [`Update`].
pub struct AppTester<A: App> {
    pub app: A,
    pub context: AppContext<A::Effect, A::Event, A::Continuation>,
}

impl<A: App> AppTester<A> {
    /// Answering `request` with `value` and draining handed back `u`, and
    /// `after` is this tester once drained.
    pub open spec fn resolved(
        self,
        request: &Request<A::Effect, A::Event, A::Continuation>,
        value: &Response,
        after: Self,
        u: Update<Request<A::Effect, A::Event, A::Continuation>, A::Event>,
    ) -> bool {
        exists|mid: AppContext<A::Effect, A::Event, A::Continuation>|
            self.context.answered(request, bcs_string_encoded(value.0@), mid) && drained(mid, after.context, u)
    }

    /// Answering `request` with `value` drained an update `first` holding one
    /// event and no effect, and `u` is what `update` returned on that event,
    /// taking the model from `model_before` to `model_after`.
    pub open spec fn resolved_then_updated(
        self,
        request: &Request<A::Effect, A::Event, A::Continuation>,
        value: &Response,
        model_before: A::Model,
        after: Self,
        model_after: A::Model,
        u: Update<Request<A::Effect, A::Event, A::Continuation>, A::Event>,
    ) -> bool {
        exists|mid: AppContext<A::Effect, A::Event, A::Continuation>,
            first: Update<Request<A::Effect, A::Event, A::Continuation>, A::Event>,
            between: AppContext<A::Effect, A::Event, A::Continuation>,
            updated: AppContext<A::Effect, A::Event, A::Continuation>|
            #![trigger self.context.answered(request, bcs_string_encoded(value.0@), mid), drained(mid, between, first), drained(updated, after.context, u)]
            {
                &&& self.context.answered(request, bcs_string_encoded(value.0@), mid)
                &&& drained(mid, between, first)
                &&& first.effects@.len() == 0
                &&& first.events@.len() == 1
                &&& self.app.updated(first.events@[0], model_before, between, model_after, updated)
                &&& drained(updated, after.context, u)
                &&& after.app == self.app
            }
    }

    pub fn new(app: A) -> (r: Self)
        ensures
            r.app == app,
            r.context.effects@.len() == 0,
            r.context.events@.len() == 0,
            r.context.executor.tasks@.len() == 0,
    {
        AppTester { app, context: AppContext::new() }
    }

    /// Runs the application's update on `event`, then drains what it issued.
    pub fn update(&mut self, event: A::Event, model: &mut A::Model) -> (r: Update<Request<A::Effect, A::Event, A::Continuation>, A::Event>)
        ensures
            final(self).app == old(self).app,
            exists|mid: AppContext<A::Effect, A::Event, A::Continuation>|
                old(self).app.updated(event, *old(model), old(self).context, *final(model), mid)
                && drained(mid, final(self).context, r),
    {
        let ghost given = event;
        self.app.update(event, model, &mut self.context);
        let ghost mid = self.context;
        let r = self.context.updates();
        assert(old(self).app.updated(given, *old(model), old(self).context, *model, mid));
        assert(drained(mid, self.context, r));
        r
    }

    /// Answers `request` with `value`, then drains what that produced.
    pub fn resolve(
        &mut self,
        request: &Request<A::Effect, A::Event, A::Continuation>,
        value: &Response,
    ) -> (r: Result<Update<Request<A::Effect, A::Event, A::Continuation>, A::Event>, ResolveError>)
        requires
            request.command.wf(),
            request.command.resolve is Some,
            request.task matches Some(t) ==> t < old(self).context.executor.tasks@.len(),
            encodable(value.0@),
        ensures
            request.command.resolve matches Some(k) ==> (r is Ok <==> k.accepts(bcs_string_encoded(value.0@))),
            request.command.resolve is Some ==> (r matches Err(e) ==> e == ResolveError::Decode),
            r is Err ==> *final(self) == *old(self),
            r matches Ok(u) ==> old(self).resolved(request, value, *final(self), u),
            final(self).app == old(self).app,
    {
        let bytes = match encode_string(&value.0) {
            Some(b) => b,
            None => { return Err(ResolveError::Decode); },
        };
        assert(bytes@ == bcs_string_encoded(value.0@));
        match self.context.resolve(request, &bytes) {
            Ok(()) => {
                let ghost mid = self.context;
                assert(old(self).context.answered(request, bcs_string_encoded(value.0@), mid));
                let u = self.context.updates();
                assert(drained(mid, self.context, u));
                assert(old(self).resolved(request, value, *self, u));
                Ok(u)
            },
            Err(e) => Err(e),
        }
    }

    /// Answers `request` with `value`, takes the single event that this
    /// dispatches, and runs the update on it. The answer must decode and must
    /// leave exactly one event and no effect; anything else is a failed test
    /// assertion, left out here.
    pub fn resolve_to_event_then_update(
        &mut self,
        request: &Request<A::Effect, A::Event, A::Continuation>,
        value: &Response,
        model: &mut A::Model,
    ) -> (r: Update<Request<A::Effect, A::Event, A::Continuation>, A::Event>)
        requires
            request.command.wf(),
            request.task matches Some(t) ==> t < old(self).context.executor.tasks@.len(),
            encodable(value.0@),
            request.command.resolve matches Some(k) && k.accepts(bcs_string_encoded(value.0@)),
            old(self).context.answer_yields_one_event(request),
        ensures
            old(self).resolved_then_updated(request, value, *old(model), *final(self), *final(model), r),
    {
        let first = match self.resolve(request, value) {
            Ok(first) => first,
            Err(_) => {
                proof {
                    assert(false);
                }
                Update { effects: Vec::new(), events: Vec::new() }
            },
        };
        let ghost first_view = first;
        let ghost between = self.context;
        let ghost mid = choose|mid: AppContext<A::Effect, A::Event, A::Continuation>|
            old(self).context.answered(request, bcs_string_encoded(value.0@), mid)
            && drained(mid, between, first_view);
        proof {
            if old(self).context.wakes_protocol(request) {
                assert(mid.events == old(self).context.events);
            }
        }
        let event = first.expect_one_event();
        let ghost model_before = *model;
        let u = self.update(event, model);
        let ghost updated = choose|updated: AppContext<A::Effect, A::Event, A::Continuation>|
            self.app.updated(event, model_before, between, *model, updated)
            && drained(updated, self.context, u);
        assert(old(self).app.updated(first_view.events@[0], *old(model), between, *model, updated));
        assert(drained(mid, between, first_view));
        assert(old(self).resolved_then_updated(request, value, *old(model), *self, *model, u));
        u
    }

    /// Runs the application's view on `model`.
    pub fn view(&self, model: &A::Model) -> (r: A::ViewModel)
        ensures
            self.app.viewed(*model, r),
    {
        self.app.view(model)
    }
}

} // verus!
