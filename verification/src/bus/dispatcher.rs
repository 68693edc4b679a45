//! The serial event dispatcher.
//!
//! Events are handed, one after the other, to the handler registered for their
//! kind, else to the fallback, else they are refused.  Registration ends when
//! the dispatcher starts.  Receiving events, calling handlers and delivering
//! answers is the caller's; the dispatcher says which handler is called, what
//! the answer is, and when the loop ends.

use vstd::prelude::*;

use crate::table::Table;

verus! {

broadcast use vstd::string::group_string_axioms;

/// Where the loop of a bus stands.
#[derive(Clone, Copy, PartialEq, Eq, Structural)]
pub enum Stage {
    /// Not started: handlers are still registered.
    Open,
    /// Waiting to be woken.
    Waiting,
    /// A handler was called and has not ended yet.
    Busy,
    /// Over.
    Ended,
}

/// The handlers of a bus, and where its loop stands.  `H` names a handler.
pub struct EventBus<H> {
    handlers: Table<H>,
    any: Option<H>,
    stage: Stage,
}

/// Where an event goes: the handler of its kind, else the fallback.
pub open spec fn chosen<H>(handlers: Map<Seq<char>, H>, any: Option<H>, kind: Seq<char>) -> Option<
    H,
> {
    if handlers.dom().contains(kind) {
        Some(handlers[kind])
    } else {
        any
    }
}

/// The handler of an event's own kind wins over the fallback; the fallback is
/// asked only where there is none; and the last registration for a kind is the
/// one that counts.
pub proof fn law_the_handler_of_the_kind_wins<H>(
    handlers: Map<Seq<char>, H>,
    any: Option<H>,
    kind: Seq<char>,
    other: Seq<char>,
    first: H,
    second: H,
)
    ensures
        handlers.dom().contains(kind) ==> chosen(handlers, any, kind) == Some(handlers[kind]),
        !handlers.dom().contains(kind) ==> chosen(handlers, any, kind) == any,
        chosen(handlers.insert(kind, first).insert(kind, second), any, kind) == Some(second),
        other != kind ==> chosen(handlers.insert(kind, first), any, other) == chosen(
            handlers,
            any,
            other,
        ),
{
}

impl<H> EventBus<H> {
    /// Whether the dispatcher is in a state it can be in.
    pub closed spec fn well_formed(&self) -> bool {
        self.handlers.well_formed()
    }

    /// The handlers by kind.
    pub closed spec fn by_kind(&self) -> Map<Seq<char>, H> {
        self.handlers@
    }

    /// The fallback.
    pub closed spec fn fallback(&self) -> Option<H> {
        self.any
    }

    /// Where the loop stands.
    pub closed spec fn at(&self) -> Stage {
        self.stage
    }

    /// Whether the loop was started.
    pub open spec fn started(&self) -> bool {
        self.at() != Stage::Open
    }

    /// How many kinds have a handler of their own.
    pub closed spec fn kinds(&self) -> nat {
        self.handlers.names().len()
    }

    /// A bus without handlers, not yet started.
    pub fn new() -> (out: Self)
        ensures
            out.well_formed(),
            out.by_kind() == Map::<Seq<char>, H>::empty(),
            out.fallback() is None,
            out.at() == Stage::Open,
            out.kinds() == 0,
    {
        EventBus { handlers: Table::new(), any: None, stage: Stage::Open }
    }

    /// Register the handler of a kind.  The last registration counts; the
    /// result says whether there was one before.  Once the loop was started it
    /// is too late.
    pub fn on(&mut self, kind: &str, handler: H) -> (out: Result<bool, String>)
        requires
            old(self).well_formed(),
        ensures
            final(self).well_formed(),
            out is Err <==> old(self).started(),
            match out {
                Ok(replaced) => {
                    &&& replaced == old(self).by_kind().dom().contains(kind@)
                    &&& final(self).by_kind() == old(self).by_kind().insert(kind@, handler)
                    &&& final(self).fallback() == old(self).fallback()
                    &&& final(self).at() == old(self).at()
                    &&& final(self).kinds() == old(self).kinds() + if replaced {
                        0int
                    } else {
                        1int
                    }
                },
                Err(e) => e@ == "bus.on cannot be called after bus.serve() has started"@
                    && *final(self) == *old(self),
            },
    {
        if self.stage != Stage::Open {
            return Err("bus.on cannot be called after bus.serve() has started".to_owned());
        }
        let replaced = self.handlers.contains(kind);
        self.handlers.set(kind, handler);
        Ok(replaced)
    }

    /// Register the fallback, which is asked only where no handler has the
    /// event's kind.  The last registration counts; the result says whether
    /// there was one before.
    pub fn on_any(&mut self, handler: H) -> (out: Result<bool, String>)
        requires
            old(self).well_formed(),
        ensures
            final(self).well_formed(),
            out is Err <==> old(self).started(),
            match out {
                Ok(replaced) => {
                    &&& replaced == (old(self).fallback() is Some)
                    &&& final(self).fallback() == Some(handler)
                    &&& final(self).by_kind() == old(self).by_kind()
                    &&& final(self).at() == old(self).at()
                    &&& final(self).kinds() == old(self).kinds()
                },
                Err(e) => e@ == "bus.on_any cannot be called after bus.serve() has started"@
                    && *final(self) == *old(self),
            },
    {
        if self.stage != Stage::Open {
            return Err("bus.on_any cannot be called after bus.serve() has started".to_owned());
        }
        let replaced = self.any.is_some();
        self.any = Some(handler);
        Ok(replaced)
    }

    /// How many kinds have a handler of their own.
    pub fn handler_count(&self) -> (n: usize)
        ensures
            n == self.kinds(),
    {
        self.handlers.len()
    }

    /// Whether any event would find a handler: there is a handler for a kind,
    /// or a fallback.
    pub fn has_handlers(&self) -> (yes: bool)
        ensures
            yes == (self.kinds() > 0 || self.fallback() is Some),
    {
        self.handlers.len() > 0 || self.any.is_some()
    }

    /// Start the loop: from here on nothing is registered any more.
    pub fn start(&mut self)
        requires
            old(self).well_formed(),
        ensures
            final(self).well_formed(),
            final(self).at() == Stage::Waiting,
            final(self).by_kind() == old(self).by_kind(),
            final(self).fallback() == old(self).fallback(),
            final(self).kinds() == old(self).kinds(),
    {
        self.stage = Stage::Waiting;
    }

    /// The handler an event of this kind is handed to, or what the event is
    /// refused with.
    pub fn route(&self, kind: &str) -> (out: Result<&H, String>)
        requires
            self.well_formed(),
        ensures
            match out {
                Ok(h) => chosen(self.by_kind(), self.fallback(), kind@) == Some(*h),
                Err(e) => chosen(self.by_kind(), self.fallback(), kind@) is None && e@
                    == "no handler for kind `"@ + kind@ + "`"@,
            },
    {
        if let Some(h) = self.handlers.get(kind) {
            return Ok(h);
        }
        if let Some(h) = &self.any {
            return Ok(h);
        }
        let mut e = "no handler for kind `".to_owned();
        e.append(kind);
        e.append("`");
        Err(e)
    }

    /// The loop was woken: what it does next.
    pub fn wake<E>(&mut self, wake: Wake<E>) -> (out: LoopStep<E>)
        requires
            old(self).well_formed(),
            old(self).at() == Stage::Waiting,
        ensures
            final(self).well_formed(),
            out == step_after(wake),
            final(self).at() == stage_woken(wake),
            final(self).by_kind() == old(self).by_kind(),
            final(self).fallback() == old(self).fallback(),
            final(self).kinds() == old(self).kinds(),
    {
        match wake {
            Wake::Cancelled => {
                self.stage = Stage::Ended;
                LoopStep::CloseAndStop
            },
            Wake::Received(e) => {
                self.stage = Stage::Busy;
                LoopStep::Dispatch(e)
            },
            Wake::SendersDropped => {
                self.stage = Stage::Ended;
                LoopStep::Stop
            },
        }
    }

    /// The handler of the event that was dispatched ended: the answer the event
    /// gets.  However it ended, the loop goes on waiting.
    pub fn handled<V>(&mut self, end: HandlerEnd<V>) -> (out: Result<V, String>)
        requires
            old(self).well_formed(),
            old(self).at() == Stage::Busy,
        ensures
            final(self).well_formed(),
            answers(end, out),
            final(self).at() == Stage::Waiting,
            final(self).by_kind() == old(self).by_kind(),
            final(self).fallback() == old(self).fallback(),
            final(self).kinds() == old(self).kinds(),
    {
        self.stage = Stage::Waiting;
        settle(end)
    }
}

/// What woke the loop: the shutdown signal, which is looked at first, and
/// otherwise an event or the end of the queue.
pub enum Wake<E> {
    Cancelled,
    Received(E),
    SendersDropped,
}

/// What the loop does next.
pub enum LoopStep<E> {
    /// Close the queue, so that senders fail fast, and end the loop.  What is
    /// still queued is not drained.
    CloseAndStop,
    /// End the loop.
    Stop,
    /// Hand the event to its handler, and wait for it before anything else.
    Dispatch(E),
}

/// What woke the loop, given whether the shutdown signal was seen and what the
/// queue had: the signal wins over an event that is ready at the same time.
pub fn woken<E>(cancelled: bool, received: Option<E>) -> (out: Wake<E>)
    ensures
        out == if cancelled {
            Wake::Cancelled
        } else {
            match received {
                Some(e) => Wake::Received(e),
                None => Wake::SendersDropped,
            }
        },
{
    if cancelled {
        Wake::Cancelled
    } else {
        match received {
            Some(e) => Wake::Received(e),
            None => Wake::SendersDropped,
        }
    }
}

/// What the loop does next.
pub open spec fn step_after<E>(wake: Wake<E>) -> LoopStep<E> {
    match wake {
        Wake::Cancelled => LoopStep::CloseAndStop,
        Wake::Received(e) => LoopStep::Dispatch(e),
        Wake::SendersDropped => LoopStep::Stop,
    }
}

/// Where the loop stands once it was woken.
pub open spec fn stage_woken<E>(wake: Wake<E>) -> Stage {
    match wake {
        Wake::Received(_) => Stage::Busy,
        Wake::Cancelled => Stage::Ended,
        Wake::SendersDropped => Stage::Ended,
    }
}

/// What a panic carried.
pub enum PanicPayload {
    Str(&'static str),
    Text(String),
    Other,
}

/// What is said of a panic.
pub open spec fn panic_words(payload: PanicPayload) -> Seq<char> {
    match payload {
        PanicPayload::Str(s) => s@,
        PanicPayload::Text(s) => s@,
        PanicPayload::Other => "<non-string panic payload>"@,
    }
}

/// A human-readable message for a panic: its text, when it carried one.
pub fn panic_message(payload: PanicPayload) -> (out: String)
    ensures
        out@ == panic_words(payload),
{
    match payload {
        PanicPayload::Str(s) => s.to_owned(),
        PanicPayload::Text(s) => s,
        PanicPayload::Other => "<non-string panic payload>".to_owned(),
    }
}

/// How the task that called a handler ended.
pub enum HandlerEnd<V> {
    /// The handler returned an answer.
    Returned(Result<V, String>),
    /// The handler panicked.
    Panicked(PanicPayload),
    /// The task ended in another way.
    Lost(String),
}

/// Whether an answer is the one an event gets whose handler ended so.
pub open spec fn answers<V>(end: HandlerEnd<V>, out: Result<V, String>) -> bool {
    match end {
        HandlerEnd::Returned(r) => out == r,
        HandlerEnd::Panicked(p) => out matches Err(e) && e@ == "handler panic: "@ + panic_words(p),
        HandlerEnd::Lost(t) => out matches Err(e) && e@ == "handler panic: "@
            + ("handler task error: "@ + t@),
    }
}

/// The answer an event gets.  A panic inside a handler becomes an error answer
/// and goes no further.
pub fn settle<V>(end: HandlerEnd<V>) -> (out: Result<V, String>)
    ensures
        answers(end, out),
{
    match end {
        HandlerEnd::Returned(r) => r,
        HandlerEnd::Panicked(p) => {
            let msg = panic_message(p);
            let mut e = "handler panic: ".to_owned();
            e.append(msg.as_str());
            Err(e)
        },
        HandlerEnd::Lost(t) => {
            let mut msg = "handler task error: ".to_owned();
            msg.append(t.as_str());
            let mut e = "handler panic: ".to_owned();
            e.append(msg.as_str());
            Err(e)
        },
    }
}

// ── a whole run of the loop ──────────────────────────────────────────

/// What happens to a loop: it is woken, or the handler it waits for ends.
pub ghost enum LoopInput<E, V> {
    Woken(Wake<E>),
    Handled(HandlerEnd<V>),
}

/// Where the loop stands behind an input.
pub open spec fn stage_next<E, V>(input: LoopInput<E, V>) -> Stage {
    match input {
        LoopInput::Woken(wake) => stage_woken(wake),
        LoopInput::Handled(_) => Stage::Waiting,
    }
}

/// Where the loop stands behind a run, which begins when it waits.
pub open spec fn stage_after<E, V>(run: Seq<LoopInput<E, V>>) -> Stage {
    if run.len() == 0 {
        Stage::Waiting
    } else {
        stage_next(run.last())
    }
}

/// Whether an input can come where the loop stands: it is woken only where it
/// waits, and a handler ends only where one was called.
pub open spec fn can_come<E, V>(at: Stage, input: LoopInput<E, V>) -> bool {
    match input {
        LoopInput::Woken(_) => at == Stage::Waiting,
        LoopInput::Handled(_) => at == Stage::Busy,
    }
}

/// Whether a run can happen.
pub open spec fn can_happen<E, V>(run: Seq<LoopInput<E, V>>) -> bool {
    forall|i: int|
        0 <= i < run.len() ==> can_come(stage_after(run.take(i)), #[trigger] run[i])
}

/// The events that were received, in order.
pub open spec fn received<E, V>(run: Seq<LoopInput<E, V>>) -> Seq<E>
    decreases run.len(),
{
    if run.len() == 0 {
        Seq::<E>::empty()
    } else {
        let before = received(run.drop_last());
        match run.last() {
            LoopInput::Woken(Wake::Received(e)) => before.push(e),
            _ => before,
        }
    }
}

/// The events that were handed to a handler, in order.
pub open spec fn dispatched<E, V>(run: Seq<LoopInput<E, V>>) -> Seq<E>
    decreases run.len(),
{
    if run.len() == 0 {
        Seq::<E>::empty()
    } else {
        let before = dispatched(run.drop_last());
        match run.last() {
            LoopInput::Woken(wake) => match step_after(wake) {
                LoopStep::Dispatch(e) => before.push(e),
                _ => before,
            },
            LoopInput::Handled(_) => before,
        }
    }
}

/// How many handlers ended.
pub open spec fn ends<E, V>(run: Seq<LoopInput<E, V>>) -> nat
    decreases run.len(),
{
    if run.len() == 0 {
        0
    } else {
        ends(run.drop_last()) + if run.last() is Handled {
            1nat
        } else {
            0nat
        }
    }
}

/// Whether an input tells the loop to stop.
pub open spec fn stops<E, V>(input: LoopInput<E, V>) -> bool {
    input matches LoopInput::Woken(wake) && !(wake is Received)
}

/// Every event that was received is dispatched, once and in order.
pub proof fn law_what_is_received_is_dispatched<E, V>(run: Seq<LoopInput<E, V>>)
    ensures
        dispatched(run) == received(run),
    decreases run.len(),
{
    if run.len() > 0 {
        law_what_is_received_is_dispatched(run.drop_last());
    }
}

/// What can happen can happen up to any point.
proof fn lemma_front_can_happen<E, V>(run: Seq<LoopInput<E, V>>, n: int)
    requires
        can_happen(run),
        0 <= n <= run.len(),
    ensures
        can_happen(run.take(n)),
{
    let front = run.take(n);
    assert forall|i: int| 0 <= i < front.len() implies can_come(
        stage_after(front.take(i)),
        #[trigger] front[i],
    ) by {
        assert(front.take(i) =~= run.take(i));
        assert(front[i] == run[i]);
    }
}

/// Handlers run one after the other: an event is dispatched only when the
/// handler of the one before has ended.
pub proof fn law_one_event_at_a_time<E, V>(run: Seq<LoopInput<E, V>>)
    requires
        can_happen(run),
    ensures
        dispatched(run).len() == ends(run) + if stage_after(run) == Stage::Busy {
            1int
        } else {
            0int
        },
    decreases run.len(),
{
    if run.len() > 0 {
        let front = run.drop_last();
        assert(front =~= run.take(run.len() - 1));
        lemma_front_can_happen(run, run.len() - 1);
        law_one_event_at_a_time(front);
        assert(can_come(stage_after(run.take(run.len() - 1)), run[run.len() - 1]));
    }
}

/// The loop is over where it was cancelled or every sender is gone, and nowhere
/// else: no way in which a handler ends stops it.
pub proof fn law_only_a_stop_ends_the_loop<E, V>(run: Seq<LoopInput<E, V>>)
    ensures
        stage_after(run) == Stage::Ended <==> run.len() > 0 && stops(run.last()),
{
}

/// Nothing comes behind a stop.  What was still queued is not drained: what was
/// dispatched is what was dispatched before.
#[verifier::spinoff_prover]
pub proof fn law_a_stop_drains_nothing<E, V>(run: Seq<LoopInput<E, V>>, i: int)
    requires
        can_happen(run),
        0 <= i < run.len(),
        stops(run[i]),
    ensures
        i == run.len() - 1,
        stage_after(run) == Stage::Ended,
        dispatched(run) == dispatched(run.take(i)),
{
    if i + 1 < run.len() {
        let next = run[i + 1];
        assert(run.take(i + 1).last() == run[i]);
        assert(can_come(stage_after(run.take(i + 1)), next));
    }
    assert(run.drop_last() =~= run.take(i));
}

/// A loop that is cancelled before it runs calls no handler.
pub proof fn law_a_loop_cancelled_first_calls_no_handler<E, V>(run: Seq<LoopInput<E, V>>)
    requires
        can_happen(run),
        run.len() > 0,
        run[0] == LoopInput::<E, V>::Woken(Wake::Cancelled),
    ensures
        run.len() == 1,
        dispatched(run) == Seq::<E>::empty(),
{
    law_a_stop_drains_nothing(run, 0);
    assert(run.take(0) =~= Seq::<LoopInput<E, V>>::empty());
}

/// The run in which each event is received and its handler ends as given.
pub open spec fn rounds<E, V>(events: Seq<E>, how: Seq<HandlerEnd<V>>) -> Seq<LoopInput<E, V>>
    decreases events.len(),
{
    if events.len() == 0 || how.len() != events.len() {
        Seq::<LoopInput<E, V>>::empty()
    } else {
        rounds(events.drop_last(), how.drop_last()).push(
            LoopInput::Woken(Wake::Received(events.last())),
        ).push(LoopInput::Handled(how.last()))
    }
}

/// However the handlers end, by an answer, an error, a panic or the loss of
/// their task, every event gets its turn, and the loop waits for the next.
#[verifier::spinoff_prover]
pub proof fn law_no_handler_stops_the_later_ones<E, V>(events: Seq<E>, how: Seq<HandlerEnd<V>>)
    requires
        events.len() == how.len(),
    ensures
        can_happen(rounds(events, how)),
        dispatched(rounds(events, how)) == events,
        stage_after(rounds(events, how)) == Stage::Waiting,
    decreases events.len(),
{
    let run = rounds(events, how);
    if events.len() > 0 {
        let front = rounds(events.drop_last(), how.drop_last());
        law_no_handler_stops_the_later_ones(events.drop_last(), how.drop_last());
        let woken = front.push(LoopInput::Woken(Wake::Received(events.last())));
        assert(run.drop_last() =~= woken);
        assert(woken.drop_last() =~= front);
        assert(dispatched(woken) == dispatched(front).push(events.last()));
        assert(dispatched(run) == dispatched(woken));
        assert(events.drop_last().push(events.last()) =~= events);
        assert forall|i: int| 0 <= i < run.len() implies can_come(
            stage_after(run.take(i)),
            #[trigger] run[i],
        ) by {
            if i < front.len() {
                assert(run.take(i) =~= front.take(i));
                assert(run[i] == front[i]);
            } else if i == front.len() {
                assert(run.take(i) =~= front);
            } else {
                assert(run.take(i) =~= woken);
            }
        }
    }
}

/// A handler's answer reaches the one who asked as it is, and a handler that
/// panicked gives an error that holds what the panic said.
pub proof fn law_a_panic_is_an_error_answer<V>(end: HandlerEnd<V>, out: Result<V, String>)
    requires
        answers(end, out),
    ensures
        end matches HandlerEnd::Returned(r) ==> out == r,
        !(end is Returned) ==> out is Err,
        end matches HandlerEnd::Panicked(PanicPayload::Str(s)) ==> out->Err_0@ == "handler panic: "@
            + s@,
        end matches HandlerEnd::Panicked(PanicPayload::Text(s)) ==> out->Err_0@
            == "handler panic: "@ + s@,
        end matches HandlerEnd::Lost(t) ==> out->Err_0@ == "handler panic: handler task error: "@
            + t@,
{
    reveal_strlit("handler panic: ");
    reveal_strlit("handler task error: ");
    reveal_strlit("handler panic: handler task error: ");
    if let HandlerEnd::Lost(t) = end {
        assert("handler panic: "@ + "handler task error: "@
            =~= "handler panic: handler task error: "@);
        assert(out->Err_0@ =~= "handler panic: "@ + "handler task error: "@ + t@);
    }
}

/// An event that came is dispatched and nothing else; a signal closes the queue
/// and ends the loop, and so does a queue nobody can send to any more.
pub proof fn law_a_wake_decides_the_step<E>(wake: Wake<E>)
    ensures
        wake matches Wake::Received(e) ==> step_after(wake) == LoopStep::Dispatch(e) && stage_woken(
            wake,
        ) is Busy,
        wake is Cancelled ==> step_after(wake) is CloseAndStop && stage_woken(wake) is Ended,
        wake is SendersDropped ==> step_after(wake) is Stop && stage_woken(wake) is Ended,
{
}

} // verus!
