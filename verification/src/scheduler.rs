//! The scheduler: a queue of messages between the controller and the view,
//! handled one at a time, in the order they were added.

use vstd::prelude::*;

use crate::controller::{step, Controller, ControllerData, ControllerMessage};
use crate::json::text_items;
use crate::store::{decoded, is_entry_of, StoredEntry};
use crate::view::{requests, ViewMessage, ViewRequest};
use crate::{Message, MessageData};

verus! {

/// What the scheduler holds, as plain values.
pub struct SchedulerData {
    pub controller: Option<ControllerData>,
    /// The pending messages; the first one is handled next.
    pub events: Seq<MessageData>,
    pub running: bool,
}

/// The scheduler only stops running with no message pending.
pub open spec fn stops_only_when_empty(s: SchedulerData) -> bool {
    !s.running ==> s.events.len() == 0
}

/// The predicate of the messages for the controller.
pub open spec fn is_for_controller() -> spec_fn(MessageData) -> bool {
    |m: MessageData| m is Controller
}

/// The number of pending messages for the controller.
pub open spec fn controller_pending(events: Seq<MessageData>) -> nat {
    events.filter(is_for_controller()).len()
}

/// Whether `new` is `old` with its first message handled: the rest of `old`
/// is still pending, in order, and anything added comes after it.
pub open spec fn handled_first(old: Seq<MessageData>, new: Seq<MessageData>) -> bool {
    &&& old.len() > 0
    &&& new.len() >= old.len() - 1
    &&& new.subrange(0, old.len() - 1) == old.skip(1)
}

/// What one step of the scheduler did.
pub enum Next {
    /// No message was pending: the scheduler stopped running.
    Idle,
    /// A message for the controller was handled; what it asked of the view is queued.
    Handled,
    /// A message for the view is to be performed by the view.
    View(ViewMessage),
}

/// The messages for the view that stand for the requests `out`, in order.
pub open spec fn as_view_messages(out: Seq<ViewRequest>) -> Seq<MessageData> {
    out.map_values(|r: ViewRequest| MessageData::View(r))
}

/// Whether `new` is what handling the controller message `m`, the first of the
/// pending messages of `old`, makes of `old`: the controller, if any, handles
/// it, and the requests it makes of the view take its place, in order.
pub open spec fn dispatched(old: SchedulerData, new: SchedulerData, m: ControllerMessage) -> bool {
    &&& new.running == old.running
    &&& match old.controller {
        Some(c) => exists|now: u64|
            {
                &&& new.controller == Some(#[trigger] step(c, m, now).0)
                &&& new.events == old.events.skip(1) + as_view_messages(step(c, m, now).1)
            },
        None => new.controller is None && new.events == old.events.skip(1),
    }
}

/// One step of the scheduler, as `next_message` takes it: with no message
/// pending it stops running; otherwise it handles the first pending message,
/// its target being the controller or the view.
pub open spec fn scheduler_step(old: SchedulerData, new: SchedulerData) -> bool {
    if old.events.len() == 0 {
        new == SchedulerData { running: false, ..old }
    } else {
        &&& new.running == old.running
        &&& match old.events[0] {
            MessageData::View(_) => new.events == old.events.skip(1) && new.controller
                == old.controller,
            MessageData::Controller(m) => dispatched(old, new, m),
        }
    }
}

/// The pending messages of each state of `trace`.
pub open spec fn event_trace(trace: Seq<SchedulerData>) -> Seq<Seq<MessageData>> {
    trace.map_values(|s: SchedulerData| s.events)
}

/// Creates an event loop that starts each time a message is added
pub struct Scheduler {
    controller: Option<Controller>,
    events: Vec<Message>,
    running: bool,
}

impl View for Scheduler {
    type V = SchedulerData;

    closed spec fn view(&self) -> SchedulerData {
        SchedulerData {
            controller: match self.controller {
                Some(c) => Some(c@),
                None => None,
            },
            events: self.events@.map_values(|m: Message| m@),
            running: self.running,
        }
    }
}

impl Scheduler {
    /// Whether the controller's list changed since it was last handed out to be written.
    pub closed spec fn unsaved(&self) -> bool {
        match self.controller {
            Some(c) => c.unsaved(),
            None => false,
        }
    }

    /// The name of the local storage value that holds the controller's list;
    /// empty without a controller.
    pub closed spec fn storage_name(&self) -> Seq<char> {
        match self.controller {
            Some(c) => c.storage_name(),
            None => Seq::empty(),
        }
    }

    pub fn new() -> (res: Scheduler)
        ensures
            res@ == (SchedulerData { controller: None, events: Seq::empty(), running: false }),
            !res.unsaved(),
            stops_only_when_empty(res@),
    {
        let res = Scheduler { controller: None, events: Vec::new(), running: false };
        assert(res@.events =~= Seq::<MessageData>::empty());
        res
    }

    pub fn set_controller(&mut self, controller: Controller)
        ensures
            final(self)@ == (SchedulerData { controller: Some(controller@), ..old(self)@ }),
            final(self).unsaved() == controller.unsaved(),
            final(self).storage_name() == controller.storage_name(),
    {
        self.controller = Some(controller);
    }

    /// Queues `message`.  Returns whether the scheduler was idle: then it is
    /// now running, and the caller drives it with `next_message` until it is
    /// idle again.
    pub fn add_message(&mut self, message: Message) -> (res: bool)
        ensures
            res == !old(self)@.running,
            final(self)@ == (SchedulerData {
                events: old(self)@.events.push(message@),
                running: true,
                ..old(self)@
            }),
            final(self).unsaved() == old(self).unsaved(),
            final(self).storage_name() == old(self).storage_name(),
            stops_only_when_empty(final(self)@),
    {
        let ghost before = self.events@;
        let ghost m = message@;
        self.events.push(message);
        assert(self.events@.map_values(|m: Message| m@) =~= before.map_values(|m: Message| m@).push(m));
        let running: bool = self.running;
        self.running = true;
        !running
    }

    /// Handles the earliest added message: a message for the controller
    /// is handled by it, and what it asks of the view is queued in order; a
    /// message for the view is handed back to be performed.  With no message
    /// pending, the scheduler stops running.
    pub fn next_message(&mut self) -> (res: Next)
        ensures
            scheduler_step(old(self)@, final(self)@),
            stops_only_when_empty(old(self)@) ==> stops_only_when_empty(final(self)@),
            final(self).storage_name() == old(self).storage_name(),
            old(self)@.events.len() == 0 ==> {
                &&& res is Idle
                &&& final(self)@ == (SchedulerData { running: false, ..old(self)@ })
                &&& final(self).unsaved() == old(self).unsaved()
            },
            old(self)@.events.len() > 0 ==> final(self)@.running == old(self)@.running,
            old(self)@.events.len() > 0 ==> handled_first(old(self)@.events, final(self)@.events),
            old(self)@.events.len() > 0 && old(self)@.events[0] is View ==> {
                &&& res matches Next::View(v) && MessageData::View(v@) == old(self)@.events[0]
                &&& final(self)@.events == old(self)@.events.skip(1)
                &&& final(self)@.controller == old(self)@.controller
                &&& final(self).unsaved() == old(self).unsaved()
            },
            old(self)@.events.len() > 0 ==> (old(self)@.events[0] matches MessageData::Controller(
                m,
            ) ==> {
                &&& res is Handled
                &&& dispatched(old(self)@, final(self)@, m)
                &&& final(self).unsaved() == (old(self).unsaved() || (match old(self)@.controller {
                    Some(c) => crate::controller::writes(c, m),
                    None => false,
                }))
            }),
    {
        let ghost before = self.events@;
        if self.events.len() == 0 {
            self.running = false;
            assert(self.events@.map_values(|m: Message| m@) =~= before.map_values(|m: Message| m@));
            Next::Idle
        } else {
            let event: Message = self.events.remove(0);
            {
                assert(before.skip(1).map_values(|m: Message| m@) =~= before.map_values(
                    |m: Message| m@,
                ).skip(1));
                assert(self.events@ =~= before.skip(1));
                assert(event@ == before.map_values(|m: Message| m@)[0]);
                match event {
                    Message::View(e) => {
                        assert(self.events@.map_values(|m: Message| m@).subrange(0, before.len() - 1)
                            =~= before.map_values(|m: Message| m@).skip(1));
                        Next::View(e)
                    },
                    Message::Controller(e) => {
                        let ghost rest = self.events@;
                        match self.controller.take() {
                            Some(mut ag) => {
                                let outs: Vec<ViewMessage> = ag.call(e);
                                let ghost all = outs@;
                                for m in it: outs.into_iter()
                                    invariant
                                        it.seq() == all,
                                        self.running == old(self).running,
                                        self.controller is None,
                                        self.events@.map_values(|m: Message| m@) == rest.map_values(
                                            |m: Message| m@,
                                        ) + as_view_messages(requests(all.take(it.index()))),
                                {
                                    let ghost b = self.events@;
                                    let ghost mv = m@;
                                    self.events.push(Message::View(m));
                                    assert(all.take(it.index() + 1) =~= all.take(it.index()).push(
                                        m,
                                    ));
                                    assert(self.events@.map_values(|m: Message| m@) =~= b.map_values(
                                        |m: Message| m@,
                                    ).push(MessageData::View(mv)));
                                    assert(as_view_messages(requests(all.take(it.index() + 1)))
                                        =~= as_view_messages(requests(all.take(it.index()))).push(
                                        MessageData::View(mv),
                                    ));
                                }
                                assert(all.take(all.len() as int) =~= all);
                                self.controller = Some(ag);
                            },
                            None => {},
                        }
                        assert(self.events@.map_values(|m: Message| m@).subrange(0, before.len() - 1)
                            =~= before.map_values(|m: Message| m@).skip(1));
                        Next::Handled
                    },
                }
            }
        }
    }

    /// The name of the local storage value that holds the controller's list.
    pub fn store_name(&self) -> (res: Option<&str>)
        ensures
            res is Some <==> self@.controller is Some,
            res matches Some(n) ==> n@ == self.storage_name(),
    {
        match &self.controller {
            Some(c) => Some(c.store_name()),
            None => None,
        }
    }

    /// The entries to write to local storage, once after each change of the
    /// controller's list.
    pub fn take_unsaved(&mut self) -> (res: Option<Vec<StoredEntry>>)
        ensures
            res is Some <==> (old(self).unsaved() && (old(self)@.controller matches Some(c)
                && c.items is Some)),
            res matches Some(es) ==> old(self)@.controller matches Some(c) && es@.len()
                == c.items->0.len() && forall|k: int|
                0 <= k < es@.len() ==> is_entry_of(#[trigger] es@[k], c.items->0[k]),
            final(self)@ == old(self)@,
            !final(self).unsaved(),
            final(self).storage_name() == old(self).storage_name(),
    {
        match self.controller.take() {
            Some(mut c) => {
                let res = c.take_unsaved();
                self.controller = Some(c);
                res
            },
            None => None,
        }
    }

    /// The text to write to local storage after a change of the controller's
    /// list, once after each change: loading it gives the list back.
    pub fn save_text(&mut self) -> (res: Option<String>)
        ensures
            res is Some <==> (old(self).unsaved() && (old(self)@.controller matches Some(c)
                && c.items is Some)),
            res matches Some(t) ==> old(self)@.controller matches Some(c) && c.items is Some
                && text_items(t@) == c.items->0,
            final(self)@ == old(self)@,
            final(self).storage_name() == old(self).storage_name(),
            !final(self).unsaved(),
    {
        match self.controller.take() {
            Some(mut c) => {
                let res = c.save_text();
                self.controller = Some(c);
                res
            },
            None => None,
        }
    }

}

/// Messages are handled in the order they were added: of two messages added
/// one after the other behind those pending, the earlier is handled before the
/// later, and both after every message that was pending.
pub proof fn lemma_first_in_first_out(s: SchedulerData, first: Message, second: Message)
    ensures
        ({
            let events = s.events.push(first@).push(second@);
            &&& events.subrange(0, s.events.len() as int) == s.events
            &&& events[s.events.len() as int] == first@
            &&& events[s.events.len() + 1int] == second@
        }),
{
    assert(s.events.push(first@).push(second@).subrange(0, s.events.len() as int) =~= s.events);
}

/// The first message of each pending queue in `trace`, but the last.
pub open spec fn firsts(trace: Seq<Seq<MessageData>>) -> Seq<MessageData>
    decreases trace.len(),
{
    if trace.len() <= 1 {
        Seq::empty()
    } else {
        firsts(trace.drop_last()).push(trace[trace.len() - 2][0])
    }
}

/// The messages added at each step of `trace`, in order: those behind what
/// was already pending.
pub open spec fn added_along(trace: Seq<Seq<MessageData>>) -> Seq<MessageData>
    decreases trace.len(),
{
    if trace.len() <= 1 {
        Seq::empty()
    } else {
        let prev = trace[trace.len() - 2];
        added_along(trace.drop_last()) + trace.last().skip(prev.len() - 1)
    }
}

/// Each message is handled exactly once, in the order it was queued: along
/// any run of steps, each of which handles the first pending message
/// (`handled_first`, as `next_message` ensures), the messages handled,
/// followed by those still pending, are exactly the messages pending at the
/// start followed by all those added on the way, in order.  When the run ends
/// idle, with nothing pending, the messages handled are exactly those.
pub proof fn lemma_delivery(trace: Seq<Seq<MessageData>>)
    requires
        trace.len() >= 1,
        forall|i: int| 0 <= i < trace.len() - 1 ==> handled_first(#[trigger] trace[i], trace[i + 1]),
    ensures
        firsts(trace) + trace.last() == trace[0] + added_along(trace),
        trace.last().len() == 0 ==> firsts(trace) == trace[0] + added_along(trace),
    decreases trace.len(),
{
    if trace.len() > 1 {
        let t = trace.drop_last();
        assert forall|i: int| 0 <= i < t.len() - 1 implies handled_first(#[trigger] t[i], t[i + 1]) by {
            assert(t[i] == trace[i] && t[i + 1] == trace[i + 1]);
        }
        lemma_delivery(t);
        let prev = trace[trace.len() - 2];
        let last = trace.last();
        assert(handled_first(trace[trace.len() - 2], trace[trace.len() - 1]));
        assert(t.last() == prev);
        assert(last =~= prev.skip(1) + last.skip(prev.len() - 1)) by {
            assert(last.subrange(0, prev.len() - 1) == prev.skip(1));
        }
        assert(seq![prev[0]] + prev.skip(1) =~= prev);
        assert(firsts(trace) + last =~= firsts(t) + prev + last.skip(prev.len() - 1));
    }
    if trace.last().len() == 0 {
        assert(firsts(trace) + trace.last() =~= firsts(trace));
    }
}

/// Requests for the view hold no message for the controller.
proof fn lemma_no_controller_messages(out: Seq<ViewRequest>)
    ensures
        controller_pending(as_view_messages(out)) == 0,
    decreases out.len(),
{
    reveal(Seq::filter);
    if out.len() > 0 {
        lemma_no_controller_messages(out.drop_last());
        assert(as_view_messages(out).drop_last() =~= as_view_messages(out.drop_last()));
    }
}

/// Each step that handles a message makes progress: handling a message for
/// the controller leaves one fewer message for the controller pending, and
/// handling a message for the view leaves as many for the controller and one
/// fewer message in all.  So driving the scheduler until it is idle ends.
pub proof fn lemma_step_progress(old: SchedulerData, new: SchedulerData)
    requires
        old.events.len() > 0,
        old.events[0] matches MessageData::Controller(m) ==> dispatched(old, new, m),
        old.events[0] is View ==> new.events == old.events.skip(1),
    ensures
        old.events[0] is Controller ==> controller_pending(new.events) < controller_pending(
            old.events,
        ),
        old.events[0] is View ==> controller_pending(new.events) == controller_pending(old.events)
            && new.events.len() < old.events.len(),
{
    let rest = old.events.skip(1);
    let head = seq![old.events[0]];
    assert(head + rest =~= old.events);
    Seq::filter_distributes_over_add(head, rest, is_for_controller());
    reveal(Seq::filter);
    assert(head.drop_last() =~= Seq::<MessageData>::empty());
    assert(Seq::<MessageData>::empty().filter(is_for_controller()) =~= Seq::<MessageData>::empty());
    assert(head.last() == old.events[0]);
    assert(head.filter(is_for_controller()).len() == if old.events[0] is Controller {
        1int
    } else {
        0int
    });
    if let MessageData::Controller(m) = old.events[0] {
        match old.controller {
            Some(c) => {
                let now = choose|now: u64|
                    {
                        &&& new.controller == Some(#[trigger] step(c, m, now).0)
                        &&& new.events == old.events.skip(1) + as_view_messages(step(c, m, now).1)
                    };
                let out = as_view_messages(step(c, m, now).1);
                lemma_no_controller_messages(step(c, m, now).1);
                Seq::filter_distributes_over_add(rest, out, is_for_controller());
            },
            None => {},
        }
    }
}

/// A step that handles a message keeps the rest of the queue in order and
/// adds behind it.
proof fn lemma_step_handles_first(old: SchedulerData, new: SchedulerData)
    requires
        scheduler_step(old, new),
        old.events.len() > 0,
    ensures
        handled_first(old.events, new.events),
{
    match old.events[0] {
        MessageData::View(_) => {
            assert(new.events.subrange(0, old.events.len() - 1) =~= old.events.skip(1));
        },
        MessageData::Controller(m) => {
            match old.controller {
                Some(c) => {
                    let now = choose|now: u64|
                        {
                            &&& new.controller == Some(#[trigger] step(c, m, now).0)
                            &&& new.events == old.events.skip(1) + as_view_messages(
                                step(c, m, now).1,
                            )
                        };
                    assert(new.events.subrange(0, old.events.len() - 1) =~= old.events.skip(1));
                },
                None => {
                    assert(new.events.subrange(0, old.events.len() - 1) =~= old.events.skip(1));
                },
            }
        },
    }
}

/// Driving the scheduler until it is idle handles every message exactly once,
/// in order, and then stops: along the steps that `next_message` takes while
/// the scheduler runs (as after `add_message` found it idle), ending with the
/// step that stops it, every step but the last handles a pending message and
/// makes progress (one fewer message for the controller, or as many and one
/// fewer in all, so that no run goes on forever); the last step finds nothing
/// pending; and the messages handled are exactly those pending at the start
/// followed by all those added on the way, in the order they were added.
pub proof fn lemma_drain(trace: Seq<SchedulerData>)
    requires
        trace.len() >= 2,
        forall|i: int| 0 <= i < trace.len() - 1 ==> scheduler_step(#[trigger] trace[i], trace[i + 1]),
        forall|i: int| 0 <= i < trace.len() - 1 ==> (#[trigger] trace[i]).running,
        !trace.last().running,
    ensures
        trace[trace.len() - 2].events.len() == 0,
        trace.last().events.len() == 0,
        firsts(event_trace(trace.drop_last())) == trace[0].events + added_along(
            event_trace(trace.drop_last()),
        ),
        forall|i: int|
            0 <= i < trace.len() - 2 ==> (#[trigger] trace[i]).events.len() > 0 && (
            controller_pending(trace[i + 1].events) < controller_pending(trace[i].events) || (
            controller_pending(trace[i + 1].events) == controller_pending(trace[i].events)
                && trace[i + 1].events.len() < trace[i].events.len())),
{
    let n = trace.len();
    assert(scheduler_step(trace[n - 2], trace[n - 1]));
    assert(trace[n - 2].running);
    let et = event_trace(trace.drop_last());
    assert forall|i: int| 0 <= i < trace.len() - 2 implies (#[trigger] trace[i]).events.len() > 0
        && (controller_pending(trace[i + 1].events) < controller_pending(trace[i].events) || (
        controller_pending(trace[i + 1].events) == controller_pending(trace[i].events)
            && trace[i + 1].events.len() < trace[i].events.len())) by {
        assert(scheduler_step(trace[i], trace[i + 1]));
        assert(trace[i + 1].running);
        lemma_step_progress(trace[i], trace[i + 1]);
    }
    assert forall|i: int| 0 <= i < et.len() - 1 implies handled_first(#[trigger] et[i], et[i + 1]) by {
        assert(scheduler_step(trace[i], trace[i + 1]));
        assert(trace[i + 1].running);
        assert(trace[i].events.len() > 0);
        lemma_step_handles_first(trace[i], trace[i + 1]);
        assert(et[i] == trace[i].events && et[i + 1] == trace[i + 1].events);
    }
    lemma_delivery(et);
    assert(et[0] == trace[0].events);
    assert(et.last() == trace[n - 2].events);
}

} // verus!
