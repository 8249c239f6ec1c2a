//! What holds of every run of a group, and of a transfer across calls.
//!
//! A run is a sequence of events that change a group without submitting
//! anything: the engine completes a descriptor, the oldest completion is
//! handed back, or the flag is cleared to block. The steps of `wait_any`,
//! `cancel_all` and the completion callback are such events.

use vstd::prelude::*;
use vstd::seq_lib::seq_to_set_is_finite;
use vstd::set_lib::lemma_subset_equality;
use libc::{c_int, c_uint};
use crate::group::{
    descriptors, lemma_completion, lemma_idle, lemma_in_flight, lemma_insert_fresh,
    lemma_retrieved, GroupView,
};
use crate::transfer::{
    setup_header, status_of_code, TransferView, CONTROL_SETUP_SIZE, LIBUSB_TRANSFER_TYPE_CONTROL,
};

verus! {

/// One change of a group that submits nothing.
pub enum GroupEvent {
    /// The engine completed a descriptor with a status and the bytes it
    /// transferred.
    Completed { descriptor: usize, status: c_int, data: Seq<u8> },
    /// The oldest completion was handed back.
    Retrieved,
    /// The flag was cleared to block in the engine.
    Blocked,
}

impl GroupView {
    /// Whether the event can happen to the group: the engine completes only
    /// what it holds, only a queued completion is handed back, and the
    /// group blocks only on an empty queue.
    pub open spec fn enabled(self, event: GroupEvent) -> bool {
        match event {
            GroupEvent::Completed { descriptor, .. } => self.is_in_flight(descriptor),
            GroupEvent::Retrieved => self.completed.len() > 0,
            GroupEvent::Blocked => self.completed.len() == 0,
        }
    }

    /// The group after the event.
    pub open spec fn after(self, event: GroupEvent) -> GroupView {
        match event {
            GroupEvent::Completed { descriptor, status, data } => self.completion(
                descriptor,
                status,
                data,
            ),
            GroupEvent::Retrieved => self.retrieved(),
            GroupEvent::Blocked => self.blocked(),
        }
    }

    /// The transfers that the event hands back.
    pub open spec fn handed_back_by(self, event: GroupEvent) -> Seq<TransferView> {
        match event {
            GroupEvent::Retrieved => seq![self.completed[0]],
            _ => Seq::empty(),
        }
    }

    /// Whether the events can happen to the group one after the other.
    pub open spec fn admits(self, events: Seq<GroupEvent>) -> bool
        decreases events.len(),
    {
        if events.len() == 0 {
            true
        } else {
            self.enabled(events[0]) && self.after(events[0]).admits(events.drop_first())
        }
    }

    /// The group after the events.
    pub open spec fn after_all(self, events: Seq<GroupEvent>) -> GroupView
        decreases events.len(),
    {
        if events.len() == 0 {
            self
        } else {
            self.after(events[0]).after_all(events.drop_first())
        }
    }

    /// The transfers that the events hand back, in order.
    pub open spec fn handed_back(self, events: Seq<GroupEvent>) -> Seq<TransferView>
        decreases events.len(),
    {
        if events.len() == 0 {
            Seq::empty()
        } else {
            self.handed_back_by(events[0]) + self.after(events[0]).handed_back(
                events.drop_first(),
            )
        }
    }

    /// The transfers that the events put in the queue, in order: each one
    /// as the engine completed it.
    pub open spec fn queued(self, events: Seq<GroupEvent>) -> Seq<TransferView>
        decreases events.len(),
    {
        if events.len() == 0 {
            Seq::empty()
        } else {
            self.queued_by(events[0]) + self.after(events[0]).queued(events.drop_first())
        }
    }

    /// The transfers that the event puts in the queue.
    pub open spec fn queued_by(self, event: GroupEvent) -> Seq<TransferView> {
        match event {
            GroupEvent::Completed { descriptor, status, data } => seq![
                self.in_flight[self.position(descriptor)].completed(status, data),
            ],
            _ => Seq::empty(),
        }
    }

    /// The group after the engine accepted the transfers one after the other.
    pub open spec fn submitted_all(self, ts: Seq<TransferView>) -> GroupView
        decreases ts.len(),
    {
        if ts.len() == 0 {
            self
        } else {
            self.submitted_all(ts.drop_last()).submitted(ts.last())
        }
    }
}

/// The steps that the group takes are events: a completion that the
/// callback records; and, for a step of `wait_any` or of the draining of
/// `cancel_all` on a group with something pending, the handing back of
/// the oldest completion, or the clearing of the flag where none is queued.
pub proof fn lemma_steps_are_events(g: GroupView, descriptor: usize, status: c_int, data: Seq<u8>)
    ensures
        g.is_in_flight(descriptor) ==> g.enabled(GroupEvent::Completed { descriptor, status, data })
            && g.after(GroupEvent::Completed { descriptor, status, data }) == g.completion(
            descriptor,
            status,
            data,
        ),
        g.completed.len() > 0 ==> g.enabled(GroupEvent::Retrieved) && g.after_wait(0) == g.after(
            GroupEvent::Retrieved,
        ) && g.handed_back_by(GroupEvent::Retrieved) == seq![g.completed[0]],
        !g.is_idle() && g.completed.len() == 0 ==> g.enabled(GroupEvent::Blocked) && g.after_wait(0)
            == g.after(GroupEvent::Blocked),
        g.is_idle() ==> g.after_wait(0) == g,
{
}

/// Whether `result` is the transfer `t` as the event completed it.
pub open spec fn completes(t: TransferView, event: GroupEvent, result: TransferView) -> bool {
    event matches GroupEvent::Completed { descriptor, status, data } && descriptor == t.descriptor
        && result == t.completed(status, data)
}

/// Whether `result` is a transfer of the group as the engine reported it:
/// one of the queue, or one that the engine held, as one of the events
/// completed it.
pub open spec fn reported(g: GroupView, events: Seq<GroupEvent>, result: TransferView) -> bool {
    ||| g.completed.contains(result)
    ||| exists|j: int, k: int|
        0 <= j < g.in_flight.len() && 0 <= k < events.len() && #[trigger] completes(
            g.in_flight[j],
            events[k],
            result,
        )
}

/// An event keeps a group well-formed. What it hands back leaves the
/// pending set; nothing else does, and nothing joins it.
pub proof fn lemma_event(g: GroupView, event: GroupEvent)
    requires
        g.wf(),
        g.enabled(event),
    ensures
        g.after(event).wf(),
        descriptors(g.handed_back_by(event)).to_set().subset_of(g.pending()),
        g.after(event).pending() == g.pending().difference(
            descriptors(g.handed_back_by(event)).to_set(),
        ),
{
    let out = descriptors(g.handed_back_by(event));
    match event {
        GroupEvent::Completed { descriptor, status, data } => {
            lemma_completion(g, descriptor, status, data);
            assert(out =~= Seq::<usize>::empty());
        },
        GroupEvent::Retrieved => {
            lemma_retrieved(g);
            assert(out =~= seq![g.completed[0].descriptor]);
            assert(out[0] == g.completed[0].descriptor);
            assert forall|d: usize| out.to_set().contains(d) <==> d
                == g.completed[0].descriptor by {
                if d == g.completed[0].descriptor {
                    assert(out.contains(out[0]));
                }
            }
        },
        GroupEvent::Blocked => {
            assert(g.blocked().outstanding() =~= g.outstanding());
            assert(out =~= Seq::<usize>::empty());
        },
    }
    assert(g.after(event).pending() =~= g.pending().difference(out.to_set()));
}

/// Over any run, descriptors are neither lost nor made up: the group stays
/// well-formed, no descriptor is handed back twice, none that is handed
/// back is still pending, and those handed back together with those still
/// pending are those that were pending at the start.
pub proof fn lemma_run_conserves_descriptors(g: GroupView, events: Seq<GroupEvent>)
    requires
        g.wf(),
        g.admits(events),
    ensures
        g.after_all(events).wf(),
        descriptors(g.handed_back(events)).no_duplicates(),
        descriptors(g.handed_back(events)).to_set().disjoint(g.after_all(events).pending()),
        descriptors(g.handed_back(events)).to_set().union(g.after_all(events).pending())
            == g.pending(),
    decreases events.len(),
{
    let out = descriptors(g.handed_back(events));
    let h = g.after_all(events);
    if events.len() == 0 {
        assert(out =~= Seq::<usize>::empty());
        assert(out.to_set() =~= Set::<usize>::empty());
        assert(out.to_set().union(h.pending()) =~= g.pending());
    } else {
        let event = events[0];
        let next = g.after(event);
        let rest = events.drop_first();
        lemma_event(g, event);
        lemma_run_conserves_descriptors(next, rest);
        let first = descriptors(g.handed_back_by(event));
        let later = descriptors(next.handed_back(rest));
        assert(out =~= first + later);
        match event {
            GroupEvent::Retrieved => {
                let d = g.completed[0].descriptor;
                assert(first =~= seq![d]);
                assert(first[0] == d && first.contains(first[0]));
                assert(!next.pending().contains(d));
                assert(!later.contains(d)) by {
                    if later.contains(d) {
                        assert(later.to_set().union(h.pending()).contains(d));
                    }
                }
                assert(!h.pending().contains(d)) by {
                    if h.pending().contains(d) {
                        assert(later.to_set().union(h.pending()).contains(d));
                    }
                }
                assert(out =~= later.insert(0, d));
                lemma_insert_fresh(later, 0, d);
                assert(out.to_set().union(h.pending()) =~= later.to_set().union(
                    h.pending(),
                ).insert(d));
                assert(out.to_set().union(h.pending()) =~= g.pending());
            },
            _ => {
                assert(first =~= Seq::<usize>::empty());
                assert(out =~= later);
                assert(first.to_set() =~= Set::<usize>::empty());
                assert(next.pending() =~= g.pending());
            },
        }
    }
}

/// Completions are handed back in the order in which the engine reported
/// them: over any run, what was in the queue at the start, followed by
/// what the run put in, is what the run handed back, followed by what is
/// in the queue at the end.
pub proof fn lemma_run_is_first_in_first_out(g: GroupView, events: Seq<GroupEvent>)
    requires
        g.admits(events),
    ensures
        g.completed + g.queued(events) == g.handed_back(events) + g.after_all(events).completed,
    decreases events.len(),
{
    if events.len() == 0 {
        assert(g.completed + g.queued(events) =~= g.handed_back(events) + g.after_all(
            events,
        ).completed);
    } else {
        let event = events[0];
        let next = g.after(event);
        let rest = events.drop_first();
        lemma_run_is_first_in_first_out(next, rest);
        let end = g.after_all(events).completed;
        assert(next.completed + next.queued(rest) == next.handed_back(rest) + end);
        match event {
            GroupEvent::Completed { descriptor, status, data } => {
                assert(g.completed + g.queued(events) =~= next.completed + next.queued(rest));
                assert(g.handed_back(events) =~= next.handed_back(rest));
            },
            GroupEvent::Retrieved => {
                assert(g.queued(events) =~= next.queued(rest));
                assert(g.completed =~= seq![g.completed[0]] + next.completed);
                assert(g.completed + g.queued(events) =~= seq![g.completed[0]] + (next.completed
                    + next.queued(rest)));
                assert(g.handed_back(events) + end =~= seq![g.completed[0]] + (next.handed_back(
                    rest,
                ) + end));
            },
            GroupEvent::Blocked => {
                assert(g.queued(events) =~= next.queued(rest));
                assert(g.handed_back(events) =~= next.handed_back(rest));
            },
        }
    }
}

/// No completion goes unannounced: after any run, the flag is set while a
/// completion waits in the queue, so that the engine's event processor
/// returns at once where the group would otherwise block on it.
pub proof fn lemma_flag_announces_completions(g: GroupView, events: Seq<GroupEvent>)
    requires
        g.wf(),
        g.admits(events),
    ensures
        g.after_all(events).completed.len() > 0 ==> g.after_all(events).flag,
{
    lemma_run_conserves_descriptors(g, events);
}

/// Submitting transfers with distinct descriptors to a new group makes
/// exactly them pending, in the order of their submission, and none of
/// them was pending when it was submitted.
pub proof fn lemma_submitted_all(context: usize, ts: Seq<TransferView>)
    requires
        descriptors(ts).no_duplicates(),
    ensures
        GroupView::empty(context).submitted_all(ts) == (GroupView {
            in_flight: ts,
            ..GroupView::empty(context)
        }),
        GroupView::empty(context).submitted_all(ts).wf(),
        GroupView::empty(context).submitted_all(ts).pending() == descriptors(ts).to_set(),
        ts.len() > 0 ==> !GroupView::empty(context).submitted_all(ts.drop_last()).pending().contains(
            ts.last().descriptor,
        ),
    decreases ts.len(),
{
    let start = GroupView::empty(context);
    let g = start.submitted_all(ts);
    if ts.len() == 0 {
        assert(g.in_flight =~= ts);
    } else {
        let before = ts.drop_last();
        assert(descriptors(before) =~= descriptors(ts).drop_last());
        lemma_submitted_all(context, before);
        assert(before.push(ts.last()) =~= ts);
        let earlier = descriptors(before);
        assert(!earlier.contains(ts.last().descriptor)) by {
            if earlier.contains(ts.last().descriptor) {
                let i = choose|i: int| 0 <= i < earlier.len() && earlier[i] == ts.last().descriptor;
                assert(descriptors(ts)[i] == descriptors(ts)[ts.len() - 1]);
            }
        }
    }
    assert(g.outstanding() =~= descriptors(ts));
}

/// Submitting N transfers and taking N transfers back returns each
/// submitted descriptor exactly once, in whatever order the engine
/// completes them: no descriptor comes back twice, the descriptors that
/// come back are those submitted, and nothing is pending afterwards.
pub proof fn lemma_each_submitted_handed_back_once(
    context: usize,
    ts: Seq<TransferView>,
    events: Seq<GroupEvent>,
)
    requires
        descriptors(ts).no_duplicates(),
        GroupView::empty(context).submitted_all(ts).admits(events),
        GroupView::empty(context).submitted_all(ts).handed_back(events).len() == ts.len(),
    ensures
        descriptors(
            GroupView::empty(context).submitted_all(ts).handed_back(events),
        ).no_duplicates(),
        descriptors(GroupView::empty(context).submitted_all(ts).handed_back(events)).to_set()
            == descriptors(ts).to_set(),
        GroupView::empty(context).submitted_all(ts).after_all(events).is_idle(),
{
    let g = GroupView::empty(context).submitted_all(ts);
    let h = g.after_all(events);
    let out = descriptors(g.handed_back(events));
    lemma_submitted_all(context, ts);
    lemma_run_conserves_descriptors(g, events);
    out.unique_seq_to_set();
    descriptors(ts).unique_seq_to_set();
    seq_to_set_is_finite(out);
    seq_to_set_is_finite(descriptors(ts));
    assert(out.to_set().subset_of(g.pending())) by {
        assert forall|d: usize| out.to_set().contains(d) implies g.pending().contains(d) by {
            assert(out.to_set().union(h.pending()).contains(d));
        }
    }
    lemma_subset_equality(out.to_set(), g.pending());
    assert(h.pending() =~= Set::<usize>::empty()) by {
        assert forall|d: usize| !h.pending().contains(d) by {
            if h.pending().contains(d) {
                assert(out.to_set().union(h.pending()).contains(d));
            }
        }
    }
    lemma_idle(h);
}

/// A run that leaves nothing pending, as cancelling everything and taking
/// the completions does, has handed back every descriptor that was pending
/// at its start, and each of them once.
pub proof fn lemma_drained_run_handed_back_all(g: GroupView, events: Seq<GroupEvent>)
    requires
        g.wf(),
        g.admits(events),
        g.after_all(events).is_idle(),
    ensures
        descriptors(g.handed_back(events)).no_duplicates(),
        descriptors(g.handed_back(events)).to_set() == g.pending(),
{
    let h = g.after_all(events);
    let out = descriptors(g.handed_back(events));
    lemma_run_conserves_descriptors(g, events);
    lemma_idle(h);
    assert(out.to_set() =~= out.to_set().union(h.pending()));
}

/// Every transfer that a run hands back is as the engine reported it: it
/// was in the queue at the start, or the engine held it at the start and
/// it carries the status and the bytes of the event that completed it, be
/// that status `Cancelled` or another.
pub proof fn lemma_handed_back_as_reported(g: GroupView, events: Seq<GroupEvent>, i: int)
    requires
        g.admits(events),
        0 <= i < g.handed_back(events).len(),
    ensures
        reported(g, events, g.handed_back(events)[i]),
    decreases events.len(),
{
    let result = g.handed_back(events)[i];
    let event = events[0];
    let next = g.after(event);
    let rest = events.drop_first();
    let first = g.handed_back_by(event);
    if i < first.len() {
        assert(result == g.completed[0]);
        assert(g.completed.contains(result));
    } else {
        assert(result == next.handed_back(rest)[i - first.len()]);
        lemma_handed_back_as_reported(next, rest, i - first.len());
        match event {
            GroupEvent::Completed { descriptor, status, data } => {
                lemma_in_flight(g, descriptor);
                let p = g.position(descriptor);
                if next.completed.contains(result) {
                    let c = choose|c: int| 0 <= c < next.completed.len() && next.completed[c]
                        == result;
                    if c < g.completed.len() {
                        assert(g.completed[c] == result);
                    } else {
                        assert(completes(g.in_flight[p], events[0], result));
                    }
                } else {
                    let (j, k) = choose|j: int, k: int|
                        0 <= j < next.in_flight.len() && 0 <= k < rest.len() && #[trigger] completes(
                            next.in_flight[j],
                            rest[k],
                            result,
                        );
                    let j0 = if j < p { j } else { j + 1 };
                    assert(next.in_flight[j] == g.in_flight[j0]);
                    assert(rest[k] == events[k + 1]);
                    assert(completes(g.in_flight[j0], events[k + 1], result));
                }
            },
            _ => {
                if next.completed.contains(result) {
                    let c = choose|c: int| 0 <= c < next.completed.len() && next.completed[c]
                        == result;
                    if event is Retrieved {
                        assert(g.completed[c + 1] == result);
                    } else {
                        assert(g.completed[c] == result);
                    }
                } else {
                    let (j, k) = choose|j: int, k: int|
                        0 <= j < next.in_flight.len() && 0 <= k < rest.len() && #[trigger] completes(
                            next.in_flight[j],
                            rest[k],
                            result,
                        );
                    assert(rest[k] == events[k + 1]);
                    assert(completes(g.in_flight[j], events[k + 1], result));
                }
            },
        }
    }
}

/// A completed transfer has the status that the engine's code stands for,
/// and reports as transferred the bytes that the engine transferred, where
/// its buffer has room for them behind the payload offset. Everything else
/// about the transfer is as it was submitted.
pub proof fn lemma_completed_transfer(t: TransferView, status: c_int, data: Seq<u8>)
    ensures
        t.completed(status, data).status() == status_of_code(status as int),
        t.completed(status, data).actual() == data.subrange(0, t.stored(data) as int),
        data.len() <= t.capacity() ==> t.completed(status, data).actual() == data,
        t.completed(status, data).buffer.len() == t.buffer.len(),
        t.completed(status, data).descriptor == t.descriptor,
        t.completed(status, data).device == t.device,
        t.completed(status, data).endpoint == t.endpoint,
        t.completed(status, data).transfer_type == t.transfer_type,
        t.completed(status, data).timeout == t.timeout,
{
    let done = t.completed(status, data);
    assert(done.actual() =~= data.subrange(0, t.stored(data) as int));
    if data.len() <= t.capacity() {
        assert(data.subrange(0, t.stored(data) as int) =~= data);
    }
}

/// What a transfer reports as transferred never reaches into what stands
/// before the payload: for a control transfer, each reported byte stands
/// eight places behind its place in the buffer, and so the setup header is
/// never part of it.
pub proof fn lemma_actual_skips_setup_header(t: TransferView)
    ensures
        t.actual().len() <= t.capacity(),
        t.actual().len() == t.actual_length || t.actual().len() == 0,
        forall|i: int|
            0 <= i < t.actual().len() ==> t.actual()[i] == t.buffer[t.payload_offset() + i],
        t.transfer_type == LIBUSB_TRANSFER_TYPE_CONTROL ==> t.payload_offset()
            == CONTROL_SETUP_SIZE,
{
}

/// The buffer of a control transfer built with a payload of length L opens
/// with the setup header of request type, request, value, index and L.
/// After the engine completed the transfer, the header is still there, and
/// what the transfer reports as transferred stands behind it: the bytes
/// that the engine transferred, as far as the payload has room for them.
pub proof fn lemma_control_transfer(
    descriptor: usize,
    device: usize,
    endpoint: u8,
    payload: Seq<u8>,
    request_type: u8,
    request: u8,
    value: u16,
    index: u16,
    timeout: c_uint,
    status: c_int,
    data: Seq<u8>,
)
    ensures
        ({
            let built = TransferView::control(
                descriptor,
                device,
                endpoint,
                payload,
                request_type,
                request,
                value,
                index,
                timeout,
            );
            let header = setup_header(request_type, request, value, index, payload.len());
            let done = built.completed(status, data);
            &&& header.len() == CONTROL_SETUP_SIZE
            &&& built.buffer.subrange(0, CONTROL_SETUP_SIZE as int) == header
            &&& built.buffer.subrange(CONTROL_SETUP_SIZE as int, built.buffer.len() as int)
                == payload
            &&& built.actual() == Seq::<u8>::empty()
            &&& done.buffer.len() == built.buffer.len()
            &&& done.buffer.subrange(0, CONTROL_SETUP_SIZE as int) == header
            &&& done.actual_length == if data.len() <= payload.len() {
                data.len()
            } else {
                payload.len()
            }
            &&& done.actual() == data.subrange(0, done.actual_length as int)
            &&& done.actual() == done.buffer.subrange(
                CONTROL_SETUP_SIZE as int,
                CONTROL_SETUP_SIZE + done.actual_length,
            )
            &&& data.len() <= payload.len() ==> done.actual() == data
        }),
{
    let built = TransferView::control(
        descriptor,
        device,
        endpoint,
        payload,
        request_type,
        request,
        value,
        index,
        timeout,
    );
    let header = setup_header(request_type, request, value, index, payload.len());
    let done = built.completed(status, data);
    assert(built.buffer.subrange(0, CONTROL_SETUP_SIZE as int) =~= header);
    assert(built.buffer.subrange(CONTROL_SETUP_SIZE as int, built.buffer.len() as int)
        =~= payload);
    assert(built.actual() =~= Seq::<u8>::empty());
    assert(built.capacity() == payload.len());
    assert(done.buffer.subrange(0, CONTROL_SETUP_SIZE as int) =~= header);
    assert(done.actual() =~= data.subrange(0, done.actual_length as int));
    if data.len() <= payload.len() {
        assert(data.subrange(0, done.actual_length as int) =~= data);
    }
}

/// After `set_buffer`, the buffer of a transfer is exactly what was set, in
/// contents and in length, and nothing counts as transferred.
pub proof fn lemma_set_buffer(t: TransferView, buffer: Seq<u8>)
    ensures
        t.with_buffer(buffer).buffer == buffer,
        t.with_buffer(buffer).buffer.len() == buffer.len(),
        t.with_buffer(buffer).actual_length == 0,
        t.with_buffer(buffer).actual() == Seq::<u8>::empty(),
{
    assert(t.with_buffer(buffer).actual() =~= Seq::<u8>::empty());
}

} // verus!
