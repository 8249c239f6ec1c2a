//! A group of pending transfers: what was submitted and not yet handed
//! back, the queue of completions, and the decisions of submitting, waiting
//! and cancelling. The group never calls the engine: its driver does, and
//! reports the status code of each call.

use vstd::prelude::*;
use std::collections::VecDeque;
use libc::c_int;
use crate::error::{check, engine_result, error_of_code, Error};
use crate::transfer::{Transfer, TransferView};

verus! {

/// The engine context that a group processes events of. Groups borrow their
/// context and cannot outlive it.
#[derive(Debug)]
pub struct Context {
    raw: usize,
}

impl Context {
    /// The engine's identifier of the context.
    pub closed spec fn raw(&self) -> usize {
        self.raw
    }

    /// Wraps the engine's identifier of a context.
    pub fn new(raw: usize) -> (context: Context)
        ensures
            context.raw() == raw,
    {
        Context { raw }
    }

    /// The engine's identifier of the context.
    pub fn as_raw(&self) -> (raw: usize)
        ensures
            raw == self.raw(),
    {
        self.raw
    }
}

/// The descriptors of a sequence of transfers, in order.
pub open spec fn descriptors(ts: Seq<TransferView>) -> Seq<usize> {
    ts.map_values(|t: TransferView| t.descriptor)
}

/// A group as a mathematical value.
#[verifier::ext_equal]
pub struct GroupView {
    /// The engine's identifier of the context.
    pub context: usize,
    /// The transfers that the engine holds, in the order of their submission.
    pub in_flight: Seq<TransferView>,
    /// The transfers that the engine completed and `wait_any` has not handed
    /// back yet, oldest first.
    pub completed: Seq<TransferView>,
    /// The completion flag that the engine's event processor watches.
    pub flag: bool,
}

impl GroupView {
    /// The group that `new` creates.
    pub open spec fn empty(context: usize) -> GroupView {
        GroupView { context, in_flight: Seq::empty(), completed: Seq::empty(), flag: false }
    }

    /// The descriptors of the pending transfers: first those the engine
    /// holds, then those it completed.
    pub open spec fn outstanding(self) -> Seq<usize> {
        descriptors(self.in_flight) + descriptors(self.completed)
    }

    /// The set of pending descriptors.
    pub open spec fn pending(self) -> Set<usize> {
        self.outstanding().to_set()
    }

    /// No descriptor is pending twice, and the flag is set while a
    /// completion waits in the queue.
    pub open spec fn wf(self) -> bool {
        &&& self.outstanding().no_duplicates()
        &&& self.completed.len() > 0 ==> self.flag
    }

    /// Whether nothing is pending.
    pub open spec fn is_idle(self) -> bool {
        self.in_flight.len() == 0 && self.completed.len() == 0
    }

    /// Whether the engine holds the descriptor.
    pub open spec fn is_in_flight(self, descriptor: usize) -> bool {
        descriptors(self.in_flight).contains(descriptor)
    }

    /// Whether the descriptor stands at place `i` among those the engine
    /// holds, and at no place before it.
    pub open spec fn first_at(self, descriptor: usize, i: int) -> bool {
        &&& 0 <= i < self.in_flight.len()
        &&& self.in_flight[i].descriptor == descriptor
        &&& forall|j: int| 0 <= j < i ==> self.in_flight[j].descriptor != descriptor
    }

    /// Where the descriptor stands among those the engine holds. A
    /// well-formed group holds it in one place at most.
    pub open spec fn position(self, descriptor: usize) -> int {
        choose|i: int| self.first_at(descriptor, i)
    }

    /// The group after the engine accepted a transfer.
    pub open spec fn submitted(self, t: TransferView) -> GroupView {
        GroupView { in_flight: self.in_flight.push(t), ..self }
    }

    /// The group after the engine completed the descriptor with a status and
    /// the bytes it transferred: the transfer leaves the engine, joins the
    /// queue behind the older completions, and the flag is set.
    pub open spec fn completion(self, descriptor: usize, status: c_int, data: Seq<u8>) -> GroupView {
        let i = self.position(descriptor);
        GroupView {
            in_flight: self.in_flight.remove(i),
            completed: self.completed.push(self.in_flight[i].completed(status, data)),
            flag: true,
            ..self
        }
    }

    /// The group after `wait_any` handed back the oldest completion.
    pub open spec fn retrieved(self) -> GroupView {
        GroupView { completed: self.completed.drop_first(), ..self }
    }

    /// The group after it cleared the flag to block in the engine.
    pub open spec fn blocked(self) -> GroupView {
        GroupView { flag: false, ..self }
    }

    /// The group after one step of `wait_any` on a status code: unchanged
    /// where the step fails; without its oldest completion where there is
    /// one; with the flag cleared where the driver has to block.
    pub open spec fn after_wait(self, code: int) -> GroupView {
        if self.is_idle() || code != 0 {
            self
        } else if self.completed.len() > 0 {
            self.retrieved()
        } else {
            self.blocked()
        }
    }

    /// The group after one step of `cancel_all`: unchanged while the step
    /// fails or hands out a request; afterwards as after a step of
    /// `wait_any` that follows a successful engine call.
    pub open spec fn after_cancel(self, run: CancellationView, code: int) -> GroupView {
        if code != 0 || run.issued < run.requests.len() {
            self
        } else {
            self.after_wait(0)
        }
    }
}

/// The progress of a `cancel_all` as a mathematical value.
pub struct CancellationView {
    /// The descriptors to cancel, in the order of the requests.
    pub requests: Seq<usize>,
    /// How many requests were handed out.
    pub issued: nat,
}

impl CancellationView {
    /// The progress after one step of `cancel_all` on a status code: one
    /// more request is handed out, if the step does not fail and one is left.
    pub open spec fn after_step(self, code: int) -> CancellationView {
        if code == 0 && self.issued < self.requests.len() {
            CancellationView { issued: self.issued + 1, ..self }
        } else {
            self
        }
    }
}

/// A sequence without duplicates stays so when an element it lacks is put in.
pub proof fn lemma_insert_fresh(s: Seq<usize>, i: int, x: usize)
    requires
        s.no_duplicates(),
        !s.contains(x),
        0 <= i <= s.len(),
    ensures
        s.insert(i, x).no_duplicates(),
        s.insert(i, x).to_set() == s.to_set().insert(x),
{
    let r = s.insert(i, x);
    assert forall|a: int, b: int| 0 <= a < r.len() && 0 <= b < r.len() && a != b implies r[a]
        != r[b] by {
        let a0 = if a < i { a } else { a - 1 };
        let b0 = if b < i { b } else { b - 1 };
        if a != i {
            assert(r[a] == s[a0]);
        }
        if b != i {
            assert(r[b] == s[b0]);
        }
    }
    assert forall|v: usize| r.to_set().contains(v) <==> s.to_set().insert(x).contains(v) by {
        if r.contains(v) {
            let a = choose|a: int| 0 <= a < r.len() && r[a] == v;
            if a != i {
                let a0 = if a < i { a } else { a - 1 };
                assert(s[a0] == v);
            }
        }
        if v == x {
            assert(r[i] == v);
        }
        if s.contains(v) {
            let a0 = choose|a0: int| 0 <= a0 < s.len() && s[a0] == v;
            let a = if a0 < i { a0 } else { a0 + 1 };
            assert(r[a] == v);
        }
    }
    assert(r.to_set() =~= s.to_set().insert(x));
}

/// A sequence without duplicates stays so when an element is taken out, and
/// then lacks that element.
pub proof fn lemma_remove_unique(s: Seq<usize>, i: int)
    requires
        s.no_duplicates(),
        0 <= i < s.len(),
    ensures
        s.remove(i).no_duplicates(),
        !s.remove(i).contains(s[i]),
        s.remove(i).to_set() == s.to_set().remove(s[i]),
{
    let r = s.remove(i);
    assert forall|a: int| 0 <= a < r.len() implies r[a] == s[if a < i { a } else { a + 1 }] by {}
    assert forall|a: int, b: int| 0 <= a < r.len() && 0 <= b < r.len() && a != b implies r[a]
        != r[b] by {
        let a1 = if a < i { a } else { a + 1 };
        let b1 = if b < i { b } else { b + 1 };
        assert(r[a] == s[a1] && r[b] == s[b1]);
    }
    assert forall|a: int| 0 <= a < r.len() implies r[a] != s[i] by {
        let a1 = if a < i { a } else { a + 1 };
        assert(r[a] == s[a1]);
    }
    assert forall|v: usize| r.to_set().contains(v) <==> s.to_set().remove(s[i]).contains(v) by {
        if r.contains(v) {
            let a = choose|a: int| 0 <= a < r.len() && r[a] == v;
            let a1 = if a < i { a } else { a + 1 };
            assert(s[a1] == v);
        }
        if s.contains(v) && v != s[i] {
            let a1 = choose|a1: int| 0 <= a1 < s.len() && s[a1] == v;
            let a = if a1 < i { a1 } else { a1 - 1 };
            assert(r[a] == v);
        }
    }
    assert(r.to_set() =~= s.to_set().remove(s[i]));
}

/// Submitting a transfer whose descriptor is not pending keeps the group
/// well-formed and adds the descriptor to the pending set.
pub proof fn lemma_submitted(g: GroupView, t: TransferView)
    requires
        g.wf(),
        !g.pending().contains(t.descriptor),
    ensures
        g.submitted(t).wf(),
        g.submitted(t).outstanding() == g.outstanding().insert(g.in_flight.len() as int, t.descriptor),
        g.submitted(t).pending() == g.pending().insert(t.descriptor),
{
    let n = g.in_flight.len() as int;
    assert(g.submitted(t).outstanding() =~= g.outstanding().insert(n, t.descriptor));
    lemma_insert_fresh(g.outstanding(), n, t.descriptor);
}

/// The place where a descriptor first stands among those the engine holds is
/// its position.
pub proof fn lemma_position(g: GroupView, descriptor: usize, i: int)
    requires
        g.first_at(descriptor, i),
    ensures
        g.position(descriptor) == i,
        g.is_in_flight(descriptor),
{
    let p = g.position(descriptor);
    assert(g.first_at(descriptor, p));
    assert(descriptors(g.in_flight)[i] == descriptor);
}

/// A descriptor that the engine holds stands at its position, and is pending.
pub proof fn lemma_in_flight(g: GroupView, descriptor: usize)
    requires
        g.is_in_flight(descriptor),
    ensures
        g.first_at(descriptor, g.position(descriptor)),
        g.outstanding()[g.position(descriptor)] == descriptor,
        g.pending().contains(descriptor),
{
    let k = choose|k: int|
        0 <= k < descriptors(g.in_flight).len() && descriptors(g.in_flight)[k] == descriptor;
    assert(g.in_flight[k].descriptor == descriptor);
    lemma_first_below(g, descriptor, k);
    let p = g.position(descriptor);
    assert(g.outstanding()[p] == descriptors(g.in_flight)[p]);
}

/// A descriptor that stands at a place among those the engine holds has a
/// first place there.
proof fn lemma_first_below(g: GroupView, descriptor: usize, k: int)
    requires
        0 <= k < g.in_flight.len(),
        g.in_flight[k].descriptor == descriptor,
    ensures
        exists|i: int| g.first_at(descriptor, i),
    decreases k,
{
    if exists|j: int| 0 <= j < k && g.in_flight[j].descriptor == descriptor {
        let j = choose|j: int| 0 <= j < k && g.in_flight[j].descriptor == descriptor;
        lemma_first_below(g, descriptor, j);
    } else {
        assert(g.first_at(descriptor, k));
    }
}

/// Nothing is pending exactly when the engine holds nothing and the queue
/// is empty.
pub proof fn lemma_idle(g: GroupView)
    ensures
        g.is_idle() <==> g.pending().is_empty(),
        g.is_idle() <==> g.outstanding().len() == 0,
{
    if g.is_idle() {
        assert(g.outstanding() =~= Seq::<usize>::empty());
        assert(g.pending() =~= Set::<usize>::empty());
    } else {
        assert(g.outstanding().len() > 0);
        assert(g.outstanding().contains(g.outstanding()[0]));
        assert(g.pending().contains(g.outstanding()[0]));
    }
}

/// A completion keeps the group well-formed and the pending set as it is:
/// the descriptor moves to the end of the pending descriptors.
pub proof fn lemma_completion(g: GroupView, descriptor: usize, status: c_int, data: Seq<u8>)
    requires
        g.wf(),
        g.is_in_flight(descriptor),
    ensures
        g.completion(descriptor, status, data).wf(),
        g.completion(descriptor, status, data).outstanding() == g.outstanding().remove(
            g.position(descriptor),
        ).push(descriptor),
        g.completion(descriptor, status, data).pending() == g.pending(),
        g.first_at(descriptor, g.position(descriptor)),
{
    lemma_in_flight(g, descriptor);
    let i = g.position(descriptor);
    let h = g.completion(descriptor, status, data);
    let moved = g.outstanding().remove(i);
    assert(g.outstanding()[i] == descriptor);
    assert(h.outstanding() =~= moved.push(descriptor));
    lemma_remove_unique(g.outstanding(), i);
    assert(moved.push(descriptor) =~= moved.insert(moved.len() as int, descriptor));
    lemma_insert_fresh(moved, moved.len() as int, descriptor);
    assert(h.pending() =~= g.pending());
}

/// Handing back the oldest completion keeps the group well-formed and
/// takes its descriptor, which was pending, out of the pending set.
pub proof fn lemma_retrieved(g: GroupView)
    requires
        g.wf(),
        g.completed.len() > 0,
    ensures
        g.retrieved().wf(),
        g.retrieved().outstanding() == g.outstanding().remove(g.in_flight.len() as int),
        g.pending().contains(g.completed[0].descriptor),
        !g.retrieved().pending().contains(g.completed[0].descriptor),
        g.retrieved().pending() == g.pending().remove(g.completed[0].descriptor),
{
    let n = g.in_flight.len() as int;
    assert(g.outstanding()[n] == g.completed[0].descriptor);
    assert(g.retrieved().outstanding() =~= g.outstanding().remove(n));
    lemma_remove_unique(g.outstanding(), n);
}

/// Data touched when the engine reports a completion.
#[derive(Debug)]
struct CallbackData<'d> {
    /// Transfers that have completed, but haven't yet been returned from `wait_any`.
    completed: VecDeque<Transfer<'d>>,
    /// Signals a completion to the engine's event processor, so that it
    /// does not block when a completion came in before it was called.
    flag: bool,
}

/// An AsyncGroup manages outstanding asynchronous transfers.
#[derive(Debug)]
pub struct AsyncGroup<'d> {
    context: &'d Context,
    /// The data touched when the engine reports a completion.
    callback_data: CallbackData<'d>,
    /// The transfers that the engine holds. The group owns them until
    /// `wait_any` hands them back.
    pending: Vec<Transfer<'d>>,
}

/// The transfers of a sequence as mathematical values.
pub open spec fn views<'d>(ts: Seq<Transfer<'d>>) -> Seq<TransferView> {
    ts.map_values(|t: Transfer<'d>| t@)
}

impl<'d> View for AsyncGroup<'d> {
    type V = GroupView;

    closed spec fn view(&self) -> GroupView {
        GroupView {
            context: self.context.raw(),
            in_flight: views(self.pending@),
            completed: views(self.callback_data.completed@),
            flag: self.callback_data.flag,
        }
    }
}

/// What `wait_any` decided.
#[derive(Debug)]
pub enum WaitStep<'d> {
    /// A transfer completed; here it is.
    Ready(Transfer<'d>),
    /// Nothing has completed yet and the flag is cleared: run the engine's
    /// blocking event processor on the flag, then ask again with the status
    /// code it returned.
    Block,
}

/// What `cancel_all` decided.
#[derive(Debug)]
pub enum CancelStep<'d> {
    /// Ask the engine to cancel this descriptor, then ask again with the
    /// status code it returned.
    Cancel(usize),
    /// A transfer completed; here it is, to be thrown away. Ask again, as
    /// after an engine call that returned zero.
    Discard(Transfer<'d>),
    /// Transfers are still with the engine and the flag is cleared: run the
    /// engine's blocking event processor on the flag, then ask again with
    /// the status code it returned.
    Block,
    /// Nothing is pending any more.
    Done,
}

/// The progress of one `cancel_all`: the descriptors to cancel, and how
/// many of them the engine was asked to cancel already.
#[derive(Debug)]
pub struct Cancellation {
    requests: Vec<usize>,
    issued: usize,
}

impl View for Cancellation {
    type V = CancellationView;

    closed spec fn view(&self) -> CancellationView {
        CancellationView { requests: self.requests@, issued: self.issued as nat }
    }
}

impl Cancellation {
    /// Plans the cancellation of everything that is pending in the group:
    /// one request for each pending descriptor.
    pub fn new(group: &AsyncGroup<'_>) -> (run: Cancellation)
        ensures
            run@.requests == group@.outstanding(),
            run@.requests.to_set() == group@.pending(),
            group@.wf() ==> run@.requests.no_duplicates(),
            run@.issued == 0,
    {
        let mut requests: Vec<usize> = Vec::new();
        let mut i: usize = 0;
        while i < group.pending.len()
            invariant
                i <= group.pending@.len(),
                requests@ == descriptors(views(group.pending@)).subrange(0, i as int),
            decreases group.pending@.len() - i,
        {
            requests.push(group.pending[i].descriptor());
            i = i + 1;
        }
        let mut j: usize = 0;
        while j < group.callback_data.completed.len()
            invariant
                j <= group.callback_data.completed@.len(),
                requests@ == descriptors(views(group.pending@)) + descriptors(
                    views(group.callback_data.completed@),
                ).subrange(0, j as int),
            decreases group.callback_data.completed@.len() - j,
        {
            requests.push(group.callback_data.completed[j].descriptor());
            j = j + 1;
        }
        Cancellation { requests, issued: 0 }
    }
}

impl<'d> AsyncGroup<'d> {
    /// Creates an AsyncGroup to process transfers for devices from the given context.
    pub fn new(context: &'d Context) -> (group: AsyncGroup<'d>)
        ensures
            group@ == GroupView::empty(context.raw()),
            group@.wf(),
    {
        AsyncGroup {
            context: context,
            callback_data: CallbackData { completed: VecDeque::new(), flag: false },
            pending: Vec::new(),
        }
    }

    /// The context that the group processes events of.
    pub fn context(&self) -> (context: &'d Context)
        ensures
            context.raw() == self@.context,
    {
        self.context
    }

    /// The completion flag, as the engine's event processor is to see it.
    pub fn flag(&self) -> (flag: bool)
        ensures
            flag == self@.flag,
    {
        self.callback_data.flag
    }

    /// Where the descriptor first stands among the transfers that the engine holds.
    fn find(&self, descriptor: usize) -> (found: Option<usize>)
        ensures
            match found {
                Some(i) => self@.is_in_flight(descriptor) && i == self@.position(descriptor) && i
                    < self.pending@.len(),
                None => !self@.is_in_flight(descriptor),
            },
    {
        let mut i: usize = 0;
        while i < self.pending.len()
            invariant
                i <= self.pending@.len(),
                forall|j: int| 0 <= j < i ==> self@.in_flight[j].descriptor != descriptor,
            decreases self.pending@.len() - i,
        {
            if self.pending[i].descriptor() == descriptor {
                proof {
                    lemma_position(self@, descriptor, i as int);
                }
                return Some(i);
            }
            i = i + 1;
        }
        proof {
            assert forall|j: int| 0 <= j < descriptors(self@.in_flight).len() implies descriptors(
                self@.in_flight,
            )[j] != descriptor by {
                assert(self@.in_flight[j].descriptor != descriptor);
            }
        }
        None
    }

    /// Whether the engine holds the descriptor: it was submitted and has not
    /// completed.
    pub fn is_in_flight(&self, descriptor: usize) -> (held: bool)
        ensures
            held == self@.is_in_flight(descriptor),
    {
        self.find(descriptor).is_some()
    }

    /// Whether the descriptor is pending: it was submitted and `wait_any`
    /// has not handed it back.
    pub fn is_pending(&self, descriptor: usize) -> (pending: bool)
        ensures
            pending == self@.pending().contains(descriptor),
    {
        if self.find(descriptor).is_some() {
            proof {
                lemma_in_flight(self@, descriptor);
            }
            return true;
        }
        let mut j: usize = 0;
        while j < self.callback_data.completed.len()
            invariant
                j <= self.callback_data.completed@.len(),
                forall|k: int| 0 <= k < j ==> descriptors(self@.completed)[k] != descriptor,
            decreases self.callback_data.completed@.len() - j,
        {
            if self.callback_data.completed[j].descriptor() == descriptor {
                proof {
                    assert(self@.outstanding()[self@.in_flight.len() + j] == descriptor);
                }
                return true;
            }
            j = j + 1;
        }
        proof {
            assert forall|k: int| 0 <= k < self@.outstanding().len() implies self@.outstanding()[k]
                != descriptor by {
                if k < self@.in_flight.len() {
                    assert(descriptors(self@.in_flight)[k] == self@.outstanding()[k]);
                } else {
                    assert(descriptors(self@.completed)[k - self@.in_flight.len()]
                        == self@.outstanding()[k]);
                }
            }
        }
        false
    }

    /// Whether nothing is pending.
    pub fn is_idle(&self) -> (idle: bool)
        ensures
            idle == self@.is_idle(),
            idle == self@.pending().is_empty(),
    {
        proof {
            lemma_idle(self@);
        }
        self.pending.len() == 0 && self.callback_data.completed.len() == 0
    }

    /// Starts a transfer: records what the engine answered when the driver
    /// asked it to submit the transfer's descriptor.
    ///
    /// On a failure the error is returned and the transfer is released. On
    /// success the transfer is owned by the AsyncGroup while it is pending,
    /// and is returned from `wait_any` when it completes or fails.
    pub fn submit(&mut self, t: Transfer<'d>, code: c_int) -> (r: Result<(), Error>)
        requires
            code == 0 ==> !old(self)@.pending().contains(t@.descriptor),
        ensures
            r == engine_result(code as int),
            final(self)@ == (if code == 0 {
                old(self)@.submitted(t@)
            } else {
                old(self)@
            }),
            old(self)@.wf() ==> final(self)@.wf(),
    {
        match check(code) {
            Err(e) => Err(e),
            Ok(()) => {
                let ghost submitted = t@;
                self.pending.push(t);
                proof {
                    if old(self)@.wf() {
                        lemma_submitted(old(self)@, submitted);
                    }
                    assert(views(self.pending@) =~= views(old(self).pending@).push(submitted));
                }
                Ok(())
            },
        }
    }

    /// Waits for any pending transfer to complete, and returns it: decides
    /// what comes next, given the status code that the engine's event
    /// processor returned if the previous step had it run, and zero
    /// otherwise.
    ///
    /// With nothing pending the step fails with `NotFound`, whatever the
    /// code: the driver must never block on a group that waits for nothing.
    /// A code other than zero fails the step with the error it stands for.
    /// Otherwise the oldest completion is handed back, or, with none queued,
    /// the flag is cleared and the driver is told to block.
    pub fn wait_any(&mut self, code: c_int) -> (r: Result<WaitStep<'d>, Error>)
        ensures
            old(self)@.wf() ==> final(self)@.wf(),
            final(self)@ == old(self)@.after_wait(code as int),
            old(self)@.is_idle() ==> r == Err::<WaitStep<'d>, Error>(Error::NotFound),
            !old(self)@.is_idle() && code != 0 ==> r == Err::<WaitStep<'d>, Error>(
                error_of_code(code as int),
            ),
            !old(self)@.is_idle() && code == 0 && old(self)@.completed.len() > 0 ==> (r matches Ok(
                WaitStep::Ready(t),
            ) && t@ == old(self)@.completed[0]),
            !old(self)@.is_idle() && code == 0 && old(self)@.completed.len() == 0 ==> r matches Ok(
                WaitStep::Block,
            ),
    {
        if self.pending.len() == 0 && self.callback_data.completed.len() == 0 {
            // Otherwise the driver would block forever waiting for a transfer to complete
            return Err(Error::NotFound);
        }
        match check(code) {
            Err(e) => {
                return Err(e);
            },
            Ok(()) => {},
        }
        match self.callback_data.completed.pop_front() {
            Some(t) => {
                proof {
                    if old(self)@.wf() {
                        lemma_retrieved(old(self)@);
                    }
                    assert(views(self.callback_data.completed@) =~= views(
                        old(self).callback_data.completed@,
                    ).drop_first());
                }
                Ok(WaitStep::Ready(t))
            },
            None => {
                self.callback_data.flag = false;
                proof {
                    assert(self@.outstanding() =~= old(self)@.outstanding());
                }
                Ok(WaitStep::Block)
            },
        }
    }

    /// Cancels all pending transfers: decides what comes next, given the
    /// progress so far and the status code of the engine call that the
    /// previous step asked for (zero where it asked for none).
    ///
    /// A code other than zero fails the step with the error it stands for.
    /// Otherwise the engine is first asked to cancel each pending
    /// descriptor. Then completions are taken as `wait_any` takes them, to
    /// be thrown away with any received data and errors, until nothing is
    /// pending.
    pub fn cancel_all(&mut self, run: &mut Cancellation, code: c_int) -> (r: Result<
        CancelStep<'d>,
        Error,
    >)
        ensures
            old(self)@.wf() ==> final(self)@.wf(),
            final(self)@ == old(self)@.after_cancel(old(run)@, code as int),
            final(run)@ == old(run)@.after_step(code as int),
            code != 0 ==> r == Err::<CancelStep<'d>, Error>(error_of_code(code as int)),
            code == 0 && old(run)@.issued < old(run)@.requests.len() ==> (r matches Ok(
                CancelStep::Cancel(descriptor),
            ) && descriptor == old(run)@.requests[old(run)@.issued as int]),
            code == 0 && old(run)@.issued >= old(run)@.requests.len() && old(self)@.is_idle()
                ==> r matches Ok(CancelStep::Done),
            code == 0 && old(run)@.issued >= old(run)@.requests.len() && old(self)@.completed.len()
                > 0 ==> (r matches Ok(CancelStep::Discard(t)) && t@ == old(self)@.completed[0]),
            code == 0 && old(run)@.issued >= old(run)@.requests.len() && !old(self)@.is_idle()
                && old(self)@.completed.len() == 0 ==> r matches Ok(CancelStep::Block),
            r matches Ok(CancelStep::Done) ==> final(self)@.pending().is_empty()
                && old(run)@.issued >= old(run)@.requests.len(),
    {
        match check(code) {
            Err(e) => {
                return Err(e);
            },
            Ok(()) => {},
        }
        if run.issued < run.requests.len() {
            let descriptor = run.requests[run.issued];
            run.issued = run.issued + 1;
            return Ok(CancelStep::Cancel(descriptor));
        }
        if self.is_idle() {
            return Ok(CancelStep::Done);
        }
        match self.wait_any(0) {
            Ok(WaitStep::Ready(t)) => Ok(CancelStep::Discard(t)),
            Ok(WaitStep::Block) => Ok(CancelStep::Block),
            Err(e) => Err(e),
        }
    }
}

/// The completion callback: records that the engine completed a descriptor
/// with a status and the bytes it transferred. The transfer joins the
/// queue of completions and the completion flag is set.
///
/// The engine may report from any thread: the driver calls this with the
/// group locked.
pub fn async_group_callback<'d>(
    group: &mut AsyncGroup<'d>,
    descriptor: usize,
    status: c_int,
    data: &[u8],
)
    requires
        old(group)@.is_in_flight(descriptor),
    ensures
        final(group)@ == old(group)@.completion(descriptor, status, data@),
        old(group)@.wf() ==> final(group)@.wf(),
{
    match group.find(descriptor) {
        Some(i) => {
            let mut transfer = group.pending.remove(i);
            transfer.finish(status, data);
            group.callback_data.completed.push_back(transfer);
            group.callback_data.flag = true;
            proof {
                if old(group)@.wf() {
                    lemma_completion(old(group)@, descriptor, status, data@);
                }
                assert(views(group.pending@) =~= views(old(group).pending@).remove(i as int));
                assert(views(group.callback_data.completed@) =~= views(
                    old(group).callback_data.completed@,
                ).push(transfer@));
            }
        },
        None => {},
    }
}

} // verus!
