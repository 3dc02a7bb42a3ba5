//! The decisions of the two-sided exchange with a non-blocking barrier.
//!
//! Every rank sends each of its buffers to a chosen rank (a header message,
//! then the payload), and meanwhile receives whatever other ranks send it.
//! Once all of its own sends have completed it enters a non-blocking
//! barrier; the exchange ends when that barrier completes, and fails when
//! it lasts longer than the timeout. The communication itself is carried
//! out by the caller; this module decides what is sent, how an incoming
//! header is read, and when the exchange moves on.

use vstd::prelude::*;

use crate::buffer::{DynamicBuffer, ElementKind};
use crate::header::{header_bytes, header_length_message, parse_header, MessageHeader};
use crate::segmented::SegmentedBuffer;

verus! {

/// Tag of header messages.
pub const TAG_HEADER: i32 = 100;

/// Tag of payload messages.
pub const TAG_DATA: i32 = 101;

/// How long the exchange may last, in nanoseconds (thirty seconds).
pub const TIMEOUT_NANOS: u128 = 30_000_000_000;

/// How long the caller sleeps between two rounds of polling, in milliseconds.
pub const POLL_INTERVAL_MILLIS: u64 = 1;

/// A message to post as a non-blocking synchronous send.
pub struct OutgoingMessage {
    pub destination: i32,
    pub tag: i32,
    pub bytes: Vec<u8>,
}

/// Result containing data received from other ranks.
pub struct TwoSidedResult {
    /// The ranks that sent data
    pub from_ranks: Vec<i32>,
    /// The data received from each rank
    pub from_data: Vec<DynamicBuffer>,
}

/// `m` is the header message announcing `d` to `destination`.
pub open spec fn is_header_message(m: OutgoingMessage, destination: i32, d: DynamicBuffer) -> bool {
    &&& m.destination == destination
    &&& m.tag == TAG_HEADER
    &&& m.bytes@ == header_bytes(d.spec_header())
}

/// `m` is the payload message carrying `d` to `destination`.
pub open spec fn is_payload_message(m: OutgoingMessage, destination: i32, d: DynamicBuffer) -> bool {
    &&& m.destination == destination
    &&& m.tag == TAG_DATA
    &&& m.bytes@ == d.native_bytes()
}

/// The messages to post for sending `to_data[i]` to `to_ranks[i]`, in the
/// order they are posted: for each target in turn, its header, then its
/// payload.
pub fn plan_sends(to_ranks: &[i32], to_data: &[DynamicBuffer]) -> (msgs: Vec<OutgoingMessage>)
    requires
        to_ranks@.len() == to_data@.len(),
    ensures
        msgs@.len() == 2 * to_ranks@.len(),
        forall|i: int|
            0 <= i < to_ranks@.len() ==> {
                &&& is_header_message(#[trigger] msgs@[2 * i], to_ranks@[i], to_data@[i])
                &&& is_payload_message(msgs@[2 * i + 1], to_ranks@[i], to_data@[i])
            },
{
    let mut msgs: Vec<OutgoingMessage> = Vec::new();
    let n = to_ranks.len();
    let mut i: usize = 0;
    while i < n
        invariant
            i <= n,
            n == to_ranks@.len(),
            n == to_data@.len(),
            msgs@.len() == 2 * i,
            forall|j: int|
                0 <= j < i ==> {
                    &&& is_header_message(#[trigger] msgs@[2 * j], to_ranks@[j], to_data@[j])
                    &&& is_payload_message(msgs@[2 * j + 1], to_ranks@[j], to_data@[j])
                },
        decreases n - i,
    {
        let data = &to_data[i];
        let header = data.header();
        msgs.push(OutgoingMessage { destination: to_ranks[i], tag: TAG_HEADER, bytes: header.to_bytes() });
        msgs.push(OutgoingMessage { destination: to_ranks[i], tag: TAG_DATA, bytes: data.to_native_bytes() });
        assert(is_header_message(msgs@[2 * i as int], to_ranks@[i as int], to_data@[i as int]));
        i = i + 1;
    }
    msgs
}

/// How an incoming header is answered: the element type of the payload
/// that follows it, or the message with which the exchange fails.
pub open spec fn receive_plan(b: Seq<u8>) -> Result<ElementKind, Seq<char>> {
    match parse_header(b) {
        None => Err(header_length_message(b.len())),
        Some(h) => match ElementKind::spec_from_type_id(h.data_type) {
            Some(k) => Ok(k),
            None => Err("Unknown data type"@),
        },
    }
}

/// How every incoming header is answered, read off its bytes: any length
/// other than nine fails with the length message; nine bytes whose first
/// byte is below 4 give the element kind with that type byte; any other
/// first byte fails as an unknown data type.
pub proof fn lemma_receive_plan_cases(b: Seq<u8>)
    ensures
        b.len() != 9 ==> receive_plan(b) == Err::<ElementKind, Seq<char>>(header_length_message(b.len())),
        b.len() == 9 && b[0] < 4 ==> (receive_plan(b) matches Ok(k) && k.spec_type_id() == b[0]),
        b.len() == 9 && b[0] >= 4 ==> receive_plan(b) == Err::<ElementKind, Seq<char>>(
            "Unknown data type"@,
        ),
{
    if b.len() == 9 {
        crate::buffer::lemma_type_id_table(ElementKind::F32, b[0]);
    }
}

/// Reads an incoming header: the element type of the payload to receive
/// next from the same rank, or the error that ends the exchange.
pub fn plan_receive(header: &[u8]) -> (r: Result<ElementKind, String>)
    ensures
        match r {
            Ok(k) => receive_plan(header@) == Ok::<ElementKind, Seq<char>>(k),
            Err(e) => receive_plan(header@) == Err::<ElementKind, Seq<char>>(e@),
        },
{
    let h = match MessageHeader::from_bytes(header) {
        Ok(h) => h,
        Err(e) => return Err(e),
    };
    match ElementKind::from_type_id(h.data_type) {
        Some(k) => Ok(k),
        None => Err(String::from_str("Unknown data type")),
    }
}

/// Where the exchange stands.
#[derive(Debug, Clone, Copy, PartialEq, Eq, Structural)]
pub enum Phase {
    /// Some of this rank's own sends may still be in flight.
    AwaitingSends,
    /// All own sends completed; the barrier has been entered.
    AwaitingBarrier,
    /// The barrier completed: every rank has finished sending.
    Complete,
}

/// What a round of polling observed about the requests.
#[derive(Debug, Clone, Copy, PartialEq, Eq, Structural)]
pub enum ProgressEvent {
    /// The own sends were tested; this many are still incomplete.
    SendsTested(usize),
    /// The barrier was tested; `true` when it has completed.
    BarrierTested(bool),
}

/// The phase after observing `e` in phase `p`.
pub open spec fn next_phase(p: Phase, e: ProgressEvent) -> Phase {
    match (p, e) {
        (Phase::AwaitingSends, ProgressEvent::SendsTested(remaining)) => if remaining == 0 {
            Phase::AwaitingBarrier
        } else {
            Phase::AwaitingSends
        },
        (Phase::AwaitingBarrier, ProgressEvent::BarrierTested(done)) => if done {
            Phase::Complete
        } else {
            Phase::AwaitingBarrier
        },
        _ => p,
    }
}

/// Which requests a round of polling tests.
#[derive(Debug, Clone, Copy, PartialEq, Eq, Structural)]
pub enum PollTarget {
    /// The own sends still pending.
    Sends,
    /// The barrier.
    Barrier,
}

/// What the caller does after a round of polling.
#[derive(Debug, Clone, Copy, PartialEq, Eq, Structural)]
pub enum Step {
    /// Poll again after the poll interval.
    KeepPolling,
    /// Enter the non-blocking barrier, then poll again.
    EnterBarrier,
    /// Stop polling: the exchange is over.
    Finish,
}

/// What the caller does after observing `e` in phase `p`.
pub open spec fn step_for(p: Phase, e: ProgressEvent) -> Step {
    let q = next_phase(p, e);
    if q == Phase::Complete {
        Step::Finish
    } else if p == Phase::AwaitingSends && q == Phase::AwaitingBarrier {
        Step::EnterBarrier
    } else {
        Step::KeepPolling
    }
}

/// The exchange enters the barrier exactly when, still waiting for its own
/// sends, it sees that none of them remains; it finishes exactly when the
/// barrier is seen complete (or it was already over); any other
/// observation leaves the phase as it was.
pub proof fn lemma_progress_steps(p: Phase, e: ProgressEvent)
    ensures
        step_for(p, e) == Step::EnterBarrier <==> (p == Phase::AwaitingSends && e
            == ProgressEvent::SendsTested(0)),
        step_for(p, e) == Step::Finish <==> (p == Phase::Complete || (p == Phase::AwaitingBarrier
            && e == ProgressEvent::BarrierTested(true))),
        (p == Phase::AwaitingSends && e == ProgressEvent::SendsTested(0)) ==> next_phase(p, e)
            == Phase::AwaitingBarrier,
        (p == Phase::AwaitingBarrier && e == ProgressEvent::BarrierTested(true)) ==> next_phase(p, e)
            == Phase::Complete,
        !(p == Phase::AwaitingSends && e == ProgressEvent::SendsTested(0)) && !(p
            == Phase::AwaitingBarrier && e == ProgressEvent::BarrierTested(true)) ==> next_phase(p, e)
            == p,
        forall|n: usize|
            n > 0 ==> #[trigger] step_for(Phase::AwaitingSends, ProgressEvent::SendsTested(n))
                == Step::KeepPolling,
{
}

/// The phase after observing `events`, in order, from `p`.
pub open spec fn phase_after(p: Phase, events: Seq<ProgressEvent>) -> Phase
    decreases events.len(),
{
    if events.len() == 0 {
        p
    } else {
        next_phase(phase_after(p, events.drop_last()), events.last())
    }
}

/// The state of one rank's exchange: its phase and what it has received.
pub struct TwoSidedExchange {
    phase: Phase,
    arrivals: SegmentedBuffer<(i32, DynamicBuffer)>,
}

impl TwoSidedExchange {
    /// The current phase.
    pub closed spec fn spec_phase(self) -> Phase {
        self.phase
    }

    /// The ranks that data arrived from, in order of arrival.
    pub closed spec fn received_ranks(self) -> Seq<i32> {
        self.arrivals@.map_values(|a: (i32, DynamicBuffer)| a.0)
    }

    /// The data that arrived, in order of arrival.
    pub closed spec fn received_data(self) -> Seq<DynamicBuffer> {
        self.arrivals@.map_values(|a: (i32, DynamicBuffer)| a.1)
    }

    /// Starts an exchange: nothing received, own sends in flight.
    pub fn new() -> (x: Self)
        ensures
            x.spec_phase() == Phase::AwaitingSends,
            x.received_ranks() == Seq::<i32>::empty(),
            x.received_data() == Seq::<DynamicBuffer>::empty(),
    {
        let x = TwoSidedExchange { phase: Phase::AwaitingSends, arrivals: SegmentedBuffer::new(4) };
        assert(x.received_ranks() =~= Seq::<i32>::empty());
        assert(x.received_data() =~= Seq::<DynamicBuffer>::empty());
        x
    }

    /// Returns the current phase.
    pub fn phase(&self) -> (p: Phase)
        ensures
            p == self.spec_phase(),
    {
        self.phase
    }

    /// Which requests this round tests: the own sends until all of them
    /// have completed, the barrier after that.
    pub fn poll_target(&self) -> (t: PollTarget)
        ensures
            t == (if self.spec_phase() == Phase::AwaitingSends {
                PollTarget::Sends
            } else {
                PollTarget::Barrier
            }),
    {
        match self.phase {
            Phase::AwaitingSends => PollTarget::Sends,
            _ => PollTarget::Barrier,
        }
    }

    /// Checks the time spent so far against the timeout.
    pub fn check_deadline(&self, elapsed_nanos: u128) -> (r: Result<(), String>)
        ensures
            r is Ok <==> elapsed_nanos <= TIMEOUT_NANOS,
            r matches Err(e) ==> e@ == "Communication timeout - possible deadlock"@,
    {
        if elapsed_nanos > TIMEOUT_NANOS {
            Err(String::from_str("Communication timeout - possible deadlock"))
        } else {
            Ok(())
        }
    }

    /// Records a payload received from `source`.
    pub fn record(&mut self, source: i32, data: DynamicBuffer)
        ensures
            final(self).spec_phase() == old(self).spec_phase(),
            final(self).received_ranks() == old(self).received_ranks().push(source),
            final(self).received_data() == old(self).received_data().push(data),
    {
        let ghost before = self.arrivals@;
        self.arrivals.push((source, data));
        assert(self.arrivals@.map_values(|a: (i32, DynamicBuffer)| a.0) =~= before.map_values(
            |a: (i32, DynamicBuffer)| a.0,
        ).push(source));
        assert(self.arrivals@.map_values(|a: (i32, DynamicBuffer)| a.1) =~= before.map_values(
            |a: (i32, DynamicBuffer)| a.1,
        ).push(data));
    }

    /// Observes the outcome of testing the requests: moves on when all own
    /// sends have completed (the caller then enters the barrier) and when
    /// the barrier has completed (the exchange is then over), and says what
    /// the caller does next.
    pub fn observe(&mut self, event: ProgressEvent) -> (step: Step)
        ensures
            final(self).spec_phase() == next_phase(old(self).spec_phase(), event),
            step == step_for(old(self).spec_phase(), event),
            step == Step::EnterBarrier <==> (old(self).spec_phase() == Phase::AwaitingSends && event
                == ProgressEvent::SendsTested(0)),
            step == Step::Finish <==> final(self).spec_phase() == Phase::Complete,
            final(self).received_ranks() == old(self).received_ranks(),
            final(self).received_data() == old(self).received_data(),
    {
        let before = self.phase;
        let next = match (before, event) {
            (Phase::AwaitingSends, ProgressEvent::SendsTested(remaining)) => if remaining == 0 {
                Phase::AwaitingBarrier
            } else {
                Phase::AwaitingSends
            },
            (Phase::AwaitingBarrier, ProgressEvent::BarrierTested(done)) => if done {
                Phase::Complete
            } else {
                Phase::AwaitingBarrier
            },
            (p, _) => p,
        };
        self.phase = next;
        match (before, next) {
            (_, Phase::Complete) => Step::Finish,
            (Phase::AwaitingSends, Phase::AwaitingBarrier) => Step::EnterBarrier,
            _ => Step::KeepPolling,
        }
    }

    /// Ends the exchange: the ranks and the data received, pairwise, in
    /// order of arrival.
    pub fn into_result(self) -> (r: TwoSidedResult)
        ensures
            r.from_ranks@ == self.received_ranks(),
            r.from_data@ == self.received_data(),
            r.from_ranks@.len() == r.from_data@.len(),
    {
        let ghost all = self.arrivals@;
        let mut arrivals = self.arrivals.extract_all();
        let mut from_ranks: Vec<i32> = Vec::new();
        let mut from_data: Vec<DynamicBuffer> = Vec::new();
        let n = arrivals.len();
        // Taken from the back, then reversed, so that each item is moved once.
        while arrivals.len() > 0
            invariant
                arrivals@ == all.subrange(0, arrivals@.len() as int),
                arrivals@.len() <= all.len(),
                from_ranks@.len() == all.len() - arrivals@.len(),
                from_data@.len() == all.len() - arrivals@.len(),
                forall|k: int|
                    0 <= k < from_ranks@.len() ==> #[trigger] from_ranks@[k] == all[all.len() - 1 - k].0,
                forall|k: int|
                    0 <= k < from_data@.len() ==> #[trigger] from_data@[k] == all[all.len() - 1 - k].1,
            decreases arrivals@.len(),
        {
            let (rank, data) = arrivals.pop().unwrap();
            from_ranks.push(rank);
            from_data.push(data);
        }
        let ranks = reversed(from_ranks);
        let data = reversed(from_data);
        assert(ranks@ =~= all.map_values(|a: (i32, DynamicBuffer)| a.0));
        assert(data@ =~= all.map_values(|a: (i32, DynamicBuffer)| a.1));
        TwoSidedResult { from_ranks: ranks, from_data: data }
    }
}

/// The requests still pending after a round of tests, in their order:
/// those whose test handed them back.
pub open spec fn pending<R>(outcomes: Seq<Result<(), R>>) -> Seq<R>
    decreases outcomes.len(),
{
    if outcomes.len() == 0 {
        Seq::empty()
    } else {
        let rest = pending(outcomes.drop_last());
        match outcomes.last() {
            Ok(()) => rest,
            Err(r) => rest.push(r),
        }
    }
}

/// Which requests remain after tests is decided outcome by outcome: the
/// requests kept from two runs of tests one after the other are those kept
/// from the first run followed by those kept from the second.
pub proof fn lemma_pending_concat<R>(a: Seq<Result<(), R>>, b: Seq<Result<(), R>>)
    ensures
        pending(a + b) == pending(a) + pending(b),
    decreases b.len(),
{
    if b.len() == 0 {
        assert(a + b =~= a);
        assert(pending(a) + pending(b) =~= pending(a));
    } else {
        lemma_pending_concat(a, b.drop_last());
        assert((a + b).drop_last() =~= a + b.drop_last());
        assert((a + b).last() == b.last());
        match b.last() {
            Ok(()) => {},
            Err(r) => {
                assert(pending(a) + pending(b.drop_last()).push(r) =~= (pending(a) + pending(
                    b.drop_last(),
                )).push(r));
            },
        }
    }
}

/// A request whose test completed it is dropped; one handed back is kept.
pub proof fn lemma_pending_single<R>(r: R)
    ensures
        pending(seq![Ok::<(), R>(())]) == Seq::<R>::empty(),
        pending(seq![Err::<(), R>(r)]) == seq![r],
{
    let ok = seq![Ok::<(), R>(())];
    let err = seq![Err::<(), R>(r)];
    assert(ok.drop_last() =~= Seq::<Result<(), R>>::empty());
    assert(err.drop_last() =~= Seq::<Result<(), R>>::empty());
    assert(pending(Seq::<Result<(), R>>::empty()) == Seq::<R>::empty());
    assert(ok.last() == Ok::<(), R>(()));
    assert(err.last() == Err::<(), R>(r));
    assert(pending(ok) == pending(ok.drop_last()));
    assert(pending(err) == pending(err.drop_last()).push(r));
    assert(Seq::<R>::empty().push(r) =~= seq![r]);
}

/// Every request handed back by its test is kept, none other is, and they
/// keep their order: the kept requests are the `Err` payloads of the
/// outcomes, one for each, in the same order.
pub proof fn lemma_pending_keeps_every_unfinished_request<R>(outcomes: Seq<Result<(), R>>)
    ensures
        pending(outcomes).len() <= outcomes.len(),
        (forall|i: int| 0 <= i < outcomes.len() ==> #[trigger] outcomes[i] is Err) ==> pending(outcomes)
            == outcomes.map_values(|o: Result<(), R>| o->Err_0),
        (forall|i: int| 0 <= i < outcomes.len() ==> #[trigger] outcomes[i] is Ok) ==> pending(outcomes)
            == Seq::<R>::empty(),
    decreases outcomes.len(),
{
    if outcomes.len() > 0 {
        let prefix = outcomes.drop_last();
        lemma_pending_keeps_every_unfinished_request(prefix);
        if forall|i: int| 0 <= i < outcomes.len() ==> #[trigger] outcomes[i] is Err {
            assert forall|i: int| 0 <= i < prefix.len() implies #[trigger] prefix[i] is Err by {
                assert(outcomes[i] is Err);
            }
            assert(outcomes[outcomes.len() - 1] is Err);
            assert(outcomes.map_values(|o: Result<(), R>| o->Err_0) =~= prefix.map_values(
                |o: Result<(), R>| o->Err_0,
            ).push(outcomes.last()->Err_0));
        }
        if forall|i: int| 0 <= i < outcomes.len() ==> #[trigger] outcomes[i] is Ok {
            assert forall|i: int| 0 <= i < prefix.len() implies #[trigger] prefix[i] is Ok by {
                assert(outcomes[i] is Ok);
            }
            assert(outcomes[outcomes.len() - 1] is Ok);
        }
    }
}

/// Keeps the requests whose test did not complete them, in order.
pub fn retain_pending<R>(outcomes: Vec<Result<(), R>>) -> (still: Vec<R>)
    ensures
        still@ == pending(outcomes@),
{
    let ghost all = outcomes@;
    let mut still: Vec<R> = Vec::new();
    let mut rest = reversed(outcomes);
    // `rest` holds the outcomes not yet looked at, the next one last.
    while rest.len() > 0
        invariant
            rest@.len() <= all.len(),
            forall|k: int| 0 <= k < rest@.len() ==> #[trigger] rest@[k] == all[all.len() - 1 - k],
            still@ == pending(all.subrange(0, all.len() - rest@.len())),
        decreases rest@.len(),
    {
        let ghost done = all.len() - rest@.len();
        let outcome = rest.pop().unwrap();
        assert(all.subrange(0, done + 1).drop_last() =~= all.subrange(0, done));
        assert(outcome == all.subrange(0, done + 1).last());
        match outcome {
            Ok(()) => {},
            Err(r) => still.push(r),
        }
    }
    assert(all.subrange(0, all.len() as int) =~= all);
    still
}

/// The items of `v` in reverse order.
fn reversed<T>(v: Vec<T>) -> (r: Vec<T>)
    ensures
        r@.len() == v@.len(),
        forall|k: int| 0 <= k < v@.len() ==> #[trigger] r@[k] == v@[v@.len() - 1 - k],
{
    let ghost orig = v@;
    let mut v = v;
    let mut r: Vec<T> = Vec::new();
    while v.len() > 0
        invariant
            v@ == orig.subrange(0, v@.len() as int),
            r@.len() == orig.len() - v@.len(),
            forall|k: int| 0 <= k < r@.len() ==> #[trigger] r@[k] == orig[orig.len() - 1 - k],
        decreases v@.len(),
    {
        let x = v.pop().unwrap();
        r.push(x);
    }
    r
}

proof fn lemma_barrier_needs_sends_done(events: Seq<ProgressEvent>)
    requires
        phase_after(Phase::AwaitingSends, events) != Phase::AwaitingSends,
    ensures
        exists|i: int| 0 <= i < events.len() && events[i] == ProgressEvent::SendsTested(0),
    decreases events.len(),
{
    let prefix = events.drop_last();
    if phase_after(Phase::AwaitingSends, prefix) != Phase::AwaitingSends {
        lemma_barrier_needs_sends_done(prefix);
        let i = choose|i: int| 0 <= i < prefix.len() && prefix[i] == ProgressEvent::SendsTested(0);
        assert(events[i] == prefix[i]);
    } else {
        assert(events[events.len() - 1] == ProgressEvent::SendsTested(0));
    }
}

/// The exchange is complete only once all of this rank's sends have been
/// seen complete and, after that, the barrier has been seen complete:
/// whatever sequence of test outcomes leads from the start to `Complete`
/// holds a `SendsTested(0)` followed later by a `BarrierTested(true)`.
pub proof fn lemma_complete_only_after_sends_and_barrier(events: Seq<ProgressEvent>)
    requires
        phase_after(Phase::AwaitingSends, events) == Phase::Complete,
    ensures
        exists|i: int, j: int|
            0 <= i < j < events.len() && events[i] == ProgressEvent::SendsTested(0) && events[j]
                == ProgressEvent::BarrierTested(true),
    decreases events.len(),
{
    let prefix = events.drop_last();
    let last = events.len() - 1;
    if phase_after(Phase::AwaitingSends, prefix) == Phase::Complete {
        lemma_complete_only_after_sends_and_barrier(prefix);
        let (i, j) = choose|i: int, j: int|
            0 <= i < j < prefix.len() && prefix[i] == ProgressEvent::SendsTested(0) && prefix[j]
                == ProgressEvent::BarrierTested(true);
        assert(events[i] == prefix[i] && events[j] == prefix[j]);
    } else {
        assert(phase_after(Phase::AwaitingSends, prefix) == Phase::AwaitingBarrier);
        assert(events[last] == ProgressEvent::BarrierTested(true));
        lemma_barrier_needs_sends_done(prefix);
        let i = choose|i: int| 0 <= i < prefix.len() && prefix[i] == ProgressEvent::SendsTested(0);
        assert(events[i] == prefix[i]);
    }
}

/// Once complete, the exchange stays complete whatever is observed next.
pub proof fn lemma_complete_is_final(events: Seq<ProgressEvent>)
    ensures
        phase_after(Phase::Complete, events) == Phase::Complete,
    decreases events.len(),
{
    if events.len() > 0 {
        lemma_complete_is_final(events.drop_last());
    }
}

/// What a receiver makes of the header that a sender posts for a buffer:
/// the element type of that very buffer, with its length as the count; and
/// the payload posted after it holds count times the element width bytes.
pub proof fn lemma_receiver_reads_sender_header(d: DynamicBuffer)
    ensures
        receive_plan(header_bytes(d.spec_header())) == Ok::<ElementKind, Seq<char>>(d.kind()),
        parse_header(header_bytes(d.spec_header())) == Some(d.spec_header()),
        d.spec_header().count == d.spec_len(),
        d.native_bytes().len() == d.spec_header().count * d.kind().spec_width(),
{
    crate::header::lemma_header_roundtrip(d.spec_header());
}

} // verus!
