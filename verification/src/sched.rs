//! Fetch scheduler: the per-range state machine and the bounded-concurrency
//! bookkeeping. The surrounding runtime performs the returned action (send a
//! request, sleep before a retry, decode a batch) and hands back the event;
//! every decision lives here.

use vstd::prelude::*;

verus! {

/// Where one entry range stands.
#[derive(Clone, Copy, Debug, PartialEq, Eq, Structural)]
pub enum RangeState {
    /// Queued, not yet dispatched.
    Pending,
    /// One outstanding `get-entries` request (or the fixed delay before its
    /// retry).
    Fetching,
    /// The response arrived and its batch is being decoded.
    Decoding,
    /// Terminal; the range contributes no further work.
    Done,
}

/// What the runtime reports back for one range.
#[derive(Clone, Copy, Debug, PartialEq, Eq, Structural)]
pub enum FetchEvent {
    /// The scheduler granted the range a concurrency slot.
    Dispatch,
    /// The transport returned a 2xx body.
    TransportOk,
    /// Non-2xx status or connection error.
    TransportErr,
    /// The batch was decoded and its domains forwarded.
    BatchProcessed,
}

/// What the runtime must do next for one range.
#[derive(Clone, Copy, Debug, PartialEq, Eq, Structural)]
pub enum FetchAction {
    /// Issue the range's `get-entries` request.
    SendRequest,
    /// Wait the fixed delay, then issue the same request again.
    RetryAfterDelay,
    /// Decode the received batch and forward its domains.
    DecodeBatch,
    /// Nothing left to do for this range.
    NoWork,
}

/// The transition relation of one range: dispatch starts a fetch, transport
/// success moves to decoding, transport failure stays at fetching with a
/// delayed retry (indefinitely, with no retry ceiling), and a processed
/// batch is terminal. A stray event leaves the state alone.
pub open spec fn spec_step(s: RangeState, e: FetchEvent) -> (RangeState, FetchAction) {
    match (s, e) {
        (RangeState::Pending, FetchEvent::Dispatch) => (RangeState::Fetching, FetchAction::SendRequest),
        (RangeState::Fetching, FetchEvent::TransportOk) => (RangeState::Decoding, FetchAction::DecodeBatch),
        (RangeState::Fetching, FetchEvent::TransportErr) => (RangeState::Fetching, FetchAction::RetryAfterDelay),
        (RangeState::Decoding, FetchEvent::BatchProcessed) => (RangeState::Done, FetchAction::NoWork),
        (_, _) => (s, FetchAction::NoWork),
    }
}

/// One transition of the per-range state machine.
pub fn step(s: RangeState, e: FetchEvent) -> (r: (RangeState, FetchAction))
    ensures
        r == spec_step(s, e),
{
    match (s, e) {
        (RangeState::Pending, FetchEvent::Dispatch) => (RangeState::Fetching, FetchAction::SendRequest),
        (RangeState::Fetching, FetchEvent::TransportOk) => (RangeState::Decoding, FetchAction::DecodeBatch),
        (RangeState::Fetching, FetchEvent::TransportErr) => (RangeState::Fetching, FetchAction::RetryAfterDelay),
        (RangeState::Decoding, FetchEvent::BatchProcessed) => (RangeState::Done, FetchAction::NoWork),
        (_, _) => (s, FetchAction::NoWork),
    }
}

/// The state after a whole sequence of events.
pub open spec fn run_events(s: RangeState, evs: Seq<FetchEvent>) -> RangeState
    decreases evs.len(),
{
    if evs.len() == 0 {
        s
    } else {
        run_events(spec_step(s, evs[0]).0, evs.drop_first())
    }
}

/// `Done` is terminal: no event sequence moves a finished range.
pub proof fn lemma_done_terminal(evs: Seq<FetchEvent>)
    ensures
        run_events(RangeState::Done, evs) == RangeState::Done,
    decreases evs.len(),
{
    if evs.len() > 0 {
        lemma_done_terminal(evs.drop_first());
    }
}

/// Retry liveness law: any number of transient transport failures followed
/// by one success and one processed batch still brings a fetching range to
/// `Done` — a failure never abandons the range, it only delays it.
pub proof fn lemma_retry_reaches_done(errs: Seq<FetchEvent>)
    requires
        forall|i: int| 0 <= i < errs.len() ==> errs[i] == FetchEvent::TransportErr,
    ensures
        run_events(
            RangeState::Fetching,
            errs + seq![FetchEvent::TransportOk, FetchEvent::BatchProcessed],
        ) == RangeState::Done,
    decreases errs.len(),
{
    let tail = seq![FetchEvent::TransportOk, FetchEvent::BatchProcessed];
    if errs.len() == 0 {
        assert(errs + tail =~= tail);
        assert(tail[0] == FetchEvent::TransportOk);
        assert(run_events(RangeState::Fetching, tail)
            == run_events(RangeState::Decoding, tail.drop_first()));
        assert(tail.drop_first()[0] == FetchEvent::BatchProcessed);
        assert(run_events(RangeState::Decoding, tail.drop_first())
            == run_events(RangeState::Done, tail.drop_first().drop_first()));
        assert(tail.drop_first().drop_first() =~= Seq::<FetchEvent>::empty());
    } else {
        lemma_retry_reaches_done(errs.drop_first());
        assert((errs + tail)[0] == FetchEvent::TransportErr);
        assert((errs + tail).drop_first() =~= errs.drop_first() + tail);
    }
}

/// Whether a range holds one of the bounded concurrency slots.
pub open spec fn is_active(s: RangeState) -> bool {
    s == RangeState::Fetching || s == RangeState::Decoding
}

/// How many ranges hold a slot.
pub open spec fn count_active(s: Seq<RangeState>) -> nat
    decreases s.len(),
{
    if s.len() == 0 {
        0
    } else {
        count_active(s.drop_last()) + if is_active(s.last()) { 1nat } else { 0nat }
    }
}

proof fn lemma_count_active_update(s: Seq<RangeState>, i: int, v: RangeState)
    requires
        0 <= i < s.len(),
    ensures
        count_active(s.update(i, v)) == count_active(s)
            - (if is_active(s[i]) { 1nat } else { 0nat })
            + (if is_active(v) { 1nat } else { 0nat }),
    decreases s.len(),
{
    if i == s.len() - 1 {
        assert(s.update(i, v).drop_last() =~= s.drop_last());
        assert(s.update(i, v).last() == v);
    } else {
        lemma_count_active_update(s.drop_last(), i, v);
        assert(s.update(i, v).drop_last() =~= s.drop_last().update(i, v));
        assert(s.update(i, v).last() == s.last());
    }
}

proof fn lemma_count_active_all_pending(n: nat)
    ensures
        count_active(Seq::new(n, |i: int| RangeState::Pending)) == 0,
    decreases n,
{
    if n > 0 {
        lemma_count_active_all_pending((n - 1) as nat);
        assert(Seq::new(n, |i: int| RangeState::Pending).drop_last()
            =~= Seq::new((n - 1) as nat, |i: int| RangeState::Pending));
    }
}

/// Bounded-concurrency bookkeeping over all planned ranges: at most `limit`
/// ranges hold a slot at any time.
pub struct Scheduler {
    states: Vec<RangeState>,
    limit: usize,
    active: usize,
}

impl View for Scheduler {
    type V = Seq<RangeState>;

    closed spec fn view(&self) -> Seq<RangeState> {
        self.states@
    }
}

impl Scheduler {
    /// The concurrency bound never overrun, and the slot counter exact.
    pub closed spec fn wf(&self) -> bool {
        &&& self.limit >= 1
        &&& self.active == count_active(self.states@)
        &&& self.active <= self.limit
    }

    /// The configured concurrency bound.
    pub closed spec fn spec_limit(&self) -> nat {
        self.limit as nat
    }

    /// A scheduler for `n_ranges` ranges, all pending, bounded to `limit`
    /// concurrent fetches.
    pub fn new(n_ranges: usize, limit: usize) -> (r: Scheduler)
        requires
            limit >= 1,
        ensures
            r.wf(),
            r.spec_limit() == limit,
            r@.len() == n_ranges,
            forall|i: int| 0 <= i < n_ranges ==> r@[i] == RangeState::Pending,
    {
        let mut states: Vec<RangeState> = Vec::new();
        let mut i: usize = 0;
        while i < n_ranges
            invariant
                i <= n_ranges,
                states@ =~= Seq::new(i as nat, |k: int| RangeState::Pending),
            decreases n_ranges - i,
        {
            states.push(RangeState::Pending);
            proof {
                assert(states@ =~= Seq::new((i + 1) as nat, |k: int| RangeState::Pending));
            }
            i = i + 1;
        }
        proof {
            lemma_count_active_all_pending(n_ranges as nat);
        }
        Scheduler { states, limit, active: 0 }
    }

    /// Whether a free concurrency slot remains.
    pub fn has_slot(&self) -> (r: bool)
        requires
            self.wf(),
        ensures
            r == (count_active(self@) < self.spec_limit()),
    {
        self.active < self.limit
    }

    /// The state of range `i`.
    pub fn state_of(&self, i: usize) -> (r: RangeState)
        requires
            i < self@.len(),
        ensures
            r == self@[i as int],
    {
        self.states[i]
    }

    /// Feeds one event for range `i` through the per-range state machine,
    /// keeping the slot count exact and under the bound. Dispatching
    /// requires a free slot; it is the only transition that takes one, and
    /// finishing a batch is the only one that gives one back.
    pub fn on_event(&mut self, i: usize, e: FetchEvent) -> (a: FetchAction)
        requires
            old(self).wf(),
            i < old(self)@.len(),
            e == FetchEvent::Dispatch ==> count_active(old(self)@) < old(self).spec_limit(),
        ensures
            final(self).wf(),
            final(self).spec_limit() == old(self).spec_limit(),
            final(self)@ == old(self)@.update(i as int, spec_step(old(self)@[i as int], e).0),
            a == spec_step(old(self)@[i as int], e).1,
    {
        let s = self.states[i];
        let (next, action) = step(s, e);
        proof {
            lemma_count_active_update(self.states@, i as int, next);
        }
        let was_active = match s {
            RangeState::Fetching | RangeState::Decoding => true,
            _ => false,
        };
        let now_active = match next {
            RangeState::Fetching | RangeState::Decoding => true,
            _ => false,
        };
        self.states.set(i, next);
        if was_active && !now_active {
            self.active = self.active - 1;
        } else if !was_active && now_active {
            self.active = self.active + 1;
        }
        action
    }

    /// Whether every range has reached `Done`.
    pub fn all_done(&self) -> (r: bool)
        ensures
            r == (forall|i: int| 0 <= i < self@.len() ==> self@[i] == RangeState::Done),
    {
        let mut i: usize = 0;
        while i < self.states.len()
            invariant
                i <= self@.len(),
                self@.len() == self.states@.len(),
                forall|k: int| 0 <= k < i ==> self@[k] == RangeState::Done,
            decreases self.states@.len() - i,
        {
            let s = self.states[i];
            let done = match s {
                RangeState::Done => true,
                _ => false,
            };
            if !done {
                return false;
            }
            i = i + 1;
        }
        true
    }
}

} // verus!
