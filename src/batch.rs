//! The batch orchestrator's decisions: which word to start next under the
//! concurrency cap, and where each finished word's outcome goes. The caller
//! runs the pipelines and reports each completion by its index.
use vstd::prelude::*;
use crate::errors::ApiErrorType;
use crate::json::JsonValue;

verus! {

/// The outcome of one word's pipeline: an entry, or a classified failure.
pub type PipelineOutcome = Result<JsonValue, ApiErrorType>;

/// The model of a scheduler: `n` words, at most `limit` running at once,
/// words before `next` started, and one slot per word that is filled when
/// its pipeline completes.
pub struct BatchState {
    pub n: nat,
    pub limit: nat,
    pub next: nat,
    pub slots: Seq<Option<PipelineOutcome>>,
}

/// How many of the first `k` slots are still empty.
pub open spec fn empty_slots(slots: Seq<Option<PipelineOutcome>>, k: nat) -> nat
    decreases k,
{
    if k == 0 {
        0
    } else {
        empty_slots(slots, (k - 1) as nat) + if slots[k - 1] is None {
            1nat
        } else {
            0nat
        }
    }
}

/// The pipelines started and not yet completed.
pub open spec fn running(s: BatchState) -> nat {
    empty_slots(s.slots, s.next)
}

pub open spec fn is_running(s: BatchState, i: nat) -> bool {
    i < s.next && s.slots[i as int] is None
}

pub open spec fn state_wf(s: BatchState) -> bool {
    &&& s.slots.len() == s.n
    &&& s.next <= s.n
    &&& s.limit >= 1
    &&& running(s) <= s.limit
    &&& forall|i: int| s.next <= i < s.n ==> #[trigger] s.slots[i] is None
}

/// A fresh scheduler: nothing started, every slot empty.
pub open spec fn initial(n: nat, limit: nat) -> BatchState {
    BatchState { n, limit, next: 0, slots: Seq::new(n, |i: int| None) }
}

/// Starting: the next word starts when a place is free and a word is left.
pub open spec fn start_state(s: BatchState) -> (BatchState, Option<nat>) {
    if running(s) < s.limit && s.next < s.n {
        (BatchState { next: s.next + 1, ..s }, Some(s.next))
    } else {
        (s, None)
    }
}

/// Completion of word `i`: its outcome fills its slot, once.
pub open spec fn complete_state(s: BatchState, i: nat, o: PipelineOutcome) -> BatchState {
    if is_running(s, i) {
        BatchState { slots: s.slots.update(i as int, Some(o)), ..s }
    } else {
        s
    }
}

/// Every word started and every pipeline completed.
pub open spec fn finished(s: BatchState) -> bool {
    s.next == s.n && running(s) == 0
}

/// One event in the life of a scheduler.
pub enum BatchOp {
    Start,
    Complete(nat, PipelineOutcome),
}

pub open spec fn apply_op(s: BatchState, op: BatchOp) -> BatchState {
    match op {
        BatchOp::Start => start_state(s).0,
        BatchOp::Complete(i, o) => complete_state(s, i, o),
    }
}

/// The state after the events `ops`, in order.
pub open spec fn replay(s: BatchState, ops: Seq<BatchOp>) -> BatchState
    decreases ops.len(),
{
    if ops.len() == 0 {
        s
    } else {
        apply_op(replay(s, ops.drop_last()), ops.last())
    }
}

/// Events as a caller may issue them: each completion is of a running word.
pub open spec fn valid_trace(s: BatchState, ops: Seq<BatchOp>) -> bool
    decreases ops.len(),
{
    ops.len() == 0 || (valid_trace(s, ops.drop_last()) && match ops.last() {
        BatchOp::Complete(i, _) => is_running(replay(s, ops.drop_last()), i),
        BatchOp::Start => true,
    })
}

proof fn lemma_empty_slots_fill(
    slots: Seq<Option<PipelineOutcome>>,
    k: nat,
    i: int,
    o: PipelineOutcome,
)
    requires
        0 <= i < k <= slots.len(),
        slots[i] is None,
    ensures
        empty_slots(slots.update(i, Some(o)), k) + 1 == empty_slots(slots, k),
    decreases k,
{
    if k - 1 > i {
        lemma_empty_slots_fill(slots, (k - 1) as nat, i, o);
    } else {
        lemma_empty_slots_same(slots, slots.update(i, Some(o)), (k - 1) as nat);
    }
}

proof fn lemma_empty_slots_same(a: Seq<Option<PipelineOutcome>>, b: Seq<Option<PipelineOutcome>>, k: nat)
    requires
        k <= a.len(),
        k <= b.len(),
        forall|j: int| 0 <= j < k ==> a[j] == b[j],
    ensures
        empty_slots(a, k) == empty_slots(b, k),
    decreases k,
{
    if k > 0 {
        lemma_empty_slots_same(a, b, (k - 1) as nat);
    }
}

/// Each event keeps a well-formed state well-formed.
pub proof fn lemma_apply_op_wf(s: BatchState, op: BatchOp)
    requires
        state_wf(s),
    ensures
        state_wf(apply_op(s, op)),
        apply_op(s, op).n == s.n,
        apply_op(s, op).limit == s.limit,
{
    match op {
        BatchOp::Start => {
            if running(s) < s.limit && s.next < s.n {
                let t = start_state(s).0;
                assert(t.slots[s.next as int] is None);
                assert(running(t) == running(s) + 1);
            }
        },
        BatchOp::Complete(i, o) => {
            if is_running(s, i) {
                let t = complete_state(s, i, o);
                lemma_empty_slots_fill(s.slots, s.next, i as int, o);
            }
        },
    }
}

/// Any sequence of events keeps a well-formed state well-formed.
pub proof fn lemma_replay_wf(s: BatchState, ops: Seq<BatchOp>)
    requires
        state_wf(s),
    ensures
        state_wf(replay(s, ops)),
        replay(s, ops).n == s.n,
        replay(s, ops).limit == s.limit,
    decreases ops.len(),
{
    if ops.len() > 0 {
        lemma_replay_wf(s, ops.drop_last());
        lemma_apply_op_wf(replay(s, ops.drop_last()), ops.last());
    }
}

/// Never more than the cap: along any sequence of events from a fresh
/// scheduler, at every point, at most `limit` pipelines are running.
pub proof fn lemma_never_over_limit(n: nat, limit: nat, ops: Seq<BatchOp>)
    requires
        limit >= 1,
    ensures
        forall|j: int|
            0 <= j <= ops.len() ==> running(#[trigger] replay(initial(n, limit), ops.take(j)))
                <= limit,
{
    let s0 = initial(n, limit);
    assert(state_wf(s0));
    assert forall|j: int| 0 <= j <= ops.len() implies running(
        #[trigger] replay(initial(n, limit), ops.take(j)),
    ) <= limit by {
        lemma_replay_wf(s0, ops.take(j));
    }
}

/// An empty batch is finished at once and starts nothing.
pub proof fn lemma_empty_batch(limit: nat)
    requires
        limit >= 1,
    ensures
        finished(initial(0, limit)),
        start_state(initial(0, limit)).1 is None,
{
}

/// Outcomes land by index: whatever the order of completions, every outcome
/// delivered for word `i` is the one its slot holds afterwards.
pub proof fn lemma_outcomes_by_index(s: BatchState, ops: Seq<BatchOp>)
    requires
        state_wf(s),
        valid_trace(s, ops),
    ensures
        forall|k: int|
            0 <= k < ops.len() && #[trigger] ops[k] is Complete ==> ops[k]->Complete_0 < s.n
                && replay(s, ops).slots[ops[k]->Complete_0 as int] == Some(ops[k]->Complete_1),
    decreases ops.len(),
{
    if ops.len() > 0 {
        let pre = ops.drop_last();
        lemma_outcomes_by_index(s, pre);
        lemma_replay_wf(s, pre);
        let t = replay(s, pre);
        assert forall|k: int| 0 <= k < ops.len() && #[trigger] ops[k] is Complete implies ops[k]->Complete_0
            < s.n && replay(s, ops).slots[ops[k]->Complete_0 as int] == Some(ops[k]->Complete_1) by {
            let i = ops[k]->Complete_0;
            let o = ops[k]->Complete_1;
            assert(replay(s, ops) == apply_op(t, ops.last()));
            if k < ops.len() - 1 {
                assert(pre[k] == ops[k]);
                assert(t.slots[i as int] == Some(o));
                match ops.last() {
                    BatchOp::Start => {
                        assert(apply_op(t, ops.last()).slots == t.slots);
                    },
                    BatchOp::Complete(i2, o2) => {
                        if i2 == i {
                            assert(!is_running(t, i2));
                        } else {
                            assert(apply_op(t, ops.last()).slots[i as int] == t.slots[i as int]);
                        }
                    },
                }
            } else {
                assert(ops.last() == ops[k]);
                assert(is_running(t, i));
                assert(replay(s, ops) == complete_state(t, i, o));
            }
        }
    }
}

/// The scheduler of one batch.
pub struct BatchScheduler {
    limit: usize,
    next: usize,
    in_flight: usize,
    slots: Vec<Option<PipelineOutcome>>,
}

impl View for BatchScheduler {
    type V = BatchState;

    closed spec fn view(&self) -> BatchState {
        BatchState {
            n: self.slots@.len(),
            limit: self.limit as nat,
            next: self.next as nat,
            slots: self.slots@,
        }
    }
}

impl BatchScheduler {
    /// The model is well formed and the count of running pipelines is kept.
    pub closed spec fn wf(&self) -> bool {
        state_wf(self@) && self.in_flight == running(self@)
    }

    /// A scheduler for `n` words, at most `limit` at a time.
    pub fn new(n: usize, limit: usize) -> (r: BatchScheduler)
        requires
            limit >= 1,
        ensures
            r.wf(),
            r@ == initial(n as nat, limit as nat),
    {
        let mut slots: Vec<Option<PipelineOutcome>> = Vec::new();
        let mut i: usize = 0;
        while i < n
            invariant
                0 <= i <= n,
                slots@.len() == i,
                forall|j: int| 0 <= j < i ==> slots@[j] is None,
            decreases n - i,
        {
            slots.push(None);
            i = i + 1;
        }
        let r = BatchScheduler { limit, next: 0, in_flight: 0, slots };
        assert(r@.slots =~= initial(n as nat, limit as nat).slots);
        r
    }

    /// Starts the next word if a place is free and a word is left, and
    /// returns its index.
    pub fn start_next(&mut self) -> (r: Option<usize>)
        requires
            old(self).wf(),
        ensures
            final(self).wf(),
            final(self)@ == start_state(old(self)@).0,
            match r {
                Some(i) => start_state(old(self)@).1 == Some(i as nat),
                None => start_state(old(self)@).1 is None,
            },
    {
        proof {
            lemma_apply_op_wf(self@, BatchOp::Start);
        }
        if self.in_flight < self.limit && self.next < self.slots.len() {
            let i = self.next;
            proof {
                assert(self.slots@[i as int] is None);
            }
            self.next = self.next + 1;
            self.in_flight = self.in_flight + 1;
            Some(i)
        } else {
            None
        }
    }

    /// Whether word `idx` has started and not completed.
    pub fn is_running(&self, idx: usize) -> (r: bool)
        requires
            self.wf(),
        ensures
            r == is_running(self@, idx as nat),
    {
        idx < self.next && self.slots[idx].is_none()
    }

    /// Records the outcome of word `idx`, a running word, in its slot.
    pub fn complete(&mut self, idx: usize, outcome: PipelineOutcome)
        requires
            old(self).wf(),
            is_running(old(self)@, idx as nat),
        ensures
            final(self).wf(),
            final(self)@ == complete_state(old(self)@, idx as nat, outcome),
    {
        proof {
            lemma_empty_slots_fill(self.slots@, self.next as nat, idx as int, outcome);
        }
        self.slots.set(idx, Some(outcome));
        self.in_flight = self.in_flight - 1;
    }

    /// How many pipelines are running.
    pub fn running(&self) -> (r: usize)
        requires
            self.wf(),
        ensures
            r == running(self@),
    {
        self.in_flight
    }

    /// Whether every word has started and completed.
    pub fn is_finished(&self) -> (r: bool)
        requires
            self.wf(),
        ensures
            r == finished(self@),
    {
        self.next == self.slots.len() && self.in_flight == 0
    }

    /// The outcomes of a finished batch, one per word, in input order.
    pub fn into_outcomes(self) -> (r: Vec<PipelineOutcome>)
        requires
            self.wf(),
            finished(self@),
        ensures
            r@.len() == self@.n,
            forall|i: int| 0 <= i < r@.len() ==> self@.slots[i] == Some(#[trigger] r@[i]),
    {
        let ghost orig = self.slots@;
        proof {
            lemma_all_filled(orig, orig.len());
        }
        let mut slots = self.slots;
        let n = slots.len();
        let mut out: Vec<PipelineOutcome> = Vec::new();
        let mut k: usize = 0;
        while slots.len() > 0
            invariant
                orig.len() == n,
                0 <= k <= n,
                slots@ == orig.subrange(k as int, n as int),
                forall|j: int| 0 <= j < n ==> #[trigger] orig[j] is Some,
                out@.len() == k,
                forall|j: int| 0 <= j < k ==> orig[j] == Some(#[trigger] out@[j]),
            decreases slots.len(),
        {
            let x = slots.remove(0);
            match x {
                Some(o) => out.push(o),
                None => {
                    assert(orig[k as int] is Some);
                },
            }
            k = k + 1;
        }
        out
    }
}

proof fn lemma_all_filled(slots: Seq<Option<PipelineOutcome>>, k: nat)
    requires
        k <= slots.len(),
        empty_slots(slots, k) == 0,
    ensures
        forall|j: int| 0 <= j < k ==> #[trigger] slots[j] is Some,
    decreases k,
{
    if k > 0 {
        lemma_all_filled(slots, (k - 1) as nat);
    }
}

/// One outcome per word: once a batch from a fresh scheduler has finished,
/// all `n` of its slots are filled, for every `n`, zero included.
pub proof fn lemma_finished_fills_every_slot(n: nat, limit: nat, ops: Seq<BatchOp>)
    requires
        limit >= 1,
        finished(replay(initial(n, limit), ops)),
    ensures
        replay(initial(n, limit), ops).slots.len() == n,
        forall|i: int| 0 <= i < n ==> #[trigger] replay(initial(n, limit), ops).slots[i] is Some,
{
    let s = replay(initial(n, limit), ops);
    lemma_replay_wf(initial(n, limit), ops);
    lemma_all_filled(s.slots, s.next);
}

/// A batch answers every word, in input order: along any sequence of events
/// that a caller may issue from a fresh scheduler for `n` words, once the
/// batch has finished, there are exactly `n` outcomes, every slot is filled,
/// and the slot of word `i` holds the outcome delivered for word `i`,
/// whatever the order of completions.
pub proof fn lemma_batch_outcomes_in_input_order(n: nat, limit: nat, ops: Seq<BatchOp>)
    requires
        limit >= 1,
        valid_trace(initial(n, limit), ops),
        finished(replay(initial(n, limit), ops)),
    ensures
        replay(initial(n, limit), ops).slots.len() == n,
        forall|i: int| 0 <= i < n ==> #[trigger] replay(initial(n, limit), ops).slots[i] is Some,
        forall|k: int|
            0 <= k < ops.len() && #[trigger] ops[k] is Complete ==> ops[k]->Complete_0 < n
                && replay(initial(n, limit), ops).slots[ops[k]->Complete_0 as int] == Some(
                ops[k]->Complete_1,
            ),
{
    lemma_finished_fills_every_slot(n, limit, ops);
    lemma_outcomes_by_index(initial(n, limit), ops);
}

} // verus!
