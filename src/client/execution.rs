//! The decisions of an execution: which candidate to start next, how each
//! outcome is recorded, and what the execution returns.
use vstd::prelude::*;

use crate::client::{Execution, SrvError};

verus! {

/// The first success among `outcomes`, else the last failure, else the
/// condition that there was no target at all.
pub open spec fn first_success_or_last_error<T, E, L>(outcomes: Seq<Result<T, E>>) -> Result<
    Result<T, E>,
    SrvError<L>,
>
    decreases outcomes.len(),
{
    if outcomes.len() == 0 {
        Err(SrvError::NoTargets)
    } else if outcomes[0] is Ok || outcomes.len() == 1 {
        Ok(outcomes[0])
    } else {
        first_success_or_last_error(outcomes.drop_first())
    }
}

/// What an execution has done so far.
pub struct AttemptsView<T, E> {
    /// The execution mode.
    pub mode: Execution,
    /// The cache indices in the order the policy gave.
    pub order: Seq<usize>,
    /// How many candidates of `order` have been started.
    pub started: nat,
    /// The cache indices whose outcome has been observed, in observation order.
    pub completed: Seq<usize>,
    /// The observed outcomes, aligned with `completed`.
    pub outcomes: Seq<Result<T, E>>,
}

impl<T, E> AttemptsView<T, E> {
    /// A fresh execution over `order`.
    pub open spec fn initial(mode: Execution, order: Seq<usize>) -> Self {
        AttemptsView { mode, order, started: 0, completed: Seq::empty(), outcomes: Seq::empty() }
    }

    /// Some outcome was a success.
    pub open spec fn succeeded(self) -> bool {
        exists|i: int| 0 <= i < self.outcomes.len() && #[trigger] self.outcomes[i] is Ok
    }

    /// Another candidate may be started now: there is one left and no success
    /// was seen; in serial mode, in addition, no started candidate is outstanding.
    pub open spec fn may_start(self) -> bool {
        &&& !self.succeeded()
        &&& self.started < self.order.len()
        &&& (self.mode is Concurrent || self.outcomes.len() == self.started)
    }

    /// The state after asking to start a candidate.
    pub open spec fn after_start(self) -> Self {
        if self.may_start() {
            AttemptsView { started: self.started + 1, ..self }
        } else {
            self
        }
    }

    /// The candidate `idx` was started and its outcome is still outstanding.
    pub open spec fn pending(self, idx: usize) -> bool {
        &&& self.outcomes.len() < self.started
        &&& self.order.take(self.started as int).contains(idx)
        &&& !self.completed.contains(idx)
    }

    /// The state after observing `outcome` for candidate `idx`.
    pub open spec fn after_complete(self, idx: usize, outcome: Result<T, E>) -> Self {
        AttemptsView {
            completed: self.completed.push(idx),
            outcomes: self.outcomes.push(outcome),
            ..self
        }
    }

    /// Nothing is left to observe: a success was seen, or every candidate was
    /// started and observed.
    pub open spec fn done(self) -> bool {
        self.succeeded() || (self.started == self.order.len() && self.outcomes.len()
            == self.started)
    }

    /// What the execution returns.
    pub open spec fn result<L>(self) -> Result<Result<T, E>, SrvError<L>> {
        first_success_or_last_error(self.outcomes)
    }
}

/// The progress of one execution over the candidates of a cache snapshot.
pub struct Attempts<T, E> {
    mode: Execution,
    order: Vec<usize>,
    started: usize,
    finished: usize,
    success: Option<T>,
    last_error: Option<E>,
    completed: Ghost<Seq<usize>>,
    outcomes: Ghost<Seq<Result<T, E>>>,
}

impl<T, E> View for Attempts<T, E> {
    type V = AttemptsView<T, E>;

    closed spec fn view(&self) -> AttemptsView<T, E> {
        AttemptsView {
            mode: self.mode,
            order: self.order@,
            started: self.started as nat,
            completed: self.completed@,
            outcomes: self.outcomes@,
        }
    }
}

proof fn lemma_only_last_success<T, E, L>(outcomes: Seq<Result<T, E>>)
    requires
        outcomes.len() > 0,
        forall|k: int| 0 <= k < outcomes.len() - 1 ==> #[trigger] outcomes[k] is Err,
    ensures
        first_success_or_last_error::<T, E, L>(outcomes) == Ok::<Result<T, E>, SrvError<L>>(
            outcomes.last(),
        ),
    decreases outcomes.len(),
{
    if outcomes.len() > 1 && !(outcomes[0] is Ok) {
        let rest = outcomes.drop_first();
        assert forall|k: int| 0 <= k < rest.len() - 1 implies #[trigger] rest[k] is Err by {
            assert(outcomes[k + 1] is Err);
        }
        lemma_only_last_success::<T, E, L>(rest);
    }
}

impl<T, E> Attempts<T, E> {
    /// The bookkeeping of the execution agrees with its view.
    pub closed spec fn wf(&self) -> bool {
        &&& self.started <= self.order@.len()
        &&& self.finished == self.outcomes@.len()
        &&& self.completed@.len() == self.outcomes@.len()
        &&& self.finished <= self.started
        &&& forall|k: int| 0 <= k < self.outcomes@.len() - 1 ==> #[trigger] self.outcomes@[k] is Err
        &&& self.outcomes@.len() == 0 ==> self.success is None && self.last_error is None
        &&& self.outcomes@.len() > 0 ==> match self.outcomes@.last() {
            Ok(v) => self.success == Some(v),
            Err(e) => self.success is None && self.last_error == Some(e),
        }
        &&& (self.mode is Serial ==> self.started <= self.finished + 1)
    }

    /// Starts an execution over the cache indices of `order`.
    pub fn new(mode: Execution, order: Vec<usize>) -> (r: Self)
        ensures
            r.wf(),
            r@ == AttemptsView::<T, E>::initial(mode, order@),
    {
        Attempts {
            mode,
            order,
            started: 0,
            finished: 0,
            success: None,
            last_error: None,
            completed: Ghost(Seq::empty()),
            outcomes: Ghost(Seq::empty()),
        }
    }

    /// Starts the next candidate, if one may be started now, and returns its
    /// cache index.
    pub fn start(&mut self) -> (r: Option<usize>)
        requires
            old(self).wf(),
        ensures
            final(self).wf(),
            final(self)@ == old(self)@.after_start(),
            r == if old(self)@.may_start() {
                Some(old(self)@.order[old(self)@.started as int])
            } else {
                None::<usize>
            },
    {
        proof {
            if self.outcomes@.len() > 0 {
                assert(self.outcomes@.last() == self.outcomes@[self.outcomes@.len() - 1]);
            }
        }
        let may_start = match self.mode {
            Execution::Serial => self.success.is_none() && self.started < self.order.len()
                && self.finished == self.started,
            Execution::Concurrent => self.success.is_none() && self.started < self.order.len(),
        };
        assert(may_start == self@.may_start());
        if may_start {
            let idx = self.order[self.started];
            self.started = self.started + 1;
            Some(idx)
        } else {
            None
        }
    }

    /// Records the outcome of the outstanding candidate `idx`.
    pub fn complete(&mut self, idx: usize, outcome: Result<T, E>)
        requires
            old(self).wf(),
            old(self)@.pending(idx),
            !old(self)@.succeeded(),
        ensures
            final(self).wf(),
            final(self)@ == old(self)@.after_complete(idx, outcome),
    {
        proof {
            if self.outcomes@.len() > 0 {
                assert(self.outcomes@.last() == self.outcomes@[self.outcomes@.len() - 1]);
                assert(self.outcomes@.last() is Err);
            }
        }
        let ghost out = outcome;
        self.completed = Ghost(self.completed@.push(idx));
        self.outcomes = Ghost(self.outcomes@.push(out));
        self.finished = self.finished + 1;
        match outcome {
            Ok(v) => {
                self.success = Some(v);
            },
            Err(e) => {
                self.last_error = Some(e);
            },
        }
        assert(self.outcomes@.last() == out);
    }

    /// Nothing is left to observe.
    pub fn is_done(&self) -> (r: bool)
        requires
            self.wf(),
        ensures
            r == self@.done(),
    {
        proof {
            if self.outcomes@.len() > 0 {
                assert(self.outcomes@.last() == self.outcomes@[self.outcomes@.len() - 1]);
            }
        }
        self.success.is_some() || (self.started == self.order.len() && self.finished
            == self.started)
    }

    /// The first success, else the last failure, else the condition that
    /// there was no target.
    pub fn finish<L>(self) -> (r: Result<Result<T, E>, SrvError<L>>)
        requires
            self.wf(),
        ensures
            r == self@.result::<L>(),
    {
        proof {
            if self.outcomes@.len() > 0 {
                lemma_only_last_success::<T, E, L>(self.outcomes@);
            }
        }
        match self.success {
            Some(v) => Ok(Ok(v)),
            None => match self.last_error {
                Some(e) => Ok(Err(e)),
                None => Err(SrvError::NoTargets),
            },
        }
    }
}

/// Serial driving: start the next candidate, observe the outcome that `op`
/// gives for it, and repeat, at most `steps` times.
pub open spec fn run_serial<T, E>(
    v: AttemptsView<T, E>,
    op: spec_fn(usize) -> Result<T, E>,
    steps: nat,
) -> AttemptsView<T, E>
    decreases steps,
{
    if steps == 0 || !v.may_start() {
        v
    } else {
        let idx = v.order[v.started as int];
        run_serial(v.after_start().after_complete(idx, op(idx)), op, (steps - 1) as nat)
    }
}

/// Asks `steps` times to start a candidate.
pub open spec fn start_repeatedly<T, E>(v: AttemptsView<T, E>, steps: nat) -> AttemptsView<T, E>
    decreases steps,
{
    if steps == 0 {
        v
    } else {
        start_repeatedly(v.after_start(), (steps - 1) as nat)
    }
}

/// Observes the outcomes `outcomes` of the candidates `indices`, in turn.
pub open spec fn observe<T, E>(
    v: AttemptsView<T, E>,
    indices: Seq<usize>,
    outcomes: Seq<Result<T, E>>,
) -> AttemptsView<T, E>
    decreases indices.len(),
{
    if indices.len() == 0 || outcomes.len() == 0 {
        v
    } else {
        observe(v.after_complete(indices[0], outcomes[0]), indices.drop_first(), outcomes.drop_first())
    }
}

/// In serial mode with an operation that always succeeds, only the first
/// candidate is ever started; its success is what the execution returns.
pub proof fn lemma_serial_success_uses_first<T, E, L>(
    order: Seq<usize>,
    op: spec_fn(usize) -> Result<T, E>,
)
    requires
        order.len() > 0,
        forall|i: usize| #[trigger] op(i) is Ok,
    ensures
        ({
            let v = run_serial(AttemptsView::initial(Execution::Serial, order), op, order.len());
            &&& v.started == 1
            &&& v.completed == seq![order[0]]
            &&& v.done()
            &&& v.result::<L>() == Ok::<Result<T, E>, SrvError<L>>(op(order[0]))
        }),
{
    let v0 = AttemptsView::<T, E>::initial(Execution::Serial, order);
    let v1 = v0.after_start().after_complete(order[0], op(order[0]));
    assert(v1.outcomes[0] is Ok);
    assert(v1.succeeded());
    assert(run_serial(v1, op, (order.len() - 1) as nat) == v1);
    assert(v1.completed =~= seq![order[0]]);
}

proof fn lemma_serial_failures<T, E>(
    v: AttemptsView<T, E>,
    op: spec_fn(usize) -> Result<T, E>,
    steps: nat,
)
    requires
        v.mode is Serial,
        v.started == v.outcomes.len(),
        v.started + steps == v.order.len(),
        v.completed == v.order.take(v.started as int),
        v.outcomes == v.completed.map_values(|i: usize| op(i)),
        forall|i: usize| #[trigger] op(i) is Err,
    ensures
        ({
            let w = run_serial(v, op, steps);
            &&& w.order == v.order
            &&& w.started == v.order.len()
            &&& w.completed == v.order
            &&& w.outcomes == v.order.map_values(|i: usize| op(i))
        }),
    decreases steps,
{
    if steps == 0 {
        assert(v.order.take(v.started as int) =~= v.order);
    } else {
        assert(!v.succeeded()) by {
            if v.succeeded() {
                let i = choose|i: int| 0 <= i < v.outcomes.len() && #[trigger] v.outcomes[i] is Ok;
                assert(op(v.completed[i]) is Err);
            }
        }
        let idx = v.order[v.started as int];
        let w = v.after_start().after_complete(idx, op(idx));
        assert(w.completed =~= v.order.take(w.started as int));
        assert(w.outcomes =~= w.completed.map_values(|i: usize| op(i)));
        lemma_serial_failures(w, op, (steps - 1) as nat);
    }
}

/// In serial mode with an operation that always fails, every candidate is
/// started exactly once, in order, and the execution returns the failure of
/// the last one (or the condition that there was no target).
pub proof fn lemma_serial_failures_use_all<T, E, L>(
    order: Seq<usize>,
    op: spec_fn(usize) -> Result<T, E>,
)
    requires
        forall|i: usize| #[trigger] op(i) is Err,
    ensures
        ({
            let v = run_serial(AttemptsView::initial(Execution::Serial, order), op, order.len());
            &&& v.started == order.len()
            &&& v.completed == order
            &&& v.done()
            &&& order.len() > 0 ==> v.result::<L>() == Ok::<Result<T, E>, SrvError<L>>(
                op(order.last()),
            )
            &&& order.len() == 0 ==> v.result::<L>() == Err::<Result<T, E>, SrvError<L>>(
                SrvError::NoTargets,
            )
        }),
{
    let v0 = AttemptsView::<T, E>::initial(Execution::Serial, order);
    assert(v0.completed =~= order.take(0));
    assert(v0.outcomes =~= v0.completed.map_values(|i: usize| op(i)));
    lemma_serial_failures(v0, op, order.len());
    let v = run_serial(v0, op, order.len());
    if order.len() > 0 {
        assert forall|k: int| 0 <= k < v.outcomes.len() - 1 implies #[trigger] v.outcomes[k] is Err by {
            assert(op(order[k]) is Err);
        }
        lemma_only_last_success::<T, E, L>(v.outcomes);
        assert(v.outcomes.last() == op(order.last()));
    }
    assert(v.outcomes.len() == order.len());
}

/// With no candidate, nothing is started and the execution returns the
/// condition that there was no target, in either mode.
pub proof fn lemma_empty_order_no_targets<T, E, L>(mode: Execution)
    ensures
        ({
            let v = AttemptsView::<T, E>::initial(mode, Seq::empty());
            &&& !v.may_start()
            &&& v.done()
            &&& v.result::<L>() == Err::<Result<T, E>, SrvError<L>>(SrvError::NoTargets)
        }),
{
}

proof fn lemma_start_repeatedly<T, E>(v: AttemptsView<T, E>, steps: nat)
    requires
        v.mode is Concurrent,
        v.outcomes.len() == 0,
        v.started + steps <= v.order.len(),
    ensures
        start_repeatedly(v, steps) == (AttemptsView { started: v.started + steps, ..v }),
    decreases steps,
{
    if steps > 0 {
        lemma_start_repeatedly(v.after_start(), (steps - 1) as nat);
    }
}

proof fn lemma_observe<T, E>(v: AttemptsView<T, E>, indices: Seq<usize>, outcomes: Seq<Result<T, E>>)
    requires
        indices.len() == outcomes.len(),
    ensures
        observe(v, indices, outcomes) == (AttemptsView {
            completed: v.completed + indices,
            outcomes: v.outcomes + outcomes,
            ..v
        }),
    decreases indices.len(),
{
    if indices.len() > 0 {
        let w = v.after_complete(indices[0], outcomes[0]);
        lemma_observe(w, indices.drop_first(), outcomes.drop_first());
        assert(w.completed + indices.drop_first() =~= v.completed + indices);
        assert(w.outcomes + outcomes.drop_first() =~= v.outcomes + outcomes);
    } else {
        assert(v.completed + indices =~= v.completed);
        assert(v.outcomes + outcomes =~= v.outcomes);
    }
}

/// In concurrent mode every candidate is started before any outcome is
/// observed; when the outcomes arrive in completion order and only the last
/// to arrive succeeds, the execution returns that success, after observing
/// every earlier failure.
pub proof fn lemma_concurrent_late_success<T, E, L>(
    order: Seq<usize>,
    completion: Seq<usize>,
    outcomes: Seq<Result<T, E>>,
)
    requires
        order.len() > 0,
        completion.len() == order.len(),
        outcomes.len() == order.len(),
        forall|k: int| 0 <= k < outcomes.len() - 1 ==> #[trigger] outcomes[k] is Err,
        outcomes.last() is Ok,
    ensures
        ({
            let s = start_repeatedly(AttemptsView::initial(Execution::Concurrent, order), order.len());
            let v = observe(s, completion, outcomes);
            &&& s.started == order.len()
            &&& s.outcomes.len() == 0
            &&& v.outcomes == outcomes
            &&& v.done()
            &&& v.result::<L>() == Ok::<Result<T, E>, SrvError<L>>(outcomes.last())
        }),
{
    let v0 = AttemptsView::<T, E>::initial(Execution::Concurrent, order);
    lemma_start_repeatedly(v0, order.len());
    let s = start_repeatedly(v0, order.len());
    lemma_observe(s, completion, outcomes);
    let v = observe(s, completion, outcomes);
    assert(v.outcomes =~= outcomes);
    assert(v.outcomes[v.outcomes.len() - 1] is Ok);
    lemma_only_last_success::<T, E, L>(outcomes);
}

} // verus!
