use vstd::prelude::*;
use crate::cancel_policy::{CancelEscalation, TickEscalation, TimeEscalation};
use crate::cancel_reason::CancelReason;
use crate::join::{JoinHandle, JoinSender};
use crate::scope::{Cx, RequestView};
use crate::select::Either;
use crate::task::{JoinError, JoinPoll, TaskId, TaskPoll};

verus! {

/// Why joining a set of fallible results stopped early.
#[derive(Debug)]
pub enum JoinAllOkError<E> {
    /// The producer at `index` panicked.
    Panicked { index: usize },
    /// The producer at `index` returned an error.
    Failed { index: usize, err: E },
    /// The joining task itself failed.
    JoinAllFailed(JoinError),
}

/// Requests that only subscribe to finishes of tasks in `producers`.
pub open spec fn only_subscriptions(extra: Seq<RequestView>, producers: Seq<TaskId>) -> bool {
    forall|k: int| 0 <= k < extra.len() ==> (#[trigger] extra[k]) is SubscribeFinish
        && producers.contains(extra[k]->SubscribeFinish_0)
}

/// The default escalation, as a value.
pub open spec fn default_escalation() -> CancelEscalation {
    CancelEscalation { tick: TickEscalation::Default, time: TimeEscalation::Default }
}

proof fn lemma_contains_after_push<A>(s: Seq<A>, x: A, y: A)
    requires
        s.contains(y),
    ensures
        s.push(x).contains(y),
{
    let j = choose|j: int| 0 <= j < s.len() && s[j] == y;
    assert(s.push(x)[j] == y);
}

proof fn lemma_contains_in_concat<A>(a: Seq<A>, b: Seq<A>, y: A)
    requires
        b.contains(y),
    ensures
        (a + b).contains(y),
{
    let j = choose|j: int| 0 <= j < b.len() && b[j] == y;
    assert((a + b)[a.len() + j] == y);
}

proof fn lemma_only_subscriptions_push(extra: Seq<RequestView>, producers: Seq<TaskId>, i: int)
    requires
        only_subscriptions(extra, producers),
        0 <= i < producers.len(),
    ensures
        only_subscriptions(extra.push(RequestView::SubscribeFinish(producers[i])), producers),
{
    let e2 = extra.push(RequestView::SubscribeFinish(producers[i]));
    assert forall|k: int| 0 <= k < e2.len() implies (#[trigger] e2[k]) is SubscribeFinish
        && producers.contains(e2[k]->SubscribeFinish_0) by {
        if k == extra.len() {
            assert(producers[i] == e2[k]->SubscribeFinish_0);
        } else {
            assert(e2[k] == extra[k]);
        }
    }
}

// ----------------------------- join all -----------------------------

/// A slot that holds an error result.
pub open spec fn is_err_slot<T>(x: Option<Result<T, JoinError>>) -> bool {
    x is Some && x->Some_0 is Err
}

/// Every slot holds a result.
pub open spec fn all_in<T>(c: Seq<Option<Result<T, JoinError>>>) -> bool {
    forall|i: int| 0 <= i < c.len() ==> (#[trigger] c[i]) is Some
}

/// No slot holds an error result.
pub open spec fn no_err<T>(c: Seq<Option<Result<T, JoinError>>>) -> bool {
    forall|i: int| 0 <= i < c.len() ==> !is_err_slot(#[trigger] c[i])
}

/// The results in the slots, in order.
pub open spec fn unwrap_all<T>(c: Seq<Option<Result<T, JoinError>>>) -> Seq<Result<T, JoinError>> {
    c.map_values(|x: Option<Result<T, JoinError>>| x->Some_0)
}

/// Waits for every handle; the first error among them ends the join at once.
#[verifier::reject_recursive_types(T)]
pub struct JoinAllTask<T> {
    producers: Vec<TaskId>,
    joins: Vec<JoinHandle<T>>,
    results: Vec<Option<Result<T, JoinError>>>,
    subscribed: Vec<bool>,
    tx: Option<JoinSender<Vec<Result<T, JoinError>>>>,
    /// What each handle gave while the join was open.
    got: Ghost<Seq<Option<Result<T, JoinError>>>>,
    /// The messages sent, oldest first.
    sent: Ghost<Seq<Result<Seq<Result<T, JoinError>>, JoinError>>>,
}

impl<T> JoinAllTask<T> {
    pub closed spec fn wf(&self) -> bool {
        &&& self.joins@.len() == self.producers@.len()
        &&& self.results@.len() == self.producers@.len()
        &&& self.subscribed@.len() == self.producers@.len()
        &&& forall|i: int| 0 <= i < self.joins@.len() ==> self.joins@[i].producer() == self.producers@[i]
        &&& self.got@.len() == self.producers@.len()
        &&& self.tx.is_some() ==> forall|i: int| 0 <= i < self.joins@.len() ==> {
            &&& #[trigger] self.got@[i] == self.results@[i]
            &&& !is_err_slot(self.got@[i])
            &&& self.got@[i] is Some ==> self.got@[i] == self.joins@[i].delivered()
        }
    }

    pub closed spec fn producer_ids(&self) -> Seq<TaskId> {
        self.producers@
    }

    pub closed spec fn subscribed_flags(&self) -> Seq<bool> {
        self.subscribed@
    }

    /// What each handle has delivered so far.
    pub closed spec fn deliveries(&self) -> Seq<Option<Result<T, JoinError>>> {
        self.joins@.map_values(|j: JoinHandle<T>| j.delivered())
    }

    /// What each handle gave while the join was open.
    pub closed spec fn collected(&self) -> Seq<Option<Result<T, JoinError>>> {
        self.got@
    }

    /// How many times each handle was polled.
    pub closed spec fn poll_counts(&self) -> Seq<nat> {
        self.joins@.map_values(|j: JoinHandle<T>| j.polls())
    }

    /// The messages sent, oldest first.
    pub closed spec fn messages(&self) -> Seq<Result<Seq<Result<T, JoinError>>, JoinError>> {
        self.sent@
    }

    /// The result has not been sent yet.
    pub closed spec fn open(&self) -> bool {
        self.tx.is_some()
    }

    pub fn new(joins: Vec<JoinHandle<T>>, tx: JoinSender<Vec<Result<T, JoinError>>>) -> (t: JoinAllTask<T>)
        ensures
            t.wf(),
            t.open(),
            t.producer_ids() == joins@.map_values(|j: JoinHandle<T>| j.producer()),
            forall|i: int| 0 <= i < t.subscribed_flags().len() ==> !t.subscribed_flags()[i],
            t.collected() == Seq::new(joins@.len(), |i: int| None::<Result<T, JoinError>>),
            t.messages() == Seq::<Result<Seq<Result<T, JoinError>>, JoinError>>::empty(),
    {
        let n = joins.len();
        let mut producers: Vec<TaskId> = Vec::new();
        let mut results: Vec<Option<Result<T, JoinError>>> = Vec::new();
        let mut subscribed: Vec<bool> = Vec::new();
        let mut i: usize = 0;
        while i < n
            invariant
                n == joins@.len(),
                i <= n,
                producers@.len() == i,
                results@.len() == i,
                subscribed@.len() == i,
                forall|k: int| 0 <= k < i ==> producers@[k] == joins@[k].producer(),
                forall|k: int| 0 <= k < i ==> !subscribed@[k],
                forall|k: int| 0 <= k < i ==> results@[k].is_none(),
            decreases n - i,
        {
            producers.push(joins[i].task_id());
            results.push(None);
            subscribed.push(false);
            i = i + 1;
        }
        proof {
            assert(producers@ =~= joins@.map_values(|j: JoinHandle<T>| j.producer()));
        }
        let ghost got = Seq::new(n as nat, |i: int| None::<Result<T, JoinError>>);
        proof {
            assert(results@ =~= got);
        }
        JoinAllTask { producers, joins, results, subscribed, tx: Some(tx), got: Ghost(got), sent: Ghost(Seq::empty()) }
    }

    /// One poll: looks at every handle without a result yet. A pending one gets
    /// the task subscribed to its producer (once); an error ends the join, reported
    /// as the join's own error, and the task asks to cancel itself with reason
    /// `ShortCircuit`; once every handle has a result, the results are sent in
    /// order and the task is ready.
    #[verifier::loop_isolation(false)]
    pub fn poll_with<R, X, Tr>(&mut self, cx: &mut Cx<'_, R, X, Tr>) -> (p: TaskPoll)
        requires
            old(self).wf(),
        ensures
            final(self).wf(),
            final(self).producer_ids() == old(self).producer_ids(),
            final(cx).same_base(old(cx)),
            p == TaskPoll::Ready ==> !final(self).open(),
            forall|i: int| 0 <= i < old(self).subscribed_flags().len() && old(self).subscribed_flags()[i]
                ==> final(self).subscribed_flags()[i],
            exists|extra: Seq<RequestView>| {
                &&& only_subscriptions(extra, old(self).producer_ids())
                &&& (final(cx).pending() == old(cx).pending() + extra
                    || (p == TaskPoll::Ready && final(cx).pending() == (old(cx).pending() + extra).push(
                        RequestView::Cancel(old(cx).task(), default_escalation(), CancelReason::ShortCircuit))))
            },
            !old(self).open() ==> final(self).messages() == old(self).messages(),
            old(self).open() ==> ({
                let c0 = old(self).collected();
                let c = final(self).collected();
                &&& c.len() == c0.len()
                &&& forall|i: int| 0 <= i < c.len() && (#[trigger] c0[i]) is Some ==> c[i] == c0[i]
                &&& forall|i: int| 0 <= i < c.len() && (#[trigger] c[i]) is Some ==> c[i] == final(self).deliveries()[i]
                &&& forall|i: int| 0 <= i < c.len() && #[trigger] is_err_slot(c[i]) ==> p == TaskPoll::Ready
                    && final(self).messages() == old(self).messages().push(Err(c[i]->Some_0->Err_0))
                &&& no_err(c) && all_in(c) ==> p == TaskPoll::Ready
                    && final(self).messages() == old(self).messages().push(Ok(unwrap_all(c)))
                &&& no_err(c) && !all_in(c) ==> p == TaskPoll::Pending
                    && final(self).messages() == old(self).messages()
                    && forall|i: int| 0 <= i < c.len() && (#[trigger] c0[i]) is None
                        ==> final(self).poll_counts()[i] == old(self).poll_counts()[i] + 1
                &&& p == TaskPoll::Pending ==> forall|i: int| 0 <= i < c.len() && (#[trigger] c[i]) is None ==> {
                    &&& final(self).deliveries()[i] == old(self).deliveries()[i]
                    &&& final(self).subscribed_flags()[i]
                    &&& !old(self).subscribed_flags()[i] ==> final(cx).pending().contains(
                        RequestView::SubscribeFinish(old(self).producer_ids()[i]))
                }
            }),
    {
        let n = self.joins.len();
        let mut i: usize = 0;
        let ghost mut extra: Seq<RequestView> = Seq::empty();
        let ghost open0 = self.tx.is_some();
        while i < n
            invariant
                self.wf(),
                old(self).wf(),
                n == self.joins@.len(),
                i <= n,
                self.producers@ == old(self).producers@,
                cx.same_base(old(cx)),
                only_subscriptions(extra, old(self).producer_ids()),
                cx.pending() == old(cx).pending() + extra,
                forall|k: int| 0 <= k < n && old(self).subscribed@[k] ==> self.subscribed@[k],
                open0 == old(self).tx.is_some(),
                self.tx.is_some() == open0,
                self.sent@ == old(self).sent@,
                forall|k: int| i <= k < n ==> self.joins@[k] == old(self).joins@[k],
                forall|k: int| i <= k < n ==> self.results@[k] == old(self).results@[k],
                open0 ==> forall|k: int| 0 <= k < i && (#[trigger] old(self).got@[k]) is None
                    ==> self.joins@[k].polls() == old(self).joins@[k].polls() + 1,
                open0 ==> forall|k: int| 0 <= k < n && (#[trigger] old(self).got@[k]) is Some
                    ==> self.got@[k] == old(self).got@[k],
                !open0 ==> self.got@ == old(self).got@,
                forall|k: int| i <= k < n ==> self.subscribed@[k] == old(self).subscribed@[k],
                open0 ==> forall|k: int| 0 <= k < i && (#[trigger] self.got@[k]) is None ==> {
                    &&& self.joins@[k].delivered() == old(self).joins@[k].delivered()
                    &&& self.subscribed@[k]
                    &&& !old(self).subscribed@[k] ==> extra.contains(RequestView::SubscribeFinish(old(self).producers@[k]))
                },
            decreases n - i,
        {
            let ghost extra0 = extra;
            if self.results[i].is_none() {
                let ghost j0 = self.joins@[i as int];
                match self.joins[i].poll() {
                    JoinPoll::Pending => {
                        if !self.subscribed[i] {
                            self.subscribed.set(i, true);
                            let p = self.producers[i];
                            cx.subscribe_to_finish(p);
                            proof {
                                lemma_only_subscriptions_push(extra, old(self).producer_ids(), i as int);
                                extra = extra.push(RequestView::SubscribeFinish(p));
                                assert(extra[extra.len() - 1] == RequestView::SubscribeFinish(p));
                                assert forall|k: int| 0 <= k < i && extra0.contains(RequestView::SubscribeFinish(#[trigger] old(self).producers@[k]))
                                    implies extra.contains(RequestView::SubscribeFinish(old(self).producers@[k])) by {
                                    lemma_contains_after_push(extra0, RequestView::SubscribeFinish(p), RequestView::SubscribeFinish(old(self).producers@[k]));
                                }
                            }
                        }
                    },
                    JoinPoll::Ready(res) => {
                        let ghost gv = res;
                        match res {
                            Err(e) => {
                                match self.tx.take() {
                                    Some(tx) => {
                                        tx.send(Err(e));
                                        proof {
                                            self.got@ = self.got@.update(i as int, Some(gv));
                                            self.sent@ = self.sent@.push(Err(e));
                                        }
                                    },
                                    None => {},
                                }
                                let me = cx.id();
                                cx.cancel_escalate_with_reason(me, CancelEscalation::use_defaults(), CancelReason::ShortCircuit);
                                proof {
                                    if open0 {
                                        let c = self.got@;
                                        assert forall|k: int| 0 <= k < c.len() && #[trigger] is_err_slot(c[k]) implies k == i by {
                                            if k != i {
                                                assert(c[k] == old(self).got@[k] || c[k] == self.results@[k]);
                                            }
                                        }
                                        assert(c[i as int] == Some(gv));
                                    }
                                }
                                return TaskPoll::Ready;
                            },
                            Ok(v) => {
                                self.results.set(i, Some(Ok(v)));
                                proof {
                                    if open0 {
                                        self.got@ = self.got@.update(i as int, Some(gv));
                                    }
                                }
                            },
                        }
                    },
                }
                proof {
                    assert(self.joins@[i as int].polls() == j0.polls() + 1);
                    if open0 && self.got@[i as int] is None && !old(self).subscribed@[i as int] {
                        assert(extra.contains(RequestView::SubscribeFinish(old(self).producers@[i as int]))) by {
                            assert(extra[extra.len() - 1] == RequestView::SubscribeFinish(old(self).producers@[i as int]));
                        }
                    }
                }
            }
            i = i + 1;
        }
        let mut all = true;
        let mut k: usize = 0;
        while k < n
            invariant
                n == self.results@.len(),
                k <= n,
                all <==> forall|q: int| 0 <= q < k ==> (#[trigger] self.results@[q]) is Some,
            decreases n - k,
        {
            if self.results[k].is_none() {
                all = false;
            }
            k = k + 1;
        }
        if all {
            proof {
                if open0 {
                    assert(self.got@ =~= self.results@);
                    assert(no_err(self.got@));
                }
            }
            let ghost jsnap = self.joins@;
            let txo = self.tx.take();
            let ghost snap = self.results@;
            proof {
                assert(open0 ==> snap =~= self.got@);
            }
            let mut out: Vec<Result<T, JoinError>> = Vec::new();
            let mut j: usize = 0;
            while j < n
                invariant
                    self.wf(),
                    old(self).wf(),
                    self.tx.is_none(),
                    n == self.results@.len(),
                    n == snap.len(),
                    self.producers@ == old(self).producers@,
                    forall|k: int| 0 <= k < n && old(self).subscribed@[k] ==> self.subscribed@[k],
                    j <= n,
                    forall|q: int| 0 <= q < n ==> (#[trigger] snap[q]) is Some,
                    forall|q: int| j <= q < n ==> self.results@[q] == snap[q],
                    out@ == unwrap_all(snap).take(j as int),
                    self.sent@ == old(self).sent@,
                    open0 ==> snap == self.got@,
                    txo.is_some() == open0,
                    self.joins@ == jsnap,
                decreases n - j,
            {
                let mut slot: Option<Result<T, JoinError>> = None;
                std::mem::swap(&mut slot, &mut self.results[j]);
                proof {
                    assert(slot == snap[j as int]);
                }
                match slot {
                    Some(r) => out.push(r),
                    None => {},
                }
                proof {
                    assert(unwrap_all(snap).take(j as int + 1) =~= unwrap_all(snap).take(j as int).push(snap[j as int]->Some_0));
                }
                j = j + 1;
            }
            proof {
                assert(unwrap_all(snap).take(n as int) =~= unwrap_all(snap));
            }
            match txo {
                Some(tx) => {
                    let ghost outv = out@;
                    tx.send(Ok(out));
                    proof {
                        self.sent@ = self.sent@.push(Ok(outv));
                    }
                },
                None => {},
            }
            return TaskPoll::Ready;
        }
        proof {
            if open0 {
                let c = self.got@;
                assert(!all_in(c)) by {
                    let q = choose|q: int| 0 <= q < n && !(#[trigger] self.results@[q] is Some);
                    assert(c[q] == self.results@[q]);
                }
                assert forall|k: int| 0 <= k < n && (#[trigger] c[k]) is None && !old(self).subscribed@[k]
                    implies cx.pending().contains(RequestView::SubscribeFinish(old(self).producers@[k])) by {
                    lemma_contains_in_concat(old(cx).pending(), extra, RequestView::SubscribeFinish(old(self).producers@[k]));
                }
            }
        }
        TaskPoll::Pending
    }
}

// ----------------------------- join all ok -----------------------------

/// The slot of a value that came in: an `Ok` result holding `Ok(v)`.
pub open spec fn ok_slot<T, E>(v: Option<T>) -> Option<Result<Result<T, E>, JoinError>> {
    match v {
        Some(x) => Some(Ok(Ok(x))),
        None => None,
    }
}

/// A slot that ends the join: anything other than `Ok(Ok(_))`.
pub open spec fn is_fail_slot<T, E>(x: Option<Result<Result<T, E>, JoinError>>) -> bool {
    x is Some && !(x->Some_0 is Ok && x->Some_0->Ok_0 is Ok)
}

pub open spec fn no_fail<T, E>(c: Seq<Option<Result<Result<T, E>, JoinError>>>) -> bool {
    forall|i: int| 0 <= i < c.len() ==> !is_fail_slot(#[trigger] c[i])
}

/// The values in the slots, in order.
pub open spec fn unwrap_ok_all<T, E>(c: Seq<Option<Result<Result<T, E>, JoinError>>>) -> Seq<T> {
    c.map_values(|x: Option<Result<Result<T, E>, JoinError>>| x->Some_0->Ok_0->Ok_0)
}

/// A join-all-ok message, its vector taken by its view.
pub open spec fn ok_message_view<T, E>(m: Result<Result<Vec<T>, JoinAllOkError<E>>, JoinError>) -> Result<Result<Seq<T>, JoinAllOkError<E>>, JoinError> {
    match m {
        Ok(Ok(w)) => Ok(Ok(w@)),
        Ok(Err(e)) => Ok(Err(e)),
        Err(e) => Err(e),
    }
}

/// What the join sends when the result `d` at `index` ends it: a panicked
/// producer as `Panicked { index }`, an error value as `Failed { index, err }`,
/// and a cancelled producer as the cancellation itself.
pub open spec fn failure_message<T, E>(index: int, d: Result<Result<T, E>, JoinError>) -> Result<Result<Seq<T>, JoinAllOkError<E>>, JoinError> {
    match d {
        Err(JoinError::Panicked) => Ok(Err(JoinAllOkError::Panicked { index: index as usize })),
        Err(JoinError::Cancelled(r)) => Err(JoinError::Cancelled(r)),
        Ok(Err(e)) => Ok(Err(JoinAllOkError::Failed { index: index as usize, err: e })),
        Ok(Ok(_)) => Ok(Ok(Seq::empty())),
    }
}

/// Waits for every handle of fallible results; stops at the first failure.
#[verifier::reject_recursive_types(T)]
#[verifier::reject_recursive_types(E)]
pub struct JoinAllOkTask<T, E> {
    producers: Vec<TaskId>,
    joins: Vec<JoinHandle<Result<T, E>>>,
    subscribed: Vec<bool>,
    vals: Vec<Option<T>>,
    tx: Option<JoinSender<Result<Vec<T>, JoinAllOkError<E>>>>,
    /// What each handle gave while the join was open.
    got: Ghost<Seq<Option<Result<Result<T, E>, JoinError>>>>,
    /// The messages sent, oldest first.
    sent: Ghost<Seq<Result<Result<Seq<T>, JoinAllOkError<E>>, JoinError>>>,
}

impl<T, E> JoinAllOkTask<T, E> {
    pub closed spec fn wf(&self) -> bool {
        &&& self.joins@.len() == self.producers@.len()
        &&& self.vals@.len() == self.producers@.len()
        &&& self.subscribed@.len() == self.producers@.len()
        &&& self.got@.len() == self.producers@.len()
        &&& self.tx.is_some() ==> forall|i: int| 0 <= i < self.joins@.len() ==> {
            &&& #[trigger] self.got@[i] == ok_slot::<T, E>(self.vals@[i])
            &&& self.got@[i] is Some ==> self.got@[i] == self.joins@[i].delivered()
        }
    }

    /// Which producers the task has asked to be woken by.
    pub closed spec fn subscribed_flags(&self) -> Seq<bool> {
        self.subscribed@
    }

    /// What each handle has delivered so far.
    pub closed spec fn deliveries(&self) -> Seq<Option<Result<Result<T, E>, JoinError>>> {
        self.joins@.map_values(|j: JoinHandle<Result<T, E>>| j.delivered())
    }

    /// How many times each handle was polled.
    pub closed spec fn poll_counts(&self) -> Seq<nat> {
        self.joins@.map_values(|j: JoinHandle<Result<T, E>>| j.polls())
    }

    /// What each handle gave while the join was open.
    pub closed spec fn collected(&self) -> Seq<Option<Result<Result<T, E>, JoinError>>> {
        self.got@
    }

    /// The messages sent, oldest first.
    pub closed spec fn messages(&self) -> Seq<Result<Result<Seq<T>, JoinAllOkError<E>>, JoinError>> {
        self.sent@
    }

    pub closed spec fn producer_ids(&self) -> Seq<TaskId> {
        self.producers@
    }

    pub closed spec fn open(&self) -> bool {
        self.tx.is_some()
    }

    pub fn new(joins: Vec<JoinHandle<Result<T, E>>>, tx: JoinSender<Result<Vec<T>, JoinAllOkError<E>>>) -> (t: JoinAllOkTask<T, E>)
        ensures
            t.wf(),
            t.open(),
            t.producer_ids() == joins@.map_values(|j: JoinHandle<Result<T, E>>| j.producer()),
            t.collected() == Seq::new(joins@.len(), |i: int| None::<Result<Result<T, E>, JoinError>>),
            t.messages() == Seq::<Result<Result<Seq<T>, JoinAllOkError<E>>, JoinError>>::empty(),
    {
        let n = joins.len();
        let mut producers: Vec<TaskId> = Vec::new();
        let mut vals: Vec<Option<T>> = Vec::new();
        let mut subscribed: Vec<bool> = Vec::new();
        let mut i: usize = 0;
        while i < n
            invariant
                n == joins@.len(),
                i <= n,
                producers@.len() == i,
                vals@.len() == i,
                subscribed@.len() == i,
                forall|k: int| 0 <= k < i ==> producers@[k] == joins@[k].producer(),
                forall|k: int| 0 <= k < i ==> vals@[k].is_none(),
            decreases n - i,
        {
            producers.push(joins[i].task_id());
            vals.push(None);
            subscribed.push(false);
            i = i + 1;
        }
        proof {
            assert(producers@ =~= joins@.map_values(|j: JoinHandle<Result<T, E>>| j.producer()));
        }
        let ghost got = Seq::new(n as nat, |i: int| None::<Result<Result<T, E>, JoinError>>);
        let t = JoinAllOkTask { producers, joins, subscribed, vals, tx: Some(tx), got: Ghost(got), sent: Ghost(Seq::empty()) };
        proof {
            assert forall|i: int| 0 <= i < t.joins@.len() implies #[trigger] t.got@[i] == ok_slot::<T, E>(t.vals@[i]) by {}
        }
        t
    }

    /// One poll: a pending handle gets the task subscribed to its producer (once);
    /// a value is kept; a panicked producer, an error value or a cancelled producer
    /// ends the join (see `failure_message`); once every value is in, they are sent
    /// in order.
    #[verifier::loop_isolation(false)]
    pub fn poll_with<R, X, Tr>(&mut self, cx: &mut Cx<'_, R, X, Tr>) -> (p: TaskPoll)
        requires
            old(self).wf(),
        ensures
            final(self).wf(),
            final(self).producer_ids() == old(self).producer_ids(),
            final(cx).same_base(old(cx)),
            p == TaskPoll::Ready ==> !final(self).open(),
            exists|extra: Seq<RequestView>|
                only_subscriptions(extra, old(self).producer_ids())
                && final(cx).pending() == old(cx).pending() + extra,
            !old(self).open() ==> final(self).messages() == old(self).messages(),
            old(self).open() ==> ({
                let c0 = old(self).collected();
                let c = final(self).collected();
                &&& c.len() == c0.len()
                &&& forall|i: int| 0 <= i < c.len() && (#[trigger] c0[i]) is Some ==> c[i] == c0[i]
                &&& forall|i: int| 0 <= i < c.len() && (#[trigger] c[i]) is Some ==> c[i] == final(self).deliveries()[i]
                &&& forall|i: int| 0 <= i < c.len() && #[trigger] is_fail_slot(c[i]) ==> p == TaskPoll::Ready
                    && final(self).messages() == old(self).messages().push(failure_message(i, c[i]->Some_0))
                &&& no_fail(c) && all_in(c) ==> p == TaskPoll::Ready
                    && final(self).messages() == old(self).messages().push(Ok(Ok(unwrap_ok_all(c))))
                &&& no_fail(c) && !all_in(c) ==> p == TaskPoll::Pending
                    && final(self).messages() == old(self).messages()
                    && forall|i: int| 0 <= i < c.len() && (#[trigger] c0[i]) is None
                        ==> final(self).poll_counts()[i] == old(self).poll_counts()[i] + 1
                &&& p == TaskPoll::Pending ==> forall|i: int| 0 <= i < c.len() && (#[trigger] c[i]) is None ==> {
                    &&& final(self).deliveries()[i] == old(self).deliveries()[i]
                    &&& final(self).subscribed_flags()[i]
                    &&& !old(self).subscribed_flags()[i] ==> final(cx).pending().contains(
                        RequestView::SubscribeFinish(old(self).producer_ids()[i]))
                }
            }),
    {
        let n = self.joins.len();
        let mut i: usize = 0;
        let ghost mut extra: Seq<RequestView> = Seq::empty();
        let ghost open0 = self.tx.is_some();
        while i < n
            invariant
                self.wf(),
                old(self).wf(),
                n == self.joins@.len(),
                i <= n,
                self.producers@ == old(self).producers@,
                cx.same_base(old(cx)),
                only_subscriptions(extra, old(self).producer_ids()),
                cx.pending() == old(cx).pending() + extra,
                open0 == old(self).tx.is_some(),
                self.tx.is_some() == open0,
                self.sent@ == old(self).sent@,
                forall|k: int| i <= k < n ==> self.joins@[k] == old(self).joins@[k],
                forall|k: int| i <= k < n ==> self.vals@[k] == old(self).vals@[k],
                open0 ==> forall|k: int| 0 <= k < i && (#[trigger] old(self).got@[k]) is None
                    ==> self.joins@[k].polls() == old(self).joins@[k].polls() + 1,
                open0 ==> forall|k: int| 0 <= k < n && (#[trigger] old(self).got@[k]) is Some
                    ==> self.got@[k] == old(self).got@[k],
                !open0 ==> self.got@ == old(self).got@,
                forall|k: int| i <= k < n ==> self.subscribed@[k] == old(self).subscribed@[k],
                open0 ==> forall|k: int| 0 <= k < i && (#[trigger] self.got@[k]) is None ==> {
                    &&& self.joins@[k].delivered() == old(self).joins@[k].delivered()
                    &&& self.subscribed@[k]
                    &&& !old(self).subscribed@[k] ==> extra.contains(RequestView::SubscribeFinish(old(self).producers@[k]))
                },
            decreases n - i,
        {
            let ghost extra0 = extra;
            if self.vals[i].is_none() {
                let ghost j0 = self.joins@[i as int];
                match self.joins[i].poll() {
                    JoinPoll::Pending => {
                        if !self.subscribed[i] {
                            self.subscribed.set(i, true);
                            let p = self.producers[i];
                            cx.subscribe_to_finish(p);
                            proof {
                                lemma_only_subscriptions_push(extra, old(self).producer_ids(), i as int);
                                extra = extra.push(RequestView::SubscribeFinish(p));
                                assert(extra[extra.len() - 1] == RequestView::SubscribeFinish(p));
                                assert forall|k: int| 0 <= k < i && extra0.contains(RequestView::SubscribeFinish(#[trigger] old(self).producers@[k]))
                                    implies extra.contains(RequestView::SubscribeFinish(old(self).producers@[k])) by {
                                    lemma_contains_after_push(extra0, RequestView::SubscribeFinish(p), RequestView::SubscribeFinish(old(self).producers@[k]));
                                }
                            }
                        }
                    },
                    JoinPoll::Ready(res) => {
                        let ghost gv = res;
                        match res {
                            Ok(Ok(v)) => {
                                self.vals.set(i, Some(v));
                                proof {
                                    if open0 {
                                        self.got@ = self.got@.update(i as int, Some(gv));
                                    }
                                }
                            },
                            other => {
                                let msg = match other {
                                    Err(JoinError::Panicked) => Ok(Err(JoinAllOkError::Panicked { index: i })),
                                    Err(JoinError::Cancelled(r)) => Err(JoinError::Cancelled(r)),
                                    Ok(Err(e)) => Ok(Err(JoinAllOkError::Failed { index: i, err: e })),
                                    Ok(Ok(_)) => Ok(Ok(Vec::new())),
                                };
                                let ghost gmsg = ok_message_view(msg);
                                proof {
                                    assert(gmsg == failure_message::<T, E>(i as int, gv));
                                }
                                match self.tx.take() {
                                    Some(tx) => {
                                        tx.send(msg);
                                        proof {
                                            self.got@ = self.got@.update(i as int, Some(gv));
                                            self.sent@ = self.sent@.push(gmsg);
                                        }
                                    },
                                    None => {},
                                }
                                proof {
                                    if open0 {
                                        let c = self.got@;
                                        assert forall|k: int| 0 <= k < c.len() && #[trigger] is_fail_slot(c[k]) implies k == i by {
                                            if k != i {
                                                assert(c[k] == ok_slot::<T, E>(self.vals@[k]));
                                            }
                                        }
                                        assert(c[i as int] == Some(gv));
                                    }
                                }
                                return TaskPoll::Ready;
                            },
                        }
                    },
                }
                proof {
                    assert(self.joins@[i as int].polls() == j0.polls() + 1);
                    if open0 && self.got@[i as int] is None && !old(self).subscribed@[i as int] {
                        assert(extra.contains(RequestView::SubscribeFinish(old(self).producers@[i as int]))) by {
                            assert(extra[extra.len() - 1] == RequestView::SubscribeFinish(old(self).producers@[i as int]));
                        }
                    }
                }
            }
            i = i + 1;
        }
        let mut all = true;
        let mut k: usize = 0;
        while k < n
            invariant
                n == self.vals@.len(),
                k <= n,
                all <==> forall|q: int| 0 <= q < k ==> (#[trigger] self.vals@[q]) is Some,
            decreases n - k,
        {
            if self.vals[k].is_none() {
                all = false;
            }
            k = k + 1;
        }
        if all {
            proof {
                if open0 {
                    assert forall|q: int| 0 <= q < n implies (#[trigger] self.got@[q]) == ok_slot::<T, E>(self.vals@[q]) by {}
                    assert(no_fail(self.got@));
                    assert(all_in(self.got@));
                }
            }
            let ghost jsnap = self.joins@;
            let ghost snap = self.vals@;
            let ghost gsnap = self.got@;
            let txo = self.tx.take();
            let mut out: Vec<T> = Vec::new();
            let mut j: usize = 0;
            while j < n
                invariant
                    self.wf(),
                    old(self).wf(),
                    self.tx.is_none(),
                    n == self.vals@.len(),
                    n == snap.len(),
                    self.producers@ == old(self).producers@,
                    j <= n,
                    forall|q: int| 0 <= q < n ==> (#[trigger] snap[q]) is Some,
                    forall|q: int| j <= q < n ==> self.vals@[q] == snap[q],
                    out@ == snap.map_values(|x: Option<T>| x->Some_0).take(j as int),
                    self.sent@ == old(self).sent@,
                    self.got@ == gsnap,
                    self.joins@ == jsnap,
                    txo.is_some() == open0,
                decreases n - j,
            {
                let mut slot: Option<T> = None;
                std::mem::swap(&mut slot, &mut self.vals[j]);
                proof {
                    assert(slot == snap[j as int]);
                }
                match slot {
                    Some(v) => out.push(v),
                    None => {},
                }
                proof {
                    let f = snap.map_values(|x: Option<T>| x->Some_0);
                    assert(f.take(j as int + 1) =~= f.take(j as int).push(snap[j as int]->Some_0));
                }
                j = j + 1;
            }
            proof {
                let f = snap.map_values(|x: Option<T>| x->Some_0);
                assert(f.take(n as int) =~= f);
                if open0 {
                    assert forall|q: int| 0 <= q < n implies (#[trigger] f[q]) == unwrap_ok_all(gsnap)[q] by {
                        assert(gsnap[q] == ok_slot::<T, E>(snap[q]));
                    }
                    assert(f =~= unwrap_ok_all(gsnap));
                }
            }
            match txo {
                Some(tx) => {
                    let ghost outv = out@;
                    tx.send(Ok(Ok(out)));
                    proof {
                        self.sent@ = self.sent@.push(Ok(Ok(outv)));
                    }
                },
                None => {},
            }
            return TaskPoll::Ready;
        }
        proof {
            if open0 {
                let c = self.got@;
                assert(no_fail(c)) by {
                    assert forall|q: int| 0 <= q < n implies !is_fail_slot(#[trigger] c[q]) by {
                        assert(c[q] == ok_slot::<T, E>(self.vals@[q]));
                    }
                }
                assert(!all_in(c)) by {
                    let q = choose|q: int| 0 <= q < n && !(#[trigger] self.vals@[q] is Some);
                    assert(c[q] == ok_slot::<T, E>(self.vals@[q]));
                }
                assert forall|k: int| 0 <= k < n && (#[trigger] c[k]) is None && !old(self).subscribed@[k]
                    implies cx.pending().contains(RequestView::SubscribeFinish(old(self).producers@[k])) by {
                    lemma_contains_in_concat(old(cx).pending(), extra, RequestView::SubscribeFinish(old(self).producers@[k]));
                }
            }
        }
        TaskPoll::Pending
    }
}

// ----------------------------- select -----------------------------

/// `(rr + k) % n`, for `rr` and `k` below `n`.
pub open spec fn rotate(rr: int, k: int, n: int) -> int {
    if k < n - rr { rr + k } else { k - (n - rr) }
}

/// The place of index `i` in the round-robin order that starts at `rr`, for `rr`
/// and `i` below `n`: the inverse of `rotate`.
pub open spec fn rot_pos(rr: int, i: int, n: int) -> int {
    if i >= rr { i - rr } else { i + (n - rr) }
}

/// Races a set of handles: the first one found ready, looking round-robin from a
/// rotating start, gives the result together with its index.
#[verifier::reject_recursive_types(T)]
pub struct SelectNTask<T> {
    producers: Vec<TaskId>,
    joins: Vec<JoinHandle<T>>,
    subscribed: Vec<bool>,
    rr: usize,
    tx: Option<JoinSender<(usize, Result<T, JoinError>)>>,
    /// What each handle gave while the race was open.
    got: Ghost<Seq<Option<Result<T, JoinError>>>>,
    /// The messages sent, oldest first.
    sent: Ghost<Seq<Result<(usize, Result<T, JoinError>), JoinError>>>,
}

impl<T> SelectNTask<T> {
    pub closed spec fn wf(&self) -> bool {
        &&& self.joins@.len() == self.producers@.len()
        &&& self.subscribed@.len() == self.producers@.len()
        &&& (self.producers@.len() == 0 || self.rr < self.producers@.len())
        &&& self.got@.len() == self.producers@.len()
        &&& self.tx.is_some() ==> forall|i: int| 0 <= i < self.got@.len() ==> (#[trigger] self.got@[i]) is None
    }

    /// What each handle has delivered so far.
    pub closed spec fn deliveries(&self) -> Seq<Option<Result<T, JoinError>>> {
        self.joins@.map_values(|j: JoinHandle<T>| j.delivered())
    }

    /// Which producers the task has asked to be woken by.
    pub closed spec fn subscribed_flags(&self) -> Seq<bool> {
        self.subscribed@
    }

    /// How many times each handle was polled.
    pub closed spec fn poll_counts(&self) -> Seq<nat> {
        self.joins@.map_values(|j: JoinHandle<T>| j.polls())
    }

    /// What each handle gave while the race was open.
    pub closed spec fn collected(&self) -> Seq<Option<Result<T, JoinError>>> {
        self.got@
    }

    /// The messages sent, oldest first.
    pub closed spec fn messages(&self) -> Seq<Result<(usize, Result<T, JoinError>), JoinError>> {
        self.sent@
    }

    pub closed spec fn producer_ids(&self) -> Seq<TaskId> {
        self.producers@
    }

    /// Where the next poll starts looking.
    pub closed spec fn start(&self) -> usize {
        self.rr
    }

    pub closed spec fn open(&self) -> bool {
        self.tx.is_some()
    }

    pub fn new(joins: Vec<JoinHandle<T>>, tx: JoinSender<(usize, Result<T, JoinError>)>) -> (t: SelectNTask<T>)
        ensures
            t.wf(),
            t.open(),
            t.start() == 0,
            t.producer_ids() == joins@.map_values(|j: JoinHandle<T>| j.producer()),
            t.collected() == Seq::new(joins@.len(), |i: int| None::<Result<T, JoinError>>),
            t.messages() == Seq::<Result<(usize, Result<T, JoinError>), JoinError>>::empty(),
    {
        let n = joins.len();
        let mut producers: Vec<TaskId> = Vec::new();
        let mut subscribed: Vec<bool> = Vec::new();
        let mut i: usize = 0;
        while i < n
            invariant
                n == joins@.len(),
                i <= n,
                producers@.len() == i,
                subscribed@.len() == i,
                forall|k: int| 0 <= k < i ==> producers@[k] == joins@[k].producer(),
            decreases n - i,
        {
            producers.push(joins[i].task_id());
            subscribed.push(false);
            i = i + 1;
        }
        proof {
            assert(producers@ =~= joins@.map_values(|j: JoinHandle<T>| j.producer()));
        }
        let ghost got = Seq::new(n as nat, |i: int| None::<Result<T, JoinError>>);
        SelectNTask { producers, joins, subscribed, rr: 0, tx: Some(tx), got: Ghost(got), sent: Ghost(Seq::empty()) }
    }

    /// One poll. With no handles the race fails at once (reported as `Panicked`).
    /// Otherwise the handles are looked at from the start index on, wrapping
    /// around; the first ready one is sent with its index and the task is ready;
    /// pending ones get the task subscribed to their producer (once). When none is
    /// ready the start index moves on by one.
    #[verifier::loop_isolation(false)]
    pub fn poll_with<R, X, Tr>(&mut self, cx: &mut Cx<'_, R, X, Tr>) -> (p: TaskPoll)
        requires
            old(self).wf(),
        ensures
            final(self).wf(),
            final(self).producer_ids() == old(self).producer_ids(),
            final(cx).same_base(old(cx)),
            old(self).producer_ids().len() == 0 ==> p == TaskPoll::Ready,
            p == TaskPoll::Ready ==> !final(self).open(),
            p == TaskPoll::Pending ==> final(self).start() as int
                == rotate(old(self).start() as int, 1, old(self).producer_ids().len() as int),
            exists|extra: Seq<RequestView>|
                only_subscriptions(extra, old(self).producer_ids())
                && final(cx).pending() == old(cx).pending() + extra,
            !old(self).open() ==> final(self).messages() == old(self).messages(),
            old(self).open() && old(self).producer_ids().len() == 0 ==>
                final(self).messages() == old(self).messages().push(Err(JoinError::Panicked)),
            old(self).open() && old(self).producer_ids().len() > 0 ==> ({
                let n = old(self).producer_ids().len() as int;
                let rr = old(self).start() as int;
                let c = final(self).collected();
                &&& c.len() == n
                &&& forall|i: int| 0 <= i < n && (#[trigger] c[i]) is Some ==> {
                    &&& c[i] == final(self).deliveries()[i]
                    &&& p == TaskPoll::Ready
                    &&& final(self).messages() == old(self).messages().push(Ok((i as usize, c[i]->Some_0)))
                    &&& forall|k: int| 0 <= k < rot_pos(rr, i, n) ==>
                        final(self).poll_counts()[#[trigger] rotate(rr, k, n)] == old(self).poll_counts()[rotate(rr, k, n)] + 1
                    &&& forall|k: int| 0 <= k < rot_pos(rr, i, n) ==>
                        final(self).deliveries()[#[trigger] rotate(rr, k, n)] == old(self).deliveries()[rotate(rr, k, n)]
                }
                &&& (forall|i: int| 0 <= i < n ==> (#[trigger] c[i]) is None) ==> {
                    &&& p == TaskPoll::Pending
                    &&& final(self).messages() == old(self).messages()
                    &&& forall|i: int| 0 <= i < n ==> #[trigger] final(self).poll_counts()[i] == old(self).poll_counts()[i] + 1
                    &&& forall|i: int| 0 <= i < n ==> {
                        &&& #[trigger] final(self).deliveries()[i] == old(self).deliveries()[i]
                        &&& final(self).subscribed_flags()[i]
                        &&& !old(self).subscribed_flags()[i] ==> final(cx).pending().contains(
                            RequestView::SubscribeFinish(old(self).producer_ids()[i]))
                    }
                }
            }),
    {
        let n = self.joins.len();
        let ghost open0 = self.tx.is_some();
        if n == 0 {
            match self.tx.take() {
                Some(tx) => {
                    tx.send(Err(JoinError::Panicked));
                    proof {
                        self.sent@ = self.sent@.push(Err(JoinError::Panicked));
                    }
                },
                None => {},
            }
            proof {
                let e = Seq::<RequestView>::empty();
                assert(cx.pending() =~= old(cx).pending() + e);
                assert(only_subscriptions(e, old(self).producer_ids()));
            }
            return TaskPoll::Ready;
        }
        let rr = self.rr;
        let mut k: usize = 0;
        let ghost mut extra: Seq<RequestView> = Seq::empty();
        while k < n
            invariant
                self.wf(),
                old(self).wf(),
                n == self.joins@.len(),
                n > 0,
                rr == old(self).rr,
                rr == self.rr,
                k <= n,
                self.producers@ == old(self).producers@,
                cx.same_base(old(cx)),
                only_subscriptions(extra, old(self).producer_ids()),
                cx.pending() == old(cx).pending() + extra,
                self.tx.is_some() == open0,
                self.sent@ == old(self).sent@,
                self.got@ == old(self).got@,
                forall|q: int| 0 <= q < n && rot_pos(rr as int, q, n as int) >= k ==> #[trigger] self.joins@[q] == old(self).joins@[q],
                forall|q: int| 0 <= q < n && rot_pos(rr as int, q, n as int) < k ==>
                    (#[trigger] self.joins@[q]).polls() == old(self).joins@[q].polls() + 1,
                forall|q: int| 0 <= q < n && rot_pos(rr as int, q, n as int) >= k ==> #[trigger] self.subscribed@[q] == old(self).subscribed@[q],
                forall|q: int| 0 <= q < n && rot_pos(rr as int, q, n as int) < k ==> {
                    &&& (#[trigger] self.joins@[q]).delivered() == old(self).joins@[q].delivered()
                    &&& self.subscribed@[q]
                    &&& !old(self).subscribed@[q] ==> extra.contains(RequestView::SubscribeFinish(old(self).producers@[q]))
                },
            decreases n - k,
        {
            let ghost extra0 = extra;
            let i = if k < n - rr { rr + k } else { k - (n - rr) };
            proof {
                assert(rot_pos(rr as int, i as int, n as int) == k);
            }
            let ghost j0 = self.joins@[i as int];
            match self.joins[i].poll() {
                JoinPoll::Pending => {
                    if !self.subscribed[i] {
                        self.subscribed.set(i, true);
                        let p = self.producers[i];
                        cx.subscribe_to_finish(p);
                        proof {
                            lemma_only_subscriptions_push(extra, old(self).producer_ids(), i as int);
                            extra = extra.push(RequestView::SubscribeFinish(p));
                            assert(extra[extra.len() - 1] == RequestView::SubscribeFinish(p));
                            assert forall|q: int| 0 <= q < n && extra0.contains(RequestView::SubscribeFinish(#[trigger] old(self).producers@[q]))
                                implies extra.contains(RequestView::SubscribeFinish(old(self).producers@[q])) by {
                                lemma_contains_after_push(extra0, RequestView::SubscribeFinish(p), RequestView::SubscribeFinish(old(self).producers@[q]));
                            }
                        }
                    }
                    proof {
                        assert forall|q: int| 0 <= q < n && rot_pos(rr as int, q, n as int) < k + 1 implies {
                            &&& (#[trigger] self.joins@[q]).delivered() == old(self).joins@[q].delivered()
                            &&& self.subscribed@[q]
                            &&& !old(self).subscribed@[q] ==> extra.contains(RequestView::SubscribeFinish(old(self).producers@[q]))
                        } by {
                            if q == i {
                                if !old(self).subscribed@[q] {
                                    assert(extra[extra.len() - 1] == RequestView::SubscribeFinish(old(self).producers@[q]));
                                }
                            } else {
                                assert(rot_pos(rr as int, q, n as int) < k);
                            }
                        }
                    }
                },
                JoinPoll::Ready(res) => {
                    let ghost gv = res;
                    match self.tx.take() {
                        Some(tx) => {
                            tx.send(Ok((i, res)));
                            proof {
                                self.got@ = self.got@.update(i as int, Some(gv));
                                self.sent@ = self.sent@.push(Ok((i, gv)));
                            }
                        },
                        None => {},
                    }
                    proof {
                        if open0 {
                            let c = self.got@;
                            assert forall|q: int| 0 <= q < n && (#[trigger] c[q]) is Some implies q == i by {}
                            assert(c[i as int] is Some);
                            assert forall|kk: int| 0 <= kk < rot_pos(rr as int, i as int, n as int) implies
                                self.joins@[#[trigger] rotate(rr as int, kk, n as int)].polls()
                                    == old(self).joins@[rotate(rr as int, kk, n as int)].polls() + 1
                                && self.joins@[rotate(rr as int, kk, n as int)].delivered()
                                    == old(self).joins@[rotate(rr as int, kk, n as int)].delivered() by {
                                let q = rotate(rr as int, kk, n as int);
                                assert(rot_pos(rr as int, q, n as int) == kk);
                            }
                        }
                    }
                    return TaskPoll::Ready;
                },
            }
            k = k + 1;
        }
        self.rr = if 1 < n - rr { rr + 1 } else { 1 - (n - rr) };
        proof {
            assert forall|q: int| 0 <= q < n implies #[trigger] self.joins@[q].polls() == old(self).joins@[q].polls() + 1 by {
                assert(rot_pos(rr as int, q, n as int) < n);
            }
            assert forall|q: int| 0 <= q < n implies {
                &&& #[trigger] self.joins@[q].delivered() == old(self).joins@[q].delivered()
                &&& self.subscribed@[q]
                &&& !old(self).subscribed@[q] ==> cx.pending().contains(RequestView::SubscribeFinish(old(self).producers@[q]))
            } by {
                assert(rot_pos(rr as int, q, n as int) < n);
                if !old(self).subscribed@[q] {
                    lemma_contains_in_concat(old(cx).pending(), extra, RequestView::SubscribeFinish(old(self).producers@[q]));
                }
            }
        }
        TaskPoll::Pending
    }
}

/// Races two handles, alternating which one is looked at first.
#[verifier::reject_recursive_types(A)]
#[verifier::reject_recursive_types(B)]
pub struct Select2Task<A, B> {
    prod_a: TaskId,
    prod_b: TaskId,
    a: Option<JoinHandle<A>>,
    b: Option<JoinHandle<B>>,
    sub_a: bool,
    sub_b: bool,
    flip: bool,
    tx: Option<JoinSender<Either<Result<A, JoinError>, Result<B, JoinError>>>>,
    /// What the left handle gave while the race was open.
    got_a: Ghost<Option<Result<A, JoinError>>>,
    /// What the right handle gave while the race was open.
    got_b: Ghost<Option<Result<B, JoinError>>>,
    /// The messages sent, oldest first.
    sent: Ghost<Seq<Result<Either<Result<A, JoinError>, Result<B, JoinError>>, JoinError>>>,
}

impl<A, B> Select2Task<A, B> {
    /// Both handles are kept; while the race is open neither has given a result.
    pub closed spec fn wf(&self) -> bool {
        &&& self.a is Some
        &&& self.b is Some
        &&& self.tx.is_some() ==> self.got_a@.is_none() && self.got_b@.is_none()
    }

    pub closed spec fn producers(&self) -> Seq<TaskId> {
        seq![self.prod_a, self.prod_b]
    }

    /// Which side the next poll looks at first (`false`: the left one).
    pub closed spec fn flipped(&self) -> bool {
        self.flip
    }

    pub closed spec fn open(&self) -> bool {
        self.tx.is_some()
    }

    /// What the left handle gave while the race was open.
    pub closed spec fn left_got(&self) -> Option<Result<A, JoinError>> {
        self.got_a@
    }

    /// What the right handle gave while the race was open.
    pub closed spec fn right_got(&self) -> Option<Result<B, JoinError>> {
        self.got_b@
    }

    /// The last result the left handle delivered, if any.
    pub closed spec fn left_delivered(&self) -> Option<Result<A, JoinError>> {
        self.a->Some_0.delivered()
    }

    /// The last result the right handle delivered, if any.
    pub closed spec fn right_delivered(&self) -> Option<Result<B, JoinError>> {
        self.b->Some_0.delivered()
    }

    /// The task has asked to be woken by the left producer.
    pub closed spec fn left_subscribed(&self) -> bool {
        self.sub_a
    }

    /// The task has asked to be woken by the right producer.
    pub closed spec fn right_subscribed(&self) -> bool {
        self.sub_b
    }

    /// How many times the left handle was polled.
    pub closed spec fn left_polls(&self) -> nat {
        self.a->Some_0.polls()
    }

    /// How many times the right handle was polled.
    pub closed spec fn right_polls(&self) -> nat {
        self.b->Some_0.polls()
    }

    /// The messages sent, oldest first.
    pub closed spec fn messages(&self) -> Seq<Result<Either<Result<A, JoinError>, Result<B, JoinError>>, JoinError>> {
        self.sent@
    }

    pub fn new(a: JoinHandle<A>, b: JoinHandle<B>, tx: JoinSender<Either<Result<A, JoinError>, Result<B, JoinError>>>) -> (t: Select2Task<A, B>)
        ensures
            t.wf(),
            t.producers() == seq![a.producer(), b.producer()],
            !t.flipped(),
            t.open(),
            t.left_got().is_none(),
            t.right_got().is_none(),
            t.messages() == Seq::<Result<Either<Result<A, JoinError>, Result<B, JoinError>>, JoinError>>::empty(),
    {
        let prod_a = a.task_id();
        let prod_b = b.task_id();
        Select2Task {
            prod_a,
            prod_b,
            a: Some(a),
            b: Some(b),
            sub_a: false,
            sub_b: false,
            flip: false,
            tx: Some(tx),
            got_a: Ghost(None),
            got_b: Ghost(None),
            sent: Ghost(Seq::empty()),
        }
    }

    /// One poll: looks at the two sides in turn, starting with the current one;
    /// the first ready side is sent (left or right) and the task is ready; a
    /// pending side gets the task subscribed to its producer (once). When neither
    /// is ready the starting side is unchanged.
    pub fn poll_with<R, X, Tr>(&mut self, cx: &mut Cx<'_, R, X, Tr>) -> (p: TaskPoll)
        requires
            old(self).wf(),
        ensures
            final(self).wf(),
            final(self).producers() == old(self).producers(),
            final(cx).same_base(old(cx)),
            p == TaskPoll::Ready ==> !final(self).open(),
            p == TaskPoll::Pending ==> final(self).flipped() == old(self).flipped(),
            exists|extra: Seq<RequestView>|
                only_subscriptions(extra, old(self).producers())
                && final(cx).pending() == old(cx).pending() + extra,
            !old(self).open() ==> final(self).messages() == old(self).messages(),
            old(self).open() ==> ({
                let l = final(self).left_got();
                let r = final(self).right_got();
                &&& l is Some ==> {
                    &&& p == TaskPoll::Ready
                    &&& l == final(self).left_delivered()
                    &&& r is None
                    &&& final(self).messages() == old(self).messages().push(Ok(Either::Left(l->Some_0)))
                    &&& old(self).flipped() ==> final(self).right_polls() == old(self).right_polls() + 1
                }
                &&& r is Some ==> {
                    &&& p == TaskPoll::Ready
                    &&& r == final(self).right_delivered()
                    &&& l is None
                    &&& final(self).messages() == old(self).messages().push(Ok(Either::Right(r->Some_0)))
                    &&& !old(self).flipped() ==> final(self).left_polls() == old(self).left_polls() + 1
                }
                &&& l is None && r is None ==> {
                    &&& p == TaskPoll::Pending
                    &&& final(self).messages() == old(self).messages()
                    &&& final(self).left_polls() == old(self).left_polls() + 1
                    &&& final(self).right_polls() == old(self).right_polls() + 1
                    &&& final(self).left_delivered() == old(self).left_delivered()
                    &&& final(self).right_delivered() == old(self).right_delivered()
                    &&& final(self).left_subscribed()
                    &&& final(self).right_subscribed()
                    &&& !old(self).left_subscribed() ==> final(cx).pending().contains(RequestView::SubscribeFinish(old(self).producers()[0]))
                    &&& !old(self).right_subscribed() ==> final(cx).pending().contains(RequestView::SubscribeFinish(old(self).producers()[1]))
                }
                &&& l is Some && old(self).flipped() ==> final(self).right_delivered() == old(self).right_delivered()
                &&& r is Some && !old(self).flipped() ==> final(self).left_delivered() == old(self).left_delivered()
            }),
    {
        let ghost mut extra: Seq<RequestView> = Seq::empty();
        let ghost open0 = self.tx.is_some();
        let mut round: usize = 0;
        while round < 2
            invariant
                old(self).wf(),
                self.wf(),
                round <= 2,
                self.prod_a == old(self).prod_a,
                self.prod_b == old(self).prod_b,
                self.flip == (if round == 1 { !old(self).flip } else { old(self).flip }),
                cx.same_base(old(cx)),
                only_subscriptions(extra, old(self).producers()),
                cx.pending() == old(cx).pending() + extra,
                self.tx.is_some() == open0,
                open0 == old(self).tx.is_some(),
                self.sent@ == old(self).sent@,
                self.got_a@ == old(self).got_a@,
                self.got_b@ == old(self).got_b@,
                self.a->Some_0.delivered() == old(self).a->Some_0.delivered(),
                self.b->Some_0.delivered() == old(self).b->Some_0.delivered(),
                self.a->Some_0.polls() == old(self).a->Some_0.polls()
                    + (if (round >= 1 && !old(self).flip) || round == 2 { 1nat } else { 0nat }),
                self.b->Some_0.polls() == old(self).b->Some_0.polls()
                    + (if (round >= 1 && old(self).flip) || round == 2 { 1nat } else { 0nat }),
                if (round >= 1 && !old(self).flip) || round == 2 {
                    self.sub_a && (!old(self).sub_a ==> extra.contains(RequestView::SubscribeFinish(old(self).prod_a)))
                } else {
                    self.sub_a == old(self).sub_a
                },
                if (round >= 1 && old(self).flip) || round == 2 {
                    self.sub_b && (!old(self).sub_b ==> extra.contains(RequestView::SubscribeFinish(old(self).prod_b)))
                } else {
                    self.sub_b == old(self).sub_b
                },
            decreases 2 - round,
        {
            let ghost extra0 = extra;
            if !self.flip {
                match &mut self.a {
                    Some(a) => {
                        match a.poll() {
                            JoinPoll::Pending => {
                                if !self.sub_a {
                                    self.sub_a = true;
                                    let p = self.prod_a;
                                    cx.subscribe_to_finish(p);
                                    proof {
                                        lemma_only_subscriptions_push(extra, old(self).producers(), 0);
                                        extra = extra.push(RequestView::SubscribeFinish(p));
                                        assert(extra[extra.len() - 1] == RequestView::SubscribeFinish(p));
                                        if extra0.contains(RequestView::SubscribeFinish(old(self).prod_b)) {
                                            lemma_contains_after_push(extra0, RequestView::SubscribeFinish(p), RequestView::SubscribeFinish(old(self).prod_b));
                                        }
                                    }
                                }
                            },
                            JoinPoll::Ready(res) => {
                                let ghost gv = res;
                                match self.tx.take() {
                                    Some(tx) => {
                                        tx.send(Ok(Either::Left(res)));
                                        proof {
                                            self.got_a@ = Some(gv);
                                            self.sent@ = self.sent@.push(Ok(Either::Left(gv)));
                                        }
                                    },
                                    None => {},
                                }
                                return TaskPoll::Ready;
                            },
                        }
                    },
                    None => {},
                }
            } else {
                match &mut self.b {
                    Some(b) => {
                        match b.poll() {
                            JoinPoll::Pending => {
                                if !self.sub_b {
                                    self.sub_b = true;
                                    let p = self.prod_b;
                                    cx.subscribe_to_finish(p);
                                    proof {
                                        lemma_only_subscriptions_push(extra, old(self).producers(), 1);
                                        extra = extra.push(RequestView::SubscribeFinish(p));
                                        assert(extra[extra.len() - 1] == RequestView::SubscribeFinish(p));
                                        if extra0.contains(RequestView::SubscribeFinish(old(self).prod_a)) {
                                            lemma_contains_after_push(extra0, RequestView::SubscribeFinish(p), RequestView::SubscribeFinish(old(self).prod_a));
                                        }
                                    }
                                }
                            },
                            JoinPoll::Ready(res) => {
                                let ghost gv = res;
                                match self.tx.take() {
                                    Some(tx) => {
                                        tx.send(Ok(Either::Right(res)));
                                        proof {
                                            self.got_b@ = Some(gv);
                                            self.sent@ = self.sent@.push(Ok(Either::Right(gv)));
                                        }
                                    },
                                    None => {},
                                }
                                return TaskPoll::Ready;
                            },
                        }
                    },
                    None => {},
                }
            }
            self.flip = !self.flip;
            round = round + 1;
        }
        proof {
            if !old(self).sub_a {
                lemma_contains_in_concat(old(cx).pending(), extra, RequestView::SubscribeFinish(old(self).prod_a));
            }
            if !old(self).sub_b {
                lemma_contains_in_concat(old(cx).pending(), extra, RequestView::SubscribeFinish(old(self).prod_b));
            }
        }
        TaskPoll::Pending
    }
}

// ----------------------------- map -----------------------------

/// Turns the result of a join into an output, given the poll context.
pub trait JoinMapper<T, Out, R, X, Tr>: Sized {
    fn map(self, res: Result<T, JoinError>, cx: &mut Cx<'_, R, X, Tr>) -> Out;
}

/// Waits for one handle and maps its result.
#[verifier::reject_recursive_types(T)]
#[verifier::reject_recursive_types(Out)]
pub struct MapJoinTask<T, Out, M> {
    producer: TaskId,
    join: Option<JoinHandle<T>>,
    tx: Option<JoinSender<Out>>,
    f: Option<M>,
    subscribed: bool,
    /// The handle's result, once it came.
    got: Ghost<Option<Result<T, JoinError>>>,
    /// What the mapper made of it.
    out: Ghost<Option<Out>>,
    /// The messages sent, oldest first.
    sent: Ghost<Seq<Result<Out, JoinError>>>,
}

impl<T, Out, M> MapJoinTask<T, Out, M> {
    /// The handle is kept; the mapper is there exactly while the result has not
    /// come; while it has not, nothing has been sent.
    pub closed spec fn wf(&self) -> bool {
        &&& self.join is Some
        &&& self.f.is_some() <==> self.got@.is_none()
        &&& self.f.is_some() ==> self.out@.is_none() && self.tx.is_some() && self.sent@.len() == 0
    }

    pub closed spec fn producer_id(&self) -> TaskId {
        self.producer
    }

    /// The result has not come yet.
    pub closed spec fn waiting(&self) -> bool {
        self.f.is_some()
    }

    pub closed spec fn is_subscribed(&self) -> bool {
        self.subscribed
    }

    /// The handle's result, once it came.
    pub closed spec fn result_got(&self) -> Option<Result<T, JoinError>> {
        self.got@
    }

    /// What the mapper made of the result.
    pub closed spec fn mapped(&self) -> Option<Out> {
        self.out@
    }

    /// The last result the handle delivered, if any.
    pub closed spec fn handle_delivered(&self) -> Option<Result<T, JoinError>> {
        self.join->Some_0.delivered()
    }

    /// How many times the handle was polled.
    pub closed spec fn handle_polls(&self) -> nat {
        self.join->Some_0.polls()
    }

    /// The messages sent, oldest first.
    pub closed spec fn messages(&self) -> Seq<Result<Out, JoinError>> {
        self.sent@
    }

    pub fn new(join: JoinHandle<T>, tx: JoinSender<Out>, f: M) -> (t: MapJoinTask<T, Out, M>)
        ensures
            t.wf(),
            t.waiting(),
            !t.is_subscribed(),
            t.producer_id() == join.producer(),
            t.messages() == Seq::<Result<Out, JoinError>>::empty(),
    {
        let producer = join.task_id();
        MapJoinTask {
            producer,
            join: Some(join),
            tx: Some(tx),
            f: Some(f),
            subscribed: false,
            got: Ghost(None),
            out: Ghost(None),
            sent: Ghost(Seq::empty()),
        }
    }

    /// One poll: once the handle is ready its result is handed to the mapper,
    /// what the mapper returns is sent, and the task is ready; while it is pending
    /// the task subscribes to the producer (once). A task whose result already
    /// came is ready.
    pub fn poll_with<R, X, Tr>(&mut self, cx: &mut Cx<'_, R, X, Tr>) -> (p: TaskPoll)
        where M: JoinMapper<T, Out, R, X, Tr>
        requires
            old(self).wf(),
        ensures
            final(self).wf(),
            final(self).producer_id() == old(self).producer_id(),
            !old(self).waiting() ==> p == TaskPoll::Ready && final(cx).pending() == old(cx).pending()
                && final(self).messages() == old(self).messages(),
            p == TaskPoll::Ready ==> !final(self).waiting(),
            p == TaskPoll::Pending ==> final(self).is_subscribed() && final(cx).same_base(old(cx))
                && final(cx).pending() == if old(self).is_subscribed() {
                    old(cx).pending()
                } else {
                    old(cx).pending().push(RequestView::SubscribeFinish(old(self).producer_id()))
                },
            old(self).waiting() ==> {
                &&& final(self).handle_polls() == old(self).handle_polls() + 1
                &&& p == TaskPoll::Pending <==> final(self).waiting()
                &&& p == TaskPoll::Pending ==> final(self).messages() == old(self).messages()
                &&& p == TaskPoll::Ready ==> {
                    &&& final(self).result_got() == final(self).handle_delivered()
                    &&& final(self).result_got() is Some
                    &&& final(self).mapped() is Some
                    &&& final(self).messages() == old(self).messages().push(Ok(final(self).mapped()->Some_0))
                }
            },
    {
        if self.f.is_none() {
            return TaskPoll::Ready;
        }
        match &mut self.join {
            None => { return TaskPoll::Ready; },
            Some(join) => {
                match join.poll() {
                    JoinPoll::Pending => {
                        if !self.subscribed {
                            self.subscribed = true;
                            let p = self.producer;
                            cx.subscribe_to_finish(p);
                        }
                        TaskPoll::Pending
                    },
                    JoinPoll::Ready(res) => {
                        let ghost gv = res;
                        let mut f: Option<M> = None;
                        std::mem::swap(&mut f, &mut self.f);
                        proof {
                            self.got@ = Some(gv);
                        }
                        match f {
                            Some(f) => {
                                let out = f.map(res, cx);
                                let ghost ov = out;
                                match self.tx.take() {
                                    Some(tx) => {
                                        tx.send(Ok(out));
                                        proof {
                                            self.sent@ = self.sent@.push(Ok(ov));
                                        }
                                    },
                                    None => {},
                                }
                                proof {
                                    self.out@ = Some(ov);
                                }
                            },
                            None => {},
                        }
                        TaskPoll::Ready
                    },
                }
            },
        }
    }
}

} // verus!
