//! A one-shot channel: one value travels from a sender to a receiver that
//! polls for it, and a receiver that found nothing is woken when it arrives.
//!
//! The waker is opaque here: it is stored under a type parameter `W`, and the
//! sender hands back the registered waker for its caller to wake.
use vstd::prelude::*;
use vstd::rwlock::RwLock;
use vstd::rwlock::RwLockPredicate;
use std::sync::Arc;
use crate::poll::Poll;

verus! {

/// The state of a channel after a send of `value` from the state
/// (`value0`, `waker0`): the value is stored and the registered waker, if any,
/// is taken out to be woken. Returns the new value slot, the new waker slot
/// and the waker to wake.
pub open spec fn send_model<T, W>(value0: Option<T>, waker0: Option<W>, value: T) -> (
    Option<T>,
    Option<W>,
    Option<W>,
) {
    (Some(value), None, waker0)
}

/// The state of a channel after the receiver polls it with `waker` from the
/// state (`value0`, `waker0`): a stored value is taken out and returned;
/// otherwise `waker` is registered, replacing any earlier one, and the poll is
/// pending. Returns the new value slot, the new waker slot and the answer.
pub open spec fn poll_model<T, W>(value0: Option<T>, waker0: Option<W>, waker: W) -> (
    Option<T>,
    Option<W>,
    Poll<T>,
) {
    match value0 {
        Some(v) => (None, waker0, Poll::Ready(v)),
        None => (None, Some(waker), Poll::Pending),
    }
}

/// A value and a registered waker never wait side by side: whenever a value
/// is stored, the waker that was waiting for it has been handed out.
pub open spec fn slots_wf<T, W>(value: Option<T>, waker: Option<W>) -> bool {
    !(value is Some && waker is Some)
}

/// The shared state of a one-shot channel.
pub struct OneshotData<T, W> {
    value: Option<T>,
    waker: Option<W>,
    history: Ghost<Seq<OneshotEvent<T, W>>>,
}

impl<T, W> OneshotData<T, W> {
    /// The value sent and not yet received.
    pub closed spec fn value_spec(&self) -> Option<T> {
        self.value
    }

    /// The waker of a receiver that polled and found nothing.
    pub closed spec fn waker_spec(&self) -> Option<W> {
        self.waker
    }

    /// The sends and polls that this state has been through, oldest first.
    pub closed spec fn history(&self) -> Seq<OneshotEvent<T, W>> {
        self.history@
    }

    /// See [`slots_wf`].
    pub open spec fn wf(&self) -> bool {
        slots_wf(self.value_spec(), self.waker_spec())
    }

    /// The slots are what the channel's history leaves in a new channel:
    /// nothing changes them but a send or a poll.
    pub open spec fn follows_history(&self) -> bool {
        (self.value_spec(), self.waker_spec()) == oneshot_after(self.history())
    }

    /// A channel with nothing sent and no receiver waiting.
    pub fn new() -> (d: Self)
        ensures
            d.value_spec() is None,
            d.waker_spec() is None,
            d.history() == Seq::<OneshotEvent<T, W>>::empty(),
            d.wf(),
            d.follows_history(),
    {
        OneshotData { value: None, waker: None, history: Ghost(Seq::empty()) }
    }

    /// Stores `value` and hands back the waker of a receiver that is waiting
    /// for it, if one is.
    pub fn send(&mut self, value: T) -> (woken: Option<W>)
        ensures
            (final(self).value_spec(), final(self).waker_spec(), woken) == send_model(
                old(self).value_spec(),
                old(self).waker_spec(),
                value,
            ),
            final(self).history() == old(self).history().push(OneshotEvent::Send(value)),
            old(self).follows_history() ==> final(self).follows_history(),
    {
        self.value = Some(value);
        let ghost h = self.history@;
        self.history = Ghost(h.push(OneshotEvent::Send(value)));
        proof {
            assert(self.history@.drop_last() =~= h);
        }
        self.waker.take()
    }

    /// Takes out the value if one was sent; otherwise registers `waker` to be
    /// woken by the send and answers pending.
    pub fn poll(&mut self, waker: W) -> (r: Poll<T>)
        ensures
            (final(self).value_spec(), final(self).waker_spec(), r) == poll_model(
                old(self).value_spec(),
                old(self).waker_spec(),
                waker,
            ),
            final(self).history() == old(self).history().push(OneshotEvent::Poll(waker)),
            old(self).follows_history() ==> final(self).follows_history(),
    {
        let ghost h = self.history@;
        self.history = Ghost(h.push(OneshotEvent::Poll(waker)));
        proof {
            assert(self.history@.drop_last() =~= h);
        }
        match self.value.take() {
            Some(v) => Poll::Ready(v),
            None => {
                self.waker = Some(waker);
                Poll::Pending
            },
        }
    }
}

/// The invariant kept by the lock that the two ends of a channel share.
pub struct OneshotInv;

impl<T, W> RwLockPredicate<OneshotData<T, W>> for OneshotInv {
    open spec fn inv(self, d: OneshotData<T, W>) -> bool {
        d.wf() && d.follows_history()
    }
}

/// The sending end of a one-shot channel.
pub struct OneshotTx<T, W> {
    inner: Arc<RwLock<OneshotData<T, W>, OneshotInv>>,
}

/// The receiving end of a one-shot channel.
pub struct OneshotRx<T, W> {
    inner: Arc<RwLock<OneshotData<T, W>, OneshotInv>>,
}

impl<T, W> OneshotTx<T, W> {
    /// The lock that holds the channel's state.
    pub closed spec fn channel(&self) -> RwLock<OneshotData<T, W>, OneshotInv> {
        *self.inner
    }

    /// Sends `value`, which uses up the sender, and hands back the waker of
    /// the receiver if it is waiting, to be woken by the caller.
    ///
    /// The state is changed under the channel's lock as
    /// [`OneshotData::send`] states; which waker comes back depends on how the
    /// receiver's polls interleave with this call.
    pub fn send(self, value: T) -> (woken: Option<W>) {
        let (mut data, handle) = self.inner.acquire_write();
        let woken = data.send(value);
        handle.release_write(data);
        woken
    }
}

impl<T, W> OneshotRx<T, W> {
    /// The lock that holds the channel's state.
    pub closed spec fn channel(&self) -> RwLock<OneshotData<T, W>, OneshotInv> {
        *self.inner
    }

    /// Polls for the value: takes it out if it was sent, and otherwise
    /// registers `waker` to be woken by the send and answers pending.
    ///
    /// The state is changed under the channel's lock as
    /// [`OneshotData::poll`] states; the answer depends on whether the
    /// sender's call came first.
    pub fn poll(&self, waker: W) -> (r: Poll<T>) {
        let (mut data, handle) = self.inner.acquire_write();
        let r = data.poll(waker);
        handle.release_write(data);
        r
    }
}

/// A new one-shot channel: its two ends share one state, with nothing sent
/// and no receiver waiting.
pub fn oneshot<T, W>() -> (ends: (OneshotTx<T, W>, OneshotRx<T, W>))
    ensures
        ends.0.channel() == ends.1.channel(),
        ends.0.channel().pred() == OneshotInv,
{
    let data = OneshotData::new();
    let inner = Arc::new(RwLock::new(data, Ghost(OneshotInv)));
    (OneshotTx { inner: inner.clone() }, OneshotRx { inner })
}

/// A fresh channel satisfies [`slots_wf`], and a send and a poll each keep it.
pub proof fn law_slots_stay_wf<T, W>(value0: Option<T>, waker0: Option<W>, value: T, waker: W)
    requires
        slots_wf(value0, waker0),
    ensures
        slots_wf(None::<T>, None::<W>),
        slots_wf(send_model(value0, waker0, value).0, send_model(value0, waker0, value).1),
        slots_wf(poll_model(value0, waker0, waker).0, poll_model(value0, waker0, waker).1),
{
}

/// What is sent is received: a poll after a send answers with the value sent,
/// whatever state the channel was in.
pub proof fn law_send_then_poll_receives<T, W>(
    value0: Option<T>,
    waker0: Option<W>,
    value: T,
    waker: W,
)
    ensures
        ({
            let (v1, w1, _) = send_model(value0, waker0, value);
            poll_model(v1, w1, waker).2 == Poll::<T>::Ready(value)
        }),
{
}

/// No wake-up is lost: when the receiver polled before the send and found
/// nothing, the send hands back the waker of that poll.
pub proof fn law_pending_poll_is_woken_by_send<T, W>(
    waker0: Option<W>,
    waker: W,
    value: T,
)
    ensures
        ({
            let (v1, w1, r) = poll_model(None::<T>, waker0, waker);
            &&& r == Poll::<T>::Pending
            &&& send_model(v1, w1, value).2 == Some(waker)
        }),
{
}

/// The value is received once: a second poll after the one that received it
/// answers pending.
pub proof fn law_value_received_once<T, W>(value: T, waker0: Option<W>, waker1: W, waker2: W)
    ensures
        ({
            let (v1, w1, r1) = poll_model(Some(value), waker0, waker1);
            &&& r1 == Poll::Ready(value)
            &&& poll_model(v1, w1, waker2).2 == Poll::<T>::Pending
        }),
{
}

/// One call on a channel's state over its life.
pub enum OneshotEvent<T, W> {
    /// The sender sends this value.
    Send(T),
    /// The receiver polls with this waker.
    Poll(W),
}

/// The channel's slots after the calls `evs`, from a new channel.
pub open spec fn oneshot_after<T, W>(evs: Seq<OneshotEvent<T, W>>) -> (Option<T>, Option<W>)
    decreases evs.len(),
{
    if evs.len() == 0 {
        (None, None)
    } else {
        let (v, w) = oneshot_after(evs.drop_last());
        match evs.last() {
            OneshotEvent::Send(x) => {
                let (v1, w1, _) = send_model(v, w, x);
                (v1, w1)
            },
            OneshotEvent::Poll(wk) => {
                let (v1, w1, _) = poll_model(v, w, wk);
                (v1, w1)
            },
        }
    }
}

/// How many sends `evs` holds.
pub open spec fn sends<T, W>(evs: Seq<OneshotEvent<T, W>>) -> nat
    decreases evs.len(),
{
    if evs.len() == 0 {
        0
    } else {
        sends(evs.drop_last()) + (if evs.last() is Send {
            1nat
        } else {
            0nat
        })
    }
}

proof fn lemma_sends_positive<T, W>(evs: Seq<OneshotEvent<T, W>>, i: int)
    requires
        0 <= i < evs.len(),
        evs[i] is Send,
    ensures
        sends(evs) >= 1,
    decreases evs.len(),
{
    if i < evs.len() - 1 {
        lemma_sends_positive(evs.drop_last(), i);
    }
}

/// Over a channel's whole life, with the one send that its sender allows, a
/// poll answers with `v` exactly when `v` was sent and no poll came after the
/// send (the first poll after the send is the one that receives it);
/// otherwise it answers pending and its waker replaces any one registered
/// before.
pub proof fn law_poll_ready_iff_unreceived_send<T, W>(evs: Seq<OneshotEvent<T, W>>, waker: W, v: T)
    requires
        sends(evs) <= 1,
    ensures
        ({
            let (value, registered) = oneshot_after(evs);
            let (_, registered1, answer) = poll_model(value, registered, waker);
            &&& answer == Poll::Ready(v) <==> exists|i: int|
                0 <= i < evs.len() && evs[i] == OneshotEvent::<T, W>::Send(v) && forall|j: int|
                    i < j < evs.len() ==> !(#[trigger] evs[j] is Poll)
            &&& answer == Poll::<T>::Pending ==> registered1 == Some(waker)
        }),
{
    let n = evs.len() as int;
    if n > 0 {
        if exists|i: int|
            0 <= i < n && evs[i] == OneshotEvent::<T, W>::Send(v) && forall|j: int|
                i < j < n ==> !(#[trigger] evs[j] is Poll) {
            let i = choose|i: int|
                0 <= i < n && evs[i] == OneshotEvent::<T, W>::Send(v) && forall|j: int|
                    i < j < n ==> !(#[trigger] evs[j] is Poll);
            if i < n - 1 {
                assert(!(evs[n - 1] is Poll));
                assert(evs.drop_last()[i] == evs[i]);
                lemma_sends_positive(evs.drop_last(), i);
                assert(false);
            }
        }
        match evs.last() {
            OneshotEvent::Send(x) => {
                assert(evs[n - 1] == OneshotEvent::<T, W>::Send(x));
            },
            OneshotEvent::Poll(_) => {},
        }
    }
}

/// A poll that answers pending registers its own waker, whatever came
/// before it in the channel's history, and the send that follows hands that
/// waker back to be woken: the latest waiting receiver is always the one
/// woken.
pub proof fn law_pending_poll_registers_its_waker<T, W>(
    history: Seq<OneshotEvent<T, W>>,
    waker: W,
    value: T,
)
    ensures
        ({
            let (v0, w0) = oneshot_after(history);
            let after = oneshot_after(history.push(OneshotEvent::Poll(waker)));
            poll_model(v0, w0, waker).2 == Poll::<T>::Pending ==> {
                &&& after.1 == Some(waker)
                &&& send_model(after.0, after.1, value).2 == Some(waker)
            }
        }),
{
    assert(history.push(OneshotEvent::<T, W>::Poll(waker)).drop_last() =~= history);
}

} // verus!
