//! A value shown by the user interface that the background worker may
//! replace: it waits on a channel for the new value.

use std::sync::mpsc::Receiver;
use vstd::prelude::*;

verus! {

#[verifier::external_type_specification]
#[verifier::external_body]
#[verifier::reject_recursive_types(T)]
pub struct ExReceiver<T>(Receiver<T>);

/// What a look at the channel found.
pub enum RecvOutcome<T> {
    /// A value had arrived.
    Received(T),
    /// Nothing has arrived yet.
    Empty,
    /// The sending side is gone; nothing will arrive.
    Disconnected,
}

/// The receiving end of a request sent to the background worker.
#[verifier::reject_recursive_types(T)]
pub struct LinkReceiver<T> {
    rx: Receiver<T>,
}

/// `Receiver::try_recv`: a value that was sent, or word that nothing is
/// waiting, or that the sender is gone. Which of them comes back depends on
/// the other threads, so nothing is stated of it.
#[verifier::external_body]
fn try_recv_outcome<T>(rx: &Receiver<T>) -> (r: RecvOutcome<T>) {
    match rx.try_recv() {
        Ok(v) => RecvOutcome::Received(v),
        Err(std::sync::mpsc::TryRecvError::Empty) => RecvOutcome::Empty,
        Err(std::sync::mpsc::TryRecvError::Disconnected) => RecvOutcome::Disconnected,
    }
}

impl<T> LinkReceiver<T> {
    /// The channel this end receives from.
    pub closed spec fn channel(&self) -> Receiver<T> {
        self.rx
    }

    /// The receiving end that reads from `rx`.
    pub fn new(rx: Receiver<T>) -> (r: Self)
        ensures
            r.channel() == rx,
    {
        LinkReceiver { rx }
    }

    /// Looks at the channel without waiting.
    pub fn try_recv(&self) -> RecvOutcome<T> {
        try_recv_outcome(&self.rx)
    }
}

/// A value, and possibly a pending update of it.
#[verifier::reject_recursive_types(T)]
pub struct UIParameter<T> {
    pending_update_rx: Option<LinkReceiver<T>>,
    value: T,
}

impl<T> UIParameter<T> {
    /// The current value.
    pub closed spec fn spec_value(&self) -> T {
        self.value
    }

    /// An update is awaited.
    pub closed spec fn is_pending(&self) -> bool {
        self.pending_update_rx is Some
    }

    /// A parameter with the given value and no update awaited.
    pub fn new(val: T) -> (r: Self)
        ensures
            r.spec_value() == val,
            !r.is_pending(),
    {
        UIParameter { pending_update_rx: None, value: val }
    }

    /// Takes in what a look at the channel found: a received value replaces
    /// the current one, a closed channel ends the wait with the value
    /// unchanged, and nothing changes while the channel is empty. Returns
    /// whether the wait ended.
    pub fn apply_outcome(&mut self, outcome: RecvOutcome<T>) -> (r: bool)
        requires
            old(self).is_pending(),
        ensures
            match outcome {
                RecvOutcome::Received(v) => r && !final(self).is_pending() && final(self).spec_value() == v,
                RecvOutcome::Empty => !r && final(self).is_pending() && final(self).spec_value() == old(self).spec_value(),
                RecvOutcome::Disconnected => r && !final(self).is_pending() && final(self).spec_value() == old(self).spec_value(),
            },
    {
        match outcome {
            RecvOutcome::Received(v) => {
                self.value = v;
                self.pending_update_rx = None;
                true
            },
            RecvOutcome::Empty => false,
            RecvOutcome::Disconnected => {
                self.pending_update_rx = None;
                true
            },
        }
    }

    /// Looks for the awaited update without waiting. Without a pending
    /// update nothing happens and `false` is returned; otherwise `true` says
    /// the wait ended (the value may have been replaced by the received
    /// one), and `false` that it goes on with the value unchanged.
    pub fn try_update(&mut self) -> (r: bool)
        ensures
            !old(self).is_pending() ==> !r && !final(self).is_pending() && final(self).spec_value() == old(self).spec_value(),
            old(self).is_pending() && r ==> !final(self).is_pending(),
            old(self).is_pending() && !r ==> final(self).is_pending() && final(self).spec_value() == old(self).spec_value(),
            final(self).is_pending() == pending_after_call(old(self).is_pending(), ParamCall::TryUpdate(r)),
    {
        let outcome = match &self.pending_update_rx {
            Some(rx) => rx.try_recv(),
            None => {
                return false;
            },
        };
        self.apply_outcome(outcome)
    }

    /// Whether no update is awaited.
    pub fn is_up_to_date(&self) -> (r: bool)
        ensures
            r == !self.is_pending(),
    {
        self.pending_update_rx.is_none()
    }

    /// Awaits an update on the given channel, in place of any earlier one.
    pub fn set_recv(&mut self, rx: LinkReceiver<T>)
        ensures
            final(self).is_pending(),
            final(self).spec_value() == old(self).spec_value(),
            final(self).is_pending() == pending_after_call(old(self).is_pending(), ParamCall::SetRecv),
    {
        self.pending_update_rx = Some(rx);
    }

    /// The value, for reading.
    pub fn value(&self) -> (r: &T)
        ensures
            *r == self.spec_value(),
    {
        &self.value
    }

    /// The value, for changing in place; a pending update stays pending.
    pub fn value_mut(&mut self) -> (r: &mut T)
        ensures
            *r == old(self).spec_value(),
            final(self).spec_value() == *final(r),
            final(self).is_pending() == old(self).is_pending(),
            final(self).is_pending() == pending_after_call(old(self).is_pending(), ParamCall::ValueMut),
    {
        &mut self.value
    }

    /// Replaces the value; a pending update stays pending.
    pub fn set_value(&mut self, val: T)
        ensures
            final(self).spec_value() == val,
            final(self).is_pending() == old(self).is_pending(),
            final(self).is_pending() == pending_after_call(old(self).is_pending(), ParamCall::SetValue),
    {
        self.value = val;
    }
}

impl<T: Default> Default for UIParameter<T> {
    /// The default value, with no update awaited.
    fn default() -> (r: Self)
        ensures
            !r.is_pending(),
    {
        UIParameter::new(T::default())
    }
}

impl<T: Clone> Clone for UIParameter<T> {
    /// A copy of the value, without the pending update.
    fn clone(&self) -> (r: Self)
        ensures
            !r.is_pending(),
            cloned(self.spec_value(), r.spec_value()),
    {
        UIParameter { pending_update_rx: None, value: self.value.clone() }
    }
}

/// A call on a parameter, as far as it matters for whether an update is
/// awaited: `TryUpdate` with the answer it gave.
#[derive(Clone, Copy, Debug, PartialEq, Eq, Structural)]
pub enum ParamCall {
    SetRecv,
    TryUpdate(bool),
    ValueMut,
    SetValue,
}

/// Whether an update is awaited after the call.
pub open spec fn pending_after_call(pending: bool, call: ParamCall) -> bool {
    match call {
        ParamCall::SetRecv => true,
        ParamCall::TryUpdate(r) => pending && !r,
        ParamCall::ValueMut => pending,
        ParamCall::SetValue => pending,
    }
}

/// Whether an update is awaited after the calls, on a parameter that was
/// made by `new`, `default` or `clone` (none awaited).
pub open spec fn pending_after(calls: Seq<ParamCall>) -> bool
    decreases calls.len(),
{
    if calls.len() == 0 {
        false
    } else {
        pending_after_call(pending_after(calls.drop_last()), calls.last())
    }
}

/// No `try_update` after position `i` answered `true`.
pub open spec fn no_update_after(calls: Seq<ParamCall>, i: int) -> bool {
    forall|j: int| i < j < calls.len() ==> #[trigger] calls[j] != ParamCall::TryUpdate(true)
}

/// Some `set_recv` was not yet followed by a `try_update` that answered
/// `true`.
pub open spec fn update_awaited(calls: Seq<ParamCall>) -> bool {
    exists|i: int| 0 <= i < calls.len() && calls[i] == ParamCall::SetRecv && #[trigger] no_update_after(calls, i)
}

proof fn lemma_no_update_after_step(calls: Seq<ParamCall>, i: int)
    requires
        calls.len() > 0,
        0 <= i < calls.len() - 1,
    ensures
        no_update_after(calls, i) == (no_update_after(calls.drop_last(), i) && calls.last()
            != ParamCall::TryUpdate(true)),
{
    let prev = calls.drop_last();
    if no_update_after(calls, i) {
        assert forall|j: int| i < j < prev.len() implies #[trigger] prev[j] != ParamCall::TryUpdate(true) by {
            assert(prev[j] == calls[j]);
        }
        assert(calls[calls.len() - 1] != ParamCall::TryUpdate(true));
    }
    if no_update_after(prev, i) && calls.last() != ParamCall::TryUpdate(true) {
        assert forall|j: int| i < j < calls.len() implies #[trigger] calls[j] != ParamCall::TryUpdate(true) by {
            if j < prev.len() {
                assert(prev[j] == calls[j]);
            }
        }
    }
}

/// A parameter is not up to date exactly when some `set_recv` on it was not
/// yet followed by a `try_update` that answered `true`.
pub proof fn lemma_pending_iff_awaited(calls: Seq<ParamCall>)
    ensures
        pending_after(calls) == update_awaited(calls),
    decreases calls.len(),
{
    if calls.len() > 0 {
        let prev = calls.drop_last();
        let n = calls.len() - 1;
        lemma_pending_iff_awaited(prev);
        if calls.last() == ParamCall::SetRecv {
            assert(no_update_after(calls, n));
        } else {
            if update_awaited(prev) && calls.last() != ParamCall::TryUpdate(true) {
                let i = choose|i: int| 0 <= i < prev.len() && prev[i] == ParamCall::SetRecv && #[trigger] no_update_after(prev, i);
                lemma_no_update_after_step(calls, i);
                assert(calls[i] == prev[i]);
            }
            if update_awaited(calls) {
                let i = choose|i: int| 0 <= i < calls.len() && calls[i] == ParamCall::SetRecv && #[trigger] no_update_after(calls, i);
                assert(i != n);
                lemma_no_update_after_step(calls, i);
                assert(prev[i] == calls[i]);
            }
        }
    }
}

} // verus!
