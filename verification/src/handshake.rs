//! The acknowledgement that the accepting side of a connection sends back to
//! the connecting one.
use tokio::sync::oneshot;
use vstd::prelude::*;

verus! {

/// The sending half `tokio::sync::oneshot::Sender`.
#[verifier::external_type_specification]
#[verifier::external_body]
#[verifier::reject_recursive_types(T)]
pub struct ExSender<T>(oneshot::Sender<T>);

/// The receiving half `tokio::sync::oneshot::Receiver`.
#[verifier::external_type_specification]
#[verifier::external_body]
#[verifier::reject_recursive_types(T)]
pub struct ExReceiver<T>(oneshot::Receiver<T>);

/// The error `tokio::sync::oneshot::error::RecvError` of a receiving half whose
/// sender is gone.
#[verifier::external_type_specification]
#[verifier::external_body]
pub struct ExRecvError(oneshot::error::RecvError);

/// `Sender::send` hands the value back exactly if it was not sent, which is
/// when the receiver is gone. Whether the receiver is there is not said.
pub assume_specification<T>[ oneshot::Sender::<T>::send ](sender: oneshot::Sender<T>, t: T) -> (
    result: Result<(), T>)
    ensures
        result matches Err(value) ==> value == t,
;

/// The half by which a connection is acknowledged.
pub struct AckSender {
    sender: oneshot::Sender<()>,
    channel: Ghost<int>,
}

/// The half on which the acknowledgement arrives.
pub struct AckReceiver {
    receiver: oneshot::Receiver<()>,
    channel: Ghost<int>,
}

impl AckSender {
    /// The channel that the half belongs to.
    pub closed spec fn channel(self) -> int {
        self.channel@
    }

    /// The half of the outside crate.
    pub closed spec fn inner(self) -> oneshot::Sender<()> {
        self.sender
    }

    /// Acknowledges the connection. Whether the peer is still there to be told
    /// is for the outcome to say.
    pub fn send(self) -> (ack: Ack)
        ensures
            ack.channel() == self.channel(),
            ack.answers(self),
    {
        let result = self.sender.send(());
        Ack { told: Ack::is_told(&result), channel: self.channel }
    }
}

/// The outcome of an acknowledgement.
pub struct Ack {
    told: bool,
    channel: Ghost<int>,
}

impl Ack {
    /// The channel that the acknowledgement went over.
    pub closed spec fn channel(self) -> int {
        self.channel@
    }

    /// The peer was still there to be told.
    pub closed spec fn spec_told(self) -> bool {
        self.told
    }

    /// It is the outcome of an acknowledgement that was sent by `sender`: the
    /// peer was told exactly if sending succeeded.
    pub open spec fn answers(self, sender: AckSender) -> bool {
        exists|result: Result<(), ()>| #[trigger]
            call_ensures(oneshot::Sender::<()>::send, (sender.inner(), ()), result)
                && self.spec_told() == (result is Ok)
    }

    /// Tells from what sending gave whether the peer was still there to be
    /// told: nothing came back then.
    pub fn is_told(result: &Result<(), ()>) -> (told: bool)
        ensures
            told == (result is Ok),
    {
        match result {
            Ok(()) => true,
            Err(()) => false,
        }
    }

    /// Tells whether the peer was still there to be told.
    pub fn told(&self) -> (told: bool)
        ensures
            told == self.spec_told(),
    {
        self.told
    }
}

impl AckReceiver {
    /// The channel that the half belongs to.
    pub closed spec fn channel(self) -> int {
        self.channel@
    }

    /// The half of the outside crate.
    pub closed spec fn inner(self) -> oneshot::Receiver<()> {
        self.receiver
    }

    /// Returns the half of the outside crate, by which the acknowledgement is
    /// waited for.
    pub fn into_inner(self) -> (receiver: oneshot::Receiver<()>)
        ensures
            receiver == self.inner(),
    {
        self.receiver
    }
}

/// Calls `oneshot::channel`: the two halves belong to one channel.
#[verifier::external_body]
pub(crate) fn ack_channel() -> (halves: (AckSender, AckReceiver))
    ensures
        halves.0.channel() == halves.1.channel(),
{
    let (sender, receiver) = oneshot::channel();
    let channel: Ghost<int> = Ghost(arbitrary());
    (AckSender { sender, channel }, AckReceiver { receiver, channel })
}

} // verus!
