//! Wake-ups for those who wait for a message.
use std::rc::Rc;
use tokio::sync::Semaphore;
use vstd::prelude::*;

verus! {

/// The semaphore `tokio::sync::Semaphore`. Its permits change behind shared
/// handles, so in a specification two handles are equal exactly if they lead to
/// one and the same semaphore.
#[verifier::external_type_specification]
#[verifier::external_body]
pub struct ExSemaphore(Semaphore);

/// A semaphore together with a count of the permits that were ever put into
/// it. Waiters take permits out through the shared handle; they put none in,
/// so the semaphore never holds more than were granted.
///
/// There is one permit for each message. A bare wake-up flag would store a
/// single permit however many messages arrive before a receiver looks, and a
/// receiver would have to tell apart whether a message is there already or it
/// has to wait.
pub struct Signal {
    semaphore: Rc<Semaphore>,
    granted: Ghost<nat>,
}

/// The semaphore and the number of permits that were put into it.
pub struct SignalView {
    pub semaphore: Rc<Semaphore>,
    pub granted: nat,
}

impl SignalView {
    /// The state after `permits` more were put in.
    pub open spec fn grant(self, permits: nat) -> SignalView {
        SignalView { granted: self.granted + permits, ..self }
    }
}

impl View for Signal {
    type V = SignalView;

    closed spec fn view(&self) -> SignalView {
        SignalView { semaphore: self.semaphore, granted: self.granted@ }
    }
}

/// The most permits that a semaphore can hold.
pub open spec fn max_permits() -> nat {
    usize::MAX as nat / 8
}

/// Calls `Semaphore::new`: the semaphore starts with `permits` permits, and it
/// is another one than each of `others`, which are all still there. More
/// permits than a semaphore can hold make the call panic.
#[verifier::external_body]
#[allow(unused_variables)]
fn semaphore_new(permits: usize, others: &Vec<Rc<Semaphore>>) -> (notify: Signal)
    requires
        permits <= max_permits(),
    ensures
        notify@.granted == permits,
        !others@.contains(notify@.semaphore),
{
    Signal { semaphore: Rc::new(Semaphore::new(permits)), granted: Ghost(permits as nat) }
}

/// Calls `Semaphore::add_permits`: `permits` more permits go into the same
/// semaphore. More than it can hold make the call panic; it never holds more
/// than were granted, as nobody puts permits in through a shared handle. How
/// many of them a waiter has taken by the time the call returns is not said.
#[verifier::external_body]
fn semaphore_add_permits(notify: &mut Signal, permits: usize)
    requires
        old(notify)@.granted + permits <= max_permits(),
    ensures
        final(notify)@ == old(notify)@.grant(permits as nat),
{
    notify.semaphore.add_permits(permits)
}

impl Signal {
    /// Creates a semaphore without permits.
    pub fn new() -> (notify: Self)
        ensures
            notify@.granted == 0,
    {
        Signals::new().make()
    }

    /// Puts `permits` permits into the semaphore.
    pub fn add_permits(&mut self, permits: usize)
        requires
            old(self)@.granted + permits <= max_permits(),
        ensures
            final(self)@ == old(self)@.grant(permits as nat),
    {
        semaphore_add_permits(self, permits)
    }

    /// Returns a handle to the semaphore, by which a receiver waits.
    pub fn handle(&self) -> (semaphore: Rc<Semaphore>)
        ensures
            semaphore == self@.semaphore,
    {
        self.semaphore.clone()
    }
}

/// The semaphores that were made so far. As long as they are kept, each new one
/// is told apart from all of them.
pub struct Signals {
    made: Vec<Rc<Semaphore>>,
}

impl View for Signals {
    type V = Seq<Rc<Semaphore>>;

    closed spec fn view(&self) -> Seq<Rc<Semaphore>> {
        self.made@
    }
}

impl Signals {
    /// Keeping one more semaphore keeps those that were made.
    pub proof fn lemma_made(
        made: Seq<Rc<Semaphore>>,
        new: Rc<Semaphore>,
        semaphore: Rc<Semaphore>,
    )
        ensures
            made.push(new).contains(semaphore) == (semaphore == new || made.contains(semaphore)),
    {
        let more = made.push(new);
        if made.contains(semaphore) {
            let i = choose|i: int| 0 <= i < made.len() && made[i] == semaphore;
            assert(more[i] == semaphore);
        }
        if semaphore == new {
            assert(more[made.len() as int] == semaphore);
        }
        if more.contains(semaphore) && semaphore != new {
            let i = choose|i: int| 0 <= i < more.len() && more[i] == semaphore;
            assert(made[i] == semaphore);
        }
    }

    /// Starts without semaphores.
    pub fn new() -> (signals: Self)
        ensures
            signals@ == Seq::<Rc<Semaphore>>::empty(),
    {
        Signals { made: Vec::new() }
    }

    /// Creates a semaphore without permits, another one than all that were made
    /// so far.
    pub fn make(&mut self) -> (notify: Signal)
        ensures
            notify@.granted == 0,
            !old(self)@.contains(notify@.semaphore),
            final(self)@ == old(self)@.push(notify@.semaphore),
    {
        let notify = semaphore_new(0, &self.made);
        self.record(&notify);
        notify
    }

    /// Keeps the semaphore of `notify`, which may have been made elsewhere.
    pub fn record(&mut self, notify: &Signal)
        ensures
            final(self)@ == old(self)@.push(notify@.semaphore),
    {
        self.made.push(notify.handle());
    }
}

} // verus!
