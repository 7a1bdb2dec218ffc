//! The locks of `parking_lot`, as far as the inbox and the registered
//! components use them.

use crate::event::Message;
use crate::inbox::Line;
use parking_lot::Mutex;
use std::ops::DerefMut;
use vstd::prelude::*;

verus! {

/// `parking_lot::Condvar`: threads that wait for a notification.
#[verifier::external_type_specification]
#[verifier::external_body]
pub struct ExCondvar(parking_lot::Condvar);

/// `parking_lot::RawMutex`: the lock inside a `parking_lot::Mutex`.
#[verifier::external_type_specification]
#[verifier::external_body]
pub struct ExRawMutex(parking_lot::RawMutex);

/// `lock_api::Mutex`, of which `parking_lot::Mutex` is an instance: a value
/// that one thread at a time can reach.
#[verifier::external_type_specification]
#[verifier::external_body]
#[verifier::reject_recursive_types(R)]
#[verifier::reject_recursive_types(T)]
pub struct ExMutex<R, T: ?Sized>(parking_lot::lock_api::Mutex<R, T>);

/// `parking_lot::Condvar::new`: a condition variable that nobody waits on.
/// Nothing is claimed of it.
pub assume_specification[ parking_lot::Condvar::new ]() -> parking_lot::Condvar;

/// `parking_lot::Condvar::notify_one`: wakes one of the threads that wait, if
/// there is one. Nothing is claimed of the result, which says whether there
/// was: it depends on the other threads.
pub assume_specification[ parking_lot::Condvar::notify_one ](
    condvar: &parking_lot::Condvar,
) -> bool;

/// `parking_lot::Mutex::new`: an unlocked mutex around `value`. Nothing is
/// claimed of it: what a mutex holds can change whenever another thread locks
/// it, so it is no part of what is known of the mutex.
#[verifier::external_body]
fn new_mutex<T>(value: T) -> Mutex<T> {
    Mutex::new(value)
}

/// `parking_lot::Mutex::lock`: waits until no other thread holds the lock, and
/// returns a guard through which the value can be reached until the guard is
/// dropped. Nothing is claimed of the value: it is whatever the threads that
/// held the lock before have left there. A thread that holds the lock already
/// waits for itself, and forever.
#[verifier::external_body]
fn lock<'a, T>(shared: &'a Shared<T>) -> impl DerefMut<Target = T> + 'a {
    shared.mutex.lock()
}

/// A mutex, together with the value that it was made with.
#[verifier::reject_recursive_types(T)]
pub struct Shared<T> {
    pub(crate) mutex: Mutex<T>,
    made_with: Ghost<T>,
}

impl<T> Shared<T> {
    /// The value that the mutex was made with. What a lock finds there later on
    /// is not said.
    pub closed spec fn made_with(&self) -> T {
        self.made_with@
    }

    /// Puts a value behind a mutex.
    pub(crate) fn new(value: T) -> (shared: Self)
        ensures
            shared.made_with() == value,
    {
        let ghost made_with = value;
        Shared { mutex: new_mutex(value), made_with: Ghost(made_with) }
    }
}

/// Queues a message behind all others, while no other thread can reach the line.
pub(crate) fn append<M: Message>(shared: &Shared<Line<M>>, message: M) {
    let mut guard = lock(shared);
    guard.deref_mut().push(message);
}

/// A mutex that only its owner can reach, together with the value that it holds.
#[verifier::reject_recursive_types(T)]
pub struct Owned<T> {
    mutex: Mutex<T>,
    value: Ghost<T>,
}

impl<T> Owned<T> {
    /// The value that the mutex holds.
    pub closed spec fn value(&self) -> T {
        self.value@
    }

    /// Puts a value behind a mutex.
    pub(crate) fn new(value: T) -> (owned: Self)
        ensures
            owned.value() == value,
    {
        let ghost held = value;
        Owned { mutex: new_mutex(value), value: Ghost(held) }
    }
}

/// `parking_lot::Mutex::get_mut`: a reference to the value that the mutex holds,
/// which is what the mutex was made with or what was left there through the last
/// such reference. There is no other way to an `Owned` value: its mutex is never
/// locked.
#[verifier::external_body]
pub(crate) fn reach<T>(owned: &mut Owned<T>) -> (value: &mut T)
    ensures
        *value == old(owned).value(),
        final(owned).value() == *final(value),
{
    owned.mutex.get_mut()
}

} // verus!
