//! Dispatchers that work within one thread or task: a registry of observers
//! and the synchronous delivery of a message to those registered for it.

use crate::error::DispatcherError;
use crate::model::{count, holds, Key};
use crate::registry::{lemma_listing_counts, Registry, Slot};
use vstd::prelude::*;

verus! {

/// A message that can be dispatched.
pub trait MessageType {
    /// The discriminant by which the message is routed. It must not change
    /// while the message lives, and reading it must change nothing.
    fn message_type(&self) -> &str;
}

/// A callback for messages of type `M`.
pub trait Observer<M> {
    /// Handles `message`. A dispatcher calls this once for each dispatch of a
    /// message under whose discriminant the observer is registered.
    fn call(&self, message: &M);
}

/// An observer that may be moved to another thread. Every [`Observer`] that is
/// `Send` is one.
///
/// The trait stands where `Observer<M> + Send` would: Verus takes a trait
/// object of one trait only.
pub trait SendObserver<M>: Observer<M> + Send {

}

impl<M, O: Observer<M> + Send> SendObserver<M> for O {

}

/// An observer owned by a dispatcher of one thread or task. It may borrow
/// data that lives for `'a`.
pub type LocalObserverRef<'a, M> = Box<dyn Observer<M> + 'a>;

/// An observer owned by a dispatcher that may move between threads.
pub type ObserverRef<M> = Box<dyn SendObserver<M>>;

/// A dispatcher for one thread or task, whose observers may borrow.
///
/// Its view is the map from (discriminant, tag) to the observer registered
/// there.
#[verifier::reject_recursive_types(M)]
pub struct LocalDispatcher<'a, M> {
    handlers: Registry<LocalObserverRef<'a, M>>,
}

/// A dispatcher whose observers can be sent to another thread.
///
/// Its view is the map from (discriminant, tag) to the observer registered
/// there.
#[verifier::reject_recursive_types(M)]
pub struct Dispatcher<M> {
    handlers: Registry<ObserverRef<M>>,
}

/// Calls the observer of every slot with `message`, once each, and returns
/// how many calls it made.
fn call_each<M, O: Observer<M> + ?Sized>(slots: &Vec<Slot<Box<O>>>, message: &M) -> (calls: usize)
    ensures
        calls == slots@.len(),
{
    let mut calls: usize = 0;
    while calls < slots.len()
        invariant
            calls <= slots@.len(),
        decreases slots@.len() - calls,
    {
        slots[calls].value.call(message);
        calls += 1;
    }
    calls
}

impl<'a, M> View for LocalDispatcher<'a, M> {
    type V = Map<Key, LocalObserverRef<'a, M>>;

    closed spec fn view(&self) -> Self::V {
        self.handlers@
    }
}

impl<M> View for Dispatcher<M> {
    type V = Map<Key, ObserverRef<M>>;

    closed spec fn view(&self) -> Self::V {
        self.handlers@
    }
}

impl<'a, M> Default for LocalDispatcher<'a, M> {
    /// A dispatcher without observers.
    fn default() -> (dispatcher: Self)
        ensures
            dispatcher@ == Map::<Key, LocalObserverRef<'a, M>>::empty(),
    {
        LocalDispatcher { handlers: Registry::new() }
    }
}

impl<M> Default for Dispatcher<M> {
    /// A dispatcher without observers.
    fn default() -> (dispatcher: Self)
        ensures
            dispatcher@ == Map::<Key, ObserverRef<M>>::empty(),
    {
        Dispatcher { handlers: Registry::new() }
    }
}

impl<'a, M> LocalDispatcher<'a, M> where M: MessageType {
    /// Registers `observer` for messages of discriminant `message_type`, under
    /// `tag`. An observer registered there before is dropped.
    pub fn register_handler(
        &mut self,
        message_type: &str,
        observer: LocalObserverRef<'a, M>,
        tag: &str,
    )
        ensures
            final(self)@ == old(self)@.insert((message_type@, tag@), observer),
            final(self)@.dom() == old(self)@.dom().insert((message_type@, tag@)),
            holds(final(self)@, (message_type@, tag@), observer),
            forall|key: Key|
                key != (message_type@, tag@) && old(self)@.contains_key(key) ==> final(self)@[key]
                    == old(self)@[key],
    {
        self.handlers.insert(message_type, tag, observer);
    }

    /// Drops the observer registered for `message_type` under `tag`, if there
    /// is one.
    pub fn unregister_handler(&mut self, message_type: &str, tag: &str)
        ensures
            final(self)@ == old(self)@.remove((message_type@, tag@)),
            final(self)@.dom() == old(self)@.dom().remove((message_type@, tag@)),
    {
        self.handlers.remove(message_type, tag);
    }

    /// How many observers are registered for `message_type`.
    pub fn handler_count(&self, message_type: &str) -> (n: usize)
        ensures
            self@.dom().finite(),
            n == count(self@.dom(), message_type@),
    {
        self.handlers.count(message_type)
    }

    /// Calls every observer registered for the discriminant of `message`, once
    /// each, and returns how many calls it made: the number of observers
    /// registered for that discriminant. A discriminant without observers is
    /// no error: the result is then `Ok(0)`.
    pub fn dispatch(&self, message: &M) -> (result: Result<usize, DispatcherError>)
        ensures
            self@.dom().finite(),
            result matches Ok(n) && exists|discriminant: &str|
                #[trigger] call_ensures(M::message_type, (message,), discriminant) && n == count(
                    self@.dom(),
                    discriminant@,
                ),
    {
        let message_type = message.message_type();
        Ok(self.dispatch_as(message_type, message))
    }

    /// Calls every observer registered for `message_type` with `message`, once
    /// each, and returns how many calls it made.
    pub fn dispatch_as(&self, message_type: &str, message: &M) -> (n: usize)
        ensures
            self@.dom().finite(),
            n == count(self@.dom(), message_type@),
    {
        match self.handlers.bucket(message_type) {
            Some(slots) => {
                proof {
                    lemma_listing_counts(slots@, self@, message_type@);
                }
                call_each(slots, message)
            },
            None => 0,
        }
    }
}

impl<M> Dispatcher<M> where M: MessageType {
    /// The registry of this dispatcher, to file an observer in it directly.
    ///
    /// Where a boxed observer is handed to a parameter of its own type, Rust
    /// converts it on the way, and Verus loses sight of its value. A broadcaster
    /// therefore files the observers it is given through this borrow.
    pub(crate) fn handlers_mut(&mut self) -> (handlers: &mut Registry<ObserverRef<M>>)
        ensures
            handlers@ == old(self)@,
            final(self)@ == final(handlers)@,
    {
        &mut self.handlers
    }

    /// Registers `observer` for messages of discriminant `message_type`, under
    /// `tag`. An observer registered there before is dropped.
    pub fn register_handler(&mut self, message_type: &str, observer: ObserverRef<M>, tag: &str)
        ensures
            final(self)@ == old(self)@.insert((message_type@, tag@), observer),
            final(self)@.dom() == old(self)@.dom().insert((message_type@, tag@)),
            holds(final(self)@, (message_type@, tag@), observer),
            forall|key: Key|
                key != (message_type@, tag@) && old(self)@.contains_key(key) ==> final(self)@[key]
                    == old(self)@[key],
    {
        self.handlers.insert(message_type, tag, observer);
    }

    /// Drops the observer registered for `message_type` under `tag`, if there
    /// is one.
    pub fn unregister_handler(&mut self, message_type: &str, tag: &str)
        ensures
            final(self)@ == old(self)@.remove((message_type@, tag@)),
            final(self)@.dom() == old(self)@.dom().remove((message_type@, tag@)),
    {
        self.handlers.remove(message_type, tag);
    }

    /// How many observers are registered for `message_type`.
    pub fn handler_count(&self, message_type: &str) -> (n: usize)
        ensures
            self@.dom().finite(),
            n == count(self@.dom(), message_type@),
    {
        self.handlers.count(message_type)
    }

    /// Calls every observer registered for the discriminant of `message`, once
    /// each, and returns how many calls it made: the number of observers
    /// registered for that discriminant. A discriminant without observers is
    /// no error: the result is then `Ok(0)`.
    pub fn dispatch(&self, message: &M) -> (result: Result<usize, DispatcherError>)
        ensures
            self@.dom().finite(),
            result matches Ok(n) && exists|discriminant: &str|
                #[trigger] call_ensures(M::message_type, (message,), discriminant) && n == count(
                    self@.dom(),
                    discriminant@,
                ),
    {
        let message_type = message.message_type();
        Ok(self.dispatch_as(message_type, message))
    }

    /// Calls every observer registered for `message_type` with `message`, once
    /// each, and returns how many calls it made.
    pub fn dispatch_as(&self, message_type: &str, message: &M) -> (n: usize)
        ensures
            self@.dom().finite(),
            n == count(self@.dom(), message_type@),
    {
        match self.handlers.bucket(message_type) {
            Some(slots) => {
                proof {
                    lemma_listing_counts(slots@, self@, message_type@);
                }
                call_each(slots, message)
            },
            None => 0,
        }
    }
}

} // verus!
