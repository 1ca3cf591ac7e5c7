//! A dispatcher that also publishes each message on a broadcast channel, for
//! the dispatchers of other threads or tasks.

use crate::channel::offer;
use crate::dispatcher::{Dispatcher, MessageType, ObserverRef};
use crate::error::DispatcherError;
use crate::model::{count, holds, Key};
use tokio::sync::broadcast::{Receiver, Sender};
use vstd::prelude::*;

verus! {

/// The capacity of the channel of a broadcaster made by `default`.
pub const DEFAULT_CAPACITY: usize = 100;

/// What a subscription hands over when it is asked for the next message.
pub enum Received<M> {
    /// The next message.
    Message(M),
    /// Every sender is gone: no message will come.
    Closed,
    /// The subscription fell behind and lost this many messages. The next
    /// message can still be received.
    Lagged(u64),
}

/// A message that the channel did not take, and the channel's description of
/// why.
#[derive(Debug)]
pub struct Unsent<M> {
    pub message: M,
    pub description: String,
}

/// A dispatcher that delivers each message to its own observers and publishes
/// it on a channel shared with other broadcasters.
///
/// Its view is the map from (discriminant, tag) to the observer registered
/// there. Each broadcaster has a registry of its own; only the channel is
/// shared.
///
/// The broadcaster that made the channel keeps one subscription to it, the
/// keep-alive, which no count that a broadcaster reports includes. Whether
/// the keep-alive lives, the other broadcasters of the channel learn from a
/// beacon: a second channel, on which nothing is ever sent, whose only
/// subscription is kept and dropped together with the keep-alive.
#[verifier::reject_recursive_types(M)]
pub struct Broadcaster<M> {
    /// Delivers to the observers of this thread or task.
    local: Dispatcher<M>,
    /// Publishes to the other threads or tasks.
    broadcast_sender: Sender<M>,
    /// Never read. The broadcaster that made the channel keeps the
    /// subscription that came with it, so that publishing does not fail for
    /// want of one, and beside it the beacon.
    keep_alive: Option<(Receiver<M>, Receiver<()>)>,
    /// Shows whether the beacon is lit.
    watch: Sender<()>,
}

/// A handle on a broadcaster's channel that holds no observers, to be moved
/// to another thread or task.
#[verifier::reject_recursive_types(M)]
pub struct SyncBroadcaster<M> {
    broadcast_sender: Sender<M>,
    watch: Sender<()>,
}

/// Whether `sender` and `receiver` are the two ends that the making of a
/// channel of `capacity` returned.
pub open spec fn opened<M: Clone>(capacity: usize, sender: Sender<M>, receiver: Receiver<M>) -> bool {
    call_ensures(tokio::sync::broadcast::channel::<M>, (capacity,), (sender, receiver))
}

/// Whether `receiver` is a subscription that `sender` handed out: what
/// subscribing to the channel of `sender` returned.
pub open spec fn subscribed<M>(sender: Sender<M>, receiver: Receiver<M>) -> bool {
    call_ensures(Sender::<M>::subscribe, (&sender,), receiver)
}

/// Whether `answer` is what the channel of `sender` answered when `message`
/// was sent on it: the number of its subscriptions, or the message back with
/// the channel's description of the failure.
pub closed spec fn answered<M>(
    sender: Sender<M>,
    message: M,
    answer: Result<usize, (M, String)>,
) -> bool {
    call_ensures(offer::<M>, (&sender, message), answer)
}

/// Whether `seen` is the number of lit beacons that a look at `watch` showed.
pub open spec fn watched(watch: Sender<()>, seen: usize) -> bool {
    call_ensures(Sender::<()>::receiver_count, (&watch,), seen)
}

/// How many of the `reported` subscriptions count as remote: all of them, less
/// the keep-alive where it lives.
pub open spec fn remote_count(reported: nat, keep_alive_lives: bool) -> nat {
    if keep_alive_lives && reported > 0 {
        (reported - 1) as nat
    } else {
        reported
    }
}

/// Whether `result` tells what the channel of `sender` answered when `message`
/// was sent on it, for a publisher that called `n_local` observers of its own:
/// on success the local count plus the remote count of the subscriptions that
/// the channel reported, on failure a send error with the channel's
/// description. A channel that takes a message has at least one subscription
/// and at most `usize::MAX / 4`.
pub open spec fn tells_answer<M>(
    result: Result<usize, DispatcherError>,
    sender: Sender<M>,
    message: M,
    n_local: nat,
    keep_alive_lives: bool,
) -> bool {
    match result {
        Ok(n) => exists|reported: usize|
            {
                &&& #[trigger] answered(sender, message, Ok(reported))
                &&& 1 <= reported <= usize::MAX / 4
                &&& n == n_local + remote_count(reported as nat, keep_alive_lives)
            },
        Err(error) => {
            &&& error matches DispatcherError::SendError(description)
            &&& description@ == "channel closed"@
            &&& answered(sender, message, Err((message, description)))
        },
    }
}

/// What a publisher returns that called `n_local` observers of its own and was
/// told `published` by the channel: the sum of the local and the remote count
/// where the channel took the message, and a send error with the channel's
/// description where it did not.
///
/// `keep_alive_lives` says whether the keep-alive is among the subscriptions
/// that the channel reported.
pub fn publish_outcome(n_local: usize, keep_alive_lives: bool, published: Result<usize, String>) -> (result:
    Result<usize, DispatcherError>)
    requires
        published matches Ok(reported) ==> n_local + remote_count(
            reported as nat,
            keep_alive_lives,
        ) <= usize::MAX,
    ensures
        match published {
            Ok(reported) => result matches Ok(n) && n == n_local + remote_count(
                reported as nat,
                keep_alive_lives,
            ),
            Err(description) => result matches Err(DispatcherError::SendError(text)) && text
                == description,
        },
{
    match published {
        Ok(reported) => Ok(n_local + remote_subscriptions(reported, keep_alive_lives)),
        Err(description) => Err(DispatcherError::SendError(description)),
    }
}

/// How many of the `reported` subscriptions count as remote.
pub fn remote_subscriptions(reported: usize, keep_alive_lives: bool) -> (remote: usize)
    ensures
        remote == remote_count(reported as nat, keep_alive_lives),
{
    if keep_alive_lives && reported > 0 {
        reported - 1
    } else {
        reported
    }
}

/// Hands `message` to the channel behind `sender` and returns what the channel
/// answered: the number of its subscriptions, or its description of the
/// failure.
fn publish<M>(sender: &Sender<M>, message: M) -> (published: Result<usize, String>)
    ensures
        match published {
            Ok(reported) => {
                &&& answered(*sender, message, Ok(reported))
                &&& 1 <= reported <= usize::MAX / 4
            },
            Err(description) => {
                &&& answered(*sender, message, Err((message, description)))
                &&& description@ == "channel closed"@
            },
        },
{
    match offer(sender, message) {
        Ok(reported) => Ok(reported),
        Err((_, description)) => Err(description),
    }
}

impl<M> View for Broadcaster<M> {
    type V = Map<Key, ObserverRef<M>>;

    closed spec fn view(&self) -> Self::V {
        self.local@
    }
}

impl<M> Broadcaster<M> where M: Clone + MessageType + Default {
    /// Whether this broadcaster holds the keep-alive, the subscription that
    /// keeps the channel open. The one that made the channel does; those made
    /// from it do not.
    pub open spec fn keeps_alive(&self) -> bool {
        self.kept() is Some
    }

    /// The keep-alive, if this broadcaster holds it.
    pub closed spec fn kept(&self) -> Option<Receiver<M>> {
        match self.keep_alive {
            Some(pair) => Some(pair.0),
            None => None,
        }
    }

    /// The beacon, if this broadcaster holds it. It is held with the
    /// keep-alive and never without.
    pub closed spec fn beacon(&self) -> Option<Receiver<()>> {
        match self.keep_alive {
            Some(pair) => Some(pair.1),
            None => None,
        }
    }

    /// The sender through which this broadcaster publishes.
    pub closed spec fn own_sender(&self) -> Sender<M> {
        self.broadcast_sender
    }

    /// The sender through which this broadcaster looks at the beacon.
    pub closed spec fn own_watch(&self) -> Sender<()> {
        self.watch
    }

    /// Whether `self` has the ends of both channels that `before` had.
    pub open spec fn same_ends(&self, before: &Self) -> bool {
        &&& self.own_sender() == before.own_sender()
        &&& self.own_watch() == before.own_watch()
        &&& self.kept() == before.kept()
        &&& self.beacon() == before.beacon()
    }

    /// Whether the keep-alive lives, as far as this broadcaster can tell after
    /// a look at the beacon that showed `seen` of them lit: it does where this
    /// broadcaster holds it, or the beacon is lit.
    pub open spec fn keep_alive_lives(&self, seen: usize) -> bool {
        self.keeps_alive() || seen > 0
    }

    /// Whether the count that a dispatch of `message` returns fits in `usize`,
    /// however many subscriptions the channel reports.
    pub open spec fn count_fits(&self, message: &M) -> bool {
        forall|discriminant: &str|
            #[trigger] call_ensures(M::message_type, (message,), discriminant) ==> count(
                self@.dom(),
                discriminant@,
            ) + usize::MAX / 4 <= usize::MAX
    }

    /// A broadcaster without observers on a new channel, which retains at least
    /// `capacity` messages for a slow subscription.
    ///
    /// Call this once, and hand the channel on by `sync_clone` or `clone`. The
    /// broadcaster made here keeps the subscription that came with the
    /// channel, so that publishing does not fail while there is no other.
    pub fn new(capacity: usize) -> (broadcaster: Self)
        requires
            0 < capacity <= usize::MAX / 2,
        ensures
            broadcaster@ == Map::<Key, ObserverRef<M>>::empty(),
            broadcaster.keeps_alive(),
            broadcaster.kept() matches Some(subscription) && opened(
                capacity,
                broadcaster.own_sender(),
                subscription,
            ),
            broadcaster.beacon() matches Some(beacon) && opened(
                1,
                broadcaster.own_watch(),
                beacon,
            ),
    {
        let (broadcast_sender, broadcast_receiver) = tokio::sync::broadcast::channel(capacity);
        let (watch, beacon) = tokio::sync::broadcast::channel(1);
        Broadcaster {
            local: Dispatcher::default(),
            broadcast_sender,
            keep_alive: Some((broadcast_receiver, beacon)),
            watch,
        }
    }

    /// A broadcaster without observers that publishes through `sender` and
    /// looks at the beacon through `watch`.
    fn attached(sender: Sender<M>, watch: Sender<()>) -> (broadcaster: Self)
        ensures
            broadcaster@ == Map::<Key, ObserverRef<M>>::empty(),
            !broadcaster.keeps_alive(),
            broadcaster.beacon() is None,
            broadcaster.own_sender() == sender,
            broadcaster.own_watch() == watch,
    {
        Broadcaster {
            local: Dispatcher::default(),
            broadcast_sender: sender,
            keep_alive: None,
            watch,
        }
    }

    /// Registers `observer` for messages of discriminant `message_type`, under
    /// `tag`. An observer registered there before is dropped.
    pub fn register_handler(&mut self, message_type: &str, observer: ObserverRef<M>, tag: &str)
        ensures
            final(self)@ == old(self)@.insert((message_type@, tag@), observer),
            final(self)@.dom() == old(self)@.dom().insert((message_type@, tag@)),
            holds(final(self)@, (message_type@, tag@), observer),
            forall|key: Key|
                key != (message_type@, tag@) && old(self)@.contains_key(key) ==> final(self)@[key]
                    == old(self)@[key],
            final(self).same_ends(old(self)),
    {
        self.local.handlers_mut().insert(message_type, tag, observer);
    }

    /// Drops the observer registered for `message_type` under `tag`, if there
    /// is one.
    pub fn unregister_handler(&mut self, message_type: &str, tag: &str)
        ensures
            final(self)@ == old(self)@.remove((message_type@, tag@)),
            final(self)@.dom() == old(self)@.dom().remove((message_type@, tag@)),
            final(self).same_ends(old(self)),
    {
        self.local.unregister_handler(message_type, tag);
    }

    /// How many observers of this broadcaster are registered for
    /// `message_type`.
    pub fn handler_count(&self, message_type: &str) -> (n: usize)
        ensures
            self@.dom().finite(),
            n == count(self@.dom(), message_type@),
    {
        self.local.handler_count(message_type)
    }

    /// Calls the observers registered here for the discriminant of `message`,
    /// then publishes a clone of it.
    ///
    /// What is sent is a clone of `message`, on this broadcaster's sender. On
    /// success the result is the number of observers called here plus the
    /// number of subscriptions that the channel reported, the keep-alive left
    /// out where it lives: whoever publishes, only the subscriptions handed
    /// out by `receiver` are counted. The call fails when the channel has no
    /// subscription at all; the observers registered here were called all the
    /// same.
    ///
    /// Whether the keep-alive lives is looked up just before the message is
    /// sent. Where the broadcaster that holds it is dropped by another thread
    /// between the two, the count is one short.
    pub fn dispatch(&self, message: &M) -> (result: Result<usize, DispatcherError>)
        requires
            self.count_fits(message),
        ensures
            exists|discriminant: &str, copy: M, seen: usize|
                {
                    &&& #[trigger] call_ensures(M::message_type, (message,), discriminant)
                    &&& #[trigger] cloned(*message, copy)
                    &&& #[trigger] watched(self.own_watch(), seen)
                    &&& tells_answer(
                        result,
                        self.own_sender(),
                        copy,
                        count(self@.dom(), discriminant@),
                        self.keep_alive_lives(seen),
                    )
                },
    {
        let message_type = message.message_type();
        let n_local: usize = self.local.dispatch_as(message_type, message);
        let copy = message.clone();
        let seen: usize = self.watch.receiver_count();
        let lives = self.keep_alive.is_some() || seen > 0;
        let published = publish(&self.broadcast_sender, copy);
        proof {
            if let Ok(reported) = published {
                assert(remote_count(reported as nat, lives) <= usize::MAX / 4);
            }
        }
        let result = publish_outcome(n_local, lives, published);
        proof {
            assert(call_ensures(M::message_type, (message,), message_type));
            assert(cloned(*message, copy));
            assert(watched(self.own_watch(), seen));
            assert(tells_answer(
                result,
                self.own_sender(),
                copy,
                count(self@.dom(), message_type@),
                self.keep_alive_lives(seen),
            ));
        }
        result
    }

    /// Calls the observers registered here for the discriminant of `message`,
    /// once each, and returns how many calls it made. Nothing is published.
    pub fn dispatch_local(&self, message: &M) -> (result: Result<usize, DispatcherError>)
        ensures
            self@.dom().finite(),
            result matches Ok(n) && exists|discriminant: &str|
                #[trigger] call_ensures(M::message_type, (message,), discriminant) && n == count(
                    self@.dom(),
                    discriminant@,
                ),
    {
        self.local.dispatch(message)
    }

    /// Publishes `message` on this broadcaster's sender and calls no observer
    /// of this broadcaster.
    ///
    /// On success the result is the number of subscriptions that the channel
    /// reported, the keep-alive left out where it lives. On failure the
    /// message comes back, with the channel's description.
    pub fn send(&self, message: M) -> (result: Result<usize, Unsent<M>>)
        ensures
            match result {
                Ok(n) => exists|reported: usize, seen: usize|
                    {
                        &&& #[trigger] answered(self.own_sender(), message, Ok(reported))
                        &&& #[trigger] watched(self.own_watch(), seen)
                        &&& 1 <= reported <= usize::MAX / 4
                        &&& n == remote_count(reported as nat, self.keep_alive_lives(seen))
                    },
                Err(unsent) => {
                    &&& unsent.message == message
                    &&& unsent.description@ == "channel closed"@
                    &&& answered(self.own_sender(), message, Err((message, unsent.description)))
                },
            },
    {
        let seen: usize = self.watch.receiver_count();
        let lives = self.keep_alive.is_some() || seen > 0;
        match offer(&self.broadcast_sender, message) {
            Ok(reported) => {
                proof {
                    assert(answered(self.own_sender(), message, Ok(reported)));
                    assert(watched(self.own_watch(), seen));
                }
                Ok(remote_subscriptions(reported, lives))
            },
            Err((message, description)) => Err(Unsent { message, description }),
        }
    }

    /// What a loop that listens on a subscription does with what it
    /// `received`: a message is delivered to the observers registered here and
    /// the loop goes on; a closed channel and a lag end it with an error.
    pub fn deliver(&self, received: Received<M>) -> (result: Result<usize, DispatcherError>)
        ensures
            match received {
                Received::Message(message) => result matches Ok(n) && exists|discriminant: &str|
                    #[trigger] call_ensures(M::message_type, (&message,), discriminant) && n
                        == count(self@.dom(), discriminant@),
                Received::Closed => result matches Err(DispatcherError::RecvError(description))
                    && description@ == "channel closed"@,
                Received::Lagged(missed) => result matches Err(DispatcherError::Lagged(lost))
                    && lost == missed,
            },
    {
        match received {
            Received::Message(message) => self.local.dispatch(&message),
            Received::Closed => Err(DispatcherError::RecvError("channel closed".to_owned())),
            Received::Lagged(missed) => Err(DispatcherError::Lagged(missed)),
        }
    }

    /// A new subscription to the channel: what subscribing to this
    /// broadcaster's sender gives. It receives what is published after this
    /// call.
    pub fn receiver(&self) -> (receiver: Receiver<M>)
        ensures
            subscribed(self.own_sender(), receiver),
    {
        self.broadcast_sender.subscribe()
    }

    /// Another sender of the channel: a clone of this broadcaster's sender.
    pub fn sender(&self) -> (sender: Sender<M>)
        ensures
            cloned(self.own_sender(), sender),
    {
        self.broadcast_sender.clone()
    }

    /// A handle on the channel that holds none of the observers, for another
    /// thread or task. Its sender and its watch are clones of this
    /// broadcaster's.
    pub fn sync_clone(&self) -> (handle: SyncBroadcaster<M>)
        ensures
            cloned(self.own_sender(), handle.own_sender()),
            cloned(self.own_watch(), handle.own_watch()),
    {
        SyncBroadcaster {
            broadcast_sender: self.broadcast_sender.clone(),
            watch: self.watch.clone(),
        }
    }
}

impl<M> SyncBroadcaster<M> where M: Clone + MessageType + Default {
    /// The sender that this handle holds.
    pub closed spec fn own_sender(&self) -> Sender<M> {
        self.broadcast_sender
    }

    /// The sender through which this handle looks at the beacon.
    pub closed spec fn own_watch(&self) -> Sender<()> {
        self.watch
    }

    /// A broadcaster without observers on the same channel.
    pub fn broadcaster(&self) -> (broadcaster: Broadcaster<M>)
        ensures
            broadcaster@ == Map::<Key, ObserverRef<M>>::empty(),
            !broadcaster.keeps_alive(),
            cloned(self.own_sender(), broadcaster.own_sender()),
            cloned(self.own_watch(), broadcaster.own_watch()),
    {
        Broadcaster::attached(self.broadcast_sender.clone(), self.watch.clone())
    }

    /// A new subscription to the channel: what subscribing to this handle's
    /// sender gives. It receives what is published after this call.
    pub fn receiver(&self) -> (receiver: Receiver<M>)
        ensures
            subscribed(self.own_sender(), receiver),
    {
        self.broadcast_sender.subscribe()
    }

    /// Another sender of the channel: a clone of this handle's sender.
    pub fn sender(&self) -> (sender: Sender<M>)
        ensures
            cloned(self.own_sender(), sender),
    {
        self.broadcast_sender.clone()
    }
}

impl<M> Default for Broadcaster<M> where M: Clone + MessageType + Default {
    /// A broadcaster without observers on a new channel of the default
    /// capacity.
    fn default() -> (broadcaster: Self)
        ensures
            broadcaster@ == Map::<Key, ObserverRef<M>>::empty(),
            broadcaster.keeps_alive(),
            broadcaster.kept() matches Some(subscription) && opened(
                DEFAULT_CAPACITY,
                broadcaster.own_sender(),
                subscription,
            ),
            broadcaster.beacon() matches Some(beacon) && opened(
                1,
                broadcaster.own_watch(),
                beacon,
            ),
    {
        Broadcaster::new(DEFAULT_CAPACITY)
    }
}

impl<M> Clone for Broadcaster<M> where M: Clone + MessageType + Default {
    /// A broadcaster on the same channel with no observers: observers stay
    /// with the broadcaster they were registered with.
    fn clone(&self) -> (copy: Self)
        ensures
            copy@ == Map::<Key, ObserverRef<M>>::empty(),
            !copy.keeps_alive(),
            cloned(self.own_sender(), copy.own_sender()),
            cloned(self.own_watch(), copy.own_watch()),
    {
        Broadcaster::attached(self.broadcast_sender.clone(), self.watch.clone())
    }
}

} // verus!
