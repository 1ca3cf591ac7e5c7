use dispatchers::{LocalDispatcher, MessageType, Observer};
use std::cell::RefCell;

#[derive(Default)]
struct Container {
    pub value: i32,
}

#[derive(Default, Clone, Debug)]
struct Message {
    pub value: i32,
    pub message_type: String,
}

impl MessageType for Message {
    fn message_type(&self) -> &str {
        &self.message_type
    }
}

impl Message {
    pub fn update(value: i32) -> Self {
        Self {
            value,
            message_type: "update".to_owned(),
        }
    }
    pub fn print() -> Self {
        Self {
            value: 0,
            message_type: "print".to_owned(),
        }
    }
}

struct Handler<F>
where
    F: Fn(&Message),
{
    fun: F,
}

impl<F> Handler<F>
where
    F: Fn(&Message),
{
    pub fn new(fun: F) -> Box<Self> {
        Box::new(Self { fun })
    }
}

impl<F> Observer<Message> for Handler<F>
where
    F: Fn(&Message),
{
    fn call(&self, message: &Message) {
        (self.fun)(message)
    }
}

#[test]
fn local_dispatcher() {
    let container1 = RefCell::new(Container::default());
    let container2 = RefCell::new(Container::default());

    let mut dispatcher = LocalDispatcher::<Message>::default();
    let message = Message::update(1);
    assert_eq!(message.value, 1);
    assert_eq!(dispatcher.dispatch(&message).unwrap(), 0);
    assert_eq!(dispatcher.dispatch(&Message::print()).unwrap(), 0);

    dispatcher.register_handler(
        "update",
        Handler::new(|message: &Message| {
            container1.borrow_mut().value = message.value;
        }),
        "tag1",
    );

    assert_eq!(container1.borrow().value, 0);
    assert_eq!(dispatcher.dispatch(&message).unwrap(), 1);
    assert_eq!(container1.borrow().value, 1);

    dispatcher.register_handler(
        "update",
        Handler::new(|message: &Message| {
            container2.borrow_mut().value = 2 * message.value;
        }),
        "tag2",
    );

    assert_eq!(container2.borrow().value, 0);
    assert_eq!(dispatcher.dispatch(&Message::update(5)).unwrap(), 2);
    assert_eq!(container1.borrow().value, 5);
    assert_eq!(container2.borrow().value, 10);

    dispatcher.unregister_handler("update", "tag3");
    assert_eq!(dispatcher.dispatch(&Message::update(6)).unwrap(), 2);
    assert_eq!(container1.borrow().value, 6);
    assert_eq!(container2.borrow().value, 12);

    dispatcher.unregister_handler("update", "tag2");
    assert_eq!(dispatcher.dispatch(&Message::update(7)).unwrap(), 1);
    assert_eq!(container1.borrow().value, 7);
    assert_eq!(container2.borrow().value, 12);
}

struct Counter<'a> {
    calls: &'a RefCell<Vec<i32>>,
}

impl<'a> Observer<Message> for Counter<'a> {
    fn call(&self, message: &Message) {
        self.calls.borrow_mut().push(message.value);
    }
}

#[test]
fn unregistered_discriminant_reaches_nobody() {
    let calls = RefCell::new(Vec::new());
    let mut dispatcher = LocalDispatcher::<Message>::default();
    assert_eq!(dispatcher.dispatch(&Message::print()).unwrap(), 0);
    assert_eq!(dispatcher.handler_count("print"), 0);

    dispatcher.register_handler("update", Box::new(Counter { calls: &calls }), "tag1");
    assert_eq!(dispatcher.dispatch(&Message::print()).unwrap(), 0);
    assert_eq!(dispatcher.handler_count("print"), 0);
    assert_eq!(dispatcher.handler_count("update"), 1);
    assert!(calls.borrow().is_empty());
}

#[test]
fn two_observers_set_x_and_y() {
    let x = RefCell::new(0);
    let y = RefCell::new(0);
    let mut dispatcher = LocalDispatcher::<Message>::default();
    dispatcher.register_handler(
        "update",
        Handler::new(|message: &Message| {
            *x.borrow_mut() = message.value;
        }),
        "x",
    );
    dispatcher.register_handler(
        "update",
        Handler::new(|message: &Message| {
            *y.borrow_mut() = 2 * message.value;
        }),
        "y",
    );
    assert_eq!(dispatcher.dispatch(&Message::update(5)).unwrap(), 2);
    assert_eq!(*x.borrow(), 5);
    assert_eq!(*y.borrow(), 10);
}

#[test]
fn each_observer_is_called_once_per_dispatch() {
    let first = RefCell::new(Vec::new());
    let second = RefCell::new(Vec::new());
    let third = RefCell::new(Vec::new());
    let mut dispatcher = LocalDispatcher::<Message>::default();
    dispatcher.register_handler("update", Box::new(Counter { calls: &first }), "tag1");
    dispatcher.register_handler("update", Box::new(Counter { calls: &second }), "tag2");
    dispatcher.register_handler("print", Box::new(Counter { calls: &third }), "tag1");

    assert_eq!(dispatcher.dispatch(&Message::update(3)).unwrap(), 2);
    assert_eq!(*first.borrow(), vec![3]);
    assert_eq!(*second.borrow(), vec![3]);
    assert!(third.borrow().is_empty());

    assert_eq!(dispatcher.dispatch(&Message::update(4)).unwrap(), 2);
    assert_eq!(dispatcher.dispatch(&Message::print()).unwrap(), 1);
    assert_eq!(*first.borrow(), vec![3, 4]);
    assert_eq!(*second.borrow(), vec![3, 4]);
    assert_eq!(*third.borrow(), vec![0]);
}

#[test]
fn count_is_of_current_registrations() {
    let calls = RefCell::new(Vec::new());
    let mut dispatcher = LocalDispatcher::<Message>::default();
    dispatcher.register_handler("update", Box::new(Counter { calls: &calls }), "tag1");
    dispatcher.register_handler("update", Box::new(Counter { calls: &calls }), "tag2");
    dispatcher.register_handler("update", Box::new(Counter { calls: &calls }), "tag3");
    dispatcher.unregister_handler("update", "tag1");
    dispatcher.unregister_handler("update", "tag3");
    assert_eq!(dispatcher.handler_count("update"), 1);
    assert_eq!(dispatcher.dispatch(&Message::update(9)).unwrap(), 1);
    assert_eq!(*calls.borrow(), vec![9]);

    dispatcher.unregister_handler("update", "tag2");
    assert_eq!(dispatcher.handler_count("update"), 0);
    assert_eq!(dispatcher.dispatch(&Message::update(9)).unwrap(), 0);
    assert_eq!(*calls.borrow(), vec![9]);
}

#[test]
fn registering_again_replaces_the_observer() {
    let earlier = RefCell::new(Vec::new());
    let later = RefCell::new(Vec::new());
    let mut dispatcher = LocalDispatcher::<Message>::default();
    dispatcher.register_handler("update", Box::new(Counter { calls: &earlier }), "tag1");
    assert_eq!(dispatcher.dispatch(&Message::update(1)).unwrap(), 1);

    dispatcher.register_handler("update", Box::new(Counter { calls: &later }), "tag1");
    assert_eq!(dispatcher.handler_count("update"), 1);
    assert_eq!(dispatcher.dispatch(&Message::update(2)).unwrap(), 1);
    assert_eq!(*earlier.borrow(), vec![1]);
    assert_eq!(*later.borrow(), vec![2]);
}

struct Dropped<'a> {
    log: &'a RefCell<Vec<&'static str>>,
    name: &'static str,
}

impl<'a> Observer<Message> for Dropped<'a> {
    fn call(&self, _: &Message) {}
}

impl<'a> Drop for Dropped<'a> {
    fn drop(&mut self) {
        self.log.borrow_mut().push(self.name);
    }
}

#[test]
fn a_replaced_or_removed_observer_is_dropped() {
    let log = RefCell::new(Vec::new());
    let mut dispatcher = LocalDispatcher::<Message>::default();
    dispatcher.register_handler("update", Box::new(Dropped { log: &log, name: "a" }), "tag1");
    dispatcher.register_handler("update", Box::new(Dropped { log: &log, name: "b" }), "tag2");
    assert!(log.borrow().is_empty());

    dispatcher.register_handler("update", Box::new(Dropped { log: &log, name: "c" }), "tag1");
    assert_eq!(*log.borrow(), vec!["a"]);

    dispatcher.unregister_handler("update", "tag2");
    assert_eq!(*log.borrow(), vec!["a", "b"]);

    drop(dispatcher);
    assert_eq!(*log.borrow(), vec!["a", "b", "c"]);
}

#[test]
fn unregistering_what_was_never_registered_changes_nothing() {
    let calls = RefCell::new(Vec::new());
    let mut dispatcher = LocalDispatcher::<Message>::default();
    dispatcher.unregister_handler("update", "tag1");
    assert_eq!(dispatcher.dispatch(&Message::update(1)).unwrap(), 0);

    dispatcher.register_handler("update", Box::new(Counter { calls: &calls }), "tag1");
    dispatcher.unregister_handler("update", "tag2");
    dispatcher.unregister_handler("print", "tag1");
    dispatcher.unregister_handler("", "");
    assert_eq!(dispatcher.handler_count("update"), 1);
    assert_eq!(dispatcher.dispatch(&Message::update(8)).unwrap(), 1);
    assert_eq!(*calls.borrow(), vec![8]);
}

#[test]
fn discriminants_and_tags_match_exactly() {
    let calls = RefCell::new(Vec::new());
    let mut dispatcher = LocalDispatcher::<Message>::default();
    dispatcher.register_handler("update", Box::new(Counter { calls: &calls }), "tag");
    dispatcher.register_handler("Update", Box::new(Counter { calls: &calls }), "tag");
    dispatcher.register_handler("update ", Box::new(Counter { calls: &calls }), "tag");
    dispatcher.register_handler("update", Box::new(Counter { calls: &calls }), "Tag");
    dispatcher.register_handler("", Box::new(Counter { calls: &calls }), "");
    assert_eq!(dispatcher.handler_count("update"), 2);
    assert_eq!(dispatcher.handler_count("Update"), 1);
    assert_eq!(dispatcher.handler_count("update "), 1);
    assert_eq!(dispatcher.handler_count("upd"), 0);
    assert_eq!(dispatcher.handler_count("*"), 0);
    assert_eq!(dispatcher.handler_count(""), 1);
    assert_eq!(dispatcher.dispatch(&Message::update(1)).unwrap(), 2);
    assert_eq!(*calls.borrow(), vec![1, 1]);
}

#[test]
fn the_same_tag_under_two_discriminants_is_two_registrations() {
    let calls = RefCell::new(Vec::new());
    let mut dispatcher = LocalDispatcher::<Message>::default();
    dispatcher.register_handler("update", Box::new(Counter { calls: &calls }), "tag1");
    dispatcher.register_handler("print", Box::new(Counter { calls: &calls }), "tag1");
    dispatcher.unregister_handler("update", "tag1");
    assert_eq!(dispatcher.handler_count("update"), 0);
    assert_eq!(dispatcher.handler_count("print"), 1);
}

#[test]
fn dispatch_as_goes_by_the_discriminant_given() {
    let calls = RefCell::new(Vec::new());
    let mut dispatcher = LocalDispatcher::<Message>::default();
    dispatcher.register_handler("print", Box::new(Counter { calls: &calls }), "tag1");
    assert_eq!(dispatcher.dispatch_as("print", &Message::update(4)), 1);
    assert_eq!(dispatcher.dispatch_as("update", &Message::update(5)), 0);
    assert_eq!(*calls.borrow(), vec![4]);
}

struct Mark {
    seen: std::sync::Arc<std::sync::Mutex<Vec<i32>>>,
}

impl Observer<Message> for Mark {
    fn call(&self, message: &Message) {
        self.seen.lock().unwrap().push(message.value);
    }
}

#[test]
fn a_dispatcher_of_sendable_observers_works_as_the_local_one() {
    let seen = std::sync::Arc::new(std::sync::Mutex::new(Vec::new()));
    let mut dispatcher = dispatchers::Dispatcher::<Message>::default();
    assert_eq!(dispatcher.dispatch(&Message::update(1)).unwrap(), 0);

    dispatcher.register_handler("update", Box::new(Mark { seen: seen.clone() }), "tag1");
    dispatcher.register_handler("update", Box::new(Mark { seen: seen.clone() }), "tag2");
    dispatcher.register_handler("print", Box::new(Mark { seen: seen.clone() }), "tag1");
    assert_eq!(dispatcher.handler_count("update"), 2);
    assert_eq!(dispatcher.dispatch(&Message::update(5)).unwrap(), 2);
    assert_eq!(*seen.lock().unwrap(), vec![5, 5]);

    dispatcher.register_handler("update", Box::new(Mark { seen: seen.clone() }), "tag2");
    assert_eq!(dispatcher.dispatch(&Message::update(6)).unwrap(), 2);
    dispatcher.unregister_handler("update", "tag3");
    dispatcher.unregister_handler("update", "tag1");
    assert_eq!(dispatcher.dispatch(&Message::update(7)).unwrap(), 1);
    assert_eq!(dispatcher.dispatch_as("print", &Message::update(8)), 1);
    assert_eq!(*seen.lock().unwrap(), vec![5, 5, 6, 6, 7, 8]);
}
