use dispatchers::{LocalDispatcher, MessageType};

#[derive(Default)]
struct Message {
    pub value: i32,
    pub message_type: String,
}

impl MessageType for Message {
    fn message_type(&self) -> &str {
        &self.message_type
    }
}

impl Message {
    pub fn update(value: i32) -> Self {
        Self {
            value,
            message_type: "update".to_owned(),
        }
    }
    pub fn print() -> Self {
        Self {
            value: 0,
            message_type: "print".to_owned(),
        }
    }
}

#[test]
fn simple_dispatcher() {
    let dispatcher = LocalDispatcher::<'_, Message>::default();
    assert_eq!(dispatcher.dispatch(&Message::update(3)).unwrap(), 0);
    assert_eq!(dispatcher.dispatch(&Message::print()).unwrap(), 0);
    assert_eq!(Message::update(3).value, 3);
}
