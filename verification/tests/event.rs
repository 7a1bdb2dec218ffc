use mecha_launcher::event::{Event, EventHandler, EventHandlers, Message};

#[derive(Debug, PartialEq)]
enum Note {
    Number(u32),
    Text(String),
}

impl Message for Note {
    fn spec_kind(&self) -> u64 {
        self.kind()
    }
    fn kind(&self) -> u64 {
        match self {
            Note::Number(_) => 0,
            Note::Text(_) => 1,
        }
    }
}

struct Number(u32);

impl Event<Note> for Number {
    fn spec_event_kind() -> u64 {
        0
    }
    fn message(self) -> Note {
        self.into_message()
    }
    fn message_has_kind(self) {}
    fn message_is_injective(self, _other: Self) {}
    fn event_kind() -> u64 {
        0
    }
    fn into_message(self) -> Note {
        Note::Number(self.0)
    }
    fn from_message(message: Note) -> Self {
        match message {
            Note::Number(number) => Number(number),
            Note::Text(_) => panic!("not a number"),
        }
    }
}

/// Adds to every number, and remembers what it was given.
struct Adder {
    amount: u32,
    seen: Vec<u32>,
    seen_text: Vec<String>,
}

impl Adder {
    fn new(amount: u32) -> Adder {
        Adder { amount, seen: vec![], seen_text: vec![] }
    }
}

impl EventHandler<Note> for &'static std::sync::Mutex<Adder> {
    fn answers(_before: Self, _event: Note, _after: Self, _answer: Note) -> bool {
        true
    }
    fn handle(&mut self, event: Note) -> Note {
        let mut adder = self.lock().unwrap();
        match event {
            Note::Number(number) => {
                adder.seen.push(number);
                Note::Number(number + adder.amount)
            }
            Note::Text(text) => {
                adder.seen_text.push(text.clone());
                Note::Text(text)
            }
        }
    }
}

fn adder(amount: u32) -> &'static std::sync::Mutex<Adder> {
    Box::leak(Box::new(std::sync::Mutex::new(Adder::new(amount))))
}

#[test]
fn handlers_are_given_the_answer_of_the_one_before() {
    let (first, second, third) = (adder(1), adder(10), adder(100));
    let mut list = EventHandlers::new();
    list.insert_handler(first);
    list.insert_handler(second);
    list.insert_handler(third);
    list.send_event(Number(5).into_message());
    assert_eq!(first.lock().unwrap().seen, vec![5]);
    assert_eq!(second.lock().unwrap().seen, vec![6]);
    assert_eq!(third.lock().unwrap().seen, vec![16]);
}

#[test]
fn handlers_keep_their_state_between_events() {
    let only = adder(2);
    let mut list = EventHandlers::new();
    list.insert_handler(only);
    list.send_event(Note::Number(1));
    list.send_event(Note::Text("one".to_string()));
    list.send_event(Note::Number(2));
    assert_eq!(only.lock().unwrap().seen, vec![1, 2]);
    assert_eq!(only.lock().unwrap().seen_text, vec!["one".to_string()]);
}

#[test]
fn a_handler_inserted_later_misses_earlier_events() {
    let (early, late) = (adder(0), adder(0));
    let mut list = EventHandlers::new();
    list.insert_handler(early);
    list.send_event(Note::Number(1));
    list.insert_handler(late);
    list.send_event(Note::Number(2));
    assert_eq!(early.lock().unwrap().seen, vec![1, 2]);
    assert_eq!(late.lock().unwrap().seen, vec![2]);
}

#[test]
fn an_event_without_handlers_goes_nowhere() {
    let mut list: EventHandlers<&'static std::sync::Mutex<Adder>> = EventHandlers::new();
    list.send_event(Note::Number(1));
    let only = adder(0);
    list.insert_handler(only);
    assert!(only.lock().unwrap().seen.is_empty());
}

#[test]
fn an_event_survives_packing() {
    assert_eq!(Number::event_kind(), Number(7).into_message().kind());
    assert_eq!(Number::from_message(Number(7).into_message()).0, 7);
}
