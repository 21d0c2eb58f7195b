use examfinder::cache::{cache_step, CacheAction, CacheEvent, CacheState, EXPIRES_SECS};
use std::collections::HashMap;

struct Store {
    entries: HashMap<String, (String, u64)>,
    now: u64,
}

impl Store {
    fn get(&self, key: &str) -> Option<String> {
        match self.entries.get(key) {
            Some((text, expires)) if self.now < *expires => Some(text.clone()),
            _ => None,
        }
    }

    fn set_ex(&mut self, key: &str, text: String, secs: u64) {
        self.entries.insert(key.to_string(), (text, self.now + secs));
    }
}

fn exchange(store: &mut Store, key: &str, fresh: &str, produced: &mut u32) -> String {
    let mut state = CacheState::Idle;
    let mut event = CacheEvent::Begin;
    loop {
        let (next, action) = cache_step(state, event);
        state = next;
        event = match action {
            CacheAction::Lookup => match store.get(key) {
                Some(text) => CacheEvent::Found(text),
                None => CacheEvent::Missing,
            },
            CacheAction::Decode(text) => {
                assert_eq!(state, CacheState::Done);
                return text;
            }
            CacheAction::Produce => {
                *produced += 1;
                CacheEvent::Produced(fresh.to_string())
            }
            CacheAction::Store { text, expires_secs } => {
                store.set_ex(key, text, expires_secs);
                CacheEvent::Stored
            }
            CacheAction::Finish => {
                assert_eq!(state, CacheState::Done);
                return fresh.to_string();
            }
            CacheAction::Refuse => panic!("refused"),
        };
    }
}

#[test]
fn expiry_is_seven_days() {
    assert_eq!(EXPIRES_SECS, 60 * 60 * 24 * 7);
    assert_eq!(EXPIRES_SECS, 604800);
}

#[test]
fn steps_of_a_miss() {
    assert_eq!(
        cache_step(CacheState::Idle, CacheEvent::Begin),
        (CacheState::Looking, CacheAction::Lookup)
    );
    assert_eq!(
        cache_step(CacheState::Looking, CacheEvent::Missing),
        (CacheState::Producing, CacheAction::Produce)
    );
    assert_eq!(
        cache_step(CacheState::Producing, CacheEvent::Produced("[1]".to_string())),
        (
            CacheState::Storing,
            CacheAction::Store { text: "[1]".to_string(), expires_secs: 604800 }
        )
    );
    assert_eq!(
        cache_step(CacheState::Storing, CacheEvent::Stored),
        (CacheState::Done, CacheAction::Finish)
    );
}

#[test]
fn steps_of_a_hit() {
    assert_eq!(
        cache_step(CacheState::Looking, CacheEvent::Found("{}".to_string())),
        (CacheState::Done, CacheAction::Decode("{}".to_string()))
    );
}

#[test]
fn events_out_of_turn_are_refused() {
    let states = [
        CacheState::Idle,
        CacheState::Looking,
        CacheState::Producing,
        CacheState::Storing,
        CacheState::Done,
    ];
    let events = || {
        vec![
            CacheEvent::Begin,
            CacheEvent::Found("x".to_string()),
            CacheEvent::Missing,
            CacheEvent::Produced("x".to_string()),
            CacheEvent::Stored,
        ]
    };
    let mut accepted = 0;
    for state in states {
        for event in events() {
            let (next, action) = cache_step(state, event);
            if action == CacheAction::Refuse {
                assert_eq!(next, state);
            } else {
                accepted += 1;
            }
        }
    }
    assert_eq!(accepted, 5);
    assert_eq!(
        cache_step(CacheState::Done, CacheEvent::Begin),
        (CacheState::Done, CacheAction::Refuse)
    );
}

#[test]
fn second_exchange_within_seven_days_does_not_produce() {
    let mut store = Store { entries: HashMap::new(), now: 1000 };
    let mut produced = 0;
    let first = exchange(&mut store, "mathsoc:exams", "{\"CS135\":[]}", &mut produced);
    assert_eq!(first, "{\"CS135\":[]}");
    assert_eq!(produced, 1);
    store.now = 1000 + 604799;
    let second = exchange(&mut store, "mathsoc:exams", "other", &mut produced);
    assert_eq!(second, first);
    assert_eq!(produced, 1);
    let other_key = exchange(&mut store, "mathsoc_services:courses", "[]", &mut produced);
    assert_eq!(other_key, "[]");
    assert_eq!(produced, 2);
}

#[test]
fn exchange_after_expiry_produces_again() {
    let mut store = Store { entries: HashMap::new(), now: 0 };
    let mut produced = 0;
    exchange(&mut store, "k", "v1", &mut produced);
    store.now = 604800;
    let again = exchange(&mut store, "k", "v2", &mut produced);
    assert_eq!(again, "v2");
    assert_eq!(produced, 2);
    store.now = 604801;
    assert_eq!(exchange(&mut store, "k", "v3", &mut produced), "v2");
    assert_eq!(produced, 2);
}
