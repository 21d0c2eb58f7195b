//! The cache-aside protocol: look a key up, and only where nothing is stored
//! under it produce the value, store it for seven days and return it.
//!
//! The protocol is a machine of five states. Its caller talks to the store
//! and runs the producer; the machine says which of the two is due and
//! what ends the exchange. Values pass through as text, in the form in
//! which the store holds them.

use vstd::prelude::*;

verus! {

/// How long a stored value stays valid, in seconds: seven days.
pub const EXPIRES_SECS: u64 = 604800;

/// Where an exchange stands.
#[derive(Clone, Copy, Debug, PartialEq, Eq, Structural)]
pub enum CacheState {
    /// Nothing has happened yet.
    Idle,
    /// The store has been asked for the key.
    Looking,
    /// The store held nothing: the producer has been asked for the value.
    Producing,
    /// The produced value has been handed to the store.
    Storing,
    /// The exchange is over.
    Done,
}

/// What the caller reports to the machine.
#[derive(Debug, PartialEq, Eq)]
pub enum CacheEvent {
    /// The exchange begins.
    Begin,
    /// The store holds this text under the key.
    Found(String),
    /// The store holds nothing under the key.
    Missing,
    /// The producer returned a value, which is this as text.
    Produced(String),
    /// The store has taken the value.
    Stored,
}

/// What the machine asks of the caller.
#[derive(Debug, PartialEq, Eq)]
pub enum CacheAction {
    /// Ask the store for the key.
    Lookup,
    /// Read the value from this text and return it; a text that cannot be
    /// read fails the exchange. The producer is not run.
    Decode(String),
    /// Run the producer.
    Produce,
    /// Store this text under the key, to expire after so many seconds.
    Store { text: String, expires_secs: u64 },
    /// Return the value that the producer gave.
    Finish,
    /// The event does not belong to the state: nothing is to be done, and the
    /// state stays.
    Refuse,
}

/// An event as a plain value.
pub enum CacheEventView {
    Begin,
    Found(Seq<char>),
    Missing,
    Produced(Seq<char>),
    Stored,
}

/// An action as a plain value.
pub enum CacheActionView {
    Lookup,
    Decode(Seq<char>),
    Produce,
    Store { text: Seq<char>, expires_secs: int },
    Finish,
    Refuse,
}

impl View for CacheEvent {
    type V = CacheEventView;

    open spec fn view(&self) -> CacheEventView {
        match self {
            CacheEvent::Begin => CacheEventView::Begin,
            CacheEvent::Found(text) => CacheEventView::Found(text@),
            CacheEvent::Missing => CacheEventView::Missing,
            CacheEvent::Produced(text) => CacheEventView::Produced(text@),
            CacheEvent::Stored => CacheEventView::Stored,
        }
    }
}

impl View for CacheAction {
    type V = CacheActionView;

    open spec fn view(&self) -> CacheActionView {
        match self {
            CacheAction::Lookup => CacheActionView::Lookup,
            CacheAction::Decode(text) => CacheActionView::Decode(text@),
            CacheAction::Produce => CacheActionView::Produce,
            CacheAction::Store { text, expires_secs } => CacheActionView::Store {
                text: text@,
                expires_secs: *expires_secs as int,
            },
            CacheAction::Finish => CacheActionView::Finish,
            CacheAction::Refuse => CacheActionView::Refuse,
        }
    }
}

/// The state that follows and the action that is due when an event arrives
/// in a state.
pub open spec fn next(state: CacheState, event: CacheEventView) -> (CacheState, CacheActionView) {
    match (state, event) {
        (CacheState::Idle, CacheEventView::Begin) => (CacheState::Looking, CacheActionView::Lookup),
        (CacheState::Looking, CacheEventView::Found(text)) => (
            CacheState::Done,
            CacheActionView::Decode(text),
        ),
        (CacheState::Looking, CacheEventView::Missing) => (
            CacheState::Producing,
            CacheActionView::Produce,
        ),
        (CacheState::Producing, CacheEventView::Produced(text)) => (
            CacheState::Storing,
            CacheActionView::Store { text, expires_secs: EXPIRES_SECS as int },
        ),
        (CacheState::Storing, CacheEventView::Stored) => (
            CacheState::Done,
            CacheActionView::Finish,
        ),
        _ => (state, CacheActionView::Refuse),
    }
}

/// Takes the machine one step: from a state and an event to the state that
/// follows and the action that is due.
pub fn cache_step(state: CacheState, event: CacheEvent) -> (step: (CacheState, CacheAction))
    ensures
        (step.0, step.1@) == next(state, event@),
{
    match (state, event) {
        (CacheState::Idle, CacheEvent::Begin) => (CacheState::Looking, CacheAction::Lookup),
        (CacheState::Looking, CacheEvent::Found(text)) => (
            CacheState::Done,
            CacheAction::Decode(text),
        ),
        (CacheState::Looking, CacheEvent::Missing) => (CacheState::Producing, CacheAction::Produce),
        (CacheState::Producing, CacheEvent::Produced(text)) => (
            CacheState::Storing,
            CacheAction::Store { text, expires_secs: EXPIRES_SECS },
        ),
        (CacheState::Storing, CacheEvent::Stored) => (CacheState::Done, CacheAction::Finish),
        (state, _) => (state, CacheAction::Refuse),
    }
}

/// What a store holds: under each key a text and the time, in seconds, at
/// which it expires.
pub type Stored = Map<Seq<char>, (Seq<char>, int)>;

/// What the store answers for a key at a time: the text under the key, as
/// long as it has not expired.
pub open spec fn lookup(stored: Stored, key: Seq<char>, now: int) -> Option<Seq<char>> {
    if stored.contains_key(key) && now < stored[key].1 {
        Some(stored[key].0)
    } else {
        None
    }
}

/// The store after a text is stored under a key at a time, to expire after
/// so many seconds.
pub open spec fn store(
    stored: Stored,
    key: Seq<char>,
    text: Seq<char>,
    expires_secs: int,
    now: int,
) -> Stored {
    stored.insert(key, (text, now + expires_secs))
}

/// How an exchange ends.
pub struct Outcome {
    /// What the store holds afterwards.
    pub stored: Stored,
    /// The text of the value returned.
    pub returned: Seq<char>,
    /// Whether the producer was run.
    pub produced: bool,
}

/// One whole exchange for a key at a time, with a store that answers as
/// `lookup` and `store` say and a producer that would return `fresh`: the
/// machine is started and each action it asks for is carried out, until it
/// asks for the value to be returned.
pub open spec fn exchange(stored: Stored, key: Seq<char>, now: int, fresh: Seq<char>) -> Outcome {
    let asked = next(CacheState::Idle, CacheEventView::Begin);
    let answer = match lookup(stored, key, now) {
        Some(text) => CacheEventView::Found(text),
        None => CacheEventView::Missing,
    };
    let looked = next(asked.0, answer);
    match looked.1 {
        CacheActionView::Decode(text) => Outcome { stored, returned: text, produced: false },
        _ => {
            let made = next(looked.0, CacheEventView::Produced(fresh));
            match made.1 {
                CacheActionView::Store { text, expires_secs } => Outcome {
                    stored: store(stored, key, text, expires_secs, now),
                    returned: fresh,
                    produced: true,
                },
                _ => Outcome { stored, returned: fresh, produced: true },
            }
        },
    }
}

/// An exchange runs the producer only where the store holds nothing valid
/// under the key, and then returns what the producer gave and leaves it in
/// the store; where the store holds a text, it returns that text and leaves
/// the store as it is.
pub proof fn exchange_is_cache_aside(stored: Stored, key: Seq<char>, now: int, fresh: Seq<char>)
    ensures
        match lookup(stored, key, now) {
            Some(text) => exchange(stored, key, now, fresh) == (Outcome {
                stored,
                returned: text,
                produced: false,
            }),
            None => exchange(stored, key, now, fresh) == (Outcome {
                stored: store(stored, key, fresh, EXPIRES_SECS as int, now),
                returned: fresh,
                produced: true,
            }),
        },
{
}

/// After an exchange that stored a value under a key, a second exchange for
/// the same key before seven days have passed returns the same text, does
/// not run the producer and leaves the store as it is.
pub proof fn second_exchange_is_served_from_store(
    stored: Stored,
    key: Seq<char>,
    first_time: int,
    second_time: int,
    first_fresh: Seq<char>,
    second_fresh: Seq<char>,
)
    requires
        lookup(stored, key, first_time) is None,
        first_time <= second_time < first_time + EXPIRES_SECS,
    ensures
        ({
            let first = exchange(stored, key, first_time, first_fresh);
            let second = exchange(first.stored, key, second_time, second_fresh);
            &&& second.returned == first.returned
            &&& !second.produced
            &&& second.stored == first.stored
        }),
{
}

} // verus!
