//! Reservation and admission engine for an event sign-up service: capacity
//! accounting, waiting lists, blacklisting and a durable message outbox.
//!
//! All tables live in a [`Store`]; each operation reads what it needs from
//! it and changes it in place. Sign-ups must be serialized by the caller.
pub mod blacklist;
pub mod capacity;
pub mod cleanup;
pub mod drain;
pub mod engine;
pub mod events;
pub mod order;
pub mod outbox;
pub mod participants;
pub mod rows;
pub mod store;
pub mod types;

pub use capacity::{get_vacancies, have_vacancies};
pub use store::{
    Attachment, BlacklistEntry, CurrentEvent, EventRecord, Mark, Message, OutboxEntry, Receipt,
    Reservation, Store, StoreError,
};
pub use types::{
    Counter, Event, EventState, EventStats, MessageBatch, MessageType, Participant, Presence,
    SignUpOutcome, User,
};
