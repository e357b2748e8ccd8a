use vstd::prelude::*;
use vstd::string::StringExecFns;

verus! {

/// An event that users can reserve places for.
pub struct Event {
    pub id: u64,
    pub name: String,
    pub link: String,
    pub max_adults: u64,
    pub max_children: u64,
    pub max_adults_per_reservation: u64,
    pub max_children_per_reservation: u64,
    /// When the event takes place (unix seconds).
    pub ts: u64,
    /// When the reminder is sent (unix seconds).
    pub remind: u64,
}

#[derive(PartialEq, Eq, Structural, Clone, Copy, Debug)]
pub enum EventState {
    Open,
    Closed,
}

impl EventState {
    /// The stored numeric form: 0 is open, anything else is closed.
    pub fn from_u64(v: u64) -> (r: EventState)
        ensures
            r == (if v == 0 { EventState::Open } else { EventState::Closed }),
    {
        if v == 0 {
            EventState::Open
        } else {
            EventState::Closed
        }
    }
}

#[derive(PartialEq, Eq, Structural, Clone, Copy, Debug)]
pub enum MessageType {
    Direct,
    Reminder,
    WaitingListPrompt,
}

impl MessageType {
    pub open spec fn code(self) -> u64 {
        match self {
            MessageType::Direct => 0,
            MessageType::Reminder => 1,
            MessageType::WaitingListPrompt => 2,
        }
    }

    /// The stored numeric form of the message type.
    pub fn to_u64(&self) -> (r: u64)
        ensures
            r == self.code(),
    {
        match self {
            MessageType::Direct => 0,
            MessageType::Reminder => 1,
            MessageType::WaitingListPrompt => 2,
        }
    }

    /// Reads the stored numeric form back; unknown codes give `None`.
    pub fn from_u64(v: u64) -> (r: Option<MessageType>)
        ensures
            match r {
                Some(t) => t.code() == v,
                None => v > 2,
            },
    {
        if v == 0 {
            Some(MessageType::Direct)
        } else if v == 1 {
            Some(MessageType::Reminder)
        } else if v == 2 {
            Some(MessageType::WaitingListPrompt)
        } else {
            None
        }
    }
}

/// Totals of one category (adults or children) as seen by one user.
pub struct Counter {
    /// Active places held by everybody.
    pub reserved: u64,
    /// Active places held by the user.
    pub my_reservation: u64,
    /// Waiting-list places held by the user.
    pub my_waiting: u64,
}

impl Counter {
    /// Builds a counter from aggregates that may be missing; a missing
    /// aggregate (no rows) counts as zero.
    pub fn new(reserved: Option<u64>, my_reservation: Option<u64>, my_waiting: Option<u64>) -> (r:
        Counter)
        ensures
            r.reserved == unwrap_or_zero(reserved),
            r.my_reservation == unwrap_or_zero(my_reservation),
            r.my_waiting == unwrap_or_zero(my_waiting),
    {
        Counter {
            reserved: match reserved {
                Some(v) => v,
                None => 0,
            },
            my_reservation: match my_reservation {
                Some(v) => v,
                None => 0,
            },
            my_waiting: match my_waiting {
                Some(v) => v,
                None => 0,
            },
        }
    }
}

pub open spec fn unwrap_or_zero(v: Option<u64>) -> u64 {
    match v {
        Some(x) => x,
        None => 0,
    }
}

} // verus!

verus! {

/// A user as the engine sees one.
pub struct User {
    pub id: u64,
    /// Full name.
    pub user_name1: String,
    /// Handle; empty when the user has none.
    pub user_name2: String,
    pub is_admin: bool,
}

/// The full name: the first name, then the last name after a space.
pub open spec fn full_name(first: Seq<char>, last: Option<Seq<char>>) -> Seq<char> {
    match last {
        Some(l) => first + " "@ + l,
        None => first,
    }
}

impl User {
    /// A user from the chat profile's fields; admins are those in `admins`.
    pub fn new(
        id: u64,
        first_name: &str,
        last_name: Option<&str>,
        username: Option<&str>,
        admins: &std::collections::HashSet<u64>,
    ) -> (r: User)
        ensures
            r.id == id,
            r.user_name1@ == full_name(
                first_name@,
                match last_name {
                    Some(l) => Some(l@),
                    None => None,
                },
            ),
            r.user_name2@ == match username {
                Some(u) => u@,
                None => Seq::<char>::empty(),
            },
            r.is_admin == admins@.contains(id),
    {
        broadcast use vstd::std_specs::hash::group_hash_axioms;

        let mut user_name1 = String::from_str(first_name);
        match last_name {
            Some(l) => {
                user_name1.append(" ");
                user_name1.append(l);
            },
            None => {},
        }
        let user_name2 = match username {
            Some(u) => String::from_str(u),
            None => String::new(),
        };
        User { id, user_name1, user_name2, is_admin: admins.contains(&id) }
    }
}

/// A sign-up outcome: what `sign_up` did.
#[derive(PartialEq, Eq, Structural, Clone, Copy, Debug)]
pub enum SignUpOutcome {
    /// A new reservation row was recorded.
    Inserted,
    /// A waiting-list row of the user became active instead.
    PromotedFromWaiting,
    /// The user's own limit does not allow the request.
    RejectedCapacity,
    /// The user is banned.
    RejectedBlacklisted,
    /// The event is past, or closed to non-admins.
    RejectedClosedOrExpired,
    /// The user holds a reservation for another event at the same time.
    RejectedConflict,
    /// The event does not exist.
    NotFound,
}

} // verus!

verus! {

/// One due message with the recipients chosen for it in this poll.
pub struct MessageBatch {
    pub message_id: u64,
    pub event_id: u64,
    pub sender: String,
    pub message_type: MessageType,
    pub waiting_list: bool,
    pub text: String,
    pub recipients: Vec<u64>,
}

} // verus!

verus! {

/// A participant of an event with the sums of one list.
pub struct Participant {
    pub user_id: u64,
    pub user_name1: String,
    pub user_name2: String,
    pub adults: u64,
    pub children: u64,
    pub attachment: Option<String>,
}

/// A holder of active reservations whose presence is not confirmed yet.
pub struct Presence {
    pub user_id: u64,
    pub user_name1: String,
    pub user_name2: String,
    /// Number of active reservation rows.
    pub reserved: u64,
    pub attachment: Option<String>,
}

/// An event as one user sees it.
pub struct EventStats {
    pub event: Event,
    pub adults: Counter,
    pub children: Counter,
    pub state: EventState,
}

impl EventStats {
    pub fn new(event: Event, adults: Counter, children: Counter, state: EventState) -> (r:
        EventStats)
        ensures
            r.event == event,
            r.adults == adults,
            r.children == children,
            r.state == state,
    {
        EventStats { event, adults, children, state }
    }
}

} // verus!
