use event_bot::{
    get_vacancies, have_vacancies, Event, EventState, MessageType, SignUpOutcome, Store,
    StoreError, User,
};
use std::collections::HashSet;

fn event(max_adults: u64, max_children: u64, per_adults: u64, per_children: u64, ts: u64) -> Event {
    Event {
        id: 0,
        name: "Picnic".to_string(),
        link: "https://example.org/picnic".to_string(),
        max_adults,
        max_children,
        max_adults_per_reservation: per_adults,
        max_children_per_reservation: per_children,
        ts,
        remind: ts - 100,
    }
}

fn user(id: u64) -> User {
    User { id, user_name1: format!("User {}", id), user_name2: String::new(), is_admin: false }
}

fn active_adults(s: &Store, event_id: u64, user: u64) -> u64 {
    s.reservations
        .iter()
        .filter(|r| r.event == event_id && r.user == user && !r.waiting_list)
        .map(|r| r.adults)
        .sum()
}

#[test]
fn vacancy_formula() {
    assert_eq!(get_vacancies(5, 3, 2, 4), (3, 0));
    assert_eq!(get_vacancies(2, 0, 0, 0), (2, 0));
    assert!(have_vacancies(2, 1, 2, 0));
    assert!(!have_vacancies(2, 1, 3, 0));
    assert!(!have_vacancies(0, 0, 0, 0));
}

#[test]
fn store_vacancy_counts_active_rows_only() {
    let mut s = Store::new();
    let id = s.add_event(event(3, 2, 3, 2, 1000), 1).unwrap();
    assert_eq!(s.sign_up(id, &user(1), 2, 1, false, 10), SignUpOutcome::Inserted);
    assert_eq!(s.sign_up(id, &user(2), 1, 1, true, 10), SignUpOutcome::Inserted);
    assert_eq!(s.get_vacancies(id), (1, 1));
    assert!(s.have_vacancies(id));
    assert_eq!(s.get_vacancies(999), (0, 0));
    assert!(!s.have_vacancies(999));
}

#[test]
fn overbooked_category_counts_against_the_other() {
    let mut s = Store::new();
    let id = s.add_event(event(2, 1, 3, 1, 1000), 1).unwrap();
    assert_eq!(s.sign_up(id, &user(1), 3, 0, false, 10), SignUpOutcome::Inserted);
    assert_eq!(s.get_vacancies(id), (0, 1));
    assert!(!s.have_vacancies(id));
}

#[test]
fn per_user_cap_boundary() {
    let mut s = Store::new();
    let id = s.add_event(event(10, 0, 2, 0, 1000), 1).unwrap();
    assert_eq!(s.sign_up(id, &user(1), 2, 0, false, 10), SignUpOutcome::Inserted);
    assert_eq!(active_adults(&s, id, 1), 2);
    assert_eq!(s.sign_up(id, &user(1), 1, 0, false, 11), SignUpOutcome::RejectedCapacity);
    assert_eq!(s.reservations.len(), 1);
    assert!(active_adults(&s, id, 1) <= 2);
    s.cancel(id, 1, 2, 20).unwrap();
    assert_eq!(s.sign_up(id, &user(1), 1, 0, false, 21), SignUpOutcome::Inserted);
    assert_eq!(s.sign_up(id, &user(1), 1, 0, false, 22), SignUpOutcome::Inserted);
    assert_eq!(active_adults(&s, id, 1), 2);
}

#[test]
fn promotion_from_waiting_list() {
    let mut s = Store::new();
    let id = s.add_event(event(10, 0, 1, 0, 1000), 1).unwrap();
    assert_eq!(s.sign_up(id, &user(1), 1, 0, true, 10), SignUpOutcome::Inserted);
    assert!(s.reservations[0].waiting_list);
    assert_eq!(s.sign_up(id, &user(1), 1, 0, false, 11), SignUpOutcome::PromotedFromWaiting);
    assert_eq!(s.reservations.len(), 1);
    assert!(!s.reservations[0].waiting_list);
    assert_eq!(active_adults(&s, id, 1), 1);
}

#[test]
fn blacklisted_user_is_rejected() {
    let mut s = Store::new();
    let id = s.add_event(event(10, 10, 5, 5, 1000), 1).unwrap();
    s.ban_user(7, "Seven", "", "no show", false, 5).unwrap();
    for (a, c, w) in [(1, 0, false), (0, 3, true), (100, 100, false)] {
        assert_eq!(s.sign_up(id, &user(7), a, c, w, 10), SignUpOutcome::RejectedBlacklisted);
    }
    s.change_event_state(id, 1);
    let mut admin = user(7);
    admin.is_admin = true;
    assert_eq!(s.sign_up(id, &admin, 1, 0, false, 10), SignUpOutcome::RejectedBlacklisted);
    assert_eq!(s.sign_up(id, &user(7), 1, 0, false, 10), SignUpOutcome::RejectedClosedOrExpired);
    assert!(s.reservations.is_empty());
}

#[test]
fn sign_up_rejections() {
    let mut s = Store::new();
    let id = s.add_event(event(10, 10, 5, 5, 1000), 1).unwrap();
    let other = s.add_event(event(10, 10, 5, 5, 1000), 1).unwrap();
    assert_eq!(s.sign_up(99, &user(1), 1, 0, false, 10), SignUpOutcome::NotFound);
    assert_eq!(s.sign_up(id, &user(1), 1, 0, false, 1001), SignUpOutcome::RejectedClosedOrExpired);
    assert_eq!(s.sign_up(id, &user(1), 1, 0, false, 10), SignUpOutcome::Inserted);
    assert_eq!(s.sign_up(other, &user(1), 1, 0, false, 10), SignUpOutcome::RejectedConflict);
    s.change_event_state(other, 1);
    assert_eq!(s.sign_up(other, &user(2), 1, 0, false, 10), SignUpOutcome::RejectedClosedOrExpired);
    assert_eq!(s.events[1].state, EventState::Closed);
}

#[test]
fn cancel_prefers_waiting_row() {
    let mut s = Store::new();
    let id = s.add_event(event(10, 0, 5, 0, 1000), 1).unwrap();
    s.sign_up(id, &user(1), 1, 0, false, 10);
    s.sign_up(id, &user(1), 1, 0, true, 11);
    s.cancel(id, 1, 1, 20).unwrap();
    assert_eq!(s.reservations.len(), 1);
    assert!(!s.reservations[0].waiting_list);
}

#[test]
fn wontgo_removes_all_rows_of_user() {
    let mut s = Store::new();
    let id = s.add_event(event(10, 5, 5, 5, 1000), 1).unwrap();
    s.sign_up(id, &user(1), 1, 0, false, 10);
    s.sign_up(id, &user(1), 0, 2, true, 11);
    s.sign_up(id, &user(2), 1, 0, false, 12);
    s.wontgo(id, 1, 20).unwrap();
    assert_eq!(s.reservations.len(), 1);
    assert_eq!(s.reservations[0].user, 2);
    s.delete_reservation(id, 2, 21).unwrap();
    assert!(s.reservations.is_empty());
}

#[test]
fn waiting_list_scenario() {
    let mut s = Store::new();
    let id = s.add_event(event(2, 0, 2, 0, 100_000), 1).unwrap();
    // drop the reminder so that only the prompt is in the outbox
    s.outbox.clear();
    assert_eq!(s.sign_up(id, &user(1), 1, 0, false, 10), SignUpOutcome::Inserted);
    assert_eq!(s.sign_up(id, &user(1), 1, 0, false, 11), SignUpOutcome::Inserted);
    assert!(!s.have_vacancies(id));
    assert_eq!(s.sign_up(id, &user(2), 1, 0, true, 12), SignUpOutcome::Inserted);
    assert!(s.reservations[2].waiting_list);
    s.cancel(id, 1, 1, 1000).unwrap();
    assert!(s.have_vacancies(id));
    let prompts: Vec<_> = s
        .messages
        .iter()
        .filter(|m| m.message_type == MessageType::WaitingListPrompt && m.event == id)
        .collect();
    assert_eq!(prompts.len(), 1);
    let mid = prompts[0].id;
    assert!(prompts[0].waiting_list);
    assert_eq!(s.outbox.len(), 1);
    assert_eq!(s.outbox[0].message, mid);
    assert_eq!(s.outbox[0].send_at, 1010);
    // not due yet
    assert!(s.get_pending_messages(1005, 10).is_empty());
    let batches = s.get_pending_messages(1011, 10);
    assert_eq!(batches.len(), 1);
    assert_eq!(batches[0].message_id, mid);
    assert_eq!(batches[0].recipients, vec![2]);
    s.save_receipt(mid, 2, 1012);
    let batches = s.get_pending_messages(1013, 10);
    assert!(batches.is_empty());
    assert!(s.messages.iter().all(|m| m.id != mid));
    assert!(s.outbox.is_empty());
    assert!(s.receipts.is_empty());
}

#[test]
fn prompt_is_rearmed() {
    let mut s = Store::new();
    let id = s.add_event(event(1, 0, 1, 0, 100_000), 1).unwrap();
    s.outbox.clear();
    s.sign_up(id, &user(1), 1, 0, false, 10);
    s.cancel(id, 1, 1, 100).unwrap();
    s.sign_up(id, &user(1), 1, 0, false, 110);
    s.cancel(id, 1, 1, 200).unwrap();
    let n = s.messages.iter().filter(|m| m.message_type == MessageType::WaitingListPrompt).count();
    assert_eq!(n, 1);
    assert_eq!(s.outbox.len(), 2);
    assert_eq!(s.outbox[1].send_at, 210);
}

#[test]
fn set_event_limits_prompts_when_vacancy_appears() {
    let mut s = Store::new();
    let id = s.add_event(event(1, 0, 1, 0, 100_000), 1).unwrap();
    s.outbox.clear();
    s.sign_up(id, &user(1), 1, 0, false, 10);
    s.set_event_limits(id, 2, 0, 50).unwrap();
    assert_eq!(s.events[0].event.max_adults, 2);
    assert_eq!(s.outbox.len(), 1);
    assert_eq!(s.outbox[0].send_at, 60);
}

#[test]
fn add_event_schedules_reminder_and_updates() {
    let mut s = Store::new();
    let id = s.add_event(event(1, 0, 1, 0, 5000), 1).unwrap();
    assert_eq!(id, 1);
    assert_eq!(s.messages.len(), 1);
    assert_eq!(s.messages[0].message_type, MessageType::Reminder);
    assert_eq!(s.outbox[0].send_at, 4900);
    assert!(s.messages[0].text.contains("Picnic"));
    let mut e = event(3, 3, 2, 2, 6000);
    e.id = id;
    assert_eq!(s.add_event(e, 2), Ok(0));
    assert_eq!(s.events[0].event.max_adults, 3);
    assert_eq!(s.get_event_name(id), Ok("Picnic".to_string()));
    assert_eq!(s.get_event_name(5), Err(StoreError::NotFound));
}

#[test]
fn get_event_reports_user_view() {
    let mut s = Store::new();
    let id = s.add_event(event(10, 10, 5, 5, 1000), 1).unwrap();
    s.sign_up(id, &user(1), 2, 1, false, 10);
    s.sign_up(id, &user(1), 1, 0, true, 11);
    s.sign_up(id, &user(2), 3, 0, false, 12);
    let st = s.get_event(id, 1).unwrap();
    assert_eq!(st.adults.reserved, 5);
    assert_eq!(st.adults.my_reservation, 2);
    assert_eq!(st.adults.my_waiting, 1);
    assert_eq!(st.children.my_reservation, 1);
    assert_eq!(s.get_current_event(1), id);
    assert_eq!(s.get_current_event(2), 0);
    assert!(s.get_event(77, 1).is_err());
    let page = s.get_events(1, 0, 10);
    assert_eq!(page.len(), 1);
    assert_eq!(page[0].adults.my_reservation, 2);
}

#[test]
fn users_from_profiles() {
    let admins: HashSet<u64> = [5].into_iter().collect();
    let u = User::new(5, "Ann", Some("Lee"), Some("ann"), &admins);
    assert_eq!(u.user_name1, "Ann Lee");
    assert_eq!(u.user_name2, "ann");
    assert!(u.is_admin);
    let v = User::new(6, "Bob", None, None, &admins);
    assert_eq!(v.user_name1, "Bob");
    assert_eq!(v.user_name2, "");
    assert!(!v.is_admin);
}
