use event_bot::{Event, MessageType, SignUpOutcome, Store, User};

fn event(max_adults: u64, ts: u64) -> Event {
    Event {
        id: 0,
        name: "Concert".to_string(),
        link: "https://example.org/concert".to_string(),
        max_adults,
        max_children: 0,
        max_adults_per_reservation: 5,
        max_children_per_reservation: 0,
        ts,
        remind: ts,
    }
}

fn user(id: u64) -> User {
    User { id, user_name1: format!("U{}", id), user_name2: String::new(), is_admin: false }
}

#[test]
fn budget_smaller_than_recipients() {
    let mut s = Store::new();
    let id = s.add_event(event(10, 100_000), 1).unwrap();
    s.outbox.clear();
    for u in 1..=3 {
        assert_eq!(s.sign_up(id, &user(u), 1, 0, false, 10 + u), SignUpOutcome::Inserted);
    }
    let mid = s.enqueue_message(id, "Org", false, MessageType::Direct, "Hello", 50, 40).unwrap();
    let batches = s.get_pending_messages(100, 2);
    assert_eq!(batches.len(), 1);
    assert_eq!(batches[0].recipients, vec![1, 2]);
    assert_eq!(batches[0].text, "Hello");
    assert_eq!(s.outbox.len(), 1);
    assert_eq!(s.outbox[0].message, mid);
    s.save_receipt(mid, 1, 101);
    s.save_receipt(mid, 2, 101);
    let batches = s.get_pending_messages(102, 2);
    assert_eq!(batches[0].recipients, vec![3]);
    s.save_receipt(mid, 3, 103);
    assert!(s.get_pending_messages(104, 2).is_empty());
    assert!(s.outbox.is_empty());
    assert!(s.messages.iter().all(|m| m.id != mid));
}

#[test]
fn zero_budget_keeps_everything() {
    let mut s = Store::new();
    let id = s.add_event(event(10, 100_000), 1).unwrap();
    s.sign_up(id, &user(1), 1, 0, false, 10);
    s.enqueue_message(id, "Org", false, MessageType::Direct, "Hi", 50, 40).unwrap();
    let before = s.outbox.len();
    assert!(s.get_pending_messages(100, 0).is_empty());
    assert_eq!(s.outbox.len(), before);
    assert_eq!(s.messages.len(), 2);
}

#[test]
fn prompt_goes_to_one_user_per_poll() {
    let mut s = Store::new();
    let id = s.add_event(event(1, 100_000), 1).unwrap();
    s.outbox.clear();
    s.sign_up(id, &user(1), 1, 0, false, 10);
    for u in 2..=5 {
        s.sign_up(id, &user(u), 1, 0, true, 10 + u);
    }
    s.cancel(id, 1, 1, 100).unwrap();
    // a second arming of the same prompt is due too
    s.prompt_waiting_list(id, 101).unwrap();
    assert_eq!(s.outbox.len(), 2);
    let batches = s.get_pending_messages(1000, 100);
    let total: usize = batches.iter().map(|b| b.recipients.len()).sum();
    assert_eq!(total, 1);
    assert_eq!(batches[0].recipients, vec![2]);
    assert_eq!(batches[0].message_type, MessageType::WaitingListPrompt);
}

#[test]
fn prompt_held_back_without_vacancy() {
    let mut s = Store::new();
    let id = s.add_event(event(1, 100_000), 1).unwrap();
    s.outbox.clear();
    s.sign_up(id, &user(1), 1, 0, false, 10);
    s.sign_up(id, &user(2), 1, 0, true, 11);
    s.cancel(id, 1, 1, 100).unwrap();
    s.sign_up(id, &user(3), 1, 0, false, 105);
    assert!(!s.have_vacancies(id));
    s.save_receipt(s.messages[1].id, 9, 106);
    assert!(s.get_pending_messages(1000, 10).is_empty());
    assert_eq!(s.outbox.len(), 1);
    assert_eq!(s.receipts.len(), 1);
    assert_eq!(s.messages.iter().filter(|m| m.message_type == MessageType::WaitingListPrompt).count(), 1);
}

#[test]
fn waiting_list_message_scope() {
    let mut s = Store::new();
    let id = s.add_event(event(1, 100_000), 1).unwrap();
    s.outbox.clear();
    s.sign_up(id, &user(1), 1, 0, false, 10);
    s.sign_up(id, &user(2), 1, 0, true, 11);
    s.sign_up(id, &user(2), 1, 0, true, 12);
    s.enqueue_message(id, "Org", true, MessageType::Direct, "Wait", 5, 5).unwrap();
    let batches = s.get_pending_messages(10, 10);
    assert_eq!(batches[0].recipients, vec![2]);
    assert!(batches[0].waiting_list);
}

#[test]
fn history_of_direct_messages() {
    let mut s = Store::new();
    let id = s.add_event(event(1, 100_000), 1).unwrap();
    s.enqueue_message(id, "Org", false, MessageType::Direct, "A", 5, 5).unwrap();
    s.enqueue_message(id, "Org", true, MessageType::Direct, "B", 5, 6).unwrap();
    s.enqueue_message(id, "", true, MessageType::Direct, "C", 5, 7).unwrap();
    assert_eq!(s.get_messages(id, None).len(), 2);
    let w = s.get_messages(id, Some(true));
    assert_eq!(w.len(), 1);
    assert_eq!(w[0].text, "B");
}

#[test]
fn recipients_oldest_reservation_first() {
    let mut s = Store::new();
    let id = s.add_event(event(10, 100_000), 1).unwrap();
    s.outbox.clear();
    s.sign_up(id, &user(1), 1, 0, false, 30);
    s.sign_up(id, &user(2), 1, 0, false, 10);
    s.sign_up(id, &user(3), 1, 0, false, 20);
    s.enqueue_message(id, "Org", false, MessageType::Direct, "Hi", 5, 5).unwrap();
    let batches = s.get_pending_messages(10, 10);
    assert_eq!(batches[0].recipients, vec![2, 3, 1]);
}

#[test]
fn history_in_time_order() {
    let mut s = Store::new();
    let id = s.add_event(event(1, 100_000), 1).unwrap();
    s.enqueue_message(id, "Org", false, MessageType::Direct, "late", 5, 50).unwrap();
    s.enqueue_message(id, "Org", false, MessageType::Direct, "early", 5, 20).unwrap();
    let texts: Vec<String> = s.get_messages(id, None).into_iter().map(|m| m.text).collect();
    assert_eq!(texts, vec!["early".to_string(), "late".to_string()]);
}
