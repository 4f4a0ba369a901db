use cricket::model::{
    id, AuthoredEvent, Chat, Event, Offer, SharedFile, Slot, Status, Transfer, User,
};
use cricket::storage::{recover_at, Store, NOT_CONNECTED, TRANSFER_GONE, TRANSFER_MISSING};

fn transfer(device: &str) -> Transfer {
    Transfer {
        repo: "alice/cricket-a".to_string(),
        issue: 7,
        offer: Offer {
            id: id(),
            sender: "alice".to_string(),
            source_device: device.to_string(),
            device_name: "Laptop".to_string(),
            created_at: 100,
            expires_at: 1000,
            files: vec![SharedFile { name: "a.txt".to_string(), size: 1, directory: false }],
            slots: vec![Slot { recipient: "bob".to_string(), code: "c".repeat(40) }],
        },
        events: vec![],
    }
}

fn event(status: Status) -> Event {
    Event {
        id: id(),
        recipient: "bob".to_string(),
        attempt: 1,
        status,
        at: 200,
        code: None,
        expires_at: None,
    }
}

fn signed_in(login: &str) -> Store {
    let mut store = Store::blank(id(), "Laptop".to_string());
    store.user = Some(User { login: login.to_string(), name: None });
    store
}

#[test]
fn a_new_store_has_a_device_identity() {
    let store = Store::default();
    assert_eq!(store.device_id.len(), 36);
    assert!(store.device_name.chars().count() <= 100);
    assert!(store.user.is_none());
    assert!(store.transfers.is_empty() && store.outbox.is_empty() && store.inflight.is_empty());
    assert_ne!(Store::default().device_id, store.device_id);
}

#[test]
fn login_needs_an_account() {
    let store = Store::blank(id(), "x".to_string());
    assert_eq!(store.login(), Err(NOT_CONNECTED.to_string()));
    assert_eq!(signed_in("alice").login(), Ok("alice".to_string()));
}

#[test]
fn upsert_replaces_the_chat_of_the_same_repository() {
    let mut store = signed_in("alice");
    store.upsert_chat(Chat { repo: "alice/cricket-a".to_string(), name: "One".to_string(), members: vec![] });
    store.upsert_chat(Chat { repo: "alice/cricket-b".to_string(), name: "Two".to_string(), members: vec![] });
    store.upsert_chat(Chat { repo: "Alice/Cricket-A".to_string(), name: "Three".to_string(), members: vec![] });
    assert_eq!(store.chats.len(), 2);
    assert_eq!(store.chats[0].name, "Two");
    assert_eq!(store.chats[1].name, "Three");
}

#[test]
fn enqueue_needs_an_account_and_a_stored_transfer() {
    let t = transfer("dev");
    let mut anonymous = Store::blank(id(), "x".to_string());
    assert_eq!(anonymous.enqueue(&t, event(Status::Seen)), Err(NOT_CONNECTED.to_string()));
    let mut store = signed_in("bob");
    assert_eq!(store.enqueue(&t, event(Status::Seen)), Err(TRANSFER_GONE.to_string()));
    assert!(store.outbox.is_empty());
}

#[test]
fn enqueued_event_is_stored_and_queued() {
    let mut store = signed_in("bob");
    store.transfers.push(transfer("dev"));
    let e = event(Status::Received);
    let event_id = e.id.clone();
    assert_eq!(store.enqueue(&transfer("dev"), e), Ok(()));
    assert_eq!(store.transfers[0].events.len(), 1);
    assert_eq!(store.transfers[0].events[0].author, "bob");
    assert_eq!(store.outbox.len(), 1);
    assert_eq!(store.outbox[0].authored.event.id, event_id);
    assert_eq!(store.outbox[0].issue, 7);
    assert_eq!(store.transfers[0].deliveries(300)[0].status, Status::Received);
    store.acknowledge(&event_id);
    assert!(store.outbox.is_empty());
    assert_eq!(store.transfers[0].events.len(), 1);
}

#[test]
fn acknowledging_one_event_keeps_the_others() {
    let mut store = signed_in("bob");
    store.transfers.push(transfer("dev"));
    let first = event(Status::Seen);
    let second = event(Status::Received);
    let first_id = first.id.clone();
    let second_id = second.id.clone();
    store.enqueue(&transfer("dev"), first).unwrap();
    store.enqueue(&transfer("dev"), second).unwrap();
    store.acknowledge(&first_id);
    assert_eq!(store.outbox.len(), 1);
    assert_eq!(store.outbox[0].authored.event.id, second_id);
}

#[test]
fn refresh_keeps_queued_events_until_published() {
    let mut store = signed_in("bob");
    store.transfers.push(transfer("dev"));
    store.enqueue(&transfer("dev"), event(Status::Received)).unwrap();
    let fresh = transfer("dev");
    let stored = store.refresh("alice/cricket-a#7", fresh);
    assert_eq!(stored.events.len(), 1);
    assert_eq!(store.transfers.len(), 1);
    assert_eq!(store.transfers[0].deliveries(300)[0].status, Status::Received);
    let again = store.refresh("alice/cricket-a#7", stored.duplicate());
    assert_eq!(again.events.len(), 1);
}

#[test]
fn missing_transfer_is_reported() {
    let store = signed_in("bob");
    assert_eq!(store.transfer("alice/cricket-a#7").err(), Some(TRANSFER_MISSING.to_string()));
    assert_eq!(store.position("alice/cricket-a#7"), None);
}

#[test]
fn tracked_delivery_is_forgotten_after_it_ends() {
    let mut store = signed_in("bob");
    store.track("k#1".to_string(), "bob".to_string(), 1);
    store.track("k#1".to_string(), "carol".to_string(), 1);
    store.untrack(&"k#1".to_string(), &"bob".to_string(), 1);
    assert_eq!(store.inflight.len(), 1);
    assert_eq!(store.inflight[0].recipient, "carol");
}

#[test]
fn recovery_reports_interrupted_local_deliveries_as_failed() {
    let mut store = signed_in("alice");
    let device = store.device_id.clone();
    store.transfers.push(transfer(&device));
    store.track("alice/cricket-a#7".to_string(), "bob".to_string(), 1);
    recover_at(&mut store, 500);
    assert!(store.inflight.is_empty());
    assert_eq!(store.outbox.len(), 1);
    assert_eq!(store.outbox[0].authored.event.status, Status::Failed);
    assert_eq!(store.outbox[0].authored.event.at, 500);
    assert_eq!(store.outbox[0].authored.author, "alice");
    assert_eq!(store.transfers[0].deliveries(500)[0].status, Status::Failed);
}

#[test]
fn recovery_leaves_other_devices_transfers_alone() {
    let mut store = signed_in("alice");
    store.transfers.push(transfer("another-device"));
    recover_at(&mut store, 500);
    assert!(store.outbox.is_empty());
    let mut anonymous = Store::blank(id(), "x".to_string());
    anonymous.transfers.push(transfer(&anonymous.device_id.clone()));
    anonymous.track("k".to_string(), "bob".to_string(), 1);
    recover_at(&mut anonymous, 500);
    assert_eq!(anonymous.inflight.len(), 1);
}

#[test]
fn recovery_does_not_touch_finished_deliveries() {
    let mut store = signed_in("alice");
    let device = store.device_id.clone();
    let mut t = transfer(&device);
    t.events.push(AuthoredEvent { author: "bob".to_string(), event: event(Status::Received) });
    store.transfers.push(t);
    recover_at(&mut store, 500);
    assert!(store.outbox.is_empty());
}

#[test]
fn recovering_twice_adds_nothing() {
    let mut store = signed_in("alice");
    let device = store.device_id.clone();
    store.transfers.push(transfer(&device));
    recover_at(&mut store, 500);
    assert_eq!(store.transfers[0].deliveries(u64::MAX)[0].status, Status::Failed);
    let events = store.transfers[0].events.len();
    let outbox = store.outbox.len();
    recover_at(&mut store, 600);
    assert_eq!(store.transfers[0].events.len(), events);
    assert_eq!(store.outbox.len(), outbox);
}
