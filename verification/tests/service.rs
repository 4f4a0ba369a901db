use cricket::model::{
    id, valid_code, AuthoredEvent, Chat, Event, Offer, SharedFile, Slot, SourceFile, Status,
    Transfer, User, TRANSFER_TTL,
};
use cricket::service::{
    admit_job, chat_members, check_account, check_capacity, check_logout, check_token,
    discover_due, download_folder, finished_status, job_id, job_view, make_offer,
    offer_recipients, plan_receive, plan_request_retry, plan_retry, remember, retried,
    seen_targets, sources_unchanged, sync_interval, without_ats, Snapshot, ALREADY_RECEIVED,
    ALREADY_RUNNING, BAD_TOKEN, CANCELLED, CAPACITY, CLOSING, JOBS_ACTIVE, NOT_ADDRESSED,
    NOT_WAITING, NOT_YOURS, NO_RECIPIENT, NO_RETRY_NEEDED, OTHER_ACCOUNT, OTHER_DEVICE,
    RECEIPTS_PENDING, RECEIVE_BUSY, RETRY_ELSEWHERE, STILL_RUNNING, TOO_MANY_JOBS,
};
use cricket::storage::Store;

fn transfer(device: &str) -> Transfer {
    Transfer {
        repo: "alice/cricket-a".to_string(),
        issue: 3,
        offer: Offer {
            id: id(),
            sender: "alice".to_string(),
            source_device: device.to_string(),
            device_name: "Laptop".to_string(),
            created_at: 100,
            expires_at: 1000,
            files: vec![SharedFile { name: "a.txt".to_string(), size: 1, directory: false }],
            slots: vec![
                Slot { recipient: "bob".to_string(), code: "c".repeat(40) },
                Slot { recipient: "carol".to_string(), code: "d".repeat(40) },
            ],
        },
        events: vec![],
    }
}

fn add(t: &mut Transfer, author: &str, recipient: &str, status: Status, attempt: u32) {
    t.events.push(AuthoredEvent {
        author: author.to_string(),
        event: Event {
            id: id(),
            recipient: recipient.to_string(),
            attempt,
            status,
            at: 200,
            code: None,
            expires_at: None,
        },
    });
}

fn source(path: &str, size: u64, modified: u64) -> SourceFile {
    SourceFile {
        path: path.to_string(),
        file: SharedFile { name: path.to_string(), size, directory: false },
        modified,
    }
}

#[test]
fn job_ids_lowercase_the_recipient() {
    assert_eq!(job_id("alice/cricket-a#3", "Bob"), "alice/cricket-a#3:bob");
    let view = job_view("k#1", "Carol", true);
    assert_eq!(view.id, "k#1:carol");
    assert_eq!(view.recipient, "Carol");
    assert_eq!(view.direction, "send");
    assert_eq!(job_view("k#1", "x", false).direction, "receive");
}

#[test]
fn finished_runs_publish_their_status() {
    assert_eq!(finished_status(true, &Ok(())), Status::Sent);
    assert_eq!(finished_status(false, &Ok(())), Status::Received);
    assert_eq!(finished_status(true, &Err(CANCELLED.to_string())), Status::Cancelled);
    assert_eq!(finished_status(false, &Err("boom".to_string())), Status::Failed);
}

#[test]
fn jobs_are_admitted_one_per_delivery_and_ten_at_most() {
    assert_eq!(admit_job(true, 0, false), Err(ALREADY_RUNNING.to_string()));
    assert_eq!(admit_job(false, 10, false), Err(TOO_MANY_JOBS.to_string()));
    assert_eq!(admit_job(false, 9, true), Err(CLOSING.to_string()));
    assert_eq!(admit_job(false, 9, false), Ok(()));
    assert_eq!(check_capacity(8, 2), Ok(()));
    assert_eq!(check_capacity(8, 3), Err(CAPACITY.to_string()));
}

#[test]
fn offers_go_to_every_other_member() {
    let members = vec!["alice".to_string(), "Bob".to_string(), "carol".to_string()];
    assert_eq!(offer_recipients(&members, "ALICE"), vec!["Bob".to_string(), "carol".to_string()]);
}

#[test]
fn a_new_offer_announces_files_and_fresh_codes() {
    let sources = vec![source("/tmp/a.txt", 5, 1), source("/tmp/b", 0, 2)];
    let recipients = vec!["bob".to_string(), "carol".to_string()];
    let offer = make_offer("alice".to_string(), "dev".to_string(), "Laptop".to_string(), 100, &sources, &recipients);
    assert_eq!(offer.sender, "alice");
    assert_eq!(offer.expires_at, 100 + TRANSFER_TTL);
    assert_eq!(offer.files.len(), 2);
    assert_eq!(offer.files[0].size, 5);
    assert_eq!(offer.slots.len(), 2);
    assert_eq!(offer.slots[1].recipient, "carol");
    assert!(valid_code(&offer.slots[0].code) && valid_code(&offer.slots[1].code));
    assert_ne!(offer.slots[0].code, offer.slots[1].code);
}

#[test]
fn receiving_is_planned_for_the_addressed_member_only() {
    let t = transfer("sender-device");
    assert_eq!(plan_receive(&t, "sender-device", "bob", 300, 0, false).err(), Some(OTHER_DEVICE.to_string()));
    assert_eq!(plan_receive(&t, "mine", "mallory", 300, 0, false).err(), Some(NOT_ADDRESSED.to_string()));
    assert_eq!(plan_receive(&t, "mine", "bob", 300, 10, false).err(), Some(RECEIVE_BUSY.to_string()));
    assert_eq!(plan_receive(&t, "mine", "bob", 300, 0, true).err(), Some(RECEIVE_BUSY.to_string()));
    assert_eq!(plan_receive(&t, "mine", "bob", 1001, 0, false).err(), Some(NOT_WAITING.to_string()));
    let d = plan_receive(&t, "mine", "BOB", 300, 0, false).unwrap();
    assert_eq!(d.recipient, "bob");
    assert_eq!(d.code, "c".repeat(40));
}

#[test]
fn download_folders_are_named_after_both_ids() {
    assert_eq!(download_folder("0123456789", "abcdefghij"), "Cricket-01234567-abcdefgh");
    assert_eq!(download_folder("0123", "ab"), "Cricket-0123-ab");
}

#[test]
fn only_the_sending_device_retries() {
    let mut t = transfer("dev");
    assert_eq!(plan_retry(&t, "alice", "other", "bob", 300, false).err(), Some(RETRY_ELSEWHERE.to_string()));
    assert_eq!(plan_retry(&t, "bob", "dev", "bob", 300, false).err(), Some(RETRY_ELSEWHERE.to_string()));
    assert_eq!(plan_retry(&t, "alice", "dev", "dave", 300, false).err(), Some(NO_RECIPIENT.to_string()));
    assert_eq!(plan_retry(&t, "alice", "dev", "bob", 300, true).err(), Some(STILL_RUNNING.to_string()));
    add(&mut t, "bob", "bob", Status::Received, 1);
    assert_eq!(plan_retry(&t, "alice", "dev", "bob", 300, false).err(), Some(ALREADY_RECEIVED.to_string()));
    let d = plan_retry(&t, "Alice", "dev", "carol", 300, false).unwrap();
    assert_eq!(d.recipient, "carol");
    assert_eq!(d.attempt, 1);
}

#[test]
fn a_retry_rotates_the_code_and_extends_the_deadline() {
    let t = transfer("dev");
    let d = plan_retry(&t, "alice", "dev", "bob", 300, false).unwrap();
    let (next, event) = retried(&d, 400);
    assert_eq!(next.attempt, 2);
    assert_ne!(next.code, d.code);
    assert!(valid_code(&next.code));
    assert_eq!(next.expires_at, 400 + TRANSFER_TTL);
    assert_eq!(event.status, Status::Waiting);
    assert_eq!(event.code, Some(next.code.clone()));
    assert_eq!(event.expires_at, Some(400 + TRANSFER_TTL));
    let mut t2 = t.duplicate();
    t2.events.push(AuthoredEvent { author: "alice".to_string(), event });
    let now = &t2.deliveries(500)[0];
    assert_eq!(now.attempt, 2);
    assert_eq!(now.code, next.code);
}

#[test]
fn changed_sources_block_a_retry() {
    let before = vec![source("/a", 5, 1)];
    assert!(sources_unchanged(&before, &vec![source("/a", 5, 1)]));
    assert!(!sources_unchanged(&before, &vec![source("/a", 6, 1)]));
    assert!(!sources_unchanged(&before, &vec![source("/a", 5, 2)]));
}

#[test]
fn retry_requests_come_from_recipients_of_stalled_deliveries() {
    let mut t = transfer("dev");
    assert_eq!(plan_request_retry(&t, "mallory", 300), Err(NOT_YOURS.to_string()));
    assert_eq!(plan_request_retry(&t, "bob", 300), Err(NO_RETRY_NEEDED.to_string()));
    assert_eq!(plan_request_retry(&t, "bob", 1001), Ok(Some(1)));
    add(&mut t, "bob", "bob", Status::RetryRequested, 1);
    assert_eq!(plan_request_retry(&t, "bob", 1001), Ok(None));
}

#[test]
fn chat_members_start_with_the_account_and_are_unique() {
    let typed = vec![" @Bob ".to_string(), "bob".to_string(), "".to_string(), "@@carol".to_string(), "ALICE".to_string()];
    assert_eq!(chat_members("alice", &typed), vec!["alice".to_string(), "Bob".to_string(), "carol".to_string()]);
    assert_eq!(without_ats("@@x@"), "x@");
}

#[test]
fn tokens_are_trimmed_and_bounded() {
    assert_eq!(check_token(&format!("  {}\n", "t".repeat(20))), Ok("t".repeat(20)));
    assert_eq!(check_token(&"t".repeat(19)), Err(BAD_TOKEN.to_string()));
    assert_eq!(check_token(&"t".repeat(301)), Err(BAD_TOKEN.to_string()));
}

#[test]
fn another_account_must_sign_out_first() {
    let mut store = Store::blank(id(), "x".to_string());
    assert_eq!(check_account(&store, "bob"), Ok(()));
    store.user = Some(User { login: "alice".to_string(), name: None });
    assert_eq!(check_account(&store, "ALICE"), Ok(()));
    assert_eq!(check_account(&store, "bob"), Err(OTHER_ACCOUNT.to_string()));
}

#[test]
fn sign_out_waits_for_jobs_and_receipts() {
    let mut store = Store::blank(id(), "Laptop".to_string());
    store.user = Some(User { login: "alice".to_string(), name: None });
    assert_eq!(check_logout(1, &store), Err(JOBS_ACTIVE.to_string()));
    assert_eq!(check_logout(0, &store), Ok(()));
    let t = transfer("dev");
    store.transfers.push(t.duplicate());
    store.enqueue(&t, cricket::service::new_event("bob", 1, Status::Seen, 10)).unwrap();
    assert_eq!(check_logout(0, &store), Err(RECEIPTS_PENDING.to_string()));
    let fresh = store.signed_out();
    assert_eq!(fresh.device_id, store.device_id);
    assert!(fresh.user.is_none() && fresh.transfers.is_empty() && fresh.outbox.is_empty());
}

#[test]
fn background_sync_timing() {
    assert!(discover_due(true, 0, 0));
    assert!(!discover_due(false, 400, 100));
    assert!(discover_due(false, 401, 100));
    assert!(!discover_due(false, 50, 100));
    assert_eq!(sync_interval(true, false), 30);
    assert_eq!(sync_interval(false, false), 90);
    assert_eq!(sync_interval(true, true), 120);
}

#[test]
fn each_notice_is_remembered_once() {
    let mut notified = Vec::new();
    assert!(remember(&mut notified, "k:bob:1".to_string()));
    assert!(!remember(&mut notified, "k:bob:1".to_string()));
    assert!(remember(&mut notified, "k:bob:2".to_string()));
    assert_eq!(notified.len(), 2);
}

#[test]
fn sync_announces_new_offers_once_and_keeps_queued_receipts() {
    let mut store = Store::blank(id(), "Desktop".to_string());
    store.user = Some(User { login: "bob".to_string(), name: None });
    let chat = Chat { repo: "alice/cricket-a".to_string(), name: "Friends".to_string(), members: vec!["alice".to_string(), "bob".to_string()] };
    let t = transfer("sender-device");
    let first = store.merge_transfers(&chat, vec![t.duplicate()], "bob", 300);
    assert_eq!(first, vec!["@alice shared 1 item(s) in Friends. Open Cricket to receive.".to_string()]);
    let second = store.merge_transfers(&chat, vec![t.duplicate()], "bob", 300);
    assert!(second.is_empty());
    store.enqueue(&t, cricket::service::new_event("bob", 1, Status::Seen, 310)).unwrap();
    store.merge_transfers(&chat, vec![t.duplicate()], "bob", 320);
    assert_eq!(store.transfers.len(), 1);
    assert_eq!(store.transfers[0].deliveries(320)[0].status, Status::Seen);
    store.synced(330);
    assert_eq!(store.last_sync, Some(330));
}

#[test]
fn seen_receipts_target_waiting_deliveries_of_the_account() {
    let mut store = Store::blank(id(), "Desktop".to_string());
    store.transfers.push(transfer("sender-device"));
    assert_eq!(seen_targets(&store, "alice/cricket-a", "bob", 300), vec![(0, 1)]);
    assert!(seen_targets(&store, "alice/other", "bob", 300).is_empty());
    add(&mut store.transfers[0], "bob", "bob", Status::Seen, 1);
    assert!(seen_targets(&store, "alice/cricket-a", "bob", 300).is_empty());
}

#[test]
fn snapshot_reports_the_store() {
    let mut store = Store::blank(id(), "Desktop".to_string());
    store.transfers.push(transfer("sender-device"));
    let snap = Snapshot::of(&store, 300, true, "linux".to_string(), vec![], vec![], None, None, false);
    assert_eq!(snap.transfers.len(), 1);
    assert_eq!(snap.pending_receipts, 0);
    assert_eq!(snap.device_id, store.device_id);
    assert!(snap.connected);
    assert!(!snap.transfers[0].can_retry);
}

#[test]
fn a_personal_chat_sends_to_the_account_itself() {
    assert_eq!(offer_recipients(&vec!["alice".to_string()], "alice"), vec!["alice".to_string()]);
}

#[test]
fn sync_keeps_transfers_the_listing_did_not_return() {
    let mut store = Store::blank(id(), "Desktop".to_string());
    let chat = Chat { repo: "alice/cricket-a".to_string(), name: "Friends".to_string(), members: vec![] };
    let mut other = transfer("sender-device");
    other.repo = "alice/cricket-b".to_string();
    store.transfers.push(other);
    store.transfers.push(transfer("sender-device"));
    store.merge_transfers(&chat, vec![], "bob", 300);
    assert_eq!(store.transfers.len(), 2);
    let mut fresh = transfer("sender-device");
    add(&mut fresh, "bob", "bob", Status::Received, 1);
    store.merge_transfers(&chat, vec![fresh], "bob", 300);
    assert_eq!(store.transfers.len(), 2);
    let kept = store.transfers.iter().find(|t| t.repo == "alice/cricket-a").unwrap();
    assert_eq!(kept.deliveries(300)[0].status, Status::Received);
}

#[test]
fn sync_announces_only_offers_due_to_the_account_on_another_device() {
    let mut store = Store::blank(id(), "Desktop".to_string());
    store.user = Some(User { login: "dave".to_string(), name: None });
    let chat = Chat { repo: "alice/cricket-a".to_string(), name: "Friends".to_string(), members: vec![] };
    let not_addressed = store.merge_transfers(&chat, vec![transfer("sender-device")], "dave", 300);
    assert!(not_addressed.is_empty());
    let own_device = store.device_id.clone();
    let own = store.merge_transfers(&chat, vec![transfer(&own_device)], "bob", 300);
    assert!(own.is_empty());
    let mut store = Store::blank(id(), "Desktop".to_string());
    let first = store.merge_transfers(&chat, vec![transfer("sender-device")], "BOB", 300);
    assert_eq!(first.len(), 1);
    assert_eq!(store.notified.len(), 1);
    let mut retried_offer = transfer("sender-device");
    add(&mut retried_offer, "bob", "bob", Status::Failed, 1);
    retried_offer.events.push(AuthoredEvent {
        author: "alice".to_string(),
        event: Event {
            id: id(),
            recipient: "bob".to_string(),
            attempt: 2,
            status: Status::Waiting,
            at: 210,
            code: Some("e".repeat(40)),
            expires_at: Some(900),
        },
    });
    let again = store.merge_transfers(&chat, vec![retried_offer], "bob", 300);
    assert_eq!(again.len(), 1);
    assert_eq!(store.notified.len(), 2);
}
