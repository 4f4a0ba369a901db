use cricket::croc::new_code;
use cricket::model::{
    id, valid_code, valid_file_name, valid_login, valid_repo, AuthoredEvent, Chat, Event, Offer,
    SharedFile, Slot, Status, Transfer, TransferView,
};

fn fixture() -> Transfer {
    Transfer {
        repo: "alice/cricket-a".to_string(),
        issue: 1,
        offer: Offer {
            id: id(),
            sender: "alice".to_string(),
            source_device: id(),
            device_name: "Laptop".to_string(),
            created_at: 100,
            expires_at: 1000,
            files: vec![SharedFile { name: "hello.txt".to_string(), size: 4, directory: false }],
            slots: vec![Slot { recipient: "bob".to_string(), code: "a".repeat(40) }],
        },
        events: vec![],
    }
}

fn add(t: &mut Transfer, author: &str, status: Status, attempt: u32) {
    t.events.push(AuthoredEvent {
        author: author.to_string(),
        event: Event {
            id: id(),
            recipient: "bob".to_string(),
            attempt,
            status,
            at: 200,
            code: None,
            expires_at: None,
        },
    });
}

#[test]
fn codes_are_valid_and_independent() {
    let first = new_code();
    let second = new_code();
    assert!(valid_code(&first));
    assert!(valid_code(&second));
    assert!(first != second);
}

#[test]
fn repo_input_cannot_escape_endpoint() {
    for s in ["alice/../tokens", "alice/x?access_token=x", "/x", "alice/..", "alice/x#frag"] {
        assert!(!valid_repo(s));
    }
    assert!(valid_repo("alice/cricket-personal"));
}

#[test]
fn forged_receipts_are_ignored() {
    let mut t = fixture();
    add(&mut t, "mallory", Status::Received, 1);
    add(&mut t, "alice", Status::Received, 1);
    assert_eq!(t.deliveries(300)[0].status, Status::Waiting);
}

#[test]
fn receipt_wins_over_racing_sender_failure() {
    let mut t = fixture();
    add(&mut t, "bob", Status::Received, 1);
    add(&mut t, "alice", Status::Failed, 1);
    assert_eq!(t.deliveries(2000)[0].status, Status::Received);
}

#[test]
fn timeout_is_visible_without_sender_online() {
    assert_eq!(fixture().deliveries(1001)[0].status, Status::Expired);
}

#[test]
fn retry_rotates_code_and_ignores_stale_receipts() {
    let mut t = fixture();
    add(&mut t, "alice", Status::Waiting, 2);
    t.events[0].event.code = Some("b".repeat(40));
    t.events[0].event.expires_at = Some(1100);
    add(&mut t, "bob", Status::Received, 1);
    let d = &t.deliveries(300)[0];
    assert_eq!(d.attempt, 2);
    assert_eq!(d.status, Status::Waiting);
    assert_eq!(d.code, "b".repeat(40));
}

#[test]
fn receiver_cannot_publish_retry_code() {
    let mut t = fixture();
    add(&mut t, "bob", Status::Waiting, 2);
    t.events[0].event.code = Some("b".repeat(40));
    t.events[0].event.expires_at = Some(1100);
    assert_eq!(t.deliveries(300)[0].attempt, 1);
}

#[test]
fn uuid_ids_are_lowercase_hyphenated() {
    let a = id();
    assert_eq!(a.len(), 36);
    for (i, c) in a.chars().enumerate() {
        if i == 8 || i == 13 || i == 18 || i == 23 {
            assert_eq!(c, '-');
        } else {
            assert!(c.is_ascii_digit() || ('a'..='f').contains(&c));
        }
    }
    assert_ne!(a, id());
}

#[test]
fn logins_follow_github_rules() {
    assert!(valid_login("alice"));
    assert!(valid_login("a-b-c"));
    assert!(!valid_login(""));
    assert!(valid_login("-alice"));
    assert!(!valid_login("al ice"));
    assert!(!valid_login(&"a".repeat(40)));
    assert!(valid_login(&"a".repeat(39)));
}

#[test]
fn codes_are_32_to_128_safe_characters() {
    assert!(valid_code(&"a".repeat(32)));
    assert!(!valid_code(&"a".repeat(31)));
    assert!(valid_code(&"a-".repeat(64)));
    assert!(!valid_code(&"a".repeat(129)));
    assert!(!valid_code(&format!("{} ", "a".repeat(40))));
}

#[test]
fn file_names_must_be_plain() {
    assert!(valid_file_name("hello.txt"));
    assert!(!valid_file_name(""));
    assert!(!valid_file_name("."));
    assert!(!valid_file_name(".."));
    assert!(!valid_file_name("a/b"));
    assert!(!valid_file_name("a\\b"));
}

#[test]
fn transfer_key_joins_repo_and_issue() {
    assert_eq!(fixture().key(), "alice/cricket-a#1");
}

#[test]
fn waiting_delivery_carries_offer_code_and_expiry() {
    let d = &fixture().deliveries(300)[0];
    assert_eq!(d.recipient, "bob");
    assert_eq!(d.attempt, 1);
    assert_eq!(d.status, Status::Waiting);
    assert_eq!(d.expires_at, 1000);
    assert_eq!(d.code, "a".repeat(40));
}

#[test]
fn received_delivery_does_not_expire() {
    let mut t = fixture();
    add(&mut t, "bob", Status::Received, 1);
    assert_eq!(t.deliveries(5000)[0].status, Status::Received);
}

#[test]
fn repeated_receipt_changes_nothing() {
    let mut once = fixture();
    add(&mut once, "bob", Status::Seen, 1);
    let mut twice = fixture();
    add(&mut twice, "bob", Status::Seen, 1);
    let copy = twice.events[0].duplicate();
    twice.events.push(copy);
    assert_eq!(once.deliveries(300)[0].status, twice.deliveries(300)[0].status);
    assert_eq!(once.deliveries(300)[0].status, Status::Seen);
}

#[test]
fn chat_validation_requires_member_list_with_owner() {
    let good = Chat {
        repo: "alice/cricket-a".to_string(),
        name: "Friends".to_string(),
        members: vec!["alice".to_string(), "bob".to_string()],
    };
    assert!(good.validate("alice").is_ok());
    assert!(good.validate("carol").is_err());
    let duplicated = Chat {
        repo: "alice/cricket-a".to_string(),
        name: "Friends".to_string(),
        members: vec!["alice".to_string(), "Alice".to_string()],
    };
    assert_eq!(duplicated.validate("alice"), Err("Duplicate chat members.".to_string()));
}

#[test]
fn offer_validation_checks_sender_and_recipients() {
    let chat = Chat {
        repo: "alice/cricket-a".to_string(),
        name: "Friends".to_string(),
        members: vec!["alice".to_string(), "bob".to_string()],
    };
    let t = fixture();
    assert!(t.offer.validate(&chat, "alice"));
    assert!(!t.offer.validate(&chat, "bob"));
    let mut stranger = fixture();
    stranger.offer.slots[0].recipient = "mallory".to_string();
    assert!(!stranger.offer.validate(&chat, "alice"));
}

#[test]
fn transfer_view_shows_deliveries_and_retry_rights() {
    let t = fixture();
    let device = t.offer.source_device.clone();
    let view = TransferView::at_time(&t, &device, true, 300);
    assert_eq!(view.key, "alice/cricket-a#1");
    assert_eq!(view.deliveries.len(), 1);
    assert_eq!(view.deliveries[0].status, Status::Waiting);
    assert!(view.can_retry);
    let elsewhere = TransferView::at_time(&t, "other-device", true, 300);
    assert!(!elsewhere.can_retry);
}

#[test]
fn only_the_sender_can_mark_a_delivery_sent() {
    let mut t = fixture();
    add(&mut t, "bob", Status::Sent, 1);
    assert_eq!(t.deliveries(300)[0].status, Status::Waiting);
    add(&mut t, "alice", Status::Sent, 1);
    assert_eq!(t.deliveries(300)[0].status, Status::Sent);
    assert_eq!(t.deliveries(5000)[0].status, Status::Sent);
}

#[test]
fn time_only_expires_open_deliveries() {
    let mut t = fixture();
    add(&mut t, "bob", Status::Seen, 1);
    assert_eq!(t.deliveries(999)[0].status, Status::Seen);
    assert_eq!(t.deliveries(1000)[0].status, Status::Expired);
    let mut failed = fixture();
    add(&mut failed, "alice", Status::Failed, 1);
    assert_eq!(failed.deliveries(300)[0].status, Status::Failed);
    assert_eq!(failed.deliveries(5000)[0].status, Status::Failed);
}

#[test]
fn a_started_download_gets_a_day() {
    let mut t = fixture();
    add(&mut t, "bob", Status::Receiving, 1);
    let d = &t.deliveries(1001)[0];
    assert_eq!(d.status, Status::Receiving);
    assert_eq!(d.expires_at, 200 + 24 * 60 * 60);
}

#[test]
fn offers_and_events_need_uuid_ids() {
    let chat = Chat {
        repo: "alice/cricket-a".to_string(),
        name: "Friends".to_string(),
        members: vec!["alice".to_string(), "bob".to_string()],
    };
    let mut t = fixture();
    t.offer.id = "not-a-uuid".to_string();
    assert!(!t.offer.validate(&chat, "alice"));
    let mut braced = fixture();
    braced.offer.source_device = format!("{{{}}}", id());
    assert!(braced.offer.validate(&chat, "alice"));
    let mut forged = fixture();
    add(&mut forged, "bob", Status::Received, 1);
    forged.events[0].event.id = "receipt-1".to_string();
    assert_eq!(forged.deliveries(300)[0].status, Status::Waiting);
}

#[test]
fn ids_parse_in_every_uuid_shape() {
    let chat = Chat {
        repo: "alice/cricket-a".to_string(),
        name: "Friends".to_string(),
        members: vec!["alice".to_string(), "bob".to_string()],
    };
    let upper = "67E55044-10B1-426F-9247-BB680E5FE0C8";
    let shapes = [
        upper.to_string(),
        upper.replace('-', ""),
        format!("URN:uuid:{upper}"),
        format!("{{{upper}}}"),
    ];
    for shape in shapes {
        let mut t = fixture();
        t.offer.id = shape.clone();
        assert!(t.offer.validate(&chat, "alice"), "{shape}");
        let mut receipt = fixture();
        add(&mut receipt, "bob", Status::Received, 1);
        receipt.events[0].event.id = shape;
        assert_eq!(receipt.deliveries(300)[0].status, Status::Received);
    }
    for bad in ["67e55044-10b1-426f-9247-bb680e5fe0c", "67e55044x10b1-426f-9247-bb680e5fe0c8", "urn:uid:67e55044-10b1-426f-9247-bb680e5fe0c8"] {
        let mut t = fixture();
        t.offer.id = bad.to_string();
        assert!(!t.offer.validate(&chat, "alice"), "{bad}");
    }
}
