use cricket::github::{after_page, PageStep};
use cricket::github::{
    event_body, event_comment_body, filter_invitations, has_invitation, invite_warning,
    is_chat_description, is_chat_repo, last_page, manifest_bytes, manifest_content,
    manifest_not_saved, new_chat, offer_body, offer_issue_body, offer_title, page_path,
    reply_for, repo_path, require_private, revision, Invitation, InvitationRepo, Reply, Repo,
    BAD_REPO_NAME, CACHE_MISSING, DENIED, EXPIRED_SIGN_IN, FAILED, MANIFEST_ENCODING,
    MANIFEST_TOO_LARGE, NOT_PRIVATE, REJECTED, UNAVAILABLE,
};
use cricket::model::{valid_repo, CHAT_MARKER, EVENT_MARKER, OFFER_MARKER};

fn failed(status: u16) -> Option<String> {
    match reply_for(status, false) {
        Reply::Failed(e) => Some(e),
        _ => None,
    }
}

#[test]
fn statuses_are_explained() {
    assert_eq!(failed(401), Some(EXPIRED_SIGN_IN.to_string()));
    assert_eq!(failed(403), Some(DENIED.to_string()));
    assert_eq!(failed(429), Some(DENIED.to_string()));
    assert_eq!(failed(404), Some(UNAVAILABLE.to_string()));
    assert_eq!(failed(422), Some(REJECTED.to_string()));
    assert_eq!(failed(500), Some(FAILED.to_string()));
    assert_eq!(failed(304), Some(CACHE_MISSING.to_string()));
    assert!(matches!(reply_for(304, true), Reply::Cached));
    assert!(matches!(reply_for(204, false), Reply::Empty));
    assert!(matches!(reply_for(200, false), Reply::Body));
    assert!(matches!(reply_for(201, true), Reply::Body));
}

#[test]
fn listings_are_read_a_hundred_at_a_time() {
    assert_eq!(page_path("/user/repository_invitations", 1), "/user/repository_invitations?per_page=100&page=1");
    assert_eq!(page_path("/repos/a/b/issues?state=all", 12), "/repos/a/b/issues?state=all&per_page=100&page=12");
    assert!(last_page(99));
    assert!(!last_page(100));
}

#[test]
fn repository_paths_need_owner_and_name() {
    assert_eq!(repo_path("alice/cricket-a"), Ok("/repos/alice/cricket-a".to_string()));
    assert_eq!(repo_path("alice/../x"), Err(BAD_REPO_NAME.to_string()));
    assert!(!valid_repo("alice"));
}

#[test]
fn only_private_chat_repositories_count() {
    let described = Some(format!("{CHAT_MARKER} more"));
    let private = Repo { full_name: "a/b".to_string(), private: true, description: described.clone() };
    let public = Repo { full_name: "a/c".to_string(), private: false, description: described.clone() };
    let plain = Repo { full_name: "a/d".to_string(), private: true, description: Some("notes".to_string()) };
    assert!(is_chat_repo(&private));
    assert!(!is_chat_repo(&public));
    assert!(!is_chat_repo(&plain));
    assert!(!is_chat_description(&None));
    assert_eq!(require_private(&private), Ok(()));
    assert_eq!(require_private(&public), Err(NOT_PRIVATE.to_string()));
}

#[test]
fn only_chat_invitations_are_shown_and_accepted() {
    let invitation = |id: u64, description: Option<String>| Invitation {
        id,
        repository: InvitationRepo { full_name: "a/b".to_string(), description },
    };
    let all = vec![
        invitation(1, Some(CHAT_MARKER.to_string())),
        invitation(2, Some("other".to_string())),
        invitation(3, None),
    ];
    let shown = filter_invitations(&all);
    assert_eq!(shown.len(), 1);
    assert_eq!(shown[0].id, 1);
    assert!(has_invitation(&shown, 1));
    assert!(!has_invitation(&shown, 2));
}

#[test]
fn the_manifest_is_base64_in_lines() {
    assert_eq!(manifest_bytes("aGVs\nbG8=\n"), Ok(b"hello".to_vec()));
    assert_eq!(manifest_bytes("not base64!"), Err(MANIFEST_ENCODING.to_string()));
    let big = manifest_content(&vec![b'x'; 16385]);
    assert_eq!(manifest_bytes(&big), Err(MANIFEST_TOO_LARGE.to_string()));
    let content = manifest_content(b"{\"name\":\"Friends\"}");
    assert_eq!(content, "eyJuYW1lIjoiRnJpZW5kcyJ9");
    assert_eq!(manifest_bytes(&content), Ok(b"{\"name\":\"Friends\"}".to_vec()));
}

#[test]
fn offers_and_events_travel_behind_markers() {
    let body = offer_issue_body("{\"id\":1}");
    assert_eq!(body, format!("{OFFER_MARKER}{{\"id\":1}}"));
    assert_eq!(offer_body(&body), Some("{\"id\":1}".to_string()));
    assert_eq!(offer_body("{\"id\":1}"), None);
    assert_eq!(offer_body(&offer_issue_body(&"x".repeat(60_001))), None);
    assert!(offer_body(&offer_issue_body(&"x".repeat(60_000))).is_some());
    let comment = event_comment_body("{}");
    assert_eq!(event_body(&comment), Some("{}".to_string()));
    assert_eq!(event_body(&event_comment_body(&"x".repeat(4096))), None);
    assert!(event_body(&event_comment_body(&"x".repeat(4095))).is_some());
    assert_eq!(event_body(&format!("x{EVENT_MARKER}{{}}")), None);
}

#[test]
fn revisions_and_titles() {
    assert_eq!(revision("2024-01-01T00:00:00Z", 3, "body"), "2024-01-01T00:00:00Z:3:body");
    assert_eq!(offer_title("alice", 1), "alice shared 1 item");
    assert_eq!(offer_title("alice", 3), "alice shared 3 items");
    assert_eq!(invite_warning("bob", "denied"), "Invite @bob from GitHub's repository settings: denied");
    assert_eq!(
        manifest_not_saved("a/b", "oops"),
        "The private repository a/b was created, but its manifest could not be saved: oops"
    );
}

#[test]
fn a_new_chat_gets_a_fresh_private_repository_name() {
    let (chat, repo_name) = new_chat("alice", "Friends".to_string(), vec!["alice".to_string()]);
    assert!(repo_name.starts_with("cricket-"));
    assert_eq!(repo_name.len(), "cricket-".len() + 12);
    assert_eq!(chat.repo, format!("alice/{repo_name}"));
    assert!(valid_repo(&chat.repo));
    let (other, _) = new_chat("alice", "Friends".to_string(), vec![]);
    assert_ne!(other.repo, chat.repo);
}

#[test]
fn listings_of_exactly_two_thousand_items_are_accepted() {
    assert!(matches!(after_page(1, 100), PageStep::Next(2)));
    assert!(matches!(after_page(3, 42), PageStep::Done));
    assert!(matches!(after_page(20, 100), PageStep::Next(21)));
    assert!(matches!(after_page(21, 0), PageStep::Done));
    assert!(matches!(after_page(21, 1), PageStep::TooMany));
}
