use cricket::model::{id, Chat, User};
use cricket::service::Snapshot;
use cricket::storage::Store;

fn chat(repo: &str, members: &[&str]) -> Chat {
    Chat {
        repo: repo.to_string(),
        name: "Chat".to_string(),
        members: members.iter().map(|m| m.to_string()).collect(),
    }
}

#[test]
fn saved_people_are_derived_from_existing_chats() {
    let mut store = Store::blank(id(), "Desktop".to_string());
    store.user = Some(User { login: "alice".to_string(), name: None });
    store.chats.push(chat("alice/cricket-a", &["alice", "Bob", "not valid!"]));
    store.chats.push(chat("alice/cricket-b", &["ALICE", "bob", "carol"]));
    store.derive_contacts();
    assert_eq!(store.contacts, vec!["Bob".to_string(), "carol".to_string()]);
}

#[test]
fn new_usernames_are_remembered_once() {
    let mut store = Store::blank(id(), "Desktop".to_string());
    store.remember_contacts(&vec!["alice".to_string(), "dave".to_string()], "alice");
    store.remember_contacts(&vec!["Dave".to_string(), "erin".to_string(), "-".to_string()], "alice");
    assert_eq!(store.contacts, vec!["dave".to_string(), "erin".to_string(), "-".to_string()]);
}

#[test]
fn saved_people_are_shown_and_cleared_on_sign_out() {
    let mut store = Store::blank(id(), "Desktop".to_string());
    store.remember_contacts(&vec!["bob".to_string()], "alice");
    let snap = Snapshot::of(&store, 0, false, "linux".to_string(), vec![], vec![], None, None, false);
    assert_eq!(snap.contacts, vec!["bob".to_string()]);
    assert!(store.signed_out().contacts.is_empty());
}
