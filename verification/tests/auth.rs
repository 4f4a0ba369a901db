use cricket::agent::{agent_token, authorized};
use cricket::auth::{client_id, read_reply, DeviceFlow, PollAction, PollReply, NO_CLIENT};

#[test]
fn sign_in_polls_no_faster_than_announced() {
    let flow = DeviceFlow::start("dev-code".to_string(), Some(2), None, 1000);
    assert_eq!(flow.interval, 5);
    assert_eq!(flow.next_poll, 1005);
    assert_eq!(flow.expires_at, 1900);
    let slow = DeviceFlow::start("dev-code".to_string(), Some(8), Some(60), 1000);
    assert_eq!(slow.interval, 8);
    assert_eq!(slow.expires_at, 1060);
}

#[test]
fn polls_wait_request_and_give_up() {
    let mut flow = DeviceFlow::start("c".to_string(), None, Some(100), 0);
    assert!(matches!(flow.before_poll(3), PollAction::Wait));
    assert_eq!(flow.next_poll, 5);
    assert!(matches!(flow.before_poll(5), PollAction::Request));
    assert_eq!(flow.next_poll, 10);
    flow.slow_down(6);
    assert_eq!(flow.interval, 10);
    assert_eq!(flow.next_poll, 16);
    assert!(matches!(flow.before_poll(100), PollAction::GiveUp));
}

#[test]
fn replies_are_read_token_first() {
    assert!(matches!(read_reply(Some("tok".to_string()), Some("slow_down".to_string())), PollReply::Token(t) if t == "tok"));
    assert!(matches!(read_reply(None, Some("authorization_pending".to_string())), PollReply::Pending));
    assert!(matches!(read_reply(None, Some("slow_down".to_string())), PollReply::SlowDown));
    assert!(matches!(read_reply(None, Some("access_denied".to_string())), PollReply::Declined));
    assert!(matches!(read_reply(None, None), PollReply::Declined));
}

#[test]
fn client_id_is_trimmed_or_missing() {
    assert_eq!(client_id(Some("  abc123 \n")), Ok("abc123".to_string()));
    assert_eq!(client_id(None), Err(NO_CLIENT.to_string()));
}

#[test]
fn agent_requests_need_the_exact_bearer_token_and_no_origin() {
    let token = agent_token();
    assert_eq!(token.len(), 72);
    let header = format!("Bearer {token}");
    assert!(authorized(Some(&header), &token, false));
    assert!(!authorized(Some(&header), &token, true));
    assert!(!authorized(Some(&format!("bearer {token}")), &token, false));
    assert!(!authorized(Some(&format!("Bearer {token}x")), &token, false));
    assert!(!authorized(Some(&token), &token, false));
    assert!(!authorized(None, &token, false));
    assert!(!authorized(Some(""), &token, false));
    assert_ne!(agent_token(), token);
}
