//! GitHub device sign-in: the state of a pending sign-in and how it reacts to each poll.
use crate::text::{equal_text, trim, trim_text};
use vstd::prelude::*;

verus! {

/// A pending device sign-in: the device code, when the next poll is allowed, the polling
/// interval GitHub asked for, and when the code expires.
#[derive(Clone, Debug)]
pub struct DeviceFlow {
    pub code: String,
    pub next_poll: u64,
    pub interval: u64,
    pub expires_at: u64,
}

/// The shortest polling interval, in seconds, and the default one.
pub const MIN_INTERVAL: u64 = 5;

/// How long a device code lives when GitHub does not say, in seconds.
pub const DEFAULT_EXPIRY: u64 = 900;

/// The polling interval to use for the one GitHub announced.
pub open spec fn interval_for(announced: Option<u64>) -> u64 {
    match announced {
        Some(i) => if i < MIN_INTERVAL { MIN_INTERVAL } else { i },
        None => MIN_INTERVAL,
    }
}

/// The lifetime to use for the one GitHub announced.
pub open spec fn expiry_for(announced: Option<u64>) -> u64 {
    match announced {
        Some(e) => e,
        None => DEFAULT_EXPIRY,
    }
}

/// What to do when the interface asks whether sign-in has finished.
pub enum PollAction {
    /// The code expired: forget the sign-in.
    GiveUp,
    /// Too early: answer "not yet" without asking GitHub.
    Wait,
    /// Ask GitHub now.
    Request,
}

/// What GitHub's answer to a poll means.
pub enum PollReply {
    /// A token: sign in with it and forget the sign-in.
    Token(String),
    /// Still waiting for the user.
    Pending,
    /// GitHub asked to poll less often.
    SlowDown,
    /// Declined or expired: forget the sign-in.
    Declined,
}

pub const EXPIRED_CODE: &'static str = "This sign-in code expired. Start again.";
pub const DECLINED: &'static str = "GitHub sign-in was declined or expired. Please try again.";
pub const NO_CLIENT: &'static str = "This build has no GitHub OAuth client configured. Use your GitHub CLI sign-in or an access token.";

impl DeviceFlow {
    /// A sign-in started at `at` with device code `code`, the polling interval and lifetime
    /// that GitHub announced (if any).
    pub fn start(code: String, interval: Option<u64>, expires_in: Option<u64>, at: u64) -> (r: DeviceFlow)
        requires
            at + interval_for(interval) <= u64::MAX,
            at + expiry_for(expires_in) <= u64::MAX,
        ensures
            r.code == code,
            r.interval == interval_for(interval),
            r.next_poll == at + interval_for(interval),
            r.expires_at == at + expiry_for(expires_in),
    {
        let interval = match interval {
            Some(i) => if i < MIN_INTERVAL {
                MIN_INTERVAL
            } else {
                i
            },
            None => MIN_INTERVAL,
        };
        let expires = match expires_in {
            Some(e) => e,
            None => DEFAULT_EXPIRY,
        };
        DeviceFlow { code, next_poll: at + interval, interval, expires_at: at + expires }
    }

    /// Decides what a poll at time `at` does; a poll that goes to GitHub moves the next
    /// allowed poll one interval ahead.
    pub fn before_poll(&mut self, at: u64) -> (r: PollAction)
        requires
            at + old(self).interval <= u64::MAX,
        ensures
            at >= old(self).expires_at ==> r is GiveUp && *final(self) == *old(self),
            at < old(self).expires_at && at < old(self).next_poll ==> r is Wait && *final(self)
                == *old(self),
            at < old(self).expires_at && at >= old(self).next_poll ==> r is Request
                && final(self).next_poll == at + old(self).interval && final(self).interval
                == old(self).interval && final(self).expires_at == old(self).expires_at
                && final(self).code == old(self).code,
    {
        if at >= self.expires_at {
            return PollAction::GiveUp;
        }
        if at < self.next_poll {
            return PollAction::Wait;
        }
        self.next_poll = at + self.interval;
        PollAction::Request
    }

    /// GitHub asked to slow down at time `at`: five more seconds between polls.
    pub fn slow_down(&mut self, at: u64)
        requires
            at + old(self).interval + MIN_INTERVAL <= u64::MAX,
        ensures
            final(self).interval == old(self).interval + MIN_INTERVAL,
            final(self).next_poll == at + old(self).interval + MIN_INTERVAL,
            final(self).expires_at == old(self).expires_at,
            final(self).code == old(self).code,
    {
        self.interval = self.interval + MIN_INTERVAL;
        self.next_poll = at + self.interval;
    }
}

/// The meaning of GitHub's reply to a poll: a token wins; otherwise the `error` field.
pub fn read_reply(access_token: Option<String>, error: Option<String>) -> (r: PollReply)
    ensures
        access_token matches Some(t) ==> (r matches PollReply::Token(s) && s@ == t@),
        access_token is None && (error matches Some(e) && e@ == "authorization_pending"@) ==> r is Pending,
        access_token is None && (error matches Some(e) && e@ == "slow_down"@) ==> r is SlowDown,
        access_token is None && !(error matches Some(e) && (e@ == "authorization_pending"@ || e@
            == "slow_down"@)) ==> r is Declined,
{
    proof {
        reveal_strlit("authorization_pending");
        reveal_strlit("slow_down");
        assert("authorization_pending"@.len() != "slow_down"@.len());
    }
    if let Some(t) = access_token {
        return PollReply::Token(t);
    }
    match error {
        Some(e) => if equal_text(e.as_str(), "authorization_pending") {
            PollReply::Pending
        } else if equal_text(e.as_str(), "slow_down") {
            PollReply::SlowDown
        } else {
            PollReply::Declined
        },
        None => PollReply::Declined,
    }
}

/// The OAuth client id configured at build time, trimmed.
pub fn client_id(configured: Option<&str>) -> (r: Result<String, String>)
    ensures
        match configured {
            Some(c) => r matches Ok(s) && s@ == trim_text(c@),
            None => r matches Err(e) && e@ == NO_CLIENT@,
        },
{
    match configured {
        Some(c) => Ok(trim(c)),
        None => Err(String::from_str(NO_CLIENT)),
    }
}

/// The interval between polls never drops below five seconds.
pub proof fn law_polling_interval_floor(announced: Option<u64>)
    ensures
        interval_for(announced) >= MIN_INTERVAL,
{
}

} // verus!
