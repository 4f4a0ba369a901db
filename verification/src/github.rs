//! What the library needs from GitHub's API: the shapes it reads, the paths it builds, how
//! it reads issue bodies and comments, and how it explains failed requests.
use crate::model::{
    id, uuid_text, offer_fits, repo_ok, uuid_parses, valid_repo, Chat, Offer, CHAT_MARKER,
    EVENT_MARKER, OFFER_MARKER,
};
use crate::text::{
    byte_len, decimal, decimal_string, has_prefix, join2, join3, starts_with, strip_prefix,
    utf8_len,
};
use base64::Engine;
use vstd::prelude::*;

verus! {

/// A repository as listed by GitHub.
#[derive(Clone, Debug)]
pub struct Repo {
    pub full_name: String,
    pub private: bool,
    pub description: Option<String>,
}

/// The repository named in an invitation.
#[derive(Clone, Debug)]
pub struct InvitationRepo {
    pub full_name: String,
    pub description: Option<String>,
}

/// A pending repository invitation.
#[derive(Clone, Debug)]
pub struct Invitation {
    pub id: u64,
    pub repository: InvitationRepo,
}

pub struct InvitationModel {
    pub id: u64,
    pub full_name: Seq<char>,
    pub description: Option<Seq<char>>,
}

impl View for Invitation {
    type V = InvitationModel;

    open spec fn view(&self) -> InvitationModel {
        InvitationModel {
            id: self.id,
            full_name: self.repository.full_name@,
            description: match self.repository.description {
                Some(d) => Some(d@),
                None => None,
            },
        }
    }
}

pub open spec fn invitations_of(v: Seq<Invitation>) -> Seq<InvitationModel> {
    v.map_values(|i: Invitation| i@)
}

impl Invitation {
    pub fn duplicate(&self) -> (r: Invitation)
        ensures
            r@ == self@,
    {
        Invitation {
            id: self.id,
            repository: InvitationRepo {
                full_name: self.repository.full_name.clone(),
                description: match &self.repository.description {
                    Some(d) => Some(d.clone()),
                    None => None,
                },
            },
        }
    }
}

/// A description that marks a Cricket chat.
pub open spec fn marks_chat(description: Option<Seq<char>>) -> bool {
    description matches Some(d) && has_prefix(d, CHAT_MARKER@)
}

/// Whether `description` marks a Cricket chat.
pub fn is_chat_description(description: &Option<String>) -> (r: bool)
    ensures
        r == marks_chat(
            match *description {
                Some(d) => Some(d@),
                None => None,
            },
        ),
{
    match description {
        Some(d) => starts_with(d.as_str(), CHAT_MARKER),
        None => false,
    }
}

/// A listed repository that holds a Cricket chat: private, with the chat marker.
pub fn is_chat_repo(repo: &Repo) -> (r: bool)
    ensures
        r == (repo.private && marks_chat(
            match repo.description {
                Some(d) => Some(d@),
                None => None,
            },
        )),
{
    repo.private && is_chat_description(&repo.description)
}

/// The invitations that lead to Cricket chats, in order.
pub open spec fn chat_invitations(v: Seq<InvitationModel>) -> Seq<InvitationModel>
    decreases v.len(),
{
    if v.len() == 0 {
        Seq::empty()
    } else {
        let rest = chat_invitations(v.drop_last());
        if marks_chat(v.last().description) {
            rest.push(v.last())
        } else {
            rest
        }
    }
}

/// Keeps the invitations that lead to Cricket chats.
pub fn filter_invitations(v: &Vec<Invitation>) -> (r: Vec<Invitation>)
    ensures
        invitations_of(r@) == chat_invitations(invitations_of(v@)),
{
    let ghost all = invitations_of(v@);
    let mut r: Vec<Invitation> = Vec::new();
    let mut i: usize = 0;
    while i < v.len()
        invariant
            all == invitations_of(v@),
            0 <= i <= v.len(),
            invitations_of(r@) == chat_invitations(all.take(i as int)),
        decreases v.len() - i,
    {
        assert(all.take(i + 1).drop_last() =~= all.take(i as int));
        assert(all.take(i + 1).last() == v@[i as int]@);
        if is_chat_description(&v[i].repository.description) {
            let ghost before = invitations_of(r@);
            r.push(v[i].duplicate());
            assert(invitations_of(r@) =~= before.push(v@[i as int]@));
        }
        i += 1;
    }
    assert(all.take(v.len() as int) =~= all);
    r
}

/// Whether `id` is among `invitations`.
pub fn has_invitation(invitations: &Vec<Invitation>, id: u64) -> (r: bool)
    ensures
        r == exists|i: int| 0 <= i < invitations@.len() && #[trigger] invitations@[i].id == id,
{
    let mut i: usize = 0;
    while i < invitations.len()
        invariant
            0 <= i <= invitations.len(),
            forall|j: int| 0 <= j < i ==> #[trigger] invitations@[j].id != id,
        decreases invitations.len() - i,
    {
        if invitations[i].id == id {
            return true;
        }
        i += 1;
    }
    false
}

/// What to make of a response status.
pub enum Reply {
    /// 304: reuse the cached body.
    Cached,
    /// 204: there is no body.
    Empty,
    /// Any other success: read the body.
    Body,
    /// A failure, with the explanation to show.
    Failed(String),
}

pub const EXPIRED_SIGN_IN: &'static str = "GitHub sign-in has expired. Reconnect your account.";
pub const DENIED: &'static str = "GitHub denied this request or is rate limiting it. Check repository access, then try again later.";
pub const UNAVAILABLE: &'static str = "This repository or invitation isn't available to your account.";
pub const REJECTED: &'static str = "GitHub could not accept this request. Check the name and GitHub usernames.";
pub const FAILED: &'static str = "GitHub couldn't complete the request. Please try again later.";
pub const CACHE_MISSING: &'static str = "Missing GitHub cache entry";

/// The explanation for a failed request with HTTP status `status`.
pub open spec fn failure_text(status: u16) -> Seq<char> {
    if status == 401 {
        EXPIRED_SIGN_IN@
    } else if status == 403 || status == 429 {
        DENIED@
    } else if status == 404 {
        UNAVAILABLE@
    } else if status == 422 {
        REJECTED@
    } else {
        FAILED@
    }
}

/// How a response with HTTP status `status` is handled, given whether a cached body exists.
pub fn reply_for(status: u16, cached: bool) -> (r: Reply)
    ensures
        status == 304 && cached ==> r is Cached,
        status == 304 && !cached ==> (r matches Reply::Failed(e) && e@ == CACHE_MISSING@),
        status != 304 && !(200 <= status <= 299) ==> (r matches Reply::Failed(e) && e@ == failure_text(status)),
        status == 204 ==> r is Empty,
        status != 204 && 200 <= status <= 299 ==> r is Body,
{
    if status == 304 {
        if cached {
            Reply::Cached
        } else {
            Reply::Failed(String::from_str(CACHE_MISSING))
        }
    } else if status < 200 || status > 299 {
        let text = if status == 401 {
            EXPIRED_SIGN_IN
        } else if status == 403 || status == 429 {
            DENIED
        } else if status == 404 {
            UNAVAILABLE
        } else if status == 422 {
            REJECTED
        } else {
            FAILED
        };
        Reply::Failed(String::from_str(text))
    } else if status == 204 {
        Reply::Empty
    } else {
        Reply::Body
    }
}

/// The largest number of list items read from GitHub.
pub const MAX_PAGES: u64 = 20;

/// The path of page `page` of a listing at `path`, 100 items per page.
pub open spec fn page_path_text(path: Seq<char>, page: u64) -> Seq<char> {
    path + (if path.contains('?') { seq!['&'] } else { seq!['?'] }) + "per_page=100&page="@
        + decimal(page as nat)
}

/// Builds the path of page `page` of a listing at `path`.
pub fn page_path(path: &str, page: u64) -> (r: String)
    ensures
        r@ == page_path_text(path@, page),
{
    let v = crate::text::chars_of(path);
    let mut has_query = false;
    let mut i: usize = 0;
    while i < v.len()
        invariant
            v@ == path@,
            0 <= i <= v.len(),
            has_query == v@.take(i as int).contains('?'),
        decreases v.len() - i,
    {
        proof {
            let before = v@.take(i as int);
            let after = v@.take(i + 1);
            assert(after =~= before.push(v@[i as int]));
            if before.contains('?') {
                let j = choose|j: int| 0 <= j < before.len() && before[j] == '?';
                assert(after[j] == '?');
            }
            if v@[i as int] == '?' {
                assert(after[i as int] == '?');
            }
        }
        if v[i] == '?' {
            has_query = true;
        }
        i += 1;
    }
    assert(v@.take(v.len() as int) =~= v@);
    proof {
        reveal_strlit("&");
        reveal_strlit("?");
    }
    let sep = if has_query {
        "&"
    } else {
        "?"
    };
    let mut r = join3(path, sep, "per_page=100&page=");
    r.append(decimal_string(page).as_str());
    r
}

/// A listing is complete once a page holds fewer than 100 items.
pub fn last_page(items: usize) -> (r: bool)
    ensures
        r == (items < 100),
{
    items < 100
}

/// What follows reading page `page` of a listing.
pub enum PageStep {
    /// The listing is complete.
    Done,
    /// Read this page next.
    Next(u64),
    /// The listing holds more than `MAX_PAGES` full pages.
    TooMany,
}

/// What follows a page of `items` items read as page `page`. A short page ends a listing. A
/// full last allowed page is followed by one more read, which must find nothing: a listing
/// of exactly `MAX_PAGES` full pages is accepted, a longer one is refused.
pub fn after_page(page: u64, items: usize) -> (r: PageStep)
    ensures
        page > MAX_PAGES && items == 0 ==> r is Done,
        page > MAX_PAGES && items > 0 ==> r is TooMany,
        page <= MAX_PAGES && items < 100 ==> r is Done,
        page <= MAX_PAGES && items >= 100 ==> (r matches PageStep::Next(p) && p == page + 1),
{
    if page > MAX_PAGES {
        if items == 0 {
            PageStep::Done
        } else {
            PageStep::TooMany
        }
    } else if last_page(items) {
        PageStep::Done
    } else {
        PageStep::Next(page + 1)
    }
}

pub const TOO_MANY_ITEMS: &'static str = "This GitHub collection exceeds Cricket's current 2,000-item limit.";

pub const BAD_REPO_NAME: &'static str = "Use a repository in owner/name format.";

/// The API path of a repository, for a name in `owner/name` form.
pub fn repo_path(repo: &str) -> (r: Result<String, String>)
    ensures
        repo_ok(repo@) ==> (r matches Ok(p) && p@ == "/repos/"@ + repo@),
        !repo_ok(repo@) ==> (r matches Err(e) && e@ == BAD_REPO_NAME@),
{
    if !valid_repo(repo) {
        return Err(String::from_str(BAD_REPO_NAME));
    }
    Ok(join2("/repos/", repo))
}

pub const NOT_PRIVATE: &'static str = "Cricket only shares transfer information in private repositories. Make this chat private again before continuing.";

/// Transfer information is only shared in private repositories.
pub fn require_private(repo: &Repo) -> (r: Result<(), String>)
    ensures
        repo.private ==> r is Ok,
        !repo.private ==> (r matches Err(e) && e@ == NOT_PRIVATE@),
{
    if !repo.private {
        return Err(String::from_str(NOT_PRIVATE));
    }
    Ok(())
}


/// The character of the standard base64 alphabet for the 6-bit value `v`.
pub open spec fn b64_digit(v: int) -> char {
    if v < 26 {
        ('A' as int + v) as char
    } else if v < 52 {
        ('a' as int + (v - 26)) as char
    } else if v < 62 {
        ('0' as int + (v - 52)) as char
    } else if v == 62 {
        '+'
    } else {
        '/'
    }
}

/// Standard, padded base64 text of some bytes (RFC 4648): each group of three bytes becomes
/// four characters; a last group of one or two bytes is padded with `=`.
pub open spec fn base64_text(bytes: Seq<u8>) -> Seq<char>
    decreases bytes.len(),
{
    if bytes.len() == 0 {
        Seq::empty()
    } else {
        let b0 = bytes[0] as int;
        let b1 = if bytes.len() > 1 { bytes[1] as int } else { 0 };
        let b2 = if bytes.len() > 2 { bytes[2] as int } else { 0 };
        let group = seq![
            b64_digit(b0 / 4),
            b64_digit((b0 % 4) * 16 + b1 / 16),
            if bytes.len() > 1 { b64_digit((b1 % 16) * 4 + b2 / 64) } else { '=' },
            if bytes.len() > 2 { b64_digit(b2 % 64) } else { '=' },
        ];
        if bytes.len() > 3 {
            group + base64_text(bytes.skip(3))
        } else {
            group
        }
    }
}

/// The bytes whose standard base64 text, as ASCII bytes, is `text`, when there are any.
pub open spec fn base64_value(text: Seq<u8>) -> Option<Seq<u8>> {
    if exists|b: Seq<u8>| #[trigger] vstd::utf8::encode_utf8(base64_text(b)) == text {
        Some(choose|b: Seq<u8>| #[trigger] vstd::utf8::encode_utf8(base64_text(b)) == text)
    } else {
        None
    }
}

/// `base64::engine::general_purpose::STANDARD.decode`, with the error dropped. The engine
/// requires canonical `=` padding and refuses set trailing bits, line breaks and any byte
/// outside the alphabet, so it accepts exactly the texts that `encode` writes (`base64_text`
/// of some bytes) and gives those bytes back.
#[verifier::external_body]
fn decode_base64(text: &[u8]) -> (r: Option<Vec<u8>>)
    ensures
        match r {
            Some(v) => vstd::utf8::encode_utf8(base64_text(v@)) == text@,
            None => forall|b: Seq<u8>| #[trigger] vstd::utf8::encode_utf8(base64_text(b)) != text@,
        },
        forall|b: Seq<u8>|
            #[trigger] vstd::utf8::encode_utf8(base64_text(b)) == text@ ==> (r is Some && r.unwrap()@ == b),
{
    base64::engine::general_purpose::STANDARD.decode(text).ok()
}

/// `base64::engine::general_purpose::STANDARD.encode`: the standard alphabet with `=`
/// padding, as `base64_text` spells it out. The input length is bounded because the crate
/// panics when the encoded length overflows `usize`.
#[verifier::external_body]
fn encode_base64(bytes: &[u8]) -> (r: String)
    requires
        bytes@.len() <= usize::MAX / 2,
    ensures
        r@ == base64_text(bytes@),
{
    base64::engine::general_purpose::STANDARD.encode(bytes)
}

/// The `content` of the manifest file for the manifest bytes `json`: standard base64.
pub fn manifest_content(json: &[u8]) -> (r: String)
    requires
        json@.len() <= usize::MAX / 2,
    ensures
        r@ == base64_text(json@),
{
    encode_base64(json)
}

/// The name of the repository of a new chat: `cricket-` and the first twelve characters of
/// the random id `fresh`.
pub open spec fn new_repo_name(fresh: Seq<char>) -> Seq<char> {
    "cricket-"@ + fresh.take(12)
}

/// The chat that `login` asks to create, in a new repository `login/<name>`; returns the
/// chat and the repository's name.
pub fn new_chat(login: &str, name: String, members: Vec<String>) -> (r: (Chat, String))
    ensures
        r.0.name == name,
        r.0.members == members,
        r.0.repo@ == login@ + "/"@ + r.1@,
        exists|fresh: Seq<char>| uuid_text(fresh) && r.1@ == new_repo_name(fresh),
{
    let fresh = id();
    let short = crate::text::slice_chars(fresh.as_str(), 0, 12);
    let repo_name = join2("cricket-", short.as_str());
    let repo = join3(login, "/", repo_name.as_str());
    assert(fresh@.subrange(0, 12) =~= fresh@.take(12));
    (Chat { repo, name, members }, repo_name)
}

pub const MANIFEST_ENCODING: &'static str = "Invalid chat manifest encoding";
pub const MANIFEST_TOO_LARGE: &'static str = "Chat manifest is too large.";

/// The largest chat manifest that is read, in bytes.
pub const MANIFEST_LIMIT: usize = 16384;

/// The bytes of `s` without line feeds.
pub open spec fn without_newlines(s: Seq<u8>) -> Seq<u8>
    decreases s.len(),
{
    if s.len() == 0 {
        s
    } else if s.last() == 10u8 {
        without_newlines(s.drop_last())
    } else {
        without_newlines(s.drop_last()).push(s.last())
    }
}

/// The manifest bytes held in the base64 `content` of the manifest file (GitHub wraps it in
/// lines), refused when not base64 or larger than `MANIFEST_LIMIT`.
pub fn manifest_bytes(content: &str) -> (r: Result<Vec<u8>, String>)
    ensures
        match base64_value(without_newlines(vstd::utf8::encode_utf8(content@))) {
            None => r matches Err(e) && e@ == MANIFEST_ENCODING@,
            Some(b) => if b.len() > MANIFEST_LIMIT {
                r matches Err(e) && e@ == MANIFEST_TOO_LARGE@
            } else {
                r matches Ok(v) && v@ == b
            },
        },
{
    let raw = content.as_bytes();
    let mut text: Vec<u8> = Vec::new();
    let mut i: usize = 0;
    while i < raw.len()
        invariant
            raw@ == vstd::utf8::encode_utf8(content@),
            0 <= i <= raw@.len(),
            text@ == without_newlines(raw@.take(i as int)),
        decreases raw@.len() - i,
    {
        assert(raw@.take(i + 1).drop_last() =~= raw@.take(i as int));
        if raw[i] != 10u8 {
            text.push(raw[i]);
        }
        i += 1;
    }
    assert(raw@.take(raw@.len() as int) =~= raw@);
    let decoded = decode_base64(text.as_slice());
    proof {
        if decoded is Some {
            let v = decoded->0;
            assert(vstd::utf8::encode_utf8(base64_text(v@)) == text@);
            let b = choose|b: Seq<u8>| #[trigger] vstd::utf8::encode_utf8(base64_text(b)) == text@;
            assert(base64_value(text@) == Some(b));
        }
    }
    match decoded {
        None => Err(String::from_str(MANIFEST_ENCODING)),
        Some(bytes) => {
            if bytes.len() > MANIFEST_LIMIT {
                Err(String::from_str(MANIFEST_TOO_LARGE))
            } else {
                Ok(bytes)
            }
        },
    }
}

/// The largest offer body that is read, in bytes.
pub const OFFER_LIMIT: usize = 60000;

/// The largest event comment that is read, in bytes (exclusive).
pub const EVENT_LIMIT: usize = 4096;

/// The offer text carried by an issue body: what follows the offer marker, when not too long.
pub open spec fn offer_text(body: Seq<char>) -> Option<Seq<char>> {
    if has_prefix(body, OFFER_MARKER@) && utf8_len(body.subrange(OFFER_MARKER@.len() as int, body.len() as int)) <= OFFER_LIMIT {
        Some(body.subrange(OFFER_MARKER@.len() as int, body.len() as int))
    } else {
        None
    }
}

/// The offer text of an issue body, if it carries one.
pub fn offer_body(body: &str) -> (r: Option<String>)
    ensures
        match r {
            Some(t) => offer_text(body@) == Some(t@),
            None => offer_text(body@) is None,
        },
{
    match strip_prefix(body, OFFER_MARKER) {
        Some(rest) => {
            if byte_len(rest.as_str()) > OFFER_LIMIT {
                None
            } else {
                Some(rest)
            }
        },
        None => None,
    }
}

/// The event text carried by a comment: what follows the event marker, when short enough.
pub open spec fn event_text(body: Seq<char>) -> Option<Seq<char>> {
    if has_prefix(body, EVENT_MARKER@) && utf8_len(body.subrange(EVENT_MARKER@.len() as int, body.len() as int)) < EVENT_LIMIT {
        Some(body.subrange(EVENT_MARKER@.len() as int, body.len() as int))
    } else {
        None
    }
}

/// The event text of a comment, if it carries one.
pub fn event_body(body: &str) -> (r: Option<String>)
    ensures
        match r {
            Some(t) => event_text(body@) == Some(t@),
            None => event_text(body@) is None,
        },
{
    match strip_prefix(body, EVENT_MARKER) {
        Some(rest) => {
            if byte_len(rest.as_str()) < EVENT_LIMIT {
                Some(rest)
            } else {
                None
            }
        },
        None => None,
    }
}

/// An issue body carrying `json` as an offer.
pub fn offer_issue_body(json: &str) -> (r: String)
    ensures
        r@ == OFFER_MARKER@ + json@,
{
    join2(OFFER_MARKER, json)
}

/// A comment body carrying `json` as an event.
pub fn event_comment_body(json: &str) -> (r: String)
    ensures
        r@ == EVENT_MARKER@ + json@,
{
    join2(EVENT_MARKER, json)
}

/// The revision of an issue, which changes whenever the issue or its comments change.
pub fn revision(updated_at: &str, comments: u64, body: &str) -> (r: String)
    ensures
        r@ == updated_at@ + seq![':'] + decimal(comments as nat) + seq![':'] + body@,
{
    proof {
        reveal_strlit(":");
    }
    let mut r = join3(updated_at, ":", decimal_string(comments).as_str());
    r.append(":");
    r.append(body);
    r
}

/// Whether an issue carries a transfer: not a pull request, and an offer that `author` was
/// allowed to publish in `chat`.
pub fn accept_offer(is_pull_request: bool, offer: &Offer, chat: &Chat, author: &str) -> (r: bool)
    ensures
        r == (!is_pull_request && offer_fits(
            offer@,
            chat@,
            author@,
            uuid_parses(offer@.id),
            uuid_parses(offer@.source_device),
        )),
{
    !is_pull_request && offer.validate(chat, author)
}

/// The title of the issue that carries an offer: `alice shared 3 items`.
pub fn offer_title(sender: &str, files: usize) -> (r: String)
    ensures
        r@ == sender@ + " shared "@ + decimal(files as nat) + " item"@ + if files == 1 {
            Seq::<char>::empty()
        } else {
            seq!['s']
        },
{
    let mut r = join3(sender, " shared ", decimal_string(files as u64).as_str());
    r.append(" item");
    if files != 1 {
        proof {
            reveal_strlit("s");
        }
        r.append("s");
    } else {
        assert(r@ + Seq::<char>::empty() =~= r@);
    }
    r
}

/// Warning for a member that could not be invited.
pub fn invite_warning(member: &str, error: &str) -> (r: String)
    ensures
        r@ == "Invite @"@ + member@ + " from GitHub's repository settings: "@ + error@,
{
    let mut r = join3("Invite @", member, " from GitHub's repository settings: ");
    r.append(error);
    r
}

/// Error for a chat whose repository exists but whose manifest could not be written.
pub fn manifest_not_saved(repo: &str, error: &str) -> (r: String)
    ensures
        r@ == "The private repository "@ + repo@ + " was created, but its manifest could not be saved: "@
            + error@,
{
    let mut r = join3("The private repository ", repo, " was created, but its manifest could not be saved: ");
    r.append(error);
    r
}

} // verus!
