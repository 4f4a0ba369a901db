//! The transfer protocol: chats, offers, authored status events, and the
//! per-recipient delivery state that is replayed from them.
use crate::text::{equal_text, decimal, decimal_string, join3, blank, byte_len, chars_of, eq_ignore_case, is_blank, same_name, is_ascii_alnum, is_login_char, is_login_char_exec, slice_chars, utf8_len};
use vstd::prelude::*;

verus! {

/// First line of an issue body that carries a transfer offer.
pub const OFFER_MARKER: &'static str = "<!-- cricket-transfer:v1 -->\n";

/// First line of an issue comment that carries a status event.
pub const EVENT_MARKER: &'static str = "<!-- cricket-event:v1 -->\n";

/// Prefix of the description of every chat repository.
pub const CHAT_MARKER: &'static str = "Cricket private chat · v1";

/// How long a connection code stays valid, in seconds.
pub const TRANSFER_TTL: u64 = 15 * 60;

/// How long a started download may run, in seconds.
pub const RECEIVE_WINDOW: u64 = 24 * 60 * 60;

/// The shape of a UUID as the uuid crate renders it: 36 characters, lower-case hex digits
/// with hyphens at offsets 8, 13, 18 and 23.
pub open spec fn uuid_text(s: Seq<char>) -> bool {
    &&& s.len() == 36
    &&& forall|i: int|
        0 <= i < 36 ==> if i == 8 || i == 13 || i == 18 || i == 23 {
            s[i] == '-'
        } else {
            ('0' <= #[trigger] s[i] && s[i] <= '9') || ('a' <= s[i] && s[i] <= 'f')
        }
}

/// An ASCII hex digit, in either case.
pub open spec fn hex_digit(c: char) -> bool {
    ('0' <= c && c <= '9') || ('a' <= c && c <= 'f') || ('A' <= c && c <= 'F')
}

/// 36 characters: hex digits in either case, with hyphens at offsets 8, 13, 18 and 23.
pub open spec fn hyphenated_uuid(s: Seq<char>) -> bool {
    &&& s.len() == 36
    &&& forall|i: int|
        0 <= i < 36 ==> if i == 8 || i == 13 || i == 18 || i == 23 {
            s[i] == '-'
        } else {
            hex_digit(#[trigger] s[i])
        }
}

/// `c` with an ASCII upper-case letter lowered.
pub open spec fn ascii_lower(c: char) -> char {
    if 'A' <= c && c <= 'Z' {
        ((c as u32) + 32) as char
    } else {
        c
    }
}

/// `urn:uuid:`, in any ASCII case.
pub open spec fn urn_prefix(p: Seq<char>) -> bool {
    &&& p.len() == 9
    &&& forall|i: int| 0 <= i < 9 ==> ascii_lower(#[trigger] p[i]) == seq!['u', 'r', 'n', ':', 'u', 'u', 'i', 'd', ':'][i]
}

/// The texts that `uuid::Uuid::parse_str` accepts: 32 hex digits; the hyphenated form; the
/// hyphenated form in braces; or the hyphenated form after `urn:uuid:` in any case.
pub open spec fn uuid_parses(s: Seq<char>) -> bool {
    ||| s.len() == 32 && forall|i: int| 0 <= i < 32 ==> hex_digit(#[trigger] s[i])
    ||| hyphenated_uuid(s)
    ||| s.len() == 38 && s[0] == '{' && s[37] == '}' && hyphenated_uuid(s.subrange(1, 37))
    ||| s.len() == 45 && urn_prefix(s.subrange(0, 9)) && hyphenated_uuid(s.subrange(9, 45))
}

/// The crate's own rendering of an id is read back.
pub proof fn lemma_uuid_text_parses(s: Seq<char>)
    requires
        uuid_text(s),
    ensures
        uuid_parses(s),
{
    assert forall|i: int| 0 <= i < 36 implies if i == 8 || i == 13 || i == 18 || i == 23 {
        s[i] == '-'
    } else {
        hex_digit(#[trigger] s[i])
    } by {
        assert(uuid_text(s));
    }
}

/// Seconds since the Unix epoch, read from the system clock through
/// `SystemTime::now().duration_since(UNIX_EPOCH)` (0 for a clock before the epoch).
/// Nothing is stated of the value: it depends on the clock.
#[verifier::external_body]
pub fn now() -> u64 {
    std::time::SystemTime::now().duration_since(std::time::UNIX_EPOCH).unwrap_or_default().as_secs()
}

/// A fresh random identifier: `uuid::Uuid::new_v4()` rendered through its `Display` impl.
/// The uuid crate's formatter writes the hyphenated lower-case form, which is all that is
/// stated; the random bits are not.
#[verifier::external_body]
pub fn id() -> (r: String)
    ensures
        uuid_text(r@),
{
    uuid::Uuid::new_v4().to_string()
}

/// Whether `uuid::Uuid::parse_str(s)` succeeds. The parser looks at the bytes of `s`: 32 hex
/// digits, 36 with hyphens at 8, 13, 18 and 23, 38 with braces around those, or 45 with a
/// `urn:uuid:` prefix compared without ASCII case; each hex digit in either case. Every
/// accepted byte is ASCII, so the same shapes read on the characters give `uuid_parses`.
#[verifier::external_body]
fn parses_as_uuid(s: &str) -> (r: bool)
    ensures
        r == uuid_parses(s@),
{
    uuid::Uuid::parse_str(s).is_ok()
}

/// A fresh random identifier that the uuid crate also reads back: ids of offers and events
/// are only counted when they parse.
pub fn fresh_id() -> (r: String)
    ensures
        uuid_text(r@),
        uuid_parses(r@),
{
    let r = id();
    proof {
        lemma_uuid_text_parses(r@);
    }
    r
}

/// A GitHub login: 1 to 39 bytes of ASCII letters, digits and hyphens.
pub open spec fn login_ok(s: Seq<char>) -> bool {
    &&& 0 < utf8_len(s) <= 39
    &&& forall|i: int| 0 <= i < s.len() ==> is_login_char(#[trigger] s[i])
}

/// A repository name: 1 to 100 bytes of ASCII letters, digits, `-`, `_` and `.`, other than
/// `.` and `..`.
pub open spec fn repo_name_ok(s: Seq<char>) -> bool {
    &&& 0 < s.len()
    &&& utf8_len(s) <= 100
    &&& forall|i: int|
        0 <= i < s.len() ==> is_ascii_alnum(#[trigger] s[i]) || s[i] == '-' || s[i] == '_'
            || s[i] == '.'
    &&& s != seq!['.']
    &&& s != seq!['.', '.']
}

/// `owner/name` with a valid owner login and repository name.
pub open spec fn repo_ok(s: Seq<char>) -> bool {
    exists|k: int|
        0 <= k < s.len() && s[k] == '/' && login_ok(#[trigger] s.subrange(0, k)) && repo_name_ok(
            s.subrange(k + 1, s.len() as int),
        )
}

/// A croc connection code: 32 to 128 bytes of ASCII letters, digits and hyphens.
pub open spec fn code_ok(s: Seq<char>) -> bool {
    &&& 32 <= utf8_len(s) <= 128
    &&& forall|i: int| 0 <= i < s.len() ==> is_login_char(#[trigger] s[i])
}

/// All characters of `v` satisfy the login alphabet.
fn all_login_chars(v: &Vec<char>) -> (r: bool)
    ensures
        r == forall|i: int| 0 <= i < v@.len() ==> is_login_char(#[trigger] v@[i]),
{
    let mut i: usize = 0;
    while i < v.len()
        invariant
            0 <= i <= v.len(),
            forall|k: int| 0 <= k < i ==> is_login_char(#[trigger] v@[k]),
        decreases v.len() - i,
    {
        if !is_login_char_exec(v[i]) {
            return false;
        }
        i += 1;
    }
    true
}

/// Whether `s` is a valid GitHub login.
pub fn valid_login(s: &str) -> (r: bool)
    ensures
        r == login_ok(s@),
{
    let n = byte_len(s);
    if n == 0 || n > 39 {
        return false;
    }
    let v = chars_of(s);
    all_login_chars(&v)
}

fn repo_name_char(c: char) -> (r: bool)
    ensures
        r == (is_ascii_alnum(c) || c == '-' || c == '_' || c == '.'),
{
    ('0' <= c && c <= '9') || ('a' <= c && c <= 'z') || ('A' <= c && c <= 'Z') || c == '-' || c
        == '_' || c == '.'
}

/// A repository path splits at its first slash: an owner login never holds one.
proof fn lemma_repo_split(s: Seq<char>, k: int)
    requires
        0 <= k < s.len(),
        s[k] == '/',
        forall|j: int| 0 <= j < k ==> s[j] != '/',
    ensures
        repo_ok(s) == (login_ok(s.subrange(0, k)) && repo_name_ok(s.subrange(k + 1, s.len() as int))),
{
    if repo_ok(s) {
        let j = choose|j: int|
            0 <= j < s.len() && s[j] == '/' && login_ok(#[trigger] s.subrange(0, j)) && repo_name_ok(
                s.subrange(j + 1, s.len() as int),
            );
        if j > k {
            assert(s.subrange(0, j)[k] == '/');
        }
    }
}

/// Whether `s` names a repository as `owner/name`; such a path cannot leave the
/// repository endpoint it is placed in.
pub fn valid_repo(s: &str) -> (r: bool)
    ensures
        r == repo_ok(s@),
{
    let v = chars_of(s);
    let n = v.len();
    let mut k: usize = 0;
    while k < n && v[k] != '/'
        invariant
            v@ == s@,
            n == v.len(),
            0 <= k <= n,
            forall|j: int| 0 <= j < k ==> v@[j] != '/',
        decreases n - k,
    {
        k += 1;
    }
    if k == n {
        return false;
    }
    proof {
        lemma_repo_split(s@, k as int);
    }
    let owner = slice_chars(s, 0, k);
    let name = slice_chars(s, k + 1, n);
    if !valid_login(owner.as_str()) {
        return false;
    }
    valid_repo_name(name.as_str())
}

/// Whether `s` is a valid repository name (the part after the owner).
fn valid_repo_name(s: &str) -> (r: bool)
    ensures
        r == repo_name_ok(s@),
{
    let m = chars_of(s);
    if m.len() == 0 || byte_len(s) > 100 {
        return false;
    }
    let mut i: usize = 0;
    while i < m.len()
        invariant
            m@ == s@,
            0 <= i <= m.len(),
            forall|j: int|
                0 <= j < i ==> is_ascii_alnum(#[trigger] m@[j]) || m@[j] == '-' || m@[j] == '_'
                    || m@[j] == '.',
        decreases m.len() - i,
    {
        if !repo_name_char(m[i]) {
            return false;
        }
        i += 1;
    }
    if m.len() == 1 && m[0] == '.' {
        assert(s@ =~= seq!['.']);
        return false;
    }
    if m.len() == 2 && m[0] == '.' && m[1] == '.' {
        assert(s@ =~= seq!['.', '.']);
        return false;
    }
    proof {
        if s@ == seq!['.'] {
            assert(m@[0] == '.');
        }
        if s@ == seq!['.', '.'] {
            assert(m@[0] == '.' && m@[1] == '.');
        }
    }
    true
}

/// Whether `code` is a well-formed croc connection code.
pub fn valid_code(code: &str) -> (r: bool)
    ensures
        r == code_ok(code@),
{
    let n = byte_len(code);
    if n < 32 || n > 128 {
        return false;
    }
    let v = chars_of(code);
    all_login_chars(&v)
}

/// A GitHub account.
#[derive(Clone, Debug)]
pub struct User {
    pub login: String,
    pub name: Option<String>,
}

pub struct UserModel {
    pub login: Seq<char>,
    pub name: Option<Seq<char>>,
}

impl View for User {
    type V = UserModel;

    open spec fn view(&self) -> UserModel {
        UserModel {
            login: self.login@,
            name: match self.name {
                Some(n) => Some(n@),
                None => None,
            },
        }
    }
}

impl User {
    pub fn duplicate(&self) -> (r: User)
        ensures
            r@ == self@,
    {
        User {
            login: self.login.clone(),
            name: match &self.name {
                Some(n) => Some(n.clone()),
                None => None,
            },
        }
    }
}

/// A private chat: the repository that holds it, its display name and its members.
#[derive(Clone, Debug)]
pub struct Chat {
    pub repo: String,
    pub name: String,
    pub members: Vec<String>,
}

pub struct ChatModel {
    pub repo: Seq<char>,
    pub name: Seq<char>,
    pub members: Seq<Seq<char>>,
}

pub open spec fn strings(v: Seq<String>) -> Seq<Seq<char>> {
    v.map_values(|s: String| s@)
}

impl View for Chat {
    type V = ChatModel;

    open spec fn view(&self) -> ChatModel {
        ChatModel { repo: self.repo@, name: self.name@, members: strings(self.members@) }
    }
}

/// Copies of a list of strings.
pub fn copy_strings(v: &Vec<String>) -> (r: Vec<String>)
    ensures
        strings(r@) == strings(v@),
{
    let mut r: Vec<String> = Vec::new();
    let mut i: usize = 0;
    while i < v.len()
        invariant
            0 <= i <= v.len(),
            r.len() == i,
            strings(r@) =~= strings(v@).take(i as int),
        decreases v.len() - i,
    {
        r.push(v[i].clone());
        assert(strings(r@)[i as int] == strings(v@)[i as int]);
        i += 1;
    }
    assert(strings(v@).take(v.len() as int) =~= strings(v@));
    r
}

impl Chat {
    pub fn duplicate(&self) -> (r: Chat)
        ensures
            r@ == self@,
    {
        Chat {
            repo: self.repo.clone(),
            name: self.name.clone(),
            members: copy_strings(&self.members),
        }
    }
}

/// One shared top-level file or folder, as announced to recipients.
#[derive(Clone, Debug)]
pub struct SharedFile {
    pub name: String,
    pub size: u64,
    pub directory: bool,
}

pub struct SharedFileModel {
    pub name: Seq<char>,
    pub size: u64,
    pub directory: bool,
}

impl View for SharedFile {
    type V = SharedFileModel;

    open spec fn view(&self) -> SharedFileModel {
        SharedFileModel { name: self.name@, size: self.size, directory: self.directory }
    }
}

impl SharedFile {
    pub fn duplicate(&self) -> (r: SharedFile)
        ensures
            r@ == self@,
    {
        SharedFile { name: self.name.clone(), size: self.size, directory: self.directory }
    }
}

pub open spec fn shared_files(v: Seq<SharedFile>) -> Seq<SharedFileModel> {
    v.map_values(|f: SharedFile| f@)
}

pub fn copy_files(v: &Vec<SharedFile>) -> (r: Vec<SharedFile>)
    ensures
        shared_files(r@) == shared_files(v@),
{
    let mut r: Vec<SharedFile> = Vec::new();
    let mut i: usize = 0;
    while i < v.len()
        invariant
            0 <= i <= v.len(),
            r.len() == i,
            shared_files(r@) =~= shared_files(v@).take(i as int),
        decreases v.len() - i,
    {
        r.push(v[i].duplicate());
        assert(shared_files(r@)[i as int] == shared_files(v@)[i as int]);
        i += 1;
    }
    assert(shared_files(v@).take(v.len() as int) =~= shared_files(v@));
    r
}

/// A selected source on the sending device, with a fingerprint of its contents.
#[derive(Clone, Debug)]
pub struct SourceFile {
    pub path: String,
    pub file: SharedFile,
    pub modified: u64,
}

pub struct SourceFileModel {
    pub path: Seq<char>,
    pub file: SharedFileModel,
    pub modified: u64,
}

impl View for SourceFile {
    type V = SourceFileModel;

    open spec fn view(&self) -> SourceFileModel {
        SourceFileModel { path: self.path@, file: self.file@, modified: self.modified }
    }
}

impl SourceFile {
    pub fn duplicate(&self) -> (r: SourceFile)
        ensures
            r@ == self@,
    {
        SourceFile { path: self.path.clone(), file: self.file.duplicate(), modified: self.modified }
    }
}

/// The connection code for one recipient of an offer.
#[derive(Clone, Debug)]
pub struct Slot {
    pub recipient: String,
    pub code: String,
}

pub struct SlotModel {
    pub recipient: Seq<char>,
    pub code: Seq<char>,
}

impl View for Slot {
    type V = SlotModel;

    open spec fn view(&self) -> SlotModel {
        SlotModel { recipient: self.recipient@, code: self.code@ }
    }
}

/// A transfer offer, published as the body of an issue in the chat repository.
#[derive(Clone, Debug)]
pub struct Offer {
    pub id: String,
    pub sender: String,
    pub source_device: String,
    pub device_name: String,
    pub created_at: u64,
    pub expires_at: u64,
    pub files: Vec<SharedFile>,
    pub slots: Vec<Slot>,
}

pub struct OfferModel {
    pub id: Seq<char>,
    pub sender: Seq<char>,
    pub source_device: Seq<char>,
    pub device_name: Seq<char>,
    pub created_at: u64,
    pub expires_at: u64,
    pub files: Seq<SharedFileModel>,
    pub slots: Seq<SlotModel>,
}

impl View for Offer {
    type V = OfferModel;

    open spec fn view(&self) -> OfferModel {
        OfferModel {
            id: self.id@,
            sender: self.sender@,
            source_device: self.source_device@,
            device_name: self.device_name@,
            created_at: self.created_at,
            expires_at: self.expires_at,
            files: shared_files(self.files@),
            slots: self.slots@.map_values(|s: Slot| s@),
        }
    }
}

/// The state of one delivery, as published in status events and shown to users.
#[derive(Clone, Copy, Debug, PartialEq, Eq, Structural)]
pub enum Status {
    Waiting,
    Seen,
    Receiving,
    Sent,
    Received,
    Failed,
    Cancelled,
    RetryRequested,
    Expired,
}

/// A status event about one recipient's delivery attempt.
#[derive(Clone, Debug)]
pub struct Event {
    pub id: String,
    pub recipient: String,
    pub attempt: u32,
    pub status: Status,
    pub at: u64,
    pub code: Option<String>,
    pub expires_at: Option<u64>,
}

pub struct EventModel {
    pub id: Seq<char>,
    pub recipient: Seq<char>,
    pub attempt: u32,
    pub status: Status,
    pub at: u64,
    pub code: Option<Seq<char>>,
    pub expires_at: Option<u64>,
}

impl View for Event {
    type V = EventModel;

    open spec fn view(&self) -> EventModel {
        EventModel {
            id: self.id@,
            recipient: self.recipient@,
            attempt: self.attempt,
            status: self.status,
            at: self.at,
            code: match self.code {
                Some(c) => Some(c@),
                None => None,
            },
            expires_at: self.expires_at,
        }
    }
}

impl Event {
    pub fn duplicate(&self) -> (r: Event)
        ensures
            r@ == self@,
    {
        Event {
            id: self.id.clone(),
            recipient: self.recipient.clone(),
            attempt: self.attempt,
            status: self.status,
            at: self.at,
            code: match &self.code {
                Some(c) => Some(c.clone()),
                None => None,
            },
            expires_at: self.expires_at,
        }
    }
}

/// A status event together with the GitHub account that published it.
#[derive(Clone, Debug)]
pub struct AuthoredEvent {
    pub author: String,
    pub event: Event,
}

pub struct AuthoredModel {
    pub author: Seq<char>,
    pub event: EventModel,
}

impl View for AuthoredEvent {
    type V = AuthoredModel;

    open spec fn view(&self) -> AuthoredModel {
        AuthoredModel { author: self.author@, event: self.event@ }
    }
}

impl AuthoredEvent {
    pub fn duplicate(&self) -> (r: AuthoredEvent)
        ensures
            r@ == self@,
    {
        AuthoredEvent { author: self.author.clone(), event: self.event.duplicate() }
    }
}

pub open spec fn authored(v: Seq<AuthoredEvent>) -> Seq<AuthoredModel> {
    v.map_values(|e: AuthoredEvent| e@)
}

/// An offer together with every status event posted on its issue.
#[derive(Clone, Debug)]
pub struct Transfer {
    pub repo: String,
    pub issue: u64,
    pub offer: Offer,
    pub events: Vec<AuthoredEvent>,
}

pub struct TransferModel {
    pub repo: Seq<char>,
    pub issue: u64,
    pub offer: OfferModel,
    pub events: Seq<AuthoredModel>,
}

impl View for Transfer {
    type V = TransferModel;

    open spec fn view(&self) -> TransferModel {
        TransferModel {
            repo: self.repo@,
            issue: self.issue,
            offer: self.offer@,
            events: authored(self.events@),
        }
    }
}

/// The current state of one recipient's delivery.
#[derive(Clone, Debug)]
pub struct Delivery {
    pub recipient: String,
    pub attempt: u32,
    pub status: Status,
    pub expires_at: u64,
    pub code: String,
}

pub struct DeliveryModel {
    pub recipient: Seq<char>,
    pub attempt: u32,
    pub status: Status,
    pub expires_at: u64,
    pub code: Seq<char>,
}

impl View for Delivery {
    type V = DeliveryModel;

    open spec fn view(&self) -> DeliveryModel {
        DeliveryModel {
            recipient: self.recipient@,
            attempt: self.attempt,
            status: self.status,
            expires_at: self.expires_at,
            code: self.code@,
        }
    }
}

pub open spec fn deliveries_of(v: Seq<Delivery>) -> Seq<DeliveryModel> {
    v.map_values(|d: Delivery| d@)
}

/// Message for a repository that does not hold a usable chat.
pub const INVALID_CHAT: &'static str = "This repository does not contain a valid Cricket chat for your account.";

/// Message for a chat that lists one member twice.
pub const DUPLICATE_MEMBERS: &'static str = "Duplicate chat members.";

/// `name` matches one of `names`, ignoring ASCII case.
pub open spec fn listed(names: Seq<Seq<char>>, name: Seq<char>) -> bool {
    exists|i: int| 0 <= i < names.len() && same_name(#[trigger] names[i], name)
}

/// No two entries of `names` match, ignoring ASCII case.
pub open spec fn distinct_names(names: Seq<Seq<char>>) -> bool {
    forall|i: int, j: int|
        0 <= i < j < names.len() ==> !same_name(#[trigger] names[i], #[trigger] names[j])
}

/// The shape checks of a chat manifest as seen by the account `login`.
pub open spec fn chat_fits(c: ChatModel, login: Seq<char>) -> bool {
    &&& repo_ok(c.repo)
    &&& !is_blank(c.name)
    &&& utf8_len(c.name) <= 80
    &&& 0 < c.members.len() <= 10
    &&& forall|i: int| 0 <= i < c.members.len() ==> login_ok(#[trigger] c.members[i])
    &&& listed(c.members, login)
}

/// Whether `name` matches an entry of `names`, ignoring ASCII case.
pub fn is_listed(names: &Vec<String>, name: &str) -> (r: bool)
    ensures
        r == listed(strings(names@), name@),
{
    let mut i: usize = 0;
    while i < names.len()
        invariant
            0 <= i <= names.len(),
            forall|k: int| 0 <= k < i ==> !same_name(#[trigger] strings(names@)[k], name@),
        decreases names.len() - i,
    {
        if eq_ignore_case(names[i].as_str(), name) {
            assert(same_name(strings(names@)[i as int], name@));
            return true;
        }
        i += 1;
    }
    false
}

/// Whether no two entries of `names` match, ignoring ASCII case.
pub fn all_distinct(names: &Vec<String>) -> (r: bool)
    ensures
        r == distinct_names(strings(names@)),
{
    let ghost m = strings(names@);
    let mut i: usize = 0;
    while i < names.len()
        invariant
            m == strings(names@),
            0 <= i <= names.len(),
            forall|a: int, b: int| 0 <= a < b < names.len() && a < i ==> !same_name(#[trigger] m[a], #[trigger] m[b]),
        decreases names.len() - i,
    {
        let mut j: usize = i + 1;
        while j < names.len()
            invariant
                m == strings(names@),
                0 <= i < names.len(),
                i + 1 <= j <= names.len(),
                forall|a: int, b: int| 0 <= a < b < names.len() && a < i ==> !same_name(#[trigger] m[a], #[trigger] m[b]),
                forall|b: int| i < b < j ==> !same_name(m[i as int], #[trigger] m[b]),
            decreases names.len() - j,
        {
            if eq_ignore_case(names[i].as_str(), names[j].as_str()) {
                assert(same_name(m[i as int], m[j as int]));
                return false;
            }
            j += 1;
        }
        i += 1;
    }
    true
}

fn all_logins(names: &Vec<String>) -> (r: bool)
    ensures
        r == forall|i: int| 0 <= i < names@.len() ==> login_ok(#[trigger] strings(names@)[i]),
{
    let mut i: usize = 0;
    while i < names.len()
        invariant
            0 <= i <= names.len(),
            forall|k: int| 0 <= k < i ==> login_ok(#[trigger] strings(names@)[k]),
        decreases names.len() - i,
    {
        assert(strings(names@)[i as int] == names@[i as int]@);
        if !valid_login(names[i].as_str()) {
            return false;
        }
        i += 1;
    }
    true
}

impl Chat {
    /// Checks that this manifest describes a usable chat for the account `login`.
    pub fn validate(&self, login: &str) -> (r: Result<(), String>)
        ensures
            r is Ok <==> chat_fits(self@, login@) && distinct_names(self@.members),
            !chat_fits(self@, login@) ==> (r matches Err(e) && e@ == INVALID_CHAT@),
            chat_fits(self@, login@) && !distinct_names(self@.members) ==> (r matches Err(e)
                && e@ == DUPLICATE_MEMBERS@),
    {
        if !valid_repo(self.repo.as_str()) || blank(self.name.as_str()) || byte_len(
            self.name.as_str(),
        ) > 80 || self.members.len() == 0 || self.members.len() > 10 || !all_logins(
            &self.members,
        ) || !is_listed(&self.members, login) {
            return Err(String::from_str(INVALID_CHAT));
        }
        if !all_distinct(&self.members) {
            return Err(String::from_str(DUPLICATE_MEMBERS));
        }
        Ok(())
    }
}

/// A shared file name that is safe on every platform: 1 to 255 bytes, no path separator
/// or NUL, and not `.` or `..`.
pub open spec fn file_name_ok(n: Seq<char>) -> bool {
    &&& 0 < n.len()
    &&& utf8_len(n) <= 255
    &&& forall|i: int| 0 <= i < n.len() ==> #[trigger] n[i] != '/' && n[i] != '\\' && n[i] != '\0'
    &&& n != seq!['.']
    &&& n != seq!['.', '.']
}

/// Whether `name` is an acceptable shared file name.
pub fn valid_file_name(name: &str) -> (r: bool)
    ensures
        r == file_name_ok(name@),
{
    let v = chars_of(name);
    if v.len() == 0 || byte_len(name) > 255 {
        return false;
    }
    let mut i: usize = 0;
    while i < v.len()
        invariant
            v@ == name@,
            0 <= i <= v.len(),
            forall|k: int| 0 <= k < i ==> #[trigger] v@[k] != '/' && v@[k] != '\\' && v@[k] != '\0',
        decreases v.len() - i,
    {
        if v[i] == '/' || v[i] == '\\' || v[i] == '\0' {
            return false;
        }
        i += 1;
    }
    if v.len() == 1 && v[0] == '.' {
        assert(name@ =~= seq!['.']);
        return false;
    }
    if v.len() == 2 && v[0] == '.' && v[1] == '.' {
        assert(name@ =~= seq!['.', '.']);
        return false;
    }
    proof {
        if name@ == seq!['.'] {
            assert(v@[0] == '.');
        }
        if name@ == seq!['.', '.'] {
            assert(v@[0] == '.' && v@[1] == '.');
        }
    }
    true
}

/// A slot addressed to a chat member, carrying a well-formed code.
pub open spec fn slot_fits(members: Seq<Seq<char>>, s: SlotModel) -> bool {
    listed(members, s.recipient) && code_ok(s.code)
}

pub open spec fn recipients(slots: Seq<SlotModel>) -> Seq<Seq<char>> {
    slots.map_values(|s: SlotModel| s.recipient)
}

/// The checks an offer must pass before it is shown, given whether its id and source device
/// parse as UUIDs (`id_ok`, `device_ok`).
pub open spec fn offer_fits(
    o: OfferModel,
    chat: ChatModel,
    author: Seq<char>,
    id_ok: bool,
    device_ok: bool,
) -> bool {
    &&& same_name(o.sender, author)
    &&& listed(chat.members, author)
    &&& id_ok
    &&& device_ok
    &&& utf8_len(o.device_name) <= 100
    &&& 0 < o.files.len() <= 200
    &&& forall|i: int| 0 <= i < o.files.len() ==> file_name_ok(#[trigger] o.files[i].name)
    &&& 0 < o.slots.len() <= 10
    &&& forall|i: int| 0 <= i < o.slots.len() ==> slot_fits(chat.members, #[trigger] o.slots[i])
    &&& distinct_names(recipients(o.slots))
    &&& o.expires_at > o.created_at
    &&& o.expires_at - o.created_at <= TRANSFER_TTL
}

impl Offer {
    fn files_ok(&self) -> (r: bool)
        ensures
            r == forall|i: int| 0 <= i < self@.files.len() ==> file_name_ok(#[trigger] self@.files[i].name),
    {
        let mut i: usize = 0;
        while i < self.files.len()
            invariant
                0 <= i <= self.files.len(),
                forall|k: int| 0 <= k < i ==> file_name_ok(#[trigger] self@.files[k].name),
            decreases self.files.len() - i,
        {
            assert(self@.files[i as int] == self.files@[i as int]@);
            if !valid_file_name(self.files[i].name.as_str()) {
                assert(!file_name_ok(self@.files[i as int].name));
                return false;
            }
            i += 1;
        }
        true
    }

    fn slots_ok(&self, chat: &Chat) -> (r: bool)
        ensures
            r == forall|i: int| 0 <= i < self@.slots.len() ==> slot_fits(chat@.members, #[trigger] self@.slots[i]),
    {
        let mut i: usize = 0;
        while i < self.slots.len()
            invariant
                0 <= i <= self.slots.len(),
                self@.slots.len() == self.slots.len(),
                forall|k: int| 0 <= k < i ==> slot_fits(chat@.members, #[trigger] self@.slots[k]),
            decreases self.slots.len() - i,
        {
            assert(self@.slots[i as int] == self.slots@[i as int]@);
            let listed_here = is_listed(&chat.members, self.slots[i].recipient.as_str());
            let code_here = valid_code(self.slots[i].code.as_str());
            if !listed_here || !code_here {
                assert(!slot_fits(chat@.members, self@.slots[i as int]));
                return false;
            }
            i += 1;
        }
        true
    }

    fn recipient_names(&self) -> (r: Vec<String>)
        ensures
            strings(r@) == recipients(self@.slots),
    {
        let mut r: Vec<String> = Vec::new();
        let mut i: usize = 0;
        while i < self.slots.len()
            invariant
                0 <= i <= self.slots.len(),
                r.len() == i,
                strings(r@) =~= recipients(self@.slots).take(i as int),
            decreases self.slots.len() - i,
        {
            r.push(self.slots[i].recipient.clone());
            assert(strings(r@)[i as int] == recipients(self@.slots)[i as int]);
            i += 1;
        }
        assert(recipients(self@.slots).take(self.slots.len() as int) =~= recipients(self@.slots));
        r
    }

    /// Checks an offer posted by `author` in `chat`, given whether its id and source device
    /// parse as UUIDs.
    pub fn validate_parsed(&self, chat: &Chat, author: &str, id_ok: bool, device_ok: bool) -> (r: bool)
        ensures
            r == offer_fits(self@, chat@, author@, id_ok, device_ok),
    {
        eq_ignore_case(self.sender.as_str(), author) && is_listed(&chat.members, author) && id_ok
            && device_ok && byte_len(self.device_name.as_str()) <= 100 && self.files.len() > 0
            && self.files.len() <= 200 && self.files_ok() && self.slots.len() > 0
            && self.slots.len() <= 10 && self.slots_ok(chat) && all_distinct(
            &self.recipient_names(),
        ) && self.expires_at > self.created_at && self.expires_at - self.created_at
            <= TRANSFER_TTL
    }

    /// Checks an offer posted by `author` in `chat`.
    pub fn validate(&self, chat: &Chat, author: &str) -> (r: bool)
        ensures
            r == offer_fits(
                self@,
                chat@,
                author@,
                uuid_parses(self@.id),
                uuid_parses(self@.source_device),
            ),
    {
        let id_ok = parses_as_uuid(self.id.as_str());
        let device_ok = parses_as_uuid(self.source_device.as_str());
        self.validate_parsed(chat, author, id_ok, device_ok)
    }
}

/// The key of a transfer: `owner/repo#issue`.
pub open spec fn transfer_key(repo: Seq<char>, issue: u64) -> Seq<char> {
    repo + seq!['#'] + decimal(issue as nat)
}

/// A delivery that may still make progress; only these can expire.
pub open spec fn is_open(s: Status) -> bool {
    s == Status::Waiting || s == Status::Seen || s == Status::Receiving
}

/// Where a recipient's delivery starts: the offer's first attempt and code.
pub open spec fn first_attempt(t: TransferModel, slot: SlotModel) -> DeliveryModel {
    DeliveryModel {
        recipient: slot.recipient,
        attempt: 1,
        status: Status::Waiting,
        expires_at: t.offer.expires_at,
        code: slot.code,
    }
}

pub open spec fn with_status(d: DeliveryModel, s: Status) -> DeliveryModel {
    DeliveryModel { recipient: d.recipient, attempt: d.attempt, status: s, expires_at: d.expires_at, code: d.code }
}

/// A retry published by the sender: the next attempt, with a well-formed code that lives at
/// most one TTL.
pub open spec fn is_retry(t: TransferModel, d: DeliveryModel, a: AuthoredModel) -> bool {
    let e = a.event;
    &&& same_name(a.author, t.offer.sender)
    &&& e.attempt == d.attempt + 1
    &&& e.code matches Some(c) && code_ok(c)
    &&& e.expires_at matches Some(x) && x > e.at && x - e.at <= TRANSFER_TTL
    &&& d.status != Status::Received
}

/// The effect of one authored event on a recipient's delivery.
pub open spec fn apply_event(
    t: TransferModel,
    slot: SlotModel,
    d: DeliveryModel,
    a: AuthoredModel,
) -> DeliveryModel {
    let e = a.event;
    let by_sender = same_name(a.author, t.offer.sender);
    let by_recipient = same_name(a.author, slot.recipient);
    if e.status == Status::Waiting {
        if is_retry(t, d, a) {
            DeliveryModel {
                recipient: d.recipient,
                attempt: e.attempt,
                status: Status::Waiting,
                expires_at: e.expires_at->0,
                code: e.code->0,
            }
        } else {
            d
        }
    } else if e.attempt != d.attempt || d.status == Status::Received {
        d
    } else if e.status == Status::Received && by_recipient {
        with_status(d, Status::Received)
    } else if e.status == Status::RetryRequested && by_recipient {
        with_status(d, Status::RetryRequested)
    } else if e.status == Status::Sent && by_sender && d.status != Status::RetryRequested {
        with_status(d, Status::Sent)
    } else if (e.status == Status::Failed || e.status == Status::Cancelled) && (by_sender
        || by_recipient) {
        if d.status != Status::Sent {
            with_status(d, e.status)
        } else {
            d
        }
    } else if e.status == Status::Seen && by_recipient && d.status == Status::Waiting {
        with_status(d, Status::Seen)
    } else if e.status == Status::Receiving && by_recipient && (d.status == Status::Waiting
        || d.status == Status::Seen) {
        DeliveryModel {
            recipient: d.recipient,
            attempt: d.attempt,
            status: Status::Receiving,
            expires_at: e.at.saturating_add(RECEIVE_WINDOW),
            code: d.code,
        }
    } else {
        d
    }
}

/// Replays the first `n` events for one recipient. An event counts once per id, only when it
/// names this recipient and its id parses (`ok`); the second component is the ids seen.
pub open spec fn replay(t: TransferModel, slot: SlotModel, ok: Seq<bool>, n: nat) -> (
    DeliveryModel,
    Seq<Seq<char>>,
)
    decreases n,
{
    if n == 0 {
        (first_attempt(t, slot), Seq::empty())
    } else {
        let prev = replay(t, slot, ok, (n - 1) as nat);
        let a = t.events[n - 1];
        if !same_name(a.event.recipient, slot.recipient) || prev.1.contains(a.event.id) {
            prev
        } else if !ok[n - 1] {
            (prev.0, prev.1.push(a.event.id))
        } else {
            (apply_event(t, slot, prev.0, a), prev.1.push(a.event.id))
        }
    }
}

/// An open delivery past its deadline is shown as expired.
pub open spec fn settle(d: DeliveryModel, at: u64) -> DeliveryModel {
    if at >= d.expires_at && is_open(d.status) {
        with_status(d, Status::Expired)
    } else {
        d
    }
}

/// The state of one recipient's delivery at time `at`.
pub open spec fn delivery_state(t: TransferModel, slot: SlotModel, ok: Seq<bool>, at: u64) -> DeliveryModel {
    settle(replay(t, slot, ok, t.events.len()).0, at)
}

/// The state of every recipient's delivery at time `at`, in slot order.
pub open spec fn deliveries_state(t: TransferModel, ok: Seq<bool>, at: u64) -> Seq<DeliveryModel> {
    t.offer.slots.map_values(|s: SlotModel| delivery_state(t, s, ok, at))
}

/// Whether each event id of `t` parses as a UUID.
pub open spec fn parsed_ids(t: TransferModel) -> Seq<bool> {
    t.events.map_values(|a: AuthoredModel| uuid_parses(a.event.id))
}

fn has_id(ids: &Vec<String>, id: &String) -> (r: bool)
    ensures
        r == strings(ids@).contains(id@),
{
    let mut i: usize = 0;
    while i < ids.len()
        invariant
            0 <= i <= ids.len(),
            forall|k: int| 0 <= k < i ==> strings(ids@)[k] != id@,
        decreases ids.len() - i,
    {
        if ids[i] == *id {
            assert(strings(ids@)[i as int] == id@);
            return true;
        }
        assert(strings(ids@)[i as int] == ids@[i as int]@);
        i += 1;
    }
    false
}

impl Delivery {
    pub fn duplicate(&self) -> (r: Delivery)
        ensures
            r@ == self@,
    {
        Delivery {
            recipient: self.recipient.clone(),
            attempt: self.attempt,
            status: self.status,
            expires_at: self.expires_at,
            code: self.code.clone(),
        }
    }
}

fn open_status(s: Status) -> (r: bool)
    ensures
        r == is_open(s),
{
    s == Status::Waiting || s == Status::Seen || s == Status::Receiving
}

impl Transfer {
    /// The key that identifies this transfer locally: `owner/repo#issue`.
    pub fn key(&self) -> (r: String)
        ensures
            r@ == transfer_key(self.repo@, self.issue),
    {
        proof {
            reveal_strlit("#");
        }
        join3(self.repo.as_str(), "#", decimal_string(self.issue).as_str())
    }

    fn is_retry_exec(&self, d: &Delivery, a: &AuthoredEvent, by_sender: bool) -> (r: bool)
        requires
            by_sender == same_name(a@.author, self@.offer.sender),
        ensures
            r == is_retry(self@, d@, a@),
    {
        let e = &a.event;
        if !by_sender || e.attempt as u64 != d.attempt as u64 + 1 || d.status == Status::Received {
            return false;
        }
        let code_fine = match &e.code {
            Some(c) => valid_code(c.as_str()),
            None => false,
        };
        let window_fine = match e.expires_at {
            Some(x) => x > e.at && x - e.at <= TRANSFER_TTL,
            None => false,
        };
        code_fine && window_fine
    }

    /// One step of the replay: the effect of `a` on `d` for the recipient of `slot`.
    fn advance(&self, slot: &Slot, d: Delivery, a: &AuthoredEvent) -> (r: Delivery)
        ensures
            r@ == apply_event(self@, slot@, d@, a@),
    {
        let e = &a.event;
        let by_sender = eq_ignore_case(a.author.as_str(), self.offer.sender.as_str());
        let by_recipient = eq_ignore_case(a.author.as_str(), slot.recipient.as_str());
        let mut d = d;
        if e.status == Status::Waiting {
            if self.is_retry_exec(&d, a, by_sender) {
                match (&e.code, e.expires_at) {
                    (Some(c), Some(x)) => {
                        d.attempt = e.attempt;
                        d.status = Status::Waiting;
                        d.code = c.clone();
                        d.expires_at = x;
                    },
                    _ => {},
                }
            }
            return d;
        }
        if e.attempt != d.attempt || d.status == Status::Received {
            return d;
        }
        if e.status == Status::Received && by_recipient {
            d.status = Status::Received;
        } else if e.status == Status::RetryRequested && by_recipient {
            d.status = Status::RetryRequested;
        } else if e.status == Status::Sent && by_sender && d.status != Status::RetryRequested {
            d.status = Status::Sent;
        } else if (e.status == Status::Failed || e.status == Status::Cancelled) && (by_sender
            || by_recipient) {
            if d.status != Status::Sent {
                d.status = e.status;
            }
        } else if e.status == Status::Seen && by_recipient && d.status == Status::Waiting {
            d.status = Status::Seen;
        } else if e.status == Status::Receiving && by_recipient && (d.status == Status::Waiting
            || d.status == Status::Seen) {
            d.status = Status::Receiving;
            d.expires_at = e.at.saturating_add(RECEIVE_WINDOW);
        }
        d
    }

    /// The delivery state of one slot at time `at`, given whether each event id parses.
    fn delivery_for(&self, slot: &Slot, at: u64, parsed: &Vec<bool>) -> (r: Delivery)
        requires
            parsed@.len() == self.events@.len(),
        ensures
            r@ == delivery_state(self@, slot@, parsed@, at),
    {
        let mut d = Delivery {
            recipient: slot.recipient.clone(),
            attempt: 1,
            status: Status::Waiting,
            expires_at: self.offer.expires_at,
            code: slot.code.clone(),
        };
        let mut ids: Vec<String> = Vec::new();
        let mut i: usize = 0;
        assert(self@.events.len() == self.events@.len());
        while i < self.events.len()
            invariant
                parsed@.len() == self.events@.len(),
                self@.events.len() == self.events@.len(),
                0 <= i <= self.events.len(),
                (d@, strings(ids@)) == replay(self@, slot@, parsed@, i as nat),
            decreases self.events.len() - i,
        {
            let a = &self.events[i];
            assert(self@.events[i as int] == a@);
            let mine = eq_ignore_case(a.event.recipient.as_str(), slot.recipient.as_str());
            if mine && !has_id(&ids, &a.event.id) {
                let ghost before = strings(ids@);
                ids.push(a.event.id.clone());
                assert(strings(ids@) =~= before.push(a@.event.id));
                if parsed[i] {
                    d = self.advance(slot, d, a);
                }
            }
            i += 1;
        }
        if at >= d.expires_at && open_status(d.status) {
            d.status = Status::Expired;
        }
        d
    }

    /// Every recipient's delivery state at time `at`, given whether each event id parses as
    /// a UUID (`parsed`, one entry per event).
    pub fn deliveries_given(&self, at: u64, parsed: &Vec<bool>) -> (r: Vec<Delivery>)
        requires
            parsed@.len() == self.events@.len(),
        ensures
            deliveries_of(r@) == deliveries_state(self@, parsed@, at),
    {
        let mut r: Vec<Delivery> = Vec::new();
        let mut i: usize = 0;
        while i < self.offer.slots.len()
            invariant
                parsed@.len() == self.events@.len(),
                0 <= i <= self.offer.slots.len(),
                r.len() == i,
                deliveries_of(r@) =~= deliveries_state(self@, parsed@, at).take(i as int),
            decreases self.offer.slots.len() - i,
        {
            let d = self.delivery_for(&self.offer.slots[i], at, parsed);
            r.push(d);
            assert(self@.offer.slots[i as int] == self.offer.slots@[i as int]@);
            assert(deliveries_of(r@)[i as int] == deliveries_state(self@, parsed@, at)[i as int]);
            i += 1;
        }
        assert(deliveries_state(self@, parsed@, at).take(self.offer.slots.len() as int)
            =~= deliveries_state(self@, parsed@, at));
        r
    }

    /// Whether each event id parses as a UUID.
    fn parse_ids(&self) -> (r: Vec<bool>)
        ensures
            r@ == parsed_ids(self@),
    {
        let mut r: Vec<bool> = Vec::new();
        let mut i: usize = 0;
        while i < self.events.len()
            invariant
                0 <= i <= self.events.len(),
                r@ =~= parsed_ids(self@).take(i as int),
            decreases self.events.len() - i,
        {
            assert(self@.events[i as int] == self.events@[i as int]@);
            r.push(parses_as_uuid(self.events[i].event.id.as_str()));
            i += 1;
        }
        assert(parsed_ids(self@).take(self.events.len() as int) =~= parsed_ids(self@));
        r
    }

    /// Every recipient's delivery state at time `at`, replayed from the offer and the events.
    pub fn deliveries(&self, at: u64) -> (r: Vec<Delivery>)
        ensures
            deliveries_of(r@) == deliveries_state(self@, parsed_ids(self@), at),
    {
        let parsed = self.parse_ids();
        self.deliveries_given(at, &parsed)
    }
}

/// What the interface and the local agent are shown of a transfer.
#[derive(Clone, Debug)]
pub struct TransferView {
    pub key: String,
    pub repo: String,
    pub issue: u64,
    pub sender: String,
    pub source_device: String,
    pub device_name: String,
    pub created_at: u64,
    pub files: Vec<SharedFile>,
    pub deliveries: Vec<Delivery>,
    pub can_retry: bool,
    pub error: Option<String>,
}

pub struct TransferViewModel {
    pub key: Seq<char>,
    pub repo: Seq<char>,
    pub issue: u64,
    pub sender: Seq<char>,
    pub source_device: Seq<char>,
    pub device_name: Seq<char>,
    pub created_at: u64,
    pub files: Seq<SharedFileModel>,
    pub deliveries: Seq<DeliveryModel>,
    pub can_retry: bool,
    pub error: Option<Seq<char>>,
}

impl View for TransferView {
    type V = TransferViewModel;

    open spec fn view(&self) -> TransferViewModel {
        TransferViewModel {
            key: self.key@,
            repo: self.repo@,
            issue: self.issue,
            sender: self.sender@,
            source_device: self.source_device@,
            device_name: self.device_name@,
            created_at: self.created_at,
            files: shared_files(self.files@),
            deliveries: deliveries_of(self.deliveries@),
            can_retry: self.can_retry,
            error: match self.error {
                Some(e) => Some(e@),
                None => None,
            },
        }
    }
}

/// The view of transfer `t` at time `at` for the device `device`; retry is offered only on
/// the sending device while it still holds the sources.
pub open spec fn transfer_view(t: TransferModel, device: Seq<char>, has_source: bool, at: u64) -> TransferViewModel {
    TransferViewModel {
        key: transfer_key(t.repo, t.issue),
        repo: t.repo,
        issue: t.issue,
        sender: t.offer.sender,
        source_device: t.offer.source_device,
        device_name: t.offer.device_name,
        created_at: t.offer.created_at,
        files: t.offer.files,
        deliveries: deliveries_state(t, parsed_ids(t), at),
        can_retry: t.offer.source_device == device && has_source,
        error: None,
    }
}

impl TransferView {
    /// The view of `t` as of time `at`.
    pub fn at_time(t: &Transfer, device: &str, has_source: bool, at: u64) -> (r: TransferView)
        ensures
            r@ == transfer_view(t@, device@, has_source, at),
    {
        let same_device = equal_text(t.offer.source_device.as_str(), device);
        TransferView {
            key: t.key(),
            repo: t.repo.clone(),
            issue: t.issue,
            sender: t.offer.sender.clone(),
            source_device: t.offer.source_device.clone(),
            device_name: t.offer.device_name.clone(),
            created_at: t.offer.created_at,
            files: copy_files(&t.offer.files),
            deliveries: t.deliveries(at),
            can_retry: same_device && has_source,
            error: None,
        }
    }

    /// The view of `t` as of the current time.
    pub fn new(t: &Transfer, device: &str, has_source: bool) -> (r: TransferView)
        ensures
            exists|at: u64| r@ == transfer_view(t@, device@, has_source, at),
    {
        let at = now();
        TransferView::at_time(t, device, has_source, at)
    }
}

impl Slot {
    pub fn duplicate(&self) -> (r: Slot)
        ensures
            r@ == self@,
    {
        Slot { recipient: self.recipient.clone(), code: self.code.clone() }
    }
}

impl Offer {
    pub fn duplicate(&self) -> (r: Offer)
        ensures
            r@ == self@,
    {
        let mut slots: Vec<Slot> = Vec::new();
        let mut i: usize = 0;
        while i < self.slots.len()
            invariant
                0 <= i <= self.slots.len(),
                slots.len() == i,
                slots@.map_values(|s: Slot| s@) =~= self.slots@.map_values(|s: Slot| s@).take(
                    i as int,
                ),
            decreases self.slots.len() - i,
        {
            slots.push(self.slots[i].duplicate());
            assert(slots@.map_values(|s: Slot| s@)[i as int] == self.slots@.map_values(
                |s: Slot| s@,
            )[i as int]);
            i += 1;
        }
        assert(self.slots@.map_values(|s: Slot| s@).take(self.slots.len() as int)
            =~= self.slots@.map_values(|s: Slot| s@));
        Offer {
            id: self.id.clone(),
            sender: self.sender.clone(),
            source_device: self.source_device.clone(),
            device_name: self.device_name.clone(),
            created_at: self.created_at,
            expires_at: self.expires_at,
            files: copy_files(&self.files),
            slots,
        }
    }
}

/// Copies of a list of authored events.
pub fn copy_events(v: &Vec<AuthoredEvent>) -> (r: Vec<AuthoredEvent>)
    ensures
        authored(r@) == authored(v@),
{
    let mut r: Vec<AuthoredEvent> = Vec::new();
    let mut i: usize = 0;
    while i < v.len()
        invariant
            0 <= i <= v.len(),
            r.len() == i,
            authored(r@) =~= authored(v@).take(i as int),
        decreases v.len() - i,
    {
        r.push(v[i].duplicate());
        assert(authored(r@)[i as int] == authored(v@)[i as int]);
        i += 1;
    }
    assert(authored(v@).take(v.len() as int) =~= authored(v@));
    r
}

impl Transfer {
    pub fn duplicate(&self) -> (r: Transfer)
        ensures
            r@ == self@,
    {
        Transfer {
            repo: self.repo.clone(),
            issue: self.issue,
            offer: self.offer.duplicate(),
            events: copy_events(&self.events),
        }
    }
}

} // verus!
