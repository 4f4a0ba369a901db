//! The decisions of the transfer service: who receives an offer, when a delivery may start,
//! receive, retry or be marked seen, what a finished croc run reports, and how account
//! input is normalised. The application performs the I/O around them.
use crate::croc::new_code;
use crate::model::{
    code_ok, deliveries_of, deliveries_state, fresh_id, id, parsed_ids, uuid_parses, shared_files, strings,
    uuid_text, Delivery, DeliveryModel, Event, Offer, SharedFile, SharedFileModel,
    Slot, SourceFile, SourceFileModel, Status, Transfer, TRANSFER_TTL,
};
use crate::storage::{blank_store, Store, StoreModel};
use crate::text::{
    byte_len, chars_of, eq_ignore_case, equal_text, join3, lowercase, lowercase_text,
    same_name, slice_chars, trim, trim_text, utf8_len,
};
use vstd::prelude::*;

verus! {

/// A delivery running on this device, as shown to the user.
#[derive(Clone, Debug)]
pub struct JobView {
    pub id: String,
    pub key: String,
    pub recipient: String,
    pub direction: String,
}

/// The identifier of the job that runs a delivery: `key:recipient`, lower-cased recipient.
pub open spec fn job_id_text(key: Seq<char>, recipient: Seq<char>) -> Seq<char> {
    key + seq![':'] + lowercase_text(recipient)
}

/// The identifier of the job for the delivery of transfer `key` to `recipient`.
pub fn job_id(key: &str, recipient: &str) -> (r: String)
    ensures
        r@ == job_id_text(key@, recipient@),
{
    proof {
        reveal_strlit(":");
    }
    join3(key, ":", lowercase(recipient).as_str())
}

/// The view of a job that sends (or receives) transfer `key` for `recipient`.
pub fn job_view(key: &str, recipient: &str, sending: bool) -> (r: JobView)
    ensures
        r.id@ == job_id_text(key@, recipient@),
        r.key@ == key@,
        r.recipient@ == recipient@,
        r.direction@ == if sending { "send"@ } else { "receive"@ },
{
    JobView {
        id: job_id(key, recipient),
        key: String::from_str(key),
        recipient: String::from_str(recipient),
        direction: String::from_str(if sending { "send" } else { "receive" }),
    }
}

/// The error a croc run reports when it was cancelled.
pub const CANCELLED: &'static str = "Transfer cancelled.";

/// The status a finished croc run publishes.
pub open spec fn finish_status(sending: bool, ok: bool, error: Seq<char>) -> Status {
    if ok {
        if sending {
            Status::Sent
        } else {
            Status::Received
        }
    } else if error == CANCELLED@ {
        Status::Cancelled
    } else {
        Status::Failed
    }
}

/// The status to publish once croc has finished a delivery.
pub fn finished_status(sending: bool, result: &Result<(), String>) -> (r: Status)
    ensures
        r == match result {
            Ok(_) => finish_status(sending, true, Seq::empty()),
            Err(e) => finish_status(sending, false, e@),
        },
{
    match result {
        Ok(_) => if sending {
            Status::Sent
        } else {
            Status::Received
        },
        Err(e) => if equal_text(e.as_str(), CANCELLED) {
            Status::Cancelled
        } else {
            Status::Failed
        },
    }
}

/// How many deliveries may run at once on this device.
pub const MAX_JOBS: usize = 10;

pub const ALREADY_RUNNING: &'static str = "This delivery is already running on this device.";
pub const TOO_MANY_JOBS: &'static str = "Too many active deliveries. Try again when one finishes.";
pub const CLOSING: &'static str = "Cricket is closing. Retry this transfer when it is open again.";

/// Whether a delivery may start: not already running, room for one more, and the
/// application is not closing.
pub fn admit_job(running: bool, active: usize, closing: bool) -> (r: Result<(), String>)
    ensures
        running ==> (r matches Err(e) && e@ == ALREADY_RUNNING@),
        !running && active >= MAX_JOBS ==> (r matches Err(e) && e@ == TOO_MANY_JOBS@),
        !running && active < MAX_JOBS && closing ==> (r matches Err(e) && e@ == CLOSING@),
        r is Ok <==> !running && active < MAX_JOBS && !closing,
{
    if running {
        return Err(String::from_str(ALREADY_RUNNING));
    }
    if active >= MAX_JOBS {
        return Err(String::from_str(TOO_MANY_JOBS));
    }
    if closing {
        return Err(String::from_str(CLOSING));
    }
    Ok(())
}

/// Whether `login` receives a copy in a chat with `members`: everyone but the sender, or
/// the sender alone in a personal chat.
pub open spec fn receives(members: Seq<Seq<char>>, login: Seq<char>, m: Seq<char>) -> bool {
    members.len() == 1 || !same_name(m, login)
}

/// The recipients among `members[..n]`, in order.
pub open spec fn recipients_among(members: Seq<Seq<char>>, login: Seq<char>, n: nat) -> Seq<Seq<char>>
    decreases n,
{
    if n == 0 {
        Seq::empty()
    } else {
        let rest = recipients_among(members, login, (n - 1) as nat);
        if receives(members, login, members[n - 1]) {
            rest.push(members[n - 1])
        } else {
            rest
        }
    }
}

/// The recipients of an offer that `login` makes in a chat with `members`.
pub fn offer_recipients(members: &Vec<String>, login: &str) -> (r: Vec<String>)
    ensures
        strings(r@) == recipients_among(strings(members@), login@, members@.len()),
{
    let ghost ms = strings(members@);
    let mut r: Vec<String> = Vec::new();
    let mut i: usize = 0;
    while i < members.len()
        invariant
            ms == strings(members@),
            0 <= i <= members.len(),
            strings(r@) == recipients_among(ms, login@, i as nat),
        decreases members.len() - i,
    {
        assert(ms[i as int] == members@[i as int]@);
        if members.len() == 1 || !eq_ignore_case(members[i].as_str(), login) {
            let ghost before = strings(r@);
            r.push(members[i].clone());
            assert(strings(r@) =~= before.push(ms[i as int]));
        }
        i += 1;
    }
    r
}

pub const CAPACITY: &'static str = "Finish some active transfers first (10 simultaneous deliveries maximum).";

/// Whether `adding` more deliveries fit next to `active` running ones.
pub fn check_capacity(active: usize, adding: usize) -> (r: Result<(), String>)
    ensures
        r is Ok <==> active + adding <= MAX_JOBS,
        r matches Err(e) ==> e@ == CAPACITY@,
{
    if active > MAX_JOBS || adding > MAX_JOBS - active {
        return Err(String::from_str(CAPACITY));
    }
    Ok(())
}

/// The files announced for a list of sources.
pub open spec fn announced(sources: Seq<SourceFileModel>) -> Seq<SharedFileModel> {
    sources.map_values(|f: SourceFileModel| f.file)
}

/// A new offer from `login` on device `device`, made at `created_at`: it lists the files
/// of `sources` and gives every recipient a fresh code; it lives one TTL.
pub fn make_offer(
    login: String,
    device: String,
    device_name: String,
    created_at: u64,
    sources: &Vec<SourceFile>,
    recipients: &Vec<String>,
) -> (r: Offer)
    requires
        created_at <= u64::MAX - TRANSFER_TTL,
    ensures
        uuid_text(r@.id),
        uuid_parses(r@.id),
        r@.sender == login@,
        r@.source_device == device@,
        r@.device_name == device_name@,
        r@.created_at == created_at,
        r@.expires_at == created_at + TRANSFER_TTL,
        r@.files == announced(sources_of(sources@)),
        r@.slots.len() == recipients@.len(),
        forall|i: int|
            0 <= i < recipients@.len() ==> #[trigger] r@.slots[i].recipient == recipients@[i]@
                && code_ok(r@.slots[i].code) && crate::croc::two_uuids(r@.slots[i].code),
{
    let ghost src = sources_of(sources@);
    let mut files: Vec<SharedFile> = Vec::new();
    let mut i: usize = 0;
    while i < sources.len()
        invariant
            src == sources_of(sources@),
            0 <= i <= sources.len(),
            shared_files(files@) =~= announced(src).take(i as int),
        decreases sources.len() - i,
    {
        assert(src[i as int] == sources@[i as int]@);
        let ghost before = shared_files(files@);
        files.push(sources[i].file.duplicate());
        assert(shared_files(files@) =~= before.push(src[i as int].file));
        i += 1;
    }
    assert(announced(src).take(sources.len() as int) =~= announced(src));
    let mut slots: Vec<Slot> = Vec::new();
    let mut k: usize = 0;
    while k < recipients.len()
        invariant
            0 <= k <= recipients.len(),
            slots.len() == k,
            forall|j: int|
                0 <= j < k ==> #[trigger] slots@[j]@.recipient == recipients@[j]@ && code_ok(
                    slots@[j]@.code,
                ) && crate::croc::two_uuids(slots@[j]@.code),
        decreases recipients.len() - k,
    {
        slots.push(Slot { recipient: recipients[k].clone(), code: new_code() });
        k += 1;
    }
    let r = Offer {
        id: fresh_id(),
        sender: login,
        source_device: device,
        device_name,
        created_at,
        expires_at: created_at + TRANSFER_TTL,
        files,
        slots,
    };
    assert forall|i: int| 0 <= i < recipients@.len() implies #[trigger] r@.slots[i].recipient
        == recipients@[i]@ && code_ok(r@.slots[i].code) && crate::croc::two_uuids(r@.slots[i].code) by {
        assert(r@.slots[i] == r.slots@[i]@);
    }
    r
}

/// Entry `i` is the first delivery addressed to `name`.
pub open spec fn first_for(ds: Seq<DeliveryModel>, name: Seq<char>, i: int) -> bool {
    &&& 0 <= i < ds.len()
    &&& same_name(ds[i].recipient, name)
    &&& forall|j: int| 0 <= j < i ==> !same_name(#[trigger] ds[j].recipient, name)
}

/// No delivery is addressed to `name`.
pub open spec fn none_for(ds: Seq<DeliveryModel>, name: Seq<char>) -> bool {
    forall|j: int| 0 <= j < ds.len() ==> !same_name(#[trigger] ds[j].recipient, name)
}

/// The first delivery of `ds` addressed to `name`.
pub fn delivery_for(ds: &Vec<Delivery>, name: &str) -> (r: Option<usize>)
    ensures
        match r {
            Some(i) => first_for(deliveries_of(ds@), name@, i as int),
            None => none_for(deliveries_of(ds@), name@),
        },
{
    let mut i: usize = 0;
    while i < ds.len()
        invariant
            0 <= i <= ds.len(),
            forall|j: int| 0 <= j < i ==> !same_name(#[trigger] deliveries_of(ds@)[j].recipient, name@),
        decreases ds.len() - i,
    {
        assert(deliveries_of(ds@)[i as int] == ds@[i as int]@);
        if eq_ignore_case(ds[i].recipient.as_str(), name) {
            return Some(i);
        }
        i += 1;
    }
    None
}

pub const OTHER_DEVICE: &'static str = "Open Cricket on your other device to receive these files.";
pub const NOT_ADDRESSED: &'static str = "This transfer is addressed to someone else.";
pub const NOT_WAITING: &'static str = "This delivery is no longer waiting. Ask the sender to retry if needed.";
pub const RECEIVE_BUSY: &'static str = "This delivery is already running or this device has too many active transfers.";

/// The outcome of a receive request on `device` by `login` at time `at`.
pub open spec fn receive_plan(
    t: crate::model::TransferModel,
    device: Seq<char>,
    login: Seq<char>,
    at: u64,
    active: usize,
    running: bool,
) -> Result<DeliveryModel, Seq<char>> {
    let ds = deliveries_state(t, parsed_ids(t), at);
    if t.offer.source_device == device {
        Err(OTHER_DEVICE@)
    } else if none_for(ds, login) {
        Err(NOT_ADDRESSED@)
    } else {
        let i = choose|i: int| first_for(ds, login, i);
        if !(ds[i].status == Status::Waiting || ds[i].status == Status::Seen) {
            Err(NOT_WAITING@)
        } else if active >= MAX_JOBS || running {
            Err(RECEIVE_BUSY@)
        } else {
            Ok(ds[i])
        }
    }
}

pub proof fn lemma_first_for_unique(ds: Seq<DeliveryModel>, name: Seq<char>, i: int, j: int)
    requires
        first_for(ds, name, i),
        first_for(ds, name, j),
    ensures
        i == j,
{
    if i < j {
        assert(!same_name(ds[i].recipient, name));
    }
    if j < i {
        assert(!same_name(ds[j].recipient, name));
    }
}

/// Which delivery `login` may receive now, on device `device`, with `active` deliveries
/// running and `running` telling whether this one already runs.
pub fn plan_receive(
    t: &Transfer,
    device: &str,
    login: &str,
    at: u64,
    active: usize,
    running: bool,
) -> (r: Result<Delivery, String>)
    ensures
        match r {
            Ok(d) => receive_plan(t@, device@, login@, at, active, running) == Ok::<DeliveryModel, Seq<char>>(d@),
            Err(e) => receive_plan(t@, device@, login@, at, active, running) == Err::<DeliveryModel, Seq<char>>(e@),
        },
{
    if equal_text(t.offer.source_device.as_str(), device) {
        return Err(String::from_str(OTHER_DEVICE));
    }
    let ds = t.deliveries(at);
    let i = match delivery_for(&ds, login) {
        None => {
            return Err(String::from_str(NOT_ADDRESSED));
        },
        Some(i) => i,
    };
    proof {
        let ds_m = deliveries_of(ds@);
        let c = choose|c: int| first_for(ds_m, login@, c);
        lemma_first_for_unique(ds_m, login@, i as int, c);
        assert(ds_m[i as int] == ds@[i as int]@);
    }
    let d = &ds[i];
    if !(d.status == Status::Waiting || d.status == Status::Seen) {
        return Err(String::from_str(NOT_WAITING));
    }
    if active >= MAX_JOBS || running {
        return Err(String::from_str(RECEIVE_BUSY));
    }
    Ok(d.duplicate())
}

/// The name of the folder that a download goes to: `Cricket-` with the first eight
/// characters of the offer id and of a fresh id.
pub fn download_folder(offer_id: &str, fresh: &str) -> (r: String)
    ensures
        r@ == "Cricket-"@ + (if offer_id@.len() <= 8 { offer_id@ } else { offer_id@.subrange(0, 8) })
            + seq!['-'] + (if fresh@.len() <= 8 { fresh@ } else { fresh@.subrange(0, 8) }),
{
    proof {
        reveal_strlit("-");
    }
    let a = crate::storage::first_chars(offer_id, 8);
    let b = crate::storage::first_chars(fresh, 8);
    let mut r = join3("Cricket-", a.as_str(), "-");
    r.append(b.as_str());
    r
}

pub const RETRY_ELSEWHERE: &'static str = "Retry from the device that originally sent these files.";
pub const NO_RECIPIENT: &'static str = "Recipient not found";
pub const ALREADY_RECEIVED: &'static str = "This recipient already received the files.";
pub const STILL_RUNNING: &'static str = "This transfer is still running. Cancel it before retrying.";
pub const NO_MORE_RETRIES: &'static str = "This delivery cannot be retried again. Send a new transfer.";

/// The outcome of a retry request by `login` on `device` for `recipient` at time `at`.
pub open spec fn retry_plan(
    t: crate::model::TransferModel,
    login: Seq<char>,
    device: Seq<char>,
    recipient: Seq<char>,
    at: u64,
    running: bool,
) -> Result<DeliveryModel, Seq<char>> {
    let ds = deliveries_state(t, parsed_ids(t), at);
    if !same_name(t.offer.sender, login) || t.offer.source_device != device {
        Err(RETRY_ELSEWHERE@)
    } else if none_for(ds, recipient) {
        Err(NO_RECIPIENT@)
    } else {
        let i = choose|i: int| first_for(ds, recipient, i);
        if ds[i].status == Status::Received {
            Err(ALREADY_RECEIVED@)
        } else if running {
            Err(STILL_RUNNING@)
        } else if ds[i].attempt == u32::MAX {
            Err(NO_MORE_RETRIES@)
        } else {
            Ok(ds[i])
        }
    }
}

/// Which delivery the sender may retry for `recipient`: only from the sending device, not
/// once received, not while it runs.
pub fn plan_retry(
    t: &Transfer,
    login: &str,
    device: &str,
    recipient: &str,
    at: u64,
    running: bool,
) -> (r: Result<Delivery, String>)
    ensures
        match r {
            Ok(d) => retry_plan(t@, login@, device@, recipient@, at, running) == Ok::<DeliveryModel, Seq<char>>(d@),
            Err(e) => retry_plan(t@, login@, device@, recipient@, at, running) == Err::<DeliveryModel, Seq<char>>(e@),
        },
{
    if !eq_ignore_case(t.offer.sender.as_str(), login) || !equal_text(
        t.offer.source_device.as_str(),
        device,
    ) {
        return Err(String::from_str(RETRY_ELSEWHERE));
    }
    let ds = t.deliveries(at);
    let i = match delivery_for(&ds, recipient) {
        None => {
            return Err(String::from_str(NO_RECIPIENT));
        },
        Some(i) => i,
    };
    proof {
        let ds_m = deliveries_of(ds@);
        let c = choose|c: int| first_for(ds_m, recipient@, c);
        lemma_first_for_unique(ds_m, recipient@, i as int, c);
        assert(ds_m[i as int] == ds@[i as int]@);
    }
    let d = &ds[i];
    if d.status == Status::Received {
        return Err(String::from_str(ALREADY_RECEIVED));
    }
    if running {
        return Err(String::from_str(STILL_RUNNING));
    }
    if d.attempt == u32::MAX {
        return Err(String::from_str(NO_MORE_RETRIES));
    }
    Ok(d.duplicate())
}

pub const NO_SOURCES: &'static str = "Reselect the original files to send a new transfer.";
pub const SOURCES_CHANGED: &'static str = "A source changed. Reselect the files and send a new transfer so the recipient gets an accurate manifest.";

/// Source `b` still has the size and fingerprint of `a`.
pub open spec fn same_source(a: SourceFileModel, b: SourceFileModel) -> bool {
    a.file.size == b.file.size && a.modified == b.modified
}

pub open spec fn sources_of(v: Seq<SourceFile>) -> Seq<SourceFileModel> {
    v.map_values(|f: SourceFile| f@)
}

/// The sources still match what was offered: for each pair in order, the same size and
/// fingerprint.
pub open spec fn sources_match(old: Seq<SourceFileModel>, current: Seq<SourceFileModel>) -> bool {
    forall|i: int| 0 <= i < old.len() && i < current.len() ==> #[trigger] same_source(old[i], current[i])
}

/// Whether the sources re-inspected before a retry match those of the offer.
pub fn sources_unchanged(old: &Vec<SourceFile>, current: &Vec<SourceFile>) -> (r: bool)
    ensures
        r == sources_match(sources_of(old@), sources_of(current@)),
{
    let ghost o = sources_of(old@);
    let ghost c = sources_of(current@);
    let mut i: usize = 0;
    while i < old.len() && i < current.len()
        invariant
            o == sources_of(old@),
            c == sources_of(current@),
            0 <= i <= old.len(),
            forall|j: int| 0 <= j < i && j < current@.len() ==> #[trigger] same_source(o[j], c[j]),
        decreases old.len() - i,
    {
        assert(o[i as int] == old@[i as int]@);
        assert(c[i as int] == current@[i as int]@);
        if old[i].file.size != current[i].file.size || old[i].modified != current[i].modified {
            assert(!same_source(o[i as int], c[i as int]));
            return false;
        }
        i += 1;
    }
    true
}

/// A new status event under a fresh id, with no code.
pub fn new_event(recipient: &str, attempt: u32, status: Status, at: u64) -> (r: Event)
    ensures
        uuid_text(r@.id),
        uuid_parses(r@.id),
        r@.recipient == recipient@,
        r@.attempt == attempt,
        r@.status == status,
        r@.at == at,
        r@.code is None,
        r@.expires_at is None,
{
    Event {
        id: fresh_id(),
        recipient: String::from_str(recipient),
        attempt,
        status,
        at,
        code: None,
        expires_at: None,
    }
}

/// The next attempt of delivery `d`, retried at time `at` with a fresh code, and the event
/// that publishes it.
pub fn retried(d: &Delivery, at: u64) -> (r: (Delivery, Event))
    requires
        d.attempt < u32::MAX,
        at <= u64::MAX - TRANSFER_TTL,
    ensures
        r.0@.recipient == d@.recipient,
        r.0@.attempt == d.attempt + 1,
        r.0@.status == d@.status,
        r.0@.expires_at == at + TRANSFER_TTL,
        code_ok(r.0@.code),
        crate::croc::two_uuids(r.0@.code),
        uuid_text(r.1@.id),
        uuid_parses(r.1@.id),
        r.1@.recipient == d@.recipient,
        r.1@.attempt == d.attempt + 1,
        r.1@.status == Status::Waiting,
        r.1@.at == at,
        r.1@.code == Some(r.0@.code),
        r.1@.expires_at == Some((at + TRANSFER_TTL) as u64),
{
    let code = new_code();
    let next = Delivery {
        recipient: d.recipient.clone(),
        attempt: d.attempt + 1,
        status: d.status,
        expires_at: at + TRANSFER_TTL,
        code: code.clone(),
    };
    let mut event = new_event(d.recipient.as_str(), next.attempt, Status::Waiting, at);
    event.code = Some(code);
    event.expires_at = Some(next.expires_at);
    (next, event)
}

pub const NOT_YOURS: &'static str = "This transfer is not addressed to you.";
pub const NO_RETRY_NEEDED: &'static str = "This delivery doesn't need a retry request.";

/// The outcome of a retry request by recipient `login`: the attempt to ask about, or
/// `None` when it was already asked.
pub open spec fn request_retry_plan(t: crate::model::TransferModel, login: Seq<char>, at: u64) -> Result<Option<u32>, Seq<char>> {
    let ds = deliveries_state(t, parsed_ids(t), at);
    if none_for(ds, login) {
        Err(NOT_YOURS@)
    } else {
        let i = choose|i: int| first_for(ds, login, i);
        let s = ds[i].status;
        if s == Status::Received || s == Status::Waiting || s == Status::Seen || s == Status::Receiving {
            Err(NO_RETRY_NEEDED@)
        } else if s == Status::RetryRequested {
            Ok(None)
        } else {
            Ok(Some(ds[i].attempt))
        }
    }
}

/// Which attempt recipient `login` should ask the sender to retry.
pub fn plan_request_retry(t: &Transfer, login: &str, at: u64) -> (r: Result<Option<u32>, String>)
    ensures
        match r {
            Ok(a) => request_retry_plan(t@, login@, at) == Ok::<Option<u32>, Seq<char>>(a),
            Err(e) => request_retry_plan(t@, login@, at) == Err::<Option<u32>, Seq<char>>(e@),
        },
{
    let ds = t.deliveries(at);
    let i = match delivery_for(&ds, login) {
        None => {
            return Err(String::from_str(NOT_YOURS));
        },
        Some(i) => i,
    };
    proof {
        let ds_m = deliveries_of(ds@);
        let c = choose|c: int| first_for(ds_m, login@, c);
        lemma_first_for_unique(ds_m, login@, i as int, c);
        assert(ds_m[i as int] == ds@[i as int]@);
    }
    let s = ds[i].status;
    if s == Status::Received || s == Status::Waiting || s == Status::Seen || s == Status::Receiving {
        return Err(String::from_str(NO_RETRY_NEEDED));
    }
    if s == Status::RetryRequested {
        return Ok(None);
    }
    Ok(Some(ds[i].attempt))
}

/// `s` without its leading `@` characters.
pub open spec fn drop_ats(s: Seq<char>) -> Seq<char>
    decreases s.len(),
{
    if s.len() > 0 && s[0] == '@' {
        drop_ats(s.drop_first())
    } else {
        s
    }
}

proof fn lemma_drop_ats(s: Seq<char>, k: int)
    requires
        0 <= k <= s.len(),
        forall|j: int| 0 <= j < k ==> s[j] == '@',
        k == s.len() || s[k] != '@',
    ensures
        drop_ats(s) == s.subrange(k, s.len() as int),
    decreases k,
{
    if k > 0 {
        assert forall|j: int| 0 <= j < k - 1 implies s.drop_first()[j] == '@' by {
            assert(s.drop_first()[j] == s[j + 1]);
        }
        if k - 1 < s.drop_first().len() {
            assert(s.drop_first()[k - 1] == s[k]);
        }
        lemma_drop_ats(s.drop_first(), k - 1);
        assert(s.drop_first().subrange(k - 1, s.drop_first().len() as int) =~= s.subrange(k, s.len() as int));
    } else {
        assert(s.subrange(0, s.len() as int) =~= s);
    }
}

/// `s` without its leading `@` characters (`str::trim_start_matches('@')`).
pub fn without_ats(s: &str) -> (r: String)
    ensures
        r@ == drop_ats(s@),
{
    let v = chars_of(s);
    let mut k: usize = 0;
    while k < v.len() && v[k] == '@'
        invariant
            v@ == s@,
            0 <= k <= v.len(),
            forall|j: int| 0 <= j < k ==> v@[j] == '@',
        decreases v.len() - k,
    {
        k += 1;
    }
    proof {
        lemma_drop_ats(s@, k as int);
    }
    slice_chars(s, k, v.len())
}

/// A username as typed, without surrounding whitespace and leading `@`.
pub open spec fn username(u: Seq<char>) -> Seq<char> {
    drop_ats(trim_text(u))
}

/// The members of a new chat of `login` with the typed `names[..n]`: the account first,
/// then each new non-empty username once, ignoring ASCII case.
pub open spec fn members_with(login: Seq<char>, names: Seq<Seq<char>>, n: nat) -> Seq<Seq<char>>
    decreases n,
{
    if n == 0 {
        seq![login]
    } else {
        let m = members_with(login, names, (n - 1) as nat);
        let x = username(names[n - 1]);
        if x.len() > 0 && !crate::model::listed(m, x) {
            m.push(x)
        } else {
            m
        }
    }
}

/// The members of a chat that `login` creates with the typed `usernames`.
pub fn chat_members(login: &str, usernames: &Vec<String>) -> (r: Vec<String>)
    ensures
        strings(r@) == members_with(login@, strings(usernames@), usernames@.len()),
{
    let ghost names = strings(usernames@);
    let mut r: Vec<String> = Vec::new();
    r.push(String::from_str(login));
    assert(strings(r@) =~= seq![login@]);
    let mut i: usize = 0;
    while i < usernames.len()
        invariant
            names == strings(usernames@),
            0 <= i <= usernames.len(),
            strings(r@) == members_with(login@, names, i as nat),
        decreases usernames.len() - i,
    {
        assert(names[i as int] == usernames@[i as int]@);
        let trimmed = trim(usernames[i].as_str());
        let name = without_ats(trimmed.as_str());
        if byte_len(name.as_str()) > 0 && !crate::model::is_listed(&r, name.as_str()) {
            proof {
                if name@.len() == 0 {
                    assert(vstd::utf8::encode_utf8(name@) =~= Seq::<u8>::empty());
                }
            }
            let ghost before = strings(r@);
            r.push(name);
            assert(strings(r@) =~= before.push(username(names[i as int])));
        } else {
            proof {
                if name@.len() > 0 {
                    vstd::utf8::encode_utf8_first_scalar(name@);
                }
            }
        }
        i += 1;
    }
    r
}

pub const BAD_TOKEN: &'static str = "Enter a valid GitHub access token.";

/// An access token as entered: trimmed, and 20 to 300 bytes long.
pub fn check_token(token: &str) -> (r: Result<String, String>)
    ensures
        ({
            let t = trim_text(token@);
            if 20 <= utf8_len(t) <= 300 {
                r matches Ok(s) && s@ == t
            } else {
                r matches Err(e) && e@ == BAD_TOKEN@
            }
        }),
{
    let t = trim(token);
    let n = byte_len(t.as_str());
    if n < 20 || n > 300 {
        return Err(String::from_str(BAD_TOKEN));
    }
    Ok(t)
}

pub const OTHER_ACCOUNT: &'static str = "Disconnect the current account before signing into another one.";

/// Signing in keeps the account: a different login needs a disconnect first.
pub fn check_account(store: &Store, login: &str) -> (r: Result<(), String>)
    ensures
        (store@.user matches Some(u) && !same_name(u.login, login@)) ==> (r matches Err(e) && e@
            == OTHER_ACCOUNT@),
        !(store@.user matches Some(u) && !same_name(u.login, login@)) ==> r is Ok,
{
    match &store.user {
        Some(u) => {
            if !eq_ignore_case(u.login.as_str(), login) {
                return Err(String::from_str(OTHER_ACCOUNT));
            }
            Ok(())
        },
        None => Ok(()),
    }
}

pub const JOBS_ACTIVE: &'static str = "Finish or cancel your active transfers before disconnecting.";
pub const RECEIPTS_PENDING: &'static str = "Sync your pending delivery receipts before disconnecting.";

/// Disconnecting waits for running deliveries and for receipts that are not published yet.
pub fn check_logout(active: usize, store: &Store) -> (r: Result<(), String>)
    ensures
        active > 0 ==> (r matches Err(e) && e@ == JOBS_ACTIVE@),
        active == 0 && store@.outbox.len() > 0 ==> (r matches Err(e) && e@ == RECEIPTS_PENDING@),
        active == 0 && store@.outbox.len() == 0 ==> r is Ok,
{
    if active > 0 {
        return Err(String::from_str(JOBS_ACTIVE));
    }
    if store.outbox.len() > 0 {
        return Err(String::from_str(RECEIPTS_PENDING));
    }
    Ok(())
}

impl Store {
    /// The store left after disconnecting: only the device's identity.
    pub fn signed_out(&self) -> (r: Store)
        ensures
            r@ == blank_store(self@.device_id, self@.device_name),
    {
        Store::blank(self.device_id.clone(), self.device_name.clone())
    }
}

/// Whether a sync should also look for new chats and invitations: on request, or when the
/// last look is more than five minutes old.
pub fn discover_due(requested: bool, at: u64, discovered: u64) -> (r: bool)
    ensures
        r == (requested || (at > discovered && at - discovered > 300)),
{
    requested || at.saturating_sub(discovered) > 300
}

/// Seconds until the next background sync: 30 while the window is visible, 90 otherwise,
/// and 120 after a failed sync.
pub fn sync_interval(visible: bool, failed: bool) -> (r: u64)
    ensures
        r == if failed { 120u64 } else if visible { 30u64 } else { 90u64 },
{
    if failed {
        120
    } else if visible {
        30
    } else {
        90
    }
}

/// `notified` after recording `notice`, and whether it was new.
pub open spec fn remembered(notified: Seq<Seq<char>>, notice: Seq<char>) -> (Seq<Seq<char>>, bool) {
    if notified.contains(notice) {
        (notified, false)
    } else {
        (notified.push(notice), true)
    }
}

/// Records `notice`; returns whether it was not recorded before.
pub fn remember(notified: &mut Vec<String>, notice: String) -> (r: bool)
    ensures
        (strings(final(notified)@), r) == remembered(strings(old(notified)@), notice@),
{
    let mut i: usize = 0;
    while i < notified.len()
        invariant
            0 <= i <= notified.len(),
            forall|j: int| 0 <= j < i ==> strings(notified@)[j] != notice@,
        decreases notified.len() - i,
    {
        assert(strings(notified@)[i as int] == notified@[i as int]@);
        if notified[i] == notice {
            return false;
        }
        i += 1;
    }
    let ghost before = strings(notified@);
    notified.push(notice);
    assert(strings(notified@) =~= before.push(notice@));
    true
}

/// The key under which an offer to a recipient is announced once.
pub open spec fn offer_notice(key: Seq<char>, d: DeliveryModel) -> Seq<char> {
    key + seq![':'] + d.recipient + seq![':'] + crate::text::decimal(d.attempt as nat)
}

/// The key under which a retry request is announced once.
pub open spec fn retry_notice(key: Seq<char>, d: DeliveryModel) -> Seq<char> {
    "retry:"@ + offer_notice(key, d)
}

/// The message announcing an offer to the signed-in recipient.
pub open spec fn offer_message(t: crate::model::TransferModel, chat_name: Seq<char>) -> Seq<char> {
    "@"@ + t.offer.sender + " shared "@ + crate::text::decimal(t.offer.files.len()) + " item(s) in "@
        + chat_name + ". Open Cricket to receive."@
}

/// The message announcing a retry request to the sender.
pub open spec fn retry_message(d: DeliveryModel, chat_name: Seq<char>) -> Seq<char> {
    "@"@ + d.recipient + " asked you to retry a transfer in "@ + chat_name
        + ". Open Cricket to resend."@
}

/// Announcement state: notices recorded so far and messages to show.
pub struct Announcements {
    pub notified: Seq<Seq<char>>,
    pub messages: Seq<Seq<char>>,
}

/// The effect of delivery `d` of transfer `t` on the announcements. On a device that did
/// not send `t`, a waiting or seen delivery to `login` is announced once; on the sending
/// device, a retry request is announced once.
pub open spec fn announce(
    a: Announcements,
    t: crate::model::TransferModel,
    d: DeliveryModel,
    device: Seq<char>,
    login: Seq<char>,
    chat_name: Seq<char>,
) -> Announcements {
    let key = crate::model::transfer_key(t.repo, t.issue);
    if t.offer.source_device != device {
        if same_name(d.recipient, login) && (d.status == Status::Waiting || d.status
            == Status::Seen) {
            let (n, fresh) = remembered(a.notified, offer_notice(key, d));
            Announcements {
                notified: n,
                messages: if fresh { a.messages.push(offer_message(t, chat_name)) } else { a.messages },
            }
        } else {
            a
        }
    } else if d.status == Status::RetryRequested {
        let (n, fresh) = remembered(a.notified, retry_notice(key, d));
        Announcements {
            notified: n,
            messages: if fresh { a.messages.push(retry_message(d, chat_name)) } else { a.messages },
        }
    } else {
        a
    }
}

/// Announcements after the first `n` deliveries of `ds` (the deliveries of `t`).
pub open spec fn announce_all(
    a: Announcements,
    t: crate::model::TransferModel,
    ds: Seq<DeliveryModel>,
    n: nat,
    device: Seq<char>,
    login: Seq<char>,
    chat_name: Seq<char>,
) -> Announcements
    decreases n,
{
    if n == 0 {
        a
    } else {
        announce(announce_all(a, t, ds, (n - 1) as nat, device, login, chat_name), t, ds[n - 1], device, login, chat_name)
    }
}

/// Announcements after the first `n` incoming transfers, each seen at time `at`.
pub open spec fn announce_transfers(
    a: Announcements,
    ts: Seq<crate::model::TransferModel>,
    n: nat,
    at: u64,
    device: Seq<char>,
    login: Seq<char>,
    chat_name: Seq<char>,
) -> Announcements
    decreases n,
{
    if n == 0 {
        a
    } else {
        let t = ts[n - 1];
        let ds = deliveries_state(t, parsed_ids(t), at);
        announce_all(announce_transfers(a, ts, (n - 1) as nat, at, device, login, chat_name), t, ds, ds.len(), device, login, chat_name)
    }
}

/// Incoming transfers with the events still queued on this device.
pub open spec fn with_queued(
    ts: Seq<crate::model::TransferModel>,
    outbox: Seq<crate::storage::PendingModel>,
) -> Seq<crate::model::TransferModel> {
    ts.map_values(|t: crate::model::TransferModel| crate::storage::with_pending(t, outbox, outbox.len()))
}

/// Whether `issue` is among the issues of `ts`.
pub open spec fn lists_issue(ts: Seq<crate::model::TransferModel>, issue: u64) -> bool {
    exists|i: int| 0 <= i < ts.len() && #[trigger] ts[i].issue == issue
}

/// The stored transfers that a sync of chat `repo` keeps: those of other chats, and those of
/// this chat that the listing did not return (a listing can lag behind a new issue).
pub open spec fn kept_transfers(
    ts: Seq<crate::model::TransferModel>,
    repo: Seq<char>,
    incoming: Seq<crate::model::TransferModel>,
) -> Seq<crate::model::TransferModel>
    decreases ts.len(),
{
    if ts.len() == 0 {
        Seq::empty()
    } else {
        let rest = kept_transfers(ts.drop_last(), repo, incoming);
        if ts.last().repo != repo || !lists_issue(incoming, ts.last().issue) {
            rest.push(ts.last())
        } else {
            rest
        }
    }
}

fn remember_and_say(
    notified: &mut Vec<String>,
    messages: &mut Vec<String>,
    notice: String,
    message: String,
)
    ensures
        strings(final(notified)@) == remembered(strings(old(notified)@), notice@).0,
        strings(final(messages)@) == if remembered(strings(old(notified)@), notice@).1 {
            strings(old(messages)@).push(message@)
        } else {
            strings(old(messages)@)
        },
{
    if remember(notified, notice) {
        let ghost before = strings(messages@);
        messages.push(message);
        assert(strings(messages@) =~= before.push(message@));
    }
}

/// Adds the announcements for the deliveries of one incoming transfer.
fn announce_transfer(
    notified: &mut Vec<String>,
    messages: &mut Vec<String>,
    t: &Transfer,
    device: &str,
    login: &str,
    chat_name: &str,
    at: u64,
)
    ensures
        ({
            let ds = deliveries_state(t@, parsed_ids(t@), at);
            let r = announce_all(
                Announcements { notified: strings(old(notified)@), messages: strings(old(messages)@) },
                t@,
                ds,
                ds.len(),
                device@,
                login@,
                chat_name@,
            );
            &&& strings(final(notified)@) == r.notified
            &&& strings(final(messages)@) == r.messages
        }),
{
    let ds = t.deliveries(at);
    let ghost dm = deliveries_state(t@, parsed_ids(t@), at);
    let ghost start = Announcements { notified: strings(notified@), messages: strings(messages@) };
    let key = t.key();
    let elsewhere = !equal_text(t.offer.source_device.as_str(), device);
    proof {
        reveal_strlit(":");
        reveal_strlit("@");
        reveal_strlit("retry:");
    }
    let mut i: usize = 0;
    while i < ds.len()
        invariant
            crate::model::deliveries_of(ds@) == dm,
            key@ == crate::model::transfer_key(t@.repo, t@.issue),
            elsewhere == (t@.offer.source_device != device@),
            0 <= i <= ds.len(),
            announce_all(start, t@, dm, i as nat, device@, login@, chat_name@) == (Announcements {
                notified: strings(notified@),
                messages: strings(messages@),
            }),
        decreases ds.len() - i,
    {
        let d = &ds[i];
        assert(dm[i as int] == d@);
        proof {
            reveal_strlit(":");
            reveal_strlit("retry:");
        }
        if elsewhere {
            if eq_ignore_case(d.recipient.as_str(), login) && (d.status == Status::Waiting
                || d.status == Status::Seen) {
                let mut notice = join3(key.as_str(), ":", d.recipient.as_str());
                notice.append(":");
                notice.append(crate::text::decimal_string(d.attempt as u64).as_str());
                let mut message = join3("@", t.offer.sender.as_str(), " shared ");
                message.append(crate::text::decimal_string(t.offer.files.len() as u64).as_str());
                message.append(" item(s) in ");
                message.append(chat_name);
                message.append(". Open Cricket to receive.");
                proof {
                    assert(notice@ =~= offer_notice(key@, d@));
                    assert(t@.offer.files.len() == t.offer.files@.len());
                    assert(message@ =~= offer_message(t@, chat_name@));
                }
                remember_and_say(notified, messages, notice, message);
            }
        } else if d.status == Status::RetryRequested {
            let mut notice = join3("retry:", key.as_str(), ":");
            notice.append(d.recipient.as_str());
            notice.append(":");
            notice.append(crate::text::decimal_string(d.attempt as u64).as_str());
            let mut message = join3("@", d.recipient.as_str(), " asked you to retry a transfer in ");
            message.append(chat_name);
            message.append(". Open Cricket to resend.");
            proof {
                assert(notice@ =~= retry_notice(key@, d@));
                assert(message@ =~= retry_message(d@, chat_name@));
            }
            remember_and_say(notified, messages, notice, message);
        }
        i += 1;
    }
}

impl Store {
    /// Takes the transfers that a sync read from `chat`: adds the events still queued on
    /// this device, announces new offers and retry requests once each, and stores them in
    /// place of the stored copies of the same issues. Returns the messages to show.
    pub fn merge_transfers(&mut self, chat: &crate::model::Chat, incoming: Vec<Transfer>, login: &str, at: u64) -> (r: Vec<String>)
        ensures
            ({
                let merged = with_queued(crate::storage::transfers_of(incoming@), old(self)@.outbox);
                let a = announce_transfers(
                    Announcements { notified: old(self)@.notified, messages: Seq::empty() },
                    merged,
                    merged.len(),
                    at,
                    old(self)@.device_id,
                    login@,
                    chat@.name,
                );
                &&& final(self)@ == (StoreModel {
                    transfers: kept_transfers(old(self)@.transfers, chat@.repo, crate::storage::transfers_of(incoming@)) + merged,
                    notified: a.notified,
                    ..old(self)@
                })
                &&& strings(r@) == a.messages
            }),
            crate::storage::store_wf(old(self)@) ==> crate::storage::store_wf(final(self)@),
    {
        proof {
            let inc0 = crate::storage::transfers_of(incoming@);
            let merged0 = with_queued(inc0, self@.outbox);
            crate::service_laws::law_each_notice_announced_once(
                Announcements { notified: self@.notified, messages: Seq::empty() },
                merged0,
                merged0.len(),
                at,
                self@.device_id,
                login@,
                chat@.name,
            );
        }
        let ghost inc = crate::storage::transfers_of(incoming@);
        let ghost merged = with_queued(inc, self@.outbox);
        let ghost s0 = self@;
        let mut fresh: Vec<Transfer> = Vec::new();
        let mut messages: Vec<String> = Vec::new();
        let mut notified: Vec<String> = Vec::new();
        std::mem::swap(&mut notified, &mut self.notified);
        assert(strings(messages@) =~= Seq::<Seq<char>>::empty());
        let mut i: usize = 0;
        while i < incoming.len()
            invariant
                inc == crate::storage::transfers_of(incoming@),
                merged == with_queued(inc, s0.outbox),
                self@.outbox == s0.outbox,
                self@.device_id == s0.device_id,
                self@.transfers == s0.transfers,
                0 <= i <= incoming.len(),
                fresh.len() == i,
                forall|j: int| 0 <= j < i ==> #[trigger] crate::storage::transfers_of(fresh@)[j] == merged[j],
                announce_transfers(
                    Announcements { notified: s0.notified, messages: Seq::empty() },
                    merged,
                    i as nat,
                    at,
                    s0.device_id,
                    login@,
                    chat@.name,
                ) == (Announcements { notified: strings(notified@), messages: strings(messages@) }),
            decreases incoming.len() - i,
        {
            assert(inc[i as int] == incoming@[i as int]@);
            let mut t = incoming[i].duplicate();
            let ghost start = t@;
            let mut k: usize = 0;
            while k < self.outbox.len()
                invariant
                    0 <= k <= self.outbox.len(),
                    t@ == crate::storage::with_pending(start, self@.outbox, k as nat),
                decreases self.outbox.len() - k,
            {
                assert(self@.outbox[k as int] == self.outbox@[k as int]@);
                let p = &self.outbox[k];
                if p.repo == t.repo && p.issue == t.issue && !crate::storage::holds_event(
                    &t.events,
                    &p.authored.event.id,
                ) {
                    let ghost before = t@;
                    t.events.push(p.authored.duplicate());
                    assert(t@.events =~= before.events.push(p@.authored));
                }
                k += 1;
            }
            assert(t@ == merged[i as int]);
            announce_transfer(&mut notified, &mut messages, &t, self.device_id.as_str(), login, chat.name.as_str(), at);
            let ghost before = crate::storage::transfers_of(fresh@);
            fresh.push(t);
            assert(crate::storage::transfers_of(fresh@) =~= before.push(merged[i as int]));
            i += 1;
        }
        let ghost all = crate::storage::transfers_of(self.transfers@);
        let mut kept: Vec<Transfer> = Vec::new();
        let mut k: usize = 0;
        while k < self.transfers.len()
            invariant
                all == crate::storage::transfers_of(self.transfers@),
                inc == crate::storage::transfers_of(incoming@),
                0 <= k <= self.transfers.len(),
                crate::storage::transfers_of(kept@) == kept_transfers(all.take(k as int), chat@.repo, inc),
            decreases self.transfers.len() - k,
        {
            assert(all.take(k + 1).drop_last() =~= all.take(k as int));
            assert(all.take(k + 1).last() == self.transfers@[k as int]@);
            let t = &self.transfers[k];
            let mut listed = false;
            let mut j: usize = 0;
            while j < incoming.len()
                invariant
                    inc == crate::storage::transfers_of(incoming@),
                    0 <= j <= incoming.len(),
                    listed == exists|x: int| 0 <= x < j && #[trigger] inc[x].issue == t.issue,
                decreases incoming.len() - j,
            {
                assert(inc[j as int] == incoming@[j as int]@);
                assert(inc[j as int].issue == incoming@[j as int].issue);
                if incoming[j].issue == t.issue {
                    listed = true;
                }
                j += 1;
            }
            if !equal_text(t.repo.as_str(), chat.repo.as_str()) || !listed {
                let ghost before = crate::storage::transfers_of(kept@);
                kept.push(t.duplicate());
                assert(crate::storage::transfers_of(kept@) =~= before.push(all[k as int]));
            }
            k += 1;
        }
        assert(all.take(self.transfers.len() as int) =~= all);
        let ghost kept_m = crate::storage::transfers_of(kept@);
        let mut m: usize = 0;
        while m < fresh.len()
            invariant
                0 <= m <= fresh.len(),
                crate::storage::transfers_of(kept@) == kept_m + crate::storage::transfers_of(fresh@).take(m as int),
            decreases fresh.len() - m,
        {
            let ghost before = crate::storage::transfers_of(kept@);
            kept.push(fresh[m].duplicate());
            assert(crate::storage::transfers_of(kept@) =~= before.push(fresh@[m as int]@));
            assert(crate::storage::transfers_of(fresh@).take(m + 1) =~= crate::storage::transfers_of(fresh@).take(m as int).push(fresh@[m as int]@));
            m += 1;
        }
        assert(crate::storage::transfers_of(fresh@).take(fresh.len() as int) =~= merged);
        self.transfers = kept;
        self.notified = notified;
        messages
    }
}

/// `chats` after storing `found[..n]` one by one, each replacing the chat of its repository.
pub open spec fn upserted(chats: Seq<crate::model::ChatModel>, found: Seq<crate::model::ChatModel>, n: nat) -> Seq<crate::model::ChatModel>
    decreases n,
{
    if n == 0 {
        chats
    } else {
        let c = upserted(chats, found, (n - 1) as nat);
        crate::storage::without_repo(c, found[n - 1].repo).push(found[n - 1])
    }
}

impl Store {
    /// Stores the chats found by discovery, each replacing a stored chat of its repository.
    pub fn merge_chats(&mut self, found: Vec<crate::model::Chat>)
        ensures
            final(self)@ == crate::storage::with_chats(
                old(self)@,
                upserted(old(self)@.chats, crate::storage::chats_of(found@), found@.len()),
            ),
    {
        let ghost f = crate::storage::chats_of(found@);
        let ghost s0 = self@;
        let mut i: usize = 0;
        while i < found.len()
            invariant
                f == crate::storage::chats_of(found@),
                0 <= i <= found.len(),
                self@ == crate::storage::with_chats(s0, upserted(s0.chats, f, i as nat)),
            decreases found.len() - i,
        {
            assert(f[i as int] == found@[i as int]@);
            self.upsert_chat(found[i].duplicate());
            i += 1;
        }
    }

    /// Records a complete sync at time `at`.
    pub fn synced(&mut self, at: u64)
        ensures
            final(self)@ == (StoreModel { last_sync: Some(at), ..old(self)@ }),
    {
        self.last_sync = Some(at);
    }
}

/// The attempts of the waiting deliveries to `login` among `ds[..n]`, in order.
pub open spec fn waiting_attempts(ds: Seq<DeliveryModel>, login: Seq<char>, n: nat) -> Seq<u32>
    decreases n,
{
    if n == 0 {
        Seq::empty()
    } else {
        let rest = waiting_attempts(ds, login, (n - 1) as nat);
        if same_name(ds[n - 1].recipient, login) && ds[n - 1].status == Status::Waiting {
            rest.push(ds[n - 1].attempt)
        } else {
            rest
        }
    }
}

/// The deliveries that opening chat `repo` marks seen: for each transfer of that chat that
/// another device sent, the waiting deliveries to `login`, as (transfer index, attempt).
pub open spec fn seen_plan(
    ts: Seq<crate::model::TransferModel>,
    repo: Seq<char>,
    device: Seq<char>,
    login: Seq<char>,
    at: u64,
    n: nat,
) -> Seq<(usize, u32)>
    decreases n,
{
    if n == 0 {
        Seq::empty()
    } else {
        let rest = seen_plan(ts, repo, device, login, at, (n - 1) as nat);
        let t = ts[n - 1];
        if t.repo == repo && t.offer.source_device != device {
            let ds = deliveries_state(t, parsed_ids(t), at);
            rest + waiting_attempts(ds, login, ds.len()).map_values(|a: u32| ((n - 1) as usize, a))
        } else {
            rest
        }
    }
}

/// Which deliveries to mark seen when `login` opens chat `repo` at time `at`.
pub fn seen_targets(store: &Store, repo: &str, login: &str, at: u64) -> (r: Vec<(usize, u32)>)
    ensures
        r@ == seen_plan(store@.transfers, repo@, store@.device_id, login@, at, store@.transfers.len()),
{
    let mut r: Vec<(usize, u32)> = Vec::new();
    let mut k: usize = 0;
    while k < store.transfers.len()
        invariant
            0 <= k <= store.transfers.len(),
            r@ == seen_plan(store@.transfers, repo@, store@.device_id, login@, at, k as nat),
        decreases store.transfers.len() - k,
    {
        let t = &store.transfers[k];
        assert(store@.transfers[k as int] == t@);
        if equal_text(t.repo.as_str(), repo) && !equal_text(t.offer.source_device.as_str(), store.device_id.as_str()) {
            let ds = t.deliveries(at);
            let ghost dm = deliveries_of(ds@);
            let ghost base = r@;
            let mut attempts: Vec<u32> = Vec::new();
            let mut i: usize = 0;
            while i < ds.len()
                invariant
                    dm == deliveries_of(ds@),
                    0 <= i <= ds.len(),
                    attempts@ == waiting_attempts(dm, login@, i as nat),
                decreases ds.len() - i,
            {
                assert(dm[i as int] == ds@[i as int]@);
                if eq_ignore_case(ds[i].recipient.as_str(), login) && ds[i].status == Status::Waiting {
                    attempts.push(ds[i].attempt);
                }
                i += 1;
            }
            let ghost w = waiting_attempts(dm, login@, dm.len());
            let mut j: usize = 0;
            while j < attempts.len()
                invariant
                    attempts@ == w,
                    0 <= j <= attempts.len(),
                    r@ == base + w.map_values(|a: u32| (k, a)).take(j as int),
                decreases attempts.len() - j,
            {
                r.push((k, attempts[j]));
                assert(w.map_values(|a: u32| (k, a)).take(j + 1) =~= w.map_values(|a: u32| (k, a)).take(j as int).push((k, attempts@[j as int])));
                j += 1;
            }
            assert(w.map_values(|a: u32| (k, a)).take(attempts.len() as int) =~= w.map_values(|a: u32| (k, a)));
        }
        k += 1;
    }
    r
}

/// What the interface and the local agent are shown of the application's state.
#[derive(Clone, Debug)]
pub struct Snapshot {
    pub user: Option<crate::model::User>,
    pub connected: bool,
    pub platform: String,
    pub device_id: String,
    pub device_name: String,
    pub chats: Vec<crate::model::Chat>,
    pub transfers: Vec<crate::model::TransferView>,
    pub jobs: Vec<JobView>,
    pub invitations: Vec<crate::github::Invitation>,
    pub pending_receipts: usize,
    pub last_sync: Option<u64>,
    pub error: Option<String>,
    pub croc_version: Option<String>,
    pub oauth_available: bool,
    pub contacts: Vec<String>,
}

/// Whether sources are kept for the transfer with key `key`.
pub open spec fn keeps_sources(sources: Seq<crate::storage::SourceListModel>, key: Seq<char>) -> bool {
    exists|i: int| 0 <= i < sources.len() && #[trigger] sources[i].key == key
}

fn has_sources(store: &Store, key: &String) -> (r: bool)
    ensures
        r == keeps_sources(store@.sources, key@),
{
    let mut i: usize = 0;
    while i < store.sources.len()
        invariant
            0 <= i <= store.sources.len(),
            forall|j: int| 0 <= j < i ==> #[trigger] store@.sources[j].key != key@,
        decreases store.sources.len() - i,
    {
        assert(store@.sources[i as int] == store.sources@[i as int]@);
        if store.sources[i].key == *key {
            assert(store@.sources[i as int].key == key@);
            return true;
        }
        i += 1;
    }
    false
}

/// The views of the stored transfers at time `at`.
pub open spec fn transfer_views(s: StoreModel, at: u64) -> Seq<crate::model::TransferViewModel> {
    s.transfers.map_values(
        |t: crate::model::TransferModel|
            crate::model::transfer_view(
                t,
                s.device_id,
                keeps_sources(s.sources, crate::model::transfer_key(t.repo, t.issue)),
                at,
            ),
    )
}

/// The views of the stored transfers at time `at`: retry is offered on the sending device
/// while its sources are kept. No connection code leaves through anything but the
/// deliveries, whose codes the application does not serialise.
pub fn views_of(store: &Store, at: u64) -> (r: Vec<crate::model::TransferView>)
    ensures
        r@.map_values(|v: crate::model::TransferView| v@) == transfer_views(store@, at),
{
    let ghost all = transfer_views(store@, at);
    let mut r: Vec<crate::model::TransferView> = Vec::new();
    let mut k: usize = 0;
    while k < store.transfers.len()
        invariant
            all == transfer_views(store@, at),
            0 <= k <= store.transfers.len(),
            r@.map_values(|v: crate::model::TransferView| v@) =~= all.take(k as int),
        decreases store.transfers.len() - k,
    {
        let t = &store.transfers[k];
        assert(store@.transfers[k as int] == t@);
        let key = t.key();
        let kept = has_sources(store, &key);
        let ghost before = r@.map_values(|v: crate::model::TransferView| v@);
        r.push(crate::model::TransferView::at_time(t, store.device_id.as_str(), kept, at));
        assert(r@.map_values(|v: crate::model::TransferView| v@) =~= before.push(all[k as int]));
        k += 1;
    }
    assert(all.take(store.transfers.len() as int) =~= all);
    r
}

impl Snapshot {
    /// The snapshot of `store` at time `at`, with what the application knows besides.
    pub fn of(
        store: &Store,
        at: u64,
        connected: bool,
        platform: String,
        jobs: Vec<JobView>,
        invitations: Vec<crate::github::Invitation>,
        error: Option<String>,
        croc_version: Option<String>,
        oauth_available: bool,
    ) -> (r: Snapshot)
        ensures
            r.transfers@.map_values(|v: crate::model::TransferView| v@) == transfer_views(store@, at),
            r.device_id@ == store@.device_id,
            r.device_name@ == store@.device_name,
            crate::storage::chats_of(r.chats@) == store@.chats,
            r.pending_receipts == store@.outbox.len(),
            r.last_sync == store@.last_sync,
            r.connected == connected,
            r.platform == platform,
            r.jobs == jobs,
            r.invitations == invitations,
            r.error == error,
            r.croc_version == croc_version,
            r.oauth_available == oauth_available,
            strings(r.contacts@) == store@.contacts,
            match r.user {
                Some(u) => store@.user == Some(u@),
                None => store@.user is None,
            },
    {
        let mut chats: Vec<crate::model::Chat> = Vec::new();
        let mut i: usize = 0;
        while i < store.chats.len()
            invariant
                0 <= i <= store.chats.len(),
                crate::storage::chats_of(chats@) =~= store@.chats.take(i as int),
            decreases store.chats.len() - i,
        {
            let ghost before = crate::storage::chats_of(chats@);
            chats.push(store.chats[i].duplicate());
            assert(crate::storage::chats_of(chats@) =~= before.push(store@.chats[i as int]));
            i += 1;
        }
        assert(store@.chats.take(store.chats.len() as int) =~= store@.chats);
        Snapshot {
            user: match &store.user {
                Some(u) => Some(u.duplicate()),
                None => None,
            },
            connected,
            platform,
            device_id: store.device_id.clone(),
            device_name: store.device_name.clone(),
            chats,
            transfers: views_of(store, at),
            jobs,
            invitations,
            pending_receipts: store.outbox.len(),
            last_sync: store.last_sync,
            error,
            croc_version,
            oauth_available,
            contacts: crate::model::copy_strings(&store.contacts),
        }
    }
}

} // verus!
