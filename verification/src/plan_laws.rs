//! What the reports of a delivery do, and which requests each delivery state allows:
//! receiving, retrying from the sending device, asking for a retry, and reading croc's output.
use crate::croc::{classify, mentions, Failure};
use crate::delivery_laws::{extended, lemma_ids_absent, lemma_replay_prefix};
use crate::model::{
    apply_event, deliveries_state, replay, settle, AuthoredModel, DeliveryModel, Status,
    TransferModel,
};
use crate::service::{
    receive_plan, request_retry_plan, retry_plan, MAX_JOBS, NOT_ADDRESSED, NOT_WAITING,
    NO_MORE_RETRIES, NO_RETRY_NEEDED, OTHER_DEVICE, RECEIVE_BUSY, RETRY_ELSEWHERE,
    ALREADY_RECEIVED, STILL_RUNNING, NO_RECIPIENT, NOT_YOURS,
};
use crate::text::same_name;
use vstd::prelude::*;

verus! {

/// A new event `e` for the recipient of slot `i`, under an id that parses and was not used
/// before, is applied to that delivery as it stood.
pub proof fn lemma_new_event_applies(t: TransferModel, ok: Seq<bool>, e: AuthoredModel, later: u64, i: int)
    requires
        ok.len() == t.events.len(),
        0 <= i < t.offer.slots.len(),
        same_name(e.event.recipient, t.offer.slots[i].recipient),
        forall|k: int| 0 <= k < t.events.len() ==> #[trigger] t.events[k].event.id != e.event.id,
    ensures
        deliveries_state(extended(t, seq![e]), ok.push(true), later)[i] == settle(
            apply_event(t, t.offer.slots[i], replay(t, t.offer.slots[i], ok, t.events.len()).0, e),
            later,
        ),
{
    let u = extended(t, seq![e]);
    let ok2 = ok.push(true);
    let n = t.events.len();
    let slot = t.offer.slots[i];
    assert forall|j: int| 0 <= j < n implies u.events[j] == t.events[j] && ok2[j] == ok[j] by {}
    lemma_replay_prefix(t, u, slot, ok, ok2, n);
    assert(u.events[n as int] == e);
    lemma_ids_absent(t, slot, ok, n, e.event.id);
    assert(u.offer.slots[i] == slot);
    assert(u.offer == t.offer);
}

/// A failure or cancellation that the sender or the recipient publishes for the current
/// attempt stops a delivery that was neither sent nor received: from then on, at every time,
/// it shows that status, at the same attempt.
pub proof fn law_stop_report_takes_effect(t: TransferModel, ok: Seq<bool>, e: AuthoredModel, later: u64, i: int)
    requires
        ok.len() == t.events.len(),
        0 <= i < t.offer.slots.len(),
        e.event.status == Status::Failed || e.event.status == Status::Cancelled,
        same_name(e.author, t.offer.sender) || same_name(e.author, t.offer.slots[i].recipient),
        same_name(e.event.recipient, t.offer.slots[i].recipient),
        e.event.attempt == replay(t, t.offer.slots[i], ok, t.events.len()).0.attempt,
        replay(t, t.offer.slots[i], ok, t.events.len()).0.status != Status::Sent,
        replay(t, t.offer.slots[i], ok, t.events.len()).0.status != Status::Received,
        forall|k: int| 0 <= k < t.events.len() ==> #[trigger] t.events[k].event.id != e.event.id,
    ensures
        deliveries_state(extended(t, seq![e]), ok.push(true), later)[i].status == e.event.status,
        deliveries_state(extended(t, seq![e]), ok.push(true), later)[i].attempt == e.event.attempt,
{
    lemma_new_event_applies(t, ok, e, later, i);
}

/// The recipient's "seen" report marks a waiting delivery seen, and leaves it open: it keeps
/// its attempt, code and deadline.
pub proof fn law_seen_report_keeps_delivery_open(t: TransferModel, ok: Seq<bool>, e: AuthoredModel, later: u64, i: int)
    requires
        ok.len() == t.events.len(),
        0 <= i < t.offer.slots.len(),
        e.event.status == Status::Seen,
        same_name(e.author, t.offer.slots[i].recipient),
        same_name(e.event.recipient, t.offer.slots[i].recipient),
        e.event.attempt == replay(t, t.offer.slots[i], ok, t.events.len()).0.attempt,
        replay(t, t.offer.slots[i], ok, t.events.len()).0.status == Status::Waiting,
        later < replay(t, t.offer.slots[i], ok, t.events.len()).0.expires_at,
        forall|k: int| 0 <= k < t.events.len() ==> #[trigger] t.events[k].event.id != e.event.id,
    ensures
        deliveries_state(extended(t, seq![e]), ok.push(true), later)[i].status == Status::Seen,
        deliveries_state(extended(t, seq![e]), ok.push(true), later)[i].attempt == e.event.attempt,
        deliveries_state(extended(t, seq![e]), ok.push(true), later)[i].code
            == replay(t, t.offer.slots[i], ok, t.events.len()).0.code,
        deliveries_state(extended(t, seq![e]), ok.push(true), later)[i].expires_at
            == replay(t, t.offer.slots[i], ok, t.events.len()).0.expires_at,
{
    lemma_new_event_applies(t, ok, e, later, i);
}

/// Delivery `i` of `t` as its history left it, before any deadline applies.
pub open spec fn current(t: TransferModel, ok: Seq<bool>, i: int) -> DeliveryModel {
    replay(t, t.offer.slots[i], ok, t.events.len()).0
}

/// Delivery `i` at time `later` once `e` is added to the history of `t`.
pub open spec fn after(t: TransferModel, ok: Seq<bool>, e: AuthoredModel, later: u64, i: int) -> DeliveryModel {
    deliveries_state(extended(t, seq![e]), ok.push(true), later)[i]
}

/// `e` is a new event for the recipient of slot `i`: it names that recipient and its id was
/// not used before.
pub open spec fn new_event_for(t: TransferModel, ok: Seq<bool>, e: AuthoredModel, i: int) -> bool {
    &&& ok.len() == t.events.len()
    &&& 0 <= i < t.offer.slots.len()
    &&& same_name(e.event.recipient, t.offer.slots[i].recipient)
    &&& forall|k: int| 0 <= k < t.events.len() ==> #[trigger] t.events[k].event.id != e.event.id
}

/// The recipient's "receiving" report on a waiting or seen delivery marks it receiving and
/// gives the download a day from the report, keeping its attempt and code.
pub proof fn law_receiving_report_opens_window(t: TransferModel, ok: Seq<bool>, e: AuthoredModel, later: u64, i: int)
    requires
        new_event_for(t, ok, e, i),
        e.event.status == Status::Receiving,
        same_name(e.author, t.offer.slots[i].recipient),
        e.event.attempt == current(t, ok, i).attempt,
        current(t, ok, i).status == Status::Waiting || current(t, ok, i).status == Status::Seen,
        later < e.event.at + crate::model::RECEIVE_WINDOW,
        e.event.at + crate::model::RECEIVE_WINDOW <= u64::MAX,
    ensures
        after(t, ok, e, later, i).status == Status::Receiving,
        after(t, ok, e, later, i).expires_at == e.event.at + crate::model::RECEIVE_WINDOW,
        after(t, ok, e, later, i).attempt == current(t, ok, i).attempt,
        after(t, ok, e, later, i).code == current(t, ok, i).code,
{
    lemma_new_event_applies(t, ok, e, later, i);
}

/// The recipient's request for a retry marks any delivery not yet received as asked again.
pub proof fn law_retry_request_takes_effect(t: TransferModel, ok: Seq<bool>, e: AuthoredModel, later: u64, i: int)
    requires
        new_event_for(t, ok, e, i),
        e.event.status == Status::RetryRequested,
        same_name(e.author, t.offer.slots[i].recipient),
        e.event.attempt == current(t, ok, i).attempt,
        current(t, ok, i).status != Status::Received,
    ensures
        after(t, ok, e, later, i).status == Status::RetryRequested,
        after(t, ok, e, later, i).attempt == current(t, ok, i).attempt,
{
    lemma_new_event_applies(t, ok, e, later, i);
}

/// The sender's "sent" report for the current attempt marks a delivery sent unless it was
/// received or the recipient asked for a retry.
pub proof fn law_sent_report_takes_effect(t: TransferModel, ok: Seq<bool>, e: AuthoredModel, later: u64, i: int)
    requires
        new_event_for(t, ok, e, i),
        e.event.status == Status::Sent,
        same_name(e.author, t.offer.sender),
        e.event.attempt == current(t, ok, i).attempt,
        current(t, ok, i).status != Status::Received,
        current(t, ok, i).status != Status::RetryRequested,
    ensures
        after(t, ok, e, later, i).status == Status::Sent,
        after(t, ok, e, later, i).attempt == current(t, ok, i).attempt,
{
    lemma_new_event_applies(t, ok, e, later, i);
}

/// A report for another attempt than the current one changes nothing; only a new code from
/// the sender starts an attempt.
pub proof fn law_reports_for_other_attempts_are_ignored(t: TransferModel, ok: Seq<bool>, e: AuthoredModel, later: u64, i: int)
    requires
        new_event_for(t, ok, e, i),
        e.event.status != Status::Waiting,
        e.event.attempt != current(t, ok, i).attempt,
    ensures
        after(t, ok, e, later, i) == settle(current(t, ok, i), later),
{
    lemma_new_event_applies(t, ok, e, later, i);
}

/// Once a delivery is sent, a failure or cancellation report no longer changes it.
pub proof fn law_sent_delivery_ignores_stop_reports(t: TransferModel, ok: Seq<bool>, e: AuthoredModel, later: u64, i: int)
    requires
        new_event_for(t, ok, e, i),
        e.event.status == Status::Failed || e.event.status == Status::Cancelled,
        current(t, ok, i).status == Status::Sent,
    ensures
        after(t, ok, e, later, i) == settle(current(t, ok, i), later),
{
    lemma_new_event_applies(t, ok, e, later, i);
}

/// A "seen" report changes only a waiting delivery, and only when the recipient sends it.
pub proof fn law_seen_report_needs_waiting_recipient(t: TransferModel, ok: Seq<bool>, e: AuthoredModel, later: u64, i: int)
    requires
        new_event_for(t, ok, e, i),
        e.event.status == Status::Seen,
        current(t, ok, i).status != Status::Waiting || !same_name(e.author, t.offer.slots[i].recipient),
    ensures
        after(t, ok, e, later, i) == settle(current(t, ok, i), later),
{
    lemma_new_event_applies(t, ok, e, later, i);
}

/// Reports by anyone but the sender and the recipient change nothing.
pub proof fn law_strangers_change_nothing(t: TransferModel, ok: Seq<bool>, e: AuthoredModel, later: u64, i: int)
    requires
        new_event_for(t, ok, e, i),
        !same_name(e.author, t.offer.sender),
        !same_name(e.author, t.offer.slots[i].recipient),
    ensures
        after(t, ok, e, later, i) == settle(current(t, ok, i), later),
{
    lemma_new_event_applies(t, ok, e, later, i);
}

/// `i` is the first delivery of `ds` whose recipient is `name`, without regard to case.
pub open spec fn first_addressed(ds: Seq<DeliveryModel>, name: Seq<char>, i: int) -> bool {
    &&& 0 <= i < ds.len()
    &&& same_name(ds[i].recipient, name)
    &&& forall|j: int| 0 <= j < i ==> !same_name(#[trigger] ds[j].recipient, name)
}

/// Receiving: on a device other than the sending one, the first delivery addressed to the
/// account is handed out while it is waiting or seen (opening the chat does not stop a
/// download) and neither it nor too many others run; every other state of it is refused as
/// no longer waiting, and a busy device is refused as busy.
pub proof fn law_receive_plan(
    t: TransferModel,
    device: Seq<char>,
    login: Seq<char>,
    at: u64,
    active: usize,
    running: bool,
    i: int,
)
    requires
        first_addressed(deliveries_state(t, crate::model::parsed_ids(t), at), login, i),
    ensures
        ({
            let d = deliveries_state(t, crate::model::parsed_ids(t), at)[i];
            let r = receive_plan(t, device, login, at, active, running);
            &&& t.offer.source_device == device ==> r == Err::<DeliveryModel, Seq<char>>(OTHER_DEVICE@)
            &&& t.offer.source_device != device && d.status != Status::Waiting && d.status != Status::Seen
                ==> r == Err::<DeliveryModel, Seq<char>>(NOT_WAITING@)
            &&& t.offer.source_device != device && (d.status == Status::Waiting || d.status == Status::Seen)
                && (active >= MAX_JOBS || running) ==> r == Err::<DeliveryModel, Seq<char>>(RECEIVE_BUSY@)
            &&& t.offer.source_device != device && (d.status == Status::Waiting || d.status == Status::Seen)
                && active < MAX_JOBS && !running ==> r == Ok::<DeliveryModel, Seq<char>>(d)
        }),
{
    let ds = deliveries_state(t, crate::model::parsed_ids(t), at);
    if t.offer.source_device != device {
        assert(!crate::service::none_for(ds, login)) by {
            assert(same_name(ds[i].recipient, login));
        }
        let c = choose|c: int| crate::service::first_for(ds, login, c);
        crate::service::lemma_first_for_unique(ds, login, i, c);
    }
}

/// Receiving is refused when no delivery is addressed to the account, on any device other
/// than the sending one.
pub proof fn law_receive_needs_address(
    t: TransferModel,
    device: Seq<char>,
    login: Seq<char>,
    at: u64,
    active: usize,
    running: bool,
)
    requires
        t.offer.source_device != device,
        forall|j: int|
            0 <= j < deliveries_state(t, crate::model::parsed_ids(t), at).len() ==> !same_name(
                #[trigger] deliveries_state(t, crate::model::parsed_ids(t), at)[j].recipient,
                login,
            ),
    ensures
        receive_plan(t, device, login, at, active, running) == Err::<DeliveryModel, Seq<char>>(NOT_ADDRESSED@),
{
}

/// Retrying: only the sender, on the sending device, may retry, and any delivery that has
/// not been received can be retried (failed, cancelled, expired, waiting, seen, sent or
/// asked for again) unless it is running or has used every attempt; a received delivery is
/// refused as already received.
pub proof fn law_retry_plan(
    t: TransferModel,
    login: Seq<char>,
    device: Seq<char>,
    recipient: Seq<char>,
    at: u64,
    running: bool,
    i: int,
)
    requires
        first_addressed(deliveries_state(t, crate::model::parsed_ids(t), at), recipient, i),
    ensures
        ({
            let d = deliveries_state(t, crate::model::parsed_ids(t), at)[i];
            let r = retry_plan(t, login, device, recipient, at, running);
            let here = same_name(t.offer.sender, login) && t.offer.source_device == device;
            &&& !here ==> r == Err::<DeliveryModel, Seq<char>>(RETRY_ELSEWHERE@)
            &&& here && d.status == Status::Received ==> r == Err::<DeliveryModel, Seq<char>>(ALREADY_RECEIVED@)
            &&& here && d.status != Status::Received && running ==> r == Err::<DeliveryModel, Seq<char>>(STILL_RUNNING@)
            &&& here && d.status != Status::Received && !running && d.attempt == u32::MAX
                ==> r == Err::<DeliveryModel, Seq<char>>(NO_MORE_RETRIES@)
            &&& here && d.status != Status::Received && !running && d.attempt < u32::MAX
                ==> r == Ok::<DeliveryModel, Seq<char>>(d)
        }),
{
    let ds = deliveries_state(t, crate::model::parsed_ids(t), at);
    if same_name(t.offer.sender, login) && t.offer.source_device == device {
        assert(!crate::service::none_for(ds, recipient)) by {
            assert(same_name(ds[i].recipient, recipient));
        }
        let c = choose|c: int| crate::service::first_for(ds, recipient, c);
        crate::service::lemma_first_for_unique(ds, recipient, i, c);
    }
}

/// A retry is refused when no delivery goes to that recipient.
pub proof fn law_retry_needs_recipient(
    t: TransferModel,
    login: Seq<char>,
    device: Seq<char>,
    recipient: Seq<char>,
    at: u64,
    running: bool,
)
    requires
        same_name(t.offer.sender, login),
        t.offer.source_device == device,
        forall|j: int|
            0 <= j < deliveries_state(t, crate::model::parsed_ids(t), at).len() ==> !same_name(
                #[trigger] deliveries_state(t, crate::model::parsed_ids(t), at)[j].recipient,
                recipient,
            ),
    ensures
        retry_plan(t, login, device, recipient, at, running) == Err::<DeliveryModel, Seq<char>>(NO_RECIPIENT@),
{
}

/// Asking for a retry: a recipient whose delivery stopped (failed, cancelled, sent without
/// a receipt, or expired) asks for its current attempt; one already asked changes nothing;
/// a delivery that is received or still open (waiting, seen, receiving) needs no request.
pub proof fn law_request_retry_plan(t: TransferModel, login: Seq<char>, at: u64, i: int)
    requires
        first_addressed(deliveries_state(t, crate::model::parsed_ids(t), at), login, i),
    ensures
        ({
            let d = deliveries_state(t, crate::model::parsed_ids(t), at)[i];
            let r = request_retry_plan(t, login, at);
            &&& (d.status == Status::Failed || d.status == Status::Cancelled || d.status == Status::Sent
                || d.status == Status::Expired) ==> r == Ok::<Option<u32>, Seq<char>>(Some(d.attempt))
            &&& d.status == Status::RetryRequested ==> r == Ok::<Option<u32>, Seq<char>>(None)
            &&& (d.status == Status::Received || d.status == Status::Waiting || d.status == Status::Seen
                || d.status == Status::Receiving) ==> r == Err::<Option<u32>, Seq<char>>(NO_RETRY_NEEDED@)
        }),
{
    let ds = deliveries_state(t, crate::model::parsed_ids(t), at);
    assert(!crate::service::none_for(ds, login)) by {
        assert(same_name(ds[i].recipient, login));
    }
    let c = choose|c: int| crate::service::first_for(ds, login, c);
    crate::service::lemma_first_for_unique(ds, login, i, c);
}

/// Only a recipient of the transfer may ask for a retry.
pub proof fn law_request_retry_needs_recipient(t: TransferModel, login: Seq<char>, at: u64)
    requires
        forall|j: int|
            0 <= j < deliveries_state(t, crate::model::parsed_ids(t), at).len() ==> !same_name(
                #[trigger] deliveries_state(t, crate::model::parsed_ids(t), at)[j].recipient,
                login,
            ),
    ensures
        request_retry_plan(t, login, at) == Err::<Option<u32>, Seq<char>>(NOT_YOURS@),
{
}

/// Adding an event changes no delivery's recipient, so the same delivery stays the first one
/// addressed to `name`.
proof fn lemma_first_addressed_stays(t: TransferModel, e: AuthoredModel, at: u64, name: Seq<char>, i: int)
    requires
        first_addressed(deliveries_state(t, crate::model::parsed_ids(t), at), name, i),
    ensures
        first_addressed(
            deliveries_state(extended(t, seq![e]), crate::model::parsed_ids(extended(t, seq![e])), at),
            name,
            i,
        ),
{
    let u = extended(t, seq![e]);
    let ds = deliveries_state(t, crate::model::parsed_ids(t), at);
    let du = deliveries_state(u, crate::model::parsed_ids(u), at);
    assert(u.offer == t.offer);
    assert forall|j: int| 0 <= j < t.offer.slots.len() implies #[trigger] du[j].recipient == ds[j].recipient by {
        crate::recovery_laws::lemma_replay_recipient(t, t.offer.slots[j], crate::model::parsed_ids(t), t.events.len());
        crate::recovery_laws::lemma_replay_recipient(u, u.offer.slots[j], crate::model::parsed_ids(u), u.events.len());
    }
}

/// `parsed_ids` of `t` with one event added.
proof fn lemma_parsed_ids_extended(t: TransferModel, e: AuthoredModel)
    ensures
        crate::model::parsed_ids(extended(t, seq![e])) == crate::model::parsed_ids(t).push(
            crate::model::uuid_parses(e.event.id),
        ),
{
    assert(crate::model::parsed_ids(extended(t, seq![e])) =~= crate::model::parsed_ids(t).push(
        crate::model::uuid_parses(e.event.id),
    ));
}

/// After a recipient reports its download failed or cancelled, it can ask the sender to
/// retry that attempt, and the sender, on the sending device, can retry it.
pub proof fn law_stopped_delivery_can_be_retried(
    t: TransferModel,
    e: AuthoredModel,
    at: u64,
    i: int,
    device: Seq<char>,
)
    requires
        new_event_for(t, crate::model::parsed_ids(t), e, i),
        crate::model::uuid_parses(e.event.id),
        e.event.status == Status::Failed || e.event.status == Status::Cancelled,
        same_name(e.author, t.offer.slots[i].recipient),
        e.event.attempt == current(t, crate::model::parsed_ids(t), i).attempt,
        current(t, crate::model::parsed_ids(t), i).status != Status::Sent,
        current(t, crate::model::parsed_ids(t), i).status != Status::Received,
        current(t, crate::model::parsed_ids(t), i).attempt < u32::MAX,
        first_addressed(deliveries_state(t, crate::model::parsed_ids(t), at), e.author, i),
        first_addressed(deliveries_state(t, crate::model::parsed_ids(t), at), e.event.recipient, i),
        t.offer.source_device == device,
    ensures
        request_retry_plan(extended(t, seq![e]), e.author, at) == Ok::<Option<u32>, Seq<char>>(
            Some(e.event.attempt),
        ),
        retry_plan(extended(t, seq![e]), t.offer.sender, device, e.event.recipient, at, false) is Ok,
{
    let ok = crate::model::parsed_ids(t);
    let u = extended(t, seq![e]);
    lemma_parsed_ids_extended(t, e);
    law_stop_report_takes_effect(t, ok, e, at, i);
    lemma_first_addressed_stays(t, e, at, e.author, i);
    lemma_first_addressed_stays(t, e, at, e.event.recipient, i);
    law_request_retry_plan(u, e.author, at, i);
    law_retry_plan(u, t.offer.sender, device, e.event.recipient, at, false, i);
}

/// Reading croc's output, in any letter case: a decoding or decompression problem is a
/// protocol failure; otherwise a denied permission or access, a full disk ("no space left",
/// "not enough space") or a bad file name is a file system failure; otherwise a connection
/// problem, an unknown host, a missing sender or relay, or a time-out is a connection
/// failure; anything else is unknown.
pub proof fn law_output_categories(t: Seq<char>)
    ensures
        ({
            let protocol = mentions(t, "problem with decoding") || mentions(t, "decompress message");
            let files = mentions(t, "permission denied") || mentions(t, "access is denied")
                || mentions(t, "no space left") || mentions(t, "not enough space")
                || mentions(t, "filename, directory name");
            let network = mentions(t, "connection") || mentions(t, "no such host")
                || mentions(t, "could not find sender") || mentions(t, "no public relay")
                || mentions(t, "timed out");
            &&& protocol ==> classify(t) == Failure::Protocol
            &&& !protocol && files ==> classify(t) == Failure::Filesystem
            &&& !protocol && !files && network ==> classify(t) == Failure::Connection
            &&& !protocol && !files && !network ==> classify(t) == Failure::Unknown
        }),
{
}

} // verus!
