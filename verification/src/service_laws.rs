//! Properties of a sync: what it keeps, and how often it announces.
use crate::model::{deliveries_state, parsed_ids, replay, DeliveryModel, TransferModel};
use crate::model::{code_ok, transfer_key, uuid_parses, AuthoredModel, Status, TRANSFER_TTL};
use crate::service::{
    announce, announce_all, announce_transfers, kept_transfers, lists_issue, offer_message,
    offer_notice, remembered, with_queued, Announcements,
};
use crate::text::same_name;
use crate::storage::{has_event_id, PendingModel};
use vstd::prelude::*;

verus! {

/// Every queued event is present in the copy of its transfer that a sync stores.
pub proof fn law_sync_keeps_queued_events(
    incoming: Seq<TransferModel>,
    outbox: Seq<PendingModel>,
    i: int,
    j: int,
)
    requires
        0 <= i < incoming.len(),
        0 <= j < outbox.len(),
        outbox[j].repo == incoming[i].repo,
        outbox[j].issue == incoming[i].issue,
    ensures
        has_event_id(with_queued(incoming, outbox)[i].events, outbox[j].authored.event.id),
{
    crate::store_laws::law_queued_events_survive_refresh(incoming[i], outbox, j);
}

proof fn lemma_kept(ts: Seq<TransferModel>, repo: Seq<char>, incoming: Seq<TransferModel>, k: int)
    requires
        0 <= k < ts.len(),
        ts[k].repo != repo || !lists_issue(incoming, ts[k].issue),
    ensures
        kept_transfers(ts, repo, incoming).contains(ts[k]),
    decreases ts.len(),
{
    let rest = kept_transfers(ts.drop_last(), repo, incoming);
    if k < ts.len() - 1 {
        assert(ts.drop_last()[k] == ts[k]);
        lemma_kept(ts.drop_last(), repo, incoming, k);
        let x = choose|x: int| 0 <= x < rest.len() && rest[x] == ts[k];
        assert(kept_transfers(ts, repo, incoming)[x] == ts[k]);
    } else {
        assert(kept_transfers(ts, repo, incoming)[rest.len() as int] == ts[k]);
    }
}

/// A sync never drops local history it did not re-read: transfers of other chats, and
/// transfers of this chat that the listing did not return, stay stored.
pub proof fn law_sync_keeps_unlisted_transfers(
    ts: Seq<TransferModel>,
    repo: Seq<char>,
    incoming: Seq<TransferModel>,
    outbox: Seq<PendingModel>,
    k: int,
)
    requires
        0 <= k < ts.len(),
        ts[k].repo != repo || !lists_issue(incoming, ts[k].issue),
    ensures
        (kept_transfers(ts, repo, incoming) + with_queued(incoming, outbox)).contains(ts[k]),
{
    lemma_kept(ts, repo, incoming, k);
    let kept = kept_transfers(ts, repo, incoming);
    let x = choose|x: int| 0 <= x < kept.len() && kept[x] == ts[k];
    assert((kept + with_queued(incoming, outbox))[x] == ts[k]);
}

/// Announcements only record new notices, each with one message.
pub open spec fn grows(a: Announcements, b: Announcements) -> bool {
    &&& a.notified.len() <= b.notified.len()
    &&& b.notified.subrange(0, a.notified.len() as int) == a.notified
    &&& a.messages.len() <= b.messages.len()
    &&& b.messages.subrange(0, a.messages.len() as int) == a.messages
    &&& b.messages.len() - a.messages.len() == b.notified.len() - a.notified.len()
    &&& (a.notified.no_duplicates() ==> b.notified.no_duplicates())
}

proof fn lemma_grows_trans(a: Announcements, b: Announcements, c: Announcements)
    requires
        grows(a, b),
        grows(b, c),
    ensures
        grows(a, c),
{
    assert(c.notified.subrange(0, a.notified.len() as int) =~= c.notified.subrange(
        0,
        b.notified.len() as int,
    ).subrange(0, a.notified.len() as int));
    assert(c.messages.subrange(0, a.messages.len() as int) =~= c.messages.subrange(
        0,
        b.messages.len() as int,
    ).subrange(0, a.messages.len() as int));
}

proof fn lemma_grows_refl(a: Announcements)
    ensures
        grows(a, a),
{
    assert(a.notified.subrange(0, a.notified.len() as int) =~= a.notified);
    assert(a.messages.subrange(0, a.messages.len() as int) =~= a.messages);
}

proof fn lemma_remembered(n: Seq<Seq<char>>, notice: Seq<char>)
    ensures
        remembered(n, notice).1 ==> remembered(n, notice).0 == n.push(notice),
        !remembered(n, notice).1 ==> remembered(n, notice).0 == n,
        n.no_duplicates() ==> remembered(n, notice).0.no_duplicates(),
{
    if !n.contains(notice) && n.no_duplicates() {
        let m = n.push(notice);
        assert forall|i: int, j: int| 0 <= i < m.len() && 0 <= j < m.len() && i != j implies m[i]
            != m[j] by {
            if i == n.len() as int {
                assert(m[j] == n[j]);
            } else if j == n.len() as int {
                assert(m[i] == n[i]);
            }
        }
    }
}

proof fn lemma_announce_grows(
    a: Announcements,
    t: TransferModel,
    d: DeliveryModel,
    device: Seq<char>,
    login: Seq<char>,
    chat_name: Seq<char>,
)
    ensures
        grows(a, announce(a, t, d, device, login, chat_name)),
{
    let b = announce(a, t, d, device, login, chat_name);
    lemma_grows_refl(a);
    let key = crate::model::transfer_key(t.repo, t.issue);
    lemma_remembered(a.notified, crate::service::offer_notice(key, d));
    lemma_remembered(a.notified, crate::service::retry_notice(key, d));
    assert(b.notified.subrange(0, a.notified.len() as int) =~= a.notified);
    assert(b.messages.subrange(0, a.messages.len() as int) =~= a.messages);
}

proof fn lemma_announce_all_grows(
    a: Announcements,
    t: TransferModel,
    ds: Seq<DeliveryModel>,
    n: nat,
    device: Seq<char>,
    login: Seq<char>,
    chat_name: Seq<char>,
)
    ensures
        grows(a, announce_all(a, t, ds, n, device, login, chat_name)),
    decreases n,
{
    if n == 0 {
        lemma_grows_refl(a);
    } else {
        let m = announce_all(a, t, ds, (n - 1) as nat, device, login, chat_name);
        lemma_announce_all_grows(a, t, ds, (n - 1) as nat, device, login, chat_name);
        lemma_announce_grows(m, t, ds[n - 1], device, login, chat_name);
        lemma_grows_trans(a, m, announce(m, t, ds[n - 1], device, login, chat_name));
    }
}

/// A sync announces each offer and each retry request at most once: it only appends notices
/// that were not recorded before, keeps every earlier notice, and shows exactly one message
/// per new notice.
pub proof fn law_each_notice_announced_once(
    a: Announcements,
    ts: Seq<TransferModel>,
    n: nat,
    at: u64,
    device: Seq<char>,
    login: Seq<char>,
    chat_name: Seq<char>,
)
    ensures
        grows(a, announce_transfers(a, ts, n, at, device, login, chat_name)),
    decreases n,
{
    if n == 0 {
        lemma_grows_refl(a);
    } else {
        let m = announce_transfers(a, ts, (n - 1) as nat, at, device, login, chat_name);
        law_each_notice_announced_once(a, ts, (n - 1) as nat, at, device, login, chat_name);
        let t = ts[n - 1];
        let ds = deliveries_state(t, parsed_ids(t), at);
        lemma_announce_all_grows(m, t, ds, ds.len(), device, login, chat_name);
        lemma_grows_trans(a, m, announce_all(m, t, ds, ds.len(), device, login, chat_name));
    }
}

/// Delivery `d` of transfer `t` is an offer waiting for the account `login` on a device other
/// than the sending one.
pub open spec fn offer_due(t: TransferModel, d: DeliveryModel, device: Seq<char>, login: Seq<char>) -> bool {
    &&& t.offer.source_device != device
    &&& same_name(d.recipient, login)
    &&& (d.status == Status::Waiting || d.status == Status::Seen)
}

/// A "files are waiting" message is shown for a delivery exactly when the offer is due and
/// its notice (transfer key, recipient, attempt) was not noted yet; afterwards it is noted.
/// On a device other than the sender's, no other delivery changes anything.
pub proof fn law_offer_notice(
    a: Announcements,
    t: TransferModel,
    d: DeliveryModel,
    device: Seq<char>,
    login: Seq<char>,
    chat_name: Seq<char>,
)
    ensures
        offer_due(t, d, device, login) ==> announce(a, t, d, device, login, chat_name).notified.contains(
            offer_notice(transfer_key(t.repo, t.issue), d),
        ),
        offer_due(t, d, device, login) ==> announce(a, t, d, device, login, chat_name).messages == if a.notified.contains(
            offer_notice(transfer_key(t.repo, t.issue), d),
        ) {
            a.messages
        } else {
            a.messages.push(offer_message(t, chat_name))
        },
        t.offer.source_device != device && !offer_due(t, d, device, login) ==> announce(
            a,
            t,
            d,
            device,
            login,
            chat_name,
        ) == a,
{
    let k = offer_notice(transfer_key(t.repo, t.issue), d);
    if offer_due(t, d, device, login) && !a.notified.contains(k) {
        assert(a.notified.push(k)[a.notified.len() as int] == k);
    }
}

proof fn lemma_noted_stays(a: Announcements, b: Announcements, k: Seq<char>)
    requires
        grows(a, b),
        a.notified.contains(k),
    ensures
        b.notified.contains(k),
{
    let i = choose|i: int| 0 <= i < a.notified.len() && a.notified[i] == k;
    assert(b.notified.subrange(0, a.notified.len() as int)[i] == b.notified[i]);
}

proof fn lemma_due_noted_all(
    a: Announcements,
    t: TransferModel,
    ds: Seq<DeliveryModel>,
    n: nat,
    device: Seq<char>,
    login: Seq<char>,
    chat_name: Seq<char>,
)
    requires
        n <= ds.len(),
    ensures
        forall|j: int|
            0 <= j < n && offer_due(t, #[trigger] ds[j], device, login) ==> announce_all(
                a,
                t,
                ds,
                n,
                device,
                login,
                chat_name,
            ).notified.contains(offer_notice(transfer_key(t.repo, t.issue), ds[j])),
    decreases n,
{
    if n > 0 {
        let m = announce_all(a, t, ds, (n - 1) as nat, device, login, chat_name);
        lemma_due_noted_all(a, t, ds, (n - 1) as nat, device, login, chat_name);
        lemma_announce_grows(m, t, ds[n - 1], device, login, chat_name);
        law_offer_notice(m, t, ds[n - 1], device, login, chat_name);
        assert forall|j: int| 0 <= j < n && offer_due(t, #[trigger] ds[j], device, login) implies announce_all(
            a,
            t,
            ds,
            n,
            device,
            login,
            chat_name,
        ).notified.contains(offer_notice(transfer_key(t.repo, t.issue), ds[j])) by {
            if j < n - 1 {
                lemma_noted_stays(m, announce(m, t, ds[n - 1], device, login, chat_name), offer_notice(transfer_key(t.repo, t.issue), ds[j]));
            }
        }
    }
}

/// After a sync, every due offer among the synced transfers is noted, so a later sync shows
/// no second message for the same attempt.
pub proof fn law_due_offers_are_noted(
    a: Announcements,
    ts: Seq<TransferModel>,
    n: nat,
    at: u64,
    device: Seq<char>,
    login: Seq<char>,
    chat_name: Seq<char>,
    q: int,
    j: int,
)
    requires
        n <= ts.len(),
        0 <= q < n,
        0 <= j < ts[q].offer.slots.len(),
        offer_due(ts[q], deliveries_state(ts[q], parsed_ids(ts[q]), at)[j], device, login),
    ensures
        announce_transfers(a, ts, n, at, device, login, chat_name).notified.contains(
            offer_notice(transfer_key(ts[q].repo, ts[q].issue), deliveries_state(ts[q], parsed_ids(ts[q]), at)[j]),
        ),
    decreases n,
{
    let m = announce_transfers(a, ts, (n - 1) as nat, at, device, login, chat_name);
    let t = ts[n - 1];
    let ds = deliveries_state(t, parsed_ids(t), at);
    let k = offer_notice(transfer_key(ts[q].repo, ts[q].issue), deliveries_state(ts[q], parsed_ids(ts[q]), at)[j]);
    if q < n - 1 {
        law_due_offers_are_noted(a, ts, (n - 1) as nat, at, device, login, chat_name, q, j);
        lemma_announce_all_grows(m, t, ds, ds.len(), device, login, chat_name);
        lemma_noted_stays(m, announce_all(m, t, ds, ds.len(), device, login, chat_name), k);
    } else {
        lemma_due_noted_all(m, t, ds, ds.len(), device, login, chat_name);
    }
}

/// `e` is the event that retrying delivery `d` publishes at time `at` as `login` (what
/// `retried` returns, authored by the signed-in account).
pub open spec fn retry_event_for(d: DeliveryModel, login: Seq<char>, at: u64, e: AuthoredModel) -> bool {
    &&& e.author == login
    &&& e.event.recipient == d.recipient
    &&& e.event.attempt == d.attempt + 1
    &&& e.event.status == Status::Waiting
    &&& e.event.at == at
    &&& (e.event.code matches Some(c) && code_ok(c))
    &&& e.event.expires_at == Some((at + TRANSFER_TTL) as u64)
    &&& uuid_parses(e.event.id)
}

/// A published retry takes effect: once the sender publishes the event of a planned retry,
/// the recipient's delivery waits again at the next attempt, with the new code, until the
/// new deadline.
pub proof fn law_planned_retry_takes_effect(
    t: TransferModel,
    login: Seq<char>,
    device: Seq<char>,
    recipient: Seq<char>,
    at: u64,
    running: bool,
    i: int,
    e: AuthoredModel,
    later: u64,
)
    requires
        crate::service::retry_plan(t, login, device, recipient, at, running) is Ok,
        crate::service::first_for(deliveries_state(t, parsed_ids(t), at), recipient, i),
        retry_event_for(deliveries_state(t, parsed_ids(t), at)[i], login, at, e),
        at + TRANSFER_TTL <= u64::MAX,
        forall|k: int| 0 <= k < t.events.len() ==> #[trigger] t.events[k].event.id != e.event.id,
        later < at + TRANSFER_TTL,
    ensures
        ({
            let u = crate::delivery_laws::extended(t, seq![e]);
            let d = deliveries_state(u, parsed_ids(u), later)[i];
            &&& d.status == Status::Waiting
            &&& d.attempt == deliveries_state(t, parsed_ids(t), at)[i].attempt + 1
            &&& d.code == e.event.code->0
            &&& d.expires_at == at + TRANSFER_TTL
        }),
{
    let ds = deliveries_state(t, parsed_ids(t), at);
    let c = choose|c: int| crate::service::first_for(ds, recipient, c);
    crate::service::lemma_first_for_unique(ds, recipient, i, c);
    let slot = t.offer.slots[i];
    let ok = parsed_ids(t);
    let p0 = replay(t, slot, ok, t.events.len()).0;
    assert(ds[i] == crate::model::settle(p0, at));
    crate::recovery_laws::lemma_replay_recipient(t, slot, ok, t.events.len());
    assert(crate::model::is_retry(t, p0, e));
    crate::delivery_laws::law_retry_takes_effect(t, ok, e, later, i);
    let u = crate::delivery_laws::extended(t, seq![e]);
    assert(parsed_ids(u) =~= ok.push(true));
}

/// `k` is the notice that a sync records for delivery `d` of `t`: the offer notice of an
/// offer due to the signed-in account, or, on the sending device, the retry notice of a
/// retry request.
pub open spec fn notice_of(t: TransferModel, d: DeliveryModel, device: Seq<char>, login: Seq<char>, k: Seq<char>) -> bool {
    ||| offer_due(t, d, device, login) && offer_notice(transfer_key(t.repo, t.issue), d) == k
    ||| t.offer.source_device == device && d.status == Status::RetryRequested
        && crate::service::retry_notice(transfer_key(t.repo, t.issue), d) == k
}

/// Some delivery among `ds[..n]` of `t` has notice `k`.
pub open spec fn noticed_among(t: TransferModel, ds: Seq<DeliveryModel>, n: nat, device: Seq<char>, login: Seq<char>, k: Seq<char>) -> bool {
    exists|j: int| 0 <= j < n && notice_of(t, #[trigger] ds[j], device, login, k)
}

/// Some delivery of the first `n` transfers of `ts`, at time `at`, has notice `k`.
pub open spec fn noticed_in(ts: Seq<TransferModel>, n: nat, at: u64, device: Seq<char>, login: Seq<char>, k: Seq<char>) -> bool {
    exists|q: int|
        0 <= q < n && noticed_among(
            #[trigger] ts[q],
            deliveries_state(ts[q], parsed_ids(ts[q]), at),
            deliveries_state(ts[q], parsed_ids(ts[q]), at).len(),
            device,
            login,
            k,
        )
}

proof fn lemma_announce_notices(
    a: Announcements,
    t: TransferModel,
    d: DeliveryModel,
    device: Seq<char>,
    login: Seq<char>,
    chat_name: Seq<char>,
)
    ensures
        forall|k: Seq<char>|
            #[trigger] announce(a, t, d, device, login, chat_name).notified.contains(k) && !a.notified.contains(k)
                ==> notice_of(t, d, device, login, k),
        forall|k: Seq<char>| notice_of(t, d, device, login, k) ==> #[trigger] announce(a, t, d, device, login, chat_name).notified.contains(k),
{
    let b = announce(a, t, d, device, login, chat_name);
    let key = transfer_key(t.repo, t.issue);
    assert forall|k: Seq<char>| #[trigger] b.notified.contains(k) && !a.notified.contains(k) implies notice_of(t, d, device, login, k) by {
        if b.notified != a.notified {
            let i = choose|i: int| 0 <= i < b.notified.len() && b.notified[i] == k;
            if i < a.notified.len() {
                assert(a.notified.push(b.notified.last())[i] == a.notified[i]);
            }
        }
    }
    assert forall|k: Seq<char>| notice_of(t, d, device, login, k) implies #[trigger] b.notified.contains(k) by {
        if !a.notified.contains(k) {
            assert(a.notified.push(k)[a.notified.len() as int] == k);
        }
    }
}

proof fn lemma_announce_all_notices(
    a: Announcements,
    t: TransferModel,
    ds: Seq<DeliveryModel>,
    n: nat,
    device: Seq<char>,
    login: Seq<char>,
    chat_name: Seq<char>,
)
    requires
        n <= ds.len(),
    ensures
        forall|k: Seq<char>|
            #[trigger] announce_all(a, t, ds, n, device, login, chat_name).notified.contains(k) && !a.notified.contains(k)
                ==> noticed_among(t, ds, n, device, login, k),
        forall|j: int, k: Seq<char>|
            0 <= j < n && #[trigger] notice_of(t, ds[j], device, login, k) ==> announce_all(
                a,
                t,
                ds,
                n,
                device,
                login,
                chat_name,
            ).notified.contains(k),
    decreases n,
{
    if n > 0 {
        let m = announce_all(a, t, ds, (n - 1) as nat, device, login, chat_name);
        let b = announce(m, t, ds[n - 1], device, login, chat_name);
        lemma_announce_all_notices(a, t, ds, (n - 1) as nat, device, login, chat_name);
        lemma_announce_notices(m, t, ds[n - 1], device, login, chat_name);
        lemma_announce_grows(m, t, ds[n - 1], device, login, chat_name);
        assert forall|k: Seq<char>| #[trigger] b.notified.contains(k) && !a.notified.contains(k)
            implies noticed_among(t, ds, n, device, login, k) by {
            if m.notified.contains(k) {
                let j = choose|j: int| 0 <= j < n - 1 && notice_of(t, #[trigger] ds[j], device, login, k);
            } else {
                assert(notice_of(t, ds[n - 1], device, login, k));
            }
        }
        assert forall|j: int, k: Seq<char>| 0 <= j < n && #[trigger] notice_of(t, ds[j], device, login, k)
            implies b.notified.contains(k) by {
            if j < n - 1 {
                lemma_noted_stays(m, b, k);
            }
        }
    }
}

/// Exactly the notices of the synced deliveries are recorded, each once with one message: a
/// sync records a notice it had not recorded before only for an offer due to the signed-in
/// account on another device (or a retry request on the sending device), records every such
/// notice, keeps every earlier one, and shows one message per new notice. So a "files are
/// waiting" message comes for a delivery exactly when its offer is due and its notice (key,
/// recipient, attempt) was not recorded yet, and never again for the same attempt.
pub proof fn law_sync_notices_exactly(
    a: Announcements,
    ts: Seq<TransferModel>,
    n: nat,
    at: u64,
    device: Seq<char>,
    login: Seq<char>,
    chat_name: Seq<char>,
)
    requires
        n <= ts.len(),
    ensures
        grows(a, announce_transfers(a, ts, n, at, device, login, chat_name)),
        forall|k: Seq<char>|
            #[trigger] announce_transfers(a, ts, n, at, device, login, chat_name).notified.contains(k)
                && !a.notified.contains(k) ==> noticed_in(ts, n, at, device, login, k),
        forall|q: int, j: int, k: Seq<char>|
            0 <= q < n && 0 <= j < deliveries_state(ts[q], parsed_ids(ts[q]), at).len() && #[trigger] notice_of(
                ts[q],
                deliveries_state(ts[q], parsed_ids(ts[q]), at)[j],
                device,
                login,
                k,
            ) ==> announce_transfers(a, ts, n, at, device, login, chat_name).notified.contains(k),
    decreases n,
{
    law_each_notice_announced_once(a, ts, n, at, device, login, chat_name);
    if n > 0 {
        let m = announce_transfers(a, ts, (n - 1) as nat, at, device, login, chat_name);
        let t = ts[n - 1];
        let ds = deliveries_state(t, parsed_ids(t), at);
        let b = announce_all(m, t, ds, ds.len(), device, login, chat_name);
        law_sync_notices_exactly(a, ts, (n - 1) as nat, at, device, login, chat_name);
        lemma_announce_all_notices(m, t, ds, ds.len(), device, login, chat_name);
        lemma_announce_all_grows(m, t, ds, ds.len(), device, login, chat_name);
        assert forall|k: Seq<char>| #[trigger] b.notified.contains(k) && !a.notified.contains(k)
            implies noticed_in(ts, n, at, device, login, k) by {
            if m.notified.contains(k) {
                let q = choose|q: int|
                    0 <= q < n - 1 && noticed_among(
                        #[trigger] ts[q],
                        deliveries_state(ts[q], parsed_ids(ts[q]), at),
                        deliveries_state(ts[q], parsed_ids(ts[q]), at).len(),
                        device,
                        login,
                        k,
                    );
            } else {
                assert(noticed_among(ts[n - 1], ds, ds.len(), device, login, k));
            }
        }
        assert forall|q: int, j: int, k: Seq<char>|
            0 <= q < n && 0 <= j < deliveries_state(ts[q], parsed_ids(ts[q]), at).len() && #[trigger] notice_of(
                ts[q],
                deliveries_state(ts[q], parsed_ids(ts[q]), at)[j],
                device,
                login,
                k,
            ) implies b.notified.contains(k) by {
            if q < n - 1 {
                lemma_noted_stays(m, b, k);
            }
        }
    }
}

} // verus!
