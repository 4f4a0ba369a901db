//! Properties of delivery replay that hold for every transfer history.
use crate::model::{
    apply_event, deliveries_state, delivery_state, is_open, is_retry, replay, with_status,
    AuthoredModel, DeliveryModel, SlotModel, Status, TransferModel,
};
use crate::text::same_name;
use vstd::prelude::*;

verus! {

/// `a` is a receipt published by the recipient of `slot` for attempt `attempt`.
pub open spec fn receipt_for(a: AuthoredModel, slot: SlotModel, attempt: u32) -> bool {
    &&& a.event.status == Status::Received
    &&& same_name(a.author, slot.recipient)
    &&& same_name(a.event.recipient, slot.recipient)
    &&& a.event.attempt == attempt
}

/// `a` is a code published by the sender of `t` for the recipient of `slot`.
pub open spec fn code_from_sender(
    t: TransferModel,
    a: AuthoredModel,
    slot: SlotModel,
    attempt: u32,
    code: Seq<char>,
) -> bool {
    &&& a.event.status == Status::Waiting
    &&& same_name(a.author, t.offer.sender)
    &&& same_name(a.event.recipient, slot.recipient)
    &&& a.event.attempt == attempt
    &&& a.event.code == Some(code)
}

/// `t` with `more` events appended.
pub open spec fn extended(t: TransferModel, more: Seq<AuthoredModel>) -> TransferModel {
    TransferModel { repo: t.repo, issue: t.issue, offer: t.offer, events: t.events + more }
}

/// Replay reads only the offer and the first `n` events.
pub proof fn lemma_replay_prefix(
    t: TransferModel,
    u: TransferModel,
    slot: SlotModel,
    ok: Seq<bool>,
    ok2: Seq<bool>,
    n: nat,
)
    requires
        u.offer == t.offer,
        n <= t.events.len(),
        n <= u.events.len(),
        n <= ok.len(),
        n <= ok2.len(),
        forall|k: int| 0 <= k < n ==> #[trigger] u.events[k] == t.events[k],
        forall|k: int| 0 <= k < n ==> #[trigger] ok2[k] == ok[k],
    ensures
        replay(u, slot, ok2, n) == replay(t, slot, ok, n),
    decreases n,
{
    if n > 0 {
        lemma_replay_prefix(t, u, slot, ok, ok2, (n - 1) as nat);
        assert(u.events[n - 1] == t.events[n - 1] && ok2[n - 1] == ok[n - 1]);
    }
}

/// A received delivery is left alone by every further event.
pub proof fn lemma_received_absorbs(
    t: TransferModel,
    slot: SlotModel,
    d: DeliveryModel,
    a: AuthoredModel,
)
    requires
        d.status == Status::Received,
    ensures
        apply_event(t, slot, d, a) == d,
{
}

proof fn lemma_received_from_receipt(t: TransferModel, slot: SlotModel, ok: Seq<bool>, n: nat)
    requires
        n <= t.events.len(),
    ensures
        replay(t, slot, ok, n).0.status == Status::Received ==> exists|k: int|
            0 <= k < n && receipt_for(
                #[trigger] t.events[k],
                slot,
                replay(t, slot, ok, n).0.attempt,
            ),
    decreases n,
{
    if n > 0 {
        lemma_received_from_receipt(t, slot, ok, (n - 1) as nat);
        let prev = replay(t, slot, ok, (n - 1) as nat);
        if prev.0.status == Status::Received {
            lemma_received_absorbs(t, slot, prev.0, t.events[n - 1]);
            let k = choose|k: int|
                0 <= k < n - 1 && receipt_for(#[trigger] t.events[k], slot, prev.0.attempt);
            assert(receipt_for(t.events[k], slot, replay(t, slot, ok, n).0.attempt));
        } else if replay(t, slot, ok, n).0.status == Status::Received {
            assert(receipt_for(t.events[n - 1], slot, replay(t, slot, ok, n).0.attempt));
        }
    }
}

/// Forged receipts are ignored: a delivery is received only when the recipient itself
/// published a receipt for the delivery's current attempt.
pub proof fn law_received_needs_recipient_receipt(
    t: TransferModel,
    ok: Seq<bool>,
    at: u64,
    i: int,
)
    requires
        0 <= i < t.offer.slots.len(),
        deliveries_state(t, ok, at)[i].status == Status::Received,
    ensures
        exists|k: int|
            0 <= k < t.events.len() && receipt_for(
                #[trigger] t.events[k],
                t.offer.slots[i],
                deliveries_state(t, ok, at)[i].attempt,
            ),
{
    let slot = t.offer.slots[i];
    lemma_received_from_receipt(t, slot, ok, t.events.len());
}

proof fn lemma_received_stays(
    t: TransferModel,
    slot: SlotModel,
    ok: Seq<bool>,
    n: nat,
    m: nat,
)
    requires
        n <= m <= t.events.len(),
        replay(t, slot, ok, n).0.status == Status::Received,
    ensures
        replay(t, slot, ok, m).0 == replay(t, slot, ok, n).0,
    decreases m - n,
{
    if m > n {
        lemma_received_stays(t, slot, ok, n, (m - 1) as nat);
        lemma_received_absorbs(t, slot, replay(t, slot, ok, (m - 1) as nat).0, t.events[m - 1]);
    }
}

/// A receipt wins over anything published later: once a delivery is received it stays
/// received, with the same attempt, code and deadline, whatever events follow and at any
/// later time.
pub proof fn law_received_is_final(
    t: TransferModel,
    ok: Seq<bool>,
    at: u64,
    more: Seq<AuthoredModel>,
    more_ok: Seq<bool>,
    later: u64,
    i: int,
)
    requires
        ok.len() == t.events.len(),
        0 <= i < t.offer.slots.len(),
        deliveries_state(t, ok, at)[i].status == Status::Received,
    ensures
        deliveries_state(extended(t, more), ok + more_ok, later)[i].status == Status::Received,
        deliveries_state(extended(t, more), ok + more_ok, later)[i] == deliveries_state(t, ok, at)[i],
{
    let u = extended(t, more);
    let slot = t.offer.slots[i];
    let n = t.events.len();
    assert(u.offer.slots[i] == slot);
    assert forall|k: int| 0 <= k < n implies u.events[k] == t.events[k] && (ok + more_ok)[k]
        == ok[k] by {}
    lemma_replay_prefix(t, u, slot, ok, ok + more_ok, n);
    lemma_received_stays(u, slot, ok + more_ok, n, u.events.len());
}

/// The state of a slot changes attempt and code only through the sender.
proof fn lemma_code_origin(t: TransferModel, slot: SlotModel, ok: Seq<bool>, n: nat)
    requires
        n <= t.events.len(),
    ensures
        ({
            let d = replay(t, slot, ok, n).0;
            (d.attempt == 1 && d.code == slot.code) || exists|k: int|
                0 <= k < n && code_from_sender(t, #[trigger] t.events[k], slot, d.attempt, d.code)
        }),
        replay(t, slot, ok, n).0.recipient == slot.recipient,
    decreases n,
{
    if n > 0 {
        lemma_code_origin(t, slot, ok, (n - 1) as nat);
        let prev = replay(t, slot, ok, (n - 1) as nat).0;
        let d = replay(t, slot, ok, n).0;
        if d.attempt != prev.attempt || d.code != prev.code {
            assert(code_from_sender(t, t.events[n - 1], slot, d.attempt, d.code));
        } else if !(d.attempt == 1 && d.code == slot.code) {
            let k = choose|k: int|
                0 <= k < n - 1 && code_from_sender(
                    t,
                    #[trigger] t.events[k],
                    slot,
                    prev.attempt,
                    prev.code,
                );
            assert(code_from_sender(t, t.events[k], slot, d.attempt, d.code));
        }
    }
}

/// Only the sender can rotate a connection code: a delivery holds the offer's first code,
/// or the code and attempt of a retry that the sender published for that recipient.
pub proof fn law_only_sender_rotates_code(t: TransferModel, ok: Seq<bool>, at: u64, i: int)
    requires
        0 <= i < t.offer.slots.len(),
    ensures
        ({
            let d = deliveries_state(t, ok, at)[i];
            let slot = t.offer.slots[i];
            (d.attempt == 1 && d.code == slot.code) || exists|k: int|
                0 <= k < t.events.len() && code_from_sender(
                    t,
                    #[trigger] t.events[k],
                    slot,
                    d.attempt,
                    d.code,
                )
        }),
{
    lemma_code_origin(t, t.offer.slots[i], ok, t.events.len());
}

/// An open delivery is never shown past its deadline.
pub proof fn law_open_deliveries_are_current(t: TransferModel, ok: Seq<bool>, at: u64, i: int)
    requires
        0 <= i < t.offer.slots.len(),
        is_open(deliveries_state(t, ok, at)[i].status),
    ensures
        at < deliveries_state(t, ok, at)[i].expires_at,
{
}

/// Time only expires deliveries: between two moments a delivery either stays as it was or
/// an open delivery becomes expired.
pub proof fn law_time_only_expires(t: TransferModel, ok: Seq<bool>, at: u64, later: u64, i: int)
    requires
        0 <= i < t.offer.slots.len(),
        at <= later,
    ensures
        ({
            let d = deliveries_state(t, ok, at)[i];
            let e = deliveries_state(t, ok, later)[i];
            e == d || (is_open(d.status) && e == with_status(d, Status::Expired))
        }),
{
}

/// Replay collects every id that it has passed for this recipient.
proof fn lemma_ids_seen(t: TransferModel, slot: SlotModel, ok: Seq<bool>, n: nat, k: int)
    requires
        n <= t.events.len(),
        0 <= k < n,
        same_name(t.events[k].event.recipient, slot.recipient),
    ensures
        replay(t, slot, ok, n).1.contains(t.events[k].event.id),
    decreases n,
{
    let prev = replay(t, slot, ok, (n - 1) as nat);
    if k < n - 1 {
        lemma_ids_seen(t, slot, ok, (n - 1) as nat, k);
        let j = choose|j: int| 0 <= j < prev.1.len() && prev.1[j] == t.events[k].event.id;
        let cur = replay(t, slot, ok, n);
        assert(cur.1[j] == t.events[k].event.id);
    } else {
        let cur = replay(t, slot, ok, n);
        if !prev.1.contains(t.events[k].event.id) {
            assert(cur.1[cur.1.len() - 1] == t.events[k].event.id);
        }
    }
}

/// Events are counted once per id: republishing an event whose id was already published
/// for the same recipient changes no delivery.
pub proof fn law_repeated_events_are_ignored(
    t: TransferModel,
    ok: Seq<bool>,
    at: u64,
    e: AuthoredModel,
    e_ok: bool,
    k: int,
)
    requires
        ok.len() == t.events.len(),
        0 <= k < t.events.len(),
        t.events[k].event.id == e.event.id,
        same_name(t.events[k].event.recipient, e.event.recipient),
    ensures
        deliveries_state(extended(t, seq![e]), ok.push(e_ok), at) == deliveries_state(t, ok, at),
{
    let u = extended(t, seq![e]);
    let ok2 = ok.push(e_ok);
    let n = t.events.len();
    assert forall|i: int| 0 <= i < t.offer.slots.len() implies delivery_state(
        u,
        #[trigger] t.offer.slots[i],
        ok2,
        at,
    ) == delivery_state(t, t.offer.slots[i], ok, at) by {
        let slot = t.offer.slots[i];
        assert forall|j: int| 0 <= j < n implies u.events[j] == t.events[j] && ok2[j] == ok[j] by {}
        lemma_replay_prefix(t, u, slot, ok, ok2, n);
        assert(u.events[n as int] == e);
        if same_name(e.event.recipient, slot.recipient) {
            lemma_ids_seen(t, slot, ok, n, k);
        }
        assert(replay(u, slot, ok2, (n + 1) as nat) == replay(t, slot, ok, n));
    }
    assert(deliveries_state(u, ok2, at) =~= deliveries_state(t, ok, at));
}

/// A receipt that the recipient publishes for its current attempt, under a fresh id that
/// parses, always marks the delivery received.
pub proof fn law_receipt_completes_delivery(
    t: TransferModel,
    ok: Seq<bool>,
    at: u64,
    e: AuthoredModel,
    later: u64,
    i: int,
)
    requires
        ok.len() == t.events.len(),
        0 <= i < t.offer.slots.len(),
        receipt_for(e, t.offer.slots[i], replay(t, t.offer.slots[i], ok, t.events.len()).0.attempt),
        forall|k: int| 0 <= k < t.events.len() ==> #[trigger] t.events[k].event.id != e.event.id,
    ensures
        deliveries_state(extended(t, seq![e]), ok.push(true), later)[i].status == Status::Received,
{
    let u = extended(t, seq![e]);
    let ok2 = ok.push(true);
    let n = t.events.len();
    let slot = t.offer.slots[i];
    assert forall|j: int| 0 <= j < n implies u.events[j] == t.events[j] && ok2[j] == ok[j] by {}
    lemma_replay_prefix(t, u, slot, ok, ok2, n);
    assert(u.events[n as int] == e);
    let prev = replay(t, slot, ok, n);
    lemma_ids_absent(t, slot, ok, n, e.event.id);
    assert(!prev.1.contains(e.event.id));
    assert(u.offer.slots[i] == slot);
}

/// Replay only collects ids of events it has passed.
pub proof fn lemma_ids_absent(t: TransferModel, slot: SlotModel, ok: Seq<bool>, n: nat, id: Seq<char>)
    requires
        n <= t.events.len(),
        forall|k: int| 0 <= k < t.events.len() ==> #[trigger] t.events[k].event.id != id,
    ensures
        !replay(t, slot, ok, n).1.contains(id),
    decreases n,
{
    if n > 0 {
        lemma_ids_absent(t, slot, ok, (n - 1) as nat, id);
        let prev = replay(t, slot, ok, (n - 1) as nat);
        let cur = replay(t, slot, ok, n);
        assert(t.events[n - 1].event.id != id);
        if cur.1 != prev.1 {
            assert(cur.1 == prev.1.push(t.events[n - 1].event.id));
            assert forall|j: int| 0 <= j < cur.1.len() implies cur.1[j] != id by {
                if j < prev.1.len() {
                    assert(cur.1[j] == prev.1[j]);
                }
            }
        }
    }
}

/// `a` is the sender's report that attempt `attempt` to the recipient of `slot` finished.
pub open spec fn sent_report(t: TransferModel, a: AuthoredModel, slot: SlotModel, attempt: u32) -> bool {
    &&& a.event.status == Status::Sent
    &&& same_name(a.author, t.offer.sender)
    &&& same_name(a.event.recipient, slot.recipient)
    &&& a.event.attempt == attempt
}

proof fn lemma_sent_from_report(t: TransferModel, slot: SlotModel, ok: Seq<bool>, n: nat)
    requires
        n <= t.events.len(),
    ensures
        replay(t, slot, ok, n).0.status == Status::Sent ==> exists|k: int|
            0 <= k < n && sent_report(t, #[trigger] t.events[k], slot, replay(t, slot, ok, n).0.attempt),
    decreases n,
{
    if n > 0 {
        lemma_sent_from_report(t, slot, ok, (n - 1) as nat);
        let prev = replay(t, slot, ok, (n - 1) as nat);
        let cur = replay(t, slot, ok, n);
        if cur.0.status == Status::Sent {
            if prev.0.status == Status::Sent && cur.0.attempt == prev.0.attempt {
                let k = choose|k: int|
                    0 <= k < n - 1 && sent_report(t, #[trigger] t.events[k], slot, prev.0.attempt);
                assert(sent_report(t, t.events[k], slot, cur.0.attempt));
            } else {
                assert(sent_report(t, t.events[n - 1], slot, cur.0.attempt));
            }
        }
    }
}

/// "Sent" confirms that the sender finished: a delivery shows as sent only when the sender
/// itself reported its current attempt sent.
pub proof fn law_sent_needs_sender_report(t: TransferModel, ok: Seq<bool>, at: u64, i: int)
    requires
        0 <= i < t.offer.slots.len(),
        deliveries_state(t, ok, at)[i].status == Status::Sent,
    ensures
        exists|k: int|
            0 <= k < t.events.len() && sent_report(
                t,
                #[trigger] t.events[k],
                t.offer.slots[i],
                deliveries_state(t, ok, at)[i].attempt,
            ),
{
    let slot = t.offer.slots[i];
    lemma_sent_from_report(t, slot, ok, t.events.len());
}

/// A retry takes effect: once the sender publishes, under a fresh id that parses, the next
/// attempt with a new code for a delivery that was not received, the delivery waits again
/// with that attempt, code and deadline until the deadline passes.
pub proof fn law_retry_takes_effect(
    t: TransferModel,
    ok: Seq<bool>,
    e: AuthoredModel,
    later: u64,
    i: int,
)
    requires
        ok.len() == t.events.len(),
        0 <= i < t.offer.slots.len(),
        e.event.status == Status::Waiting,
        same_name(e.event.recipient, t.offer.slots[i].recipient),
        is_retry(t, replay(t, t.offer.slots[i], ok, t.events.len()).0, e),
        forall|k: int| 0 <= k < t.events.len() ==> #[trigger] t.events[k].event.id != e.event.id,
        later < e.event.expires_at->0,
    ensures
        deliveries_state(extended(t, seq![e]), ok.push(true), later)[i].status == Status::Waiting,
        deliveries_state(extended(t, seq![e]), ok.push(true), later)[i].attempt == e.event.attempt,
        deliveries_state(extended(t, seq![e]), ok.push(true), later)[i].code == e.event.code->0,
        deliveries_state(extended(t, seq![e]), ok.push(true), later)[i].expires_at
            == e.event.expires_at->0,
{
    let u = extended(t, seq![e]);
    let ok2 = ok.push(true);
    let n = t.events.len();
    let slot = t.offer.slots[i];
    assert forall|j: int| 0 <= j < n implies u.events[j] == t.events[j] && ok2[j] == ok[j] by {}
    lemma_replay_prefix(t, u, slot, ok, ok2, n);
    assert(u.events[n as int] == e);
    let prev = replay(t, slot, ok, n);
    lemma_ids_absent(t, slot, ok, n, e.event.id);
    assert(!prev.1.contains(e.event.id));
    assert(u.offer.slots[i] == slot);
    assert(u.offer == t.offer);
    assert(is_retry(u, prev.0, e));
}

} // verus!
