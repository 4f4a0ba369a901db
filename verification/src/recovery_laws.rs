//! What recovery after a restart guarantees: interrupted deliveries show as failed from then
//! on, and recovering again adds nothing.
use crate::delivery_laws::{lemma_ids_absent, lemma_replay_prefix};
use crate::model::{
    apply_event, deliveries_state, is_open, parsed_ids, replay,
    settle, with_status, AuthoredModel, DeliveryModel, SlotModel, Status, TransferModel,
};
use crate::storage::{
    all_queued, failure_report, interrupted, interrupted_among, queued, recovered,
    recovered_transfer, StoreModel,
};
use crate::text::same_name;
use vstd::prelude::*;

verus! {

/// The account `login` may report on every delivery of `t`: it is the sender or the
/// recipient.
pub open spec fn may_report(t: TransferModel, login: Seq<char>) -> bool {
    forall|i: int|
        0 <= i < t.offer.slots.len() ==> same_name(login, t.offer.sender) || same_name(
            login,
            #[trigger] t.offer.slots[i].recipient,
        )
}

/// The events that `u` adds to `t` carry ids that no event of `t` carries, and no two of
/// them share an id.
pub open spec fn fresh_reports(t: TransferModel, u: TransferModel) -> bool {
    &&& forall|m: int, j: int|
        t.events.len() <= m < u.events.len() && 0 <= j < t.events.len() ==> #[trigger] u.events[m].event.id
            != #[trigger] t.events[j].event.id
    &&& forall|m1: int, m2: int|
        t.events.len() <= m1 < u.events.len() && t.events.len() <= m2 < u.events.len() && m1 != m2
            ==> #[trigger] u.events[m1].event.id != #[trigger] u.events[m2].event.id
}

/// Replay keeps the recipient of the slot.
pub proof fn lemma_replay_recipient(t: TransferModel, slot: SlotModel, ok: Seq<bool>, n: nat)
    requires
        n <= t.events.len(),
    ensures
        replay(t, slot, ok, n).0.recipient == slot.recipient,
    decreases n,
{
    if n > 0 {
        lemma_replay_recipient(t, slot, ok, (n - 1) as nat);
    }
}

/// `d` is one of `ds`.
pub open spec fn occurs_in(ds: Seq<DeliveryModel>, d: DeliveryModel) -> bool {
    exists|j: int| 0 <= j < ds.len() && #[trigger] ds[j] == d
}

/// Every element of the interrupted list is an interrupted delivery of `ds`, and every
/// interrupted delivery of `ds` is in the list.
proof fn lemma_interrupted_members(s: StoreModel, t: TransferModel, ds: Seq<DeliveryModel>)
    ensures
        forall|m: int|
            0 <= m < interrupted_among(s, t, ds).len() ==> occurs_in(ds, #[trigger] interrupted_among(s, t, ds)[m])
                && interrupted(s, t, interrupted_among(s, t, ds)[m]),
        forall|j: int|
            0 <= j < ds.len() && interrupted(s, t, #[trigger] ds[j]) ==> occurs_in(
                interrupted_among(s, t, ds),
                ds[j],
            ),
    decreases ds.len(),
{
    if ds.len() > 0 {
        let rest = ds.drop_last();
        lemma_interrupted_members(s, t, rest);
        let f = interrupted_among(s, t, ds);
        let g = interrupted_among(s, t, rest);
        assert forall|m: int| 0 <= m < f.len() implies occurs_in(ds, #[trigger] f[m]) && interrupted(s, t, f[m]) by {
            if m < g.len() {
                assert(f[m] == g[m]);
                let j = choose|j: int| 0 <= j < rest.len() && #[trigger] rest[j] == g[m];
                assert(ds[j] == rest[j]);
            } else {
                assert(f[m] == ds[ds.len() - 1]);
            }
        }
        assert forall|j: int| 0 <= j < ds.len() && interrupted(s, t, #[trigger] ds[j]) implies occurs_in(f, ds[j]) by {
            if j < rest.len() {
                assert(rest[j] == ds[j]);
                let m = choose|m: int| 0 <= m < g.len() && #[trigger] g[m] == rest[j];
                assert(f[m] == g[m]);
            } else {
                assert(f[f.len() - 1] == ds[j]);
            }
        }
    }
}

/// `x` is the id of one of the events `start..n` of `u`.
pub open spec fn tail_id(u: TransferModel, start: nat, n: nat, x: Seq<char>) -> bool {
    exists|m: int| start <= m < n && #[trigger] u.events[m].event.id == x
}

/// A failure report that `slot`'s delivery may take: its author is the sender or the
/// recipient.
pub open spec fn report_for(u: TransferModel, slot: SlotModel, e: AuthoredModel) -> bool {
    &&& e.event.status == Status::Failed
    &&& (same_name(e.author, u.offer.sender) || same_name(e.author, slot.recipient))
}

/// Replaying failure reports under fresh ids that parse: the delivery stays as it was or
/// becomes failed, keeping its attempt; it becomes failed when a report for its attempt
/// comes and it was neither sent nor received.
proof fn lemma_reports_fail(u: TransferModel, slot: SlotModel, ok: Seq<bool>, start: nat, n: nat)
    requires
        start <= n <= u.events.len(),
        ok.len() == u.events.len(),
        forall|m: int|
            start <= m < u.events.len() && same_name(#[trigger] u.events[m].event.recipient, slot.recipient)
                ==> report_for(u, slot, u.events[m]) && ok[m] && !replay(u, slot, ok, start).1.contains(
                u.events[m].event.id,
            ),
        forall|m1: int, m2: int|
            start <= m1 < u.events.len() && start <= m2 < u.events.len() && m1 != m2
                ==> #[trigger] u.events[m1].event.id != #[trigger] u.events[m2].event.id,
    ensures
        replay(u, slot, ok, n).0 == replay(u, slot, ok, start).0 || replay(u, slot, ok, n).0
            == with_status(replay(u, slot, ok, start).0, Status::Failed),
        forall|x: Seq<char>|
            #[trigger] replay(u, slot, ok, n).1.contains(x) ==> replay(u, slot, ok, start).1.contains(x)
                || tail_id(u, start, n, x),
        (replay(u, slot, ok, start).0.status != Status::Sent && replay(u, slot, ok, start).0.status
            != Status::Received && exists|m: int|
            start <= m < n && same_name(#[trigger] u.events[m].event.recipient, slot.recipient)
                && u.events[m].event.attempt == replay(u, slot, ok, start).0.attempt) ==> replay(
            u,
            slot,
            ok,
            n,
        ).0 == with_status(replay(u, slot, ok, start).0, Status::Failed),
    decreases n,
{
    let p = replay(u, slot, ok, start);
    if n > start {
        lemma_reports_fail(u, slot, ok, start, (n - 1) as nat);
        let prev = replay(u, slot, ok, (n - 1) as nat);
        let cur = replay(u, slot, ok, n);
        let e = u.events[n - 1];
        if same_name(e.event.recipient, slot.recipient) {
            assert(report_for(u, slot, e));
            assert(!prev.1.contains(e.event.id)) by {
                if prev.1.contains(e.event.id) {
                    if !p.1.contains(e.event.id) {
                        assert(tail_id(u, start, (n - 1) as nat, e.event.id));
                        let m = choose|m: int| start <= m < n - 1 && #[trigger] u.events[m].event.id == e.event.id;
                        assert(u.events[m].event.id != u.events[n - 1].event.id);
                    }
                }
            }
            assert(cur.0 == apply_event(u, slot, prev.0, e));
            assert(cur.1 == prev.1.push(e.event.id));
            assert forall|x: Seq<char>| #[trigger] cur.1.contains(x) implies p.1.contains(x) || tail_id(u, start, n, x) by {
                if x == e.event.id {
                    assert(u.events[n - 1].event.id == x);
                } else {
                    assert(prev.1.contains(x)) by {
                        let k = choose|k: int| 0 <= k < cur.1.len() && cur.1[k] == x;
                        assert(k < prev.1.len());
                        assert(prev.1[k] == x);
                    }
                    if tail_id(u, start, (n - 1) as nat, x) {
                        let m = choose|m: int| start <= m < n - 1 && #[trigger] u.events[m].event.id == x;
                        assert(start <= m < n);
                    }
                }
            }
        } else {
            assert forall|x: Seq<char>| #[trigger] cur.1.contains(x) implies p.1.contains(x) || tail_id(u, start, n, x) by {
                if tail_id(u, start, (n - 1) as nat, x) {
                    let m = choose|m: int| start <= m < n - 1 && #[trigger] u.events[m].event.id == x;
                    assert(start <= m < n);
                }
            }
        }
        if p.0.status != Status::Sent && p.0.status != Status::Received && exists|m: int|
            start <= m < n && same_name(#[trigger] u.events[m].event.recipient, slot.recipient)
                && u.events[m].event.attempt == p.0.attempt {
            let m = choose|m: int|
                start <= m < n && same_name(#[trigger] u.events[m].event.recipient, slot.recipient)
                    && u.events[m].event.attempt == p.0.attempt;
            if m < n - 1 {
                assert(prev.0 == with_status(p.0, Status::Failed));
            }
        }
    }
}

/// After recovery, the events added to `t` that name the recipient of slot `i` are failure
/// reports it may take, under fresh ids that parse; when the delivery was interrupted, one of
/// them reports its attempt.
proof fn lemma_added_events(s: StoreModel, t: TransferModel, u: TransferModel, login: Seq<char>, at: u64, i: int)
    requires
        recovered_transfer(s, t, u, login, at),
        same_name(login, t.offer.sender) || same_name(login, t.offer.slots[i].recipient),
        fresh_reports(t, u),
        0 <= i < t.offer.slots.len(),
    ensures
        forall|m: int|
            t.events.len() <= m < u.events.len() && same_name(
                #[trigger] u.events[m].event.recipient,
                t.offer.slots[i].recipient,
            ) ==> report_for(u, t.offer.slots[i], u.events[m]) && parsed_ids(u)[m]
                && !replay(t, t.offer.slots[i], parsed_ids(t), t.events.len()).1.contains(
                u.events[m].event.id,
            ),
        interrupted(s, t, deliveries_state(t, parsed_ids(t), at)[i]) ==> exists|m: int|
            t.events.len() <= m < u.events.len() && same_name(
                #[trigger] u.events[m].event.recipient,
                t.offer.slots[i].recipient,
            ) && u.events[m].event.attempt == replay(
                t,
                t.offer.slots[i],
                parsed_ids(t),
                t.events.len(),
            ).0.attempt,
{
    let slot = t.offer.slots[i];
    let all = deliveries_state(t, parsed_ids(t), at);
    let failed = interrupted_among(s, t, all);
    let n = t.events.len();
    let ok = parsed_ids(t);
    let oku = parsed_ids(u);
    let p = replay(t, slot, ok, n);
    lemma_interrupted_members(s, t, all);
    assert(u.offer == t.offer);
    assert forall|m: int| n <= m < u.events.len() && same_name(#[trigger] u.events[m].event.recipient, slot.recipient)
        implies report_for(u, slot, u.events[m]) && oku[m] && !p.1.contains(u.events[m].event.id) by {
        let e = u.events[m];
        let f = failed[m - n];
        assert(failure_report(u.events[n + (m - n)], login, f, at));
        assert(occurs_in(all, f) && interrupted(s, t, f));
        let j = choose|j: int| 0 <= j < all.len() && #[trigger] all[j] == f;
        lemma_replay_recipient(t, t.offer.slots[j], ok, n);
        assert(all[j] == settle(replay(t, t.offer.slots[j], ok, n).0, at));
        assert(e.event.recipient == t.offer.slots[j].recipient);
        assert(oku[m] == crate::model::uuid_parses(e.event.id));
        assert forall|k: int| 0 <= k < t.events.len() implies #[trigger] t.events[k].event.id != e.event.id by {
            assert(u.events[m].event.id != t.events[k].event.id);
        }
        lemma_ids_absent(t, slot, ok, n, e.event.id);
    }
    if interrupted(s, t, all[i]) {
        lemma_replay_recipient(t, slot, ok, n);
        assert(all[i] == settle(p.0, at));
        assert(occurs_in(failed, all[i]));
        let m = choose|m: int| 0 <= m < failed.len() && #[trigger] failed[m] == all[i];
        assert(failure_report(u.events[n + m], login, failed[m], at));
        assert(same_name(u.events[n + m].event.recipient, slot.recipient));
        assert(u.events[n + m].event.attempt == p.0.attempt);
    }
}

/// Recovery of one transfer, slot by slot: an interrupted delivery shows as failed at every
/// later time, with its attempt; any other delivery replays as before or as failed.
pub proof fn lemma_recovered_slot(
    s: StoreModel,
    t: TransferModel,
    u: TransferModel,
    login: Seq<char>,
    at: u64,
    i: int,
    x: u64,
)
    requires
        recovered_transfer(s, t, u, login, at),
        same_name(login, t.offer.sender) || same_name(login, t.offer.slots[i].recipient),
        fresh_reports(t, u),
        0 <= i < t.offer.slots.len(),
    ensures
        interrupted(s, t, deliveries_state(t, parsed_ids(t), at)[i]) ==> deliveries_state(
            u,
            parsed_ids(u),
            x,
        )[i].status == Status::Failed && deliveries_state(u, parsed_ids(u), x)[i].attempt
            == deliveries_state(t, parsed_ids(t), at)[i].attempt,
        replay(u, t.offer.slots[i], parsed_ids(u), u.events.len()).0 == replay(
            t,
            t.offer.slots[i],
            parsed_ids(t),
            t.events.len(),
        ).0 || replay(u, t.offer.slots[i], parsed_ids(u), u.events.len()).0 == with_status(
            replay(t, t.offer.slots[i], parsed_ids(t), t.events.len()).0,
            Status::Failed,
        ),
{
    let slot = t.offer.slots[i];
    let all = deliveries_state(t, parsed_ids(t), at);
    let n = t.events.len();
    let ok = parsed_ids(t);
    let oku = parsed_ids(u);
    assert forall|k: int| 0 <= k < n implies #[trigger] u.events[k] == t.events[k] && oku[k] == ok[k] by {
        assert(u.events[k] == u.events.subrange(0, n as int)[k]);
    }
    lemma_replay_prefix(t, u, slot, ok, oku, n);
    let p = replay(t, slot, ok, n);
    assert(u.offer == t.offer);
    lemma_added_events(s, t, u, login, at, i);
    lemma_reports_fail(u, slot, oku, n, u.events.len());
    if interrupted(s, t, all[i]) {
        assert(all[i] == settle(p.0, at));
        assert(deliveries_state(u, oku, x)[i] == settle(replay(u, slot, oku, u.events.len()).0, x));
    }
}

/// What recovery of transfer `t` into `u` by `login` relies on: an account that may report
/// on each delivery, and fresh ids for the reports.
pub open spec fn recoverable(t: TransferModel, u: TransferModel, login: Seq<char>) -> bool {
    &&& may_report(t, login)
    &&& fresh_reports(t, u)
}

/// A delivery interrupted by a restart shows as failed once recovery has run, at every
/// later time and with its attempt, so it can be retried. It needs the account to be the
/// sender or the recipient, and the reports' ids to be fresh.
pub proof fn law_interrupted_delivery_fails(s: StoreModel, r: StoreModel, at: u64, k: int, i: int, x: u64)
    requires
        recovered(s, r, at),
        s.user is Some,
        0 <= k < s.transfers.len(),
        0 <= i < s.transfers[k].offer.slots.len(),
        same_name(s.user->0.login, s.transfers[k].offer.sender) || same_name(
            s.user->0.login,
            s.transfers[k].offer.slots[i].recipient,
        ),
        fresh_reports(s.transfers[k], r.transfers[k]),
        interrupted(s, s.transfers[k], deliveries_state(s.transfers[k], parsed_ids(s.transfers[k]), at)[i]),
    ensures
        deliveries_state(r.transfers[k], parsed_ids(r.transfers[k]), x)[i].status == Status::Failed,
        deliveries_state(r.transfers[k], parsed_ids(r.transfers[k]), x)[i].attempt == deliveries_state(
            s.transfers[k],
            parsed_ids(s.transfers[k]),
            at,
        )[i].attempt,
{
    let t = s.transfers[k];
    assert(recovered_transfer(s, t, r.transfers[k], s.user->0.login, at));
    lemma_recovered_slot(s, t, r.transfers[k], s.user->0.login, at, i, x);
}

proof fn lemma_nothing_queued(ts: Seq<TransferModel>, us: Seq<TransferModel>, n: nat)
    requires
        n <= ts.len(),
        n <= us.len(),
        forall|k: int| 0 <= k < n ==> (#[trigger] us[k]).events.len() == ts[k].events.len(),
    ensures
        all_queued(ts, us, n) == Seq::<crate::storage::PendingModel>::empty(),
    decreases n,
{
    if n > 0 {
        lemma_nothing_queued(ts, us, (n - 1) as nat);
        assert(queued(ts[n - 1], us[n - 1]) =~= Seq::<crate::storage::PendingModel>::empty());
        assert(all_queued(ts, us, n) =~= Seq::<crate::storage::PendingModel>::empty());
    }
}

/// After recovery, no delivery of transfer `k` is interrupted any more.
proof fn lemma_none_interrupted(s: StoreModel, r: StoreModel, at: u64, at2: u64, k: int, j: int)
    requires
        recovered(s, r, at),
        s.user is Some,
        0 <= k < s.transfers.len(),
        recoverable(s.transfers[k], r.transfers[k], s.user->0.login),
        0 <= j < s.transfers[k].offer.slots.len(),
    ensures
        !interrupted(r, r.transfers[k], deliveries_state(r.transfers[k], parsed_ids(r.transfers[k]), at2)[j]),
{
    let t = s.transfers[k];
    let rt = r.transfers[k];
    let login = s.user->0.login;
    assert(recovered_transfer(s, t, rt, login, at));
    lemma_recovered_slot(s, t, rt, login, at, j, at2);
    let slot = t.offer.slots[j];
    let all1 = deliveries_state(t, parsed_ids(t), at);
    let all2 = deliveries_state(rt, parsed_ids(rt), at2);
    assert(rt.offer == t.offer);
    assert(all2[j] == settle(replay(rt, slot, parsed_ids(rt), rt.events.len()).0, at2));
    assert(all1[j] == settle(replay(t, slot, parsed_ids(t), t.events.len()).0, at));
    assert(r.inflight.len() == 0);
    if !interrupted(s, t, all1[j]) {
        let p0 = replay(t, slot, parsed_ids(t), t.events.len()).0;
        if is_open(p0.status) {
            assert(interrupted(s, t, all1[j]) || t.offer.source_device != s.device_id);
        }
    }
}

/// Recovering twice adds nothing: the second recovery finds no interrupted delivery, so the
/// store stays as the first recovery left it. It needs the account to be the sender or the
/// recipient of every delivery, and the first recovery's report ids to be fresh.
pub proof fn law_second_recovery_adds_nothing(s: StoreModel, r: StoreModel, r2: StoreModel, at: u64, at2: u64)
    requires
        recovered(s, r, at),
        recovered(r, r2, at2),
        s.user is Some,
        forall|k: int|
            0 <= k < s.transfers.len() ==> recoverable(#[trigger] s.transfers[k], r.transfers[k], s.user->0.login),
    ensures
        r2 == r,
{
    let login = s.user->0.login;
    let n = r.transfers.len();
    assert forall|k: int| 0 <= k < n implies #[trigger] r2.transfers[k] == r.transfers[k] by {
        let rt = r.transfers[k];
        let all2 = deliveries_state(rt, parsed_ids(rt), at2);
        assert(recovered_transfer(s, s.transfers[k], rt, login, at));
        assert(recovered_transfer(r, rt, r2.transfers[k], login, at2));
        let f = interrupted_among(r, rt, all2);
        lemma_interrupted_members(r, rt, all2);
        if f.len() > 0 {
            assert(occurs_in(all2, f[0]) && interrupted(r, rt, f[0]));
            let j = choose|j: int| 0 <= j < all2.len() && #[trigger] all2[j] == f[0];
            lemma_none_interrupted(s, r, at, at2, k, j);
        }
        assert(r2.transfers[k].events =~= rt.events);
    }
    assert(r2.transfers =~= r.transfers);
    lemma_nothing_queued(r.transfers, r2.transfers, n);
    assert(r2.outbox =~= r.outbox);
    assert(r2.inflight =~= r.inflight);
}

} // verus!
