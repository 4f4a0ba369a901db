//! Properties of the local store's operations.
use crate::model::{transfer_key, AuthoredModel, ChatModel, TransferModel};
use crate::storage::{
    first_with_key, has_event_id, with_event, with_pending, without_event, without_key,
    without_repo, PendingModel,
};
use crate::text::same_name;
use vstd::prelude::*;

verus! {

proof fn lemma_without_repo(chats: Seq<ChatModel>, repo: Seq<char>)
    ensures
        forall|i: int|
            0 <= i < without_repo(chats, repo).len() ==> !same_name(
                #[trigger] without_repo(chats, repo)[i].repo,
                repo,
            ),
        forall|i: int|
            0 <= i < chats.len() && !same_name(#[trigger] chats[i].repo, repo) ==> without_repo(
                chats,
                repo,
            ).contains(chats[i]),
    decreases chats.len(),
{
    if chats.len() > 0 {
        let rest = without_repo(chats.drop_last(), repo);
        lemma_without_repo(chats.drop_last(), repo);
        assert forall|i: int|
            0 <= i < chats.len() && !same_name(#[trigger] chats[i].repo, repo) implies without_repo(
            chats,
            repo,
        ).contains(chats[i]) by {
            if i < chats.len() - 1 {
                assert(chats.drop_last()[i] == chats[i]);
                let j = choose|j: int| 0 <= j < rest.len() && rest[j] == chats[i];
                assert(without_repo(chats, repo)[j] == chats[i]);
            } else {
                assert(without_repo(chats, repo)[rest.len() as int] == chats[i]);
            }
        }
    }
}

/// Storing a chat leaves exactly one chat for its repository, the new one, and keeps every
/// chat of another repository.
pub proof fn law_upsert_keeps_one_chat_per_repo(chats: Seq<ChatModel>, chat: ChatModel)
    ensures
        ({
            let r = without_repo(chats, chat.repo).push(chat);
            &&& r.last() == chat
            &&& forall|i: int| 0 <= i < r.len() - 1 ==> !same_name(#[trigger] r[i].repo, chat.repo)
            &&& forall|i: int|
                0 <= i < chats.len() && !same_name(#[trigger] chats[i].repo, chat.repo) ==> r.contains(
                    chats[i],
                )
        }),
{
    lemma_without_repo(chats, chat.repo);
    let w = without_repo(chats, chat.repo);
    let r = w.push(chat);
    assert forall|i: int| 0 <= i < r.len() - 1 implies !same_name(#[trigger] r[i].repo, chat.repo) by {
        assert(r[i] == w[i]);
    }
    assert forall|i: int|
        0 <= i < chats.len() && !same_name(#[trigger] chats[i].repo, chat.repo) implies r.contains(
        chats[i],
    ) by {
        let j = choose|j: int| 0 <= j < w.len() && w[j] == chats[i];
        assert(r[j] == chats[i]);
    }
}

/// An event appended to the stored copy of a transfer is read back: the transfer keeps its
/// key and position, and its last event is the one appended.
pub proof fn law_enqueued_event_is_read_back(
    ts: Seq<TransferModel>,
    key: Seq<char>,
    k: int,
    a: AuthoredModel,
)
    requires
        first_with_key(ts, key, k),
    ensures
        first_with_key(ts.update(k, with_event(ts[k], a)), key, k),
        ts.update(k, with_event(ts[k], a))[k].events.last() == a,
        ts.update(k, with_event(ts[k], a))[k].events.drop_last() == ts[k].events,
{
    let u = ts.update(k, with_event(ts[k], a));
    assert forall|j: int| 0 <= j < k implies transfer_key(#[trigger] u[j].repo, u[j].issue) != key by {
        assert(u[j] == ts[j]);
    }
    assert(u[k].events.drop_last() =~= ts[k].events);
}

proof fn lemma_without_event(outbox: Seq<PendingModel>, event_id: Seq<char>)
    ensures
        forall|i: int|
            0 <= i < without_event(outbox, event_id).len() ==> #[trigger] without_event(
                outbox,
                event_id,
            )[i].authored.event.id != event_id,
        forall|i: int|
            0 <= i < outbox.len() && #[trigger] outbox[i].authored.event.id != event_id
                ==> without_event(outbox, event_id).contains(outbox[i]),
    decreases outbox.len(),
{
    if outbox.len() > 0 {
        let rest = without_event(outbox.drop_last(), event_id);
        lemma_without_event(outbox.drop_last(), event_id);
        assert forall|i: int|
            0 <= i < outbox.len() && #[trigger] outbox[i].authored.event.id != event_id
                implies without_event(outbox, event_id).contains(outbox[i]) by {
            if i < outbox.len() - 1 {
                assert(outbox.drop_last()[i] == outbox[i]);
                let j = choose|j: int| 0 <= j < rest.len() && rest[j] == outbox[i];
                assert(without_event(outbox, event_id)[j] == outbox[i]);
            } else {
                assert(without_event(outbox, event_id)[rest.len() as int] == outbox[i]);
            }
        }
    }
}

/// Acknowledging a published event removes exactly that event from the outbox: nothing with
/// its id remains, and every other queued event stays.
pub proof fn law_acknowledge_removes_only_that_event(outbox: Seq<PendingModel>, event_id: Seq<char>)
    ensures
        forall|i: int|
            0 <= i < without_event(outbox, event_id).len() ==> #[trigger] without_event(
                outbox,
                event_id,
            )[i].authored.event.id != event_id,
        forall|i: int|
            0 <= i < outbox.len() && #[trigger] outbox[i].authored.event.id != event_id
                ==> without_event(outbox, event_id).contains(outbox[i]),
{
    lemma_without_event(outbox, event_id);
}

proof fn lemma_pending_kept(t: TransferModel, outbox: Seq<PendingModel>, n: nat, m: nat)
    requires
        m <= n <= outbox.len(),
        has_event_id(with_pending(t, outbox, m).events, outbox[m - 1].authored.event.id),
        0 < m,
    ensures
        has_event_id(with_pending(t, outbox, n).events, outbox[m - 1].authored.event.id),
    decreases n - m,
{
    if n > m {
        lemma_pending_kept(t, outbox, (n - 1) as nat, m);
        let prev = with_pending(t, outbox, (n - 1) as nat);
        let i = choose|i: int|
            0 <= i < prev.events.len() && #[trigger] prev.events[i].event.id
                == outbox[m - 1].authored.event.id;
        assert(with_pending(t, outbox, n).events[i] == prev.events[i]);
    }
}

proof fn lemma_pending_shape(t: TransferModel, outbox: Seq<PendingModel>, n: nat)
    requires
        n <= outbox.len(),
    ensures
        with_pending(t, outbox, n).repo == t.repo,
        with_pending(t, outbox, n).issue == t.issue,
        with_pending(t, outbox, n).offer == t.offer,
    decreases n,
{
    if n > 0 {
        lemma_pending_shape(t, outbox, (n - 1) as nat);
    }
}

/// Receipts survive a refresh: after a transfer is re-read from GitHub and merged with the
/// outbox, every event queued for it on this device is present in the stored copy.
pub proof fn law_queued_events_survive_refresh(fresh: TransferModel, outbox: Seq<PendingModel>, i: int)
    requires
        0 <= i < outbox.len(),
        outbox[i].repo == fresh.repo,
        outbox[i].issue == fresh.issue,
    ensures
        has_event_id(with_pending(fresh, outbox, outbox.len()).events, outbox[i].authored.event.id),
{
    lemma_pending_shape(fresh, outbox, i as nat);
    let m = with_pending(fresh, outbox, (i + 1) as nat);
    let prev = with_pending(fresh, outbox, i as nat);
    if !has_event_id(prev.events, outbox[i].authored.event.id) {
        assert(m.events[m.events.len() - 1].event.id == outbox[i].authored.event.id);
    } else {
        let j = choose|j: int|
            0 <= j < prev.events.len() && #[trigger] prev.events[j].event.id
                == outbox[i].authored.event.id;
        assert(m.events[j] == prev.events[j]);
    }
    lemma_pending_kept(fresh, outbox, outbox.len(), (i + 1) as nat);
}

proof fn lemma_without_key(ts: Seq<TransferModel>, key: Seq<char>)
    ensures
        forall|i: int|
            0 <= i < without_key(ts, key).len() ==> transfer_key(
                #[trigger] without_key(ts, key)[i].repo,
                without_key(ts, key)[i].issue,
            ) != key,
    decreases ts.len(),
{
    if ts.len() > 0 {
        lemma_without_key(ts.drop_last(), key);
        let rest = without_key(ts.drop_last(), key);
        let w = without_key(ts, key);
        assert forall|i: int| 0 <= i < w.len() implies transfer_key(#[trigger] w[i].repo, w[i].issue)
            != key by {
            if i < rest.len() {
                assert(w[i] == rest[i]);
            }
        }
    }
}

/// After a refresh the transfer is stored once: no other stored transfer has its key.
pub proof fn law_refresh_stores_one_copy(ts: Seq<TransferModel>, key: Seq<char>, fresh: TransferModel)
    ensures
        forall|i: int|
            0 <= i < without_key(ts, key).push(fresh).len() - 1 ==> transfer_key(
                #[trigger] without_key(ts, key).push(fresh)[i].repo,
                without_key(ts, key).push(fresh)[i].issue,
            ) != key,
        without_key(ts, key).push(fresh).last() == fresh,
{
    lemma_without_key(ts, key);
    let w = without_key(ts, key);
    assert forall|i: int| 0 <= i < w.push(fresh).len() - 1 implies transfer_key(
        #[trigger] w.push(fresh)[i].repo,
        w.push(fresh)[i].issue,
    ) != key by {
        assert(w.push(fresh)[i] == w[i]);
    }
}

} // verus!
