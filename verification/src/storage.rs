//! The device's local state: history, receipts waiting to be published, running deliveries,
//! and the operations that keep them consistent.
use crate::model::{
    authored, deliveries_state, fresh_id, id, is_open, parsed_ids, uuid_parses, strings, transfer_key,
    uuid_text, AuthoredEvent, AuthoredModel, Chat, ChatModel, DeliveryModel, Event, SourceFile,
    SourceFileModel, Status, Transfer, TransferModel, User, UserModel,
};
use crate::text::{equal_text, same_name, eq_ignore_case};
use vstd::prelude::*;

verus! {

/// A status event that is saved locally and still has to be published.
#[derive(Clone, Debug)]
pub struct PendingEvent {
    pub repo: String,
    pub issue: u64,
    pub authored: AuthoredEvent,
}

pub struct PendingModel {
    pub repo: Seq<char>,
    pub issue: u64,
    pub authored: AuthoredModel,
}

impl View for PendingEvent {
    type V = PendingModel;

    open spec fn view(&self) -> PendingModel {
        PendingModel { repo: self.repo@, issue: self.issue, authored: self.authored@ }
    }
}

impl PendingEvent {
    pub fn duplicate(&self) -> (r: PendingEvent)
        ensures
            r@ == self@,
    {
        PendingEvent { repo: self.repo.clone(), issue: self.issue, authored: self.authored.duplicate() }
    }
}

/// A delivery that this device has started and not yet reported on.
#[derive(Clone, Debug)]
pub struct Inflight {
    pub key: String,
    pub recipient: String,
    pub attempt: u32,
}

pub struct InflightModel {
    pub key: Seq<char>,
    pub recipient: Seq<char>,
    pub attempt: u32,
}

impl View for Inflight {
    type V = InflightModel;

    open spec fn view(&self) -> InflightModel {
        InflightModel { key: self.key@, recipient: self.recipient@, attempt: self.attempt }
    }
}

/// The sources selected for a transfer this device sent, by transfer key.
#[derive(Clone, Debug)]
pub struct SourceList {
    pub key: String,
    pub files: Vec<SourceFile>,
}

pub struct SourceListModel {
    pub key: Seq<char>,
    pub files: Seq<SourceFileModel>,
}

impl View for SourceList {
    type V = SourceListModel;

    open spec fn view(&self) -> SourceListModel {
        SourceListModel { key: self.key@, files: self.files@.map_values(|f: SourceFile| f@) }
    }
}

/// Everything this device remembers between runs.
#[derive(Clone, Debug)]
pub struct Store {
    pub device_id: String,
    pub device_name: String,
    pub user: Option<User>,
    pub chats: Vec<Chat>,
    pub transfers: Vec<Transfer>,
    pub sources: Vec<SourceList>,
    pub outbox: Vec<PendingEvent>,
    pub notified: Vec<String>,
    pub last_sync: Option<u64>,
    pub inflight: Vec<Inflight>,
    /// Saved usernames of the people this account shares with.
    pub contacts: Vec<String>,
}

pub struct StoreModel {
    pub device_id: Seq<char>,
    pub device_name: Seq<char>,
    pub user: Option<UserModel>,
    pub chats: Seq<ChatModel>,
    pub transfers: Seq<TransferModel>,
    pub sources: Seq<SourceListModel>,
    pub outbox: Seq<PendingModel>,
    pub notified: Seq<Seq<char>>,
    pub last_sync: Option<u64>,
    pub inflight: Seq<InflightModel>,
    pub contacts: Seq<Seq<char>>,
}

pub open spec fn chats_of(v: Seq<Chat>) -> Seq<ChatModel> {
    v.map_values(|c: Chat| c@)
}

pub open spec fn transfers_of(v: Seq<Transfer>) -> Seq<TransferModel> {
    v.map_values(|t: Transfer| t@)
}

pub open spec fn pending_of(v: Seq<PendingEvent>) -> Seq<PendingModel> {
    v.map_values(|p: PendingEvent| p@)
}

pub open spec fn inflight_of(v: Seq<Inflight>) -> Seq<InflightModel> {
    v.map_values(|j: Inflight| j@)
}

impl View for Store {
    type V = StoreModel;

    open spec fn view(&self) -> StoreModel {
        StoreModel {
            device_id: self.device_id@,
            device_name: self.device_name@,
            user: match self.user {
                Some(u) => Some(u@),
                None => None,
            },
            chats: chats_of(self.chats@),
            transfers: transfers_of(self.transfers@),
            sources: self.sources@.map_values(|s: SourceList| s@),
            outbox: pending_of(self.outbox@),
            notified: strings(self.notified@),
            last_sync: self.last_sync,
            inflight: inflight_of(self.inflight@),
            contacts: strings(self.contacts@),
        }
    }
}

/// The host name of this machine (`hostname::get()`, lossily converted to text, empty when
/// it cannot be read). Nothing is stated of the value: it depends on the machine.
#[verifier::external_body]
fn host_name() -> String {
    hostname::get().unwrap_or_default().to_string_lossy().into_owned()
}

/// At most the first `n` characters of `s`.
pub fn first_chars(s: &str, n: usize) -> (r: String)
    ensures
        r@ == if s@.len() <= n { s@ } else { s@.subrange(0, n as int) },
{
    let len = s.unicode_len();
    if len <= n {
        let r = crate::text::slice_chars(s, 0, len);
        assert(s@.subrange(0, len as int) =~= s@);
        r
    } else {
        crate::text::slice_chars(s, 0, n)
    }
}

/// A store with nothing in it but the device's identity.
pub open spec fn blank_store(device_id: Seq<char>, device_name: Seq<char>) -> StoreModel {
    StoreModel {
        device_id,
        device_name,
        user: None,
        chats: Seq::empty(),
        transfers: Seq::empty(),
        sources: Seq::empty(),
        outbox: Seq::empty(),
        notified: Seq::empty(),
        last_sync: None,
        inflight: Seq::empty(),
        contacts: Seq::empty(),
    }
}

impl Store {
    /// A store with nothing in it but the device's identity.
    pub fn blank(device_id: String, device_name: String) -> (r: Store)
        ensures
            r@ == blank_store(device_id@, device_name@),
            store_wf(r@),
    {
        let r = Store {
            device_id,
            device_name,
            user: None,
            chats: Vec::new(),
            transfers: Vec::new(),
            sources: Vec::new(),
            outbox: Vec::new(),
            notified: Vec::new(),
            last_sync: None,
            inflight: Vec::new(),
            contacts: Vec::new(),
        };
        assert(r@.chats =~= Seq::empty());
        assert(r@.transfers =~= Seq::empty());
        assert(r@.sources =~= Seq::empty());
        assert(r@.outbox =~= Seq::empty());
        assert(r@.notified =~= Seq::empty());
        assert(r@.inflight =~= Seq::empty());
        assert(r@.contacts =~= Seq::empty());
        r
    }
}

impl Default for Store {
    /// A fresh store for a new device: a random device id and the machine's host name,
    /// cut to 100 characters.
    fn default() -> (r: Store)
        ensures
            uuid_text(r@.device_id),
            r@.device_name.len() <= 100,
            r@ == blank_store(r@.device_id, r@.device_name),
            store_wf(r@),
    {
        let device = id();
        let host = host_name();
        let name = first_chars(host.as_str(), 100);
        Store::blank(device, name)
    }
}

/// The inflight record `j` is about delivery `d` of the transfer with key `key`.
pub open spec fn tracks(j: InflightModel, key: Seq<char>, d: DeliveryModel) -> bool {
    j.key == key && j.recipient == d.recipient && j.attempt == d.attempt
}

/// A delivery that this device was running, or that it sent, and that never reported an end.
pub open spec fn interrupted(s: StoreModel, t: TransferModel, d: DeliveryModel) -> bool {
    &&& (t.offer.source_device == s.device_id || exists|j: int|
        0 <= j < s.inflight.len() && tracks(
            #[trigger] s.inflight[j],
            transfer_key(t.repo, t.issue),
            d,
        ))
    &&& (is_open(d.status) || d.status == Status::Expired)
}

/// The deliveries among `ds` that were interrupted, in order.
pub open spec fn interrupted_among(s: StoreModel, t: TransferModel, ds: Seq<DeliveryModel>) -> Seq<
    DeliveryModel,
>
    decreases ds.len(),
{
    if ds.len() == 0 {
        Seq::empty()
    } else {
        let rest = interrupted_among(s, t, ds.drop_last());
        if interrupted(s, t, ds.last()) {
            rest.push(ds.last())
        } else {
            rest
        }
    }
}

/// `a` reports delivery `d` as failed, published by `login` at time `at` under a fresh id.
pub open spec fn failure_report(a: AuthoredModel, login: Seq<char>, d: DeliveryModel, at: u64) -> bool {
    &&& a.author == login
    &&& uuid_text(a.event.id)
    &&& uuid_parses(a.event.id)
    &&& a.event.recipient == d.recipient
    &&& a.event.attempt == d.attempt
    &&& a.event.status == Status::Failed
    &&& a.event.at == at
    &&& a.event.code is None
    &&& a.event.expires_at is None
}

/// Transfer `t` after its interrupted deliveries were reported failed.
pub open spec fn recovered_transfer(
    s: StoreModel,
    t: TransferModel,
    u: TransferModel,
    login: Seq<char>,
    at: u64,
) -> bool {
    let failed = interrupted_among(s, t, deliveries_state(t, parsed_ids(t), at));
    &&& u.repo == t.repo
    &&& u.issue == t.issue
    &&& u.offer == t.offer
    &&& u.events.len() == t.events.len() + failed.len()
    &&& u.events.subrange(0, t.events.len() as int) == t.events
    &&& forall|j: int|
        0 <= j < failed.len() ==> failure_report(
            #[trigger] u.events[t.events.len() + j],
            login,
            failed[j],
            at,
        )
}

/// The events added to a transfer, queued for publication.
pub open spec fn queued(t: TransferModel, u: TransferModel) -> Seq<PendingModel> {
    u.events.subrange(t.events.len() as int, u.events.len() as int).map_values(
        |a: AuthoredModel| PendingModel { repo: t.repo, issue: t.issue, authored: a },
    )
}

/// The events added to the first `n` transfers, queued in transfer order.
pub open spec fn all_queued(ts: Seq<TransferModel>, us: Seq<TransferModel>, n: nat) -> Seq<PendingModel>
    decreases n,
{
    if n == 0 {
        Seq::empty()
    } else {
        all_queued(ts, us, (n - 1) as nat) + queued(ts[n - 1], us[n - 1])
    }
}

/// The store after recovery at time `at`: with a signed-in account, every interrupted
/// delivery gets a failure report, queued for publication, and no delivery is left running.
pub open spec fn recovered(s: StoreModel, r: StoreModel, at: u64) -> bool {
    match s.user {
        None => r == s,
        Some(u) => {
            &&& r.device_id == s.device_id
            &&& r.device_name == s.device_name
            &&& r.user == s.user
            &&& r.chats == s.chats
            &&& r.sources == s.sources
            &&& r.notified == s.notified
            &&& r.last_sync == s.last_sync
            &&& r.contacts == s.contacts
            &&& r.inflight.len() == 0
            &&& r.transfers.len() == s.transfers.len()
            &&& forall|k: int|
                0 <= k < s.transfers.len() ==> recovered_transfer(
                    s,
                    #[trigger] s.transfers[k],
                    r.transfers[k],
                    u.login,
                    at,
                )
            &&& r.outbox == s.outbox + all_queued(s.transfers, r.transfers, s.transfers.len())
        },
    }
}

fn is_tracked(inflight: &Vec<Inflight>, key: &String, d: &crate::model::Delivery) -> (r: bool)
    ensures
        r == exists|j: int|
            0 <= j < inflight@.len() && tracks(#[trigger] inflight_of(inflight@)[j], key@, d@),
{
    let mut i: usize = 0;
    while i < inflight.len()
        invariant
            0 <= i <= inflight.len(),
            forall|j: int| 0 <= j < i ==> !tracks(#[trigger] inflight_of(inflight@)[j], key@, d@),
        decreases inflight.len() - i,
    {
        assert(inflight_of(inflight@)[i as int] == inflight@[i as int]@);
        if inflight[i].key == *key && inflight[i].recipient == d.recipient && inflight[i].attempt
            == d.attempt {
            return true;
        }
        i += 1;
    }
    false
}

/// Reports every interrupted delivery of `t` as failed; the new events are also returned,
/// for the outbox.
fn recover_transfer(s: &Store, t: &Transfer, login: &String, at: u64) -> (r: (Transfer, Vec<PendingEvent>))
    ensures
        recovered_transfer(s@, t@, r.0@, login@, at),
        pending_of(r.1@) == queued(t@, r.0@),
{
    let ds = t.deliveries(at);
    let ghost all = deliveries_state(t@, parsed_ids(t@), at);
    let key = t.key();
    let from_here = equal_text(t.offer.source_device.as_str(), s.device_id.as_str());
    let mut u = t.duplicate();
    let mut out: Vec<PendingEvent> = Vec::new();
    let mut i: usize = 0;
    while i < ds.len()
        invariant
            crate::model::deliveries_of(ds@) == all,
            0 <= i <= ds.len(),
            key@ == transfer_key(t@.repo, t@.issue),
            from_here == (t@.offer.source_device == s@.device_id),
            u@.repo == t@.repo,
            u@.issue == t@.issue,
            u@.offer == t@.offer,
            u@.events.len() == t@.events.len() + interrupted_among(s@, t@, all.take(i as int)).len(),
            u@.events.subrange(0, t@.events.len() as int) == t@.events,
            forall|j: int|
                0 <= j < interrupted_among(s@, t@, all.take(i as int)).len() ==> failure_report(
                    #[trigger] u@.events[t@.events.len() + j],
                    login@,
                    interrupted_among(s@, t@, all.take(i as int))[j],
                    at,
                ),
            pending_of(out@) == queued(t@, u@),
        decreases ds.len() - i,
    {
        let d = &ds[i];
        let ghost dm = all[i as int];
        assert(d@ == dm);
        assert(all.take(i + 1).drop_last() =~= all.take(i as int));
        assert(all.take(i + 1).last() == dm);
        let tracked_here = is_tracked(&s.inflight, &key, d);
        let unfinished = d.status == Status::Waiting || d.status == Status::Seen || d.status
            == Status::Receiving || d.status == Status::Expired;
        proof {
            assert(tracked_here == exists|j: int|
                0 <= j < s@.inflight.len() && tracks(
                    #[trigger] s@.inflight[j],
                    transfer_key(t@.repo, t@.issue),
                    dm,
                ));
        }
        if (from_here || tracked_here) && unfinished {
            let report = AuthoredEvent {
                author: login.clone(),
                event: Event {
                    id: fresh_id(),
                    recipient: d.recipient.clone(),
                    attempt: d.attempt,
                    status: Status::Failed,
                    at,
                    code: None,
                    expires_at: None,
                },
            };
            let ghost old_events = u@.events;
            let ghost old_out = pending_of(out@);
            out.push(PendingEvent { repo: t.repo.clone(), issue: t.issue, authored: report.duplicate() });
            u.events.push(report);
            proof {
                assert(u@.events =~= old_events.push(report@));
                assert(pending_of(out@) =~= old_out.push(PendingModel { repo: t@.repo, issue: t@.issue, authored: report@ }));
                assert(queued(t@, u@) =~= queued(t@, u@).take(queued(t@, u@).len() - 1).push(
                    PendingModel { repo: t@.repo, issue: t@.issue, authored: report@ },
                ));
                assert(u@.events.subrange(t@.events.len() as int, old_events.len() as int)
                    =~= old_events.subrange(t@.events.len() as int, old_events.len() as int));
                assert(queued(t@, u@).take(queued(t@, u@).len() - 1) =~= old_out);
                assert(u@.events.subrange(0, t@.events.len() as int) =~= old_events.subrange(
                    0,
                    t@.events.len() as int,
                ));
            }
        }
        i += 1;
    }
    assert(all.take(ds.len() as int) =~= all);
    (u, out)
}

/// Recovery at time `at`, after the application stopped: deliveries that this device was
/// running or had sent and that never reported an end are reported failed, and the list of
/// running deliveries is cleared.
pub fn recover_at(store: &mut Store, at: u64)
    ensures
        recovered(old(store)@, final(store)@, at),
{
    let login = match &store.user {
        None => {
            return;
        },
        Some(u) => u.login.clone(),
    };
    let mut updated: Vec<Transfer> = Vec::new();
    let mut added: Vec<PendingEvent> = Vec::new();
    let mut k: usize = 0;
    while k < store.transfers.len()
        invariant
            store@ == old(store)@,
            old(store)@.user matches Some(u) && u.login == login@,
            0 <= k <= store.transfers.len(),
            updated.len() == k,
            forall|j: int|
                0 <= j < k ==> recovered_transfer(
                    store@,
                    #[trigger] store@.transfers[j],
                    transfers_of(updated@)[j],
                    login@,
                    at,
                ),
            pending_of(added@) == all_queued(store@.transfers, transfers_of(updated@), k as nat),
        decreases store.transfers.len() - k,
    {
        let (u, out) = recover_transfer(store, &store.transfers[k], &login, at);
        let ghost before_updated = transfers_of(updated@);
        let ghost before_added = pending_of(added@);
        updated.push(u);
        let mut j: usize = 0;
        while j < out.len()
            invariant
                0 <= j <= out.len(),
                pending_of(added@) == before_added + pending_of(out@).take(j as int),
            decreases out.len() - j,
        {
            let ghost prev = pending_of(added@);
            added.push(out[j].duplicate());
            assert(pending_of(added@) =~= prev.push(out@[j as int]@));
            assert(pending_of(out@).take(j + 1) =~= pending_of(out@).take(j as int).push(
                out@[j as int]@,
            ));
            j += 1;
        }
        proof {
            assert(pending_of(out@).take(out.len() as int) =~= pending_of(out@));
            assert(transfers_of(updated@) =~= before_updated.push(u@));
            assert(store@.transfers[k as int] == store.transfers@[k as int]@);
            assert forall|j: int| 0 <= j < k + 1 implies recovered_transfer(
                store@,
                #[trigger] store@.transfers[j],
                transfers_of(updated@)[j],
                login@,
                at,
            ) by {
                if j < k {
                    assert(transfers_of(updated@)[j] == before_updated[j]);
                }
            }
            lemma_all_queued_prefix(store@.transfers, before_updated, transfers_of(updated@), k as nat);
        }
        k += 1;
    }
    let mut outbox: Vec<PendingEvent> = Vec::new();
    std::mem::swap(&mut outbox, &mut store.outbox);
    let ghost start = pending_of(outbox@);
    let mut j: usize = 0;
    while j < added.len()
        invariant
            0 <= j <= added.len(),
            pending_of(outbox@) == start + pending_of(added@).take(j as int),
        decreases added.len() - j,
    {
        let ghost prev = pending_of(outbox@);
        outbox.push(added[j].duplicate());
        assert(pending_of(outbox@) =~= prev.push(added@[j as int]@));
        assert(pending_of(added@).take(j + 1) =~= pending_of(added@).take(j as int).push(
            added@[j as int]@,
        ));
        j += 1;
    }
    assert(pending_of(added@).take(added.len() as int) =~= pending_of(added@));
    store.outbox = outbox;
    store.transfers = updated;
    store.inflight = Vec::new();
    assert(store@.inflight =~= Seq::empty());
}

proof fn lemma_all_queued_prefix(
    ts: Seq<TransferModel>,
    us: Seq<TransferModel>,
    vs: Seq<TransferModel>,
    n: nat,
)
    requires
        n < vs.len(),
        n <= us.len(),
        n < ts.len(),
        forall|j: int| 0 <= j < n ==> us[j] == vs[j],
    ensures
        all_queued(ts, vs, n + 1) == all_queued(ts, us, n) + queued(ts[n as int], vs[n as int]),
    decreases n,
{
    lemma_all_queued_same(ts, us, vs, n);
}

proof fn lemma_all_queued_same(ts: Seq<TransferModel>, us: Seq<TransferModel>, vs: Seq<TransferModel>, n: nat)
    requires
        n <= us.len(),
        n <= vs.len(),
        n <= ts.len(),
        forall|j: int| 0 <= j < n ==> us[j] == vs[j],
    ensures
        all_queued(ts, vs, n) == all_queued(ts, us, n),
    decreases n,
{
    if n > 0 {
        lemma_all_queued_same(ts, us, vs, (n - 1) as nat);
    }
}

/// Recovery after a restart, stamped with the current time.
pub fn recover(store: &mut Store)
    ensures
        exists|at: u64| recovered(old(store)@, final(store)@, at),
{
    let at = crate::model::now();
    recover_at(store, at);
}

/// Message when an action needs a signed-in account.
pub const NOT_CONNECTED: &'static str = "Connect GitHub first.";

/// Message when a transfer is missing from the local history.
pub const TRANSFER_MISSING: &'static str = "Transfer not found. Refresh this chat.";

/// Message when a receipt targets a transfer that is no longer stored.
pub const TRANSFER_GONE: &'static str = "Transfer no longer exists locally";

/// `chats` without those whose repository matches `repo`, ignoring ASCII case.
pub open spec fn without_repo(chats: Seq<ChatModel>, repo: Seq<char>) -> Seq<ChatModel>
    decreases chats.len(),
{
    if chats.len() == 0 {
        Seq::empty()
    } else {
        let rest = without_repo(chats.drop_last(), repo);
        if same_name(chats.last().repo, repo) {
            rest
        } else {
            rest.push(chats.last())
        }
    }
}

/// The index of the first transfer with key `key`, if any.
pub open spec fn first_with_key(ts: Seq<TransferModel>, key: Seq<char>, k: int) -> bool {
    &&& 0 <= k < ts.len()
    &&& transfer_key(ts[k].repo, ts[k].issue) == key
    &&& forall|j: int| 0 <= j < k ==> transfer_key(#[trigger] ts[j].repo, ts[j].issue) != key
}

pub open spec fn has_key(ts: Seq<TransferModel>, key: Seq<char>) -> bool {
    exists|k: int| 0 <= k < ts.len() && transfer_key(#[trigger] ts[k].repo, ts[k].issue) == key
}

/// `t` with `a` appended to its events.
pub open spec fn with_event(t: TransferModel, a: AuthoredModel) -> TransferModel {
    TransferModel { repo: t.repo, issue: t.issue, offer: t.offer, events: t.events.push(a) }
}

/// `outbox` without the entries whose event has id `event_id`.
pub open spec fn without_event(outbox: Seq<PendingModel>, event_id: Seq<char>) -> Seq<PendingModel>
    decreases outbox.len(),
{
    if outbox.len() == 0 {
        Seq::empty()
    } else {
        let rest = without_event(outbox.drop_last(), event_id);
        if outbox.last().authored.event.id == event_id {
            rest
        } else {
            rest.push(outbox.last())
        }
    }
}

/// Some event of `events` has id `event_id`.
pub open spec fn has_event_id(events: Seq<AuthoredModel>, event_id: Seq<char>) -> bool {
    exists|i: int| 0 <= i < events.len() && #[trigger] events[i].event.id == event_id
}

/// `t` with the queued events of the first `n` outbox entries that belong to it and that it
/// does not hold yet, in outbox order.
pub open spec fn with_pending(t: TransferModel, outbox: Seq<PendingModel>, n: nat) -> TransferModel
    decreases n,
{
    if n == 0 {
        t
    } else {
        let m = with_pending(t, outbox, (n - 1) as nat);
        let p = outbox[n - 1];
        if p.repo == m.repo && p.issue == m.issue && !has_event_id(m.events, p.authored.event.id) {
            with_event(m, p.authored)
        } else {
            m
        }
    }
}

/// `ts` without the transfers whose key is `key`.
pub open spec fn without_key(ts: Seq<TransferModel>, key: Seq<char>) -> Seq<TransferModel>
    decreases ts.len(),
{
    if ts.len() == 0 {
        Seq::empty()
    } else {
        let rest = without_key(ts.drop_last(), key);
        if transfer_key(ts.last().repo, ts.last().issue) == key {
            rest
        } else {
            rest.push(ts.last())
        }
    }
}

/// `list` without the records of delivery (`key`, `recipient`, `attempt`).
pub open spec fn without_job(
    list: Seq<InflightModel>,
    key: Seq<char>,
    recipient: Seq<char>,
    attempt: u32,
) -> Seq<InflightModel>
    decreases list.len(),
{
    if list.len() == 0 {
        Seq::empty()
    } else {
        let rest = without_job(list.drop_last(), key, recipient, attempt);
        let j = list.last();
        if j.key == key && j.recipient == recipient && j.attempt == attempt {
            rest
        } else {
            rest.push(j)
        }
    }
}

/// `s` with only its chats replaced.
pub open spec fn with_chats(s: StoreModel, chats: Seq<ChatModel>) -> StoreModel {
    StoreModel { chats, ..s }
}

impl Store {
    /// The signed-in account's login.
    pub fn login(&self) -> (r: Result<String, String>)
        ensures
            match self@.user {
                Some(u) => r matches Ok(l) && l@ == u.login,
                None => r matches Err(e) && e@ == NOT_CONNECTED@,
            },
    {
        match &self.user {
            Some(u) => Ok(u.login.clone()),
            None => Err(String::from_str(NOT_CONNECTED)),
        }
    }

    /// Adds `chat`, replacing any chat stored for the same repository.
    pub fn upsert_chat(&mut self, chat: Chat)
        ensures
            final(self)@ == with_chats(old(self)@, without_repo(old(self)@.chats, chat@.repo).push(chat@)),
    {
        let ghost target = chat@.repo;
        let mut kept: Vec<Chat> = Vec::new();
        let mut i: usize = 0;
        let ghost all = chats_of(self.chats@);
        while i < self.chats.len()
            invariant
                all == chats_of(self.chats@),
                0 <= i <= self.chats.len(),
                chats_of(kept@) == without_repo(all.take(i as int), target),
                target == chat@.repo,
            decreases self.chats.len() - i,
        {
            assert(all.take(i + 1).drop_last() =~= all.take(i as int));
            assert(all.take(i + 1).last() == self.chats@[i as int]@);
            if !eq_ignore_case(self.chats[i].repo.as_str(), chat.repo.as_str()) {
                let ghost before = chats_of(kept@);
                kept.push(self.chats[i].duplicate());
                assert(chats_of(kept@) =~= before.push(self.chats@[i as int]@));
            }
            i += 1;
        }
        assert(all.take(self.chats.len() as int) =~= all);
        let ghost before = chats_of(kept@);
        kept.push(chat);
        assert(chats_of(kept@) =~= before.push(chat@));
        self.chats = kept;
    }

    /// Appends `event`, authored by the signed-in account, to the stored copy of `transfer`
    /// and queues it for publication.
    pub fn enqueue(&mut self, transfer: &Transfer, event: Event) -> (r: Result<(), String>)
        ensures
            old(self)@.user is None ==> (r matches Err(e) && e@ == NOT_CONNECTED@)
                && final(self)@ == old(self)@,
            old(self)@.user is Some && !has_key(
                old(self)@.transfers,
                transfer_key(transfer@.repo, transfer@.issue),
            ) ==> (r matches Err(e) && e@ == TRANSFER_GONE@) && final(self)@ == old(self)@,
            r is Ok ==> old(self)@.user is Some && exists|k: int|
                first_with_key(old(self)@.transfers, transfer_key(transfer@.repo, transfer@.issue), k)
                    && final(self)@ == (StoreModel {
                    transfers: old(self)@.transfers.update(
                        k,
                        with_event(
                            old(self)@.transfers[k],
                            AuthoredModel { author: old(self)@.user->0.login, event: event@ },
                        ),
                    ),
                    outbox: old(self)@.outbox.push(
                        PendingModel {
                            repo: transfer@.repo,
                            issue: transfer@.issue,
                            authored: AuthoredModel {
                                author: old(self)@.user->0.login,
                                event: event@,
                            },
                        },
                    ),
                    ..old(self)@
                }),
            old(self)@.user is Some && has_key(
                old(self)@.transfers,
                transfer_key(transfer@.repo, transfer@.issue),
            ) ==> r is Ok,
    {
        let login = match self.login() {
            Ok(l) => l,
            Err(e) => {
                return Err(e);
            },
        };
        let key = transfer.key();
        let k = match self.position(key.as_str()) {
            Some(k) => k,
            None => {
                return Err(String::from_str(TRANSFER_GONE));
            },
        };
        assert(self@.transfers[k as int] == self.transfers@[k as int]@);
        let authored = AuthoredEvent { author: login, event };
        let pending = PendingEvent {
            repo: transfer.repo.clone(),
            issue: transfer.issue,
            authored: authored.duplicate(),
        };
        let mut t = self.transfers[k].duplicate();
        t.events.push(authored);
        assert(t@.events =~= self@.transfers[k as int].events.push(authored@));
        let ghost before = self@;
        self.transfers.set(k, t);
        self.outbox.push(pending);
        assert(transfers_of(self.transfers@) =~= before.transfers.update(k as int, t@));
        assert(pending_of(self.outbox@) =~= before.outbox.push(pending@));
        Ok(())
    }

    /// Drops the queued event with id `event_id` once it is published.
    pub fn acknowledge(&mut self, event_id: &String)
        ensures
            final(self)@ == (StoreModel { outbox: without_event(old(self)@.outbox, event_id@), ..old(self)@ }),
    {
        let ghost all = pending_of(self.outbox@);
        let mut kept: Vec<PendingEvent> = Vec::new();
        let mut i: usize = 0;
        while i < self.outbox.len()
            invariant
                all == pending_of(self.outbox@),
                0 <= i <= self.outbox.len(),
                pending_of(kept@) == without_event(all.take(i as int), event_id@),
            decreases self.outbox.len() - i,
        {
            assert(all.take(i + 1).drop_last() =~= all.take(i as int));
            assert(all.take(i + 1).last() == self.outbox@[i as int]@);
            if self.outbox[i].authored.event.id != *event_id {
                let ghost before = pending_of(kept@);
                kept.push(self.outbox[i].duplicate());
                assert(pending_of(kept@) =~= before.push(self.outbox@[i as int]@));
            }
            i += 1;
        }
        assert(all.take(self.outbox.len() as int) =~= all);
        self.outbox = kept;
    }

    /// The index of the first stored transfer with key `key`.
    pub fn position(&self, key: &str) -> (r: Option<usize>)
        ensures
            match r {
                Some(k) => first_with_key(self@.transfers, key@, k as int),
                None => !has_key(self@.transfers, key@),
            },
    {
        let mut k: usize = 0;
        while k < self.transfers.len()
            invariant
                0 <= k <= self.transfers.len(),
                forall|j: int|
                    0 <= j < k ==> transfer_key(#[trigger] self@.transfers[j].repo, self@.transfers[j].issue)
                        != key@,
            decreases self.transfers.len() - k,
        {
            assert(self@.transfers[k as int] == self.transfers@[k as int]@);
            if equal_text(self.transfers[k].key().as_str(), key) {
                return Some(k);
            }
            k += 1;
        }
        None
    }

    /// A copy of the stored transfer with key `key`.
    pub fn transfer(&self, key: &str) -> (r: Result<Transfer, String>)
        ensures
            match r {
                Ok(t) => exists|k: int| first_with_key(self@.transfers, key@, k) && t@ == self@.transfers[k],
                Err(e) => !has_key(self@.transfers, key@) && e@ == TRANSFER_MISSING@,
            },
    {
        match self.position(key) {
            Some(k) => {
                assert(self@.transfers[k as int] == self.transfers@[k as int]@);
                Ok(self.transfers[k].duplicate())
            },
            None => Err(String::from_str(TRANSFER_MISSING)),
        }
    }

    /// Replaces the stored transfer with key `key` by `fresh`, after adding to `fresh` the
    /// queued events of this device that it does not show yet. Returns what was stored.
    pub fn refresh(&mut self, key: &str, fresh: Transfer) -> (r: Transfer)
        ensures
            r@ == with_pending(fresh@, old(self)@.outbox, old(self)@.outbox.len()),
            final(self)@ == (StoreModel {
                transfers: without_key(old(self)@.transfers, key@).push(r@),
                ..old(self)@
            }),
    {
        let mut fresh = fresh;
        let ghost start = fresh@;
        let mut i: usize = 0;
        while i < self.outbox.len()
            invariant
                0 <= i <= self.outbox.len(),
                fresh@ == with_pending(start, self@.outbox, i as nat),
            decreases self.outbox.len() - i,
        {
            assert(self@.outbox[i as int] == self.outbox@[i as int]@);
            let p = &self.outbox[i];
            if p.repo == fresh.repo && p.issue == fresh.issue && !holds_event(&fresh.events, &p.authored.event.id) {
                let ghost before = fresh@;
                fresh.events.push(p.authored.duplicate());
                assert(fresh@.events =~= before.events.push(p@.authored));
            }
            i += 1;
        }
        let ghost all = transfers_of(self.transfers@);
        let mut kept: Vec<Transfer> = Vec::new();
        let mut k: usize = 0;
        while k < self.transfers.len()
            invariant
                all == transfers_of(self.transfers@),
                0 <= k <= self.transfers.len(),
                transfers_of(kept@) == without_key(all.take(k as int), key@),
            decreases self.transfers.len() - k,
        {
            assert(all.take(k + 1).drop_last() =~= all.take(k as int));
            assert(all.take(k + 1).last() == self.transfers@[k as int]@);
            if !equal_text(self.transfers[k].key().as_str(), key) {
                let ghost before = transfers_of(kept@);
                kept.push(self.transfers[k].duplicate());
                assert(transfers_of(kept@) =~= before.push(self.transfers@[k as int]@));
            }
            k += 1;
        }
        assert(all.take(self.transfers.len() as int) =~= all);
        let ghost before = transfers_of(kept@);
        kept.push(fresh.duplicate());
        assert(transfers_of(kept@) =~= before.push(fresh@));
        self.transfers = kept;
        fresh
    }

    /// Records that this device started delivery (`key`, `recipient`, `attempt`).
    pub fn track(&mut self, key: String, recipient: String, attempt: u32)
        ensures
            final(self)@ == (StoreModel {
                inflight: old(self)@.inflight.push(InflightModel { key: key@, recipient: recipient@, attempt }),
                ..old(self)@
            }),
    {
        let ghost before = inflight_of(self.inflight@);
        let j = Inflight { key, recipient, attempt };
        self.inflight.push(j);
        assert(inflight_of(self.inflight@) =~= before.push(j@));
    }

    /// Forgets delivery (`key`, `recipient`, `attempt`) once it has reported its end.
    pub fn untrack(&mut self, key: &String, recipient: &String, attempt: u32)
        ensures
            final(self)@ == (StoreModel {
                inflight: without_job(old(self)@.inflight, key@, recipient@, attempt),
                ..old(self)@
            }),
    {
        let ghost all = inflight_of(self.inflight@);
        let mut kept: Vec<Inflight> = Vec::new();
        let mut i: usize = 0;
        while i < self.inflight.len()
            invariant
                all == inflight_of(self.inflight@),
                0 <= i <= self.inflight.len(),
                inflight_of(kept@) == without_job(all.take(i as int), key@, recipient@, attempt),
            decreases self.inflight.len() - i,
        {
            assert(all.take(i + 1).drop_last() =~= all.take(i as int));
            assert(all.take(i + 1).last() == self.inflight@[i as int]@);
            let j = &self.inflight[i];
            if !(j.key == *key && j.recipient == *recipient && j.attempt == attempt) {
                let ghost before = inflight_of(kept@);
                kept.push(Inflight { key: j.key.clone(), recipient: j.recipient.clone(), attempt: j.attempt });
                assert(inflight_of(kept@) =~= before.push(self.inflight@[i as int]@));
            }
            i += 1;
        }
        assert(all.take(self.inflight.len() as int) =~= all);
        self.inflight = kept;
    }
}

/// Whether some event of `events` has id `event_id`.
pub fn holds_event(events: &Vec<AuthoredEvent>, event_id: &String) -> (r: bool)
    ensures
        r == has_event_id(authored(events@), event_id@),
{
    let mut i: usize = 0;
    while i < events.len()
        invariant
            0 <= i <= events.len(),
            forall|j: int| 0 <= j < i ==> #[trigger] authored(events@)[j].event.id != event_id@,
        decreases events.len() - i,
    {
        assert(authored(events@)[i as int] == events@[i as int]@);
        if events[i].event.id == *event_id {
            assert(authored(events@)[i as int].event.id == event_id@);
            return true;
        }
        i += 1;
    }
    false
}

/// `lists` without the list kept under `key`.
pub open spec fn without_list(lists: Seq<SourceListModel>, key: Seq<char>) -> Seq<SourceListModel>
    decreases lists.len(),
{
    if lists.len() == 0 {
        Seq::empty()
    } else {
        let rest = without_list(lists.drop_last(), key);
        if lists.last().key == key {
            rest
        } else {
            rest.push(lists.last())
        }
    }
}

/// No two kept lists share a key.
pub open spec fn unique_list_keys(lists: Seq<SourceListModel>) -> bool {
    forall|i: int, j: int| 0 <= i < j < lists.len() ==> #[trigger] lists[i].key != #[trigger] lists[j].key
}

/// Some list of `lists` is kept under `key`.
pub open spec fn keeps_key(lists: Seq<SourceListModel>, key: Seq<char>) -> bool {
    exists|j: int| 0 <= j < lists.len() && #[trigger] lists[j].key == key
}

/// The store's well-formedness, which the maps it stands for had by construction: sources
/// are kept once per transfer key, and each notice is noted once.
pub open spec fn store_wf(s: StoreModel) -> bool {
    &&& unique_list_keys(s.sources)
    &&& s.notified.no_duplicates()
}

proof fn lemma_without_list(lists: Seq<SourceListModel>, key: Seq<char>)
    ensures
        forall|m: int| 0 <= m < without_list(lists, key).len() ==> (#[trigger] without_list(lists, key)[m]).key != key
            && keeps_key(lists, without_list(lists, key)[m].key),
        unique_list_keys(lists) ==> unique_list_keys(without_list(lists, key)),
    decreases lists.len(),
{
    if lists.len() > 0 {
        let d = lists.drop_last();
        lemma_without_list(d, key);
        let rest = without_list(d, key);
        let r = without_list(lists, key);
        assert forall|m: int| 0 <= m < r.len() implies (#[trigger] r[m]).key != key && keeps_key(lists, r[m].key) by {
            if m < rest.len() {
                assert(r[m] == rest[m]);
                let j = choose|j: int| 0 <= j < d.len() && #[trigger] d[j].key == rest[m].key;
                assert(lists[j] == d[j]);
            } else {
                assert(r[m] == lists[lists.len() - 1]);
            }
        }
        if unique_list_keys(lists) {
            assert forall|a: int, b: int| 0 <= a < b < r.len() implies #[trigger] r[a].key != #[trigger] r[b].key by {
                if b == rest.len() {
                    assert(r[a] == rest[a]);
                    let j = choose|j: int| 0 <= j < d.len() && #[trigger] d[j].key == rest[a].key;
                    assert(lists[j] == d[j]);
                    assert(r[b] == lists[lists.len() - 1]);
                } else {
                    assert(r[a] == rest[a] && r[b] == rest[b]);
                }
            }
        }
    }
}

/// The index of the first list kept under `key`.
pub open spec fn first_list(lists: Seq<SourceListModel>, key: Seq<char>, i: int) -> bool {
    &&& 0 <= i < lists.len()
    &&& lists[i].key == key
    &&& forall|j: int| 0 <= j < i ==> #[trigger] lists[j].key != key
}

/// A copy of a list of selected files.
pub fn copy_sources(v: &Vec<SourceFile>) -> (r: Vec<SourceFile>)
    ensures
        r@.map_values(|f: SourceFile| f@) == v@.map_values(|f: SourceFile| f@),
{
    let mut r: Vec<SourceFile> = Vec::new();
    let mut i: usize = 0;
    while i < v.len()
        invariant
            0 <= i <= v.len(),
            r@.map_values(|f: SourceFile| f@) == v@.take(i as int).map_values(|f: SourceFile| f@),
        decreases v.len() - i,
    {
        r.push(v[i].duplicate());
        assert(v@.take(i + 1).map_values(|f: SourceFile| f@) =~= v@.take(i as int).map_values(
            |f: SourceFile| f@,
        ).push(v@[i as int]@));
        i += 1;
    }
    assert(v@.take(v@.len() as int) =~= v@);
    r
}

impl Store {
    /// Records a transfer this device just offered and the files selected for it; files
    /// kept earlier under the same key are replaced.
    pub fn record_offer(&mut self, transfer: Transfer, files: Vec<SourceFile>)
        ensures
            final(self)@ == (StoreModel {
                sources: without_list(
                    old(self)@.sources,
                    transfer_key(transfer@.repo, transfer@.issue),
                ).push(SourceListModel {
                    key: transfer_key(transfer@.repo, transfer@.issue),
                    files: files@.map_values(|f: SourceFile| f@),
                }),
                transfers: old(self)@.transfers.push(transfer@),
                ..old(self)@
            }),
            store_wf(old(self)@) ==> store_wf(final(self)@),
    {
        proof {
            lemma_without_list(self@.sources, transfer_key(transfer@.repo, transfer@.issue));
        }
        let key = transfer.key();
        let ghost all = self@.sources;
        let mut kept: Vec<SourceList> = Vec::new();
        let mut i: usize = 0;
        while i < self.sources.len()
            invariant
                all == self@.sources,
                0 <= i <= self.sources.len(),
                kept@.map_values(|l: SourceList| l@) == without_list(all.take(i as int), key@),
            decreases self.sources.len() - i,
        {
            let ghost before = kept@.map_values(|l: SourceList| l@);
            assert(all.take(i + 1).drop_last() =~= all.take(i as int));
            assert(self.sources@[i as int]@ == all[i as int]);
            if self.sources[i].key != key {
                kept.push(SourceList {
                    key: self.sources[i].key.clone(),
                    files: copy_sources(&self.sources[i].files),
                });
                assert(kept@.map_values(|l: SourceList| l@) =~= before.push(all[i as int]));
            }
            i += 1;
        }
        assert(all.take(all.len() as int) =~= all);
        let ghost before = kept@.map_values(|l: SourceList| l@);
        kept.push(SourceList { key, files });
        assert(kept@.map_values(|l: SourceList| l@) =~= before.push(kept@.last()@));
        self.sources = kept;
        self.transfers.push(transfer);
        assert(self@.transfers =~= old(self)@.transfers.push(transfer@));
    }

    /// A copy of the files kept for the transfer with key `key`.
    pub fn sources_for(&self, key: &str) -> (r: Option<Vec<SourceFile>>)
        ensures
            match r {
                Some(v) => exists|i: int|
                    first_list(self@.sources, key@, i) && v@.map_values(|f: SourceFile| f@)
                        == self@.sources[i].files,
                None => forall|i: int| 0 <= i < self@.sources.len() ==> #[trigger] self@.sources[i].key != key@,
            },
    {
        let mut i: usize = 0;
        while i < self.sources.len()
            invariant
                0 <= i <= self.sources.len(),
                forall|j: int| 0 <= j < i ==> #[trigger] self@.sources[j].key != key@,
            decreases self.sources.len() - i,
        {
            assert(self@.sources[i as int] == self.sources@[i as int]@);
            if equal_text(self.sources[i].key.as_str(), key) {
                let v = copy_sources(&self.sources[i].files);
                assert(first_list(self@.sources, key@, i as int));
                return Some(v);
            }
            i += 1;
        }
        None
    }
}

} // verus!
