//! Shared runtime state and the operations that read or change it.

use crate::config::{
    FileConfig, BUNDLE_PRUNE_MIN_INTERVAL_MS, MAILBOX_ACTIVITY_GRANULARITY_MS, MAILBOX_IDLE_TTL_MS,
    MAX_CONNECTIONS, MAX_DELIVERY_TOKENS_PER_MAILBOX, MAX_MAILBOXES, MAX_SENDS_PER_DEST_PER_WINDOW,
    RATE_WINDOW_MS,
};
use crate::maps::{
    auth_entries, auth_get, auth_insert, auth_len, auth_list, auth_new, auth_remove, bundle_entries,
    bundles_get, bundles_insert, bundles_list, bundles_new, bundles_remove, dirty_entries,
    dirty_insert, dirty_is_empty, dirty_list, dirty_new, dirty_remove, online_entries, online_get,
    online_new, rate_entries, rate_get, rate_insert, rate_new, rate_remove,
};
use crate::meta_store::{batch_values, in_step, law_flush_catches_up, MetaStore};
use crate::protocol::RecipientId;
use crate::queue_store::{capped, lowered};
use crate::table::{
    applied, lemma_total_insert, total_of, write_keys, write_views, RowWrite,
};
use crate::text::{
    byte_len, holds_text, lemma_push_contains, lemma_take_contains, str_eq, text_len, views,
};
use crate::util::{atomic_sub_saturating, now_ms};
use dashmap::DashMap;
use vstd::prelude::*;

verus! {

/// What the relay keeps of a mailbox: hashes of its tokens and the day of its last activity.
#[derive(Debug, Clone, PartialEq, Eq)]
pub struct MailboxAuth {
    pub receive_auth_hash: String,
    pub delivery_token_hash: String,
    pub delivery_token_hashes: Vec<String>,
    /// Last activity, rounded down to the day.
    pub last_active_ms: u64,
}

/// The model of a [`MailboxAuth`].
#[verifier::ext_equal]
pub struct AuthView {
    pub receive: Seq<char>,
    pub primary: Seq<char>,
    pub hashes: Seq<Seq<char>>,
    pub last_active: u64,
}

impl View for MailboxAuth {
    type V = AuthView;

    open spec fn view(&self) -> AuthView {
        AuthView {
            receive: self.receive_auth_hash@,
            primary: self.delivery_token_hash@,
            hashes: views(self.delivery_token_hashes@),
            last_active: self.last_active_ms,
        }
    }
}

/// A time rounded down to the granularity at which activity is kept.
pub open spec fn activity_day(now: u64) -> u64 {
    (now - now % MAILBOX_ACTIVITY_GRANULARITY_MS) as u64
}

/// A time rounded down to the granularity at which activity is kept.
pub fn round_activity(now: u64) -> (r: u64)
    ensures
        r == activity_day(now),
{
    proof {
        vstd::arithmetic::div_mod::lemma_mod_decreases(
            now as nat,
            MAILBOX_ACTIVITY_GRANULARITY_MS as nat,
        );
    }
    now - now % MAILBOX_ACTIVITY_GRANULARITY_MS
}

/// The record of a new mailbox.
pub open spec fn fresh_auth(receive: Seq<char>, delivery: Seq<char>, now: u64) -> AuthView {
    AuthView {
        receive,
        primary: delivery,
        hashes: seq![delivery],
        last_active: activity_day(now),
    }
}

/// Whether a record takes a delivery-token hash.
pub open spec fn takes_hash(a: AuthView, hash: Seq<char>) -> bool {
    a.primary == hash || a.hashes.contains(hash)
}

/// A record that takes `hash`: the oldest of a full list goes.
pub open spec fn with_hash(a: AuthView, hash: Seq<char>) -> AuthView {
    AuthView {
        primary: if a.primary.len() == 0 {
            hash
        } else {
            a.primary
        },
        hashes: if a.hashes.contains(hash) {
            a.hashes
        } else if a.hashes.len() >= MAX_DELIVERY_TOKENS_PER_MAILBOX {
            a.hashes.drop_first().push(hash)
        } else {
            a.hashes.push(hash)
        },
        ..a
    }
}

/// The texts in their order, each where it first occurs.
pub open spec fn first_occurrences(s: Seq<Seq<char>>) -> Seq<Seq<char>>
    decreases s.len(),
{
    if s.len() == 0 {
        s
    } else {
        let before = first_occurrences(s.drop_last());
        if before.contains(s.last()) {
            before
        } else {
            before.push(s.last())
        }
    }
}

/// The first texts, as many as a mailbox may have delivery tokens.
pub open spec fn within_token_limit(s: Seq<Seq<char>>) -> Seq<Seq<char>> {
    if s.len() > MAX_DELIVERY_TOKENS_PER_MAILBOX {
        s.take(MAX_DELIVERY_TOKENS_PER_MAILBOX as int)
    } else {
        s
    }
}

/// A record whose delivery tokens are replaced.
pub open spec fn with_hashes(a: AuthView, hashes: Seq<Seq<char>>) -> AuthView {
    let kept = first_occurrences(within_token_limit(hashes));
    AuthView {
        primary: if kept.len() > 0 {
            kept[0]
        } else {
            Seq::empty()
        },
        hashes: kept,
        ..a
    }
}

/// A copy of a list of texts.
fn copy_texts(list: &Vec<String>) -> (r: Vec<String>)
    ensures
        views(r@) == views(list@),
{
    let mut out: Vec<String> = Vec::new();
    let mut i: usize = 0;
    while i < list.len()
        invariant
            i <= list@.len(),
            out@.len() == i,
            forall|j: int| 0 <= j < i ==> (#[trigger] out@[j])@ == list@[j]@,
        decreases list@.len() - i,
    {
        out.push(list[i].clone());
        i += 1;
    }
    proof {
        assert(views(out@) =~= views(list@));
    }
    out
}

impl MailboxAuth {
    /// The record of a mailbox created now.
    pub fn new(receive_auth_hash: String, delivery_hash: String) -> (r: Self)
        ensures
            exists|now: u64|
                r@ == #[trigger] fresh_auth(receive_auth_hash@, delivery_hash@, now),
    {
        let now: u64 = now_ms();
        let r: MailboxAuth = Self::new_at(receive_auth_hash, delivery_hash, now);
        proof {
            assert(r@ == fresh_auth(receive_auth_hash@, delivery_hash@, now));
        }
        r
    }

    /// The record of a mailbox created at a given time.
    pub fn new_at(receive_auth_hash: String, delivery_hash: String, now: u64) -> (r: Self)
        ensures
            r@ == fresh_auth(receive_auth_hash@, delivery_hash@, now),
    {
        let mut hashes: Vec<String> = Vec::new();
        hashes.push(delivery_hash.clone());
        proof {
            assert(views(hashes@) =~= seq![delivery_hash@]);
        }
        MailboxAuth {
            receive_auth_hash,
            delivery_token_hash: delivery_hash,
            delivery_token_hashes: hashes,
            last_active_ms: round_activity(now),
        }
    }

    /// A copy of the record.
    pub fn duplicate(&self) -> (r: MailboxAuth)
        ensures
            r@ == self@,
    {
        MailboxAuth {
            receive_auth_hash: self.receive_auth_hash.clone(),
            delivery_token_hash: self.delivery_token_hash.clone(),
            delivery_token_hashes: copy_texts(&self.delivery_token_hashes),
            last_active_ms: self.last_active_ms,
        }
    }

    /// Whether a delivery token with this hash may send to the mailbox.
    pub fn accepts_delivery_hash(&self, hash: &str) -> (r: bool)
        ensures
            r == takes_hash(self@, hash@),
    {
        str_eq(self.delivery_token_hash.as_str(), hash) || holds_text(
            &self.delivery_token_hashes,
            hash,
        )
    }

    /// Adds a delivery-token hash where it is missing, and says whether it was; the oldest of a full
    /// list makes room.
    pub fn ensure_delivery_hash(&mut self, hash: String) -> (r: bool)
        ensures
            final(self)@ == with_hash(old(self)@, hash@),
            r == !old(self)@.hashes.contains(hash@),
    {
        let ghost before = self@;
        if text_len(self.delivery_token_hash.as_str()) == 0 {
            proof {
                lemma_no_bytes(before.primary);
            }
            self.delivery_token_hash = hash.clone();
        } else {
            proof {
                lemma_no_bytes(before.primary);
            }
        }
        if holds_text(&self.delivery_token_hashes, hash.as_str()) {
            return false;
        }
        let ghost v0 = self.delivery_token_hashes@;
        if self.delivery_token_hashes.len() >= MAX_DELIVERY_TOKENS_PER_MAILBOX {
            let _ = self.delivery_token_hashes.remove(0);
            proof {
                assert(views(self.delivery_token_hashes@) =~= views(v0).drop_first());
            }
        }
        let ghost v1 = self.delivery_token_hashes@;
        self.delivery_token_hashes.push(hash);
        proof {
            assert(views(self.delivery_token_hashes@) =~= views(v1).push(hash@));
        }
        true
    }

    /// Replaces the delivery tokens by the first of `hashes`, each once.
    pub fn replace_delivery_hashes(&mut self, hashes: Vec<String>)
        ensures
            final(self)@ == with_hashes(old(self)@, views(hashes@)),
    {
        let mut out: Vec<String> = Vec::new();
        let ghost all = views(hashes@);
        let n: usize = if hashes.len() > MAX_DELIVERY_TOKENS_PER_MAILBOX {
            MAX_DELIVERY_TOKENS_PER_MAILBOX
        } else {
            hashes.len()
        };
        let mut i: usize = 0;
        proof {
            assert(views(out@) =~= first_occurrences(all.take(0)));
        }
        while i < n
            invariant
                i <= n <= hashes@.len(),
                all == views(hashes@),
                views(out@) == first_occurrences(all.take(i as int)),
            decreases n - i,
        {
            proof {
                assert(all.take(i + 1).drop_last() =~= all.take(i as int));
                assert(all.take(i + 1).last() == hashes@[i as int]@);
            }
            if !holds_text(&out, hashes[i].as_str()) {
                let ghost before = out@;
                out.push(hashes[i].clone());
                proof {
                    assert(views(out@) =~= views(before).push(hashes@[i as int]@));
                }
            }
            i += 1;
        }
        proof {
            assert(all.take(n as int) =~= within_token_limit(all));
        }
        self.delivery_token_hash = if out.len() > 0 {
            out[0].clone()
        } else {
            String::new()
        };
        self.delivery_token_hashes = out;
    }
}

/// A text without bytes is a text without characters.
pub proof fn lemma_no_bytes(s: Seq<char>)
    ensures
        vstd::utf8::encode_utf8(s).len() == 0 <==> s.len() == 0,
{
    if s.len() == 0 {
        assert(s =~= Seq::empty());
    }
    if vstd::utf8::encode_utf8(s).len() == 0 {
        crate::text::lemma_encoding_injective(s, Seq::empty());
        assert(vstd::utf8::encode_utf8(s) =~= vstd::utf8::encode_utf8(Seq::empty()));
    }
}

/// A hosted invite bundle.
#[derive(Debug, Clone, PartialEq, Eq)]
pub struct HostedBundle {
    pub id: String,
    pub ciphertext: String,
    pub created_at_ms: u64,
    pub expires_at_ms: u64,
}

/// The model of a [`HostedBundle`].
pub struct BundleView {
    pub id: Seq<char>,
    pub ciphertext: Seq<char>,
    pub created_at_ms: u64,
    pub expires_at_ms: u64,
}

impl View for HostedBundle {
    type V = BundleView;

    open spec fn view(&self) -> BundleView {
        BundleView {
            id: self.id@,
            ciphertext: self.ciphertext@,
            created_at_ms: self.created_at_ms,
            expires_at_ms: self.expires_at_ms,
        }
    }
}

impl HostedBundle {
    /// A copy of the bundle.
    pub fn duplicate(&self) -> (r: HostedBundle)
        ensures
            r@ == self@,
    {
        HostedBundle {
            id: self.id.clone(),
            ciphertext: self.ciphertext.clone(),
            created_at_ms: self.created_at_ms,
            expires_at_ms: self.expires_at_ms,
        }
    }
}

// ---------------------------------------------------------------------------
// The state
// ---------------------------------------------------------------------------

/// The live state of the relay.
pub struct AppState {
    /// The connection through which each mailbox receives.
    pub online: DashMap<RecipientId, u64>,
    pub mailbox_auth: DashMap<RecipientId, MailboxAuth>,
    pub mailbox_count: usize,
    pub bundles: DashMap<String, HostedBundle>,
    /// The ciphertext bytes of the hosted bundles.
    pub total_bundle_bytes: usize,
    /// The send-rate window of each destination, over all connections.
    pub send_rate: DashMap<RecipientId, (u64, u32)>,
    /// Mailboxes whose record changed since it was last written back.
    pub dirty_auth: DashMap<RecipientId, ()>,
    /// Bundles that changed since they were last written back.
    pub dirty_bundles: DashMap<String, ()>,
    /// The number of live connections.
    pub conn_count: usize,
    /// When expired bundles were last looked for.
    pub last_bundle_prune_ms: u64,
    /// The public trust root, in base64.
    pub trust_root_public_b64: String,
    pub file_config: FileConfig,
}

/// The model of an [`AppState`].
#[verifier::ext_equal]
pub struct StateView {
    pub online: Map<Seq<char>, u64>,
    pub auth: Map<Seq<char>, AuthView>,
    pub mailbox_count: usize,
    pub bundles: Map<Seq<char>, BundleView>,
    pub bundle_bytes: usize,
    pub rate: Map<Seq<char>, (u64, u32)>,
    pub dirty_auth: Set<Seq<char>>,
    pub dirty_bundles: Set<Seq<char>>,
    pub conns: usize,
    pub last_prune: u64,
    pub trust_root: Seq<char>,
    pub file_config: FileConfig,
}

impl View for AppState {
    type V = StateView;

    open spec fn view(&self) -> StateView {
        StateView {
            online: online_entries(self.online),
            auth: auth_entries(self.mailbox_auth),
            mailbox_count: self.mailbox_count,
            bundles: bundle_entries(self.bundles),
            bundle_bytes: self.total_bundle_bytes,
            rate: rate_entries(self.send_rate),
            dirty_auth: dirty_entries(self.dirty_auth),
            dirty_bundles: dirty_entries(self.dirty_bundles),
            conns: self.conn_count,
            last_prune: self.last_bundle_prune_ms,
            trust_root: self.trust_root_public_b64@,
            file_config: self.file_config,
        }
    }
}

/// A loaded record: one without a last activity gets a fresh lease.
pub open spec fn leased(a: AuthView, now: u64) -> AuthView {
    if a.last_active == 0 {
        AuthView { last_active: activity_day(now), ..a }
    } else {
        a
    }
}

/// The mailboxes that stored records describe.
pub open spec fn loaded_auth(rows: Seq<(RecipientId, MailboxAuth)>, now: u64) -> Map<
    Seq<char>,
    AuthView,
>
    decreases rows.len(),
{
    if rows.len() == 0 {
        Map::empty()
    } else {
        loaded_auth(rows.drop_last(), now).insert(rows.last().0@, leased(rows.last().1@, now))
    }
}

/// The bundles that are stored.
pub open spec fn loaded_bundles(rows: Seq<HostedBundle>) -> Map<Seq<char>, BundleView>
    decreases rows.len(),
{
    if rows.len() == 0 {
        Map::empty()
    } else {
        loaded_bundles(rows.drop_last()).insert(rows.last().id@, rows.last()@)
    }
}

/// The ciphertext bytes of stored bundles.
pub open spec fn loaded_bundle_bytes(rows: Seq<HostedBundle>) -> nat
    decreases rows.len(),
{
    if rows.len() == 0 {
        0
    } else {
        loaded_bundle_bytes(rows.drop_last()) + byte_len(rows.last().ciphertext@)
    }
}

/// The window of a destination and whether one more send fits into it.
pub open spec fn counted_send(window: Option<(u64, u32)>, now: u64) -> (bool, (u64, u32)) {
    let (start, count) = match window {
        Some(w) => w,
        None => (now, 0u32),
    };
    if now.saturating_sub(start) > RATE_WINDOW_MS {
        (true, (now, 1u32))
    } else if count >= MAX_SENDS_PER_DEST_PER_WINDOW {
        (false, (start, count))
    } else {
        (true, (start, (count + 1) as u32))
    }
}

/// What a map holds under a key.
pub open spec fn at<T>(m: Map<Seq<char>, T>, k: Seq<char>) -> Option<T> {
    if m.contains_key(k) {
        Some(m[k])
    } else {
        None
    }
}

/// The bundles that have expired.
pub open spec fn expired_bundles(bundles: Map<Seq<char>, BundleView>, now: u64) -> Map<
    Seq<char>,
    BundleView,
> {
    bundles.restrict(
        Set::new(|k: Seq<char>| bundles.contains_key(k) && bundles[k].expires_at_ms <= now),
    )
}

/// The ciphertext bytes of bundles.
pub open spec fn bundle_bytes(bundles: Map<Seq<char>, BundleView>) -> nat {
    total_of(bundles, |b: BundleView| byte_len(b.ciphertext))
}

/// Whether it is time to look for expired bundles.
pub open spec fn prune_due(st: StateView, now: u64) -> bool {
    st.last_prune == 0 || now.saturating_sub(st.last_prune) >= BUNDLE_PRUNE_MIN_INTERVAL_MS
}

/// The state without the expired bundles, where it is time to look for them.
pub open spec fn pruned(st: StateView, now: u64) -> StateView {
    if prune_due(st, now) {
        let gone = expired_bundles(st.bundles, now);
        StateView {
            last_prune: now,
            bundles: st.bundles.remove_keys(gone.dom()),
            bundle_bytes: lowered(st.bundle_bytes, capped(bundle_bytes(gone))),
            dirty_bundles: st.dirty_bundles.union(gone.dom()),
            ..st
        }
    } else {
        st
    }
}

/// Whether a mailbox has been idle for longer than its lease.
pub open spec fn is_idle(a: AuthView, now: u64) -> bool {
    now.saturating_sub(a.last_active) > MAILBOX_IDLE_TTL_MS
}

/// The candidates whose queue is empty and that no connection serves.
pub open spec fn stale_mailboxes(
    candidates: Seq<(RecipientId, bool)>,
    online: Map<Seq<char>, u64>,
) -> Seq<Seq<char>>
    decreases candidates.len(),
{
    if candidates.len() == 0 {
        Seq::empty()
    } else {
        let before = stale_mailboxes(candidates.drop_last(), online);
        let (rid, queue_empty) = candidates.last();
        if queue_empty && !online.contains_key(rid@) {
            before.push(rid@)
        } else {
            before
        }
    }
}

/// The state without mailboxes that were collected.
pub open spec fn collected(st: StateView, stale: Seq<Seq<char>>) -> StateView
    decreases stale.len(),
{
    if stale.len() == 0 {
        st
    } else {
        let before = collected(st, stale.drop_last());
        let rid = stale.last();
        if before.auth.contains_key(rid) {
            StateView {
                auth: before.auth.remove(rid),
                mailbox_count: before.mailbox_count.wrapping_sub(1),
                dirty_auth: before.dirty_auth.insert(rid),
                rate: before.rate.remove(rid),
                ..before
            }
        } else {
            StateView { rate: before.rate.remove(rid), ..before }
        }
    }
}

/// How many of the mailboxes had a record.
pub open spec fn collected_count(auth: Map<Seq<char>, AuthView>, stale: Seq<Seq<char>>) -> nat
    decreases stale.len(),
{
    if stale.len() == 0 {
        0
    } else {
        let init = stale.drop_last();
        if auth.contains_key(stale.last()) && !init.contains(stale.last()) {
            collected_count(auth, init) + 1
        } else {
            collected_count(auth, init)
        }
    }
}

/// What a collection took: the mailboxes whose queues are to be purged, and how many had a record.
pub struct Collection {
    pub stale: Vec<RecipientId>,
    pub removed: usize,
}

/// The changed records to be written back: the record of each key, or nothing where it is gone.
pub open spec fn current_auth(
    batch: Seq<(RecipientId, Option<MailboxAuth>)>,
    auth: Map<Seq<char>, AuthView>,
) -> bool {
    forall|i: int|
        0 <= i < batch.len() ==> match (#[trigger] batch[i]).1 {
            Some(a) => auth.contains_key(batch[i].0@) && a@ == auth[batch[i].0@],
            None => !auth.contains_key(batch[i].0@),
        }
}

/// The changed bundles to be written back: the bundle of each key, or nothing where it is gone.
pub open spec fn current_bundles(
    batch: Seq<(String, Option<HostedBundle>)>,
    bundles: Map<Seq<char>, BundleView>,
) -> bool {
    forall|i: int|
        0 <= i < batch.len() ==> match (#[trigger] batch[i]).1 {
            Some(b) => bundles.contains_key(batch[i].0@) && b@ == bundles[batch[i].0@],
            None => !bundles.contains_key(batch[i].0@),
        }
}

/// The keys of a batch.
pub open spec fn batch_keys<T>(batch: Seq<(String, Option<T>)>) -> Seq<Seq<char>> {
    Seq::new(batch.len(), |i: int| batch[i].0@)
}

/// The live state over stored records and bundles.
pub open spec fn built(
    auth_rows: Seq<(RecipientId, MailboxAuth)>,
    bundle_rows: Seq<HostedBundle>,
    file_config: FileConfig,
    trust_root: Seq<char>,
    now: u64,
) -> StateView {
    StateView {
        online: Map::empty(),
        auth: loaded_auth(auth_rows, now),
        mailbox_count: loaded_auth(auth_rows, now).dom().len() as usize,
        bundles: loaded_bundles(bundle_rows),
        bundle_bytes: capped(loaded_bundle_bytes(bundle_rows)),
        rate: Map::empty(),
        dirty_auth: Set::empty(),
        dirty_bundles: Set::empty(),
        conns: 0,
        last_prune: 0,
        trust_root,
        file_config,
    }
}

/// The state with a mailbox marked to be written back.
pub open spec fn auth_marked(st: StateView, rid: Seq<char>) -> StateView {
    StateView { dirty_auth: st.dirty_auth.insert(rid), ..st }
}

/// The state with a bundle marked to be written back.
pub open spec fn bundle_marked(st: StateView, id: Seq<char>) -> StateView {
    StateView { dirty_bundles: st.dirty_bundles.insert(id), ..st }
}

/// Whether nothing is marked to be written back.
pub open spec fn all_clean(st: StateView) -> bool {
    st.dirty_auth == Set::<Seq<char>>::empty() && st.dirty_bundles == Set::<Seq<char>>::empty()
}

/// The state with nothing marked.
pub open spec fn drained(st: StateView) -> StateView {
    StateView { dirty_auth: Set::empty(), dirty_bundles: Set::empty(), ..st }
}

/// The state with mailboxes and bundles marked again.
pub open spec fn marked_again(
    st: StateView,
    auth_keys: Seq<Seq<char>>,
    bundle_keys: Seq<Seq<char>>,
) -> StateView {
    StateView {
        dirty_auth: st.dirty_auth.union(auth_keys.to_set()),
        dirty_bundles: st.dirty_bundles.union(bundle_keys.to_set()),
        ..st
    }
}

/// Whether there is room for one more mailbox.
pub open spec fn has_slot(st: StateView) -> bool {
    st.mailbox_count < MAX_MAILBOXES
}

/// The state with one more mailbox counted.
pub open spec fn slot_taken(st: StateView) -> StateView {
    StateView { mailbox_count: (st.mailbox_count + 1) as usize, ..st }
}

/// The state with a send to a destination counted.
pub open spec fn send_counted(st: StateView, to: Seq<char>, now: u64) -> StateView {
    StateView { rate: st.rate.insert(to, counted_send(at(st.rate, to), now).1), ..st }
}

/// Whether there is room for one more connection.
pub open spec fn can_connect(st: StateView) -> bool {
    st.conns < MAX_CONNECTIONS
}

/// The state with one more connection.
pub open spec fn connected(st: StateView) -> StateView {
    StateView { conns: (st.conns + 1) as usize, ..st }
}

/// The state with one connection less.
pub open spec fn disconnected(st: StateView) -> StateView {
    StateView { conns: st.conns.wrapping_sub(1), ..st }
}

impl AppState {
    /// The live state over the stored records and bundles.
    pub fn build(
        auth_rows: Vec<(RecipientId, MailboxAuth)>,
        bundle_rows: Vec<HostedBundle>,
        file_config: FileConfig,
        trust_root_public_b64: String,
        load_now: u64,
    ) -> (r: AppState)
        ensures
            r@ == built(auth_rows@, bundle_rows@, file_config, trust_root_public_b64@, load_now),
            loaded_auth(auth_rows@, load_now).dom().len() <= usize::MAX,
    {
        let mut mailbox_auth: DashMap<RecipientId, MailboxAuth> = auth_new();
        let ghost all = auth_rows@;
        proof {
            assert(auth_entries(mailbox_auth) =~= loaded_auth(all.take(0), load_now));
        }
        for row in it: auth_rows
            invariant
                it.seq() == all,
                auth_entries(mailbox_auth) == loaded_auth(all.take(it.index() as int), load_now),
        {
            let ghost i = it.index() as int;
            proof {
                assert(all.take(i + 1).drop_last() =~= all.take(i));
                assert(all.take(i + 1).last() == row);
            }
            let (rid, auth) = row;
            let last_active: u64 = if auth.last_active_ms == 0 {
                round_activity(load_now)
            } else {
                auth.last_active_ms
            };
            let lease: MailboxAuth = MailboxAuth {
                receive_auth_hash: auth.receive_auth_hash,
                delivery_token_hash: auth.delivery_token_hash,
                delivery_token_hashes: auth.delivery_token_hashes,
                last_active_ms: last_active,
            };
            auth_insert(&mut mailbox_auth, rid, lease);
        }
        proof {
            assert(all.take(all.len() as int) =~= all);
        }

        let mut bundles: DashMap<String, HostedBundle> = bundles_new();
        let mut bundle_total: usize = 0;
        let ghost hosted = bundle_rows@;
        proof {
            assert(bundle_entries(bundles) =~= loaded_bundles(hosted.take(0)));
        }
        for bundle in it: bundle_rows
            invariant
                it.seq() == hosted,
                bundle_entries(bundles) == loaded_bundles(hosted.take(it.index() as int)),
                bundle_total == capped(loaded_bundle_bytes(hosted.take(it.index() as int))),
        {
            let ghost i = it.index() as int;
            proof {
                assert(hosted.take(i + 1).drop_last() =~= hosted.take(i));
                assert(hosted.take(i + 1).last() == bundle);
            }
            bundle_total = bundle_total.saturating_add(text_len(bundle.ciphertext.as_str()));
            let id: String = bundle.id.clone();
            let _ = bundles_insert(&mut bundles, id, bundle);
        }
        proof {
            assert(hosted.take(hosted.len() as int) =~= hosted);
        }

        let mailbox_count: usize = auth_len(&mailbox_auth);
        let out: AppState = AppState {
            online: online_new(),
            mailbox_auth,
            mailbox_count,
            bundles,
            total_bundle_bytes: bundle_total,
            send_rate: rate_new(),
            dirty_auth: dirty_new(),
            dirty_bundles: dirty_new(),
            conn_count: 0,
            last_bundle_prune_ms: 0,
            trust_root_public_b64,
            file_config,
        };
        proof {
            assert(out@.online =~= Map::empty());
            assert(out@.rate =~= Map::empty());
        }
        out
    }

    /// Marks a mailbox record as changed, or removed.
    pub fn mark_auth_dirty(&mut self, rid: &str)
        ensures
            final(self)@ == auth_marked(old(self)@, rid@),
    {
        dirty_insert(&mut self.dirty_auth, rid.to_owned());
    }

    /// Marks an invite bundle as changed, or removed.
    pub fn mark_bundle_dirty(&mut self, id: &str)
        ensures
            final(self)@ == bundle_marked(old(self)@, id@),
    {
        dirty_insert(&mut self.dirty_bundles, id.to_owned());
    }

    /// Whether nothing waits to be written back.
    pub fn is_clean(&self) -> (r: bool)
        ensures
            r == all_clean(self@),
    {
        dirty_is_empty(&self.dirty_auth) && dirty_is_empty(&self.dirty_bundles)
    }

    /// Takes the changed mailboxes out of the dirty set, each with its current record.
    fn drain_dirty_auth(&mut self) -> (r: Vec<(RecipientId, Option<MailboxAuth>)>)
        ensures
            final(self)@ == (StateView { dirty_auth: Set::empty(), ..old(self)@ }),
            batch_keys(r@).no_duplicates(),
            batch_keys(r@).to_set() == old(self)@.dirty_auth,
            current_auth(r@, old(self)@.auth),
    {
        let keys: Vec<RecipientId> = dirty_list(&self.dirty_auth);
        let ghost all = views(keys@);
        let mut batch: Vec<(RecipientId, Option<MailboxAuth>)> = Vec::new();
        let mut i: usize = 0;
        while i < keys.len()
            invariant
                i <= keys@.len(),
                all == views(keys@),
                batch@.len() == i,
                forall|j: int| 0 <= j < i ==> (#[trigger] batch@[j]).0@ == all[j],
                current_auth(batch@, old(self)@.auth),
                self@ == (StateView { dirty_auth: self@.dirty_auth, ..old(self)@ }),
                forall|k: Seq<char>| #[trigger]
                    self@.dirty_auth.contains(k) <==> old(self)@.dirty_auth.contains(k)
                        && !all.take(i as int).contains(k),
            decreases keys@.len() - i,
        {
            let k: RecipientId = keys[i].clone();
            let ghost before = self@.dirty_auth;
            dirty_remove(&mut self.dirty_auth, k.as_str());
            let val: Option<MailboxAuth> = auth_get(&self.mailbox_auth, k.as_str());
            batch.push((k, val));
            proof {
                let n = i as int;
                assert forall|x: Seq<char>| #[trigger] self@.dirty_auth.contains(x) <==> old(
                    self,
                )@.dirty_auth.contains(x) && !all.take(n + 1).contains(x) by {
                    assert(before.contains(x) <==> old(self)@.dirty_auth.contains(x) && !all.take(
                        n,
                    ).contains(x));
                    lemma_take_contains(all, n, x);
                }
            }
            i += 1;
        }
        proof {
            assert(all.take(all.len() as int) =~= all);
            assert(batch_keys(batch@) =~= all);
            assert(self@.dirty_auth =~= Set::empty()) by {
                assert forall|k: Seq<char>| !self@.dirty_auth.contains(k) by {
                    if old(self)@.dirty_auth.contains(k) {
                        assert(all.to_set().contains(k));
                    }
                }
            }
        }
        batch
    }

    /// Takes the changed bundles out of the dirty set, each with its current value.
    fn drain_dirty_bundles(&mut self) -> (r: Vec<(String, Option<HostedBundle>)>)
        ensures
            final(self)@ == (StateView { dirty_bundles: Set::empty(), ..old(self)@ }),
            batch_keys(r@).no_duplicates(),
            batch_keys(r@).to_set() == old(self)@.dirty_bundles,
            current_bundles(r@, old(self)@.bundles),
    {
        let keys: Vec<String> = dirty_list(&self.dirty_bundles);
        let ghost all = views(keys@);
        let mut batch: Vec<(String, Option<HostedBundle>)> = Vec::new();
        let mut i: usize = 0;
        while i < keys.len()
            invariant
                i <= keys@.len(),
                all == views(keys@),
                batch@.len() == i,
                forall|j: int| 0 <= j < i ==> (#[trigger] batch@[j]).0@ == all[j],
                current_bundles(batch@, old(self)@.bundles),
                self@ == (StateView { dirty_bundles: self@.dirty_bundles, ..old(self)@ }),
                forall|k: Seq<char>| #[trigger]
                    self@.dirty_bundles.contains(k) <==> old(self)@.dirty_bundles.contains(k)
                        && !all.take(i as int).contains(k),
            decreases keys@.len() - i,
        {
            let k: String = keys[i].clone();
            let ghost before = self@.dirty_bundles;
            dirty_remove(&mut self.dirty_bundles, k.as_str());
            let val: Option<HostedBundle> = bundles_get(&self.bundles, k.as_str());
            batch.push((k, val));
            proof {
                let n = i as int;
                assert forall|x: Seq<char>| #[trigger] self@.dirty_bundles.contains(x) <==> old(
                    self,
                )@.dirty_bundles.contains(x) && !all.take(n + 1).contains(x) by {
                    assert(before.contains(x) <==> old(self)@.dirty_bundles.contains(x)
                        && !all.take(n).contains(x));
                    lemma_take_contains(all, n, x);
                }
            }
            i += 1;
        }
        proof {
            assert(all.take(all.len() as int) =~= all);
            assert(batch_keys(batch@) =~= all);
            assert(self@.dirty_bundles =~= Set::empty()) by {
                assert forall|k: Seq<char>| !self@.dirty_bundles.contains(k) by {
                    if old(self)@.dirty_bundles.contains(k) {
                        assert(all.to_set().contains(k));
                    }
                }
            }
        }
        batch
    }

    /// Drains both dirty sets and gives the writes that bring the two durable tables up to date. A
    /// table that was in step with the live map outside the dirty keys then holds exactly what the
    /// live map does, and only dirty keys are written.
    pub fn flush_dirty_meta(&mut self) -> (r: (
        Vec<RowWrite<MailboxAuth>>,
        Vec<RowWrite<HostedBundle>>,
    ))
        ensures
            final(self)@ == drained(old(self)@),
            write_keys(write_views(r.0@)).to_set() == old(self)@.dirty_auth,
            write_keys(write_views(r.1@)).to_set() == old(self)@.dirty_bundles,
            forall|t: Map<Seq<char>, AuthView>|
                in_step(t, old(self)@.auth, old(self)@.dirty_auth) ==> #[trigger] applied(
                    t,
                    write_views(r.0@),
                ) == old(self)@.auth,
            forall|t: Map<Seq<char>, BundleView>|
                in_step(t, old(self)@.bundles, old(self)@.dirty_bundles) ==> #[trigger] applied(
                    t,
                    write_views(r.1@),
                ) == old(self)@.bundles,
    {
        let auth: Vec<(RecipientId, Option<MailboxAuth>)> = self.drain_dirty_auth();
        let ghost (ak, av) = (batch_keys(auth@), batch_values(auth@));
        let bundles: Vec<(String, Option<HostedBundle>)> = self.drain_dirty_bundles();
        let ghost (bk, bv) = (batch_keys(bundles@), batch_values(bundles@));
        let auth_writes: Vec<RowWrite<MailboxAuth>> = MetaStore::flush_auth(auth);
        let bundle_writes: Vec<RowWrite<HostedBundle>> = MetaStore::flush_bundles(bundles);
        proof {
            assert(write_keys(write_views(auth_writes@)) =~= ak);
            assert(write_keys(write_views(bundle_writes@)) =~= bk);
            assert forall|t: Map<Seq<char>, AuthView>|
                in_step(t, old(self)@.auth, old(self)@.dirty_auth) implies #[trigger] applied(
                t,
                write_views(auth_writes@),
            ) == old(self)@.auth by {
                law_flush_catches_up(t, old(self)@.auth, ak, av);
            }
            assert forall|t: Map<Seq<char>, BundleView>|
                in_step(t, old(self)@.bundles, old(self)@.dirty_bundles) implies #[trigger] applied(
                t,
                write_views(bundle_writes@),
            ) == old(self)@.bundles by {
                law_flush_catches_up(t, old(self)@.bundles, bk, bv);
            }
        }
        (auth_writes, bundle_writes)
    }

    /// Marks again what a flush could not write: the keys of the writes that failed.
    pub fn flush_failed(&mut self, auth_keys: &Vec<RecipientId>, bundle_keys: &Vec<String>)
        ensures
            final(self)@ == marked_again(old(self)@, views(auth_keys@), views(bundle_keys@)),
    {
        let ghost (ak, bk) = (views(auth_keys@), views(bundle_keys@));
        let mut i: usize = 0;
        while i < auth_keys.len()
            invariant
                i <= auth_keys@.len(),
                ak == views(auth_keys@),
                self@ == (StateView { dirty_auth: self@.dirty_auth, ..old(self)@ }),
                forall|k: Seq<char>| #[trigger]
                    self@.dirty_auth.contains(k) <==> old(self)@.dirty_auth.contains(k) || ak.take(
                        i as int,
                    ).contains(k),
            decreases auth_keys@.len() - i,
        {
            let ghost before = self@.dirty_auth;
            self.mark_auth_dirty(auth_keys[i].as_str());
            proof {
                let n = i as int;
                assert(ak[n] == auth_keys@[n]@);
                assert forall|k: Seq<char>| #[trigger] self@.dirty_auth.contains(k) <==> old(
                    self,
                )@.dirty_auth.contains(k) || ak.take(n + 1).contains(k) by {
                    assert(before.contains(k) <==> old(self)@.dirty_auth.contains(k) || ak.take(
                        n,
                    ).contains(k));
                    lemma_take_contains(ak, n, k);
                }
            }
            i += 1;
        }
        let mut j: usize = 0;
        while j < bundle_keys.len()
            invariant
                j <= bundle_keys@.len(),
                bk == views(bundle_keys@),
                ak.take(ak.len() as int) == ak,
                self@ == (StateView {
                    dirty_auth: self@.dirty_auth,
                    dirty_bundles: self@.dirty_bundles,
                    ..old(self)@
                }),
                forall|k: Seq<char>| #[trigger]
                    self@.dirty_auth.contains(k) <==> old(self)@.dirty_auth.contains(k)
                        || ak.contains(k),
                forall|k: Seq<char>| #[trigger]
                    self@.dirty_bundles.contains(k) <==> old(self)@.dirty_bundles.contains(k)
                        || bk.take(j as int).contains(k),
            decreases bundle_keys@.len() - j,
        {
            let ghost before = self@.dirty_bundles;
            self.mark_bundle_dirty(bundle_keys[j].as_str());
            proof {
                let n = j as int;
                assert(bk[n] == bundle_keys@[n]@);
                assert forall|k: Seq<char>| #[trigger] self@.dirty_bundles.contains(k) <==> old(
                    self,
                )@.dirty_bundles.contains(k) || bk.take(n + 1).contains(k) by {
                    assert(before.contains(k) <==> old(self)@.dirty_bundles.contains(k)
                        || bk.take(n).contains(k));
                    lemma_take_contains(bk, n, k);
                }
            }
            j += 1;
        }
        proof {
            assert(bk.take(bk.len() as int) =~= bk);
            assert(self@.dirty_auth =~= old(self)@.dirty_auth.union(ak.to_set()));
            assert(self@.dirty_bundles =~= old(self)@.dirty_bundles.union(bk.to_set()));
        }
    }

    /// Reserves a mailbox slot; fails where the global cap is reached.
    pub fn reserve_mailbox_slot(&mut self) -> (r: bool)
        ensures
            r == has_slot(old(self)@),
            r ==> final(self)@ == slot_taken(old(self)@),
            !r ==> final(self)@ == old(self)@,
    {
        if self.mailbox_count >= MAX_MAILBOXES {
            return false;
        }
        self.mailbox_count = self.mailbox_count + 1;
        true
    }

    /// Counts a send to a destination, over all connections; refused where the window is full.
    pub fn allow_dest_send(&mut self, to: &str, now: u64) -> (r: bool)
        ensures
            r == counted_send(at(old(self)@.rate, to@), now).0,
            final(self)@ == send_counted(old(self)@, to@, now),
    {
        let (start, count) = match rate_get(&self.send_rate, to) {
            Some(w) => w,
            None => (now, 0u32),
        };
        if now.saturating_sub(start) > RATE_WINDOW_MS {
            rate_insert(&mut self.send_rate, to.to_owned(), (now, 1u32));
            return true;
        }
        if count >= MAX_SENDS_PER_DEST_PER_WINDOW {
            rate_insert(&mut self.send_rate, to.to_owned(), (start, count));
            return false;
        }
        rate_insert(&mut self.send_rate, to.to_owned(), (start, count + 1));
        true
    }

    /// Drops expired invite bundles, at most once in a while.
    pub fn prune_expired_bundles(&mut self, now: u64)
        ensures
            final(self)@ == pruned(old(self)@, now),
    {
        let last: u64 = self.last_bundle_prune_ms;
        if last != 0 && now.saturating_sub(last) < BUNDLE_PRUNE_MIN_INTERVAL_MS {
            return ;
        }
        self.last_bundle_prune_ms = now;
        let all: Vec<(String, u64, usize)> = bundles_list(&self.bundles);
        let ghost hosted = old(self)@.bundles;
        let ghost w = |b: BundleView| byte_len(b.ciphertext);
        let ghost mut seen: Set<Seq<char>> = Set::empty();
        let mut freed: usize = 0;
        let mut i: usize = 0;
        proof {
            assert(hosted.restrict(seen).dom() =~= Set::empty());
            assert(hosted.remove_keys(seen) =~= hosted);
            assert(old(self)@.dirty_bundles.union(seen) =~= old(self)@.dirty_bundles);
        }
        while i < all.len()
            invariant
                i <= all@.len(),
                hosted == old(self)@.bundles,
                w == (|b: BundleView| byte_len(b.ciphertext)),
                forall|j: int|
                    0 <= j < all@.len() ==> hosted.contains_key((#[trigger] all@[j]).0@)
                        && hosted[all@[j].0@].expires_at_ms == all@[j].1 && byte_len(
                        hosted[all@[j].0@].ciphertext,
                    ) == all@[j].2,
                forall|a: int, b: int|
                    0 <= a < b < all@.len() ==> (#[trigger] all@[a]).0@ != (#[trigger] all@[b]).0@,
                seen.finite(),
                forall|k: Seq<char>| #[trigger]
                    seen.contains(k) ==> hosted.contains_key(k) && hosted[k].expires_at_ms <= now,
                forall|j: int|
                    0 <= j < i && all@[j].1 <= now ==> seen.contains((#[trigger] all@[j]).0@),
                forall|j: int| i <= j < all@.len() ==> !seen.contains((#[trigger] all@[j]).0@),
                freed == capped(total_of(hosted.restrict(seen), w)),
                hosted.restrict(seen).dom().finite(),
                self@ == (StateView {
                    last_prune: now,
                    bundles: hosted.remove_keys(seen),
                    dirty_bundles: old(self)@.dirty_bundles.union(seen),
                    ..old(self)@
                }),
            decreases all@.len() - i,
        {
            if all[i].1 <= now {
                let id: String = all[i].0.clone();
                let len: usize = all[i].2;
                bundles_remove(&mut self.bundles, id.as_str());
                freed = freed.saturating_add(len);
                self.mark_bundle_dirty(id.as_str());
                proof {
                    let before = hosted.restrict(seen);
                    let k = all@[i as int].0@;
                    lemma_total_insert(before, w, k, hosted[k]);
                    assert(hosted.restrict(seen.insert(k)) =~= before.insert(k, hosted[k]));
                    assert(hosted.remove_keys(seen.insert(k)) =~= hosted.remove_keys(seen).remove(
                        k,
                    ));
                    assert(old(self)@.dirty_bundles.union(seen.insert(k)) =~= old(
                        self,
                    )@.dirty_bundles.union(seen).insert(k));
                    seen = seen.insert(k);
                }
            }
            i += 1;
        }
        proof {
            let gone = expired_bundles(hosted, now);
            assert(gone.dom() =~= seen) by {
                assert forall|k: Seq<char>| gone.dom().contains(k) implies seen.contains(k) by {
                    assert(hosted.contains_key(k));
                    let j = choose|j: int| 0 <= j < all@.len() && (#[trigger] all@[j]).0@ == k;
                    assert(all@[j].1 <= now);
                }
            }
            assert(hosted.restrict(seen) =~= gone);
        }
        atomic_sub_saturating(&mut self.total_bundle_bytes, freed);
    }

    /// The mailboxes idle for longer than their lease, each once, in no stated order.
    pub fn idle_mailboxes(&self, now: u64) -> (r: Vec<RecipientId>)
        ensures
            views(r@).no_duplicates(),
            forall|rid: Seq<char>| #[trigger]
                views(r@).contains(rid) <==> self@.auth.contains_key(rid) && is_idle(
                    self@.auth[rid],
                    now,
                ),
    {
        let all: Vec<(String, u64)> = auth_list(&self.mailbox_auth);
        let ghost auth = self@.auth;
        let mut out: Vec<RecipientId> = Vec::new();
        let mut i: usize = 0;
        while i < all.len()
            invariant
                i <= all@.len(),
                auth == self@.auth,
                forall|j: int|
                    0 <= j < all@.len() ==> auth.contains_key((#[trigger] all@[j]).0@)
                        && auth[all@[j].0@].last_active == all@[j].1,
                forall|a: int, b: int|
                    0 <= a < b < all@.len() ==> (#[trigger] all@[a]).0@ != (#[trigger] all@[b]).0@,
                views(out@).no_duplicates(),
                forall|rid: Seq<char>| #[trigger]
                    views(out@).contains(rid) ==> auth.contains_key(rid) && is_idle(auth[rid], now),
                forall|j: int|
                    0 <= j < i && now.saturating_sub(all@[j].1) > MAILBOX_IDLE_TTL_MS ==> views(
                        out@,
                    ).contains((#[trigger] all@[j]).0@),
                forall|j: int|
                    i <= j < all@.len() ==> !views(out@).contains((#[trigger] all@[j]).0@),
            decreases all@.len() - i,
        {
            if now.saturating_sub(all[i].1) > MAILBOX_IDLE_TTL_MS {
                let ghost before = views(out@);
                out.push(all[i].0.clone());
                proof {
                    let k = all@[i as int].0@;
                    assert(views(out@) =~= before.push(k));
                    assert forall|x: Seq<char>| #[trigger] views(out@).contains(x)
                        <==> before.contains(x) || x == k by {
                        lemma_push_contains(before, k, x);
                    }
                }
            }
            i += 1;
        }
        proof {
            assert forall|rid: Seq<char>| #[trigger] views(out@).contains(rid)
                <==> self@.auth.contains_key(rid) && is_idle(self@.auth[rid], now) by {
                if auth.contains_key(rid) && is_idle(auth[rid], now) {
                    let j = choose|j: int| 0 <= j < all@.len() && (#[trigger] all@[j]).0@ == rid;
                    assert(now.saturating_sub(all@[j].1) > MAILBOX_IDLE_TTL_MS);
                }
            }
        }
        out
    }

    /// Drops the candidates whose queue is empty and that no connection serves. The queues of the
    /// mailboxes handed back are to be purged.
    pub fn gc_idle_mailboxes(&mut self, candidates: &Vec<(RecipientId, bool)>) -> (r: Collection)
        ensures
            ({
                let stale = stale_mailboxes(candidates@, old(self)@.online);
                &&& views(r.stale@) == stale
                &&& final(self)@ == collected(old(self)@, stale)
                &&& r.removed == collected_count(old(self)@.auth, stale)
            }),
    {
        let ghost online = self@.online;
        let mut stale: Vec<RecipientId> = Vec::new();
        let mut i: usize = 0;
        proof {
            assert(views(stale@) =~= stale_mailboxes(candidates@.take(0), online));
        }
        while i < candidates.len()
            invariant
                i <= candidates@.len(),
                self@ == old(self)@,
                online == old(self)@.online,
                views(stale@) == stale_mailboxes(candidates@.take(i as int), online),
            decreases candidates@.len() - i,
        {
            proof {
                assert(candidates@.take(i + 1).drop_last() =~= candidates@.take(i as int));
            }
            if candidates[i].1 && online_get(&self.online, candidates[i].0.as_str()).is_none() {
                let ghost before = views(stale@);
                stale.push(candidates[i].0.clone());
                proof {
                    assert(views(stale@) =~= before.push(candidates@[i as int].0@));
                }
            }
            i += 1;
        }
        proof {
            assert(candidates@.take(candidates@.len() as int) =~= candidates@);
        }

        let ghost all = views(stale@);
        let ghost auth = old(self)@.auth;
        let mut removed: usize = 0;
        let mut j: usize = 0;
        proof {
            assert(all.take(0) =~= Seq::empty());
        }
        while j < stale.len()
            invariant
                j <= stale@.len(),
                all == views(stale@),
                auth == old(self)@.auth,
                self@ == collected(old(self)@, all.take(j as int)),
                removed == collected_count(auth, all.take(j as int)),
                removed <= j,
                forall|k: Seq<char>| #[trigger]
                    self@.auth.contains_key(k) <==> auth.contains_key(k) && !all.take(
                        j as int,
                    ).contains(k),
            decreases stale@.len() - j,
        {
            let rid: &str = stale[j].as_str();
            let ghost n = j as int;
            let ghost before = self@;
            proof {
                assert(all.take(n + 1).drop_last() =~= all.take(n));
                assert(all.take(n + 1).last() == rid@);
            }
            if auth_remove(&mut self.mailbox_auth, rid) {
                self.mailbox_count = self.mailbox_count.wrapping_sub(1);
                self.mark_auth_dirty(rid);
                removed += 1;
            }
            rate_remove(&mut self.send_rate, rid);
            proof {
                let after = collected(old(self)@, all.take(n + 1));
                assert(before.auth.contains_key(rid@) <==> auth.contains_key(rid@) && !all.take(
                    n,
                ).contains(rid@));
                if !before.auth.contains_key(rid@) {
                    assert(before.auth.remove(rid@) =~= before.auth);
                }
                assert(self@ =~= after);
                assert forall|k: Seq<char>| #[trigger] self@.auth.contains_key(k)
                    <==> auth.contains_key(k) && !all.take(n + 1).contains(k) by {
                    lemma_take_contains(all, n, k);
                }
            }
            j += 1;
        }
        proof {
            assert(all.take(all.len() as int) =~= all);
        }
        Collection { stale, removed }
    }

    /// Takes in a new connection; refused where the global cap is reached.
    pub fn open_connection(&mut self) -> (r: bool)
        ensures
            r == can_connect(old(self)@),
            r ==> final(self)@ == connected(old(self)@),
            !r ==> final(self)@ == old(self)@,
    {
        if self.conn_count >= MAX_CONNECTIONS {
            return false;
        }
        self.conn_count = self.conn_count + 1;
        true
    }

    /// Lets a connection go.
    pub fn close_connection(&mut self)
        ensures
            final(self)@ == disconnected(old(self)@),
    {
        self.conn_count = self.conn_count.wrapping_sub(1);
    }
}

} // verus!
