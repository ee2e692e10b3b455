//! What the state keeps of a mailbox, a bundle and a connection, and what each change to it is.

use crate::config::{
    FileConfig, MAILBOX_ACTIVITY_GRANULARITY_MS, MAILBOX_IDLE_TTL_MS, MAX_CONNECTIONS,
    MAX_DELIVERY_TOKENS_PER_MAILBOX, MAX_MAILBOXES, MAX_SENDS_PER_DEST_PER_WINDOW, RATE_WINDOW_MS,
};
use crate::protocol::RecipientId;
use crate::state::{
    all_clean, at, auth_marked, built, bundle_marked, can_connect, collected, connected, counted_send,
    disconnected, drained, first_occurrences, fresh_auth, has_slot, is_idle, leased, loaded_auth,
    loaded_bundle_bytes, loaded_bundles, marked_again, send_counted, slot_taken, takes_hash,
    with_hash, with_hashes, within_token_limit, AuthView, HostedBundle, MailboxAuth, StateView,
};
use crate::text::lemma_push_contains;
use crate::ws_laws::{law_activity_is_a_day, law_first_occurrences};
use vstd::prelude::*;
use vstd::utf8::encode_utf8;

verus! {

// ---------------------------------------------------------------------------
// Mailbox records
// ---------------------------------------------------------------------------

/// A new record keeps the hash of its owner's token, takes the one delivery token that it was
/// created with, and was active on the day of its creation.
pub proof fn law_new_record(receive: Seq<char>, delivery: Seq<char>, now: u64, hash: Seq<char>)
    ensures
        ({
            let a = fresh_auth(receive, delivery, now);
            &&& a.receive == receive
            &&& a.primary == delivery
            &&& a.hashes.len() == 1
            &&& takes_hash(a, hash) <==> hash == delivery
            &&& a.last_active % MAILBOX_ACTIVITY_GRANULARITY_MS == 0
            &&& a.last_active <= now < a.last_active + MAILBOX_ACTIVITY_GRANULARITY_MS
        }),
{
    law_activity_is_a_day(now);
    let a = fresh_auth(receive, delivery, now);
    assert(a.hashes[0] == delivery);
}

/// A record takes exactly its primary hash and those on its list.
pub proof fn law_takes(a: AuthView, hash: Seq<char>)
    ensures
        takes_hash(a, hash) <==> a.primary == hash || exists|i: int|
            0 <= i < a.hashes.len() && a.hashes[i] == hash,
{
}

/// Adding a hash to a record makes it take that hash. A list that is not full loses nothing; a full
/// one loses its oldest hash and no other. Nothing but the hashes changes, and a primary hash that
/// is set stays.
pub proof fn law_hash_added(a: AuthView, hash: Seq<char>, other: Seq<char>)
    ensures
        ({
            let b = with_hash(a, hash);
            let full = a.hashes.len() >= MAX_DELIVERY_TOKENS_PER_MAILBOX;
            &&& takes_hash(b, hash) && b.hashes.contains(hash)
            &&& b.receive == a.receive && b.last_active == a.last_active
            &&& a.primary.len() > 0 ==> b.primary == a.primary
            &&& a.primary.len() == 0 ==> b.primary == hash
            &&& a.hashes.contains(hash) ==> b.hashes == a.hashes
            &&& !a.hashes.contains(hash) && !full ==> b.hashes.len() == a.hashes.len() + 1
                && b.hashes.last() == hash && forall|i: int|
                0 <= i < a.hashes.len() ==> b.hashes[i] == a.hashes[i]
            &&& !a.hashes.contains(hash) && full ==> b.hashes.len() == a.hashes.len()
                && b.hashes.last() == hash && forall|i: int|
                1 <= i < a.hashes.len() ==> b.hashes[i - 1] == #[trigger] a.hashes[i]
        }),
{
    let rest = if a.hashes.len() >= MAX_DELIVERY_TOKENS_PER_MAILBOX {
        a.hashes.drop_first()
    } else {
        a.hashes
    };
    lemma_push_contains(rest, hash, hash);
}

/// Replacing the hashes of a record makes it take exactly the first of them, as many as a mailbox
/// may have; the first is the primary, none is kept twice, and hashes that are all different are
/// kept in their order. Nothing else changes.
pub proof fn law_hashes_replaced(a: AuthView, hashes: Seq<Seq<char>>, hash: Seq<char>)
    ensures
        ({
            let b = with_hashes(a, hashes);
            let n = if hashes.len() <= MAX_DELIVERY_TOKENS_PER_MAILBOX {
                hashes.len() as int
            } else {
                MAX_DELIVERY_TOKENS_PER_MAILBOX as int
            };
            &&& b.receive == a.receive && b.last_active == a.last_active
            &&& b.hashes.len() <= n && b.hashes.no_duplicates()
            &&& b.hashes.contains(hash) <==> exists|i: int| 0 <= i < n && hashes[i] == hash
            &&& hashes.len() > 0 ==> b.primary == hashes[0] && b.hashes[0] == hashes[0]
            &&& hashes.len() == 0 ==> b.primary.len() == 0
            &&& hashes.no_duplicates() ==> b.hashes == hashes.take(n)
        }),
{
    let kept = within_token_limit(hashes);
    let n = kept.len() as int;
    assert(kept =~= hashes.take(n));
    law_first_occurrences(kept, hash);
    lemma_first_stays(kept);
    if exists|i: int| 0 <= i < n && hashes[i] == hash {
        let i = choose|i: int| 0 <= i < n && hashes[i] == hash;
        assert(kept[i] == hash);
    }
    if kept.contains(hash) {
        let i = choose|i: int| 0 <= i < kept.len() && kept[i] == hash;
        assert(hashes[i] == hash);
    }
    if hashes.no_duplicates() {
        lemma_distinct_stay(kept);
    }
}

/// The first of some texts is the first that occurs, and a list within the limit stays whole.
pub proof fn lemma_first_stays(s: Seq<Seq<char>>)
    ensures
        s.len() > 0 ==> first_occurrences(s).len() > 0 && first_occurrences(s)[0] == s[0],
        s.len() <= MAX_DELIVERY_TOKENS_PER_MAILBOX ==> within_token_limit(s) == s,
        first_occurrences(s).len() <= s.len(),
    decreases s.len(),
{
    if s.len() > 0 {
        lemma_first_stays(s.drop_last());
    }
}

proof fn lemma_distinct_stay(s: Seq<Seq<char>>)
    requires
        s.no_duplicates(),
    ensures
        first_occurrences(s) == s,
    decreases s.len(),
{
    if s.len() > 0 {
        let init = s.drop_last();
        lemma_distinct_stay(init);
        assert(!init.contains(s.last())) by {
            if init.contains(s.last()) {
                let i = choose|i: int| 0 <= i < init.len() && init[i] == s.last();
                assert(s[i] == s[s.len() - 1]);
            }
        }
        assert(s =~= init.push(s.last()));
    }
}

/// A mailbox is idle exactly where its lease has run out: more than the lease lies between its last
/// activity and now.
pub proof fn law_idle(a: AuthView, now: u64)
    ensures
        is_idle(a, now) <==> now > a.last_active + MAILBOX_IDLE_TTL_MS,
{
}

/// A collection takes nothing but records and rate windows.
pub proof fn law_collection_keeps_the_rest(st: StateView, stale: Seq<Seq<char>>)
    ensures
        (StateView {
            auth: st.auth,
            mailbox_count: st.mailbox_count,
            dirty_auth: st.dirty_auth,
            rate: st.rate,
            ..collected(st, stale)
        }) == st,
    decreases stale.len(),
{
    if stale.len() > 0 {
        law_collection_keeps_the_rest(st, stale.drop_last());
    }
}

// ---------------------------------------------------------------------------
// Rates
// ---------------------------------------------------------------------------

/// A send to a destination fits exactly where the window of the destination is new, over, or has
/// counted less than the limit. It is counted as the first of a window that begins now, or as one
/// more; one that does not fit is not counted. Nothing else changes.
pub proof fn law_send_counted(st: StateView, to: Seq<char>, now: u64, other: Seq<char>)
    ensures
        ({
            let known = st.rate.contains_key(to);
            let over = known && now > st.rate[to].0 + RATE_WINDOW_MS;
            let full = known && !over && st.rate[to].1 >= MAX_SENDS_PER_DEST_PER_WINDOW;
            let after = send_counted(st, to, now);
            &&& counted_send(at(st.rate, to), now).0 <==> !full
            &&& after.rate.contains_key(to)
            &&& !known || over ==> after.rate[to] == (now, 1u32)
            &&& known && !over && !full ==> after.rate[to].0 == st.rate[to].0 && after.rate[to].1
                == st.rate[to].1 + 1
            &&& full ==> after.rate[to] == st.rate[to]
            &&& other != to ==> after.rate.contains_key(other) == st.rate.contains_key(other)
                && after.rate[other] == st.rate[other]
            &&& (StateView { rate: st.rate, ..after }) == st
        }),
{
}

// ---------------------------------------------------------------------------
// Counters and marks
// ---------------------------------------------------------------------------

/// A mailbox slot is given exactly below the limit, and counts one.
pub proof fn law_slots(st: StateView)
    ensures
        has_slot(st) <==> st.mailbox_count < MAX_MAILBOXES,
        has_slot(st) ==> slot_taken(st).mailbox_count == st.mailbox_count + 1,
        (StateView { mailbox_count: st.mailbox_count, ..slot_taken(st) }) == st,
{
}

/// A connection is taken in exactly below the limit and counts one; letting it go gives it back.
pub proof fn law_connections(st: StateView)
    ensures
        can_connect(st) <==> st.conns < MAX_CONNECTIONS,
        can_connect(st) ==> connected(st).conns == st.conns + 1 && disconnected(connected(st)) == st,
        st.conns > 0 ==> disconnected(st).conns == st.conns - 1,
        (StateView { conns: st.conns, ..connected(st) }) == st,
        (StateView { conns: st.conns, ..disconnected(st) }) == st,
{
}

/// Marking adds one key to one set, draining empties both, and a failed flush marks its keys again;
/// none of them changes anything else.
pub proof fn law_marks(
    st: StateView,
    key: Seq<char>,
    auth_keys: Seq<Seq<char>>,
    bundle_keys: Seq<Seq<char>>,
    k: Seq<char>,
)
    ensures
        auth_marked(st, key).dirty_auth.contains(k) <==> st.dirty_auth.contains(k) || k == key,
        (StateView { dirty_auth: st.dirty_auth, ..auth_marked(st, key) }) == st,
        bundle_marked(st, key).dirty_bundles.contains(k) <==> st.dirty_bundles.contains(k) || k
            == key,
        (StateView { dirty_bundles: st.dirty_bundles, ..bundle_marked(st, key) }) == st,
        !drained(st).dirty_auth.contains(k) && !drained(st).dirty_bundles.contains(k),
        (StateView {
            dirty_auth: st.dirty_auth,
            dirty_bundles: st.dirty_bundles,
            ..drained(st)
        }) == st,
        marked_again(st, auth_keys, bundle_keys).dirty_auth.contains(k)
            <==> st.dirty_auth.contains(k) || auth_keys.contains(k),
        marked_again(st, auth_keys, bundle_keys).dirty_bundles.contains(k)
            <==> st.dirty_bundles.contains(k) || bundle_keys.contains(k),
        (StateView {
            dirty_auth: st.dirty_auth,
            dirty_bundles: st.dirty_bundles,
            ..marked_again(st, auth_keys, bundle_keys)
        }) == st,
{
}

/// A state is clean exactly where nothing is marked; draining makes it so, and marking undoes it.
pub proof fn law_clean(st: StateView, k: Seq<char>)
    ensures
        all_clean(st) <==> forall|x: Seq<char>|
            !(#[trigger] st.dirty_auth.contains(x)) && !st.dirty_bundles.contains(x),
        all_clean(drained(st)),
        !all_clean(auth_marked(st, k)),
        !all_clean(bundle_marked(st, k)),
{
    assert(auth_marked(st, k).dirty_auth.contains(k));
    assert(bundle_marked(st, k).dirty_bundles.contains(k));
    if forall|x: Seq<char>|
        !(#[trigger] st.dirty_auth.contains(x)) && !st.dirty_bundles.contains(x) {
        assert forall|x: Seq<char>| !st.dirty_bundles.contains(x) by {
            assert(!st.dirty_auth.contains(x));
        }
        assert(st.dirty_auth =~= Set::empty());
        assert(st.dirty_bundles =~= Set::empty());
    }
}

// ---------------------------------------------------------------------------
// Loading
// ---------------------------------------------------------------------------

/// A loaded record is the stored one; only a missing last activity is replaced, by today.
pub proof fn law_lease(a: AuthView, now: u64)
    ensures
        ({
            let b = leased(a, now);
            &&& b.receive == a.receive && b.primary == a.primary && b.hashes == a.hashes
            &&& a.last_active != 0 ==> b.last_active == a.last_active
            &&& a.last_active == 0 ==> b.last_active % MAILBOX_ACTIVITY_GRANULARITY_MS == 0
                && b.last_active <= now < b.last_active + MAILBOX_ACTIVITY_GRANULARITY_MS
        }),
{
    law_activity_is_a_day(now);
}

/// Loading gives each stored mailbox its last stored record, and no mailbox that is not stored.
pub proof fn law_loads_records(rows: Seq<(RecipientId, MailboxAuth)>, now: u64, i: int, k: Seq<char>)
    requires
        0 <= i < rows.len(),
        forall|j: int| i < j < rows.len() ==> (#[trigger] rows[j]).0@ != rows[i].0@,
    ensures
        loaded_auth(rows, now).contains_key(rows[i].0@),
        loaded_auth(rows, now)[rows[i].0@] == leased(rows[i].1@, now),
        loaded_auth(rows, now).contains_key(k) ==> exists|j: int|
            0 <= j < rows.len() && (#[trigger] rows[j]).0@ == k,
    decreases rows.len(),
{
    let init = rows.drop_last();
    if i < init.len() {
        assert(rows[rows.len() - 1].0@ != rows[i].0@);
        assert forall|j: int| i < j < init.len() implies (#[trigger] init[j]).0@ != init[i].0@ by {
            assert(init[j] == rows[j]);
        }
        law_loads_records(init, now, i, k);
    }
    lemma_loads_only_stored(rows, now, k);
}

proof fn lemma_loads_only_stored(rows: Seq<(RecipientId, MailboxAuth)>, now: u64, k: Seq<char>)
    ensures
        loaded_auth(rows, now).contains_key(k) ==> exists|j: int|
            0 <= j < rows.len() && (#[trigger] rows[j]).0@ == k,
    decreases rows.len(),
{
    if rows.len() > 0 && loaded_auth(rows, now).contains_key(k) {
        let init = rows.drop_last();
        if rows.last().0@ == k {
            assert(rows[rows.len() - 1].0@ == k);
        } else {
            lemma_loads_only_stored(init, now, k);
            let j = choose|j: int| 0 <= j < init.len() && (#[trigger] init[j]).0@ == k;
            assert(rows[j].0@ == k);
        }
    }
}

/// Loading gives each stored bundle under its own identifier, and no bundle that is not stored.
pub proof fn law_loads_bundles(rows: Seq<HostedBundle>, i: int, k: Seq<char>)
    requires
        0 <= i < rows.len(),
        forall|j: int| i < j < rows.len() ==> (#[trigger] rows[j]).id@ != rows[i].id@,
    ensures
        loaded_bundles(rows).contains_key(rows[i].id@),
        loaded_bundles(rows)[rows[i].id@] == rows[i]@,
        loaded_bundles(rows).contains_key(k) ==> exists|j: int|
            0 <= j < rows.len() && (#[trigger] rows[j]).id@ == k,
    decreases rows.len(),
{
    let init = rows.drop_last();
    if i < init.len() {
        assert(rows[rows.len() - 1].id@ != rows[i].id@);
        assert forall|j: int| i < j < init.len() implies (#[trigger] init[j]).id@ != init[i].id@ by {
            assert(init[j] == rows[j]);
        }
        law_loads_bundles(init, i, k);
    }
    lemma_loads_only_hosted(rows, k);
}

proof fn lemma_loads_only_hosted(rows: Seq<HostedBundle>, k: Seq<char>)
    ensures
        loaded_bundles(rows).contains_key(k) ==> exists|j: int|
            0 <= j < rows.len() && (#[trigger] rows[j]).id@ == k,
    decreases rows.len(),
{
    if rows.len() > 0 && loaded_bundles(rows).contains_key(k) {
        let init = rows.drop_last();
        if rows.last().id@ == k {
            assert(rows[rows.len() - 1].id@ == k);
        } else {
            lemma_loads_only_hosted(init, k);
            let j = choose|j: int| 0 <= j < init.len() && (#[trigger] init[j]).id@ == k;
            assert(rows[j].id@ == k);
        }
    }
}

/// A state that was just built has loaded the rows, counts them, serves no connection, has nothing
/// to write back, and carries the limits and the trust root that it was given.
pub proof fn law_built(
    auth_rows: Seq<(RecipientId, MailboxAuth)>,
    bundle_rows: Seq<HostedBundle>,
    config: FileConfig,
    trust_root: Seq<char>,
    now: u64,
    k: Seq<char>,
    next: HostedBundle,
)
    ensures
        ({
            let st = built(auth_rows, bundle_rows, config, trust_root, now);
            &&& !st.online.contains_key(k) && !st.rate.contains_key(k)
            &&& !st.dirty_auth.contains(k) && !st.dirty_bundles.contains(k)
            &&& st.conns == 0 && st.last_prune == 0
            &&& st.trust_root == trust_root && st.file_config == config
            &&& st.auth == loaded_auth(auth_rows, now) && st.bundles == loaded_bundles(bundle_rows)
            &&& st.auth.dom().len() <= usize::MAX ==> st.mailbox_count == st.auth.dom().len()
            &&& loaded_bundle_bytes(bundle_rows) <= usize::MAX ==> st.bundle_bytes
                == loaded_bundle_bytes(bundle_rows)
        }),
        loaded_bundle_bytes(Seq::empty()) == 0,
        loaded_bundle_bytes(bundle_rows.push(next)) == loaded_bundle_bytes(bundle_rows)
            + encode_utf8(next.ciphertext@).len(),
{
    assert(bundle_rows.push(next).drop_last() =~= bundle_rows);
}

} // verus!
