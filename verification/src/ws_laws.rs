//! What holds of every frame: who may change what, which limits and counts are kept, and that no
//! change is lost to the durable tables.

use crate::config::{
    MAILBOX_ACTIVITY_GRANULARITY_MS, MAX_BUNDLES, MAX_DELIVERY_TOKENS_PER_MAILBOX,
    MAX_FRAMES_PER_WINDOW, MAX_MAILBOXES, MAX_SENDS_PER_DEST_PER_WINDOW, MAX_TOTAL_BUNDLE_BYTES,
    PROTOCOL_MIN_SUPPORTED, PROTOCOL_VERSION, RATE_WINDOW_MS,
};
use crate::meta_store::in_step;
use crate::protocol::{ClientView, EnvelopeView, FrameView};
use crate::state::{
    activity_day, at, bundle_bytes, collected, collected_count, counted_send, expired_bundles,
    first_occurrences, is_idle, pruned, stale_mailboxes, takes_hash, with_hash, with_hashes,
    within_token_limit, AuthView, BundleView, StateView,
};
use crate::table::{lemma_total_insert, lemma_total_remove};
use crate::text::{byte_len, lemma_push_contains};
use crate::util::{has_pow, is_handle, is_recipient_id, token_digest};
use crate::ws::{
    certificate_step, counted_frame, digests, fetch_bundle_outcome, frame_outcome, frame_session,
    full_store_answer, gate_refusal, granted_expiry, hello_outcome, hosted, is_allowlist,
    negotiated, or_else, queued_answer, refused, renewed, send_outcome, upload_bundle_outcome,
    HelloView, SessionView, StepView,
};
use vstd::prelude::*;

verus! {

// ---------------------------------------------------------------------------
// Negotiation and registration
// ---------------------------------------------------------------------------

/// The negotiated version is spoken by both sides, is the newest such, and is found wherever there
/// is one.
pub proof fn law_negotiation(min: Option<u16>, max: Option<u16>, version: Option<u16>, v: u16)
    ensures
        ({
            let single = or_else(version, PROTOCOL_VERSION);
            let (lo, hi) = (or_else(min, single), or_else(max, single));
            let common = PROTOCOL_MIN_SUPPORTED <= v <= PROTOCOL_VERSION && lo <= v <= hi;
            &&& negotiated(min, max, version) matches Some(n) ==> PROTOCOL_MIN_SUPPORTED <= n
                <= PROTOCOL_VERSION && lo <= n <= hi
            &&& common ==> (negotiated(min, max, version) matches Some(n) && v <= n)
        }),
{
}

/// A hello that is refused changes nothing and authenticates nobody.
pub proof fn law_refused_hello_changes_nothing(
    st: StateView,
    se: SessionView,
    h: HelloView,
    now: u64,
)
    requires
        hello_outcome(st, h, se.conn, now).step !is Registered,
    ensures
        hello_outcome(st, h, se.conn, now).state == st,
        hello_outcome(st, h, se.conn, now).step is Reply,
{
}

/// A mailbox is opened only with the token that it was created with.
pub proof fn law_only_the_owner_registers(st: StateView, se: SessionView, h: HelloView, now: u64)
    requires
        st.auth.contains_key(h.rid),
        hello_outcome(st, h, se.conn, now).step is Registered,
    ensures
        st.auth[h.rid].receive == token_digest(h.auth_token),
        hello_outcome(st, h, se.conn, now).state.auth[h.rid].receive == st.auth[h.rid].receive,
{
}

/// A connection acts for a mailbox only after a hello for it was accepted.
pub proof fn law_authentication(
    st: StateView,
    se: SessionView,
    frame: ClientView,
    id: u128,
    now: u64,
)
    ensures
        ({
            let out = frame_outcome(st, se, frame, id, now);
            let after = frame_session(se, frame, out);
            after.rid != se.rid ==> (frame matches ClientView::Hello { recipient_id, .. }
                && after.rid == Some(recipient_id) && out.step is Registered)
        }),
{
}

/// A sender certificate is signed only for the mailbox of the connection.
pub proof fn law_certificate_for_own_mailbox(
    rid: Option<Seq<char>>,
    request_id: Seq<char>,
    sender_uuid: Seq<char>,
    device: u32,
    key_b64: Seq<char>,
    now: u64,
)
    ensures
        certificate_step(rid, request_id, sender_uuid, device, key_b64, now) matches StepView::Certify {
            sender_uuid: signed,
            sender_device_id,
            expires_at_ms,
            ..
        } ==> rid == Some(signed) && is_recipient_id(signed) && 1 <= sender_device_id <= 127
            && expires_at_ms >= now,
{
}

// ---------------------------------------------------------------------------
// Sending
// ---------------------------------------------------------------------------

/// A send without an accepted delivery token changes nothing and delivers nothing.
pub proof fn law_delivery_is_gated(
    st: StateView,
    client_ref: Option<Seq<char>>,
    token: Seq<char>,
    env: EnvelopeView,
    now: u64,
)
    requires
        !st.auth.contains_key(env.to) || !takes_hash(st.auth[env.to], token_digest(token)),
    ensures
        send_outcome(st, client_ref, token, env, now).state == st,
        send_outcome(st, client_ref, token, env, now).step is Reply,
        send_outcome(st, client_ref, token, env, now).step->Reply_frame is SendError,
{
}

/// An authorized, well-formed send within the rate is delivered as it came.
pub proof fn law_accepted_send_is_delivered(
    st: StateView,
    client_ref: Option<Seq<char>>,
    token: Seq<char>,
    env: EnvelopeView,
    now: u64,
)
    requires
        is_recipient_id(env.to),
        is_handle(token),
        byte_len(env.envelope_type) <= crate::config::MAX_ENVELOPE_TYPE_BYTES,
        byte_len(env.ciphertext) <= crate::config::MAX_FRAME_BYTES,
        st.auth.contains_key(env.to),
        takes_hash(st.auth[env.to], token_digest(token)),
        counted_send(at(st.rate, env.to), now).0,
    ensures
        send_outcome(st, client_ref, token, env, now).step == (StepView::Deliver {
            envelope: env,
            client_ref,
            live: at(st.online, env.to),
        }),
{
}

/// A full store never blocks live delivery: an envelope that was delivered live is a success.
pub proof fn law_full_store_keeps_live_delivery(
    total: usize,
    env: EnvelopeView,
    client_ref: Option<Seq<char>>,
    enqueued: bool,
)
    ensures
        full_store_answer(total, env, client_ref, true) matches Some(f) ==> f == (
        FrameView::SendOk { id: env.id, queued: false, client_ref }),
        queued_answer(env.id, client_ref, true, enqueued) == (FrameView::SendOk {
            id: env.id,
            queued: false,
            client_ref,
        }),
{
}

/// The sends that a destination takes of those at `times`.
pub open spec fn taken(window: Option<(u64, u32)>, times: Seq<u64>) -> nat
    decreases times.len(),
{
    if times.len() == 0 {
        0
    } else {
        let (allowed, next) = counted_send(window, times[0]);
        (if allowed {
            1nat
        } else {
            0nat
        }) + taken(Some(next), times.drop_first())
    }
}

/// Within one window a destination takes no more sends than its limit, over all connections.
pub proof fn law_send_rate(start: u64, count: u32, times: Seq<u64>)
    requires
        count <= MAX_SENDS_PER_DEST_PER_WINDOW,
        forall|i: int| 0 <= i < times.len() ==> #[trigger] times[i] <= start + RATE_WINDOW_MS,
    ensures
        count + taken(Some((start, count)), times) <= MAX_SENDS_PER_DEST_PER_WINDOW,
    decreases times.len(),
{
    if times.len() > 0 {
        let next = counted_send(Some((start, count)), times[0]).1;
        let rest = times.drop_first();
        assert(times[0] <= start + RATE_WINDOW_MS);
        assert forall|i: int| 0 <= i < rest.len() implies #[trigger] rest[i] <= start
            + RATE_WINDOW_MS by {
            assert(rest[i] == times[i + 1]);
        }
        law_send_rate(start, next.1, rest);
    }
}

/// A send to one mailbox leaves the rate and the record of every other as they were.
pub proof fn law_send_is_isolated(
    st: StateView,
    client_ref: Option<Seq<char>>,
    token: Seq<char>,
    env: EnvelopeView,
    now: u64,
    other: Seq<char>,
)
    requires
        other != env.to,
    ensures
        ({
            let after = send_outcome(st, client_ref, token, env, now).state;
            &&& at(after.rate, other) == at(st.rate, other)
            &&& at(after.auth, other) == at(st.auth, other)
            &&& after.online == st.online
        }),
{
}

/// Within one window a connection has no more frames read than its limit.
pub proof fn law_frame_rate(se: SessionView, now: u64, len: nat)
    ensures
        gate_refusal(counted_frame(se, now), len) is None ==> counted_frame(se, now).frame_count
            <= MAX_FRAMES_PER_WINDOW,
        now <= se.window_start + RATE_WINDOW_MS && se.frame_count < u32::MAX ==> counted_frame(
            se,
            now,
        ).frame_count == se.frame_count + 1 && counted_frame(se, now).window_start
            == se.window_start,
{
}

// ---------------------------------------------------------------------------
// Proof of work
// ---------------------------------------------------------------------------

/// A mailbox or an invite bundle comes into being, and a transfer is begun, only with a proof of
/// work for its identifier.
pub proof fn law_creation_needs_work(
    st: StateView,
    se: SessionView,
    frame: ClientView,
    id: u128,
    now: u64,
    k: Seq<char>,
)
    ensures
        ({
            let out = frame_outcome(st, se, frame, id, now);
            &&& out.state.auth.contains_key(k) && !st.auth.contains_key(k) ==> (
            frame matches ClientView::Hello { recipient_id, pow, .. } && recipient_id == k
                && has_pow(k, pow, now))
            &&& out.state.bundles.contains_key(k) && !st.bundles.contains_key(k) ==> (
            frame matches ClientView::UploadBundle { bundle_id, pow, .. } && bundle_id == k
                && has_pow(k, pow, now))
            &&& out.step matches StepView::StoreChunk { transfer_id, chunk_index, .. } ==> (
            chunk_index == 0 ==> (frame matches ClientView::UploadFileChunk {
                transfer_id: t,
                pow,
                ..
            } && t == transfer_id && has_pow(transfer_id, pow, now)))
        }),
{
}

// ---------------------------------------------------------------------------
// Invite bundles
// ---------------------------------------------------------------------------

/// A live invite bundle is neither replaced nor removed by any frame.
pub proof fn law_live_bundle_stays(
    st: StateView,
    se: SessionView,
    frame: ClientView,
    id: u128,
    now: u64,
    k: Seq<char>,
)
    requires
        st.bundles.contains_key(k),
        st.bundles[k].expires_at_ms > now,
    ensures
        frame_outcome(st, se, frame, id, now).state.bundles.contains_key(k),
        frame_outcome(st, se, frame, id, now).state.bundles[k] == st.bundles[k],
{
}

/// A fetch never hands out an expired bundle, and hands out one that was uploaded.
pub proof fn law_fetched_bundle_is_live(
    st: StateView,
    request_id: Seq<char>,
    bundle_id: Seq<char>,
    now: u64,
)
    ensures
        fetch_bundle_outcome(st, request_id, bundle_id, now).step matches StepView::Reply { frame }
            && (frame matches FrameView::Bundle { ciphertext, expires_at_ms, .. } ==> expires_at_ms
            > now && st.bundles.contains_key(bundle_id) && st.bundles[bundle_id].ciphertext
            == ciphertext && st.bundles[bundle_id].expires_at_ms == expires_at_ms),
        st.bundles.contains_key(bundle_id) && st.bundles[bundle_id].expires_at_ms > now
            ==> fetch_bundle_outcome(st, request_id, bundle_id, now).step == (StepView::Reply {
            frame: FrameView::Bundle {
                request_id,
                bundle_id: st.bundles[bundle_id].id,
                ciphertext: st.bundles[bundle_id].ciphertext,
                expires_at_ms: st.bundles[bundle_id].expires_at_ms,
            },
        }),
{
}

/// What was uploaded is fetched back until it expires, and it lives for at least a minute and at
/// most the longest lifetime.
pub proof fn law_upload_then_fetch_bundle(
    st: StateView,
    request_id: Seq<char>,
    bundle_id: Seq<char>,
    ciphertext: Seq<char>,
    asked: u64,
    pow: Option<Seq<char>>,
    now: u64,
    later: u64,
)
    requires
        upload_bundle_outcome(
            st,
            request_id,
            bundle_id,
            ciphertext,
            asked,
            pow,
            now,
        ).step matches StepView::Reply { frame } && frame is BundleUploaded,
    ensures
        ({
            let out = upload_bundle_outcome(
                st,
                request_id,
                bundle_id,
                ciphertext,
                asked,
                pow,
                now,
            );
            let expires = out.step->Reply_frame->BundleUploaded_expires_at_ms;
            &&& out.state.bundles.contains_key(bundle_id)
            &&& out.state.bundles[bundle_id].ciphertext == ciphertext
            &&& out.state.bundles[bundle_id].expires_at_ms == expires
            &&& later < expires ==> fetch_bundle_outcome(
                out.state,
                request_id,
                bundle_id,
                later,
            ).step == (StepView::Reply {
                frame: FrameView::Bundle {
                    request_id,
                    bundle_id: out.state.bundles[bundle_id].id,
                    ciphertext,
                    expires_at_ms: expires,
                },
            })
        }),
        now.saturating_add(crate::config::MIN_BUNDLE_TTL_MS) <= granted_expiry(asked, now)
            <= now.saturating_add(crate::config::MAX_BUNDLE_TTL_MS),
{
    let out = upload_bundle_outcome(st, request_id, bundle_id, ciphertext, asked, pow, now);
    if later < out.step->Reply_frame->BundleUploaded_expires_at_ms {
        law_fetched_bundle_is_live(out.state, request_id, bundle_id, later);
    }
}

// ---------------------------------------------------------------------------
// Counts and caps
// ---------------------------------------------------------------------------

/// Whether the counters match the maps that they count.
pub open spec fn counted(st: StateView) -> bool {
    &&& st.auth.dom().finite()
    &&& st.mailbox_count == st.auth.dom().len()
    &&& st.bundles.dom().finite()
    &&& st.bundle_bytes == bundle_bytes(st.bundles)
}

proof fn lemma_insert_dom<T>(m: Map<Seq<char>, T>, k: Seq<char>, v: T)
    requires
        m.dom().finite(),
    ensures
        m.insert(k, v).dom().finite(),
        m.insert(k, v).dom().len() == m.dom().len() + (if m.contains_key(k) {
            0int
        } else {
            1int
        }),
{
    assert(m.insert(k, v).dom() =~= m.dom().insert(k));
}

proof fn lemma_remove_dom<T>(m: Map<Seq<char>, T>, k: Seq<char>)
    requires
        m.dom().finite(),
    ensures
        m.remove(k).dom().finite(),
        m.remove(k).dom().len() == m.dom().len() - (if m.contains_key(k) {
            1int
        } else {
            0int
        }),
{
    assert(m.remove(k).dom() =~= m.dom().remove(k));
}

/// Taking bundles out takes their bytes.
proof fn lemma_bundles_split(bundles: Map<Seq<char>, BundleView>, gone: Set<Seq<char>>)
    requires
        bundles.dom().finite(),
        gone.finite(),
        gone.subset_of(bundles.dom()),
    ensures
        bundle_bytes(bundles) == bundle_bytes(bundles.remove_keys(gone)) + bundle_bytes(
            bundles.restrict(gone),
        ),
        bundles.remove_keys(gone).dom().finite(),
        bundles.remove_keys(gone).dom().len() <= bundles.dom().len(),
    decreases gone.len(),
{
    let w = |b: BundleView| byte_len(b.ciphertext);
    if gone.len() == 0 {
        assert(gone =~= Set::empty());
        assert(bundles.remove_keys(gone) =~= bundles);
        assert(bundles.restrict(gone).dom() =~= Set::empty());
    } else {
        let k = gone.choose();
        let rest = gone.remove(k);
        lemma_bundles_split(bundles, rest);
        let kept = bundles.remove_keys(rest);
        lemma_total_remove(kept, w, k);
        assert(kept.remove(k) =~= bundles.remove_keys(gone));
        assert(bundles.restrict(rest).dom() =~= rest);
        lemma_total_insert(bundles.restrict(rest), w, k, bundles[k]);
        assert(bundles.restrict(rest).insert(k, bundles[k]) =~= bundles.restrict(gone));
        assert(bundles.remove_keys(gone).dom() =~= kept.dom().remove(k));
    }
}

proof fn lemma_pruned_counted(st: StateView, now: u64)
    requires
        counted(st),
    ensures
        counted(pruned(st, now)),
        pruned(st, now).bundles.dom().len() <= st.bundles.dom().len(),
        pruned(st, now).bundle_bytes <= st.bundle_bytes,
{
    let gone = expired_bundles(st.bundles, now);
    assert(gone.dom().subset_of(st.bundles.dom()));
    vstd::set_lib::lemma_len_subset(gone.dom(), st.bundles.dom());
    lemma_bundles_split(st.bundles, gone.dom());
    assert(st.bundles.restrict(gone.dom()) =~= gone);
}

proof fn lemma_hosted_counted(st: StateView, b: BundleView)
    requires
        counted(st),
        st.bundle_bytes + byte_len(b.ciphertext) <= usize::MAX,
    ensures
        counted(hosted(st, b)),
        hosted(st, b).bundles.dom().len() <= st.bundles.dom().len() + 1,
        hosted(st, b).bundle_bytes <= st.bundle_bytes + byte_len(b.ciphertext),
{
    let w = |b: BundleView| byte_len(b.ciphertext);
    lemma_insert_dom(st.bundles, b.id, b);
    if st.bundles.contains_key(b.id) {
        lemma_total_remove(st.bundles, w, b.id);
        let rest = st.bundles.remove(b.id);
        lemma_remove_dom(st.bundles, b.id);
        lemma_total_insert(rest, w, b.id, b);
        assert(st.bundles.insert(b.id, b) =~= rest.insert(b.id, b));
    } else {
        lemma_total_insert(st.bundles, w, b.id, b);
    }
}

/// Every frame keeps the counters right and the caps: no mailbox, bundle or byte is taken in past
/// its limit.
pub proof fn law_frames_keep_counts(
    st: StateView,
    se: SessionView,
    frame: ClientView,
    id: u128,
    now: u64,
)
    requires
        counted(st),
    ensures
        ({
            let after = frame_outcome(st, se, frame, id, now).state;
            &&& counted(after)
            &&& after.mailbox_count <= st.mailbox_count || after.mailbox_count <= MAX_MAILBOXES
            &&& after.bundles.dom().len() <= st.bundles.dom().len() || after.bundles.dom().len()
                <= MAX_BUNDLES
            &&& after.bundle_bytes <= st.bundle_bytes || after.bundle_bytes
                <= MAX_TOTAL_BUNDLE_BYTES
        }),
{
    let after = frame_outcome(st, se, frame, id, now).state;
    match frame {
        ClientView::Hello { recipient_id, .. } => {
            if after != st {
                lemma_insert_dom(st.auth, recipient_id, after.auth[recipient_id]);
            }
        },
        ClientView::SetDeliveryTokens { .. } => {
            if after != st {
                let rid = se.rid->Some_0;
                lemma_insert_dom(st.auth, rid, after.auth[rid]);
            }
        },
        ClientView::SendEnvelope { to, .. } => {
            if after != st {
                lemma_insert_dom(st.auth, to, after.auth[to]);
            }
        },
        ClientView::UploadBundle { bundle_id, ciphertext, expires_at_ms, .. } => {
            lemma_pruned_counted(st, now);
            let p = pruned(st, now);
            if after != st && after != p {
                lemma_hosted_counted(
                    p,
                    BundleView {
                        id: bundle_id,
                        ciphertext,
                        created_at_ms: now,
                        expires_at_ms: granted_expiry(expires_at_ms, now),
                    },
                );
            }
        },
        ClientView::FetchBundle { .. } => {
            lemma_pruned_counted(st, now);
        },
        ClientView::RetireMailbox => {
            if let Some(rid) = se.rid {
                lemma_remove_dom(st.auth, rid);
                if st.auth.contains_key(rid) && st.mailbox_count == 0 {
                    assert(st.auth.dom() =~= Set::empty());
                }
            }
        },
        _ => {},
    }
}

// ---------------------------------------------------------------------------
// Writing back
// ---------------------------------------------------------------------------

/// Every change of a record or a bundle is marked, so that a table in step with the live maps stays
/// in step.
pub proof fn law_changes_are_marked(
    st: StateView,
    se: SessionView,
    frame: ClientView,
    id: u128,
    now: u64,
    auth_table: Map<Seq<char>, AuthView>,
    bundle_table: Map<Seq<char>, BundleView>,
)
    requires
        in_step(auth_table, st.auth, st.dirty_auth),
        in_step(bundle_table, st.bundles, st.dirty_bundles),
    ensures
        ({
            let after = frame_outcome(st, se, frame, id, now).state;
            &&& in_step(auth_table, after.auth, after.dirty_auth)
            &&& in_step(bundle_table, after.bundles, after.dirty_bundles)
        }),
{
    let after = frame_outcome(st, se, frame, id, now).state;
    assert forall|k: Seq<char>| !after.dirty_auth.contains(k) implies (
    #[trigger] auth_table.contains_key(k) <==> after.auth.contains_key(k)) && (
    auth_table.contains_key(k) ==> auth_table[k] == after.auth[k]) by {
        assert(!st.dirty_auth.contains(k));
        assert(after.auth.contains_key(k) == st.auth.contains_key(k) && (st.auth.contains_key(k)
            ==> after.auth[k] == st.auth[k]));
    }
    assert forall|k: Seq<char>| !after.dirty_bundles.contains(k) implies (
    #[trigger] bundle_table.contains_key(k) <==> after.bundles.contains_key(k)) && (
    bundle_table.contains_key(k) ==> bundle_table[k] == after.bundles[k]) by {
        assert(!st.dirty_bundles.contains(k));
        assert(after.bundles.contains_key(k) == st.bundles.contains_key(k)
            && (st.bundles.contains_key(k) ==> after.bundles[k] == st.bundles[k]));
    }
}

// ---------------------------------------------------------------------------
// Delivery tokens
// ---------------------------------------------------------------------------

/// Whether a record keeps its tokens within the limit, each once.
pub open spec fn tokens_in_order(a: AuthView) -> bool {
    a.hashes.len() <= MAX_DELIVERY_TOKENS_PER_MAILBOX && a.hashes.no_duplicates()
}

/// First occurrences are the same texts, each once.
pub proof fn law_first_occurrences(s: Seq<Seq<char>>, x: Seq<char>)
    ensures
        first_occurrences(s).no_duplicates(),
        first_occurrences(s).len() <= s.len(),
        first_occurrences(s).contains(x) <==> s.contains(x),
    decreases s.len(),
{
    if s.len() > 0 {
        let init = s.drop_last();
        law_first_occurrences(init, x);
        law_first_occurrences(init, s.last());
        lemma_push_contains(first_occurrences(init), s.last(), x);
        lemma_push_contains(init, s.last(), x);
        assert(s =~= init.push(s.last()));
    }
}

/// A hello and a replaced allowlist keep the tokens of a mailbox within the limit, each once.
pub proof fn law_tokens_bounded(a: AuthView, hash: Seq<char>, hashes: Seq<Seq<char>>)
    requires
        tokens_in_order(a),
    ensures
        tokens_in_order(with_hash(a, hash)),
        takes_hash(with_hash(a, hash), hash),
        tokens_in_order(with_hashes(a, hashes)),
{
    let b = with_hash(a, hash);
    if !a.hashes.contains(hash) {
        let rest = if a.hashes.len() >= MAX_DELIVERY_TOKENS_PER_MAILBOX {
            a.hashes.drop_first()
        } else {
            a.hashes
        };
        assert(!rest.contains(hash)) by {
            if rest.contains(hash) {
                let i = choose|i: int| 0 <= i < rest.len() && rest[i] == hash;
                assert(a.hashes.contains(hash)) by {
                    if a.hashes.len() >= MAX_DELIVERY_TOKENS_PER_MAILBOX {
                        assert(a.hashes[i + 1] == hash);
                    }
                }
            }
        }
        assert(b.hashes == rest.push(hash));
        lemma_push_contains(rest, hash, hash);
    }
    law_first_occurrences(within_token_limit(hashes), hash);
}

/// Replacing the allowlist revokes every token that is not on it, and no other.
pub proof fn law_allowlist_decides(a: AuthView, tokens: Seq<Seq<char>>, hash: Seq<char>)
    requires
        is_allowlist(tokens),
    ensures
        takes_hash(with_hashes(a, digests(tokens)), hash) <==> digests(tokens).contains(hash),
{
    let list = digests(tokens);
    assert(within_token_limit(list) == list);
    law_first_occurrences(list, hash);
    law_first_occurrences(list, list[0]);
    assert(list.contains(list[0]));
    let kept = first_occurrences(list);
    assert(kept.len() > 0) by {
        assert(kept.contains(list[0]));
    }
    law_first_occurrences(list, kept[0]);
    assert(kept.contains(kept[0]));
}

/// A stored last activity names a day and no time of day.
pub proof fn law_activity_is_a_day(now: u64)
    ensures
        activity_day(now) % MAILBOX_ACTIVITY_GRANULARITY_MS == 0,
        activity_day(now) <= now < activity_day(now) + MAILBOX_ACTIVITY_GRANULARITY_MS,
{
    let g = MAILBOX_ACTIVITY_GRANULARITY_MS as int;
    vstd::arithmetic::div_mod::lemma_fundamental_div_mod(now as int, g);
    vstd::arithmetic::div_mod::lemma_mod_decreases(now as nat, g as nat);
    vstd::arithmetic::div_mod::lemma_mod_multiples_basic(now as int / g, g);
    assert(activity_day(now) == g * (now as int / g));
    assert(g * (now as int / g) == (now as int / g) * g) by (nonlinear_arith);
}

// ---------------------------------------------------------------------------
// Collection
// ---------------------------------------------------------------------------

/// Only candidates with an empty queue and no connection are collected.
pub proof fn law_collects_only_abandoned(
    candidates: Seq<(String, bool)>,
    online: Map<Seq<char>, u64>,
    rid: Seq<char>,
)
    ensures
        stale_mailboxes(candidates, online).contains(rid) <==> !online.contains_key(rid)
            && exists|i: int|
            0 <= i < candidates.len() && (#[trigger] candidates[i]).0@ == rid && candidates[i].1,
    decreases candidates.len(),
{
    if candidates.len() > 0 {
        let init = candidates.drop_last();
        let last = candidates[candidates.len() - 1];
        law_collects_only_abandoned(init, online, rid);
        lemma_push_contains(stale_mailboxes(init, online), last.0@, rid);
        if exists|i: int|
            0 <= i < candidates.len() && (#[trigger] candidates[i]).0@ == rid && candidates[i].1 {
            let i = choose|i: int|
                0 <= i < candidates.len() && (#[trigger] candidates[i]).0@ == rid
                    && candidates[i].1;
            if i < init.len() {
                assert(init[i].0@ == rid && init[i].1);
            }
        }
        if exists|i: int| 0 <= i < init.len() && (#[trigger] init[i]).0@ == rid && init[i].1 {
            let i = choose|i: int|
                0 <= i < init.len() && (#[trigger] init[i]).0@ == rid && init[i].1;
            assert(candidates[i].0@ == rid && candidates[i].1);
        }
    }
}

/// A collection takes exactly the records of the collected mailboxes, marks each, and keeps the
/// counters right.
pub proof fn law_collection(st: StateView, stale: Seq<Seq<char>>)
    requires
        counted(st),
    ensures
        ({
            let after = collected(st, stale);
            &&& counted(after)
            &&& after.auth =~= st.auth.remove_keys(stale.to_set())
            &&& after.rate =~= st.rate.remove_keys(stale.to_set())
            &&& after.dirty_auth =~= st.dirty_auth.union(stale.to_set().intersect(st.auth.dom()))
            &&& after.mailbox_count == st.mailbox_count - collected_count(st.auth, stale)
            &&& after.online == st.online
            &&& after.bundles == st.bundles
        }),
    decreases stale.len(),
{
    let after = collected(st, stale);
    if stale.len() == 0 {
        assert(stale.to_set() =~= Set::empty());
        assert(st.auth.remove_keys(stale.to_set()) =~= st.auth);
    } else {
        let init = stale.drop_last();
        let rid = stale.last();
        law_collection(st, init);
        let before = collected(st, init);
        lemma_remove_dom(before.auth, rid);
        assert forall|k: Seq<char>| stale.to_set().contains(k) <==> init.to_set().contains(k) || k
            == rid by {
            lemma_push_contains(init, rid, k);
            assert(stale =~= init.push(rid));
        }
        if before.auth.contains_key(rid) && before.mailbox_count == 0 {
            assert(before.auth.dom() =~= Set::empty());
        }
        assert(before.auth.contains_key(rid) <==> st.auth.contains_key(rid) && !init.contains(rid))
            by {
            assert(init.to_set().contains(rid) <==> init.contains(rid));
        }
        if !before.auth.contains_key(rid) {
            assert(before.auth.remove(rid) =~= before.auth);
        }
    }
}

/// A collection marks what it takes, so that a table in step with the live records stays in step.
pub proof fn law_collection_is_marked(
    st: StateView,
    stale: Seq<Seq<char>>,
    table: Map<Seq<char>, AuthView>,
)
    requires
        counted(st),
        in_step(table, st.auth, st.dirty_auth),
    ensures
        in_step(table, collected(st, stale).auth, collected(st, stale).dirty_auth),
{
    law_collection(st, stale);
    let after = collected(st, stale);
    assert forall|k: Seq<char>| !after.dirty_auth.contains(k) implies (
    #[trigger] table.contains_key(k) <==> after.auth.contains_key(k)) && (table.contains_key(k)
        ==> table[k] == after.auth[k]) by {
        assert(!st.dirty_auth.contains(k));
        assert(!(stale.to_set().contains(k) && st.auth.contains_key(k)));
    }
}

/// A mailbox whose lease was renewed is not idle before the lease has run out.
pub proof fn law_active_mailbox_is_kept(a: AuthView, now: u64, later: u64)
    requires
        a.last_active == activity_day(now),
        later <= now + crate::config::MAILBOX_IDLE_TTL_MS - MAILBOX_ACTIVITY_GRANULARITY_MS,
    ensures
        !is_idle(a, later),
{
    law_activity_is_a_day(now);
}

} // verus!
