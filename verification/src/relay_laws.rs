//! What clients see over several requests: what one asks for after another has sent it.

use crate::config::{
    MAX_BUNDLES, MAX_BUNDLE_BYTES, MAX_DELIVERY_TOKENS_PER_MAILBOX, MAX_ENVELOPE_TYPE_BYTES,
    MAX_FRAME_BYTES, MAX_SENDS_PER_DEST_PER_WINDOW, MAX_TOTAL_BUNDLE_BYTES, RATE_WINDOW_MS,
};
use crate::file_laws::uploaded;
use crate::file_store::{
    fetch_outcome, file_chunk_key, upload_outcome, ChunkFound, ChunkRequest, FilesView,
};
use crate::frame_laws::{
    law_ack_is_whole, law_bundle_fetch, law_bundle_is_accepted, law_fetch_is_exact,
    law_hello_decides, law_hello_effect, law_retire, law_send_decides, law_tokens_are_set,
    law_upload_is_exact,
};
use crate::outside::{b64_text, law_b64_roundtrip};
use crate::protocol::{ClientView, EnvelopeView, FrameView};
use crate::queue_laws::{
    canonical, law_ack_removes, law_enqueue_appends, lists, of_mailbox, reflects,
    table_after_enqueue,
};
use crate::queue_store::{
    acked_rows, envelopes_of, queue_of, row_keys, seen_before, value_of, EntryView, LookupView,
    RowView, ValueView,
};
use crate::state::StateView;
use crate::table::without;
use crate::util::{has_pow, is_handle, is_recipient_id, law_ids_hold_no_separator, token_digest};
use crate::ws::{fetched_answer, frame_outcome, SessionView, StepView};
use vstd::prelude::*;
use vstd::utf8::encode_utf8;

verus! {

/// After an acknowledgement no identifier that its frame lists is left in the queue of the mailbox,
/// and every other envelope is, in its old place. `t` is the queue table, `rows` and `rows2` are the
/// rows of the mailbox before and after, and `ls` is what the table holds for the identifiers that
/// the step asks for.
pub proof fn law_acknowledged_are_gone(
    st: StateView,
    se: SessionView,
    ids: Seq<u128>,
    id: u128,
    now: u64,
    mailbox: Seq<char>,
    t: Map<Seq<char>, Option<ValueView>>,
    rows: Seq<RowView>,
    rows2: Seq<RowView>,
    ls: Seq<LookupView>,
)
    requires
        se.rid == Some(mailbox),
        !mailbox.contains(':'),
        canonical(t, mailbox),
        lists(rows, t, of_mailbox(mailbox)),
        ({
            let step = frame_outcome(st, se, ClientView::Ack { ids }, id, now).step;
            &&& step matches StepView::Ack { mailbox: owner, ids: listed }
            &&& ls.len() == listed.len()
            &&& forall|i: int| 0 <= i < ls.len() ==> (#[trigger] ls[i]).id == listed[i]
            &&& reflects(ls, t, owner)
            &&& lists(rows2, without(t, row_keys(acked_rows(owner, ls))), of_mailbox(owner))
        }),
    ensures
        forall|i: int, j: int|
            0 <= i < ids.len() && 0 <= j < queue_of(rows2).len() ==> (#[trigger] queue_of(
                rows2,
            )[j]).id != #[trigger] ids[i],
        queue_of(rows2) == queue_of(rows).filter(|e: EntryView| !ids.contains(e.id)),
{
    law_ack_is_whole(st, se, ids, id, now);
    law_ack_removes(rows, t, rows2, ls, mailbox);
    let p = |e: EntryView| !seen_before(ls, ls.len() as int, e.id);
    let q = |e: EntryView| !ids.contains(e.id);
    assert forall|e: EntryView| #[trigger] p(e) == q(e) by {
        if ids.contains(e.id) {
            let i = choose|i: int| 0 <= i < ids.len() && ids[i] == e.id;
            assert(ls[i].id == e.id);
        }
        if seen_before(ls, ls.len() as int, e.id) {
            let j = choose|j: int| 0 <= j < ls.len() && (#[trigger] ls[j]).id == e.id;
            assert(ids[j] == e.id);
        }
    }
    assert(p =~= q);
    assert forall|i: int, j: int|
        0 <= i < ids.len() && 0 <= j < queue_of(rows2).len() implies (#[trigger] queue_of(
        rows2,
    )[j]).id != #[trigger] ids[i] by {
        queue_of(rows).filter_lemma(q);
        let e = queue_of(rows2)[j];
        assert(q(e));
        assert(ids.contains(ids[i]));
    }
}

/// A chunk that was accepted is fetched back as it was sent: under the index that was asked for,
/// with the declared shape and with the very text of the upload. `chunks` is the chunk table.
pub proof fn law_file_comes_back(
    st: StateView,
    se: SessionView,
    st2: StateView,
    se2: SessionView,
    sent: Seq<char>,
    asked: Seq<char>,
    transfer: Seq<char>,
    index: u32,
    total_chunks: u32,
    total_bytes: u64,
    data: Seq<u8>,
    pow: Option<Seq<char>>,
    v: FilesView,
    found: ChunkFound,
    chunks: Map<Seq<char>, Seq<u8>>,
    id: u128,
    now: u64,
    later: u64,
)
    requires
        is_handle(transfer),
        index != 0 || has_pow(transfer, pow, now),
        upload_outcome(
            v,
            ChunkRequest {
                transfer_id: transfer,
                chunk_index: index,
                total_chunks,
                total_bytes,
                len: data.len(),
            },
            found,
            now,
        ) is Ok,
    ensures
        ({
            let put = frame_outcome(
                st,
                se,
                ClientView::UploadFileChunk {
                    request_id: sent,
                    transfer_id: transfer,
                    chunk_index: index,
                    total_chunks,
                    total_bytes,
                    ciphertext: b64_text(data),
                    pow,
                },
                id,
                now,
            ).step;
            let get = frame_outcome(
                st2,
                se2,
                ClientView::FetchFileChunk {
                    request_id: asked,
                    transfer_id: transfer,
                    chunk_index: index,
                },
                id,
                later,
            ).step;
            &&& put matches StepView::StoreChunk {
                transfer_id: t1,
                chunk_index: i1,
                total_chunks: c1,
                total_bytes: b1,
                data: d1,
                ..
            } && get matches StepView::FetchChunk {
                request_id: r2,
                transfer_id: t2,
                chunk_index: i2,
            } && ({
                let request = ChunkRequest {
                    transfer_id: t1,
                    chunk_index: i1,
                    total_chunks: c1,
                    total_bytes: b1,
                    len: d1.len(),
                };
                let table = chunks.insert(file_chunk_key(t1, i1), d1);
                let key = file_chunk_key(t2, i2);
                &&& table.contains_key(key)
                &&& fetched_answer(
                    r2,
                    t2,
                    i2,
                    Some(
                        fetch_outcome(uploaded(v, request, found, now), t2, i2, Some(table[key])),
                    ),
                ) == (FrameView::FileChunk {
                    request_id: asked,
                    transfer_id: transfer,
                    chunk_index: index,
                    total_chunks,
                    total_bytes,
                    ciphertext: b64_text(data),
                })
            })
        }),
{
    law_b64_roundtrip(data);
    law_upload_is_exact(
        st,
        se,
        sent,
        transfer,
        index,
        total_chunks,
        total_bytes,
        b64_text(data),
        pow,
        id,
        now,
    );
    law_fetch_is_exact(st2, se2, asked, transfer, index, id, later);
}

/// An envelope that is queued comes out of the mailbox of its destination as it was sent, behind
/// what was queued before it. `t` is the queue table, `rows` and `rows2` are the rows of the mailbox
/// before and after, and `k` of the oldest make room.
pub proof fn law_queued_envelope_comes_out(
    st: StateView,
    se: SessionView,
    client_ref: Option<Seq<char>>,
    to: Seq<char>,
    token: Seq<char>,
    kind: Seq<char>,
    text: Seq<char>,
    id: u128,
    now: u64,
    seq: u64,
    t: Map<Seq<char>, Option<ValueView>>,
    rows: Seq<RowView>,
    rows2: Seq<RowView>,
    k: int,
)
    requires
        canonical(t, to),
        lists(rows, t, of_mailbox(to)),
        0 <= k <= queue_of(rows).len(),
        forall|i: int|
            0 <= i < queue_of(rows).len() ==> (#[trigger] queue_of(rows)[i]).value.s < seq,
        ({
            let step = frame_outcome(
                st,
                se,
                ClientView::SendEnvelope {
                    client_ref,
                    to,
                    delivery_token: token,
                    envelope_type: kind,
                    ciphertext: text,
                },
                id,
                now,
            ).step;
            &&& step matches StepView::Deliver { envelope, .. }
            &&& lists(
                rows2,
                table_after_enqueue(
                    t,
                    envelope.to,
                    queue_of(rows).take(k),
                    envelope.id,
                    value_of(envelope, now, seq),
                ),
                of_mailbox(envelope.to),
            )
        }),
    ensures
        ({
            let out = envelopes_of(to, queue_of(rows2));
            &&& out.len() > 0
            &&& out.last().id == id
            &&& out.last().to == to
            &&& out.last().envelope_type == kind
            &&& out.last().ciphertext == text
        }),
        queue_of(rows2).last().value.q == now,
{
    law_send_decides(st, se, client_ref, to, token, kind, text, id, now);
    law_ids_hold_no_separator(to, 36, 128);
    let env = EnvelopeView { id, to, envelope_type: kind, ciphertext: text };
    law_enqueue_appends(rows, t, rows2, to, k, id, value_of(env, now, seq));
    assert(envelopes_of(to, queue_of(rows2)).last().id == queue_of(rows2).last().id);
}

/// A bundle that was accepted is fetched back by anyone, whole, until the expiry that its upload was
/// answered with.
pub proof fn law_bundle_comes_back(
    st: StateView,
    se: SessionView,
    se2: SessionView,
    sent: Seq<char>,
    asked: Seq<char>,
    bundle: Seq<char>,
    text: Seq<char>,
    expiry: u64,
    pow: Option<Seq<char>>,
    id: u128,
    now: u64,
    later: u64,
)
    requires
        st.bundles.dom().finite(),
        is_handle(bundle),
        has_pow(bundle, pow, now),
        encode_utf8(text).len() <= MAX_BUNDLE_BYTES,
        st.bundles.contains_key(bundle) ==> st.bundles[bundle].expires_at_ms <= now,
        st.bundles.dom().len() < MAX_BUNDLES,
        st.bundle_bytes + encode_utf8(text).len() <= MAX_TOTAL_BUNDLE_BYTES,
    ensures
        ({
            let put = frame_outcome(
                st,
                se,
                ClientView::UploadBundle {
                    request_id: sent,
                    bundle_id: bundle,
                    ciphertext: text,
                    expires_at_ms: expiry,
                    pow,
                },
                id,
                now,
            );
            let get = frame_outcome(
                put.state,
                se2,
                ClientView::FetchBundle { request_id: asked, bundle_id: bundle },
                id,
                later,
            );
            put.step matches StepView::Reply { frame } && frame matches FrameView::BundleUploaded {
                expires_at_ms,
                ..
            } && (later < expires_at_ms ==> get.step == (StepView::Reply {
                frame: FrameView::Bundle {
                    request_id: asked,
                    bundle_id: bundle,
                    ciphertext: text,
                    expires_at_ms,
                },
            })) && (later >= expires_at_ms ==> get.step == (StepView::Reply {
                frame: FrameView::Error {
                    code: "bundle_not_found"@,
                    message: "invite bundle was not found or has expired"@,
                },
            }))
        }),
{
    law_bundle_is_accepted(st, se, sent, bundle, text, expiry, pow, id, now);
    let put = frame_outcome(
        st,
        se,
        ClientView::UploadBundle {
            request_id: sent,
            bundle_id: bundle,
            ciphertext: text,
            expires_at_ms: expiry,
            pow,
        },
        id,
        now,
    );
    law_bundle_fetch(put.state, se2, asked, bundle, id, later);
}

/// A mailbox that has said hello receives: a send with the delivery token of the hello is delivered,
/// through the connection of the hello unless that only wanted a certificate.
pub proof fn law_greeted_mailbox_receives(
    st: StateView,
    se: SessionView,
    se2: SessionView,
    rid: Seq<char>,
    auth_token: Seq<char>,
    delivery_token: Seq<char>,
    min: Option<u16>,
    max: Option<u16>,
    version: Option<u16>,
    pow: Option<Seq<char>>,
    cert_only: bool,
    client_ref: Option<Seq<char>>,
    kind: Seq<char>,
    text: Seq<char>,
    id: u128,
    now: u64,
    later: u64,
)
    requires
        frame_outcome(
            st,
            se,
            ClientView::Hello {
                recipient_id: rid,
                auth_token,
                delivery_token,
                protocol_min: min,
                protocol_max: max,
                protocol_version: version,
                pow,
                cert_only,
            },
            id,
            now,
        ).step is Registered,
        encode_utf8(kind).len() <= MAX_ENVELOPE_TYPE_BYTES,
        encode_utf8(text).len() <= MAX_FRAME_BYTES,
        !st.rate.contains_key(rid) || later > st.rate[rid].0 + RATE_WINDOW_MS || st.rate[rid].1
            < MAX_SENDS_PER_DEST_PER_WINDOW,
    ensures
        ({
            let hello = frame_outcome(
                st,
                se,
                ClientView::Hello {
                    recipient_id: rid,
                    auth_token,
                    delivery_token,
                    protocol_min: min,
                    protocol_max: max,
                    protocol_version: version,
                    pow,
                    cert_only,
                },
                id,
                now,
            );
            let send = frame_outcome(
                hello.state,
                se2,
                ClientView::SendEnvelope {
                    client_ref,
                    to: rid,
                    delivery_token,
                    envelope_type: kind,
                    ciphertext: text,
                },
                id,
                later,
            );
            send.step matches StepView::Deliver { envelope, client_ref: reference, live }
                && envelope.to == rid && envelope.ciphertext == text && reference == client_ref && (
            !cert_only ==> live == Some(se.conn)) && (cert_only && !st.online.contains_key(rid)
                ==> live is None)
        }),
{
    law_hello_effect(
        st,
        se,
        rid,
        auth_token,
        delivery_token,
        min,
        max,
        version,
        pow,
        cert_only,
        id,
        now,
        rid,
    );
    law_hello_decides(
        st,
        se,
        rid,
        auth_token,
        delivery_token,
        min,
        max,
        version,
        pow,
        cert_only,
        id,
        now,
    );
    let hello = frame_outcome(
        st,
        se,
        ClientView::Hello {
            recipient_id: rid,
            auth_token,
            delivery_token,
            protocol_min: min,
            protocol_max: max,
            protocol_version: version,
            pow,
            cert_only,
        },
        id,
        now,
    );
    law_send_decides(hello.state, se2, client_ref, rid, delivery_token, kind, text, id, later);
}

/// Once an allowlist is set, a send is taken exactly with a token whose hash is that of a listed one.
pub proof fn law_allowlist_gates_sends(
    st: StateView,
    se: SessionView,
    se2: SessionView,
    request: Seq<char>,
    tokens: Seq<Seq<char>>,
    rid: Seq<char>,
    token: Seq<char>,
    client_ref: Option<Seq<char>>,
    kind: Seq<char>,
    text: Seq<char>,
    id: u128,
    now: u64,
    later: u64,
)
    requires
        se.rid == Some(rid),
        st.auth.contains_key(rid),
        1 <= tokens.len() <= MAX_DELIVERY_TOKENS_PER_MAILBOX,
        forall|i: int| 0 <= i < tokens.len() ==> is_handle(#[trigger] tokens[i]),
        is_recipient_id(rid),
        is_handle(token),
        encode_utf8(kind).len() <= MAX_ENVELOPE_TYPE_BYTES,
        encode_utf8(text).len() <= MAX_FRAME_BYTES,
    ensures
        ({
            let set = frame_outcome(
                st,
                se,
                ClientView::SetDeliveryTokens { request_id: request, tokens },
                id,
                now,
            );
            let send = frame_outcome(
                set.state,
                se2,
                ClientView::SendEnvelope {
                    client_ref,
                    to: rid,
                    delivery_token: token,
                    envelope_type: kind,
                    ciphertext: text,
                },
                id,
                later,
            );
            (send.step == (StepView::Reply {
                frame: FrameView::SendError {
                    client_ref,
                    code: "delivery_denied"@,
                    message: "delivery token rejected"@,
                },
            })) <==> !exists|i: int|
                0 <= i < tokens.len() && token_digest(#[trigger] tokens[i]) == token_digest(token)
        }),
{
    reveal_strlit("delivery_denied");
    reveal_strlit("rate_limited");
    let hash = token_digest(token);
    law_tokens_are_set(st, se, request, tokens, id, now, rid, hash);
    let set = frame_outcome(
        st,
        se,
        ClientView::SetDeliveryTokens { request_id: request, tokens },
        id,
        now,
    );
    law_send_decides(set.state, se2, client_ref, rid, token, kind, text, id, later);
    assert("delivery_denied"@.len() != "rate_limited"@.len());
    if set.state.auth[rid].primary == hash {
        assert(token_digest(tokens[0]) == hash);
    }
}

/// A retired mailbox takes nothing: every well-formed send to it is denied, until a hello creates it
/// anew.
pub proof fn law_retired_mailbox_is_gone(
    st: StateView,
    se: SessionView,
    se2: SessionView,
    rid: Seq<char>,
    token: Seq<char>,
    client_ref: Option<Seq<char>>,
    kind: Seq<char>,
    text: Seq<char>,
    id: u128,
    now: u64,
    later: u64,
)
    requires
        se.rid == Some(rid),
        is_recipient_id(rid),
        is_handle(token),
        encode_utf8(kind).len() <= MAX_ENVELOPE_TYPE_BYTES,
        encode_utf8(text).len() <= MAX_FRAME_BYTES,
    ensures
        frame_outcome(
            frame_outcome(st, se, ClientView::RetireMailbox, id, now).state,
            se2,
            ClientView::SendEnvelope {
                client_ref,
                to: rid,
                delivery_token: token,
                envelope_type: kind,
                ciphertext: text,
            },
            id,
            later,
        ).step == (StepView::Reply {
            frame: FrameView::SendError {
                client_ref,
                code: "delivery_denied"@,
                message: "delivery token rejected"@,
            },
        }),
{
    law_retire(st, se, id, now, rid);
    law_send_decides(
        frame_outcome(st, se, ClientView::RetireMailbox, id, now).state,
        se2,
        client_ref,
        rid,
        token,
        kind,
        text,
        id,
        later,
    );
}

} // verus!
