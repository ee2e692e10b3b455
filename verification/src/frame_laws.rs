//! What each frame is answered, said over what the client sent and what the relay holds: when a
//! request is granted, what exactly is then done, and what each refusal means.

use crate::config::{
    BUNDLE_PRUNE_MIN_INTERVAL_MS, GLOBAL_QUEUE_DISK_CAP_BYTES, MAILBOX_ACTIVITY_GRANULARITY_MS,
    MAX_BUNDLES, MAX_BUNDLE_BYTES, MAX_BUNDLE_TTL_MS, MAX_CERT_KEY_B64_BYTES,
    MAX_DELIVERY_TOKENS_PER_MAILBOX, MAX_ENVELOPE_TYPE_BYTES, MAX_FRAMES_PER_WINDOW,
    MAX_FRAME_BYTES, MAX_MAILBOXES, MAX_SENDER_DEVICE_ID, MAX_SENDS_PER_DEST_PER_WINDOW,
    MAX_TOTAL_BUNDLE_BYTES, MIN_BUNDLE_TTL_MS, PROTOCOL_MIN_SUPPORTED, PROTOCOL_SYNCED,
    PROTOCOL_VERSION, RATE_WINDOW_MS, SENDER_CERT_TTL_MS,
};
use crate::file_store::{FetchedView, FileReject, StoredChunk};
use crate::outside::{b64_bytes, b64_text, law_b64_roundtrip};
use crate::protocol::{ClientView, EnvelopeView, FrameView};
use crate::state::{bundle_bytes, pruned, BundleView, StateView};
use crate::state_laws::lemma_first_stays;
use crate::table::lemma_total_insert;
use crate::text::{byte_len, lemma_push_contains};
use crate::util::{has_pow, is_handle, is_recipient_id, token_digest};
use crate::ws::{
    acked_answer, closed, counted_frame, deleted_answer, digests, fetched_answer, frame_outcome,
    frame_session, full_store_answer, gate_refusal, negotiated, new_session, queued_answer,
    route_tried, sent_to, signed_answer, stored_answer, synced_answer, SessionView, StepView,
};
use crate::ws_laws::{law_activity_is_a_day, law_first_occurrences};
use vstd::prelude::*;
use vstd::utf8::encode_utf8;

verus! {

/// Whether a step is the refusal of a frame with this code and these words.
pub open spec fn says(step: StepView, code: Seq<char>, message: Seq<char>) -> bool {
    step == (StepView::Reply { frame: FrameView::Error { code, message } })
}

/// Whether a step is the refusal of a file request with this code and these words.
pub open spec fn says_of_file(
    step: StepView,
    request_id: Seq<char>,
    transfer_id: Seq<char>,
    code: Seq<char>,
    message: Seq<char>,
) -> bool {
    step == (StepView::Reply {
        frame: FrameView::FileError { request_id, transfer_id, code, message },
    })
}

/// Whether a step is the refusal of a send with this code and these words.
pub open spec fn says_of_send(
    step: StepView,
    client_ref: Option<Seq<char>>,
    code: Seq<char>,
    message: Seq<char>,
) -> bool {
    step == (StepView::Reply { frame: FrameView::SendError { client_ref, code, message } })
}

// ---------------------------------------------------------------------------
// Frames that need nothing but a session
// ---------------------------------------------------------------------------

/// A ping is answered with the time and changes nothing.
pub proof fn law_ping(st: StateView, se: SessionView, id: u128, now: u64)
    ensures
        ({
            let out = frame_outcome(st, se, ClientView::Ping, id, now);
            &&& out.step == (StepView::Reply { frame: FrameView::Pong { server_time_ms: now } })
            &&& out.state == st
            &&& frame_session(se, ClientView::Ping, out) == se
        }),
{
}

/// An acknowledgement by an authenticated session leads to the removal of exactly the identifiers
/// that it lists, all of them and in their order, from the mailbox of the session and from no other.
/// Any other session is told to say hello. The state is untouched either way.
pub proof fn law_ack_is_whole(
    st: StateView,
    se: SessionView,
    ids: Seq<u128>,
    id: u128,
    now: u64,
)
    ensures
        ({
            let out = frame_outcome(st, se, ClientView::Ack { ids }, id, now);
            &&& out.state == st
            &&& se.rid is None ==> says(out.step, "not_registered"@, "send hello first"@)
            &&& se.rid is Some ==> (out.step matches StepView::Ack { mailbox, ids: removed }
                && se.rid == Some(mailbox) && removed.len() == ids.len() && forall|i: int|
                0 <= i < ids.len() ==> #[trigger] removed[i] == ids[i])
        }),
{
}

/// The answer to an acknowledgement counts what was removed, and nothing where the store failed.
pub proof fn law_ack_answer(removed: Option<usize>)
    ensures
        acked_answer(removed) matches FrameView::AckOk { removed: n } && (removed is None ==> n == 0)
            && (removed is Some ==> removed == Some(n)),
{
}

/// Retiring takes the mailbox of the session, with its record, its route and its rate window, out of
/// the state, marks it to be written back and lets go of one slot where it had one. The step purges
/// that mailbox. Nothing else changes, and a session without a mailbox changes nothing.
pub proof fn law_retire(st: StateView, se: SessionView, id: u128, now: u64, other: Seq<char>)
    ensures
        ({
            let out = frame_outcome(st, se, ClientView::RetireMailbox, id, now);
            let after = out.state;
            &&& se.rid is None ==> after == st && says(
                out.step,
                "not_registered"@,
                "send hello first"@,
            )
            &&& se.rid matches Some(rid) ==> {
                &&& out.step == (StepView::Retire {
                    mailbox: rid,
                    frame: FrameView::AckOk { removed: 0 },
                })
                &&& !after.auth.contains_key(rid) && !after.online.contains_key(rid)
                    && !after.rate.contains_key(rid) && after.dirty_auth.contains(rid)
                &&& st.auth.contains_key(rid) && st.mailbox_count > 0 ==> after.mailbox_count
                    == st.mailbox_count - 1
                &&& !st.auth.contains_key(rid) ==> after.mailbox_count == st.mailbox_count
                &&& other != rid ==> {
                    &&& after.auth.contains_key(other) == st.auth.contains_key(other)
                    &&& after.auth[other] == st.auth[other]
                    &&& after.online.contains_key(other) == st.online.contains_key(other)
                    &&& after.online[other] == st.online[other]
                    &&& after.rate.contains_key(other) == st.rate.contains_key(other)
                    &&& after.rate[other] == st.rate[other]
                    &&& after.dirty_auth.contains(other) == st.dirty_auth.contains(other)
                }
                &&& (StateView {
                    auth: st.auth,
                    online: st.online,
                    rate: st.rate,
                    dirty_auth: st.dirty_auth,
                    mailbox_count: st.mailbox_count,
                    ..after
                }) == st
            }
        }),
{
}

/// Only an accepted hello changes a session, and it changes nothing but the mailbox.
pub proof fn law_session_is_kept(
    st: StateView,
    se: SessionView,
    frame: ClientView,
    id: u128,
    now: u64,
)
    ensures
        ({
            let out = frame_outcome(st, se, frame, id, now);
            let after = frame_session(se, frame, out);
            &&& out.step !is Registered ==> after == se
            &&& out.step is Registered ==> (frame matches ClientView::Hello { recipient_id, .. }
                && after.rid == Some(recipient_id))
            &&& after.conn == se.conn && after.window_start == se.window_start && after.frame_count
                == se.frame_count
        }),
{
}

/// A new connection acts for no mailbox, and its rate window begins, empty, when it is opened.
pub proof fn law_new_session(conn: u64, now: u64)
    ensures
        new_session(conn, now).rid is None,
        new_session(conn, now).conn == conn,
        new_session(conn, now).window_start == now,
        new_session(conn, now).frame_count == 0,
{
}

/// Closing a connection takes away the live route of its mailbox exactly where the route is its own;
/// the route of a newer connection, every other route and all else stay.
pub proof fn law_close(st: StateView, se: SessionView, k: Seq<char>)
    ensures
        closed(st, se).online.contains_key(k) <==> st.online.contains_key(k) && !(se.rid == Some(k)
            && st.online[k] == se.conn),
        closed(st, se).online.contains_key(k) ==> closed(st, se).online[k] == st.online[k],
        (StateView { online: st.online, ..closed(st, se) }) == st,
{
}

// ---------------------------------------------------------------------------
// The frame gate
// ---------------------------------------------------------------------------

/// A frame is counted in the window of its connection, which begins anew once it is older than the
/// rate window. The frame is refused exactly where more than the limit have been counted or where it
/// is too long.
pub proof fn law_frame_gate(se: SessionView, len: nat, now: u64)
    ensures
        ({
            let after = counted_frame(se, now);
            let over = now > se.window_start + RATE_WINDOW_MS;
            &&& over ==> after.window_start == now && after.frame_count == 1
            &&& !over ==> after.window_start == se.window_start
            &&& !over && se.frame_count < u32::MAX ==> after.frame_count == se.frame_count + 1
            &&& after.rid == se.rid && after.conn == se.conn
        }),
        gate_refusal(se, len) is None <==> se.frame_count <= MAX_FRAMES_PER_WINDOW && len
            <= MAX_FRAME_BYTES,
        se.frame_count > MAX_FRAMES_PER_WINDOW ==> gate_refusal(se, len) == Some(
            FrameView::Error { code: "rate_limited"@, message: "too many frames on this socket"@ },
        ),
        se.frame_count <= MAX_FRAMES_PER_WINDOW && len > MAX_FRAME_BYTES ==> gate_refusal(se, len)
            == Some(FrameView::Error { code: "too_large"@, message: "frame too large"@ }),
{
}

// ---------------------------------------------------------------------------
// Sender certificates
// ---------------------------------------------------------------------------

/// A certificate is granted exactly to a session that asks for its own mailbox, with a device number
/// from one to the largest and with a key that is short enough and decodes. What is then signed
/// carries the request, the mailbox, the device number of the request and the bytes that its key
/// writes in base64, and expires a certificate lifetime from now.
pub proof fn law_certificate_is_exact(
    st: StateView,
    se: SessionView,
    request: Seq<char>,
    uuid: Seq<char>,
    device: u32,
    key: Seq<char>,
    id: u128,
    now: u64,
)
    ensures
        ({
            let frame = ClientView::IssueSenderCertificate {
                request_id: request,
                sender_uuid: uuid,
                sender_device_id: device,
                sender_cert_public_b64: key,
            };
            let out = frame_outcome(st, se, frame, id, now);
            let own = se.rid == Some(uuid);
            let named = is_recipient_id(uuid) && 1 <= device <= MAX_SENDER_DEVICE_ID;
            let short = encode_utf8(key).len() <= MAX_CERT_KEY_B64_BYTES;
            let writes = exists|b: Seq<u8>| #[trigger] b64_text(b) == key;
            &&& out.state == st
            &&& out.step is Certify <==> own && named && short && writes
            &&& out.step matches StepView::Certify {
                request_id,
                sender_uuid,
                sender_device_id,
                public_key,
                expires_at_ms,
            } ==> {
                &&& request_id == request
                &&& sender_uuid == uuid
                &&& se.rid == Some(sender_uuid)
                &&& sender_device_id == device
                &&& b64_text(public_key) == key
                &&& now + SENDER_CERT_TTL_MS <= u64::MAX ==> expires_at_ms == now
                    + SENDER_CERT_TTL_MS
                &&& now + SENDER_CERT_TTL_MS > u64::MAX ==> expires_at_ms == u64::MAX
            }
            &&& se.rid is None ==> says(out.step, "not_registered"@, "send hello first"@)
            &&& se.rid is Some && !own ==> says(
                out.step,
                "cert_denied"@,
                "sender certificate can only be issued for your authenticated mailbox"@,
            )
            &&& own && !named ==> says(
                out.step,
                "cert_failed"@,
                "invalid sender certificate request"@,
            )
            &&& own && named && !short ==> says(
                out.step,
                "cert_failed"@,
                "sender certificate public key is too large"@,
            )
            &&& own && named && short && !writes ==> says(
                out.step,
                "cert_failed"@,
                "bad sender certificate public key encoding"@,
            )
        }),
{
}

/// A key that was written in base64 is signed as the bytes that it was written from.
pub proof fn law_certificate_key(
    st: StateView,
    se: SessionView,
    request: Seq<char>,
    uuid: Seq<char>,
    device: u32,
    raw: Seq<u8>,
    id: u128,
    now: u64,
)
    requires
        frame_outcome(
            st,
            se,
            ClientView::IssueSenderCertificate {
                request_id: request,
                sender_uuid: uuid,
                sender_device_id: device,
                sender_cert_public_b64: b64_text(raw),
            },
            id,
            now,
        ).step is Certify,
    ensures
        frame_outcome(
            st,
            se,
            ClientView::IssueSenderCertificate {
                request_id: request,
                sender_uuid: uuid,
                sender_device_id: device,
                sender_cert_public_b64: b64_text(raw),
            },
            id,
            now,
        ).step->public_key == raw,
{
    law_b64_roundtrip(raw);
}

/// A signed certificate is answered with its base64 form, under the number of the request, with the
/// trust root of the relay and the expiry that was signed; a failure with its words.
pub proof fn law_certificate_answer(
    st: StateView,
    request: Seq<char>,
    expires: u64,
    signed: Result<Seq<u8>, Seq<char>>,
)
    ensures
        signed matches Ok(cert) ==> (signed_answer(st, request, expires, signed)
            matches FrameView::SenderCertificate {
            request_id,
            certificate_b64,
            trust_root_b64,
            expires_at_ms,
        } && request_id == request && b64_bytes(certificate_b64) == Some(cert) && trust_root_b64
            == st.trust_root && expires_at_ms == expires),
        signed matches Err(e) ==> signed_answer(st, request, expires, signed) == (
        FrameView::Error { code: "cert_failed"@, message: e }),
{
    if let Ok(cert) = signed {
        law_b64_roundtrip(cert);
    }
}

// ---------------------------------------------------------------------------
// Files
// ---------------------------------------------------------------------------

/// A fetch with a transfer identifier leads to a read of exactly the transfer and the chunk that the
/// frame names, for every index, and of no other; one without is refused. Nothing changes.
pub proof fn law_fetch_is_exact(
    st: StateView,
    se: SessionView,
    request: Seq<char>,
    transfer: Seq<char>,
    index: u32,
    id: u128,
    now: u64,
)
    ensures
        ({
            let frame = ClientView::FetchFileChunk {
                request_id: request,
                transfer_id: transfer,
                chunk_index: index,
            };
            let out = frame_outcome(st, se, frame, id, now);
            &&& out.state == st
            &&& is_handle(transfer) ==> (out.step matches StepView::FetchChunk {
                request_id,
                transfer_id,
                chunk_index,
            } && request_id == request && transfer_id == transfer && chunk_index == index)
            &&& !is_handle(transfer) ==> says_of_file(
                out.step,
                request,
                transfer,
                "bad_request"@,
                "invalid transfer id"@,
            )
        }),
{
}

/// A delete with a transfer identifier leads to the deletion of exactly that transfer; one without
/// is refused. Nothing changes yet.
pub proof fn law_delete_is_exact(
    st: StateView,
    se: SessionView,
    request: Seq<char>,
    transfer: Seq<char>,
    id: u128,
    now: u64,
)
    ensures
        ({
            let frame = ClientView::DeleteTransfer { request_id: request, transfer_id: transfer };
            let out = frame_outcome(st, se, frame, id, now);
            &&& out.state == st
            &&& is_handle(transfer) ==> (out.step matches StepView::DeleteTransfer {
                request_id,
                transfer_id,
            } && request_id == request && transfer_id == transfer)
            &&& !is_handle(transfer) ==> says_of_file(
                out.step,
                request,
                transfer,
                "bad_request"@,
                "invalid transfer id"@,
            )
        }),
{
}

/// An upload is handed to the store exactly where its transfer identifier is one, its chunk decodes
/// and, for the first chunk, work was proved for the transfer. The store gets the numbers of the
/// frame and the bytes that its text writes in base64.
pub proof fn law_upload_is_exact(
    st: StateView,
    se: SessionView,
    request: Seq<char>,
    transfer: Seq<char>,
    index: u32,
    chunks: u32,
    bytes: u64,
    text: Seq<char>,
    pow: Option<Seq<char>>,
    id: u128,
    now: u64,
)
    ensures
        ({
            let frame = ClientView::UploadFileChunk {
                request_id: request,
                transfer_id: transfer,
                chunk_index: index,
                total_chunks: chunks,
                total_bytes: bytes,
                ciphertext: text,
                pow,
            };
            let out = frame_outcome(st, se, frame, id, now);
            let writes = exists|b: Seq<u8>| #[trigger] b64_text(b) == text;
            let worked = index != 0 || has_pow(transfer, pow, now);
            &&& out.state == st
            &&& out.step is StoreChunk <==> is_handle(transfer) && writes && worked
            &&& out.step matches StepView::StoreChunk {
                request_id,
                transfer_id,
                chunk_index,
                total_chunks,
                total_bytes,
                data,
            } ==> request_id == request && transfer_id == transfer && chunk_index == index
                && total_chunks == chunks && total_bytes == bytes && b64_text(data) == text
            &&& !is_handle(transfer) ==> says_of_file(
                out.step,
                request,
                transfer,
                "bad_request"@,
                "invalid transfer id"@,
            )
            &&& is_handle(transfer) && !writes ==> says_of_file(
                out.step,
                request,
                transfer,
                "bad_request"@,
                "invalid chunk encoding"@,
            )
            &&& is_handle(transfer) && writes && !worked ==> says_of_file(
                out.step,
                request,
                transfer,
                "pow_required"@,
                "invalid proof of work for new file transfer"@,
            )
        }),
{
}

/// The answer to a file request names the request, the transfer and the chunk that it answers, with
/// what the store gave: the counts of an upload, or the bytes of a fetch in base64.
pub proof fn law_file_answers(
    request: Seq<char>,
    transfer: Seq<char>,
    index: u32,
    stored: StoredChunk,
    fetched: FetchedView,
)
    ensures
        stored_answer(request, transfer, index, Some(Ok(stored)))
            matches FrameView::FileChunkStored {
            request_id,
            transfer_id,
            chunk_index,
            received_chunks,
            total_chunks,
        } && request_id == request && transfer_id == transfer && chunk_index == index
            && received_chunks == stored.received_chunks && total_chunks == stored.total_chunks,
        fetched_answer(request, transfer, index, Some(Ok(fetched))) matches FrameView::FileChunk {
            request_id,
            transfer_id,
            chunk_index,
            total_chunks,
            total_bytes,
            ciphertext,
        } && request_id == request && transfer_id == transfer && chunk_index == index
            && total_chunks == fetched.total_chunks && total_bytes == fetched.total_bytes
            && b64_bytes(ciphertext) == Some(fetched.data),
        deleted_answer(request, transfer) matches FrameView::TransferDeleted {
            request_id,
            transfer_id,
        } && request_id == request && transfer_id == transfer,
{
    law_b64_roundtrip(fetched.data);
}

/// A refusal of the store is told to the client under the number of its request, and each kind of
/// refusal has a code of its own.
pub proof fn law_file_refusals(request: Seq<char>, transfer: Seq<char>, index: u32, e: FileReject)
    ensures
        ({
            let up = stored_answer(request, transfer, index, Some(Err(e)));
            let down = fetched_answer(request, transfer, index, Some(Err(e)));
            &&& up == down
            &&& up matches FrameView::FileError { request_id, transfer_id, code, message }
                && request_id == request && transfer_id == transfer && {
                &&& e == FileReject::TooLarge ==> code == "file_too_large"@ && message
                    == "file exceeds this relay's size limit"@
                &&& e == FileReject::Full ==> code == "relay_full"@ && message
                    == "relay file storage is full"@
                &&& e == FileReject::BadRequest ==> code == "bad_request"@ && message
                    == "malformed file transfer request"@
                &&& e == FileReject::NotFound ==> code == "not_found"@ && message
                    == "file transfer not found or expired"@
            }
        }),
        stored_answer(request, transfer, index, None) == (FrameView::FileError {
            request_id: request,
            transfer_id: transfer,
            code: "relay_full"@,
            message: "could not store file chunk"@,
        }),
        fetched_answer(request, transfer, index, None) == (FrameView::FileError {
            request_id: request,
            transfer_id: transfer,
            code: "not_found"@,
            message: "could not read file chunk"@,
        }),
{
}

// ---------------------------------------------------------------------------
// Invite bundles
// ---------------------------------------------------------------------------

/// Expired bundles are looked for at most once in the prune interval. Where they are, exactly those
/// whose expiry has come go, each is marked to be written back, and nothing else changes but the
/// count of their bytes; where they are not, nothing changes.
pub proof fn law_prune(st: StateView, now: u64, k: Seq<char>)
    ensures
        ({
            let p = pruned(st, now);
            let due = st.last_prune == 0 || now >= st.last_prune + BUNDLE_PRUNE_MIN_INTERVAL_MS;
            let gone = st.bundles.contains_key(k) && st.bundles[k].expires_at_ms <= now;
            &&& !due ==> p == st
            &&& due ==> p.last_prune == now
            &&& due ==> (p.bundles.contains_key(k) <==> st.bundles.contains_key(k) && !gone)
            &&& p.bundles.contains_key(k) ==> st.bundles.contains_key(k) && p.bundles[k]
                == st.bundles[k]
            &&& due ==> (p.dirty_bundles.contains(k) <==> st.dirty_bundles.contains(k) || gone)
            &&& p.bundle_bytes <= st.bundle_bytes
            &&& (StateView {
                last_prune: st.last_prune,
                bundles: st.bundles,
                bundle_bytes: st.bundle_bytes,
                dirty_bundles: st.dirty_bundles,
                ..p
            }) == st
        }),
{
}

/// An upload is accepted exactly where its identifier is one, its ciphertext is no longer than a
/// bundle may be, work was proved for it, and either the very same ciphertext is hosted under it or
/// nothing live is and both bundle caps have room. Each other upload is refused with the code of
/// what it lacks, and an upload that is refused for its form or its work changes nothing.
pub proof fn law_bundle_upload_decides(
    st: StateView,
    se: SessionView,
    request: Seq<char>,
    bundle: Seq<char>,
    text: Seq<char>,
    asked: u64,
    pow: Option<Seq<char>>,
    id: u128,
    now: u64,
)
    requires
        encode_utf8(text).len() <= usize::MAX,
    ensures
        ({
            let frame = ClientView::UploadBundle {
                request_id: request,
                bundle_id: bundle,
                ciphertext: text,
                expires_at_ms: asked,
                pow,
            };
            let out = frame_outcome(st, se, frame, id, now);
            let p = pruned(st, now);
            let size = encode_utf8(text).len();
            let formed = is_handle(bundle) && size <= MAX_BUNDLE_BYTES;
            let worked = has_pow(bundle, pow, now);
            let live = p.bundles.contains_key(bundle) && p.bundles[bundle].expires_at_ms > now;
            let same = live && p.bundles[bundle].ciphertext == text;
            let slot = p.bundles.dom().len() < MAX_BUNDLES;
            let room = p.bundle_bytes + size <= MAX_TOTAL_BUNDLE_BYTES;
            let uploaded = out.step matches StepView::Reply { frame } && frame is BundleUploaded;
            &&& uploaded <==> formed && worked && (same || !live && slot && room)
            &&& !formed ==> out.state == st && says(
                out.step,
                "bad_bundle"@,
                "invalid invite bundle"@,
            )
            &&& formed && !worked ==> out.state == st && says(
                out.step,
                "bad_pow"@,
                "invalid proof of work for invite bundle upload"@,
            )
            &&& formed && worked && live && !same ==> out.state == p && says(
                out.step,
                "bundle_exists"@,
                "an invite bundle with this id already exists"@,
            )
            &&& formed && worked && !live && !slot ==> out.state == p && says(
                out.step,
                "relay_full"@,
                "relay invite bundle limit reached"@,
            )
            &&& formed && worked && !live && slot && !room ==> out.state == p && says(
                out.step,
                "relay_full"@,
                "relay invite bundle storage limit reached"@,
            )
            &&& formed && worked && same ==> out.state == p && out.step == (StepView::Reply {
                frame: FrameView::BundleUploaded {
                    request_id: request,
                    bundle_id: bundle,
                    expires_at_ms: p.bundles[bundle].expires_at_ms,
                },
            })
        }),
{
}

/// An accepted new bundle is hosted under its identifier, with its ciphertext, the time of its
/// upload and the expiry that the client is told: what it asked for, but no sooner than the shortest
/// and no later than the longest lifetime from now. It is counted and marked to be written back, and
/// every other bundle stays as it was.
pub proof fn law_bundle_is_hosted(
    st: StateView,
    se: SessionView,
    request: Seq<char>,
    bundle: Seq<char>,
    text: Seq<char>,
    asked: u64,
    pow: Option<Seq<char>>,
    id: u128,
    now: u64,
    other: Seq<char>,
)
    requires
        is_handle(bundle),
        has_pow(bundle, pow, now),
        encode_utf8(text).len() <= MAX_BUNDLE_BYTES,
        !(pruned(st, now).bundles.contains_key(bundle) && pruned(
            st,
            now,
        ).bundles[bundle].expires_at_ms > now),
        pruned(st, now).bundles.dom().len() < MAX_BUNDLES,
        pruned(st, now).bundle_bytes + encode_utf8(text).len() <= MAX_TOTAL_BUNDLE_BYTES,
    ensures
        ({
            let frame = ClientView::UploadBundle {
                request_id: request,
                bundle_id: bundle,
                ciphertext: text,
                expires_at_ms: asked,
                pow,
            };
            let out = frame_outcome(st, se, frame, id, now);
            let p = pruned(st, now);
            let after = out.state;
            let b = after.bundles[bundle];
            let size = encode_utf8(text).len();
            let least = now + MIN_BUNDLE_TTL_MS;
            let most = now + MAX_BUNDLE_TTL_MS;
            &&& out.step matches StepView::Reply { frame } && frame
                matches FrameView::BundleUploaded { request_id, bundle_id, expires_at_ms }
                && request_id == request && bundle_id == bundle && expires_at_ms == b.expires_at_ms
            &&& after.bundles.contains_key(bundle)
            &&& b.id == bundle && b.ciphertext == text && b.created_at_ms == now
            &&& most <= u64::MAX && least <= asked <= most ==> b.expires_at_ms == asked
            &&& most <= u64::MAX && asked < least ==> b.expires_at_ms == least
            &&& most <= u64::MAX && asked > most ==> b.expires_at_ms == most
            &&& b.expires_at_ms >= now && b.expires_at_ms <= most
            &&& !p.bundles.contains_key(bundle) ==> after.bundle_bytes == p.bundle_bytes + size
            &&& p.bundles.contains_key(bundle) && encode_utf8(p.bundles[bundle].ciphertext).len()
                <= p.bundle_bytes ==> after.bundle_bytes + encode_utf8(
                p.bundles[bundle].ciphertext,
            ).len() == p.bundle_bytes + size
            &&& after.dirty_bundles.contains(bundle)
            &&& other != bundle ==> after.bundles.contains_key(other) == p.bundles.contains_key(other)
                && after.bundles[other] == p.bundles[other] && after.dirty_bundles.contains(other)
                == p.dirty_bundles.contains(other)
            &&& (StateView {
                bundles: p.bundles,
                bundle_bytes: p.bundle_bytes,
                dirty_bundles: p.dirty_bundles,
                ..after
            }) == p
        }),
{
}

/// An upload with an identifier, a proof of work and a ciphertext of at most the longest length, no
/// live bundle under the identifier and room under both caps is accepted: it is answered as uploaded
/// and the bundle is in the state.
pub proof fn law_bundle_is_accepted(
    st: StateView,
    se: SessionView,
    request: Seq<char>,
    bundle: Seq<char>,
    text: Seq<char>,
    asked: u64,
    pow: Option<Seq<char>>,
    id: u128,
    now: u64,
)
    requires
        st.bundles.dom().finite(),
        is_handle(bundle),
        has_pow(bundle, pow, now),
        encode_utf8(text).len() <= MAX_BUNDLE_BYTES,
        st.bundles.contains_key(bundle) ==> st.bundles[bundle].expires_at_ms <= now,
        st.bundles.dom().len() < MAX_BUNDLES,
        st.bundle_bytes + encode_utf8(text).len() <= MAX_TOTAL_BUNDLE_BYTES,
    ensures
        ({
            let frame = ClientView::UploadBundle {
                request_id: request,
                bundle_id: bundle,
                ciphertext: text,
                expires_at_ms: asked,
                pow,
            };
            let out = frame_outcome(st, se, frame, id, now);
            &&& out.step matches StepView::Reply { frame } && frame
                matches FrameView::BundleUploaded { request_id, bundle_id, expires_at_ms }
                && request_id == request && bundle_id == bundle && expires_at_ms
                == out.state.bundles[bundle].expires_at_ms
            &&& out.state.bundles.contains_key(bundle)
            &&& out.state.bundles[bundle].id == bundle
            &&& out.state.bundles[bundle].ciphertext == text
        }),
{
    let p = pruned(st, now);
    law_prune(st, now, bundle);
    assert(p.bundles.dom().subset_of(st.bundles.dom())) by {
        assert forall|k: Seq<char>| p.bundles.dom().contains(k) implies st.bundles.dom().contains(
            k,
        ) by {
            law_prune(st, now, k);
        }
    }
    vstd::set_lib::lemma_len_subset(p.bundles.dom(), st.bundles.dom());
    law_bundle_is_hosted(st, se, request, bundle, text, asked, pow, id, now, bundle);
}

/// A fetch gives the bundle that is hosted under the identifier, whole and with its expiry, exactly
/// where its expiry is still to come; it changes nothing but what a prune does.
pub proof fn law_bundle_fetch(
    st: StateView,
    se: SessionView,
    request: Seq<char>,
    bundle: Seq<char>,
    id: u128,
    now: u64,
)
    ensures
        ({
            let frame = ClientView::FetchBundle { request_id: request, bundle_id: bundle };
            let out = frame_outcome(st, se, frame, id, now);
            let live = st.bundles.contains_key(bundle) && st.bundles[bundle].expires_at_ms > now;
            &&& out.state == pruned(st, now)
            &&& live ==> out.step == (StepView::Reply {
                frame: FrameView::Bundle {
                    request_id: request,
                    bundle_id: st.bundles[bundle].id,
                    ciphertext: st.bundles[bundle].ciphertext,
                    expires_at_ms: st.bundles[bundle].expires_at_ms,
                },
            })
            &&& !live ==> says(
                out.step,
                "bundle_not_found"@,
                "invite bundle was not found or has expired"@,
            )
        }),
{
    law_prune(st, now, bundle);
}

/// The bytes of hosted bundles are the sum of the lengths of their ciphertexts.
pub proof fn law_bundle_bytes(m: Map<Seq<char>, BundleView>, k: Seq<char>, b: BundleView)
    requires
        m.dom().finite(),
        !m.contains_key(k),
    ensures
        bundle_bytes(Map::empty()) == 0,
        bundle_bytes(m.insert(k, b)) == bundle_bytes(m) + encode_utf8(b.ciphertext).len(),
{
    lemma_total_insert(m, |x: BundleView| byte_len(x.ciphertext), k, b);
}

// ---------------------------------------------------------------------------
// Envelopes
// ---------------------------------------------------------------------------

/// A send is delivered exactly where its destination and its token are well formed, its type and
/// its ciphertext are short enough, the destination takes the token and its rate window has room.
/// What is delivered is the envelope of the frame, whole, under the new identifier and with the
/// reference of the client, and it is handed to the connection that serves the destination now.
pub proof fn law_send_decides(
    st: StateView,
    se: SessionView,
    client_ref: Option<Seq<char>>,
    to: Seq<char>,
    token: Seq<char>,
    kind: Seq<char>,
    text: Seq<char>,
    id: u128,
    now: u64,
)
    ensures
        ({
            let frame = ClientView::SendEnvelope {
                client_ref,
                to,
                delivery_token: token,
                envelope_type: kind,
                ciphertext: text,
            };
            let out = frame_outcome(st, se, frame, id, now);
            let formed = is_recipient_id(to) && is_handle(token);
            let short = encode_utf8(kind).len() <= MAX_ENVELOPE_TYPE_BYTES && encode_utf8(text).len()
                <= MAX_FRAME_BYTES;
            let hash = token_digest(token);
            let taken = st.auth.contains_key(to) && (st.auth[to].primary == hash
                || st.auth[to].hashes.contains(hash));
            let room = !st.rate.contains_key(to) || now > st.rate[to].0 + RATE_WINDOW_MS
                || st.rate[to].1 < MAX_SENDS_PER_DEST_PER_WINDOW;
            &&& out.step is Deliver <==> formed && short && taken && room
            &&& out.step matches StepView::Deliver { envelope, client_ref: reference, live } ==> {
                &&& envelope.id == id && envelope.to == to && envelope.envelope_type == kind
                    && envelope.ciphertext == text
                &&& reference == client_ref
                &&& live is Some <==> st.online.contains_key(to)
                &&& live matches Some(conn) ==> st.online[to] == conn
            }
            &&& !formed ==> says_of_send(
                out.step,
                client_ref,
                "bad_send"@,
                "invalid destination or delivery token"@,
            )
            &&& formed && !short ==> says_of_send(
                out.step,
                client_ref,
                "bad_envelope"@,
                "envelope rejected by size/type limits"@,
            )
            &&& formed && short && !taken ==> says_of_send(
                out.step,
                client_ref,
                "delivery_denied"@,
                "delivery token rejected"@,
            )
            &&& formed && short && taken && !room ==> says_of_send(
                out.step,
                client_ref,
                "rate_limited"@,
                "too many sends to this destination"@,
            )
            &&& !(formed && short && taken) ==> out.state == st
        }),
{
}

/// A send that the destination takes renews its lease, marks it to be written back and counts in its
/// rate window: one more within the window, the first of a new one where the old is over, and no
/// more where the window is full. The record is otherwise kept, and so is every other mailbox.
pub proof fn law_send_effect(
    st: StateView,
    se: SessionView,
    client_ref: Option<Seq<char>>,
    to: Seq<char>,
    token: Seq<char>,
    kind: Seq<char>,
    text: Seq<char>,
    id: u128,
    now: u64,
    other: Seq<char>,
)
    requires
        is_recipient_id(to),
        is_handle(token),
        encode_utf8(kind).len() <= MAX_ENVELOPE_TYPE_BYTES,
        encode_utf8(text).len() <= MAX_FRAME_BYTES,
        st.auth.contains_key(to),
        st.auth[to].primary == token_digest(token) || st.auth[to].hashes.contains(
            token_digest(token),
        ),
    ensures
        ({
            let frame = ClientView::SendEnvelope {
                client_ref,
                to,
                delivery_token: token,
                envelope_type: kind,
                ciphertext: text,
            };
            let after = frame_outcome(st, se, frame, id, now).state;
            let known = st.rate.contains_key(to);
            let over = known && now > st.rate[to].0 + RATE_WINDOW_MS;
            &&& after.auth.contains_key(to)
            &&& after.auth[to].receive == st.auth[to].receive
            &&& after.auth[to].primary == st.auth[to].primary
            &&& after.auth[to].hashes == st.auth[to].hashes
            &&& after.auth[to].last_active % MAILBOX_ACTIVITY_GRANULARITY_MS == 0
            &&& after.auth[to].last_active <= now < after.auth[to].last_active
                + MAILBOX_ACTIVITY_GRANULARITY_MS
            &&& after.dirty_auth.contains(to)
            &&& after.rate.contains_key(to)
            &&& !known || over ==> after.rate[to] == (now, 1u32)
            &&& known && !over && st.rate[to].1 < MAX_SENDS_PER_DEST_PER_WINDOW
                ==> after.rate[to].0 == st.rate[to].0 && after.rate[to].1 == st.rate[to].1 + 1
            &&& known && !over && st.rate[to].1 >= MAX_SENDS_PER_DEST_PER_WINDOW ==> after.rate[to]
                == st.rate[to]
            &&& other != to ==> {
                &&& after.auth.contains_key(other) == st.auth.contains_key(other)
                &&& after.auth[other] == st.auth[other]
                &&& after.rate.contains_key(other) == st.rate.contains_key(other)
                &&& after.rate[other] == st.rate[other]
                &&& after.dirty_auth.contains(other) == st.dirty_auth.contains(other)
            }
            &&& (StateView {
                auth: st.auth,
                rate: st.rate,
                dirty_auth: st.dirty_auth,
                ..after
            }) == st
        }),
{
    law_activity_is_a_day(now);
}

/// A send is answered as full exactly where the queued total and the envelope together exceed the
/// cap of the queue store: as delivered but not queued where the connection took it, and as an error
/// otherwise. Below the cap there is no such answer, whether or not the envelope was delivered live.
/// The total of a 32-bit machine cannot reach the cap.
pub proof fn law_store_full(
    total: usize,
    env: EnvelopeView,
    client_ref: Option<Seq<char>>,
    live: bool,
)
    requires
        encode_utf8(env.ciphertext).len() <= usize::MAX,
        GLOBAL_QUEUE_DISK_CAP_BYTES < usize::MAX || total + encode_utf8(env.ciphertext).len()
            <= usize::MAX,
    ensures
        ({
            let answer = full_store_answer(total, env, client_ref, live);
            let full = total + encode_utf8(env.ciphertext).len() > GLOBAL_QUEUE_DISK_CAP_BYTES;
            &&& answer is Some <==> full
            &&& full && live ==> answer == Some(
                FrameView::SendOk { id: env.id, queued: false, client_ref },
            )
            &&& full && !live ==> answer == Some(
                FrameView::SendError {
                    client_ref,
                    code: "relay_full"@,
                    message: "relay queue storage limit reached"@,
                },
            )
        }),
{
}

/// A send is answered with success exactly where its envelope was queued or delivered live, under
/// its identifier and the reference of the client, and as queued exactly where it was not delivered
/// live. Either way the destination is marked to be written back, and nothing else changes.
pub proof fn law_send_answer(
    st: StateView,
    to: Seq<char>,
    id: u128,
    client_ref: Option<Seq<char>>,
    live: bool,
    enqueued: bool,
)
    ensures
        queued_answer(id, client_ref, live, enqueued) is SendOk <==> live || enqueued,
        queued_answer(id, client_ref, live, enqueued) matches FrameView::SendOk {
            id: given,
            queued,
            client_ref: reference,
        } ==> given == id && queued == !live && reference == client_ref,
        !live && !enqueued ==> queued_answer(id, client_ref, live, enqueued) == (
        FrameView::SendError {
            client_ref,
            code: "relay_error"@,
            message: "could not persist message for offline delivery"@,
        }),
        sent_to(st, to).dirty_auth == st.dirty_auth.insert(to),
        (StateView { dirty_auth: st.dirty_auth, ..sent_to(st, to) }) == st,
{
}

/// A route whose connection did not take an envelope is dropped, and it alone; one whose connection
/// did is kept.
pub proof fn law_route_tried(st: StateView, to: Seq<char>, sent: bool, k: Seq<char>)
    ensures
        route_tried(st, to, sent).online.contains_key(k) <==> st.online.contains_key(k) && (sent || k
            != to),
        route_tried(st, to, sent).online.contains_key(k) ==> route_tried(st, to, sent).online[k]
            == st.online[k],
        (StateView { online: st.online, ..route_tried(st, to, sent) }) == st,
{
}

/// The end of a backlog is told, with the number of its envelopes, exactly to the clients whose
/// version knows the frame.
pub proof fn law_synced(selected: u16, delivered: u64)
    ensures
        synced_answer(selected, delivered) is Some <==> selected >= PROTOCOL_SYNCED,
        synced_answer(selected, delivered) matches Some(frame) ==> frame == (FrameView::Synced {
            count: delivered,
        }),
{
}

// ---------------------------------------------------------------------------
// Hello
// ---------------------------------------------------------------------------

/// The versions that a client speaks: what it names as its oldest and newest, each of which is the
/// single version that it names where it is missing, and the current one where that is missing too.
/// The newest version that both sides speak is selected, and one is wherever there is one.
pub proof fn law_version(min: Option<u16>, max: Option<u16>, single: Option<u16>, v: u16)
    ensures
        ({
            let one = if single is Some {
                single->Some_0
            } else {
                PROTOCOL_VERSION
            };
            let lo = if min is Some {
                min->Some_0
            } else {
                one
            };
            let hi = if max is Some {
                max->Some_0
            } else {
                one
            };
            let spoken = |x: u16| PROTOCOL_MIN_SUPPORTED <= x <= PROTOCOL_VERSION && lo <= x <= hi;
            &&& negotiated(min, max, single) matches Some(n) ==> spoken(n) && (spoken(v) ==> v <= n)
            &&& negotiated(min, max, single) is None ==> !spoken(v)
        }),
{
}

/// A hello is accepted exactly where a version is common, its mailbox and both tokens are well
/// formed, and the mailbox is either known under the hash of the token, or new, worked for and
/// within the limit of mailboxes. Each other hello is refused with the code of what it lacks and
/// changes nothing.
pub proof fn law_hello_decides(
    st: StateView,
    se: SessionView,
    rid: Seq<char>,
    auth_token: Seq<char>,
    delivery_token: Seq<char>,
    min: Option<u16>,
    max: Option<u16>,
    version: Option<u16>,
    pow: Option<Seq<char>>,
    cert_only: bool,
    id: u128,
    now: u64,
)
    ensures
        ({
            let frame = ClientView::Hello {
                recipient_id: rid,
                auth_token,
                delivery_token,
                protocol_min: min,
                protocol_max: max,
                protocol_version: version,
                pow,
                cert_only,
            };
            let out = frame_outcome(st, se, frame, id, now);
            let speaks = negotiated(min, max, version) is Some;
            let formed = is_recipient_id(rid) && is_handle(auth_token) && is_handle(delivery_token);
            let known = st.auth.contains_key(rid);
            let owner = known && st.auth[rid].receive == token_digest(auth_token);
            let worked = has_pow(rid, pow, now);
            let room = st.mailbox_count < MAX_MAILBOXES;
            &&& out.step is Registered <==> speaks && formed && (owner || !known && worked && room)
            &&& out.step !is Registered ==> out.state == st && out.step is Reply
            &&& !speaks ==> says(
                out.step,
                "protocol_mismatch"@,
                "no common relay protocol version"@,
            )
            &&& speaks && !formed ==> says(out.step, "bad_hello"@, "invalid mailbox or token"@)
            &&& speaks && formed && known && !owner ==> says(
                out.step,
                "auth_failed"@,
                "mailbox auth failed"@,
            )
            &&& speaks && formed && !known && !worked ==> says(
                out.step,
                "bad_pow"@,
                "invalid proof of work for new mailbox"@,
            )
            &&& speaks && formed && !known && worked && !room ==> says(
                out.step,
                "relay_full"@,
                "relay mailbox limit reached"@,
            )
        }),
{
}

/// An accepted hello is answered with the selected version, the versions of the relay, the time, the
/// trust root and the file limit; its backlog follows unless it only wants a certificate. It makes
/// its connection the live route of the mailbox, on the same condition, renews the lease, takes the
/// delivery token and keeps the owner; a new mailbox is counted. All else stays.
pub proof fn law_hello_effect(
    st: StateView,
    se: SessionView,
    rid: Seq<char>,
    auth_token: Seq<char>,
    delivery_token: Seq<char>,
    min: Option<u16>,
    max: Option<u16>,
    version: Option<u16>,
    pow: Option<Seq<char>>,
    cert_only: bool,
    id: u128,
    now: u64,
    other: Seq<char>,
)
    requires
        frame_outcome(
            st,
            se,
            ClientView::Hello {
                recipient_id: rid,
                auth_token,
                delivery_token,
                protocol_min: min,
                protocol_max: max,
                protocol_version: version,
                pow,
                cert_only,
            },
            id,
            now,
        ).step is Registered,
    ensures
        ({
            let frame = ClientView::Hello {
                recipient_id: rid,
                auth_token,
                delivery_token,
                protocol_min: min,
                protocol_max: max,
                protocol_version: version,
                pow,
                cert_only,
            };
            let out = frame_outcome(st, se, frame, id, now);
            let after = out.state;
            let known = st.auth.contains_key(rid);
            let record = after.auth[rid];
            let hash = token_digest(delivery_token);
            let before = st.auth[rid];
            &&& out.step matches StepView::Registered { frame, backlog, selected } && {
                &&& negotiated(min, max, version) == Some(selected)
                &&& cert_only ==> backlog is None
                &&& !cert_only ==> backlog == Some(rid)
                &&& frame matches FrameView::HelloOk {
                    protocol_version,
                    min_supported,
                    current_protocol,
                    server_time_ms,
                    trust_root_b64,
                    max_file_bytes,
                } && protocol_version == selected && min_supported == PROTOCOL_MIN_SUPPORTED
                    && current_protocol == PROTOCOL_VERSION && server_time_ms == now
                    && trust_root_b64 == st.trust_root && max_file_bytes
                    == st.file_config.max_file_bytes
            }
            &&& frame_session(se, frame, out).rid == Some(rid)
            &&& after.auth.contains_key(rid) && after.dirty_auth.contains(rid)
            &&& record.receive == token_digest(auth_token)
            &&& record.last_active % MAILBOX_ACTIVITY_GRANULARITY_MS == 0
            &&& record.last_active <= now < record.last_active + MAILBOX_ACTIVITY_GRANULARITY_MS
            &&& record.hashes.contains(hash)
            &&& !known ==> record.primary == hash && record.hashes.len() == 1
            &&& known && before.primary.len() > 0 ==> record.primary == before.primary
            &&& known && before.primary.len() == 0 ==> record.primary == hash
            &&& known && before.hashes.contains(hash) ==> record.hashes == before.hashes
            &&& known && !before.hashes.contains(hash) && before.hashes.len()
                < MAX_DELIVERY_TOKENS_PER_MAILBOX ==> record.hashes == before.hashes.push(hash)
            &&& known && !before.hashes.contains(hash) && before.hashes.len()
                >= MAX_DELIVERY_TOKENS_PER_MAILBOX ==> record.hashes == before.hashes.skip(1).push(
                hash,
            )
            &&& after.mailbox_count == st.mailbox_count + (if known {
                0int
            } else {
                1
            })
            &&& cert_only ==> after.online == st.online
            &&& !cert_only ==> after.online == st.online.insert(rid, se.conn)
            &&& other != rid ==> after.auth.contains_key(other) == st.auth.contains_key(other)
                && after.auth[other] == st.auth[other] && after.dirty_auth.contains(other)
                == st.dirty_auth.contains(other)
            &&& (StateView {
                auth: st.auth,
                online: st.online,
                dirty_auth: st.dirty_auth,
                mailbox_count: st.mailbox_count,
                ..after
            }) == st
        }),
{
    law_activity_is_a_day(now);
    let hash = token_digest(delivery_token);
    if st.auth.contains_key(rid) {
        let before = st.auth[rid].hashes;
        if !before.contains(hash) {
            let rest = if before.len() >= MAX_DELIVERY_TOKENS_PER_MAILBOX {
                before.drop_first()
            } else {
                before
            };
            lemma_push_contains(rest, hash, hash);
            assert(before.drop_first() =~= before.skip(1));
        }
    } else {
        assert(seq![hash][0] == hash);
    }
}

// ---------------------------------------------------------------------------
// Delivery tokens
// ---------------------------------------------------------------------------

/// An allowlist is set exactly by a session with a mailbox that is known, with one to the largest
/// number of well-formed tokens. From then on the mailbox takes exactly the listed tokens, each kept
/// once and the first of them as the primary; the answer names the request and their number. The
/// rest of the record, and of the state, stays.
pub proof fn law_tokens_are_set(
    st: StateView,
    se: SessionView,
    request: Seq<char>,
    tokens: Seq<Seq<char>>,
    id: u128,
    now: u64,
    other: Seq<char>,
    hash: Seq<char>,
)
    ensures
        ({
            let frame = ClientView::SetDeliveryTokens { request_id: request, tokens };
            let out = frame_outcome(st, se, frame, id, now);
            let after = out.state;
            let listed = 1 <= tokens.len() <= MAX_DELIVERY_TOKENS_PER_MAILBOX && forall|i: int|
                0 <= i < tokens.len() ==> is_handle(#[trigger] tokens[i]);
            let known = se.rid is Some && st.auth.contains_key(se.rid->Some_0);
            let set = out.step matches StepView::Reply { frame } && frame is DeliveryTokensSet;
            &&& set <==> listed && known
            &&& !set ==> after == st
            &&& se.rid is None ==> says(out.step, "not_registered"@, "send hello first"@)
            &&& se.rid is Some && !listed ==> says(
                out.step,
                "bad_tokens"@,
                "invalid delivery-token allowlist"@,
            )
            &&& se.rid is Some && listed && !known ==> says(
                out.step,
                "not_registered"@,
                "mailbox auth missing"@,
            )
            &&& set ==> ({
                let rid = se.rid->Some_0;
                let record = after.auth[rid];
                &&& out.step matches StepView::Reply { frame } && frame
                    matches FrameView::DeliveryTokensSet { request_id, active_count } && request_id
                    == request && active_count == record.hashes.len()
                &&& after.auth.contains_key(rid) && after.dirty_auth.contains(rid)
                &&& record.receive == st.auth[rid].receive
                &&& record.last_active == st.auth[rid].last_active
                &&& record.primary == token_digest(tokens[0])
                &&& record.hashes[0] == token_digest(tokens[0])
                &&& record.hashes.no_duplicates()
                &&& record.hashes.contains(hash) <==> exists|i: int|
                    0 <= i < tokens.len() && token_digest(#[trigger] tokens[i]) == hash
                &&& other != rid ==> after.auth.contains_key(other) == st.auth.contains_key(other)
                    && after.auth[other] == st.auth[other] && after.dirty_auth.contains(other)
                    == st.dirty_auth.contains(other)
                &&& (StateView { auth: st.auth, dirty_auth: st.dirty_auth, ..after }) == st
            })
        }),
{
    let list = digests(tokens);
    assert(list.len() == tokens.len());
    law_first_occurrences(list, hash);
    lemma_first_stays(list);
    if exists|i: int| 0 <= i < tokens.len() && token_digest(#[trigger] tokens[i]) == hash {
        let i = choose|i: int| 0 <= i < tokens.len() && token_digest(#[trigger] tokens[i]) == hash;
        assert(list[i] == hash);
    }
    if list.contains(hash) {
        let i = choose|i: int| 0 <= i < list.len() && list[i] == hash;
        assert(token_digest(tokens[i]) == hash);
    }
}

} // verus!
