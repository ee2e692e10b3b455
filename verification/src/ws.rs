//! The rules of a connection: what each client frame does to the state and what is answered.
//!
//! A frame leads to a [`Step`]. Most steps are an answer; the others name work on the durable stores
//! or on other connections, and the functions further down turn its result into the answer.

use crate::config::{
    MAX_BUNDLES, MAX_BUNDLE_BYTES, MAX_BUNDLE_TTL_MS, MAX_CERT_KEY_B64_BYTES,
    MAX_DELIVERY_TOKENS_PER_MAILBOX, MAX_ENVELOPE_TYPE_BYTES, MAX_FRAMES_PER_WINDOW,
    MAX_FRAME_BYTES, MAX_MAILBOXES, MAX_SENDER_DEVICE_ID, MAX_TOTAL_BUNDLE_BYTES,
    MIN_BUNDLE_TTL_MS, PROTOCOL_MIN_SUPPORTED, PROTOCOL_SYNCED, PROTOCOL_VERSION, RATE_WINDOW_MS,
    SENDER_CERT_TTL_MS, GLOBAL_QUEUE_DISK_CAP_BYTES,
};
use crate::file_store::{
    fetch_view, reject_code, reject_message, FetchedChunk, FetchedView, FileReject, StoredChunk,
};
use crate::maps::{
    auth_get, auth_insert, auth_remove, bundles_get, bundles_insert, bundles_len, online_get,
    online_insert, online_remove, rate_remove,
};
use crate::outside::{b64_bytes, b64_decode, b64_encode, b64_text, uuid_fresh};
use crate::protocol::{
    err, file_err, send_err, ClientFrame, ClientView, EnvelopeView, FrameView, RecipientId,
    ServerFrame, StoredEnvelope,
};
use crate::queue_store::{lowered, QueueStore};
use crate::state::{
    activity_day, at, counted_send, fresh_auth, pruned, round_activity, takes_hash, with_hash,
    with_hashes, AppState, AuthView, BundleView, HostedBundle, MailboxAuth, StateView,
};
use crate::text::{byte_len, opt_view, str_eq, text_len, views};
use crate::util::{
    atomic_sub_saturating, ct_eq, has_pow, is_handle, is_recipient_id, now_ms, pow_given,
    token_digest, token_hash, valid_bundle_id, valid_recipient_id, valid_token,
};
use vstd::prelude::*;

verus! {

/// One connection.
#[derive(Debug, Clone, PartialEq, Eq)]
pub struct Session {
    /// The mailbox that the connection has authenticated as.
    pub recipient_id: Option<RecipientId>,
    /// The beginning of the current rate window.
    pub window_start_ms: u64,
    /// The frames received in the current rate window.
    pub frame_count: u32,
    /// The number of the connection.
    pub conn: u64,
}

/// The model of a [`Session`].
#[verifier::ext_equal]
pub struct SessionView {
    pub rid: Option<Seq<char>>,
    pub window_start: u64,
    pub frame_count: u32,
    pub conn: u64,
}

impl View for Session {
    type V = SessionView;

    open spec fn view(&self) -> SessionView {
        SessionView {
            rid: opt_view(self.recipient_id),
            window_start: self.window_start_ms,
            frame_count: self.frame_count,
            conn: self.conn,
        }
    }
}

/// What follows from a frame.
#[derive(Debug, Clone, PartialEq, Eq)]
pub enum Step {
    /// Answer.
    Reply { frame: ServerFrame },
    /// Answer, then send the backlog of the mailbox, where one is to be sent.
    Registered { frame: ServerFrame, backlog: Option<RecipientId>, selected: u16 },
    /// Sign a sender certificate.
    Certify {
        request_id: String,
        sender_uuid: String,
        sender_device_id: u32,
        public_key: Vec<u8>,
        expires_at_ms: u64,
    },
    /// Hand an envelope to the live connection, where there is one, and queue it.
    Deliver { envelope: StoredEnvelope, client_ref: Option<String>, live: Option<u64> },
    /// Store a chunk.
    StoreChunk {
        request_id: String,
        transfer_id: String,
        chunk_index: u32,
        total_chunks: u32,
        total_bytes: u64,
        data: Vec<u8>,
    },
    /// Read a chunk.
    FetchChunk { request_id: String, transfer_id: String, chunk_index: u32 },
    /// Delete a transfer.
    DeleteTransfer { request_id: String, transfer_id: String },
    /// Remove envelopes from a mailbox.
    Ack { mailbox: RecipientId, ids: Vec<u128> },
    /// Purge the queue of a mailbox, answer and close the connection.
    Retire { mailbox: RecipientId, frame: ServerFrame },
}

/// The model of a [`Step`].
pub enum StepView {
    Reply { frame: FrameView },
    Registered { frame: FrameView, backlog: Option<Seq<char>>, selected: u16 },
    Certify {
        request_id: Seq<char>,
        sender_uuid: Seq<char>,
        sender_device_id: u32,
        public_key: Seq<u8>,
        expires_at_ms: u64,
    },
    Deliver { envelope: EnvelopeView, client_ref: Option<Seq<char>>, live: Option<u64> },
    StoreChunk {
        request_id: Seq<char>,
        transfer_id: Seq<char>,
        chunk_index: u32,
        total_chunks: u32,
        total_bytes: u64,
        data: Seq<u8>,
    },
    FetchChunk { request_id: Seq<char>, transfer_id: Seq<char>, chunk_index: u32 },
    DeleteTransfer { request_id: Seq<char>, transfer_id: Seq<char> },
    Ack { mailbox: Seq<char>, ids: Seq<u128> },
    Retire { mailbox: Seq<char>, frame: FrameView },
}

impl View for Step {
    type V = StepView;

    open spec fn view(&self) -> StepView {
        match *self {
            Step::Reply { frame } => StepView::Reply { frame: frame@ },
            Step::Registered { frame, backlog, selected } => StepView::Registered {
                frame: frame@,
                backlog: opt_view(backlog),
                selected,
            },
            Step::Certify {
                request_id,
                sender_uuid,
                sender_device_id,
                public_key,
                expires_at_ms,
            } => StepView::Certify {
                request_id: request_id@,
                sender_uuid: sender_uuid@,
                sender_device_id,
                public_key: public_key@,
                expires_at_ms,
            },
            Step::Deliver { envelope, client_ref, live } => StepView::Deliver {
                envelope: envelope@,
                client_ref: opt_view(client_ref),
                live,
            },
            Step::StoreChunk {
                request_id,
                transfer_id,
                chunk_index,
                total_chunks,
                total_bytes,
                data,
            } => StepView::StoreChunk {
                request_id: request_id@,
                transfer_id: transfer_id@,
                chunk_index,
                total_chunks,
                total_bytes,
                data: data@,
            },
            Step::FetchChunk { request_id, transfer_id, chunk_index } => StepView::FetchChunk {
                request_id: request_id@,
                transfer_id: transfer_id@,
                chunk_index,
            },
            Step::DeleteTransfer { request_id, transfer_id } => StepView::DeleteTransfer {
                request_id: request_id@,
                transfer_id: transfer_id@,
            },
            Step::Ack { mailbox, ids } => StepView::Ack { mailbox: mailbox@, ids: ids@ },
            Step::Retire { mailbox, frame } => StepView::Retire {
                mailbox: mailbox@,
                frame: frame@,
            },
        }
    }
}

/// A step with the state after it.
pub struct Outcome {
    pub step: StepView,
    pub state: StateView,
}

/// An outcome that only answers.
pub open spec fn answered(frame: FrameView, state: StateView) -> Outcome {
    Outcome { step: StepView::Reply { frame }, state }
}

/// An outcome that refuses a frame.
pub open spec fn refused(code: &str, message: &str, state: StateView) -> Outcome {
    answered(FrameView::Error { code: code@, message: message@ }, state)
}

// ---------------------------------------------------------------------------
// The frame gate
// ---------------------------------------------------------------------------

/// The session once a frame is counted.
pub open spec fn counted_frame(se: SessionView, now: u64) -> SessionView {
    if now.saturating_sub(se.window_start) > RATE_WINDOW_MS {
        SessionView { window_start: now, frame_count: 1, ..se }
    } else {
        SessionView { frame_count: se.frame_count.saturating_add(1), ..se }
    }
}

/// The refusal of a frame of `len` bytes by a session that has counted it.
pub open spec fn gate_refusal(se: SessionView, len: nat) -> Option<FrameView> {
    if se.frame_count > MAX_FRAMES_PER_WINDOW {
        Some(
            FrameView::Error { code: "rate_limited"@, message: "too many frames on this socket"@ },
        )
    } else if len > MAX_FRAME_BYTES {
        Some(FrameView::Error { code: "too_large"@, message: "frame too large"@ })
    } else {
        None
    }
}

/// The view of an optional frame.
pub open spec fn opt_frame(f: Option<ServerFrame>) -> Option<FrameView> {
    match f {
        Some(f) => Some(f@),
        None => None,
    }
}

// ---------------------------------------------------------------------------
// Hello
// ---------------------------------------------------------------------------

/// A number, or another where there is none.
pub open spec fn or_else(a: Option<u16>, b: u16) -> u16 {
    match a {
        Some(n) => n,
        None => b,
    }
}

/// The protocol version that both sides speak: the newest of the relay that the client knows.
pub open spec fn negotiated(min: Option<u16>, max: Option<u16>, version: Option<u16>) -> Option<u16> {
    let single = or_else(version, PROTOCOL_VERSION);
    let client_min = or_else(min, single);
    let client_max = or_else(max, single);
    let selected = if PROTOCOL_VERSION <= client_max {
        PROTOCOL_VERSION
    } else {
        client_max
    };
    if selected < PROTOCOL_MIN_SUPPORTED || selected < client_min {
        None
    } else {
        Some(selected)
    }
}

/// What a client says in a hello.
pub struct HelloView {
    pub rid: Seq<char>,
    pub auth_token: Seq<char>,
    pub delivery_token: Seq<char>,
    pub protocol_min: Option<u16>,
    pub protocol_max: Option<u16>,
    pub protocol_version: Option<u16>,
    pub pow: Option<Seq<char>>,
    pub cert_only: bool,
}

/// The record of a known mailbox after a hello.
pub open spec fn greeted(a: AuthView, delivery_token: Seq<char>, now: u64) -> AuthView {
    with_hash(AuthView { last_active: activity_day(now), ..a }, token_digest(delivery_token))
}

/// The state once a hello is accepted, with the record of its mailbox.
pub open spec fn registered(st: StateView, h: HelloView, conn: u64, record: AuthView) -> StateView {
    StateView {
        auth: st.auth.insert(h.rid, record),
        dirty_auth: st.dirty_auth.insert(h.rid),
        online: if h.cert_only {
            st.online
        } else {
            st.online.insert(h.rid, conn)
        },
        ..st
    }
}

/// The step of an accepted hello.
pub open spec fn welcome(st: StateView, h: HelloView, selected: u16, now: u64) -> StepView {
    StepView::Registered {
        frame: FrameView::HelloOk {
            protocol_version: selected,
            min_supported: PROTOCOL_MIN_SUPPORTED,
            current_protocol: PROTOCOL_VERSION,
            server_time_ms: now,
            trust_root_b64: st.trust_root,
            max_file_bytes: st.file_config.max_file_bytes,
        },
        backlog: if h.cert_only {
            None
        } else {
            Some(h.rid)
        },
        selected,
    }
}

/// What a hello leads to.
pub open spec fn hello_outcome(st: StateView, h: HelloView, conn: u64, now: u64) -> Outcome {
    match negotiated(h.protocol_min, h.protocol_max, h.protocol_version) {
        None => refused("protocol_mismatch", "no common relay protocol version", st),
        Some(selected) => if !is_recipient_id(h.rid) || !is_handle(h.auth_token) || !is_handle(
            h.delivery_token,
        ) {
            refused("bad_hello", "invalid mailbox or token", st)
        } else if st.auth.contains_key(h.rid) {
            if st.auth[h.rid].receive != token_digest(h.auth_token) {
                refused("auth_failed", "mailbox auth failed", st)
            } else {
                Outcome {
                    step: welcome(st, h, selected, now),
                    state: registered(
                        st,
                        h,
                        conn,
                        greeted(st.auth[h.rid], h.delivery_token, now),
                    ),
                }
            }
        } else if !has_pow(h.rid, h.pow, now) {
            refused("bad_pow", "invalid proof of work for new mailbox", st)
        } else if st.mailbox_count >= MAX_MAILBOXES {
            refused("relay_full", "relay mailbox limit reached", st)
        } else {
            Outcome {
                step: welcome(st, h, selected, now),
                state: registered(
                    StateView { mailbox_count: (st.mailbox_count + 1) as usize, ..st },
                    h,
                    conn,
                    fresh_auth(token_digest(h.auth_token), token_digest(h.delivery_token), now),
                ),
            }
        },
    }
}

/// The session after a hello: authenticated where it was accepted.
pub open spec fn hello_session(se: SessionView, h: HelloView, out: Outcome) -> SessionView {
    if out.step is Registered {
        SessionView { rid: Some(h.rid), ..se }
    } else {
        se
    }
}

// ---------------------------------------------------------------------------
// Delivery tokens
// ---------------------------------------------------------------------------

/// The hashes of tokens.
pub open spec fn digests(tokens: Seq<Seq<char>>) -> Seq<Seq<char>> {
    Seq::new(tokens.len(), |i: int| token_digest(tokens[i]))
}

/// Whether tokens can be an allowlist.
pub open spec fn is_allowlist(tokens: Seq<Seq<char>>) -> bool {
    &&& 1 <= tokens.len() <= MAX_DELIVERY_TOKENS_PER_MAILBOX
    &&& forall|i: int| 0 <= i < tokens.len() ==> is_handle(#[trigger] tokens[i])
}

/// What replacing the delivery tokens leads to.
pub open spec fn tokens_outcome(
    st: StateView,
    rid: Option<Seq<char>>,
    request_id: Seq<char>,
    tokens: Seq<Seq<char>>,
) -> Outcome {
    match rid {
        None => refused("not_registered", "send hello first", st),
        Some(rid) => if !is_allowlist(tokens) {
            refused("bad_tokens", "invalid delivery-token allowlist", st)
        } else if !st.auth.contains_key(rid) {
            refused("not_registered", "mailbox auth missing", st)
        } else {
            let record = with_hashes(st.auth[rid], digests(tokens));
            answered(
                FrameView::DeliveryTokensSet {
                    request_id,
                    active_count: record.hashes.len() as usize,
                },
                StateView {
                    auth: st.auth.insert(rid, record),
                    dirty_auth: st.dirty_auth.insert(rid),
                    ..st
                },
            )
        },
    }
}

// ---------------------------------------------------------------------------
// Sender certificates
// ---------------------------------------------------------------------------

/// What a request for a sender certificate leads to.
pub open spec fn certificate_step(
    rid: Option<Seq<char>>,
    request_id: Seq<char>,
    sender_uuid: Seq<char>,
    sender_device_id: u32,
    key_b64: Seq<char>,
    now: u64,
) -> StepView {
    match rid {
        None => StepView::Reply {
            frame: FrameView::Error { code: "not_registered"@, message: "send hello first"@ },
        },
        Some(rid) => if sender_uuid != rid {
            StepView::Reply {
                frame: FrameView::Error {
                    code: "cert_denied"@,
                    message: "sender certificate can only be issued for your authenticated mailbox"@,
                },
            }
        } else {
            match certificate_refusal(sender_uuid, sender_device_id, key_b64) {
                Some(message) => StepView::Reply {
                    frame: FrameView::Error { code: "cert_failed"@, message },
                },
                None => StepView::Certify {
                    request_id,
                    sender_uuid,
                    sender_device_id,
                    public_key: b64_bytes(key_b64)->Some_0,
                    expires_at_ms: now.saturating_add(SENDER_CERT_TTL_MS),
                },
            }
        },
    }
}

/// Why a certificate is not signed.
pub open spec fn certificate_refusal(
    sender_uuid: Seq<char>,
    sender_device_id: u32,
    key_b64: Seq<char>,
) -> Option<Seq<char>> {
    if !is_recipient_id(sender_uuid) || sender_device_id == 0 || sender_device_id
        > MAX_SENDER_DEVICE_ID {
        Some("invalid sender certificate request"@)
    } else if byte_len(key_b64) > MAX_CERT_KEY_B64_BYTES {
        Some("sender certificate public key is too large"@)
    } else if b64_bytes(key_b64) is None {
        Some("bad sender certificate public key encoding"@)
    } else {
        None
    }
}

// ---------------------------------------------------------------------------
// Envelopes
// ---------------------------------------------------------------------------

/// An outcome that refuses a send.
pub open spec fn send_refused(
    client_ref: Option<Seq<char>>,
    code: &str,
    message: &str,
    state: StateView,
) -> Outcome {
    answered(FrameView::SendError { client_ref, code: code@, message: message@ }, state)
}

/// The state once a send to a mailbox is authorized: its lease is renewed.
pub open spec fn renewed(st: StateView, to: Seq<char>, now: u64) -> StateView {
    StateView {
        auth: st.auth.insert(to, AuthView { last_active: activity_day(now), ..st.auth[to] }),
        dirty_auth: st.dirty_auth.insert(to),
        ..st
    }
}

/// What a send leads to, where the envelope gets the identifier `env.id`.
pub open spec fn send_outcome(
    st: StateView,
    client_ref: Option<Seq<char>>,
    delivery_token: Seq<char>,
    env: EnvelopeView,
    now: u64,
) -> Outcome {
    if !is_recipient_id(env.to) || !is_handle(delivery_token) {
        send_refused(client_ref, "bad_send", "invalid destination or delivery token", st)
    } else if byte_len(env.envelope_type) > MAX_ENVELOPE_TYPE_BYTES || byte_len(env.ciphertext)
        > MAX_FRAME_BYTES {
        send_refused(client_ref, "bad_envelope", "envelope rejected by size/type limits", st)
    } else if !st.auth.contains_key(env.to) || !takes_hash(
        st.auth[env.to],
        token_digest(delivery_token),
    ) {
        send_refused(client_ref, "delivery_denied", "delivery token rejected", st)
    } else {
        let (allowed, window) = counted_send(at(st.rate, env.to), now);
        let after = StateView {
            rate: st.rate.insert(env.to, window),
            ..renewed(st, env.to, now)
        };
        if allowed {
            Outcome {
                step: StepView::Deliver {
                    envelope: env,
                    client_ref,
                    live: at(st.online, env.to),
                },
                state: after,
            }
        } else {
            send_refused(client_ref, "rate_limited", "too many sends to this destination", after)
        }
    }
}

// ---------------------------------------------------------------------------
// Invite bundles
// ---------------------------------------------------------------------------

/// The expiry that an upload is given: what it asks for, within limits.
pub open spec fn granted_expiry(asked: u64, now: u64) -> u64 {
    let most = now.saturating_add(MAX_BUNDLE_TTL_MS);
    let least = now.saturating_add(MIN_BUNDLE_TTL_MS);
    let capped = if asked <= most {
        asked
    } else {
        most
    };
    if capped >= least {
        capped
    } else {
        least
    }
}

/// The state with a bundle in the place of any expired one of the same identifier.
pub open spec fn hosted(st: StateView, bundle: BundleView) -> StateView {
    let rest = match at(st.bundles, bundle.id) {
        Some(b) => lowered(st.bundle_bytes, byte_len(b.ciphertext) as usize),
        None => st.bundle_bytes,
    };
    StateView {
        bundles: st.bundles.insert(bundle.id, bundle),
        bundle_bytes: rest.wrapping_add(byte_len(bundle.ciphertext) as usize),
        dirty_bundles: st.dirty_bundles.insert(bundle.id),
        ..st
    }
}

/// What uploading an invite bundle leads to.
pub open spec fn upload_bundle_outcome(
    st: StateView,
    request_id: Seq<char>,
    bundle_id: Seq<char>,
    ciphertext: Seq<char>,
    expires_at_ms: u64,
    pow: Option<Seq<char>>,
    now: u64,
) -> Outcome {
    if !is_handle(bundle_id) || byte_len(ciphertext) > MAX_BUNDLE_BYTES {
        refused("bad_bundle", "invalid invite bundle", st)
    } else if !has_pow(bundle_id, pow, now) {
        refused("bad_pow", "invalid proof of work for invite bundle upload", st)
    } else {
        let p = pruned(st, now);
        if p.bundles.contains_key(bundle_id) && p.bundles[bundle_id].expires_at_ms > now {
            if p.bundles[bundle_id].ciphertext == ciphertext {
                answered(
                    FrameView::BundleUploaded {
                        request_id,
                        bundle_id,
                        expires_at_ms: p.bundles[bundle_id].expires_at_ms,
                    },
                    p,
                )
            } else {
                refused("bundle_exists", "an invite bundle with this id already exists", p)
            }
        } else if p.bundles.dom().len() >= MAX_BUNDLES {
            refused("relay_full", "relay invite bundle limit reached", p)
        } else if p.bundle_bytes.saturating_add(byte_len(ciphertext) as usize)
            > MAX_TOTAL_BUNDLE_BYTES {
            refused("relay_full", "relay invite bundle storage limit reached", p)
        } else {
            let expires = granted_expiry(expires_at_ms, now);
            answered(
                FrameView::BundleUploaded { request_id, bundle_id, expires_at_ms: expires },
                hosted(
                    p,
                    BundleView {
                        id: bundle_id,
                        ciphertext,
                        created_at_ms: now,
                        expires_at_ms: expires,
                    },
                ),
            )
        }
    }
}

/// What fetching an invite bundle leads to: an expired one is not found, also between two prunes.
pub open spec fn fetch_bundle_outcome(
    st: StateView,
    request_id: Seq<char>,
    bundle_id: Seq<char>,
    now: u64,
) -> Outcome {
    let p = pruned(st, now);
    if p.bundles.contains_key(bundle_id) && p.bundles[bundle_id].expires_at_ms > now {
        let b = p.bundles[bundle_id];
        answered(
            FrameView::Bundle {
                request_id,
                bundle_id: b.id,
                ciphertext: b.ciphertext,
                expires_at_ms: b.expires_at_ms,
            },
            p,
        )
    } else {
        refused("bundle_not_found", "invite bundle was not found or has expired", p)
    }
}

// ---------------------------------------------------------------------------
// Files
// ---------------------------------------------------------------------------

/// The refusal of a file request.
pub open spec fn file_refusal(
    request_id: Seq<char>,
    transfer_id: Seq<char>,
    code: Seq<char>,
    message: Seq<char>,
) -> FrameView {
    FrameView::FileError { request_id, transfer_id, code, message }
}

/// What uploading a chunk leads to, before the store is asked.
pub open spec fn upload_chunk_step(
    request_id: Seq<char>,
    transfer_id: Seq<char>,
    chunk_index: u32,
    total_chunks: u32,
    total_bytes: u64,
    ciphertext: Seq<char>,
    pow: Option<Seq<char>>,
    now: u64,
) -> StepView {
    if !is_handle(transfer_id) {
        StepView::Reply {
            frame: file_refusal(request_id, transfer_id, "bad_request"@, "invalid transfer id"@),
        }
    } else {
        match b64_bytes(ciphertext) {
            None => StepView::Reply {
                frame: file_refusal(
                    request_id,
                    transfer_id,
                    "bad_request"@,
                    "invalid chunk encoding"@,
                ),
            },
            Some(data) => if chunk_index == 0 && !has_pow(transfer_id, pow, now) {
                StepView::Reply {
                    frame: file_refusal(
                        request_id,
                        transfer_id,
                        "pow_required"@,
                        "invalid proof of work for new file transfer"@,
                    ),
                }
            } else {
                StepView::StoreChunk {
                    request_id,
                    transfer_id,
                    chunk_index,
                    total_chunks,
                    total_bytes,
                    data,
                }
            },
        }
    }
}

// ---------------------------------------------------------------------------
// Retiring a mailbox
// ---------------------------------------------------------------------------

/// The state without a mailbox that was retired.
pub open spec fn retired(st: StateView, rid: Seq<char>) -> StateView {
    StateView {
        auth: st.auth.remove(rid),
        mailbox_count: if st.auth.contains_key(rid) {
            st.mailbox_count.wrapping_sub(1)
        } else {
            st.mailbox_count
        },
        rate: st.rate.remove(rid),
        online: st.online.remove(rid),
        dirty_auth: st.dirty_auth.insert(rid),
        ..st
    }
}

// ---------------------------------------------------------------------------
// All frames
// ---------------------------------------------------------------------------

/// What a frame leads to, for a session that has authenticated as `se.rid` or not at all.
pub open spec fn frame_outcome(
    st: StateView,
    se: SessionView,
    frame: ClientView,
    id: u128,
    now: u64,
) -> Outcome {
    match frame {
        ClientView::Hello {
            recipient_id,
            auth_token,
            delivery_token,
            protocol_min,
            protocol_max,
            protocol_version,
            pow,
            cert_only,
        } => hello_outcome(
            st,
            HelloView {
                rid: recipient_id,
                auth_token,
                delivery_token,
                protocol_min,
                protocol_max,
                protocol_version,
                pow,
                cert_only,
            },
            se.conn,
            now,
        ),
        ClientView::SetDeliveryTokens { request_id, tokens } => tokens_outcome(
            st,
            se.rid,
            request_id,
            tokens,
        ),
        ClientView::IssueSenderCertificate {
            request_id,
            sender_uuid,
            sender_device_id,
            sender_cert_public_b64,
        } => Outcome {
            step: certificate_step(
                se.rid,
                request_id,
                sender_uuid,
                sender_device_id,
                sender_cert_public_b64,
                now,
            ),
            state: st,
        },
        ClientView::SendEnvelope { client_ref, to, delivery_token, envelope_type, ciphertext } => {
            send_outcome(
                st,
                client_ref,
                delivery_token,
                EnvelopeView { id, to, envelope_type, ciphertext },
                now,
            )
        },
        ClientView::UploadBundle { request_id, bundle_id, ciphertext, expires_at_ms, pow } => {
            upload_bundle_outcome(st, request_id, bundle_id, ciphertext, expires_at_ms, pow, now)
        },
        ClientView::FetchBundle { request_id, bundle_id } => fetch_bundle_outcome(
            st,
            request_id,
            bundle_id,
            now,
        ),
        ClientView::UploadFileChunk {
            request_id,
            transfer_id,
            chunk_index,
            total_chunks,
            total_bytes,
            ciphertext,
            pow,
        } => Outcome {
            step: upload_chunk_step(
                request_id,
                transfer_id,
                chunk_index,
                total_chunks,
                total_bytes,
                ciphertext,
                pow,
                now,
            ),
            state: st,
        },
        ClientView::FetchFileChunk { request_id, transfer_id, chunk_index } => Outcome {
            step: if is_handle(transfer_id) {
                StepView::FetchChunk { request_id, transfer_id, chunk_index }
            } else {
                StepView::Reply {
                    frame: file_refusal(
                        request_id,
                        transfer_id,
                        "bad_request"@,
                        "invalid transfer id"@,
                    ),
                }
            },
            state: st,
        },
        ClientView::DeleteTransfer { request_id, transfer_id } => Outcome {
            step: if is_handle(transfer_id) {
                StepView::DeleteTransfer { request_id, transfer_id }
            } else {
                StepView::Reply {
                    frame: file_refusal(
                        request_id,
                        transfer_id,
                        "bad_request"@,
                        "invalid transfer id"@,
                    ),
                }
            },
            state: st,
        },
        ClientView::Ack { ids } => match se.rid {
            None => refused("not_registered", "send hello first", st),
            Some(rid) => Outcome { step: StepView::Ack { mailbox: rid, ids }, state: st },
        },
        ClientView::RetireMailbox => match se.rid {
            None => refused("not_registered", "send hello first", st),
            Some(rid) => Outcome {
                step: StepView::Retire { mailbox: rid, frame: FrameView::AckOk { removed: 0 } },
                state: retired(st, rid),
            },
        },
        ClientView::Ping => answered(FrameView::Pong { server_time_ms: now }, st),
    }
}

/// The session after a frame: an accepted hello authenticates it.
pub open spec fn frame_session(se: SessionView, frame: ClientView, out: Outcome) -> SessionView {
    match frame {
        ClientView::Hello { recipient_id, .. } => if out.step is Registered {
            SessionView { rid: Some(recipient_id), ..se }
        } else {
            se
        },
        _ => se,
    }
}

fn reply(frame: ServerFrame) -> (r: Step)
    ensures
        r@ == (StepView::Reply { frame: frame@ }),
{
    Step::Reply { frame }
}

fn refuse(code: &str, message: &str) -> (r: Step)
    ensures
        r@ == (StepView::Reply {
            frame: FrameView::Error { code: code@, message: message@ },
        }),
{
    Step::Reply { frame: err(code, message) }
}

fn refuse_send(client_ref: Option<String>, code: &str, message: &str) -> (r: Step)
    ensures
        r@ == (StepView::Reply {
            frame: FrameView::SendError {
                client_ref: opt_view(client_ref),
                code: code@,
                message: message@,
            },
        }),
{
    Step::Reply { frame: send_err(client_ref, code, message) }
}

fn refuse_file(request_id: String, transfer_id: &str, code: &str, message: &str) -> (r: Step)
    ensures
        r@ == (StepView::Reply {
            frame: file_refusal(request_id@, transfer_id@, code@, message@),
        }),
{
    Step::Reply { frame: file_err(request_id, transfer_id, code, message) }
}

fn pow_of(pow: &Option<String>) -> (r: Option<&str>)
    ensures
        crate::text::opt_str_view(r) == opt_view(*pow),
{
    match pow {
        Some(n) => Some(n.as_str()),
        None => None,
    }
}

/// The protocol version that both sides speak.
pub fn negotiate(min: Option<u16>, max: Option<u16>, version: Option<u16>) -> (r: Option<u16>)
    ensures
        r == negotiated(min, max, version),
{
    let single: u16 = match version {
        Some(n) => n,
        None => PROTOCOL_VERSION,
    };
    let client_min: u16 = match min {
        Some(n) => n,
        None => single,
    };
    let client_max: u16 = match max {
        Some(n) => n,
        None => single,
    };
    let selected: u16 = if PROTOCOL_VERSION <= client_max {
        PROTOCOL_VERSION
    } else {
        client_max
    };
    if selected < PROTOCOL_MIN_SUPPORTED || selected < client_min {
        None
    } else {
        Some(selected)
    }
}

/// A connection that was opened at a given time and has said nothing.
pub open spec fn new_session(conn: u64, now: u64) -> SessionView {
    SessionView { rid: None, window_start: now, frame_count: 0, conn }
}

impl Session {
    /// A connection that was opened now and has said nothing.
    pub fn new(conn: u64, now: u64) -> (r: Session)
        ensures
            r@ == new_session(conn, now),
    {
        Session { recipient_id: None, window_start_ms: now, frame_count: 0, conn }
    }

    /// Counts a frame of `len` bytes and says why it is not read, where it is not.
    pub fn admit_frame(&mut self, len: usize, now: u64) -> (r: Option<ServerFrame>)
        ensures
            final(self)@ == counted_frame(old(self)@, now),
            opt_frame(r) == gate_refusal(final(self)@, len as nat),
    {
        if now.saturating_sub(self.window_start_ms) > RATE_WINDOW_MS {
            self.window_start_ms = now;
            self.frame_count = 0;
        }
        self.frame_count = self.frame_count.saturating_add(1);
        if self.frame_count > MAX_FRAMES_PER_WINDOW {
            return Some(err("rate_limited", "too many frames on this socket"));
        }
        if len > MAX_FRAME_BYTES {
            return Some(err("too_large", "frame too large"));
        }
        None
    }

    /// Registers the connection for a mailbox, which is created where it is new.
    pub fn hello(
        &mut self,
        state: &mut AppState,
        rid: RecipientId,
        auth_token: String,
        delivery_token: String,
        protocol: (Option<u16>, Option<u16>, Option<u16>),
        pow: Option<String>,
        cert_only: bool,
        now: u64,
    ) -> (r: Step)
        ensures
            ({
                let h = HelloView {
                    rid: rid@,
                    auth_token: auth_token@,
                    delivery_token: delivery_token@,
                    protocol_min: protocol.0,
                    protocol_max: protocol.1,
                    protocol_version: protocol.2,
                    pow: opt_view(pow),
                    cert_only,
                };
                let out = hello_outcome(old(state)@, h, old(self)@.conn, now);
                &&& r@ == out.step
                &&& final(state)@ == out.state
                &&& final(self)@ == hello_session(old(self)@, h, out)
            }),
    {
        let selected: u16 = match negotiate(protocol.0, protocol.1, protocol.2) {
            Some(n) => n,
            None => {
                return refuse("protocol_mismatch", "no common relay protocol version");
            },
        };
        if !valid_recipient_id(rid.as_str()) || !valid_token(auth_token.as_str()) || !valid_token(
            delivery_token.as_str(),
        ) {
            return refuse("bad_hello", "invalid mailbox or token");
        }
        let auth_hash: String = token_hash(auth_token.as_str());
        let delivery_hash: String = token_hash(delivery_token.as_str());
        let record: MailboxAuth = match auth_get(&state.mailbox_auth, rid.as_str()) {
            Some(existing) => {
                if !ct_eq(existing.receive_auth_hash.as_str(), auth_hash.as_str()) {
                    return refuse("auth_failed", "mailbox auth failed");
                }
                let mut auth: MailboxAuth = existing;
                auth.last_active_ms = round_activity(now);
                let _ = auth.ensure_delivery_hash(delivery_hash);
                auth
            },
            None => {
                if !pow_given(rid.as_str(), pow_of(&pow), now) {
                    return refuse("bad_pow", "invalid proof of work for new mailbox");
                }
                if !state.reserve_mailbox_slot() {
                    return refuse("relay_full", "relay mailbox limit reached");
                }
                MailboxAuth::new_at(auth_hash, delivery_hash, now)
            },
        };
        auth_insert(&mut state.mailbox_auth, rid.clone(), record);
        state.mark_auth_dirty(rid.as_str());
        let frame: ServerFrame = ServerFrame::HelloOk {
            protocol_version: selected,
            min_supported: PROTOCOL_MIN_SUPPORTED,
            current_protocol: PROTOCOL_VERSION,
            server_time_ms: now,
            trust_root_b64: state.trust_root_public_b64.clone(),
            max_file_bytes: state.file_config.max_file_bytes,
        };
        let backlog: Option<RecipientId> = if cert_only {
            None
        } else {
            online_insert(&mut state.online, rid.clone(), self.conn);
            Some(rid.clone())
        };
        self.recipient_id = Some(rid);
        Step::Registered { frame, backlog, selected }
    }

    /// Replaces the delivery tokens of the mailbox of the connection.
    pub fn set_delivery_tokens(
        &self,
        state: &mut AppState,
        request_id: String,
        tokens: Vec<String>,
    ) -> (r: Step)
        ensures
            ({
                let out = tokens_outcome(
                    old(state)@,
                    self@.rid,
                    request_id@,
                    views(tokens@),
                );
                &&& r@ == out.step
                &&& final(state)@ == out.state
            }),
    {
        let rid: &String = match &self.recipient_id {
            Some(rid) => rid,
            None => {
                return refuse("not_registered", "send hello first");
            },
        };
        let ghost all = views(tokens@);
        let mut usable: bool = tokens.len() >= 1 && tokens.len() <= MAX_DELIVERY_TOKENS_PER_MAILBOX;
        let mut hashes: Vec<String> = Vec::new();
        let mut i: usize = 0;
        while usable && i < tokens.len()
            invariant
                i <= tokens@.len(),
                all == views(tokens@),
                hashes@.len() == i,
                usable ==> 1 <= tokens@.len() <= MAX_DELIVERY_TOKENS_PER_MAILBOX,
                usable ==> forall|j: int| 0 <= j < i ==> is_handle(#[trigger] all[j]),
                !usable ==> !is_allowlist(all),
                forall|j: int| 0 <= j < i ==> (#[trigger] hashes@[j])@ == token_digest(all[j]),
            decreases tokens@.len() - i + (if usable {
                1int
            } else {
                0int
            }),
        {
            proof {
                assert(all[i as int] == tokens@[i as int]@);
            }
            if !valid_token(tokens[i].as_str()) {
                usable = false;
            } else {
                hashes.push(token_hash(tokens[i].as_str()));
                i += 1;
            }
        }
        if !usable {
            return refuse("bad_tokens", "invalid delivery-token allowlist");
        }
        proof {
            assert(is_allowlist(all));
            assert(views(hashes@) =~= digests(all));
        }
        match auth_get(&state.mailbox_auth, rid.as_str()) {
            Some(existing) => {
                let mut auth: MailboxAuth = existing;
                auth.replace_delivery_hashes(hashes);
                let active_count: usize = auth.delivery_token_hashes.len();
                auth_insert(&mut state.mailbox_auth, rid.clone(), auth);
                state.mark_auth_dirty(rid.as_str());
                reply(ServerFrame::DeliveryTokensSet { request_id, active_count })
            },
            None => refuse("not_registered", "mailbox auth missing"),
        }
    }

    /// Checks a request for a sender certificate: only for the mailbox of the connection.
    pub fn issue_sender_certificate(
        &self,
        request_id: String,
        sender_uuid: String,
        sender_device_id: u32,
        sender_cert_public_b64: String,
        now: u64,
    ) -> (r: Step)
        ensures
            r@ == certificate_step(
                self@.rid,
                request_id@,
                sender_uuid@,
                sender_device_id,
                sender_cert_public_b64@,
                now,
            ),
    {
        let rid: &String = match &self.recipient_id {
            Some(rid) => rid,
            None => {
                return refuse("not_registered", "send hello first");
            },
        };
        if !str_eq(sender_uuid.as_str(), rid.as_str()) {
            return refuse(
                "cert_denied",
                "sender certificate can only be issued for your authenticated mailbox",
            );
        }
        if !valid_recipient_id(sender_uuid.as_str()) || sender_device_id == 0 || sender_device_id
            > MAX_SENDER_DEVICE_ID {
            return refuse("cert_failed", "invalid sender certificate request");
        }
        if text_len(sender_cert_public_b64.as_str()) > MAX_CERT_KEY_B64_BYTES {
            return refuse("cert_failed", "sender certificate public key is too large");
        }
        match b64_decode(sender_cert_public_b64.as_str()) {
            Some(public_key) => Step::Certify {
                request_id,
                sender_uuid,
                sender_device_id,
                public_key,
                expires_at_ms: now.saturating_add(SENDER_CERT_TTL_MS),
            },
            None => refuse("cert_failed", "bad sender certificate public key encoding"),
        }
    }

    /// Checks a send and counts it; nothing changes before the delivery token is accepted.
    pub fn send_envelope(
        state: &mut AppState,
        client_ref: Option<String>,
        delivery_token: String,
        env: StoredEnvelope,
        now: u64,
    ) -> (r: Step)
        ensures
            ({
                let out = send_outcome(
                    old(state)@,
                    opt_view(client_ref),
                    delivery_token@,
                    env@,
                    now,
                );
                &&& r@ == out.step
                &&& final(state)@ == out.state
            }),
    {
        if !valid_recipient_id(env.to.as_str()) || !valid_token(delivery_token.as_str()) {
            return refuse_send(client_ref, "bad_send", "invalid destination or delivery token");
        }
        if text_len(env.envelope_type.as_str()) > MAX_ENVELOPE_TYPE_BYTES
            || text_len(env.ciphertext.as_str()) > MAX_FRAME_BYTES {
            return refuse_send(client_ref, "bad_envelope", "envelope rejected by size/type limits");
        }
        match auth_get(&state.mailbox_auth, env.to.as_str()) {
            None => {
                return refuse_send(client_ref, "delivery_denied", "delivery token rejected");
            },
            Some(existing) => {
                let hash: String = token_hash(delivery_token.as_str());
                if !existing.accepts_delivery_hash(hash.as_str()) {
                    return refuse_send(client_ref, "delivery_denied", "delivery token rejected");
                }
                let mut auth: MailboxAuth = existing;
                auth.last_active_ms = round_activity(now);
                auth_insert(&mut state.mailbox_auth, env.to.clone(), auth);
                state.mark_auth_dirty(env.to.as_str());
            },
        }
        if !state.allow_dest_send(env.to.as_str(), now) {
            return refuse_send(client_ref, "rate_limited", "too many sends to this destination");
        }
        let live: Option<u64> = online_get(&state.online, env.to.as_str());
        Step::Deliver { envelope: env, client_ref, live }
    }

    /// Hosts an invite bundle. A live bundle is never replaced; the same bundle again is a success.
    pub fn upload_bundle(
        state: &mut AppState,
        request_id: String,
        bundle_id: String,
        ciphertext: String,
        expires_at_ms: u64,
        pow: Option<String>,
        now: u64,
    ) -> (r: Step)
        ensures
            ({
                let out = upload_bundle_outcome(
                    old(state)@,
                    request_id@,
                    bundle_id@,
                    ciphertext@,
                    expires_at_ms,
                    opt_view(pow),
                    now,
                );
                &&& r@ == out.step
                &&& final(state)@ == out.state
            }),
    {
        let len: usize = text_len(ciphertext.as_str());
        if !valid_bundle_id(bundle_id.as_str()) || len > MAX_BUNDLE_BYTES {
            return refuse("bad_bundle", "invalid invite bundle");
        }
        if !pow_given(bundle_id.as_str(), pow_of(&pow), now) {
            return refuse("bad_pow", "invalid proof of work for invite bundle upload");
        }
        state.prune_expired_bundles(now);
        if let Some(existing) = bundles_get(&state.bundles, bundle_id.as_str()) {
            if existing.expires_at_ms > now {
                if str_eq(existing.ciphertext.as_str(), ciphertext.as_str()) {
                    return reply(
                        ServerFrame::BundleUploaded {
                            request_id,
                            bundle_id,
                            expires_at_ms: existing.expires_at_ms,
                        },
                    );
                }
                return refuse("bundle_exists", "an invite bundle with this id already exists");
            }
        }
        if bundles_len(&state.bundles) >= MAX_BUNDLES {
            return refuse("relay_full", "relay invite bundle limit reached");
        }
        if state.total_bundle_bytes.saturating_add(len) > MAX_TOTAL_BUNDLE_BYTES {
            return refuse("relay_full", "relay invite bundle storage limit reached");
        }
        let most: u64 = now.saturating_add(MAX_BUNDLE_TTL_MS);
        let least: u64 = now.saturating_add(MIN_BUNDLE_TTL_MS);
        let within: u64 = if expires_at_ms <= most {
            expires_at_ms
        } else {
            most
        };
        let expires: u64 = if within >= least {
            within
        } else {
            least
        };
        let bundle: HostedBundle = HostedBundle {
            id: bundle_id.clone(),
            ciphertext,
            created_at_ms: now,
            expires_at_ms: expires,
        };
        if let Some(old_bundle) = bundles_insert(&mut state.bundles, bundle_id.clone(), bundle) {
            let old_len: usize = text_len(old_bundle.ciphertext.as_str());
            atomic_sub_saturating(&mut state.total_bundle_bytes, old_len);
        }
        state.total_bundle_bytes = state.total_bundle_bytes.wrapping_add(len);
        state.mark_bundle_dirty(bundle_id.as_str());
        reply(ServerFrame::BundleUploaded { request_id, bundle_id, expires_at_ms: expires })
    }

    /// Hands out an invite bundle that has not expired.
    pub fn fetch_bundle(
        state: &mut AppState,
        request_id: String,
        bundle_id: String,
        now: u64,
    ) -> (r: Step)
        ensures
            ({
                let out = fetch_bundle_outcome(old(state)@, request_id@, bundle_id@, now);
                &&& r@ == out.step
                &&& final(state)@ == out.state
            }),
    {
        state.prune_expired_bundles(now);
        if let Some(bundle) = bundles_get(&state.bundles, bundle_id.as_str()) {
            if bundle.expires_at_ms > now {
                return reply(
                    ServerFrame::Bundle {
                        request_id,
                        bundle_id: bundle.id,
                        ciphertext: bundle.ciphertext,
                        expires_at_ms: bundle.expires_at_ms,
                    },
                );
            }
        }
        refuse("bundle_not_found", "invite bundle was not found or has expired")
    }

    /// Checks a chunk upload: the first chunk, which creates the transfer, needs a proof of work.
    pub fn upload_file_chunk(
        request_id: String,
        transfer_id: String,
        chunk_index: u32,
        total_chunks: u32,
        total_bytes: u64,
        ciphertext: String,
        pow: Option<String>,
        now: u64,
    ) -> (r: Step)
        ensures
            r@ == upload_chunk_step(
                request_id@,
                transfer_id@,
                chunk_index,
                total_chunks,
                total_bytes,
                ciphertext@,
                opt_view(pow),
                now,
            ),
    {
        if !valid_bundle_id(transfer_id.as_str()) {
            return refuse_file(
                request_id,
                transfer_id.as_str(),
                "bad_request",
                "invalid transfer id",
            );
        }
        match b64_decode(ciphertext.as_str()) {
            None => refuse_file(
                request_id,
                transfer_id.as_str(),
                "bad_request",
                "invalid chunk encoding",
            ),
            Some(data) => {
                if chunk_index == 0 && !pow_given(transfer_id.as_str(), pow_of(&pow), now) {
                    return refuse_file(
                        request_id,
                        transfer_id.as_str(),
                        "pow_required",
                        "invalid proof of work for new file transfer",
                    );
                }
                Step::StoreChunk {
                    request_id,
                    transfer_id,
                    chunk_index,
                    total_chunks,
                    total_bytes,
                    data,
                }
            },
        }
    }

    /// Drops the mailbox of the connection.
    pub fn retire_mailbox(&self, state: &mut AppState) -> (r: Step)
        ensures
            match self@.rid {
                None => r@ == refused("not_registered", "send hello first", old(state)@).step
                    && final(state)@ == old(state)@,
                Some(rid) => r@ == (StepView::Retire {
                    mailbox: rid,
                    frame: FrameView::AckOk { removed: 0 },
                }) && final(state)@ == retired(old(state)@, rid),
            },
    {
        let rid: &String = match &self.recipient_id {
            Some(rid) => rid,
            None => {
                return refuse("not_registered", "send hello first");
            },
        };
        if auth_remove(&mut state.mailbox_auth, rid.as_str()) {
            state.mailbox_count = state.mailbox_count.wrapping_sub(1);
        }
        rate_remove(&mut state.send_rate, rid.as_str());
        online_remove(&mut state.online, rid.as_str());
        state.mark_auth_dirty(rid.as_str());
        Step::Retire { mailbox: rid.clone(), frame: ServerFrame::AckOk { removed: 0 } }
    }

    /// Takes in a frame at a given time; an envelope sent with it gets the identifier `id`.
    pub fn handle_frame_at(
        &mut self,
        state: &mut AppState,
        frame: ClientFrame,
        id: u128,
        now: u64,
    ) -> (r: Step)
        ensures
            ({
                let out = frame_outcome(old(state)@, old(self)@, frame@, id, now);
                &&& r@ == out.step
                &&& final(state)@ == out.state
                &&& final(self)@ == frame_session(old(self)@, frame@, out)
            }),
    {
        match frame {
            ClientFrame::Hello {
                recipient_id,
                auth_token,
                delivery_token,
                protocol_min,
                protocol_max,
                protocol_version,
                pow,
                cert_only,
            } => self.hello(
                state,
                recipient_id,
                auth_token,
                delivery_token,
                (protocol_min, protocol_max, protocol_version),
                pow,
                cert_only,
                now,
            ),
            ClientFrame::SetDeliveryTokens { request_id, tokens } => self.set_delivery_tokens(
                state,
                request_id,
                tokens,
            ),
            ClientFrame::IssueSenderCertificate {
                request_id,
                sender_uuid,
                sender_device_id,
                sender_cert_public_b64,
            } => self.issue_sender_certificate(
                request_id,
                sender_uuid,
                sender_device_id,
                sender_cert_public_b64,
                now,
            ),
            ClientFrame::SendEnvelope {
                client_ref,
                to,
                delivery_token,
                envelope_type,
                ciphertext,
            } => {
                let env: StoredEnvelope = StoredEnvelope { id, to, envelope_type, ciphertext };
                Session::send_envelope(state, client_ref, delivery_token, env, now)
            },
            ClientFrame::UploadBundle {
                request_id,
                bundle_id,
                ciphertext,
                expires_at_ms,
                pow,
            } => Session::upload_bundle(
                state,
                request_id,
                bundle_id,
                ciphertext,
                expires_at_ms,
                pow,
                now,
            ),
            ClientFrame::FetchBundle { request_id, bundle_id } => Session::fetch_bundle(
                state,
                request_id,
                bundle_id,
                now,
            ),
            ClientFrame::UploadFileChunk {
                request_id,
                transfer_id,
                chunk_index,
                total_chunks,
                total_bytes,
                ciphertext,
                pow,
            } => Session::upload_file_chunk(
                request_id,
                transfer_id,
                chunk_index,
                total_chunks,
                total_bytes,
                ciphertext,
                pow,
                now,
            ),
            ClientFrame::FetchFileChunk { request_id, transfer_id, chunk_index } => {
                if valid_bundle_id(transfer_id.as_str()) {
                    Step::FetchChunk { request_id, transfer_id, chunk_index }
                } else {
                    refuse_file(
                        request_id,
                        transfer_id.as_str(),
                        "bad_request",
                        "invalid transfer id",
                    )
                }
            },
            ClientFrame::DeleteTransfer { request_id, transfer_id } => {
                if valid_bundle_id(transfer_id.as_str()) {
                    Step::DeleteTransfer { request_id, transfer_id }
                } else {
                    refuse_file(
                        request_id,
                        transfer_id.as_str(),
                        "bad_request",
                        "invalid transfer id",
                    )
                }
            },
            ClientFrame::Ack { ids } => match &self.recipient_id {
                Some(rid) => Step::Ack { mailbox: rid.clone(), ids },
                None => refuse("not_registered", "send hello first"),
            },
            ClientFrame::RetireMailbox => self.retire_mailbox(state),
            ClientFrame::Ping => reply(ServerFrame::Pong { server_time_ms: now }),
        }
    }

    /// Takes in a frame now; an envelope sent with it gets a fresh identifier.
    pub fn handle_frame(&mut self, state: &mut AppState, frame: ClientFrame) -> (r: Step)
        ensures
            exists|id: u128, now: u64|
                ({
                    let out = #[trigger] frame_outcome(old(state)@, old(self)@, frame@, id, now);
                    &&& r@ == out.step
                    &&& final(state)@ == out.state
                    &&& final(self)@ == frame_session(old(self)@, frame@, out)
                }),
    {
        let id: u128 = uuid_fresh();
        let now: u64 = now_ms();
        self.handle_frame_at(state, frame, id, now)
    }

    /// Takes the connection out of the live routes, unless a newer one has taken its place.
    pub fn close(&self, state: &mut AppState)
        ensures
            final(state)@ == closed(old(state)@, self@),
    {
        if let Some(rid) = &self.recipient_id {
            let live: Option<u64> = online_get(&state.online, rid.as_str());
            if let Some(conn) = live {
                if conn == self.conn {
                    online_remove(&mut state.online, rid.as_str());
                }
            }
        }
    }
}

/// The state once a connection has ended.
pub open spec fn closed(st: StateView, se: SessionView) -> StateView {
    match se.rid {
        Some(rid) => if at(st.online, rid) == Some(se.conn) {
            StateView { online: st.online.remove(rid), ..st }
        } else {
            st
        },
        None => st,
    }
}

// ---------------------------------------------------------------------------
// Answers to work done elsewhere
// ---------------------------------------------------------------------------

/// The end of a backlog of `delivered` envelopes, for a client that speaks version `selected`.
pub open spec fn synced_answer(selected: u16, delivered: u64) -> Option<FrameView> {
    if selected >= PROTOCOL_SYNCED {
        Some(FrameView::Synced { count: delivered })
    } else {
        None
    }
}

/// The end of a backlog of `delivered` envelopes; clients before its version do not know the frame.
pub fn backlog_sent(selected: u16, delivered: u64) -> (r: Option<ServerFrame>)
    ensures
        opt_frame(r) == synced_answer(selected, delivered),
{
    if selected >= PROTOCOL_SYNCED {
        Some(ServerFrame::Synced { count: delivered })
    } else {
        None
    }
}

/// The state once an envelope was handed to the live route of a mailbox.
pub open spec fn route_tried(st: StateView, to: Seq<char>, sent: bool) -> StateView {
    if sent {
        st
    } else {
        StateView { online: st.online.remove(to), ..st }
    }
}

/// Drops the live route of a mailbox whose connection did not take an envelope.
pub fn live_route_tried(state: &mut AppState, to: &str, sent: bool)
    ensures
        final(state)@ == route_tried(old(state)@, to@, sent),
{
    if !sent {
        online_remove(&mut state.online, to);
    }
}

/// The answer to a send whose envelope does not fit into the queue store, where it does not. An
/// envelope that was delivered live is a success all the same.
pub open spec fn full_store_answer(
    total: usize,
    env: EnvelopeView,
    client_ref: Option<Seq<char>>,
    delivered_live: bool,
) -> Option<FrameView> {
    if total.saturating_add(byte_len(env.ciphertext) as usize) > GLOBAL_QUEUE_DISK_CAP_BYTES {
        if delivered_live {
            Some(FrameView::SendOk { id: env.id, queued: false, client_ref })
        } else {
            Some(
                FrameView::SendError {
                    client_ref,
                    code: "relay_full"@,
                    message: "relay queue storage limit reached"@,
                },
            )
        }
    } else {
        None
    }
}

/// The answer to a send whose envelope does not fit into the queue store, where it does not.
pub fn store_full(
    queues: &QueueStore,
    env: &StoredEnvelope,
    client_ref: &Option<String>,
    delivered_live: bool,
) -> (r: Option<ServerFrame>)
    ensures
        opt_frame(r) == full_store_answer(
            queues.total(),
            env@,
            opt_view(*client_ref),
            delivered_live,
        ),
{
    if !queues.would_exceed_global(text_len(env.ciphertext.as_str())) {
        return None;
    }
    let reference: Option<String> = match client_ref {
        Some(s) => Some(s.clone()),
        None => None,
    };
    if delivered_live {
        Some(ServerFrame::SendOk { id: env.id, queued: false, client_ref: reference })
    } else {
        Some(send_err(reference, "relay_full", "relay queue storage limit reached"))
    }
}

/// The answer to a send whose envelope was to be queued.
pub open spec fn queued_answer(
    id: u128,
    client_ref: Option<Seq<char>>,
    delivered_live: bool,
    enqueued: bool,
) -> FrameView {
    if enqueued || delivered_live {
        FrameView::SendOk { id, queued: !delivered_live, client_ref }
    } else {
        FrameView::SendError {
            client_ref,
            code: "relay_error"@,
            message: "could not persist message for offline delivery"@,
        }
    }
}

/// The state once a send is answered: its destination is to be written back.
pub open spec fn sent_to(st: StateView, to: Seq<char>) -> StateView {
    StateView { dirty_auth: st.dirty_auth.insert(to), ..st }
}

/// Answers a send whose envelope was to be queued.
pub fn finish_send(
    state: &mut AppState,
    env: &StoredEnvelope,
    client_ref: Option<String>,
    delivered_live: bool,
    enqueued: bool,
) -> (r: ServerFrame)
    ensures
        r@ == queued_answer(env.id, opt_view(client_ref), delivered_live, enqueued),
        final(state)@ == sent_to(old(state)@, env.to@),
{
    state.mark_auth_dirty(env.to.as_str());
    if enqueued || delivered_live {
        ServerFrame::SendOk { id: env.id, queued: !delivered_live, client_ref }
    } else {
        send_err(client_ref, "relay_error", "could not persist message for offline delivery")
    }
}

/// The view of a signature.
pub open spec fn signed_view(signed: Result<Vec<u8>, String>) -> Result<Seq<u8>, Seq<char>> {
    match signed {
        Ok(cert) => Ok(cert@),
        Err(e) => Err(e@),
    }
}

/// The answer to a request for a sender certificate that was handed to the signer.
pub open spec fn signed_answer(
    st: StateView,
    request_id: Seq<char>,
    expires_at_ms: u64,
    signed: Result<Seq<u8>, Seq<char>>,
) -> FrameView {
    match signed {
        Ok(cert) => FrameView::SenderCertificate {
            request_id,
            certificate_b64: b64_text(cert),
            trust_root_b64: st.trust_root,
            expires_at_ms,
        },
        Err(e) => FrameView::Error { code: "cert_failed"@, message: e },
    }
}

/// Answers a request for a sender certificate with the signed certificate, or with why there is
/// none.
pub fn certificate_signed(
    state: &AppState,
    request_id: String,
    expires_at_ms: u64,
    signed: Result<Vec<u8>, String>,
) -> (r: ServerFrame)
    ensures
        r@ == signed_answer(state@, request_id@, expires_at_ms, signed_view(signed)),
{
    match signed {
        Ok(cert) => ServerFrame::SenderCertificate {
            request_id,
            certificate_b64: b64_encode(cert.as_slice()),
            trust_root_b64: state.trust_root_public_b64.clone(),
            expires_at_ms,
        },
        Err(e) => err("cert_failed", e.as_str()),
    }
}

/// The answer to a chunk upload, where `result` is what the store decided.
pub open spec fn stored_answer(
    request_id: Seq<char>,
    transfer_id: Seq<char>,
    chunk_index: u32,
    result: Option<Result<StoredChunk, FileReject>>,
) -> FrameView {
    match result {
        Some(Ok(stored)) => FrameView::FileChunkStored {
            request_id,
            transfer_id,
            chunk_index,
            received_chunks: stored.received_chunks,
            total_chunks: stored.total_chunks,
        },
        Some(Err(e)) => file_refusal(request_id, transfer_id, reject_code(e), reject_message(e)),
        None => file_refusal(
            request_id,
            transfer_id,
            "relay_full"@,
            "could not store file chunk"@,
        ),
    }
}

/// Answers a chunk upload; `None` where the store could not be asked.
pub fn chunk_stored(
    request_id: String,
    transfer_id: String,
    chunk_index: u32,
    result: Option<Result<StoredChunk, FileReject>>,
) -> (r: ServerFrame)
    ensures
        r@ == stored_answer(request_id@, transfer_id@, chunk_index, result),
{
    match result {
        Some(Ok(stored)) => ServerFrame::FileChunkStored {
            request_id,
            transfer_id,
            chunk_index,
            received_chunks: stored.received_chunks,
            total_chunks: stored.total_chunks,
        },
        Some(Err(e)) => file_err(request_id, transfer_id.as_str(), e.code(), e.message()),
        None => file_err(
            request_id,
            transfer_id.as_str(),
            "relay_full",
            "could not store file chunk",
        ),
    }
}

/// The view of a fetch that may not have reached the store.
pub open spec fn opt_fetch_view(r: Option<Result<FetchedChunk, FileReject>>) -> Option<
    Result<FetchedView, FileReject>,
> {
    match r {
        Some(r) => Some(fetch_view(r)),
        None => None,
    }
}

/// The answer to a chunk fetch, where `result` is what the store gave.
pub open spec fn fetched_answer(
    request_id: Seq<char>,
    transfer_id: Seq<char>,
    chunk_index: u32,
    result: Option<Result<FetchedView, FileReject>>,
) -> FrameView {
    match result {
        Some(Ok(chunk)) => FrameView::FileChunk {
            request_id,
            transfer_id,
            chunk_index,
            total_chunks: chunk.total_chunks,
            total_bytes: chunk.total_bytes,
            ciphertext: b64_text(chunk.data),
        },
        Some(Err(e)) => file_refusal(request_id, transfer_id, reject_code(e), reject_message(e)),
        None => file_refusal(
            request_id,
            transfer_id,
            "not_found"@,
            "could not read file chunk"@,
        ),
    }
}

/// Answers a chunk fetch; `None` where the store could not be asked.
pub fn chunk_fetched(
    request_id: String,
    transfer_id: String,
    chunk_index: u32,
    result: Option<Result<FetchedChunk, FileReject>>,
) -> (r: ServerFrame)
    ensures
        r@ == fetched_answer(request_id@, transfer_id@, chunk_index, opt_fetch_view(result)),
{
    match result {
        Some(Ok(chunk)) => ServerFrame::FileChunk {
            request_id,
            transfer_id,
            chunk_index,
            total_chunks: chunk.total_chunks,
            total_bytes: chunk.total_bytes,
            ciphertext: b64_encode(chunk.data.as_slice()),
        },
        Some(Err(e)) => file_err(request_id, transfer_id.as_str(), e.code(), e.message()),
        None => file_err(
            request_id,
            transfer_id.as_str(),
            "not_found",
            "could not read file chunk",
        ),
    }
}

/// The answer to a delete.
pub open spec fn deleted_answer(request_id: Seq<char>, transfer_id: Seq<char>) -> FrameView {
    FrameView::TransferDeleted { request_id, transfer_id }
}

/// Answers a delete: the transfer is gone, whether or not it was there.
pub fn transfer_deleted(request_id: String, transfer_id: String) -> (r: ServerFrame)
    ensures
        r@ == deleted_answer(request_id@, transfer_id@),
{
    ServerFrame::TransferDeleted { request_id, transfer_id }
}

/// The answer to an acknowledgement.
pub open spec fn acked_answer(removed: Option<usize>) -> FrameView {
    FrameView::AckOk {
        removed: match removed {
            Some(n) => n,
            None => 0,
        },
    }
}

/// Answers an acknowledgement; `None` where the store could not be asked.
pub fn acked(removed: Option<usize>) -> (r: ServerFrame)
    ensures
        r@ == acked_answer(removed),
{
    match removed {
        Some(n) => ServerFrame::AckOk { removed: n },
        None => ServerFrame::AckOk { removed: 0 },
    }
}

} // verus!
