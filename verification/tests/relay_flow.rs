//! The whole protocol, frame by frame, over in-memory tables and connections.

use std::collections::BTreeMap;

use base64::Engine;

use axeno_relay::config::{
    FileConfig, GLOBAL_QUEUE_DISK_CAP_BYTES, MAX_BUNDLES, MAX_BUNDLE_BYTES, MAX_BUNDLE_TTL_MS,
    MAX_FRAMES_PER_WINDOW, MAX_FRAME_BYTES, MAX_MAILBOXES, MAX_SENDS_PER_DEST_PER_WINDOW,
    MAX_TOTAL_BUNDLE_BYTES, RATE_WINDOW_MS, SENDER_CERT_TTL_MS,
};
use axeno_relay::file_store::{
    chunk_bounds, chunk_key, ChunkFound, FileMeta, FileReject, FileStore, StoredChunk,
};
use axeno_relay::protocol::{ClientFrame, ServerFrame, StoredEnvelope};
use axeno_relay::queue_store::{
    key_for, mailbox_bounds, AckLookup, QueueRow, QueueStore, StoredValue,
};
use axeno_relay::state::{round_activity, AppState};
use axeno_relay::table::RowWrite;
use axeno_relay::util::{token_hash, verify_pow_at};
use axeno_relay::ws::{
    acked, backlog_sent, certificate_signed, chunk_fetched, chunk_stored, finish_send,
    live_route_tried, negotiate, store_full, transfer_deleted, Session, Step,
};

const T0: u64 = 1_700_000_000_000;

const MBX_A: &str = "mbx_aaaaaaaaaaaaaaaaaaaaaaaaaaaaaaaa";
const MBX_B: &str = "mbx_bbbbbbbbbbbbbbbbbbbbbbbbbbbbbbbb";
const MBX_C: &str = "mbx_cccccccccccccccccccccccccccccccc";
const AUTH_A: &str = "auth_token_aaaaaaaaaa";
const AUTH_B: &str = "auth_token_bbbbbbbbbb";
const DT_A: &str = "delivery_token_aaaaaa";
const DT_B: &str = "delivery_token_bbbbbb";
const BUNDLE: &str = "bun_invitebundleidentifier01";
const BUNDLE_2: &str = "bun_invitebundleidentifier02";
const TRANSFER: &str = "xfer_filetransferidentifier1";

/// The proof of work of an identifier in the window of `T0`.
fn pow(id: &str) -> String {
    let known = [
        (MBX_A, "2833333:686992"),
        (MBX_B, "2833333:3467240"),
        (MBX_C, "2833333:8023637"),
        (BUNDLE, "2833333:8156180"),
        (BUNDLE_2, "2833333:6363549"),
        (TRANSFER, "2833333:5038364"),
    ];
    known.iter().find(|(k, _)| *k == id).unwrap().1.to_string()
}

struct Relay {
    state: AppState,
    queues: QueueStore,
    files: FileStore,
    envelopes: BTreeMap<String, Option<StoredValue>>,
    meta: BTreeMap<String, Option<FileMeta>>,
    chunks: BTreeMap<String, Vec<u8>>,
    /// What was sent to each connection; a missing one is closed.
    sent: BTreeMap<u64, Vec<ServerFrame>>,
    next_conn: u64,
    next_id: u128,
    now: u64,
}

impl Relay {
    fn new() -> Relay {
        let config = FileConfig::from_env(None, None, None, None);
        Relay {
            state: AppState::build(Vec::new(), Vec::new(), config, "root".to_string(), T0),
            queues: QueueStore::open(0, 0),
            files: FileStore::new(config, &Vec::new()),
            envelopes: BTreeMap::new(),
            meta: BTreeMap::new(),
            chunks: BTreeMap::new(),
            sent: BTreeMap::new(),
            next_conn: 1,
            next_id: 100,
            now: T0,
        }
    }

    fn connect(&mut self) -> Session {
        let conn = self.next_conn;
        self.next_conn += 1;
        self.sent.insert(conn, Vec::new());
        assert!(self.state.open_connection());
        Session::new(conn, self.now)
    }

    fn disconnect(&mut self, session: Session) {
        session.close(&mut self.state);
        self.state.close_connection();
        self.sent.remove(&session.conn);
    }

    fn mailbox_rows(&self, mailbox: &str) -> Vec<QueueRow> {
        let (lo, hi) = mailbox_bounds(mailbox);
        self.envelopes
            .range(lo..hi)
            .map(|(k, v)| QueueRow { key: k.clone(), value: v.clone() })
            .collect()
    }

    fn enqueue(&mut self, env: &StoredEnvelope) {
        let rows = self.mailbox_rows(&env.to);
        let plan = self.queues.enqueue(&env.to, env, rows, self.now);
        for w in &plan.writes {
            match w {
                RowWrite::Put { key, value } => {
                    self.envelopes.insert(key.clone(), Some(value.clone()));
                }
                RowWrite::Remove { key } => {
                    self.envelopes.remove(key);
                }
            }
        }
        self.queues.enqueue_committed(&plan);
    }

    fn store_chunk(
        &mut self,
        id: &str,
        index: u32,
        total_chunks: u32,
        total_bytes: u64,
        data: Vec<u8>,
    ) -> Result<StoredChunk, FileReject> {
        let found = ChunkFound {
            meta: self.meta.get(id).copied(),
            prev_len: self.chunks.get(&chunk_key(id, index)).map(|c| c.len() as u64),
        };
        let plan =
            self.files.store_chunk(id, index, total_chunks, total_bytes, data, found, self.now)?;
        self.chunks.insert(plan.key.clone(), plan.data.clone());
        self.meta.insert(id.to_string(), Some(plan.meta));
        Ok(self.files.chunk_committed(id, &plan))
    }

    /// Performs a frame and gives the answers on the same connection.
    fn send(&mut self, session: &mut Session, frame: ClientFrame) -> Vec<ServerFrame> {
        let id = self.next_id;
        self.next_id += 1;
        let step = session.handle_frame_at(&mut self.state, frame, id, self.now);
        match step {
            Step::Reply { frame } => vec![frame],
            Step::Registered { frame, backlog, selected } => {
                let mut out = vec![frame];
                if let Some(rid) = backlog {
                    let envs = self.queues.flush(&rid, self.mailbox_rows(&rid));
                    let mut delivered = 0;
                    for envelope in envs {
                        out.push(ServerFrame::Envelope { envelope });
                        delivered += 1;
                    }
                    out.extend(backlog_sent(selected, delivered));
                }
                out
            }
            Step::Certify { request_id, sender_uuid, public_key, expires_at_ms, .. } => {
                let mut cert = sender_uuid.into_bytes();
                cert.extend(public_key);
                vec![certificate_signed(&self.state, request_id, expires_at_ms, Ok(cert))]
            }
            Step::Deliver { envelope, client_ref, live } => {
                let mut delivered = false;
                if let Some(conn) = live {
                    if let Some(inbox) = self.sent.get_mut(&conn) {
                        inbox.push(ServerFrame::Envelope { envelope: envelope.duplicate() });
                        delivered = true;
                    }
                    live_route_tried(&mut self.state, &envelope.to, delivered);
                }
                if let Some(reply) = store_full(&self.queues, &envelope, &client_ref, delivered) {
                    return vec![reply];
                }
                self.enqueue(&envelope);
                vec![finish_send(&mut self.state, &envelope, client_ref, delivered, true)]
            }
            Step::StoreChunk {
                request_id,
                transfer_id,
                chunk_index,
                total_chunks,
                total_bytes,
                data,
            } => {
                let r =
                    self.store_chunk(&transfer_id, chunk_index, total_chunks, total_bytes, data);
                vec![chunk_stored(request_id, transfer_id, chunk_index, Some(r))]
            }
            Step::FetchChunk { request_id, transfer_id, chunk_index } => {
                let data = self.chunks.get(&chunk_key(&transfer_id, chunk_index)).cloned();
                let r = self.files.fetch_chunk(&transfer_id, chunk_index, data);
                vec![chunk_fetched(request_id, transfer_id, chunk_index, Some(r))]
            }
            Step::DeleteTransfer { request_id, transfer_id } => {
                let plan = self.files.delete_transfer(self.meta.get(&transfer_id).copied());
                self.meta.remove(&transfer_id);
                let (lo, hi) = chunk_bounds(&transfer_id);
                let keys: Vec<String> =
                    self.chunks.range(lo..hi).map(|(k, _)| k.clone()).collect();
                for k in keys {
                    self.chunks.remove(&k);
                }
                self.files.delete_committed(&transfer_id, &plan);
                vec![transfer_deleted(request_id, transfer_id)]
            }
            Step::Ack { mailbox, ids } => {
                let lookups: Vec<AckLookup> = ids
                    .iter()
                    .map(|id| AckLookup {
                        id: *id,
                        row: self.envelopes.get(&key_for(&mailbox, *id)).cloned(),
                    })
                    .collect();
                let plan = self.queues.ack(&mailbox, &lookups);
                for k in &plan.keys {
                    self.envelopes.remove(k);
                }
                vec![acked(Some(self.queues.removal_committed(&plan)))]
            }
            Step::Retire { mailbox, frame } => {
                let plan = self.queues.purge_mailbox(&self.mailbox_rows(&mailbox));
                for k in &plan.keys {
                    self.envelopes.remove(k);
                }
                self.queues.removal_committed(&plan);
                vec![frame]
            }
        }
    }

    fn hello(&mut self, session: &mut Session, rid: &str, auth: &str, dt: &str) -> Vec<ServerFrame> {
        self.send(session, hello_frame(rid, auth, dt, Some(pow(rid)), false))
    }
}

fn hello_frame(
    rid: &str,
    auth: &str,
    dt: &str,
    pow: Option<String>,
    cert_only: bool,
) -> ClientFrame {
    ClientFrame::Hello {
        recipient_id: rid.to_string(),
        auth_token: auth.to_string(),
        delivery_token: dt.to_string(),
        protocol_min: Some(4),
        protocol_max: Some(7),
        protocol_version: None,
        pow,
        cert_only,
    }
}

fn envelope_frame(to: &str, dt: &str, client_ref: &str, ct: &str) -> ClientFrame {
    ClientFrame::SendEnvelope {
        client_ref: Some(client_ref.to_string()),
        to: to.to_string(),
        delivery_token: dt.to_string(),
        envelope_type: "axeno_sealed_signal_v1".to_string(),
        ciphertext: ct.to_string(),
    }
}

fn certificate_frame(request: &str, uuid: &str, device: u32, key: &str) -> ClientFrame {
    ClientFrame::IssueSenderCertificate {
        request_id: request.to_string(),
        sender_uuid: uuid.to_string(),
        sender_device_id: device,
        sender_cert_public_b64: key.to_string(),
    }
}

fn bundle_frame(id: &str, ct: &str, expires: u64, pow: Option<String>) -> ClientFrame {
    ClientFrame::UploadBundle {
        request_id: "bundle-1".to_string(),
        bundle_id: id.to_string(),
        ciphertext: ct.to_string(),
        expires_at_ms: expires,
        pow,
    }
}

fn fetch_bundle_frame(id: &str) -> ClientFrame {
    ClientFrame::FetchBundle { request_id: "bundle-2".to_string(), bundle_id: id.to_string() }
}

fn chunk_frame(id: &str, index: u32, ct: &str, pow: Option<String>) -> ClientFrame {
    ClientFrame::UploadFileChunk {
        request_id: format!("file-{index}"),
        transfer_id: id.to_string(),
        chunk_index: index,
        total_chunks: 2,
        total_bytes: 63,
        ciphertext: ct.to_string(),
        pow,
    }
}

fn fetch_chunk_frame(id: &str, index: u32) -> ClientFrame {
    ClientFrame::FetchFileChunk {
        request_id: "file-2".to_string(),
        transfer_id: id.to_string(),
        chunk_index: index,
    }
}

fn delete_frame(id: &str) -> ClientFrame {
    ClientFrame::DeleteTransfer { request_id: "file-3".to_string(), transfer_id: id.to_string() }
}

fn code(frames: &[ServerFrame]) -> String {
    assert_eq!(frames.len(), 1);
    match &frames[0] {
        ServerFrame::Error { code, .. } => code.clone(),
        ServerFrame::SendError { code, .. } => code.clone(),
        ServerFrame::FileError { code, .. } => code.clone(),
        other => panic!("expected a refusal, got {other:?}"),
    }
}

fn key_b64(seed: u8) -> String {
    let mut k = [seed; 33];
    k[0] = 5;
    base64::engine::general_purpose::STANDARD_NO_PAD.encode(k)
}

#[test]
fn relay_end_to_end_protocol_flow() {
    let b64 = base64::engine::general_purpose::STANDARD_NO_PAD;
    let mut relay = Relay::new();

    // Registration and negotiation; the backlog is empty.
    let mut a = relay.connect();
    let frames = relay.hello(&mut a, MBX_A, AUTH_A, DT_A);
    assert_eq!(
        frames,
        vec![
            ServerFrame::HelloOk {
                protocol_version: 7,
                min_supported: 4,
                current_protocol: 7,
                server_time_ms: T0,
                trust_root_b64: "root".to_string(),
                max_file_bytes: 32 * 1024 * 1024,
            },
            ServerFrame::Synced { count: 0 },
        ]
    );

    // A certificate is signed for the mailbox of the connection and for no other.
    match &relay.send(&mut a, certificate_frame("cert-1", MBX_A, 1, &key_b64(0x11)))[0] {
        ServerFrame::SenderCertificate {
            request_id,
            certificate_b64,
            trust_root_b64,
            expires_at_ms,
        } => {
            assert_eq!(request_id, "cert-1");
            let mut raw = MBX_A.as_bytes().to_vec();
            raw.extend(b64.decode(key_b64(0x11)).unwrap());
            assert_eq!(b64.decode(certificate_b64).unwrap(), raw);
            assert_eq!(trust_root_b64, "root");
            assert_eq!(*expires_at_ms, T0 + SENDER_CERT_TTL_MS);
        }
        other => panic!("expected a signed certificate, got {other:?}"),
    }
    let denied = relay.send(&mut a, certificate_frame("cert-deny", MBX_B, 1, &key_b64(0x22)));
    assert_eq!(code(&denied), "cert_denied");

    // A mailbox that was taken offline gets its messages queued.
    let mut b = relay.connect();
    assert_eq!(relay.hello(&mut b, MBX_B, AUTH_B, DT_B)[1], ServerFrame::Synced { count: 0 });
    relay.disconnect(b);

    let sent =
        relay.send(&mut a, envelope_frame(MBX_B, DT_B, "ref-1", "opaque-sealed-ciphertext-payload"));
    let env_id = match &sent[0] {
        ServerFrame::SendOk { id, queued, client_ref } => {
            assert!(queued);
            assert_eq!(client_ref.as_deref(), Some("ref-1"));
            *id
        }
        other => panic!("send should be accepted, got {other:?}"),
    };
    let refused = relay.send(
        &mut a,
        envelope_frame(MBX_B, "delivery_token_wrongxx", "ref-bad", "should-not-be-accepted"),
    );
    assert_eq!(code(&refused), "delivery_denied");

    // On reconnecting, the mailbox gets the envelope and acknowledges it.
    let mut b = relay.connect();
    let frames = relay.hello(&mut b, MBX_B, AUTH_B, DT_B);
    assert_eq!(frames.len(), 3);
    match &frames[1] {
        ServerFrame::Envelope { envelope } => {
            assert_eq!(envelope.ciphertext, "opaque-sealed-ciphertext-payload");
            assert_eq!(envelope.id, env_id);
            assert_eq!(envelope.to, MBX_B);
        }
        other => panic!("unexpected frame during flush: {other:?}"),
    }
    assert_eq!(frames[2], ServerFrame::Synced { count: 1 });
    let ack = relay.send(&mut b, ClientFrame::Ack { ids: vec![env_id] });
    assert_eq!(ack, vec![ServerFrame::AckOk { removed: 1 }]);
    assert!(relay.envelopes.is_empty());

    // An invite bundle is uploaded and fetched.
    let expires = T0 + 24 * 60 * 60 * 1000;
    let uploaded = relay.send(
        &mut a,
        bundle_frame(BUNDLE, "encrypted-invite-bundle-blob", expires, Some(pow(BUNDLE))),
    );
    assert_eq!(
        uploaded,
        vec![ServerFrame::BundleUploaded {
            request_id: "bundle-1".to_string(),
            bundle_id: BUNDLE.to_string(),
            expires_at_ms: expires,
        }]
    );
    match &relay.send(&mut a, fetch_bundle_frame(BUNDLE))[0] {
        ServerFrame::Bundle { ciphertext, .. } => {
            assert_eq!(ciphertext, "encrypted-invite-bundle-blob")
        }
        other => panic!("bundle fetch failed: {other:?}"),
    }

    // A file goes up in two chunks, comes back, and is deleted.
    let chunk0 = b64.encode(b"first-chunk-encrypted-bytes-aaaa");
    let chunk1 = b64.encode(b"second-chunk-encrypted-bytes-bb");
    match &relay.send(&mut a, chunk_frame(TRANSFER, 0, &chunk0, Some(pow(TRANSFER))))[0] {
        ServerFrame::FileChunkStored { received_chunks, .. } => assert_eq!(*received_chunks, 1),
        other => panic!("chunk 0 upload failed: {other:?}"),
    }
    match &relay.send(&mut a, chunk_frame(TRANSFER, 1, &chunk1, None))[0] {
        ServerFrame::FileChunkStored { received_chunks, total_chunks, .. } => {
            assert_eq!((*received_chunks, *total_chunks), (2, 2))
        }
        other => panic!("chunk 1 upload failed: {other:?}"),
    }
    match &relay.send(&mut a, fetch_chunk_frame(TRANSFER, 0))[0] {
        ServerFrame::FileChunk { ciphertext, total_chunks, total_bytes, .. } => {
            assert_eq!(ciphertext, &chunk0);
            assert_eq!(*total_chunks, 2);
            assert_eq!(*total_bytes, 63);
        }
        other => panic!("chunk fetch failed: {other:?}"),
    }
    assert!(matches!(
        relay.send(&mut a, delete_frame(TRANSFER))[0],
        ServerFrame::TransferDeleted { .. }
    ));
    assert_eq!(relay.files.reserved_bytes(), 0);
    assert_eq!(code(&relay.send(&mut a, fetch_chunk_frame(TRANSFER, 0))), "not_found");
    // A retried delete is never an error.
    assert!(matches!(
        relay.send(&mut a, delete_frame(TRANSFER))[0],
        ServerFrame::TransferDeleted { .. }
    ));

    // The connection is still alive.
    assert_eq!(
        relay.send(&mut a, ClientFrame::Ping),
        vec![ServerFrame::Pong { server_time_ms: T0 }]
    );
}

#[test]
fn live_delivery_and_stale_routes() {
    let mut relay = Relay::new();
    let mut a = relay.connect();
    let mut b = relay.connect();
    relay.hello(&mut b, MBX_B, AUTH_B, DT_B);
    // No registration is needed to send.
    let sent = relay.send(&mut a, envelope_frame(MBX_B, DT_B, "r", "hi"));
    assert!(matches!(sent[0], ServerFrame::SendOk { queued: false, .. }));
    assert_eq!(relay.sent[&b.conn].len(), 1);
    // It is queued all the same, until it is acknowledged.
    assert_eq!(relay.envelopes.len(), 1);

    // A connection that is gone without a goodbye loses its route, and the message is queued.
    relay.sent.remove(&b.conn);
    let sent = relay.send(&mut a, envelope_frame(MBX_B, DT_B, "r", "again"));
    assert!(matches!(sent[0], ServerFrame::SendOk { queued: true, .. }));
    assert!(relay.state.online.get(MBX_B).is_none());

    // A newer connection keeps its route when the older one ends.
    let mut c = relay.connect();
    relay.hello(&mut c, MBX_B, AUTH_B, DT_B);
    b.close(&mut relay.state);
    assert_eq!(*relay.state.online.get(MBX_B).unwrap(), c.conn);
    relay.disconnect(c);
    assert!(relay.state.online.get(MBX_B).is_none());
}

#[test]
fn hello_refusals() {
    let mut relay = Relay::new();
    let mut s = relay.connect();
    let old = ClientFrame::Hello {
        recipient_id: MBX_A.to_string(),
        auth_token: AUTH_A.to_string(),
        delivery_token: DT_A.to_string(),
        protocol_min: None,
        protocol_max: None,
        protocol_version: Some(3),
        pow: None,
        cert_only: false,
    };
    assert_eq!(code(&relay.send(&mut s, old)), "protocol_mismatch");
    assert_eq!(
        code(&relay.send(&mut s, hello_frame("mbx_short", AUTH_A, DT_A, None, false))),
        "bad_hello"
    );
    assert_eq!(
        code(&relay.send(&mut s, hello_frame(MBX_A, "short", DT_A, Some(pow(MBX_A)), false))),
        "bad_hello"
    );
    assert_eq!(code(&relay.send(&mut s, hello_frame(MBX_A, AUTH_A, DT_A, None, false))), "bad_pow");
    assert_eq!(
        code(&relay.send(&mut s, hello_frame(MBX_A, AUTH_A, DT_A, Some(pow(MBX_B)), false))),
        "bad_pow"
    );
    relay.state.mailbox_count = MAX_MAILBOXES;
    assert_eq!(
        code(&relay.send(&mut s, hello_frame(MBX_A, AUTH_A, DT_A, Some(pow(MBX_A)), false))),
        "relay_full"
    );
    relay.state.mailbox_count = 0;
    assert_eq!(s.recipient_id, None);
    assert!(relay.state.mailbox_auth.is_empty());

    relay.hello(&mut s, MBX_A, AUTH_A, DT_A);
    assert_eq!(s.recipient_id.as_deref(), Some(MBX_A));
    assert_eq!(relay.state.mailbox_count, 1);
    let mut other = relay.connect();
    let wrong = relay.send(&mut other, hello_frame(MBX_A, AUTH_B, DT_A, None, false));
    assert_eq!(code(&wrong), "auth_failed");
    assert_eq!(other.recipient_id, None);
    // A known mailbox needs no proof of work, and may bring another delivery token.
    let again = relay.send(&mut other, hello_frame(MBX_A, AUTH_A, DT_B, None, false));
    assert!(matches!(again[0], ServerFrame::HelloOk { .. }));
    let record = relay.state.mailbox_auth.get(MBX_A).unwrap().duplicate();
    assert_eq!(record.delivery_token_hashes, vec![token_hash(DT_A), token_hash(DT_B)]);
    assert_eq!(record.receive_auth_hash, token_hash(AUTH_A));
    assert_eq!(record.last_active_ms, round_activity(T0));
}

#[test]
fn certificate_only_connections_take_no_messages() {
    let mut relay = Relay::new();
    let mut s = relay.connect();
    let frames = relay.send(&mut s, hello_frame(MBX_A, AUTH_A, DT_A, Some(pow(MBX_A)), true));
    assert_eq!(frames.len(), 1);
    assert!(relay.state.online.get(MBX_A).is_none());
    assert!(matches!(
        relay.send(&mut s, certificate_frame("c", MBX_A, 127, &key_b64(1)))[0],
        ServerFrame::SenderCertificate { .. }
    ));
}

#[test]
fn older_clients_get_no_end_of_backlog() {
    assert_eq!(negotiate(Some(4), Some(7), None), Some(7));
    assert_eq!(negotiate(Some(4), Some(9), None), Some(7));
    assert_eq!(negotiate(None, None, Some(5)), Some(5));
    assert_eq!(negotiate(None, None, None), Some(7));
    assert_eq!(negotiate(Some(8), Some(9), None), None);
    assert_eq!(negotiate(Some(1), Some(3), None), None);
    assert_eq!(backlog_sent(5, 2), None);
    assert_eq!(backlog_sent(6, 2), Some(ServerFrame::Synced { count: 2 }));
}

#[test]
fn certificate_refusals() {
    let mut relay = Relay::new();
    let mut s = relay.connect();
    assert_eq!(
        code(&relay.send(&mut s, certificate_frame("c", MBX_A, 1, &key_b64(1)))),
        "not_registered"
    );
    relay.hello(&mut s, MBX_A, AUTH_A, DT_A);
    let message = |frames: Vec<ServerFrame>| match &frames[0] {
        ServerFrame::Error { code, message } => {
            assert_eq!(code, "cert_failed");
            message.clone()
        }
        other => panic!("{other:?}"),
    };
    for device in [0, 128] {
        assert_eq!(
            message(relay.send(&mut s, certificate_frame("c", MBX_A, device, &key_b64(1)))),
            "invalid sender certificate request"
        );
    }
    assert_eq!(
        message(relay.send(&mut s, certificate_frame("c", MBX_A, 1, &"A".repeat(65)))),
        "sender certificate public key is too large"
    );
    assert_eq!(
        message(relay.send(&mut s, certificate_frame("c", MBX_A, 1, "###"))),
        "bad sender certificate public key encoding"
    );
    let failed = certificate_signed(&relay.state, "c".to_string(), 1, Err("no key".to_string()));
    assert_eq!(message(vec![failed]), "no key");
}

#[test]
fn delivery_tokens_can_be_replaced() {
    let mut relay = Relay::new();
    let mut b = relay.connect();
    let set = |tokens: Vec<String>| ClientFrame::SetDeliveryTokens {
        request_id: "t".to_string(),
        tokens,
    };
    let first = "replacement_token_1".to_string();
    let second = "replacement_token_2".to_string();
    assert_eq!(code(&relay.send(&mut b, set(vec![first.clone()]))), "not_registered");
    relay.hello(&mut b, MBX_B, AUTH_B, DT_B);
    assert_eq!(code(&relay.send(&mut b, set(Vec::new()))), "bad_tokens");
    assert_eq!(code(&relay.send(&mut b, set(vec![first.clone(); 65]))), "bad_tokens");
    assert_eq!(code(&relay.send(&mut b, set(vec!["bad token!".to_string()]))), "bad_tokens");
    assert_eq!(
        relay.send(&mut b, set(vec![first.clone(), second.clone(), first.clone()])),
        vec![ServerFrame::DeliveryTokensSet { request_id: "t".to_string(), active_count: 2 }]
    );
    let mut a = relay.connect();
    // The token of the hello is revoked, those on the list are good.
    assert_eq!(
        code(&relay.send(&mut a, envelope_frame(MBX_B, DT_B, "r", "x"))),
        "delivery_denied"
    );
    assert!(matches!(
        relay.send(&mut a, envelope_frame(MBX_B, &second, "r", "x"))[0],
        ServerFrame::SendOk { .. }
    ));
    relay.state.mailbox_auth.remove(MBX_B);
    assert_eq!(code(&relay.send(&mut b, set(vec![first]))), "not_registered");
}

#[test]
fn send_refusals() {
    let mut relay = Relay::new();
    let mut b = relay.connect();
    relay.hello(&mut b, MBX_B, AUTH_B, DT_B);
    relay.disconnect(b);
    let mut a = relay.connect();
    assert_eq!(code(&relay.send(&mut a, envelope_frame("mbx_b", DT_B, "r", "x"))), "bad_send");
    assert_eq!(code(&relay.send(&mut a, envelope_frame(MBX_B, "t", "r", "x"))), "bad_send");
    let long = ClientFrame::SendEnvelope {
        client_ref: None,
        to: MBX_B.to_string(),
        delivery_token: DT_B.to_string(),
        envelope_type: "t".repeat(33),
        ciphertext: "x".to_string(),
    };
    assert_eq!(code(&relay.send(&mut a, long)), "bad_envelope");
    assert_eq!(
        code(&relay.send(&mut a, envelope_frame(MBX_B, DT_B, "r", &"x".repeat(MAX_FRAME_BYTES + 1)))),
        "bad_envelope"
    );
    assert_eq!(
        code(&relay.send(&mut a, envelope_frame(MBX_C, DT_B, "r", "x"))),
        "delivery_denied"
    );
    assert!(relay.state.send_rate.is_empty());
    for _ in 0..MAX_SENDS_PER_DEST_PER_WINDOW {
        assert!(matches!(
            relay.send(&mut a, envelope_frame(MBX_B, DT_B, "r", "x"))[0],
            ServerFrame::SendOk { queued: true, .. }
        ));
    }
    let mut fresh = relay.connect();
    assert_eq!(
        code(&relay.send(&mut fresh, envelope_frame(MBX_B, DT_B, "r", "x"))),
        "rate_limited"
    );
    relay.now += RATE_WINDOW_MS + 1;
    assert!(matches!(
        relay.send(&mut fresh, envelope_frame(MBX_B, DT_B, "r", "x"))[0],
        ServerFrame::SendOk { .. }
    ));
}

#[test]
fn a_full_store_refuses_only_offline_delivery() {
    let mut relay = Relay::new();
    let mut b = relay.connect();
    relay.hello(&mut b, MBX_B, AUTH_B, DT_B);
    relay.queues = QueueStore::open(GLOBAL_QUEUE_DISK_CAP_BYTES as usize, 0);
    let mut a = relay.connect();
    assert!(matches!(
        relay.send(&mut a, envelope_frame(MBX_B, DT_B, "r", "x"))[0],
        ServerFrame::SendOk { queued: false, .. }
    ));
    relay.disconnect(b);
    assert_eq!(code(&relay.send(&mut a, envelope_frame(MBX_B, DT_B, "r", "x"))), "relay_full");
    assert!(relay.envelopes.is_empty());
}

#[test]
fn a_send_that_cannot_be_stored() {
    let mut relay = Relay::new();
    let env = StoredEnvelope {
        id: 9,
        to: MBX_B.to_string(),
        envelope_type: "t".to_string(),
        ciphertext: "x".to_string(),
    };
    let lost = finish_send(&mut relay.state, &env, Some("r".to_string()), false, false);
    assert_eq!(code(&[lost]), "relay_error");
    let live = finish_send(&mut relay.state, &env, None, true, false);
    assert_eq!(live, ServerFrame::SendOk { id: 9, queued: false, client_ref: None });
    assert!(relay.state.dirty_auth.get(MBX_B).is_some());
}

#[test]
fn bundles_are_hosted_until_they_expire() {
    let mut relay = Relay::new();
    let mut a = relay.connect();
    assert_eq!(
        code(&relay.send(&mut a, bundle_frame("short", "x", T0, Some(pow(BUNDLE))))),
        "bad_bundle"
    );
    assert_eq!(
        code(&relay.send(
            &mut a,
            bundle_frame(BUNDLE, &"x".repeat(MAX_BUNDLE_BYTES + 1), T0, Some(pow(BUNDLE)))
        )),
        "bad_bundle"
    );
    assert_eq!(code(&relay.send(&mut a, bundle_frame(BUNDLE, "x", T0, None))), "bad_pow");
    // An expiry in the past gets the shortest lifetime, one far away the longest.
    let expiry = |frames: Vec<ServerFrame>| match &frames[0] {
        ServerFrame::BundleUploaded { expires_at_ms, .. } => *expires_at_ms,
        other => panic!("{other:?}"),
    };
    assert_eq!(
        expiry(relay.send(&mut a, bundle_frame(BUNDLE, "abc", 0, Some(pow(BUNDLE))))),
        T0 + 60_000
    );
    assert_eq!(
        expiry(relay.send(&mut a, bundle_frame(BUNDLE_2, "de", u64::MAX, Some(pow(BUNDLE_2))))),
        T0 + MAX_BUNDLE_TTL_MS
    );
    assert_eq!(relay.state.total_bundle_bytes, 5);
    // The same bundle again is a success with the first expiry, another is refused.
    assert_eq!(
        expiry(relay.send(&mut a, bundle_frame(BUNDLE, "abc", u64::MAX, Some(pow(BUNDLE))))),
        T0 + 60_000
    );
    assert_eq!(
        code(&relay.send(&mut a, bundle_frame(BUNDLE, "xyz", 0, Some(pow(BUNDLE))))),
        "bundle_exists"
    );
    // Past its expiry it is not found, and its place can be taken.
    relay.now = T0 + 60_000;
    assert_eq!(code(&relay.send(&mut a, fetch_bundle_frame(BUNDLE))), "bundle_not_found");
    assert_eq!(
        expiry(relay.send(&mut a, bundle_frame(BUNDLE, "longer", 0, Some(pow(BUNDLE))))),
        T0 + 120_000
    );
    assert_eq!(relay.state.total_bundle_bytes, 8);
    assert_eq!(code(&relay.send(&mut a, fetch_bundle_frame("nothing"))), "bundle_not_found");
}

#[test]
fn bundle_caps() {
    let mut relay = Relay::new();
    let mut a = relay.connect();
    relay.state.total_bundle_bytes = MAX_TOTAL_BUNDLE_BYTES - 2;
    assert_eq!(
        code(&relay.send(&mut a, bundle_frame(BUNDLE, "abc", 0, Some(pow(BUNDLE))))),
        "relay_full"
    );
    assert!(matches!(
        relay.send(&mut a, bundle_frame(BUNDLE, "ab", 0, Some(pow(BUNDLE))))[0],
        ServerFrame::BundleUploaded { .. }
    ));
    assert!(MAX_BUNDLES > 1);
}

#[test]
fn chunk_refusals() {
    let mut relay = Relay::new();
    let mut a = relay.connect();
    assert_eq!(code(&relay.send(&mut a, chunk_frame("short", 0, "AAAA", None))), "bad_request");
    assert_eq!(code(&relay.send(&mut a, chunk_frame(TRANSFER, 0, "A===", None))), "bad_request");
    assert_eq!(code(&relay.send(&mut a, chunk_frame(TRANSFER, 0, "AAAA", None))), "pow_required");
    assert_eq!(code(&relay.send(&mut a, chunk_frame(TRANSFER, 1, "AAAA", None))), "not_found");
    assert_eq!(code(&relay.send(&mut a, fetch_chunk_frame("short", 0))), "bad_request");
    assert_eq!(code(&relay.send(&mut a, delete_frame("short"))), "bad_request");
    assert_eq!(
        code(&[chunk_stored("r".to_string(), TRANSFER.to_string(), 0, None)]),
        "relay_full"
    );
    assert_eq!(
        code(&[chunk_fetched("r".to_string(), TRANSFER.to_string(), 0, None)]),
        "not_found"
    );
    assert_eq!(
        code(&[chunk_stored(
            "r".to_string(),
            TRANSFER.to_string(),
            0,
            Some(Err(FileReject::TooLarge))
        )]),
        "file_too_large"
    );
}

#[test]
fn acknowledging_and_retiring_need_a_mailbox() {
    let mut relay = Relay::new();
    let mut b = relay.connect();
    assert_eq!(code(&relay.send(&mut b, ClientFrame::Ack { ids: vec![1] })), "not_registered");
    assert_eq!(code(&relay.send(&mut b, ClientFrame::RetireMailbox)), "not_registered");
    assert_eq!(acked(None), ServerFrame::AckOk { removed: 0 });
    relay.hello(&mut b, MBX_B, AUTH_B, DT_B);
    let mut a = relay.connect();
    relay.send(&mut a, envelope_frame(MBX_B, DT_B, "r", "x"));
    assert_eq!(relay.envelopes.len(), 1);
    assert_eq!(
        relay.send(&mut b, ClientFrame::RetireMailbox),
        vec![ServerFrame::AckOk { removed: 0 }]
    );
    assert_eq!(relay.state.mailbox_count, 0);
    assert!(relay.state.mailbox_auth.get(MBX_B).is_none());
    assert!(relay.state.online.get(MBX_B).is_none());
    assert!(relay.state.send_rate.get(MBX_B).is_none());
    assert!(relay.state.dirty_auth.get(MBX_B).is_some());
    assert!(relay.envelopes.is_empty());
    assert_eq!(relay.queues.total_bytes(), 0);
}

#[test]
fn frames_are_counted_and_measured() {
    let mut s = Session::new(1, T0);
    for _ in 0..MAX_FRAMES_PER_WINDOW {
        assert_eq!(s.admit_frame(10, T0 + RATE_WINDOW_MS), None);
    }
    assert_eq!(code(&[s.admit_frame(10, T0 + RATE_WINDOW_MS).unwrap()]), "rate_limited");
    assert_eq!(s.admit_frame(MAX_FRAME_BYTES, T0 + RATE_WINDOW_MS + 1), None);
    assert_eq!(s.frame_count, 1);
    assert_eq!(
        code(&[s.admit_frame(MAX_FRAME_BYTES + 1, T0 + RATE_WINDOW_MS + 1).unwrap()]),
        "too_large"
    );
}

#[test]
fn a_frame_taken_in_now() {
    let mut relay = Relay::new();
    let mut s = relay.connect();
    match s.handle_frame(&mut relay.state, ClientFrame::Ping) {
        Step::Reply { frame: ServerFrame::Pong { server_time_ms } } => {
            assert!(server_time_ms > T0)
        }
        other => panic!("{other:?}"),
    }
    // The clock has moved past the window of the recorded proofs.
    let stale = s.handle_frame(
        &mut relay.state,
        hello_frame(MBX_A, AUTH_A, DT_A, Some(pow(MBX_A)), false),
    );
    match stale {
        Step::Reply { frame } => assert_eq!(code(&[frame]), "bad_pow"),
        other => panic!("{other:?}"),
    }
    // Two envelopes get different identifiers.
    relay.hello(&mut s, MBX_B, AUTH_B, DT_B);
    let mut ids = Vec::new();
    for _ in 0..2 {
        match s.handle_frame(&mut relay.state, envelope_frame(MBX_B, DT_B, "r", "x")) {
            Step::Deliver { envelope, .. } => ids.push(envelope.id),
            other => panic!("{other:?}"),
        }
    }
    assert_ne!(ids[0], ids[1]);
}

#[test]
fn proofs_of_work_are_bound_to_identifier_and_time() {
    assert!(verify_pow_at(MBX_A, &pow(MBX_A), 2_833_333));
    assert!(verify_pow_at(MBX_A, &pow(MBX_A), 2_833_334));
    assert!(!verify_pow_at(MBX_A, &pow(MBX_A), 2_833_335));
    assert!(!verify_pow_at(MBX_A, &pow(MBX_A), 2_833_332));
    assert!(!verify_pow_at(MBX_B, &pow(MBX_A), 2_833_333));
    assert!(!verify_pow_at(MBX_A, "686992", 2_833_333));
    assert!(!verify_pow_at(MBX_A, "x:686992", 2_833_333));
    // One zero bit too few.
    assert!(!verify_pow_at(MBX_A, "2833333:18488701", 2_833_333));
}
