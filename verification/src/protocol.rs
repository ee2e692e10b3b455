//! Wire protocol: the frames exchanged with clients, the stored envelope type, and small
//! constructors for error frames.

use crate::text::{opt_view, views};
use vstd::prelude::*;

verus! {

/// A mailbox identifier.
pub type RecipientId = String;

/// A sealed envelope on its way to a mailbox.
#[derive(Debug, Clone, PartialEq, Eq)]
pub struct StoredEnvelope {
    pub id: u128,
    pub to: RecipientId,
    pub envelope_type: String,
    pub ciphertext: String,
}

/// The model of a [`StoredEnvelope`].
pub struct EnvelopeView {
    pub id: u128,
    pub to: Seq<char>,
    pub envelope_type: Seq<char>,
    pub ciphertext: Seq<char>,
}

impl View for StoredEnvelope {
    type V = EnvelopeView;

    open spec fn view(&self) -> EnvelopeView {
        EnvelopeView {
            id: self.id,
            to: self.to@,
            envelope_type: self.envelope_type@,
            ciphertext: self.ciphertext@,
        }
    }
}

impl StoredEnvelope {
    /// A copy of the envelope.
    pub fn duplicate(&self) -> (r: StoredEnvelope)
        ensures
            r@ == self@,
    {
        StoredEnvelope {
            id: self.id,
            to: self.to.clone(),
            envelope_type: self.envelope_type.clone(),
            ciphertext: self.ciphertext.clone(),
        }
    }
}

/// A frame from a client.
#[derive(Debug, Clone, PartialEq, Eq)]
pub enum ClientFrame {
    Hello {
        recipient_id: RecipientId,
        auth_token: String,
        delivery_token: String,
        protocol_min: Option<u16>,
        protocol_max: Option<u16>,
        protocol_version: Option<u16>,
        pow: Option<String>,
        cert_only: bool,
    },
    SetDeliveryTokens { request_id: String, tokens: Vec<String> },
    IssueSenderCertificate {
        request_id: String,
        sender_uuid: String,
        sender_device_id: u32,
        sender_cert_public_b64: String,
    },
    SendEnvelope {
        client_ref: Option<String>,
        to: RecipientId,
        delivery_token: String,
        envelope_type: String,
        ciphertext: String,
    },
    UploadBundle {
        request_id: String,
        bundle_id: String,
        ciphertext: String,
        expires_at_ms: u64,
        pow: Option<String>,
    },
    FetchBundle { request_id: String, bundle_id: String },
    /// One chunk of a file transfer. The shape is the same on every chunk; the proof of work is
    /// needed on the first, which creates the transfer.
    UploadFileChunk {
        request_id: String,
        transfer_id: String,
        chunk_index: u32,
        total_chunks: u32,
        total_bytes: u64,
        ciphertext: String,
        pow: Option<String>,
    },
    FetchFileChunk { request_id: String, transfer_id: String, chunk_index: u32 },
    DeleteTransfer { request_id: String, transfer_id: String },
    Ack { ids: Vec<u128> },
    RetireMailbox,
    Ping,
}

/// The model of a [`ClientFrame`].
pub enum ClientView {
    Hello {
        recipient_id: Seq<char>,
        auth_token: Seq<char>,
        delivery_token: Seq<char>,
        protocol_min: Option<u16>,
        protocol_max: Option<u16>,
        protocol_version: Option<u16>,
        pow: Option<Seq<char>>,
        cert_only: bool,
    },
    SetDeliveryTokens { request_id: Seq<char>, tokens: Seq<Seq<char>> },
    IssueSenderCertificate {
        request_id: Seq<char>,
        sender_uuid: Seq<char>,
        sender_device_id: u32,
        sender_cert_public_b64: Seq<char>,
    },
    SendEnvelope {
        client_ref: Option<Seq<char>>,
        to: Seq<char>,
        delivery_token: Seq<char>,
        envelope_type: Seq<char>,
        ciphertext: Seq<char>,
    },
    UploadBundle {
        request_id: Seq<char>,
        bundle_id: Seq<char>,
        ciphertext: Seq<char>,
        expires_at_ms: u64,
        pow: Option<Seq<char>>,
    },
    FetchBundle { request_id: Seq<char>, bundle_id: Seq<char> },
    UploadFileChunk {
        request_id: Seq<char>,
        transfer_id: Seq<char>,
        chunk_index: u32,
        total_chunks: u32,
        total_bytes: u64,
        ciphertext: Seq<char>,
        pow: Option<Seq<char>>,
    },
    FetchFileChunk { request_id: Seq<char>, transfer_id: Seq<char>, chunk_index: u32 },
    DeleteTransfer { request_id: Seq<char>, transfer_id: Seq<char> },
    Ack { ids: Seq<u128> },
    RetireMailbox,
    Ping,
}

impl View for ClientFrame {
    type V = ClientView;

    open spec fn view(&self) -> ClientView {
        match *self {
            ClientFrame::Hello {
                recipient_id,
                auth_token,
                delivery_token,
                protocol_min,
                protocol_max,
                protocol_version,
                pow,
                cert_only,
            } => ClientView::Hello {
                recipient_id: recipient_id@,
                auth_token: auth_token@,
                delivery_token: delivery_token@,
                protocol_min,
                protocol_max,
                protocol_version,
                pow: opt_view(pow),
                cert_only,
            },
            ClientFrame::SetDeliveryTokens { request_id, tokens } => ClientView::SetDeliveryTokens {
                request_id: request_id@,
                tokens: views(tokens@),
            },
            ClientFrame::IssueSenderCertificate {
                request_id,
                sender_uuid,
                sender_device_id,
                sender_cert_public_b64,
            } => ClientView::IssueSenderCertificate {
                request_id: request_id@,
                sender_uuid: sender_uuid@,
                sender_device_id,
                sender_cert_public_b64: sender_cert_public_b64@,
            },
            ClientFrame::SendEnvelope {
                client_ref,
                to,
                delivery_token,
                envelope_type,
                ciphertext,
            } => ClientView::SendEnvelope {
                client_ref: opt_view(client_ref),
                to: to@,
                delivery_token: delivery_token@,
                envelope_type: envelope_type@,
                ciphertext: ciphertext@,
            },
            ClientFrame::UploadBundle {
                request_id,
                bundle_id,
                ciphertext,
                expires_at_ms,
                pow,
            } => ClientView::UploadBundle {
                request_id: request_id@,
                bundle_id: bundle_id@,
                ciphertext: ciphertext@,
                expires_at_ms,
                pow: opt_view(pow),
            },
            ClientFrame::FetchBundle { request_id, bundle_id } => ClientView::FetchBundle {
                request_id: request_id@,
                bundle_id: bundle_id@,
            },
            ClientFrame::UploadFileChunk {
                request_id,
                transfer_id,
                chunk_index,
                total_chunks,
                total_bytes,
                ciphertext,
                pow,
            } => ClientView::UploadFileChunk {
                request_id: request_id@,
                transfer_id: transfer_id@,
                chunk_index,
                total_chunks,
                total_bytes,
                ciphertext: ciphertext@,
                pow: opt_view(pow),
            },
            ClientFrame::FetchFileChunk { request_id, transfer_id, chunk_index } => {
                ClientView::FetchFileChunk {
                    request_id: request_id@,
                    transfer_id: transfer_id@,
                    chunk_index,
                }
            },
            ClientFrame::DeleteTransfer { request_id, transfer_id } => ClientView::DeleteTransfer {
                request_id: request_id@,
                transfer_id: transfer_id@,
            },
            ClientFrame::Ack { ids } => ClientView::Ack { ids: ids@ },
            ClientFrame::RetireMailbox => ClientView::RetireMailbox,
            ClientFrame::Ping => ClientView::Ping,
        }
    }
}

/// A frame to a client.
#[derive(Debug, Clone, PartialEq, Eq)]
pub enum ServerFrame {
    HelloOk {
        protocol_version: u16,
        min_supported: u16,
        current_protocol: u16,
        server_time_ms: u64,
        trust_root_b64: String,
        max_file_bytes: u64,
    },
    SenderCertificate {
        request_id: String,
        certificate_b64: String,
        trust_root_b64: String,
        expires_at_ms: u64,
    },
    BundleUploaded { request_id: String, bundle_id: String, expires_at_ms: u64 },
    Bundle { request_id: String, bundle_id: String, ciphertext: String, expires_at_ms: u64 },
    /// A stored chunk, with the number of distinct chunks now held.
    FileChunkStored {
        request_id: String,
        transfer_id: String,
        chunk_index: u32,
        received_chunks: u32,
        total_chunks: u32,
    },
    /// A fetched chunk, with the shape of its transfer.
    FileChunk {
        request_id: String,
        transfer_id: String,
        chunk_index: u32,
        total_chunks: u32,
        total_bytes: u64,
        ciphertext: String,
    },
    /// A transfer that was deleted or was already gone.
    TransferDeleted { request_id: String, transfer_id: String },
    /// A refusal of a file request.
    FileError { request_id: String, transfer_id: String, code: String, message: String },
    Envelope { envelope: StoredEnvelope },
    /// The end of the backlog after a hello, with the number of envelopes in it.
    Synced { count: u64 },
    SendOk { id: u128, queued: bool, client_ref: Option<String> },
    SendError { client_ref: Option<String>, code: String, message: String },
    DeliveryTokensSet { request_id: String, active_count: usize },
    AckOk { removed: usize },
    Pong { server_time_ms: u64 },
    Error { code: String, message: String },
}

/// The model of a [`ServerFrame`].
pub enum FrameView {
    HelloOk {
        protocol_version: u16,
        min_supported: u16,
        current_protocol: u16,
        server_time_ms: u64,
        trust_root_b64: Seq<char>,
        max_file_bytes: u64,
    },
    SenderCertificate {
        request_id: Seq<char>,
        certificate_b64: Seq<char>,
        trust_root_b64: Seq<char>,
        expires_at_ms: u64,
    },
    BundleUploaded { request_id: Seq<char>, bundle_id: Seq<char>, expires_at_ms: u64 },
    Bundle {
        request_id: Seq<char>,
        bundle_id: Seq<char>,
        ciphertext: Seq<char>,
        expires_at_ms: u64,
    },
    FileChunkStored {
        request_id: Seq<char>,
        transfer_id: Seq<char>,
        chunk_index: u32,
        received_chunks: u32,
        total_chunks: u32,
    },
    FileChunk {
        request_id: Seq<char>,
        transfer_id: Seq<char>,
        chunk_index: u32,
        total_chunks: u32,
        total_bytes: u64,
        ciphertext: Seq<char>,
    },
    TransferDeleted { request_id: Seq<char>, transfer_id: Seq<char> },
    FileError {
        request_id: Seq<char>,
        transfer_id: Seq<char>,
        code: Seq<char>,
        message: Seq<char>,
    },
    Envelope { envelope: EnvelopeView },
    Synced { count: u64 },
    SendOk { id: u128, queued: bool, client_ref: Option<Seq<char>> },
    SendError { client_ref: Option<Seq<char>>, code: Seq<char>, message: Seq<char> },
    DeliveryTokensSet { request_id: Seq<char>, active_count: usize },
    AckOk { removed: usize },
    Pong { server_time_ms: u64 },
    Error { code: Seq<char>, message: Seq<char> },
}

impl View for ServerFrame {
    type V = FrameView;

    open spec fn view(&self) -> FrameView {
        match *self {
            ServerFrame::HelloOk {
                protocol_version,
                min_supported,
                current_protocol,
                server_time_ms,
                trust_root_b64,
                max_file_bytes,
            } => FrameView::HelloOk {
                protocol_version,
                min_supported,
                current_protocol,
                server_time_ms,
                trust_root_b64: trust_root_b64@,
                max_file_bytes,
            },
            ServerFrame::SenderCertificate {
                request_id,
                certificate_b64,
                trust_root_b64,
                expires_at_ms,
            } => FrameView::SenderCertificate {
                request_id: request_id@,
                certificate_b64: certificate_b64@,
                trust_root_b64: trust_root_b64@,
                expires_at_ms,
            },
            ServerFrame::BundleUploaded { request_id, bundle_id, expires_at_ms } => {
                FrameView::BundleUploaded {
                    request_id: request_id@,
                    bundle_id: bundle_id@,
                    expires_at_ms,
                }
            },
            ServerFrame::Bundle { request_id, bundle_id, ciphertext, expires_at_ms } => {
                FrameView::Bundle {
                    request_id: request_id@,
                    bundle_id: bundle_id@,
                    ciphertext: ciphertext@,
                    expires_at_ms,
                }
            },
            ServerFrame::FileChunkStored {
                request_id,
                transfer_id,
                chunk_index,
                received_chunks,
                total_chunks,
            } => FrameView::FileChunkStored {
                request_id: request_id@,
                transfer_id: transfer_id@,
                chunk_index,
                received_chunks,
                total_chunks,
            },
            ServerFrame::FileChunk {
                request_id,
                transfer_id,
                chunk_index,
                total_chunks,
                total_bytes,
                ciphertext,
            } => FrameView::FileChunk {
                request_id: request_id@,
                transfer_id: transfer_id@,
                chunk_index,
                total_chunks,
                total_bytes,
                ciphertext: ciphertext@,
            },
            ServerFrame::TransferDeleted { request_id, transfer_id } => FrameView::TransferDeleted {
                request_id: request_id@,
                transfer_id: transfer_id@,
            },
            ServerFrame::FileError { request_id, transfer_id, code, message } => {
                FrameView::FileError {
                    request_id: request_id@,
                    transfer_id: transfer_id@,
                    code: code@,
                    message: message@,
                }
            },
            ServerFrame::Envelope { envelope } => FrameView::Envelope { envelope: envelope@ },
            ServerFrame::Synced { count } => FrameView::Synced { count },
            ServerFrame::SendOk { id, queued, client_ref } => FrameView::SendOk {
                id,
                queued,
                client_ref: opt_view(client_ref),
            },
            ServerFrame::SendError { client_ref, code, message } => FrameView::SendError {
                client_ref: opt_view(client_ref),
                code: code@,
                message: message@,
            },
            ServerFrame::DeliveryTokensSet { request_id, active_count } => {
                FrameView::DeliveryTokensSet { request_id: request_id@, active_count }
            },
            ServerFrame::AckOk { removed } => FrameView::AckOk { removed },
            ServerFrame::Pong { server_time_ms } => FrameView::Pong { server_time_ms },
            ServerFrame::Error { code, message } => FrameView::Error {
                code: code@,
                message: message@,
            },
        }
    }
}

/// A general refusal.
pub fn err(code: &str, message: &str) -> (r: ServerFrame)
    ensures
        r@ == (FrameView::Error { code: code@, message: message@ }),
{
    ServerFrame::Error { code: code.to_owned(), message: message.to_owned() }
}

/// A refusal of a send.
pub fn send_err(client_ref: Option<String>, code: &str, message: &str) -> (r: ServerFrame)
    ensures
        r@ == (FrameView::SendError {
            client_ref: opt_view(client_ref),
            code: code@,
            message: message@,
        }),
{
    ServerFrame::SendError { client_ref, code: code.to_owned(), message: message.to_owned() }
}

/// A refusal of a file request.
pub fn file_err(request_id: String, transfer_id: &str, code: &str, message: &str) -> (r: ServerFrame)
    ensures
        r@ == (FrameView::FileError {
            request_id: request_id@,
            transfer_id: transfer_id@,
            code: code@,
            message: message@,
        }),
{
    ServerFrame::FileError {
        request_id,
        transfer_id: transfer_id.to_owned(),
        code: code.to_owned(),
        message: message.to_owned(),
    }
}

} // verus!
