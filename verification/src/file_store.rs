//! Durable store for chunked file transfers.
//!
//! A transfer is a set of opaque chunks under one random identifier. The metadata and the chunks lie
//! in two durable tables; a cache of the metadata and two counters give the cap checks. This module
//! decides what is written to the tables and keeps the cache and the counters.

use crate::config::{FileConfig, INCOMPLETE_FILE_TTL_MS};
use crate::maps::{file_entries, files_get, files_insert, files_list, files_new, files_remove};
use crate::outside::opt_bytes;
use crate::table::owner_range;
use crate::text::{decimal, decimal_text, lemma_push_contains, views};
use dashmap::DashMap;
use vstd::prelude::*;

verus! {

/// What is kept of a transfer.
#[derive(Debug, Clone, Copy, PartialEq, Eq, Structural)]
pub struct FileMeta {
    /// Number of chunks that the transfer is declared to have.
    pub total_chunks: u32,
    /// Declared bytes across all chunks, reserved against the global cap.
    pub total_bytes: u64,
    /// Bytes stored so far.
    pub stored_bytes: u64,
    /// Number of distinct chunks stored so far.
    pub received_chunks: u32,
    /// Time of creation, for expiry.
    pub created_at_ms: u64,
}

/// Why a request on the file store is refused.
#[derive(Debug, Clone, Copy, PartialEq, Eq, Structural)]
pub enum FileReject {
    /// The declared size exceeds the per-file cap.
    TooLarge,
    /// A global cap, on transfers or on bytes, is reached.
    Full,
    /// The request is malformed or disagrees with the transfer.
    BadRequest,
    /// There is no such transfer or chunk.
    NotFound,
}

impl FileReject {
    /// The code of the refusal on the wire.
    pub fn code(self) -> (r: &'static str)
        ensures
            r@ == reject_code(self),
    {
        match self {
            FileReject::TooLarge => "file_too_large",
            FileReject::Full => "relay_full",
            FileReject::BadRequest => "bad_request",
            FileReject::NotFound => "not_found",
        }
    }

    /// The refusal in words.
    pub fn message(self) -> (r: &'static str)
        ensures
            r@ == reject_message(self),
    {
        match self {
            FileReject::TooLarge => "file exceeds this relay's size limit",
            FileReject::Full => "relay file storage is full",
            FileReject::BadRequest => "malformed file transfer request",
            FileReject::NotFound => "file transfer not found or expired",
        }
    }
}

/// The code of each refusal.
pub open spec fn reject_code(e: FileReject) -> Seq<char> {
    match e {
        FileReject::TooLarge => "file_too_large"@,
        FileReject::Full => "relay_full"@,
        FileReject::BadRequest => "bad_request"@,
        FileReject::NotFound => "not_found"@,
    }
}

/// The words of each refusal.
pub open spec fn reject_message(e: FileReject) -> Seq<char> {
    match e {
        FileReject::TooLarge => "file exceeds this relay's size limit"@,
        FileReject::Full => "relay file storage is full"@,
        FileReject::BadRequest => "malformed file transfer request"@,
        FileReject::NotFound => "file transfer not found or expired"@,
    }
}

// ---------------------------------------------------------------------------
// Keys
// ---------------------------------------------------------------------------

/// The key of a chunk: the transfer, a colon and the index.
pub open spec fn file_chunk_key(transfer_id: Seq<char>, chunk_index: u32) -> Seq<char> {
    transfer_id.push(':') + decimal_text(chunk_index as nat)
}

/// The key of a chunk of a transfer.
pub fn chunk_key(transfer_id: &str, chunk_index: u32) -> (r: String)
    ensures
        r@ == file_chunk_key(transfer_id@, chunk_index),
{
    let mut out: String = transfer_id.to_owned();
    out.push(':');
    let number: String = decimal(chunk_index as u64);
    out.append(number.as_str());
    out
}

/// The half-open range of keys that holds exactly the chunks of a transfer.
pub fn chunk_bounds(transfer_id: &str) -> (r: (String, String))
    ensures
        r.0@ == transfer_id@.push(':'),
        r.1@ == transfer_id@.push(';'),
        (r.0@, r.1@) == owner_range(transfer_id@),
{
    let mut lo: String = transfer_id.to_owned();
    lo.push(':');
    let mut hi: String = transfer_id.to_owned();
    hi.push(';');
    (lo, hi)
}

// ---------------------------------------------------------------------------
// The model
// ---------------------------------------------------------------------------

/// The model of a [`FileStore`].
#[verifier::ext_equal]
pub struct FilesView {
    pub config: FileConfig,
    /// The cached metadata of the live transfers.
    pub entries: Map<Seq<char>, FileMeta>,
    /// The declared bytes of the live transfers.
    pub reserved: u64,
    /// The number of live transfers.
    pub count: usize,
}

/// What a chunk upload asks for.
pub struct ChunkRequest {
    pub transfer_id: Seq<char>,
    pub chunk_index: u32,
    pub total_chunks: u32,
    pub total_bytes: u64,
    pub len: nat,
}

/// What the durable tables hold for a chunk upload: the metadata row of the transfer, where there is
/// one (`Some(None)` where it cannot be decoded), and the length of the chunk stored under the same
/// index, where there is one.
#[derive(Debug, Clone, Copy)]
pub struct ChunkFound {
    pub meta: Option<Option<FileMeta>>,
    pub prev_len: Option<u64>,
}

/// The rules on a request that hold whatever is stored.
pub open spec fn shape_refusal(config: FileConfig, r: ChunkRequest) -> Option<FileReject> {
    if r.len == 0 || r.total_bytes == 0 || r.total_chunks == 0 || r.total_chunks > config.max_chunks
        || r.chunk_index >= r.total_chunks {
        Some(FileReject::BadRequest)
    } else if r.total_bytes > config.max_file_bytes {
        Some(FileReject::TooLarge)
    } else {
        None
    }
}

/// Whether both global caps have room for a transfer of `total_bytes` bytes.
pub open spec fn can_reserve(v: FilesView, total_bytes: u64) -> bool {
    v.count < v.config.max_transfers && v.reserved.saturating_add(total_bytes)
        <= v.config.max_total_file_bytes
}

/// The rules on the creation of a transfer.
pub open spec fn creation_refusal(v: FilesView, r: ChunkRequest) -> Option<FileReject> {
    if r.chunk_index != 0 {
        Some(FileReject::NotFound)
    } else if !can_reserve(v, r.total_bytes) {
        Some(FileReject::Full)
    } else {
        None
    }
}

/// A transfer before its first chunk is counted.
pub open spec fn fresh_meta(r: ChunkRequest, now: u64) -> FileMeta {
    FileMeta {
        total_chunks: r.total_chunks,
        total_bytes: r.total_bytes,
        stored_bytes: 0,
        received_chunks: 0,
        created_at_ms: now,
    }
}

/// The stored bytes once a chunk of `len` bytes stands in the place of `prev`.
pub open spec fn restored_bytes(meta: FileMeta, prev: Option<u64>, len: u64) -> u64 {
    meta.stored_bytes.wrapping_sub(
        match prev {
            Some(n) => n,
            None => 0,
        },
    ).wrapping_add(len)
}

/// The metadata once a chunk is counted: a replaced chunk is counted once. More than was declared,
/// or than a file may have, is refused.
pub open spec fn counted_chunk(
    config: FileConfig,
    meta: FileMeta,
    prev: Option<u64>,
    len: u64,
) -> Result<FileMeta, FileReject> {
    let stored = restored_bytes(meta, prev, len);
    if stored > meta.total_bytes || stored > config.max_file_bytes {
        Err(FileReject::BadRequest)
    } else {
        Ok(
            FileMeta {
                stored_bytes: stored,
                received_chunks: if prev is None {
                    meta.received_chunks.wrapping_add(1)
                } else {
                    meta.received_chunks
                },
                ..meta
            },
        )
    }
}

/// What an upload leads to: the new metadata of the transfer, or a refusal.
pub open spec fn upload_outcome(
    v: FilesView,
    r: ChunkRequest,
    found: ChunkFound,
    now: u64,
) -> Result<FileMeta, FileReject> {
    match shape_refusal(v.config, r) {
        Some(e) => Err(e),
        None => if !v.entries.contains_key(r.transfer_id) {
            match creation_refusal(v, r) {
                Some(e) => Err(e),
                None => counted_chunk(v.config, fresh_meta(r, now), found.prev_len, r.len as u64),
            }
        } else if v.entries[r.transfer_id].total_chunks != r.total_chunks
            || v.entries[r.transfer_id].total_bytes != r.total_bytes {
            Err(FileReject::BadRequest)
        } else {
            match found.meta {
                Some(Some(meta)) => counted_chunk(v.config, meta, found.prev_len, r.len as u64),
                _ => Err(FileReject::NotFound),
            }
        },
    }
}

/// The store with a transfer of `total_bytes` bytes reserved.
pub open spec fn reserved_view(v: FilesView, total_bytes: u64) -> FilesView {
    FilesView {
        reserved: v.reserved.saturating_add(total_bytes),
        count: (v.count + 1) as usize,
        ..v
    }
}

/// The store with a reservation of `total_bytes` bytes given back.
pub open spec fn released_view(v: FilesView, total_bytes: u64) -> FilesView {
    FilesView {
        reserved: v.reserved.saturating_sub(total_bytes),
        count: v.count.wrapping_sub(1),
        ..v
    }
}

/// The store right after an upload is decided, before it is committed: a creation has its slot and
/// its bytes, and gives them back where the chunk itself is refused.
pub open spec fn upload_reserves(
    v: FilesView,
    r: ChunkRequest,
    found: ChunkFound,
    now: u64,
) -> FilesView {
    if shape_refusal(v.config, r) is Some || v.entries.contains_key(r.transfer_id)
        || creation_refusal(v, r) is Some {
        v
    } else if upload_outcome(v, r, found, now) is Ok {
        reserved_view(v, r.total_bytes)
    } else {
        released_view(reserved_view(v, r.total_bytes), r.total_bytes)
    }
}

/// What an accepted upload writes, in one transaction: the chunk under `key` and the metadata under
/// the identifier of the transfer.
pub struct ChunkPlan {
    pub key: String,
    pub data: Vec<u8>,
    pub meta: FileMeta,
    /// The shape that the upload declared.
    pub total_chunks: u32,
    pub total_bytes: u64,
    /// Whether the upload creates the transfer.
    pub creating: bool,
}

/// The model of a [`ChunkPlan`].
#[verifier::ext_equal]
pub struct PlanView {
    pub key: Seq<char>,
    pub data: Seq<u8>,
    pub meta: FileMeta,
    pub total_chunks: u32,
    pub total_bytes: u64,
    pub creating: bool,
}

impl View for ChunkPlan {
    type V = PlanView;

    open spec fn view(&self) -> PlanView {
        PlanView {
            key: self.key@,
            data: self.data@,
            meta: self.meta,
            total_chunks: self.total_chunks,
            total_bytes: self.total_bytes,
            creating: self.creating,
        }
    }
}

/// What an accepted upload of `data` writes, where `meta` is the new metadata of its transfer.
pub open spec fn chunk_plan(
    v: FilesView,
    r: ChunkRequest,
    data: Seq<u8>,
    meta: FileMeta,
) -> PlanView {
    PlanView {
        key: file_chunk_key(r.transfer_id, r.chunk_index),
        data,
        meta,
        total_chunks: r.total_chunks,
        total_bytes: r.total_bytes,
        creating: !v.entries.contains_key(r.transfer_id),
    }
}

/// How many chunks of a transfer are held after an upload.
#[derive(Debug, Clone, Copy, PartialEq, Eq, Structural)]
pub struct StoredChunk {
    pub received_chunks: u32,
    pub total_chunks: u32,
}

/// The store once an upload is committed: the cache holds the declared shape and the durable counts.
pub open spec fn committed_view(
    v: FilesView,
    transfer_id: Seq<char>,
    meta: FileMeta,
    total_chunks: u32,
    total_bytes: u64,
) -> FilesView {
    FilesView {
        entries: v.entries.insert(transfer_id, FileMeta { total_chunks, total_bytes, ..meta }),
        ..v
    }
}

/// The counts that a committed upload is answered with.
pub open spec fn stored_counts(meta: FileMeta, total_chunks: u32) -> StoredChunk {
    StoredChunk { received_chunks: meta.received_chunks, total_chunks }
}

/// The store once the transaction of an upload has failed.
pub open spec fn failed_view(v: FilesView, creating: bool, total_bytes: u64) -> FilesView {
    if creating {
        released_view(v, total_bytes)
    } else {
        v
    }
}

/// The bytes that deleting a transfer with this row gives back.
pub open spec fn given_back(row: Option<Option<FileMeta>>) -> u64 {
    match row {
        Some(Some(meta)) => meta.total_bytes,
        _ => 0,
    }
}

/// The store once a delete is committed.
pub open spec fn deleted_view(
    v: FilesView,
    transfer_id: Seq<char>,
    existed: bool,
    reserved: u64,
) -> FilesView {
    if existed {
        released_view(FilesView { entries: v.entries.remove(transfer_id), ..v }, reserved)
    } else {
        v
    }
}

/// A chunk and the declared shape of its transfer.
#[derive(Debug, Clone, PartialEq, Eq)]
pub struct FetchedChunk {
    pub data: Vec<u8>,
    pub total_chunks: u32,
    pub total_bytes: u64,
}

/// The model of a [`FetchedChunk`].
pub struct FetchedView {
    pub data: Seq<u8>,
    pub total_chunks: u32,
    pub total_bytes: u64,
}

impl View for FetchedChunk {
    type V = FetchedView;

    open spec fn view(&self) -> FetchedView {
        FetchedView {
            data: self.data@,
            total_chunks: self.total_chunks,
            total_bytes: self.total_bytes,
        }
    }
}

/// The view of a fetch.
pub open spec fn fetch_view(r: Result<FetchedChunk, FileReject>) -> Result<FetchedView, FileReject> {
    match r {
        Ok(c) => Ok(c@),
        Err(e) => Err(e),
    }
}

/// What a fetch gives, where the chunk table holds `data` under the key of the chunk.
pub open spec fn fetch_outcome(
    v: FilesView,
    transfer_id: Seq<char>,
    chunk_index: u32,
    data: Option<Seq<u8>>,
) -> Result<FetchedView, FileReject> {
    if !v.entries.contains_key(transfer_id) {
        Err(FileReject::NotFound)
    } else {
        let meta = v.entries[transfer_id];
        if chunk_index >= meta.total_chunks {
            Err(FileReject::BadRequest)
        } else {
            match data {
                Some(data) => Ok(
                    FetchedView {
                        data,
                        total_chunks: meta.total_chunks,
                        total_bytes: meta.total_bytes,
                    },
                ),
                None => Err(FileReject::NotFound),
            }
        }
    }
}

/// The lifetime of a transfer: short while chunks are missing, so that what it reserves is given
/// back soon, and never longer than the operator's.
pub open spec fn lifetime(config: FileConfig, meta: FileMeta) -> u64 {
    if meta.received_chunks < meta.total_chunks && INCOMPLETE_FILE_TTL_MS < config.file_ttl_ms {
        INCOMPLETE_FILE_TTL_MS
    } else {
        config.file_ttl_ms
    }
}

/// Whether a transfer has outlived its lifetime.
pub open spec fn is_expired(config: FileConfig, meta: FileMeta, now: u64) -> bool {
    meta.created_at_ms < now.saturating_sub(lifetime(config, meta))
}

/// A row of the metadata table; `None` where its bytes do not decode.
#[derive(Debug, Clone, PartialEq, Eq)]
pub struct MetaRow {
    pub key: String,
    pub value: Option<FileMeta>,
}

/// The transfers that rows describe.
pub open spec fn loaded_entries(rows: Seq<MetaRow>) -> Map<Seq<char>, FileMeta>
    decreases rows.len(),
{
    if rows.len() == 0 {
        Map::empty()
    } else {
        let before = loaded_entries(rows.drop_last());
        match rows.last().value {
            Some(meta) => before.insert(rows.last().key@, meta),
            None => before,
        }
    }
}

/// The declared bytes of the transfers that rows describe, capped at the largest `u64`.
pub open spec fn loaded_bytes(rows: Seq<MetaRow>) -> u64
    decreases rows.len(),
{
    if rows.len() == 0 {
        0
    } else {
        let before = loaded_bytes(rows.drop_last());
        match rows.last().value {
            Some(meta) => before.saturating_add(meta.total_bytes),
            None => before,
        }
    }
}

/// The number of rows that describe a transfer.
pub open spec fn loaded_count(rows: Seq<MetaRow>) -> nat
    decreases rows.len(),
{
    if rows.len() == 0 {
        0
    } else {
        let before = loaded_count(rows.drop_last());
        match rows.last().value {
            Some(_) => before + 1,
            None => before,
        }
    }
}

/// The store over metadata rows.
pub open spec fn loaded_view(config: FileConfig, rows: Seq<MetaRow>) -> FilesView {
    FilesView {
        config,
        entries: loaded_entries(rows),
        reserved: loaded_bytes(rows),
        count: loaded_count(rows) as usize,
    }
}

/// What deleting a transfer removes, in one transaction, and what it gives back.
pub struct DeletePlan {
    /// Whether the metadata table holds the transfer.
    pub existed: bool,
    /// The declared bytes of the transfer; none where its metadata cannot be decoded.
    pub reserved: u64,
}

// ---------------------------------------------------------------------------
// The store
// ---------------------------------------------------------------------------

/// The cache and the counters over the durable transfers.
pub struct FileStore {
    config: FileConfig,
    meta: DashMap<String, FileMeta>,
    reserved_bytes: u64,
    transfer_count: usize,
}

impl View for FileStore {
    type V = FilesView;

    closed spec fn view(&self) -> FilesView {
        FilesView {
            config: self.config,
            entries: file_entries(self.meta),
            reserved: self.reserved_bytes,
            count: self.transfer_count,
        }
    }
}

impl FileStore {
    /// A store over the given metadata rows.
    pub fn new(config: FileConfig, rows: &Vec<MetaRow>) -> (r: FileStore)
        ensures
            r@ == loaded_view(config, rows@),
            loaded_count(rows@) <= rows@.len(),
    {
        let mut store: FileStore = FileStore {
            config,
            meta: files_new(),
            reserved_bytes: 0,
            transfer_count: 0,
        };
        store.scan_meta(rows);
        store
    }

    /// Rebuilds the cache and the counters of an empty store from all metadata rows.
    fn scan_meta(&mut self, rows: &Vec<MetaRow>)
        requires
            old(self)@.entries.dom() == Set::<Seq<char>>::empty(),
        ensures
            final(self)@ == loaded_view(old(self)@.config, rows@),
            loaded_count(rows@) <= rows@.len(),
    {
        let mut reserved: u64 = 0;
        let mut count: usize = 0;
        let mut i: usize = 0;
        proof {
            assert(file_entries(self.meta) =~= loaded_entries(rows@.take(0)));
        }
        while i < rows.len()
            invariant
                i <= rows@.len(),
                self.config == old(self)@.config,
                file_entries(self.meta) == loaded_entries(rows@.take(i as int)),
                reserved == loaded_bytes(rows@.take(i as int)),
                count == loaded_count(rows@.take(i as int)),
                count <= i,
            decreases rows@.len() - i,
        {
            proof {
                assert(rows@.take(i + 1).drop_last() =~= rows@.take(i as int));
            }
            if let Some(meta) = rows[i].value {
                reserved = reserved.saturating_add(meta.total_bytes);
                count += 1;
                files_insert(&mut self.meta, rows[i].key.clone(), meta);
            }
            i += 1;
        }
        proof {
            assert(rows@.take(rows@.len() as int) =~= rows@);
        }
        self.reserved_bytes = reserved;
        self.transfer_count = count;
    }

    /// Whether a transfer is live.
    pub fn is_live(&self, transfer_id: &str) -> (r: bool)
        ensures
            r == self@.entries.contains_key(transfer_id@),
    {
        files_get(&self.meta, transfer_id).is_some()
    }

    /// The declared bytes of the live transfers.
    pub fn reserved_bytes(&self) -> (r: u64)
        ensures
            r == self@.reserved,
    {
        self.reserved_bytes
    }

    /// The number of live transfers.
    pub fn transfer_count(&self) -> (r: usize)
        ensures
            r == self@.count,
    {
        self.transfer_count
    }

    /// The limits of the store.
    pub fn config(&self) -> (r: FileConfig)
        ensures
            r == self@.config,
    {
        self.config
    }

    /// Decides on one chunk of a transfer. The first chunk creates the transfer and reserves its
    /// declared bytes; a later chunk of an unknown transfer is refused; a chunk that was stored
    /// before is replaced without being counted twice.
    pub fn store_chunk(
        &mut self,
        transfer_id: &str,
        chunk_index: u32,
        total_chunks: u32,
        total_bytes: u64,
        data: Vec<u8>,
        found: ChunkFound,
        now: u64,
    ) -> (r: Result<ChunkPlan, FileReject>)
        ensures
            ({
                let request = ChunkRequest {
                    transfer_id: transfer_id@,
                    chunk_index,
                    total_chunks,
                    total_bytes,
                    len: data@.len(),
                };
                &&& final(self)@ == upload_reserves(old(self)@, request, found, now)
                &&& match upload_outcome(old(self)@, request, found, now) {
                    Ok(meta) => r matches Ok(plan) && plan.meta == meta && plan.data@ == data@
                        && plan.key@ == file_chunk_key(transfer_id@, chunk_index)
                        && plan.total_chunks == total_chunks && plan.total_bytes == total_bytes
                        && plan.creating == !old(self)@.entries.contains_key(transfer_id@),
                    Err(e) => r matches Err(x) && x == e,
                }
                &&& r matches Ok(plan) ==> plan@ == chunk_plan(
                    old(self)@,
                    request,
                    data@,
                    plan.meta,
                )
            }),
    {
        let ghost request = ChunkRequest {
            transfer_id: transfer_id@,
            chunk_index,
            total_chunks,
            total_bytes,
            len: data@.len(),
        };
        if data.len() == 0 || total_bytes == 0 || total_chunks == 0 || total_chunks
            > self.config.max_chunks || chunk_index >= total_chunks {
            return Err(FileReject::BadRequest);
        }
        if total_bytes > self.config.max_file_bytes {
            return Err(FileReject::TooLarge);
        }
        let cached: Option<FileMeta> = files_get(&self.meta, transfer_id);
        let creating: bool = cached.is_none();
        match cached {
            None => {
                if chunk_index != 0 {
                    return Err(FileReject::NotFound);
                }
                match self.reserve(total_bytes) {
                    Ok(_) => {},
                    Err(e) => {
                        return Err(e);
                    },
                }
            },
            Some(m) => {
                if m.total_chunks != total_chunks || m.total_bytes != total_bytes {
                    return Err(FileReject::BadRequest);
                }
            },
        }
        let data_len: u64 = data.len() as u64;
        let written: Result<FileMeta, FileReject> = self.write_chunk(
            total_chunks,
            total_bytes,
            data_len,
            creating,
            found,
            now,
        );
        match written {
            Ok(meta) => {
                let key: String = chunk_key(transfer_id, chunk_index);
                Ok(ChunkPlan { key, data, meta, total_chunks, total_bytes, creating })
            },
            Err(e) => {
                if creating {
                    self.release(total_bytes);
                }
                Err(e)
            },
        }
    }

    /// The metadata of a transfer once one more chunk is stored.
    fn write_chunk(
        &self,
        total_chunks: u32,
        total_bytes: u64,
        data_len: u64,
        creating: bool,
        found: ChunkFound,
        now: u64,
    ) -> (r: Result<FileMeta, FileReject>)
        ensures
            creating ==> r == counted_chunk(
                self@.config,
                FileMeta {
                    total_chunks,
                    total_bytes,
                    stored_bytes: 0,
                    received_chunks: 0,
                    created_at_ms: now,
                },
                found.prev_len,
                data_len,
            ),
            !creating ==> r == (match found.meta {
                Some(Some(meta)) => counted_chunk(self@.config, meta, found.prev_len, data_len),
                _ => Err(FileReject::NotFound),
            }),
    {
        let meta: FileMeta = if creating {
            FileMeta {
                total_chunks,
                total_bytes,
                stored_bytes: 0,
                received_chunks: 0,
                created_at_ms: now,
            }
        } else {
            match found.meta {
                Some(Some(meta)) => meta,
                _ => {
                    return Err(FileReject::NotFound);
                },
            }
        };
        let prev: u64 = match found.prev_len {
            Some(n) => n,
            None => 0,
        };
        let new_stored: u64 = meta.stored_bytes.wrapping_sub(prev).wrapping_add(data_len);
        if new_stored > meta.total_bytes || new_stored > self.config.max_file_bytes {
            return Err(FileReject::BadRequest);
        }
        let received: u32 = if found.prev_len.is_none() {
            meta.received_chunks.wrapping_add(1)
        } else {
            meta.received_chunks
        };
        Ok(
            FileMeta {
                total_chunks: meta.total_chunks,
                total_bytes: meta.total_bytes,
                stored_bytes: new_stored,
                received_chunks: received,
                created_at_ms: meta.created_at_ms,
            },
        )
    }

    /// Mirrors a committed upload into the cache.
    pub fn chunk_committed(&mut self, transfer_id: &str, plan: &ChunkPlan) -> (r: StoredChunk)
        ensures
            final(self)@ == committed_view(
                old(self)@,
                transfer_id@,
                plan.meta,
                plan.total_chunks,
                plan.total_bytes,
            ),
            final(self)@.entries[transfer_id@] == cached_meta(*plan),
            r == stored_counts(plan.meta, plan.total_chunks),
    {
        let meta: FileMeta = FileMeta {
            total_chunks: plan.total_chunks,
            total_bytes: plan.total_bytes,
            stored_bytes: plan.meta.stored_bytes,
            received_chunks: plan.meta.received_chunks,
            created_at_ms: plan.meta.created_at_ms,
        };
        files_insert(&mut self.meta, transfer_id.to_owned(), meta);
        StoredChunk { received_chunks: meta.received_chunks, total_chunks: plan.total_chunks }
    }

    /// Gives back what an upload reserved whose transaction failed.
    pub fn chunk_failed(&mut self, plan: &ChunkPlan) -> (r: FileReject)
        ensures
            final(self)@ == failed_view(old(self)@, plan.creating, plan.total_bytes),
            r == FileReject::Full,
    {
        if plan.creating {
            self.release(plan.total_bytes);
        }
        FileReject::Full
    }

    /// One stored chunk, where `data` is what the chunk table holds under its key.
    pub fn fetch_chunk(&self, transfer_id: &str, chunk_index: u32, data: Option<Vec<u8>>) -> (r:
        Result<FetchedChunk, FileReject>)
        ensures
            fetch_view(r) == fetch_outcome(self@, transfer_id@, chunk_index, opt_bytes(data)),
    {
        match files_get(&self.meta, transfer_id) {
            None => Err(FileReject::NotFound),
            Some(meta) => {
                if chunk_index >= meta.total_chunks {
                    return Err(FileReject::BadRequest);
                }
                match data {
                    Some(data) => Ok(
                        FetchedChunk {
                            data,
                            total_chunks: meta.total_chunks,
                            total_bytes: meta.total_bytes,
                        },
                    ),
                    None => Err(FileReject::NotFound),
                }
            },
        }
    }

    /// Decides what deleting a transfer gives back, where `row` is its row in the metadata table.
    /// Its row and every key in its range of the chunk table go.
    pub fn delete_transfer(&self, row: Option<Option<FileMeta>>) -> (r: DeletePlan)
        ensures
            r.existed == row.is_some(),
            r.reserved == given_back(row),
    {
        match row {
            Some(Some(meta)) => DeletePlan { existed: true, reserved: meta.total_bytes },
            Some(None) => DeletePlan { existed: true, reserved: 0 },
            None => DeletePlan { existed: false, reserved: 0 },
        }
    }

    /// Takes a deleted transfer out of the cache and the counters; says whether it existed.
    pub fn delete_committed(&mut self, transfer_id: &str, plan: &DeletePlan) -> (r: bool)
        ensures
            r == plan.existed,
            final(self)@ == deleted_view(old(self)@, transfer_id@, plan.existed, plan.reserved),
    {
        if plan.existed {
            files_remove(&mut self.meta, transfer_id);
            self.release(plan.reserved);
        }
        plan.existed
    }

    /// The transfers that have outlived their lifetime, each once, in no stated order.
    pub fn sweep_expired(&self, now: u64) -> (r: Vec<String>)
        ensures
            views(r@).no_duplicates(),
            forall|id: Seq<char>| #[trigger]
                views(r@).contains(id) <==> self@.entries.contains_key(id) && is_expired(
                    self@.config,
                    self@.entries[id],
                    now,
                ),
    {
        let all: Vec<(String, FileMeta)> = files_list(&self.meta);
        let ghost entries = self@.entries;
        let ghost config = self@.config;
        let mut out: Vec<String> = Vec::new();
        let mut i: usize = 0;
        while i < all.len()
            invariant
                i <= all@.len(),
                entries == self@.entries,
                config == self@.config,
                forall|j: int|
                    0 <= j < all@.len() ==> entries.contains_pair(
                        (#[trigger] all@[j]).0@,
                        all@[j].1,
                    ),
                forall|a: int, b: int|
                    0 <= a < b < all@.len() ==> (#[trigger] all@[a]).0@ != (#[trigger] all@[b]).0@,
                views(out@).no_duplicates(),
                forall|id: Seq<char>| #[trigger]
                    views(out@).contains(id) ==> entries.contains_key(id) && is_expired(
                        config,
                        entries[id],
                        now,
                    ),
                forall|j: int|
                    0 <= j < i && is_expired(config, all@[j].1, now) ==> views(out@).contains(
                        (#[trigger] all@[j]).0@,
                    ),
                forall|j: int|
                    i <= j < all@.len() ==> !views(out@).contains((#[trigger] all@[j]).0@),
            decreases all@.len() - i,
        {
            let meta: FileMeta = all[i].1;
            let ttl: u64 = if meta.received_chunks < meta.total_chunks && INCOMPLETE_FILE_TTL_MS
                < self.config.file_ttl_ms {
                INCOMPLETE_FILE_TTL_MS
            } else {
                self.config.file_ttl_ms
            };
            if meta.created_at_ms < now.saturating_sub(ttl) {
                let ghost before = views(out@);
                out.push(all[i].0.clone());
                proof {
                    let k = all@[i as int].0@;
                    assert(entries.contains_pair(k, all@[i as int].1));
                    assert(views(out@) =~= before.push(k));
                    assert forall|x: Seq<char>| #[trigger] views(out@).contains(x)
                        <==> before.contains(x) || x == k by {
                        lemma_push_contains(before, k, x);
                    }
                }
            }
            i += 1;
        }
        proof {
            assert forall|id: Seq<char>| #[trigger] views(out@).contains(id)
                <==> self@.entries.contains_key(id) && is_expired(
                self@.config,
                self@.entries[id],
                now,
            ) by {
                if entries.contains_key(id) && is_expired(config, entries[id], now) {
                    let j = choose|j: int| 0 <= j < all@.len() && (#[trigger] all@[j]).0@ == id;
                    assert(entries.contains_pair(all@[j].0@, all@[j].1));
                }
            }
        }
        out
    }

    /// Reserves a slot and the declared bytes of a new transfer against both global caps; a refused
    /// reservation changes nothing.
    pub fn reserve(&mut self, total_bytes: u64) -> (r: Result<(), FileReject>)
        ensures
            r == (if can_reserve(old(self)@, total_bytes) {
                Ok::<(), FileReject>(())
            } else {
                Err::<(), FileReject>(FileReject::Full)
            }),
            final(self)@ == (if can_reserve(old(self)@, total_bytes) {
                reserved_view(old(self)@, total_bytes)
            } else {
                old(self)@
            }),
    {
        if self.transfer_count >= self.config.max_transfers {
            return Err(FileReject::Full);
        }
        let next: u64 = self.reserved_bytes.saturating_add(total_bytes);
        if next > self.config.max_total_file_bytes {
            return Err(FileReject::Full);
        }
        self.transfer_count = self.transfer_count + 1;
        self.reserved_bytes = next;
        Ok(())
    }

    /// Gives back a slot and the declared bytes of a transfer.
    pub fn release(&mut self, total_bytes: u64)
        ensures
            final(self)@ == released_view(old(self)@, total_bytes),
    {
        self.transfer_count = self.transfer_count.wrapping_sub(1);
        self.reserved_bytes = self.reserved_bytes.saturating_sub(total_bytes);
    }
}

/// The metadata that the cache holds of an upload: the declared shape and the durable counts.
pub open spec fn cached_meta(plan: ChunkPlan) -> FileMeta {
    FileMeta { total_chunks: plan.total_chunks, total_bytes: plan.total_bytes, ..plan.meta }
}

} // verus!
