//! The file store over in-memory tables.

use std::collections::BTreeMap;

use axeno_relay::config::{FileConfig, INCOMPLETE_FILE_TTL_MS};
use axeno_relay::file_store::{
    chunk_bounds, chunk_key, ChunkFound, FetchedChunk, FileMeta, FileReject, FileStore, MetaRow,
    StoredChunk,
};

const T0: u64 = 1_700_000_000_000;

struct Disk {
    meta: BTreeMap<String, Option<FileMeta>>,
    chunks: BTreeMap<String, Vec<u8>>,
    store: FileStore,
}

fn config(max_file_mib: u64) -> FileConfig {
    FileConfig {
        max_file_bytes: max_file_mib * 1024 * 1024,
        max_total_file_bytes: 64 * 1024 * 1024,
        file_ttl_ms: 60_000,
        max_transfers: 100,
        max_chunks: (max_file_mib * 1024 * 1024).div_ceil(16 * 1024) as u32,
    }
}

impl Disk {
    fn with(config: FileConfig) -> Disk {
        Disk {
            meta: BTreeMap::new(),
            chunks: BTreeMap::new(),
            store: FileStore::new(config, &Vec::new()),
        }
    }

    fn new(max_file_mib: u64) -> Disk {
        Disk::with(config(max_file_mib))
    }

    fn reopen(self) -> Disk {
        let rows: Vec<MetaRow> = self
            .meta
            .iter()
            .map(|(k, v)| MetaRow { key: k.clone(), value: *v })
            .collect();
        let store = FileStore::new(self.store.config(), &rows);
        Disk { meta: self.meta, chunks: self.chunks, store }
    }

    fn found(&self, id: &str, index: u32) -> ChunkFound {
        ChunkFound {
            meta: self.meta.get(id).copied(),
            prev_len: self.chunks.get(&chunk_key(id, index)).map(|c| c.len() as u64),
        }
    }

    fn store_chunk_at(
        &mut self,
        id: &str,
        index: u32,
        total_chunks: u32,
        total_bytes: u64,
        data: &[u8],
        now: u64,
    ) -> Result<StoredChunk, FileReject> {
        let found = self.found(id, index);
        let plan = self.store.store_chunk(
            id,
            index,
            total_chunks,
            total_bytes,
            data.to_vec(),
            found,
            now,
        )?;
        self.chunks.insert(plan.key.clone(), plan.data.clone());
        self.meta.insert(id.to_string(), Some(plan.meta));
        Ok(self.store.chunk_committed(id, &plan))
    }

    fn store_chunk(
        &mut self,
        id: &str,
        index: u32,
        total_chunks: u32,
        total_bytes: u64,
        data: &[u8],
    ) -> Result<StoredChunk, FileReject> {
        self.store_chunk_at(id, index, total_chunks, total_bytes, data, T0)
    }

    fn fetch_chunk(&self, id: &str, index: u32) -> Result<FetchedChunk, FileReject> {
        self.store.fetch_chunk(id, index, self.chunks.get(&chunk_key(id, index)).cloned())
    }

    fn delete_transfer(&mut self, id: &str) -> bool {
        let plan = self.store.delete_transfer(self.meta.get(id).copied());
        self.meta.remove(id);
        let (lo, hi) = chunk_bounds(id);
        let keys: Vec<String> = self.chunks.range(lo..hi).map(|(k, _)| k.clone()).collect();
        for k in keys {
            self.chunks.remove(&k);
        }
        self.store.delete_committed(id, &plan)
    }

    fn sweep(&mut self, now: u64) -> usize {
        let mut removed = 0;
        for id in self.store.sweep_expired(now) {
            if self.delete_transfer(&id) {
                removed += 1;
            }
        }
        removed
    }
}

#[test]
fn upload_fetch_delete_roundtrip() {
    let mut store = Disk::new(1);
    let id = "transfer_abcdefghijklmnop";
    let c0 = vec![1u8; 100];
    let c1 = vec![2u8; 80];
    let r0 = store.store_chunk(id, 0, 2, 180, &c0).unwrap();
    assert_eq!(r0.received_chunks, 1);
    let r1 = store.store_chunk(id, 1, 2, 180, &c1).unwrap();
    assert_eq!(r1.received_chunks, 2);

    let f0 = store.fetch_chunk(id, 0).unwrap();
    assert_eq!(f0.data, c0);
    assert_eq!(f0.total_chunks, 2);
    let f1 = store.fetch_chunk(id, 1).unwrap();
    assert_eq!(f1.data, c1);

    assert!(store.delete_transfer(id));
    assert!(matches!(store.fetch_chunk(id, 0), Err(FileReject::NotFound)));
    assert_eq!(store.store.reserved_bytes(), 0);
    assert_eq!(store.store.transfer_count(), 0);
    assert!(store.chunks.is_empty());
    // A retried delete finds nothing and changes nothing.
    assert!(!store.delete_transfer(id));
    assert_eq!(store.store.transfer_count(), 0);
}

#[test]
fn rejects_oversize_and_inconsistent() {
    let mut store = Disk::new(1);
    let id = "transfer_abcdefghijklmnop";
    assert!(matches!(
        store.store_chunk(id, 0, 1, 2 * 1024 * 1024, &[9]),
        Err(FileReject::TooLarge)
    ));
    store.store_chunk(id, 0, 2, 200, &vec![1u8; 100]).unwrap();
    assert!(matches!(store.store_chunk(id, 1, 3, 200, &[1]), Err(FileReject::BadRequest)));
    assert!(matches!(
        store.store_chunk("transfer_zzzzzzzzzzzzzzzz", 1, 2, 200, &[1]),
        Err(FileReject::NotFound)
    ));
}

#[test]
fn reupload_is_idempotent() {
    let mut store = Disk::new(1);
    let id = "transfer_abcdefghijklmnop";
    store.store_chunk(id, 0, 2, 200, &vec![1u8; 100]).unwrap();
    let again = store.store_chunk(id, 0, 2, 200, &vec![7u8; 100]).unwrap();
    assert_eq!(again.received_chunks, 1);
    assert_eq!(store.fetch_chunk(id, 0).unwrap().data, vec![7u8; 100]);
    assert_eq!(store.meta[id].unwrap().stored_bytes, 100);
    // A shorter retry is counted at its own length.
    store.store_chunk(id, 0, 2, 200, &vec![8u8; 40]).unwrap();
    assert_eq!(store.meta[id].unwrap().stored_bytes, 40);
    assert_eq!(store.store.transfer_count(), 1);
    assert_eq!(store.store.reserved_bytes(), 200);
}

#[test]
fn over_declared_bytes_rejected() {
    let mut store = Disk::new(1);
    let id = "transfer_abcdefghijklmnop";
    assert!(matches!(
        store.store_chunk(id, 0, 1, 100, &vec![1u8; 150]),
        Err(FileReject::BadRequest)
    ));
    assert_eq!(store.store.transfer_count(), 0);
    assert_eq!(store.store.reserved_bytes(), 0);
    assert!(!store.store.is_live(id));
}

#[test]
fn sweep_reclaims_old_transfers() {
    let mut store = Disk::new(1);
    let id = "transfer_abcdefghijklmnop";
    store.store_chunk_at(id, 0, 1, 50, &vec![1u8; 50], 1).unwrap();
    assert_eq!(store.sweep(T0), 1);
    assert!(!store.store.is_live(id));
}

#[test]
fn shape_of_a_request() {
    let mut store = Disk::new(1);
    let id = "transfer_abcdefghijklmnop";
    assert_eq!(store.store_chunk(id, 0, 1, 10, &[]), Err(FileReject::BadRequest));
    assert_eq!(store.store_chunk(id, 0, 0, 10, &[1]), Err(FileReject::BadRequest));
    assert_eq!(store.store_chunk(id, 2, 2, 10, &[1]), Err(FileReject::BadRequest));
    assert_eq!(store.store_chunk(id, 0, 65, 10, &[1]), Err(FileReject::BadRequest));
    assert!(store.store_chunk(id, 0, 64, 10, &[1]).is_ok());
    let other = "transfer_qqqqqqqqqqqqqqqq";
    assert_eq!(store.store_chunk(other, 0, 1, 0, &[1]), Err(FileReject::BadRequest));
    assert_eq!(store.store_chunk(other, 0, 1, 1024 * 1024 + 1, &[1]), Err(FileReject::TooLarge));
    // The shape is looked at before the size.
    assert_eq!(store.store_chunk(id, 9, 1, 1024 * 1024 + 1, &[1]), Err(FileReject::BadRequest));
}

#[test]
fn caps_on_transfers_and_bytes() {
    let mut small = config(1);
    small.max_transfers = 1;
    let mut store = Disk::with(small);
    store.store_chunk("transfer_aaaaaaaaaaaaaaaa", 0, 1, 10, &[1]).unwrap();
    assert_eq!(
        store.store_chunk("transfer_bbbbbbbbbbbbbbbb", 0, 1, 10, &[1]),
        Err(FileReject::Full)
    );
    assert!(store.delete_transfer("transfer_aaaaaaaaaaaaaaaa"));
    assert!(store.store_chunk("transfer_bbbbbbbbbbbbbbbb", 0, 1, 10, &[1]).is_ok());

    let mut tight = config(1);
    tight.max_total_file_bytes = 15;
    let mut store = Disk::with(tight);
    store.store_chunk("transfer_aaaaaaaaaaaaaaaa", 0, 1, 10, &[1]).unwrap();
    assert_eq!(
        store.store_chunk("transfer_bbbbbbbbbbbbbbbb", 0, 1, 6, &[1]),
        Err(FileReject::Full)
    );
    assert_eq!(store.store.transfer_count(), 1);
    assert!(store.store_chunk("transfer_bbbbbbbbbbbbbbbb", 0, 1, 5, &[1]).is_ok());
    assert_eq!(store.store.reserved_bytes(), 15);
}

#[test]
fn a_failed_commit_gives_the_reservation_back() {
    let mut store = Disk::new(1);
    let id = "transfer_abcdefghijklmnop";
    let found = store.found(id, 0);
    let plan = store.store.store_chunk(id, 0, 1, 30, vec![1, 2, 3], found, T0).unwrap();
    assert!(plan.creating);
    assert_eq!(plan.key, "transfer_abcdefghijklmnop:0");
    assert_eq!(store.store.reserved_bytes(), 30);
    assert_eq!(store.store.chunk_failed(&plan), FileReject::Full);
    assert_eq!(store.store.reserved_bytes(), 0);
    assert_eq!(store.store.transfer_count(), 0);
}

#[test]
fn a_live_transfer_without_its_row_is_not_found() {
    let mut store = Disk::new(1);
    let id = "transfer_abcdefghijklmnop";
    store.store_chunk(id, 0, 2, 30, &[1]).unwrap();
    store.meta.remove(id);
    assert_eq!(store.store_chunk(id, 1, 2, 30, &[1]), Err(FileReject::NotFound));
    store.meta.insert(id.to_string(), None);
    assert_eq!(store.store_chunk(id, 1, 2, 30, &[1]), Err(FileReject::NotFound));
    // A row that cannot be decoded existed, and gives no bytes back.
    assert!(store.delete_transfer(id));
    assert_eq!(store.store.reserved_bytes(), 30);
    assert_eq!(store.store.transfer_count(), 0);
}

#[test]
fn fetch_checks_the_index() {
    let mut store = Disk::new(1);
    let id = "transfer_abcdefghijklmnop";
    store.store_chunk(id, 0, 2, 30, &[1]).unwrap();
    assert_eq!(store.fetch_chunk(id, 2), Err(FileReject::BadRequest));
    assert_eq!(store.fetch_chunk(id, 1), Err(FileReject::NotFound));
    assert_eq!(store.fetch_chunk("transfer_zzzzzzzzzzzzzzzz", 0), Err(FileReject::NotFound));
    assert_eq!(store.fetch_chunk(id, 0).unwrap().total_bytes, 30);
}

#[test]
fn incomplete_transfers_expire_sooner() {
    let mut long = config(1);
    long.file_ttl_ms = 10 * INCOMPLETE_FILE_TTL_MS;
    let mut store = Disk::with(long);
    store.store_chunk("transfer_incomplete_aaaa", 0, 2, 30, &[1]).unwrap();
    store.store_chunk("transfer_complete_bbbbbb", 0, 1, 30, &[1]).unwrap();
    assert_eq!(store.sweep(T0 + INCOMPLETE_FILE_TTL_MS), 0);
    assert_eq!(store.sweep(T0 + INCOMPLETE_FILE_TTL_MS + 1), 1);
    assert!(!store.store.is_live("transfer_incomplete_aaaa"));
    assert!(store.store.is_live("transfer_complete_bbbbbb"));
    assert_eq!(store.sweep(T0 + 10 * INCOMPLETE_FILE_TTL_MS), 0);
    assert_eq!(store.sweep(T0 + 10 * INCOMPLETE_FILE_TTL_MS + 1), 1);
    assert_eq!(store.store.reserved_bytes(), 0);
}

#[test]
fn a_later_chunk_does_not_renew_a_transfer() {
    let mut store = Disk::new(1);
    let id = "transfer_abcdefghijklmnop";
    store.store_chunk_at(id, 0, 2, 30, &[1], T0).unwrap();
    store.store_chunk_at(id, 1, 2, 30, &[1], T0 + 50_000).unwrap();
    assert_eq!(store.meta[id].unwrap().created_at_ms, T0);
    assert_eq!(store.sweep(T0 + 60_001), 1);
}

#[test]
fn totals_are_rebuilt_on_open() {
    let mut store = Disk::new(1);
    store.store_chunk("transfer_aaaaaaaaaaaaaaaa", 0, 1, 10, &[1]).unwrap();
    store.store_chunk("transfer_bbbbbbbbbbbbbbbb", 0, 1, 20, &[1]).unwrap();
    store.meta.insert("transfer_cccccccccccccccc".to_string(), None);
    let mut store = store.reopen();
    assert_eq!(store.store.transfer_count(), 2);
    assert_eq!(store.store.reserved_bytes(), 30);
    assert!(store.store.is_live("transfer_aaaaaaaaaaaaaaaa"));
    assert!(!store.store.is_live("transfer_cccccccccccccccc"));
    assert!(store.delete_transfer("transfer_bbbbbbbbbbbbbbbb"));
    assert_eq!(store.store.reserved_bytes(), 10);
}

#[test]
fn keys_of_chunks() {
    assert_eq!(chunk_key("id", 0), "id:0");
    assert_eq!(chunk_key("id", 4_294_967_295), "id:4294967295");
    assert_eq!(chunk_bounds("id"), ("id:".to_string(), "id;".to_string()));
}

#[test]
fn refusals_in_words() {
    let all = [
        (FileReject::TooLarge, "file_too_large", "file exceeds this relay's size limit"),
        (FileReject::Full, "relay_full", "relay file storage is full"),
        (FileReject::BadRequest, "bad_request", "malformed file transfer request"),
        (FileReject::NotFound, "not_found", "file transfer not found or expired"),
    ];
    for (e, code, message) in all {
        assert_eq!(e.code(), code);
        assert_eq!(e.message(), message);
    }
}

#[test]
fn a_reservation_is_given_back_in_full() {
    let mut limits = config(1);
    limits.max_transfers = 2;
    limits.max_total_file_bytes = 100;
    let mut store = FileStore::new(limits, &Vec::new());
    assert_eq!(store.reserve(60), Ok(()));
    assert_eq!((store.transfer_count(), store.reserved_bytes()), (1, 60));
    assert_eq!(store.reserve(41), Err(FileReject::Full));
    assert_eq!(store.reserve(u64::MAX), Err(FileReject::Full));
    assert_eq!((store.transfer_count(), store.reserved_bytes()), (1, 60));
    assert_eq!(store.reserve(40), Ok(()));
    assert_eq!(store.reserve(0), Err(FileReject::Full));
    store.release(40);
    assert_eq!((store.transfer_count(), store.reserved_bytes()), (1, 60));
}

#[test]
fn a_refused_upload_changes_nothing() {
    let mut store = Disk::new(1);
    let id = "transfer_abcdefghijklmnop";
    assert_eq!(store.store_chunk(id, 0, 1, u64::MAX, &[1]), Err(FileReject::TooLarge));
    assert_eq!(store.store_chunk(id, 0, 1, 1, &[1, 2]), Err(FileReject::BadRequest));
    assert_eq!((store.store.transfer_count(), store.store.reserved_bytes()), (0, 0));
}
