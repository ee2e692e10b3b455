//! The queue store over an in-memory table.

use std::collections::BTreeMap;

use axeno_relay::config::{
    GLOBAL_QUEUE_DISK_CAP_BYTES, MAX_QUEUE_PER_RECIPIENT, PER_MAILBOX_QUEUE_BYTES, QUEUE_TTL_MS,
};
use axeno_relay::protocol::StoredEnvelope;
use axeno_relay::queue_store::{
    key_for, mailbox_bounds, parse_id, read_mailbox, AckLookup, QueueRow, QueueStore, StoredValue,
};
use axeno_relay::table::RowWrite;

const T0: u64 = 1_700_000_000_000;

#[derive(Default)]
struct Table {
    rows: BTreeMap<String, Option<StoredValue>>,
}

impl Table {
    fn of_mailbox(&self, mailbox: &str) -> Vec<QueueRow> {
        let (lo, hi) = mailbox_bounds(mailbox);
        self.rows
            .range(lo..hi)
            .map(|(k, v)| QueueRow { key: k.clone(), value: v.clone() })
            .collect()
    }

    fn all(&self) -> Vec<QueueRow> {
        self.rows.iter().map(|(k, v)| QueueRow { key: k.clone(), value: v.clone() }).collect()
    }
}

struct Disk {
    table: Table,
    store: QueueStore,
    next_id: u128,
}

impl Disk {
    fn new() -> Disk {
        Disk { table: Table::default(), store: QueueStore::open(0, 0), next_id: 1 }
    }

    fn reopen(self) -> Disk {
        let (total, max_seq) = QueueStore::scan_totals(0, 0, &self.table.all());
        Disk { table: self.table, store: QueueStore::open(total, max_seq), next_id: self.next_id }
    }

    fn env(&mut self, to: &str, ct: &str) -> StoredEnvelope {
        self.next_id += 0x1_0000_0001;
        StoredEnvelope {
            id: self.next_id,
            to: to.to_string(),
            envelope_type: "axeno_sealed_signal_v1".to_string(),
            ciphertext: ct.to_string(),
        }
    }

    fn enqueue_at(&mut self, mailbox: &str, env: &StoredEnvelope, now: u64) -> usize {
        let rows = self.table.of_mailbox(mailbox);
        let plan = self.store.enqueue(mailbox, env, rows, now);
        for w in &plan.writes {
            match w {
                RowWrite::Put { key, value } => {
                    self.table.rows.insert(key.clone(), Some(value.clone()));
                }
                RowWrite::Remove { key } => {
                    self.table.rows.remove(key);
                }
            }
        }
        self.store.enqueue_committed(&plan)
    }

    fn enqueue(&mut self, mailbox: &str, env: &StoredEnvelope) -> usize {
        self.enqueue_at(mailbox, env, T0)
    }

    fn flush(&self, mailbox: &str) -> Vec<StoredEnvelope> {
        self.store.flush(mailbox, self.table.of_mailbox(mailbox))
    }

    fn ack(&mut self, mailbox: &str, ids: &[u128]) -> usize {
        let lookups: Vec<AckLookup> = ids
            .iter()
            .map(|id| AckLookup {
                id: *id,
                row: self.table.rows.get(&key_for(mailbox, *id)).cloned(),
            })
            .collect();
        let plan = self.store.ack(mailbox, &lookups);
        for k in &plan.keys {
            self.table.rows.remove(k);
        }
        self.store.removal_committed(&plan)
    }

    fn purge(&mut self, mailbox: &str) -> usize {
        let plan = self.store.purge_mailbox(&self.table.of_mailbox(mailbox));
        for k in &plan.keys {
            self.table.rows.remove(k);
        }
        self.store.removal_committed(&plan)
    }

    fn sweep(&mut self, now: u64) -> usize {
        let plan = self.store.sweep_expired(&self.table.all(), now);
        for k in &plan.keys {
            self.table.rows.remove(k);
        }
        self.store.removal_committed(&plan)
    }

    fn is_empty(&self, mailbox: &str) -> bool {
        self.store.is_empty(&self.table.of_mailbox(mailbox))
    }
}

#[test]
fn enqueue_flush_ack_roundtrip() {
    let mut store = Disk::new();
    let a = store.env("mbx_alice_0000000000", "one");
    let b = store.env("mbx_alice_0000000000", "two");
    store.enqueue("mbx_alice_0000000000", &a);
    store.enqueue("mbx_alice_0000000000", &b);

    let flushed = store.flush("mbx_alice_0000000000");
    assert_eq!(flushed.len(), 2);
    assert_eq!(flushed[0].ciphertext, "one");
    assert_eq!(flushed[1].ciphertext, "two");

    let removed = store.ack("mbx_alice_0000000000", &[a.id]);
    assert_eq!(removed, 1);
    let after = store.flush("mbx_alice_0000000000");
    assert_eq!(after.len(), 1);
    assert_eq!(after[0].ciphertext, "two");
}

#[test]
fn mailboxes_are_isolated() {
    let mut store = Disk::new();
    let a = store.env("mbx_alice_0000000000", "a");
    let b = store.env("mbx_bob_00000000000", "b");
    store.enqueue("mbx_alice_0000000000", &a);
    store.enqueue("mbx_bob_00000000000", &b);
    assert_eq!(store.flush("mbx_alice_0000000000").len(), 1);
    assert_eq!(store.flush("mbx_bob_00000000000").len(), 1);
    assert!(!store.is_empty("mbx_alice_0000000000"));
    store.purge("mbx_alice_0000000000");
    assert!(store.is_empty("mbx_alice_0000000000"));
    assert_eq!(store.flush("mbx_bob_00000000000").len(), 1);
}

#[test]
fn count_limit_evicts_oldest() {
    let mut store = Disk::new();
    let mbx = "mbx_cap_000000000000";
    let mut first_id = None;
    for i in 0..(MAX_QUEUE_PER_RECIPIENT + 5) {
        let e = store.env(mbx, &format!("m{i}"));
        if i == 0 {
            first_id = Some(e.id);
        }
        store.enqueue(mbx, &e);
    }
    let flushed = store.flush(mbx);
    assert_eq!(flushed.len(), MAX_QUEUE_PER_RECIPIENT);
    assert!(!flushed.iter().any(|e| Some(e.id) == first_id));
    assert_eq!(flushed[0].ciphertext, "m5");
}

#[test]
fn byte_total_tracks_and_persists_across_reopen() {
    let mut store = Disk::new();
    let e = store.env("mbx_t_0000000000000", "abcde");
    store.enqueue("mbx_t_0000000000000", &e);
    assert_eq!(store.store.total_bytes(), 5);
    let store = store.reopen();
    assert_eq!(store.store.total_bytes(), 5);
    assert_eq!(store.flush("mbx_t_0000000000000").len(), 1);
}

#[test]
fn byte_limit_evicts_oldest() {
    let mut store = Disk::new();
    let mbx = "mbx_bytes_0000000000";
    let half = "x".repeat(PER_MAILBOX_QUEUE_BYTES / 2);
    let a = store.env(mbx, &half);
    let b = store.env(mbx, &half);
    let c = store.env(mbx, "c");
    assert_eq!(store.enqueue(mbx, &a), 0);
    assert_eq!(store.enqueue(mbx, &b), 0);
    assert_eq!(store.enqueue(mbx, &c), 1);
    let left = store.flush(mbx);
    assert_eq!(left.len(), 2);
    assert_eq!(left[0].id, b.id);
    assert_eq!(left[1].id, c.id);
    assert_eq!(store.store.total_bytes(), PER_MAILBOX_QUEUE_BYTES / 2 + 1);
}

#[test]
fn envelope_over_the_budget_takes_the_whole_mailbox() {
    let mut store = Disk::new();
    let mbx = "mbx_big_000000000000";
    let a = store.env(mbx, "a");
    let b = store.env(mbx, "b");
    let huge = "y".repeat(PER_MAILBOX_QUEUE_BYTES + 1);
    let c = store.env(mbx, &huge);
    store.enqueue(mbx, &a);
    store.enqueue(mbx, &b);
    assert_eq!(store.enqueue(mbx, &c), 2);
    assert_eq!(store.flush(mbx).len(), 1);
}

#[test]
fn order_survives_a_restart() {
    let mut store = Disk::new();
    let mbx = "mbx_order_0000000000";
    let a = store.env(mbx, "first");
    let b = store.env(mbx, "second");
    store.enqueue(mbx, &a);
    store.enqueue(mbx, &b);
    let mut store = store.reopen();
    // A smaller identifier comes first in the table and last in the queue.
    store.next_id = 0;
    let c = StoredEnvelope { id: 7, ..store.env(mbx, "third") };
    store.enqueue(mbx, &c);
    let texts: Vec<String> = store.flush(mbx).into_iter().map(|e| e.ciphertext).collect();
    assert_eq!(texts, vec!["first", "second", "third"]);
}

#[test]
fn equal_sequence_numbers_stay_in_table_order() {
    let value = |c: &str, s: u64| StoredValue {
        t: "t".to_string(),
        c: c.to_string(),
        q: T0,
        s,
    };
    let mbx = "mbx_ties_00000000000";
    let rows = vec![
        QueueRow { key: key_for(mbx, 1), value: Some(value("late", 9)) },
        QueueRow { key: key_for(mbx, 2), value: Some(value("x", 0)) },
        QueueRow { key: key_for(mbx, 3), value: Some(value("y", 0)) },
    ];
    let texts: Vec<String> = read_mailbox(rows).into_iter().map(|e| e.value.c).collect();
    assert_eq!(texts, vec!["x", "y", "late"]);
}

#[test]
fn rows_that_cannot_be_read_are_passed_over() {
    let mbx = "mbx_bad_000000000000";
    let value = StoredValue { t: "t".to_string(), c: "abc".to_string(), q: T0, s: 4 };
    let rows = vec![
        QueueRow { key: format!("{mbx}:not-an-id"), value: Some(value.clone()) },
        QueueRow { key: key_for(mbx, 5), value: None },
        QueueRow { key: key_for(mbx, 6), value: Some(value) },
    ];
    let (total, max_seq) = QueueStore::scan_totals(0, 0, &rows);
    assert_eq!((total, max_seq), (6, 4));
    let entries = read_mailbox(rows);
    assert_eq!(entries.len(), 1);
    assert_eq!(entries[0].id, 6);
}

#[test]
fn keys_and_ranges() {
    let key = key_for("mbx_a", 0x0123_4567_89ab_cdef_0123_4567_89ab_cdef);
    assert_eq!(key, "mbx_a:01234567-89ab-cdef-0123-456789abcdef");
    assert_eq!(parse_id(&key), Some(0x0123_4567_89ab_cdef_0123_4567_89ab_cdef));
    assert_eq!(parse_id("mbx_a"), None);
    assert_eq!(parse_id("mbx_a:zz"), None);
    let (lo, hi) = mailbox_bounds("mbx_a");
    assert_eq!((lo.as_str(), hi.as_str()), ("mbx_a:", "mbx_a;"));
    assert!(lo <= key && key < hi);
    let longer = key_for("mbx_ab", 1);
    assert!(!(lo <= longer && longer < hi));
}

#[test]
fn ack_counts_each_envelope_once() {
    let mut store = Disk::new();
    let mbx = "mbx_ack_000000000000";
    let a = store.env(mbx, "hello");
    let b = store.env(mbx, "you");
    store.enqueue(mbx, &a);
    store.enqueue(mbx, &b);
    assert_eq!(store.store.total_bytes(), 8);
    assert_eq!(store.ack(mbx, &[]), 0);
    assert_eq!(store.ack(mbx, &[a.id, a.id, 99]), 1);
    assert_eq!(store.store.total_bytes(), 3);
    assert_eq!(store.ack(mbx, &[a.id]), 0);
    assert_eq!(store.ack("mbx_other_0000000000", &[b.id]), 0);
    assert_eq!(store.flush(mbx).len(), 1);
}

#[test]
fn an_undecodable_row_is_acked_without_bytes() {
    let mut store = Disk::new();
    let mbx = "mbx_und_000000000000";
    store.table.rows.insert(key_for(mbx, 3), None);
    assert!(!store.is_empty(mbx));
    assert_eq!(store.ack(mbx, &[3]), 1);
    assert_eq!(store.store.total_bytes(), 0);
    assert!(store.is_empty(mbx));
}

#[test]
fn sweep_removes_what_is_older_than_its_lifetime() {
    let mut store = Disk::new();
    let mbx = "mbx_ttl_000000000000";
    let a = store.env(mbx, "old");
    let b = store.env(mbx, "new");
    store.enqueue_at(mbx, &a, T0);
    store.enqueue_at(mbx, &b, T0 + 10);
    assert_eq!(store.sweep(T0 + QUEUE_TTL_MS), 0);
    assert_eq!(store.sweep(T0 + QUEUE_TTL_MS + 1), 1);
    assert_eq!(store.store.total_bytes(), 3);
    assert_eq!(store.flush(mbx)[0].id, b.id);
}

#[test]
fn global_backstop() {
    let cap = GLOBAL_QUEUE_DISK_CAP_BYTES as usize;
    let store = QueueStore::open(cap - 10, 0);
    assert!(!store.would_exceed_global(10));
    assert!(store.would_exceed_global(11));
    assert!(QueueStore::open(usize::MAX, 0).would_exceed_global(1));
}

#[test]
fn a_replaced_envelope_is_counted_no_more() {
    let mut disk = Disk::new();
    let mbx = "mbx_alice_0000000000";
    let first = disk.env(mbx, "abc");
    let second = disk.env(mbx, "defgh");
    disk.enqueue(mbx, &first);
    disk.enqueue(mbx, &second);
    let mut again = first.clone();
    again.ciphertext = "z".to_string();
    assert_eq!(disk.enqueue(mbx, &again), 0);
    assert_eq!(disk.store.total_bytes(), 6);
    let flushed = disk.flush(mbx);
    assert_eq!(flushed.len(), 2);
    assert_eq!(flushed[0].id, second.id);
    assert_eq!(flushed[1], again);
    let disk = disk.reopen();
    assert_eq!(disk.store.total_bytes(), 6);
}

#[test]
fn a_replaced_envelope_that_is_evicted_is_counted_once() {
    let mut disk = Disk::new();
    let mbx = "mbx_alice_0000000000";
    let first = disk.env(mbx, "abc");
    disk.enqueue(mbx, &first);
    for _ in 1..MAX_QUEUE_PER_RECIPIENT {
        let e = disk.env(mbx, "x");
        disk.enqueue(mbx, &e);
    }
    assert_eq!(disk.enqueue(mbx, &first), 1);
    assert_eq!(disk.store.total_bytes(), MAX_QUEUE_PER_RECIPIENT - 1 + 3);
    assert_eq!(disk.flush(mbx).len(), MAX_QUEUE_PER_RECIPIENT);
    assert_eq!(disk.reopen().store.total_bytes(), MAX_QUEUE_PER_RECIPIENT - 1 + 3);
}
