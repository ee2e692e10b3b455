//! Mailbox records and invite bundles, live and durable.

use std::collections::BTreeMap;

use axeno_relay::config::{
    FileConfig, BUNDLE_PRUNE_MIN_INTERVAL_MS, MAILBOX_ACTIVITY_GRANULARITY_MS, MAILBOX_IDLE_TTL_MS,
    MAX_CONNECTIONS, MAX_DELIVERY_TOKENS_PER_MAILBOX, MAX_MAILBOXES, MAX_SENDS_PER_DEST_PER_WINDOW,
    RATE_WINDOW_MS,
};
use axeno_relay::meta_store::{AuthRow, BundleRow, MetaStore};
use axeno_relay::state::{round_activity, AppState, HostedBundle, MailboxAuth};
use axeno_relay::table::{keys_written, RowWrite};

const T0: u64 = 1_700_000_000_000;

#[derive(Default)]
struct Disk {
    auth: BTreeMap<String, MailboxAuth>,
    bundles: BTreeMap<String, HostedBundle>,
}

impl Disk {
    fn auth_rows(&self) -> Vec<AuthRow> {
        self.auth
            .iter()
            .map(|(k, v)| AuthRow { key: k.clone(), value: Some(v.clone()) })
            .collect()
    }

    fn bundle_rows(&self) -> Vec<BundleRow> {
        self.bundles
            .iter()
            .map(|(k, v)| BundleRow { key: k.clone(), value: Some(v.clone()) })
            .collect()
    }

    fn write_auth(&mut self, writes: Vec<RowWrite<MailboxAuth>>) {
        for w in writes {
            match w {
                RowWrite::Put { key, value } => {
                    self.auth.insert(key, value);
                }
                RowWrite::Remove { key } => {
                    self.auth.remove(&key);
                }
            }
        }
    }

    fn write_bundles(&mut self, writes: Vec<RowWrite<HostedBundle>>) {
        for w in writes {
            match w {
                RowWrite::Put { key, value } => {
                    self.bundles.insert(key, value);
                }
                RowWrite::Remove { key } => {
                    self.bundles.remove(&key);
                }
            }
        }
    }

    fn flush_auth(&mut self, items: Vec<(String, Option<MailboxAuth>)>) {
        self.write_auth(MetaStore::flush_auth(items));
    }

    fn flush_bundles(&mut self, items: Vec<(String, Option<HostedBundle>)>) {
        self.write_bundles(MetaStore::flush_bundles(items));
    }
}

fn auth(hash: &str) -> MailboxAuth {
    MailboxAuth::new(hash.to_string(), format!("{hash}_delivery"))
}

fn limits() -> FileConfig {
    FileConfig::from_env(None, None, None, None)
}

fn state(auth: Vec<(String, MailboxAuth)>, bundles: Vec<HostedBundle>) -> AppState {
    AppState::build(auth, bundles, limits(), "root".to_string(), T0)
}

fn bundle(id: &str, ct: &str, expires: u64) -> HostedBundle {
    HostedBundle {
        id: id.to_string(),
        ciphertext: ct.to_string(),
        created_at_ms: 1,
        expires_at_ms: expires,
    }
}

#[test]
fn auth_upsert_delete_roundtrip() {
    let mut store = Disk::default();
    assert!(MetaStore::auth_is_empty(&store.auth_rows()));
    store.flush_auth(vec![("mbx_a".to_string(), Some(auth("h1")))]);
    store.flush_auth(vec![("mbx_b".to_string(), Some(auth("h2")))]);
    assert!(!MetaStore::auth_is_empty(&store.auth_rows()));
    let loaded = MetaStore::load_all_auth(store.auth_rows());
    assert_eq!(loaded.len(), 2);

    store.flush_auth(vec![("mbx_a".to_string(), None)]);
    let loaded = MetaStore::load_all_auth(store.auth_rows());
    assert_eq!(loaded.len(), 1);
    assert_eq!(loaded[0].0, "mbx_b");
}

#[test]
fn auth_persists_across_reopen() {
    let mut store = Disk::default();
    store.flush_auth(vec![("mbx_x".to_string(), Some(auth("hx")))]);
    let reopened = Disk { auth: store.auth, bundles: store.bundles };
    let loaded = MetaStore::load_all_auth(reopened.auth_rows());
    assert_eq!(loaded.len(), 1);
    assert_eq!(loaded[0].1.receive_auth_hash, "hx");
}

#[test]
fn bundle_upsert_delete_roundtrip() {
    let mut store = Disk::default();
    let bundle = HostedBundle {
        id: "bun_1".to_string(),
        ciphertext: "ct".to_string(),
        created_at_ms: 1,
        expires_at_ms: 2,
    };
    store.flush_bundles(vec![("bun_1".to_string(), Some(bundle))]);
    assert_eq!(MetaStore::load_all_bundles(store.bundle_rows()).len(), 1);
    store.flush_bundles(vec![("bun_1".to_string(), None)]);
    assert!(MetaStore::bundles_is_empty(&store.bundle_rows()));
}

#[test]
fn rows_that_do_not_decode_are_passed_over() {
    let rows = vec![
        AuthRow { key: "a".to_string(), value: None },
        AuthRow { key: "b".to_string(), value: Some(auth("h")) },
    ];
    let loaded = MetaStore::load_all_auth(rows);
    assert_eq!(loaded.len(), 1);
    assert_eq!(loaded[0].0, "b");
    let rows = vec![
        BundleRow { key: "a".to_string(), value: None },
        BundleRow { key: "b".to_string(), value: Some(bundle("b", "x", 5)) },
    ];
    assert_eq!(MetaStore::load_all_bundles(rows), vec![bundle("b", "x", 5)]);
}

#[test]
fn a_new_record() {
    let a = MailboxAuth::new_at("r".to_string(), "d".to_string(), T0);
    assert_eq!(a.receive_auth_hash, "r");
    assert_eq!(a.delivery_token_hash, "d");
    assert_eq!(a.delivery_token_hashes, vec!["d"]);
    assert_eq!(a.last_active_ms, 1_699_920_000_000);
    assert_eq!(a.last_active_ms % MAILBOX_ACTIVITY_GRANULARITY_MS, 0);
    assert_eq!(round_activity(MAILBOX_ACTIVITY_GRANULARITY_MS - 1), 0);
    assert_eq!(a.duplicate(), a);
    let now = MailboxAuth::new("r".to_string(), "d".to_string());
    assert_eq!(now.last_active_ms % MAILBOX_ACTIVITY_GRANULARITY_MS, 0);
    assert!(now.last_active_ms > 1_600_000_000_000);
}

#[test]
fn delivery_hashes() {
    let mut a = MailboxAuth::new_at("r".to_string(), "d0".to_string(), T0);
    assert!(a.accepts_delivery_hash("d0"));
    assert!(!a.accepts_delivery_hash("d1"));
    assert!(!a.ensure_delivery_hash("d0".to_string()));
    assert!(a.ensure_delivery_hash("d1".to_string()));
    assert_eq!(a.delivery_token_hashes, vec!["d0", "d1"]);
    assert_eq!(a.delivery_token_hash, "d0");
    for i in 2..MAX_DELIVERY_TOKENS_PER_MAILBOX {
        assert!(a.ensure_delivery_hash(format!("d{i}")));
    }
    assert_eq!(a.delivery_token_hashes.len(), MAX_DELIVERY_TOKENS_PER_MAILBOX);
    // The oldest of a full list makes room; the primary hash stays.
    assert!(a.ensure_delivery_hash("new".to_string()));
    assert_eq!(a.delivery_token_hashes.len(), MAX_DELIVERY_TOKENS_PER_MAILBOX);
    assert_eq!(a.delivery_token_hashes[0], "d1");
    assert_eq!(a.delivery_token_hashes[MAX_DELIVERY_TOKENS_PER_MAILBOX - 1], "new");
    assert!(a.accepts_delivery_hash("d0"));

    a.replace_delivery_hashes(vec!["x".to_string(), "y".to_string(), "x".to_string()]);
    assert_eq!(a.delivery_token_hashes, vec!["x", "y"]);
    assert_eq!(a.delivery_token_hash, "x");
    assert!(!a.accepts_delivery_hash("d0"));
    let many: Vec<String> = (0..100).map(|i| format!("h{i}")).collect();
    a.replace_delivery_hashes(many);
    assert_eq!(a.delivery_token_hashes.len(), MAX_DELIVERY_TOKENS_PER_MAILBOX);
    a.replace_delivery_hashes(Vec::new());
    assert_eq!(a.delivery_token_hash, "");
    assert!(a.ensure_delivery_hash("z".to_string()));
    assert_eq!(a.delivery_token_hash, "z");
}

#[test]
fn build_counts_what_it_loads() {
    let mut old = auth("h");
    old.last_active_ms = 0;
    let mut known = auth("h");
    known.last_active_ms = 77;
    let s = state(
        vec![("mbx_old".to_string(), old), ("mbx_known".to_string(), known)],
        vec![bundle("b1", "abc", 9), bundle("b2", "de", 9)],
    );
    assert_eq!(s.mailbox_count, 2);
    assert_eq!(s.total_bundle_bytes, 5);
    assert_eq!(s.mailbox_auth.get("mbx_old").unwrap().last_active_ms, round_activity(T0));
    assert_eq!(s.mailbox_auth.get("mbx_known").unwrap().last_active_ms, 77);
    assert_eq!(s.bundles.len(), 2);
    assert!(s.is_clean());
    assert_eq!(s.conn_count, 0);
}

#[test]
fn a_flush_brings_the_tables_up_to_date() {
    let mut disk = Disk::default();
    let mut s = state(vec![("mbx_gone".to_string(), auth("g"))], vec![bundle("b", "ct", 5)]);
    disk.auth.insert("mbx_gone".to_string(), auth("g"));
    s.mailbox_auth.insert("mbx_new".to_string(), auth("n"));
    s.mark_auth_dirty("mbx_new");
    s.mailbox_auth.remove("mbx_gone");
    s.mark_auth_dirty("mbx_gone");
    s.mark_auth_dirty("mbx_gone");
    s.mark_bundle_dirty("b");
    assert!(!s.is_clean());
    let (auth_writes, bundle_writes) = s.flush_dirty_meta();
    assert_eq!(auth_writes.len(), 2);
    disk.write_auth(auth_writes);
    disk.write_bundles(bundle_writes);
    assert!(s.is_clean());
    assert_eq!(disk.auth.len(), 1);
    assert_eq!(disk.auth["mbx_new"].receive_auth_hash, "n");
    assert_eq!(disk.bundles["b"].ciphertext, "ct");
    let (again, _) = s.flush_dirty_meta();
    assert_eq!(again.len(), 0);
}

#[test]
fn a_failed_flush_is_tried_again() {
    let mut disk = Disk::default();
    let mut s = state(Vec::new(), Vec::new());
    s.mailbox_auth.insert("mbx_new".to_string(), auth("n"));
    s.mark_auth_dirty("mbx_new");
    s.mark_auth_dirty("mbx_gone");
    s.mark_bundle_dirty("b");
    let (auth_writes, bundle_writes) = s.flush_dirty_meta();
    let mut keys = keys_written(&auth_writes);
    keys.sort();
    assert_eq!(keys, vec!["mbx_gone".to_string(), "mbx_new".to_string()]);
    s.mark_auth_dirty("mbx_later");
    s.flush_failed(&keys, &keys_written(&bundle_writes));
    assert_eq!(s.dirty_auth.len(), 3);
    assert_eq!(s.dirty_bundles.len(), 1);
    let (auth_writes, bundle_writes) = s.flush_dirty_meta();
    assert_eq!((auth_writes.len(), bundle_writes.len()), (3, 1));
    disk.write_auth(auth_writes);
    assert_eq!(disk.auth["mbx_new"].receive_auth_hash, "n");
    assert_eq!(disk.auth.len(), 1);
}

#[test]
fn mailbox_slots_are_capped() {
    let mut s = state(Vec::new(), Vec::new());
    s.mailbox_count = MAX_MAILBOXES - 1;
    assert!(s.reserve_mailbox_slot());
    assert!(!s.reserve_mailbox_slot());
    assert_eq!(s.mailbox_count, MAX_MAILBOXES);
}

#[test]
fn sends_to_a_destination_are_capped_in_a_window() {
    let mut s = state(Vec::new(), Vec::new());
    for i in 0..MAX_SENDS_PER_DEST_PER_WINDOW {
        assert!(s.allow_dest_send("mbx", T0 + i as u64));
    }
    assert!(!s.allow_dest_send("mbx", T0 + RATE_WINDOW_MS));
    assert!(s.allow_dest_send("other", T0 + RATE_WINDOW_MS));
    assert!(s.allow_dest_send("mbx", T0 + RATE_WINDOW_MS + 1));
    assert_eq!(*s.send_rate.get("mbx").unwrap(), (T0 + RATE_WINDOW_MS + 1, 1));
}

#[test]
fn expired_bundles_are_pruned_once_in_a_while() {
    let mut s = state(
        Vec::new(),
        vec![bundle("a", "aaa", T0), bundle("b", "bb", T0 + 1), bundle("c", "c", T0 + 5)],
    );
    s.prune_expired_bundles(T0);
    assert_eq!(s.total_bundle_bytes, 3);
    assert!(s.bundles.get("a").is_none());
    assert!(s.dirty_bundles.get("a").is_some());
    // Too soon for another scan.
    s.prune_expired_bundles(T0 + BUNDLE_PRUNE_MIN_INTERVAL_MS - 1);
    assert_eq!(s.bundles.len(), 2);
    s.prune_expired_bundles(T0 + BUNDLE_PRUNE_MIN_INTERVAL_MS);
    assert_eq!(s.bundles.len(), 0);
    assert_eq!(s.total_bundle_bytes, 0);
}

#[test]
fn only_abandoned_mailboxes_are_collected() {
    let record = |last: u64| {
        let mut a = auth("h");
        a.last_active_ms = last;
        a
    };
    let mut s = state(
        vec![
            ("mbx_idle".to_string(), record(T0 - MAILBOX_IDLE_TTL_MS - 1)),
            ("mbx_queued".to_string(), record(1)),
            ("mbx_online".to_string(), record(1)),
            ("mbx_fresh".to_string(), record(T0 - MAILBOX_IDLE_TTL_MS)),
        ],
        Vec::new(),
    );
    s.online.insert("mbx_online".to_string(), 4);
    s.send_rate.insert("mbx_idle".to_string(), (T0, 3));
    let mut idle = s.idle_mailboxes(T0);
    idle.sort();
    assert_eq!(idle, vec!["mbx_idle", "mbx_online", "mbx_queued"]);
    let candidates: Vec<(String, bool)> =
        idle.into_iter().map(|rid| { let empty = rid != "mbx_queued"; (rid, empty) }).collect();
    let taken = s.gc_idle_mailboxes(&candidates);
    assert_eq!(taken.stale, vec!["mbx_idle"]);
    assert_eq!(taken.removed, 1);
    assert_eq!(s.mailbox_count, 3);
    assert!(s.mailbox_auth.get("mbx_idle").is_none());
    assert!(s.send_rate.get("mbx_idle").is_none());
    assert!(s.dirty_auth.get("mbx_idle").is_some());
    assert!(s.mailbox_auth.get("mbx_queued").is_some());
    assert!(s.mailbox_auth.get("mbx_online").is_some());
}

#[test]
fn connections_are_capped() {
    let mut s = state(Vec::new(), Vec::new());
    assert!(s.open_connection());
    s.conn_count = MAX_CONNECTIONS;
    assert!(!s.open_connection());
    assert_eq!(s.conn_count, MAX_CONNECTIONS);
    s.close_connection();
    assert!(s.open_connection());
}
