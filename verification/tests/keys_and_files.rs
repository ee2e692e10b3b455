//! The state file, the keys at rest, and the small formats.

use axeno_relay::dotenv::{load_dotenv, new_variables, parse_line};
use axeno_relay::persistence::{
    decrypt_disk_crypto, derive_key_from_env, disk_state_path, encrypt_disk_crypto, fresh_secret,
    join_path, legacy_auth_batch, legacy_bundle_batch, prune_disk_state, relay_encryption_key,
    resolve_secret, seal_with, secret_in_file, secret_of, snapshot_disk_state, temp_file_name,
    temp_file_name_for, trust_root_text, DiskCrypto, DiskState, EncryptedCryptoBlob, KeyError,
    KeySource, SecretPlan,
};
use axeno_relay::protocol::StoredEnvelope;
use axeno_relay::state::{HostedBundle, MailboxAuth};
use axeno_relay::tor::{
    announces, hostname_step, onion_address, torrc_content, HostnameStep, HOSTNAME_TRIES,
};

const T0: u64 = 1_700_000_000_000;

fn record(primary: &str, hashes: &[&str]) -> MailboxAuth {
    MailboxAuth {
        receive_auth_hash: "r".to_string(),
        delivery_token_hash: primary.to_string(),
        delivery_token_hashes: hashes.iter().map(|h| h.to_string()).collect(),
        last_active_ms: 1,
    }
}

fn bundle(id: &str, expires: u64) -> HostedBundle {
    HostedBundle {
        id: id.to_string(),
        ciphertext: "ct".to_string(),
        created_at_ms: 1,
        expires_at_ms: expires,
    }
}

#[test]
fn keys_survive_encryption() {
    let message = b"serialized private keys".to_vec();
    let blob = encrypt_disk_crypto(&message, "a secret").unwrap();
    assert_eq!(blob.salt.len(), 32);
    assert_eq!(blob.nonce.len(), 24);
    assert_eq!(blob.ciphertext.len(), 2 * (message.len() + 16));
    assert_eq!(decrypt_disk_crypto(&blob, "a secret"), Ok(message.clone()));
    assert_eq!(decrypt_disk_crypto(&blob, "another"), Err(KeyError::Decrypt));
    let again = encrypt_disk_crypto(&message, "a secret").unwrap();
    assert_ne!(again, blob);
}

#[test]
fn sealing_is_determined_by_salt_and_nonce() {
    let salt = [7u8; 16];
    let nonce = [9u8; 12];
    let a = seal_with(b"m", "secret", &salt, &nonce).unwrap();
    let b = seal_with(b"m", "secret", &salt, &nonce).unwrap();
    assert_eq!(a, b);
    assert_eq!(a.salt, "07".repeat(16));
    assert_eq!(a.nonce, "09".repeat(12));
    assert_ne!(a.ciphertext, seal_with(b"n", "secret", &salt, &nonce).unwrap().ciphertext);
    assert_eq!(seal_with(b"m", "secret", &[1, 2, 3], &nonce), Err(KeyError::Derivation));
}

#[test]
fn derivation_depends_on_secret_and_salt() {
    let a = derive_key_from_env("one", &[1u8; 16]).unwrap();
    assert_eq!(a.len(), 32);
    assert_eq!(derive_key_from_env("one", &[1u8; 16]).unwrap(), a);
    assert_ne!(derive_key_from_env("two", &[1u8; 16]).unwrap(), a);
    assert_ne!(derive_key_from_env("one", &[2u8; 16]).unwrap(), a);
    assert_eq!(derive_key_from_env("one", &[1u8; 7]), Err(KeyError::Derivation));
}

#[test]
fn damaged_blobs() {
    let good = seal_with(b"message", "secret", &[7u8; 16], &[9u8; 12]).unwrap();
    let with = |salt: &str, nonce: &str, ciphertext: &str| EncryptedCryptoBlob {
        salt: salt.to_string(),
        nonce: nonce.to_string(),
        ciphertext: ciphertext.to_string(),
    };
    let open = |b: EncryptedCryptoBlob| decrypt_disk_crypto(&b, "secret");
    assert_eq!(open(with("zz", &good.nonce, &good.ciphertext)), Err(KeyError::Encoding));
    assert_eq!(open(with("0011", &good.nonce, &good.ciphertext)), Err(KeyError::Derivation));
    assert_eq!(open(with(&good.salt, "0g", &good.ciphertext)), Err(KeyError::Encoding));
    assert_eq!(open(with(&good.salt, "0011", &good.ciphertext)), Err(KeyError::NonceLength));
    assert_eq!(open(with(&good.salt, &good.nonce, "abc")), Err(KeyError::Encoding));
    assert_eq!(open(with(&good.salt, &good.nonce, "00")), Err(KeyError::Decrypt));
    assert_eq!(
        open(with(&good.salt.to_uppercase(), &good.nonce, &good.ciphertext.to_uppercase())),
        Ok(b"message".to_vec())
    );
    assert_eq!(KeyError::NonceLength.message(), "invalid nonce length");
    assert_eq!(
        KeyError::Decrypt.message(),
        "failed to decrypt relay keys — is AXENO_KEY correct?"
    );
}

#[test]
fn the_secret_comes_from_the_first_source() {
    assert_eq!(
        relay_encryption_key(Some("k"), Some("f")),
        KeySource::Literal { secret: "k".to_string() }
    );
    assert_eq!(
        relay_encryption_key(Some(""), Some("f")),
        KeySource::File { path: "f".to_string() }
    );
    assert_eq!(relay_encryption_key(None, Some("")), KeySource::Local);
    assert_eq!(relay_encryption_key(None, None), KeySource::Local);
    assert_eq!(secret_in_file("  s3cret \n"), Some("s3cret".to_string()));
    assert_eq!(secret_in_file(" \n\t"), None);
    assert_eq!(secret_of(Some(vec![0x00, 0xff, 0x1a])), Some("00ff1a".to_string()));
    assert_eq!(secret_of(Some(Vec::new())), Some(String::new()));
    assert_eq!(secret_of(None), None);
    let fresh = fresh_secret().unwrap();
    assert_eq!(fresh.len(), 64);
    assert!(fresh.chars().all(|c| c.is_ascii_hexdigit()));
    assert_ne!(fresh, fresh_secret().unwrap());
}

#[test]
fn paths_and_names() {
    assert_eq!(disk_state_path("data"), "data/relay-state.json");
    assert_eq!(disk_state_path("data/"), "data/relay-state.json");
    assert_eq!(disk_state_path(""), "relay-state.json");
    assert_eq!(join_path("/srv", "relay-key"), "/srv/relay-key");
    assert_eq!(
        temp_file_name_for("relay-state.json", 0xab),
        "relay-state.json.00000000-0000-0000-0000-0000000000ab.tmp"
    );
    let name = temp_file_name("f");
    assert_eq!(name.len(), 1 + 1 + 36 + 4);
    assert_ne!(name, temp_file_name("f"));
}

#[test]
fn only_encrypted_keys_are_written() {
    let blob = seal_with(b"m", "s", &[7u8; 16], &[9u8; 12]).unwrap();
    let disk = DiskState::crypto_only(blob.clone());
    assert!(disk.crypto.is_none());
    assert_eq!(disk.encrypted_crypto, Some(blob.clone()));
    assert!(disk.mailbox_auth.is_empty() && disk.queues.is_empty() && disk.bundles.is_empty());
    let snapshot = snapshot_disk_state(
        vec![("a".to_string(), record("p", &[]))],
        Vec::new(),
        vec![bundle("old", T0), bundle("new", T0 + 1)],
        blob.clone(),
        T0,
    );
    assert!(snapshot.crypto.is_none());
    assert_eq!(snapshot.encrypted_crypto, Some(blob));
    assert_eq!(snapshot.bundles, vec![bundle("new", T0 + 1)]);
    assert_eq!(snapshot.mailbox_auth[0].1.delivery_token_hashes, vec!["p"]);
}

#[test]
fn older_layouts_are_taken_over() {
    let env = |id: u128| StoredEnvelope {
        id,
        to: "m".to_string(),
        envelope_type: "t".to_string(),
        ciphertext: "c".to_string(),
    };
    let disk = DiskState {
        crypto: Some(DiskCrypto {
            trust_root_public: vec![1],
            trust_root_private: vec![2],
            server_signing_public: vec![3],
            server_signing_private: vec![4],
        }),
        encrypted_crypto: None,
        mailbox_auth: vec![
            ("a".to_string(), record("p", &[])),
            ("b".to_string(), record("p", &["q"])),
            ("c".to_string(), record("", &[])),
        ],
        queues: vec![("m".to_string(), vec![env(1), env(2)]), ("n".to_string(), vec![env(3)])],
        bundles: vec![bundle("x", T0), bundle("y", T0 + 1)],
    };
    assert!(disk.has_plaintext_keys());
    assert_eq!(disk.legacy_queued(), 3);
    let pruned = prune_disk_state(disk.clone(), T0);
    assert_eq!(pruned.crypto, disk.crypto);
    assert_eq!(pruned.queues, disk.queues);
    assert_eq!(pruned.bundles, vec![bundle("y", T0 + 1)]);
    let hashes: Vec<Vec<String>> =
        pruned.mailbox_auth.iter().map(|(_, a)| a.delivery_token_hashes.clone()).collect();
    assert_eq!(hashes, vec![vec!["p".to_string()], vec!["q".to_string()], vec![]]);

    assert!(legacy_auth_batch(false, pruned.mailbox_auth.clone()).is_empty());
    let batch = legacy_auth_batch(true, pruned.mailbox_auth.clone());
    assert_eq!(batch.len(), 3);
    assert_eq!(batch[1].0, "b");
    assert_eq!(batch[1].1.as_ref().unwrap().delivery_token_hashes, vec!["q"]);
    assert!(legacy_bundle_batch(false, pruned.bundles.clone()).is_empty());
    assert_eq!(
        legacy_bundle_batch(true, pruned.bundles),
        vec![("y".to_string(), Some(bundle("y", T0 + 1)))]
    );
    let empty = DiskState::empty();
    assert!(!empty.has_plaintext_keys());
    assert_eq!(empty.legacy_queued(), 0);
}

#[test]
fn environment_files() {
    let text = "# comment\n\nA=1\n  export B = two words \r\nC=\"quoted # value\"\nD='x'\nnothing\n=v\nE=\nF=\"\nG='a\"\nH=a=b";
    let got = load_dotenv(text);
    let want = [
        ("A", "1"),
        ("B", "two words"),
        ("C", "quoted # value"),
        ("D", "x"),
        ("E", ""),
        ("F", "\""),
        ("G", "'a\""),
        ("H", "a=b"),
    ];
    assert_eq!(got.len(), want.len());
    for (g, w) in got.iter().zip(want) {
        assert_eq!((g.0.as_str(), g.1.as_str()), w);
    }
    assert_eq!(parse_line("export X=1"), Some(("X".to_string(), "1".to_string())));
    assert_eq!(parse_line("exportX=1"), Some(("exportX".to_string(), "1".to_string())));
    assert_eq!(load_dotenv("").len(), 0);
}

#[test]
fn hidden_service() {
    assert_eq!(
        torrc_content("/d/tor", "/d/tor/hs", 8787, None),
        "DataDirectory /d/tor\nHiddenServiceDir /d/tor/hs\nHiddenServiceVersion 3\n\
         HiddenServicePort 80 127.0.0.1:8787\nSocksPort 0\nLog notice stdout\n"
    );
    assert!(torrc_content("t", "h", 1, Some(9150)).contains("\nSocksPort 127.0.0.1:9150\n"));
    assert_eq!(onion_address(" abc.onion\n"), "ws://abc.onion/ws");
    assert!(announces(false, "[notice] Bootstrapped 100% (done): Done"));
    assert!(!announces(true, "[notice] Bootstrapped 100% (done): Done"));
    assert!(!announces(false, "[notice] Bootstrapped 10% (conn)"));
}

#[test]
fn variables_that_are_set_are_left_alone() {
    let text = "# A=no\n\nexport A=\"x y\"\nB='z'\nC=new\n=q\nnoequals\nD = 1=2 \nA=again\n";
    let got = new_variables(text, &vec!["C".to_string()]);
    let pairs: Vec<(&str, &str)> = got.iter().map(|(k, v)| (k.as_str(), v.as_str())).collect();
    assert_eq!(pairs, vec![("A", "x y"), ("B", "z"), ("D", "1=2")]);
    assert_eq!(new_variables("C=1", &vec!["C".to_string()]).len(), 0);
}

#[test]
fn a_named_key_file_never_falls_back() {
    let file = || KeySource::File { path: "/k".to_string() };
    let used = |s: &str| SecretPlan::Use { secret: s.to_string() };
    let literal = KeySource::Literal { secret: " lit ".to_string() };
    assert_eq!(resolve_secret(literal, None), used(" lit "));
    assert_eq!(resolve_secret(file(), Some(" s\n")), used("s"));
    assert_eq!(resolve_secret(file(), Some(" \n")), SecretPlan::Blank { path: "/k".to_string() });
    assert_eq!(resolve_secret(file(), None), SecretPlan::Unreadable { path: "/k".to_string() });
    assert_eq!(resolve_secret(KeySource::Local, Some("abc\n")), used("abc"));
    assert_eq!(resolve_secret(KeySource::Local, Some("\n")), SecretPlan::Generate);
    assert_eq!(resolve_secret(KeySource::Local, None), SecretPlan::Generate);
    let fresh = fresh_secret().unwrap();
    assert_eq!(resolve_secret(KeySource::Local, Some(&fresh)), used(&fresh));
}

#[test]
fn the_hostname_is_looked_for_a_while() {
    let address = "ws://abc.onion/ws".to_string();
    assert_eq!(hostname_step(0, Some("abc.onion\n")), HostnameStep::Announce { address });
    assert_eq!(hostname_step(0, None), HostnameStep::Retry);
    assert_eq!(hostname_step(HOSTNAME_TRIES - 2, None), HostnameStep::Retry);
    assert_eq!(hostname_step(HOSTNAME_TRIES - 1, None), HostnameStep::GiveUp);
}

#[test]
fn a_changed_ciphertext_or_secret_gives_nothing() {
    let good = seal_with(b"message", "secret", &[7u8; 16], &[9u8; 12]).unwrap();
    assert_eq!(good.ciphertext.len(), 2 * (7 + 16));
    assert_eq!(decrypt_disk_crypto(&good, "another"), Err(KeyError::Decrypt));
    for i in [0, good.ciphertext.len() / 2, good.ciphertext.len() - 1] {
        let mut digits: Vec<char> = good.ciphertext.chars().collect();
        digits[i] = if digits[i] == '0' { '1' } else { '0' };
        let mut changed = good.clone();
        changed.ciphertext = digits.into_iter().collect();
        assert_eq!(decrypt_disk_crypto(&changed, "secret"), Err(KeyError::Decrypt));
    }
}

#[test]
fn the_trust_root_is_told_in_base64() {
    assert_eq!(trust_root_text(&[5, 0xff, 0x10]), "Bf8Q");
    assert_eq!(trust_root_text(&[5]), "BQ");
}
