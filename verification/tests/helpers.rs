//! Limits, tokens, identifiers, proof of work, text, and the release check.

use axeno_relay::config::{env_u64, FileConfig};
use axeno_relay::protocol::{err, file_err, send_err, ServerFrame};
use axeno_relay::text::{
    contains_text, decimal, lines_of, parse_u64, split_once, str_eq, to_lower, trim,
};
use axeno_relay::update_check::{
    check_once, mode, next_check_secs, spawn, CheckPlan, Mode, CHECK_INTERVAL_SECS,
    RETRY_INTERVAL_SECS,
};
use axeno_relay::util::{
    atomic_sub_saturating, ct_eq, now_ms, pow_given, pow_hash_ok, token_hash, valid_bundle_id,
    valid_recipient_id, valid_token, verify_pow,
};

#[test]
fn default_limits() {
    let c = FileConfig::from_env(None, Some(""), Some("x"), Some("0"));
    assert_eq!(c.max_file_bytes, 32 * 1024 * 1024);
    assert_eq!(c.max_total_file_bytes, 8 * 1024 * 1024 * 1024);
    assert_eq!(c.file_ttl_ms, 7 * 24 * 60 * 60 * 1000);
    assert_eq!(c.max_transfers, 50_000);
    assert_eq!(c.max_chunks, 2048);
}

#[test]
fn limits_from_the_environment() {
    let c = FileConfig::from_env(Some(" 3 "), Some("2"), Some("1"), Some("7"));
    assert_eq!(c.max_file_bytes, 3 * 1024 * 1024);
    // The global cap holds one file of the largest size.
    assert_eq!(c.max_total_file_bytes, 3 * 1024 * 1024);
    assert_eq!(c.file_ttl_ms, 3_600_000);
    assert_eq!(c.max_transfers, 7);
    assert_eq!(c.max_chunks, 192);
    let huge = FileConfig::from_env(Some("18446744073709551615"), None, None, None);
    assert_eq!(huge.max_file_bytes, u64::MAX);
    assert_eq!(huge.max_chunks, u32::MAX);
    assert_eq!(env_u64(Some("-1"), 9), 9);
    assert_eq!(env_u64(Some("+5"), 9), 5);
    assert_eq!(env_u64(Some("18446744073709551616"), 9), 9);
}

#[test]
fn token_hashes() {
    assert_eq!(
        token_hash("auth_token_aaaaaaaaaa"),
        "f4d8647955df59840e1ca3626d17b5afee5a7a748e7f5eafb6bbeed9e6b626d9"
    );
    assert!(ct_eq("abc", "abc"));
    assert!(!ct_eq("abc", "abd"));
    assert!(!ct_eq("abc", "abcd"));
    assert!(ct_eq("", ""));
}

#[test]
fn counters_stop_at_zero() {
    let mut n = 5usize;
    atomic_sub_saturating(&mut n, 3);
    assert_eq!(n, 2);
    atomic_sub_saturating(&mut n, 3);
    assert_eq!(n, 0);
}

#[test]
fn identifiers() {
    let id = format!("mbx_{}", "a".repeat(32));
    assert!(valid_recipient_id(&id));
    assert!(valid_recipient_id(&format!("mbx_{}", "Z".repeat(124))));
    assert!(!valid_recipient_id(&format!("mbx_{}", "a".repeat(31))));
    assert!(!valid_recipient_id(&format!("mbx_{}", "a".repeat(125))));
    assert!(!valid_recipient_id(&format!("MBX_{}", "a".repeat(32))));
    assert!(!valid_recipient_id(&format!("mbx_{}:", "a".repeat(32))));
    assert!(!valid_recipient_id(&format!("mbx_{}", "é".repeat(32))));
    assert!(valid_bundle_id("abcdefghijklmn-_"));
    assert!(!valid_bundle_id("abcdefghijklmno"));
    assert!(!valid_bundle_id("abcdefghijklmno;"));
    assert!(valid_token(&"9".repeat(128)));
    assert!(!valid_token(&"9".repeat(129)));
}

#[test]
fn leading_zero_bits() {
    assert!(pow_hash_ok(&[0, 0, 3, 255]));
    assert!(!pow_hash_ok(&[0, 0, 4, 0]));
    assert!(!pow_hash_ok(&[0, 1, 0, 0]));
    assert!(!pow_hash_ok(&[128, 0, 0, 0]));
    assert!(pow_hash_ok(&[0, 0, 0]));
    assert!(pow_hash_ok(&[0, 0, 3]));
    assert!(!pow_hash_ok(&[0, 0]));
    assert!(!pow_hash_ok(&[]));
}

#[test]
fn proof_of_work_by_the_clock() {
    assert!(now_ms() > 1_700_000_000_000);
    assert!(!verify_pow("mbx_aaaaaaaaaaaaaaaaaaaaaaaaaaaaaaaa", "2833333:686992"));
    let id = "mbx_aaaaaaaaaaaaaaaaaaaaaaaaaaaaaaaa";
    assert!(pow_given(id, Some("2833333:686992"), 1_700_000_000_000));
    assert!(pow_given(id, Some("+2833333:686992"), 1_700_000_000_000));
    assert!(!pow_given(id, None, 1_700_000_000_000));
}

#[test]
fn error_frames() {
    assert_eq!(
        err("c", "m"),
        ServerFrame::Error { code: "c".to_string(), message: "m".to_string() }
    );
    assert_eq!(
        send_err(Some("r".to_string()), "c", "m"),
        ServerFrame::SendError {
            client_ref: Some("r".to_string()),
            code: "c".to_string(),
            message: "m".to_string(),
        }
    );
    assert_eq!(
        file_err("q".to_string(), "t", "c", "m"),
        ServerFrame::FileError {
            request_id: "q".to_string(),
            transfer_id: "t".to_string(),
            code: "c".to_string(),
            message: "m".to_string(),
        }
    );
}

#[test]
fn texts() {
    assert!(str_eq("é", "é"));
    assert!(!str_eq("e", "é"));
    assert_eq!(split_once("a:b:c", ':'), Some(("a".to_string(), "b:c".to_string())));
    assert_eq!(split_once("abc", ':'), None);
    assert_eq!(trim("\u{3000} x y \r\n"), "x y");
    assert_eq!(trim("  "), "");
    assert_eq!(decimal(0), "0");
    assert_eq!(decimal(u64::MAX), "18446744073709551615");
    assert_eq!(parse_u64("007"), Some(7));
    assert_eq!(parse_u64("+"), None);
    assert_eq!(parse_u64(""), None);
    assert_eq!(parse_u64("1_0"), None);
    assert_eq!(to_lower("ÀBc"), "Àbc");
    assert!(contains_text("abcabd", "abd"));
    assert!(contains_text("x", ""));
    assert!(!contains_text("ab", "abc"));
    assert_eq!(lines_of("a\r\nb\n\nc"), vec!["a", "b", "", "c"]);
    assert_eq!(lines_of("a\n"), vec!["a"]);
}

#[test]
fn the_release_check_never_leaves_tor_by_default() {
    assert_eq!(mode(None), Mode::Default);
    for on in ["1", "true", " YES ", "On"] {
        assert_eq!(mode(Some(on)), Mode::Enabled);
    }
    for off in ["0", "false", "no", "off", "", "maybe"] {
        assert_eq!(mode(Some(off)), Mode::Disabled);
    }
    assert_eq!(spawn(None, Some(9050)), CheckPlan::OverTor { socks_port: 9050 });
    assert_eq!(spawn(None, None), CheckPlan::NoTor);
    assert_eq!(spawn(Some("0"), Some(9050)), CheckPlan::Off);
    assert_eq!(spawn(Some("1"), Some(9050)), CheckPlan::OverTor { socks_port: 9050 });
    assert_eq!(spawn(Some("1"), None), CheckPlan::Direct);
    assert_eq!(next_check_secs(false), CHECK_INTERVAL_SECS);
    assert_eq!(next_check_secs(true), RETRY_INTERVAL_SECS);
}

#[test]
fn newer_releases() {
    assert_eq!(check_once("1.2.3", "v1.2.4"), Some(true));
    assert_eq!(check_once("1.2.3", "vv1.10.0"), Some(true));
    assert_eq!(check_once("1.2.3", "2.0.0"), Some(true));
    assert_eq!(check_once("1.2.3", "v1.2.3"), Some(false));
    assert_eq!(check_once("1.2.3", "v1.2.2"), Some(false));
    assert_eq!(check_once("1.2.3", "v1.2.3-rc.1"), Some(false));
    assert_eq!(check_once("1.2.3-rc.1", "v1.2.3"), Some(true));
    assert_eq!(check_once("1.2.3-rc.2", "v1.2.3-rc.10"), Some(true));
    assert_eq!(check_once("1.2.3+1", "v1.2.3+2"), Some(true));
    assert_eq!(check_once("1.2.3+2", "v1.2.3+1"), Some(false));
    assert_eq!(check_once("1.2.3", "nightly"), Some(false));
    assert_eq!(check_once("one", "v1.2.3"), None);
}
