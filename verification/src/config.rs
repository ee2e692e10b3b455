//! Tunable limits and protocol constants for the relay.

use crate::text::{opt_str_view, parse_u64, parsed_u64, trim, trimmed};
use vstd::prelude::*;

verus! {

pub const MAX_QUEUE_PER_RECIPIENT: usize = 500;

pub const MAX_FRAME_BYTES: usize = 512 * 1024;

/// Per-mailbox queued-bytes budget. Enforced by oldest-first eviction so a
/// single sender can fill only one mailbox, never starve the whole relay.
pub const PER_MAILBOX_QUEUE_BYTES: usize = 8 * 1024 * 1024;

/// Absolute disk backstop across all mailboxes. New offline queueing is refused
/// past this (live delivery is never gated by it); bounds total disk use.
pub const GLOBAL_QUEUE_DISK_CAP_BYTES: u64 = 4 * 1024 * 1024 * 1024;

/// Queued envelopes older than this are swept so abandoned queues self-heal
/// instead of pinning storage forever.
pub const QUEUE_TTL_MS: u64 = 14 * 24 * 60 * 60 * 1000;

/// How often the background task sweeps expired queued envelopes.
pub const QUEUE_SWEEP_INTERVAL_SECS: u64 = 3600;

pub const PROTOCOL_MIN_SUPPORTED: u16 = 4;

/// Version 6 adds the `synced` frame, version 7 chunked file transfer.
pub const PROTOCOL_VERSION: u16 = 7;

/// The first protocol version with the `synced` frame.
pub const PROTOCOL_SYNCED: u16 = 6;

pub const SENDER_CERT_TTL_MS: u64 = 24 * 60 * 60 * 1000;

pub const RATE_WINDOW_MS: u64 = 60 * 1000;

pub const MAX_FRAMES_PER_WINDOW: u32 = 600;

pub const MAX_MAILBOXES: usize = 50_000;

pub const MAX_DELIVERY_TOKENS_PER_MAILBOX: usize = 64;

pub const MAX_BUNDLES: usize = 50_000;

pub const MAX_BUNDLE_BYTES: usize = 16 * 1024;

/// Total-bytes ceiling for hosted invite bundles, independent of the count cap.
pub const MAX_TOTAL_BUNDLE_BYTES: usize = 64 * 1024 * 1024;

/// Maximum lifetime of a hosted invite bundle. Expiry is the only way a bundle
/// leaves the store: anyone who glimpses an id can fetch the bundle, and must
/// not be able to destroy the invite before it is redeemed.
pub const MAX_BUNDLE_TTL_MS: u64 = 30 * 24 * 60 * 60 * 1000;

/// Shortest lifetime that an upload is given, whatever it asks for.
pub const MIN_BUNDLE_TTL_MS: u64 = 60_000;

pub const OUTBOUND_QUEUE_CAPACITY: usize = 256;

/// Longest time that one outbound frame may take to write to the socket.
pub const OUTBOUND_SEND_TIMEOUT_SECS: u64 = 120;

/// Longest time that a socket may go without sending any frame.
pub const SOCKET_IDLE_TIMEOUT_SECS: u64 = 120;

/// Global per-destination send cap per [`RATE_WINDOW_MS`].
pub const MAX_SENDS_PER_DEST_PER_WINDOW: u32 = 120;

/// Proof-of-work difficulty for creating a mailbox, an invite bundle or a file
/// transfer: the accepted hash has this many leading zero bits.
pub const POW_LEADING_ZERO_BITS: u32 = 22;

/// Length of one proof-of-work window.
pub const POW_WINDOW_MS: u64 = 600_000;

/// Mailboxes idle for longer than this, with an empty queue and no live socket,
/// are garbage-collected.
pub const MAILBOX_IDLE_TTL_MS: u64 = 30 * 24 * 60 * 60 * 1000;

/// How often the background task sweeps for idle mailboxes.
pub const MAILBOX_GC_INTERVAL_SECS: u64 = 3600;

/// Granularity to which a mailbox's last-active timestamp is rounded down before
/// it is stored, so that an at-rest value reveals only the day.
pub const MAILBOX_ACTIVITY_GRANULARITY_MS: u64 = 24 * 60 * 60 * 1000;

/// Global ceiling on concurrent connections.
pub const MAX_CONNECTIONS: usize = 100_000;

/// Minimum spacing between full scans for expired invite bundles.
pub const BUNDLE_PRUNE_MIN_INTERVAL_MS: u64 = 30 * 1000;

/// How often the background task writes back dirty metadata.
pub const META_FLUSH_INTERVAL_SECS: u64 = 5;

/// Longest envelope type, in bytes.
pub const MAX_ENVELOPE_TYPE_BYTES: usize = 32;

/// Longest base64 form of a sender-certificate public key, in bytes.
pub const MAX_CERT_KEY_B64_BYTES: usize = 64;

/// Largest sender device number.
pub const MAX_SENDER_DEVICE_ID: u32 = 127;

/// Default per-file ceiling on total stored ciphertext bytes.
pub const DEFAULT_MAX_FILE_MIB: u64 = 32;

/// Default global ceiling across all in-flight transfers.
pub const DEFAULT_MAX_TOTAL_FILE_MIB: u64 = 8 * 1024;

/// Default lifetime of an unfetched transfer.
pub const DEFAULT_FILE_TTL_HOURS: u64 = 7 * 24;

/// Default ceiling on the number of distinct concurrent transfers.
pub const DEFAULT_MAX_FILE_TRANSFERS: u64 = 50_000;

/// Smallest chunk size that a declared chunk count is accounted against.
pub const MIN_FILE_CHUNK_BYTES: u64 = 16 * 1024;

/// How often the background task sweeps expired file transfers.
pub const FILE_SWEEP_INTERVAL_SECS: u64 = 1800;

/// Lifetime of a transfer that has not received every declared chunk, so that
/// the bytes it reserves are given back soon. Never longer than the operator's
/// lifetime for complete transfers.
pub const INCOMPLETE_FILE_TTL_MS: u64 = 60 * 60 * 1000;

/// Bytes in one mebibyte.
pub const MIB: u64 = 1024 * 1024;

/// Milliseconds in one hour.
pub const HOUR_MS: u64 = 60 * 60 * 1000;

/// Operator-tunable file-transfer limits.
#[derive(Debug, Clone, Copy)]
pub struct FileConfig {
    /// Max total stored ciphertext bytes for a single transfer.
    pub max_file_bytes: u64,
    /// Max total stored ciphertext bytes across every transfer.
    pub max_total_file_bytes: u64,
    /// Lifetime of an un-deleted transfer before it is swept.
    pub file_ttl_ms: u64,
    /// Max number of distinct concurrent transfers.
    pub max_transfers: usize,
    /// Max declared chunk count for one transfer.
    pub max_chunks: u32,
}

/// A positive number written in `value` with white space around it, or `default`.
pub open spec fn limit_or(value: Option<Seq<char>>, default: u64) -> u64 {
    match value {
        Some(v) => match parsed_u64(trimmed(v)) {
            Some(n) => if n > 0 {
                n
            } else {
                default
            },
            None => default,
        },
        None => default,
    }
}

/// The product, or the largest `u64` where it does not fit.
pub open spec fn capped_product(a: u64, b: u64) -> u64 {
    if a * b > u64::MAX {
        u64::MAX
    } else {
        (a * b) as u64
    }
}

/// The larger of two numbers.
pub open spec fn larger(a: u64, b: u64) -> u64 {
    if a >= b {
        a
    } else {
        b
    }
}

/// The smaller of two numbers.
pub open spec fn smaller(a: u64, b: u64) -> u64 {
    if a <= b {
        a
    } else {
        b
    }
}

/// The number of smallest chunks that a file of `bytes` bytes fills, at least one.
pub open spec fn chunk_ceiling(bytes: u64) -> u32 {
    let chunks = (bytes + MIN_FILE_CHUNK_BYTES - 1) / (MIN_FILE_CHUNK_BYTES as int);
    if chunks < 1 {
        1
    } else if chunks > u32::MAX {
        u32::MAX
    } else {
        chunks as u32
    }
}

/// The product, or the largest `u64` where it does not fit.
pub fn saturating_product(a: u64, b: u64) -> (r: u64)
    ensures
        r == capped_product(a, b),
{
    match a.checked_mul(b) {
        Some(p) => p,
        None => u64::MAX,
    }
}

/// The positive integer that an environment variable holds, or `default` where it is unset, empty,
/// unparseable or zero.
pub fn env_u64(value: Option<&str>, default: u64) -> (r: u64)
    ensures
        r == limit_or(opt_str_view(value), default),
{
    match value {
        Some(v) => {
            let t: String = trim(v);
            match parse_u64(t.as_str()) {
                Some(n) => if n > 0 {
                    n
                } else {
                    default
                },
                None => default,
            }
        },
        None => default,
    }
}

/// The limits that four environment values ask for.
pub open spec fn file_limits(
    max_file_mib: Option<Seq<char>>,
    max_total_file_mib: Option<Seq<char>>,
    file_ttl_hours: Option<Seq<char>>,
    max_file_transfers: Option<Seq<char>>,
) -> FileConfig {
    let file = capped_product(limit_or(max_file_mib, DEFAULT_MAX_FILE_MIB), MIB);
    FileConfig {
        max_file_bytes: file,
        max_total_file_bytes: larger(
            capped_product(limit_or(max_total_file_mib, DEFAULT_MAX_TOTAL_FILE_MIB), MIB),
            file,
        ),
        file_ttl_ms: capped_product(limit_or(file_ttl_hours, DEFAULT_FILE_TTL_HOURS), HOUR_MS),
        max_transfers: limit_or(max_file_transfers, DEFAULT_MAX_FILE_TRANSFERS) as usize,
        max_chunks: chunk_ceiling(file),
    }
}

impl FileConfig {
    /// The file-transfer limits that four environment values ask for: the largest file and the
    /// largest total in MiB, the lifetime in hours and the number of transfers. A value that is
    /// missing or not a positive number means the default, so that a typo can never disable a cap.
    pub fn from_env(
        max_file_mib: Option<&str>,
        max_total_file_mib: Option<&str>,
        file_ttl_hours: Option<&str>,
        max_file_transfers: Option<&str>,
    ) -> (r: Self)
        ensures
            r == file_limits(
                opt_str_view(max_file_mib),
                opt_str_view(max_total_file_mib),
                opt_str_view(file_ttl_hours),
                opt_str_view(max_file_transfers),
            ),
    {
        let max_file_bytes: u64 = saturating_product(
            env_u64(max_file_mib, DEFAULT_MAX_FILE_MIB),
            MIB,
        );
        let total: u64 = saturating_product(
            env_u64(max_total_file_mib, DEFAULT_MAX_TOTAL_FILE_MIB),
            MIB,
        );
        let max_total_file_bytes: u64 = if total >= max_file_bytes {
            total
        } else {
            max_file_bytes
        };
        let file_ttl_ms: u64 = saturating_product(
            env_u64(file_ttl_hours, DEFAULT_FILE_TTL_HOURS),
            HOUR_MS,
        );
        let max_transfers: usize = env_u64(max_file_transfers, DEFAULT_MAX_FILE_TRANSFERS) as usize;
        let whole: u64 = max_file_bytes / MIN_FILE_CHUNK_BYTES;
        let chunks: u64 = if max_file_bytes % MIN_FILE_CHUNK_BYTES == 0 {
            whole
        } else {
            whole + 1
        };
        let max_chunks: u32 = if chunks < 1 {
            1
        } else if chunks > u32::MAX as u64 {
            u32::MAX
        } else {
            chunks as u32
        };
        FileConfig { max_file_bytes, max_total_file_bytes, file_ttl_ms, max_transfers, max_chunks }
    }
}

/// Whatever the environment holds, no cap is switched off and the global cap holds one file of the
/// largest size.
pub proof fn law_file_limits_positive(
    max_file_mib: Option<Seq<char>>,
    max_total_file_mib: Option<Seq<char>>,
    file_ttl_hours: Option<Seq<char>>,
)
    ensures
        ({
            let file = capped_product(limit_or(max_file_mib, DEFAULT_MAX_FILE_MIB), MIB);
            let total = larger(
                capped_product(limit_or(max_total_file_mib, DEFAULT_MAX_TOTAL_FILE_MIB), MIB),
                file,
            );
            let ttl = capped_product(limit_or(file_ttl_hours, DEFAULT_FILE_TTL_HOURS), HOUR_MS);
            &&& 0 < file <= total
            &&& 0 < ttl
            &&& 1 <= chunk_ceiling(file)
        }),
{
    let mib = limit_or(max_file_mib, DEFAULT_MAX_FILE_MIB);
    let hours = limit_or(file_ttl_hours, DEFAULT_FILE_TTL_HOURS);
    assert(mib * MIB > 0) by (nonlinear_arith)
        requires
            mib > 0,
            MIB > 0,
    ;
    assert(hours * HOUR_MS > 0) by (nonlinear_arith)
        requires
            hours > 0,
            HOUR_MS > 0,
    ;
}

/// An environment value counts exactly where it writes a positive number, with or without white
/// space around it; any other means the default.
pub proof fn law_limit(value: Option<Seq<char>>, default: u64)
    ensures
        value is None ==> limit_or(value, default) == default,
        value matches Some(v) ==> (parsed_u64(trimmed(v)) matches Some(n) ==> limit_or(value, default)
            == (if n == 0 {
            default
        } else {
            n
        })),
        value matches Some(v) ==> (parsed_u64(trimmed(v)) is None ==> limit_or(value, default)
            == default),
{
}

/// The limits are what the environment asks for: bytes for its mebibytes, milliseconds for its
/// hours, its number of transfers, and as many chunks as a file of the largest size fills when cut
/// into the smallest ones. The total is never below one file. What does not fit into a machine word
/// is the largest that does.
pub proof fn law_file_limits(
    max_file_mib: Option<Seq<char>>,
    max_total_file_mib: Option<Seq<char>>,
    file_ttl_hours: Option<Seq<char>>,
    max_file_transfers: Option<Seq<char>>,
)
    ensures
        ({
            let c = file_limits(
                max_file_mib,
                max_total_file_mib,
                file_ttl_hours,
                max_file_transfers,
            );
            let file = limit_or(max_file_mib, 32) * 1024 * 1024;
            let total = limit_or(max_total_file_mib, 8192) * 1024 * 1024;
            let ttl = limit_or(file_ttl_hours, 168) * 60 * 60 * 1000;
            let most = u32::MAX * 16384;
            &&& file <= u64::MAX ==> c.max_file_bytes == file
            &&& file > u64::MAX ==> c.max_file_bytes == u64::MAX
            &&& total <= u64::MAX && total >= c.max_file_bytes ==> c.max_total_file_bytes == total
            &&& total < c.max_file_bytes ==> c.max_total_file_bytes == c.max_file_bytes
            &&& total > u64::MAX ==> c.max_total_file_bytes == u64::MAX
            &&& ttl <= u64::MAX ==> c.file_ttl_ms == ttl
            &&& ttl > u64::MAX ==> c.file_ttl_ms == u64::MAX
            &&& limit_or(max_file_transfers, 50_000) <= usize::MAX ==> c.max_transfers == limit_or(
                max_file_transfers,
                50_000,
            )
            &&& 0 < c.max_file_bytes <= most ==> (c.max_chunks - 1) * 16384 < c.max_file_bytes
                <= c.max_chunks * 16384
            &&& c.max_file_bytes > most ==> c.max_chunks == u32::MAX
        }),
{
    let file = limit_or(max_file_mib, 32);
    let total = limit_or(max_total_file_mib, 8192);
    let ttl = limit_or(file_ttl_hours, 168);
    assert(file * 1024 * 1024 == file * MIB) by (nonlinear_arith)
        requires
            MIB == 1024 * 1024,
    ;
    assert(total * 1024 * 1024 == total * MIB) by (nonlinear_arith)
        requires
            MIB == 1024 * 1024,
    ;
    assert(ttl * 60 * 60 * 1000 == ttl * HOUR_MS) by (nonlinear_arith)
        requires
            HOUR_MS == 60 * 60 * 1000,
    ;
}

/// The limits of the relay: times in milliseconds and sizes in bytes, but for the seconds of the
/// timers.
pub proof fn law_limits()
    ensures
        MAX_QUEUE_PER_RECIPIENT == 500,
        PER_MAILBOX_QUEUE_BYTES == 8_388_608,
        GLOBAL_QUEUE_DISK_CAP_BYTES == 4_294_967_296,
        QUEUE_TTL_MS == 1_209_600_000,
        QUEUE_SWEEP_INTERVAL_SECS == 3_600,
        MAX_FRAME_BYTES == 524_288,
        MAX_FRAMES_PER_WINDOW == 600,
        RATE_WINDOW_MS == 60_000,
        MAX_SENDS_PER_DEST_PER_WINDOW == 120,
        PROTOCOL_MIN_SUPPORTED == 4,
        PROTOCOL_SYNCED == 6,
        PROTOCOL_VERSION == 7,
        SENDER_CERT_TTL_MS == 86_400_000,
        MAX_CERT_KEY_B64_BYTES == 64,
        MAX_SENDER_DEVICE_ID == 127,
        MAX_ENVELOPE_TYPE_BYTES == 32,
        MAX_MAILBOXES == 50_000,
        MAX_DELIVERY_TOKENS_PER_MAILBOX == 64,
        MAILBOX_IDLE_TTL_MS == 2_592_000_000,
        MAILBOX_GC_INTERVAL_SECS == 3_600,
        MAILBOX_ACTIVITY_GRANULARITY_MS == 86_400_000,
        MAX_BUNDLES == 50_000,
        MAX_BUNDLE_BYTES == 16_384,
        MAX_TOTAL_BUNDLE_BYTES == 67_108_864,
        MAX_BUNDLE_TTL_MS == 2_592_000_000,
        MIN_BUNDLE_TTL_MS == 60_000,
        BUNDLE_PRUNE_MIN_INTERVAL_MS == 30_000,
        POW_LEADING_ZERO_BITS == 22,
        POW_WINDOW_MS == 600_000,
        MAX_CONNECTIONS == 100_000,
        OUTBOUND_QUEUE_CAPACITY == 256,
        OUTBOUND_SEND_TIMEOUT_SECS == 120,
        SOCKET_IDLE_TIMEOUT_SECS == 120,
        META_FLUSH_INTERVAL_SECS == 5,
        MIN_FILE_CHUNK_BYTES == 16_384,
        INCOMPLETE_FILE_TTL_MS == 3_600_000,
        FILE_SWEEP_INTERVAL_SECS == 1_800,
{
}

} // verus!
