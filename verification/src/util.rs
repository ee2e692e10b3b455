//! Small stateless helpers: time, hashing, input validation, and proof-of-work.

use crate::config::{POW_LEADING_ZERO_BITS, POW_WINDOW_MS};
use crate::outside::{
    hex_bytes, hex_encode, hex_text, law_hex_roundtrip, lemma_hex_digit, sha256, sha256_digest,
};
use crate::text::{
    decimal, decimal_text, law_split_first, lemma_encoding_injective, parse_u64, parsed_u64,
    split_first, split_once,
};
use vstd::prelude::*;
use vstd::utf8::*;

verus! {

/// `std::time::SystemTime::now`: the wall clock, in milliseconds since the Unix epoch. Nothing is
/// stated of it: every rule of the library that depends on time takes the time as an argument.
#[verifier::external_body]
pub fn now_ms() -> (r: u64) {
    std::time::SystemTime::now()
        .duration_since(std::time::UNIX_EPOCH)
        .unwrap_or_default()
        .as_millis() as u64
}

/// The hexadecimal SHA-256 digest of a text.
pub open spec fn token_digest(token: Seq<char>) -> Seq<char> {
    hex_text(sha256(encode_utf8(token)))
}

/// The hash under which a token is kept.
pub fn token_hash(token: &str) -> (r: String)
    ensures
        r@ == token_digest(token@),
{
    let digest: Vec<u8> = sha256_digest(token.as_bytes());
    hex_encode(digest.as_slice())
}

/// Equality of token-hash strings, without a branch on the bytes that are held against each other.
/// Only the length check short-circuits.
pub fn ct_eq(a: &str, b: &str) -> (r: bool)
    ensures
        r == (a@ == b@),
{
    let x: &[u8] = a.as_bytes();
    let y: &[u8] = b.as_bytes();
    proof {
        lemma_encoding_injective(a@, b@);
    }
    if x.len() != y.len() {
        return false;
    }
    let mut acc: u8 = 0;
    let mut i: usize = 0;
    while i < x.len()
        invariant
            x@.len() == y@.len(),
            i <= x@.len(),
            acc == 0 <==> forall|j: int| 0 <= j < i ==> x@[j] == y@[j],
        decreases x@.len() - i,
    {
        let before: u8 = acc;
        let p: u8 = x[i];
        let q: u8 = y[i];
        acc = before | (p ^ q);
        proof {
            assert((before | (p ^ q)) == 0 <==> (before == 0 && p == q)) by (bit_vector);
        }
        i += 1;
    }
    proof {
        if acc == 0 {
            assert(x@ =~= y@);
        }
    }
    acc == 0
}

/// Subtracts from a counter without ever wrapping past zero, so that a drift in the accounting
/// cannot poison a cap.
pub fn atomic_sub_saturating(counter: &mut usize, val: usize)
    ensures
        *final(counter) == (if *old(counter) >= val {
            (*old(counter) - val) as usize
        } else {
            0
        }),
{
    *counter = counter.saturating_sub(val);
}

/// The characters of identifiers and tokens: ASCII letters and digits, `-` and `_`.
pub open spec fn is_id_char(c: char) -> bool {
    'a' <= c <= 'z' || 'A' <= c <= 'Z' || '0' <= c <= '9' || c == '-' || c == '_'
}

/// Whether a text is made of `lo` to `hi` identifier characters.
pub open spec fn is_id(s: Seq<char>, lo: int, hi: int) -> bool {
    lo <= s.len() <= hi && forall|i: int| 0 <= i < s.len() ==> is_id_char(#[trigger] s[i])
}

/// The prefix of every mailbox identifier.
pub open spec fn mailbox_prefix() -> Seq<char> {
    seq!['m', 'b', 'x', '_']
}

/// Whether a text is a mailbox identifier: `mbx_` and in all 36 to 128 identifier characters.
pub open spec fn is_recipient_id(s: Seq<char>) -> bool {
    s.len() >= 4 && s.take(4) == mailbox_prefix() && is_id(s, 36, 128)
}

/// Whether a text is a bundle or transfer identifier, or a token.
pub open spec fn is_handle(s: Seq<char>) -> bool {
    is_id(s, 16, 128)
}

fn id_in_range(id: &str, lo: usize, hi: usize) -> (r: bool)
    ensures
        r == is_id(id@, lo as int, hi as int),
        r ==> encode_utf8(id@) =~= Seq::new(id@.len(), |i: int| id@[i] as u8),
{
    broadcast use vstd::string::is_ascii_spec_bytes;

    if !id.is_ascii() {
        proof {
            if is_id(id@, lo as int, hi as int) {
                assert forall|i: int| 0 <= i < id@.len() implies '\0' <= #[trigger] id@[i] <= '\u{7f}' by {
                    assert(is_id_char(id@[i]));
                }
                assert(is_ascii_chars(id@));
            }
        }
        return false;
    }
    let b: &[u8] = id.as_bytes();
    if b.len() < lo || b.len() > hi {
        return false;
    }
    let mut i: usize = 0;
    while i < b.len()
        invariant
            i <= b@.len(),
            is_ascii_chars(id@),
            b@ =~= Seq::new(id@.len(), |k: int| id@[k] as u8),
            forall|j: int| 0 <= j < i ==> is_id_char(#[trigger] id@[j]),
        decreases b@.len() - i,
    {
        let c: u8 = b[i];
        proof {
            assert(id@[i as int] as u32 <= 127);
            assert(c as char == id@[i as int]);
        }
        if !((c >= 97 && c <= 122) || (c >= 65 && c <= 90) || (c >= 48 && c <= 57) || c == 45
            || c == 95) {
            proof {
                assert(!is_id_char(id@[i as int]));
            }
            return false;
        }
        i += 1;
    }
    true
}

/// Whether a text is a mailbox identifier.
pub fn valid_recipient_id(id: &str) -> (r: bool)
    ensures
        r == is_recipient_id(id@),
{
    if !id_in_range(id, 36, 128) {
        return false;
    }
    let b: &[u8] = id.as_bytes();
    proof {
        assert(b@.len() == id@.len());
        assert(id@.take(4) =~= seq![id@[0], id@[1], id@[2], id@[3]]);
        assert(is_id_char(id@[0]) && is_id_char(id@[1]) && is_id_char(id@[2]) && is_id_char(id@[3]));
        assert(b@[0] == id@[0] as u8 && b@[1] == id@[1] as u8 && b@[2] == id@[2] as u8 && b@[3]
            == id@[3] as u8);
        if id@.take(4) == mailbox_prefix() {
            assert(id@.take(4)[0] == 'm' && id@.take(4)[1] == 'b' && id@.take(4)[2] == 'x'
                && id@.take(4)[3] == '_');
        }
    }
    b[0] == 109 && b[1] == 98 && b[2] == 120 && b[3] == 95
}

/// Whether a text is an invite-bundle or transfer identifier.
pub fn valid_bundle_id(id: &str) -> (r: bool)
    ensures
        r == is_handle(id@),
{
    id_in_range(id, 16, 128)
}

/// Whether a text is an auth or delivery token.
pub fn valid_token(token: &str) -> (r: bool)
    ensures
        r == is_handle(token@),
{
    id_in_range(token, 16, 128)
}

/// Bit `k` of a byte string, counted from the highest bit of the first byte.
pub open spec fn bit_at(hash: Seq<u8>, k: int) -> bool {
    (hash[k / 8] >> ((7 - k % 8) as u8)) & 1 == 1
}

/// Whether there are at least `bits` bits and the first `bits` of them are zero.
pub open spec fn zero_prefix(hash: Seq<u8>, bits: int) -> bool {
    bits <= 8 * hash.len() && forall|k: int| 0 <= k < bits ==> !#[trigger] bit_at(hash, k)
}

proof fn lemma_byte_bits(b: u8)
    ensures
        b == 0 <==> ((b >> 7u8) & 1 == 0 && (b >> 6u8) & 1 == 0 && (b >> 5u8) & 1 == 0 && (b >> 4u8)
            & 1 == 0 && (b >> 3u8) & 1 == 0 && (b >> 2u8) & 1 == 0 && (b >> 1u8) & 1 == 0 && (b
            >> 0u8) & 1 == 0),
        b >> 2u8 == 0 <==> ((b >> 7u8) & 1 == 0 && (b >> 6u8) & 1 == 0 && (b >> 5u8) & 1 == 0 && (b
            >> 4u8) & 1 == 0 && (b >> 3u8) & 1 == 0 && (b >> 2u8) & 1 == 0),
{
    assert(b == 0 <==> ((b >> 7u8) & 1 == 0 && (b >> 6u8) & 1 == 0 && (b >> 5u8) & 1 == 0 && (b
        >> 4u8) & 1 == 0 && (b >> 3u8) & 1 == 0 && (b >> 2u8) & 1 == 0 && (b >> 1u8) & 1 == 0 && (b
        >> 0u8) & 1 == 0)) by (bit_vector);
    assert(b >> 2u8 == 0 <==> ((b >> 7u8) & 1 == 0 && (b >> 6u8) & 1 == 0 && (b >> 5u8) & 1 == 0
        && (b >> 4u8) & 1 == 0 && (b >> 3u8) & 1 == 0 && (b >> 2u8) & 1 == 0)) by (bit_vector);
    assert(forall|x: u8| #[trigger] (x & 1) == 0 || x & 1 == 1) by (bit_vector);
}

/// A whole byte is zero exactly where its eight bits are.
proof fn lemma_byte_zero(hash: Seq<u8>, i: int)
    requires
        0 <= i < hash.len(),
    ensures
        hash[i] == 0 <==> forall|k: int| 8 * i <= k < 8 * i + 8 ==> !#[trigger] bit_at(hash, k),
        hash[i] >> 2u8 == 0 <==> forall|k: int|
            8 * i <= k < 8 * i + 6 ==> !#[trigger] bit_at(hash, k),
{
    let b = hash[i];
    lemma_byte_bits(b);
    assert(forall|x: u8| #[trigger] (x & 1) == 0 || x & 1 == 1) by (bit_vector);
    let p = |k: int| bit_at(hash, k);
    assert(p(8 * i) == ((b >> 7u8) & 1 == 1));
    assert(p(8 * i + 1) == ((b >> 6u8) & 1 == 1));
    assert(p(8 * i + 2) == ((b >> 5u8) & 1 == 1));
    assert(p(8 * i + 3) == ((b >> 4u8) & 1 == 1));
    assert(p(8 * i + 4) == ((b >> 3u8) & 1 == 1));
    assert(p(8 * i + 5) == ((b >> 2u8) & 1 == 1));
    assert(p(8 * i + 6) == ((b >> 1u8) & 1 == 1));
    assert(p(8 * i + 7) == ((b >> 0u8) & 1 == 1));
    assert forall|k: int| 8 * i <= k < 8 * i + 8 && b == 0 implies !#[trigger] bit_at(hash, k) by {
        let j = k - 8 * i;
        assert(k / 8 == i && k % 8 == j);
        assert(p(8 * i + j) == bit_at(hash, k));
    }
    assert forall|k: int| 8 * i <= k < 8 * i + 6 && b >> 2u8 == 0 implies !#[trigger] bit_at(
        hash,
        k,
    ) by {
        let j = k - 8 * i;
        assert(k / 8 == i && k % 8 == j);
        assert(p(8 * i + j) == bit_at(hash, k));
    }
}

/// Whether a hash begins with at least [`POW_LEADING_ZERO_BITS`] zero bits. One that is shorter does
/// not.
pub fn pow_hash_ok(hash: &[u8]) -> (r: bool)
    ensures
        r == zero_prefix(hash@, POW_LEADING_ZERO_BITS as int),
{
    let mut bits: u32 = POW_LEADING_ZERO_BITS;
    let mut i: usize = 0;
    while i < hash.len()
        invariant
            i <= hash@.len(),
            i <= 2,
            bits == 22 - 8 * i,
            forall|k: int| 0 <= k < 8 * i ==> !#[trigger] bit_at(hash@, k),
        decreases hash@.len() - i,
    {
        let byte: u8 = hash[i];
        proof {
            lemma_byte_zero(hash@, i as int);
        }
        if bits >= 8 {
            if byte != 0 {
                proof {
                    let k = choose|k: int| 8 * i <= k < 8 * i + 8 && bit_at(hash@, k);
                    assert(bit_at(hash@, k));
                }
                return false;
            }
            bits -= 8;
        } else {
            proof {
                assert(bits == 6);
                if byte >> 2u8 != 0 {
                    let k = choose|k: int| 8 * i <= k < 8 * i + 6 && bit_at(hash@, k);
                    assert(bit_at(hash@, k));
                }
            }
            return (byte >> 2) == 0;
        }
        i += 1;
    }
    false
}

/// The text whose hash proves the work for `id` in a window.
pub open spec fn pow_input(id: Seq<char>, window: u64, nonce: Seq<char>) -> Seq<char> {
    id.push(':') + decimal_text(window as nat).push(':') + nonce
}

/// Whether `nonce`, of the form `window:nonce`, proves work for `id` in `window` or the one before.
pub open spec fn pow_accepted(id: Seq<char>, nonce: Seq<char>, window: u64) -> bool {
    match split_first(nonce, ':') {
        Some((ts, rest)) => match parsed_u64(ts) {
            Some(w) => (w == window || w == window.saturating_sub(1)) && zero_prefix(
                sha256(encode_utf8(pow_input(id, w, rest))),
                POW_LEADING_ZERO_BITS as int,
            ),
            None => false,
        },
        None => false,
    }
}

/// Checks a proof of work against a given current window.
pub fn verify_pow_at(recipient_id: &str, nonce: &str, current_window: u64) -> (r: bool)
    ensures
        r == pow_accepted(recipient_id@, nonce@, current_window),
{
    match split_once(nonce, ':') {
        Some((ts_str, nonce_part)) => {
            match parse_u64(ts_str.as_str()) {
                Some(ts_window) => {
                    if ts_window != current_window && ts_window != current_window.saturating_sub(
                        1,
                    ) {
                        return false;
                    }
                    let mut input: String = recipient_id.to_owned();
                    input.push(':');
                    let number: String = decimal(ts_window);
                    input.append(number.as_str());
                    input.push(':');
                    input.append(nonce_part.as_str());
                    proof {
                        assert(input@ =~= pow_input(recipient_id@, ts_window, nonce_part@));
                    }
                    let hash: Vec<u8> = sha256_digest(input.as_str().as_bytes());
                    pow_hash_ok(hash.as_slice())
                },
                None => false,
            }
        },
        None => false,
    }
}

/// The proof-of-work window of a time.
pub open spec fn window_of(now: u64) -> u64 {
    now / POW_WINDOW_MS
}

/// Checks a proof of work against the clock: it holds for the current window of ten minutes and
/// for the one before.
pub fn verify_pow(recipient_id: &str, nonce: &str) -> (r: bool)
    ensures
        exists|now: u64| r == #[trigger] pow_accepted(recipient_id@, nonce@, window_of(now)),
{
    let now: u64 = now_ms();
    let r: bool = verify_pow_at(recipient_id, nonce, now / POW_WINDOW_MS);
    proof {
        assert(r == pow_accepted(recipient_id@, nonce@, window_of(now)));
    }
    r
}

/// Checks an optional proof of work at a given time; none proves nothing.
pub fn pow_given(id: &str, pow: Option<&str>, now: u64) -> (r: bool)
    ensures
        r == has_pow(id@, crate::text::opt_str_view(pow), now),
{
    match pow {
        Some(nonce) => verify_pow_at(id, nonce, now / POW_WINDOW_MS),
        None => false,
    }
}

/// Whether an optional proof of work holds at a given time.
pub open spec fn has_pow(id: Seq<char>, pow: Option<Seq<char>>, now: u64) -> bool {
    match pow {
        Some(nonce) => pow_accepted(id, nonce, window_of(now)),
        None => false,
    }
}

/// A proof of work is good for its own window and the next, and for no other.
pub proof fn law_pow_expires(id: Seq<char>, nonce: Seq<char>, now: u64)
    requires
        pow_accepted(id, nonce, window_of(now)),
    ensures
        split_first(nonce, ':') matches Some((ts, _)) && parsed_u64(ts) matches Some(w) && w
            <= window_of(now) <= w + 1,
{
}

/// An identifier holds no colon and no semicolon.
pub proof fn law_ids_hold_no_separator(s: Seq<char>, lo: int, hi: int)
    requires
        is_id(s, lo, hi),
    ensures
        !s.contains(':'),
        !s.contains(';'),
{
    assert forall|i: int| 0 <= i < s.len() implies s[i] != ':' && s[i] != ';' by {
        assert(is_id_char(s[i]));
    }
}

/// Identifiers and tokens are 16 to 128 ASCII letters, digits, hyphens and underscores; mailbox
/// identifiers are 36 to 128 of them and begin with `mbx_`.
pub proof fn law_identifiers(s: Seq<char>)
    ensures
        ({
            let plain = forall|i: int|
                0 <= i < s.len() ==> 'a' <= #[trigger] s[i] <= 'z' || 'A' <= s[i] <= 'Z' || '0' <= s[i]
                    <= '9' || s[i] == '-' || s[i] == '_';
            &&& is_handle(s) <==> 16 <= s.len() <= 128 && plain
            &&& is_recipient_id(s) <==> 36 <= s.len() <= 128 && plain && s[0] == 'm' && s[1] == 'b'
                && s[2] == 'x' && s[3] == '_'
        }),
{
    if s.len() >= 4 {
        assert(s.take(4) =~= seq![s[0], s[1], s[2], s[3]]);
        if s.take(4) == mailbox_prefix() {
            assert(s.take(4)[0] == 'm' && s.take(4)[1] == 'b' && s.take(4)[2] == 'x' && s.take(4)[3]
                == '_');
        }
    }
    if forall|i: int|
        0 <= i < s.len() ==> 'a' <= #[trigger] s[i] <= 'z' || 'A' <= s[i] <= 'Z' || '0' <= s[i]
            <= '9' || s[i] == '-' || s[i] == '_' {
        assert forall|i: int| 0 <= i < s.len() implies is_id_char(#[trigger] s[i]) by {}
    }
    if is_handle(s) || is_recipient_id(s) {
        assert forall|i: int| 0 <= i < s.len() implies 'a' <= #[trigger] s[i] <= 'z' || 'A' <= s[i]
            <= 'Z' || '0' <= s[i] <= '9' || s[i] == '-' || s[i] == '_' by {
            assert(is_id_char(s[i]));
        }
    }
}

/// The hash of a token writes, in lower-case hexadecimal, the SHA-256 digest of all its bytes.
pub proof fn law_token_hash(token: Seq<char>)
    ensures
        hex_bytes(token_digest(token)) == Some(sha256(encode_utf8(token))),
        forall|i: int|
            0 <= i < token_digest(token).len() ==> '0' <= #[trigger] token_digest(token)[i] <= '9'
                || 'a' <= token_digest(token)[i] <= 'f',
{
    let digest = sha256(encode_utf8(token));
    law_hex_roundtrip(digest);
    assert forall|i: int| 0 <= i < token_digest(token).len() implies '0' <= #[trigger] token_digest(
        token,
    )[i] <= '9' || 'a' <= token_digest(token)[i] <= 'f' by {
        lemma_hex_digit((digest[i / 2] as nat / 16) as nat);
        lemma_hex_digit((digest[i / 2] as nat % 16) as nat);
    }
}

/// Twenty-two leading zero bits are two zero bytes and a third below four.
pub proof fn law_leading_zeros(hash: Seq<u8>)
    ensures
        zero_prefix(hash, POW_LEADING_ZERO_BITS as int) <==> hash.len() >= 3 && hash[0] == 0
            && hash[1] == 0 && hash[2] < 4,
{
    if hash.len() >= 3 {
        let c = hash[2];
        assert(c >> 2u8 == 0 <==> c < 4) by (bit_vector);
        lemma_byte_zero(hash, 0);
        lemma_byte_zero(hash, 1);
        lemma_byte_zero(hash, 2);
        if zero_prefix(hash, POW_LEADING_ZERO_BITS as int) {
            assert forall|k: int| 0 <= k < 22 implies !#[trigger] bit_at(hash, k) by {}
        }
    }
}

/// A proof of work is a window number, a colon and a nonce. It holds for an identifier exactly where
/// the window is the current one or the one before, and the digest of the identifier, the window and
/// the nonce, with colons between them, begins with enough zero bits. Nothing else proves work.
pub proof fn law_proof_of_work(
    id: Seq<char>,
    ts: Seq<char>,
    nonce: Seq<char>,
    now: u64,
    free: Seq<char>,
)
    requires
        !ts.contains(':'),
        !free.contains(':'),
    ensures
        !has_pow(id, None, now),
        !has_pow(id, Some(free), now),
        parsed_u64(ts) is None ==> !has_pow(id, Some(ts.push(':') + nonce), now),
        parsed_u64(ts) matches Some(w) ==> ({
            let current = now / POW_WINDOW_MS;
            let input = id + seq![':'] + decimal_text(w as nat) + seq![':'] + nonce;
            let hash = sha256(encode_utf8(input));
            has_pow(id, Some(ts.push(':') + nonce), now) <==> (w == current || w + 1 == current)
                && hash.len() >= 3 && hash[0] == 0 && hash[1] == 0 && hash[2] < 4
        }),
{
    let s = ts.push(':') + nonce;
    law_split_first(s, ':', ts, nonce);
    law_split_first(free, ':', free, free);
    assert(s =~= ts + seq![':'] + nonce);
    if let Some(w) = parsed_u64(ts) {
        assert(pow_input(id, w, nonce) =~= id + seq![':'] + decimal_text(w as nat) + seq![':']
            + nonce);
        law_leading_zeros(sha256(encode_utf8(pow_input(id, w, nonce))));
    }
}

} // verus!
