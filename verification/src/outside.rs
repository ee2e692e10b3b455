//! The calls into other crates that compute on plain values: hashing, text encodings, identifiers,
//! key derivation, authenticated encryption, versions and randomness.

use base64::Engine;
use chacha20poly1305::aead::{Aead, KeyInit};
use sha2::Digest;
use vstd::prelude::*;
use vstd::utf8::*;

verus! {

// ---------------------------------------------------------------------------
// SHA-256
// ---------------------------------------------------------------------------

/// The SHA-256 digest of a byte string.
pub uninterp spec fn sha256(data: Seq<u8>) -> Seq<u8>;

/// `sha2::Sha256::digest`: the digest is a function of the bytes and has 32 bytes.
#[verifier::external_body]
pub(crate) fn sha256_digest(data: &[u8]) -> (r: Vec<u8>)
    ensures
        r@ == sha256(data@),
        r@.len() == 32,
{
    sha2::Sha256::digest(data).to_vec()
}

// ---------------------------------------------------------------------------
// Hexadecimal
// ---------------------------------------------------------------------------

/// The lower-case hexadecimal digit of `n`.
pub open spec fn hex_digit(n: nat) -> char {
    if n < 10 {
        (48 + n) as char
    } else {
        (87 + n) as char
    }
}

/// Two lower-case hexadecimal digits for each byte, the high half first.
pub open spec fn hex_text(b: Seq<u8>) -> Seq<char> {
    Seq::new(
        2 * b.len(),
        |i: int|
            hex_digit(
                if i % 2 == 0 {
                    b[i / 2] as nat / 16
                } else {
                    b[i / 2] as nat % 16
                },
            ),
    )
}

/// Whether a character is a hexadecimal digit of either case.
pub open spec fn is_hex(c: char) -> bool {
    '0' <= c <= '9' || 'a' <= c <= 'f' || 'A' <= c <= 'F'
}

/// Whether every character is a hexadecimal digit.
pub open spec fn all_hex(s: Seq<char>) -> bool {
    forall|i: int| 0 <= i < s.len() ==> is_hex(#[trigger] s[i])
}

/// The value of a hexadecimal digit.
pub open spec fn hex_value(c: char) -> nat {
    if '0' <= c <= '9' {
        (c as u32 - 48) as nat
    } else if 'a' <= c <= 'f' {
        (c as u32 - 87) as nat
    } else {
        (c as u32 - 55) as nat
    }
}

/// The bytes that a text writes in hexadecimal, where it writes any.
pub open spec fn hex_bytes(s: Seq<char>) -> Option<Seq<u8>> {
    if s.len() % 2 == 0 && all_hex(s) {
        Some(
            Seq::new(
                s.len() / 2,
                |i: int| (16 * hex_value(s[2 * i]) + hex_value(s[2 * i + 1])) as u8,
            ),
        )
    } else {
        None
    }
}

/// `hex::encode`: two lower-case digits for each byte.
#[verifier::external_body]
pub(crate) fn hex_encode(data: &[u8]) -> (r: String)
    ensures
        r@ == hex_text(data@),
{
    hex::encode(data)
}

/// The view of optional bytes.
pub open spec fn opt_bytes(o: Option<Vec<u8>>) -> Option<Seq<u8>> {
    match o {
        Some(v) => Some(v@),
        None => None,
    }
}

/// `hex::decode`: succeeds exactly on an even number of hexadecimal digits of either case.
#[verifier::external_body]
pub(crate) fn hex_decode(s: &str) -> (r: Option<Vec<u8>>)
    ensures
        opt_bytes(r) == hex_bytes(s@),
{
    hex::decode(s).ok()
}

/// The value of a lower-case hexadecimal digit is the number that it was written for.
pub proof fn lemma_hex_digit(n: nat)
    requires
        n < 16,
    ensures
        is_hex(hex_digit(n)),
        hex_value(hex_digit(n)) == n,
        hex_digit(n) != '-',
        hex_digit(n) != ':',
{
}

/// Reading back the hexadecimal form of a byte string gives the byte string.
pub proof fn law_hex_roundtrip(b: Seq<u8>)
    ensures
        hex_bytes(hex_text(b)) == Some(b),
{
    let s = hex_text(b);
    assert forall|i: int| 0 <= i < s.len() implies is_hex(#[trigger] s[i]) by {
        lemma_hex_digit(b[i / 2] as nat / 16);
        lemma_hex_digit(b[i / 2] as nat % 16);
    }
    let back = hex_bytes(s).unwrap();
    assert forall|i: int| 0 <= i < b.len() implies back[i] == b[i] by {
        lemma_hex_digit(b[i] as nat / 16);
        lemma_hex_digit(b[i] as nat % 16);
        assert((2 * i) / 2 == i);
        assert((2 * i + 1) / 2 == i);
    }
    assert(back =~= b);
}

// ---------------------------------------------------------------------------
// Base64, standard alphabet, without padding
// ---------------------------------------------------------------------------

/// The character of a six-bit value in the standard alphabet.
pub open spec fn b64_char(n: nat) -> char {
    if n < 26 {
        (65 + n) as char
    } else if n < 52 {
        (71 + n) as char
    } else if n < 62 {
        (n - 4) as char
    } else if n == 62 {
        '+'
    } else {
        '/'
    }
}

/// Bits `6 * j .. 6 * j + 6` of a byte string, with zeros after its end.
pub open spec fn sextet(b: Seq<u8>, j: int) -> nat {
    let i = 6 * j / 8;
    let hi = b[i] as nat;
    let lo = if i + 1 < b.len() {
        b[i + 1] as nat
    } else {
        0
    };
    let both = hi * 256 + lo;
    if j % 4 == 0 {
        both / 1024 % 64
    } else if j % 4 == 1 {
        both / 16 % 64
    } else if j % 4 == 2 {
        both / 64 % 64
    } else {
        both / 256 % 64
    }
}

/// The base64 form of a byte string: one character for every six bits.
pub open spec fn b64_text(b: Seq<u8>) -> Seq<char> {
    Seq::new(((8 * b.len() + 5) / 6) as nat, |j: int| b64_char(sextet(b, j)))
}

/// Distinct six-bit values have distinct characters.
proof fn lemma_b64_char(a: nat, b: nat)
    requires
        a < 64,
        b < 64,
        b64_char(a) == b64_char(b),
    ensures
        a == b,
{
}

/// The six-bit values at each offset in two neighbouring bytes.
proof fn lemma_two_bytes(x: u32, y: u32)
    requires
        x < 256,
        y < 256,
    ensures
        (x * 256 + y) / 1024 % 64 == x / 4,
        (x * 256 + y) / 16 % 64 == x % 4 * 16 + y / 16,
        (x * 256 + y) / 64 % 64 == x % 16 * 4 + y / 64,
        (x * 256 + y) / 256 % 64 == x % 64,
{
    assert((x * 256 + y) / 1024 % 64 == x / 4) by (bit_vector)
        requires
            x < 256,
            y < 256,
    ;
    assert((x * 256 + y) / 16 % 64 == x % 4 * 16 + y / 16) by (bit_vector)
        requires
            x < 256,
            y < 256,
    ;
    assert((x * 256 + y) / 64 % 64 == x % 16 * 4 + y / 64) by (bit_vector)
        requires
            x < 256,
            y < 256,
    ;
    assert((x * 256 + y) / 256 % 64 == x % 64) by (bit_vector)
        requires
            x < 256,
            y < 256,
    ;
}

spec fn byte_or_zero(b: Seq<u8>, i: int) -> u32 {
    if i < b.len() {
        b[i] as u32
    } else {
        0
    }
}

/// Three bytes are made of their four six-bit values.
proof fn lemma_three_bytes(x: u32, y: u32, z: u32)
    requires
        x < 256,
        y < 256,
        z < 256,
    ensures
        x / 4 * 4 + (x % 4 * 16 + y / 16) / 16 == x,
        (x % 4 * 16 + y / 16) % 16 * 16 + (y % 16 * 4 + z / 64) / 4 == y,
        (y % 16 * 4 + z / 64) % 4 * 64 + z % 64 == z,
{
    assert(x / 4 * 4 + (x % 4 * 16 + y / 16) / 16 == x) by (bit_vector)
        requires
            x < 256,
            y < 256,
    ;
    assert((x % 4 * 16 + y / 16) % 16 * 16 + (y % 16 * 4 + z / 64) / 4 == y) by (bit_vector)
        requires
            x < 256,
            y < 256,
            z < 256,
    ;
    assert((y % 16 * 4 + z / 64) % 4 * 64 + z % 64 == z) by (bit_vector)
        requires
            y < 256,
            z < 256,
    ;
}

/// The first two six-bit values of a group.
proof fn lemma_sextets_low(b: Seq<u8>, g: int)
    requires
        0 <= 3 * g < b.len(),
    ensures
        sextet(b, g * 4) == byte_or_zero(b, 3 * g) / 4,
        sextet(b, g * 4 + 1) == byte_or_zero(b, 3 * g) % 4 * 16 + byte_or_zero(b, 3 * g + 1) / 16,
{
    lemma_two_bytes(byte_or_zero(b, 3 * g), byte_or_zero(b, 3 * g + 1));
    assert(6 * (g * 4) / 8 == 3 * g && (g * 4) % 4 == 0);
    assert(6 * (g * 4 + 1) / 8 == 3 * g && (g * 4 + 1) % 4 == 1);
}

/// The third six-bit value of a group.
proof fn lemma_sextet_third(b: Seq<u8>, g: int)
    requires
        0 <= 3 * g,
        3 * g + 1 < b.len(),
    ensures
        sextet(b, g * 4 + 2) == byte_or_zero(b, 3 * g + 1) % 16 * 4 + byte_or_zero(b, 3 * g + 2)
            / 64,
{
    lemma_two_bytes(byte_or_zero(b, 3 * g + 1), byte_or_zero(b, 3 * g + 2));
    assert(6 * (g * 4 + 2) / 8 == 3 * g + 1 && (g * 4 + 2) % 4 == 2);
}

/// The last six-bit value of a group.
proof fn lemma_sextet_last(b: Seq<u8>, g: int)
    requires
        0 <= 3 * g,
        3 * g + 2 < b.len(),
    ensures
        sextet(b, g * 4 + 3) == byte_or_zero(b, 3 * g + 2) % 64,
{
    lemma_two_bytes(byte_or_zero(b, 3 * g + 2), byte_or_zero(b, 3 * g + 3));
    assert(6 * (g * 4 + 3) / 8 == 3 * g + 2 && (g * 4 + 3) % 4 == 3);
}

/// Byte strings of one length with the same six-bit values have the same bytes.
proof fn lemma_sextets_decide(a: Seq<u8>, b: Seq<u8>, i: int)
    requires
        a.len() == b.len(),
        0 <= i < a.len(),
        forall|j: int| 0 <= j < (8 * a.len() + 5) / 6 ==> #[trigger] sextet(a, j) == sextet(b, j),
    ensures
        a[i] == b[i],
{
    let g = i / 3;
    let n = (8 * a.len() + 5) / 6;
    lemma_three_bytes(
        byte_or_zero(a, 3 * g),
        byte_or_zero(a, 3 * g + 1),
        byte_or_zero(a, 3 * g + 2),
    );
    lemma_three_bytes(
        byte_or_zero(b, 3 * g),
        byte_or_zero(b, 3 * g + 1),
        byte_or_zero(b, 3 * g + 2),
    );
    lemma_sextets_low(a, g);
    lemma_sextets_low(b, g);
    assert(0 <= g * 4 && g * 4 + 1 < n);
    assert(sextet(a, g * 4) == sextet(b, g * 4));
    assert(sextet(a, g * 4 + 1) == sextet(b, g * 4 + 1));
    if i % 3 >= 1 {
        assert(g * 4 + 2 < n);
        lemma_sextet_third(a, g);
        lemma_sextet_third(b, g);
        assert(sextet(a, g * 4 + 2) == sextet(b, g * 4 + 2));
    }
    if i % 3 == 2 {
        assert(g * 4 + 3 < n);
        lemma_sextet_last(a, g);
        lemma_sextet_last(b, g);
        assert(sextet(a, g * 4 + 3) == sextet(b, g * 4 + 3));
    }
}

/// Distinct byte strings have distinct base64 forms.
pub proof fn law_b64_injective(a: Seq<u8>, b: Seq<u8>)
    ensures
        b64_text(a) == b64_text(b) <==> a == b,
{
    if b64_text(a) == b64_text(b) {
        assert(b64_text(a).len() == b64_text(b).len());
        assert(a.len() == b.len());
        assert forall|j: int| 0 <= j < b64_text(a).len() implies sextet(a, j) == sextet(b, j) by {
            assert(b64_text(a)[j] == b64_text(b)[j]);
            lemma_b64_char(sextet(a, j), sextet(b, j));
        }
        assert forall|i: int| 0 <= i < a.len() implies a[i] == b[i] by {
            lemma_sextets_decide(a, b, i);
        }
        assert(a =~= b);
    }
}

/// The bytes that a text writes in base64, where it writes any.
pub open spec fn b64_bytes(s: Seq<char>) -> Option<Seq<u8>> {
    if exists|data: Seq<u8>| #[trigger] b64_text(data) == s {
        Some(choose|data: Seq<u8>| #[trigger] b64_text(data) == s)
    } else {
        None
    }
}

/// Reading back the base64 form of a byte string gives the byte string.
pub proof fn law_b64_roundtrip(data: Seq<u8>)
    ensures
        b64_bytes(b64_text(data)) == Some(data),
{
    let back = choose|d: Seq<u8>| #[trigger] b64_text(d) == b64_text(data);
    law_b64_injective(back, data);
}

/// `base64::engine::general_purpose::STANDARD_NO_PAD.encode`.
#[verifier::external_body]
pub(crate) fn b64_encode(data: &[u8]) -> (r: String)
    ensures
        r@ == b64_text(data@),
{
    base64::engine::general_purpose::STANDARD_NO_PAD.encode(data)
}

/// `base64::engine::general_purpose::STANDARD_NO_PAD.decode`: succeeds exactly on the texts that
/// encoding can give (no padding, no stray trailing bits), with the bytes that encode to the text.
#[verifier::external_body]
pub(crate) fn b64_decode(s: &str) -> (r: Option<Vec<u8>>)
    ensures
        opt_bytes(r) == b64_bytes(s@),
{
    base64::engine::general_purpose::STANDARD_NO_PAD.decode(s.as_bytes()).ok()
}

// ---------------------------------------------------------------------------
// UUIDs
// ---------------------------------------------------------------------------

/// The `n` lowest hexadecimal digits of a number, the highest first.
pub open spec fn hex_digits(id: nat, n: nat) -> Seq<char>
    decreases n,
{
    if n == 0 {
        Seq::empty()
    } else {
        hex_digits(id / 16, (n - 1) as nat).push(hex_digit(id % 16))
    }
}

/// The number that a row of hexadecimal digits stands for.
pub open spec fn hex_number(s: Seq<char>) -> nat
    decreases s.len(),
{
    if s.len() == 0 {
        0
    } else {
        hex_number(s.drop_last()) * 16 + hex_value(s.last())
    }
}

/// The hyphenated lower-case form of a UUID.
pub open spec fn uuid_text(id: u128) -> Seq<char> {
    let h = hex_digits(id as nat, 32);
    h.subrange(0, 8).push('-') + h.subrange(8, 12).push('-') + h.subrange(12, 16).push('-')
        + h.subrange(16, 20).push('-') + h.subrange(20, 32)
}

/// The value of a row of 32 hexadecimal digits.
pub open spec fn uuid_simple(s: Seq<char>) -> Option<u128> {
    if s.len() == 32 && all_hex(s) {
        Some(hex_number(s) as u128)
    } else {
        None
    }
}

/// The value of a hyphenated UUID.
pub open spec fn uuid_hyphenated(s: Seq<char>) -> Option<u128> {
    if s.len() == 36 && s[8] == '-' && s[13] == '-' && s[18] == '-' && s[23] == '-' {
        uuid_simple(
            s.subrange(0, 8) + s.subrange(9, 13) + s.subrange(14, 18) + s.subrange(19, 23)
                + s.subrange(24, 36),
        )
    } else {
        None
    }
}

/// Whether a text is `urn:uuid:` in any mixture of cases.
pub open spec fn is_urn_prefix(s: Seq<char>) -> bool {
    &&& s.len() == 9
    &&& s[0] == 'u' || s[0] == 'U'
    &&& s[1] == 'r' || s[1] == 'R'
    &&& s[2] == 'n' || s[2] == 'N'
    &&& s[3] == ':'
    &&& s[4] == 'u' || s[4] == 'U'
    &&& s[5] == 'u' || s[5] == 'U'
    &&& s[6] == 'i' || s[6] == 'I'
    &&& s[7] == 'd' || s[7] == 'D'
    &&& s[8] == ':'
}

/// The UUID that a text writes, in the simple, hyphenated, braced or URN form.
pub open spec fn uuid_value(s: Seq<char>) -> Option<u128> {
    if s.len() == 32 {
        uuid_simple(s)
    } else if s.len() == 36 {
        uuid_hyphenated(s)
    } else if s.len() == 38 && s[0] == '{' && s[37] == '}' {
        uuid_hyphenated(s.subrange(1, 37))
    } else if s.len() == 45 && is_urn_prefix(s.take(9)) {
        uuid_hyphenated(s.skip(9))
    } else {
        None
    }
}

/// `uuid::Uuid`'s `Display`: the hyphenated lower-case form.
#[verifier::external_body]
pub(crate) fn uuid_to_text(id: u128) -> (r: String)
    ensures
        r@ == uuid_text(id),
{
    uuid::Uuid::from_u128(id).to_string()
}

/// `uuid::Uuid::parse_str`: reads the four forms that the crate writes, hexadecimal digits of
/// either case, and nothing else.
#[verifier::external_body]
pub(crate) fn uuid_parse(s: &str) -> (r: Option<u128>)
    ensures
        r == uuid_value(s@),
{
    uuid::Uuid::parse_str(s).ok().map(|u| u.as_u128())
}

/// `uuid::Uuid::new_v4`: a random identifier, of which nothing more is known.
#[verifier::external_body]
pub(crate) fn uuid_fresh() -> (r: u128) {
    uuid::Uuid::new_v4().as_u128()
}

/// The digits of a number read back as the number.
proof fn lemma_hex_digits(id: nat, n: nat)
    ensures
        hex_digits(id, n).len() == n,
        all_hex(hex_digits(id, n)),
        forall|i: int| 0 <= i < n ==> #[trigger] hex_digits(id, n)[i] != ':',
        id < vstd::arithmetic::power::pow(16, n) ==> hex_number(hex_digits(id, n)) == id,
    decreases n,
{
    vstd::arithmetic::power::lemma_pow0(16);
    if n > 0 {
        let m = (n - 1) as nat;
        lemma_hex_digits(id / 16, m);
        lemma_hex_digit(id % 16);
        let s = hex_digits(id, n);
        assert(s.drop_last() =~= hex_digits(id / 16, m));
        assert forall|i: int| 0 <= i < n implies is_hex(#[trigger] s[i]) && s[i] != ':' by {
            if i < m {
                assert(s[i] == hex_digits(id / 16, m)[i]);
            }
        }
        if id < vstd::arithmetic::power::pow(16, n) {
            vstd::arithmetic::power::lemma_pow_adds(16, 1, m);
            vstd::arithmetic::power::lemma_pow1(16);
            assert(id / 16 < vstd::arithmetic::power::pow(16, m)) by {
                assert(vstd::arithmetic::power::pow(16, n) == 16 * vstd::arithmetic::power::pow(
                    16,
                    m,
                ));
            }
        }
    }
}

/// The written form of an identifier reads back as the identifier, and holds no colon.
pub proof fn law_uuid_roundtrip(id: u128)
    ensures
        uuid_value(uuid_text(id)) == Some(id),
        uuid_text(id).len() == 36,
        !uuid_text(id).contains(':'),
{
    let h = hex_digits(id as nat, 32);
    lemma_hex_digits(id as nat, 32);
    assert(id < vstd::arithmetic::power::pow(16, 32)) by {
        vstd::arithmetic::power::lemma_pow_multiplies(16, 4, 8);
        vstd::arithmetic::power::lemma_pow_multiplies(16, 2, 2);
        vstd::arithmetic::power::lemma_pow_multiplies(65536, 2, 4);
        vstd::arithmetic::power::lemma_pow_multiplies(4294967296, 2, 2);
        assert(vstd::arithmetic::power::pow(16, 2) == 256) by {
            reveal_with_fuel(vstd::arithmetic::power::pow, 3);
        }
        assert(vstd::arithmetic::power::pow(256, 2) == 65536) by {
            reveal_with_fuel(vstd::arithmetic::power::pow, 3);
        }
        assert(vstd::arithmetic::power::pow(65536, 2) == 4294967296) by {
            reveal_with_fuel(vstd::arithmetic::power::pow, 3);
        }
        assert(vstd::arithmetic::power::pow(4294967296, 2) == 18446744073709551616) by {
            reveal_with_fuel(vstd::arithmetic::power::pow, 3);
        }
        assert(vstd::arithmetic::power::pow(18446744073709551616, 2)
            == 340282366920938463463374607431768211456) by {
            reveal_with_fuel(vstd::arithmetic::power::pow, 3);
        }
    }
    let s = uuid_text(id);
    assert(s.subrange(0, 8) + s.subrange(9, 13) + s.subrange(14, 18) + s.subrange(19, 23)
        + s.subrange(24, 36) =~= h);
    assert forall|i: int| 0 <= i < s.len() implies s[i] != ':' by {
        if i < 8 {
            assert(s[i] == h[i]);
        } else if 8 < i < 13 {
            assert(s[i] == h[i - 1]);
        } else if 13 < i < 18 {
            assert(s[i] == h[i - 2]);
        } else if 18 < i < 23 {
            assert(s[i] == h[i - 3]);
        } else if 23 < i {
            assert(s[i] == h[i - 4]);
        }
    }
}

/// Distinct identifiers have distinct written forms.
pub proof fn law_uuid_text_injective(a: u128, b: u128)
    ensures
        uuid_text(a) == uuid_text(b) <==> a == b,
{
    law_uuid_roundtrip(a);
    law_uuid_roundtrip(b);
}

// ---------------------------------------------------------------------------
// Randomness
// ---------------------------------------------------------------------------

/// `getrandom::getrandom`: as many random bytes as asked for, or nothing where the system has no
/// randomness to give. Which bytes come is not stated.
#[verifier::external_body]
pub(crate) fn random_bytes(n: usize) -> (r: Option<Vec<u8>>)
    requires
        n <= 0xffff,
    ensures
        r matches Some(v) ==> v@.len() == n,
{
    let mut buf: Vec<u8> = vec![0u8; n];
    getrandom::getrandom(&mut buf).ok().map(|_| buf)
}

// ---------------------------------------------------------------------------
// Argon2id
// ---------------------------------------------------------------------------

/// The 32-byte Argon2id key of a password and a salt, at the crate's default cost.
pub uninterp spec fn argon2_key(password: Seq<u8>, salt: Seq<u8>) -> Seq<u8>;

/// Whether Argon2id takes a password and a salt of these lengths.
pub open spec fn argon2_accepts(password: Seq<u8>, salt: Seq<u8>) -> bool {
    password.len() <= 0xffff_ffff && 8 <= salt.len() <= 0xffff_ffff
}

/// `argon2::Argon2::default().hash_password_into` with a 32-byte output: fails exactly on a
/// password or a salt that is too long, or a salt of fewer than eight bytes.
#[verifier::external_body]
pub(crate) fn argon2_derive(password: &[u8], salt: &[u8]) -> (r: Option<Vec<u8>>)
    ensures
        r is Some <==> argon2_accepts(password@, salt@),
        r matches Some(key) ==> key@ == argon2_key(password@, salt@) && key@.len() == 32,
{
    let mut key: Vec<u8> = vec![0u8; 32];
    argon2::Argon2::default().hash_password_into(password, salt, &mut key).ok().map(|_| key)
}

// ---------------------------------------------------------------------------
// ChaCha20-Poly1305
// ---------------------------------------------------------------------------

/// The ChaCha20-Poly1305 ciphertext of a message, tag included, without associated data.
pub uninterp spec fn aead_sealed(key: Seq<u8>, nonce: Seq<u8>, message: Seq<u8>) -> Seq<u8>;

/// The message of a ChaCha20-Poly1305 ciphertext, where its tag is right.
pub uninterp spec fn aead_opened(key: Seq<u8>, nonce: Seq<u8>, ciphertext: Seq<u8>) -> Option<
    Seq<u8>,
>;

/// The most bytes that one key and nonce cover: the 32-bit block counter begins at one and never
/// takes its last value.
pub const MAX_AEAD_BYTES: u64 = 274_877_906_816;

/// The bytes of the authentication tag behind a ciphertext.
pub const AEAD_TAG_BYTES: u64 = 16;

/// Whether a message is short enough for the block counter.
pub open spec fn aead_accepts(message: Seq<u8>) -> bool {
    message.len() <= MAX_AEAD_BYTES
}

/// Whether a ciphertext, tag included, is no longer than one of the longest message.
pub open spec fn aead_fits(ciphertext: Seq<u8>) -> bool {
    ciphertext.len() <= MAX_AEAD_BYTES + AEAD_TAG_BYTES
}

/// `ChaCha20Poly1305::encrypt`: succeeds on every message that the block counter covers. What it
/// gives is longer by the tag, and opens to the message under the same key and nonce.
#[verifier::external_body]
pub(crate) fn aead_encrypt(key: &[u8], nonce: &[u8], message: &[u8]) -> (r: Option<Vec<u8>>)
    requires
        key@.len() == 32,
        nonce@.len() == 12,
        aead_accepts(message@),
    ensures
        r is Some,
        opt_bytes(r) == Some(aead_sealed(key@, nonce@, message@)),
        r matches Some(c) ==> c@.len() == message@.len() + AEAD_TAG_BYTES,
        r matches Some(c) ==> aead_opened(key@, nonce@, c@) == Some(message@),
{
    let cipher = chacha20poly1305::ChaCha20Poly1305::new(chacha20poly1305::Key::from_slice(key));
    cipher.encrypt(chacha20poly1305::Nonce::from_slice(nonce), message).ok()
}

/// `ChaCha20Poly1305::decrypt`: the message, or nothing where the ciphertext is not authentic. A
/// ciphertext opens only where it is what the message seals to under the same key and nonce. That one
/// which was changed, or sealed under another key, does not open is not stated: a tag can be right by
/// chance.
#[verifier::external_body]
pub(crate) fn aead_decrypt(key: &[u8], nonce: &[u8], ciphertext: &[u8]) -> (r: Option<Vec<u8>>)
    requires
        key@.len() == 32,
        nonce@.len() == 12,
        aead_fits(ciphertext@),
    ensures
        opt_bytes(r) == aead_opened(key@, nonce@, ciphertext@),
        r matches Some(m) ==> m@.len() + AEAD_TAG_BYTES == ciphertext@.len(),
        r matches Some(m) ==> aead_sealed(key@, nonce@, m@) == ciphertext@,
{
    let cipher = chacha20poly1305::ChaCha20Poly1305::new(chacha20poly1305::Key::from_slice(key));
    cipher.decrypt(chacha20poly1305::Nonce::from_slice(nonce), ciphertext).ok()
}

// ---------------------------------------------------------------------------
// Semantic versions
// ---------------------------------------------------------------------------

/// The parts of a semantic version.
#[derive(Debug, Clone, PartialEq, Eq)]
pub struct SemVer {
    pub major: u64,
    pub minor: u64,
    pub patch: u64,
    /// The pre-release part, without its hyphen.
    pub pre: String,
    /// The build metadata, without its plus sign.
    pub build: String,
}

/// The model of a [`SemVer`].
pub struct VersionView {
    pub major: u64,
    pub minor: u64,
    pub patch: u64,
    pub pre: Seq<char>,
    pub build: Seq<char>,
}

impl View for SemVer {
    type V = VersionView;

    open spec fn view(&self) -> VersionView {
        VersionView {
            major: self.major,
            minor: self.minor,
            patch: self.patch,
            pre: self.pre@,
            build: self.build@,
        }
    }
}

/// The view of an optional version.
pub open spec fn opt_version(v: Option<SemVer>) -> Option<VersionView> {
    match v {
        Some(v) => Some(v@),
        None => None,
    }
}

/// The version that a text writes, where it writes one.
pub uninterp spec fn semver_value(s: Seq<char>) -> Option<VersionView>;

/// Whether one pre-release part comes after another.
pub uninterp spec fn semver_pre_after(a: Seq<char>, b: Seq<char>) -> bool;

/// Whether one part of build metadata comes after another.
pub uninterp spec fn semver_build_after(a: Seq<char>, b: Seq<char>) -> bool;

/// `semver::Version::parse`, with the version taken apart: a function of the text.
#[verifier::external_body]
pub(crate) fn semver_parse(s: &str) -> (r: Option<SemVer>)
    ensures
        opt_version(r) == semver_value(s@),
{
    semver::Version::parse(s).ok().map(
        |v| SemVer {
            major: v.major,
            minor: v.minor,
            patch: v.patch,
            pre: v.pre.as_str().to_owned(),
            build: v.build.as_str().to_owned(),
        },
    )
}

/// The order of `semver::Prerelease`: a function of the two texts. A text that `Prerelease::new`
/// refuses comes before every other.
#[verifier::external_body]
pub(crate) fn pre_after(a: &str, b: &str) -> (r: bool)
    ensures
        r == semver_pre_after(a@, b@),
{
    semver::Prerelease::new(a).ok() > semver::Prerelease::new(b).ok()
}

/// The order of `semver::BuildMetadata`: a function of the two texts. A text that
/// `BuildMetadata::new` refuses comes before every other.
#[verifier::external_body]
pub(crate) fn build_after(a: &str, b: &str) -> (r: bool)
    ensures
        r == semver_build_after(a@, b@),
{
    semver::BuildMetadata::new(a).ok() > semver::BuildMetadata::new(b).ok()
}

} // verus!
