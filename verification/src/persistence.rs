//! On-disk relay state: the layout of the state file, the encryption of the private keys at rest,
//! and what is taken over from an older layout.

use crate::meta_store::{auth_pairs, bundle_views};
use crate::outside::{
    aead_accepts, aead_decrypt, aead_encrypt, aead_fits, aead_opened, aead_sealed, argon2_accepts,
    argon2_derive, argon2_key, b64_encode, b64_text, hex_bytes, hex_decode, hex_encode, hex_text,
    law_hex_roundtrip, opt_bytes, random_bytes, uuid_fresh, uuid_text, uuid_to_text, AEAD_TAG_BYTES,
    MAX_AEAD_BYTES,
};
use crate::protocol::{RecipientId, StoredEnvelope};
use crate::state::{AuthView, BundleView, HostedBundle, MailboxAuth};
use crate::text::{
    chars_of, is_space, opt_str_view, opt_view, text_len, trim, trim_end_spec, trim_start_spec,
    trimmed,
};
use vstd::prelude::*;
use vstd::utf8::*;

verus! {

/// The name of the state file.
pub open spec fn state_file_name() -> Seq<char> {
    "relay-state.json"@
}

/// A file in a directory.
pub open spec fn joined(dir: Seq<char>, name: Seq<char>) -> Seq<char> {
    if dir.len() == 0 {
        name
    } else if dir.last() == '/' {
        dir + name
    } else {
        dir.push('/') + name
    }
}

/// The path of a file in a directory.
pub fn join_path(dir: &str, name: &str) -> (r: String)
    ensures
        r@ == joined(dir@, name@),
{
    let chars: Vec<char> = chars_of(dir);
    if chars.len() == 0 {
        return name.to_owned();
    }
    let mut out: String = dir.to_owned();
    if chars[chars.len() - 1] != '/' {
        out.push('/');
    }
    out.append(name);
    out
}

/// The path of the state file in the data directory.
pub fn disk_state_path(data_dir: &str) -> (r: String)
    ensures
        r@ == joined(data_dir@, state_file_name()),
{
    join_path(data_dir, "relay-state.json")
}

/// The name under which a file is written before it takes the place of `name`.
pub open spec fn temp_name(name: Seq<char>, id: u128) -> Seq<char> {
    name.push('.') + uuid_text(id) + ".tmp"@
}

/// The name of the temporary file that belongs to `name` and an identifier.
pub fn temp_file_name_for(name: &str, id: u128) -> (r: String)
    ensures
        r@ == temp_name(name@, id),
{
    let mut out: String = name.to_owned();
    out.push('.');
    let text: String = uuid_to_text(id);
    out.append(text.as_str());
    out.append(".tmp");
    out
}

/// The name of a fresh temporary file that belongs to `name`.
pub fn temp_file_name(name: &str) -> (r: String)
    ensures
        exists|id: u128| r@ == #[trigger] temp_name(name@, id),
{
    let id: u128 = uuid_fresh();
    let r: String = temp_file_name_for(name, id);
    proof {
        assert(r@ == temp_name(name@, id));
    }
    r
}

// ---------------------------------------------------------------------------
// The state file
// ---------------------------------------------------------------------------

/// The private keys of the relay.
#[derive(Debug, Clone, PartialEq, Eq)]
pub struct DiskCrypto {
    pub trust_root_public: Vec<u8>,
    pub trust_root_private: Vec<u8>,
    pub server_signing_public: Vec<u8>,
    pub server_signing_private: Vec<u8>,
}

/// The encrypted private keys: the salt of the key derivation, the nonce and the ciphertext, each in
/// hexadecimal.
#[derive(Debug, Clone, PartialEq, Eq)]
pub struct EncryptedCryptoBlob {
    pub salt: String,
    pub nonce: String,
    pub ciphertext: String,
}

/// The model of an [`EncryptedCryptoBlob`].
pub struct BlobView {
    pub salt: Seq<char>,
    pub nonce: Seq<char>,
    pub ciphertext: Seq<char>,
}

impl View for EncryptedCryptoBlob {
    type V = BlobView;

    open spec fn view(&self) -> BlobView {
        BlobView { salt: self.salt@, nonce: self.nonce@, ciphertext: self.ciphertext@ }
    }
}

/// The public trust root as clients are told it: in base64, without padding.
pub fn trust_root_text(public_key: &[u8]) -> (r: String)
    ensures
        r@ == b64_text(public_key@),
{
    b64_encode(public_key)
}

/// What the state file holds. Private keys in the clear, mailbox records, queues and bundles are
/// read from a file of an older layout and never written.
#[derive(Debug, Clone, PartialEq, Eq)]
pub struct DiskState {
    pub crypto: Option<DiskCrypto>,
    pub encrypted_crypto: Option<EncryptedCryptoBlob>,
    pub mailbox_auth: Vec<(RecipientId, MailboxAuth)>,
    pub queues: Vec<(RecipientId, Vec<StoredEnvelope>)>,
    pub bundles: Vec<HostedBundle>,
}

/// A record of the older layout, which kept a single delivery token, with the token in its list.
pub open spec fn with_listed_token(a: AuthView) -> AuthView {
    if a.hashes.len() == 0 && a.primary.len() > 0 {
        AuthView { hashes: a.hashes.push(a.primary), ..a }
    } else {
        a
    }
}

/// Records with every single delivery token in its list.
pub open spec fn listed_tokens(v: Seq<(Seq<char>, AuthView)>) -> Seq<(Seq<char>, AuthView)> {
    Seq::new(v.len(), |i: int| (v[i].0, with_listed_token(v[i].1)))
}

/// The bundles that have not expired.
pub open spec fn unexpired(v: Seq<BundleView>, now: u64) -> Seq<BundleView> {
    v.filter(|b: BundleView| b.expires_at_ms > now)
}

impl DiskState {
    /// A state file without anything.
    pub fn empty() -> (r: DiskState)
        ensures
            r.crypto is None,
            r.encrypted_crypto is None,
            r.mailbox_auth@.len() == 0,
            r.queues@.len() == 0,
            r.bundles@.len() == 0,
    {
        DiskState {
            crypto: None,
            encrypted_crypto: None,
            mailbox_auth: Vec::new(),
            queues: Vec::new(),
            bundles: Vec::new(),
        }
    }

    /// The state file that is written: the encrypted keys and nothing else.
    pub fn crypto_only(blob: EncryptedCryptoBlob) -> (r: DiskState)
        ensures
            r.crypto is None,
            r.encrypted_crypto == Some(blob),
            r.mailbox_auth@.len() == 0,
            r.queues@.len() == 0,
            r.bundles@.len() == 0,
    {
        DiskState {
            crypto: None,
            encrypted_crypto: Some(blob),
            mailbox_auth: Vec::new(),
            queues: Vec::new(),
            bundles: Vec::new(),
        }
    }

    /// Whether the file holds private keys in the clear and no encrypted ones.
    pub fn has_plaintext_keys(&self) -> (r: bool)
        ensures
            r == (self.crypto is Some && self.encrypted_crypto is None),
    {
        self.crypto.is_some() && self.encrypted_crypto.is_none()
    }

    /// The number of envelopes in the queues of the older layout, as far as a `usize` can count.
    pub fn legacy_queued(&self) -> (r: usize)
        ensures
            r == crate::queue_store::capped(queued_envelopes(self.queues@)),
    {
        let mut total: usize = 0;
        let mut i: usize = 0;
        while i < self.queues.len()
            invariant
                i <= self.queues@.len(),
                total == crate::queue_store::capped(queued_envelopes(self.queues@.take(i as int))),
            decreases self.queues@.len() - i,
        {
            proof {
                assert(self.queues@.take(i + 1).drop_last() =~= self.queues@.take(i as int));
            }
            total = total.saturating_add(self.queues[i].1.len());
            i += 1;
        }
        proof {
            assert(self.queues@.take(self.queues@.len() as int) =~= self.queues@);
        }
        total
    }
}

/// The number of envelopes in queues.
pub open spec fn queued_envelopes(queues: Seq<(RecipientId, Vec<StoredEnvelope>)>) -> nat
    decreases queues.len(),
{
    if queues.len() == 0 {
        0
    } else {
        queued_envelopes(queues.drop_last()) + queues.last().1@.len()
    }
}

/// Drops expired bundles and brings records of the older layout up to date.
pub fn prune_disk_state(disk: DiskState, now: u64) -> (r: DiskState)
    ensures
        r.crypto == disk.crypto,
        r.encrypted_crypto == disk.encrypted_crypto,
        r.queues == disk.queues,
        bundle_views(r.bundles@) == unexpired(bundle_views(disk.bundles@), now),
        auth_pairs(r.mailbox_auth@) == listed_tokens(auth_pairs(disk.mailbox_auth@)),
{
    let DiskState { crypto, encrypted_crypto, mailbox_auth, queues, bundles } = disk;
    let ghost all = bundle_views(bundles@);
    let ghost p = |b: BundleView| b.expires_at_ms > now;
    let mut kept: Vec<HostedBundle> = Vec::new();
    proof {
        reveal(Seq::filter);
        assert(all.take(0) =~= Seq::empty());
        assert(bundle_views(kept@) =~= all.take(0).filter(p));
    }
    for bundle in it: bundles
        invariant
            it.seq() == bundles@,
            all == bundle_views(bundles@),
            p == (|b: BundleView| b.expires_at_ms > now),
            bundle_views(kept@) == all.take(it.index() as int).filter(p),
    {
        let ghost i = it.index() as int;
        proof {
            reveal(Seq::filter);
            assert(all.take(i + 1).drop_last() =~= all.take(i));
            assert(all.take(i + 1).last() == bundle@);
        }
        if bundle.expires_at_ms > now {
            let ghost before = kept@;
            let ghost view = bundle@;
            kept.push(bundle);
            proof {
                assert(bundle_views(kept@) =~= bundle_views(before).push(view));
            }
        }
    }
    proof {
        assert(all.take(all.len() as int) =~= all);
    }

    let ghost records = auth_pairs(mailbox_auth@);
    let mut listed: Vec<(RecipientId, MailboxAuth)> = Vec::new();
    for item in it: mailbox_auth
        invariant
            it.seq() == mailbox_auth@,
            records == auth_pairs(mailbox_auth@),
            listed@.len() == it.index(),
            forall|j: int|
                0 <= j < listed@.len() ==> (#[trigger] listed@[j]).0@ == records[j].0
                    && listed@[j].1@ == with_listed_token(records[j].1),
    {
        let ghost i = it.index() as int;
        proof {
            assert(item == mailbox_auth@[i]);
        }
        let (rid, auth) = item;
        let mut record: MailboxAuth = auth;
        if record.delivery_token_hashes.len() == 0
            && text_len(record.delivery_token_hash.as_str()) > 0 {
            let token: String = record.delivery_token_hash.clone();
            let ghost before = record.delivery_token_hashes@;
            record.delivery_token_hashes.push(token);
            proof {
                assert(crate::text::views(record.delivery_token_hashes@) =~= crate::text::views(
                    before,
                ).push(token@));
            }
        }
        proof {
            crate::state::lemma_no_bytes(records[i].1.primary);
        }
        listed.push((rid, record));
    }
    proof {
        assert(auth_pairs(listed@) =~= listed_tokens(records));
    }
    DiskState { crypto, encrypted_crypto, mailbox_auth: listed, queues, bundles: kept }
}

/// The state file over live mailboxes, queues and bundles: the keys only in encrypted form.
pub fn snapshot_disk_state(
    mailbox_auth: Vec<(RecipientId, MailboxAuth)>,
    queues: Vec<(RecipientId, Vec<StoredEnvelope>)>,
    bundles: Vec<HostedBundle>,
    blob: EncryptedCryptoBlob,
    now: u64,
) -> (r: DiskState)
    ensures
        r.crypto is None,
        r.encrypted_crypto == Some(blob),
        r.queues == queues,
        bundle_views(r.bundles@) == unexpired(bundle_views(bundles@), now),
        auth_pairs(r.mailbox_auth@) == listed_tokens(auth_pairs(mailbox_auth@)),
{
    let disk: DiskState = DiskState {
        crypto: None,
        encrypted_crypto: Some(blob),
        mailbox_auth,
        queues,
        bundles,
    };
    prune_disk_state(disk, now)
}

/// The keys of a batch, each with the model of its value.
pub open spec fn batch_pairs<T: View>(batch: Seq<(String, Option<T>)>) -> Seq<
    (Seq<char>, Option<T::V>),
> {
    Seq::new(
        batch.len(),
        |i: int|
            (
                batch[i].0@,
                match batch[i].1 {
                    Some(v) => Some(v@),
                    None => None,
                },
            ),
    )
}

/// Bundles, each under its identifier.
pub open spec fn keyed_bundles(v: Seq<BundleView>) -> Seq<(Seq<char>, BundleView)> {
    Seq::new(v.len(), |i: int| (v[i].id, v[i]))
}

/// What an older layout hands over to a table: everything, where the table has nothing yet.
pub open spec fn taken_over<V>(table_is_empty: bool, items: Seq<(Seq<char>, V)>) -> Seq<
    (Seq<char>, Option<V>),
> {
    if table_is_empty {
        Seq::new(items.len(), |i: int| (items[i].0, Some(items[i].1)))
    } else {
        Seq::empty()
    }
}

/// The records of the older layout that are taken over: all of them, where the table has none yet.
pub fn legacy_auth_batch(table_is_empty: bool, records: Vec<(RecipientId, MailboxAuth)>) -> (r: Vec<
    (RecipientId, Option<MailboxAuth>),
>)
    ensures
        !table_is_empty ==> r@.len() == 0,
        table_is_empty ==> r@.len() == records@.len() && forall|i: int|
            0 <= i < r@.len() ==> (#[trigger] r@[i]).0 == records@[i].0 && r@[i].1 == Some(
                records@[i].1,
            ),
        batch_pairs(r@) == taken_over(table_is_empty, auth_pairs(records@)),
{
    let mut out: Vec<(RecipientId, Option<MailboxAuth>)> = Vec::new();
    if table_is_empty {
        for item in it: records
            invariant
                it.seq() == records@,
                out@.len() == it.index(),
                forall|j: int|
                    0 <= j < out@.len() ==> (#[trigger] out@[j]).0 == records@[j].0 && out@[j].1
                        == Some(records@[j].1),
        {
            let (rid, auth) = item;
            out.push((rid, Some(auth)));
        }
    }
    proof {
        assert(batch_pairs(out@) =~= taken_over(table_is_empty, auth_pairs(records@)));
    }
    out
}

/// The bundles of the older layout that are taken over: all of them, where the table has none yet.
pub fn legacy_bundle_batch(table_is_empty: bool, bundles: Vec<HostedBundle>) -> (r: Vec<
    (String, Option<HostedBundle>),
>)
    ensures
        !table_is_empty ==> r@.len() == 0,
        table_is_empty ==> r@.len() == bundles@.len() && forall|i: int|
            0 <= i < r@.len() ==> (#[trigger] r@[i]).0@ == bundles@[i].id@ && r@[i].1 == Some(
                bundles@[i],
            ),
        batch_pairs(r@) == taken_over(table_is_empty, keyed_bundles(bundle_views(bundles@))),
{
    let mut out: Vec<(String, Option<HostedBundle>)> = Vec::new();
    if table_is_empty {
        for bundle in it: bundles
            invariant
                it.seq() == bundles@,
                out@.len() == it.index(),
                forall|j: int|
                    0 <= j < out@.len() ==> (#[trigger] out@[j]).0@ == bundles@[j].id@ && out@[j].1
                        == Some(bundles@[j]),
        {
            let id: String = bundle.id.clone();
            out.push((id, Some(bundle)));
        }
    }
    proof {
        assert(batch_pairs(out@) =~= taken_over(
            table_is_empty,
            keyed_bundles(bundle_views(bundles@)),
        ));
    }
    out
}

// ---------------------------------------------------------------------------
// Encryption at rest
// ---------------------------------------------------------------------------

/// Why private keys could not be encrypted or decrypted.
#[derive(Debug, Clone, Copy, PartialEq, Eq, Structural)]
pub enum KeyError {
    /// The system has no randomness to give.
    Randomness,
    /// The key derivation does not take the secret or the salt.
    Derivation,
    /// The cipher does not take the message.
    Encrypt,
    /// A part of the blob is not hexadecimal.
    Encoding,
    /// The nonce does not have twelve bytes.
    NonceLength,
    /// The ciphertext is not authentic under the secret.
    Decrypt,
}

/// An error in words.
pub open spec fn error_words(e: KeyError) -> Seq<char> {
    match e {
        KeyError::Randomness => "no randomness available"@,
        KeyError::Derivation => "Argon2id derivation failed"@,
        KeyError::Encrypt => "ChaCha20Poly1305 encrypt failed"@,
        KeyError::Encoding => "invalid hexadecimal encoding"@,
        KeyError::NonceLength => "invalid nonce length"@,
        KeyError::Decrypt => "failed to decrypt relay keys — is AXENO_KEY correct?"@,
    }
}

impl KeyError {
    /// The error in words.
    pub fn message(self) -> (r: &'static str)
        ensures
            r@ == error_words(self),
    {
        match self {
            KeyError::Randomness => "no randomness available",
            KeyError::Derivation => "Argon2id derivation failed",
            KeyError::Encrypt => "ChaCha20Poly1305 encrypt failed",
            KeyError::Encoding => "invalid hexadecimal encoding",
            KeyError::NonceLength => "invalid nonce length",
            KeyError::Decrypt => "failed to decrypt relay keys — is AXENO_KEY correct?",
        }
    }
}

/// The view of an encryption.
pub open spec fn blob_result(r: Result<EncryptedCryptoBlob, KeyError>) -> Result<BlobView, KeyError> {
    match r {
        Ok(b) => Ok(b@),
        Err(e) => Err(e),
    }
}

/// The view of a decryption.
pub open spec fn bytes_result(r: Result<Vec<u8>, KeyError>) -> Result<Seq<u8>, KeyError> {
    match r {
        Ok(b) => Ok(b@),
        Err(e) => Err(e),
    }
}

/// Encryption of a message under a secret, with a given salt and nonce.
pub open spec fn sealed(
    message: Seq<u8>,
    secret: Seq<char>,
    salt: Seq<u8>,
    nonce: Seq<u8>,
) -> Result<BlobView, KeyError> {
    let password = encode_utf8(secret);
    if !argon2_accepts(password, salt) {
        Err(KeyError::Derivation)
    } else if !aead_accepts(message) {
        Err(KeyError::Encrypt)
    } else {
        Ok(
            BlobView {
                salt: hex_text(salt),
                nonce: hex_text(nonce),
                ciphertext: hex_text(aead_sealed(argon2_key(password, salt), nonce, message)),
            },
        )
    }
}

/// Decryption of a blob under a secret.
pub open spec fn opened(blob: BlobView, secret: Seq<char>) -> Result<Seq<u8>, KeyError> {
    let password = encode_utf8(secret);
    match hex_bytes(blob.salt) {
        None => Err(KeyError::Encoding),
        Some(salt) => if !argon2_accepts(password, salt) {
            Err(KeyError::Derivation)
        } else {
            match hex_bytes(blob.nonce) {
                None => Err(KeyError::Encoding),
                Some(nonce) => if nonce.len() != 12 {
                    Err(KeyError::NonceLength)
                } else {
                    match hex_bytes(blob.ciphertext) {
                        None => Err(KeyError::Encoding),
                        Some(ciphertext) => if !aead_fits(ciphertext) {
                            Err(KeyError::Decrypt)
                        } else {
                            match aead_opened(argon2_key(password, salt), nonce, ciphertext) {
                                None => Err(KeyError::Decrypt),
                                Some(message) => Ok(message),
                            }
                        },
                    }
                },
            }
        },
    }
}

/// Whether the ciphertext of a blob is what a message seals to under a secret and the salt and nonce
/// of the blob.
pub open spec fn seals_to(blob: BlobView, secret: Seq<char>, message: Seq<u8>) -> bool {
    match (hex_bytes(blob.salt), hex_bytes(blob.nonce), hex_bytes(blob.ciphertext)) {
        (Some(salt), Some(nonce), Some(ciphertext)) => {
            &&& ciphertext == aead_sealed(argon2_key(encode_utf8(secret), salt), nonce, message)
            &&& ciphertext.len() == message.len() + AEAD_TAG_BYTES
        },
        _ => false,
    }
}

/// A blob decrypts only where every part is hexadecimal, the nonce has twelve bytes, and the key
/// derivation and the cipher take the lengths.
pub proof fn law_malformed_blob_is_refused(blob: BlobView, secret: Seq<char>)
    ensures
        opened(blob, secret) is Ok ==> match (
            hex_bytes(blob.salt),
            hex_bytes(blob.nonce),
            hex_bytes(blob.ciphertext),
        ) {
            (Some(salt), Some(nonce), Some(ciphertext)) => argon2_accepts(encode_utf8(secret), salt)
                && nonce.len() == 12 && aead_fits(ciphertext),
            _ => false,
        },
{
}

/// A blob whose ciphertext was changed never stands for the same message: under one secret, salt
/// and nonce a message has one ciphertext.
pub proof fn law_changed_ciphertext_is_another_message(
    a: BlobView,
    b: BlobView,
    secret: Seq<char>,
    message: Seq<u8>,
)
    requires
        hex_bytes(a.salt) == hex_bytes(b.salt),
        hex_bytes(a.nonce) == hex_bytes(b.nonce),
        seals_to(a, secret, message),
        seals_to(b, secret, message),
    ensures
        hex_bytes(a.ciphertext) == hex_bytes(b.ciphertext),
{
}

/// The encryption key of a secret and a salt.
pub open spec fn derived_key(secret: Seq<char>, salt: Seq<u8>) -> Result<Seq<u8>, KeyError> {
    if argon2_accepts(encode_utf8(secret), salt) {
        Ok(argon2_key(encode_utf8(secret), salt))
    } else {
        Err(KeyError::Derivation)
    }
}

/// The encryption key of a secret and a salt.
pub fn derive_key_from_env(env_key: &str, salt: &[u8]) -> (r: Result<Vec<u8>, KeyError>)
    ensures
        bytes_result(r) == derived_key(env_key@, salt@),
        r matches Ok(key) ==> key@.len() == 32,
{
    match argon2_derive(env_key.as_bytes(), salt) {
        Some(key) => Ok(key),
        None => Err(KeyError::Derivation),
    }
}

/// Encrypts a message under a secret, with a given salt and nonce. What comes out decrypts to the
/// message under the same secret.
pub fn seal_with(message: &[u8], env_key: &str, salt: &[u8], nonce: &[u8]) -> (r: Result<
    EncryptedCryptoBlob,
    KeyError,
>)
    requires
        nonce@.len() == 12,
    ensures
        blob_result(r) == sealed(message@, env_key@, salt@, nonce@),
        r matches Ok(blob) ==> opened(blob@, env_key@) == Ok::<Seq<u8>, KeyError>(message@),
        r matches Ok(blob) ==> seals_to(blob@, env_key@, message@),
{
    match derive_key_from_env(env_key, salt) {
        Err(e) => Err(e),
        Ok(key) => {
            if message.len() as u64 > MAX_AEAD_BYTES {
                return Err(KeyError::Encrypt);
            }
            match aead_encrypt(key.as_slice(), nonce, message) {
                None => Err(KeyError::Encrypt),
                Some(ciphertext) => {
                    proof {
                        law_hex_roundtrip(salt@);
                        law_hex_roundtrip(nonce@);
                        law_hex_roundtrip(ciphertext@);
                    }
                    Ok(
                        EncryptedCryptoBlob {
                            salt: hex_encode(salt),
                            nonce: hex_encode(nonce),
                            ciphertext: hex_encode(ciphertext.as_slice()),
                        },
                    )
                },
            }
        },
    }
}

/// Encrypts serialized private keys under a secret, with a fresh salt of sixteen bytes and a fresh
/// nonce.
pub fn encrypt_disk_crypto(crypto: &[u8], env_key: &str) -> (r: Result<
    EncryptedCryptoBlob,
    KeyError,
>)
    ensures
        r matches Ok(blob) ==> opened(blob@, env_key@) == Ok::<Seq<u8>, KeyError>(crypto@)
            && exists|salt: Seq<u8>, nonce: Seq<u8>|
            salt.len() == 16 && nonce.len() == 12 && #[trigger] sealed(
                crypto@,
                env_key@,
                salt,
                nonce,
            ) == Ok::<BlobView, KeyError>(blob@),
        r matches Ok(blob) ==> seals_to(blob@, env_key@, crypto@),
        r matches Err(e) ==> e == KeyError::Randomness || (e == KeyError::Derivation && encode_utf8(
            env_key@,
        ).len() > 0xffff_ffff) || (e == KeyError::Encrypt && !aead_accepts(crypto@)),
{
    let salt: Vec<u8> = match random_bytes(16) {
        Some(b) => b,
        None => {
            return Err(KeyError::Randomness);
        },
    };
    let nonce: Vec<u8> = match random_bytes(12) {
        Some(b) => b,
        None => {
            return Err(KeyError::Randomness);
        },
    };
    let r: Result<EncryptedCryptoBlob, KeyError> = seal_with(
        crypto,
        env_key,
        salt.as_slice(),
        nonce.as_slice(),
    );
    proof {
        assert(blob_result(r) == sealed(crypto@, env_key@, salt@, nonce@));
    }
    r
}

/// Decrypts serialized private keys under a secret. What comes out seals to the ciphertext of the
/// blob. That a changed ciphertext, or another secret, gives nothing is not stated: it holds but for
/// chance.
pub fn decrypt_disk_crypto(blob: &EncryptedCryptoBlob, env_key: &str) -> (r: Result<
    Vec<u8>,
    KeyError,
>)
    ensures
        bytes_result(r) == opened(blob@, env_key@),
        r matches Ok(message) ==> seals_to(blob@, env_key@, message@),
{
    let salt: Vec<u8> = match hex_decode(blob.salt.as_str()) {
        Some(b) => b,
        None => {
            return Err(KeyError::Encoding);
        },
    };
    let key: Vec<u8> = match derive_key_from_env(env_key, salt.as_slice()) {
        Ok(k) => k,
        Err(e) => {
            return Err(e);
        },
    };
    let nonce: Vec<u8> = match hex_decode(blob.nonce.as_str()) {
        Some(b) => b,
        None => {
            return Err(KeyError::Encoding);
        },
    };
    if nonce.len() != 12 {
        return Err(KeyError::NonceLength);
    }
    let ciphertext: Vec<u8> = match hex_decode(blob.ciphertext.as_str()) {
        Some(b) => b,
        None => {
            return Err(KeyError::Encoding);
        },
    };
    if ciphertext.len() as u64 > MAX_AEAD_BYTES + AEAD_TAG_BYTES {
        return Err(KeyError::Decrypt);
    }
    match aead_decrypt(key.as_slice(), nonce.as_slice(), ciphertext.as_slice()) {
        Some(message) => Ok(message),
        None => Err(KeyError::Decrypt),
    }
}

// ---------------------------------------------------------------------------
// The secret
// ---------------------------------------------------------------------------

/// Where the secret for the private keys comes from.
#[derive(Debug, Clone, PartialEq, Eq)]
pub enum KeySource {
    /// The secret itself.
    Literal { secret: String },
    /// A file that holds the secret.
    File { path: String },
    /// The key file in the data directory.
    Local,
}

/// The model of a [`KeySource`].
pub enum SourceView {
    Literal { secret: Seq<char> },
    File { path: Seq<char> },
    Local,
}

impl View for KeySource {
    type V = SourceView;

    open spec fn view(&self) -> SourceView {
        match *self {
            KeySource::Literal { secret } => SourceView::Literal { secret: secret@ },
            KeySource::File { path } => SourceView::File { path: path@ },
            KeySource::Local => SourceView::Local,
        }
    }
}

/// Whether an environment value is there and not empty.
pub open spec fn is_given(value: Option<Seq<char>>) -> bool {
    value is Some && value->Some_0.len() > 0
}

/// The source of the secret: a literal value first, then a named file, then the local key file. An
/// empty value counts as none.
pub open spec fn source_of(key: Option<Seq<char>>, key_file: Option<Seq<char>>) -> SourceView {
    if is_given(key) {
        SourceView::Literal { secret: key->Some_0 }
    } else if is_given(key_file) {
        SourceView::File { path: key_file->Some_0 }
    } else {
        SourceView::Local
    }
}

/// The value of an environment variable that is there and not empty.
fn given(value: Option<&str>) -> (r: Option<String>)
    ensures
        opt_view(r) == (if is_given(opt_str_view(value)) {
            opt_str_view(value)
        } else {
            None
        }),
{
    match value {
        Some(v) => {
            proof {
                crate::state::lemma_no_bytes(v@);
            }
            if text_len(v) == 0 {
                None
            } else {
                Some(v.to_owned())
            }
        },
        None => None,
    }
}

/// Where the secret comes from, given the two environment values.
pub fn relay_encryption_key(key: Option<&str>, key_file: Option<&str>) -> (r: KeySource)
    ensures
        r@ == source_of(opt_str_view(key), opt_str_view(key_file)),
{
    if let Some(secret) = given(key) {
        return KeySource::Literal { secret };
    }
    if let Some(path) = given(key_file) {
        return KeySource::File { path };
    }
    KeySource::Local
}

/// The secret in the contents of a key file.
pub open spec fn file_secret(contents: Seq<char>) -> Option<Seq<char>> {
    if trimmed(contents).len() > 0 {
        Some(trimmed(contents))
    } else {
        None
    }
}

/// The secret in the contents of a key file, without the white space around it; a blank file holds
/// none.
pub fn secret_in_file(contents: &str) -> (r: Option<String>)
    ensures
        opt_view(r) == file_secret(contents@),
{
    let secret: String = trim(contents);
    proof {
        crate::state::lemma_no_bytes(secret@);
    }
    if text_len(secret.as_str()) == 0 {
        None
    } else {
        Some(secret)
    }
}

/// What becomes of the secret, once the file that its source names was looked at.
#[derive(Debug, Clone, PartialEq, Eq)]
pub enum SecretPlan {
    /// Use this secret; no file is written.
    Use { secret: String },
    /// Fail: the named file cannot be read.
    Unreadable { path: String },
    /// Fail: the named file is blank.
    Blank { path: String },
    /// Generate a secret and write it to the local key file.
    Generate,
}

/// The model of a [`SecretPlan`].
pub enum SecretView {
    Use { secret: Seq<char> },
    Unreadable { path: Seq<char> },
    Blank { path: Seq<char> },
    Generate,
}

impl View for SecretPlan {
    type V = SecretView;

    open spec fn view(&self) -> SecretView {
        match *self {
            SecretPlan::Use { secret } => SecretView::Use { secret: secret@ },
            SecretPlan::Unreadable { path } => SecretView::Unreadable { path: path@ },
            SecretPlan::Blank { path } => SecretView::Blank { path: path@ },
            SecretPlan::Generate => SecretView::Generate,
        }
    }
}

/// What becomes of the secret, where `contents` is what the file of the source holds. A named file
/// that is blank or cannot be read is an error and never leads to another source; a local key file
/// that is blank or cannot be read is replaced.
pub open spec fn secret_plan(source: SourceView, contents: Option<Seq<char>>) -> SecretView {
    match source {
        SourceView::Literal { secret } => SecretView::Use { secret },
        SourceView::File { path } => match contents {
            None => SecretView::Unreadable { path },
            Some(c) => if trimmed(c).len() > 0 {
                SecretView::Use { secret: trimmed(c) }
            } else {
                SecretView::Blank { path }
            },
        },
        SourceView::Local => match contents {
            Some(c) => if trimmed(c).len() > 0 {
                SecretView::Use { secret: trimmed(c) }
            } else {
                SecretView::Generate
            },
            None => SecretView::Generate,
        },
    }
}

/// Decides on the secret from its source and the contents of the file that the source names; `None`
/// where the file cannot be read.
pub fn resolve_secret(source: KeySource, contents: Option<&str>) -> (r: SecretPlan)
    ensures
        r@ == secret_plan(source@, opt_str_view(contents)),
{
    let found: Option<String> = match contents {
        Some(c) => secret_in_file(c),
        None => None,
    };
    match source {
        KeySource::Literal { secret } => SecretPlan::Use { secret },
        KeySource::File { path } => match found {
            Some(secret) => SecretPlan::Use { secret },
            None => {
                if contents.is_some() {
                    SecretPlan::Blank { path }
                } else {
                    SecretPlan::Unreadable { path }
                }
            },
        },
        KeySource::Local => match found {
            Some(secret) => SecretPlan::Use { secret },
            None => SecretPlan::Generate,
        },
    }
}

/// What becomes of the secret, given the two environment values and what the named file and the
/// local key file hold.
pub open spec fn chosen_secret(
    key: Option<Seq<char>>,
    key_file: Option<Seq<char>>,
    named: Option<Seq<char>>,
    local: Option<Seq<char>>,
) -> SecretView {
    let source = source_of(key, key_file);
    secret_plan(
        source,
        if source is File {
            named
        } else {
            local
        },
    )
}

/// The literal value comes first, as it is; then the named file, whose failure is final; then the
/// local key file, and a generated secret only where that holds none.
pub proof fn law_secret_precedence(
    key: Option<Seq<char>>,
    key_file: Option<Seq<char>>,
    named: Option<Seq<char>>,
    local: Option<Seq<char>>,
)
    ensures
        ({
            let r = chosen_secret(key, key_file, named, local);
            let by_file = !is_given(key) && is_given(key_file);
            let by_local = !is_given(key) && !is_given(key_file);
            &&& is_given(key) ==> r == (SecretView::Use { secret: key->Some_0 })
            &&& by_file && holds_secret(named) ==> r == (SecretView::Use {
                secret: trimmed(named->Some_0),
            })
            &&& by_file && !holds_secret(named) ==> r is Unreadable || r is Blank
            &&& by_local && holds_secret(local) ==> r == (SecretView::Use {
                secret: trimmed(local->Some_0),
            })
            &&& r is Generate <==> by_local && !holds_secret(local)
        }),
{
}

/// Whether a key file can be read and is not blank.
pub open spec fn holds_secret(contents: Option<Seq<char>>) -> bool {
    contents is Some && trimmed(contents->Some_0).len() > 0
}

/// A generated secret is made of 64 lower-case hexadecimal digits, and a local key file that holds
/// it gives the same secret again.
pub proof fn law_generated_secret_is_kept(
    key: Option<Seq<char>>,
    key_file: Option<Seq<char>>,
    named: Option<Seq<char>>,
    raw: Seq<u8>,
)
    requires
        !is_given(key),
        !is_given(key_file),
        raw.len() == 32,
    ensures
        hex_text(raw).len() == 64,
        forall|i: int|
            0 <= i < 64 ==> '0' <= #[trigger] hex_text(raw)[i] <= '9' || 'a' <= hex_text(raw)[i]
                <= 'f',
        chosen_secret(key, key_file, named, secret_text(Some(raw))) == (SecretView::Use {
            secret: hex_text(raw),
        }),
{
    let s = hex_text(raw);
    assert forall|i: int| 0 <= i < 64 implies '0' <= #[trigger] s[i] <= '9' || 'a' <= s[i]
        <= 'f' by {}
    assert(!is_space(s[0]) && !is_space(s[63]));
    assert(trim_start_spec(s) == s);
    assert(s.last() == s[63]);
    assert(trim_end_spec(s) == s);
}

/// The secret that random bytes stand for: the bytes in hexadecimal; none where there are no bytes.
pub open spec fn secret_text(raw: Option<Seq<u8>>) -> Option<Seq<char>> {
    match raw {
        Some(raw) => Some(hex_text(raw)),
        None => None,
    }
}

/// The secret that random bytes stand for, where the system had any to give.
pub fn secret_of(raw: Option<Vec<u8>>) -> (r: Option<String>)
    ensures
        opt_view(r) == secret_text(opt_bytes(raw)),
{
    match raw {
        Some(raw) => Some(hex_encode(raw.as_slice())),
        None => None,
    }
}

/// A fresh random secret of 32 bytes in hexadecimal. Whether the system has randomness to give, and
/// which bytes it gives, is not stated.
pub fn fresh_secret() -> (r: Option<String>)
    ensures
        exists|raw: Option<Seq<u8>>|
            (raw matches Some(b) ==> b.len() == 32) && opt_view(r) == #[trigger] secret_text(raw),
        r matches Some(s) ==> s@.len() == 64,
{
    let raw: Option<Vec<u8>> = random_bytes(32);
    let ghost given = opt_bytes(raw);
    let r: Option<String> = secret_of(raw);
    proof {
        assert(opt_view(r) == secret_text(given));
    }
    r
}

} // verus!
