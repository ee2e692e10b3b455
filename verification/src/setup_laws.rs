//! What the relay reads from and writes to the host around it: the environment file, the key files,
//! the state file, the hidden service and the release check.

use crate::dotenv::{assignment, assignments, unquoted, without_export};
use crate::meta_store::{decoded_auth, decoded_bundles, AuthRow, BundleRow};
use crate::outside::{
    aead_opened, aead_sealed, argon2_key, hex_bytes, law_hex_roundtrip, semver_build_after,
    semver_pre_after, semver_value, uuid_text, AEAD_TAG_BYTES, MAX_AEAD_BYTES, VersionView,
};
use crate::persistence::{
    derived_key, error_words, file_secret, joined, keyed_bundles, listed_tokens, opened,
    queued_envelopes, sealed, secret_plan, source_of, state_file_name, taken_over, temp_name,
    unexpired, with_listed_token, BlobView, KeyError, SecretView, SourceView,
};
use crate::protocol::{RecipientId, StoredEnvelope};
use crate::state::{AuthView, BundleView};
use crate::table::{applied, write_keys, WriteView};
use crate::text::{
    decimal_text, has_part, is_space, law_decimal_roundtrip, law_lines, law_split_first,
    law_trimmed, lowered_text, text_lines, trimmed,
};
use crate::tor::{address_of, hostname_view, is_announcement, torrc_text, HostnameView};
use crate::update_check::{
    mode_of, newer, plan_of, version_after, wait_secs, without_v, CheckPlan, Mode,
    INITIAL_DELAY_SECS,
};
use vstd::prelude::*;
use vstd::utf8::encode_utf8;

verus! {

// ---------------------------------------------------------------------------
// The environment file
// ---------------------------------------------------------------------------

/// The word `export` and a blank at the beginning of a line are passed over, once, and nothing else
/// is.
pub proof fn law_export_is_dropped(s: Seq<char>)
    ensures
        without_export(seq!['e', 'x', 'p', 'o', 'r', 't', ' '] + s) == s,
        s.len() < 7 || s.take(7) != seq!['e', 'x', 'p', 'o', 'r', 't', ' '] ==> without_export(s)
            == s,
{
    reveal_strlit("export ");
    let word = seq!['e', 'x', 'p', 'o', 'r', 't', ' '];
    assert("export "@ =~= word);
    assert((word + s).take(7) =~= word);
    assert((word + s).skip(7) =~= s);
}

/// A value in double or in single quotes loses the pair; any other stays as it is.
pub proof fn law_quotes(s: Seq<char>, q: char)
    ensures
        q == '"' || q == '\'' ==> unquoted(seq![q] + s + seq![q]) == s,
        s.len() < 2 || s[0] != s.last() || (s[0] != '"' && s[0] != '\'') ==> unquoted(s) == s,
{
    let w = seq![q] + s + seq![q];
    assert(w.subrange(1, w.len() - 1) =~= s);
}

/// A line sets a variable exactly where, without the white space around it, it is not empty, is no
/// comment, and has an equals sign with a name before it, with or without the word `export`. The
/// name and the value stand before and behind the first equals sign, without white space around
/// them, and the value without its quotes.
pub proof fn law_assignment(line: Seq<char>, name: Seq<char>, value: Seq<char>, free: Seq<char>)
    requires
        !name.contains('='),
        !free.contains('='),
    ensures
        ({
            let l = trimmed(line);
            let said = l.len() > 0 && l[0] != '#';
            let body = without_export(l);
            &&& !said ==> assignment(line) is None
            &&& said && body == free ==> assignment(line) is None
            &&& said && body == name + seq!['='] + value && trimmed(name).len() == 0 ==> assignment(
                line,
            ) is None
            &&& said && body == name + seq!['='] + value && trimmed(name).len() > 0 ==> assignment(
                line,
            ) == Some((trimmed(name), unquoted(trimmed(value))))
        }),
{
    let body = without_export(trimmed(line));
    law_split_first(body, '=', name, value);
    law_split_first(body, '=', free, value);
}

/// The assignments of a file are those of its lines, in their order.
pub proof fn law_assignments(lines: Seq<Seq<char>>, line: Seq<char>)
    ensures
        assignments(Seq::empty()).len() == 0,
        assignment(line) is None ==> assignments(lines.push(line)) == assignments(lines),
        assignment(line) matches Some(a) ==> assignments(lines.push(line)) == assignments(
            lines,
        ).push(a),
{
    assert(lines.push(line).drop_last() =~= lines);
}

// ---------------------------------------------------------------------------
// Files and keys
// ---------------------------------------------------------------------------

/// A path is the directory, one slash between where it does not end in one, and the name; in no
/// directory it is the name. A temporary name begins with the name and ends in `.tmp`.
pub proof fn law_paths(dir: Seq<char>, name: Seq<char>, id: u128)
    ensures
        dir.len() == 0 ==> joined(dir, name) == name,
        dir.len() > 0 && dir.last() == '/' ==> joined(dir, name) == dir + name,
        dir.len() > 0 && dir.last() != '/' ==> joined(dir, name) == dir + seq!['/'] + name,
        state_file_name() == "relay-state.json"@,
        temp_name(name, id) == name + seq!['.'] + uuid_text(id) + seq!['.', 't', 'm', 'p'],
{
    reveal_strlit(".tmp");
    assert(".tmp"@ =~= seq!['.', 't', 'm', 'p']);
    assert(dir.push('/') =~= dir + seq!['/']);
    assert(name.push('.') =~= name + seq!['.']);
}

/// A sealed blob writes, in hexadecimal, the salt, the nonce, and the ciphertext of the message
/// under the key of the secret and the salt. It is made exactly where the key derivation and the
/// cipher take the lengths.
pub proof fn law_sealed(message: Seq<u8>, secret: Seq<char>, salt: Seq<u8>, nonce: Seq<u8>)
    ensures
        ({
            let derives = encode_utf8(secret).len() <= 0xffff_ffff && 8 <= salt.len()
                <= 0xffff_ffff;
            let takes = message.len() <= MAX_AEAD_BYTES;
            let key = argon2_key(encode_utf8(secret), salt);
            &&& sealed(message, secret, salt, nonce) is Ok <==> derives && takes
            &&& !derives ==> sealed(message, secret, salt, nonce) == Err::<BlobView, KeyError>(
                KeyError::Derivation,
            )
            &&& derives && !takes ==> sealed(message, secret, salt, nonce) == Err::<
                BlobView,
                KeyError,
            >(KeyError::Encrypt)
            &&& sealed(message, secret, salt, nonce) matches Ok(blob) ==> hex_bytes(blob.salt)
                == Some(salt) && hex_bytes(blob.nonce) == Some(nonce) && hex_bytes(blob.ciphertext)
                == Some(aead_sealed(key, nonce, message))
            &&& derived_key(secret, salt) is Ok <==> derives
            &&& derived_key(secret, salt) matches Ok(k) ==> k == key
            &&& !derives ==> derived_key(secret, salt) == Err::<Seq<u8>, KeyError>(
                KeyError::Derivation,
            )
        }),
{
    law_hex_roundtrip(salt);
    law_hex_roundtrip(nonce);
    law_hex_roundtrip(aead_sealed(argon2_key(encode_utf8(secret), salt), nonce, message));
}

/// A blob of a salt, a nonce and a ciphertext opens to exactly what the cipher opens the ciphertext
/// to, under the key of the secret and the salt and with that nonce. Each part that cannot be taken
/// gives its own error, in the order of the parts.
pub proof fn law_opened(
    blob: BlobView,
    secret: Seq<char>,
    salt: Seq<u8>,
    nonce: Seq<u8>,
    ciphertext: Seq<u8>,
)
    ensures
        ({
            let salted = hex_bytes(blob.salt) == Some(salt);
            let derives = encode_utf8(secret).len() <= 0xffff_ffff && 8 <= salt.len()
                <= 0xffff_ffff;
            let nonced = hex_bytes(blob.nonce) == Some(nonce);
            let written = hex_bytes(blob.ciphertext) == Some(ciphertext);
            let found = aead_opened(argon2_key(encode_utf8(secret), salt), nonce, ciphertext);
            let out = opened(blob, secret);
            &&& hex_bytes(blob.salt) is None ==> out == Err::<Seq<u8>, KeyError>(KeyError::Encoding)
            &&& salted && !derives ==> out == Err::<Seq<u8>, KeyError>(KeyError::Derivation)
            &&& salted && derives && hex_bytes(blob.nonce) is None ==> out == Err::<
                Seq<u8>,
                KeyError,
            >(KeyError::Encoding)
            &&& salted && derives && nonced && nonce.len() != 12 ==> out == Err::<
                Seq<u8>,
                KeyError,
            >(KeyError::NonceLength)
            &&& salted && derives && nonced && nonce.len() == 12 && hex_bytes(blob.ciphertext)
                is None ==> out == Err::<Seq<u8>, KeyError>(KeyError::Encoding)
            &&& salted && derives && nonced && nonce.len() == 12 && written && ciphertext.len()
                <= MAX_AEAD_BYTES + AEAD_TAG_BYTES ==> (match found {
                Some(message) => out == Ok::<Seq<u8>, KeyError>(message),
                None => out == Err::<Seq<u8>, KeyError>(KeyError::Decrypt),
            })
            &&& salted && derives && nonced && nonce.len() == 12 && written && ciphertext.len()
                > MAX_AEAD_BYTES + AEAD_TAG_BYTES ==> out == Err::<Seq<u8>, KeyError>(
                KeyError::Decrypt,
            )
        }),
{
}

/// Each error is told in its own words.
pub proof fn law_error_words()
    ensures
        error_words(KeyError::Randomness) == "no randomness available"@,
        error_words(KeyError::Derivation) == "Argon2id derivation failed"@,
        error_words(KeyError::Encrypt) == "ChaCha20Poly1305 encrypt failed"@,
        error_words(KeyError::Encoding) == "invalid hexadecimal encoding"@,
        error_words(KeyError::NonceLength) == "invalid nonce length"@,
        error_words(KeyError::Decrypt)
            == "failed to decrypt relay keys — is AXENO_KEY correct?"@,
{
}

/// The secret is taken from the literal value where that is not empty, else from the file that is
/// named, else from the local key file. White space around a secret in a file is not part of it. A
/// named file that cannot be read or is blank is reported under its path; a local one is replaced.
pub proof fn law_secret_source(
    key: Option<Seq<char>>,
    key_file: Option<Seq<char>>,
    contents: Option<Seq<char>>,
    before: Seq<char>,
    secret: Seq<char>,
    behind: Seq<char>,
)
    requires
        forall|i: int| 0 <= i < before.len() ==> is_space(#[trigger] before[i]),
        forall|i: int| 0 <= i < behind.len() ==> is_space(#[trigger] behind[i]),
        secret.len() > 0 ==> !is_space(secret[0]) && !is_space(secret.last()),
        contents matches Some(c) ==> c == before + secret + behind,
    ensures
        ({
            let literal = key is Some && key->Some_0.len() > 0;
            let named = key_file is Some && key_file->Some_0.len() > 0;
            let source = source_of(key, key_file);
            let plan = secret_plan(source, contents);
            let held = contents is Some && secret.len() > 0;
            &&& literal ==> source == (SourceView::Literal { secret: key->Some_0 }) && plan == (
            SecretView::Use { secret: key->Some_0 })
            &&& !literal && named ==> source == (SourceView::File { path: key_file->Some_0 })
            &&& !literal && !named ==> source == SourceView::Local
            &&& !literal && held ==> plan == (SecretView::Use { secret })
            &&& !literal && named && contents is None ==> plan == (SecretView::Unreadable {
                path: key_file->Some_0,
            })
            &&& !literal && named && contents is Some && !held ==> plan == (SecretView::Blank {
                path: key_file->Some_0,
            })
            &&& !literal && !named && !held ==> plan == SecretView::Generate
        }),
        secret.len() > 0 ==> file_secret(before + secret + behind) == Some(secret),
        secret.len() == 0 ==> file_secret(before + secret + behind) is None,
{
    law_trimmed(before, secret, behind);
}

// ---------------------------------------------------------------------------
// The state file and the durable tables
// ---------------------------------------------------------------------------

/// A record whose list is empty gets its single token into the list, where it has one; every other
/// record, and everything else of a record, stays. No record is lost, and each keeps its mailbox.
pub proof fn law_single_token_is_listed(a: AuthView, v: Seq<(Seq<char>, AuthView)>, i: int)
    requires
        0 <= i < v.len(),
    ensures
        ({
            let b = with_listed_token(a);
            let single = a.hashes.len() == 0 && a.primary.len() > 0;
            &&& b.receive == a.receive && b.primary == a.primary && b.last_active == a.last_active
            &&& single ==> b.hashes.len() == 1 && b.hashes[0] == a.primary
            &&& !single ==> b.hashes == a.hashes
        }),
        listed_tokens(v).len() == v.len(),
        listed_tokens(v)[i].0 == v[i].0,
        listed_tokens(v)[i].1 == with_listed_token(v[i].1),
{
}

/// An older layout hands over everything, each item under its own key, to a table that has nothing
/// yet, and nothing to one that has; a bundle stands under its identifier.
pub proof fn law_taken_over(items: Seq<(Seq<char>, AuthView)>, bundles: Seq<BundleView>, i: int)
    ensures
        taken_over(false, items).len() == 0,
        taken_over(true, items).len() == items.len(),
        0 <= i < items.len() ==> taken_over(true, items)[i].0 == items[i].0 && taken_over(
            true,
            items,
        )[i].1 == Some(items[i].1),
        keyed_bundles(bundles).len() == bundles.len(),
        0 <= i < bundles.len() ==> keyed_bundles(bundles)[i].0 == bundles[i].id && keyed_bundles(
            bundles,
        )[i].1 == bundles[i],
{
}

/// Of stored bundles exactly those are kept whose expiry is still to come, in their order.
pub proof fn law_unexpired(v: Seq<BundleView>, b: BundleView, now: u64)
    ensures
        unexpired(Seq::empty(), now).len() == 0,
        b.expires_at_ms > now ==> unexpired(v.push(b), now) == unexpired(v, now).push(b),
        b.expires_at_ms <= now ==> unexpired(v.push(b), now) == unexpired(v, now),
{
    reveal(Seq::filter);
    assert(v.push(b).drop_last() =~= v);
}

/// Queues hold as many envelopes as their lists together.
pub proof fn law_queued_envelopes(
    queues: Seq<(RecipientId, Vec<StoredEnvelope>)>,
    next: (RecipientId, Vec<StoredEnvelope>),
)
    ensures
        queued_envelopes(Seq::empty()) == 0,
        queued_envelopes(queues.push(next)) == queued_envelopes(queues) + next.1@.len(),
{
    assert(queues.push(next).drop_last() =~= queues);
}

/// The rows that decode are loaded, in their order and each under its key; the others are passed
/// over.
pub proof fn law_decoded(
    records: Seq<AuthRow>,
    record: AuthRow,
    bundles: Seq<BundleRow>,
    bundle: BundleRow,
)
    ensures
        decoded_auth(Seq::empty()).len() == 0,
        record.value is None ==> decoded_auth(records.push(record)) == decoded_auth(records),
        record.value matches Some(a) ==> decoded_auth(records.push(record)) == decoded_auth(
            records,
        ).push((record.key@, a@)),
        decoded_bundles(Seq::empty()).len() == 0,
        bundle.value is None ==> decoded_bundles(bundles.push(bundle)) == decoded_bundles(bundles),
        bundle.value matches Some(b) ==> decoded_bundles(bundles.push(bundle)) == decoded_bundles(
            bundles,
        ).push(b@),
{
    assert(records.push(record).drop_last() =~= records);
    assert(bundles.push(bundle).drop_last() =~= bundles);
}

/// A batch is applied in its order: each write puts its value under its key or takes the key away,
/// and touches no other.
pub proof fn law_applied<T>(
    t: Map<Seq<char>, T>,
    ws: Seq<WriteView<T>>,
    key: Seq<char>,
    value: T,
    other: Seq<char>,
)
    ensures
        ({
            let before = applied(t, ws);
            let put = applied(t, ws.push(WriteView::Put { key, value }));
            let gone = applied(t, ws.push(WriteView::Remove { key }));
            &&& put.contains_key(key) && put[key] == value
            &&& !gone.contains_key(key)
            &&& other != key ==> put.contains_key(other) == before.contains_key(other) && put[other]
                == before[other] && gone.contains_key(other) == before.contains_key(other)
                && gone[other] == before[other]
        }),
        applied(t, Seq::<WriteView<T>>::empty()) == t,
        write_keys(ws.push(WriteView::Put { key, value })) == write_keys(ws).push(key),
        write_keys(ws.push(WriteView::Remove { key })) == write_keys(ws).push(key),
{
    let put = ws.push(WriteView::Put { key, value });
    let gone = ws.push(WriteView::Remove { key });
    assert(put.drop_last() =~= ws);
    assert(gone.drop_last() =~= ws);
    assert(write_keys(put) =~= write_keys(ws).push(key));
    assert(write_keys(gone) =~= write_keys(ws).push(key));
}

// ---------------------------------------------------------------------------
// The hidden service
// ---------------------------------------------------------------------------

/// Parts without a character make a text without it.
proof fn lemma_free(a: Seq<char>, b: Seq<char>, c: char)
    requires
        !a.contains(c),
        !b.contains(c),
    ensures
        !(a + b).contains(c),
{
    assert forall|i: int| 0 <= i < (a + b).len() implies (a + b)[i] != c by {
        if i < a.len() {
            assert((a + b)[i] == a[i]);
        } else {
            assert((a + b)[i] == b[i - a.len()]);
        }
    }
}

/// The first line of a text that goes on behind it.
proof fn lemma_line(line: Seq<char>, rest: Seq<char>)
    requires
        !line.contains('\n'),
        line.len() > 0,
        line.last() != '\r',
    ensures
        text_lines(line + seq!['\n'] + rest) == seq![line] + text_lines(rest),
{
    law_lines(line, rest);
    let all = text_lines(line + seq!['\n'] + rest);
    assert(all =~= seq![line] + text_lines(rest)) by {
        assert forall|i: int| 0 <= i < all.len() implies all[i] == (seq![line] + text_lines(
            rest,
        ))[i] by {
            if i > 0 {
                assert(all[(i - 1) + 1] == text_lines(rest)[i - 1]);
            }
        }
    }
}

/// A decimal number holds no line end and is not empty.
proof fn lemma_number(n: nat)
    ensures
        !decimal_text(n).contains('\n'),
        decimal_text(n).len() > 0,
        decimal_text(n).last() != '\r',
{
    law_decimal_roundtrip(n);
    assert forall|i: int| 0 <= i < decimal_text(n).len() implies decimal_text(n)[i] != '\n'
        && decimal_text(n)[i] != '\r' by {
        assert(crate::text::is_digit(decimal_text(n)[i]));
    }
}

/// The lines behind the two directories.
proof fn lemma_service_lines(port: u16, socks: Seq<char>)
    requires
        !socks.contains('\n'),
        socks.len() > 0,
        socks.last() != '\r',
    ensures
        text_lines(
            "HiddenServiceVersion 3"@ + seq!['\n'] + ("HiddenServicePort 80 127.0.0.1:"@
                + decimal_text(port as nat) + seq!['\n'] + (socks + seq!['\n']
                + ("Log notice stdout"@ + seq!['\n'] + Seq::<char>::empty()))),
        ) == seq![
            "HiddenServiceVersion 3"@,
            "HiddenServicePort 80 127.0.0.1:"@ + decimal_text(port as nat),
            socks,
            "Log notice stdout"@,
        ],
{
    reveal_strlit("HiddenServiceVersion 3");
    reveal_strlit("HiddenServicePort 80 127.0.0.1:");
    reveal_strlit("Log notice stdout");
    let version = "HiddenServiceVersion 3"@;
    let forward = "HiddenServicePort 80 127.0.0.1:"@ + decimal_text(port as nat);
    let log = "Log notice stdout"@;
    lemma_number(port as nat);
    lemma_free("HiddenServicePort 80 127.0.0.1:"@, decimal_text(port as nat), '\n');
    assert(forward.last() == decimal_text(port as nat).last());
    let r3 = log + seq!['\n'] + Seq::<char>::empty();
    let r2 = socks + seq!['\n'] + r3;
    let r1 = forward + seq!['\n'] + r2;
    lemma_line(log, Seq::empty());
    lemma_line(socks, r3);
    lemma_line(forward, r2);
    lemma_line(version, r1);
    assert(text_lines(Seq::<char>::empty()).len() == 0);
    assert(text_lines(version + seq!['\n'] + r1) =~= seq![version, forward, socks, log]);
}

/// The configuration has six lines: the two directories, the version and the port of the hidden
/// service, which forwards to the loopback port, the port for connections going out, or none, and
/// the log. A directory is a line of text.
pub proof fn law_torrc(tor_dir: Seq<char>, hs_dir: Seq<char>, port: u16, socks_port: Option<u16>)
    requires
        !tor_dir.contains('\n'),
        !hs_dir.contains('\n'),
        tor_dir.len() > 0 ==> tor_dir.last() != '\r',
        hs_dir.len() > 0 ==> hs_dir.last() != '\r',
    ensures
        text_lines(torrc_text(tor_dir, hs_dir, port, socks_port)) == seq![
            "DataDirectory "@ + tor_dir,
            "HiddenServiceDir "@ + hs_dir,
            "HiddenServiceVersion 3"@,
            "HiddenServicePort 80 127.0.0.1:"@ + decimal_text(port as nat),
            if socks_port is Some {
                "SocksPort 127.0.0.1:"@ + decimal_text(socks_port->Some_0 as nat)
            } else {
                "SocksPort 0"@
            },
            "Log notice stdout"@,
        ],
{
    let socks = if socks_port is Some {
        "SocksPort 127.0.0.1:"@ + decimal_text(socks_port->Some_0 as nat)
    } else {
        "SocksPort 0"@
    };
    lemma_socks(socks_port, socks);
    lemma_service_lines(port, socks);
    let first = "DataDirectory "@ + tor_dir;
    let second = "HiddenServiceDir "@ + hs_dir;
    let tail = "HiddenServiceVersion 3"@ + seq!['\n'] + ("HiddenServicePort 80 127.0.0.1:"@
        + decimal_text(port as nat) + seq!['\n'] + (socks + seq!['\n'] + ("Log notice stdout"@
        + seq!['\n'] + Seq::<char>::empty())));
    lemma_directories(tor_dir, hs_dir);
    lemma_line(second, tail);
    lemma_line(first, second + seq!['\n'] + tail);
    lemma_torrc_parts(tor_dir, hs_dir, port, socks_port, socks);
    assert(text_lines(torrc_text(tor_dir, hs_dir, port, socks_port)) =~= seq![first, second]
        + text_lines(tail));
}

proof fn lemma_directories(tor_dir: Seq<char>, hs_dir: Seq<char>)
    requires
        !tor_dir.contains('\n'),
        !hs_dir.contains('\n'),
        tor_dir.len() > 0 ==> tor_dir.last() != '\r',
        hs_dir.len() > 0 ==> hs_dir.last() != '\r',
    ensures
        ({
            let first = "DataDirectory "@ + tor_dir;
            let second = "HiddenServiceDir "@ + hs_dir;
            &&& !first.contains('\n') && first.len() > 0 && first.last() != '\r'
            &&& !second.contains('\n') && second.len() > 0 && second.last() != '\r'
        }),
{
    reveal_strlit("DataDirectory ");
    reveal_strlit("HiddenServiceDir ");
    lemma_free("DataDirectory "@, tor_dir, '\n');
    lemma_free("HiddenServiceDir "@, hs_dir, '\n');
    if tor_dir.len() > 0 {
        assert(("DataDirectory "@ + tor_dir).last() == tor_dir.last());
    }
    if hs_dir.len() > 0 {
        assert(("HiddenServiceDir "@ + hs_dir).last() == hs_dir.last());
    }
}

proof fn lemma_socks(socks_port: Option<u16>, socks: Seq<char>)
    requires
        socks == (if socks_port is Some {
            "SocksPort 127.0.0.1:"@ + decimal_text(socks_port->Some_0 as nat)
        } else {
            "SocksPort 0"@
        }),
    ensures
        !socks.contains('\n'),
        socks.len() > 0,
        socks.last() != '\r',
{
    reveal_strlit("SocksPort 127.0.0.1:");
    reveal_strlit("SocksPort 0");
    if let Some(p) = socks_port {
        lemma_number(p as nat);
        lemma_free("SocksPort 127.0.0.1:"@, decimal_text(p as nat), '\n');
        assert(socks.last() == decimal_text(p as nat).last());
    }
}

proof fn lemma_torrc_parts(
    tor_dir: Seq<char>,
    hs_dir: Seq<char>,
    port: u16,
    socks_port: Option<u16>,
    socks: Seq<char>,
)
    requires
        socks == (if socks_port is Some {
            "SocksPort 127.0.0.1:"@ + decimal_text(socks_port->Some_0 as nat)
        } else {
            "SocksPort 0"@
        }),
    ensures
        torrc_text(tor_dir, hs_dir, port, socks_port) == "DataDirectory "@ + tor_dir + seq!['\n'] + (
        "HiddenServiceDir "@ + hs_dir + seq!['\n'] + ("HiddenServiceVersion 3"@ + seq!['\n'] + (
        "HiddenServicePort 80 127.0.0.1:"@ + decimal_text(port as nat) + seq!['\n'] + (socks + seq![
            '\n',
        ] + ("Log notice stdout"@ + seq!['\n'] + Seq::<char>::empty()))))),
{
    reveal_strlit("\nHiddenServiceDir ");
    reveal_strlit("HiddenServiceDir ");
    reveal_strlit("\nHiddenServiceVersion 3\nHiddenServicePort 80 127.0.0.1:");
    reveal_strlit("HiddenServiceVersion 3");
    reveal_strlit("HiddenServicePort 80 127.0.0.1:");
    reveal_strlit("\n");
    reveal_strlit("\nLog notice stdout\n");
    reveal_strlit("Log notice stdout");
    assert("\n"@ =~= seq!['\n']);
    assert("\nHiddenServiceDir "@ =~= seq!['\n'] + "HiddenServiceDir "@);
    assert("\nHiddenServiceVersion 3\nHiddenServicePort 80 127.0.0.1:"@ =~= seq!['\n']
        + "HiddenServiceVersion 3"@ + seq!['\n'] + "HiddenServicePort 80 127.0.0.1:"@);
    assert("\nLog notice stdout\n"@ =~= seq!['\n'] + "Log notice stdout"@ + seq!['\n']);
    let a = "DataDirectory "@ + tor_dir;
    let b = "HiddenServiceDir "@;
    let c = "HiddenServiceVersion 3"@;
    let d = "HiddenServicePort 80 127.0.0.1:"@;
    let n = decimal_text(port as nat);
    let log = "Log notice stdout"@;
    lemma_regroup(a, b, hs_dir, c, d, n, socks, log, seq!['\n']);
}

/// Joining parts does not depend on how they are grouped.
proof fn lemma_regroup(
    a: Seq<char>,
    b: Seq<char>,
    h: Seq<char>,
    c: Seq<char>,
    d: Seq<char>,
    n: Seq<char>,
    s: Seq<char>,
    l: Seq<char>,
    e: Seq<char>,
)
    ensures
        a + (e + b) + h + (e + c + e + d) + n + e + s + (e + l + e) == a + e + (b + h + e + (c + e
            + (d + n + e + (s + e + (l + e + Seq::<char>::empty()))))),
{
    assert(a + (e + b) + h + (e + c + e + d) + n + e + s + (e + l + e) =~= a + e + (b + h + e + (c
        + e + (d + n + e + (s + e + (l + e + Seq::<char>::empty()))))));
}

/// The address of a hidden service is its hostname, without white space around it, between the
/// scheme and the path.
pub proof fn law_address(before: Seq<char>, host: Seq<char>, behind: Seq<char>)
    requires
        forall|i: int| 0 <= i < before.len() ==> is_space(#[trigger] before[i]),
        forall|i: int| 0 <= i < behind.len() ==> is_space(#[trigger] behind[i]),
        host.len() > 0 ==> !is_space(host[0]) && !is_space(host.last()),
    ensures
        address_of(before + host + behind) == seq!['w', 's', ':', '/', '/'] + host + seq![
            '/',
            'w',
            's',
        ],
{
    law_trimmed(before, host, behind);
    reveal_strlit("ws://");
    reveal_strlit("/ws");
    assert("ws://"@ =~= seq!['w', 's', ':', '/', '/']);
    assert("/ws"@ =~= seq!['/', 'w', 's']);
}

/// A hostname that is found is announced at once; one that is not is looked for thirty times in all.
/// Only the first line that reports a finished bootstrap announces.
pub proof fn law_hostname(tries: u32, hostname: Option<Seq<char>>, announced: bool, line: Seq<char>)
    ensures
        hostname matches Some(h) ==> hostname_view(tries, hostname) == (HostnameView::Announce {
            address: address_of(h),
        }),
        hostname is None && tries < 29 ==> hostname_view(tries, hostname) == HostnameView::Retry,
        hostname is None && tries >= 29 ==> hostname_view(tries, hostname) == HostnameView::GiveUp,
        is_announcement(announced, line) <==> !announced && has_part(line, "Bootstrapped 100%"@),
{
}

// ---------------------------------------------------------------------------
// The release check
// ---------------------------------------------------------------------------

/// The setting switches the check on exactly where it is one of four words, in any case and with any
/// white space around it; any other setting switches it off.
pub proof fn law_check_setting(before: Seq<char>, word: Seq<char>, behind: Seq<char>)
    requires
        forall|i: int| 0 <= i < before.len() ==> is_space(#[trigger] before[i]),
        forall|i: int| 0 <= i < behind.len() ==> is_space(#[trigger] behind[i]),
        word.len() > 0 ==> !is_space(word[0]) && !is_space(word.last()),
    ensures
        mode_of(None) == Mode::Default,
        ({
            let small = lowered_text(word);
            let on = small == "1"@ || small == "true"@ || small == "yes"@ || small == "on"@;
            &&& on ==> mode_of(Some(before + word + behind)) == Mode::Enabled
            &&& !on ==> mode_of(Some(before + word + behind)) == Mode::Disabled
        }),
{
    law_trimmed(before, word, behind);
}

/// A check that is not switched off goes over the Tor port where there is one. Without one it goes
/// out directly where it is switched on, and not at all where it is not set.
pub proof fn law_check_route(m: Mode, port: Option<u16>)
    ensures
        plan_of(m, port) == CheckPlan::Off <==> m == Mode::Disabled,
        m != Mode::Disabled && port is Some ==> plan_of(m, port) == (CheckPlan::OverTor {
            socks_port: port->Some_0,
        }),
        m == Mode::Default && port is None ==> plan_of(m, port) == CheckPlan::NoTor,
        m == Mode::Enabled && port is None ==> plan_of(m, port) == CheckPlan::Direct,
{
}

/// A version with a larger number comes after, the major before the minor before the patch number;
/// equal numbers leave it to the pre-release part, and equal ones of these to the build metadata.
pub proof fn law_version_order(a: VersionView, b: VersionView)
    ensures
        a.major > b.major ==> version_after(a, b) && !version_after(b, a),
        a.major == b.major && a.minor > b.minor ==> version_after(a, b) && !version_after(b, a),
        a.major == b.major && a.minor == b.minor && a.patch > b.patch ==> version_after(a, b)
            && !version_after(b, a),
        a.major == b.major && a.minor == b.minor && a.patch == b.patch && a.pre != b.pre ==> (
        version_after(a, b) <==> semver_pre_after(a.pre, b.pre)),
        a.major == b.major && a.minor == b.minor && a.patch == b.patch && a.pre == b.pre ==> (
        version_after(a, b) <==> semver_build_after(a.build, b.build)),
{
}

/// A release is newer exactly where its tag, without the letters `v` before it, is a version that
/// comes after the running one; nothing is said where the running one is no version.
pub proof fn law_newer(current: Seq<char>, vs: Seq<char>, tag: Seq<char>)
    requires
        forall|i: int| 0 <= i < vs.len() ==> #[trigger] vs[i] == 'v',
        tag.len() > 0 ==> tag[0] != 'v',
    ensures
        without_v(vs + tag) == tag,
        semver_value(current) is None ==> newer(current, vs + tag) is None,
        semver_value(current) matches Some(c) ==> match semver_value(tag) {
            Some(l) => newer(current, vs + tag) == Some(version_after(l, c)),
            None => newer(current, vs + tag) == Some(false),
        },
    decreases vs.len(),
{
    let s = vs + tag;
    if vs.len() > 0 {
        assert(s[0] == vs[0]);
        let fewer = vs.drop_first();
        assert(s.drop_first() =~= fewer + tag);
        assert forall|i: int| 0 <= i < fewer.len() implies #[trigger] fewer[i] == 'v' by {
            assert(fewer[i] == vs[i + 1]);
        }
        law_newer(current, fewer, tag);
    } else {
        assert(s =~= tag);
    }
}

/// The first check comes two minutes after the start, the next a day after one that came to a
/// result, and half an hour after one that failed.
pub proof fn law_check_times()
    ensures
        INITIAL_DELAY_SECS == 120,
        wait_secs(false) == 86_400,
        wait_secs(true) == 1_800,
{
}

} // verus!
