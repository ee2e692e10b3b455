//! What the file store keeps: chunks read back as they were written, counts and reservations match
//! what is stored, and the caps hold.

use crate::config::{FileConfig, INCOMPLETE_FILE_TTL_MS};
use crate::file_store::{
    can_reserve, committed_view, counted_chunk, creation_refusal, deleted_view, fetch_outcome,
    file_chunk_key, fresh_meta, is_expired, released_view, reserved_view, shape_refusal,
    upload_outcome, upload_reserves, ChunkFound, ChunkRequest, FetchedView, FileMeta, FileReject,
    FilesView,
};
use crate::table::{
    in_range, law_owners_are_disjoint, law_range_selects_owner, lemma_total_insert,
    lemma_total_remove, total_of,
};
use crate::text::{decimal_text, law_decimal_roundtrip};
use vstd::prelude::*;

verus! {

// ---------------------------------------------------------------------------
// Keys
// ---------------------------------------------------------------------------

/// The keys in the range of a transfer's chunks.
pub open spec fn of_transfer(transfer_id: Seq<char>) -> spec_fn(Seq<char>) -> bool {
    |k: Seq<char>| in_range(k, transfer_id.push(':'), transfer_id.push(';'))
}

/// Each chunk of each transfer has a key of its own, in the range of its transfer and of no other.
pub proof fn law_chunk_keys(a: Seq<char>, i: u32, b: Seq<char>, j: u32)
    requires
        !a.contains(':'),
        !b.contains(':'),
    ensures
        of_transfer(a)(file_chunk_key(a, i)),
        of_transfer(b)(file_chunk_key(a, i)) <==> a == b,
        file_chunk_key(a, i) == file_chunk_key(b, j) <==> a == b && i == j,
{
    let k = file_chunk_key(a, i);
    assert(k.take(a.len() as int) =~= a);
    law_range_selects_owner(k, a);
    law_range_selects_owner(k, b);
    if of_transfer(b)(k) {
        law_owners_are_disjoint(k, a, b);
    }
    let l = file_chunk_key(b, j);
    assert(l.take(b.len() as int) =~= b);
    law_range_selects_owner(l, b);
    law_decimal_roundtrip(i as nat);
    law_decimal_roundtrip(j as nat);
    if k == l {
        law_owners_are_disjoint(k, a, b);
        assert(k.skip(a.len() as int + 1) =~= decimal_text(i as nat));
        assert(l.skip(a.len() as int + 1) =~= decimal_text(j as nat));
    }
}

// ---------------------------------------------------------------------------
// Reading back
// ---------------------------------------------------------------------------

/// The cache after an upload is committed.
pub open spec fn uploaded(v: FilesView, r: ChunkRequest, found: ChunkFound, now: u64) -> FilesView {
    committed_view(
        upload_reserves(v, r, found, now),
        r.transfer_id,
        upload_outcome(v, r, found, now)->Ok_0,
        r.total_chunks,
        r.total_bytes,
    )
}

/// A fetch gives back what the last upload of the chunk wrote, with the declared shape.
pub proof fn law_upload_then_fetch(
    v: FilesView,
    r: ChunkRequest,
    found: ChunkFound,
    now: u64,
    chunks: Map<Seq<char>, Seq<u8>>,
    data: Seq<u8>,
)
    requires
        upload_outcome(v, r, found, now) is Ok,
        r.len == data.len(),
    ensures
        ({
            let key = file_chunk_key(r.transfer_id, r.chunk_index);
            let after = chunks.insert(key, data);
            fetch_outcome(
                uploaded(v, r, found, now),
                r.transfer_id,
                r.chunk_index,
                Some(after[key]),
            ) == Ok::<FetchedView, FileReject>(
                FetchedView { data, total_chunks: r.total_chunks, total_bytes: r.total_bytes },
            )
        }),
{
}

/// An upload leaves every other chunk, of this transfer or another, and every other transfer alone.
pub proof fn law_upload_is_isolated(
    v: FilesView,
    r: ChunkRequest,
    found: ChunkFound,
    now: u64,
    chunks: Map<Seq<char>, Seq<u8>>,
    data: Seq<u8>,
    other: Seq<char>,
    index: u32,
)
    requires
        !r.transfer_id.contains(':'),
        !other.contains(':'),
        upload_outcome(v, r, found, now) is Ok,
        other != r.transfer_id || index != r.chunk_index,
    ensures
        ({
            let after = chunks.insert(file_chunk_key(r.transfer_id, r.chunk_index), data);
            let key = file_chunk_key(other, index);
            &&& after.contains_key(key) == chunks.contains_key(key)
            &&& after.contains_key(key) ==> after[key] == chunks[key]
        }),
        other != r.transfer_id ==> uploaded(v, r, found, now).entries.contains_key(other)
            == v.entries.contains_key(other) && (v.entries.contains_key(other) ==> uploaded(
            v,
            r,
            found,
            now,
        ).entries[other] == v.entries[other]),
{
    law_chunk_keys(r.transfer_id, r.chunk_index, other, index);
}

/// After a delete the transfer cannot be fetched, its chunks are gone and all others are as before.
pub proof fn law_delete_then_fetch(
    v: FilesView,
    transfer_id: Seq<char>,
    chunk_index: u32,
    data: Option<Seq<u8>>,
    reserved: u64,
    chunks: Map<Seq<char>, Seq<u8>>,
    other: Seq<char>,
    index: u32,
)
    requires
        !transfer_id.contains(':'),
        !other.contains(':'),
    ensures
        fetch_outcome(
            deleted_view(v, transfer_id, true, reserved),
            transfer_id,
            chunk_index,
            data,
        ) == Err::<FetchedView, FileReject>(FileReject::NotFound),
        ({
            let after = chunks.remove_keys(Set::new(of_transfer(transfer_id)));
            let key = file_chunk_key(other, index);
            &&& after.contains_key(key) <==> chunks.contains_key(key) && other != transfer_id
            &&& after.contains_key(key) ==> after[key] == chunks[key]
        }),
{
    law_chunk_keys(other, index, transfer_id, index);
}

// ---------------------------------------------------------------------------
// Counting chunks
// ---------------------------------------------------------------------------

/// The bytes of chunks.
pub open spec fn chunk_bytes(chunks: Map<u32, Seq<u8>>) -> nat {
    total_of(chunks, |c: Seq<u8>| c.len())
}

/// Whether metadata counts the chunks of a transfer right: how many there are and how many bytes
/// they have.
pub open spec fn counts(meta: FileMeta, chunks: Map<u32, Seq<u8>>) -> bool {
    &&& chunks.dom().finite()
    &&& meta.received_chunks == chunks.dom().len()
    &&& meta.stored_bytes == chunk_bytes(chunks)
}

/// The length of a chunk, where it is stored.
pub open spec fn chunk_len(chunks: Map<u32, Seq<u8>>, index: u32) -> Option<u64> {
    if chunks.contains_key(index) {
        Some(chunks[index].len() as u64)
    } else {
        None
    }
}

/// Metadata that counts the stored chunks right counts them right after a chunk is stored, also
/// where the chunk replaces another: a retry is never counted twice.
pub proof fn law_chunk_counted_once(
    config: FileConfig,
    meta: FileMeta,
    chunks: Map<u32, Seq<u8>>,
    index: u32,
    data: Seq<u8>,
)
    requires
        counts(meta, chunks),
        meta.received_chunks < u32::MAX,
        meta.stored_bytes + data.len() <= u64::MAX,
    ensures
        counted_chunk(config, meta, chunk_len(chunks, index), data.len() as u64) matches Ok(after)
            ==> counts(after, chunks.insert(index, data)) && after.total_chunks == meta.total_chunks
            && after.total_bytes == meta.total_bytes && after.created_at_ms == meta.created_at_ms,
{
    let w = |c: Seq<u8>| c.len();
    if chunks.contains_key(index) {
        lemma_total_remove(chunks, w, index);
        let rest = chunks.remove(index);
        lemma_total_insert(rest, w, index, data);
        assert(chunks.insert(index, data) =~= rest.insert(index, data));
        assert(chunks.insert(index, data).dom() =~= chunks.dom());
    } else {
        lemma_total_insert(chunks, w, index, data);
        assert(chunks.insert(index, data).dom() =~= chunks.dom().insert(index));
    }
}

/// A new transfer counts right before its first chunk.
pub proof fn law_fresh_counts(r: ChunkRequest, now: u64)
    ensures
        counts(fresh_meta(r, now), Map::<u32, Seq<u8>>::empty()),
{
}

/// No transfer holds more than it declared, nor more than a file may have.
pub proof fn law_stored_within_declared(
    v: FilesView,
    r: ChunkRequest,
    found: ChunkFound,
    now: u64,
)
    requires
        upload_outcome(v, r, found, now) is Ok,
    ensures
        upload_outcome(v, r, found, now)->Ok_0.stored_bytes <= upload_outcome(
            v,
            r,
            found,
            now,
        )->Ok_0.total_bytes,
        upload_outcome(v, r, found, now)->Ok_0.stored_bytes <= v.config.max_file_bytes,
{
}

spec fn below(n: u32) -> Set<u32> {
    Set::new(|i: u32| i < n)
}

proof fn lemma_below(n: u32)
    ensures
        below(n).finite(),
        below(n).len() == n,
    decreases n,
{
    if n == 0 {
        assert(below(0) =~= Set::empty());
    } else {
        let m = (n - 1) as u32;
        lemma_below(m);
        assert(below(n) =~= below(m).insert(m));
    }
}

/// A transfer whose count reaches the declared number of chunks has every one of them.
pub proof fn law_count_shows_completion(meta: FileMeta, chunks: Map<u32, Seq<u8>>)
    requires
        counts(meta, chunks),
        forall|i: u32| #[trigger] chunks.contains_key(i) ==> i < meta.total_chunks,
    ensures
        meta.received_chunks <= meta.total_chunks,
        meta.received_chunks == meta.total_chunks <==> forall|i: u32|
            i < meta.total_chunks ==> #[trigger] chunks.contains_key(i),
{
    let all = below(meta.total_chunks);
    lemma_below(meta.total_chunks);
    assert(chunks.dom().subset_of(all)) by {
        assert forall|i: u32| chunks.dom().contains(i) implies all.contains(i) by {
            assert(chunks.contains_key(i));
        }
    }
    vstd::set_lib::lemma_len_subset(chunks.dom(), all);
    if meta.received_chunks == meta.total_chunks {
        vstd::set_lib::lemma_subset_equality(chunks.dom(), all);
        assert forall|i: u32| i < meta.total_chunks implies #[trigger] chunks.contains_key(i) by {
            assert(all.contains(i));
        }
    }
    if forall|i: u32| i < meta.total_chunks ==> #[trigger] chunks.contains_key(i) {
        assert(all =~= chunks.dom()) by {
            assert forall|i: u32| all.contains(i) implies chunks.dom().contains(i) by {
                assert(chunks.contains_key(i));
            }
        }
    }
}

// ---------------------------------------------------------------------------
// Reservations
// ---------------------------------------------------------------------------

/// The declared bytes of transfers.
pub open spec fn declared_bytes(entries: Map<Seq<char>, FileMeta>) -> nat {
    total_of(entries, |m: FileMeta| m.total_bytes as nat)
}

/// Whether the counters match the live transfers.
pub open spec fn accounted(v: FilesView) -> bool {
    &&& v.entries.dom().finite()
    &&& v.count == v.entries.dom().len()
    &&& v.reserved == declared_bytes(v.entries)
}

/// Whether a reservation of `total_bytes` bytes is counted in full: the sum fits, or the cap refuses
/// every sum that does not.
pub open spec fn counted_in_full(v: FilesView, total_bytes: u64) -> bool {
    v.reserved + total_bytes <= u64::MAX || v.config.max_total_file_bytes < u64::MAX
}

/// An accepted upload keeps the counters right, and a transfer is created only within both caps.
pub proof fn law_upload_accounts(v: FilesView, r: ChunkRequest, found: ChunkFound, now: u64)
    requires
        accounted(v),
        upload_outcome(v, r, found, now) is Ok,
        counted_in_full(v, r.total_bytes) || v.entries.contains_key(r.transfer_id),
    ensures
        accounted(uploaded(v, r, found, now)),
        !v.entries.contains_key(r.transfer_id) ==> uploaded(v, r, found, now).count
            <= v.config.max_transfers && uploaded(v, r, found, now).reserved
            <= v.config.max_total_file_bytes,
        v.entries.contains_key(r.transfer_id) ==> uploaded(v, r, found, now).count == v.count
            && uploaded(v, r, found, now).reserved == v.reserved,
{
    let w = |m: FileMeta| m.total_bytes as nat;
    let after = uploaded(v, r, found, now);
    let meta = after.entries[r.transfer_id];
    if v.entries.contains_key(r.transfer_id) {
        let rest = v.entries.remove(r.transfer_id);
        lemma_total_remove(v.entries, w, r.transfer_id);
        lemma_total_insert(rest, w, r.transfer_id, meta);
        assert(after.entries =~= rest.insert(r.transfer_id, meta));
        assert(after.entries.dom() =~= v.entries.dom());
    } else {
        lemma_total_insert(v.entries, w, r.transfer_id, meta);
        assert(after.entries.dom() =~= v.entries.dom().insert(r.transfer_id));
    }
}

/// A refused upload changes nothing.
pub proof fn law_refused_upload_changes_nothing(
    v: FilesView,
    r: ChunkRequest,
    found: ChunkFound,
    now: u64,
)
    requires
        upload_outcome(v, r, found, now) is Err,
        counted_in_full(v, r.total_bytes) || shape_refusal(v.config, r) is Some
            || v.entries.contains_key(r.transfer_id) || creation_refusal(v, r) is Some,
    ensures
        upload_reserves(v, r, found, now) == v,
{
}

/// An upload whose transaction fails gives back all that it reserved.
pub proof fn law_failed_upload_gives_back(
    v: FilesView,
    r: ChunkRequest,
    found: ChunkFound,
    now: u64,
)
    requires
        upload_outcome(v, r, found, now) is Ok,
        !v.entries.contains_key(r.transfer_id),
        counted_in_full(v, r.total_bytes),
    ensures
        released_view(upload_reserves(v, r, found, now), r.total_bytes) == v,
{
}

/// Deleting a live transfer keeps the counters right and gives its slot and its bytes back.
pub proof fn law_delete_accounts(v: FilesView, transfer_id: Seq<char>)
    requires
        accounted(v),
        v.entries.contains_key(transfer_id),
    ensures
        ({
            let reserved = v.entries[transfer_id].total_bytes;
            let after = released_view(
                FilesView { entries: v.entries.remove(transfer_id), ..v },
                reserved,
            );
            &&& accounted(after)
            &&& after.count == v.count - 1
            &&& after.reserved == v.reserved - reserved
        }),
{
    let w = |m: FileMeta| m.total_bytes as nat;
    lemma_total_remove(v.entries, w, transfer_id);
    assert(v.count >= 1) by {
        if v.entries.dom().len() == 0 {
            assert(v.entries.dom() =~= Set::empty());
        }
    }
}

// ---------------------------------------------------------------------------
// Expiry
// ---------------------------------------------------------------------------

/// A complete transfer lives as long as the operator says; one with chunks missing goes after the
/// shorter lifetime, and never later than a complete one.
pub proof fn law_lifetimes(config: FileConfig, meta: FileMeta, now: u64)
    ensures
        meta.received_chunks >= meta.total_chunks ==> (is_expired(config, meta, now)
            <==> meta.created_at_ms + config.file_ttl_ms < now),
        meta.received_chunks < meta.total_chunks ==> (is_expired(config, meta, now)
            <==> meta.created_at_ms + INCOMPLETE_FILE_TTL_MS < now || meta.created_at_ms
            + config.file_ttl_ms < now),
{
}

/// A transfer that is created on its first chunk needs that chunk: any other is refused, as is
/// every chunk that disagrees with the shape of a live transfer.
pub proof fn law_shape_is_fixed(v: FilesView, r: ChunkRequest, found: ChunkFound, now: u64)
    requires
        shape_refusal(v.config, r) is None,
    ensures
        !v.entries.contains_key(r.transfer_id) && r.chunk_index != 0 ==> upload_outcome(
            v,
            r,
            found,
            now,
        ) == Err::<FileMeta, FileReject>(FileReject::NotFound),
        v.entries.contains_key(r.transfer_id) && (v.entries[r.transfer_id].total_chunks
            != r.total_chunks || v.entries[r.transfer_id].total_bytes != r.total_bytes)
            ==> upload_outcome(v, r, found, now) == Err::<FileMeta, FileReject>(
            FileReject::BadRequest,
        ),
{
}

/// A reservation is made exactly where both caps have room. It counts one transfer and its bytes,
/// and giving it back restores both counters.
pub proof fn law_reserve_then_release(v: FilesView, total_bytes: u64)
    requires
        counted_in_full(v, total_bytes),
    ensures
        can_reserve(v, total_bytes) <==> v.count < v.config.max_transfers && v.reserved + total_bytes
            <= v.config.max_total_file_bytes,
        can_reserve(v, total_bytes) ==> reserved_view(v, total_bytes).count == v.count + 1
            && reserved_view(v, total_bytes).reserved == v.reserved + total_bytes,
        can_reserve(v, total_bytes) ==> released_view(reserved_view(v, total_bytes), total_bytes)
            == v,
{
}

} // verus!
