//! The rules of the two stores, said over their limits: what room an envelope or a chunk needs, what
//! makes way for it, what is kept of it, and when it goes.

use crate::config::{
    FileConfig, GLOBAL_QUEUE_DISK_CAP_BYTES, MAX_QUEUE_PER_RECIPIENT, PER_MAILBOX_QUEUE_BYTES,
    QUEUE_TTL_MS,
};
use crate::file_store::{
    chunk_plan, committed_view, deleted_view, failed_view, fetch_outcome, file_chunk_key, given_back,
    loaded_bytes, loaded_count, loaded_entries, loaded_view, shape_refusal, stored_counts,
    upload_outcome, ChunkFound, ChunkRequest, FetchedView, FileMeta, FileReject, FilesView, MetaRow,
};
use crate::outside::{law_uuid_roundtrip, uuid_text, uuid_value};
use crate::protocol::EnvelopeView;
use crate::queue_laws::{
    canonical, decoded, distinct_rows, holds, law_enqueue_commits, law_enqueue_counts,
    law_removal_counts, lists, of_mailbox, table_after_enqueue, table_bytes,
};
use crate::queue_store::{
    capped, counted_enqueue, enqueue_plan, envelopes_of, exceeds_global, first_number, has_room,
    is_eviction, is_stale, lowered, next_number, queue_bytes, queue_cutoff, queue_key, queue_of,
    removal_of, rows_bytes, rows_max_seq, scanned, value_of, EntryView, RowView, ValueView,
};
use crate::table::{applied, in_range, law_range_selects_owner, owner_range, without};
use crate::text::{
    decimal_text, law_decimal_roundtrip, law_parsed, law_split_first, parsed_u64, split_first,
};
use vstd::prelude::*;
use vstd::utf8::encode_utf8;

verus! {

// ---------------------------------------------------------------------------
// Queues
// ---------------------------------------------------------------------------

/// The key of an envelope is the mailbox, a colon and the identifier: both can be read off it.
pub proof fn law_queue_key(mailbox: Seq<char>, id: u128)
    requires
        !mailbox.contains(':'),
    ensures
        split_first(queue_key(mailbox, id), ':') == Some((mailbox, uuid_text(id))),
        uuid_value(uuid_text(id)) == Some(id),
{
    let key = queue_key(mailbox, id);
    assert(key =~= mailbox + seq![':'] + uuid_text(id));
    law_split_first(key, ':', mailbox, uuid_text(id));
    law_uuid_roundtrip(id);
}

/// The oldest envelopes make way for a new one, as few as it takes: none where the mailbox has room
/// for one more and for its bytes, and never fewer than leave such room, but for a mailbox that is
/// emptied.
pub proof fn law_eviction(es: Seq<EntryView>, incoming: nat, k: int)
    requires
        is_eviction(es, incoming, k),
    ensures
        0 <= k <= es.len(),
        es.len() + 1 <= MAX_QUEUE_PER_RECIPIENT && queue_bytes(es) + incoming
            <= PER_MAILBOX_QUEUE_BYTES ==> k == 0,
        es.len() - k + 1 <= MAX_QUEUE_PER_RECIPIENT,
        k < es.len() ==> queue_bytes(es.skip(k)) + incoming <= PER_MAILBOX_QUEUE_BYTES,
        k > 0 ==> es.len() - (k - 1) + 1 > MAX_QUEUE_PER_RECIPIENT || queue_bytes(es.skip(k - 1))
            + incoming > PER_MAILBOX_QUEUE_BYTES,
{
    assert(es.skip(0) =~= es);
    if k > 0 {
        assert(!has_room(es.skip(k - 1), incoming));
        if es.len() + 1 <= MAX_QUEUE_PER_RECIPIENT && queue_bytes(es) + incoming
            <= PER_MAILBOX_QUEUE_BYTES {
            assert(!has_room(es.skip(0), incoming));
        }
    }
}

/// The bytes of a queue, and of rows, are the sum of the lengths of the ciphertexts in them.
pub proof fn law_queue_bytes(es: Seq<EntryView>, e: EntryView, rows: Seq<RowView>, row: RowView)
    ensures
        queue_bytes(Seq::empty()) == 0,
        queue_bytes(es.push(e)) == queue_bytes(es) + encode_utf8(e.value.c).len(),
        rows_bytes(Seq::empty()) == 0,
        row.value matches Some(v) ==> rows_bytes(rows.push(row)) == rows_bytes(rows) + encode_utf8(
            v.c,
        ).len(),
        row.value is None ==> rows_bytes(rows.push(row)) == rows_bytes(rows),
{
    assert(es.push(e).drop_last() =~= es);
    assert(rows.push(row).drop_last() =~= rows);
}

/// An envelope is stored with its type, its ciphertext, the time and its number, and read back with
/// its identifier, its mailbox, its type and its ciphertext.
pub proof fn law_stored_envelope(env: EnvelopeView, now: u64, seq: u64, es: Seq<EntryView>, i: int)
    requires
        0 <= i < es.len(),
        es[i].id == env.id,
        es[i].value == value_of(env, now, seq),
    ensures
        envelopes_of(env.to, es).len() == es.len(),
        envelopes_of(env.to, es)[i] == env,
        value_of(env, now, seq).q == now,
        value_of(env, now, seq).s == seq,
{
}

/// More bytes exceed the global backstop exactly where together with the total they are more than
/// its cap. The total of a 32-bit machine cannot reach it.
pub proof fn law_global_backstop(total: usize, incoming: usize)
    requires
        GLOBAL_QUEUE_DISK_CAP_BYTES < usize::MAX || total + incoming <= usize::MAX,
    ensures
        exceeds_global(total, incoming) <==> total + incoming > GLOBAL_QUEUE_DISK_CAP_BYTES,
{
}

/// Sequence numbers go up by one, and a store that is opened begins right behind the largest number
/// in its rows, which one of them has unless it is zero.
pub proof fn law_numbers(seq: u64, rows: Seq<RowView>, i: int)
    requires
        0 <= i < rows.len(),
    ensures
        seq < u64::MAX ==> next_number(seq) == seq + 1 && first_number(seq) == seq + 1,
        rows[i].value matches Some(v) ==> v.s <= rows_max_seq(rows),
        rows_max_seq(rows) > 0 ==> exists|j: int|
            0 <= j < rows.len() && (#[trigger] rows[j].value matches Some(v) && v.s == rows_max_seq(
                rows,
            )),
    decreases rows.len(),
{
    let init = rows.drop_last();
    if i < init.len() {
        law_numbers(seq, init, i);
        assert(init[i] == rows[i]);
    }
    lemma_max_is_held(rows);
}

proof fn lemma_max_is_held(rows: Seq<RowView>)
    ensures
        rows_max_seq(rows) > 0 ==> exists|j: int|
            0 <= j < rows.len() && (#[trigger] rows[j].value matches Some(v) && v.s == rows_max_seq(
                rows,
            )),
    decreases rows.len(),
{
    if rows.len() > 0 {
        let init = rows.drop_last();
        lemma_max_is_held(init);
        if rows_max_seq(rows) > 0 {
            if rows_max_seq(rows) == rows_max_seq(init) {
                let j = choose|j: int|
                    0 <= j < init.len() && (#[trigger] init[j].value matches Some(v) && v.s
                        == rows_max_seq(init));
                assert(rows[j].value == init[j].value);
            } else {
                assert(rows[rows.len() - 1].value is Some);
            }
        }
    }
}

/// An envelope outlives its lifetime exactly where more than the lifetime lies between its queueing
/// and now; a row that cannot be decoded does not.
pub proof fn law_queue_lifetime(key: Seq<char>, v: ValueView, now: u64)
    ensures
        is_stale(RowView { key, value: Some(v) }, queue_cutoff(now)) <==> v.q + QUEUE_TTL_MS < now,
        !is_stale(RowView { key, value: None }, queue_cutoff(now)),
{
}

/// A counter goes down by what is taken from it, and no lower than zero; a sum that does not fit is
/// kept as the largest number that does.
pub proof fn law_counters(counter: usize, n: usize, sum: nat)
    ensures
        n <= counter ==> lowered(counter, n) + n == counter,
        n > counter ==> lowered(counter, n) == 0,
        sum <= usize::MAX ==> capped(sum) == sum,
        sum > usize::MAX ==> capped(sum) == usize::MAX,
{
}

/// What an enqueue writes takes the evicted envelopes out of the table and puts the new one in, with
/// its type, its ciphertext, the time and its number; what it counts makes a total that was right
/// for the table before right for the table after.
pub proof fn law_enqueue_plan(
    rows: Seq<RowView>,
    t: Map<Seq<char>, Option<ValueView>>,
    mailbox: Seq<char>,
    env: EnvelopeView,
    k: int,
    now: u64,
    seq: u64,
    total: usize,
)
    requires
        t.dom().finite(),
        !mailbox.contains(':'),
        canonical(t, mailbox),
        lists(rows, t, of_mailbox(mailbox)),
        0 <= k <= queue_of(rows).len(),
        total == table_bytes(t),
        total + encode_utf8(env.ciphertext).len() <= usize::MAX,
    ensures
        ({
            let plan = enqueue_plan(rows, mailbox, env, k, now, seq);
            let after = applied(t, decoded(plan.writes));
            let key = queue_key(mailbox, env.id);
            &&& plan.evicted == k
            &&& plan.incoming_bytes == encode_utf8(env.ciphertext).len()
            &&& after.contains_key(key)
            &&& after[key] matches Some(v) && v.t == env.envelope_type && v.c == env.ciphertext && v.q
                == now && v.s == seq
            &&& after == table_after_enqueue(
                t,
                mailbox,
                queue_of(rows).take(k),
                env.id,
                value_of(env, now, seq),
            )
            &&& counted_enqueue(
                total,
                plan.incoming_bytes as usize,
                plan.evicted_bytes,
                plan.replaced_bytes as usize,
            ) == table_bytes(after)
        }),
{
    let gone = queue_of(rows).take(k);
    let value = value_of(env, now, seq);
    law_enqueue_commits(t, mailbox, gone, env.id, value);
    law_enqueue_counts(rows, t, mailbox, k, env.id, value, total);
}

/// The removal of rows names the key of each, and frees so many bytes that a total that was right
/// for the table before is right for the table after.
pub proof fn law_removal_plan(t: Map<Seq<char>, Option<ValueView>>, rows: Seq<RowView>, total: usize)
    requires
        t.dom().finite(),
        holds(t, rows),
        distinct_rows(rows),
        total == table_bytes(t),
    ensures
        removal_of(rows).keys.len() == rows.len(),
        forall|i: int| 0 <= i < rows.len() ==> removal_of(rows).keys[i] == (#[trigger] rows[i]).key,
        lowered(total, removal_of(rows).freed) == table_bytes(without(t, removal_of(rows).keys)),
{
    law_removal_counts(t, rows, total);
}

/// Scanning adds the bytes of the rows to the total, and gives the larger of the number before and
/// the largest in the rows.
pub proof fn law_scanned(total: usize, max_seq: u64, rows: Seq<RowView>, i: int)
    requires
        0 <= i < rows.len(),
    ensures
        ({
            let (bytes, number) = scanned(total, max_seq, rows);
            &&& total + rows_bytes(rows) <= usize::MAX ==> bytes == total + rows_bytes(rows)
            &&& total + rows_bytes(rows) > usize::MAX ==> bytes == usize::MAX
            &&& number >= max_seq
            &&& rows[i].value matches Some(v) ==> v.s <= number
            &&& number == max_seq || number == rows_max_seq(rows)
        }),
{
    law_numbers(0, rows, i);
}

/// The range of an owner holds exactly the keys made of the owner, a colon and anything.
pub proof fn law_owner_range(k: Seq<char>, owner: Seq<char>)
    ensures
        in_range(k, owner_range(owner).0, owner_range(owner).1) <==> k.len() > owner.len() && k.take(
            owner.len() as int,
        ) == owner && k[owner.len() as int] == ':',
{
    law_range_selects_owner(k, owner);
}

// ---------------------------------------------------------------------------
// Files
// ---------------------------------------------------------------------------

/// The key of a chunk is the transfer, a colon and the index: both can be read off it.
pub proof fn law_chunk_key(transfer: Seq<char>, index: u32)
    requires
        !transfer.contains(':'),
    ensures
        split_first(file_chunk_key(transfer, index), ':') matches Some((owner, number)) && owner
            == transfer && parsed_u64(number) == Some(index as u64),
{
    let number = decimal_text(index as nat);
    let key = file_chunk_key(transfer, index);
    assert(key =~= transfer + seq![':'] + number);
    law_split_first(key, ':', transfer, number);
    law_decimal_roundtrip(index as nat);
    assert forall|i: int| 0 <= i < number.len() implies '0' <= #[trigger] number[i] <= '9' by {
        assert(crate::text::is_digit(number[i]));
    }
    law_parsed(number, number);
}

/// Whatever is stored, an upload needs bytes, a declared size within the limit of a file, a declared
/// number of chunks within the limit of chunks, and an index below it.
pub proof fn law_chunk_shape(config: FileConfig, r: ChunkRequest)
    ensures
        ({
            let formed = r.len > 0 && r.total_bytes > 0 && 0 < r.total_chunks <= config.max_chunks
                && r.chunk_index < r.total_chunks;
            &&& shape_refusal(config, r) is None <==> formed && r.total_bytes
                <= config.max_file_bytes
            &&& !formed ==> shape_refusal(config, r) == Some(FileReject::BadRequest)
            &&& formed && r.total_bytes > config.max_file_bytes ==> shape_refusal(config, r) == Some(
                FileReject::TooLarge,
            )
        }),
{
}

/// The first chunk of a transfer is taken exactly where both caps have room for the transfer and the
/// chunk is within what it declares; any other chunk of an unknown transfer is not found. The
/// transfer then holds one chunk more than none, with its bytes, and was created now.
pub proof fn law_first_chunk(v: FilesView, r: ChunkRequest, found: ChunkFound, now: u64)
    requires
        shape_refusal(v.config, r) is None,
        !v.entries.contains_key(r.transfer_id),
        found.prev_len is None,
        r.len <= u64::MAX,
    ensures
        ({
            let room = v.count < v.config.max_transfers && v.reserved + r.total_bytes
                <= v.config.max_total_file_bytes;
            let out = upload_outcome(v, r, found, now);
            &&& r.chunk_index != 0 ==> out == Err::<FileMeta, FileReject>(FileReject::NotFound)
            &&& r.chunk_index == 0 && !room && (v.reserved + r.total_bytes <= u64::MAX
                || v.config.max_total_file_bytes < u64::MAX) ==> out == Err::<FileMeta, FileReject>(
                FileReject::Full,
            )
            &&& r.chunk_index == 0 && room && r.len > r.total_bytes ==> out == Err::<
                FileMeta,
                FileReject,
            >(FileReject::BadRequest)
            &&& r.chunk_index == 0 && room && r.len <= r.total_bytes ==> (out matches Ok(m)
                && m.total_chunks == r.total_chunks && m.total_bytes == r.total_bytes
                && m.stored_bytes == r.len && m.received_chunks == 1 && m.created_at_ms == now)
        }),
{
}

/// A chunk of a known transfer is taken exactly where it declares the shape of the transfer, the
/// table holds the transfer, and all its bytes with those of the chunk, in the place of what it
/// replaces, are within what is declared and within the limit of a file. It is counted where it is
/// new, and only its bytes change where it replaces another.
pub proof fn law_later_chunk(
    v: FilesView,
    r: ChunkRequest,
    found: ChunkFound,
    now: u64,
    m: FileMeta,
    old_len: u64,
)
    requires
        shape_refusal(v.config, r) is None,
        v.entries.contains_key(r.transfer_id),
        found.prev_len is None ==> old_len == 0,
        found.prev_len is Some ==> found.prev_len == Some(old_len),
        old_len <= m.stored_bytes,
        m.stored_bytes + r.len <= u64::MAX,
        m.received_chunks < u32::MAX,
    ensures
        ({
            let cached = v.entries[r.transfer_id];
            let same = cached.total_chunks == r.total_chunks && cached.total_bytes == r.total_bytes;
            let stored = m.stored_bytes - old_len + r.len;
            let fits = stored <= m.total_bytes && stored <= v.config.max_file_bytes;
            let out = upload_outcome(v, r, found, now);
            &&& !same ==> out == Err::<FileMeta, FileReject>(FileReject::BadRequest)
            &&& same && (found.meta is None || found.meta == Some(None::<FileMeta>)) ==> out == Err::<
                FileMeta,
                FileReject,
            >(FileReject::NotFound)
            &&& same && found.meta == Some(Some(m)) && !fits ==> out == Err::<FileMeta, FileReject>(
                FileReject::BadRequest,
            )
            &&& same && found.meta == Some(Some(m)) && fits ==> (out matches Ok(after)
                && after.total_chunks == m.total_chunks && after.total_bytes == m.total_bytes
                && after.created_at_ms == m.created_at_ms && after.stored_bytes == stored
                && after.received_chunks == m.received_chunks + (if found.prev_len is None {
                1int
            } else {
                0
            }))
        }),
{
}

/// A fetch gives the stored bytes with the declared shape, exactly for a known transfer, an index
/// below its number of chunks and a chunk that is stored.
pub proof fn law_fetch_decides(
    v: FilesView,
    transfer: Seq<char>,
    index: u32,
    data: Option<Seq<u8>>,
)
    ensures
        ({
            let out = fetch_outcome(v, transfer, index, data);
            let known = v.entries.contains_key(transfer);
            let within = known && index < v.entries[transfer].total_chunks;
            &&& out is Ok <==> within && data is Some
            &&& out matches Ok(c) ==> data == Some(c.data) && c.total_chunks
                == v.entries[transfer].total_chunks && c.total_bytes
                == v.entries[transfer].total_bytes
            &&& !known ==> out == Err::<FetchedView, FileReject>(FileReject::NotFound)
            &&& known && !within ==> out == Err::<FetchedView, FileReject>(FileReject::BadRequest)
            &&& within && data is None ==> out == Err::<FetchedView, FileReject>(
                FileReject::NotFound,
            )
        }),
{
}

/// A committed upload puts its transfer, with the declared shape and the durable counts, into the
/// cache and is answered with its counts; every other transfer and both counters stay.
pub proof fn law_committed(
    v: FilesView,
    transfer: Seq<char>,
    meta: FileMeta,
    total_chunks: u32,
    total_bytes: u64,
    other: Seq<char>,
)
    ensures
        ({
            let after = committed_view(v, transfer, meta, total_chunks, total_bytes);
            let kept = after.entries[transfer];
            &&& after.entries.contains_key(transfer)
            &&& kept.total_chunks == total_chunks && kept.total_bytes == total_bytes
            &&& kept.stored_bytes == meta.stored_bytes && kept.received_chunks
                == meta.received_chunks && kept.created_at_ms == meta.created_at_ms
            &&& other != transfer ==> after.entries.contains_key(other) == v.entries.contains_key(
                other,
            ) && after.entries[other] == v.entries[other]
            &&& after.reserved == v.reserved && after.count == v.count && after.config == v.config
        }),
        stored_counts(meta, total_chunks).received_chunks == meta.received_chunks,
        stored_counts(meta, total_chunks).total_chunks == total_chunks,
{
}

/// A failed upload gives back its slot and its bytes exactly where it was to create its transfer;
/// the transfers themselves stay.
pub proof fn law_failed(v: FilesView, creating: bool, total_bytes: u64)
    ensures
        ({
            let after = failed_view(v, creating, total_bytes);
            &&& !creating ==> after == v
            &&& creating && v.count > 0 ==> after.count == v.count - 1
            &&& creating && v.reserved >= total_bytes ==> after.reserved == v.reserved - total_bytes
            &&& after.entries == v.entries && after.config == v.config
        }),
{
}

/// Deleting a transfer that exists takes it, and it alone, out of the cache and gives back its slot
/// and the bytes that its row declares; deleting one that does not changes nothing.
pub proof fn law_deleted(
    v: FilesView,
    transfer: Seq<char>,
    row: Option<Option<FileMeta>>,
    other: Seq<char>,
)
    ensures
        ({
            let bytes = given_back(row);
            let after = deleted_view(v, transfer, row is Some, bytes);
            &&& row matches Some(Some(m)) ==> bytes == m.total_bytes
            &&& row is None || row == Some(None::<FileMeta>) ==> bytes == 0
            &&& row is None ==> after == v
            &&& row is Some ==> !after.entries.contains_key(transfer)
            &&& row is Some && v.count > 0 ==> after.count == v.count - 1
            &&& row is Some && v.reserved >= bytes ==> after.reserved == v.reserved - bytes
            &&& other != transfer ==> after.entries.contains_key(other) == v.entries.contains_key(
                other,
            ) && after.entries[other] == v.entries[other]
            &&& after.config == v.config
        }),
{
}

/// Loading takes each row that decodes: its transfer, one to the count and its declared bytes to the
/// reservation. A row that does not decode changes nothing.
pub proof fn law_loads_transfers(rows: Seq<MetaRow>, row: MetaRow, k: Seq<char>)
    ensures
        loaded_entries(Seq::empty()) == Map::<Seq<char>, FileMeta>::empty(),
        loaded_bytes(Seq::empty()) == 0,
        loaded_count(Seq::empty()) == 0,
        ({
            let all = rows.push(row);
            &&& row.value is None ==> loaded_entries(all) == loaded_entries(rows) && loaded_bytes(
                all,
            ) == loaded_bytes(rows) && loaded_count(all) == loaded_count(rows)
            &&& row.value matches Some(m) ==> {
                &&& loaded_entries(all).contains_key(row.key@) && loaded_entries(all)[row.key@] == m
                &&& k != row.key@ ==> loaded_entries(all).contains_key(k) == loaded_entries(
                    rows,
                ).contains_key(k) && loaded_entries(all)[k] == loaded_entries(rows)[k]
                &&& loaded_count(all) == loaded_count(rows) + 1
                &&& loaded_bytes(rows) + m.total_bytes <= u64::MAX ==> loaded_bytes(all)
                    == loaded_bytes(rows) + m.total_bytes
                &&& loaded_bytes(rows) + m.total_bytes > u64::MAX ==> loaded_bytes(all) == u64::MAX
            }
        }),
{
    assert(rows.push(row).drop_last() =~= rows);
}

/// A store that is opened has the transfers of its rows, counts them and reserves their bytes.
pub proof fn law_loaded_store(config: FileConfig, rows: Seq<MetaRow>)
    ensures
        loaded_view(config, rows).config == config,
        loaded_view(config, rows).entries == loaded_entries(rows),
        loaded_view(config, rows).reserved == loaded_bytes(rows),
        loaded_count(rows) <= usize::MAX ==> loaded_view(config, rows).count == loaded_count(rows),
{
}

/// What an accepted upload writes is its data, whole, under the key of its transfer and its index,
/// with the declared shape; it creates its transfer exactly where that is unknown.
pub proof fn law_chunk_plan(v: FilesView, r: ChunkRequest, data: Seq<u8>, meta: FileMeta)
    requires
        !r.transfer_id.contains(':'),
    ensures
        ({
            let plan = chunk_plan(v, r, data, meta);
            &&& split_first(plan.key, ':') matches Some((owner, number)) && owner == r.transfer_id
                && parsed_u64(number) == Some(r.chunk_index as u64)
            &&& plan.key == file_chunk_key(r.transfer_id, r.chunk_index)
            &&& plan.data == data
            &&& plan.meta == meta
            &&& plan.total_chunks == r.total_chunks && plan.total_bytes == r.total_bytes
            &&& plan.creating <==> !v.entries.contains_key(r.transfer_id)
        }),
{
    law_chunk_key(r.transfer_id, r.chunk_index);
}

} // verus!
