//! Durable per-mailbox message queues.
//!
//! The rows of the queue table lie on disk; this module decides what is read from them and what is
//! written to them, and keeps the running totals. Limits are enforced per mailbox with oldest-first
//! eviction and a per-envelope lifetime, and a global byte backstop bounds the whole table.

use crate::config::{
    GLOBAL_QUEUE_DISK_CAP_BYTES, MAX_QUEUE_PER_RECIPIENT, PER_MAILBOX_QUEUE_BYTES, QUEUE_TTL_MS,
};
use crate::outside::{uuid_parse, uuid_text, uuid_to_text, uuid_value};
use crate::protocol::{EnvelopeView, StoredEnvelope};
use crate::table::{owner_range, removals, write_views, RowWrite, WriteView};
use crate::text::{byte_len, split_first, split_once, str_eq, text_len, views};
use crate::util::atomic_sub_saturating;
use vstd::prelude::*;
use vstd::utf8::*;

verus! {

/// The value of a queue row.
#[derive(Debug, Clone, PartialEq, Eq)]
pub struct StoredValue {
    /// Envelope type.
    pub t: String,
    /// Ciphertext, opaque to the relay.
    pub c: String,
    /// Time of queueing, for expiry.
    pub q: u64,
    /// Enqueue sequence number, for ordering and eviction.
    pub s: u64,
}

/// The model of a [`StoredValue`].
pub struct ValueView {
    pub t: Seq<char>,
    pub c: Seq<char>,
    pub q: u64,
    pub s: u64,
}

impl View for StoredValue {
    type V = ValueView;

    open spec fn view(&self) -> ValueView {
        ValueView { t: self.t@, c: self.c@, q: self.q, s: self.s }
    }
}

/// A row of the queue table; `None` where its bytes do not decode to a value.
#[derive(Debug, Clone, PartialEq, Eq)]
pub struct QueueRow {
    pub key: String,
    pub value: Option<StoredValue>,
}

/// The model of a [`QueueRow`].
pub struct RowView {
    pub key: Seq<char>,
    pub value: Option<ValueView>,
}

/// The view of an optional value.
pub open spec fn opt_value(v: Option<StoredValue>) -> Option<ValueView> {
    match v {
        Some(v) => Some(v@),
        None => None,
    }
}

impl View for QueueRow {
    type V = RowView;

    open spec fn view(&self) -> RowView {
        RowView { key: self.key@, value: opt_value(self.value) }
    }
}

/// The models of a run of rows.
pub open spec fn row_views(rows: Seq<QueueRow>) -> Seq<RowView> {
    Seq::new(rows.len(), |i: int| rows[i]@)
}

/// A queued envelope as read back from its row.
#[derive(Debug, Clone, PartialEq, Eq)]
pub struct QueueEntry {
    pub id: u128,
    pub value: StoredValue,
}

/// The model of a [`QueueEntry`].
pub struct EntryView {
    pub id: u128,
    pub value: ValueView,
}

impl View for QueueEntry {
    type V = EntryView;

    open spec fn view(&self) -> EntryView {
        EntryView { id: self.id, value: self.value@ }
    }
}

/// The models of a run of entries.
pub open spec fn entry_views(es: Seq<QueueEntry>) -> Seq<EntryView> {
    Seq::new(es.len(), |i: int| es[i]@)
}

// ---------------------------------------------------------------------------
// Keys
// ---------------------------------------------------------------------------

/// The key of an envelope: the mailbox, a colon and the identifier.
pub open spec fn queue_key(mailbox: Seq<char>, id: u128) -> Seq<char> {
    mailbox.push(':') + uuid_text(id)
}

/// The key of an envelope in a mailbox.
pub fn key_for(mailbox: &str, id: u128) -> (r: String)
    ensures
        r@ == queue_key(mailbox@, id),
{
    let mut out: String = mailbox.to_owned();
    out.push(':');
    let text: String = uuid_to_text(id);
    out.append(text.as_str());
    out
}

/// The half-open range of keys that holds exactly the entries of a mailbox.
pub fn mailbox_bounds(mailbox: &str) -> (r: (String, String))
    ensures
        r.0@ == mailbox@.push(':'),
        r.1@ == mailbox@.push(';'),
        (r.0@, r.1@) == owner_range(mailbox@),
{
    let mut lo: String = mailbox.to_owned();
    lo.push(':');
    let mut hi: String = mailbox.to_owned();
    hi.push(';');
    (lo, hi)
}

/// The identifier in a key, where what follows its first colon is one.
pub open spec fn key_id(key: Seq<char>) -> Option<u128> {
    match split_first(key, ':') {
        Some((_, id)) => uuid_value(id),
        None => None,
    }
}

/// The identifier in a key.
pub fn parse_id(key: &str) -> (r: Option<u128>)
    ensures
        r == key_id(key@),
{
    match split_once(key, ':') {
        Some((_, id)) => uuid_parse(id.as_str()),
        None => None,
    }
}

// ---------------------------------------------------------------------------
// Reading a mailbox
// ---------------------------------------------------------------------------

/// The entry of a row, where its key and its value can both be read.
pub open spec fn row_entry(r: RowView) -> Option<EntryView> {
    match key_id(r.key) {
        Some(id) => match r.value {
            Some(value) => Some(EntryView { id, value }),
            None => None,
        },
        None => None,
    }
}

/// The entries of the rows that can be read.
pub open spec fn readable(rows: Seq<RowView>) -> Seq<EntryView>
    decreases rows.len(),
{
    if rows.len() == 0 {
        Seq::empty()
    } else {
        let before = readable(rows.drop_last());
        match row_entry(rows.last()) {
            Some(e) => before.push(e),
            None => before,
        }
    }
}

/// `e` put behind the last entry whose sequence number is not larger.
pub open spec fn put_in_order(es: Seq<EntryView>, e: EntryView) -> Seq<EntryView>
    decreases es.len(),
{
    if es.len() > 0 && es.last().value.s > e.value.s {
        put_in_order(es.drop_last(), e).push(es.last())
    } else {
        es.push(e)
    }
}

/// The entries by sequence number, equal numbers in their given order.
pub open spec fn in_order(es: Seq<EntryView>) -> Seq<EntryView>
    decreases es.len(),
{
    if es.len() == 0 {
        es
    } else {
        put_in_order(in_order(es.drop_last()), es.last())
    }
}

/// The queue that the rows of a mailbox hold, oldest first.
pub open spec fn queue_of(rows: Seq<RowView>) -> Seq<EntryView> {
    in_order(readable(rows))
}

/// Whether entries are in order of their sequence numbers.
pub open spec fn ascending(es: Seq<EntryView>) -> bool {
    forall|i: int, j: int| 0 <= i <= j < es.len() ==> es[i].value.s <= es[j].value.s
}

proof fn lemma_put_at(es: Seq<EntryView>, e: EntryView, p: int)
    requires
        0 <= p <= es.len(),
        p > 0 ==> es[p - 1].value.s <= e.value.s,
        forall|j: int| p <= j < es.len() ==> es[j].value.s > e.value.s,
    ensures
        put_in_order(es, e) == es.insert(p, e),
    decreases es.len(),
{
    if p < es.len() {
        lemma_put_at(es.drop_last(), e, p);
        assert(es.insert(p, e) =~= es.drop_last().insert(p, e).push(es.last()));
    } else {
        assert(es.insert(p, e) =~= es.push(e));
    }
}

/// Puts an entry in its place among entries that are in order.
fn place(es: &mut Vec<QueueEntry>, e: QueueEntry)
    ensures
        entry_views(final(es)@) == put_in_order(entry_views(old(es)@), e@),
{
    let ghost before = entry_views(es@);
    let mut p: usize = es.len();
    while p > 0 && es[p - 1].value.s > e.value.s
        invariant
            p <= es@.len(),
            before == entry_views(es@),
            forall|j: int| p <= j < es@.len() ==> #[trigger] before[j].value.s > e.value.s,
        decreases p,
    {
        p -= 1;
        proof {
            assert(before[p as int] == es@[p as int]@);
        }
    }
    proof {
        if p > 0 {
            assert(before[p - 1] == es@[p - 1]@);
        }
        lemma_put_at(before, e@, p as int);
    }
    let ghost view = e@;
    es.insert(p, e);
    proof {
        assert(entry_views(es@) =~= before.insert(p as int, view));
    }
}

/// The entries of a mailbox, oldest first.
pub fn read_mailbox(rows: Vec<QueueRow>) -> (r: Vec<QueueEntry>)
    ensures
        entry_views(r@) == queue_of(row_views(rows@)),
{
    let ghost all = row_views(rows@);
    let mut out: Vec<QueueEntry> = Vec::new();
    proof {
        assert(entry_views(out@) =~= in_order(readable(all.take(0))));
    }
    for row in it: rows
        invariant
            it.seq() == rows@,
            all == row_views(rows@),
            entry_views(out@) == in_order(readable(all.take(it.index() as int))),
    {
        let ghost i = it.index() as int;
        proof {
            assert(all.take(i + 1).drop_last() =~= all.take(i));
            assert(all.take(i + 1).last() == row@);
        }
        match parse_id(row.key.as_str()) {
            Some(id) => {
                if let Some(value) = row.value {
                    let e: QueueEntry = QueueEntry { id, value };
                    proof {
                        let r1 = readable(all.take(i));
                        assert(r1.push(e@).drop_last() =~= r1);
                    }
                    place(&mut out, e);
                }
            },
            None => {},
        }
    }
    proof {
        assert(all.take(all.len() as int) =~= all);
    }
    out
}

// ---------------------------------------------------------------------------
// The store
// ---------------------------------------------------------------------------

/// The ciphertext bytes of entries.
pub open spec fn queue_bytes(es: Seq<EntryView>) -> nat
    decreases es.len(),
{
    if es.len() == 0 {
        0
    } else {
        queue_bytes(es.drop_last()) + byte_len(es.last().value.c)
    }
}

/// Whether a mailbox that holds `es` has room for an envelope of `incoming` bytes.
pub open spec fn has_room(es: Seq<EntryView>, incoming: nat) -> bool {
    es.len() + 1 <= MAX_QUEUE_PER_RECIPIENT && queue_bytes(es) + incoming <= PER_MAILBOX_QUEUE_BYTES
}

/// Whether `k` is how many of the oldest entries go: as few as make room, or all of them.
pub open spec fn is_eviction(es: Seq<EntryView>, incoming: nat, k: int) -> bool {
    &&& 0 <= k <= es.len()
    &&& k == es.len() || has_room(es.skip(k), incoming)
    &&& forall|j: int| 0 <= j < k ==> !has_room(#[trigger] es.skip(j), incoming)
}

/// A count of bytes, or the largest `usize` where it does not fit.
pub open spec fn capped(n: nat) -> usize {
    if n > usize::MAX {
        usize::MAX
    } else {
        n as usize
    }
}

/// A counter less `n`, at least zero.
pub open spec fn lowered(counter: usize, n: usize) -> usize {
    if counter >= n {
        (counter - n) as usize
    } else {
        0
    }
}

/// The byte total once an envelope is queued: the evicted bytes and the replaced ones go.
pub open spec fn counted_enqueue(
    total: usize,
    incoming: usize,
    evicted: usize,
    replaced: usize,
) -> usize {
    lowered(lowered(total.wrapping_add(incoming), evicted), replaced)
}

/// Whether `incoming` more bytes than `total` exceed the global backstop.
pub open spec fn exceeds_global(total: usize, incoming: usize) -> bool {
    total.saturating_add(incoming) > GLOBAL_QUEUE_DISK_CAP_BYTES
}

/// The first sequence number of a store over rows with numbers up to `max_seq`.
pub open spec fn first_number(max_seq: u64) -> u64 {
    max_seq.saturating_add(1)
}

/// The sequence number after another.
pub open spec fn next_number(seq: u64) -> u64 {
    seq.wrapping_add(1)
}

/// The time before which an envelope must have been queued to have outlived its lifetime.
pub open spec fn queue_cutoff(now: u64) -> u64 {
    now.saturating_sub(QUEUE_TTL_MS)
}

/// The value under which an envelope is stored.
pub open spec fn value_of(env: EnvelopeView, now: u64, seq: u64) -> ValueView {
    ValueView { t: env.envelope_type, c: env.ciphertext, q: now, s: seq }
}

/// The keys of entries of a mailbox.
pub open spec fn keys_of(mailbox: Seq<char>, es: Seq<EntryView>) -> Seq<Seq<char>> {
    Seq::new(es.len(), |i: int| queue_key(mailbox, es[i].id))
}

/// The writes that queue an envelope: the evicted entries go, then the envelope comes.
pub open spec fn enqueue_writes(
    mailbox: Seq<char>,
    evicted: Seq<EntryView>,
    id: u128,
    value: ValueView,
) -> Seq<WriteView<ValueView>> {
    removals::<ValueView>(keys_of(mailbox, evicted)).push(
        WriteView::Put { key: queue_key(mailbox, id), value },
    )
}

/// The ciphertext bytes in the row under a key; none where there is no such row.
pub open spec fn bytes_under(rows: Seq<RowView>, key: Seq<char>) -> nat
    decreases rows.len(),
{
    if rows.len() == 0 {
        0
    } else if rows.last().key == key {
        value_bytes(rows.last().value)
    } else {
        bytes_under(rows.drop_last(), key)
    }
}

/// Whether an identifier is among those of entries.
pub open spec fn has_id(es: Seq<EntryView>, id: u128) -> bool {
    exists|i: int| 0 <= i < es.len() && (#[trigger] es[i]).id == id
}

/// The ciphertext bytes that a new envelope takes the place of: those of the row under its key,
/// unless the envelope there is evicted.
pub open spec fn replaced_bytes(
    rows: Seq<RowView>,
    mailbox: Seq<char>,
    evicted: Seq<EntryView>,
    id: u128,
) -> nat {
    if has_id(evicted, id) {
        0
    } else {
        bytes_under(rows, queue_key(mailbox, id))
    }
}

/// What an enqueue writes and how it changes the byte total.
pub struct EnqueuePlan {
    /// The writes, to be committed in one transaction.
    pub writes: Vec<RowWrite<StoredValue>>,
    /// How many older envelopes are evicted.
    pub evicted: usize,
    /// The ciphertext bytes of the evicted envelopes.
    pub evicted_bytes: usize,
    /// The ciphertext bytes of an envelope under the same key that is not evicted.
    pub replaced_bytes: usize,
    /// The ciphertext bytes of the new envelope.
    pub incoming_bytes: usize,
}

/// The model of an [`EnqueuePlan`].
#[verifier::ext_equal]
pub struct EnqueueView {
    pub writes: Seq<WriteView<ValueView>>,
    pub evicted: int,
    pub evicted_bytes: usize,
    pub replaced_bytes: nat,
    pub incoming_bytes: nat,
}

impl View for EnqueuePlan {
    type V = EnqueueView;

    open spec fn view(&self) -> EnqueueView {
        EnqueueView {
            writes: write_views(self.writes@),
            evicted: self.evicted as int,
            evicted_bytes: self.evicted_bytes,
            replaced_bytes: self.replaced_bytes as nat,
            incoming_bytes: self.incoming_bytes as nat,
        }
    }
}

/// How an envelope is appended to a mailbox whose rows are `rows`, where `k` of the oldest make way.
pub open spec fn enqueue_plan(
    rows: Seq<RowView>,
    mailbox: Seq<char>,
    env: EnvelopeView,
    k: int,
    now: u64,
    seq: u64,
) -> EnqueueView {
    let gone = queue_of(rows).take(k);
    EnqueueView {
        writes: enqueue_writes(mailbox, gone, env.id, value_of(env, now, seq)),
        evicted: k,
        evicted_bytes: capped(queue_bytes(gone)),
        replaced_bytes: replaced_bytes(rows, mailbox, gone, env.id),
        incoming_bytes: byte_len(env.ciphertext),
    }
}

/// What an acknowledgement, a purge or a sweep removes.
pub struct RemovalPlan {
    /// The keys to remove, in one transaction.
    pub keys: Vec<String>,
    /// The ciphertext bytes that go with them.
    pub freed: usize,
}

/// The model of a [`RemovalPlan`].
#[verifier::ext_equal]
pub struct RemovalView {
    pub keys: Seq<Seq<char>>,
    pub freed: usize,
}

impl View for RemovalPlan {
    type V = RemovalView;

    open spec fn view(&self) -> RemovalView {
        RemovalView { keys: views(self.keys@), freed: self.freed }
    }
}

/// The removal of rows.
pub open spec fn removal_of(rows: Seq<RowView>) -> RemovalView {
    RemovalView { keys: row_keys(rows), freed: capped(rows_bytes(rows)) }
}

/// The bytes and the largest sequence number once rows are scanned after others.
pub open spec fn scanned(total: usize, max_seq: u64, rows: Seq<RowView>) -> (usize, u64) {
    (
        capped(total as nat + rows_bytes(rows)),
        if rows_max_seq(rows) > max_seq {
            rows_max_seq(rows)
        } else {
            max_seq
        },
    )
}

/// What the table holds under the key of an acknowledged envelope: no row, a row that cannot be
/// decoded, or a value.
pub struct AckLookup {
    pub id: u128,
    pub row: Option<Option<StoredValue>>,
}

/// The model of an [`AckLookup`].
pub struct LookupView {
    pub id: u128,
    pub row: Option<Option<ValueView>>,
}

impl View for AckLookup {
    type V = LookupView;

    open spec fn view(&self) -> LookupView {
        LookupView {
            id: self.id,
            row: match self.row {
                Some(v) => Some(opt_value(v)),
                None => None,
            },
        }
    }
}

/// The models of a run of lookups.
pub open spec fn lookup_views(ls: Seq<AckLookup>) -> Seq<LookupView> {
    Seq::new(ls.len(), |i: int| ls[i]@)
}

/// The ciphertext bytes of a value; none where it cannot be decoded.
pub open spec fn value_bytes(v: Option<ValueView>) -> nat {
    match v {
        Some(v) => byte_len(v.c),
        None => 0,
    }
}

/// The ciphertext bytes of rows.
pub open spec fn rows_bytes(rows: Seq<RowView>) -> nat
    decreases rows.len(),
{
    if rows.len() == 0 {
        0
    } else {
        rows_bytes(rows.drop_last()) + value_bytes(rows.last().value)
    }
}

/// The largest sequence number in rows, zero where there is none.
pub open spec fn rows_max_seq(rows: Seq<RowView>) -> u64
    decreases rows.len(),
{
    if rows.len() == 0 {
        0
    } else {
        let before = rows_max_seq(rows.drop_last());
        match rows.last().value {
            Some(v) => if v.s > before {
                v.s
            } else {
                before
            },
            None => before,
        }
    }
}

/// The keys of rows.
pub open spec fn row_keys(rows: Seq<RowView>) -> Seq<Seq<char>> {
    Seq::new(rows.len(), |i: int| rows[i].key)
}

/// Whether a row was queued before `cutoff`.
pub open spec fn is_stale(row: RowView, cutoff: u64) -> bool {
    match row.value {
        Some(v) => v.q < cutoff,
        None => false,
    }
}

/// The rows that were queued before `cutoff`.
pub open spec fn stale_rows(rows: Seq<RowView>, cutoff: u64) -> Seq<RowView> {
    rows.filter(|r: RowView| is_stale(r, cutoff))
}

/// Whether an identifier is among those of the first `n` lookups.
pub open spec fn seen_before(ls: Seq<LookupView>, n: int, id: u128) -> bool {
    exists|j: int| 0 <= j < n && (#[trigger] ls[j]).id == id
}

/// The rows that an acknowledgement removes: those present, each once.
pub open spec fn acked_rows(mailbox: Seq<char>, ls: Seq<LookupView>) -> Seq<RowView>
    decreases ls.len(),
{
    if ls.len() == 0 {
        Seq::empty()
    } else {
        let before = acked_rows(mailbox, ls.drop_last());
        match ls.last().row {
            Some(value) => if seen_before(ls, ls.len() - 1, ls.last().id) {
                before
            } else {
                before.push(RowView { key: queue_key(mailbox, ls.last().id), value })
            },
            None => before,
        }
    }
}

/// The envelope of an entry.
pub open spec fn envelope_of(mailbox: Seq<char>, e: EntryView) -> EnvelopeView {
    EnvelopeView { id: e.id, to: mailbox, envelope_type: e.value.t, ciphertext: e.value.c }
}

/// The envelopes of entries, in their order.
pub open spec fn envelopes_of(mailbox: Seq<char>, es: Seq<EntryView>) -> Seq<EnvelopeView> {
    Seq::new(es.len(), |i: int| envelope_of(mailbox, es[i]))
}

/// The models of a run of envelopes.
pub open spec fn envelope_views(es: Seq<StoredEnvelope>) -> Seq<EnvelopeView> {
    Seq::new(es.len(), |i: int| es[i]@)
}

/// The running totals over the durable queues.
pub struct QueueStore {
    /// Queued ciphertext bytes across all mailboxes, for the global backstop.
    total_bytes: usize,
    /// The next enqueue sequence number.
    next_seq: u64,
}

proof fn lemma_skip_bytes(es: Seq<EntryView>, k: int)
    requires
        0 <= k <= es.len(),
    ensures
        queue_bytes(es) == queue_bytes(es.take(k)) + queue_bytes(es.skip(k)),
    decreases es.len() - k,
{
    if k == es.len() {
        assert(es.take(k) =~= es);
        assert(es.skip(k) =~= Seq::empty());
    } else {
        lemma_skip_bytes(es.drop_last(), k);
        assert(es.drop_last().take(k) =~= es.take(k));
        assert(es.drop_last().skip(k) =~= es.skip(k).drop_last());
    }
}

proof fn lemma_take_has_id(es: Seq<EntryView>, k: int, id: u128)
    requires
        0 <= k < es.len(),
    ensures
        has_id(es.take(k + 1), id) <==> has_id(es.take(k), id) || es[k].id == id,
{
    let (a, b) = (es.take(k), es.take(k + 1));
    if has_id(a, id) {
        let i = choose|i: int| 0 <= i < a.len() && (#[trigger] a[i]).id == id;
        assert(b[i].id == id);
    }
    if es[k].id == id {
        assert(b[k].id == id);
    }
    if has_id(b, id) && es[k].id != id {
        let i = choose|i: int| 0 <= i < b.len() && (#[trigger] b[i]).id == id;
        assert(b[k] == es[k]);
        assert(a[i].id == id);
    }
}

/// The ciphertext bytes in the row under a key; none where there is no such row.
fn row_bytes(rows: &Vec<QueueRow>, key: &str) -> (r: usize)
    ensures
        r == bytes_under(row_views(rows@), key@),
{
    let ghost all = row_views(rows@);
    let mut under: usize = 0;
    let mut i: usize = 0;
    while i < rows.len()
        invariant
            i <= rows@.len(),
            all == row_views(rows@),
            under == bytes_under(all.take(i as int), key@),
        decreases rows@.len() - i,
    {
        proof {
            assert(all.take(i + 1).drop_last() =~= all.take(i as int));
            assert(all[i as int] == rows@[i as int]@);
        }
        if str_eq(rows[i].key.as_str(), key) {
            under = match &rows[i].value {
                Some(val) => text_len(val.c.as_str()),
                None => 0,
            };
        }
        i += 1;
    }
    proof {
        assert(all.take(all.len() as int) =~= all);
    }
    under
}

impl QueueStore {
    /// The queued bytes that the store has counted.
    pub closed spec fn total(self) -> usize {
        self.total_bytes
    }

    /// The sequence number of the next enqueue.
    pub closed spec fn seq(self) -> u64 {
        self.next_seq
    }

    /// A store over a table whose rows hold `total` ciphertext bytes and sequence numbers up to
    /// `max_seq`. The sequence goes on past them, so that the order survives a restart.
    pub fn open(total: usize, max_seq: u64) -> (r: QueueStore)
        ensures
            r.total() == total,
            r.seq() == first_number(max_seq),
    {
        QueueStore { total_bytes: total, next_seq: max_seq.saturating_add(1) }
    }

    /// The queued ciphertext bytes across all mailboxes.
    pub fn total_bytes(&self) -> (r: usize)
        ensures
            r == self.total(),
    {
        self.total_bytes
    }

    /// Whether `incoming_len` more bytes would exceed the global backstop. Live delivery does not
    /// depend on it.
    pub fn would_exceed_global(&self, incoming_len: usize) -> (r: bool)
        ensures
            r == exceeds_global(self.total(), incoming_len),
    {
        self.total_bytes.saturating_add(incoming_len) as u64 > GLOBAL_QUEUE_DISK_CAP_BYTES
    }

    /// Decides how an envelope is appended to a mailbox whose rows are `rows`: the oldest entries go
    /// first, until the new one fits within the limits on count and bytes.
    pub fn enqueue(
        &mut self,
        mailbox: &str,
        env: &StoredEnvelope,
        rows: Vec<QueueRow>,
        now: u64,
    ) -> (r: EnqueuePlan)
        ensures
            final(self).total() == old(self).total(),
            final(self).seq() == next_number(old(self).seq()),
            ({
                let es = queue_of(row_views(rows@));
                &&& is_eviction(es, byte_len(env.ciphertext@), r.evicted as int)
                &&& write_views(r.writes@) == enqueue_writes(
                    mailbox@,
                    es.take(r.evicted as int),
                    env.id,
                    value_of(env@, now, old(self).seq()),
                )
                &&& r.evicted_bytes == capped(queue_bytes(es.take(r.evicted as int)))
                &&& r.replaced_bytes == replaced_bytes(
                    row_views(rows@),
                    mailbox@,
                    es.take(r.evicted as int),
                    env.id,
                )
                &&& r.incoming_bytes == byte_len(env.ciphertext@)
            }),
            r@ == enqueue_plan(
                row_views(rows@),
                mailbox@,
                env@,
                r.evicted as int,
                now,
                old(self).seq(),
            ),
    {
        let incoming: usize = text_len(env.ciphertext.as_str());
        let seq: u64 = self.next_seq;
        self.next_seq = seq.wrapping_add(1);
        let key: String = key_for(mailbox, env.id);
        let under: usize = row_bytes(&rows, key.as_str());
        let existing: Vec<QueueEntry> = read_mailbox(rows);
        let ghost es = queue_of(row_views(rows@));

        let mut cur_bytes: u128 = 0;
        let mut i: usize = 0;
        while i < existing.len()
            invariant
                i <= existing@.len(),
                entry_views(existing@) == es,
                cur_bytes == queue_bytes(es.take(i as int)),
                cur_bytes <= i * 0xffff_ffff_ffff_ffff,
            decreases existing@.len() - i,
        {
            let len: usize = text_len(existing[i].value.c.as_str());
            proof {
                assert(es.take(i + 1).drop_last() =~= es.take(i as int));
                assert(es[i as int] == existing@[i as int]@);
            }
            cur_bytes = cur_bytes + len as u128;
            i += 1;
        }
        proof {
            assert(es.take(es.len() as int) =~= es);
            assert(es.take(0) =~= Seq::empty());
            assert(es.skip(0) =~= es);
        }

        let mut evicted_bytes: usize = 0;
        let mut writes: Vec<RowWrite<StoredValue>> = Vec::new();
        let mut idx: usize = 0;
        let mut gone: bool = false;
        proof {
            assert(write_views(writes@) =~= removals::<ValueView>(keys_of(mailbox@, es.take(0))));
        }
        while idx < existing.len() && (existing.len() - idx >= MAX_QUEUE_PER_RECIPIENT
            || cur_bytes + incoming as u128 > PER_MAILBOX_QUEUE_BYTES as u128)
            invariant
                idx <= existing@.len(),
                entry_views(existing@) == es,
                incoming == byte_len(env.ciphertext@),
                cur_bytes == queue_bytes(es.skip(idx as int)),
                cur_bytes <= existing@.len() * 0xffff_ffff_ffff_ffff,
                evicted_bytes == capped(queue_bytes(es.take(idx as int))),
                gone == has_id(es.take(idx as int), env.id),
                write_views(writes@) == removals::<ValueView>(
                    keys_of(mailbox@, es.take(idx as int)),
                ),
                forall|j: int| 0 <= j < idx ==> !has_room(#[trigger] es.skip(j), incoming as nat),
            decreases existing@.len() - idx,
        {
            let id: u128 = existing[idx].id;
            let len: usize = text_len(existing[idx].value.c.as_str());
            let old_key: String = key_for(mailbox, id);
            let ghost before = writes@;
            writes.push(RowWrite::Remove { key: old_key });
            proof {
                let k = idx as int;
                assert(es[k] == existing@[k]@);
                assert(!has_room(es.skip(k), incoming as nat));
                assert(es.take(k + 1).drop_last() =~= es.take(k));
                lemma_skip_bytes(es, k);
                lemma_skip_bytes(es, k + 1);
                assert(write_views(writes@) =~= write_views(before).push(
                    WriteView::Remove { key: old_key@ },
                ));
                assert(removals::<ValueView>(keys_of(mailbox@, es.take(k + 1))) =~= removals::<
                    ValueView,
                >(keys_of(mailbox@, es.take(k))).push(WriteView::Remove { key: old_key@ }));
                lemma_take_has_id(es, k, env.id);
            }
            if id == env.id {
                gone = true;
            }
            evicted_bytes = evicted_bytes.saturating_add(len);
            cur_bytes = cur_bytes - len as u128;
            idx += 1;
        }

        let replaced_bytes: usize = if gone {
            0
        } else {
            under
        };
        let value: StoredValue = StoredValue {
            t: env.envelope_type.clone(),
            c: env.ciphertext.clone(),
            q: now,
            s: seq,
        };
        let ghost before = writes@;
        writes.push(RowWrite::Put { key, value });
        proof {
            assert(write_views(writes@) =~= write_views(before).push(
                WriteView::Put { key: key@, value: value@ },
            ));
        }
        EnqueuePlan { writes, evicted: idx, evicted_bytes, replaced_bytes, incoming_bytes: incoming }
    }

    /// Counts a committed enqueue; gives the number of evicted envelopes.
    pub fn enqueue_committed(&mut self, plan: &EnqueuePlan) -> (r: usize)
        ensures
            r == plan.evicted,
            final(self).seq() == old(self).seq(),
            final(self).total() == counted_enqueue(
                old(self).total(),
                plan.incoming_bytes,
                plan.evicted_bytes,
                plan.replaced_bytes,
            ),
    {
        self.total_bytes = self.total_bytes.wrapping_add(plan.incoming_bytes);
        atomic_sub_saturating(&mut self.total_bytes, plan.evicted_bytes);
        atomic_sub_saturating(&mut self.total_bytes, plan.replaced_bytes);
        plan.evicted
    }

    /// Counts a committed removal; gives the number of removed envelopes.
    pub fn removal_committed(&mut self, plan: &RemovalPlan) -> (r: usize)
        ensures
            r == plan.keys@.len(),
            final(self).seq() == old(self).seq(),
            final(self).total() == lowered(old(self).total(), plan.freed),
    {
        atomic_sub_saturating(&mut self.total_bytes, plan.freed);
        plan.keys.len()
    }

    /// Adds a run of rows to the ciphertext bytes and the largest sequence number of those scanned
    /// before it.
    pub fn scan_totals(total: usize, max_seq: u64, rows: &Vec<QueueRow>) -> (r: (usize, u64))
        ensures
            r == scanned(total, max_seq, row_views(rows@)),
    {
        let ghost all = row_views(rows@);
        let mut sum: usize = total;
        let mut top: u64 = max_seq;
        let mut i: usize = 0;
        while i < rows.len()
            invariant
                i <= rows@.len(),
                all == row_views(rows@),
                sum == capped(total as nat + rows_bytes(all.take(i as int))),
                top == (if rows_max_seq(all.take(i as int)) > max_seq {
                    rows_max_seq(all.take(i as int))
                } else {
                    max_seq
                }),
            decreases rows@.len() - i,
        {
            proof {
                assert(all.take(i + 1).drop_last() =~= all.take(i as int));
                assert(all[i as int] == rows@[i as int]@);
            }
            if let Some(val) = &rows[i].value {
                sum = sum.saturating_add(text_len(val.c.as_str()));
                if val.s > top {
                    top = val.s;
                }
            }
            i += 1;
        }
        proof {
            assert(all.take(all.len() as int) =~= all);
        }
        (sum, top)
    }

    /// The envelopes queued for a mailbox whose rows are `rows`, oldest first. Nothing is deleted: the
    /// receiver acknowledges.
    pub fn flush(&self, mailbox: &str, rows: Vec<QueueRow>) -> (r: Vec<StoredEnvelope>)
        ensures
            envelope_views(r@) == envelopes_of(mailbox@, queue_of(row_views(rows@))),
    {
        let entries: Vec<QueueEntry> = read_mailbox(rows);
        let ghost es = queue_of(row_views(rows@));
        let mut out: Vec<StoredEnvelope> = Vec::new();
        for e in it: entries
            invariant
                it.seq() == entries@,
                entry_views(entries@) == es,
                out@.len() == it.index(),
                forall|j: int|
                    0 <= j < out@.len() ==> (#[trigger] out@[j])@ == envelope_of(mailbox@, es[j]),
        {
            proof {
                assert(es[it.index() as int] == e@);
            }
            out.push(
                StoredEnvelope {
                    id: e.id,
                    to: mailbox.to_owned(),
                    envelope_type: e.value.t,
                    ciphertext: e.value.c,
                },
            );
        }
        proof {
            assert(envelope_views(out@) =~= envelopes_of(mailbox@, es));
        }
        out
    }

    /// Whether a mailbox with the given rows has nothing queued.
    pub fn is_empty(&self, rows: &Vec<QueueRow>) -> (r: bool)
        ensures
            r == (rows@.len() == 0),
    {
        rows.len() == 0
    }

    /// Decides what acknowledging envelopes removes from a mailbox.
    pub fn ack(&self, mailbox: &str, lookups: &Vec<AckLookup>) -> (r: RemovalPlan)
        ensures
            r@ == removal_of(acked_rows(mailbox@, lookup_views(lookups@))),
    {
        let ghost ls = lookup_views(lookups@);
        let mut keys: Vec<String> = Vec::new();
        let mut freed: usize = 0;
        let mut i: usize = 0;
        proof {
            assert(views(keys@) =~= row_keys(acked_rows(mailbox@, ls.take(0))));
        }
        while i < lookups.len()
            invariant
                i <= lookups@.len(),
                ls == lookup_views(lookups@),
                views(keys@) == row_keys(acked_rows(mailbox@, ls.take(i as int))),
                freed == capped(rows_bytes(acked_rows(mailbox@, ls.take(i as int)))),
            decreases lookups@.len() - i,
        {
            let id: u128 = lookups[i].id;
            let ghost cur = ls.take(i + 1);
            let ghost done = acked_rows(mailbox@, ls.take(i as int));
            proof {
                assert(cur.drop_last() =~= ls.take(i as int));
                assert(cur.last() == lookups@[i as int]@);
            }
            if let Some(value) = &lookups[i].row {
                let mut seen: bool = false;
                let mut j: usize = 0;
                while j < i
                    invariant
                        j <= i < lookups@.len(),
                        ls == lookup_views(lookups@),
                        cur == ls.take(i + 1),
                        seen == seen_before(cur, j as int, id),
                    decreases i - j,
                {
                    proof {
                        assert(cur[j as int] == lookups@[j as int]@);
                    }
                    if lookups[j].id == id {
                        seen = true;
                    }
                    j += 1;
                }
                if !seen {
                    let key: String = key_for(mailbox, id);
                    let ghost before = keys@;
                    keys.push(key);
                    if let Some(val) = value {
                        freed = freed.saturating_add(text_len(val.c.as_str()));
                    }
                    proof {
                        let row = RowView { key: key@, value: opt_value(*value) };
                        assert(acked_rows(mailbox@, cur) == done.push(row));
                        assert(done.push(row).drop_last() =~= done);
                        assert(views(keys@) =~= views(before).push(key@));
                        assert(row_keys(done.push(row)) =~= row_keys(done).push(key@));
                    }
                }
            }
            i += 1;
        }
        proof {
            assert(ls.take(ls.len() as int) =~= ls);
        }
        RemovalPlan { keys, freed }
    }

    /// Decides what dropping a mailbox with the given rows removes: every row.
    pub fn purge_mailbox(&self, rows: &Vec<QueueRow>) -> (r: RemovalPlan)
        ensures
            r@ == removal_of(row_views(rows@)),
    {
        let ghost all = row_views(rows@);
        let mut keys: Vec<String> = Vec::new();
        let mut freed: usize = 0;
        let mut i: usize = 0;
        while i < rows.len()
            invariant
                i <= rows@.len(),
                all == row_views(rows@),
                keys@.len() == i,
                forall|j: int| 0 <= j < i ==> (#[trigger] keys@[j])@ == all[j].key,
                freed == capped(rows_bytes(all.take(i as int))),
            decreases rows@.len() - i,
        {
            proof {
                assert(all.take(i + 1).drop_last() =~= all.take(i as int));
                assert(all[i as int] == rows@[i as int]@);
            }
            if let Some(val) = &rows[i].value {
                freed = freed.saturating_add(text_len(val.c.as_str()));
            }
            keys.push(rows[i].key.clone());
            i += 1;
        }
        proof {
            assert(all.take(all.len() as int) =~= all);
            assert(views(keys@) =~= row_keys(all));
        }
        RemovalPlan { keys, freed }
    }

    /// Decides what a sweep over all rows removes: the envelopes queued longer ago than their lifetime.
    pub fn sweep_expired(&self, rows: &Vec<QueueRow>, now: u64) -> (r: RemovalPlan)
        ensures
            r@ == removal_of(stale_rows(row_views(rows@), queue_cutoff(now))),
    {
        let cutoff: u64 = now.saturating_sub(QUEUE_TTL_MS);
        let ghost all = row_views(rows@);
        let ghost p = |r: RowView| is_stale(r, cutoff);
        let mut keys: Vec<String> = Vec::new();
        let mut freed: usize = 0;
        let mut i: usize = 0;
        proof {
            reveal(Seq::filter);
            assert(all.take(0) =~= Seq::empty());
            assert(views(keys@) =~= row_keys(all.take(0).filter(p)));
        }
        while i < rows.len()
            invariant
                i <= rows@.len(),
                all == row_views(rows@),
                p == (|r: RowView| is_stale(r, cutoff)),
                views(keys@) == row_keys(all.take(i as int).filter(p)),
                freed == capped(rows_bytes(all.take(i as int).filter(p))),
            decreases rows@.len() - i,
        {
            let ghost done = all.take(i as int).filter(p);
            proof {
                reveal(Seq::filter);
                assert(all.take(i + 1).drop_last() =~= all.take(i as int));
                assert(all[i as int] == rows@[i as int]@);
            }
            if let Some(val) = &rows[i].value {
                if val.q < cutoff {
                    freed = freed.saturating_add(text_len(val.c.as_str()));
                    let ghost before = keys@;
                    keys.push(rows[i].key.clone());
                    proof {
                        let row = all[i as int];
                        assert(all.take(i + 1).filter(p) == done.push(row));
                        assert(done.push(row).drop_last() =~= done);
                        assert(views(keys@) =~= views(before).push(row.key));
                        assert(row_keys(done.push(row)) =~= row_keys(done).push(row.key));
                    }
                }
            }
            i += 1;
        }
        proof {
            assert(all.take(all.len() as int) =~= all);
        }
        RemovalPlan { keys, freed }
    }
}

} // verus!
